//! The renderer of scenes.

pub mod drawing;
pub mod frame;
pub mod gpu;
pub mod metal4_renderer;
pub mod order;
pub mod readback;
pub mod residency;
pub mod select;
pub mod setup;
