//! Views, and the caching of what they draw.

pub mod cache;
pub mod element;
pub mod laws;
pub mod stats;
pub mod window;
