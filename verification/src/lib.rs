//! The platform-neutral core of a retained-mode user-interface toolkit.

pub mod facade;
pub mod geometry;
pub mod ios;
pub mod layout;
pub mod renderer;
pub mod style;
pub mod text;
pub mod view;
