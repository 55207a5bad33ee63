//! The decisions behind the platform layer for tablets.

pub mod documents;
pub mod keys;
pub mod menu;
pub mod pointer;
