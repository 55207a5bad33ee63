//! Layout: the tree of nodes that is kept from frame to frame.

pub mod bounds;
pub mod compute;
pub mod engine;
pub mod flags;
pub mod forest;
pub mod history;
pub mod key;
pub mod laws;
pub mod request;
pub mod stats;
pub mod sweep;
pub mod tree;
pub mod verify;
pub mod walk;
