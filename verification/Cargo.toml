[package]
name = "gpui_core"
version = "0.1.0"
edition = "2021"
publish = false

[dependencies]
anyhow = "1"
block2 = "0.6"
cocoa = "0.26"
core-foundation = "0.10"
core-video = { version = "0.4", features = ["metal"] }
foreign-types = "0.5"
futures = "0.3"
image = { version = "0.25", default-features = false }
log = "0.4"
metal = { version = "*", default-features = false }
objc = "0.2"
objc2 = "0.6"
objc2-foundation = "0.3"
objc2-metal = "0.3"
objc2-ui-kit = "0.3"
objc2-uniform-type-identifiers = "0.3"
proc-macro-crate = "3"
rustc-hash = "2"
taffy = "0.9"
