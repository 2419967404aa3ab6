//! Client-side logic for container image registries: manifests and their
//! layers, and the rendering of layers into a directory tree.

pub mod auth;
pub mod bytes;
pub mod client;
pub mod codec;
pub mod digest;
pub mod errors;
pub mod manifest;
pub mod mediatypes;
pub mod path;
pub mod plan;
pub mod reference;
pub mod render;
pub mod text;
pub mod tree;
pub mod v2;
