//! Backend core of a remote development environment: a per-connection
//! session engine, a virtual filesystem with a trash, and path resolution.

pub mod auth;
pub mod codec;
pub mod path;
pub mod protocol;
pub mod session;
pub mod text;
pub mod vfs;
pub mod vfs_laws;
