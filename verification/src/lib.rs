//! Selective file sync for a version-controlled tree: which paths changed, and
//! where each of them goes on the remote host.
//!
//! The library performs no I/O. Callers run the version-control backend and
//! the transfer, and hand the library what came back.

pub mod changeset;
pub mod commit;
pub mod config;
pub mod destination;
pub mod error;
pub mod gsync;
pub mod order;
pub mod pattern;
pub mod plan;
pub mod selection;
pub mod text;
