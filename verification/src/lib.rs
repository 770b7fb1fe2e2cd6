//! Verified core of a portable-game capsule manager.
//!
//! The library covers the engineering heart of the pipeline: the resumable
//! download engine, the runtime installer, the shortcut byte scanner, the
//! executable resolver, the catalog matcher and the process supervisor.
//! All I/O is performed by the surrounding application, which feeds plain
//! values to the functions here and carries their decisions out.

pub mod appimage;
pub mod capsule;
pub mod catalog;
pub mod download;
pub mod paths;
pub mod resolver;
pub mod runtime;
pub mod scanner;
pub mod supervisor;
pub mod system;
pub mod text;
