//! Catalog of installed engine packages.
//!
//! An engine root is a directory whose immediate subdirectories each hold one
//! engine, described by a `meta.json` sidecar file. This crate holds the
//! verified core: the sidecar codec, the per-engine metadata store, the scan
//! that assembles a catalog from a directory listing, and the path resolver.
//! All filesystem work is left to the caller, which hands the library plain
//! values (names, file contents) and performs the writes the scan requests.

pub mod catalog;
pub mod codec;
pub mod metadata;
pub mod scan;

pub use catalog::Engine;
pub use catalog::EngineRoot;
pub use catalog::EngineRootBuilder;
pub use catalog::NotFoundError;
pub use codec::from_json;
pub use codec::to_json;
pub use scan::LoadedMetadata;
pub use scan::ScanEntry;
pub use scan::ScanOutcome;
pub use scan::SidecarWrite;
pub use scan::load_or_create;

pub use metadata::EngineMetadata;
pub use metadata::MetaError;
pub use metadata::MetaFields;
pub use metadata::Modpack;
pub use metadata::ModpackFields;
