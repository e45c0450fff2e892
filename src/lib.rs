//! Verified core of a manager for versioned system-extension images: filename
//! parsing, configuration merging, catalog scanning, version resolution and the
//! decisions behind activation, removal and updates.

pub mod arch;
pub mod text;
pub mod version;
pub mod image;
pub mod config;
pub mod activation;
pub mod resolve;
pub mod manager;
pub mod manifest;
pub mod sha256writer;
pub mod update;
pub mod ostree;
