//! A package and project manager for Csound modules: manifests, lock files,
//! module registries, version resolution and the checks run before a
//! module is published.

pub mod text;
pub mod version;
pub mod names;
pub mod collections;
pub mod json;
pub mod registry;
pub mod remote;
pub mod manifest;
pub mod lock;
pub mod gitignore;
pub mod checks;
pub mod actions;
pub mod walk;
pub mod path_order;
pub mod checksum;
pub mod csound;
pub mod cli;
pub mod project;
