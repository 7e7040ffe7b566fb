//! Core engine of an add-on manager for World of Warcraft: stable
//! content-based folder identity, persistent fingerprint and identity caches,
//! a multi-source repository abstraction, and the version-comparison logic
//! that decides whether an installed add-on can be updated.

pub mod addon;
pub mod cache;
pub mod config;
pub mod error;
pub mod fingerprint;
pub mod repository;
pub mod retry;
pub mod strings;
pub mod utility;
