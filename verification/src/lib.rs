//! Project-local overlays of a shared TeX Live installation.
//!
//! Given a declared set of package names, this library computes the full
//! transitive dependency closure against the package manager's metadata,
//! plans a link-based overlay directory that mirrors the files those
//! packages own, rewrites search-path environment values to point at the
//! overlay, and decides from a persisted configuration digest whether the
//! overlay must be rebuilt at all.

pub mod classify;
pub mod commands;
pub mod closure;
pub mod config;
pub mod digest;
pub mod error;
pub mod metadata;
pub mod overlay;
pub mod pathenv;
pub mod order;
pub mod platform;
pub mod resolver;
pub mod strings;
