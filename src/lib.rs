//! A small package manager's core: the repository registry, package
//! resolution, the package cache, the tracking database of installed
//! packages and the install / remove / update policy.
//!
//! Everything that touches the network, the disk or a subprocess is done by
//! the caller; the functions here take the outcome of such work as plain
//! values and decide what happens next.
pub mod cache;
pub mod cli;
pub mod error;
pub mod installer;
pub mod package;
pub mod registry;
pub mod resolver;
pub mod text;
pub mod tracker;
pub mod version;
