//! Core of a package manager for an operating-system distribution: a package
//! database (repository snapshot plus installed set), a dependency resolver
//! with explicit cycle detection, checksum verification of fetched artifacts,
//! and the pure planning steps of the install/remove/upgrade transactions.
//! All I/O (network fetch, archive extraction, persistence) lives outside this
//! library; it works on plain values and proves its contracts.

pub mod config;
pub mod db;
pub mod error;
pub mod install;
pub mod resolve;
pub mod text;
pub mod verify;
