//! Core of a command-line mod manager: an ordered registry of managed mod
//! archives, the reordering operations on it, and the pure planning logic of
//! a deploy pass (undeploy, extract, install, plugin list), with proofs that
//! a pass is idempotent and self-healing, that the later entry of the load
//! order wins a destination collision, and that disabling a mod removes what
//! only it contributed.
//!
//! Filesystem walks, link creation, subprocess invocation and configuration
//! I/O live outside the library and exchange plain values with it: paths come
//! in as component lists, tree contents as listings, and a pass goes out as a
//! list of actions to execute.

pub mod app;
pub mod deploy;
pub mod error;
pub mod extract;
pub mod fomod;
pub mod game;
pub mod library;
pub mod plugins;
pub mod registry;
pub mod utils;
