//! A deployment and lifecycle engine for a desktop application.
//!
//! A single launcher decides, at each run, whether to perform a first
//! install, a version-gated upgrade with rollback, or simply launch the
//! already-installed application; a companion updater checks a remote
//! manifest and triggers a self-replacing update.
//!
//! Filesystem state is modelled explicitly (see [`fs`]), and outside
//! effects (process execution, network fetches, shortcut creation) go
//! through ports so that the decision logic is verified for every
//! outcome of those effects.

pub mod builder;
pub mod dec;
pub mod errors;
pub mod fs;
pub mod guard;
pub mod fs_ops;
pub mod installer;
pub mod json;
pub mod paths;
pub mod ports;
pub mod payload;
pub mod runner;
pub mod shortcuts;
pub mod state;
pub mod strutil;
pub mod ui;
pub mod updater;
pub mod uv;
pub mod version;
