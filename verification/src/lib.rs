//! Zone-based tiling window management: the verified core.
//!
//! Geometry, zone trees, per-monitor window bookkeeping, workspace switching,
//! directional navigation, action names and keymaps. Everything that talks to
//! the operating system goes through the `WindowSystem` trait or stays in the
//! application around this library.
pub mod models;
pub mod state;
pub mod config;
pub mod commands;
pub mod text;
pub mod actions;
pub mod tray;
