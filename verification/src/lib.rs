//! The decision and text-processing logic of the DSH Desktop shell, verified.

pub mod text;
pub mod ansi;
pub mod launch;
pub mod semver;
pub mod i18n;
pub mod server;
pub mod nav;
pub mod reports;
pub mod commands;
pub mod plugins;
