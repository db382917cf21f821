//! Decision logic of a keyboard-driven Arch Linux package commander:
//! queue management, fuzzy package search, the installer's fallback
//! state machine, package-index merging and text parsers for the output
//! of `pacman`, `expac` and the AUR helpers.

pub mod text;
pub mod clock;
pub mod fields;
pub mod search;
pub mod detail;
pub mod syncer;
pub mod config;
pub mod db;
pub mod display;
pub mod cli;
pub mod model;
pub mod order;
pub mod backend;
pub mod installer;
pub mod indexer;
pub mod art;
pub mod app;
