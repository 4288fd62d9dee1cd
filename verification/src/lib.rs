//! Verified core of the StatTracker desk widget: configuration rules, the
//! offline tally queue's sync protocol, release-note formatting and the
//! small decisions the widget's commands make.
pub mod api;
pub mod commands;
pub mod config;
pub mod db;
pub mod paths;
pub mod error;
pub mod json;
pub mod sync;
pub mod text;
pub mod updates;
