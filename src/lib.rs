//! Display configuration for a Wayland compositor: reading the output
//! manager's report, building its apply command, and keeping the
//! compositor's monitor rules in sync with a backup of the rules that
//! stood before.

pub mod backup;
pub mod command;
pub mod document;
pub mod files;
pub mod fragment;
pub mod model;
pub mod report;
pub mod rules;
pub mod settings;
pub mod sync;
pub mod text;
pub mod words;
