//! The label clean-up tool: moving a legacy `type: ...` label to the issue's Type field.
pub mod config;
pub mod remove_legacy_label;
