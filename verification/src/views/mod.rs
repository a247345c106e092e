//! Per-view logic; one file per view.

pub mod activity;
