//! OpenFlow: push-to-talk dictation logic, verified with Verus.
pub mod app;
pub mod ax_text;
pub mod config;
pub mod domain;
pub mod icon;
pub mod launchd;
pub mod pipeline;
pub mod platform;
pub mod services;
pub mod session;
pub mod text;
pub mod tray;
