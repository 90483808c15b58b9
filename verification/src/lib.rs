//! The decisions of an offline dictation tool.

pub mod app_scope;
pub mod audio;
pub mod clipboard;
pub mod cues;
pub mod flow;
pub mod gpu;
pub mod gpu_worker;
pub mod hotkeys;
pub mod hotkeys_portal;
pub mod hw;
pub mod inject;
pub mod json;
pub mod pattern;
pub mod placement;
pub mod power;
pub mod report;
pub mod store;
pub mod text;
pub mod transcribe;
pub mod vocab;
