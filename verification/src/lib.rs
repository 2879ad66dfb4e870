//! Verified core of a cleaner for the conversation threads of the Zed editor.
pub mod agent;
pub mod analysis;
pub mod attachments;
pub mod backup;
pub mod blob;
pub mod chars;
pub mod clean;
pub mod cli;
pub mod config;
pub mod dedup;
pub mod dialog;
pub mod duplicate;
pub mod json;
pub mod json_form;
pub mod laws;
pub mod laws_cleanup;
pub mod laws_figures;
pub mod laws_form;
pub mod laws_session;
pub mod laws_storage;
pub mod laws_text;
pub mod measure;
pub mod preview;
pub mod protect;
pub mod rank;
pub mod session;
pub mod size_label;
pub mod stats;
pub mod str_map;
pub mod text;
pub mod tool_results;
pub mod types;
pub mod usage;
