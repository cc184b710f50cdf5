//! Saved Ghostty workspaces: how they are captured, written down as scripts, read back,
//! browsed and launched.
//!
//! The library decides; it reads no file, runs no command and draws nothing. What it needs
//! to know is handed in, and what is to be done is handed back.

pub mod app;
pub mod applescript;
pub mod capture;
pub mod cli;
pub mod config;
pub mod dialogs;
pub mod env;
pub mod error;
pub mod geometry;
pub mod input;
pub mod key;
pub mod layout;
pub mod lines;
pub mod number;
pub mod operations;
pub mod path;
pub mod preview;
pub mod readback;
pub mod restore_script;
pub mod screen;
pub mod scripts;
pub mod session;
pub mod shortcut;
pub mod sorting;
pub mod text;
pub mod variables;
pub mod view;
pub mod window;
pub mod workspace;
