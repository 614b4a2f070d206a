//! Keeps files from GitHub repositories in a project and up to date.

pub mod archive;
pub mod cli;
pub mod codec;
pub mod config;
pub mod error;
pub mod fsx;
pub mod github;
pub mod grammar;
pub mod help;
pub mod help_text;
pub mod known;
pub mod lockfile;
pub mod model;
pub mod ops;
pub mod progress;
pub mod registry;
pub mod run;
pub mod source;
pub mod template;
pub mod text;
pub mod ui;
pub mod value;
