//! A translation tool's core: file-format handling, configuration, and the
//! request logic of the translation services.
pub mod cli;
pub mod config;
pub mod error;
pub mod formats;
pub mod language_detector;
pub mod manager;
pub mod output;
pub mod stats;
pub mod text;
pub mod translator;
pub mod tui;
