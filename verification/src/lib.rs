//! Remote development proxy: the logic that decides what runs where.

pub mod commands;
pub mod config;
pub mod error;
pub mod names;
pub mod paths;
pub mod setup;
pub mod project;
pub mod text;
pub mod shell_words;
pub mod ssh;
pub mod sync;
pub mod task;
