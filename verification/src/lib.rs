//! Verified core of a loader for bibliographic metadata dumps.
pub mod cli;
pub mod config;
pub mod db;
pub mod libgen;
pub mod literals;
pub mod observability;
pub mod openlibrary;
pub mod output;
pub mod progress;
pub mod text;
pub mod time_text;
