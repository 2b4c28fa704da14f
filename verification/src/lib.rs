//! A personal note store and the query language that filters it.

pub mod cli;
pub mod config;
pub mod database;
pub mod date;
pub mod editor;
pub mod evaluate;
pub mod filesystem;
pub mod input;
pub mod search;
pub mod text;
pub mod tui;
