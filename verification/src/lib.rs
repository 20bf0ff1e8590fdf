//! The verified core of a terminal SQL client.

pub mod app;
pub mod cli;
pub mod config;
pub mod datasource;
pub mod editor;
pub mod files;
pub mod pages;
pub mod secret;
pub mod text;
pub mod tunnel;
