pub mod text;
pub mod ip;
pub mod checks;
pub mod output;
pub mod config;
pub mod error;
pub mod target;
pub mod cli;
pub mod connection;
