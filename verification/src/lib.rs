//! Template-driven import of wide monthly reports (one column per day) into
//! long rows, with routing of each file to a declarative profile.
pub mod batch;
pub mod cli;
pub mod config;
pub mod dao;
pub mod decimal;
pub mod decoder;
pub mod error;
pub mod grid;
pub mod order;
pub mod path;
pub mod profile;
pub mod reader;
pub mod reshape;
pub mod text;
