//! Scaffolding engine for Create Rust App: catalog queries, source
//! resolution, manifest rewriting and merging, and the decisions of the
//! command-line front end, with their contracts.

pub mod text;
pub mod paths;
pub mod catalog;
pub mod scaffold;
pub mod manifest;
pub mod merge;
pub mod merge_text;
pub mod cli;
pub mod info;
pub mod config;
