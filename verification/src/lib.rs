//! ocbro: read rows, keep those that pass AND-combined filter conditions,
//! project them onto chosen fields and render them through templates.
pub mod cli;
pub mod config;
pub mod db;
pub mod engine;
pub mod laws;
pub mod pipeline;
pub mod template;
pub mod text;
pub mod value;
