//! Verified core of a small self-hosted Git server: repository tree
//! scanning and visibility, access decisions, Git smart-HTTP framing,
//! parsing of `git` output, configuration and account helpers.
pub mod text;
pub mod scanner;
pub mod tree;
pub mod auth;
pub mod visibility;
pub mod numfmt;
pub mod avatar;
pub mod paths;
pub mod git_http;
pub mod routes;
pub mod git_output;
pub mod api;
pub mod db;
pub mod config;
pub mod meta;
