pub mod auth;
pub mod cli;
pub mod codec;
pub mod config;
pub mod diagnostics;
pub mod digest;
pub mod docker;
pub mod error;
pub mod ids;
pub mod json;
pub mod jwt;
pub mod models;
pub mod net;
pub mod numbers;
pub mod parser;
pub mod paths;
pub mod pattern;
pub mod remote;
pub mod router;
pub mod server;
pub mod sftp;
pub mod table;
pub mod text;
