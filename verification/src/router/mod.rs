//! What is asked of the daemon over HTTP.
pub mod backups;
pub mod downloader;
pub mod downloads;
pub mod files;
pub mod middleware;
pub mod restore;
pub mod servers;
pub mod system;
pub mod ws;
