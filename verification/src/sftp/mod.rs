//! Files over SFTP.
pub mod listing;
pub mod server;
