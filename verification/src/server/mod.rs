//! What belongs to one server.
pub mod activity;
pub mod archive;
pub mod console;
pub mod events;
pub mod files;
pub mod gitignore;
pub mod install;
pub mod manager;
pub mod power;
pub mod server;
pub mod startup;
