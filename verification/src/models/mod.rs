//! The data that is exchanged with the panel.
pub mod activity;
pub mod configuration;
pub mod resource;
