//! What is asked of the container engine.
pub mod cgroup;
pub mod client;
pub mod settings;
