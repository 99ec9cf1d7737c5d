//! Rewriting of egg configuration files.
//!
//! The panel ships a list of configuration files per egg, each with a parser
//! type and a list of find/replace rules. Before a server boots, every rule is
//! applied to the file so that the settings of the game match the allocation
//! and the variables that the panel manages.
pub mod document;
pub mod ini;
pub mod plain;
pub mod properties;
pub mod rewrite;
pub mod template;
pub mod xml;
