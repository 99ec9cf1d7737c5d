//! Tokens that the panel signs.
pub mod claims;
pub mod store;

pub use claims::{parse_token, Claims};
pub use store::TokenStore;
