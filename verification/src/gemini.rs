//! Access to the embedding provider's credentials.

pub mod key_manager;
pub mod properties;
