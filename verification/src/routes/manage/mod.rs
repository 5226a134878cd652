//! Routes by which a server is managed.
pub mod set_config;
