//! The routes of a server.
pub mod manage;
