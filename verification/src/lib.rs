//! The logic of a lyrics server: how texts are prepared for matching, how
//! publish tokens are judged, how responses are cached and found again, and
//! the state that requests share.
pub mod caches;
pub mod challenge;
pub mod decimal;
pub mod http;
pub mod metadata_cache;
pub mod outside;
pub mod queue;
pub mod routes;
pub mod state;
pub mod text;
pub mod text_laws;
