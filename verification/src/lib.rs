//! Playtime reports over a user's library of owned games.
//!
//! The library holds the rules of the report: how a game is joined with its
//! name from the app directory, when a stale directory has to be fetched
//! again, how a response body is taken out of its envelope, and how the
//! joined list is ordered and rendered. Everything here is pure; fetching,
//! decoding JSON and the cache file belong to the program around it.

pub mod cache;
pub mod envelope;
pub mod model;
pub mod order;
pub mod render;
pub mod request;
pub mod resolve;
pub mod text;
