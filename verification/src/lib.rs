//! Selection engine for a personalised feed of short videos: hashtag
//! affinity, removal of recently watched candidates, ordering by score and
//! the interleaving of two candidate pools into one feed.
//!
//! The engine works on whole numbers throughout. Chances and the other
//! knobs are decimals held in billionths, and a score is the key by which
//! candidates are ordered; the caller computes scores and hands each
//! candidate over with its key. Chance comes from the `rand` crate.

pub mod affinity;
pub mod auth;
pub mod chance;
pub mod config;
pub mod dedup;
pub mod endpoint;
pub mod feed;
pub mod model;
pub mod ranking;
pub mod rows;
pub mod scoring;
pub mod text;
