//! Core rules of a club membership service: the midnight-aligned daily
//! attendance batch, API-key issuance and verification, leaderboard scoring
//! and streak bookkeeping.
pub mod calendar;
pub mod decimal;
pub mod api_key;
pub mod batch;
pub mod models;
pub mod auth;
pub mod leaderboard;
pub mod streak;
pub mod marking;
