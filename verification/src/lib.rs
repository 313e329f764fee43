//! Verified aggregation core of a beverage-vending usage-log service.
//!
//! The service exposes two read-only views over a store of purchase
//! events joined against a product catalog: a trailing-30-day time
//! series (`/history`) and a per-category top-10 leaderboard
//! (`/rankings`). This crate holds the query semantics — windowing,
//! the catalog join, grouping, summing, ordering and capping — and the
//! row-decoding and error-collapse rules, all verified. The HTTP
//! transport and the database connection live outside and hand this
//! crate plain values.

pub mod decode;
pub mod history;
pub mod laws;
pub mod rankings;
pub mod types;
