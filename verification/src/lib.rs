//! Feed aggregation core: deterministic item identity, retry and backoff
//! decisions, a bounded-concurrency fetch schedule, feed normalization, and an
//! idempotent item store with a per-source ledger.
//!
//! The library performs no I/O. A caller makes the HTTP attempts and sleeps
//! between them as [`retry::RetryPolicy`] says, starts and ends fetches as
//! [`fetcher::Orchestrator`] says, turns bodies into items with [`parser`],
//! commits the results of a run to a [`storage::Store`], and keeps that store
//! wherever it likes.

mod clock;
pub mod config;
pub mod fetcher;
pub mod identity;
pub mod json;
pub mod models;
pub mod parser;
pub mod reporter;
pub mod retry;
pub mod storage;
pub mod text;

pub use models::{Config, FeedConfig, FeedItem, FeedResult, Settings};
pub use storage::Store;
