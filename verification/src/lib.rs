//! Feed aggregation with a bounded, deduplicated history of buckets, and
//! the text helpers that the rendering of the feeds relies on.
//!
//! A run takes what the configured sources sent and the aggregate of the
//! run before, and makes the new aggregate (`rss_feed`). Each channel is
//! attributed to an instant (`channel`), the channels are regrouped by
//! instant, ordered by key and freed of adjacent duplicates (`bucket`), and
//! buckets outside the retention window are dropped (`timestamp`). What the
//! result is, and what holds of it, is stated in `aggregate` and `history`.
//!
//! The rendering side has the helpers of the templates (`render`), the
//! regular expressions for scripts (`rhai_regex`), the preparation of texts
//! for LaTeX with its removal of unpaired braces (`utils`, `balance`), and
//! plain work on characters (`text`, `key_order`).
//!
//! Fetching, loading, writing and the template engine itself are left to
//! the program that uses the library.

pub mod aggregate;
pub mod balance;
pub mod bucket;
pub mod channel;
pub mod config;
pub mod history;
pub mod key_order;
pub mod render;
pub mod rhai_regex;
pub mod rss_feed;
pub mod text;
pub mod timestamp;
pub mod utils;
