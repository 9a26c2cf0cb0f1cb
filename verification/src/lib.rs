//! Session aggregation pipeline and host-profile cache.
//!
//! The library polls nothing itself: callers fetch raw session and profile
//! records, and the functions here decide which sessions matter, keep the
//! per-user profile cache with its expiry policy, track newly appeared
//! session ids, and render the line-oriented text reports.

pub mod bridge;
pub mod cache;
pub mod codec;
pub mod numfmt;
pub mod profile;
pub mod register;
pub mod report;
pub mod session;
pub mod textsort;
pub mod time;

pub use time::Timestamp;
