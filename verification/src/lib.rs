//! Aggregation of issue-tracker comment activity into per-contributor totals.
//!
//! The library holds the rules of a paginated fetch-and-aggregate run: how
//! pages are consumed, how one item's comments become a fragment of
//! statistics, how fragments are merged, and how the outcome is ranked.
//! Network access is left to the caller, which hands over plain values.

pub mod algebra;
pub mod stats;
pub mod dispatch;
pub mod comments;
pub mod paging;
pub mod query;
pub mod item;
pub mod report;
pub mod commands;
