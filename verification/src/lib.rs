//! Core of a small team posting tool: posts and daily-log entries with
//! tags, comments, bookmarks ("stocks"), pagination, ownership-based
//! authorization, and a line-diff based change-notification pipeline.
//!
//! The relational store is modelled by [`store::Store`], an in-memory
//! value whose operations carry full contracts; the view/HTTP layer and
//! the outbound notification transport live outside this crate and talk
//! to it through plain values.

pub mod delta;
pub mod env;
pub mod errors;
pub mod notify;
pub mod pagination;
pub mod service;
pub mod strconv;
pub mod store;
pub mod tags;
pub mod text;
