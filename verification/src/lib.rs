//! Full-text search over a fixed, in-memory corpus of discussion posts.
//!
//! A corpus is loaded once into a [`store::RecordStore`] and only read from
//! then on. Two questions can be put to it:
//!
//! - [`search::search`] answers a query, a list of words separated by white
//!   space: it finds the posts in whose title or body every word occurs as a
//!   whole word, letter case ignored.
//! - [`candidates::candidates`] lists the posts that touch one of a fixed set
//!   of topics, in ascending order of their identifiers, and hands the
//!   listing out in three buckets of near-equal size.
//!
//! [`lookup::lookup`] and [`lookup::post`] fetch a single post by its
//! identifier. The library hands out references to the stored records; it
//! renders nothing.
//!
//! # What the proofs rest on
//!
//! Every function here is verified against its contract, with these
//! exceptions, each a small wrapper around a function from elsewhere whose
//! contract is taken on trust:
//!
//! - `regex::escape`, `Regex::new` and `Regex::is_match` (in [`matcher`]),
//! - rayon's parallel `filter` over the records and std's `sort_by_key` (in
//!   [`scan`]),
//! - `serde_json::from_str` (in [`json`]),
//! - `char::is_whitespace` and `String::push` (in [`text`]).
//!
//! What a pattern matches and what is JSON text is not spelled out: the
//! contracts speak of these through names that stand for the answers of
//! those functions.

pub mod bucket;
pub mod candidates;
pub mod json;
pub mod lookup;
pub mod matcher;
pub mod phrase;
pub mod record;
pub mod scan;
pub mod search;
pub mod store;
pub mod text;
