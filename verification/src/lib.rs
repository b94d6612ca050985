//! A personal archive of bookmarks and text snippets, grouped by tag.
//!
//! A bookmark is a URL, stored once and found again by the fingerprint of
//! its text. A snippet is a text taken from some source. Both carry tags,
//! and a tag is shared by all the items that carry it. The archive lists
//! its items with their tags, and its tags with their items, the items
//! without a tag in a group of their own.
//!
//! * `models` holds the records, `relations` the five tables and what the
//!   views are, `state` what each operation does to the tables.
//! * `store` is the archive in memory, `views` computes the views of any
//!   five tables, `api` serves the requests of a front end.
//! * `fingerprint`, `text`, `order` and `sanitize` are the tools of these.
//! * `preserved` shows that every operation keeps the tables consistent,
//!   and `laws` states what follows for the archive as a whole.

pub mod api;
pub mod fingerprint;
pub mod laws;
pub mod models;
pub mod order;
pub mod preserved;
pub mod relations;
pub mod sanitize;
pub mod state;
pub mod store;
pub mod text;
pub mod views;
