//! The core of a media catalogue: items that carry tags, boolean tag
//! queries that filter and score them, and two ways to page through the
//! ranked results.
//!
//! * `query` decides whether an item passes a query and how well it scores.
//! * `ranking` orders results by score and identifier, forwards and
//!   backwards.
//! * `offset` cuts numbered pages out of a ranking.
//! * `keyset` finds a page from the position that a cursor carries and
//!   hands back the cursors of the pages next to it.
//! * `catalog` is an in-memory store that answers searches with these.
//! * `page_lemmas` and `catalog_lemmas` state what holds of every page.
//! * `handlers`, `error`, `files`, `model` and `password` hold what a
//!   backend decides around its stores: which search a request asks for,
//!   what a client is told, where files go, how stored records are read, and
//!   what a login makes of a password.
//! * `text` and `uuid_text` wrap the library calls that the rest relies on.

pub mod catalog;
pub mod catalog_lemmas;
pub mod error;
pub mod files;
pub mod handlers;
pub mod ids;
pub mod keyset;
pub mod model;
pub mod offset;
pub mod page_lemmas;
pub mod password;
pub mod query;
pub mod ranking;
pub mod text;
pub mod uuid_text;
