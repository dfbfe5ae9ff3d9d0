//! Transactional data-access core of a forum and versioned-article store.
//!
//! The library models the relational state of the application — forum
//! sections, threads and their sequenced messages, append-only article
//! versions, per-article comments, favorites, sessions, password records and
//! uploaded-file mappings — as in-memory stores with proved invariants, and
//! verifies every operation against a contract. Transport, persistence and
//! other I/O live outside the library.

use vstd::prelude::*;

pub mod articles;
pub mod auth;
pub mod files;
pub mod fts;
pub mod highlight;
pub mod search;
pub mod session;
pub mod store;
pub mod types;
pub mod util;

verus! {

/// SQL fragment restricting an article query to rows the caller may see:
/// everyone sees public articles, an authenticated caller also sees their own.
pub fn article_visibility_restriction(user: &Option<types::User>) -> (r: &'static str)
    ensures
        user is Some ==> r@ == "(a.visibility = 'public' OR a.user_id = ?)"@,
        user is None ==> r@ == "a.visibility = 'public'"@,
{
    if user.is_some() {
        "(a.visibility = 'public' OR a.user_id = ?)"
    } else {
        "a.visibility = 'public'"
    }
}

} // verus!
