//! Role- and attribute-based access control.
//!
//! A realm owns resources and claims; an organization owns principals,
//! groups, roles and license policies. Claims are granted to principals, to
//! roles and to license policies, each grant under a scope, under
//! constraints on the context of a request, and for a window of time.
//!
//! - `common`: the vocabulary: discriminators, statuses, context values, the
//!   security context and the kinds of error.
//! - `domain`: the values that the engine speaks of.
//! - `persistence`: the store. A table of rows for each kind of entity and of
//!   association, with its repository; role inheritance; the resolution of
//!   what a principal holds; and the manager, which holds the repositories
//!   together, resolves principals and enforces quotas.
//! - `security`: requests for permission and the manager that decides them.
//! - `service`: what a request on a realm, on an organization or for a
//!   permission does to the store, and how errors are reported.
//! - `utils`: regular expressions, the clock and the calendar, identifiers,
//!   and the evaluation of constraints.

use vstd::prelude::*;

pub mod common;
pub mod domain;
pub mod persistence;
pub mod security;
pub mod service;
pub mod utils;

verus! {

/// Sets up a repository of realms and empties it.
pub fn top() {
    let mut repo = persistence::realm_repository::SecurityRealmRepository::new();
    repo.clear();
}

} // verus!
