//! The operations behind the request handlers: what a request on a realm, on
//! an organization or for a permission does to the store.

pub mod common;
pub mod organization;
pub mod realm;
pub mod security;
