//! Requests for permission, the answers, and the manager that decides.

pub mod manager;
pub mod request;
pub mod response;
