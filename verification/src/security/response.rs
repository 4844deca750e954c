//! The answer to a request for permission.

use vstd::prelude::*;

use crate::common::Constants;
use crate::utils::text::same_text;

verus! {

/// Whether what was asked for is allowed or denied.
#[derive(Debug, Clone, Copy, PartialEq, Eq, Structural)]
pub enum PermissionResponse {
    Allow,
    Deny,
}

impl PermissionResponse {
    /// The answer that the text of an effect stands for: `Allow` for the text
    /// `Allow`, `Deny` for every other text.
    pub open spec fn of_effect(value: Seq<char>) -> PermissionResponse {
        if value == Constants::Allow.name() {
            PermissionResponse::Allow
        } else {
            PermissionResponse::Deny
        }
    }

    pub fn from(value: String) -> (r: PermissionResponse)
        ensures
            r == Self::of_effect(value@),
    {
        if same_text(value.as_str(), "Allow") {
            PermissionResponse::Allow
        } else {
            PermissionResponse::Deny
        }
    }
}

} // verus!
