//! How errors are reported to a client, and the parameters that govern an
//! association.

use vstd::prelude::*;

use crate::common::{RbacError, SecurityContext};
use crate::persistence::group_repository;
use crate::persistence::manager::PersistenceManager;
use crate::persistence::resource_repository;
use crate::persistence::role_repository;
use crate::persistence::table::first_index;
use crate::utils::clock;
use crate::utils::text::{contains_text, text_contains};

verus! {

/// A status code with the message that goes with it.
#[derive(Debug, PartialEq)]
pub struct ErrorStatus {
    pub code: u16,
    pub message: String,
}

/// Whether the message of an error tells of a violated uniqueness constraint
/// of the store.
pub open spec fn tells_of_duplicate(message: Seq<char>) -> bool {
    text_contains(message, "UNIQUE constraint"@)
}

/// The status code under which an error is reported: 404 for `NotFound`, 409
/// for `Duplicate` and `QuotaExceeded`, 401 for `Evaluation`; for every other
/// kind 409 where the message tells of a violated uniqueness constraint, and
/// 500 otherwise.
pub open spec fn status_code(err: RbacError) -> u16 {
    match err {
        RbacError::NotFound(_) => 404,
        RbacError::Duplicate(_) => 409,
        RbacError::QuotaExceeded(_) => 409,
        RbacError::Evaluation(_) => 401,
        RbacError::Persistence(m) => if tells_of_duplicate(m@) {
            409
        } else {
            500
        },
        RbacError::Security(m) => if tells_of_duplicate(m@) {
            409
        } else {
            500
        },
        RbacError::Custom(m) => if tells_of_duplicate(m@) {
            409
        } else {
            500
        },
    }
}

/// The status code and message under which an error is reported.
pub fn error_status(err: RbacError) -> (r: ErrorStatus)
    ensures
        r.code == status_code(err),
        r.message@ == err.message(),
{
    let code: u16 = match &err {
        RbacError::NotFound(_) => 404,
        RbacError::Duplicate(_) => 409,
        RbacError::QuotaExceeded(_) => 409,
        RbacError::Evaluation(_) => 401,
        RbacError::Persistence(m) => other_code(m.as_str()),
        RbacError::Security(m) => other_code(m.as_str()),
        RbacError::Custom(m) => other_code(m.as_str()),
    };
    ErrorStatus { code: code, message: err.to_string() }
}

fn other_code(message: &str) -> (code: u16)
    ensures
        code == if tells_of_duplicate(message@) {
            409u16
        } else {
            500u16
        },
{
    if contains_text(message, "UNIQUE constraint") {
        409
    } else {
        500
    }
}

/// The parameters that govern an association: its scope, its constraints, and
/// the instants, as texts, from which and to which it is in force. An empty
/// text stands for the default.
#[derive(Debug)]
pub struct AssociationForm {
    pub scope: String,
    pub constraints: String,
    pub effective_at: String,
    pub expired_at: String,
}

impl Clone for AssociationForm {
    fn clone(&self) -> (r: Self)
        ensures
            r == *self,
    {
        AssociationForm {
            scope: self.scope.clone(),
            constraints: self.constraints.clone(),
            effective_at: self.effective_at.clone(),
            expired_at: self.expired_at.clone(),
        }
    }
}

impl AssociationForm {
    /// The instant that a text names, if it names one.
    pub fn parse(&self, val: &str) -> (r: Option<i64>)
        ensures
            match r {
                Some(secs) => clock::parsed_epoch_secs(val@) == Some(secs as int),
                None => clock::parsed_epoch_secs(val@) is None,
            },
    {
        clock::parse_instant(val)
    }

    /// Whether the text is empty or names an instant.
    pub open spec fn reads(text: Seq<char>) -> bool {
        text.len() == 0 || clock::parsed_epoch_secs(text) is Some
    }

    /// The instant from which the association is in force: the one that the
    /// form names, or the current time where it names none.
    pub fn effective_at(&self) -> (r: i64)
        requires
            Self::reads(self.effective_at@),
        ensures
            self.effective_at@.len() > 0 ==> clock::parsed_epoch_secs(self.effective_at@) == Some(r as int),
    {
        if !self.effective_at.as_str().is_empty() {
            match self.parse(self.effective_at.as_str()) {
                Some(at) => at,
                None => 0,
            }
        } else {
            clock::now()
        }
    }

    /// The instant to which the association is in force: the one that the form
    /// names, or the far future where it names none.
    pub fn expired_at(&self) -> (r: i64)
        requires
            Self::reads(self.expired_at@),
        ensures
            r == if self.expired_at@.len() > 0 {
                clock::parsed_epoch_secs(self.expired_at@)->0
            } else {
                clock::FAR_FUTURE as int
            },
    {
        if !self.expired_at.as_str().is_empty() {
            match self.parse(self.expired_at.as_str()) {
                Some(at) => at,
                None => 0,
            }
        } else {
            clock::FAR_FUTURE
        }
    }

    /// Whether both instants of the form can be read.
    pub open spec fn readable(&self) -> bool {
        Self::reads(self.effective_at@) && Self::reads(self.expired_at@)
    }

    /// Whether `from` and `to` are the instants from which and to which the
    /// association is in force: those that the form names, and, where it names
    /// none, any instant for the beginning and the far future for the end.
    pub open spec fn frames(&self, from: i64, to: i64) -> bool {
        &&& self.effective_at@.len() > 0 ==> clock::parsed_epoch_secs(self.effective_at@) == Some(from as int)
        &&& to == if self.expired_at@.len() > 0 {
            clock::parsed_epoch_secs(self.expired_at@)->0
        } else {
            clock::FAR_FUTURE as int
        }
    }

    /// The instants from which and to which the association is in force, the
    /// beginning being the current time where the form names none; or `None`
    /// where one of the texts is neither empty nor names an instant.
    pub fn window(&self) -> (r: Option<(i64, i64)>)
        ensures
            match r {
                Some((from, to)) => self.readable() && self.frames(from, to),
                None => !self.readable(),
            },
    {
        let from_ok = self.effective_at.as_str().is_empty() || self.parse(self.effective_at.as_str()).is_some();
        let to_ok = self.expired_at.as_str().is_empty() || self.parse(self.expired_at.as_str()).is_some();
        if from_ok && to_ok {
            Some((self.effective_at(), self.expired_at()))
        } else {
            None
        }
    }
}

/// Whether the realm has the resource.
pub open spec fn has_resource(pm: PersistenceManager, realm_id: Seq<char>, resource_id: Seq<char>) -> bool {
    first_index(pm.resource_repository@, resource_repository::scoped(realm_id, resource_id)) is Some
}

/// Whether the organization has the group.
pub open spec fn has_group(pm: PersistenceManager, organization_id: Seq<char>, group_id: Seq<char>) -> bool {
    first_index(pm.group_repository@, group_repository::scoped(organization_id, group_id)) is Some
}

/// Whether the organization has the role.
pub open spec fn has_role(pm: PersistenceManager, organization_id: Seq<char>, role_id: Seq<char>) -> bool {
    first_index(pm.role_repository@, role_repository::scoped(organization_id, role_id)) is Some
}

/// Whether the realm has the resource.
pub fn resource_exists(pm: &PersistenceManager, ctx: &SecurityContext, realm_id: &str, resource_id: &str) -> (b: bool)
    ensures
        b == has_resource(*pm, realm_id@, resource_id@),
{
    pm.resource_repository.get(ctx, realm_id, resource_id).is_some()
}

/// Whether the organization has the group.
pub fn group_exists(
    pm: &PersistenceManager,
    ctx: &SecurityContext,
    organization_id: &str,
    group_id: &str,
) -> (b: bool)
    ensures
        b == has_group(*pm, organization_id@, group_id@),
{
    pm.group_repository.get(ctx, organization_id, group_id).is_some()
}

/// Whether the organization has the role.
pub fn role_exists(pm: &PersistenceManager, ctx: &SecurityContext, organization_id: &str, role_id: &str) -> (b: bool)
    ensures
        b == has_role(*pm, organization_id@, role_id@),
{
    pm.role_repository.get(ctx, organization_id, role_id).is_some()
}

} // verus!
