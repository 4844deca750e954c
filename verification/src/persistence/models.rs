//! The rows under which the store keeps organizations, principals,
//! memberships, grants and audit records.

use vstd::prelude::*;

use crate::utils::clock;
use crate::utils::ids;

verus! {

/// The stored form of an organization.
#[derive(Debug, PartialEq)]
pub struct POrganization {
    pub id: String,
    pub parent_id: Option<String>,
    pub name: String,
    pub url: String,
    pub description: Option<String>,
    pub created_by: Option<String>,
    pub created_at: Option<i64>,
    pub updated_by: Option<String>,
    pub updated_at: Option<i64>,
}

impl Clone for POrganization {
    fn clone(&self) -> (r: Self)
        ensures
            r == *self,
    {
        POrganization {
            id: self.id.clone(),
            parent_id: self.parent_id.clone(),
            name: self.name.clone(),
            url: self.url.clone(),
            description: self.description.clone(),
            created_by: self.created_by.clone(),
            created_at: self.created_at,
            updated_by: self.updated_by.clone(),
            updated_at: self.updated_at,
        }
    }
}

impl POrganization {
    /// A row, stamped with the current time.
    pub fn new(
        id: &str,
        parent_id: Option<String>,
        name: &str,
        url: &str,
        description: Option<String>,
    ) -> (r: POrganization)
        ensures
            r.id@ == id@,
            r.parent_id == parent_id,
            r.name@ == name@,
            r.url@ == url@,
            r.description == description,
            r.created_by is None,
            r.updated_by is None,
            r.created_at is Some,
            r.updated_at == r.created_at,
    {
        let now = clock::now();
        POrganization {
            id: id.to_string(),
            parent_id: parent_id,
            name: name.to_string(),
            url: url.to_string(),
            description: description,
            created_by: None,
            created_at: Some(now),
            updated_by: None,
            updated_at: Some(now),
        }
    }
}

/// The stored form of a principal.
#[derive(Debug, PartialEq)]
pub struct PPrincipal {
    pub id: String,
    pub organization_id: String,
    pub username: String,
    pub description: Option<String>,
    pub created_by: Option<String>,
    pub created_at: Option<i64>,
    pub updated_by: Option<String>,
    pub updated_at: Option<i64>,
}

impl Clone for PPrincipal {
    fn clone(&self) -> (r: Self)
        ensures
            r == *self,
    {
        PPrincipal {
            id: self.id.clone(),
            organization_id: self.organization_id.clone(),
            username: self.username.clone(),
            description: self.description.clone(),
            created_by: self.created_by.clone(),
            created_at: self.created_at,
            updated_by: self.updated_by.clone(),
            updated_at: self.updated_at,
        }
    }
}

impl PPrincipal {
    /// A row, stamped with the current time.
    pub fn new(id: &str, organization_id: &str, username: &str, description: Option<String>) -> (r: PPrincipal)
        ensures
            r.id@ == id@,
            r.organization_id@ == organization_id@,
            r.username@ == username@,
            r.description == description,
            r.created_by is None,
            r.updated_by is None,
            r.created_at is Some,
            r.updated_at == r.created_at,
    {
        let now = clock::now();
        PPrincipal {
            id: id.to_string(),
            organization_id: organization_id.to_string(),
            username: username.to_string(),
            description: description,
            created_by: None,
            created_at: Some(now),
            updated_by: None,
            updated_at: Some(now),
        }
    }
}

/// The membership of a principal in a group.
#[derive(Debug, PartialEq)]
pub struct PGroupPrincipal {
    pub group_id: String,
    pub principal_id: String,
    pub created_by: Option<String>,
    pub created_at: Option<i64>,
    pub updated_by: Option<String>,
    pub updated_at: Option<i64>,
}

impl Clone for PGroupPrincipal {
    fn clone(&self) -> (r: Self)
        ensures
            r == *self,
    {
        PGroupPrincipal {
            group_id: self.group_id.clone(),
            principal_id: self.principal_id.clone(),
            created_by: self.created_by.clone(),
            created_at: self.created_at,
            updated_by: self.updated_by.clone(),
            updated_at: self.updated_at,
        }
    }
}

impl PGroupPrincipal {
    /// A membership, stamped with the current time.
    pub fn new(group_id: &str, principal_id: &str) -> (r: PGroupPrincipal)
        ensures
            r.group_id@ == group_id@,
            r.principal_id@ == principal_id@,
            r.created_by is None,
            r.updated_by is None,
            r.created_at is Some,
            r.updated_at == r.created_at,
    {
        let now = clock::now();
        PGroupPrincipal {
            group_id: group_id.to_string(),
            principal_id: principal_id.to_string(),
            created_by: None,
            created_at: Some(now),
            updated_by: None,
            updated_at: Some(now),
        }
    }
}

/// The grant of a role to a principal or a group, valid from `effective_at` to
/// `expired_at`, both included.
#[derive(Debug, PartialEq)]
pub struct PRoleRoleable {
    pub role_id: String,
    pub roleable_id: String,
    pub roleable_type: String,
    pub role_constraints: String,
    pub effective_at: i64,
    pub expired_at: i64,
    pub created_by: Option<String>,
    pub created_at: Option<i64>,
    pub updated_by: Option<String>,
    pub updated_at: Option<i64>,
}

impl Clone for PRoleRoleable {
    fn clone(&self) -> (r: Self)
        ensures
            r == *self,
    {
        PRoleRoleable {
            role_id: self.role_id.clone(),
            roleable_id: self.roleable_id.clone(),
            roleable_type: self.roleable_type.clone(),
            role_constraints: self.role_constraints.clone(),
            effective_at: self.effective_at,
            expired_at: self.expired_at,
            created_by: self.created_by.clone(),
            created_at: self.created_at,
            updated_by: self.updated_by.clone(),
            updated_at: self.updated_at,
        }
    }
}

impl PRoleRoleable {
    /// A grant, stamped with the current time.
    pub fn new(
        role_id: &str,
        roleable_id: &str,
        roleable_type: &str,
        role_constraints: &str,
        effective_at: i64,
        expired_at: i64,
    ) -> (r: PRoleRoleable)
        ensures
            r.role_id@ == role_id@,
            r.roleable_id@ == roleable_id@,
            r.roleable_type@ == roleable_type@,
            r.role_constraints@ == role_constraints@,
            r.effective_at == effective_at,
            r.expired_at == expired_at,
            r.created_by is None,
            r.updated_by is None,
            r.created_at is Some,
            r.updated_at == r.created_at,
    {
        let now = clock::now();
        PRoleRoleable {
            role_id: role_id.to_string(),
            roleable_id: roleable_id.to_string(),
            roleable_type: roleable_type.to_string(),
            role_constraints: role_constraints.to_string(),
            effective_at: effective_at,
            expired_at: expired_at,
            created_by: None,
            created_at: Some(now),
            updated_by: None,
            updated_at: Some(now),
        }
    }
}

/// The grant of a claim to a principal, a role or a license policy, valid from
/// `effective_at` to `expired_at`, both included.
#[derive(Debug, PartialEq)]
pub struct PClaimClaimable {
    pub claim_id: String,
    pub claimable_id: String,
    pub claimable_type: String,
    pub scope: String,
    pub claim_constraints: String,
    pub effective_at: i64,
    pub expired_at: i64,
    pub created_by: Option<String>,
    pub created_at: Option<i64>,
    pub updated_by: Option<String>,
    pub updated_at: Option<i64>,
}

impl Clone for PClaimClaimable {
    fn clone(&self) -> (r: Self)
        ensures
            r == *self,
    {
        PClaimClaimable {
            claim_id: self.claim_id.clone(),
            claimable_id: self.claimable_id.clone(),
            claimable_type: self.claimable_type.clone(),
            scope: self.scope.clone(),
            claim_constraints: self.claim_constraints.clone(),
            effective_at: self.effective_at,
            expired_at: self.expired_at,
            created_by: self.created_by.clone(),
            created_at: self.created_at,
            updated_by: self.updated_by.clone(),
            updated_at: self.updated_at,
        }
    }
}

impl PClaimClaimable {
    /// A grant, stamped with the current time.
    pub fn new(
        claim_id: &str,
        claimable_id: &str,
        claimable_type: &str,
        scope: &str,
        claim_constraints: &str,
        effective_at: i64,
        expired_at: i64,
    ) -> (r: PClaimClaimable)
        ensures
            r.claim_id@ == claim_id@,
            r.claimable_id@ == claimable_id@,
            r.claimable_type@ == claimable_type@,
            r.scope@ == scope@,
            r.claim_constraints@ == claim_constraints@,
            r.effective_at == effective_at,
            r.expired_at == expired_at,
            r.created_by is None,
            r.updated_by is None,
            r.created_at is Some,
            r.updated_at == r.created_at,
    {
        let now = clock::now();
        PClaimClaimable {
            claim_id: claim_id.to_string(),
            claimable_id: claimable_id.to_string(),
            claimable_type: claimable_type.to_string(),
            scope: scope.to_string(),
            claim_constraints: claim_constraints.to_string(),
            effective_at: effective_at,
            expired_at: expired_at,
            created_by: None,
            created_at: Some(now),
            updated_by: None,
            updated_at: Some(now),
        }
    }
}

/// One entry of the audit trail.
#[derive(Debug, PartialEq)]
pub struct PAuditRecord {
    pub id: String,
    pub message: String,
    pub action: Option<String>,
    pub context: Option<String>,
    pub created_by: Option<String>,
    pub created_at: Option<i64>,
}

impl Clone for PAuditRecord {
    fn clone(&self) -> (r: Self)
        ensures
            r == *self,
    {
        PAuditRecord {
            id: self.id.clone(),
            message: self.message.clone(),
            action: self.action.clone(),
            context: self.context.clone(),
            created_by: self.created_by.clone(),
            created_at: self.created_at,
        }
    }
}

impl PAuditRecord {
    /// An entry with a fresh identifier, stamped with the current time.
    pub fn new(message: &str, action: Option<String>, context: Option<String>) -> (r: PAuditRecord)
        ensures
            r.message@ == message@,
            r.action == action,
            r.context == context,
            r.created_by is None,
            r.created_at is Some,
    {
        PAuditRecord {
            id: ids::new_id(),
            message: message.to_string(),
            action: action,
            context: context,
            created_by: None,
            created_at: Some(clock::now()),
        }
    }
}

} // verus!
