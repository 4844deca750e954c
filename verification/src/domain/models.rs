//! The domain model: realms, organizations, principals, groups, roles,
//! resources with their instances and quotas, claims, license policies, and
//! the grants that tie claims to those who hold them.
//!
//! Instants are whole seconds since the Unix epoch, in UTC.

use vstd::prelude::*;
use vstd::string::*;

use crate::common::Constants;
use crate::persistence::models::{POrganization, PPrincipal};
use crate::persistence::table::{copy_all, Record};
use crate::utils::clock;

verus! {

/// A security realm: the namespace that owns resources and claims.
#[derive(Debug, PartialEq)]
pub struct SecurityRealm {
    pub id: String,
    pub description: Option<String>,
}

impl Clone for SecurityRealm {
    fn clone(&self) -> (r: Self)
        ensures
            r == *self,
    {
        SecurityRealm {
            id: self.id.clone(),
            description: self.description.clone(),
        }
    }
}

impl SecurityRealm {
    /// The realm as text: its name.
    pub open spec fn text(&self) -> Seq<char> {
        self.id@
    }

    pub fn to_string(&self) -> (r: String)
        ensures
            r@ == self.text(),
    {
        self.id.clone()
    }

    /// A realm named `id`.
    pub fn new(id: &str, description: Option<String>) -> (r: SecurityRealm)
        ensures
            r.id@ == id@,
            r.description == description,
    {
        SecurityRealm {
            id: id.to_string(),
            description: description,
        }
    }
}

/// A group of principals inside an organization; groups may form a hierarchy.
#[derive(Debug, PartialEq)]
pub struct Group {
    pub id: String,
    pub parent_id: Option<String>,
    pub organization_id: String,
    pub name: String,
    pub description: Option<String>,
    pub created_by: Option<String>,
    pub created_at: Option<i64>,
    pub updated_by: Option<String>,
    pub updated_at: Option<i64>,
}

impl Clone for Group {
    fn clone(&self) -> (r: Self)
        ensures
            r == *self,
    {
        Group {
            id: self.id.clone(),
            parent_id: self.parent_id.clone(),
            organization_id: self.organization_id.clone(),
            name: self.name.clone(),
            description: self.description.clone(),
            created_by: self.created_by.clone(),
            created_at: self.created_at,
            updated_by: self.updated_by.clone(),
            updated_at: self.updated_at,
        }
    }
}

impl Group {
    /// The group as text.
    pub open spec fn text(&self) -> Seq<char> {
        "group: "@ + self.name@ + "\n"@
    }

    pub fn to_string(&self) -> (r: String)
        ensures
            r@ == self.text(),
    {
        String::from_str("group: ").concat(self.name.as_str()).concat("\n")
    }

    /// A group, stamped with the current time.
    pub fn new(
        id: &str,
        organization_id: &str,
        name: &str,
        description: Option<String>,
        parent_id: Option<String>,
    ) -> (r: Group)
        ensures
            r.id@ == id@,
            r.organization_id@ == organization_id@,
            r.name@ == name@,
            r.description == description,
            r.parent_id == parent_id,
            r.created_by is None,
            r.updated_by is None,
            r.created_at is Some,
            r.updated_at == r.created_at,
    {
        let now = clock::now();
        Group {
            id: id.to_string(),
            parent_id: parent_id,
            organization_id: organization_id.to_string(),
            name: name.to_string(),
            description: description,
            created_by: None,
            created_at: Some(now),
            updated_by: None,
            updated_at: Some(now),
        }
    }
}

/// A role of an organization inside a realm; a role inherits from its parent.
#[derive(Debug, PartialEq)]
pub struct Role {
    pub id: String,
    pub parent_id: Option<String>,
    pub realm_id: String,
    pub organization_id: String,
    pub name: String,
    pub description: Option<String>,
    pub created_by: Option<String>,
    pub created_at: Option<i64>,
    pub updated_by: Option<String>,
    pub updated_at: Option<i64>,
}

impl Clone for Role {
    fn clone(&self) -> (r: Self)
        ensures
            r == *self,
    {
        Role {
            id: self.id.clone(),
            parent_id: self.parent_id.clone(),
            realm_id: self.realm_id.clone(),
            organization_id: self.organization_id.clone(),
            name: self.name.clone(),
            description: self.description.clone(),
            created_by: self.created_by.clone(),
            created_at: self.created_at,
            updated_by: self.updated_by.clone(),
            updated_at: self.updated_at,
        }
    }
}

impl Role {
    /// The role as text.
    pub open spec fn text(&self) -> Seq<char> {
        "\trole: "@ + self.name@ + "\n"@
    }

    pub fn to_string(&self) -> (r: String)
        ensures
            r@ == self.text(),
    {
        String::from_str("\trole: ").concat(self.name.as_str()).concat("\n")
    }

    /// A role, stamped with the current time.
    pub fn new(
        id: &str,
        realm_id: &str,
        organization_id: &str,
        name: &str,
        description: Option<String>,
        parent_id: Option<String>,
    ) -> (r: Role)
        ensures
            r.id@ == id@,
            r.realm_id@ == realm_id@,
            r.organization_id@ == organization_id@,
            r.name@ == name@,
            r.description == description,
            r.parent_id == parent_id,
            r.created_by is None,
            r.updated_by is None,
            r.created_at is Some,
            r.updated_at == r.created_at,
    {
        let now = clock::now();
        Role {
            id: id.to_string(),
            parent_id: parent_id,
            realm_id: realm_id.to_string(),
            organization_id: organization_id.to_string(),
            name: name.to_string(),
            description: description,
            created_by: None,
            created_at: Some(now),
            updated_by: None,
            updated_at: Some(now),
        }
    }
}

/// A kind of protected object inside a realm.
#[derive(Debug, PartialEq)]
pub struct Resource {
    pub id: String,
    pub realm_id: String,
    pub resource_name: String,
    pub description: Option<String>,
    pub allowable_actions: Option<String>,
    pub created_by: Option<String>,
    pub created_at: Option<i64>,
    pub updated_by: Option<String>,
    pub updated_at: Option<i64>,
}

impl Clone for Resource {
    fn clone(&self) -> (r: Self)
        ensures
            r == *self,
    {
        Resource {
            id: self.id.clone(),
            realm_id: self.realm_id.clone(),
            resource_name: self.resource_name.clone(),
            description: self.description.clone(),
            allowable_actions: self.allowable_actions.clone(),
            created_by: self.created_by.clone(),
            created_at: self.created_at,
            updated_by: self.updated_by.clone(),
            updated_at: self.updated_at,
        }
    }
}

impl Resource {
    /// The resource as text.
    pub open spec fn text(&self) -> Seq<char> {
        "resource: "@ + self.resource_name@
    }

    pub fn to_string(&self) -> (r: String)
        ensures
            r@ == self.text(),
    {
        String::from_str("resource: ").concat(self.resource_name.as_str())
    }

    /// A resource, stamped with the current time.
    pub fn new(
        id: &str,
        realm_id: &str,
        resource_name: &str,
        description: Option<String>,
        allowable_actions: Option<String>,
    ) -> (r: Resource)
        ensures
            r.id@ == id@,
            r.realm_id@ == realm_id@,
            r.resource_name@ == resource_name@,
            r.description == description,
            r.allowable_actions == allowable_actions,
            r.created_by is None,
            r.updated_by is None,
            r.created_at is Some,
            r.updated_at == r.created_at,
    {
        let now = clock::now();
        Resource {
            id: id.to_string(),
            realm_id: realm_id.to_string(),
            resource_name: resource_name.to_string(),
            description: description,
            allowable_actions: allowable_actions,
            created_by: None,
            created_at: Some(now),
            updated_by: None,
            updated_at: Some(now),
        }
    }
}

/// One accounted use of a resource under a scope, counted against its quota.
#[derive(Debug, PartialEq)]
pub struct ResourceInstance {
    pub id: String,
    pub resource_id: String,
    pub license_policy_id: String,
    pub scope: String,
    pub ref_id: String,
    pub status: String,
    pub description: Option<String>,
    pub created_by: Option<String>,
    pub created_at: Option<i64>,
    pub updated_by: Option<String>,
    pub updated_at: Option<i64>,
}

impl Clone for ResourceInstance {
    fn clone(&self) -> (r: Self)
        ensures
            r == *self,
    {
        ResourceInstance {
            id: self.id.clone(),
            resource_id: self.resource_id.clone(),
            license_policy_id: self.license_policy_id.clone(),
            scope: self.scope.clone(),
            ref_id: self.ref_id.clone(),
            status: self.status.clone(),
            description: self.description.clone(),
            created_by: self.created_by.clone(),
            created_at: self.created_at,
            updated_by: self.updated_by.clone(),
            updated_at: self.updated_at,
        }
    }
}

impl ResourceInstance {
    /// A resource instance, stamped with the current time.
    pub fn new(
        id: &str,
        resource_id: &str,
        license_policy_id: &str,
        scope: &str,
        ref_id: &str,
        status: &str,
        description: Option<String>,
    ) -> (r: ResourceInstance)
        ensures
            r.id@ == id@,
            r.resource_id@ == resource_id@,
            r.license_policy_id@ == license_policy_id@,
            r.scope@ == scope@,
            r.ref_id@ == ref_id@,
            r.status@ == status@,
            r.description == description,
            r.created_by is None,
            r.updated_by is None,
            r.created_at is Some,
            r.updated_at == r.created_at,
    {
        let now = clock::now();
        ResourceInstance {
            id: id.to_string(),
            resource_id: resource_id.to_string(),
            license_policy_id: license_policy_id.to_string(),
            scope: scope.to_string(),
            ref_id: ref_id.to_string(),
            status: status.to_string(),
            description: description,
            created_by: None,
            created_at: Some(now),
            updated_by: None,
            updated_at: Some(now),
        }
    }
}

/// The cap on the instances of a resource under a scope, valid from
/// `effective_at` to `expired_at`, both included.
#[derive(Debug, PartialEq)]
pub struct ResourceQuota {
    pub id: String,
    pub resource_id: String,
    pub scope: String,
    pub license_policy_id: String,
    pub max_value: i32,
    pub effective_at: i64,
    pub expired_at: i64,
    pub created_by: Option<String>,
    pub created_at: Option<i64>,
    pub updated_by: Option<String>,
    pub updated_at: Option<i64>,
}

impl Clone for ResourceQuota {
    fn clone(&self) -> (r: Self)
        ensures
            r == *self,
    {
        ResourceQuota {
            id: self.id.clone(),
            resource_id: self.resource_id.clone(),
            scope: self.scope.clone(),
            license_policy_id: self.license_policy_id.clone(),
            max_value: self.max_value,
            effective_at: self.effective_at,
            expired_at: self.expired_at,
            created_by: self.created_by.clone(),
            created_at: self.created_at,
            updated_by: self.updated_by.clone(),
            updated_at: self.updated_at,
        }
    }
}

impl ResourceQuota {
    /// A quota, stamped with the current time.
    pub fn new(
        id: &str,
        resource_id: &str,
        license_policy_id: &str,
        scope: &str,
        max_value: i32,
        effective_at: i64,
        expired_at: i64,
    ) -> (r: ResourceQuota)
        ensures
            r.id@ == id@,
            r.resource_id@ == resource_id@,
            r.license_policy_id@ == license_policy_id@,
            r.scope@ == scope@,
            r.max_value == max_value,
            r.effective_at == effective_at,
            r.expired_at == expired_at,
            r.created_by is None,
            r.updated_by is None,
            r.created_at is Some,
            r.updated_at == r.created_at,
    {
        let now = clock::now();
        ResourceQuota {
            id: id.to_string(),
            resource_id: resource_id.to_string(),
            scope: scope.to_string(),
            license_policy_id: license_policy_id.to_string(),
            max_value: max_value,
            effective_at: effective_at,
            expired_at: expired_at,
            created_by: None,
            created_at: Some(now),
            updated_by: None,
            updated_at: Some(now),
        }
    }
}

/// A permission template: an action pattern on a resource, with an effect.
#[derive(Debug, PartialEq)]
pub struct Claim {
    pub id: String,
    pub realm_id: String,
    pub resource_id: String,
    pub action: String,
    pub effect: Option<String>,
    pub description: Option<String>,
    pub created_by: Option<String>,
    pub created_at: Option<i64>,
    pub updated_by: Option<String>,
    pub updated_at: Option<i64>,
}

impl Clone for Claim {
    fn clone(&self) -> (r: Self)
        ensures
            r == *self,
    {
        Claim {
            id: self.id.clone(),
            realm_id: self.realm_id.clone(),
            resource_id: self.resource_id.clone(),
            action: self.action.clone(),
            effect: self.effect.clone(),
            description: self.description.clone(),
            created_by: self.created_by.clone(),
            created_at: self.created_at,
            updated_by: self.updated_by.clone(),
            updated_at: self.updated_at,
        }
    }
}

impl Claim {
    /// The claim as text: its action pattern and its resource.
    pub open spec fn text(&self) -> Seq<char> {
        "claim: "@ + self.action@ + " - "@ + self.resource_id@ + "\n"@
    }

    pub fn to_string(&self) -> (r: String)
        ensures
            r@ == self.text(),
    {
        String::from_str("claim: ").concat(self.action.as_str()).concat(" - ").concat(
            self.resource_id.as_str(),
        ).concat("\n")
    }

    /// A claim, stamped with the current time.
    pub fn new(
        id: &str,
        realm_id: &str,
        resource_id: &str,
        action: &str,
        effect: &str,
        description: Option<String>,
    ) -> (r: Claim)
        ensures
            r.id@ == id@,
            r.realm_id@ == realm_id@,
            r.resource_id@ == resource_id@,
            r.action@ == action@,
            r.effect is Some,
            r.effect->0@ == effect@,
            r.description == description,
            r.created_by is None,
            r.updated_by is None,
            r.created_at is Some,
            r.updated_at == r.created_at,
    {
        let now = clock::now();
        Claim {
            id: id.to_string(),
            realm_id: realm_id.to_string(),
            resource_id: resource_id.to_string(),
            action: action.to_string(),
            effect: Some(effect.to_string()),
            description: description,
            created_by: None,
            created_at: Some(now),
            updated_by: None,
            updated_at: Some(now),
        }
    }

    /// The effect of the claim as text: the one it carries, or `Allow` where
    /// it carries none or an empty one.
    pub open spec fn effect_text(&self) -> Seq<char> {
        match self.effect {
            Some(e) => if e@.len() > 0 {
                e@
            } else {
                Constants::Allow.name()
            },
            None => Constants::Allow.name(),
        }
    }

    pub fn effect(&self) -> (r: String)
        ensures
            r@ == self.effect_text(),
    {
        match &self.effect {
            Some(e) => {
                if !e.as_str().is_empty() {
                    return e.clone();
                }
            },
            None => {},
        }
        Constants::Allow.to_string()
    }
}

/// The entitlement of an organization, valid from `effective_at` to
/// `expired_at`, both included.
#[derive(Debug, PartialEq)]
pub struct LicensePolicy {
    pub id: String,
    pub organization_id: String,
    pub name: String,
    pub description: Option<String>,
    pub effective_at: i64,
    pub expired_at: i64,
    pub created_by: Option<String>,
    pub created_at: Option<i64>,
    pub updated_by: Option<String>,
    pub updated_at: Option<i64>,
}

impl Clone for LicensePolicy {
    fn clone(&self) -> (r: Self)
        ensures
            r == *self,
    {
        LicensePolicy {
            id: self.id.clone(),
            organization_id: self.organization_id.clone(),
            name: self.name.clone(),
            description: self.description.clone(),
            effective_at: self.effective_at,
            expired_at: self.expired_at,
            created_by: self.created_by.clone(),
            created_at: self.created_at,
            updated_by: self.updated_by.clone(),
            updated_at: self.updated_at,
        }
    }
}

impl LicensePolicy {
    /// A license policy, stamped with the current time.
    pub fn new(
        id: &str,
        organization_id: &str,
        name: &str,
        description: Option<String>,
        effective_at: i64,
        expired_at: i64,
    ) -> (r: LicensePolicy)
        ensures
            r.id@ == id@,
            r.organization_id@ == organization_id@,
            r.name@ == name@,
            r.description == description,
            r.effective_at == effective_at,
            r.expired_at == expired_at,
            r.created_by is None,
            r.updated_by is None,
            r.created_at is Some,
            r.updated_at == r.created_at,
    {
        let now = clock::now();
        LicensePolicy {
            id: id.to_string(),
            organization_id: organization_id.to_string(),
            name: name.to_string(),
            description: description,
            effective_at: effective_at,
            expired_at: expired_at,
            created_by: None,
            created_at: Some(now),
            updated_by: None,
            updated_at: Some(now),
        }
    }
}

/// A claim together with the one it is granted to.
#[derive(Debug, PartialEq)]
pub enum ClaimClaimable {
    /// A claim of the realm, open to an organization without a license: the
    /// claim and the realm.
    Realm(Claim, String),
    /// A claim licensed to an organization: the claim, the realm, the scope
    /// and the constraints.
    LicensePolicy(Claim, String, String, String),
    /// A claim granted to a role: the claim, the realm, the role, the scope
    /// and the constraints.
    Role(Claim, String, String, String, String),
    /// A claim granted to a principal: the claim, the realm, the principal,
    /// the scope and the constraints.
    Principal(Claim, String, String, String, String),
}

impl Clone for ClaimClaimable {
    fn clone(&self) -> (r: Self)
        ensures
            r == *self,
    {
        match self {
            ClaimClaimable::Realm(c, realm) => ClaimClaimable::Realm(c.clone(), realm.clone()),
            ClaimClaimable::LicensePolicy(c, realm, scope, constraints) => ClaimClaimable::LicensePolicy(
                c.clone(),
                realm.clone(),
                scope.clone(),
                constraints.clone(),
            ),
            ClaimClaimable::Role(c, realm, id, scope, constraints) => ClaimClaimable::Role(
                c.clone(),
                realm.clone(),
                id.clone(),
                scope.clone(),
                constraints.clone(),
            ),
            ClaimClaimable::Principal(c, realm, id, scope, constraints) => ClaimClaimable::Principal(
                c.clone(),
                realm.clone(),
                id.clone(),
                scope.clone(),
                constraints.clone(),
            ),
        }
    }
}

impl ClaimClaimable {
    /// The grant as text: its kind, its claim, and its realm or its scope and
    /// constraints.
    pub open spec fn text(&self) -> Seq<char> {
        match self {
            ClaimClaimable::Realm(c, realm) => "\n\trealm-claim: "@ + c.text() + "\t\trealm: "@ + realm@,
            ClaimClaimable::LicensePolicy(c, _, scope, constraints) => "\n\tlicense-claim: "@ + c.text()
                + "\t\tscope: "@ + scope@ + ", constraints: "@ + constraints@,
            ClaimClaimable::Role(c, _, _, scope, constraints) => "\n\trole-claim: "@ + c.text() + "\t\tscope: "@
                + scope@ + ", constraints: "@ + constraints@,
            ClaimClaimable::Principal(c, _, _, scope, constraints) => "\n\tprincipal-claim: "@ + c.text()
                + "\t\tscope: "@ + scope@ + ", constraints: "@ + constraints@,
        }
    }

    pub fn to_string(&self) -> (r: String)
        ensures
            r@ == self.text(),
    {
        match self {
            ClaimClaimable::Realm(c, realm) => String::from_str("\n\trealm-claim: ").concat(
                c.to_string().as_str(),
            ).concat("\t\trealm: ").concat(realm.as_str()),
            ClaimClaimable::LicensePolicy(c, _, scope, constraints) => String::from_str(
                "\n\tlicense-claim: ",
            ).concat(c.to_string().as_str()).concat("\t\tscope: ").concat(scope.as_str()).concat(
                ", constraints: ",
            ).concat(constraints.as_str()),
            ClaimClaimable::Role(c, _, _, scope, constraints) => String::from_str("\n\trole-claim: ").concat(
                c.to_string().as_str(),
            ).concat("\t\tscope: ").concat(scope.as_str()).concat(", constraints: ").concat(constraints.as_str()),
            ClaimClaimable::Principal(c, _, _, scope, constraints) => String::from_str(
                "\n\tprincipal-claim: ",
            ).concat(c.to_string().as_str()).concat("\t\tscope: ").concat(scope.as_str()).concat(
                ", constraints: ",
            ).concat(constraints.as_str()),
        }
    }

    /// The claim that is granted.
    pub open spec fn claim(&self) -> Claim {
        match self {
            ClaimClaimable::Realm(c, _) => *c,
            ClaimClaimable::LicensePolicy(c, _, _, _) => *c,
            ClaimClaimable::Role(c, _, _, _, _) => *c,
            ClaimClaimable::Principal(c, _, _, _, _) => *c,
        }
    }

    /// The scope of the grant; a claim of the realm has the empty scope.
    pub open spec fn scope(&self) -> Seq<char> {
        match self {
            ClaimClaimable::Realm(_, _) => Seq::empty(),
            ClaimClaimable::LicensePolicy(_, _, s, _) => s@,
            ClaimClaimable::Role(_, _, _, s, _) => s@,
            ClaimClaimable::Principal(_, _, _, s, _) => s@,
        }
    }

    /// The constraints of the grant; a claim of the realm has none.
    pub open spec fn constraints(&self) -> Seq<char> {
        match self {
            ClaimClaimable::Realm(_, _) => Seq::empty(),
            ClaimClaimable::LicensePolicy(_, _, _, c) => c@,
            ClaimClaimable::Role(_, _, _, _, c) => c@,
            ClaimClaimable::Principal(_, _, _, _, c) => c@,
        }
    }

    /// The claim that is granted.
    pub fn get_claim(&self) -> (c: &Claim)
        ensures
            *c == self.claim(),
    {
        match self {
            ClaimClaimable::Realm(c, _) => c,
            ClaimClaimable::LicensePolicy(c, _, _, _) => c,
            ClaimClaimable::Role(c, _, _, _, _) => c,
            ClaimClaimable::Principal(c, _, _, _, _) => c,
        }
    }

    /// The scope of the grant.
    pub fn get_scope(&self) -> (s: &str)
        ensures
            s@ == self.scope(),
    {
        proof {
            reveal_strlit("");
        }
        match self {
            ClaimClaimable::Realm(_, _) => "",
            ClaimClaimable::LicensePolicy(_, _, s, _) => s.as_str(),
            ClaimClaimable::Role(_, _, _, s, _) => s.as_str(),
            ClaimClaimable::Principal(_, _, _, s, _) => s.as_str(),
        }
    }

    /// The constraints of the grant.
    pub fn get_constraints(&self) -> (s: &str)
        ensures
            s@ == self.constraints(),
    {
        proof {
            reveal_strlit("");
        }
        match self {
            ClaimClaimable::Realm(_, _) => "",
            ClaimClaimable::LicensePolicy(_, _, _, c) => c.as_str(),
            ClaimClaimable::Role(_, _, _, _, c) => c.as_str(),
            ClaimClaimable::Principal(_, _, _, _, c) => c.as_str(),
        }
    }
}

impl Record for ClaimClaimable {
    fn copy(&self) -> (r: Self) {
        self.clone()
    }
}

/// A role together with the one it is granted to, and the constraints.
#[derive(Debug, PartialEq)]
pub enum RoleRoleable {
    /// The role, the group and the constraints.
    Group(Role, String, String),
    /// The role, the principal and the constraints.
    Principal(Role, String, String),
}

impl Clone for RoleRoleable {
    fn clone(&self) -> (r: Self)
        ensures
            r == *self,
    {
        match self {
            RoleRoleable::Group(role, id, constraints) => RoleRoleable::Group(
                role.clone(),
                id.clone(),
                constraints.clone(),
            ),
            RoleRoleable::Principal(role, id, constraints) => RoleRoleable::Principal(
                role.clone(),
                id.clone(),
                constraints.clone(),
            ),
        }
    }
}

/// A granted claim together with the resource that it speaks of.
#[derive(Debug, PartialEq)]
pub struct ClaimResource {
    pub claim: Claim,
    pub scope: String,
    pub constraints: String,
    pub resource: Resource,
}

impl Clone for ClaimResource {
    fn clone(&self) -> (r: Self)
        ensures
            r == *self,
    {
        ClaimResource {
            claim: self.claim.clone(),
            scope: self.scope.clone(),
            constraints: self.constraints.clone(),
            resource: self.resource.clone(),
        }
    }
}

impl ClaimResource {
    pub fn new(claim: Claim, scope: String, constraints: String, resource: Resource) -> (r: ClaimResource)
        ensures
            r == (ClaimResource { claim, scope, constraints, resource }),
    {
        ClaimResource { claim: claim, scope: scope, constraints: constraints, resource: resource }
    }
}

/// The groups as text, one after the other.
pub open spec fn groups_text(rows: Seq<Group>) -> Seq<char>
    decreases rows.len(),
{
    if rows.len() == 0 {
        Seq::empty()
    } else {
        groups_text(rows.drop_last()) + ("\tgroup: "@ + rows.last().text() + "\n"@)
    }
}

fn write_groups(head: String, rows: &Vec<Group>) -> (r: String)
    ensures
        r@ == head@ + groups_text(rows@),
{
    let mut out = head;
    let mut i: usize = 0;
    proof {
        assert(rows@.take(0) =~= Seq::<Group>::empty());
        assert(out@ =~= head@ + groups_text(rows@.take(0)));
    }
    while i < rows.len()
        invariant
            i <= rows@.len(),
            out@ == head@ + groups_text(rows@.take(i as int)),
        decreases rows@.len() - i,
    {
        out = out.concat("\tgroup: ").concat(rows[i].to_string().as_str()).concat("\n");
        proof {
            assert(rows@.take(i + 1).drop_last() =~= rows@.take(i as int));
            assert(out@ =~= head@ + groups_text(rows@.take(i + 1)));
        }
        i += 1;
    }
    proof {
        assert(rows@.take(i as int) =~= rows@);
    }
    out
}

/// The roles as text, one after the other.
pub open spec fn roles_text(rows: Seq<Role>) -> Seq<char>
    decreases rows.len(),
{
    if rows.len() == 0 {
        Seq::empty()
    } else {
        roles_text(rows.drop_last()) + (rows.last().text())
    }
}

fn write_roles(head: String, rows: &Vec<Role>) -> (r: String)
    ensures
        r@ == head@ + roles_text(rows@),
{
    let mut out = head;
    let mut i: usize = 0;
    proof {
        assert(rows@.take(0) =~= Seq::<Role>::empty());
        assert(out@ =~= head@ + roles_text(rows@.take(0)));
    }
    while i < rows.len()
        invariant
            i <= rows@.len(),
            out@ == head@ + roles_text(rows@.take(i as int)),
        decreases rows@.len() - i,
    {
        out = out.concat(rows[i].to_string().as_str());
        proof {
            assert(rows@.take(i + 1).drop_last() =~= rows@.take(i as int));
            assert(out@ =~= head@ + roles_text(rows@.take(i + 1)));
        }
        i += 1;
    }
    proof {
        assert(rows@.take(i as int) =~= rows@);
    }
    out
}

/// The claims as text, one after the other.
pub open spec fn claims_text(rows: Seq<ClaimClaimable>) -> Seq<char>
    decreases rows.len(),
{
    if rows.len() == 0 {
        Seq::empty()
    } else {
        claims_text(rows.drop_last()) + (rows.last().text())
    }
}

fn write_claims(head: String, rows: &Vec<ClaimClaimable>) -> (r: String)
    ensures
        r@ == head@ + claims_text(rows@),
{
    let mut out = head;
    let mut i: usize = 0;
    proof {
        assert(rows@.take(0) =~= Seq::<ClaimClaimable>::empty());
        assert(out@ =~= head@ + claims_text(rows@.take(0)));
    }
    while i < rows.len()
        invariant
            i <= rows@.len(),
            out@ == head@ + claims_text(rows@.take(i as int)),
        decreases rows@.len() - i,
    {
        out = out.concat(rows[i].to_string().as_str());
        proof {
            assert(rows@.take(i + 1).drop_last() =~= rows@.take(i as int));
            assert(out@ =~= head@ + claims_text(rows@.take(i + 1)));
        }
        i += 1;
    }
    proof {
        assert(rows@.take(i as int) =~= rows@);
    }
    out
}

/// The resources as text, one after the other.
pub open spec fn resources_text(rows: Seq<Resource>) -> Seq<char>
    decreases rows.len(),
{
    if rows.len() == 0 {
        Seq::empty()
    } else {
        resources_text(rows.drop_last()) + ("\n\t\t"@ + rows.last().text())
    }
}

fn write_resources(head: String, rows: &Vec<Resource>) -> (r: String)
    ensures
        r@ == head@ + resources_text(rows@),
{
    let mut out = head;
    let mut i: usize = 0;
    proof {
        assert(rows@.take(0) =~= Seq::<Resource>::empty());
        assert(out@ =~= head@ + resources_text(rows@.take(0)));
    }
    while i < rows.len()
        invariant
            i <= rows@.len(),
            out@ == head@ + resources_text(rows@.take(i as int)),
        decreases rows@.len() - i,
    {
        out = out.concat("\n\t\t").concat(rows[i].to_string().as_str());
        proof {
            assert(rows@.take(i + 1).drop_last() =~= rows@.take(i as int));
            assert(out@ =~= head@ + resources_text(rows@.take(i + 1)));
        }
        i += 1;
    }
    proof {
        assert(rows@.take(i as int) =~= rows@);
    }
    out
}

/// An organization, the tenant that principals belong to, with what was
/// gathered for it: its groups, roles, licensed claims and their resources.
#[derive(Debug, PartialEq)]
pub struct Organization {
    pub id: String,
    pub parent_id: Option<String>,
    pub name: String,
    pub url: String,
    pub description: Option<String>,
    pub groups: Vec<Group>,
    pub roles: Vec<Role>,
    pub claims: Vec<ClaimClaimable>,
    pub resources: Vec<Resource>,
    pub license_policy: Option<LicensePolicy>,
    pub created_by: Option<String>,
    pub created_at: Option<i64>,
    pub updated_by: Option<String>,
    pub updated_at: Option<i64>,
}

impl Organization {
    /// The organization as text: its name, then its groups, its roles and
    /// its claims.
    pub open spec fn text(&self) -> Seq<char> {
        "org: "@ + self.name@ + "\n"@ + groups_text(self.groups@) + roles_text(self.roles@) + claims_text(
            self.claims@,
        )
    }

    pub fn to_string(&self) -> (r: String)
        ensures
            r@ == self.text(),
    {
        let head = String::from_str("org: ").concat(self.name.as_str()).concat("\n");
        let head = write_groups(head, &self.groups);
        let head = write_roles(head, &self.roles);
        write_claims(head, &self.claims)
    }

    /// Whether `other` has every field of this organization.
    pub open spec fn same_as(&self, other: Organization) -> bool {
        &&& other.id == self.id
        &&& other.parent_id == self.parent_id
        &&& other.name == self.name
        &&& other.url == self.url
        &&& other.description == self.description
        &&& other.groups@ == self.groups@
        &&& other.roles@ == self.roles@
        &&& other.claims@ == self.claims@
        &&& other.resources@ == self.resources@
        &&& other.license_policy == self.license_policy
        &&& other.created_by == self.created_by
        &&& other.created_at == self.created_at
        &&& other.updated_by == self.updated_by
        &&& other.updated_at == self.updated_at
    }

    /// An organization with nothing gathered, stamped with the current time.
    pub fn new(
        id: &str,
        parent_id: Option<String>,
        name: &str,
        url: &str,
        description: Option<String>,
    ) -> (r: Organization)
        ensures
            r.id@ == id@,
            r.parent_id == parent_id,
            r.name@ == name@,
            r.url@ == url@,
            r.description == description,
            r.groups@.len() == 0,
            r.roles@.len() == 0,
            r.claims@.len() == 0,
            r.resources@.len() == 0,
            r.license_policy is None,
            r.created_by is None,
            r.updated_by is None,
            r.created_at is Some,
            r.updated_at == r.created_at,
    {
        let now = clock::now();
        Organization {
            id: id.to_string(),
            parent_id: parent_id,
            name: name.to_string(),
            url: url.to_string(),
            description: description,
            groups: Vec::new(),
            roles: Vec::new(),
            claims: Vec::new(),
            resources: Vec::new(),
            license_policy: None,
            created_by: None,
            created_at: Some(now),
            updated_by: None,
            updated_at: Some(now),
        }
    }

    /// Whether this organization carries the fields of `row` and nothing
    /// gathered.
    pub open spec fn is_from(&self, row: POrganization) -> bool {
        &&& self.id == row.id
        &&& self.parent_id == row.parent_id
        &&& self.name == row.name
        &&& self.url == row.url
        &&& self.description == row.description
        &&& self.groups@.len() == 0
        &&& self.roles@.len() == 0
        &&& self.claims@.len() == 0
        &&& self.resources@.len() == 0
        &&& self.license_policy is None
        &&& self.created_by == row.created_by
        &&& self.created_at == row.created_at
        &&& self.updated_by == row.updated_by
        &&& self.updated_at == row.updated_at
    }

    /// The organization that a stored row stands for.
    pub fn from(row: &POrganization) -> (r: Organization)
        ensures
            r.is_from(*row),
    {
        Organization {
            id: row.id.clone(),
            parent_id: row.parent_id.clone(),
            name: row.name.clone(),
            url: row.url.clone(),
            description: row.description.clone(),
            groups: Vec::new(),
            roles: Vec::new(),
            claims: Vec::new(),
            resources: Vec::new(),
            license_policy: None,
            created_by: row.created_by.clone(),
            created_at: row.created_at,
            updated_by: row.updated_by.clone(),
            updated_at: row.updated_at,
        }
    }

    /// The row under which the organization is stored, stamped anew.
    pub fn to(&self) -> (row: POrganization)
        ensures
            row.id == self.id,
            row.parent_id == self.parent_id,
            row.name == self.name,
            row.url == self.url,
            row.description == self.description,
            row.created_by is None,
            row.updated_by is None,
            row.created_at is Some,
            row.updated_at == row.created_at,
    {
        let now = clock::now();
        POrganization {
            id: self.id.clone(),
            parent_id: self.parent_id.clone(),
            name: self.name.clone(),
            url: self.url.clone(),
            description: self.description.clone(),
            created_by: None,
            created_at: Some(now),
            updated_by: None,
            updated_at: Some(now),
        }
    }
}

/// A user or service of an organization, with what was gathered for it: its
/// groups, its roles with their ancestors, the claims granted to it and the
/// resources that those claims speak of.
#[derive(Debug, PartialEq)]
pub struct Principal {
    pub id: String,
    pub organization_id: String,
    pub username: String,
    pub description: Option<String>,
    pub groups: Vec<Group>,
    pub roles: Vec<Role>,
    pub claims: Vec<ClaimClaimable>,
    pub resources: Vec<Resource>,
    pub created_by: Option<String>,
    pub created_at: Option<i64>,
    pub updated_by: Option<String>,
    pub updated_at: Option<i64>,
}

impl Principal {
    /// The principal as text: its user name, then its groups, its roles, its
    /// claims and its resources.
    pub open spec fn text(&self) -> Seq<char> {
        "user: "@ + self.username@ + "\n"@ + groups_text(self.groups@) + roles_text(self.roles@) + claims_text(
            self.claims@,
        ) + resources_text(self.resources@)
    }

    pub fn to_string(&self) -> (r: String)
        ensures
            r@ == self.text(),
    {
        let head = String::from_str("user: ").concat(self.username.as_str()).concat("\n");
        let head = write_groups(head, &self.groups);
        let head = write_roles(head, &self.roles);
        let head = write_claims(head, &self.claims);
        write_resources(head, &self.resources)
    }

    /// Whether `other` has every field of this principal.
    pub open spec fn same_as(&self, other: Principal) -> bool {
        &&& other.id == self.id
        &&& other.organization_id == self.organization_id
        &&& other.username == self.username
        &&& other.description == self.description
        &&& other.groups@ == self.groups@
        &&& other.roles@ == self.roles@
        &&& other.claims@ == self.claims@
        &&& other.resources@ == self.resources@
        &&& other.created_by == self.created_by
        &&& other.created_at == self.created_at
        &&& other.updated_by == self.updated_by
        &&& other.updated_at == self.updated_at
    }

    /// A principal with nothing gathered, stamped with the current time.
    pub fn new(id: &str, organization_id: &str, username: &str, description: Option<String>) -> (r: Principal)
        ensures
            r.id@ == id@,
            r.organization_id@ == organization_id@,
            r.username@ == username@,
            r.description == description,
            r.groups@.len() == 0,
            r.roles@.len() == 0,
            r.claims@.len() == 0,
            r.resources@.len() == 0,
            r.created_by is None,
            r.updated_by is None,
            r.created_at is Some,
            r.updated_at == r.created_at,
    {
        let now = clock::now();
        Principal {
            id: id.to_string(),
            organization_id: organization_id.to_string(),
            username: username.to_string(),
            description: description,
            groups: Vec::new(),
            roles: Vec::new(),
            claims: Vec::new(),
            resources: Vec::new(),
            created_by: None,
            created_at: Some(now),
            updated_by: None,
            updated_at: Some(now),
        }
    }

    /// Whether this principal carries the fields of `row` and nothing
    /// gathered.
    pub open spec fn is_from(&self, row: PPrincipal) -> bool {
        &&& self.id == row.id
        &&& self.organization_id == row.organization_id
        &&& self.username == row.username
        &&& self.description == row.description
        &&& self.groups@.len() == 0
        &&& self.roles@.len() == 0
        &&& self.claims@.len() == 0
        &&& self.resources@.len() == 0
        &&& self.created_by == row.created_by
        &&& self.created_at == row.created_at
        &&& self.updated_by == row.updated_by
        &&& self.updated_at == row.updated_at
    }

    /// The principal that a stored row stands for.
    pub fn from(row: &PPrincipal) -> (r: Principal)
        ensures
            r.is_from(*row),
    {
        Principal {
            id: row.id.clone(),
            organization_id: row.organization_id.clone(),
            username: row.username.clone(),
            description: row.description.clone(),
            groups: Vec::new(),
            roles: Vec::new(),
            claims: Vec::new(),
            resources: Vec::new(),
            created_by: row.created_by.clone(),
            created_at: row.created_at,
            updated_by: row.updated_by.clone(),
            updated_at: row.updated_at,
        }
    }

    /// The row under which the principal is stored, stamped anew.
    pub fn to(&self) -> (row: PPrincipal)
        ensures
            row.id == self.id,
            row.organization_id == self.organization_id,
            row.username == self.username,
            row.description == self.description,
            row.created_by is None,
            row.updated_by is None,
            row.created_at is Some,
            row.updated_at == row.created_at,
    {
        let now = clock::now();
        PPrincipal {
            id: self.id.clone(),
            organization_id: self.organization_id.clone(),
            username: self.username.clone(),
            description: self.description.clone(),
            created_by: None,
            created_at: Some(now),
            updated_by: None,
            updated_at: Some(now),
        }
    }
}

impl Clone for Organization {
    fn clone(&self) -> (r: Self)
        ensures
            self.same_as(r),
    {
        Organization {
            id: self.id.clone(),
            parent_id: self.parent_id.clone(),
            name: self.name.clone(),
            url: self.url.clone(),
            description: self.description.clone(),
            groups: copy_all(&self.groups),
            roles: copy_all(&self.roles),
            claims: copy_all(&self.claims),
            resources: copy_all(&self.resources),
            license_policy: match &self.license_policy {
                Some(policy) => Some(policy.clone()),
                None => None,
            },
            created_by: self.created_by.clone(),
            created_at: self.created_at,
            updated_by: self.updated_by.clone(),
            updated_at: self.updated_at,
        }
    }
}

impl Clone for Principal {
    fn clone(&self) -> (r: Self)
        ensures
            self.same_as(r),
    {
        Principal {
            id: self.id.clone(),
            organization_id: self.organization_id.clone(),
            username: self.username.clone(),
            description: self.description.clone(),
            groups: copy_all(&self.groups),
            roles: copy_all(&self.roles),
            claims: copy_all(&self.claims),
            resources: copy_all(&self.resources),
            created_by: self.created_by.clone(),
            created_at: self.created_at,
            updated_by: self.updated_by.clone(),
            updated_at: self.updated_at,
        }
    }
}

} // verus!
