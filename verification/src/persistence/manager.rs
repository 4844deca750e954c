//! The persistence manager: the repositories held together, the operations
//! that span several of them, the resolution of what a principal holds, and
//! the enforcement of quotas.

use vstd::prelude::*;
use vstd::string::*;

use crate::common::{Constants, RbacError, SecurityContext, Status};
use crate::domain::models::{
    Claim, ClaimClaimable, ClaimResource, Group, LicensePolicy, Organization, Principal, Resource,
    ResourceInstance, ResourceQuota, Role, SecurityRealm,
};
use crate::persistence::audit_record_repository::{
    extended, lemma_extended_none, lemma_extended_twice, lemma_logged_extends, logged,
    AuditRecordRepository,
};
use crate::persistence::claim_claimable_repository;
use crate::persistence::claim_claimable_repository::ClaimClaimableRepository;
use crate::persistence::claim_repository;
use crate::persistence::claim_repository::ClaimRepository;
use crate::persistence::group_principal_repository::{group_ids_of, GroupPrincipalRepository};
use crate::persistence::group_repository;
use crate::persistence::group_repository::GroupRepository;
use crate::persistence::inheritance::{
    ancestor, lemma_ancestor_exists, lemma_ancestors_are_reached, lemma_granted_is_reached,
    lemma_marks_are_reached, mark_chain, marks_ok, reached, reached_role, role_index,
};
use crate::persistence::license_policy_repository;
use crate::persistence::license_policy_repository::LicensePolicyRepository;
use crate::persistence::models::{PClaimClaimable, PPrincipal};
use crate::persistence::org_repository;
use crate::persistence::org_repository::OrganizationRepository;
use crate::persistence::principal_repository;
use crate::persistence::principal_repository::PrincipalRepository;
use crate::persistence::realm_repository::SecurityRealmRepository;
use crate::persistence::resolution::missing_roles_of_groups;
use crate::persistence::resolution::{
    candidates, candidates_of_resource, does_license_allow, entry_for, find_licensed_claim, found_groups,
    grant_passes, granted, granted_entry, holds_role, ids_of_roles, is_license_scoped,
    lemma_candidates_of_held, lemma_granted_are_held, lemma_listed_take, lemma_passing_grant_is_granted,
    lemma_pushed_contains, lemma_reached_same, license_gate, license_scoped, licensed, ambient,
    missing_groups, missing_roles, named_claims, org_claims_of, passes_gate, refused, resource_ids_of,
    unlicensed,
};
use crate::persistence::resource_instance_repository;
use crate::persistence::resource_instance_repository::ResourceInstanceRepository;
use crate::persistence::resource_quota_repository;
use crate::persistence::resource_quota_repository::ResourceQuotaRepository;
use crate::persistence::resource_repository;
use crate::persistence::resource_repository::ResourceRepository;
use crate::persistence::role_repository;
use crate::persistence::role_repository::RoleRepository;
use crate::persistence::role_roleable_repository::{
    role_ids_of_group, role_ids_of_principal, RoleRoleableRepository,
};
use crate::persistence::table::{
    by_key, first_index, keys_unique, lemma_filter_ignores, lemma_filter_keeps_unique,
    lemma_filter_narrower, lemma_filter_same, lemma_first_index, listed, position_in,
};
use crate::utils::clock;

verus! {
/// A realm named `name`, without a description.
pub open spec fn realm_shape(input: SecurityRealm, name: Seq<char>) -> bool {
    input.id@ == name && input.description is None
}

/// The default license policy of the organization `organization_id`, in force
/// to the far future.
pub open spec fn default_policy_shape(input: LicensePolicy, organization_id: Seq<char>) -> bool {
    &&& input.organization_id@ == organization_id
    &&& input.name@ == "default-policy"@
    &&& input.description is None
    &&& input.expired_at == clock::FAR_FUTURE
}

/// A resource of the realm `realm_id` named `resource_name`, open to the four
/// basic actions.
pub open spec fn resource_shape(input: Resource, realm_id: Seq<char>, resource_name: Seq<char>) -> bool {
    &&& input.realm_id@ == realm_id
    &&& input.resource_name@ == resource_name
    &&& input.description is None
    &&& input.allowable_actions is Some
    &&& input.allowable_actions->0@ == "(CREATE|READ|UPDATE|DELETE)"@
}

/// An organization named `name`, with no parent, an empty address and no
/// description.
pub open spec fn org_shape(input: Organization, name: Seq<char>) -> bool {
    &&& input.name@ == name
    &&& input.parent_id is None
    &&& input.url@ == ""@
    &&& input.description is None
}

/// A group of the organization `organization_id` named `name`, below
/// `parent_id`.
pub open spec fn group_shape(
    input: Group,
    organization_id: Seq<char>,
    name: Seq<char>,
    parent_id: Option<String>,
) -> bool {
    &&& input.organization_id@ == organization_id
    &&& input.name@ == name
    &&& input.description is None
    &&& input.parent_id == parent_id
}

/// A role of the organization `organization_id` in the realm `realm_id` named
/// `name`, which inherits from `parent_id`.
pub open spec fn role_shape(
    input: Role,
    realm_id: Seq<char>,
    organization_id: Seq<char>,
    name: Seq<char>,
    parent_id: Option<String>,
) -> bool {
    &&& input.realm_id@ == realm_id
    &&& input.organization_id@ == organization_id
    &&& input.name@ == name
    &&& input.description is None
    &&& input.parent_id == parent_id
}

/// A principal of the organization `organization_id` with the user name
/// `username`.
pub open spec fn principal_shape(input: Principal, organization_id: Seq<char>, username: Seq<char>) -> bool {
    &&& input.organization_id@ == organization_id
    &&& input.username@ == username
    &&& input.description is None
}

/// A claim of the realm `realm_id` that allows the actions matched by `action`
/// on the resource `resource_id`.
pub open spec fn claim_shape(input: Claim, realm_id: Seq<char>, resource_id: Seq<char>, action: Seq<char>) -> bool {
    &&& input.realm_id@ == realm_id
    &&& input.resource_id@ == resource_id
    &&& input.action@ == action
    &&& input.effect is Some
    &&& input.effect->0@ == Constants::Allow.name()
    &&& input.description is None
}

/// How much of a quota is used at `now`: the completed instances of the
/// resource under the scope, and those in flight that were created within the
/// last hour.
pub open spec fn usage(instances: Seq<ResourceInstance>, resource_id: Seq<char>, scope: Seq<char>, now: i64) -> nat {
    instances.filter(resource_instance_repository::with_status(resource_id, scope, Status::COMPLETED.name())).len()
        + instances.filter(
        resource_instance_repository::recent_with_status(resource_id, scope, Status::INFLIGHT.name(), now),
    ).len()
}

/// An instance of the resource `resource_id` under `scope` with the reference
/// `ref_id` and the status `status`, not yet tied to a license policy.
pub open spec fn instance_shape(
    input: ResourceInstance,
    resource_id: Seq<char>,
    scope: Seq<char>,
    ref_id: Seq<char>,
    status: Status,
) -> bool {
    &&& input.resource_id@ == resource_id
    &&& input.scope@ == scope
    &&& input.ref_id@ == ref_id
    &&& input.status@ == status.name()
    &&& input.description is None
}

/// A quota of `max_value` instances of the resource `resource_id` under
/// `scope`, in force to the far future, not yet tied to a license policy.
pub open spec fn quota_shape(input: ResourceQuota, resource_id: Seq<char>, scope: Seq<char>, max_value: i32) -> bool {
    &&& input.resource_id@ == resource_id
    &&& input.scope@ == scope
    &&& input.max_value == max_value
    &&& input.expired_at == clock::FAR_FUTURE
}

/// The parts of the store.
#[derive(Debug, Clone, Copy, PartialEq, Eq, Structural)]
pub enum Part {
    Realms,
    Organizations,
    Groups,
    Principals,
    Memberships,
    Resources,
    Instances,
    Quotas,
    Roles,
    RoleGrants,
    Claims,
    ClaimGrants,
    Policies,
    Audit,
}

/// The store: one repository for each kind of entity and of association, and
/// the audit trail of the manager itself.
pub struct PersistenceManager {
    pub realm_repository: SecurityRealmRepository,
    pub org_repository: OrganizationRepository,
    pub group_repository: GroupRepository,
    pub principal_repository: PrincipalRepository,
    pub group_principal_repository: GroupPrincipalRepository,
    pub resource_repository: ResourceRepository,
    pub resource_instance_repository: ResourceInstanceRepository,
    pub resource_quota_repository: ResourceQuotaRepository,
    pub role_repository: RoleRepository,
    pub role_roleable_repository: RoleRoleableRepository,
    pub claim_repository: ClaimRepository,
    pub claim_claimable_repository: ClaimClaimableRepository,
    pub license_policy_repository: LicensePolicyRepository,
    pub audit_record_repository: AuditRecordRepository,
}

/// Whether `after` is `before` in every part but `part`.
pub open spec fn same_but(before: PersistenceManager, after: PersistenceManager, part: Part) -> bool {
    &&& (part is Realms || after.realm_repository == before.realm_repository)
    &&& (part is Organizations || after.org_repository == before.org_repository)
    &&& (part is Groups || after.group_repository == before.group_repository)
    &&& (part is Principals || after.principal_repository == before.principal_repository)
    &&& (part is Memberships || after.group_principal_repository == before.group_principal_repository)
    &&& (part is Resources || after.resource_repository == before.resource_repository)
    &&& (part is Instances || after.resource_instance_repository == before.resource_instance_repository)
    &&& (part is Quotas || after.resource_quota_repository == before.resource_quota_repository)
    &&& (part is Roles || after.role_repository == before.role_repository)
    &&& (part is RoleGrants || after.role_roleable_repository == before.role_roleable_repository)
    &&& (part is Claims || after.claim_repository == before.claim_repository)
    &&& (part is ClaimGrants || after.claim_claimable_repository == before.claim_claimable_repository)
    &&& (part is Policies || after.license_policy_repository == before.license_policy_repository)
    &&& (part is Audit || after.audit_record_repository == before.audit_record_repository)
}

impl PersistenceManager {
    /// In every repository the keys are distinct.
    pub open spec fn wf(&self) -> bool {
        &&& self.realm_repository.wf()
        &&& self.org_repository.wf()
        &&& self.group_repository.wf()
        &&& self.principal_repository.wf()
        &&& self.group_principal_repository.wf()
        &&& self.resource_repository.wf()
        &&& self.resource_instance_repository.wf()
        &&& self.resource_quota_repository.wf()
        &&& self.role_repository.wf()
        &&& self.role_roleable_repository.wf()
        &&& self.claim_repository.wf()
        &&& self.claim_claimable_repository.wf()
        &&& self.license_policy_repository.wf()
    }

    /// Whether in every repository the keys are distinct.
    pub fn is_wf(&self) -> (b: bool)
        ensures
            b == self.wf(),
    {
        self.realm_repository.is_wf()
            && self.org_repository.is_wf()
            && self.group_repository.is_wf()
            && self.principal_repository.is_wf()
            && self.group_principal_repository.is_wf()
            && self.resource_repository.is_wf()
            && self.resource_instance_repository.is_wf()
            && self.resource_quota_repository.is_wf()
            && self.role_repository.is_wf()
            && self.role_roleable_repository.is_wf()
            && self.claim_repository.is_wf()
            && self.claim_claimable_repository.is_wf()
            && self.license_policy_repository.is_wf()
    }

    /// An empty store.
    pub fn new() -> (pm: Self)
        ensures
            pm.wf(),
            pm.realm_repository@.len() == 0,
            pm.org_repository@.len() == 0,
            pm.group_repository@.len() == 0,
            pm.principal_repository@.len() == 0,
            pm.group_principal_repository@.len() == 0,
            pm.resource_repository@.len() == 0,
            pm.resource_instance_repository@.len() == 0,
            pm.resource_quota_repository@.len() == 0,
            pm.role_repository@.len() == 0,
            pm.role_roleable_repository@.len() == 0,
            pm.claim_repository@.len() == 0,
            pm.claim_claimable_repository@.len() == 0,
            pm.license_policy_repository@.len() == 0,
            pm.audit_record_repository@.len() == 0,
    {
        PersistenceManager {
            realm_repository: SecurityRealmRepository::new(),
            org_repository: OrganizationRepository::new(),
            group_repository: GroupRepository::new(),
            principal_repository: PrincipalRepository::new(),
            group_principal_repository: GroupPrincipalRepository::new(),
            resource_repository: ResourceRepository::new(),
            resource_instance_repository: ResourceInstanceRepository::new(),
            resource_quota_repository: ResourceQuotaRepository::new(),
            role_repository: RoleRepository::new(),
            role_roleable_repository: RoleRoleableRepository::new(),
            claim_repository: ClaimRepository::new(),
            claim_claimable_repository: ClaimClaimableRepository::new(),
            license_policy_repository: LicensePolicyRepository::new(),
            audit_record_repository: AuditRecordRepository::new(),
        }
    }

    /// Empties every repository. The audit trails stay: that of the manager
    /// and that of each repository.
    pub fn clear(&mut self)
        ensures
            final(self).wf(),
            final(self).realm_repository@.len() == 0,
            final(self).org_repository@.len() == 0,
            final(self).group_repository@.len() == 0,
            final(self).principal_repository@.len() == 0,
            final(self).group_principal_repository@.len() == 0,
            final(self).resource_repository@.len() == 0,
            final(self).resource_instance_repository@.len() == 0,
            final(self).resource_quota_repository@.len() == 0,
            final(self).role_repository@.len() == 0,
            final(self).role_roleable_repository@.len() == 0,
            final(self).claim_repository@.len() == 0,
            final(self).claim_claimable_repository@.len() == 0,
            final(self).license_policy_repository@.len() == 0,
            final(self).audit_record_repository == old(self).audit_record_repository,
            final(self).realm_repository.audit_record_repository
                == old(self).realm_repository.audit_record_repository,
            final(self).org_repository.audit_record_repository
                == old(self).org_repository.audit_record_repository,
            final(self).group_repository.audit_record_repository
                == old(self).group_repository.audit_record_repository,
            final(self).principal_repository.audit_record_repository
                == old(self).principal_repository.audit_record_repository,
            final(self).group_principal_repository.audit_record_repository
                == old(self).group_principal_repository.audit_record_repository,
            final(self).resource_repository.audit_record_repository
                == old(self).resource_repository.audit_record_repository,
            final(self).resource_instance_repository.audit_record_repository
                == old(self).resource_instance_repository.audit_record_repository,
            final(self).resource_quota_repository.audit_record_repository
                == old(self).resource_quota_repository.audit_record_repository,
            final(self).role_repository.audit_record_repository
                == old(self).role_repository.audit_record_repository,
            final(self).role_roleable_repository.audit_record_repository
                == old(self).role_roleable_repository.audit_record_repository,
            final(self).claim_repository.audit_record_repository
                == old(self).claim_repository.audit_record_repository,
            final(self).claim_claimable_repository.audit_record_repository
                == old(self).claim_claimable_repository.audit_record_repository,
            final(self).license_policy_repository.audit_record_repository
                == old(self).license_policy_repository.audit_record_repository,
    {
        self.claim_claimable_repository.clear();
        self.license_policy_repository.clear();
        self.claim_repository.clear();
        self.role_roleable_repository.clear();
        self.role_repository.clear();
        self.resource_quota_repository.clear();
        self.resource_instance_repository.clear();
        self.resource_repository.clear();
        self.group_principal_repository.clear();
        self.group_repository.clear();
        self.principal_repository.clear();
        self.org_repository.clear();
        self.realm_repository.clear();
    }

    /// Creates the realm named `name`.
    pub fn new_realm_with(&mut self, ctx: &SecurityContext, name: &str) -> (r: Result<SecurityRealm, RbacError>)
        ensures
            exists|input: SecurityRealm| realm_shape(input, name@) && SecurityRealmRepository::create_outcome(
                old(self).realm_repository,
                final(self).realm_repository,
                *ctx,
                input,
                input.id,
                0,
                r,
            ),
            same_but(*old(self), *final(self), Part::Realms),
            old(self).wf() ==> final(self).wf(),
    {
        let input = SecurityRealm::new(name, None);
        let r = self.realm_repository.create(ctx, &input);
        proof {
            assert(
                realm_shape(input, name@) && SecurityRealmRepository::create_outcome(
                    old(self).realm_repository,
                    self.realm_repository,
                    *ctx,
                    input,
                    input.id,
                    0,
                    r,
                )
            );
        }
        r
    }

    /// Creates the default license policy of an organization, in force from
    /// the current time to the far future.
    pub fn new_license_policy(
        &mut self,
        ctx: &SecurityContext,
        org: &Organization,
    ) -> (r: Result<LicensePolicy, RbacError>)
        ensures
            exists|input: LicensePolicy, id: String, now: i64| default_policy_shape(input, org.id@)
                && LicensePolicyRepository::create_outcome(
                old(self).license_policy_repository,
                final(self).license_policy_repository,
                *ctx,
                input,
                id,
                now,
                r,
            ),
            same_but(*old(self), *final(self), Part::Policies),
            old(self).wf() ==> final(self).wf(),
    {
        let input = LicensePolicy::new("", org.id.as_str(), "default-policy", None, clock::now(), clock::FAR_FUTURE);
        let r = self.license_policy_repository.create(ctx, &input);
        proof {
            let (id, now) = choose|id: String, now: i64| LicensePolicyRepository::create_outcome(
                old(self).license_policy_repository,
                self.license_policy_repository,
                *ctx,
                input,
                id,
                now,
                r,
            );
            assert(
                default_policy_shape(input, org.id@) && LicensePolicyRepository::create_outcome(
                    old(self).license_policy_repository,
                    self.license_policy_repository,
                    *ctx,
                    input,
                    id,
                    now,
                    r,
                )
            );
        }
        r
    }

    /// Creates a resource of the realm under the given name, open to the four
    /// basic actions.
    pub fn new_resource_with(
        &mut self,
        ctx: &SecurityContext,
        realm: &SecurityRealm,
        resource_name: &str,
    ) -> (r: Result<Resource, RbacError>)
        ensures
            exists|input: Resource, id: String, now: i64| resource_shape(input, realm.id@, resource_name@)
                && ResourceRepository::create_outcome(
                old(self).resource_repository,
                final(self).resource_repository,
                *ctx,
                input,
                id,
                now,
                r,
            ),
            same_but(*old(self), *final(self), Part::Resources),
            old(self).wf() ==> final(self).wf(),
    {
        let input = Resource::new(
            "",
            realm.id.as_str(),
            resource_name,
            None,
            Some("(CREATE|READ|UPDATE|DELETE)".to_string()),
        );
        let r = self.resource_repository.create(ctx, &input);
        proof {
            let (id, now) = choose|id: String, now: i64| ResourceRepository::create_outcome(
                old(self).resource_repository,
                self.resource_repository,
                *ctx,
                input,
                id,
                now,
                r,
            );
            assert(
                resource_shape(input, realm.id@, resource_name@) && ResourceRepository::create_outcome(
                    old(self).resource_repository,
                    self.resource_repository,
                    *ctx,
                    input,
                    id,
                    now,
                    r,
                )
            );
        }
        r
    }

    /// Creates an organization under the given name.
    pub fn new_org_with(&mut self, ctx: &SecurityContext, name: &str) -> (r: Result<Organization, RbacError>)
        ensures
            exists|input: Organization, id: String, now: i64| org_shape(input, name@)
                && OrganizationRepository::create_outcome(
                old(self).org_repository,
                final(self).org_repository,
                *ctx,
                input,
                id,
                now,
                r,
            ),
            same_but(*old(self), *final(self), Part::Organizations),
            old(self).wf() ==> final(self).wf(),
    {
        let input = Organization::new("", None, name, "", None);
        let r = self.org_repository.create(ctx, &input);
        proof {
            let (id, now) = choose|id: String, now: i64| OrganizationRepository::create_outcome(
                old(self).org_repository,
                self.org_repository,
                *ctx,
                input,
                id,
                now,
                r,
            );
            assert(
                org_shape(input, name@) && OrganizationRepository::create_outcome(
                    old(self).org_repository,
                    self.org_repository,
                    *ctx,
                    input,
                    id,
                    now,
                    r,
                )
            );
        }
        r
    }

    /// Creates a group of the organization under the given name, below
    /// `parent`.
    pub fn new_group_with_parent(
        &mut self,
        ctx: &SecurityContext,
        org: &Organization,
        parent: &Group,
        name: &str,
    ) -> (r: Result<Group, RbacError>)
        ensures
            exists|input: Group, id: String, now: i64| group_shape(input, org.id@, name@, Some(parent.id))
                && GroupRepository::create_outcome(
                old(self).group_repository,
                final(self).group_repository,
                *ctx,
                input,
                id,
                now,
                r,
            ),
            same_but(*old(self), *final(self), Part::Groups),
            old(self).wf() ==> final(self).wf(),
    {
        let input = Group::new("", org.id.as_str(), name, None, Some(parent.id.clone()));
        let r = self.group_repository.create(ctx, &input);
        proof {
            let (id, now) = choose|id: String, now: i64| GroupRepository::create_outcome(
                old(self).group_repository,
                self.group_repository,
                *ctx,
                input,
                id,
                now,
                r,
            );
            assert(
                group_shape(input, org.id@, name@, Some(parent.id)) && GroupRepository::create_outcome(
                    old(self).group_repository,
                    self.group_repository,
                    *ctx,
                    input,
                    id,
                    now,
                    r,
                )
            );
        }
        r
    }

    /// Creates a group of the organization under the given name.
    pub fn new_group_with(
        &mut self,
        ctx: &SecurityContext,
        org: &Organization,
        name: &str,
    ) -> (r: Result<Group, RbacError>)
        ensures
            exists|input: Group, id: String, now: i64| group_shape(input, org.id@, name@, None::<String>)
                && GroupRepository::create_outcome(
                old(self).group_repository,
                final(self).group_repository,
                *ctx,
                input,
                id,
                now,
                r,
            ),
            same_but(*old(self), *final(self), Part::Groups),
            old(self).wf() ==> final(self).wf(),
    {
        let input = Group::new("", org.id.as_str(), name, None, None);
        let r = self.group_repository.create(ctx, &input);
        proof {
            let (id, now) = choose|id: String, now: i64| GroupRepository::create_outcome(
                old(self).group_repository,
                self.group_repository,
                *ctx,
                input,
                id,
                now,
                r,
            );
            assert(
                group_shape(input, org.id@, name@, None::<String>) && GroupRepository::create_outcome(
                    old(self).group_repository,
                    self.group_repository,
                    *ctx,
                    input,
                    id,
                    now,
                    r,
                )
            );
        }
        r
    }

    /// Creates a role of the organization in the realm under the given name,
    /// which inherits from `parent`.
    pub fn new_role_with_parent(
        &mut self,
        ctx: &SecurityContext,
        realm: &SecurityRealm,
        org: &Organization,
        parent: &Role,
        name: &str,
    ) -> (r: Result<Role, RbacError>)
        ensures
            exists|input: Role, id: String, now: i64| role_shape(input, realm.id@, org.id@, name@, Some(parent.id))
                && RoleRepository::create_outcome(
                old(self).role_repository,
                final(self).role_repository,
                *ctx,
                input,
                id,
                now,
                r,
            ),
            same_but(*old(self), *final(self), Part::Roles),
            old(self).wf() ==> final(self).wf(),
    {
        let input = Role::new("", realm.id.as_str(), org.id.as_str(), name, None, Some(parent.id.clone()));
        let r = self.role_repository.create(ctx, &input);
        proof {
            let (id, now) = choose|id: String, now: i64| RoleRepository::create_outcome(
                old(self).role_repository,
                self.role_repository,
                *ctx,
                input,
                id,
                now,
                r,
            );
            assert(
                role_shape(input, realm.id@, org.id@, name@, Some(parent.id)) && RoleRepository::create_outcome(
                    old(self).role_repository,
                    self.role_repository,
                    *ctx,
                    input,
                    id,
                    now,
                    r,
                )
            );
        }
        r
    }

    /// Creates a role of the organization in the realm under the given name.
    pub fn new_role_with(
        &mut self,
        ctx: &SecurityContext,
        realm: &SecurityRealm,
        org: &Organization,
        name: &str,
    ) -> (r: Result<Role, RbacError>)
        ensures
            exists|input: Role, id: String, now: i64| role_shape(input, realm.id@, org.id@, name@, None::<String>)
                && RoleRepository::create_outcome(
                old(self).role_repository,
                final(self).role_repository,
                *ctx,
                input,
                id,
                now,
                r,
            ),
            same_but(*old(self), *final(self), Part::Roles),
            old(self).wf() ==> final(self).wf(),
    {
        let input = Role::new("", realm.id.as_str(), org.id.as_str(), name, None, None);
        let r = self.role_repository.create(ctx, &input);
        proof {
            let (id, now) = choose|id: String, now: i64| RoleRepository::create_outcome(
                old(self).role_repository,
                self.role_repository,
                *ctx,
                input,
                id,
                now,
                r,
            );
            assert(
                role_shape(input, realm.id@, org.id@, name@, None::<String>) && RoleRepository::create_outcome(
                    old(self).role_repository,
                    self.role_repository,
                    *ctx,
                    input,
                    id,
                    now,
                    r,
                )
            );
        }
        r
    }

    /// Creates a principal of the organization under the given user name.
    pub fn new_principal_with(
        &mut self,
        ctx: &SecurityContext,
        org: &Organization,
        username: &str,
    ) -> (r: Result<Principal, RbacError>)
        ensures
            exists|input: Principal, id: String, now: i64| principal_shape(input, org.id@, username@)
                && PrincipalRepository::create_outcome(
                old(self).principal_repository,
                final(self).principal_repository,
                *ctx,
                input,
                id,
                now,
                r,
            ),
            same_but(*old(self), *final(self), Part::Principals),
            old(self).wf() ==> final(self).wf(),
    {
        let input = Principal::new("", org.id.as_str(), username, None);
        let r = self.principal_repository.create(ctx, &input);
        proof {
            let (id, now) = choose|id: String, now: i64| PrincipalRepository::create_outcome(
                old(self).principal_repository,
                self.principal_repository,
                *ctx,
                input,
                id,
                now,
                r,
            );
            assert(
                principal_shape(input, org.id@, username@) && PrincipalRepository::create_outcome(
                    old(self).principal_repository,
                    self.principal_repository,
                    *ctx,
                    input,
                    id,
                    now,
                    r,
                )
            );
        }
        r
    }

    /// Creates a claim of the realm that allows the actions matched by
    /// `action` on the resource.
    pub fn new_claim_with(
        &mut self,
        ctx: &SecurityContext,
        realm: &SecurityRealm,
        resource: &Resource,
        action: &str,
    ) -> (r: Result<Claim, RbacError>)
        ensures
            exists|input: Claim, id: String, now: i64| claim_shape(input, realm.id@, resource.id@, action@)
                && ClaimRepository::create_outcome(
                old(self).claim_repository,
                final(self).claim_repository,
                *ctx,
                input,
                id,
                now,
                r,
            ),
            same_but(*old(self), *final(self), Part::Claims),
            old(self).wf() ==> final(self).wf(),
    {
        let allow = Constants::Allow.to_string();
        let input = Claim::new("", realm.id.as_str(), resource.id.as_str(), action, allow.as_str(), None);
        let r = self.claim_repository.create(ctx, &input);
        proof {
            let (id, now) = choose|id: String, now: i64| ClaimRepository::create_outcome(
                old(self).claim_repository,
                self.claim_repository,
                *ctx,
                input,
                id,
                now,
                r,
            );
            assert(
                claim_shape(input, realm.id@, resource.id@, action@) && ClaimRepository::create_outcome(
                    old(self).claim_repository,
                    self.claim_repository,
                    *ctx,
                    input,
                    id,
                    now,
                    r,
                )
            );
        }
        r
    }

    /// Makes the principal a member of the group.
    pub fn map_principal_to_group(
        &mut self,
        ctx: &SecurityContext,
        principal: &Principal,
        group: &Group,
    ) -> (r: Result<usize, RbacError>)
        ensures
            GroupPrincipalRepository::add_outcome(
                old(self).group_principal_repository,
                final(self).group_principal_repository,
                *ctx,
                group.id@,
                principal.id@,
                "Adding principal to group "@,
                r,
            ),
            same_but(*old(self), *final(self), Part::Memberships),
            old(self).wf() ==> final(self).wf(),
    {
        let r = self.group_principal_repository.add_principal_to_group(ctx, group.id.as_str(), principal.id.as_str());
        proof {
            assert(
                GroupPrincipalRepository::add_outcome(
                    old(self).group_principal_repository,
                    self.group_principal_repository,
                    *ctx,
                    group.id@,
                    principal.id@,
                    "Adding principal to group "@,
                    r,
                )
            );
        }
        r
    }

    /// Ends the membership of the principal in the group.
    pub fn unmap_principal_from_group(
        &mut self,
        ctx: &SecurityContext,
        principal: &Principal,
        group: &Group,
    ) -> (r: Result<usize, RbacError>)
        ensures
            GroupPrincipalRepository::remove_outcome(
                old(self).group_principal_repository,
                final(self).group_principal_repository,
                *ctx,
                group.id@,
                principal.id@,
                "Removing principal from group "@,
                r,
            ),
            same_but(*old(self), *final(self), Part::Memberships),
            old(self).wf() ==> final(self).wf(),
    {
        let r = self.group_principal_repository.delete_principal_from_group(
            ctx,
            group.id.as_str(),
            principal.id.as_str(),
        );
        proof {
            assert(
                GroupPrincipalRepository::remove_outcome(
                    old(self).group_principal_repository,
                    self.group_principal_repository,
                    *ctx,
                    group.id@,
                    principal.id@,
                    "Removing principal from group "@,
                    r,
                )
            );
        }
        r
    }

    /// Grants the role to the principal, without constraints, from the current
    /// time to the far future.
    pub fn map_principal_to_role(
        &mut self,
        ctx: &SecurityContext,
        principal: &Principal,
        role: &Role,
    ) -> (r: Result<usize, RbacError>)
        ensures
            exists|now: i64| RoleRoleableRepository::add_outcome(
                old(self).role_roleable_repository,
                final(self).role_roleable_repository,
                *ctx,
                role.id@,
                principal.id@,
                Constants::Principal.name(),
                ""@,
                now,
                clock::FAR_FUTURE,
                "Adding principal to role "@,
                r,
            ),
            same_but(*old(self), *final(self), Part::RoleGrants),
            old(self).wf() ==> final(self).wf(),
    {
        let now = clock::now();
        let r = self.role_roleable_repository.add_principal_to_role(
            ctx,
            role.id.as_str(),
            principal.id.as_str(),
            "",
            now,
            clock::FAR_FUTURE,
        );
        proof {
            assert(
                RoleRoleableRepository::add_outcome(
                    old(self).role_roleable_repository,
                    self.role_roleable_repository,
                    *ctx,
                    role.id@,
                    principal.id@,
                    Constants::Principal.name(),
                    ""@,
                    now,
                    clock::FAR_FUTURE,
                    "Adding principal to role "@,
                    r,
                )
            );
        }
        r
    }

    /// Revokes the role from the principal.
    pub fn unmap_principal_from_role(
        &mut self,
        ctx: &SecurityContext,
        principal: &Principal,
        role: &Role,
    ) -> (r: Result<usize, RbacError>)
        ensures
            RoleRoleableRepository::remove_outcome(
                old(self).role_roleable_repository,
                final(self).role_roleable_repository,
                *ctx,
                role.id@,
                principal.id@,
                Constants::Principal.name(),
                "Removing principal from role "@,
                r,
            ),
            same_but(*old(self), *final(self), Part::RoleGrants),
            old(self).wf() ==> final(self).wf(),
    {
        let r = self.role_roleable_repository.delete_principal_from_role(
            ctx,
            role.id.as_str(),
            principal.id.as_str(),
        );
        proof {
            assert(
                RoleRoleableRepository::remove_outcome(
                    old(self).role_roleable_repository,
                    self.role_roleable_repository,
                    *ctx,
                    role.id@,
                    principal.id@,
                    Constants::Principal.name(),
                    "Removing principal from role "@,
                    r,
                )
            );
        }
        r
    }

    /// Grants the role to the group under the given constraints, from the
    /// current time to the far future.
    pub fn map_group_to_role(
        &mut self,
        ctx: &SecurityContext,
        group: &Group,
        role: &Role,
        constraints: &str,
    ) -> (r: Result<usize, RbacError>)
        ensures
            exists|now: i64| RoleRoleableRepository::add_outcome(
                old(self).role_roleable_repository,
                final(self).role_roleable_repository,
                *ctx,
                role.id@,
                group.id@,
                Constants::Group.name(),
                constraints@,
                now,
                clock::FAR_FUTURE,
                "Adding group to role "@,
                r,
            ),
            same_but(*old(self), *final(self), Part::RoleGrants),
            old(self).wf() ==> final(self).wf(),
    {
        let now = clock::now();
        let r = self.role_roleable_repository.add_group_to_role(
            ctx,
            role.id.as_str(),
            group.id.as_str(),
            constraints,
            now,
            clock::FAR_FUTURE,
        );
        proof {
            assert(
                RoleRoleableRepository::add_outcome(
                    old(self).role_roleable_repository,
                    self.role_roleable_repository,
                    *ctx,
                    role.id@,
                    group.id@,
                    Constants::Group.name(),
                    constraints@,
                    now,
                    clock::FAR_FUTURE,
                    "Adding group to role "@,
                    r,
                )
            );
        }
        r
    }

    /// Revokes the role from the group.
    pub fn unmap_group_from_role(
        &mut self,
        ctx: &SecurityContext,
        group: &Group,
        role: &Role,
    ) -> (r: Result<usize, RbacError>)
        ensures
            RoleRoleableRepository::remove_outcome(
                old(self).role_roleable_repository,
                final(self).role_roleable_repository,
                *ctx,
                role.id@,
                group.id@,
                Constants::Group.name(),
                "Removing group from role "@,
                r,
            ),
            same_but(*old(self), *final(self), Part::RoleGrants),
            old(self).wf() ==> final(self).wf(),
    {
        let r = self.role_roleable_repository.delete_group_from_role(ctx, role.id.as_str(), group.id.as_str());
        proof {
            assert(
                RoleRoleableRepository::remove_outcome(
                    old(self).role_roleable_repository,
                    self.role_roleable_repository,
                    *ctx,
                    role.id@,
                    group.id@,
                    Constants::Group.name(),
                    "Removing group from role "@,
                    r,
                )
            );
        }
        r
    }

    /// Grants the claim to the role under a scope and constraints, from the
    /// current time to the far future.
    pub fn map_role_to_claim(
        &mut self,
        ctx: &SecurityContext,
        role: &Role,
        claim: &Claim,
        scope: &str,
        constraints: &str,
    ) -> (r: Result<usize, RbacError>)
        ensures
            exists|now: i64| ClaimClaimableRepository::add_outcome(
                old(self).claim_claimable_repository,
                final(self).claim_claimable_repository,
                *ctx,
                claim.id@,
                role.id@,
                Constants::Role.name(),
                scope@,
                constraints@,
                now,
                clock::FAR_FUTURE,
                "Adding role to claim "@,
                r,
            ),
            same_but(*old(self), *final(self), Part::ClaimGrants),
            old(self).wf() ==> final(self).wf(),
    {
        let now = clock::now();
        let r = self.claim_claimable_repository.add_role_to_claim(
            ctx,
            role.id.as_str(),
            claim.id.as_str(),
            scope,
            constraints,
            now,
            clock::FAR_FUTURE,
        );
        proof {
            assert(
                ClaimClaimableRepository::add_outcome(
                    old(self).claim_claimable_repository,
                    self.claim_claimable_repository,
                    *ctx,
                    claim.id@,
                    role.id@,
                    Constants::Role.name(),
                    scope@,
                    constraints@,
                    now,
                    clock::FAR_FUTURE,
                    "Adding role to claim "@,
                    r,
                )
            );
        }
        r
    }

    /// Revokes the claim from the role.
    pub fn unmap_role_from_claim(
        &mut self,
        ctx: &SecurityContext,
        role: &Role,
        claim: &Claim,
    ) -> (r: Result<usize, RbacError>)
        ensures
            ClaimClaimableRepository::remove_outcome(
                old(self).claim_claimable_repository,
                final(self).claim_claimable_repository,
                *ctx,
                claim.id@,
                role.id@,
                Constants::Role.name(),
                "Removing role from claim "@,
                r,
            ),
            same_but(*old(self), *final(self), Part::ClaimGrants),
            old(self).wf() ==> final(self).wf(),
    {
        let r = self.claim_claimable_repository.delete_role_from_claim(ctx, role.id.as_str(), claim.id.as_str());
        proof {
            assert(
                ClaimClaimableRepository::remove_outcome(
                    old(self).claim_claimable_repository,
                    self.claim_claimable_repository,
                    *ctx,
                    claim.id@,
                    role.id@,
                    Constants::Role.name(),
                    "Removing role from claim "@,
                    r,
                )
            );
        }
        r
    }

    /// Grants the claim to the principal under a scope and constraints, from
    /// the current time to the far future.
    pub fn map_principal_to_claim(
        &mut self,
        ctx: &SecurityContext,
        principal: &Principal,
        claim: &Claim,
        scope: &str,
        constraints: &str,
    ) -> (r: Result<usize, RbacError>)
        ensures
            exists|now: i64| ClaimClaimableRepository::add_outcome(
                old(self).claim_claimable_repository,
                final(self).claim_claimable_repository,
                *ctx,
                claim.id@,
                principal.id@,
                Constants::Principal.name(),
                scope@,
                constraints@,
                now,
                clock::FAR_FUTURE,
                "Adding principal to claim "@,
                r,
            ),
            same_but(*old(self), *final(self), Part::ClaimGrants),
            old(self).wf() ==> final(self).wf(),
    {
        let now = clock::now();
        let r = self.claim_claimable_repository.add_principal_to_claim(
            ctx,
            principal.id.as_str(),
            claim.id.as_str(),
            scope,
            constraints,
            now,
            clock::FAR_FUTURE,
        );
        proof {
            assert(
                ClaimClaimableRepository::add_outcome(
                    old(self).claim_claimable_repository,
                    self.claim_claimable_repository,
                    *ctx,
                    claim.id@,
                    principal.id@,
                    Constants::Principal.name(),
                    scope@,
                    constraints@,
                    now,
                    clock::FAR_FUTURE,
                    "Adding principal to claim "@,
                    r,
                )
            );
        }
        r
    }

    /// Revokes the claim from the principal.
    pub fn unmap_principal_from_claim(
        &mut self,
        ctx: &SecurityContext,
        principal: &Principal,
        claim: &Claim,
    ) -> (r: Result<usize, RbacError>)
        ensures
            ClaimClaimableRepository::remove_outcome(
                old(self).claim_claimable_repository,
                final(self).claim_claimable_repository,
                *ctx,
                claim.id@,
                principal.id@,
                Constants::Principal.name(),
                "Removing principal from claim "@,
                r,
            ),
            same_but(*old(self), *final(self), Part::ClaimGrants),
            old(self).wf() ==> final(self).wf(),
    {
        let r = self.claim_claimable_repository.delete_principal_from_claim(
            ctx,
            principal.id.as_str(),
            claim.id.as_str(),
        );
        proof {
            assert(
                ClaimClaimableRepository::remove_outcome(
                    old(self).claim_claimable_repository,
                    self.claim_claimable_repository,
                    *ctx,
                    claim.id@,
                    principal.id@,
                    Constants::Principal.name(),
                    "Removing principal from claim "@,
                    r,
                )
            );
        }
        r
    }

    /// Licenses the claim to the holder of the policy under a scope and
    /// constraints, from the current time to the far future.
    pub fn map_license_policy_to_claim(
        &mut self,
        ctx: &SecurityContext,
        policy: &LicensePolicy,
        claim: &Claim,
        scope: &str,
        constraints: &str,
    ) -> (r: Result<usize, RbacError>)
        ensures
            exists|now: i64| ClaimClaimableRepository::add_outcome(
                old(self).claim_claimable_repository,
                final(self).claim_claimable_repository,
                *ctx,
                claim.id@,
                policy.id@,
                Constants::LicensePolicy.name(),
                scope@,
                constraints@,
                now,
                clock::FAR_FUTURE,
                "Adding claim to license-policy "@,
                r,
            ),
            same_but(*old(self), *final(self), Part::ClaimGrants),
            old(self).wf() ==> final(self).wf(),
    {
        let now = clock::now();
        let r = self.claim_claimable_repository.add_license_policy_to_claim(
            ctx,
            policy.id.as_str(),
            claim.id.as_str(),
            scope,
            constraints,
            now,
            clock::FAR_FUTURE,
        );
        proof {
            assert(
                ClaimClaimableRepository::add_outcome(
                    old(self).claim_claimable_repository,
                    self.claim_claimable_repository,
                    *ctx,
                    claim.id@,
                    policy.id@,
                    Constants::LicensePolicy.name(),
                    scope@,
                    constraints@,
                    now,
                    clock::FAR_FUTURE,
                    "Adding claim to license-policy "@,
                    r,
                )
            );
        }
        r
    }

    /// Withdraws the claim from the license policy.
    pub fn unmap_license_policy_from_claim(
        &mut self,
        ctx: &SecurityContext,
        policy: &LicensePolicy,
        claim: &Claim,
    ) -> (r: Result<usize, RbacError>)
        ensures
            ClaimClaimableRepository::remove_outcome(
                old(self).claim_claimable_repository,
                final(self).claim_claimable_repository,
                *ctx,
                claim.id@,
                policy.id@,
                Constants::LicensePolicy.name(),
                "Removing claim from license-policy "@,
                r,
            ),
            same_but(*old(self), *final(self), Part::ClaimGrants),
            old(self).wf() ==> final(self).wf(),
    {
        let r = self.claim_claimable_repository.delete_license_policy_from_claim(
            ctx,
            policy.id.as_str(),
            claim.id.as_str(),
        );
        proof {
            assert(
                ClaimClaimableRepository::remove_outcome(
                    old(self).claim_claimable_repository,
                    self.claim_claimable_repository,
                    *ctx,
                    claim.id@,
                    policy.id@,
                    Constants::LicensePolicy.name(),
                    "Removing claim from license-policy "@,
                    r,
                )
            );
        }
        r
    }

    /// The roles of an organization.
    pub open spec fn org_roles(&self, organization_id: Seq<char>) -> Seq<Role> {
        self.role_repository@.filter(role_repository::of_org(organization_id))
    }

    /// The groups of an organization.
    pub open spec fn org_groups(&self, organization_id: Seq<char>) -> Seq<Group> {
        self.group_repository@.filter(group_repository::of_org(organization_id))
    }

    /// The roles that resolution gives a principal at `now`: the roles of its
    /// organization that are granted to it or to one of its groups by a grant
    /// in force, and the ancestors of those roles in the organization.
    pub open spec fn resolved_roles(
        &self,
        organization_id: Seq<char>,
        principal_id: Seq<char>,
        now: i64,
    ) -> Seq<Role> {
        self.org_roles(organization_id).filter(
            reached_role(
                self.org_roles(organization_id),
                holds_role(self.role_roleable_repository@, self.group_principal_repository@, principal_id, now),
            ),
        )
    }

    /// The groups that resolution gives a principal: the groups of its
    /// organization that it is a member of.
    pub open spec fn resolved_groups(&self, organization_id: Seq<char>, principal_id: Seq<char>) -> Seq<Group> {
        found_groups(self.org_groups(organization_id), group_ids_of(self.group_principal_repository@, principal_id))
    }

    /// The license layer of an organization in a realm at `now`.
    pub open spec fn org_claims(
        &self,
        realm_id: Seq<char>,
        organization_id: Seq<char>,
        now: i64,
    ) -> Seq<ClaimClaimable> {
        org_claims_of(
            self.claim_repository@.filter(claim_repository::of_realm(realm_id)),
            self.license_policy_repository@.filter(license_policy_repository::active_of_org(organization_id, now)),
            self.claim_claimable_repository@,
            now,
        )
    }

    /// The number of role grants, to a principal and to the groups that it is
    /// a member of, in force at `now`, that name no role of the organization.
    pub open spec fn dangling_roles(&self, organization_id: Seq<char>, principal_id: Seq<char>, now: i64) -> nat {
        missing_roles(
            self.org_roles(organization_id),
            role_ids_of_principal(self.role_roleable_repository@, principal_id, now),
        ) + missing_roles_of_groups(
            self.org_roles(organization_id),
            self.role_roleable_repository@,
            group_ids_of(self.group_principal_repository@, principal_id),
            now,
        )
    }

    /// The number of grants of the first license policy in force that name no
    /// claim of the realm.
    pub open spec fn dangling_licenses(&self, realm_id: Seq<char>, organization_id: Seq<char>, now: i64) -> nat {
        let policies = self.license_policy_repository@.filter(
            license_policy_repository::active_of_org(organization_id, now),
        );
        if policies.len() > 0 {
            unlicensed(
                self.claim_repository@.filter(claim_repository::of_realm(realm_id)),
                self.claim_claimable_repository@.filter(
                    claim_claimable_repository::active_of_policy(policies[0].id@, now),
                ),
            )
        } else {
            0
        }
    }

    /// The grants in force at `now` to the roles `roles`.
    pub open spec fn role_grants(&self, roles: Seq<Role>, now: i64) -> Seq<PClaimClaimable> {
        self.claim_claimable_repository@.filter(
            claim_claimable_repository::active_of_roles(roles.map_values(|r: Role| r.id), now),
        )
    }

    /// The grants in force at `now` to the principal itself.
    pub open spec fn own_grants(&self, principal_id: Seq<char>, now: i64) -> Seq<PClaimClaimable> {
        self.claim_claimable_repository@.filter(claim_claimable_repository::active_of_principal(principal_id, now))
    }

    /// The claims that resolution gives a principal in a realm at `now`: what
    /// the grants to its roles give, then what the grants to itself give, each
    /// held against the license layer of its organization.
    pub open spec fn resolved_claims(
        &self,
        realm_id: Seq<char>,
        organization_id: Seq<char>,
        principal_id: Seq<char>,
        now: i64,
    ) -> Seq<
        ClaimClaimable,
    > {
        let layer = self.org_claims(realm_id, organization_id, now);
        let roles = self.resolved_roles(organization_id, principal_id, now);
        granted(layer, self.role_grants(roles, now), true) + granted(layer, self.own_grants(principal_id, now), false)
    }

    /// The resources that the claims `claims` speak of.
    pub open spec fn claimed_resources(&self, claims: Seq<ClaimClaimable>) -> Seq<Resource> {
        self.resource_repository@.filter(
            resource_repository::among(claims.map_values(|e: ClaimClaimable| e.claim().resource_id)),
        )
    }

    /// Whether `p` is the principal stored as `row` with all that resolution
    /// gives it in the realm at `now`.
    pub open spec fn hydrated(&self, p: Principal, row: PPrincipal, realm_id: Seq<char>, now: i64) -> bool {
        &&& p.id == row.id
        &&& p.organization_id == row.organization_id
        &&& p.username == row.username
        &&& p.description == row.description
        &&& p.created_by == row.created_by
        &&& p.created_at == row.created_at
        &&& p.updated_by == row.updated_by
        &&& p.updated_at == row.updated_at
        &&& p.roles@ == self.resolved_roles(row.organization_id@, row.id@, now)
        &&& p.groups@ == self.resolved_groups(row.organization_id@, row.id@)
        &&& p.claims@ == self.resolved_claims(realm_id, row.organization_id@, row.id@, now)
        &&& p.resources@ == self.claimed_resources(p.claims@)
    }

    /// The number of claim grants, to the roles of a principal and to the
    /// principal itself, that the license layer does not let pass at `now`.
    pub open spec fn dangling_claims(
        &self,
        realm_id: Seq<char>,
        organization_id: Seq<char>,
        principal_id: Seq<char>,
        now: i64,
    ) -> nat {
        let layer = self.org_claims(realm_id, organization_id, now);
        let roles = self.resolved_roles(organization_id, principal_id, now);
        refused(layer, self.role_grants(roles, now)) + refused(layer, self.own_grants(principal_id, now))
    }

    /// Follows each role of `role_ids` upwards in `org_roles`, marking what is
    /// reached, and enters every walk that ended at a missing role in the
    /// audit trail. Returns the roles followed so far.
    fn populate_roles(
        audit: &mut AuditRecordRepository,
        ctx: &SecurityContext,
        org_roles: &Vec<Role>,
        role_ids: &Vec<String>,
        marks: &mut Vec<bool>,
        Ghost(done): Ghost<Seq<Seq<char>>>,
    ) -> (after: Ghost<Seq<Seq<char>>>)
        requires
            marks_ok(org_roles@, old(marks)@, done, None),
        ensures
            marks_ok(org_roles@, final(marks)@, after@, None),
            forall|id: Seq<char>| #[trigger] after@.contains(id) <==> done.contains(id) || listed(role_ids@, id),
            extended(old(audit)@, final(audit)@, *ctx, "GET"@),
            final(audit)@.len() >= old(audit)@.len() + missing_roles(org_roles@, role_ids@),
    {
        let ghost mut seen = done;
        let mut i: usize = 0;
        proof {
            lemma_extended_none(audit@, *ctx, "GET"@);
            assert(role_ids@.take(0) =~= Seq::<String>::empty());
        }
        while i < role_ids.len()
            invariant
                i <= role_ids@.len(),
                marks_ok(org_roles@, marks@, seen, None),
                forall|id: Seq<char>| #[trigger] seen.contains(id) <==> done.contains(id) || listed(role_ids@.take(i as int), id),
                extended(old(audit)@, audit@, *ctx, "GET"@),
                audit@.len() >= old(audit)@.len() + missing_roles(org_roles@, role_ids@.take(i as int)),
            decreases role_ids@.len() - i,
        {
            let ghost log = audit@;
            let ghost before = seen;
            let missing = mark_chain(org_roles, role_ids[i].as_str(), marks, Ghost(seen));
            match missing {
                Some(id) => {
                    audit.log(ctx, "Failed to add role because it is not mapped to org: ", id.as_str(), "GET");
                    proof {
                        lemma_logged_extends(
                            log,
                            audit@,
                            *ctx,
                            "GET"@,
                            "Failed to add role because it is not mapped to org: "@ + id@,
                        );
                        lemma_extended_twice(old(audit)@, log, audit@, *ctx, "GET"@);
                    }
                },
                None => {},
            }
            proof {
                seen = seen.push(role_ids@[i as int]@);
                assert(role_ids@.take(i + 1).drop_last() =~= role_ids@.take(i as int));
                lemma_pushed_contains(before, role_ids@[i as int]@);
                lemma_listed_take(role_ids@, i as int);
            }
            i += 1;
        }
        proof {
            assert(role_ids@.take(i as int) =~= role_ids@);
        }
        Ghost(seen)
    }

    /// The roles that the principal holds at `now`, with their ancestors.
    fn resolve_roles(
        &mut self,
        ctx: &SecurityContext,
        organization_id: &str,
        principal_id: &str,
        now: i64,
    ) -> (out: Vec<Role>)
        requires
            old(self).role_repository.wf(),
        ensures
            out@ == old(self).resolved_roles(organization_id@, principal_id@, now),
            same_but(*old(self), *final(self), Part::Audit),
            extended(old(self).audit_record_repository@, final(self).audit_record_repository@, *ctx, "GET"@),
            final(self).audit_record_repository@.len() >= old(self).audit_record_repository@.len() + old(
                self,
            ).dangling_roles(organization_id@, principal_id@, now),
    {
        let org_roles = self.role_repository.get_by_org(ctx, organization_id);
        proof {
            lemma_filter_keeps_unique(self.role_repository@, role_repository::of_org(organization_id@));
        }
        let mut marks: Vec<bool> = Vec::new();
        let mut n: usize = 0;
        while n < org_roles.len()
            invariant
                n <= org_roles@.len(),
                marks@.len() == n,
                forall|j: int| 0 <= j < n ==> !marks@[j],
            decreases org_roles@.len() - n,
        {
            marks.push(false);
            n += 1;
        }
        let ghost nothing = Seq::<Seq<char>>::empty();
        let direct = self.role_roleable_repository.get_role_ids_by_principal_at(principal_id, now);
        let ghost log0 = self.audit_record_repository@;
        proof {
            lemma_extended_none(log0, *ctx, "GET"@);
        }
        let Ghost(mut seen) = Self::populate_roles(
            &mut self.audit_record_repository,
            ctx,
            &org_roles,
            &direct,
            &mut marks,
            Ghost(nothing),
        );
        let group_ids = self.group_principal_repository.get_group_ids_by_principal(principal_id);
        let mut g: usize = 0;
        proof {
            assert(group_ids@.take(0) =~= Seq::<String>::empty());
        }
        while g < group_ids.len()
            invariant
                g <= group_ids@.len(),
                *self == (PersistenceManager { audit_record_repository: self.audit_record_repository, ..*old(self) }),
                org_roles@ == old(self).org_roles(organization_id@),
                direct@ == role_ids_of_principal(old(self).role_roleable_repository@, principal_id@, now),
                group_ids@ == group_ids_of(old(self).group_principal_repository@, principal_id@),
                marks_ok(org_roles@, marks@, seen, None),
                forall|id: Seq<char>| #[trigger]
                    seen.contains(id) <==> listed(direct@, id) || exists|k: int|
                        0 <= k < g && listed(
                            #[trigger] role_ids_of_group(old(self).role_roleable_repository@, group_ids@[k]@, now),
                            id,
                        ),
                extended(log0, self.audit_record_repository@, *ctx, "GET"@),
                self.audit_record_repository@.len() >= log0.len() + missing_roles(org_roles@, direct@)
                    + missing_roles_of_groups(
                    org_roles@,
                    old(self).role_roleable_repository@,
                    group_ids@.take(g as int),
                    now,
                ),
            decreases group_ids@.len() - g,
        {
            let ids = self.role_roleable_repository.get_role_ids_by_group_at(group_ids[g].clone(), now);
            let ghost log = self.audit_record_repository@;
            let Ghost(next) = Self::populate_roles(
                &mut self.audit_record_repository,
                ctx,
                &org_roles,
                &ids,
                &mut marks,
                Ghost(seen),
            );
            proof {
                lemma_extended_twice(log0, log, self.audit_record_repository@, *ctx, "GET"@);
                assert(group_ids@.take(g + 1).drop_last() =~= group_ids@.take(g as int));
                let grants = old(self).role_roleable_repository@;
                let here = role_ids_of_group(grants, group_ids@[g as int]@, now);
                assert forall|id: Seq<char>| #[trigger]
                    next.contains(id) <==> listed(direct@, id) || exists|k: int|
                        0 <= k < g + 1 && listed(#[trigger] role_ids_of_group(grants, group_ids@[k]@, now), id) by {
                    if next.contains(id) && !seen.contains(id) {
                        assert(listed(here, id));
                    }
                    if exists|k: int|
                        0 <= k < g + 1 && listed(#[trigger] role_ids_of_group(grants, group_ids@[k]@, now), id) {
                        let k = choose|k: int|
                            0 <= k < g + 1 && listed(#[trigger] role_ids_of_group(grants, group_ids@[k]@, now), id);
                        if k < g {
                            assert(seen.contains(id));
                        } else {
                            assert(listed(here, id));
                        }
                    }
                }
                seen = next;
            }
            g += 1;
        }
        proof {
            assert(group_ids@.take(g as int) =~= group_ids@);
        }
        let ghost starts = holds_role(
            old(self).role_roleable_repository@,
            old(self).group_principal_repository@,
            principal_id@,
            now,
        );
        let ghost chosen = reached_role(org_roles@, starts);
        proof {
            assert forall|id: Seq<char>| seen.contains(id) <==> #[trigger] starts(id) by {}
        }
        let mut out: Vec<Role> = Vec::new();
        let mut i: usize = 0;
        proof {
            assert(org_roles@.take(0) =~= Seq::<Role>::empty());
            reveal(Seq::filter);
        }
        while i < org_roles.len()
            invariant
                i <= org_roles@.len(),
                marks@.len() == org_roles@.len(),
                marks_ok(org_roles@, marks@, seen, None),
                keys_unique(org_roles@),
                forall|id: Seq<char>| seen.contains(id) <==> #[trigger] starts(id),
                chosen == reached_role(org_roles@, starts),
                out@ == org_roles@.take(i as int).filter(chosen),
            decreases org_roles@.len() - i,
        {
            proof {
                assert(org_roles@.take(i + 1) =~= org_roles@.take(i as int).push(org_roles@[i as int]));
                Seq::lemma_filter_push(org_roles@.take(i as int), org_roles@[i as int], chosen);
                lemma_marks_are_reached(org_roles@, marks@, seen, i as int);
                lemma_reached_same(org_roles@, |s: Seq<char>| seen.contains(s), starts, org_roles@[i as int].id@);
            }
            if marks[i] {
                out.push(org_roles[i].clone());
            }
            i += 1;
        }
        proof {
            assert(org_roles@.take(i as int) =~= org_roles@);
            lemma_extended_twice(
                old(self).audit_record_repository@,
                log0,
                self.audit_record_repository@,
                *ctx,
                "GET"@,
            );
        }
        out
    }

    /// The groups of the organization that the principal is a member of. A
    /// membership in a group that the organization does not have is passed
    /// over and entered in the audit trail.
    fn resolve_groups(
        &mut self,
        ctx: &SecurityContext,
        organization_id: &str,
        principal_id: &str,
    ) -> (out: Vec<Group>)
        ensures
            out@ == old(self).resolved_groups(organization_id@, principal_id@),
            same_but(*old(self), *final(self), Part::Audit),
            extended(old(self).audit_record_repository@, final(self).audit_record_repository@, *ctx, "GET"@),
            final(self).audit_record_repository@.len() == old(self).audit_record_repository@.len() + missing_groups(
                old(self).org_groups(organization_id@),
                group_ids_of(old(self).group_principal_repository@, principal_id@),
            ),
    {
        let org_groups = self.group_repository.get_by_org(ctx, organization_id);
        let group_ids = self.group_repository.get_group_ids_by_principal(
            ctx,
            &self.group_principal_repository,
            principal_id,
        );
        let mut out: Vec<Group> = Vec::new();
        let mut i: usize = 0;
        proof {
            assert(group_ids@.take(0) =~= Seq::<String>::empty());
            lemma_extended_none(self.audit_record_repository@, *ctx, "GET"@);
        }
        while i < group_ids.len()
            invariant
                i <= group_ids@.len(),
                *self == (PersistenceManager { audit_record_repository: self.audit_record_repository, ..*old(self) }),
                out@ == found_groups(org_groups@, group_ids@.take(i as int)),
                extended(old(self).audit_record_repository@, self.audit_record_repository@, *ctx, "GET"@),
                self.audit_record_repository@.len() == old(self).audit_record_repository@.len() + missing_groups(
                    org_groups@,
                    group_ids@.take(i as int),
                ),
            decreases group_ids@.len() - i,
        {
            proof {
                assert(group_ids@.take(i + 1).drop_last() =~= group_ids@.take(i as int));
            }
            match position_in(&org_groups, group_ids[i].as_str()) {
                Some(j) => {
                    proof {
                        lemma_first_index(org_groups@, by_key::<Group>(group_ids@[i as int]@));
                    }
                    out.push(org_groups[j].clone());
                },
                None => {
                    let ghost log = self.audit_record_repository@;
                    self.audit_record_repository.log(ctx, "Failed to find group ", group_ids[i].as_str(), "GET");
                    proof {
                        lemma_logged_extends(
                            log,
                            self.audit_record_repository@,
                            *ctx,
                            "GET"@,
                            "Failed to find group "@ + group_ids@[i as int]@,
                        );
                        lemma_extended_twice(
                            old(self).audit_record_repository@,
                            log,
                            self.audit_record_repository@,
                            *ctx,
                            "GET"@,
                        );
                    }
                },
            }
            i += 1;
        }
        proof {
            assert(group_ids@.take(i as int) =~= group_ids@);
        }
        out
    }

    /// The license layer of an organization in a realm at `now`. A grant of
    /// the license policy that names no claim of the realm is passed over and
    /// entered in the audit trail.
    fn get_claim_claimables_by_org(
        &mut self,
        ctx: &SecurityContext,
        realm_id: &str,
        organization_id: &str,
        now: i64,
    ) -> (out: Vec<
        ClaimClaimable,
    >)
        ensures
            out@ == old(self).org_claims(realm_id@, organization_id@, now),
            same_but(*old(self), *final(self), Part::Audit),
            extended(old(self).audit_record_repository@, final(self).audit_record_repository@, *ctx, "GET"@),
            final(self).audit_record_repository@.len() == old(self).audit_record_repository@.len() + old(
                self,
            ).dangling_licenses(realm_id@, organization_id@, now),
    {
        let claims = self.claim_repository.get_claims_by_realm(ctx, realm_id);
        let policies = self.license_policy_repository.get_by_org_at(ctx, organization_id, now);
        let mut out: Vec<ClaimClaimable> = Vec::new();
        proof {
            lemma_extended_none(self.audit_record_repository@, *ctx, "GET"@);
        }
        if policies.len() > 0 {
            let grants = self.claim_claimable_repository.get_by_policy_at(policies[0].id.as_str(), now);
            let mut i: usize = 0;
            proof {
                assert(grants@.take(0) =~= Seq::<PClaimClaimable>::empty());
            }
            while i < grants.len()
                invariant
                    i <= grants@.len(),
                    *self == (
                        PersistenceManager { audit_record_repository: self.audit_record_repository, ..*old(self) }
                    ),
                    out@ == licensed(claims@, grants@.take(i as int)),
                    extended(old(self).audit_record_repository@, self.audit_record_repository@, *ctx, "GET"@),
                    self.audit_record_repository@.len() == old(self).audit_record_repository@.len() + unlicensed(
                        claims@,
                        grants@.take(i as int),
                    ),
                decreases grants@.len() - i,
            {
                proof {
                    assert(grants@.take(i + 1).drop_last() =~= grants@.take(i as int));
                }
                match position_in(&claims, grants[i].claim_id.as_str()) {
                    Some(j) => {
                        proof {
                            lemma_first_index(claims@, by_key::<Claim>(grants@[i as int].claim_id@));
                        }
                        out.push(
                            ClaimClaimable::LicensePolicy(
                                claims[j].clone(),
                                claims[j].realm_id.clone(),
                                grants[i].scope.clone(),
                                grants[i].claim_constraints.clone(),
                            ),
                        );
                    },
                    None => {
                        let ghost log = self.audit_record_repository@;
                        self.audit_record_repository.log(
                            ctx,
                            "Failed to find claim ",
                            grants[i].claim_id.as_str(),
                            "GET",
                        );
                        proof {
                            lemma_logged_extends(
                                log,
                                self.audit_record_repository@,
                                *ctx,
                                "GET"@,
                                "Failed to find claim "@ + grants@[i as int].claim_id@,
                            );
                            lemma_extended_twice(
                                old(self).audit_record_repository@,
                                log,
                                self.audit_record_repository@,
                                *ctx,
                                "GET"@,
                            );
                        }
                    },
                }
                i += 1;
            }
            proof {
                assert(grants@.take(i as int) =~= grants@);
            }
        } else {
            let mut i: usize = 0;
            while i < claims.len()
                invariant
                    i <= claims@.len(),
                    out@ == ambient(claims@.take(i as int)),
                decreases claims@.len() - i,
            {
                out.push(ClaimClaimable::Realm(claims[i].clone(), claims[i].realm_id.clone()));
                proof {
                    assert(out@ =~= ambient(claims@.take(i + 1)));
                }
                i += 1;
            }
            proof {
                assert(claims@.take(i as int) =~= claims@);
            }
        }
        out
    }

    /// What the grants `grants` give their holders when they are held against
    /// the license layer `layer`. A grant that does not pass is passed over
    /// and entered in the audit trail.
    fn resolve_claims(
        audit: &mut AuditRecordRepository,
        ctx: &SecurityContext,
        layer: &Vec<ClaimClaimable>,
        grants: &Vec<PClaimClaimable>,
        to_role: bool,
    ) -> (out: Vec<ClaimClaimable>)
        ensures
            out@ == granted(layer@, grants@, to_role),
            extended(old(audit)@, final(audit)@, *ctx, "GET"@),
            final(audit)@.len() == old(audit)@.len() + refused(layer@, grants@),
    {
        let scoped = is_license_scoped(layer);
        let mut out: Vec<ClaimClaimable> = Vec::new();
        let mut i: usize = 0;
        proof {
            assert(grants@.take(0) =~= Seq::<PClaimClaimable>::empty());
            lemma_extended_none(audit@, *ctx, "GET"@);
        }
        while i < grants.len()
            invariant
                i <= grants@.len(),
                scoped == license_scoped(layer@),
                out@ == granted(layer@, grants@.take(i as int), to_role),
                extended(old(audit)@, audit@, *ctx, "GET"@),
                audit@.len() == old(audit)@.len() + refused(layer@, grants@.take(i as int)),
            decreases grants@.len() - i,
        {
            proof {
                assert(grants@.take(i + 1).drop_last() =~= grants@.take(i as int));
            }
            let cc = &grants[i];
            let ghost log = audit@;
            let mut passed = false;
            match find_licensed_claim(layer, cc.claim_id.as_str()) {
                Some(j) => {
                    proof {
                        lemma_first_index(layer@, entry_for(cc.claim_id@));
                    }
                    let claim = layer[j].get_claim();
                    let narrow = !cc.scope.as_str().is_empty() || !cc.claim_constraints.as_str().is_empty();
                    if scoped && narrow && !does_license_allow(layer, cc.claim_id.as_str(), cc.scope.as_str()) {
                        audit.log(
                            ctx,
                            "Found different or missing scope or constraints than what was set in policy for claim ",
                            cc.claim_id.as_str(),
                            "GET",
                        );
                    } else {
                        passed = true;
                        if to_role {
                            out.push(
                                ClaimClaimable::Role(
                                    claim.clone(),
                                    claim.realm_id.clone(),
                                    cc.claimable_id.clone(),
                                    cc.scope.clone(),
                                    cc.claim_constraints.clone(),
                                ),
                            );
                        } else {
                            out.push(
                                ClaimClaimable::Principal(
                                    claim.clone(),
                                    claim.realm_id.clone(),
                                    cc.claimable_id.clone(),
                                    cc.scope.clone(),
                                    cc.claim_constraints.clone(),
                                ),
                            );
                        }
                    }
                },
                None => {
                    audit.log(ctx, "Failed to find claim ", cc.claim_id.as_str(), "GET");
                },
            }
            proof {
                assert(passed == grant_passes(layer@, grants@[i as int]));
                if !passed {
                    assert(audit@.len() == log.len() + 1);
                    assert(extended(log, audit@, *ctx, "GET"@)) by {
                        assert(audit@.take(log.len() as int) =~= audit@.drop_last());
                    }
                    lemma_extended_twice(old(audit)@, log, audit@, *ctx, "GET"@);
                }
            }
            i += 1;
        }
        proof {
            assert(grants@.take(i as int) =~= grants@);
        }
        out
    }

    /// Gathers for `principal` all that resolution gives it in the realm at
    /// `now`: its roles with their ancestors, its groups, the claims granted
    /// to it and the resources that they speak of. What `principal` held
    /// before is replaced.
    fn populate_principal(&mut self, ctx: &SecurityContext, realm_id: &str, principal: &mut Principal, now: i64)
        requires
            old(self).wf(),
        ensures
            same_but(*old(self), *final(self), Part::Audit),
            extended(old(self).audit_record_repository@, final(self).audit_record_repository@, *ctx, "GET"@),
            final(self).audit_record_repository@.len() >= old(self).audit_record_repository@.len() + old(
                self,
            ).dangling_claims(realm_id@, old(principal).organization_id@, old(principal).id@, now) + old(
                self,
            ).dangling_licenses(realm_id@, old(principal).organization_id@, now) + missing_groups(
                old(self).org_groups(old(principal).organization_id@),
                group_ids_of(old(self).group_principal_repository@, old(principal).id@),
            ) + old(self).dangling_roles(old(principal).organization_id@, old(principal).id@, now),
            final(principal).id == old(principal).id,
            final(principal).organization_id == old(principal).organization_id,
            final(principal).username == old(principal).username,
            final(principal).description == old(principal).description,
            final(principal).created_by == old(principal).created_by,
            final(principal).created_at == old(principal).created_at,
            final(principal).updated_by == old(principal).updated_by,
            final(principal).updated_at == old(principal).updated_at,
            final(principal).roles@ == old(self).resolved_roles(
                old(principal).organization_id@,
                old(principal).id@,
                now,
            ),
            final(principal).groups@ == old(self).resolved_groups(
                old(principal).organization_id@,
                old(principal).id@,
            ),
            final(principal).claims@ == old(self).resolved_claims(
                realm_id@,
                old(principal).organization_id@,
                old(principal).id@,
                now,
            ),
            final(principal).resources@ == old(self).claimed_resources(final(principal).claims@),
    {
        let ghost log0 = self.audit_record_repository@;
        let roles = self.resolve_roles(ctx, principal.organization_id.as_str(), principal.id.as_str(), now);
        let ghost log1 = self.audit_record_repository@;
        let groups = self.resolve_groups(ctx, principal.organization_id.as_str(), principal.id.as_str());
        let ghost log2 = self.audit_record_repository@;
        let layer = self.get_claim_claimables_by_org(ctx, realm_id, principal.organization_id.as_str(), now);
        let ghost log3 = self.audit_record_repository@;
        let role_ids = ids_of_roles(&roles);
        let role_grants = self.claim_claimable_repository.get_by_roles_at(role_ids, now);
        let mut claims = Self::resolve_claims(&mut self.audit_record_repository, ctx, &layer, &role_grants, true);
        let ghost log4 = self.audit_record_repository@;
        let own_grants = self.claim_claimable_repository.get_by_principal_at(principal.id.clone(), now);
        let mut own = Self::resolve_claims(&mut self.audit_record_repository, ctx, &layer, &own_grants, false);
        let ghost first = claims@;
        claims.append(&mut own);
        let resource_ids = resource_ids_of(&claims);
        let resources = self.resource_repository._get_by_ids(resource_ids);
        proof {
            lemma_extended_twice(log0, log1, log2, *ctx, "GET"@);
            lemma_extended_twice(log0, log2, log3, *ctx, "GET"@);
            lemma_extended_twice(log0, log3, log4, *ctx, "GET"@);
            lemma_extended_twice(log0, log4, self.audit_record_repository@, *ctx, "GET"@);
        }
        principal.roles = roles;
        principal.groups = groups;
        principal.claims = claims;
        principal.resources = resources;
    }

    /// The principal `principal_id` with all that resolution gives it in the
    /// realm at the current time.
    pub fn get_principal(
        &mut self,
        ctx: &SecurityContext,
        realm_id: &str,
        principal_id: &str,
    ) -> (r: Option<Principal>)
        requires
            old(self).wf(),
        ensures
            exists|now: i64| Self::get_principal_outcome(
                *old(self),
                *final(self),
                *ctx,
                realm_id@,
                principal_id@,
                now,
                r,
            ),
    {
        let now = clock::now();
        let r = self.get_principal_at(ctx, realm_id, principal_id, now);
        proof {
            assert(Self::get_principal_outcome(*old(self), *self, *ctx, realm_id@, principal_id@, now, r));
        }
        r
    }

    /// What resolving the principal `principal_id` in the realm `realm_id` at
    /// `now` comes to. Only the audit trail of the manager changes, by entries
    /// for reads. Where the store has no such principal there is no result and
    /// no entry. Otherwise the result is the stored principal with all that
    /// resolution gives it, and the audit trail has grown by at least one
    /// entry for each dangling row.
    pub open spec fn get_principal_outcome(
        before: Self,
        after: Self,
        ctx: SecurityContext,
        realm_id: Seq<char>,
        principal_id: Seq<char>,
        now: i64,
        r: Option<Principal>,
    ) -> bool {
        let found = first_index(before.principal_repository@, principal_repository::scoped(principal_id));
        &&& same_but(before, after, Part::Audit)
        &&& extended(before.audit_record_repository@, after.audit_record_repository@, ctx, "GET"@)
        &&& match r {
            Some(p) => {
                &&& found is Some
                &&& before.hydrated(p, before.principal_repository@[found->0], realm_id, now)
                &&& after.audit_record_repository@.len() >= before.audit_record_repository@.len()
                    + before.dangling_claims(
                    realm_id,
                    before.principal_repository@[found->0].organization_id@,
                    principal_id,
                    now,
                ) + before.dangling_licenses(
                    realm_id,
                    before.principal_repository@[found->0].organization_id@,
                    now,
                ) + missing_groups(
                    before.org_groups(before.principal_repository@[found->0].organization_id@),
                    group_ids_of(before.group_principal_repository@, principal_id),
                ) + before.dangling_roles(
                    before.principal_repository@[found->0].organization_id@,
                    principal_id,
                    now,
                )
            },
            None => found is None && after.audit_record_repository == before.audit_record_repository,
        }
    }

    /// The principal `principal_id` with all that resolution gives it in the
    /// realm at `now`.
    pub fn get_principal_at(
        &mut self,
        ctx: &SecurityContext,
        realm_id: &str,
        principal_id: &str,
        now: i64,
    ) -> (r: Option<
        Principal,
    >)
        requires
            old(self).wf(),
        ensures
            Self::get_principal_outcome(*old(self), *final(self), *ctx, realm_id@, principal_id@, now, r),
    {
        proof {
            lemma_extended_none(self.audit_record_repository@, *ctx, "GET"@);
        }
        match self.principal_repository.get(ctx, principal_id) {
            Some(mut principal) => {
                proof {
                    lemma_first_index(self.principal_repository@, principal_repository::scoped(principal_id@));
                }
                self.populate_principal(ctx, realm_id, &mut principal, now);
                Some(principal)
            },
            None => None,
        }
    }

    /// Gathers for `org` what the store holds for it in the realm at `now`:
    /// its license layer, the resources that the layer speaks of, its roles
    /// and its groups. What `org` held of these before is replaced.
    fn populate_org(&mut self, ctx: &SecurityContext, realm_id: &str, org: &mut Organization, now: i64)
        ensures
            same_but(*old(self), *final(self), Part::Audit),
            extended(old(self).audit_record_repository@, final(self).audit_record_repository@, *ctx, "GET"@),
            Self::gathered(*old(self), *old(org), *final(org), realm_id@, now),
    {
        let claims = self.get_claim_claimables_by_org(ctx, realm_id, org.id.as_str(), now);
        let resource_ids = resource_ids_of(&claims);
        let resources = self.resource_repository._get_by_ids(resource_ids);
        let roles = self.role_repository._get_by_org(org.id.as_str());
        let groups = self.group_repository._get_by_org(org.id.as_str());
        org.claims = claims;
        org.resources = resources;
        org.roles = roles;
        org.groups = groups;
    }

    /// Whether `after` is the organization `before` with what the store holds
    /// for it in the realm at `now`.
    pub open spec fn gathered(
        store: Self,
        before: Organization,
        after: Organization,
        realm_id: Seq<char>,
        now: i64,
    ) -> bool {
        &&& after.id == before.id
        &&& after.parent_id == before.parent_id
        &&& after.name == before.name
        &&& after.url == before.url
        &&& after.description == before.description
        &&& after.license_policy == before.license_policy
        &&& after.created_by == before.created_by
        &&& after.created_at == before.created_at
        &&& after.updated_by == before.updated_by
        &&& after.updated_at == before.updated_at
        &&& after.claims@ == store.org_claims(realm_id, before.id@, now)
        &&& after.resources@ == store.claimed_resources(after.claims@)
        &&& after.roles@ == store.org_roles(before.id@)
        &&& after.groups@ == store.org_groups(before.id@)
    }

    /// What gathering the organization `organization_id` in the realm
    /// `realm_id` at `now` comes to. Only the audit trail of the manager
    /// changes, by entries for reads. Where the store has no such organization
    /// there is no result; otherwise the result is the stored organization
    /// with what the store holds for it.
    pub open spec fn get_org_outcome(
        before: Self,
        after: Self,
        ctx: SecurityContext,
        realm_id: Seq<char>,
        organization_id: Seq<char>,
        now: i64,
        r: Option<Organization>,
    ) -> bool {
        let found = first_index(before.org_repository@, org_repository::scoped(organization_id));
        &&& same_but(before, after, Part::Audit)
        &&& extended(before.audit_record_repository@, after.audit_record_repository@, ctx, "GET"@)
        &&& match r {
            Some(o) => {
                &&& found is Some
                &&& exists|plain: Organization|
                    plain.is_from(before.org_repository@[found->0]) && #[trigger] Self::gathered(
                        before,
                        plain,
                        o,
                        realm_id,
                        now,
                    )
            },
            None => found is None && after.audit_record_repository == before.audit_record_repository,
        }
    }

    /// The organization `organization_id` with what the store holds for it in
    /// the realm at the current time.
    pub fn get_org(
        &mut self,
        ctx: &SecurityContext,
        realm_id: &str,
        organization_id: &str,
    ) -> (r: Option<Organization>)
        ensures
            exists|now: i64| Self::get_org_outcome(
                *old(self),
                *final(self),
                *ctx,
                realm_id@,
                organization_id@,
                now,
                r,
            ),
    {
        let now = clock::now();
        let r = self.get_org_at(ctx, realm_id, organization_id, now);
        proof {
            assert(Self::get_org_outcome(*old(self), *self, *ctx, realm_id@, organization_id@, now, r));
        }
        r
    }

    /// The organization `organization_id` with what the store holds for it in
    /// the realm at `now`.
    pub fn get_org_at(
        &mut self,
        ctx: &SecurityContext,
        realm_id: &str,
        organization_id: &str,
        now: i64,
    ) -> (r: Option<
        Organization,
    >)
        ensures
            Self::get_org_outcome(*old(self), *final(self), *ctx, realm_id@, organization_id@, now, r),
    {
        proof {
            lemma_extended_none(self.audit_record_repository@, *ctx, "GET"@);
        }
        match self.org_repository.get(ctx, organization_id) {
            Some(mut org) => {
                let ghost plain = org;
                proof {
                    lemma_first_index(self.org_repository@, org_repository::scoped(organization_id@));
                }
                self.populate_org(ctx, realm_id, &mut org, now);
                proof {
                    assert(Self::gathered(*old(self), plain, org, realm_id@, now));
                }
                Some(org)
            },
            None => None,
        }
    }

    /// The claims of a realm that a license policy grants at `now`, or, where
    /// it grants none, all the claims of the realm.
    pub open spec fn claims_by_policy(
        &self,
        realm_id: Seq<char>,
        license_policy_id: Seq<char>,
        now: i64,
    ) -> Seq<Claim> {
        let all = self.claim_repository@.filter(claim_repository::of_realm(realm_id));
        let named = named_claims(
            all,
            self.claim_claimable_repository@.filter(
                claim_claimable_repository::active_of_policy(license_policy_id, now)
            ),
        );
        if named.len() > 0 {
            named
        } else {
            all
        }
    }

    /// The claims of a realm that a license policy grants at the current time,
    /// or, where it grants none, all the claims of the realm.
    pub fn get_claims_by_policy(
        &self,
        ctx: &SecurityContext,
        realm_id: &str,
        license_policy_id: &str,
    ) -> (out: Vec<Claim>)
        ensures
            exists|now: i64| out@ == self.claims_by_policy(realm_id@, license_policy_id@, now),
    {
        let now = clock::now();
        self.get_claims_by_policy_at(ctx, realm_id, license_policy_id, now)
    }

    /// The claims of a realm that a license policy grants at `now`, or, where
    /// it grants none, all the claims of the realm.
    pub fn get_claims_by_policy_at(
        &self,
        ctx: &SecurityContext,
        realm_id: &str,
        license_policy_id: &str,
        now: i64,
    ) -> (out: Vec<
        Claim,
    >)
        ensures
            out@ == self.claims_by_policy(realm_id@, license_policy_id@, now),
    {
        let all = self.claim_repository.get_claims_by_realm(ctx, realm_id);
        let grants = self.claim_claimable_repository.get_by_policy_at(license_policy_id, now);
        let mut named: Vec<Claim> = Vec::new();
        let mut i: usize = 0;
        proof {
            assert(grants@.take(0) =~= Seq::<PClaimClaimable>::empty());
        }
        while i < grants.len()
            invariant
                i <= grants@.len(),
                named@ == named_claims(all@, grants@.take(i as int)),
            decreases grants@.len() - i,
        {
            proof {
                assert(grants@.take(i + 1).drop_last() =~= grants@.take(i as int));
            }
            match position_in(&all, grants[i].claim_id.as_str()) {
                Some(j) => {
                    proof {
                        lemma_first_index(all@, by_key::<Claim>(grants@[i as int].claim_id@));
                    }
                    named.push(all[j].clone());
                },
                None => {},
            }
            i += 1;
        }
        proof {
            assert(grants@.take(i as int) =~= grants@);
        }
        if named.len() > 0 {
            named
        } else {
            all
        }
    }

    /// What asking for the candidates of a request comes to: the claims
    /// granted to `principal` that speak of a resource of the realm named
    /// `resource_name` under `scope`, resource by resource; or nothing where
    /// the license layer of the principal's organization does not let the
    /// scope through. Only the audit trail of the manager changes, by entries
    /// for reads.
    pub open spec fn candidates_outcome(
        before: Self,
        after: Self,
        ctx: SecurityContext,
        realm_id: Seq<char>,
        principal: Principal,
        resource_name: Seq<char>,
        scope: Seq<char>,
        now: i64,
        out: Seq<ClaimResource>,
    ) -> bool {
        &&& same_but(before, after, Part::Audit)
        &&& extended(before.audit_record_repository@, after.audit_record_repository@, ctx, "GET"@)
        &&& exists|blank: String|
            blank@.len() == 0 && out == #[trigger] before.request_candidates(
                realm_id,
                blank,
                principal,
                resource_name,
                scope,
                now,
            )
    }

    /// The candidates of a request: the claims granted to `principal` that
    /// speak of a resource of the realm named `resource_name` under `scope`;
    /// nothing where the license layer does not let the scope through.
    pub open spec fn request_candidates(
        &self,
        realm_id: Seq<char>,
        blank: String,
        principal: Principal,
        resource_name: Seq<char>,
        scope: Seq<char>,
        now: i64,
    ) -> Seq<ClaimResource> {
        if license_gate(self.org_claims(realm_id, principal.organization_id@, now), scope) {
            candidates(
                self.resource_repository@.filter(resource_repository::of_realm(realm_id)),
                principal.claims@,
                resource_name,
                scope,
                blank,
            )
        } else {
            Seq::empty()
        }
    }

    /// The candidates of a request at the current time.
    pub fn get_resources_by_claims(
        &mut self,
        ctx: &SecurityContext,
        realm_id: &str,
        principal: &Principal,
        resource_name: String,
        scope: String,
    ) -> (out: Vec<ClaimResource>)
        ensures
            exists|now: i64|
                Self::candidates_outcome(
                    *old(self),
                    *final(self),
                    *ctx,
                    realm_id@,
                    *principal,
                    resource_name@,
                    scope@,
                    now,
                    out@,
                ),
    {
        let now = clock::now();
        let out = self.get_resources_by_claims_at(ctx, realm_id, principal, resource_name, scope, now);
        proof {
            assert(Self::candidates_outcome(
                *old(self),
                *self,
                *ctx,
                realm_id@,
                *principal,
                resource_name@,
                scope@,
                now,
                out@,
            ));
        }
        out
    }

    /// The candidates of a request at `now`.
    pub fn get_resources_by_claims_at(
        &mut self,
        ctx: &SecurityContext,
        realm_id: &str,
        principal: &Principal,
        resource_name: String,
        scope: String,
        now: i64,
    ) -> (out: Vec<ClaimResource>)
        ensures
            Self::candidates_outcome(
                *old(self),
                *final(self),
                *ctx,
                realm_id@,
                *principal,
                resource_name@,
                scope@,
                now,
                out@,
            ),
    {
        let blank = String::new();
        let layer = self.get_claim_claimables_by_org(ctx, realm_id, principal.organization_id.as_str(), now);
        let mut result: Vec<ClaimResource> = Vec::new();
        if !passes_gate(&layer, scope.as_str()) {
            proof {
                assert(
                    result@ == old(self).request_candidates(realm_id@, blank, *principal, resource_name@, scope@, now)
                );
            }
            return result;
        }
        let resources = self.resource_repository.get_by_realm(ctx, realm_id);
        let mut i: usize = 0;
        proof {
            assert(resources@.take(0) =~= Seq::<Resource>::empty());
        }
        while i < resources.len()
            invariant
                i <= resources@.len(),
                blank@.len() == 0,
                result@ == candidates(resources@.take(i as int), principal.claims@, resource_name@, scope@, blank),
            decreases resources@.len() - i,
        {
            proof {
                assert(resources@.take(i + 1).drop_last() =~= resources@.take(i as int));
            }
            let mut found = candidates_of_resource(
                &principal.claims,
                &resources[i],
                resource_name.as_str(),
                scope.as_str(),
                &blank,
            );
            result.append(&mut found);
            i += 1;
        }
        proof {
            assert(resources@.take(i as int) =~= resources@);
            assert(
                result@ == old(self).request_candidates(realm_id@, blank, *principal, resource_name@, scope@, now)
            );
        }
        result
    }

    /// What creating a resource instance for the principal `principal_id`
    /// under the identifier `id` at `now` comes to.
    ///
    /// Where the store has no such principal, the error is `NotFound`; where
    /// its organization has no license policy in force, it is `Persistence`;
    /// in both cases nothing changes. Otherwise the instance is tied to the
    /// first license policy in force. Where no quota is in force for its
    /// resource and scope, or the usage has reached the first such quota, the
    /// refusal is entered in the audit trail of the manager and the error is
    /// `QuotaExceeded`. Otherwise the instance is stored as the repository of
    /// instances stores it.
    pub open spec fn new_instance_outcome(
        before: Self,
        after: Self,
        ctx: SecurityContext,
        principal_id: Seq<char>,
        given: ResourceInstance,
        tied: ResourceInstance,
        id: String,
        now: i64,
        r: Result<ResourceInstance, RbacError>,
    ) -> bool {
        let found = first_index(before.principal_repository@, principal_repository::scoped(principal_id));
        match found {
            None => r is Err && r->Err_0 is NotFound && after == before && tied == given,
            Some(i) => {
                let policies = before.license_policy_repository@.filter(
                    license_policy_repository::active_of_org(before.principal_repository@[i].organization_id@, now),
                );
                if policies.len() == 0 {
                    r is Err && r->Err_0 is Persistence && after == before && tied == given
                } else {
                    let quotas = before.resource_quota_repository@.filter(
                        resource_quota_repository::active_of_resource_scope(given.resource_id@, given.scope@, now),
                    );
                    &&& tied == (ResourceInstance { license_policy_id: policies[0].id, ..given })
                    &&& if quotas.len() == 0 {
                        &&& r is Err
                        &&& r->Err_0 is QuotaExceeded
                        &&& same_but(before, after, Part::Audit)
                        &&& logged(
                            before.audit_record_repository@,
                            after.audit_record_repository@,
                            ctx,
                            "CREATE"@,
                            "Quota not found for resource "@ + given.resource_id@,
                        )
                    } else if usage(before.resource_instance_repository@, given.resource_id@, given.scope@, now)
                        >= quotas[0].max_value {
                        &&& r is Err
                        &&& r->Err_0 is QuotaExceeded
                        &&& same_but(before, after, Part::Audit)
                        &&& logged(
                            before.audit_record_repository@,
                            after.audit_record_repository@,
                            ctx,
                            "CREATE"@,
                            "Reached quota limit for resource "@ + given.resource_id@,
                        )
                    } else {
                        &&& same_but(before, after, Part::Instances)
                        &&& ResourceInstanceRepository::create_outcome(
                            before.resource_instance_repository,
                            after.resource_instance_repository,
                            ctx,
                            tied,
                            id,
                            now,
                            r,
                        )
                    }
                }
            },
        }
    }

    /// Creates an instance of `resource` under `scope` for the principal, held
    /// to the quota, at the current time.
    pub fn new_resource_instance_with(
        &mut self,
        ctx: &SecurityContext,
        resource: &Resource,
        principal: &Principal,
        scope: &str,
        ref_id: &str,
        status: Status,
    ) -> (r: Result<ResourceInstance, RbacError>)
        ensures
            exists|given: ResourceInstance, tied: ResourceInstance, id: String, now: i64|
                instance_shape(given, resource.id@, scope@, ref_id@, status) && #[trigger] Self::new_instance_outcome(
                    *old(self),
                    *final(self),
                    *ctx,
                    principal.id@,
                    given,
                    tied,
                    id,
                    now,
                    r,
                ),
            old(self).wf() ==> final(self).wf(),
    {
        let text = status.to_string();
        let mut instance = ResourceInstance::new("", resource.id.as_str(), "", scope, ref_id, text.as_str(), None);
        let ghost given = instance;
        let r = self.new_resource_instance(ctx, principal.id.as_str(), &mut instance);
        proof {
            let (id, now) = choose|id: String, now: i64|
                Self::new_instance_outcome(*old(self), *self, *ctx, principal.id@, given, instance, id, now, r);
            assert(instance_shape(given, resource.id@, scope@, ref_id@, status) && Self::new_instance_outcome(
                *old(self),
                *self,
                *ctx,
                principal.id@,
                given,
                instance,
                id,
                now,
                r,
            ));
        }
        r
    }

    /// Creates `instance` for the principal, held to the quota, under a fresh
    /// identifier at the current time. The outcome is that of
    /// `new_resource_instance_at` for some identifier and instant.
    pub fn new_resource_instance(
        &mut self,
        ctx: &SecurityContext,
        principal_id: &str,
        instance: &mut ResourceInstance,
    ) -> (r: Result<
        ResourceInstance,
        RbacError,
    >)
        ensures
            exists|id: String, now: i64|
                id@.len() == crate::utils::ids::ID_LENGTH && Self::new_instance_outcome(
                    *old(self),
                    *final(self),
                    *ctx,
                    principal_id@,
                    *old(instance),
                    *final(instance),
                    id,
                    now,
                    r,
                ),
            old(self).wf() ==> final(self).wf(),
    {
        let id = crate::utils::ids::new_id();
        let now = clock::now();
        let ghost chosen = id;
        let r = self.new_resource_instance_at(ctx, principal_id, instance, id, now);
        proof {
            assert(Self::new_instance_outcome(
                *old(self),
                *self,
                *ctx,
                principal_id@,
                *old(instance),
                *instance,
                chosen,
                now,
                r,
            ));
        }
        r
    }

    /// Creates `instance` for the principal under the identifier `id` at
    /// `now`, unless the quota for its resource and scope is used up.
    pub fn new_resource_instance_at(
        &mut self,
        ctx: &SecurityContext,
        principal_id: &str,
        instance: &mut ResourceInstance,
        id: String,
        now: i64,
    ) -> (r: Result<ResourceInstance, RbacError>)
        ensures
            Self::new_instance_outcome(
                *old(self),
                *final(self),
                *ctx,
                principal_id@,
                *old(instance),
                *final(instance),
                id,
                now,
                r,
            ),
            old(self).wf() ==> final(self).wf(),
    {
        let principal = match self.principal_repository.get(ctx, principal_id) {
            Some(p) => p,
            None => {
                return Err(RbacError::NotFound("Principal not found while adding resource instance".to_string()));
            },
        };
        proof {
            lemma_first_index(self.principal_repository@, principal_repository::scoped(principal_id@));
        }
        let policies = self.license_policy_repository.get_by_org_at(ctx, principal.organization_id.as_str(), now);
        if policies.len() == 0 {
            return Err(
                RbacError::Persistence("License policy not found while adding resource instance".to_string()),
            );
        }
        instance.license_policy_id = policies[0].id.clone();
        let quotas = self.resource_quota_repository.get_by_resource_scope_at(
            instance.resource_id.as_str(),
            instance.scope.as_str(),
            now,
        );
        if quotas.len() == 0 {
            self.audit_record_repository.log(
                ctx,
                "Quota not found for resource ",
                instance.resource_id.as_str(),
                "CREATE",
            );
            return Err(RbacError::QuotaExceeded("Reached limit -- quota not found".to_string()));
        }
        let completed = self.resource_instance_repository.count_by_resource(
            instance.resource_id.as_str(),
            instance.scope.as_str(),
            "COMPLETED",
        );
        let in_flight = self.resource_instance_repository.count_recent_by_resource_at(
            instance.resource_id.as_str(),
            instance.scope.as_str(),
            "INFLIGHT",
            now,
        );
        if reaches(completed, in_flight, quotas[0].max_value) {
            self.audit_record_repository.log(
                ctx,
                "Reached quota limit for resource ",
                instance.resource_id.as_str(),
                "CREATE",
            );
            return Err(RbacError::QuotaExceeded("Reached quota limit for resource instance".to_string()));
        }
        self.resource_instance_repository._create_with(ctx, instance, id, now)
    }

    /// What creating a quota for the principal `principal_id` under the
    /// identifier `id` at `now` comes to. Where the store has no such
    /// principal, or its organization has no license policy in force, the
    /// error is `NotFound` and nothing changes. Otherwise the quota is tied to
    /// the first license policy in force and stored as the repository of
    /// quotas stores it.
    pub open spec fn new_quota_outcome(
        before: Self,
        after: Self,
        ctx: SecurityContext,
        principal_id: Seq<char>,
        given: ResourceQuota,
        tied: ResourceQuota,
        id: String,
        now: i64,
        r: Result<ResourceQuota, RbacError>,
    ) -> bool {
        let found = first_index(before.principal_repository@, principal_repository::scoped(principal_id));
        match found {
            None => r is Err && r->Err_0 is NotFound && after == before && tied == given,
            Some(i) => {
                let policies = before.license_policy_repository@.filter(
                    license_policy_repository::active_of_org(before.principal_repository@[i].organization_id@, now),
                );
                if policies.len() == 0 {
                    r is Err && r->Err_0 is NotFound && after == before && tied == given
                } else {
                    &&& tied == (ResourceQuota { license_policy_id: policies[0].id, ..given })
                    &&& same_but(before, after, Part::Quotas)
                    &&& ResourceQuotaRepository::create_outcome(
                        before.resource_quota_repository,
                        after.resource_quota_repository,
                        ctx,
                        tied,
                        id,
                        now,
                        r,
                    )
                }
            },
        }
    }

    /// Creates a quota of `max_value` instances of `resource` under `scope`
    /// for the organization of the principal, in force from the current time
    /// to the far future.
    pub fn new_resource_quota_with(
        &mut self,
        ctx: &SecurityContext,
        resource: &Resource,
        principal: &Principal,
        scope: &str,
        max_value: i32,
    ) -> (r: Result<ResourceQuota, RbacError>)
        ensures
            exists|given: ResourceQuota, tied: ResourceQuota, id: String, now: i64|
                quota_shape(given, resource.id@, scope@, max_value) && #[trigger] Self::new_quota_outcome(
                    *old(self),
                    *final(self),
                    *ctx,
                    principal.id@,
                    given,
                    tied,
                    id,
                    now,
                    r,
                ),
            old(self).wf() ==> final(self).wf(),
    {
        let mut quota = ResourceQuota::new(
            "",
            resource.id.as_str(),
            "",
            scope,
            max_value,
            clock::now(),
            clock::FAR_FUTURE,
        );
        let ghost given = quota;
        let r = self.new_resource_quota(ctx, principal.id.as_str(), &mut quota);
        proof {
            let (id, now) = choose|id: String, now: i64|
                Self::new_quota_outcome(*old(self), *self, *ctx, principal.id@, given, quota, id, now, r);
            assert(quota_shape(given, resource.id@, scope@, max_value) && Self::new_quota_outcome(
                *old(self),
                *self,
                *ctx,
                principal.id@,
                given,
                quota,
                id,
                now,
                r,
            ));
        }
        r
    }

    /// Creates `quota` for the organization of the principal under a fresh
    /// identifier at the current time. The outcome is that of
    /// `new_resource_quota_at` for some identifier and instant.
    pub fn new_resource_quota(
        &mut self,
        ctx: &SecurityContext,
        principal_id: &str,
        quota: &mut ResourceQuota,
    ) -> (r: Result<
        ResourceQuota,
        RbacError,
    >)
        ensures
            exists|id: String, now: i64|
                id@.len() == crate::utils::ids::ID_LENGTH && Self::new_quota_outcome(
                    *old(self),
                    *final(self),
                    *ctx,
                    principal_id@,
                    *old(quota),
                    *final(quota),
                    id,
                    now,
                    r,
                ),
            old(self).wf() ==> final(self).wf(),
    {
        let id = crate::utils::ids::new_id();
        let now = clock::now();
        let ghost chosen = id;
        let r = self.new_resource_quota_at(ctx, principal_id, quota, id, now);
        proof {
            assert(
                Self::new_quota_outcome(*old(self), *self, *ctx, principal_id@, *old(quota), *quota, chosen, now, r)
            );
        }
        r
    }

    /// Creates `quota` for the organization of the principal under the
    /// identifier `id` at `now`.
    pub fn new_resource_quota_at(
        &mut self,
        ctx: &SecurityContext,
        principal_id: &str,
        quota: &mut ResourceQuota,
        id: String,
        now: i64,
    ) -> (r: Result<ResourceQuota, RbacError>)
        ensures
            Self::new_quota_outcome(
                *old(self),
                *final(self),
                *ctx,
                principal_id@,
                *old(quota),
                *final(quota),
                id,
                now,
                r,
            ),
            old(self).wf() ==> final(self).wf(),
    {
        let principal = match self.principal_repository.get(ctx, principal_id) {
            Some(p) => p,
            None => {
                return Err(RbacError::NotFound("Principal not found while adding resource quota".to_string()));
            },
        };
        proof {
            lemma_first_index(self.principal_repository@, principal_repository::scoped(principal_id@));
        }
        let policies = self.license_policy_repository.get_by_org_at(ctx, principal.organization_id.as_str(), now);
        if policies.len() == 0 {
            return Err(RbacError::NotFound("License policy not found while adding resource quota".to_string()));
        }
        quota.license_policy_id = policies[0].id.clone();
        self.resource_quota_repository.create_with(ctx, quota, id, now)
    }
}

/// Whether the usage, which is the sum of the two counts, has reached the
/// quota.
fn reaches(completed: usize, in_flight: usize, max_value: i32) -> (b: bool)
    ensures
        b == (completed + in_flight >= max_value),
{
    if max_value < 0 {
        true
    } else {
        let cap: u128 = max_value as u128;
        (completed as u128) + (in_flight as u128) >= cap
    }
}

/// Role inheritance carries claims down: where a principal holds the role at
/// `heir` among the roles of its organization, and the role that stands `up`
/// steps above it is granted a claim by a grant in force that passes the
/// license layer, the principal resolves that claim among its claims.
pub proof fn lemma_inherited_claim_is_resolved(
    pm: PersistenceManager,
    realm_id: Seq<char>,
    organization_id: Seq<char>,
    principal_id: Seq<char>,
    now: i64,
    heir: int,
    up: nat,
    g: int,
)
    requires
        0 <= heir < pm.org_roles(organization_id).len(),
        pm.resolved_roles(organization_id, principal_id, now).contains(pm.org_roles(organization_id)[heir]),
        ancestor(pm.org_roles(organization_id), pm.org_roles(organization_id)[heir].id@, up) is Some,
        0 <= g < pm.claim_claimable_repository@.len(),
        pm.claim_claimable_repository@[g].claimable_type@ == Constants::Role.name(),
        pm.claim_claimable_repository@[g].claimable_id@ == ancestor(
            pm.org_roles(organization_id),
            pm.org_roles(organization_id)[heir].id@,
            up,
        )->0,
        pm.claim_claimable_repository@[g].effective_at <= now <= pm.claim_claimable_repository@[g].expired_at,
        grant_passes(pm.org_claims(realm_id, organization_id, now), pm.claim_claimable_repository@[g]),
    ensures
        pm.resolved_claims(realm_id, organization_id, principal_id, now).contains(
            granted_entry(pm.org_claims(realm_id, organization_id, now), pm.claim_claimable_repository@[g], true),
        ),
{
    let roles = pm.org_roles(organization_id);
    let starts = holds_role(pm.role_roleable_repository@, pm.group_principal_repository@, principal_id, now);
    let chosen = reached_role(roles, starts);
    let resolved = pm.resolved_roles(organization_id, principal_id, now);
    let cc = pm.claim_claimable_repository@[g];
    let layer = pm.org_claims(realm_id, organization_id, now);
    // the heir is reached
    roles.lemma_filter_contains_rev(chosen, roles[heir]);
    let t = choose|t: int| 0 <= t < resolved.len() && resolved[t] == roles[heir];
    roles.lemma_filter_pred(chosen, t);
    assert(reached(roles, starts, roles[heir].id@));
    // so is the role above it
    lemma_ancestors_are_reached(roles, starts, roles[heir].id@, up);
    let above = ancestor(roles, roles[heir].id@, up)->0;
    lemma_ancestor_exists(roles, roles[heir].id@, up);
    let j = role_index(roles, above)->0;
    lemma_first_index(roles, by_key::<Role>(above));
    assert(chosen(roles[j]));
    roles.lemma_filter_contains(chosen, j);
    let u = choose|u: int| 0 <= u < resolved.len() && resolved[u] == roles[j];
    let ids = resolved.map_values(|r: Role| r.id);
    assert(ids[u]@ == above);
    assert(listed(ids, cc.claimable_id@));
    // its grant is among the grants read
    let read = claim_claimable_repository::active_of_roles(ids, now);
    assert(read(cc));
    pm.claim_claimable_repository@.lemma_filter_contains(read, g);
    let grants = pm.role_grants(resolved, now);
    let v = choose|v: int| 0 <= v < grants.len() && grants[v] == cc;
    lemma_passing_grant_is_granted(layer, grants, true, v);
    let first = granted(layer, grants, true);
    let w = choose|w: int| 0 <= w < first.len() && first[w] == granted_entry(layer, cc, true);
    let all = pm.resolved_claims(realm_id, organization_id, principal_id, now);
    assert(all[w] == first[w]);
}

/// A chain of parents that leads somewhere starts at a role of `roles`.
pub proof fn lemma_chain_starts_inside(roles: Seq<Role>, id: Seq<char>, k: nat)
    requires
        ancestor(roles, id, k) is Some,
    ensures
        role_index(roles, id) is Some,
    decreases k,
{
    if k > 0 {
        lemma_chain_starts_inside(roles, id, (k - 1) as nat);
    }
}

/// Inheritance is closed under ancestry in what resolving a principal
/// returns. Where the principal holds the role `held` by a grant in force, to
/// itself or to one of its groups, and the role that stands `up` steps above
/// `held` among the roles of its organization is granted a claim by a grant
/// in force that passes the license layer, the principal that is returned has
/// that role among its roles and that claim among its claims.
pub proof fn lemma_returned_principal_inherits(
    before: PersistenceManager,
    after: PersistenceManager,
    ctx: SecurityContext,
    realm_id: Seq<char>,
    principal_id: Seq<char>,
    now: i64,
    p: Principal,
    held: Seq<char>,
    up: nat,
    g: int,
)
    requires
        PersistenceManager::get_principal_outcome(before, after, ctx, realm_id, principal_id, now, Some(p)),
        holds_role(before.role_roleable_repository@, before.group_principal_repository@, principal_id, now)(held),
        ancestor(before.org_roles(p.organization_id@), held, up) is Some,
        0 <= g < before.claim_claimable_repository@.len(),
        before.claim_claimable_repository@[g].claimable_type@ == Constants::Role.name(),
        before.claim_claimable_repository@[g].claimable_id@ == ancestor(
            before.org_roles(p.organization_id@),
            held,
            up,
        )->0,
        before.claim_claimable_repository@[g].effective_at <= now <= before.claim_claimable_repository@[g].expired_at,
        grant_passes(before.org_claims(realm_id, p.organization_id@, now), before.claim_claimable_repository@[g]),
    ensures
        exists|j: int|
            0 <= j < p.roles@.len() && (#[trigger] p.roles@[j]).id@ == ancestor(
                before.org_roles(p.organization_id@),
                held,
                up,
            )->0,
        p.claims@.contains(
            granted_entry(
                before.org_claims(realm_id, p.organization_id@, now),
                before.claim_claimable_repository@[g],
                true,
            ),
        ),
{
    let found = first_index(before.principal_repository@, principal_repository::scoped(principal_id));
    lemma_first_index(before.principal_repository@, principal_repository::scoped(principal_id));
    let row = before.principal_repository@[found->0];
    assert(row.id@ == principal_id);
    let org = p.organization_id@;
    let roles = before.org_roles(org);
    let starts = holds_role(before.role_roleable_repository@, before.group_principal_repository@, principal_id, now);
    let chosen = reached_role(roles, starts);
    let resolved = before.resolved_roles(org, principal_id, now);
    // the role that is held is one of the organization and is resolved
    lemma_chain_starts_inside(roles, held, up);
    lemma_first_index(roles, by_key::<Role>(held));
    let heir = role_index(roles, held)->0;
    assert(roles[heir].id@ == held);
    lemma_granted_is_reached(roles, starts, held);
    assert(chosen(roles[heir]));
    roles.lemma_filter_contains(chosen, heir);
    // so is the role above it
    lemma_ancestors_are_reached(roles, starts, held, up);
    let above = ancestor(roles, held, up)->0;
    lemma_ancestor_exists(roles, held, up);
    lemma_first_index(roles, by_key::<Role>(above));
    let top = role_index(roles, above)->0;
    assert(chosen(roles[top]));
    roles.lemma_filter_contains(chosen, top);
    let j = choose|j: int| 0 <= j < resolved.len() && resolved[j] == roles[top];
    assert(p.roles@[j].id@ == above);
    lemma_inherited_claim_is_resolved(before, realm_id, org, principal_id, now, heir, up, g);
}

/// A claim grant outside its window is ignored: without a row that is not in
/// force at `now`, resolution at `now` gives the same license layer, the same
/// roles and the same claims.
pub proof fn lemma_claim_grant_out_of_window_is_ignored(
    pm: PersistenceManager,
    other: PersistenceManager,
    i: int,
    realm_id: Seq<char>,
    organization_id: Seq<char>,
    principal_id: Seq<char>,
    now: i64,
)
    requires
        same_but(pm, other, Part::ClaimGrants),
        0 <= i < pm.claim_claimable_repository@.len(),
        other.claim_claimable_repository@ == pm.claim_claimable_repository@.remove(i),
        !(pm.claim_claimable_repository@[i].effective_at <= now <= pm.claim_claimable_repository@[i].expired_at),
    ensures
        other.org_claims(realm_id, organization_id, now) == pm.org_claims(realm_id, organization_id, now),
        other.resolved_roles(organization_id, principal_id, now) == pm.resolved_roles(
            organization_id,
            principal_id,
            now,
        ),
        other.resolved_claims(realm_id, organization_id, principal_id, now) == pm.resolved_claims(
            realm_id,
            organization_id,
            principal_id,
            now,
        ),
{
    let rows = pm.claim_claimable_repository@;
    let policies = pm.license_policy_repository@.filter(
        license_policy_repository::active_of_org(organization_id, now),
    );
    if policies.len() > 0 {
        lemma_filter_ignores(rows, claim_claimable_repository::active_of_policy(policies[0].id@, now), i);
    }
    let roles = pm.resolved_roles(organization_id, principal_id, now);
    lemma_filter_ignores(
        rows,
        claim_claimable_repository::active_of_roles(roles.map_values(|r: Role| r.id), now),
        i,
    );
    lemma_filter_ignores(rows, claim_claimable_repository::active_of_principal(principal_id, now), i);
}

/// A role grant outside its window is ignored: without a row that is not in
/// force at `now`, resolution at `now` gives the same roles and the same
/// claims.
pub proof fn lemma_role_grant_out_of_window_is_ignored(
    pm: PersistenceManager,
    other: PersistenceManager,
    i: int,
    realm_id: Seq<char>,
    organization_id: Seq<char>,
    principal_id: Seq<char>,
    now: i64,
)
    requires
        same_but(pm, other, Part::RoleGrants),
        0 <= i < pm.role_roleable_repository@.len(),
        other.role_roleable_repository@ == pm.role_roleable_repository@.remove(i),
        !(pm.role_roleable_repository@[i].effective_at <= now <= pm.role_roleable_repository@[i].expired_at),
    ensures
        other.resolved_roles(organization_id, principal_id, now) == pm.resolved_roles(
            organization_id,
            principal_id,
            now,
        ),
        other.resolved_claims(realm_id, organization_id, principal_id, now) == pm.resolved_claims(
            realm_id,
            organization_id,
            principal_id,
            now,
        ),
{
    let rows = pm.role_roleable_repository@;
    let fewer = other.role_roleable_repository@;
    let members = pm.group_principal_repository@;
    let roles = pm.org_roles(organization_id);
    let a = holds_role(rows, members, principal_id, now);
    let b = holds_role(fewer, members, principal_id, now);
    lemma_filter_ignores(
        rows,
        crate::persistence::role_roleable_repository::active_of_principal(principal_id, now),
        i,
    );
    assert forall|g: int| 0 <= g < group_ids_of(members, principal_id).len() implies #[trigger] role_ids_of_group(
        fewer,
        group_ids_of(members, principal_id)[g]@,
        now,
    ) == role_ids_of_group(rows, group_ids_of(members, principal_id)[g]@, now) by {
        lemma_filter_ignores(
            rows,
            crate::persistence::role_roleable_repository::active_of_group(
                group_ids_of(members, principal_id)[g]@,
                now,
            ),
            i,
        );
    }
    assert forall|s: Seq<char>| a(s) <==> #[trigger] b(s) by {
        if a(s) && !listed(role_ids_of_principal(rows, principal_id, now), s) {
            let g = choose|g: int|
                0 <= g < group_ids_of(members, principal_id).len() && listed(
                    #[trigger] role_ids_of_group(rows, group_ids_of(members, principal_id)[g]@, now),
                    s,
                );
            assert(listed(role_ids_of_group(fewer, group_ids_of(members, principal_id)[g]@, now), s));
        }
        if b(s) && !listed(role_ids_of_principal(fewer, principal_id, now), s) {
            let g = choose|g: int|
                0 <= g < group_ids_of(members, principal_id).len() && listed(
                    #[trigger] role_ids_of_group(fewer, group_ids_of(members, principal_id)[g]@, now),
                    s,
                );
            assert(listed(role_ids_of_group(rows, group_ids_of(members, principal_id)[g]@, now), s));
        }
    }
    assert forall|k: int| 0 <= k < roles.len() implies reached_role(roles, a)(#[trigger] roles[k]) == reached_role(
        roles,
        b,
    )(roles[k]) by {
        lemma_reached_same(roles, a, b, roles[k].id@);
    }
    lemma_filter_same(roles, reached_role(roles, a), reached_role(roles, b));
}

/// Creating an instance keeps the usage within the quota: where a quota is in
/// force for the resource and scope of the instance and the usage does not
/// exceed the first such quota, it does not exceed it after the attempt
/// either, whether the attempt succeeds or not.
pub proof fn lemma_creation_keeps_quota(
    before: PersistenceManager,
    after: PersistenceManager,
    ctx: SecurityContext,
    principal_id: Seq<char>,
    given: ResourceInstance,
    tied: ResourceInstance,
    id: String,
    now: i64,
    r: Result<ResourceInstance, RbacError>,
)
    requires
        PersistenceManager::new_instance_outcome(before, after, ctx, principal_id, given, tied, id, now, r),
        before.resource_quota_repository@.filter(
            resource_quota_repository::active_of_resource_scope(given.resource_id@, given.scope@, now),
        ).len() > 0,
        usage(before.resource_instance_repository@, given.resource_id@, given.scope@, now)
            <= before.resource_quota_repository@.filter(
            resource_quota_repository::active_of_resource_scope(given.resource_id@, given.scope@, now),
        )[0].max_value,
    ensures
        usage(after.resource_instance_repository@, given.resource_id@, given.scope@, now)
            <= before.resource_quota_repository@.filter(
            resource_quota_repository::active_of_resource_scope(given.resource_id@, given.scope@, now),
        )[0].max_value,
        r is Ok ==> usage(before.resource_instance_repository@, given.resource_id@, given.scope@, now)
            < before.resource_quota_repository@.filter(
            resource_quota_repository::active_of_resource_scope(given.resource_id@, given.scope@, now),
        )[0].max_value,
{
    if r is Ok {
        let row = resource_instance_repository::created_row(tied, id, now, ctx.principal_id);
        let done = resource_instance_repository::with_status(
            given.resource_id@,
            given.scope@,
            Status::COMPLETED.name(),
        );
        let flying = resource_instance_repository::recent_with_status(
            given.resource_id@,
            given.scope@,
            Status::INFLIGHT.name(),
            now,
        );
        Seq::lemma_filter_push(before.resource_instance_repository@, row, done);
        Seq::lemma_filter_push(before.resource_instance_repository@, row, flying);
        reveal_strlit("COMPLETED");
        reveal_strlit("INFLIGHT");
        assert("COMPLETED"@.len() == 9);
        assert("INFLIGHT"@.len() == 8);
        assert(Status::COMPLETED.name() != Status::INFLIGHT.name());
        assert(!(done(row) && flying(row)));
    }
}

/// Whether `after` is what an attempt to create a resource instance at `now`
/// makes of `before`, whoever attempts it, for whatever instance, and however
/// it ends.
pub open spec fn attempted(before: PersistenceManager, after: PersistenceManager, now: i64) -> bool {
    exists|
        ctx: SecurityContext,
        principal_id: Seq<char>,
        given: ResourceInstance,
        tied: ResourceInstance,
        id: String,
        r: Result<ResourceInstance, RbacError>,
    |
        PersistenceManager::new_instance_outcome(before, after, ctx, principal_id, given, tied, id, now, r)
}

/// Whether the first quota in force at `now` for the resource and scope allows
/// `cap` instances.
pub open spec fn capped(pm: PersistenceManager, resource_id: Seq<char>, scope: Seq<char>, now: i64, cap: int) -> bool {
    let quotas = pm.resource_quota_repository@.filter(
        resource_quota_repository::active_of_resource_scope(resource_id, scope, now),
    );
    quotas.len() > 0 && quotas[0].max_value == cap
}

/// An attempt to create an instance, of whatever resource and scope, keeps the
/// usage of a resource and scope within their quota.
pub proof fn lemma_attempt_keeps_quota(
    before: PersistenceManager,
    after: PersistenceManager,
    resource_id: Seq<char>,
    scope: Seq<char>,
    now: i64,
    cap: int,
)
    requires
        attempted(before, after, now),
        capped(before, resource_id, scope, now, cap),
        usage(before.resource_instance_repository@, resource_id, scope, now) <= cap,
    ensures
        usage(after.resource_instance_repository@, resource_id, scope, now) <= cap,
        after.resource_quota_repository == before.resource_quota_repository,
{
    let (ctx, principal_id, given, tied, id, r) = choose|
        ctx: SecurityContext,
        principal_id: Seq<char>,
        given: ResourceInstance,
        tied: ResourceInstance,
        id: String,
        r: Result<ResourceInstance, RbacError>,
    |
        PersistenceManager::new_instance_outcome(before, after, ctx, principal_id, given, tied, id, now, r);
    if given.resource_id@ == resource_id && given.scope@ == scope {
        lemma_creation_keeps_quota(before, after, ctx, principal_id, given, tied, id, now, r);
    } else if r is Ok {
        let row = resource_instance_repository::created_row(tied, id, now, ctx.principal_id);
        Seq::lemma_filter_push(
            before.resource_instance_repository@,
            row,
            resource_instance_repository::with_status(resource_id, scope, Status::COMPLETED.name()),
        );
        Seq::lemma_filter_push(
            before.resource_instance_repository@,
            row,
            resource_instance_repository::recent_with_status(resource_id, scope, Status::INFLIGHT.name(), now),
        );
    }
}

/// However many attempts to create instances follow one another, at instants
/// that do not go back, the usage of a resource and scope stays within their
/// quota: where the usage is within the quota before the first attempt, and at
/// each attempt the first quota in force allows `cap` instances, the usage is
/// within `cap` after every attempt.
pub proof fn lemma_attempts_keep_quota(
    states: Seq<PersistenceManager>,
    times: Seq<i64>,
    resource_id: Seq<char>,
    scope: Seq<char>,
    cap: int,
    k: int,
)
    requires
        states.len() == times.len() + 1,
        forall|j: int| 0 <= j < times.len() ==> attempted(#[trigger] states[j], states[j + 1], times[j]),
        forall|j: int| 0 <= j < times.len() - 1 ==> #[trigger] times[j] <= times[j + 1],
        forall|j: int| 0 <= j < times.len() ==> capped(#[trigger] states[j], resource_id, scope, times[j], cap),
        times.len() > 0,
        usage(states[0].resource_instance_repository@, resource_id, scope, times[0]) <= cap,
        0 <= k < times.len(),
    ensures
        usage(states[k + 1].resource_instance_repository@, resource_id, scope, times[k]) <= cap,
    decreases k,
{
    if k > 0 {
        lemma_attempts_keep_quota(states, times, resource_id, scope, cap, k - 1);
        assert(times[k - 1] <= times[k - 1 + 1]);
        lemma_usage_falls_with_time(
            states[k].resource_instance_repository@,
            resource_id,
            scope,
            times[k - 1],
            times[k],
        );
    }
    assert(attempted(states[k], states[k + 1], times[k]));
    lemma_attempt_keeps_quota(states[k], states[k + 1], resource_id, scope, times[k], cap);
}

/// The usage of a quota falls as time passes: instances in flight drop out of
/// it an hour after their creation.
pub proof fn lemma_usage_falls_with_time(
    instances: Seq<ResourceInstance>,
    resource_id: Seq<char>,
    scope: Seq<char>,
    now: i64,
    later: i64,
)
    requires
        now <= later,
    ensures
        usage(instances, resource_id, scope, later) <= usage(instances, resource_id, scope, now),
{
    lemma_filter_narrower(
        instances,
        resource_instance_repository::recent_with_status(resource_id, scope, Status::INFLIGHT.name(), later),
        resource_instance_repository::recent_with_status(resource_id, scope, Status::INFLIGHT.name(), now),
    );
}

/// The candidates of a request by a resolved principal are determined by the
/// store, the request and the instant.
pub proof fn lemma_candidates_are_determined(
    pm: PersistenceManager,
    realm_id: Seq<char>,
    principal: Principal,
    row: PPrincipal,
    resource_name: Seq<char>,
    scope: Seq<char>,
    now: i64,
    a: String,
    b: String,
)
    requires
        pm.hydrated(principal, row, realm_id, now),
    ensures
        pm.request_candidates(realm_id, a, principal, resource_name, scope, now) == pm.request_candidates(
            realm_id,
            b,
            principal,
            resource_name,
            scope,
            now,
        ),
{
    let layer = pm.org_claims(realm_id, row.organization_id@, now);
    let roles = pm.resolved_roles(row.organization_id@, row.id@, now);
    let first = granted(layer, pm.role_grants(roles, now), true);
    let second = granted(layer, pm.own_grants(row.id@, now), false);
    assert forall|i: int| 0 <= i < principal.claims@.len() implies (#[trigger] principal.claims@[i]) is Role
        || principal.claims@[i] is Principal by {
        if i < first.len() {
            lemma_granted_are_held(layer, pm.role_grants(roles, now), true, i);
        } else {
            lemma_granted_are_held(layer, pm.own_grants(row.id@, now), false, i - first.len());
        }
    }
    lemma_candidates_of_held(
        pm.resource_repository@.filter(resource_repository::of_realm(realm_id)),
        principal.claims@,
        resource_name,
        scope,
        a,
        b,
    );
}

} // verus!
