//! Operations on organizations and on what they own: groups, roles, principals
//! and license policies, and the memberships and grants of roles.

use vstd::prelude::*;

use crate::common::{Constants, RbacError, SecurityContext};
use crate::domain::models::{Group, LicensePolicy, Organization, Principal, Role};
use crate::persistence::group_principal_repository;
use crate::persistence::group_principal_repository::GroupPrincipalRepository;
use crate::persistence::group_repository;
use crate::persistence::group_repository::GroupRepository;
use crate::persistence::license_policy_repository;
use crate::persistence::license_policy_repository::LicensePolicyRepository;
use crate::persistence::org_repository;
use crate::persistence::org_repository::OrganizationRepository;
use crate::persistence::principal_repository;
use crate::persistence::principal_repository::PrincipalRepository;
use crate::persistence::role_repository;
use crate::persistence::role_repository::RoleRepository;
use crate::persistence::role_roleable_repository;
use crate::persistence::role_roleable_repository::RoleRoleableRepository;
use crate::persistence::manager::{same_but, Part, PersistenceManager};
use crate::persistence::table::first_index;
use crate::service::common::{group_exists, has_group, has_role, role_exists, AssociationForm};

verus! {

/// The organizations.
pub fn all_orgs(pm: &PersistenceManager, ctx: &SecurityContext) -> (out: Vec<Organization>)
    ensures
        out@.len() == pm.org_repository@.len(),
        forall|i: int| 0 <= i < out@.len() ==> (#[trigger] out@[i]).is_from(pm.org_repository@[i]),
{
    pm.org_repository.all(ctx)
}

/// Creates an organization.
pub fn create_org(
    pm: &mut PersistenceManager,
    ctx: &SecurityContext,
    org: Organization,
) -> (r: Result<Organization, RbacError>)
    ensures
        exists|id: String, now: i64| OrganizationRepository::create_outcome(
            old(pm).org_repository,
            final(pm).org_repository,
            *ctx,
            org,
            id,
            now,
            r,
        ),
        same_but(*old(pm), *final(pm), Part::Organizations),
        old(pm).wf() ==> final(pm).wf(),
{
    let r = pm.org_repository.create(ctx, &org);
    proof {
        let (id, now) = choose|id: String, now: i64| OrganizationRepository::create_outcome(
            old(pm).org_repository,
            pm.org_repository,
            *ctx,
            org,
            id,
            now,
            r,
        );
        assert(
            OrganizationRepository::create_outcome(old(pm).org_repository, pm.org_repository, *ctx, org, id, now, r)
        );
    }
    r
}

/// Updates the organization `id` with the fields of `org`.
pub fn update_org(
    pm: &mut PersistenceManager,
    ctx: &SecurityContext,
    id: String,
    mut org: Organization,
) -> (r: Result<Organization, RbacError>)
    ensures
        exists|now: i64| OrganizationRepository::update_outcome(
            old(pm).org_repository,
            final(pm).org_repository,
            *ctx,
            (Organization { id: id, ..org }),
            now,
            r,
        ),
        same_but(*old(pm), *final(pm), Part::Organizations),
        old(pm).wf() ==> final(pm).wf(),
{
    org.id = id;
    let r = pm.org_repository.update(ctx, &org);
    proof {
        let now = choose|now: i64| OrganizationRepository::update_outcome(
            old(pm).org_repository,
            pm.org_repository,
            *ctx,
            org,
            now,
            r,
        );
        assert(
            OrganizationRepository::update_outcome(
                old(pm).org_repository,
                pm.org_repository,
                *ctx,
                (Organization { id: id, ..org }),
                now,
                r,
            )
        );
    }
    r
}

/// The organization `id`, as it is stored.
pub fn get_org(pm: &PersistenceManager, ctx: &SecurityContext, id: &str) -> (r: Result<Organization, RbacError>)
    ensures
        match r {
            Ok(c) => first_index(pm.org_repository@, org_repository::scoped(id@)) is Some && c.is_from(
                pm.org_repository@[first_index(pm.org_repository@, org_repository::scoped(id@))->0]
            ),
            Err(e) => !(first_index(pm.org_repository@, org_repository::scoped(id@)) is Some) && e is NotFound,
        },
{
    match pm.org_repository.get(ctx, id) {
        Some(found) => Ok(found),
        None => Err(RbacError::NotFound("org not found".to_string())),
    }
}

/// Deletes the organization `id`.
pub fn delete_org(pm: &mut PersistenceManager, ctx: &SecurityContext, id: &str) -> (r: Result<usize, RbacError>)
    ensures
        OrganizationRepository::delete_outcome(old(pm).org_repository, final(pm).org_repository, *ctx, id@, r),
        same_but(*old(pm), *final(pm), Part::Organizations),
        old(pm).wf() ==> final(pm).wf(),
{
    pm.org_repository.delete(ctx, id)
}

/// The groups of an organization.
pub fn get_groups_by_org(pm: &PersistenceManager, ctx: &SecurityContext, org_id: &str) -> (out: Vec<Group>)
    ensures
        out@ == pm.group_repository@.filter(group_repository::of_org(org_id@)),
{
    pm.group_repository.get_by_org(ctx, org_id)
}

/// Creates a group in the organization `org_id`.
pub fn create_group(
    pm: &mut PersistenceManager,
    ctx: &SecurityContext,
    org_id: String,
    mut group: Group,
) -> (r: Result<Group, RbacError>)
    ensures
        exists|id: String, now: i64| GroupRepository::create_outcome(
            old(pm).group_repository,
            final(pm).group_repository,
            *ctx,
            (Group { organization_id: org_id, ..group }),
            id,
            now,
            r,
        ),
        same_but(*old(pm), *final(pm), Part::Groups),
        old(pm).wf() ==> final(pm).wf(),
{
    group.organization_id = org_id;
    let r = pm.group_repository.create(ctx, &group);
    proof {
        let (id, now) = choose|id: String, now: i64| GroupRepository::create_outcome(
            old(pm).group_repository,
            pm.group_repository,
            *ctx,
            group,
            id,
            now,
            r,
        );
        assert(
            GroupRepository::create_outcome(
                old(pm).group_repository,
                pm.group_repository,
                *ctx,
                (Group { organization_id: org_id, ..group }),
                id,
                now,
                r,
            )
        );
    }
    r
}

/// Updates the group `id` of the organization `org_id` with the fields of
/// `group`.
pub fn update_group(
    pm: &mut PersistenceManager,
    ctx: &SecurityContext,
    org_id: String,
    id: String,
    mut group: Group,
) -> (r: Result<Group, RbacError>)
    ensures
        exists|now: i64| GroupRepository::update_outcome(
            old(pm).group_repository,
            final(pm).group_repository,
            *ctx,
            (Group { organization_id: org_id, id: id, ..group }),
            now,
            r,
        ),
        same_but(*old(pm), *final(pm), Part::Groups),
        old(pm).wf() ==> final(pm).wf(),
{
    group.organization_id = org_id;
    group.id = id;
    let r = pm.group_repository.update(ctx, &group);
    proof {
        let now = choose|now: i64| GroupRepository::update_outcome(
            old(pm).group_repository,
            pm.group_repository,
            *ctx,
            group,
            now,
            r,
        );
        assert(
            GroupRepository::update_outcome(
                old(pm).group_repository,
                pm.group_repository,
                *ctx,
                (Group { organization_id: org_id, id: id, ..group }),
                now,
                r,
            )
        );
    }
    r
}

/// The group `id` of the organization `org_id`.
pub fn get_group(
    pm: &PersistenceManager,
    ctx: &SecurityContext,
    org_id: &str,
    id: &str,
) -> (r: Result<Group, RbacError>)
    ensures
        match r {
            Ok(c) => first_index(pm.group_repository@, group_repository::scoped(org_id@, id@)) is Some
                && c == pm.group_repository@[
                first_index(pm.group_repository@, group_repository::scoped(org_id@, id@))->0
            ],
            Err(e) => !(
                first_index(pm.group_repository@, group_repository::scoped(org_id@, id@)) is Some
            ) && e is NotFound,
        },
{
    match pm.group_repository.get(ctx, org_id, id) {
        Some(found) => Ok(found),
        None => Err(RbacError::NotFound("group not found".to_string())),
    }
}

/// Deletes the group `id` of the organization `org_id`.
pub fn delete_group(
    pm: &mut PersistenceManager,
    ctx: &SecurityContext,
    org_id: &str,
    id: &str,
) -> (r: Result<usize, RbacError>)
    ensures
        GroupRepository::delete_outcome(old(pm).group_repository, final(pm).group_repository, *ctx, org_id@, id@, r),
        same_but(*old(pm), *final(pm), Part::Groups),
        old(pm).wf() ==> final(pm).wf(),
{
    pm.group_repository.delete(ctx, org_id, id)
}

/// Makes a principal a member of a group of the organization.
pub fn add_principal_to_group(
    pm: &mut PersistenceManager,
    ctx: &SecurityContext,
    org_id: &str,
    group_id: &str,
    principal_id: &str,
) -> (r: Result<usize, RbacError>)
    ensures
        !has_group(*old(pm), org_id@, group_id@) ==> r is Err && r->Err_0 is NotFound && *final(pm) == *old(pm),
        has_group(*old(pm), org_id@, group_id@) ==> GroupPrincipalRepository::add_outcome(
            old(pm).group_principal_repository,
            final(pm).group_principal_repository,
            *ctx,
            group_id@,
            principal_id@,
            "Adding principal to group "@,
            r,
        ) && same_but(*old(pm), *final(pm), Part::Memberships),
        old(pm).wf() ==> final(pm).wf(),
{
    if !group_exists(pm, ctx, org_id, group_id) {
        return Err(RbacError::NotFound("group not found within organization".to_string()));
    }
    pm.group_principal_repository.add_principal_to_group(ctx, group_id, principal_id)
}

/// Ends the membership of a principal in a group of the organization.
pub fn delete_principal_from_group(
    pm: &mut PersistenceManager,
    ctx: &SecurityContext,
    org_id: &str,
    group_id: &str,
    principal_id: &str,
) -> (r: Result<usize, RbacError>)
    ensures
        !has_group(*old(pm), org_id@, group_id@) ==> r is Err && r->Err_0 is NotFound && *final(pm) == *old(pm),
        has_group(*old(pm), org_id@, group_id@) ==> GroupPrincipalRepository::remove_outcome(
            old(pm).group_principal_repository,
            final(pm).group_principal_repository,
            *ctx,
            group_id@,
            principal_id@,
            "Removing principal from group "@,
            r,
        ) && same_but(*old(pm), *final(pm), Part::Memberships),
        old(pm).wf() ==> final(pm).wf(),
{
    if !group_exists(pm, ctx, org_id, group_id) {
        return Err(RbacError::NotFound("group not found within organization".to_string()));
    }
    pm.group_principal_repository.delete_principal_from_group(ctx, group_id, principal_id)
}

/// The roles of an organization.
pub fn get_roles_by_org(pm: &PersistenceManager, ctx: &SecurityContext, org_id: &str) -> (out: Vec<Role>)
    ensures
        out@ == pm.role_repository@.filter(role_repository::of_org(org_id@)),
{
    pm.role_repository.get_by_org(ctx, org_id)
}

/// Creates a role in the organization `org_id`.
pub fn create_role(
    pm: &mut PersistenceManager,
    ctx: &SecurityContext,
    org_id: String,
    mut role: Role,
) -> (r: Result<Role, RbacError>)
    ensures
        exists|id: String, now: i64| RoleRepository::create_outcome(
            old(pm).role_repository,
            final(pm).role_repository,
            *ctx,
            (Role { organization_id: org_id, ..role }),
            id,
            now,
            r,
        ),
        same_but(*old(pm), *final(pm), Part::Roles),
        old(pm).wf() ==> final(pm).wf(),
{
    role.organization_id = org_id;
    let r = pm.role_repository.create(ctx, &role);
    proof {
        let (id, now) = choose|id: String, now: i64| RoleRepository::create_outcome(
            old(pm).role_repository,
            pm.role_repository,
            *ctx,
            role,
            id,
            now,
            r,
        );
        assert(
            RoleRepository::create_outcome(
                old(pm).role_repository,
                pm.role_repository,
                *ctx,
                (Role { organization_id: org_id, ..role }),
                id,
                now,
                r,
            )
        );
    }
    r
}

/// Updates the role `id` of the organization `org_id` with the fields of
/// `role`.
pub fn update_role(
    pm: &mut PersistenceManager,
    ctx: &SecurityContext,
    org_id: String,
    id: String,
    mut role: Role,
) -> (r: Result<Role, RbacError>)
    ensures
        exists|now: i64| RoleRepository::update_outcome(
            old(pm).role_repository,
            final(pm).role_repository,
            *ctx,
            (Role { organization_id: org_id, id: id, ..role }),
            now,
            r,
        ),
        same_but(*old(pm), *final(pm), Part::Roles),
        old(pm).wf() ==> final(pm).wf(),
{
    role.organization_id = org_id;
    role.id = id;
    let r = pm.role_repository.update(ctx, &role);
    proof {
        let now = choose|now: i64| RoleRepository::update_outcome(
            old(pm).role_repository,
            pm.role_repository,
            *ctx,
            role,
            now,
            r,
        );
        assert(
            RoleRepository::update_outcome(
                old(pm).role_repository,
                pm.role_repository,
                *ctx,
                (Role { organization_id: org_id, id: id, ..role }),
                now,
                r,
            )
        );
    }
    r
}

/// The role `id` of the organization `org_id`.
pub fn get_role(
    pm: &PersistenceManager,
    ctx: &SecurityContext,
    org_id: &str,
    id: &str,
) -> (r: Result<Role, RbacError>)
    ensures
        match r {
            Ok(c) => first_index(pm.role_repository@, role_repository::scoped(org_id@, id@)) is Some
                && c == pm.role_repository@[
                first_index(pm.role_repository@, role_repository::scoped(org_id@, id@))->0
            ],
            Err(e) => !(
                first_index(pm.role_repository@, role_repository::scoped(org_id@, id@)) is Some
            ) && e is NotFound,
        },
{
    match pm.role_repository.get(ctx, org_id, id) {
        Some(found) => Ok(found),
        None => Err(RbacError::NotFound("role not found".to_string())),
    }
}

/// Deletes the role `id` of the organization `org_id`.
pub fn delete_role(
    pm: &mut PersistenceManager,
    ctx: &SecurityContext,
    org_id: &str,
    id: &str,
) -> (r: Result<usize, RbacError>)
    ensures
        RoleRepository::delete_outcome(old(pm).role_repository, final(pm).role_repository, *ctx, org_id@, id@, r),
        same_but(*old(pm), *final(pm), Part::Roles),
        old(pm).wf() ==> final(pm).wf(),
{
    pm.role_repository.delete(ctx, org_id, id)
}

/// Grants a role of the organization to a principal, under the constraints and
/// in the window that the form names.
pub fn add_principal_to_role(
    pm: &mut PersistenceManager,
    ctx: &SecurityContext,
    org_id: &str,
    role_id: &str,
    principal_id: &str,
    cc: &AssociationForm,
) -> (r: Result<usize, RbacError>)
    ensures
        !has_role(*old(pm), org_id@, role_id@) ==> r is Err && r->Err_0 is NotFound && *final(pm) == *old(pm),
        has_role(*old(pm), org_id@, role_id@)
            && !cc.readable() ==> r is Err
            && r->Err_0 is Custom
            && *final(pm) == *old(pm),
        has_role(*old(pm), org_id@, role_id@) && cc.readable() ==> (
            exists|from: i64, to: i64| cc.frames(from, to) && #[trigger] RoleRoleableRepository::add_outcome(
                old(pm).role_roleable_repository,
                final(pm).role_roleable_repository,
                *ctx,
                role_id@,
                principal_id@,
                Constants::Principal.name(),
                cc.constraints@,
                from,
                to,
                "Adding principal to role "@,
                r,
            )
        ) && same_but(*old(pm), *final(pm), Part::RoleGrants),
        old(pm).wf() ==> final(pm).wf(),
{
    if !role_exists(pm, ctx, org_id, role_id) {
        return Err(RbacError::NotFound("role not found within organization".to_string()));
    }
    match cc.window() {
        Some((from, to)) => {
            let r = pm.role_roleable_repository.add_principal_to_role(
                ctx,
                role_id,
                principal_id,
                cc.constraints.as_str(),
                from,
                to,
            );
            proof {
                assert(
                    cc.frames(from, to) && RoleRoleableRepository::add_outcome(
                        old(pm).role_roleable_repository,
                        pm.role_roleable_repository,
                        *ctx,
                        role_id@,
                        principal_id@,
                        Constants::Principal.name(),
                        cc.constraints@,
                        from,
                        to,
                        "Adding principal to role "@,
                        r,
                    )
                );
            }
            r
        },
        None => Err(RbacError::Custom("effective_at and expired_at must be instants".to_string())),
    }
}

/// Revokes a role of the organization from a principal.
pub fn delete_principal_from_role(
    pm: &mut PersistenceManager,
    ctx: &SecurityContext,
    org_id: &str,
    role_id: &str,
    principal_id: &str,
) -> (r: Result<usize, RbacError>)
    ensures
        !has_role(*old(pm), org_id@, role_id@) ==> r is Err && r->Err_0 is NotFound && *final(pm) == *old(pm),
        has_role(*old(pm), org_id@, role_id@) ==> RoleRoleableRepository::remove_outcome(
            old(pm).role_roleable_repository,
            final(pm).role_roleable_repository,
            *ctx,
            role_id@,
            principal_id@,
            Constants::Principal.name(),
            "Removing principal from role "@,
            r,
        ) && same_but(*old(pm), *final(pm), Part::RoleGrants),
        old(pm).wf() ==> final(pm).wf(),
{
    if !role_exists(pm, ctx, org_id, role_id) {
        return Err(RbacError::NotFound("role not found within organization".to_string()));
    }
    pm.role_roleable_repository.delete_principal_from_role(ctx, role_id, principal_id)
}

/// Grants a role of the organization to a group, under the constraints and in
/// the window that the form names.
pub fn add_group_to_role(
    pm: &mut PersistenceManager,
    ctx: &SecurityContext,
    org_id: &str,
    role_id: &str,
    group_id: &str,
    cc: &AssociationForm,
) -> (r: Result<usize, RbacError>)
    ensures
        !has_role(*old(pm), org_id@, role_id@) ==> r is Err && r->Err_0 is NotFound && *final(pm) == *old(pm),
        has_role(*old(pm), org_id@, role_id@)
            && !cc.readable() ==> r is Err
            && r->Err_0 is Custom
            && *final(pm) == *old(pm),
        has_role(*old(pm), org_id@, role_id@) && cc.readable() ==> (
            exists|from: i64, to: i64| cc.frames(from, to) && #[trigger] RoleRoleableRepository::add_outcome(
                old(pm).role_roleable_repository,
                final(pm).role_roleable_repository,
                *ctx,
                role_id@,
                group_id@,
                Constants::Group.name(),
                cc.constraints@,
                from,
                to,
                "Adding group to role "@,
                r,
            )
        ) && same_but(*old(pm), *final(pm), Part::RoleGrants),
        old(pm).wf() ==> final(pm).wf(),
{
    if !role_exists(pm, ctx, org_id, role_id) {
        return Err(RbacError::NotFound("role not found within organization".to_string()));
    }
    match cc.window() {
        Some((from, to)) => {
            let r = pm.role_roleable_repository.add_group_to_role(
                ctx,
                role_id,
                group_id,
                cc.constraints.as_str(),
                from,
                to,
            );
            proof {
                assert(
                    cc.frames(from, to) && RoleRoleableRepository::add_outcome(
                        old(pm).role_roleable_repository,
                        pm.role_roleable_repository,
                        *ctx,
                        role_id@,
                        group_id@,
                        Constants::Group.name(),
                        cc.constraints@,
                        from,
                        to,
                        "Adding group to role "@,
                        r,
                    )
                );
            }
            r
        },
        None => Err(RbacError::Custom("effective_at and expired_at must be instants".to_string())),
    }
}

/// Revokes a role of the organization from a group.
pub fn delete_group_from_role(
    pm: &mut PersistenceManager,
    ctx: &SecurityContext,
    org_id: &str,
    role_id: &str,
    group_id: &str,
) -> (r: Result<usize, RbacError>)
    ensures
        !has_role(*old(pm), org_id@, role_id@) ==> r is Err && r->Err_0 is NotFound && *final(pm) == *old(pm),
        has_role(*old(pm), org_id@, role_id@) ==> RoleRoleableRepository::remove_outcome(
            old(pm).role_roleable_repository,
            final(pm).role_roleable_repository,
            *ctx,
            role_id@,
            group_id@,
            Constants::Group.name(),
            "Removing group from role "@,
            r,
        ) && same_but(*old(pm), *final(pm), Part::RoleGrants),
        old(pm).wf() ==> final(pm).wf(),
{
    if !role_exists(pm, ctx, org_id, role_id) {
        return Err(RbacError::NotFound("role not found within organization".to_string()));
    }
    pm.role_roleable_repository.delete_group_from_role(ctx, role_id, group_id)
}

/// The principals of an organization, as they are stored.
pub fn get_principals_by_org(pm: &PersistenceManager, ctx: &SecurityContext, org_id: &str) -> (out: Vec<Principal>)
    ensures
        out@.len() == pm.principal_repository@.filter(principal_repository::of_org(org_id@)).len(),
        forall|i: int|
            0 <= i < out@.len() ==> (#[trigger] out@[i]).is_from(
                pm.principal_repository@.filter(principal_repository::of_org(org_id@))[i],
            ),
{
    pm.principal_repository.get_by_org(ctx, org_id)
}

/// Creates a principal in the organization `org_id`.
pub fn create_principal(
    pm: &mut PersistenceManager,
    ctx: &SecurityContext,
    org_id: String,
    mut principal: Principal,
) -> (r: Result<Principal, RbacError>)
    ensures
        exists|id: String, now: i64| PrincipalRepository::create_outcome(
            old(pm).principal_repository,
            final(pm).principal_repository,
            *ctx,
            (Principal { organization_id: org_id, ..principal }),
            id,
            now,
            r,
        ),
        same_but(*old(pm), *final(pm), Part::Principals),
        old(pm).wf() ==> final(pm).wf(),
{
    principal.organization_id = org_id;
    let r = pm.principal_repository.create(ctx, &principal);
    proof {
        let (id, now) = choose|id: String, now: i64| PrincipalRepository::create_outcome(
            old(pm).principal_repository,
            pm.principal_repository,
            *ctx,
            principal,
            id,
            now,
            r,
        );
        assert(
            PrincipalRepository::create_outcome(
                old(pm).principal_repository,
                pm.principal_repository,
                *ctx,
                (Principal { organization_id: org_id, ..principal }),
                id,
                now,
                r,
            )
        );
    }
    r
}

/// Updates the principal `id` with the fields of `principal`.
pub fn update_principal(
    pm: &mut PersistenceManager,
    ctx: &SecurityContext,
    org_id: String,
    id: String,
    mut principal: Principal,
) -> (r: Result<Principal, RbacError>)
    ensures
        exists|now: i64| PrincipalRepository::update_outcome(
            old(pm).principal_repository,
            final(pm).principal_repository,
            *ctx,
            (Principal { organization_id: org_id, id: id, ..principal }),
            now,
            r,
        ),
        same_but(*old(pm), *final(pm), Part::Principals),
        old(pm).wf() ==> final(pm).wf(),
{
    principal.organization_id = org_id;
    principal.id = id;
    let r = pm.principal_repository.update(ctx, &principal);
    proof {
        let now = choose|now: i64| PrincipalRepository::update_outcome(
            old(pm).principal_repository,
            pm.principal_repository,
            *ctx,
            principal,
            now,
            r,
        );
        assert(
            PrincipalRepository::update_outcome(
                old(pm).principal_repository,
                pm.principal_repository,
                *ctx,
                (Principal { organization_id: org_id, id: id, ..principal }),
                now,
                r,
            )
        );
    }
    r
}

/// The principal `id`, as it is stored.
pub fn get_principal(
    pm: &PersistenceManager,
    ctx: &SecurityContext,
    org_id: &str,
    id: &str,
) -> (r: Result<Principal, RbacError>)
    ensures
        match r {
            Ok(c) => first_index(pm.principal_repository@, principal_repository::scoped(id@)) is Some && c.is_from(
                pm.principal_repository@[first_index(pm.principal_repository@, principal_repository::scoped(id@))->0]
            ),
            Err(e) => !(
                first_index(pm.principal_repository@, principal_repository::scoped(id@)) is Some
            ) && e is NotFound,
        },
{
    match pm.principal_repository.get(ctx, id) {
        Some(found) => Ok(found),
        None => Err(RbacError::NotFound("principal not found".to_string())),
    }
}

/// Deletes the principal `id`.
pub fn delete_principal(
    pm: &mut PersistenceManager,
    ctx: &SecurityContext,
    org_id: &str,
    id: &str,
) -> (r: Result<usize, RbacError>)
    ensures
        PrincipalRepository::delete_outcome(
            old(pm).principal_repository,
            final(pm).principal_repository,
            *ctx,
            id@,
            r,
        ),
        same_but(*old(pm), *final(pm), Part::Principals),
        old(pm).wf() ==> final(pm).wf(),
{
    pm.principal_repository.delete(ctx, id)
}

/// The license policies of an organization that are in force at the current
/// time.
pub fn get_licenses_by_org(pm: &PersistenceManager, ctx: &SecurityContext, org_id: &str) -> (out: Vec<LicensePolicy>)
    ensures
        exists|now: i64| out@ == pm.license_policy_repository@.filter(
            license_policy_repository::active_of_org(org_id@, now)
        ),
{
    pm.license_policy_repository.get_by_org(ctx, org_id)
}

/// Creates a license policy for the organization `org_id`.
pub fn create_license(
    pm: &mut PersistenceManager,
    ctx: &SecurityContext,
    org_id: String,
    mut license: LicensePolicy,
) -> (r: Result<LicensePolicy, RbacError>)
    ensures
        exists|id: String, now: i64| LicensePolicyRepository::create_outcome(
            old(pm).license_policy_repository,
            final(pm).license_policy_repository,
            *ctx,
            (LicensePolicy { organization_id: org_id, ..license }),
            id,
            now,
            r,
        ),
        same_but(*old(pm), *final(pm), Part::Policies),
        old(pm).wf() ==> final(pm).wf(),
{
    license.organization_id = org_id;
    let r = pm.license_policy_repository.create(ctx, &license);
    proof {
        let (id, now) = choose|id: String, now: i64| LicensePolicyRepository::create_outcome(
            old(pm).license_policy_repository,
            pm.license_policy_repository,
            *ctx,
            license,
            id,
            now,
            r,
        );
        assert(
            LicensePolicyRepository::create_outcome(
                old(pm).license_policy_repository,
                pm.license_policy_repository,
                *ctx,
                (LicensePolicy { organization_id: org_id, ..license }),
                id,
                now,
                r,
            )
        );
    }
    r
}

/// Updates the license policy `id` of the organization `org_id` with the
/// fields of `license`.
pub fn update_license(
    pm: &mut PersistenceManager,
    ctx: &SecurityContext,
    org_id: String,
    id: String,
    mut license: LicensePolicy,
) -> (r: Result<LicensePolicy, RbacError>)
    ensures
        exists|now: i64| LicensePolicyRepository::update_outcome(
            old(pm).license_policy_repository,
            final(pm).license_policy_repository,
            *ctx,
            (LicensePolicy { organization_id: org_id, id: id, ..license }),
            now,
            r,
        ),
        same_but(*old(pm), *final(pm), Part::Policies),
        old(pm).wf() ==> final(pm).wf(),
{
    license.organization_id = org_id;
    license.id = id;
    let r = pm.license_policy_repository.update(ctx, &license);
    proof {
        let now = choose|now: i64| LicensePolicyRepository::update_outcome(
            old(pm).license_policy_repository,
            pm.license_policy_repository,
            *ctx,
            license,
            now,
            r,
        );
        assert(
            LicensePolicyRepository::update_outcome(
                old(pm).license_policy_repository,
                pm.license_policy_repository,
                *ctx,
                (LicensePolicy { organization_id: org_id, id: id, ..license }),
                now,
                r,
            )
        );
    }
    r
}

/// The license policy `id` of the organization `org_id`.
pub fn get_license(
    pm: &PersistenceManager,
    ctx: &SecurityContext,
    org_id: &str,
    id: &str,
) -> (r: Result<LicensePolicy, RbacError>)
    ensures
        match r {
            Ok(c) => first_index(
                pm.license_policy_repository@,
                license_policy_repository::scoped(org_id@, id@),
            ) is Some
                && c == pm.license_policy_repository@[
                first_index(pm.license_policy_repository@, license_policy_repository::scoped(org_id@, id@))->0
            ],
            Err(e) => !(
                first_index(pm.license_policy_repository@, license_policy_repository::scoped(org_id@, id@)) is Some
            ) && e is NotFound,
        },
{
    match pm.license_policy_repository.get(ctx, org_id, id) {
        Some(found) => Ok(found),
        None => Err(RbacError::NotFound("license not found".to_string())),
    }
}

/// Deletes the license policy `id` of the organization `org_id`.
pub fn delete_license(
    pm: &mut PersistenceManager,
    ctx: &SecurityContext,
    org_id: &str,
    id: &str,
) -> (r: Result<usize, RbacError>)
    ensures
        LicensePolicyRepository::delete_outcome(
            old(pm).license_policy_repository,
            final(pm).license_policy_repository,
            *ctx,
            org_id@,
            id@,
            r,
        ),
        same_but(*old(pm), *final(pm), Part::Policies),
        old(pm).wf() ==> final(pm).wf(),
{
    pm.license_policy_repository.delete(ctx, org_id, id)
}

} // verus!
