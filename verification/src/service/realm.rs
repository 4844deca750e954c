//! Operations on realms and on what they own: resources with their instances
//! and quotas, claims, and the grants of claims.

use vstd::prelude::*;

use crate::common::{Constants, RbacError, SecurityContext};
use crate::domain::models::{Claim, Resource, ResourceInstance, ResourceQuota, SecurityRealm};
use crate::persistence::claim_claimable_repository;
use crate::persistence::claim_claimable_repository::ClaimClaimableRepository;
use crate::persistence::claim_repository;
use crate::persistence::claim_repository::ClaimRepository;
use crate::persistence::realm_repository;
use crate::persistence::realm_repository::SecurityRealmRepository;
use crate::persistence::resource_instance_repository;
use crate::persistence::resource_instance_repository::ResourceInstanceRepository;
use crate::persistence::resource_quota_repository;
use crate::persistence::resource_quota_repository::ResourceQuotaRepository;
use crate::persistence::resource_repository;
use crate::persistence::resource_repository::ResourceRepository;
use crate::persistence::manager::{same_but, Part, PersistenceManager};
use crate::persistence::table::first_index;
use crate::service::common::{has_resource, resource_exists, AssociationForm};

verus! {

/// The first thousand realms.
pub fn all_realms(pm: &PersistenceManager, ctx: &SecurityContext) -> (out: Vec<SecurityRealm>)
    ensures
        out@ == pm.realm_repository@.take(
            if 1000 <= pm.realm_repository@.len() { 1000 } else { pm.realm_repository@.len() as int }
        ),
{
    pm.realm_repository.all(ctx)
}

/// Creates a realm.
pub fn create_realm(
    pm: &mut PersistenceManager,
    ctx: &SecurityContext,
    realm: SecurityRealm,
) -> (r: Result<SecurityRealm, RbacError>)
    ensures
        SecurityRealmRepository::create_outcome(
            old(pm).realm_repository,
            final(pm).realm_repository,
            *ctx,
            realm,
            realm.id,
            0,
            r,
        ),
        same_but(*old(pm), *final(pm), Part::Realms),
        old(pm).wf() ==> final(pm).wf(),
{
    pm.realm_repository.create(ctx, &realm)
}

/// Updates the realm `id` with the fields of `realm`.
pub fn update_realm(
    pm: &mut PersistenceManager,
    ctx: &SecurityContext,
    id: String,
    mut realm: SecurityRealm,
) -> (r: Result<SecurityRealm, RbacError>)
    ensures
        exists|now: i64| SecurityRealmRepository::update_outcome(
            old(pm).realm_repository,
            final(pm).realm_repository,
            *ctx,
            (SecurityRealm { id: id, ..realm }),
            now,
            r,
        ),
        same_but(*old(pm), *final(pm), Part::Realms),
        old(pm).wf() ==> final(pm).wf(),
{
    realm.id = id;
    let r = pm.realm_repository.update(ctx, &realm);
    proof {
        let now = choose|now: i64| SecurityRealmRepository::update_outcome(
            old(pm).realm_repository,
            pm.realm_repository,
            *ctx,
            realm,
            now,
            r,
        );
        assert(
            SecurityRealmRepository::update_outcome(
                old(pm).realm_repository,
                pm.realm_repository,
                *ctx,
                (SecurityRealm { id: id, ..realm }),
                now,
                r,
            )
        );
    }
    r
}

/// The realm `id`.
pub fn get_realm(pm: &PersistenceManager, ctx: &SecurityContext, id: &str) -> (r: Result<SecurityRealm, RbacError>)
    ensures
        match r {
            Ok(c) => first_index(pm.realm_repository@, realm_repository::scoped(id@)) is Some
                && c == pm.realm_repository@[
                first_index(pm.realm_repository@, realm_repository::scoped(id@))->0
            ],
            Err(e) => !(first_index(pm.realm_repository@, realm_repository::scoped(id@)) is Some) && e is NotFound,
        },
{
    match pm.realm_repository.get(ctx, id) {
        Some(found) => Ok(found),
        None => Err(RbacError::NotFound("realm not found".to_string())),
    }
}

/// Deletes the realm `id`.
pub fn delete_realm(pm: &mut PersistenceManager, ctx: &SecurityContext, id: &str) -> (r: Result<usize, RbacError>)
    ensures
        SecurityRealmRepository::delete_outcome(old(pm).realm_repository, final(pm).realm_repository, *ctx, id@, r),
        same_but(*old(pm), *final(pm), Part::Realms),
        old(pm).wf() ==> final(pm).wf(),
{
    pm.realm_repository.delete(ctx, id)
}

/// The resources of a realm.
pub fn get_resources_by_realm(pm: &PersistenceManager, ctx: &SecurityContext, realm_id: &str) -> (out: Vec<Resource>)
    ensures
        out@ == pm.resource_repository@.filter(resource_repository::of_realm(realm_id@)),
{
    pm.resource_repository.get_by_realm(ctx, realm_id)
}

/// Creates a resource in the realm `realm_id`.
pub fn create_resource(
    pm: &mut PersistenceManager,
    ctx: &SecurityContext,
    realm_id: String,
    mut resource: Resource,
) -> (r: Result<Resource, RbacError>)
    ensures
        exists|id: String, now: i64| ResourceRepository::create_outcome(
            old(pm).resource_repository,
            final(pm).resource_repository,
            *ctx,
            (Resource { realm_id: realm_id, ..resource }),
            id,
            now,
            r,
        ),
        same_but(*old(pm), *final(pm), Part::Resources),
        old(pm).wf() ==> final(pm).wf(),
{
    resource.realm_id = realm_id;
    let r = pm.resource_repository.create(ctx, &resource);
    proof {
        let (id, now) = choose|id: String, now: i64| ResourceRepository::create_outcome(
            old(pm).resource_repository,
            pm.resource_repository,
            *ctx,
            resource,
            id,
            now,
            r,
        );
        assert(
            ResourceRepository::create_outcome(
                old(pm).resource_repository,
                pm.resource_repository,
                *ctx,
                (Resource { realm_id: realm_id, ..resource }),
                id,
                now,
                r,
            )
        );
    }
    r
}

/// Updates the resource `id` of the realm `realm_id` with the fields of
/// `resource`.
pub fn update_resource(
    pm: &mut PersistenceManager,
    ctx: &SecurityContext,
    realm_id: String,
    id: String,
    mut resource: Resource,
) -> (r: Result<Resource, RbacError>)
    ensures
        exists|now: i64| ResourceRepository::update_outcome(
            old(pm).resource_repository,
            final(pm).resource_repository,
            *ctx,
            (Resource { realm_id: realm_id, id: id, ..resource }),
            now,
            r,
        ),
        same_but(*old(pm), *final(pm), Part::Resources),
        old(pm).wf() ==> final(pm).wf(),
{
    resource.realm_id = realm_id;
    resource.id = id;
    let r = pm.resource_repository.update(ctx, &resource);
    proof {
        let now = choose|now: i64| ResourceRepository::update_outcome(
            old(pm).resource_repository,
            pm.resource_repository,
            *ctx,
            resource,
            now,
            r,
        );
        assert(
            ResourceRepository::update_outcome(
                old(pm).resource_repository,
                pm.resource_repository,
                *ctx,
                (Resource { realm_id: realm_id, id: id, ..resource }),
                now,
                r,
            )
        );
    }
    r
}

/// The resource `id` of the realm `realm_id`.
pub fn get_resource(
    pm: &PersistenceManager,
    ctx: &SecurityContext,
    realm_id: &str,
    id: &str,
) -> (r: Result<Resource, RbacError>)
    ensures
        match r {
            Ok(c) => first_index(pm.resource_repository@, resource_repository::scoped(realm_id@, id@)) is Some
                && c == pm.resource_repository@[
                first_index(pm.resource_repository@, resource_repository::scoped(realm_id@, id@))->0
            ],
            Err(e) => !(
                first_index(pm.resource_repository@, resource_repository::scoped(realm_id@, id@)) is Some
            ) && e is NotFound,
        },
{
    match pm.resource_repository.get(ctx, realm_id, id) {
        Some(found) => Ok(found),
        None => Err(RbacError::NotFound("resource not found".to_string())),
    }
}

/// Deletes the resource `id` of the realm `realm_id`.
pub fn delete_resource(
    pm: &mut PersistenceManager,
    ctx: &SecurityContext,
    realm_id: &str,
    id: &str,
) -> (r: Result<usize, RbacError>)
    ensures
        ResourceRepository::delete_outcome(
            old(pm).resource_repository,
            final(pm).resource_repository,
            *ctx,
            realm_id@,
            id@,
            r,
        ),
        same_but(*old(pm), *final(pm), Part::Resources),
        old(pm).wf() ==> final(pm).wf(),
{
    pm.resource_repository.delete(ctx, realm_id, id)
}

/// The instances of a resource of the realm; none where the realm has no such
/// resource.
pub fn get_instances(
    pm: &PersistenceManager,
    ctx: &SecurityContext,
    realm_id: &str,
    resource_id: &str,
) -> (out: Vec<ResourceInstance>)
    ensures
        out@ == if has_resource(*pm, realm_id@, resource_id@) { pm.resource_instance_repository@.filter(
            resource_instance_repository::of_resource(resource_id@)
        ) } else { Seq::<ResourceInstance>::empty() },
{
        if !resource_exists(pm, ctx, realm_id, resource_id) {
            return Vec::new();
        }
    pm.resource_instance_repository.get_by_resource(ctx, resource_id)
}

/// Creates an instance of a resource of the realm for the calling principal,
/// held to the quota.
pub fn create_instance(
    pm: &mut PersistenceManager,
    ctx: &SecurityContext,
    realm_id: &str,
    resource_id: String,
    mut instance: ResourceInstance,
) -> (r: Result<ResourceInstance, RbacError>)
    ensures
        !has_resource(
            *old(pm),
            realm_id@,
            resource_id@,
        ) ==> r is Err && r->Err_0 is NotFound && *final(pm) == *old(pm),
        has_resource(*old(pm), realm_id@, resource_id@) ==> exists|tied: ResourceInstance, id: String, now: i64|
            PersistenceManager::new_instance_outcome(
                *old(pm),
                *final(pm),
                *ctx,
                ctx.principal_id@,
                (ResourceInstance { resource_id: resource_id, ..instance }),
                tied,
                id,
                now,
                r,
            ),
        old(pm).wf() ==> final(pm).wf(),
{
    if !resource_exists(pm, ctx, realm_id, resource_id.as_str()) {
        return Err(RbacError::NotFound("resource not found within realm".to_string()));
    }
    instance.resource_id = resource_id;
    let ghost given = instance;
    let r = pm.new_resource_instance(ctx, ctx.principal_id.as_str(), &mut instance);
    proof {
        let (id, now) = choose|id: String, now: i64|
            PersistenceManager::new_instance_outcome(
                *old(pm),
                *pm,
                *ctx,
                ctx.principal_id@,
                given,
                instance,
                id,
                now,
                r,
            );
        assert(PersistenceManager::new_instance_outcome(
            *old(pm),
            *pm,
            *ctx,
            ctx.principal_id@,
            (ResourceInstance { resource_id: resource_id, ..instance }),
            instance,
            id,
            now,
            r,
        ));
    }
    r
}

/// Updates the instance `id` of a resource of the realm with the fields of
/// `instance`.
pub fn update_instance(
    pm: &mut PersistenceManager,
    ctx: &SecurityContext,
    realm_id: &str,
    resource_id: String,
    id: String,
    mut instance: ResourceInstance,
) -> (r: Result<ResourceInstance, RbacError>)
    ensures
        !has_resource(
            *old(pm),
            realm_id@,
            resource_id@,
        ) ==> r is Err && r->Err_0 is NotFound && *final(pm) == *old(pm),
        has_resource(
            *old(pm),
            realm_id@,
            resource_id@,
        ) ==> exists|now: i64| ResourceInstanceRepository::update_outcome(
            old(pm).resource_instance_repository,
            final(pm).resource_instance_repository,
            *ctx,
            (ResourceInstance { id: id, resource_id: resource_id, ..instance }),
            now,
            r,
        ) && same_but(*old(pm), *final(pm), Part::Instances),
        old(pm).wf() ==> final(pm).wf(),
{
    if !resource_exists(pm, ctx, realm_id, resource_id.as_str()) {
        return Err(RbacError::NotFound("resource not found within realm".to_string()));
    }
    instance.id = id;
    instance.resource_id = resource_id;
    let r = pm.resource_instance_repository.update(ctx, &instance);
    proof {
        let now = choose|now: i64| ResourceInstanceRepository::update_outcome(
            old(pm).resource_instance_repository,
            pm.resource_instance_repository,
            *ctx,
            instance,
            now,
            r,
        );
        assert(
            ResourceInstanceRepository::update_outcome(
                old(pm).resource_instance_repository,
                pm.resource_instance_repository,
                *ctx,
                (ResourceInstance { id: id, resource_id: resource_id, ..instance }),
                now,
                r,
            )
        );
    }
    r
}

/// The instance `id`, where the realm has the resource.
pub fn get_instance(
    pm: &PersistenceManager,
    ctx: &SecurityContext,
    realm_id: &str,
    resource_id: &str,
    id: &str,
) -> (r: Result<ResourceInstance, RbacError>)
    ensures
        match r {
            Ok(c) => has_resource(*pm, realm_id@, resource_id@)
                && first_index(pm.resource_instance_repository@, resource_instance_repository::scoped(id@)) is Some
                && c == pm.resource_instance_repository@[
                first_index(pm.resource_instance_repository@, resource_instance_repository::scoped(id@))->0
            ],
            Err(e) => !(
                has_resource(*pm, realm_id@, resource_id@) && first_index(
                    pm.resource_instance_repository@,
                    resource_instance_repository::scoped(id@),
                ) is Some
            ) && e is NotFound,
        },
{
    if !resource_exists(pm, ctx, realm_id, resource_id) {
        return Err(RbacError::NotFound("resource not found within realm".to_string()));
    }
    match pm.resource_instance_repository.get(ctx, id) {
        Some(found) => Ok(found),
        None => Err(RbacError::NotFound("instance not found".to_string())),
    }
}

/// Deletes the instance `id`, where the realm has the resource.
pub fn delete_instance(
    pm: &mut PersistenceManager,
    ctx: &SecurityContext,
    realm_id: &str,
    resource_id: &str,
    id: &str,
) -> (r: Result<usize, RbacError>)
    ensures
        !has_resource(
            *old(pm),
            realm_id@,
            resource_id@,
        ) ==> r is Err && r->Err_0 is NotFound && *final(pm) == *old(pm),
        has_resource(*old(pm), realm_id@, resource_id@) ==> ResourceInstanceRepository::delete_outcome(
            old(pm).resource_instance_repository,
            final(pm).resource_instance_repository,
            *ctx,
            id@,
            r,
        ) && same_but(*old(pm), *final(pm), Part::Instances),
        old(pm).wf() ==> final(pm).wf(),
{
    if !resource_exists(pm, ctx, realm_id, resource_id) {
        return Err(RbacError::NotFound("resource not found within realm".to_string()));
    }
    pm.resource_instance_repository.delete(ctx, id)
}

/// The quotas of a resource of the realm that are in force at the current
/// time; none where the realm has no such resource.
pub fn get_quotas(
    pm: &PersistenceManager,
    ctx: &SecurityContext,
    realm_id: &str,
    resource_id: &str,
) -> (out: Vec<ResourceQuota>)
    ensures
        !has_resource(*pm, realm_id@, resource_id@) ==> out@ == Seq::<ResourceQuota>::empty(),
        has_resource(*pm, realm_id@, resource_id@) ==> exists|now: i64| out@ == pm.resource_quota_repository@.filter(
            resource_quota_repository::active_of_resource(resource_id@, now)
        ),
{
    if !resource_exists(pm, ctx, realm_id, resource_id) {
        return Vec::new();
    }
    pm.resource_quota_repository.get_by_resource(ctx, resource_id)
}

/// Creates a quota for a resource of the realm.
pub fn create_quota(
    pm: &mut PersistenceManager,
    ctx: &SecurityContext,
    realm_id: &str,
    resource_id: String,
    mut quota: ResourceQuota,
) -> (r: Result<ResourceQuota, RbacError>)
    ensures
        !has_resource(
            *old(pm),
            realm_id@,
            resource_id@,
        ) ==> r is Err && r->Err_0 is NotFound && *final(pm) == *old(pm),
        has_resource(
            *old(pm),
            realm_id@,
            resource_id@,
        ) ==> exists|id: String, now: i64| ResourceQuotaRepository::create_outcome(
            old(pm).resource_quota_repository,
            final(pm).resource_quota_repository,
            *ctx,
            (ResourceQuota { resource_id: resource_id, ..quota }),
            id,
            now,
            r,
        ) && same_but(*old(pm), *final(pm), Part::Quotas),
        old(pm).wf() ==> final(pm).wf(),
{
    if !resource_exists(pm, ctx, realm_id, resource_id.as_str()) {
        return Err(RbacError::NotFound("resource not found within realm".to_string()));
    }
    quota.resource_id = resource_id;
    let r = pm.resource_quota_repository.create(ctx, &quota);
    proof {
        let (id, now) = choose|id: String, now: i64| ResourceQuotaRepository::create_outcome(
            old(pm).resource_quota_repository,
            pm.resource_quota_repository,
            *ctx,
            quota,
            id,
            now,
            r,
        );
        assert(
            ResourceQuotaRepository::create_outcome(
                old(pm).resource_quota_repository,
                pm.resource_quota_repository,
                *ctx,
                (ResourceQuota { resource_id: resource_id, ..quota }),
                id,
                now,
                r,
            )
        );
    }
    r
}

/// Updates the quota `id` of a resource of the realm with the fields of
/// `quota`.
pub fn update_quota(
    pm: &mut PersistenceManager,
    ctx: &SecurityContext,
    realm_id: &str,
    resource_id: String,
    id: String,
    mut quota: ResourceQuota,
) -> (r: Result<ResourceQuota, RbacError>)
    ensures
        !has_resource(
            *old(pm),
            realm_id@,
            resource_id@,
        ) ==> r is Err && r->Err_0 is NotFound && *final(pm) == *old(pm),
        has_resource(*old(pm), realm_id@, resource_id@) ==> exists|now: i64| ResourceQuotaRepository::update_outcome(
            old(pm).resource_quota_repository,
            final(pm).resource_quota_repository,
            *ctx,
            (ResourceQuota { id: id, resource_id: resource_id, ..quota }),
            now,
            r,
        ) && same_but(*old(pm), *final(pm), Part::Quotas),
        old(pm).wf() ==> final(pm).wf(),
{
    if !resource_exists(pm, ctx, realm_id, resource_id.as_str()) {
        return Err(RbacError::NotFound("resource not found within realm".to_string()));
    }
    quota.id = id;
    quota.resource_id = resource_id;
    let r = pm.resource_quota_repository.update(ctx, &quota);
    proof {
        let now = choose|now: i64| ResourceQuotaRepository::update_outcome(
            old(pm).resource_quota_repository,
            pm.resource_quota_repository,
            *ctx,
            quota,
            now,
            r,
        );
        assert(
            ResourceQuotaRepository::update_outcome(
                old(pm).resource_quota_repository,
                pm.resource_quota_repository,
                *ctx,
                (ResourceQuota { id: id, resource_id: resource_id, ..quota }),
                now,
                r,
            )
        );
    }
    r
}

/// The quota `id`, where the realm has the resource.
pub fn get_quota(
    pm: &PersistenceManager,
    ctx: &SecurityContext,
    realm_id: &str,
    resource_id: &str,
    id: &str,
) -> (r: Result<ResourceQuota, RbacError>)
    ensures
        match r {
            Ok(c) => has_resource(*pm, realm_id@, resource_id@)
                && first_index(pm.resource_quota_repository@, resource_quota_repository::scoped(id@)) is Some
                && c == pm.resource_quota_repository@[
                first_index(pm.resource_quota_repository@, resource_quota_repository::scoped(id@))->0
            ],
            Err(e) => !(
                has_resource(*pm, realm_id@, resource_id@) && first_index(
                    pm.resource_quota_repository@,
                    resource_quota_repository::scoped(id@),
                ) is Some
            ) && e is NotFound,
        },
{
    if !resource_exists(pm, ctx, realm_id, resource_id) {
        return Err(RbacError::NotFound("resource not found within realm".to_string()));
    }
    match pm.resource_quota_repository.get(ctx, id) {
        Some(found) => Ok(found),
        None => Err(RbacError::NotFound("quota not found".to_string())),
    }
}

/// Deletes the quota `id`, where the realm has the resource.
pub fn delete_quota(
    pm: &mut PersistenceManager,
    ctx: &SecurityContext,
    realm_id: &str,
    resource_id: &str,
    id: &str,
) -> (r: Result<usize, RbacError>)
    ensures
        !has_resource(
            *old(pm),
            realm_id@,
            resource_id@,
        ) ==> r is Err && r->Err_0 is NotFound && *final(pm) == *old(pm),
        has_resource(*old(pm), realm_id@, resource_id@) ==> ResourceQuotaRepository::delete_outcome(
            old(pm).resource_quota_repository,
            final(pm).resource_quota_repository,
            *ctx,
            id@,
            r,
        ) && same_but(*old(pm), *final(pm), Part::Quotas),
        old(pm).wf() ==> final(pm).wf(),
{
    if !resource_exists(pm, ctx, realm_id, resource_id) {
        return Err(RbacError::NotFound("resource not found within realm".to_string()));
    }
    pm.resource_quota_repository.delete(ctx, id)
}

/// The claims of a realm.
pub fn get_realm_claims(pm: &PersistenceManager, ctx: &SecurityContext, realm_id: &str) -> (out: Vec<Claim>)
    ensures
        out@ == pm.claim_repository@.filter(claim_repository::of_realm(realm_id@)),
{
    pm.claim_repository.get_by_realm(ctx, realm_id)
}

/// The claims on a resource of the realm; none where the realm has no such
/// resource.
pub fn get_claims(
    pm: &PersistenceManager,
    ctx: &SecurityContext,
    realm_id: &str,
    resource_id: &str,
) -> (out: Vec<Claim>)
    ensures
        out@ == if has_resource(*pm, realm_id@, resource_id@) { pm.claim_repository@.filter(
            claim_repository::of_realm_resource(realm_id@, resource_id@)
        ) } else { Seq::<Claim>::empty() },
{
        if !resource_exists(pm, ctx, realm_id, resource_id) {
            return Vec::new();
        }
    pm.claim_repository.get_by_realm_resource(ctx, realm_id, resource_id)
}

/// Creates a claim on a resource of the realm.
pub fn create_claim(
    pm: &mut PersistenceManager,
    ctx: &SecurityContext,
    realm_id: String,
    resource_id: String,
    mut claim: Claim,
) -> (r: Result<Claim, RbacError>)
    ensures
        !has_resource(
            *old(pm),
            realm_id@,
            resource_id@,
        ) ==> r is Err && r->Err_0 is NotFound && *final(pm) == *old(pm),
        has_resource(
            *old(pm),
            realm_id@,
            resource_id@,
        ) ==> exists|id: String, now: i64| ClaimRepository::create_outcome(
            old(pm).claim_repository,
            final(pm).claim_repository,
            *ctx,
            (Claim { realm_id: realm_id, resource_id: resource_id, ..claim }),
            id,
            now,
            r,
        ) && same_but(*old(pm), *final(pm), Part::Claims),
        old(pm).wf() ==> final(pm).wf(),
{
    if !resource_exists(pm, ctx, realm_id.as_str(), resource_id.as_str()) {
        return Err(RbacError::NotFound("resource not found within realm".to_string()));
    }
    claim.realm_id = realm_id;
    claim.resource_id = resource_id;
    let r = pm.claim_repository.create(ctx, &claim);
    proof {
        let (id, now) = choose|id: String, now: i64| ClaimRepository::create_outcome(
            old(pm).claim_repository,
            pm.claim_repository,
            *ctx,
            claim,
            id,
            now,
            r,
        );
        assert(
            ClaimRepository::create_outcome(
                old(pm).claim_repository,
                pm.claim_repository,
                *ctx,
                (Claim { realm_id: realm_id, resource_id: resource_id, ..claim }),
                id,
                now,
                r,
            )
        );
    }
    r
}

/// Updates the claim `id` on a resource of the realm with the fields of
/// `claim`.
pub fn update_claim(
    pm: &mut PersistenceManager,
    ctx: &SecurityContext,
    realm_id: String,
    resource_id: String,
    id: String,
    mut claim: Claim,
) -> (r: Result<Claim, RbacError>)
    ensures
        !has_resource(
            *old(pm),
            realm_id@,
            resource_id@,
        ) ==> r is Err && r->Err_0 is NotFound && *final(pm) == *old(pm),
        has_resource(*old(pm), realm_id@, resource_id@) ==> exists|now: i64| ClaimRepository::update_outcome(
            old(pm).claim_repository,
            final(pm).claim_repository,
            *ctx,
            (Claim { id: id, resource_id: resource_id, realm_id: realm_id, ..claim }),
            now,
            r,
        ) && same_but(*old(pm), *final(pm), Part::Claims),
        old(pm).wf() ==> final(pm).wf(),
{
    if !resource_exists(pm, ctx, realm_id.as_str(), resource_id.as_str()) {
        return Err(RbacError::NotFound("resource not found within realm".to_string()));
    }
    claim.id = id;
    claim.resource_id = resource_id;
    claim.realm_id = realm_id;
    let r = pm.claim_repository.update(ctx, &claim);
    proof {
        let now = choose|now: i64| ClaimRepository::update_outcome(
            old(pm).claim_repository,
            pm.claim_repository,
            *ctx,
            claim,
            now,
            r,
        );
        assert(
            ClaimRepository::update_outcome(
                old(pm).claim_repository,
                pm.claim_repository,
                *ctx,
                (Claim { id: id, resource_id: resource_id, realm_id: realm_id, ..claim }),
                now,
                r,
            )
        );
    }
    r
}

/// The claim `id` on a resource of the realm.
pub fn get_claim(
    pm: &PersistenceManager,
    ctx: &SecurityContext,
    realm_id: &str,
    resource_id: &str,
    id: &str,
) -> (r: Result<Claim, RbacError>)
    ensures
        match r {
            Ok(c) => has_resource(*pm, realm_id@, resource_id@)
                && first_index(pm.claim_repository@, claim_repository::scoped(realm_id@, resource_id@, id@)) is Some
                && c == pm.claim_repository@[
                first_index(pm.claim_repository@, claim_repository::scoped(realm_id@, resource_id@, id@))->0
            ],
            Err(e) => !(
                has_resource(*pm, realm_id@, resource_id@) && first_index(
                    pm.claim_repository@,
                    claim_repository::scoped(realm_id@, resource_id@, id@),
                ) is Some
            ) && e is NotFound,
        },
{
    if !resource_exists(pm, ctx, realm_id, resource_id) {
        return Err(RbacError::NotFound("resource not found within realm".to_string()));
    }
    match pm.claim_repository.get(ctx, realm_id, resource_id, id) {
        Some(found) => Ok(found),
        None => Err(RbacError::NotFound("claim not found".to_string())),
    }
}

/// Deletes the claim `id` on a resource of the realm.
pub fn delete_claim(
    pm: &mut PersistenceManager,
    ctx: &SecurityContext,
    realm_id: &str,
    resource_id: &str,
    id: &str,
) -> (r: Result<usize, RbacError>)
    ensures
        !has_resource(
            *old(pm),
            realm_id@,
            resource_id@,
        ) ==> r is Err && r->Err_0 is NotFound && *final(pm) == *old(pm),
        has_resource(*old(pm), realm_id@, resource_id@) ==> ClaimRepository::delete_outcome(
            old(pm).claim_repository,
            final(pm).claim_repository,
            *ctx,
            realm_id@,
            resource_id@,
            id@,
            r,
        ) && same_but(*old(pm), *final(pm), Part::Claims),
        old(pm).wf() ==> final(pm).wf(),
{
    if !resource_exists(pm, ctx, realm_id, resource_id) {
        return Err(RbacError::NotFound("resource not found within realm".to_string()));
    }
    pm.claim_repository.delete(ctx, realm_id, resource_id, id)
}

/// Grants a claim on a resource of the realm to a principal, under the scope
/// and constraints and in the window that the form names.
pub fn add_principal_to_claim(
    pm: &mut PersistenceManager,
    ctx: &SecurityContext,
    realm_id: &str,
    resource_id: &str,
    claim_id: &str,
    principal_id: &str,
    cc: &AssociationForm,
) -> (r: Result<usize, RbacError>)
    ensures
        !has_resource(
            *old(pm),
            realm_id@,
            resource_id@,
        ) ==> r is Err && r->Err_0 is NotFound && *final(pm) == *old(pm),
        has_resource(
            *old(pm),
            realm_id@,
            resource_id@,
        ) && !cc.readable() ==> r is Err && r->Err_0 is Custom && *final(pm) == *old(pm),
        has_resource(*old(pm), realm_id@, resource_id@) && cc.readable() ==> (
            exists|from: i64, to: i64| cc.frames(from, to) && #[trigger] ClaimClaimableRepository::add_outcome(
                old(pm).claim_claimable_repository,
                final(pm).claim_claimable_repository,
                *ctx,
                claim_id@,
                principal_id@,
                Constants::Principal.name(),
                cc.scope@,
                cc.constraints@,
                from,
                to,
                "Adding principal to claim "@,
                r,
            )
        ) && same_but(*old(pm), *final(pm), Part::ClaimGrants),
        old(pm).wf() ==> final(pm).wf(),
{
    if !resource_exists(pm, ctx, realm_id, resource_id) {
        return Err(RbacError::NotFound("resource not found within realm".to_string()));
    }
    match cc.window() {
        Some((from, to)) => {
            let r = pm.claim_claimable_repository.add_principal_to_claim(
                ctx,
                principal_id,
                claim_id,
                cc.scope.as_str(),
                cc.constraints.as_str(),
                from,
                to,
            );
            proof {
                assert(
                    cc.frames(from, to) && ClaimClaimableRepository::add_outcome(
                        old(pm).claim_claimable_repository,
                        pm.claim_claimable_repository,
                        *ctx,
                        claim_id@,
                        principal_id@,
                        Constants::Principal.name(),
                        cc.scope@,
                        cc.constraints@,
                        from,
                        to,
                        "Adding principal to claim "@,
                        r,
                    )
                );
            }
            r
        },
        None => Err(RbacError::Custom("effective_at and expired_at must be instants".to_string())),
    }
}

/// Revokes a claim on a resource of the realm from a principal.
pub fn delete_principal_from_claim(
    pm: &mut PersistenceManager,
    ctx: &SecurityContext,
    realm_id: &str,
    resource_id: &str,
    claim_id: &str,
    principal_id: &str,
) -> (r: Result<usize, RbacError>)
    ensures
        !has_resource(
            *old(pm),
            realm_id@,
            resource_id@,
        ) ==> r is Err && r->Err_0 is NotFound && *final(pm) == *old(pm),
        has_resource(*old(pm), realm_id@, resource_id@) ==> ClaimClaimableRepository::remove_outcome(
            old(pm).claim_claimable_repository,
            final(pm).claim_claimable_repository,
            *ctx,
            claim_id@,
            principal_id@,
            Constants::Principal.name(),
            "Removing principal from claim "@,
            r,
        ) && same_but(*old(pm), *final(pm), Part::ClaimGrants),
        old(pm).wf() ==> final(pm).wf(),
{
    if !resource_exists(pm, ctx, realm_id, resource_id) {
        return Err(RbacError::NotFound("resource not found within realm".to_string()));
    }
    pm.claim_claimable_repository.delete_principal_from_claim(ctx, principal_id, claim_id)
}

/// Grants a claim on a resource of the realm to a role, under the scope and
/// constraints and in the window that the form names.
pub fn add_role_to_claim(
    pm: &mut PersistenceManager,
    ctx: &SecurityContext,
    realm_id: &str,
    resource_id: &str,
    claim_id: &str,
    role_id: &str,
    cc: &AssociationForm,
) -> (r: Result<usize, RbacError>)
    ensures
        !has_resource(
            *old(pm),
            realm_id@,
            resource_id@,
        ) ==> r is Err && r->Err_0 is NotFound && *final(pm) == *old(pm),
        has_resource(
            *old(pm),
            realm_id@,
            resource_id@,
        ) && !cc.readable() ==> r is Err && r->Err_0 is Custom && *final(pm) == *old(pm),
        has_resource(*old(pm), realm_id@, resource_id@) && cc.readable() ==> (
            exists|from: i64, to: i64| cc.frames(from, to) && #[trigger] ClaimClaimableRepository::add_outcome(
                old(pm).claim_claimable_repository,
                final(pm).claim_claimable_repository,
                *ctx,
                claim_id@,
                role_id@,
                Constants::Role.name(),
                cc.scope@,
                cc.constraints@,
                from,
                to,
                "Adding role to claim "@,
                r,
            )
        ) && same_but(*old(pm), *final(pm), Part::ClaimGrants),
        old(pm).wf() ==> final(pm).wf(),
{
    if !resource_exists(pm, ctx, realm_id, resource_id) {
        return Err(RbacError::NotFound("resource not found within realm".to_string()));
    }
    match cc.window() {
        Some((from, to)) => {
            let r = pm.claim_claimable_repository.add_role_to_claim(
                ctx,
                role_id,
                claim_id,
                cc.scope.as_str(),
                cc.constraints.as_str(),
                from,
                to,
            );
            proof {
                assert(
                    cc.frames(from, to) && ClaimClaimableRepository::add_outcome(
                        old(pm).claim_claimable_repository,
                        pm.claim_claimable_repository,
                        *ctx,
                        claim_id@,
                        role_id@,
                        Constants::Role.name(),
                        cc.scope@,
                        cc.constraints@,
                        from,
                        to,
                        "Adding role to claim "@,
                        r,
                    )
                );
            }
            r
        },
        None => Err(RbacError::Custom("effective_at and expired_at must be instants".to_string())),
    }
}

/// Revokes a claim on a resource of the realm from a role.
pub fn delete_role_from_claim(
    pm: &mut PersistenceManager,
    ctx: &SecurityContext,
    realm_id: &str,
    resource_id: &str,
    claim_id: &str,
    role_id: &str,
) -> (r: Result<usize, RbacError>)
    ensures
        !has_resource(
            *old(pm),
            realm_id@,
            resource_id@,
        ) ==> r is Err && r->Err_0 is NotFound && *final(pm) == *old(pm),
        has_resource(*old(pm), realm_id@, resource_id@) ==> ClaimClaimableRepository::remove_outcome(
            old(pm).claim_claimable_repository,
            final(pm).claim_claimable_repository,
            *ctx,
            claim_id@,
            role_id@,
            Constants::Role.name(),
            "Removing role from claim "@,
            r,
        ) && same_but(*old(pm), *final(pm), Part::ClaimGrants),
        old(pm).wf() ==> final(pm).wf(),
{
    if !resource_exists(pm, ctx, realm_id, resource_id) {
        return Err(RbacError::NotFound("resource not found within realm".to_string()));
    }
    pm.claim_claimable_repository.delete_role_from_claim(ctx, role_id, claim_id)
}

/// Grants a claim on a resource of the realm to a license policy, under the
/// scope and constraints and in the window that the form names.
pub fn add_license_to_claim(
    pm: &mut PersistenceManager,
    ctx: &SecurityContext,
    realm_id: &str,
    resource_id: &str,
    claim_id: &str,
    license_policy_id: &str,
    cc: &AssociationForm,
) -> (r: Result<usize, RbacError>)
    ensures
        !has_resource(
            *old(pm),
            realm_id@,
            resource_id@,
        ) ==> r is Err && r->Err_0 is NotFound && *final(pm) == *old(pm),
        has_resource(
            *old(pm),
            realm_id@,
            resource_id@,
        ) && !cc.readable() ==> r is Err && r->Err_0 is Custom && *final(pm) == *old(pm),
        has_resource(*old(pm), realm_id@, resource_id@) && cc.readable() ==> (
            exists|from: i64, to: i64| cc.frames(from, to) && #[trigger] ClaimClaimableRepository::add_outcome(
                old(pm).claim_claimable_repository,
                final(pm).claim_claimable_repository,
                *ctx,
                claim_id@,
                license_policy_id@,
                Constants::LicensePolicy.name(),
                cc.scope@,
                cc.constraints@,
                from,
                to,
                "Adding claim to license-policy "@,
                r,
            )
        ) && same_but(*old(pm), *final(pm), Part::ClaimGrants),
        old(pm).wf() ==> final(pm).wf(),
{
    if !resource_exists(pm, ctx, realm_id, resource_id) {
        return Err(RbacError::NotFound("resource not found within realm".to_string()));
    }
    match cc.window() {
        Some((from, to)) => {
            let r = pm.claim_claimable_repository.add_license_policy_to_claim(
                ctx,
                license_policy_id,
                claim_id,
                cc.scope.as_str(),
                cc.constraints.as_str(),
                from,
                to,
            );
            proof {
                assert(
                    cc.frames(from, to) && ClaimClaimableRepository::add_outcome(
                        old(pm).claim_claimable_repository,
                        pm.claim_claimable_repository,
                        *ctx,
                        claim_id@,
                        license_policy_id@,
                        Constants::LicensePolicy.name(),
                        cc.scope@,
                        cc.constraints@,
                        from,
                        to,
                        "Adding claim to license-policy "@,
                        r,
                    )
                );
            }
            r
        },
        None => Err(RbacError::Custom("effective_at and expired_at must be instants".to_string())),
    }
}

/// Revokes a claim on a resource of the realm from a license policy.
pub fn delete_license_from_claim(
    pm: &mut PersistenceManager,
    ctx: &SecurityContext,
    realm_id: &str,
    resource_id: &str,
    claim_id: &str,
    license_policy_id: &str,
) -> (r: Result<usize, RbacError>)
    ensures
        !has_resource(
            *old(pm),
            realm_id@,
            resource_id@,
        ) ==> r is Err && r->Err_0 is NotFound && *final(pm) == *old(pm),
        has_resource(*old(pm), realm_id@, resource_id@) ==> ClaimClaimableRepository::remove_outcome(
            old(pm).claim_claimable_repository,
            final(pm).claim_claimable_repository,
            *ctx,
            claim_id@,
            license_policy_id@,
            Constants::LicensePolicy.name(),
            "Removing claim from license-policy "@,
            r,
        ) && same_but(*old(pm), *final(pm), Part::ClaimGrants),
        old(pm).wf() ==> final(pm).wf(),
{
    if !resource_exists(pm, ctx, realm_id, resource_id) {
        return Err(RbacError::NotFound("resource not found within realm".to_string()));
    }
    pm.claim_claimable_repository.delete_license_policy_from_claim(ctx, license_policy_id, claim_id)
}

} // verus!
