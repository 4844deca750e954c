//! Resource instances: the accounted uses of resources.
//!
//! An instance is created through the persistence manager, which holds the
//! creation to the quota; `_create` stores without asking.

use vstd::prelude::*;

use crate::common::{RbacError, SecurityContext};
use crate::domain::models::ResourceInstance;
use crate::persistence::audit_record_repository::{logged, AuditRecordRepository};
use crate::persistence::table::{
    by_key, first_index, keys_unique, lemma_first_index, lemma_push_keeps_unique,
    lemma_remove_keeps_unique, lemma_update_keeps_unique, Record, Row, Table,
};
use crate::utils::clock;
use crate::utils::ids;
use crate::utils::text::same_text;

verus! {

impl Row for ResourceInstance {
    open spec fn key(&self) -> Seq<char> {
        self.id@
    }

    fn has_key(&self, id: &str) -> (b: bool) {
        same_text(self.id.as_str(), id)
    }

    fn key_text(&self) -> (k: &str) {
        self.id.as_str()
    }
}

impl Record for ResourceInstance {
    fn copy(&self) -> (r: Self) {
        self.clone()
    }
}

/// The row that is stored for `input` when it is created under `id`, at `now`,
/// by `by`.
pub open spec fn created_row(input: ResourceInstance, id: String, now: i64, by: String) -> ResourceInstance {
    ResourceInstance {
        id: id,
        created_by: Some(by),
        created_at: Some(now),
        updated_by: Some(by),
        updated_at: Some(now),
        ..input
    }
}

/// The row `row` after an update with the fields of `input`, made at `now` by
/// `by`.
pub open spec fn updated_row(
    row: ResourceInstance,
    input: ResourceInstance,
    now: i64,
    by: String,
) -> ResourceInstance {
    ResourceInstance {
        status: input.status,
        description: input.description,
        updated_by: Some(by),
        updated_at: Some(now),
        ..row
    }
}

/// The rows with the identifier `id`.
pub open spec fn scoped(id: Seq<char>) -> spec_fn(ResourceInstance) -> bool {
    |x: ResourceInstance| x.id@ == id
}

/// The instances of the resource `resource_id`.
pub open spec fn of_resource(resource_id: Seq<char>) -> spec_fn(ResourceInstance) -> bool {
    |x: ResourceInstance| x.resource_id@ == resource_id
}

/// The instances of the resource `resource_id` under the scope `scope`.
pub open spec fn of_resource_scope(resource_id: Seq<char>, scope: Seq<char>) -> spec_fn(ResourceInstance) -> bool {
    |x: ResourceInstance| x.resource_id@ == resource_id && x.scope@ == scope
}

/// The instances of the resource `resource_id` under `scope` with the status
/// `status`.
pub open spec fn with_status(
    resource_id: Seq<char>,
    scope: Seq<char>,
    status: Seq<char>,
) -> spec_fn(ResourceInstance) -> bool {
    |x: ResourceInstance| x.resource_id@ == resource_id && x.scope@ == scope && x.status@ == status
}

/// The instances of the resource `resource_id` under `scope` with the status
/// `status` that were created no more than an hour before `now`.
pub open spec fn recent_with_status(
    resource_id: Seq<char>,
    scope: Seq<char>,
    status: Seq<char>,
    now: i64,
) -> spec_fn(ResourceInstance) -> bool {
    |x: ResourceInstance| x.resource_id@ == resource_id
        && x.scope@ == scope
        && x.status@ == status
        && x.created_at is Some
        && x.created_at->0 >= now - clock::RECENT_WINDOW_SECS
}

/// The resource instances.
pub struct ResourceInstanceRepository {
    pub table: Table<ResourceInstance>,
    pub audit_record_repository: AuditRecordRepository,
}

impl View for ResourceInstanceRepository {
    type V = Seq<ResourceInstance>;

    open spec fn view(&self) -> Seq<ResourceInstance> {
        self.table@
    }
}

impl ResourceInstanceRepository {
    /// No two rows have the same identifier.
    pub open spec fn wf(&self) -> bool {
        keys_unique(self@)
    }

    /// An empty repository with an empty audit trail.
    pub fn new() -> (r: Self)
        ensures
            r@ == Seq::<ResourceInstance>::empty(),
            r.audit_record_repository@.len() == 0,
            r.wf(),
    {
        ResourceInstanceRepository { table: Table::new(), audit_record_repository: AuditRecordRepository::new() }
    }

    /// Whether no two rows have the same identifier.
    pub fn is_wf(&self) -> (b: bool)
        ensures
            b == self.wf(),
    {
        self.table.has_unique_keys()
    }

    /// What creating `input` under `id` at `now` comes to: where a row with
    /// that identifier exists, nothing changes and the error is `Duplicate`;
    /// otherwise the new row is appended, returned, and the creation is
    /// entered in the audit trail.
    pub open spec fn create_outcome(
        before: Self,
        after: Self,
        ctx: SecurityContext,
        input: ResourceInstance,
        id: String,
        now: i64,
        r: Result<ResourceInstance, RbacError>,
    ) -> bool {
        match r {
            Ok(c) => {
                &&& !(first_index(before@, by_key::<ResourceInstance>(id@)) is Some)
                &&& c == created_row(input, id, now, ctx.principal_id)
                &&& after@ == before@.push(created_row(input, id, now, ctx.principal_id))
                &&& logged(
                    before.audit_record_repository@,
                    after.audit_record_repository@,
                    ctx,
                    "CREATE"@,
                    "Adding new resource instance "@ + id@,
                )
            },
            Err(e) => {
                &&& (first_index(before@, by_key::<ResourceInstance>(id@)) is Some)
                &&& e is Duplicate
                &&& after@ == before@
                &&& after.audit_record_repository@ == before.audit_record_repository@
            },
        }
    }

    /// Stores `input` under a fresh identifier, stamped with the current time.
    /// The outcome is that of `_create_with` for some identifier of 36
    /// characters and some instant.
    pub fn _create(
        &mut self,
        ctx: &SecurityContext,
        input: &ResourceInstance,
    ) -> (r: Result<ResourceInstance, RbacError>)
        ensures
            exists|id: String, now: i64|
                id@.len() == ids::ID_LENGTH && Self::create_outcome(*old(self), *final(self), *ctx, *input, id, now, r),
            old(self).wf() ==> final(self).wf(),
    {
        let id = ids::new_id();
        let now = clock::now();
        let ghost chosen = id;
        let r = self._create_with(ctx, input, id, now);
        proof {
            assert(Self::create_outcome(*old(self), *self, *ctx, *input, chosen, now, r));
        }
        r
    }

    /// Stores `input` under the identifier `id`, stamped with `now`.
    pub fn _create_with(
        &mut self,
        ctx: &SecurityContext,
        input: &ResourceInstance,
        id: String,
        now: i64,
    ) -> (r: Result<
        ResourceInstance,
        RbacError,
    >)
        ensures
            Self::create_outcome(*old(self), *final(self), *ctx, *input, id, now, r),
            old(self).wf() ==> final(self).wf(),
    {
        if self.table.position(id.as_str()).is_some() {
            return Err(RbacError::Duplicate("UNIQUE constraint failed: rbac_resource_instances.id".to_string()));
        }
        let row = ResourceInstance {
            id: id,
            resource_id: input.resource_id.clone(),
            license_policy_id: input.license_policy_id.clone(),
            scope: input.scope.clone(),
            ref_id: input.ref_id.clone(),
            status: input.status.clone(),
            description: input.description.clone(),
            created_by: Some(ctx.principal_id.clone()),
            created_at: Some(now),
            updated_by: Some(ctx.principal_id.clone()),
            updated_at: Some(now),
        };
        proof {
            if old(self).wf() {
                lemma_push_keeps_unique(old(self)@, row);
            }
        }
        let out = row.clone();
        self.table.push(row);
        self.audit_record_repository.log(ctx, "Adding new resource instance ", out.id.as_str(), "CREATE");
        Ok(out)
    }

    /// A row that was created is read back: after a creation that succeeded,
    /// the first row with the new identifier is the row that was stored, which
    /// `get` therefore returns with every field as it was returned by the
    /// creation.
    pub proof fn lemma_created_is_read_back(
        before: Self,
        after: Self,
        ctx: SecurityContext,
        input: ResourceInstance,
        id: String,
        now: i64,
        r: Result<ResourceInstance, RbacError>,
    )
        requires
            Self::create_outcome(before, after, ctx, input, id, now, r),
            r is Ok,
        ensures
            first_index(after@, scoped(id@)) == Some(before@.len() as int),
            after@[before@.len() as int] == r->Ok_0,
    {
        let key = scoped(id@);
        lemma_first_index(before@, by_key::<ResourceInstance>(id@));
        assert forall|j: int| 0 <= j < before@.len() implies !key(after@[j]) by {
            assert(after@[j] == before@[j]);
            assert(!by_key::<ResourceInstance>(id@)(before@[j]));
        }
        crate::persistence::table::lemma_first_index_is(after@, key, before@.len() as int);
    }

    /// What updating with `input` at `now` comes to: where no row has its
    /// identifier, nothing changes and the error is `NotFound`; otherwise the
    /// first such row takes the fields that an update may change, is returned,
    /// and the update is entered in the audit trail.
    pub open spec fn update_outcome(
        before: Self,
        after: Self,
        ctx: SecurityContext,
        input: ResourceInstance,
        now: i64,
        r: Result<ResourceInstance, RbacError>,
    ) -> bool {
        let found = first_index(before@, scoped(input.id@));
        match r {
            Ok(c) => {
                &&& found is Some
                &&& c == updated_row(before@[found->0], input, now, ctx.principal_id)
                &&& after@ == before@.update(found->0, updated_row(before@[found->0], input, now, ctx.principal_id))
                &&& logged(
                    before.audit_record_repository@,
                    after.audit_record_repository@,
                    ctx,
                    "UPDATE"@,
                    "Updated resource instance "@ + input.id@,
                )
            },
            Err(e) => {
                &&& found is None
                &&& e is NotFound
                &&& after@ == before@
                &&& after.audit_record_repository@ == before.audit_record_repository@
            },
        }
    }

    /// Updates the row of `input`, stamped with the current time. The outcome
    /// is that of `update_at` for some instant.
    pub fn update(
        &mut self,
        ctx: &SecurityContext,
        input: &ResourceInstance,
    ) -> (r: Result<ResourceInstance, RbacError>)
        ensures
            exists|now: i64| Self::update_outcome(*old(self), *final(self), *ctx, *input, now, r),
            old(self).wf() ==> final(self).wf(),
    {
        let now = clock::now();
        let r = self.update_at(ctx, input, now);
        proof {
            assert(Self::update_outcome(*old(self), *self, *ctx, *input, now, r));
        }
        r
    }

    /// Updates the row of `input`, stamped with `now`.
    pub fn update_at(
        &mut self,
        ctx: &SecurityContext,
        input: &ResourceInstance,
        now: i64,
    ) -> (r: Result<ResourceInstance, RbacError>)
        ensures
            Self::update_outcome(*old(self), *final(self), *ctx, *input, now, r),
            old(self).wf() ==> final(self).wf(),
    {
        let found = self.table.first(
            |x: &ResourceInstance| -> (b: bool) ensures b == scoped(input.id@)(*x) { same_text(x.id.as_str(), input.id.as_str()) },
            Ghost(scoped(input.id@)),
        );
        match found {
            Some(i) => {
                proof {
                    lemma_first_index(self@, scoped(input.id@));
                }
                let mut row = self.table.rows[i].copy();
                row.status = input.status.clone();
                row.description = input.description.clone();
                row.updated_by = Some(ctx.principal_id.clone());
                row.updated_at = Some(now);
                proof {
                    assert(row == updated_row(old(self)@[i as int], *input, now, ctx.principal_id));
                    if old(self).wf() {
                        lemma_update_keeps_unique(old(self)@, i as int, row);
                    }
                }
                let out = row.clone();
                self.table.put(i, row);
                self.audit_record_repository.log(ctx, "Updated resource instance ", input.id.as_str(), "UPDATE");
                Ok(out)
            },
            None => Err(RbacError::NotFound("Resource instance not found".to_string())),
        }
    }

    /// The first row with the identifier `id`.
    pub fn get(&self, _ctx: &SecurityContext, id: &str) -> (r: Option<ResourceInstance>)
        ensures
            match r {
                Some(c) => first_index(self@, scoped(id@)) is Some && c == self@[first_index(self@, scoped(id@))->0],
                None => first_index(self@, scoped(id@)) is None,
            },
    {
        let found = self.table.first(
            |x: &ResourceInstance| -> (b: bool) ensures b == scoped(id@)(*x) { same_text(x.id.as_str(), id) },
            Ghost(scoped(id@)),
        );
        match found {
            Some(i) => {
                proof {
                    lemma_first_index(self@, scoped(id@));
                }
                Some(self.table.rows[i].copy())
            },
            None => None,
        }
    }

    /// The instances of a resource, in the order of their creation.
    pub fn get_by_resource(&self, _ctx: &SecurityContext, resource_id: &str) -> (out: Vec<ResourceInstance>)
        ensures
            out@ == self@.filter(of_resource(resource_id@)),
    {
        self.table.select(
            |x: &ResourceInstance| -> (b: bool) ensures b == of_resource(resource_id@)(*x) { same_text(x.resource_id.as_str(), resource_id) },
            Ghost(of_resource(resource_id@)),
        )
    }

    /// The instances of a resource under a scope, in the order of their
    /// creation.
    pub fn _get_by_resource_scope(&self, resource_id: &str, scope: &str) -> (out: Vec<ResourceInstance>)
        ensures
            out@ == self@.filter(of_resource_scope(resource_id@, scope@)),
    {
        self.table.select(
            |x: &ResourceInstance| -> (b: bool) ensures b == of_resource_scope(resource_id@, scope@)(*x) { same_text(x.resource_id.as_str(), resource_id) && same_text(x.scope.as_str(), scope) },
            Ghost(of_resource_scope(resource_id@, scope@)),
        )
    }

    /// The number of instances of a resource under a scope that have the given
    /// status.
    pub fn count_by_resource(&self, resource_id: &str, scope: &str, status: &str) -> (n: usize)
        ensures
            n == self@.filter(with_status(resource_id@, scope@, status@)).len(),
    {
        self.table.count(
            |x: &ResourceInstance| -> (b: bool) ensures b == with_status(resource_id@, scope@, status@)(*x) { same_text(x.resource_id.as_str(), resource_id) && same_text(x.scope.as_str(), scope) && same_text(x.status.as_str(), status) },
            Ghost(with_status(resource_id@, scope@, status@)),
        )
    }

    /// The number of instances of a resource under a scope that have the given
    /// status and were created within the last hour before `now`. The instant
    /// is read from the clock.
    pub fn count_recent_by_resource(&self, resource_id: &str, scope: &str, status: &str) -> (n: usize)
        ensures
            exists|now: i64| n == self@.filter(recent_with_status(resource_id@, scope@, status@, now)).len(),
    {
        let now = clock::now();
        self.count_recent_by_resource_at(resource_id, scope, status, now)
    }

    /// The number of instances of a resource under a scope that have the given
    /// status and were created within the last hour before `now`.
    pub fn count_recent_by_resource_at(&self, resource_id: &str, scope: &str, status: &str, now: i64) -> (n: usize)
        ensures
            n == self@.filter(recent_with_status(resource_id@, scope@, status@, now)).len(),
    {
        self.table.count(
            |x: &ResourceInstance| -> (b: bool) ensures b == recent_with_status(resource_id@, scope@, status@, now)(*x) { same_text(x.resource_id.as_str(), resource_id) && same_text(x.scope.as_str(), scope) && same_text(x.status.as_str(), status) && created_since(x, now) },
            Ghost(recent_with_status(resource_id@, scope@, status@, now)),
        )
    }

    /// What deleting the row with the identifier `id` comes to: the first such
    /// row is removed and the count is one, or there is none, nothing is
    /// removed and the count is zero; either way the deletion is entered in
    /// the audit trail.
    pub open spec fn delete_outcome(
        before: Self,
        after: Self,
        ctx: SecurityContext,
        id: Seq<char>,
        r: Result<usize,
        RbacError>,
    ) -> bool {
        let found = first_index(before@, scoped(id));
        &&& r is Ok
        &&& match found {
            Some(i) => r->Ok_0 == 1 && after@ == before@.remove(i),
            None => r->Ok_0 == 0 && after@ == before@,
        }
        &&& logged(
            before.audit_record_repository@,
            after.audit_record_repository@,
            ctx,
            "DELETE"@,
            "Deleted resource instance "@ + id,
        )
    }

    /// Deletes the row with the identifier `id` and returns the number of rows
    /// deleted.
    pub fn delete(&mut self, ctx: &SecurityContext, id: &str) -> (r: Result<usize, RbacError>)
        ensures
            Self::delete_outcome(*old(self), *final(self), *ctx, id@, r),
            old(self).wf() ==> final(self).wf(),
            old(self).wf() ==> first_index(final(self)@, scoped(id@)) is None,
    {
        let found = self.table.first(
            |x: &ResourceInstance| -> (b: bool) ensures b == scoped(id@)(*x) { same_text(x.id.as_str(), id) },
            Ghost(scoped(id@)),
        );
        let n: usize = match found {
            Some(i) => {
                proof {
                    lemma_first_index(self@, scoped(id@));
                    if old(self).wf() {
                        lemma_remove_keeps_unique(old(self)@, i as int);
                        lemma_first_index(old(self)@.remove(i as int), by_key::<ResourceInstance>(id@));
                        crate::persistence::table::lemma_first_index_none(old(self)@.remove(i as int), scoped(id@));
                    }
                }
                self.table.remove_at(i);
                1
            },
            None => 0,
        };
        self.audit_record_repository.log(ctx, "Deleted resource instance ", id, "DELETE");
        Ok(n)
    }

    /// Removes every row; the audit trail stays.
    pub fn clear(&mut self)
        ensures
            final(self)@ == Seq::<ResourceInstance>::empty(),
            final(self).audit_record_repository == old(self).audit_record_repository,
            final(self).wf(),
    {
        self.table.clear();
    }
}

/// Whether the instance was created no more than an hour before `now`.
fn created_since(x: &ResourceInstance, now: i64) -> (b: bool)
    ensures
        b == (x.created_at is Some && x.created_at->0 >= now - clock::RECENT_WINDOW_SECS),
{
    match x.created_at {
        Some(at) => {
            if now >= i64::MIN + clock::RECENT_WINDOW_SECS {
                at >= now - clock::RECENT_WINDOW_SECS
            } else {
                true
            }
        },
        None => false,
    }
}

} // verus!
