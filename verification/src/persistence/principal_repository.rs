//! Principals: the users and services of an organization.

use vstd::prelude::*;

use crate::common::{RbacError, SecurityContext};
use crate::domain::models::Principal;
use crate::persistence::models::PPrincipal;
use crate::persistence::audit_record_repository::{logged, AuditRecordRepository};
use crate::persistence::table::{
    by_key, first_index, keys_unique, lemma_first_index, lemma_push_keeps_unique,
    lemma_remove_keeps_unique, lemma_update_keeps_unique, Record, Row, Table,
};
use crate::utils::clock;
use crate::utils::ids;
use crate::utils::text::same_text;

verus! {

impl Row for PPrincipal {
    open spec fn key(&self) -> Seq<char> {
        self.id@
    }

    fn has_key(&self, id: &str) -> (b: bool) {
        same_text(self.id.as_str(), id)
    }

    fn key_text(&self) -> (k: &str) {
        self.id.as_str()
    }
}

impl Record for PPrincipal {
    fn copy(&self) -> (r: Self) {
        self.clone()
    }
}

/// The row that is stored for `input` when it is created under `id`, at `now`,
/// by `by`.
pub open spec fn created_row(input: Principal, id: String, now: i64, by: String) -> PPrincipal {
    PPrincipal {
        id: id,
        organization_id: input.organization_id,
        username: input.username,
        description: input.description,
        created_by: Some(by),
        created_at: Some(now),
        updated_by: Some(by),
        updated_at: Some(now),
    }
}

/// The row `row` after an update with the fields of `input`, made at `now` by
/// `by`.
pub open spec fn updated_row(row: PPrincipal, input: Principal, now: i64, by: String) -> PPrincipal {
    PPrincipal {
        description: input.description,
        updated_by: Some(by),
        updated_at: Some(now),
        ..row
    }
}

/// The rows with the identifier `id`.
pub open spec fn scoped(id: Seq<char>) -> spec_fn(PPrincipal) -> bool {
    |x: PPrincipal| x.id@ == id
}

/// The principals of the organization `organization_id`.
pub open spec fn of_org(organization_id: Seq<char>) -> spec_fn(PPrincipal) -> bool {
    |x: PPrincipal| x.organization_id@ == organization_id
}

/// The principals of every organization.
pub struct PrincipalRepository {
    pub table: Table<PPrincipal>,
    pub audit_record_repository: AuditRecordRepository,
}

impl View for PrincipalRepository {
    type V = Seq<PPrincipal>;

    open spec fn view(&self) -> Seq<PPrincipal> {
        self.table@
    }
}

impl PrincipalRepository {
    /// No two rows have the same identifier.
    pub open spec fn wf(&self) -> bool {
        keys_unique(self@)
    }

    /// An empty repository with an empty audit trail.
    pub fn new() -> (r: Self)
        ensures
            r@ == Seq::<PPrincipal>::empty(),
            r.audit_record_repository@.len() == 0,
            r.wf(),
    {
        PrincipalRepository { table: Table::new(), audit_record_repository: AuditRecordRepository::new() }
    }

    /// Whether no two rows have the same identifier.
    pub fn is_wf(&self) -> (b: bool)
        ensures
            b == self.wf(),
    {
        self.table.has_unique_keys()
    }

    /// What creating `input` under `id` at `now` comes to: where a row with
    /// that identifier exists, nothing changes and the error is `Duplicate`;
    /// otherwise the new row is appended, returned, and the creation is
    /// entered in the audit trail.
    pub open spec fn create_outcome(
        before: Self,
        after: Self,
        ctx: SecurityContext,
        input: Principal,
        id: String,
        now: i64,
        r: Result<Principal, RbacError>,
    ) -> bool {
        match r {
            Ok(c) => {
                &&& !(first_index(before@, by_key::<PPrincipal>(id@)) is Some)
                &&& c.is_from(created_row(input, id, now, ctx.principal_id))
                &&& after@ == before@.push(created_row(input, id, now, ctx.principal_id))
                &&& logged(
                    before.audit_record_repository@,
                    after.audit_record_repository@,
                    ctx,
                    "CREATE"@,
                    "Created new principal "@ + id@,
                )
            },
            Err(e) => {
                &&& (first_index(before@, by_key::<PPrincipal>(id@)) is Some)
                &&& e is Duplicate
                &&& after@ == before@
                &&& after.audit_record_repository@ == before.audit_record_repository@
            },
        }
    }

    /// Stores `input` under a fresh identifier, stamped with the current time.
    /// The outcome is that of `create_with` for some identifier of 36
    /// characters and some instant.
    pub fn create(&mut self, ctx: &SecurityContext, input: &Principal) -> (r: Result<Principal, RbacError>)
        ensures
            exists|id: String, now: i64|
                id@.len() == ids::ID_LENGTH && Self::create_outcome(*old(self), *final(self), *ctx, *input, id, now, r),
            old(self).wf() ==> final(self).wf(),
    {
        let id = ids::new_id();
        let now = clock::now();
        let ghost chosen = id;
        let r = self.create_with(ctx, input, id, now);
        proof {
            assert(Self::create_outcome(*old(self), *self, *ctx, *input, chosen, now, r));
        }
        r
    }

    /// Stores `input` under the identifier `id`, stamped with `now`.
    pub fn create_with(&mut self, ctx: &SecurityContext, input: &Principal, id: String, now: i64) -> (r: Result<
        Principal,
        RbacError,
    >)
        ensures
            Self::create_outcome(*old(self), *final(self), *ctx, *input, id, now, r),
            old(self).wf() ==> final(self).wf(),
    {
        if self.table.position(id.as_str()).is_some() {
            return Err(RbacError::Duplicate("UNIQUE constraint failed: rbac_principals.id".to_string()));
        }
        let row = PPrincipal {
            id: id,
            organization_id: input.organization_id.clone(),
            username: input.username.clone(),
            description: input.description.clone(),
            created_by: Some(ctx.principal_id.clone()),
            created_at: Some(now),
            updated_by: Some(ctx.principal_id.clone()),
            updated_at: Some(now),
        };
        proof {
            if old(self).wf() {
                lemma_push_keeps_unique(old(self)@, row);
            }
        }
        let out = Principal::from(&row);
        self.table.push(row);
        self.audit_record_repository.log(ctx, "Created new principal ", out.id.as_str(), "CREATE");
        Ok(out)
    }

    /// A row that was created is read back: after a creation that succeeded,
    /// the first row with the new identifier is the row that was stored, which
    /// `get` therefore returns with every field as it was returned by the
    /// creation.
    pub proof fn lemma_created_is_read_back(
        before: Self,
        after: Self,
        ctx: SecurityContext,
        input: Principal,
        id: String,
        now: i64,
        r: Result<Principal, RbacError>,
    )
        requires
            Self::create_outcome(before, after, ctx, input, id, now, r),
            r is Ok,
        ensures
            first_index(after@, scoped(id@)) == Some(before@.len() as int),
            after@[before@.len() as int] == created_row(input, id, now, ctx.principal_id),
    {
        let key = scoped(id@);
        lemma_first_index(before@, by_key::<PPrincipal>(id@));
        assert forall|j: int| 0 <= j < before@.len() implies !key(after@[j]) by {
            assert(after@[j] == before@[j]);
            assert(!by_key::<PPrincipal>(id@)(before@[j]));
        }
        crate::persistence::table::lemma_first_index_is(after@, key, before@.len() as int);
    }

    /// What updating with `input` at `now` comes to: where no row has its
    /// identifier, nothing changes and the error is `NotFound`; otherwise the
    /// first such row takes the fields that an update may change, is returned,
    /// and the update is entered in the audit trail.
    pub open spec fn update_outcome(
        before: Self,
        after: Self,
        ctx: SecurityContext,
        input: Principal,
        now: i64,
        r: Result<Principal, RbacError>,
    ) -> bool {
        let found = first_index(before@, scoped(input.id@));
        match r {
            Ok(c) => {
                &&& found is Some
                &&& c.is_from(updated_row(before@[found->0], input, now, ctx.principal_id))
                &&& after@ == before@.update(found->0, updated_row(before@[found->0], input, now, ctx.principal_id))
                &&& logged(
                    before.audit_record_repository@,
                    after.audit_record_repository@,
                    ctx,
                    "UPDATE"@,
                    "Updated principal "@ + input.id@,
                )
            },
            Err(e) => {
                &&& found is None
                &&& e is NotFound
                &&& after@ == before@
                &&& after.audit_record_repository@ == before.audit_record_repository@
            },
        }
    }

    /// Updates the row of `input`, stamped with the current time. The outcome
    /// is that of `update_at` for some instant.
    pub fn update(&mut self, ctx: &SecurityContext, input: &Principal) -> (r: Result<Principal, RbacError>)
        ensures
            exists|now: i64| Self::update_outcome(*old(self), *final(self), *ctx, *input, now, r),
            old(self).wf() ==> final(self).wf(),
    {
        let now = clock::now();
        let r = self.update_at(ctx, input, now);
        proof {
            assert(Self::update_outcome(*old(self), *self, *ctx, *input, now, r));
        }
        r
    }

    /// Updates the row of `input`, stamped with `now`.
    pub fn update_at(
        &mut self,
        ctx: &SecurityContext,
        input: &Principal,
        now: i64,
    ) -> (r: Result<Principal, RbacError>)
        ensures
            Self::update_outcome(*old(self), *final(self), *ctx, *input, now, r),
            old(self).wf() ==> final(self).wf(),
    {
        let found = self.table.first(
            |x: &PPrincipal| -> (b: bool) ensures b == scoped(input.id@)(*x) { same_text(x.id.as_str(), input.id.as_str()) },
            Ghost(scoped(input.id@)),
        );
        match found {
            Some(i) => {
                proof {
                    lemma_first_index(self@, scoped(input.id@));
                }
                let mut row = self.table.rows[i].copy();
                row.description = input.description.clone();
                row.updated_by = Some(ctx.principal_id.clone());
                row.updated_at = Some(now);
                proof {
                    assert(row == updated_row(old(self)@[i as int], *input, now, ctx.principal_id));
                    if old(self).wf() {
                        lemma_update_keeps_unique(old(self)@, i as int, row);
                    }
                }
                let out = Principal::from(&row);
                self.table.put(i, row);
                self.audit_record_repository.log(ctx, "Updated principal ", input.id.as_str(), "UPDATE");
                Ok(out)
            },
            None => Err(RbacError::NotFound("Principal not found".to_string())),
        }
    }

    /// The first row with the identifier `id`.
    pub fn get(&self, _ctx: &SecurityContext, id: &str) -> (r: Option<Principal>)
        ensures
            match r {
                Some(c) => first_index(self@, scoped(id@)) is Some && c.is_from(
                    self@[first_index(self@, scoped(id@))->0]
                ),
                None => first_index(self@, scoped(id@)) is None,
            },
    {
        let found = self.table.first(
            |x: &PPrincipal| -> (b: bool) ensures b == scoped(id@)(*x) { same_text(x.id.as_str(), id) },
            Ghost(scoped(id@)),
        );
        match found {
            Some(i) => {
                proof {
                    lemma_first_index(self@, scoped(id@));
                }
                Some(Principal::from(&self.table.rows[i]))
            },
            None => None,
        }
    }

    /// The stored rows of the principals of an organization, in the order of
    /// their creation.
    pub fn _get_by_org(&self, organization_id: &str) -> (out: Vec<PPrincipal>)
        ensures
            out@ == self@.filter(of_org(organization_id@)),
    {
        self.table.select(
            |x: &PPrincipal| -> (b: bool) ensures b == of_org(organization_id@)(*x) { same_text(x.organization_id.as_str(), organization_id) },
            Ghost(of_org(organization_id@)),
        )
    }

    /// What deleting the row with the identifier `id` comes to: the first such
    /// row is removed and the count is one, or there is none, nothing is
    /// removed and the count is zero; either way the deletion is entered in
    /// the audit trail.
    pub open spec fn delete_outcome(
        before: Self,
        after: Self,
        ctx: SecurityContext,
        id: Seq<char>,
        r: Result<usize,
        RbacError>,
    ) -> bool {
        let found = first_index(before@, scoped(id));
        &&& r is Ok
        &&& match found {
            Some(i) => r->Ok_0 == 1 && after@ == before@.remove(i),
            None => r->Ok_0 == 0 && after@ == before@,
        }
        &&& logged(
            before.audit_record_repository@,
            after.audit_record_repository@,
            ctx,
            "DELETE"@,
            "Deleted principal "@ + id,
        )
    }

    /// Deletes the row with the identifier `id` and returns the number of rows
    /// deleted.
    pub fn delete(&mut self, ctx: &SecurityContext, id: &str) -> (r: Result<usize, RbacError>)
        ensures
            Self::delete_outcome(*old(self), *final(self), *ctx, id@, r),
            old(self).wf() ==> final(self).wf(),
            old(self).wf() ==> first_index(final(self)@, scoped(id@)) is None,
    {
        let found = self.table.first(
            |x: &PPrincipal| -> (b: bool) ensures b == scoped(id@)(*x) { same_text(x.id.as_str(), id) },
            Ghost(scoped(id@)),
        );
        let n: usize = match found {
            Some(i) => {
                proof {
                    lemma_first_index(self@, scoped(id@));
                    if old(self).wf() {
                        lemma_remove_keeps_unique(old(self)@, i as int);
                        lemma_first_index(old(self)@.remove(i as int), by_key::<PPrincipal>(id@));
                        crate::persistence::table::lemma_first_index_none(old(self)@.remove(i as int), scoped(id@));
                    }
                }
                self.table.remove_at(i);
                1
            },
            None => 0,
        };
        self.audit_record_repository.log(ctx, "Deleted principal ", id, "DELETE");
        Ok(n)
    }

    /// Removes every row; the audit trail stays.
    pub fn clear(&mut self)
        ensures
            final(self)@ == Seq::<PPrincipal>::empty(),
            final(self).audit_record_repository == old(self).audit_record_repository,
            final(self).wf(),
    {
        self.table.clear();
    }

    /// The principals of an organization, in the order of their creation.
    pub fn get_by_org(&self, _ctx: &SecurityContext, organization_id: &str) -> (out: Vec<Principal>)
        ensures
            out@.len() == self@.filter(of_org(organization_id@)).len(),
            forall|i: int| 0 <= i < out@.len() ==> (#[trigger] out@[i]).is_from(
                self@.filter(of_org(organization_id@))[i]
            ),
    {
        let rows = self._get_by_org(organization_id);
        let mut out: Vec<Principal> = Vec::new();
        let mut i: usize = 0;
        while i < rows.len()
            invariant
                i <= rows@.len(),
                out@.len() == i,
                forall|k: int| 0 <= k < i ==> (#[trigger] out@[k]).is_from(rows@[k]),
            decreases rows@.len() - i,
        {
            out.push(Principal::from(&rows[i]));
            i += 1;
        }
        out
    }
}

} // verus!
