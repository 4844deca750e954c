//! License policies: the entitlements of organizations. An organization has at
//! most one license policy in force at a time.

use vstd::prelude::*;

use crate::common::{RbacError, SecurityContext};
use crate::domain::models::LicensePolicy;
use crate::persistence::audit_record_repository::{logged, AuditRecordRepository};
use crate::persistence::table::{
    by_key, first_index, keys_unique, lemma_first_index, lemma_push_keeps_unique,
    lemma_remove_keeps_unique, lemma_update_keeps_unique, Record, Row, Table,
};
use crate::utils::clock;
use crate::utils::ids;
use crate::utils::text::same_text;

verus! {

impl Row for LicensePolicy {
    open spec fn key(&self) -> Seq<char> {
        self.id@
    }

    fn has_key(&self, id: &str) -> (b: bool) {
        same_text(self.id.as_str(), id)
    }

    fn key_text(&self) -> (k: &str) {
        self.id.as_str()
    }
}

impl Record for LicensePolicy {
    fn copy(&self) -> (r: Self) {
        self.clone()
    }
}

/// The row that is stored for `input` when it is created under `id`, at `now`,
/// by `by`.
pub open spec fn created_row(input: LicensePolicy, id: String, now: i64, by: String) -> LicensePolicy {
    LicensePolicy {
        id: id,
        created_by: Some(by),
        created_at: Some(now),
        updated_by: Some(by),
        updated_at: Some(now),
        ..input
    }
}

/// The row `row` after an update with the fields of `input`, made at `now` by
/// `by`.
pub open spec fn updated_row(row: LicensePolicy, input: LicensePolicy, now: i64, by: String) -> LicensePolicy {
    LicensePolicy {
        effective_at: input.effective_at,
        expired_at: input.expired_at,
        description: input.description,
        updated_by: Some(by),
        updated_at: Some(now),
        ..row
    }
}

/// The rows with the identifier `id` in the organization.
pub open spec fn scoped(org_id: Seq<char>, id: Seq<char>) -> spec_fn(LicensePolicy) -> bool {
    |x: LicensePolicy| x.id@ == id && x.organization_id@ == org_id
}

/// The license policies of the organization `organization_id` that are in
/// force at `now`.
pub open spec fn active_of_org(organization_id: Seq<char>, now: i64) -> spec_fn(LicensePolicy) -> bool {
    |x: LicensePolicy| x.organization_id@ == organization_id && x.effective_at <= now <= x.expired_at
}

/// The license policies of every organization.
pub struct LicensePolicyRepository {
    pub table: Table<LicensePolicy>,
    pub audit_record_repository: AuditRecordRepository,
}

impl View for LicensePolicyRepository {
    type V = Seq<LicensePolicy>;

    open spec fn view(&self) -> Seq<LicensePolicy> {
        self.table@
    }
}

impl LicensePolicyRepository {
    /// No two rows have the same identifier.
    pub open spec fn wf(&self) -> bool {
        keys_unique(self@)
    }

    /// An empty repository with an empty audit trail.
    pub fn new() -> (r: Self)
        ensures
            r@ == Seq::<LicensePolicy>::empty(),
            r.audit_record_repository@.len() == 0,
            r.wf(),
    {
        LicensePolicyRepository { table: Table::new(), audit_record_repository: AuditRecordRepository::new() }
    }

    /// Whether no two rows have the same identifier.
    pub fn is_wf(&self) -> (b: bool)
        ensures
            b == self.wf(),
    {
        self.table.has_unique_keys()
    }

    /// What creating `input` under `id` at `now` comes to. Where the
    /// organization has a license policy in force at `now`, nothing is stored,
    /// the refusal is entered in the audit trail and the error is `Duplicate`.
    /// Where a row with the identifier exists, nothing changes and the error
    /// is `Duplicate`. Otherwise the new row is appended, returned, and the
    /// creation is entered in the audit trail.
    pub open spec fn create_outcome(
        before: Self,
        after: Self,
        ctx: SecurityContext,
        input: LicensePolicy,
        id: String,
        now: i64,
        r: Result<LicensePolicy, RbacError>,
    ) -> bool {
        if before@.filter(active_of_org(input.organization_id@, now)).len() > 0 {
            &&& r is Err
            &&& r->Err_0 is Duplicate
            &&& after@ == before@
            &&& logged(
                before.audit_record_repository@,
                after.audit_record_repository@,
                ctx,
                "CREATE"@,
                "License policy already exist for "@ + input.organization_id@,
            )
        } else if first_index(before@, by_key::<LicensePolicy>(id@)) is Some {
            &&& r is Err
            &&& r->Err_0 is Duplicate
            &&& after@ == before@
            &&& after.audit_record_repository@ == before.audit_record_repository@
        } else {
            &&& r is Ok
            &&& r->Ok_0 == created_row(input, id, now, ctx.principal_id)
            &&& after@ == before@.push(created_row(input, id, now, ctx.principal_id))
            &&& logged(
                before.audit_record_repository@,
                after.audit_record_repository@,
                ctx,
                "CREATE"@,
                "Adding new license-policy "@ + id@,
            )
        }
    }

    /// Stores `input` under a fresh identifier, stamped with the current time.
    /// The outcome is that of `create_with` for some identifier of 36
    /// characters and some instant.
    pub fn create(&mut self, ctx: &SecurityContext, input: &LicensePolicy) -> (r: Result<LicensePolicy, RbacError>)
        ensures
            exists|id: String, now: i64|
                id@.len() == ids::ID_LENGTH && Self::create_outcome(*old(self), *final(self), *ctx, *input, id, now, r),
            old(self).wf() ==> final(self).wf(),
    {
        let id = ids::new_id();
        let now = clock::now();
        let ghost chosen = id;
        let r = self.create_with(ctx, input, id, now);
        proof {
            assert(Self::create_outcome(*old(self), *self, *ctx, *input, chosen, now, r));
        }
        r
    }

    /// Stores `input` under the identifier `id`, stamped with `now`, unless
    /// its organization has a license policy in force at `now`.
    pub fn create_with(&mut self, ctx: &SecurityContext, input: &LicensePolicy, id: String, now: i64) -> (r: Result<
        LicensePolicy,
        RbacError,
    >)
        ensures
            Self::create_outcome(*old(self), *final(self), *ctx, *input, id, now, r),
            old(self).wf() ==> final(self).wf(),
    {
        if self.count_by_org_at(input.organization_id.as_str(), now) > 0 {
            self.audit_record_repository.log(
                ctx,
                "License policy already exist for ",
                input.organization_id.as_str(),
                "CREATE",
            );
            return Err(RbacError::Duplicate("License policy already exist".to_string()));
        }
        if self.table.position(id.as_str()).is_some() {
            return Err(RbacError::Duplicate("UNIQUE constraint failed: rbac_license_policies.id".to_string()));
        }
        let row = LicensePolicy {
            id: id,
            organization_id: input.organization_id.clone(),
            name: input.name.clone(),
            description: input.description.clone(),
            effective_at: input.effective_at,
            expired_at: input.expired_at,
            created_by: Some(ctx.principal_id.clone()),
            created_at: Some(now),
            updated_by: Some(ctx.principal_id.clone()),
            updated_at: Some(now),
        };
        proof {
            if old(self).wf() {
                lemma_push_keeps_unique(old(self)@, row);
            }
        }
        let out = row.clone();
        self.table.push(row);
        self.audit_record_repository.log(ctx, "Adding new license-policy ", out.id.as_str(), "CREATE");
        Ok(out)
    }

    /// The number of license policies of an organization that are in force at
    /// `now`.
    pub fn count_by_org_at(&self, org_id: &str, now: i64) -> (n: usize)
        ensures
            n == self@.filter(active_of_org(org_id@, now)).len(),
    {
        self.table.count(
            |x: &LicensePolicy| -> (b: bool) ensures b == active_of_org(org_id@, now)(*x) { same_text(x.organization_id.as_str(), org_id) && x.effective_at <= now && now <= x.expired_at },
            Ghost(active_of_org(org_id@, now)),
        )
    }

    /// What updating with `input` at `now` comes to. Where no row has its
    /// identifier in its organization, nothing changes and the error is
    /// `NotFound`. Where the organization would have more than one license
    /// policy in force at `now` once the first such row had taken the fields
    /// that an update may change, the rows stay as they were, the refusal is
    /// entered in the audit trail and the error is `Duplicate`. Otherwise the
    /// row takes those fields, the update is entered in the audit trail and
    /// the updated row is returned.
    pub open spec fn update_outcome(
        before: Self,
        after: Self,
        ctx: SecurityContext,
        input: LicensePolicy,
        now: i64,
        r: Result<LicensePolicy, RbacError>,
    ) -> bool {
        let found = first_index(before@, scoped(input.organization_id@, input.id@));
        match found {
            None => {
                &&& r is Err
                &&& r->Err_0 is NotFound
                &&& after@ == before@
                &&& after.audit_record_repository@ == before.audit_record_repository@
            },
            Some(i) => {
                let row = updated_row(before@[i], input, now, ctx.principal_id);
                let log = after.audit_record_repository@;
                if before@.update(i, row).filter(active_of_org(input.organization_id@, now)).len() > 1 {
                    &&& r is Err
                    &&& r->Err_0 is Duplicate
                    &&& after@ == before@
                    &&& logged(
                        before.audit_record_repository@,
                        log,
                        ctx,
                        "UPDATE"@,
                        "Multiple license policies exist for "@ + input.organization_id@,
                    )
                } else {
                    &&& after@ == before@.update(i, row)
                    &&& r is Ok
                    &&& r->Ok_0 == row
                    &&& logged(
                        before.audit_record_repository@,
                        log,
                        ctx,
                        "UPDATE"@,
                        "Updated license-policy "@ + input.id@,
                    )
                }
            },
        }
    }

    /// Updates the row of `input`, stamped with the current time. The outcome
    /// is that of `update_at` for some instant.
    pub fn update(&mut self, ctx: &SecurityContext, input: &LicensePolicy) -> (r: Result<LicensePolicy, RbacError>)
        ensures
            exists|now: i64| Self::update_outcome(*old(self), *final(self), *ctx, *input, now, r),
            old(self).wf() ==> final(self).wf(),
    {
        let now = clock::now();
        let r = self.update_at(ctx, input, now);
        proof {
            assert(Self::update_outcome(*old(self), *self, *ctx, *input, now, r));
        }
        r
    }

    /// Updates the row of `input`, stamped with `now`.
    pub fn update_at(
        &mut self,
        ctx: &SecurityContext,
        input: &LicensePolicy,
        now: i64,
    ) -> (r: Result<LicensePolicy, RbacError>)
        ensures
            Self::update_outcome(*old(self), *final(self), *ctx, *input, now, r),
            old(self).wf() ==> final(self).wf(),
    {
        let found = self.table.first(
            |x: &LicensePolicy| -> (b: bool) ensures b == scoped(input.organization_id@, input.id@)(*x) { same_text(x.id.as_str(), input.id.as_str()) && same_text(x.organization_id.as_str(), input.organization_id.as_str()) },
            Ghost(scoped(input.organization_id@, input.id@)),
        );
        match found {
            Some(i) => {
                proof {
                    lemma_first_index(self@, scoped(input.organization_id@, input.id@));
                }
                let prior = self.table.rows[i].copy();
                let mut row = self.table.rows[i].copy();
                row.effective_at = input.effective_at;
                row.expired_at = input.expired_at;
                row.description = input.description.clone();
                row.updated_by = Some(ctx.principal_id.clone());
                row.updated_at = Some(now);
                proof {
                    assert(row == updated_row(old(self)@[i as int], *input, now, ctx.principal_id));
                    if old(self).wf() {
                        lemma_update_keeps_unique(old(self)@, i as int, row);
                    }
                }
                let out = row.clone();
                self.table.put(i, row);
                if self.count_by_org_at(input.organization_id.as_str(), now) > 1 {
                    self.table.put(i, prior);
                    proof {
                        assert(self@ =~= old(self)@);
                    }
                    self.audit_record_repository.log(
                        ctx,
                        "Multiple license policies exist for ",
                        input.organization_id.as_str(),
                        "UPDATE",
                    );
                    return Err(RbacError::Duplicate("Multiple license policies exist".to_string()));
                }
                self.audit_record_repository.log(ctx, "Updated license-policy ", input.id.as_str(), "UPDATE");
                Ok(out)
            },
            None => Err(RbacError::NotFound("License policy not found".to_string())),
        }
    }

    /// An update leaves an organization with one license policy in force:
    /// where the organization of `input` had at most one in force at `now`
    /// before an update at `now`, it has at most one after it, whatever the
    /// update came to.
    pub proof fn lemma_update_keeps_one_policy(
        before: Self,
        after: Self,
        ctx: SecurityContext,
        input: LicensePolicy,
        now: i64,
        r: Result<LicensePolicy, RbacError>,
    )
        requires
            Self::update_outcome(before, after, ctx, input, now, r),
            before@.filter(active_of_org(input.organization_id@, now)).len() <= 1,
        ensures
            after@.filter(active_of_org(input.organization_id@, now)).len() <= 1,
    {
    }

    /// A policy that was created is read back: after a creation that
    /// succeeded, the first row with the new identifier in the organization is
    /// the row that was stored and returned.
    pub proof fn lemma_created_is_read_back(
        before: Self,
        after: Self,
        ctx: SecurityContext,
        input: LicensePolicy,
        id: String,
        now: i64,
        r: Result<LicensePolicy, RbacError>,
    )
        requires
            Self::create_outcome(before, after, ctx, input, id, now, r),
            r is Ok,
        ensures
            first_index(after@, scoped(input.organization_id@, id@)) == Some(before@.len() as int),
            after@[before@.len() as int] == r->Ok_0,
    {
        let key = scoped(input.organization_id@, id@);
        lemma_first_index(before@, by_key::<LicensePolicy>(id@));
        assert forall|j: int| 0 <= j < before@.len() implies !key(after@[j]) by {
            assert(after@[j] == before@[j]);
            assert(!by_key::<LicensePolicy>(id@)(before@[j]));
        }
        crate::persistence::table::lemma_first_index_is(after@, key, before@.len() as int);
    }

    /// An organization has one license policy in force at a time. After a
    /// policy that is in force at `now` was created for an organization at
    /// `now`, the organization has exactly one policy in force at `now`; and
    /// creating another for it at any instant `later` at which the first is in
    /// force fails with `Duplicate` and stores nothing.
    pub proof fn lemma_second_policy_is_refused(
        before: Self,
        mid: Self,
        after: Self,
        ctx: SecurityContext,
        first: LicensePolicy,
        second: LicensePolicy,
        id1: String,
        id2: String,
        now: i64,
        later: i64,
        r1: Result<LicensePolicy, RbacError>,
        r2: Result<LicensePolicy, RbacError>,
    )
        requires
            Self::create_outcome(before, mid, ctx, first, id1, now, r1),
            r1 is Ok,
            first.effective_at <= now <= first.expired_at,
            first.effective_at <= later <= first.expired_at,
            second.organization_id@ == first.organization_id@,
            Self::create_outcome(mid, after, ctx, second, id2, later, r2),
        ensures
            mid@.filter(active_of_org(first.organization_id@, now)).len() == 1,
            r2 is Err,
            r2->Err_0 is Duplicate,
            after@ == mid@,
            after@.filter(active_of_org(first.organization_id@, now)).len() == 1,
    {
        let row = created_row(first, id1, now, ctx.principal_id);
        Seq::lemma_filter_push(before@, row, active_of_org(first.organization_id@, now));
        Seq::lemma_filter_push(before@, row, active_of_org(first.organization_id@, later));
    }
    /// The first row with the identifier `id` in the organization.
    pub fn get(&self, _ctx: &SecurityContext, org_id: &str, id: &str) -> (r: Option<LicensePolicy>)
        ensures
            match r {
                Some(c) => first_index(self@, scoped(org_id@, id@)) is Some && c == self@[
                    first_index(self@, scoped(org_id@, id@))->0
                ],
                None => first_index(self@, scoped(org_id@, id@)) is None,
            },
    {
        let found = self.table.first(
            |x: &LicensePolicy| -> (b: bool) ensures b == scoped(org_id@, id@)(*x) { same_text(x.id.as_str(), id) && same_text(x.organization_id.as_str(), org_id) },
            Ghost(scoped(org_id@, id@)),
        );
        match found {
            Some(i) => {
                proof {
                    lemma_first_index(self@, scoped(org_id@, id@));
                }
                Some(self.table.rows[i].copy())
            },
            None => None,
        }
    }

    /// The license policies of an organization that are in force at `now`, in
    /// the order of their creation. The instant is read from the clock.
    pub fn get_by_org(&self, _ctx: &SecurityContext, org_id: &str) -> (out: Vec<LicensePolicy>)
        ensures
            exists|now: i64| out@ == self@.filter(active_of_org(org_id@, now)),
    {
        let now = clock::now();
        self.get_by_org_at(_ctx, org_id, now)
    }

    /// The license policies of an organization that are in force at `now`, in
    /// the order of their creation.
    pub fn get_by_org_at(&self, _ctx: &SecurityContext, org_id: &str, now: i64) -> (out: Vec<LicensePolicy>)
        ensures
            out@ == self@.filter(active_of_org(org_id@, now)),
    {
        self.table.select(
            |x: &LicensePolicy| -> (b: bool) ensures b == active_of_org(org_id@, now)(*x) { same_text(x.organization_id.as_str(), org_id) && x.effective_at <= now && now <= x.expired_at },
            Ghost(active_of_org(org_id@, now)),
        )
    }

    /// What deleting the row with the identifier `id` in the organization
    /// comes to: the first such row is removed and the count is one, or there
    /// is none, nothing is removed and the count is zero; either way the
    /// deletion is entered in the audit trail.
    pub open spec fn delete_outcome(
        before: Self,
        after: Self,
        ctx: SecurityContext,
        org_id: Seq<char>,
        id: Seq<char>,
        r: Result<usize,
        RbacError>,
    ) -> bool {
        let found = first_index(before@, scoped(org_id, id));
        &&& r is Ok
        &&& match found {
            Some(i) => r->Ok_0 == 1 && after@ == before@.remove(i),
            None => r->Ok_0 == 0 && after@ == before@,
        }
        &&& logged(
            before.audit_record_repository@,
            after.audit_record_repository@,
            ctx,
            "DELETE"@,
            "Deleted license policy "@ + id,
        )
    }

    /// Deletes the row with the identifier `id` in the organization and
    /// returns the number of rows deleted.
    pub fn delete(&mut self, ctx: &SecurityContext, org_id: &str, id: &str) -> (r: Result<usize, RbacError>)
        ensures
            Self::delete_outcome(*old(self), *final(self), *ctx, org_id@, id@, r),
            old(self).wf() ==> final(self).wf(),
            old(self).wf() ==> first_index(final(self)@, scoped(org_id@, id@)) is None,
    {
        let found = self.table.first(
            |x: &LicensePolicy| -> (b: bool) ensures b == scoped(org_id@, id@)(*x) { same_text(x.id.as_str(), id) && same_text(x.organization_id.as_str(), org_id) },
            Ghost(scoped(org_id@, id@)),
        );
        let n: usize = match found {
            Some(i) => {
                proof {
                    lemma_first_index(self@, scoped(org_id@, id@));
                    if old(self).wf() {
                        lemma_remove_keeps_unique(old(self)@, i as int);
                        lemma_first_index(old(self)@.remove(i as int), by_key::<LicensePolicy>(id@));
                        crate::persistence::table::lemma_first_index_none(
                            old(self)@.remove(i as int),
                            scoped(org_id@, id@),
                        );
                    }
                }
                self.table.remove_at(i);
                1
            },
            None => 0,
        };
        self.audit_record_repository.log(ctx, "Deleted license policy ", id, "DELETE");
        Ok(n)
    }

    /// Removes every row; the audit trail stays.
    pub fn clear(&mut self)
        ensures
            final(self)@ == Seq::<LicensePolicy>::empty(),
            final(self).audit_record_repository == old(self).audit_record_repository,
            final(self).wf(),
    {
        self.table.clear();
    }
}

} // verus!
