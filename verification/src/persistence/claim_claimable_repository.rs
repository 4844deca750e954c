//! Claim grants: which claim is granted to which principal, role or license
//! policy, under which scope and constraints, and when.

use vstd::prelude::*;

use crate::common::{Constants, RbacError, SecurityContext};
use crate::persistence::audit_record_repository::{logged, AuditRecordRepository};
use crate::persistence::models::PClaimClaimable;
use crate::persistence::table::{
    first_index, lemma_first_index, lemma_first_index_none, is_listed, listed, Record, Table,
};
use crate::utils::clock;
use crate::utils::text::same_text;

verus! {

impl Record for PClaimClaimable {
    fn copy(&self) -> (r: Self) {
        self.clone()
    }
}

/// The rows with the given key.
pub open spec fn keyed(
    claim_id: Seq<char>,
    claimable_id: Seq<char>,
    claimable_type: Seq<char>,
) -> spec_fn(PClaimClaimable) -> bool {
    |x: PClaimClaimable| x.claim_id@ == claim_id
        && x.claimable_id@ == claimable_id
        && x.claimable_type@ == claimable_type
}

/// Whether two rows have the same key.
pub open spec fn same_key(a: PClaimClaimable, b: PClaimClaimable) -> bool {
    a.claim_id@ == b.claim_id@ && a.claimable_id@ == b.claimable_id@ && a.claimable_type@ == b.claimable_type@
}

/// No two rows have the same key.
pub open spec fn pairs_unique(rows: Seq<PClaimClaimable>) -> bool {
    forall|i: int, j: int| 0 <= i < j < rows.len() ==> !same_key(rows[i], rows[j])
}

/// Whether `x` is the row made for the given key.
pub open spec fn grant_is(
    x: PClaimClaimable,
    claim_id: Seq<char>,
    claimable_id: Seq<char>,
    claimable_type: Seq<char>,
    scope: Seq<char>,
    claim_constraints: Seq<char>,
    effective_at: i64,
    expired_at: i64,
) -> bool {
    &&& x.claim_id@ == claim_id
    &&& x.claimable_id@ == claimable_id
    &&& x.claimable_type@ == claimable_type
    &&& x.scope@ == scope
    &&& x.claim_constraints@ == claim_constraints
    &&& x.effective_at == effective_at
    &&& x.expired_at == expired_at
}

/// The grants with the given key that are in force at `now`.
pub open spec fn active_keyed(
    claim_id: Seq<char>,
    claimable_id: Seq<char>,
    claimable_type: Seq<char>,
    now: i64,
) -> spec_fn(PClaimClaimable) -> bool {
    |x: PClaimClaimable| x.claim_id@ == claim_id
        && x.claimable_id@ == claimable_id
        && x.claimable_type@ == claimable_type
        && x.effective_at <= now <= x.expired_at
}

/// The grants of the claims `claim_ids` that are in force at `now`.
pub open spec fn active_of_claims(claim_ids: Seq<String>, now: i64) -> spec_fn(PClaimClaimable) -> bool {
    |x: PClaimClaimable| listed(claim_ids, x.claim_id@) && x.effective_at <= now <= x.expired_at
}

/// The grants to the principal `principal_id` that are in force at `now`.
pub open spec fn active_of_principal(principal_id: Seq<char>, now: i64) -> spec_fn(PClaimClaimable) -> bool {
    |x: PClaimClaimable| x.claimable_id@ == principal_id
        && x.claimable_type@ == Constants::Principal.name()
        && x.effective_at <= now <= x.expired_at
}

/// The grants to the roles `role_ids` that are in force at `now`.
pub open spec fn active_of_roles(role_ids: Seq<String>, now: i64) -> spec_fn(PClaimClaimable) -> bool {
    |x: PClaimClaimable| listed(role_ids, x.claimable_id@)
        && x.claimable_type@ == Constants::Role.name()
        && x.effective_at <= now <= x.expired_at
}

/// The grants to the license policy `license_policy_id` that are in force at
/// `now`.
pub open spec fn active_of_policy(license_policy_id: Seq<char>, now: i64) -> spec_fn(PClaimClaimable) -> bool {
    |x: PClaimClaimable| x.claimable_id@ == license_policy_id
        && x.claimable_type@ == Constants::LicensePolicy.name()
        && x.effective_at <= now <= x.expired_at
}

/// The grants to the holders `claimable_ids` of the kind `claimable_type` that
/// are in force at `now`.
pub open spec fn active_of_claimables(
    claimable_ids: Seq<String>,
    claimable_type: Seq<char>,
    now: i64,
) -> spec_fn(PClaimClaimable) -> bool {
    |x: PClaimClaimable| listed(claimable_ids, x.claimable_id@)
        && x.claimable_type@ == claimable_type
        && x.effective_at <= now <= x.expired_at
}

/// The grants of claims to principals, roles and license policies.
pub struct ClaimClaimableRepository {
    pub table: Table<PClaimClaimable>,
    pub audit_record_repository: AuditRecordRepository,
}

impl View for ClaimClaimableRepository {
    type V = Seq<PClaimClaimable>;

    open spec fn view(&self) -> Seq<PClaimClaimable> {
        self.table@
    }
}

/// Appending a row whose key no row has keeps the keys distinct.
pub proof fn lemma_push_keeps_pairs(rows: Seq<PClaimClaimable>, row: PClaimClaimable)
    requires
        pairs_unique(rows),
        first_index(rows, keyed(row.claim_id@, row.claimable_id@, row.claimable_type@)) is None,
    ensures
        pairs_unique(rows.push(row)),
{
    lemma_first_index(rows, keyed(row.claim_id@, row.claimable_id@, row.claimable_type@));
}

/// Removing a row keeps the keys distinct, and where they were distinct no row
/// with the removed key is left.
pub proof fn lemma_remove_keeps_pairs(rows: Seq<PClaimClaimable>, i: int)
    requires
        pairs_unique(rows),
        0 <= i < rows.len(),
    ensures
        pairs_unique(rows.remove(i)),
        first_index(rows.remove(i), keyed(rows[i].claim_id@, rows[i].claimable_id@, rows[i].claimable_type@)) is None,
{
    let rest = rows.remove(i);
    assert forall|j: int| 0 <= j < rest.len() implies !keyed(
        rows[i].claim_id@,
        rows[i].claimable_id@,
        rows[i].claimable_type@,
    )(#[trigger] rest[j]) by {
        if j < i {
            assert(rest[j] == rows[j]);
            assert(!same_key(rows[j], rows[i]));
        } else {
            assert(rest[j] == rows[j + 1]);
            assert(!same_key(rows[i], rows[j + 1]));
        }
    }
    lemma_first_index_none(rest, keyed(rows[i].claim_id@, rows[i].claimable_id@, rows[i].claimable_type@));
    assert forall|a: int, b: int| 0 <= a < b < rest.len() implies !same_key(rest[a], rest[b]) by {
        let a0 = if a < i { a } else { a + 1 };
        let b0 = if b < i { b } else { b + 1 };
        assert(rest[a] == rows[a0]);
        assert(rest[b] == rows[b0]);
    }
}

impl ClaimClaimableRepository {
    /// No two rows have the same key.
    pub open spec fn wf(&self) -> bool {
        pairs_unique(self@)
    }

    /// An empty repository with an empty audit trail.
    pub fn new() -> (r: Self)
        ensures
            r@ == Seq::<PClaimClaimable>::empty(),
            r.audit_record_repository@.len() == 0,
            r.wf(),
    {
        ClaimClaimableRepository { table: Table::new(), audit_record_repository: AuditRecordRepository::new() }
    }

    /// Whether no two rows have the same key.
    pub fn is_wf(&self) -> (b: bool)
        ensures
            b == self.wf(),
    {
        let mut j: usize = 0;
        while j < self.table.rows.len()
            invariant
                j <= self@.len(),
                forall|a: int, b: int| 0 <= a < b < j ==> !same_key(self@[a], self@[b]),
            decreases self@.len() - j,
        {
            let mut i: usize = 0;
            while i < j
                invariant
                    i <= j < self@.len(),
                    forall|a: int| 0 <= a < i ==> !same_key(self@[a], self@[j as int]),
                decreases j - i,
            {
                let one = &self.table.rows[i];
                let other = &self.table.rows[j];
                if same_text(one.claim_id.as_str(), other.claim_id.as_str())
                    && same_text(one.claimable_id.as_str(), other.claimable_id.as_str())
                    && same_text(
                    one.claimable_type.as_str(),
                    other.claimable_type.as_str(),
                ) {
                    proof {
                        assert(same_key(self@[i as int], self@[j as int]));
                    }
                    return false;
                }
                i += 1;
            }
            j += 1;
        }
        true
    }

    /// What storing `association` comes to: where a row with its key exists,
    /// nothing changes and the error is `Duplicate`; otherwise a copy of it is
    /// appended and the count is one.
    pub open spec fn create_outcome(
        before: Self,
        after: Self,
        association: PClaimClaimable,
        r: Result<usize,
        RbacError>,
    ) -> bool {
        let found = first_index(
            before@,
            keyed(association.claim_id@, association.claimable_id@, association.claimable_type@),
        );
        &&& after.audit_record_repository == before.audit_record_repository
        &&& match r {
            Ok(n) => found is None && n == 1 && after@ == before@.push(association),
            Err(e) => found is Some && e is Duplicate && after@ == before@,
        }
    }

    /// Stores a copy of `association`.
    pub fn create(&mut self, association: &PClaimClaimable) -> (r: Result<usize, RbacError>)
        ensures
            Self::create_outcome(*old(self), *final(self), *association, r),
            old(self).wf() ==> final(self).wf(),
    {
        let found = self.table.first(
            |x: &PClaimClaimable| -> (b: bool) ensures b == keyed(association.claim_id@, association.claimable_id@, association.claimable_type@)(*x) { same_text(x.claim_id.as_str(), association.claim_id.as_str()) && same_text(x.claimable_id.as_str(), association.claimable_id.as_str()) && same_text(x.claimable_type.as_str(), association.claimable_type.as_str()) },
            Ghost(keyed(association.claim_id@, association.claimable_id@, association.claimable_type@)),
        );
        match found {
            Some(_) => Err(RbacError::Duplicate("UNIQUE constraint failed: rbac_claim_claimables".to_string())),
            None => {
                proof {
                    if old(self).wf() {
                        lemma_push_keeps_pairs(old(self)@, *association);
                    }
                }
                self.table.push(association.clone());
                Ok(1)
            },
        }
    }

    /// What deleting the row with the given key comes to: the first such row
    /// is removed and the count is one, or there is none, nothing is removed
    /// and the count is zero.
    pub open spec fn delete_outcome(
        before: Self,
        after: Self,
        claim_id: Seq<char>,
        claimable_id: Seq<char>,
        claimable_type: Seq<char>,
        r: Result<usize,
        RbacError>,
    ) -> bool {
        let found = first_index(before@, keyed(claim_id, claimable_id, claimable_type));
        &&& r is Ok
        &&& match found {
            Some(i) => r->Ok_0 == 1 && after@ == before@.remove(i),
            None => r->Ok_0 == 0 && after@ == before@,
        }
    }

    /// Deletes the row that has the key of `association`.
    pub fn delete(&mut self, association: &PClaimClaimable) -> (r: Result<usize, RbacError>)
        ensures
            Self::delete_outcome(
                *old(self),
                *final(self),
                association.claim_id@,
                association.claimable_id@,
                association.claimable_type@,
                r,
            ),
            final(self).audit_record_repository == old(self).audit_record_repository,
            old(self).wf() ==> final(self).wf(),
            old(self).wf() ==> first_index(
                final(self)@,
                keyed(association.claim_id@, association.claimable_id@, association.claimable_type@),
            ) is None,
    {
        let found = self.table.first(
            |x: &PClaimClaimable| -> (b: bool) ensures b == keyed(association.claim_id@, association.claimable_id@, association.claimable_type@)(*x) { same_text(x.claim_id.as_str(), association.claim_id.as_str()) && same_text(x.claimable_id.as_str(), association.claimable_id.as_str()) && same_text(x.claimable_type.as_str(), association.claimable_type.as_str()) },
            Ghost(keyed(association.claim_id@, association.claimable_id@, association.claimable_type@)),
        );
        match found {
            Some(i) => {
                proof {
                    lemma_first_index(
                        self@,
                        keyed(association.claim_id@, association.claimable_id@, association.claimable_type@),
                    );
                    if old(self).wf() {
                        lemma_remove_keeps_pairs(old(self)@, i as int);
                    }
                }
                self.table.remove_at(i);
                Ok(1)
            },
            None => Ok(0),
        }
    }

    /// What granting comes to: where a row with the key exists, nothing
    /// changes and the error is `Duplicate`; otherwise the row made for the
    /// grant is appended, the count is one, and the grant is entered in the
    /// audit trail under the message `text` followed by the first part of the
    /// key.
    pub open spec fn add_outcome(
        before: Self,
        after: Self,
        ctx: SecurityContext,
        claim_id: Seq<char>, claimable_id: Seq<char>, claimable_type: Seq<char>, scope: Seq<char>, claim_constraints: Seq<char>, effective_at: i64, expired_at: i64,
        text: Seq<char>,
        r: Result<usize, RbacError>,
    ) -> bool {
        let found = first_index(before@, keyed(claim_id, claimable_id, claimable_type));
        match r {
            Ok(n) => {
                &&& found is None
                &&& n == 1
                &&& after@.len() == before@.len() + 1
                &&& after@.drop_last() == before@
                &&& grant_is(
                    after@.last(),
                    claim_id,
                    claimable_id,
                    claimable_type,
                    scope,
                    claim_constraints,
                    effective_at,
                    expired_at,
                )
                &&& logged(
                    before.audit_record_repository@,
                    after.audit_record_repository@,
                    ctx,
                    "CREATE"@,
                    text + claim_id,
                )
            },
            Err(e) => {
                &&& found is Some
                &&& e is Duplicate
                &&& after@ == before@
                &&& after.audit_record_repository == before.audit_record_repository
            },
        }
    }

    /// Stores `row` and enters the grant in the audit trail.
    fn add(&mut self, ctx: &SecurityContext, row: PClaimClaimable, text: &str) -> (r: Result<usize, RbacError>)
        ensures
            Self::add_outcome(
                *old(self),
                *final(self),
                *ctx,
                row.claim_id@,
                row.claimable_id@,
                row.claimable_type@,
                row.scope@,
                row.claim_constraints@,
                row.effective_at,
                row.expired_at,
                text@,
                r,
            ),
            old(self).wf() ==> final(self).wf(),
    {
        match self.create(&row) {
            Ok(n) => {
                proof {
                    assert(self@.drop_last() =~= old(self)@);
                }
                self.audit_record_repository.log(ctx, text, row.claim_id.as_str(), "CREATE");
                Ok(n)
            },
            Err(e) => Err(e),
        }
    }

    /// What revoking comes to: the first row with the key is removed and the
    /// count is one, or there is none, nothing is removed and the count is
    /// zero; either way the revocation is entered in the audit trail under the
    /// message `text` followed by the first part of the key.
    pub open spec fn remove_outcome(
        before: Self,
        after: Self,
        ctx: SecurityContext,
        claim_id: Seq<char>, claimable_id: Seq<char>, claimable_type: Seq<char>,
        text: Seq<char>,
        r: Result<usize, RbacError>,
    ) -> bool {
        &&& Self::delete_outcome(before, after, claim_id, claimable_id, claimable_type, r)
        &&& logged(before.audit_record_repository@, after.audit_record_repository@, ctx, "DELETE"@, text + claim_id)
    }

    /// Deletes the row with the given key and enters the revocation in the
    /// audit trail.
    fn remove(
        &mut self,
        ctx: &SecurityContext,
        claim_id: &str,
        claimable_id: &str,
        claimable_type: &str,
        text: &str,
    ) -> (r: Result<usize, RbacError>)
        ensures
            Self::remove_outcome(*old(self), *final(self), *ctx, claim_id@, claimable_id@, claimable_type@, text@, r),
            old(self).wf() ==> final(self).wf(),
            old(self).wf() ==> first_index(final(self)@, keyed(claim_id@, claimable_id@, claimable_type@)) is None,
    {
        let found = self.table.first(
            |x: &PClaimClaimable| -> (b: bool) ensures b == keyed(claim_id@, claimable_id@, claimable_type@)(*x) { same_text(x.claim_id.as_str(), claim_id) && same_text(x.claimable_id.as_str(), claimable_id) && same_text(x.claimable_type.as_str(), claimable_type) },
            Ghost(keyed(claim_id@, claimable_id@, claimable_type@)),
        );
        let n: usize = match found {
            Some(i) => {
                proof {
                    lemma_first_index(self@, keyed(claim_id@, claimable_id@, claimable_type@));
                    if old(self).wf() {
                        lemma_remove_keeps_pairs(old(self)@, i as int);
                    }
                }
                self.table.remove_at(i);
                1
            },
            None => 0,
        };
        self.audit_record_repository.log(ctx, text, claim_id, "DELETE");
        Ok(n)
    }

    /// Grants the claim to the principal under a scope and constraints, from
    /// `effective_at` to `expired_at`.
    pub fn add_principal_to_claim(
        &mut self,
        ctx: &SecurityContext,
        principal_id: &str,
        claim_id: &str,
        scope: &str,
        claim_constraints: &str,
        effective_at: i64,
        expired_at: i64,
    ) -> (r: Result<usize, RbacError>)
        ensures
            Self::add_outcome(
                *old(self),
                *final(self),
                *ctx,
                claim_id@,
                principal_id@,
                Constants::Principal.name(),
                scope@,
                claim_constraints@,
                effective_at,
                expired_at,
                "Adding principal to claim "@,
                r,
            ),
            old(self).wf() ==> final(self).wf(),
    {
        let kind = Constants::Principal.to_string();
        let row = PClaimClaimable::new(
            claim_id,
            principal_id,
            kind.as_str(),
            scope,
            claim_constraints,
            effective_at,
            expired_at,
        );
        self.add(ctx, row, "Adding principal to claim ")
    }

    /// Revokes the claim from the principal.
    pub fn delete_principal_from_claim(
        &mut self,
        ctx: &SecurityContext,
        principal_id: &str,
        claim_id: &str,
    ) -> (r: Result<usize, RbacError>)
        ensures
            Self::remove_outcome(
                *old(self),
                *final(self),
                *ctx,
                claim_id@,
                principal_id@,
                Constants::Principal.name(),
                "Removing principal from claim "@,
                r,
            ),
            old(self).wf() ==> final(self).wf(),
            old(self).wf() ==> first_index(
                final(self)@,
                keyed(claim_id@, principal_id@, Constants::Principal.name()),
            ) is None,
    {
        let kind = Constants::Principal.to_string();
        self.remove(ctx, claim_id, principal_id, kind.as_str(), "Removing principal from claim ")
    }

    /// Grants the claim to the role under a scope and constraints, from
    /// `effective_at` to `expired_at`.
    pub fn add_role_to_claim(
        &mut self,
        ctx: &SecurityContext,
        role_id: &str,
        claim_id: &str,
        scope: &str,
        claim_constraints: &str,
        effective_at: i64,
        expired_at: i64,
    ) -> (r: Result<usize, RbacError>)
        ensures
            Self::add_outcome(
                *old(self),
                *final(self),
                *ctx,
                claim_id@,
                role_id@,
                Constants::Role.name(),
                scope@,
                claim_constraints@,
                effective_at,
                expired_at,
                "Adding role to claim "@,
                r,
            ),
            old(self).wf() ==> final(self).wf(),
    {
        let kind = Constants::Role.to_string();
        let row = PClaimClaimable::new(
            claim_id,
            role_id,
            kind.as_str(),
            scope,
            claim_constraints,
            effective_at,
            expired_at,
        );
        self.add(ctx, row, "Adding role to claim ")
    }

    /// Revokes the claim from the role.
    pub fn delete_role_from_claim(
        &mut self,
        ctx: &SecurityContext,
        role_id: &str,
        claim_id: &str,
    ) -> (r: Result<usize, RbacError>)
        ensures
            Self::remove_outcome(
                *old(self),
                *final(self),
                *ctx,
                claim_id@,
                role_id@,
                Constants::Role.name(),
                "Removing role from claim "@,
                r,
            ),
            old(self).wf() ==> final(self).wf(),
            old(self).wf() ==> first_index(final(self)@, keyed(claim_id@, role_id@, Constants::Role.name())) is None,
    {
        let kind = Constants::Role.to_string();
        self.remove(ctx, claim_id, role_id, kind.as_str(), "Removing role from claim ")
    }

    /// Grants the claim to the license policy under a scope and constraints,
    /// from `effective_at` to `expired_at`.
    pub fn add_license_policy_to_claim(
        &mut self,
        ctx: &SecurityContext,
        license_policy_id: &str,
        claim_id: &str,
        scope: &str,
        constraints: &str,
        effective_at: i64,
        expired_at: i64,
    ) -> (r: Result<usize, RbacError>)
        ensures
            Self::add_outcome(
                *old(self),
                *final(self),
                *ctx,
                claim_id@,
                license_policy_id@,
                Constants::LicensePolicy.name(),
                scope@,
                constraints@,
                effective_at,
                expired_at,
                "Adding claim to license-policy "@,
                r,
            ),
            old(self).wf() ==> final(self).wf(),
    {
        let kind = Constants::LicensePolicy.to_string();
        let row = PClaimClaimable::new(
            claim_id,
            license_policy_id,
            kind.as_str(),
            scope,
            constraints,
            effective_at,
            expired_at,
        );
        self.add(ctx, row, "Adding claim to license-policy ")
    }

    /// Revokes the claim from the license policy.
    pub fn delete_license_policy_from_claim(
        &mut self,
        ctx: &SecurityContext,
        license_policy_id: &str,
        claim_id: &str,
    ) -> (r: Result<usize, RbacError>)
        ensures
            Self::remove_outcome(
                *old(self),
                *final(self),
                *ctx,
                claim_id@,
                license_policy_id@,
                Constants::LicensePolicy.name(),
                "Removing claim from license-policy "@,
                r,
            ),
            old(self).wf() ==> final(self).wf(),
            old(self).wf() ==> first_index(
                final(self)@,
                keyed(claim_id@, license_policy_id@, Constants::LicensePolicy.name()),
            ) is None,
    {
        let kind = Constants::LicensePolicy.to_string();
        self.remove(ctx, claim_id, license_policy_id, kind.as_str(), "Removing claim from license-policy ")
    }

    /// Whether a grant with the key of `association` is in force at `now`. The
    /// instant is read from the clock.
    pub fn has_association(&self, association: &PClaimClaimable) -> (out: bool)
        ensures
            exists|now: i64| out == (
                first_index(
                    self@,
                    active_keyed(association.claim_id@, association.claimable_id@, association.claimable_type@, now),
                ) is Some
            ),
    {
        let now = clock::now();
        self.has_association_at(association, now)
    }

    /// Whether a grant with the key of `association` is in force at `now`.
    pub fn has_association_at(&self, association: &PClaimClaimable, now: i64) -> (out: bool)
        ensures
            out == (
                first_index(
                    self@,
                    active_keyed(association.claim_id@, association.claimable_id@, association.claimable_type@, now),
                ) is Some
            ),
    {
        self.table.first(
            |x: &PClaimClaimable| -> (b: bool) ensures b == active_keyed(association.claim_id@, association.claimable_id@, association.claimable_type@, now)(*x) { same_text(x.claim_id.as_str(), association.claim_id.as_str()) && same_text(x.claimable_id.as_str(), association.claimable_id.as_str()) && same_text(x.claimable_type.as_str(), association.claimable_type.as_str()) && x.effective_at <= now && now <= x.expired_at },
            Ghost(active_keyed(association.claim_id@, association.claimable_id@, association.claimable_type@, now)),
        ).is_some()
    }

    /// The grants of the claims `claim_ids` that are in force at `now`, in the
    /// order in which they were made. The instant is read from the clock.
    pub fn get_by_claims(&self, claim_ids: Vec<String>) -> (out: Vec<PClaimClaimable>)
        ensures
            exists|now: i64| out@ == self@.filter(active_of_claims(claim_ids@, now)),
    {
        let now = clock::now();
        self.get_by_claims_at(claim_ids, now)
    }

    /// The grants of the claims `claim_ids` that are in force at `now`, in the
    /// order in which they were made.
    pub fn get_by_claims_at(&self, claim_ids: Vec<String>, now: i64) -> (out: Vec<PClaimClaimable>)
        ensures
            out@ == self@.filter(active_of_claims(claim_ids@, now)),
    {
        self.table.select(
            |x: &PClaimClaimable| -> (b: bool) ensures b == active_of_claims(claim_ids@, now)(*x) { is_listed(&claim_ids, x.claim_id.as_str()) && x.effective_at <= now && now <= x.expired_at },
            Ghost(active_of_claims(claim_ids@, now)),
        )
    }

    /// The grants to a principal that are in force at `now`, in the order in
    /// which they were made. The instant is read from the clock.
    pub fn get_by_principal(&self, principal_id: String) -> (out: Vec<PClaimClaimable>)
        ensures
            exists|now: i64| out@ == self@.filter(active_of_principal(principal_id@, now)),
    {
        let now = clock::now();
        self.get_by_principal_at(principal_id, now)
    }

    /// The grants to a principal that are in force at `now`, in the order in
    /// which they were made.
    pub fn get_by_principal_at(&self, principal_id: String, now: i64) -> (out: Vec<PClaimClaimable>)
        ensures
            out@ == self@.filter(active_of_principal(principal_id@, now)),
    {
        self.table.select(
            |x: &PClaimClaimable| -> (b: bool) ensures b == active_of_principal(principal_id@, now)(*x) { same_text(x.claimable_id.as_str(), principal_id.as_str()) && same_text(x.claimable_type.as_str(), "Principal") && x.effective_at <= now && now <= x.expired_at },
            Ghost(active_of_principal(principal_id@, now)),
        )
    }

    /// The grants to the roles `role_ids` that are in force at `now`, in the
    /// order in which they were made. The instant is read from the clock.
    pub fn get_by_roles(&self, role_ids: Vec<String>) -> (out: Vec<PClaimClaimable>)
        ensures
            exists|now: i64| out@ == self@.filter(active_of_roles(role_ids@, now)),
    {
        let now = clock::now();
        self.get_by_roles_at(role_ids, now)
    }

    /// The grants to the roles `role_ids` that are in force at `now`, in the
    /// order in which they were made.
    pub fn get_by_roles_at(&self, role_ids: Vec<String>, now: i64) -> (out: Vec<PClaimClaimable>)
        ensures
            out@ == self@.filter(active_of_roles(role_ids@, now)),
    {
        self.table.select(
            |x: &PClaimClaimable| -> (b: bool) ensures b == active_of_roles(role_ids@, now)(*x) { is_listed(&role_ids, x.claimable_id.as_str()) && same_text(x.claimable_type.as_str(), "Role") && x.effective_at <= now && now <= x.expired_at },
            Ghost(active_of_roles(role_ids@, now)),
        )
    }

    /// The grants to a license policy that are in force at `now`, in the order
    /// in which they were made. The instant is read from the clock.
    pub fn get_by_policy(&self, license_policy_id: &str) -> (out: Vec<PClaimClaimable>)
        ensures
            exists|now: i64| out@ == self@.filter(active_of_policy(license_policy_id@, now)),
    {
        let now = clock::now();
        self.get_by_policy_at(license_policy_id, now)
    }

    /// The grants to a license policy that are in force at `now`, in the order
    /// in which they were made.
    pub fn get_by_policy_at(&self, license_policy_id: &str, now: i64) -> (out: Vec<PClaimClaimable>)
        ensures
            out@ == self@.filter(active_of_policy(license_policy_id@, now)),
    {
        self.table.select(
            |x: &PClaimClaimable| -> (b: bool) ensures b == active_of_policy(license_policy_id@, now)(*x) { same_text(x.claimable_id.as_str(), license_policy_id) && same_text(x.claimable_type.as_str(), "LicensePolicy") && x.effective_at <= now && now <= x.expired_at },
            Ghost(active_of_policy(license_policy_id@, now)),
        )
    }

    /// The grants to the holders `claimable_ids` of the kind `claimable_type`
    /// that are in force at `now`, in the order in which they were made. The
    /// instant is read from the clock.
    pub fn get_by_claimables(&self, claimable_ids: Vec<String>, claimable_type: String) -> (out: Vec<PClaimClaimable>)
        ensures
            exists|now: i64| out@ == self@.filter(active_of_claimables(claimable_ids@, claimable_type@, now)),
    {
        let now = clock::now();
        self.get_by_claimables_at(claimable_ids, claimable_type, now)
    }

    /// The grants to the holders `claimable_ids` of the kind `claimable_type`
    /// that are in force at `now`, in the order in which they were made.
    pub fn get_by_claimables_at(
        &self,
        claimable_ids: Vec<String>,
        claimable_type: String,
        now: i64,
    ) -> (out: Vec<PClaimClaimable>)
        ensures
            out@ == self@.filter(active_of_claimables(claimable_ids@, claimable_type@, now)),
    {
        self.table.select(
            |x: &PClaimClaimable| -> (b: bool) ensures b == active_of_claimables(claimable_ids@, claimable_type@, now)(*x) { is_listed(&claimable_ids, x.claimable_id.as_str()) && same_text(x.claimable_type.as_str(), claimable_type.as_str()) && x.effective_at <= now && now <= x.expired_at },
            Ghost(active_of_claimables(claimable_ids@, claimable_type@, now)),
        )
    }

    /// Removes every row; the audit trail stays.
    pub fn clear(&mut self)
        ensures
            final(self)@ == Seq::<PClaimClaimable>::empty(),
            final(self).audit_record_repository == old(self).audit_record_repository,
            final(self).wf(),
    {
        self.table.clear();
    }
}

} // verus!
