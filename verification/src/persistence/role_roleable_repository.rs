//! Role grants: which role is granted to which principal or group, and when.

use vstd::prelude::*;

use crate::common::{Constants, RbacError, SecurityContext};
use crate::persistence::audit_record_repository::{logged, AuditRecordRepository};
use crate::persistence::models::PRoleRoleable;
use crate::persistence::table::{first_index, lemma_first_index, lemma_first_index_none, Record, Table};
use crate::utils::clock;
use crate::utils::text::same_text;

verus! {

impl Record for PRoleRoleable {
    fn copy(&self) -> (r: Self) {
        self.clone()
    }
}

/// The rows with the given key.
pub open spec fn keyed(
    role_id: Seq<char>,
    roleable_id: Seq<char>,
    roleable_type: Seq<char>,
) -> spec_fn(PRoleRoleable) -> bool {
    |x: PRoleRoleable| x.role_id@ == role_id && x.roleable_id@ == roleable_id && x.roleable_type@ == roleable_type
}

/// Whether two rows have the same key.
pub open spec fn same_key(a: PRoleRoleable, b: PRoleRoleable) -> bool {
    a.role_id@ == b.role_id@ && a.roleable_id@ == b.roleable_id@ && a.roleable_type@ == b.roleable_type@
}

/// No two rows have the same key.
pub open spec fn pairs_unique(rows: Seq<PRoleRoleable>) -> bool {
    forall|i: int, j: int| 0 <= i < j < rows.len() ==> !same_key(rows[i], rows[j])
}

/// Whether `x` is the row made for the given key and the given constraints and
/// validity.
pub open spec fn grant_is(
    x: PRoleRoleable,
    role_id: Seq<char>,
    roleable_id: Seq<char>,
    roleable_type: Seq<char>,
    role_constraints: Seq<char>,
    effective_at: i64,
    expired_at: i64,
) -> bool {
    &&& x.role_id@ == role_id
    &&& x.roleable_id@ == roleable_id
    &&& x.roleable_type@ == roleable_type
    &&& x.role_constraints@ == role_constraints
    &&& x.effective_at == effective_at
    &&& x.expired_at == expired_at
}

/// The grants of roles to the principal `principal_id` that are in force at
/// `now`.
pub open spec fn active_of_principal(principal_id: Seq<char>, now: i64) -> spec_fn(PRoleRoleable) -> bool {
    |x: PRoleRoleable| x.roleable_type@ == Constants::Principal.name()
        && x.roleable_id@ == principal_id
        && x.effective_at <= now <= x.expired_at
}

/// The grants of roles to the group `group_id` that are in force at `now`.
pub open spec fn active_of_group(group_id: Seq<char>, now: i64) -> spec_fn(PRoleRoleable) -> bool {
    |x: PRoleRoleable| x.roleable_type@ == Constants::Group.name()
        && x.roleable_id@ == group_id
        && x.effective_at <= now <= x.expired_at
}

/// The grants with the given key that are in force at `now`.
pub open spec fn active_keyed(
    role_id: Seq<char>,
    roleable_id: Seq<char>,
    roleable_type: Seq<char>,
    now: i64,
) -> spec_fn(PRoleRoleable) -> bool {
    |x: PRoleRoleable| x.role_id@ == role_id
        && x.roleable_id@ == roleable_id
        && x.roleable_type@ == roleable_type
        && x.effective_at <= now <= x.expired_at
}

/// The grants of the role `role_id` that are in force at `now`.
pub open spec fn active_of_role(role_id: Seq<char>, now: i64) -> spec_fn(PRoleRoleable) -> bool {
    |x: PRoleRoleable| x.role_id@ == role_id && x.effective_at <= now <= x.expired_at
}

/// The grants to `roleable_id`, which is of the kind `roleable_type`, that are
/// in force at `now`.
pub open spec fn active_of_roleable(
    roleable_id: Seq<char>,
    roleable_type: Seq<char>,
    now: i64,
) -> spec_fn(PRoleRoleable) -> bool {
    |x: PRoleRoleable| x.roleable_id@ == roleable_id
        && x.roleable_type@ == roleable_type
        && x.effective_at <= now <= x.expired_at
}

/// The roles granted to the principal `principal_id` by grants in force at
/// `now`, in the order of the grants.
pub open spec fn role_ids_of_principal(rows: Seq<PRoleRoleable>, principal_id: Seq<char>, now: i64) -> Seq<String> {
    rows.filter(active_of_principal(principal_id, now)).map_values(|x: PRoleRoleable| x.role_id)
}

/// The roles granted to the group `group_id` by grants in force at `now`, in
/// the order of the grants.
pub open spec fn role_ids_of_group(rows: Seq<PRoleRoleable>, group_id: Seq<char>, now: i64) -> Seq<String> {
    rows.filter(active_of_group(group_id, now)).map_values(|x: PRoleRoleable| x.role_id)
}

/// The grants of roles to principals and groups.
pub struct RoleRoleableRepository {
    pub table: Table<PRoleRoleable>,
    pub audit_record_repository: AuditRecordRepository,
}

impl View for RoleRoleableRepository {
    type V = Seq<PRoleRoleable>;

    open spec fn view(&self) -> Seq<PRoleRoleable> {
        self.table@
    }
}

/// Appending a row whose key no row has keeps the keys distinct.
pub proof fn lemma_push_keeps_pairs(rows: Seq<PRoleRoleable>, row: PRoleRoleable)
    requires
        pairs_unique(rows),
        first_index(rows, keyed(row.role_id@, row.roleable_id@, row.roleable_type@)) is None,
    ensures
        pairs_unique(rows.push(row)),
{
    lemma_first_index(rows, keyed(row.role_id@, row.roleable_id@, row.roleable_type@));
}

/// Removing a row keeps the keys distinct, and where they were distinct no row
/// with the removed key is left.
pub proof fn lemma_remove_keeps_pairs(rows: Seq<PRoleRoleable>, i: int)
    requires
        pairs_unique(rows),
        0 <= i < rows.len(),
    ensures
        pairs_unique(rows.remove(i)),
        first_index(rows.remove(i), keyed(rows[i].role_id@, rows[i].roleable_id@, rows[i].roleable_type@)) is None,
{
    let rest = rows.remove(i);
    assert forall|j: int| 0 <= j < rest.len() implies !keyed(
        rows[i].role_id@,
        rows[i].roleable_id@,
        rows[i].roleable_type@,
    )(#[trigger] rest[j]) by {
        if j < i {
            assert(rest[j] == rows[j]);
            assert(!same_key(rows[j], rows[i]));
        } else {
            assert(rest[j] == rows[j + 1]);
            assert(!same_key(rows[i], rows[j + 1]));
        }
    }
    lemma_first_index_none(rest, keyed(rows[i].role_id@, rows[i].roleable_id@, rows[i].roleable_type@));
    assert forall|a: int, b: int| 0 <= a < b < rest.len() implies !same_key(rest[a], rest[b]) by {
        let a0 = if a < i { a } else { a + 1 };
        let b0 = if b < i { b } else { b + 1 };
        assert(rest[a] == rows[a0]);
        assert(rest[b] == rows[b0]);
    }
}

impl RoleRoleableRepository {
    /// No two rows have the same key.
    pub open spec fn wf(&self) -> bool {
        pairs_unique(self@)
    }

    /// An empty repository with an empty audit trail.
    pub fn new() -> (r: Self)
        ensures
            r@ == Seq::<PRoleRoleable>::empty(),
            r.audit_record_repository@.len() == 0,
            r.wf(),
    {
        RoleRoleableRepository { table: Table::new(), audit_record_repository: AuditRecordRepository::new() }
    }

    /// Whether no two rows have the same key.
    pub fn is_wf(&self) -> (b: bool)
        ensures
            b == self.wf(),
    {
        let mut j: usize = 0;
        while j < self.table.rows.len()
            invariant
                j <= self@.len(),
                forall|a: int, b: int| 0 <= a < b < j ==> !same_key(self@[a], self@[b]),
            decreases self@.len() - j,
        {
            let mut i: usize = 0;
            while i < j
                invariant
                    i <= j < self@.len(),
                    forall|a: int| 0 <= a < i ==> !same_key(self@[a], self@[j as int]),
                decreases j - i,
            {
                let one = &self.table.rows[i];
                let other = &self.table.rows[j];
                if same_text(one.role_id.as_str(), other.role_id.as_str())
                    && same_text(one.roleable_id.as_str(), other.roleable_id.as_str())
                    && same_text(
                    one.roleable_type.as_str(),
                    other.roleable_type.as_str(),
                ) {
                    proof {
                        assert(same_key(self@[i as int], self@[j as int]));
                    }
                    return false;
                }
                i += 1;
            }
            j += 1;
        }
        true
    }

    /// What storing `association` comes to: where a row with its key exists,
    /// nothing changes and the error is `Duplicate`; otherwise a copy of it is
    /// appended and the count is one.
    pub open spec fn create_outcome(
        before: Self,
        after: Self,
        association: PRoleRoleable,
        r: Result<usize,
        RbacError>,
    ) -> bool {
        let found = first_index(
            before@,
            keyed(association.role_id@, association.roleable_id@, association.roleable_type@),
        );
        &&& after.audit_record_repository == before.audit_record_repository
        &&& match r {
            Ok(n) => found is None && n == 1 && after@ == before@.push(association),
            Err(e) => found is Some && e is Duplicate && after@ == before@,
        }
    }

    /// Stores a copy of `association`.
    pub fn create(&mut self, association: &PRoleRoleable) -> (r: Result<usize, RbacError>)
        ensures
            Self::create_outcome(*old(self), *final(self), *association, r),
            old(self).wf() ==> final(self).wf(),
    {
        let found = self.table.first(
            |x: &PRoleRoleable| -> (b: bool) ensures b == keyed(association.role_id@, association.roleable_id@, association.roleable_type@)(*x) { same_text(x.role_id.as_str(), association.role_id.as_str()) && same_text(x.roleable_id.as_str(), association.roleable_id.as_str()) && same_text(x.roleable_type.as_str(), association.roleable_type.as_str()) },
            Ghost(keyed(association.role_id@, association.roleable_id@, association.roleable_type@)),
        );
        match found {
            Some(_) => Err(RbacError::Duplicate("UNIQUE constraint failed: rbac_role_roleables".to_string())),
            None => {
                proof {
                    if old(self).wf() {
                        lemma_push_keeps_pairs(old(self)@, *association);
                    }
                }
                self.table.push(association.clone());
                Ok(1)
            },
        }
    }

    /// What deleting the row with the given key comes to: the first such row
    /// is removed and the count is one, or there is none, nothing is removed
    /// and the count is zero.
    pub open spec fn delete_outcome(
        before: Self,
        after: Self,
        role_id: Seq<char>,
        roleable_id: Seq<char>,
        roleable_type: Seq<char>,
        r: Result<usize,
        RbacError>,
    ) -> bool {
        let found = first_index(before@, keyed(role_id, roleable_id, roleable_type));
        &&& r is Ok
        &&& match found {
            Some(i) => r->Ok_0 == 1 && after@ == before@.remove(i),
            None => r->Ok_0 == 0 && after@ == before@,
        }
    }

    /// Deletes the row that has the key of `association`.
    pub fn delete(&mut self, association: &PRoleRoleable) -> (r: Result<usize, RbacError>)
        ensures
            Self::delete_outcome(
                *old(self),
                *final(self),
                association.role_id@,
                association.roleable_id@,
                association.roleable_type@,
                r,
            ),
            final(self).audit_record_repository == old(self).audit_record_repository,
            old(self).wf() ==> final(self).wf(),
            old(self).wf() ==> first_index(
                final(self)@,
                keyed(association.role_id@, association.roleable_id@, association.roleable_type@),
            ) is None,
    {
        let found = self.table.first(
            |x: &PRoleRoleable| -> (b: bool) ensures b == keyed(association.role_id@, association.roleable_id@, association.roleable_type@)(*x) { same_text(x.role_id.as_str(), association.role_id.as_str()) && same_text(x.roleable_id.as_str(), association.roleable_id.as_str()) && same_text(x.roleable_type.as_str(), association.roleable_type.as_str()) },
            Ghost(keyed(association.role_id@, association.roleable_id@, association.roleable_type@)),
        );
        match found {
            Some(i) => {
                proof {
                    lemma_first_index(
                        self@,
                        keyed(association.role_id@, association.roleable_id@, association.roleable_type@),
                    );
                    if old(self).wf() {
                        lemma_remove_keeps_pairs(old(self)@, i as int);
                    }
                }
                self.table.remove_at(i);
                Ok(1)
            },
            None => Ok(0),
        }
    }

    /// What granting comes to: where a row with the key exists, nothing
    /// changes and the error is `Duplicate`; otherwise the row made for the
    /// grant is appended, the count is one, and the grant is entered in the
    /// audit trail under the message `text` followed by the first part of the
    /// key.
    pub open spec fn add_outcome(
        before: Self,
        after: Self,
        ctx: SecurityContext,
        role_id: Seq<char>, roleable_id: Seq<char>, roleable_type: Seq<char>, role_constraints: Seq<char>, effective_at: i64, expired_at: i64,
        text: Seq<char>,
        r: Result<usize, RbacError>,
    ) -> bool {
        let found = first_index(before@, keyed(role_id, roleable_id, roleable_type));
        match r {
            Ok(n) => {
                &&& found is None
                &&& n == 1
                &&& after@.len() == before@.len() + 1
                &&& after@.drop_last() == before@
                &&& grant_is(
                    after@.last(),
                    role_id,
                    roleable_id,
                    roleable_type,
                    role_constraints,
                    effective_at,
                    expired_at,
                )
                &&& logged(
                    before.audit_record_repository@,
                    after.audit_record_repository@,
                    ctx,
                    "CREATE"@,
                    text + role_id,
                )
            },
            Err(e) => {
                &&& found is Some
                &&& e is Duplicate
                &&& after@ == before@
                &&& after.audit_record_repository == before.audit_record_repository
            },
        }
    }

    /// Stores `row` and enters the grant in the audit trail.
    fn add(&mut self, ctx: &SecurityContext, row: PRoleRoleable, text: &str) -> (r: Result<usize, RbacError>)
        ensures
            Self::add_outcome(
                *old(self),
                *final(self),
                *ctx,
                row.role_id@,
                row.roleable_id@,
                row.roleable_type@,
                row.role_constraints@,
                row.effective_at,
                row.expired_at,
                text@,
                r,
            ),
            old(self).wf() ==> final(self).wf(),
    {
        match self.create(&row) {
            Ok(n) => {
                proof {
                    assert(self@.drop_last() =~= old(self)@);
                }
                self.audit_record_repository.log(ctx, text, row.role_id.as_str(), "CREATE");
                Ok(n)
            },
            Err(e) => Err(e),
        }
    }

    /// What revoking comes to: the first row with the key is removed and the
    /// count is one, or there is none, nothing is removed and the count is
    /// zero; either way the revocation is entered in the audit trail under the
    /// message `text` followed by the first part of the key.
    pub open spec fn remove_outcome(
        before: Self,
        after: Self,
        ctx: SecurityContext,
        role_id: Seq<char>, roleable_id: Seq<char>, roleable_type: Seq<char>,
        text: Seq<char>,
        r: Result<usize, RbacError>,
    ) -> bool {
        &&& Self::delete_outcome(before, after, role_id, roleable_id, roleable_type, r)
        &&& logged(before.audit_record_repository@, after.audit_record_repository@, ctx, "DELETE"@, text + role_id)
    }

    /// Deletes the row with the given key and enters the revocation in the
    /// audit trail.
    fn remove(
        &mut self,
        ctx: &SecurityContext,
        role_id: &str,
        roleable_id: &str,
        roleable_type: &str,
        text: &str,
    ) -> (r: Result<usize, RbacError>)
        ensures
            Self::remove_outcome(*old(self), *final(self), *ctx, role_id@, roleable_id@, roleable_type@, text@, r),
            old(self).wf() ==> final(self).wf(),
            old(self).wf() ==> first_index(final(self)@, keyed(role_id@, roleable_id@, roleable_type@)) is None,
    {
        let found = self.table.first(
            |x: &PRoleRoleable| -> (b: bool) ensures b == keyed(role_id@, roleable_id@, roleable_type@)(*x) { same_text(x.role_id.as_str(), role_id) && same_text(x.roleable_id.as_str(), roleable_id) && same_text(x.roleable_type.as_str(), roleable_type) },
            Ghost(keyed(role_id@, roleable_id@, roleable_type@)),
        );
        let n: usize = match found {
            Some(i) => {
                proof {
                    lemma_first_index(self@, keyed(role_id@, roleable_id@, roleable_type@));
                    if old(self).wf() {
                        lemma_remove_keeps_pairs(old(self)@, i as int);
                    }
                }
                self.table.remove_at(i);
                1
            },
            None => 0,
        };
        self.audit_record_repository.log(ctx, text, role_id, "DELETE");
        Ok(n)
    }

    /// Grants the role to the principal, from `effective_at` to `expired_at`.
    pub fn add_principal_to_role(
        &mut self,
        ctx: &SecurityContext,
        role_id: &str,
        principal_id: &str,
        constraints: &str,
        effective_at: i64,
        expired_at: i64,
    ) -> (r: Result<usize, RbacError>)
        ensures
            Self::add_outcome(
                *old(self),
                *final(self),
                *ctx,
                role_id@,
                principal_id@,
                Constants::Principal.name(),
                constraints@,
                effective_at,
                expired_at,
                "Adding principal to role "@,
                r,
            ),
            old(self).wf() ==> final(self).wf(),
    {
        let kind = Constants::Principal.to_string();
        let row = PRoleRoleable::new(role_id, principal_id, kind.as_str(), constraints, effective_at, expired_at);
        self.add(ctx, row, "Adding principal to role ")
    }

    /// Revokes the role from the principal.
    pub fn delete_principal_from_role(
        &mut self,
        ctx: &SecurityContext,
        role_id: &str,
        principal_id: &str,
    ) -> (r: Result<usize, RbacError>)
        ensures
            Self::remove_outcome(
                *old(self),
                *final(self),
                *ctx,
                role_id@,
                principal_id@,
                Constants::Principal.name(),
                "Removing principal from role "@,
                r,
            ),
            old(self).wf() ==> final(self).wf(),
            old(self).wf() ==> first_index(
                final(self)@,
                keyed(role_id@, principal_id@, Constants::Principal.name()),
            ) is None,
    {
        let kind = Constants::Principal.to_string();
        self.remove(ctx, role_id, principal_id, kind.as_str(), "Removing principal from role ")
    }

    /// Grants the role to the group, from `effective_at` to `expired_at`.
    pub fn add_group_to_role(
        &mut self,
        ctx: &SecurityContext,
        role_id: &str,
        group_id: &str,
        constraints: &str,
        effective_at: i64,
        expired_at: i64,
    ) -> (r: Result<usize, RbacError>)
        ensures
            Self::add_outcome(
                *old(self),
                *final(self),
                *ctx,
                role_id@,
                group_id@,
                Constants::Group.name(),
                constraints@,
                effective_at,
                expired_at,
                "Adding group to role "@,
                r,
            ),
            old(self).wf() ==> final(self).wf(),
    {
        let kind = Constants::Group.to_string();
        let row = PRoleRoleable::new(role_id, group_id, kind.as_str(), constraints, effective_at, expired_at);
        self.add(ctx, row, "Adding group to role ")
    }

    /// Revokes the role from the group.
    pub fn delete_group_from_role(
        &mut self,
        ctx: &SecurityContext,
        role_id: &str,
        group_id: &str,
    ) -> (r: Result<usize, RbacError>)
        ensures
            Self::remove_outcome(
                *old(self),
                *final(self),
                *ctx,
                role_id@,
                group_id@,
                Constants::Group.name(),
                "Removing group from role "@,
                r,
            ),
            old(self).wf() ==> final(self).wf(),
            old(self).wf() ==> first_index(final(self)@, keyed(role_id@, group_id@, Constants::Group.name())) is None,
    {
        let kind = Constants::Group.to_string();
        self.remove(ctx, role_id, group_id, kind.as_str(), "Removing group from role ")
    }

    /// The roles granted to a principal by grants in force at `now`, in the
    /// order of the grants. The instant is read from the clock.
    pub fn get_role_ids_by_principal(&self, principal_id: &str) -> (out: Vec<String>)
        ensures
            exists|now: i64| out@ == self@.filter(
                active_of_principal(principal_id@, now)
            ).map_values(|x: PRoleRoleable| x.role_id),
    {
        let now = clock::now();
        self.get_role_ids_by_principal_at(principal_id, now)
    }

    /// The roles granted to a principal by grants in force at `now`, in the
    /// order of the grants.
    pub fn get_role_ids_by_principal_at(&self, principal_id: &str, now: i64) -> (out: Vec<String>)
        ensures
            out@ == self@.filter(active_of_principal(principal_id@, now)).map_values(|x: PRoleRoleable| x.role_id),
    {
        let rows = self.table.select(
            |x: &PRoleRoleable| -> (b: bool) ensures b == active_of_principal(principal_id@, now)(*x) { same_text(x.roleable_type.as_str(), "Principal") && same_text(x.roleable_id.as_str(), principal_id) && x.effective_at <= now && now <= x.expired_at },
            Ghost(active_of_principal(principal_id@, now)),
        );
        let mut out: Vec<String> = Vec::new();
        let mut i: usize = 0;
        while i < rows.len()
            invariant
                i <= rows@.len(),
                out@ == rows@.take(i as int).map_values(|x: PRoleRoleable| x.role_id),
            decreases rows@.len() - i,
        {
            out.push(rows[i].role_id.clone());
            proof {
                assert(rows@.take(i + 1) =~= rows@.take(i as int).push(rows@[i as int]));
                assert(out@ =~= rows@.take(i + 1).map_values(|x: PRoleRoleable| x.role_id));
            }
            i += 1;
        }
        proof {
            assert(rows@.take(i as int) =~= rows@);
        }
        out
    }

    /// The roles granted to a group by grants in force at `now`, in the order
    /// of the grants. The instant is read from the clock.
    pub fn get_role_ids_by_group(&self, group_id: String) -> (out: Vec<String>)
        ensures
            exists|now: i64| out@ == self@.filter(
                active_of_group(group_id@, now)
            ).map_values(|x: PRoleRoleable| x.role_id),
    {
        let now = clock::now();
        self.get_role_ids_by_group_at(group_id, now)
    }

    /// The roles granted to a group by grants in force at `now`, in the order
    /// of the grants.
    pub fn get_role_ids_by_group_at(&self, group_id: String, now: i64) -> (out: Vec<String>)
        ensures
            out@ == self@.filter(active_of_group(group_id@, now)).map_values(|x: PRoleRoleable| x.role_id),
    {
        let rows = self.table.select(
            |x: &PRoleRoleable| -> (b: bool) ensures b == active_of_group(group_id@, now)(*x) { same_text(x.roleable_type.as_str(), "Group") && same_text(x.roleable_id.as_str(), group_id.as_str()) && x.effective_at <= now && now <= x.expired_at },
            Ghost(active_of_group(group_id@, now)),
        );
        let mut out: Vec<String> = Vec::new();
        let mut i: usize = 0;
        while i < rows.len()
            invariant
                i <= rows@.len(),
                out@ == rows@.take(i as int).map_values(|x: PRoleRoleable| x.role_id),
            decreases rows@.len() - i,
        {
            out.push(rows[i].role_id.clone());
            proof {
                assert(rows@.take(i + 1) =~= rows@.take(i as int).push(rows@[i as int]));
                assert(out@ =~= rows@.take(i + 1).map_values(|x: PRoleRoleable| x.role_id));
            }
            i += 1;
        }
        proof {
            assert(rows@.take(i as int) =~= rows@);
        }
        out
    }

    /// Whether a grant with the key of `rr` is in force at `now`. The instant
    /// is read from the clock.
    pub fn has_association(&self, rr: &PRoleRoleable) -> (out: bool)
        ensures
            exists|now: i64| out == (
                first_index(self@, active_keyed(rr.role_id@, rr.roleable_id@, rr.roleable_type@, now)) is Some
            ),
    {
        let now = clock::now();
        self.has_association_at(rr, now)
    }

    /// Whether a grant with the key of `rr` is in force at `now`.
    pub fn has_association_at(&self, rr: &PRoleRoleable, now: i64) -> (out: bool)
        ensures
            out == (first_index(self@, active_keyed(rr.role_id@, rr.roleable_id@, rr.roleable_type@, now)) is Some),
    {
        self.table.first(
            |x: &PRoleRoleable| -> (b: bool) ensures b == active_keyed(rr.role_id@, rr.roleable_id@, rr.roleable_type@, now)(*x) { same_text(x.role_id.as_str(), rr.role_id.as_str()) && same_text(x.roleable_id.as_str(), rr.roleable_id.as_str()) && same_text(x.roleable_type.as_str(), rr.roleable_type.as_str()) && x.effective_at <= now && now <= x.expired_at },
            Ghost(active_keyed(rr.role_id@, rr.roleable_id@, rr.roleable_type@, now)),
        ).is_some()
    }

    /// The grants of a role that are in force at `now`, in the order in which
    /// they were made. The instant is read from the clock.
    pub fn get_by_role(&self, role_id: &str) -> (out: Vec<PRoleRoleable>)
        ensures
            exists|now: i64| out@ == self@.filter(active_of_role(role_id@, now)),
    {
        let now = clock::now();
        self.get_by_role_at(role_id, now)
    }

    /// The grants of a role that are in force at `now`, in the order in which
    /// they were made.
    pub fn get_by_role_at(&self, role_id: &str, now: i64) -> (out: Vec<PRoleRoleable>)
        ensures
            out@ == self@.filter(active_of_role(role_id@, now)),
    {
        self.table.select(
            |x: &PRoleRoleable| -> (b: bool) ensures b == active_of_role(role_id@, now)(*x) { same_text(x.role_id.as_str(), role_id) && x.effective_at <= now && now <= x.expired_at },
            Ghost(active_of_role(role_id@, now)),
        )
    }

    /// The grants to a principal or group that are in force at `now`, in the
    /// order in which they were made. The instant is read from the clock.
    pub fn get_by_roleable(&self, roleable_id: &str, roleable_type: &str) -> (out: Vec<PRoleRoleable>)
        ensures
            exists|now: i64| out@ == self@.filter(active_of_roleable(roleable_id@, roleable_type@, now)),
    {
        let now = clock::now();
        self.get_by_roleable_at(roleable_id, roleable_type, now)
    }

    /// The grants to a principal or group that are in force at `now`, in the
    /// order in which they were made.
    pub fn get_by_roleable_at(&self, roleable_id: &str, roleable_type: &str, now: i64) -> (out: Vec<PRoleRoleable>)
        ensures
            out@ == self@.filter(active_of_roleable(roleable_id@, roleable_type@, now)),
    {
        self.table.select(
            |x: &PRoleRoleable| -> (b: bool) ensures b == active_of_roleable(roleable_id@, roleable_type@, now)(*x) { same_text(x.roleable_id.as_str(), roleable_id) && same_text(x.roleable_type.as_str(), roleable_type) && x.effective_at <= now && now <= x.expired_at },
            Ghost(active_of_roleable(roleable_id@, roleable_type@, now)),
        )
    }

    /// Removes every row; the audit trail stays.
    pub fn clear(&mut self)
        ensures
            final(self)@ == Seq::<PRoleRoleable>::empty(),
            final(self).audit_record_repository == old(self).audit_record_repository,
            final(self).wf(),
    {
        self.table.clear();
    }
}

} // verus!
