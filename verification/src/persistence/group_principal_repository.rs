//! Memberships: which principal belongs to which group.

use vstd::prelude::*;

use crate::common::{RbacError, SecurityContext};
use crate::persistence::audit_record_repository::{logged, AuditRecordRepository};
use crate::persistence::models::PGroupPrincipal;
use crate::persistence::table::{first_index, lemma_first_index, lemma_first_index_none, Record, Table};
use crate::utils::text::same_text;

verus! {

impl Record for PGroupPrincipal {
    fn copy(&self) -> (r: Self) {
        self.clone()
    }
}

/// The rows with the given key.
pub open spec fn keyed(group_id: Seq<char>, principal_id: Seq<char>) -> spec_fn(PGroupPrincipal) -> bool {
    |x: PGroupPrincipal| x.group_id@ == group_id && x.principal_id@ == principal_id
}

/// Whether two rows have the same key.
pub open spec fn same_key(a: PGroupPrincipal, b: PGroupPrincipal) -> bool {
    a.group_id@ == b.group_id@ && a.principal_id@ == b.principal_id@
}

/// No two rows have the same key.
pub open spec fn pairs_unique(rows: Seq<PGroupPrincipal>) -> bool {
    forall|i: int, j: int| 0 <= i < j < rows.len() ==> !same_key(rows[i], rows[j])
}

/// Whether `x` is the row made for the given key.
pub open spec fn grant_is(x: PGroupPrincipal, group_id: Seq<char>, principal_id: Seq<char>) -> bool {
    &&& x.group_id@ == group_id
    &&& x.principal_id@ == principal_id
}

/// The memberships in the group `group_id`.
pub open spec fn of_group(group_id: Seq<char>) -> spec_fn(PGroupPrincipal) -> bool {
    |x: PGroupPrincipal| x.group_id@ == group_id
}

/// The memberships of the principal `principal_id`.
pub open spec fn of_principal(principal_id: Seq<char>) -> spec_fn(PGroupPrincipal) -> bool {
    |x: PGroupPrincipal| x.principal_id@ == principal_id
}

/// The groups that the principal `principal_id` is a member of, in the order
/// in which it joined them.
pub open spec fn group_ids_of(rows: Seq<PGroupPrincipal>, principal_id: Seq<char>) -> Seq<String> {
    rows.filter(of_principal(principal_id)).map_values(|x: PGroupPrincipal| x.group_id)
}

/// The memberships of principals in groups.
pub struct GroupPrincipalRepository {
    pub table: Table<PGroupPrincipal>,
    pub audit_record_repository: AuditRecordRepository,
}

impl View for GroupPrincipalRepository {
    type V = Seq<PGroupPrincipal>;

    open spec fn view(&self) -> Seq<PGroupPrincipal> {
        self.table@
    }
}

/// Appending a row whose key no row has keeps the keys distinct.
pub proof fn lemma_push_keeps_pairs(rows: Seq<PGroupPrincipal>, row: PGroupPrincipal)
    requires
        pairs_unique(rows),
        first_index(rows, keyed(row.group_id@, row.principal_id@)) is None,
    ensures
        pairs_unique(rows.push(row)),
{
    lemma_first_index(rows, keyed(row.group_id@, row.principal_id@));
}

/// Removing a row keeps the keys distinct, and where they were distinct no row
/// with the removed key is left.
pub proof fn lemma_remove_keeps_pairs(rows: Seq<PGroupPrincipal>, i: int)
    requires
        pairs_unique(rows),
        0 <= i < rows.len(),
    ensures
        pairs_unique(rows.remove(i)),
        first_index(rows.remove(i), keyed(rows[i].group_id@, rows[i].principal_id@)) is None,
{
    let rest = rows.remove(i);
    assert forall|j: int| 0 <= j < rest.len() implies !keyed(
        rows[i].group_id@,
        rows[i].principal_id@,
    )(#[trigger] rest[j]) by {
        if j < i {
            assert(rest[j] == rows[j]);
            assert(!same_key(rows[j], rows[i]));
        } else {
            assert(rest[j] == rows[j + 1]);
            assert(!same_key(rows[i], rows[j + 1]));
        }
    }
    lemma_first_index_none(rest, keyed(rows[i].group_id@, rows[i].principal_id@));
    assert forall|a: int, b: int| 0 <= a < b < rest.len() implies !same_key(rest[a], rest[b]) by {
        let a0 = if a < i { a } else { a + 1 };
        let b0 = if b < i { b } else { b + 1 };
        assert(rest[a] == rows[a0]);
        assert(rest[b] == rows[b0]);
    }
}

impl GroupPrincipalRepository {
    /// No two rows have the same key.
    pub open spec fn wf(&self) -> bool {
        pairs_unique(self@)
    }

    /// An empty repository with an empty audit trail.
    pub fn new() -> (r: Self)
        ensures
            r@ == Seq::<PGroupPrincipal>::empty(),
            r.audit_record_repository@.len() == 0,
            r.wf(),
    {
        GroupPrincipalRepository { table: Table::new(), audit_record_repository: AuditRecordRepository::new() }
    }

    /// Whether no two rows have the same key.
    pub fn is_wf(&self) -> (b: bool)
        ensures
            b == self.wf(),
    {
        let mut j: usize = 0;
        while j < self.table.rows.len()
            invariant
                j <= self@.len(),
                forall|a: int, b: int| 0 <= a < b < j ==> !same_key(self@[a], self@[b]),
            decreases self@.len() - j,
        {
            let mut i: usize = 0;
            while i < j
                invariant
                    i <= j < self@.len(),
                    forall|a: int| 0 <= a < i ==> !same_key(self@[a], self@[j as int]),
                decreases j - i,
            {
                let one = &self.table.rows[i];
                let other = &self.table.rows[j];
                if same_text(one.group_id.as_str(), other.group_id.as_str()) && same_text(
                    one.principal_id.as_str(),
                    other.principal_id.as_str(),
                ) {
                    proof {
                        assert(same_key(self@[i as int], self@[j as int]));
                    }
                    return false;
                }
                i += 1;
            }
            j += 1;
        }
        true
    }

    /// What storing `association` comes to: where a row with its key exists,
    /// nothing changes and the error is `Duplicate`; otherwise a copy of it is
    /// appended and the count is one.
    pub open spec fn create_outcome(
        before: Self,
        after: Self,
        association: PGroupPrincipal,
        r: Result<usize,
        RbacError>,
    ) -> bool {
        let found = first_index(before@, keyed(association.group_id@, association.principal_id@));
        &&& after.audit_record_repository == before.audit_record_repository
        &&& match r {
            Ok(n) => found is None && n == 1 && after@ == before@.push(association),
            Err(e) => found is Some && e is Duplicate && after@ == before@,
        }
    }

    /// Stores a copy of `association`.
    pub fn create(&mut self, association: &PGroupPrincipal) -> (r: Result<usize, RbacError>)
        ensures
            Self::create_outcome(*old(self), *final(self), *association, r),
            old(self).wf() ==> final(self).wf(),
    {
        let found = self.table.first(
            |x: &PGroupPrincipal| -> (b: bool) ensures b == keyed(association.group_id@, association.principal_id@)(*x) { same_text(x.group_id.as_str(), association.group_id.as_str()) && same_text(x.principal_id.as_str(), association.principal_id.as_str()) },
            Ghost(keyed(association.group_id@, association.principal_id@)),
        );
        match found {
            Some(_) => Err(RbacError::Duplicate("UNIQUE constraint failed: rbac_group_principals".to_string())),
            None => {
                proof {
                    if old(self).wf() {
                        lemma_push_keeps_pairs(old(self)@, *association);
                    }
                }
                self.table.push(association.clone());
                Ok(1)
            },
        }
    }

    /// What deleting the row with the given key comes to: the first such row
    /// is removed and the count is one, or there is none, nothing is removed
    /// and the count is zero.
    pub open spec fn delete_outcome(
        before: Self,
        after: Self,
        group_id: Seq<char>,
        principal_id: Seq<char>,
        r: Result<usize,
        RbacError>,
    ) -> bool {
        let found = first_index(before@, keyed(group_id, principal_id));
        &&& r is Ok
        &&& match found {
            Some(i) => r->Ok_0 == 1 && after@ == before@.remove(i),
            None => r->Ok_0 == 0 && after@ == before@,
        }
    }

    /// Deletes the row that has the key of `association`.
    pub fn delete(&mut self, association: &PGroupPrincipal) -> (r: Result<usize, RbacError>)
        ensures
            Self::delete_outcome(*old(self), *final(self), association.group_id@, association.principal_id@, r),
            final(self).audit_record_repository == old(self).audit_record_repository,
            old(self).wf() ==> final(self).wf(),
            old(self).wf() ==> first_index(
                final(self)@,
                keyed(association.group_id@, association.principal_id@),
            ) is None,
    {
        let found = self.table.first(
            |x: &PGroupPrincipal| -> (b: bool) ensures b == keyed(association.group_id@, association.principal_id@)(*x) { same_text(x.group_id.as_str(), association.group_id.as_str()) && same_text(x.principal_id.as_str(), association.principal_id.as_str()) },
            Ghost(keyed(association.group_id@, association.principal_id@)),
        );
        match found {
            Some(i) => {
                proof {
                    lemma_first_index(self@, keyed(association.group_id@, association.principal_id@));
                    if old(self).wf() {
                        lemma_remove_keeps_pairs(old(self)@, i as int);
                    }
                }
                self.table.remove_at(i);
                Ok(1)
            },
            None => Ok(0),
        }
    }

    /// What granting comes to: where a row with the key exists, nothing
    /// changes and the error is `Duplicate`; otherwise the row made for the
    /// grant is appended, the count is one, and the grant is entered in the
    /// audit trail under the message `text` followed by the first part of the
    /// key.
    pub open spec fn add_outcome(
        before: Self,
        after: Self,
        ctx: SecurityContext,
        group_id: Seq<char>, principal_id: Seq<char>,
        text: Seq<char>,
        r: Result<usize, RbacError>,
    ) -> bool {
        let found = first_index(before@, keyed(group_id, principal_id));
        match r {
            Ok(n) => {
                &&& found is None
                &&& n == 1
                &&& after@.len() == before@.len() + 1
                &&& after@.drop_last() == before@
                &&& grant_is(after@.last(), group_id, principal_id)
                &&& logged(
                    before.audit_record_repository@,
                    after.audit_record_repository@,
                    ctx,
                    "CREATE"@,
                    text + group_id,
                )
            },
            Err(e) => {
                &&& found is Some
                &&& e is Duplicate
                &&& after@ == before@
                &&& after.audit_record_repository == before.audit_record_repository
            },
        }
    }

    /// Stores `row` and enters the grant in the audit trail.
    fn add(&mut self, ctx: &SecurityContext, row: PGroupPrincipal, text: &str) -> (r: Result<usize, RbacError>)
        ensures
            Self::add_outcome(*old(self), *final(self), *ctx, row.group_id@, row.principal_id@, text@, r),
            old(self).wf() ==> final(self).wf(),
    {
        match self.create(&row) {
            Ok(n) => {
                proof {
                    assert(self@.drop_last() =~= old(self)@);
                }
                self.audit_record_repository.log(ctx, text, row.group_id.as_str(), "CREATE");
                Ok(n)
            },
            Err(e) => Err(e),
        }
    }

    /// What revoking comes to: the first row with the key is removed and the
    /// count is one, or there is none, nothing is removed and the count is
    /// zero; either way the revocation is entered in the audit trail under the
    /// message `text` followed by the first part of the key.
    pub open spec fn remove_outcome(
        before: Self,
        after: Self,
        ctx: SecurityContext,
        group_id: Seq<char>, principal_id: Seq<char>,
        text: Seq<char>,
        r: Result<usize, RbacError>,
    ) -> bool {
        &&& Self::delete_outcome(before, after, group_id, principal_id, r)
        &&& logged(before.audit_record_repository@, after.audit_record_repository@, ctx, "DELETE"@, text + group_id)
    }

    /// Deletes the row with the given key and enters the revocation in the
    /// audit trail.
    fn remove(
        &mut self,
        ctx: &SecurityContext,
        group_id: &str,
        principal_id: &str,
        text: &str,
    ) -> (r: Result<usize, RbacError>)
        ensures
            Self::remove_outcome(*old(self), *final(self), *ctx, group_id@, principal_id@, text@, r),
            old(self).wf() ==> final(self).wf(),
            old(self).wf() ==> first_index(final(self)@, keyed(group_id@, principal_id@)) is None,
    {
        let found = self.table.first(
            |x: &PGroupPrincipal| -> (b: bool) ensures b == keyed(group_id@, principal_id@)(*x) { same_text(x.group_id.as_str(), group_id) && same_text(x.principal_id.as_str(), principal_id) },
            Ghost(keyed(group_id@, principal_id@)),
        );
        let n: usize = match found {
            Some(i) => {
                proof {
                    lemma_first_index(self@, keyed(group_id@, principal_id@));
                    if old(self).wf() {
                        lemma_remove_keeps_pairs(old(self)@, i as int);
                    }
                }
                self.table.remove_at(i);
                1
            },
            None => 0,
        };
        self.audit_record_repository.log(ctx, text, group_id, "DELETE");
        Ok(n)
    }

    /// Makes the principal a member of the group.
    pub fn add_principal_to_group(
        &mut self,
        ctx: &SecurityContext,
        group_id: &str,
        principal_id: &str,
    ) -> (r: Result<usize, RbacError>)
        ensures
            Self::add_outcome(
                *old(self),
                *final(self),
                *ctx,
                group_id@,
                principal_id@,
                "Adding principal to group "@,
                r,
            ),
            old(self).wf() ==> final(self).wf(),
    {
        let row = PGroupPrincipal::new(group_id, principal_id);
        self.add(ctx, row, "Adding principal to group ")
    }

    /// Ends the membership of the principal in the group.
    pub fn delete_principal_from_group(
        &mut self,
        ctx: &SecurityContext,
        group_id: &str,
        principal_id: &str,
    ) -> (r: Result<usize, RbacError>)
        ensures
            Self::remove_outcome(
                *old(self),
                *final(self),
                *ctx,
                group_id@,
                principal_id@,
                "Removing principal from group "@,
                r,
            ),
            old(self).wf() ==> final(self).wf(),
            old(self).wf() ==> first_index(final(self)@, keyed(group_id@, principal_id@)) is None,
    {
        self.remove(ctx, group_id, principal_id, "Removing principal from group ")
    }

    /// Whether the principal of `association` is a member of its group.
    pub fn has_association(&self, association: &PGroupPrincipal) -> (out: bool)
        ensures
            out == (first_index(self@, keyed(association.group_id@, association.principal_id@)) is Some),
    {
        self.table.first(
            |x: &PGroupPrincipal| -> (b: bool) ensures b == keyed(association.group_id@, association.principal_id@)(*x) { same_text(x.group_id.as_str(), association.group_id.as_str()) && same_text(x.principal_id.as_str(), association.principal_id.as_str()) },
            Ghost(keyed(association.group_id@, association.principal_id@)),
        ).is_some()
    }

    /// The memberships in a group, in the order in which they were made.
    pub fn get_by_group(&self, group_id: &str) -> (out: Vec<PGroupPrincipal>)
        ensures
            out@ == self@.filter(of_group(group_id@)),
    {
        self.table.select(
            |x: &PGroupPrincipal| -> (b: bool) ensures b == of_group(group_id@)(*x) { same_text(x.group_id.as_str(), group_id) },
            Ghost(of_group(group_id@)),
        )
    }

    /// The memberships of a principal, in the order in which they were made.
    pub fn get_by_principal(&self, principal_id: &str) -> (out: Vec<PGroupPrincipal>)
        ensures
            out@ == self@.filter(of_principal(principal_id@)),
    {
        self.table.select(
            |x: &PGroupPrincipal| -> (b: bool) ensures b == of_principal(principal_id@)(*x) { same_text(x.principal_id.as_str(), principal_id) },
            Ghost(of_principal(principal_id@)),
        )
    }

    /// The groups that a principal is a member of, in the order in which it
    /// joined them.
    pub fn get_group_ids_by_principal(&self, principal_id: &str) -> (out: Vec<String>)
        ensures
            out@ == self@.filter(of_principal(principal_id@)).map_values(|x: PGroupPrincipal| x.group_id),
    {
        let rows = self.table.select(
            |x: &PGroupPrincipal| -> (b: bool) ensures b == of_principal(principal_id@)(*x) { same_text(x.principal_id.as_str(), principal_id) },
            Ghost(of_principal(principal_id@)),
        );
        let mut out: Vec<String> = Vec::new();
        let mut i: usize = 0;
        while i < rows.len()
            invariant
                i <= rows@.len(),
                out@ == rows@.take(i as int).map_values(|x: PGroupPrincipal| x.group_id),
            decreases rows@.len() - i,
        {
            out.push(rows[i].group_id.clone());
            proof {
                assert(rows@.take(i + 1) =~= rows@.take(i as int).push(rows@[i as int]));
                assert(out@ =~= rows@.take(i + 1).map_values(|x: PGroupPrincipal| x.group_id));
            }
            i += 1;
        }
        proof {
            assert(rows@.take(i as int) =~= rows@);
        }
        out
    }

    /// Removes every row; the audit trail stays.
    pub fn clear(&mut self)
        ensures
            final(self)@ == Seq::<PGroupPrincipal>::empty(),
            final(self).audit_record_repository == old(self).audit_record_repository,
            final(self).wf(),
    {
        self.table.clear();
    }
}

} // verus!
