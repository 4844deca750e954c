//! Role inheritance: which roles a set of granted roles brings with it, by way
//! of the parents of the roles.

use vstd::prelude::*;

use crate::domain::models::Role;
use crate::persistence::table::{
    by_key, first_index, keys_unique, lemma_first_index, lemma_first_index_is, position_in,
};

verus! {

/// The index in `roles` of the role with the identifier `id`.
pub open spec fn role_index(roles: Seq<Role>, id: Seq<char>) -> Option<int> {
    first_index(roles, by_key::<Role>(id))
}

/// The identifier that stands `k` steps up the chain of parents from `id`, as
/// long as the chain stays inside `roles`.
pub open spec fn ancestor(roles: Seq<Role>, id: Seq<char>, k: nat) -> Option<Seq<char>>
    decreases k,
{
    if k == 0 {
        if role_index(roles, id) is Some {
            Some(id)
        } else {
            None
        }
    } else {
        match ancestor(roles, id, (k - 1) as nat) {
            Some(a) => match roles[role_index(roles, a)->0].parent_id {
                Some(p) => if role_index(roles, p@) is Some {
                    Some(p@)
                } else {
                    None
                },
                None => None,
            },
            None => None,
        }
    }
}

/// Whether the role `id` is one of `starts` or an ancestor of one of them
/// inside `roles`.
pub open spec fn reached(roles: Seq<Role>, starts: spec_fn(Seq<char>) -> bool, id: Seq<char>) -> bool {
    exists|s: Seq<char>, k: nat| starts(s) && #[trigger] ancestor(roles, s, k) == Some(id)
}

/// The roles of `roles` that are reached from `starts`.
pub open spec fn reached_role(roles: Seq<Role>, starts: spec_fn(Seq<char>) -> bool) -> spec_fn(Role) -> bool {
    |r: Role| reached(roles, starts, r.id@)
}

/// Going up `m` steps from what stands `k` steps up is going up `k + m` steps.
pub proof fn lemma_ancestor_of_ancestor(roles: Seq<Role>, id: Seq<char>, k: nat, m: nat)
    requires
        ancestor(roles, id, k) is Some,
    ensures
        ancestor(roles, ancestor(roles, id, k)->0, m) == ancestor(roles, id, k + m),
    decreases m,
{
    if m > 0 {
        lemma_ancestor_of_ancestor(roles, id, k, (m - 1) as nat);
    } else {
        lemma_ancestor_exists(roles, id, k);
    }
}

/// What stands on the chain of parents is a role of `roles`.
pub proof fn lemma_ancestor_exists(roles: Seq<Role>, id: Seq<char>, k: nat)
    requires
        ancestor(roles, id, k) is Some,
    ensures
        role_index(roles, ancestor(roles, id, k)->0) is Some,
    decreases k,
{
    if k > 0 {
        lemma_ancestor_exists(roles, id, (k - 1) as nat);
    }
}

/// Inheritance is closed under ancestry: with a role, every ancestor of it
/// inside `roles` is reached.
pub proof fn lemma_ancestors_are_reached(
    roles: Seq<Role>,
    starts: spec_fn(Seq<char>) -> bool,
    id: Seq<char>,
    m: nat,
)
    requires
        reached(roles, starts, id),
        ancestor(roles, id, m) is Some,
    ensures
        reached(roles, starts, ancestor(roles, id, m)->0),
{
    let (s, k) = choose|s: Seq<char>, k: nat| starts(s) && #[trigger] ancestor(roles, s, k) == Some(id);
    lemma_ancestor_of_ancestor(roles, s, k, m);
    assert(starts(s) && ancestor(roles, s, k + m) == Some(ancestor(roles, id, m)->0));
}

/// With a role, its parent is reached, if `roles` has it.
pub proof fn lemma_parent_is_reached(roles: Seq<Role>, starts: spec_fn(Seq<char>) -> bool, j: int)
    requires
        0 <= j < roles.len(),
        role_index(roles, roles[j].id@) == Some(j),
        reached(roles, starts, roles[j].id@),
        roles[j].parent_id is Some,
        role_index(roles, roles[j].parent_id->0@) is Some,
    ensures
        reached(roles, starts, roles[j].parent_id->0@),
{
    assert(ancestor(roles, roles[j].id@, 0) == Some(roles[j].id@));
    assert(ancestor(roles, roles[j].id@, 1) == Some(roles[j].parent_id->0@));
    lemma_ancestors_are_reached(roles, starts, roles[j].id@, 1);
}

/// A role that is granted and exists is reached.
pub proof fn lemma_granted_is_reached(roles: Seq<Role>, starts: spec_fn(Seq<char>) -> bool, id: Seq<char>)
    requires
        starts(id),
        role_index(roles, id) is Some,
    ensures
        reached(roles, starts, id),
{
    assert(starts(id) && ancestor(roles, id, 0) == Some(id));
}

/// The number of marks set in `marks`.
pub open spec fn marked(marks: Seq<bool>) -> nat
    decreases marks.len(),
{
    if marks.len() == 0 {
        0
    } else {
        marked(marks.drop_last()) + if marks.last() {
            1nat
        } else {
            0nat
        }
    }
}

proof fn lemma_marked_bound(marks: Seq<bool>)
    ensures
        marked(marks) <= marks.len(),
    decreases marks.len(),
{
    if marks.len() > 0 {
        lemma_marked_bound(marks.drop_last());
    }
}

proof fn lemma_marked_grows(marks: Seq<bool>, j: int)
    requires
        0 <= j < marks.len(),
        !marks[j],
    ensures
        marked(marks.update(j, true)) == marked(marks) + 1,
    decreases marks.len(),
{
    let after = marks.update(j, true);
    if j == marks.len() - 1 {
        assert(after.drop_last() =~= marks.drop_last());
    } else {
        lemma_marked_grows(marks.drop_last(), j);
        assert(after.drop_last() =~= marks.drop_last().update(j, true));
    }
}

/// What the marks mean while the roles granted so far, `done`, have been
/// followed upwards: a marked role is reached from a role of `done`; every
/// role of `done` that exists is marked; and the parent of a marked role, if
/// it exists, is marked, unless it is `pending`, the role that is about to be
/// marked.
pub open spec fn marks_ok(
    roles: Seq<Role>,
    marks: Seq<bool>,
    done: Seq<Seq<char>>,
    pending: Option<Seq<char>>,
) -> bool {
    &&& marks.len() == roles.len()
    &&& forall|j: int|
        0 <= j < roles.len() && #[trigger] marks[j] ==> role_index(roles, roles[j].id@) == Some(j) && exists|
            s: Seq<char>,
            k: nat,
        | done.contains(s) && #[trigger] ancestor(roles, s, k) == Some(roles[j].id@)
    &&& forall|s: Seq<char>| #[trigger]
        done.contains(s) && role_index(roles, s) is Some ==> marks[role_index(roles, s)->0] || pending == Some(s)
    &&& forall|j: int|
        0 <= j < roles.len() && #[trigger] marks[j] && roles[j].parent_id is Some && role_index(
            roles,
            roles[j].parent_id->0@,
        ) is Some ==> marks[role_index(roles, roles[j].parent_id->0@)->0] || pending == Some(
            roles[j].parent_id->0@,
        )
}

/// With nothing pending, whatever is reached from `done` is marked.
proof fn lemma_reached_is_marked(roles: Seq<Role>, marks: Seq<bool>, done: Seq<Seq<char>>, s: Seq<char>, k: nat)
    requires
        marks_ok(roles, marks, done, None),
        done.contains(s),
        ancestor(roles, s, k) is Some,
    ensures
        role_index(roles, ancestor(roles, s, k)->0) is Some,
        marks[role_index(roles, ancestor(roles, s, k)->0)->0],
    decreases k,
{
    if k > 0 {
        lemma_reached_is_marked(roles, marks, done, s, (k - 1) as nat);
        let a = ancestor(roles, s, (k - 1) as nat)->0;
        lemma_first_index(roles, by_key::<Role>(a));
    }
}

/// With nothing pending and distinct identifiers, a role is marked exactly
/// when it is reached from a role of `done`.
pub proof fn lemma_marks_are_reached(roles: Seq<Role>, marks: Seq<bool>, done: Seq<Seq<char>>, j: int)
    requires
        marks_ok(roles, marks, done, None),
        keys_unique(roles),
        0 <= j < roles.len(),
    ensures
        marks[j] <==> reached(roles, |s: Seq<char>| done.contains(s), roles[j].id@),
{
    let starts = |s: Seq<char>| done.contains(s);
    if marks[j] {
        let (s, k) = choose|s: Seq<char>, k: nat|
            done.contains(s) && #[trigger] ancestor(roles, s, k) == Some(roles[j].id@);
        assert(starts(s));
    }
    if reached(roles, starts, roles[j].id@) {
        let (s, k) = choose|s: Seq<char>, k: nat| starts(s) && #[trigger] ancestor(roles, s, k) == Some(roles[j].id@);
        lemma_reached_is_marked(roles, marks, done, s, k);
        lemma_first_index_is(roles, by_key::<Role>(roles[j].id@), j);
    }
}

/// Marking the pending role at its index `j` leaves its parent pending, or
/// nothing where it has no parent.
proof fn lemma_marked_one(
    roles: Seq<Role>,
    before: Seq<bool>,
    now: Seq<bool>,
    done: Seq<Seq<char>>,
    cur: Seq<char>,
    j: int,
    start: Seq<char>,
    k: nat,
)
    requires
        marks_ok(roles, before, done, Some(cur)),
        role_index(roles, cur) == Some(j),
        0 <= j < roles.len(),
        roles[j].id@ == cur,
        now == before.update(j, true),
        done.contains(start),
        ancestor(roles, start, k) == Some(cur),
    ensures
        marks_ok(
            roles,
            now,
            done,
            match roles[j].parent_id {
                Some(p) => Some(p@),
                None => None,
            },
        ),
{
    let pending: Option<Seq<char>> = match roles[j].parent_id {
        Some(p) => Some(p@),
        None => None,
    };
    assert forall|i: int| 0 <= i < roles.len() && #[trigger] now[i] implies role_index(roles, roles[i].id@) == Some(i)
        && exists|s: Seq<char>, n: nat| done.contains(s)
            && #[trigger] ancestor(roles, s, n) == Some(roles[i].id@) by {
        if i == j {
            assert(done.contains(start) && ancestor(roles, start, k) == Some(roles[i].id@));
        } else {
            assert(before[i]);
        }
    }
    assert forall|s: Seq<char>| #[trigger] done.contains(s) && role_index(roles, s) is Some implies now[role_index(
        roles,
        s,
    )->0] || pending == Some(s) by {
        lemma_first_index(roles, by_key::<Role>(s));
        if s != cur {
            assert(before[role_index(roles, s)->0]);
        }
    }
    assert forall|i: int|
        0 <= i < roles.len() && #[trigger] now[i] && roles[i].parent_id is Some && role_index(
            roles,
            roles[i].parent_id->0@,
        ) is Some implies now[role_index(roles, roles[i].parent_id->0@)->0] || pending == Some(
        roles[i].parent_id->0@,
    ) by {
        let p = roles[i].parent_id->0@;
        lemma_first_index(roles, by_key::<Role>(p));
        if i != j {
            assert(before[i]);
            if p != cur {
                assert(before[role_index(roles, p)->0]);
            }
        }
    }
}

/// Follows the chain of parents upwards from the role `start`, marking every
/// role on the way, until a role is missing, already marked, or has no parent.
/// Returns the identifier that was missing, if the walk ended so.
pub(crate) fn mark_chain(
    roles: &Vec<Role>,
    start: &str,
    marks: &mut Vec<bool>,
    Ghost(done): Ghost<Seq<Seq<char>>>,
) -> (missing: Option<String>)
    requires
        marks_ok(roles@, old(marks)@, done, None),
    ensures
        marks_ok(roles@, final(marks)@, done.push(start@), None),
        role_index(roles@, start@) is None ==> missing is Some,
        missing is Some ==> role_index(roles@, missing->0@) is None,
        forall|j: int| 0 <= j < roles@.len() && old(marks)@[j] ==> final(marks)@[j],
{
    let ghost after = done.push(start@);
    let mut cur: String = start.to_string();
    let ghost mut k: nat = 0;
    proof {
        assert forall|s: Seq<char>| #[trigger] after.contains(s) implies done.contains(s) || s == start@ by {
            let i = choose|i: int| 0 <= i < after.len() && after[i] == s;
            if i < done.len() {
                assert(done[i] == s);
            }
        }
        assert(after[done.len() as int] == start@);
        assert forall|s: Seq<char>| done.contains(s) implies #[trigger] after.contains(s) by {
            let i = choose|i: int| 0 <= i < done.len() && done[i] == s;
            assert(after[i] == s);
        }
        assert forall|j: int| 0 <= j < roles@.len() && #[trigger] marks@[j] implies exists|s: Seq<char>, k: nat|
            after.contains(s) && #[trigger] ancestor(roles@, s, k) == Some(roles@[j].id@) by {
            let (s, k) = choose|s: Seq<char>, k: nat|
                done.contains(s) && #[trigger] ancestor(roles@, s, k) == Some(roles@[j].id@);
            assert(after.contains(s));
        }
    }
    loop
        invariant
            marks_ok(roles@, marks@, after, Some(cur@)),
            after == done.push(start@),
            after.contains(start@),
            role_index(roles@, cur@) is Some ==> ancestor(roles@, start@, k) == Some(cur@),
            k == 0 ==> cur@ == start@,
            k > 0 ==> role_index(roles@, start@) is Some,
            marks@.len() == old(marks)@.len(),
            forall|j: int| 0 <= j < roles@.len() && old(marks)@[j] ==> marks@[j],
        decreases roles@.len() - marked(marks@),
    {
        let found = position_in(roles, cur.as_str());
        match found {
            None => {
                return Some(cur);
            },
            Some(j) => {
                proof {
                    lemma_first_index(roles@, by_key::<Role>(cur@));
                }
                if marks[j] {
                    return None;
                }
                proof {
                    lemma_marked_grows(marks@, j as int);
                    lemma_marked_bound(marks@.update(j as int, true));
                }
                let ghost before = marks@;
                marks.set(j, true);
                proof {
                    assert(ancestor(roles@, start@, k) == Some(roles@[j as int].id@));
                    assert(role_index(roles@, roles@[j as int].id@) == Some(j as int));
                    lemma_marked_one(roles@, before, marks@, after, cur@, j as int, start@, k);
                }
                match &roles[j].parent_id {
                    None => {
                        return None;
                    },
                    Some(p) => {
                        let ghost prev = cur@;
                        cur = p.clone();
                        proof {
                            k = k + 1;
                            assert(role_index(roles@, cur@) is Some ==> ancestor(roles@, start@, k) == Some(cur@));
                        }
                    },
                }
            },
        }
    }
}

} // verus!
