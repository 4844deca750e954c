//! A table of rows held in memory, in the order in which they were added.

use vstd::prelude::*;

verus! {

/// A record that a table can hand out copies of.
pub trait Record: Sized {
    /// A copy of the record.
    fn copy(&self) -> (r: Self)
        ensures
            r == *self,
    ;
}

/// A record that is found again by a textual key.
pub trait Row: Record {
    /// The key of the row.
    spec fn key(&self) -> Seq<char>;

    /// Whether the row has the key `id`.
    fn has_key(&self, id: &str) -> (b: bool)
        ensures
            b == (self.key() == id@),
    ;

    /// The key of the row, as text.
    fn key_text(&self) -> (k: &str)
        ensures
            k@ == self.key(),
    ;
}

/// Copies of the records, in their order.
pub fn copy_all<T: Record>(records: &Vec<T>) -> (out: Vec<T>)
    ensures
        out@ == records@,
{
    let mut out: Vec<T> = Vec::new();
    let mut i: usize = 0;
    while i < records.len()
        invariant
            i <= records@.len(),
            out@ == records@.take(i as int),
        decreases records@.len() - i,
    {
        out.push(records[i].copy());
        proof {
            assert(records@.take(i + 1) =~= records@.take(i as int).push(records@[i as int]));
        }
        i += 1;
    }
    proof {
        assert(records@.take(i as int) =~= records@);
    }
    out
}

/// The first index of `rows` whose row satisfies `p`, if any.
pub open spec fn first_index<T>(rows: Seq<T>, p: spec_fn(T) -> bool) -> Option<int>
    decreases rows.len(),
{
    if rows.len() == 0 {
        None
    } else {
        match first_index(rows.drop_last(), p) {
            Some(i) => Some(i),
            None => if p(rows.last()) {
                Some(rows.len() - 1)
            } else {
                None
            },
        }
    }
}

/// `first_index` finds the first row that satisfies `p`, and finds none only
/// where no row does.
pub proof fn lemma_first_index<T>(rows: Seq<T>, p: spec_fn(T) -> bool)
    ensures
        match first_index(rows, p) {
            Some(i) => 0 <= i < rows.len() && p(rows[i]) && forall|j: int| 0 <= j < i ==> !p(rows[j]),
            None => forall|j: int| 0 <= j < rows.len() ==> !p(rows[j]),
        },
    decreases rows.len(),
{
    if rows.len() > 0 {
        lemma_first_index(rows.drop_last(), p);
        assert(forall|j: int| 0 <= j < rows.len() - 1 ==> rows.drop_last()[j] == rows[j]);
    }
}

/// The index `i` is the first at which `p` holds.
pub proof fn lemma_first_index_is<T>(rows: Seq<T>, p: spec_fn(T) -> bool, i: int)
    requires
        0 <= i < rows.len(),
        p(rows[i]),
        forall|j: int| 0 <= j < i ==> !p(rows[j]),
    ensures
        first_index(rows, p) == Some(i),
{
    lemma_first_index(rows, p);
}

/// No row satisfies `p`.
pub proof fn lemma_first_index_none<T>(rows: Seq<T>, p: spec_fn(T) -> bool)
    requires
        forall|j: int| 0 <= j < rows.len() ==> !p(rows[j]),
    ensures
        first_index(rows, p) is None,
{
    lemma_first_index(rows, p);
}

/// The rows with the key `id`.
pub open spec fn by_key<T: Row>(id: Seq<char>) -> spec_fn(T) -> bool {
    |r: T| r.key() == id
}

/// Whether `id` is one of `ids`.
pub open spec fn listed(ids: Seq<String>, id: Seq<char>) -> bool {
    exists|i: int| 0 <= i < ids.len() && ids[i]@ == id
}

/// Whether `id` is one of `ids`.
pub fn is_listed(ids: &Vec<String>, id: &str) -> (b: bool)
    ensures
        b == listed(ids@, id@),
{
    let mut i: usize = 0;
    while i < ids.len()
        invariant
            i <= ids@.len(),
            forall|j: int| 0 <= j < i ==> ids@[j]@ != id@,
        decreases ids@.len() - i,
    {
        if crate::utils::text::same_text(ids[i].as_str(), id) {
            return true;
        }
        i += 1;
    }
    false
}

/// The index of the first of `rows` with the key `id`.
pub fn position_in<T: Row>(rows: &Vec<T>, id: &str) -> (r: Option<usize>)
    ensures
        match r {
            Some(i) => first_index(rows@, by_key::<T>(id@)) == Some(i as int),
            None => first_index(rows@, by_key::<T>(id@)) is None,
        },
{
    let mut i: usize = 0;
    while i < rows.len()
        invariant
            i <= rows@.len(),
            forall|j: int| 0 <= j < i ==> rows@[j].key() != id@,
        decreases rows@.len() - i,
    {
        if rows[i].has_key(id) {
            proof {
                lemma_first_index_is(rows@, by_key::<T>(id@), i as int);
            }
            return Some(i);
        }
        i += 1;
    }
    proof {
        lemma_first_index_none(rows@, by_key::<T>(id@));
    }
    None
}

/// No two rows have the same key.
pub open spec fn keys_unique<T: Row>(rows: Seq<T>) -> bool {
    forall|i: int, j: int| 0 <= i < j < rows.len() ==> rows[i].key() != rows[j].key()
}

/// Rows in the order in which they were added.
pub struct Table<T> {
    pub rows: Vec<T>,
}

impl<T> View for Table<T> {
    type V = Seq<T>;

    open spec fn view(&self) -> Seq<T> {
        self.rows@
    }
}

impl<T: Record> Table<T> {
    /// An empty table.
    pub fn new() -> (t: Self)
        ensures
            t@ == Seq::<T>::empty(),
    {
        Table { rows: Vec::new() }
    }

    /// The number of rows.
    pub fn len(&self) -> (n: usize)
        ensures
            n == self@.len(),
    {
        self.rows.len()
    }

    /// Removes every row.
    pub fn clear(&mut self)
        ensures
            final(self)@ == Seq::<T>::empty(),
    {
        self.rows = Vec::new();
    }

    /// The index of the first row for which `f` holds.
    pub(crate) fn first<F: Fn(&T) -> bool>(&self, f: F, Ghost(p): Ghost<spec_fn(T) -> bool>) -> (r: Option<usize>)
        requires
            forall|x: &T| call_requires(f, (x,)),
            forall|x: &T, b: bool| call_ensures(f, (x,), b) ==> b == p(*x),
        ensures
            match r {
                Some(i) => first_index(self@, p) == Some(i as int),
                None => first_index(self@, p) is None,
            },
    {
        let mut i: usize = 0;
        while i < self.rows.len()
            invariant
                i <= self.rows@.len(),
                forall|x: &T| call_requires(f, (x,)),
                forall|x: &T, b: bool| call_ensures(f, (x,), b) ==> b == p(*x),
                forall|j: int| 0 <= j < i ==> !p(self.rows@[j]),
            decreases self.rows@.len() - i,
        {
            if f(&self.rows[i]) {
                proof {
                    lemma_first_index_is(self@, p, i as int);
                }
                return Some(i);
            }
            i += 1;
        }
        proof {
            lemma_first_index_none(self@, p);
        }
        None
    }

    /// Copies of the rows for which `f` holds, in their order.
    pub(crate) fn select<F: Fn(&T) -> bool>(&self, f: F, Ghost(p): Ghost<spec_fn(T) -> bool>) -> (out: Vec<T>)
        requires
            forall|x: &T| call_requires(f, (x,)),
            forall|x: &T, b: bool| call_ensures(f, (x,), b) ==> b == p(*x),
        ensures
            out@ == self@.filter(p),
    {
        let mut out: Vec<T> = Vec::new();
        let mut i: usize = 0;
        proof {
            assert(self.rows@.take(0) =~= Seq::<T>::empty());
            reveal(Seq::filter);
        }
        while i < self.rows.len()
            invariant
                i <= self.rows@.len(),
                out@ == self.rows@.take(i as int).filter(p),
                forall|x: &T| call_requires(f, (x,)),
                forall|x: &T, b: bool| call_ensures(f, (x,), b) ==> b == p(*x),
            decreases self.rows@.len() - i,
        {
            proof {
                assert(self.rows@.take(i + 1) =~= self.rows@.take(i as int).push(self.rows@[i as int]));
                Seq::lemma_filter_push(self.rows@.take(i as int), self.rows@[i as int], p);
            }
            if f(&self.rows[i]) {
                out.push(self.rows[i].copy());
            }
            i += 1;
        }
        proof {
            assert(self.rows@.take(i as int) =~= self.rows@);
        }
        out
    }

    /// The number of rows for which `f` holds.
    pub(crate) fn count<F: Fn(&T) -> bool>(&self, f: F, Ghost(p): Ghost<spec_fn(T) -> bool>) -> (n: usize)
        requires
            forall|x: &T| call_requires(f, (x,)),
            forall|x: &T, b: bool| call_ensures(f, (x,), b) ==> b == p(*x),
        ensures
            n == self@.filter(p).len(),
    {
        let mut n: usize = 0;
        let mut i: usize = 0;
        proof {
            assert(self.rows@.take(0) =~= Seq::<T>::empty());
            reveal(Seq::filter);
        }
        while i < self.rows.len()
            invariant
                i <= self.rows@.len(),
                n <= i,
                n == self.rows@.take(i as int).filter(p).len(),
                forall|x: &T| call_requires(f, (x,)),
                forall|x: &T, b: bool| call_ensures(f, (x,), b) ==> b == p(*x),
            decreases self.rows@.len() - i,
        {
            proof {
                assert(self.rows@.take(i + 1) =~= self.rows@.take(i as int).push(self.rows@[i as int]));
                Seq::lemma_filter_push(self.rows@.take(i as int), self.rows@[i as int], p);
            }
            if f(&self.rows[i]) {
                n += 1;
            }
            i += 1;
        }
        proof {
            assert(self.rows@.take(i as int) =~= self.rows@);
        }
        n
    }

    /// Copies of the first `limit` rows, or of all where there are fewer.
    pub fn head(&self, limit: usize) -> (out: Vec<T>)
        ensures
            out@ == self@.take(if limit <= self@.len() { limit as int } else { self@.len() as int }),
    {
        let mut out: Vec<T> = Vec::new();
        let mut i: usize = 0;
        while i < self.rows.len() && i < limit
            invariant
                i <= self.rows@.len(),
                i <= limit,
                out@ == self.rows@.take(i as int),
            decreases self.rows@.len() - i,
        {
            out.push(self.rows[i].copy());
            proof {
                assert(self.rows@.take(i + 1) =~= self.rows@.take(i as int).push(self.rows@[i as int]));
            }
            i += 1;
        }
        out
    }

    /// Appends a row.
    pub fn push(&mut self, row: T)
        ensures
            final(self)@ == old(self)@.push(row),
    {
        self.rows.push(row);
    }

    /// Puts `row` in the place of the row at index `i`.
    pub fn put(&mut self, i: usize, row: T)
        requires
            i < old(self)@.len(),
        ensures
            final(self)@ == old(self)@.update(i as int, row),
    {
        self.rows.set(i, row);
    }

    /// Removes the row at index `i`.
    pub fn remove_at(&mut self, i: usize)
        requires
            i < old(self)@.len(),
        ensures
            final(self)@ == old(self)@.remove(i as int),
    {
        let _ = self.rows.remove(i);
    }
}

impl<T: Row> Table<T> {
    /// The index of the first row with the key `id`.
    pub fn position(&self, id: &str) -> (r: Option<usize>)
        ensures
            match r {
                Some(i) => first_index(self@, by_key::<T>(id@)) == Some(i as int),
                None => first_index(self@, by_key::<T>(id@)) is None,
            },
    {
        self.first(|x: &T| -> (b: bool) ensures b == (x.key() == id@) { x.has_key(id) }, Ghost(by_key::<T>(id@)))
    }

    /// Whether no two rows have the same key.
    pub fn has_unique_keys(&self) -> (b: bool)
        ensures
            b == keys_unique(self@),
    {
        let mut j: usize = 0;
        while j < self.rows.len()
            invariant
                j <= self.rows@.len(),
                forall|a: int, b: int| 0 <= a < b < j ==> self.rows@[a].key() != self.rows@[b].key(),
            decreases self.rows@.len() - j,
        {
            let mut i: usize = 0;
            while i < j
                invariant
                    i <= j < self.rows@.len(),
                    forall|a: int| 0 <= a < i ==> self.rows@[a].key() != self.rows@[j as int].key(),
                decreases j - i,
            {
                if self.rows[i].has_key(self.rows[j].key_text()) {
                    return false;
                }
                i += 1;
            }
            j += 1;
        }
        true
    }

    /// A copy of the first row with the key `id`.
    pub fn get(&self, id: &str) -> (r: Option<T>)
        ensures
            match r {
                Some(x) => first_index(self@, by_key::<T>(id@)) is Some && x == self@[first_index(
                    self@,
                    by_key::<T>(id@),
                )->0],
                None => first_index(self@, by_key::<T>(id@)) is None,
            },
    {
        match self.position(id) {
            Some(i) => {
                proof {
                    lemma_first_index(self@, by_key::<T>(id@));
                }
                Some(self.rows[i].copy())
            },
            None => None,
        }
    }
}

/// Choosing among rows with distinct keys leaves the keys distinct.
pub proof fn lemma_filter_keeps_unique<T: Row>(rows: Seq<T>, p: spec_fn(T) -> bool)
    requires
        keys_unique(rows),
    ensures
        keys_unique(rows.filter(p)),
    decreases rows.len(),
{
    reveal(Seq::filter);
    if rows.len() > 0 {
        let front = rows.drop_last();
        assert(forall|j: int| 0 <= j < front.len() ==> front[j] == rows[j]);
        lemma_filter_keeps_unique(front, p);
        if p(rows.last()) {
            let chosen = front.filter(p);
            assert forall|i: int, j: int| 0 <= i < j < chosen.push(rows.last()).len() implies chosen.push(
                rows.last(),
            )[i].key() != chosen.push(rows.last())[j].key() by {
                if j == chosen.len() {
                    assert(chosen.contains(chosen[i]));
                    front.lemma_filter_contains_rev(p, chosen[i]);
                    let k = choose|k: int| 0 <= k < front.len() && front[k] == chosen[i];
                    assert(rows[k].key() != rows[rows.len() - 1].key());
                }
            }
        }
    }
}

/// A row that does not satisfy a choice bears on nothing that is chosen:
/// without it the same rows are chosen.
pub proof fn lemma_filter_ignores<T>(rows: Seq<T>, p: spec_fn(T) -> bool, i: int)
    requires
        0 <= i < rows.len(),
        !p(rows[i]),
    ensures
        rows.remove(i).filter(p) == rows.filter(p),
    decreases rows.len(),
{
    reveal(Seq::filter);
    if i == rows.len() - 1 {
        assert(rows.remove(i) =~= rows.drop_last());
    } else {
        lemma_filter_ignores(rows.drop_last(), p, i);
        assert(rows.remove(i).drop_last() =~= rows.drop_last().remove(i));
        assert(rows.remove(i).last() == rows.last());
    }
}

/// Two choices that take the same rows choose the same.
pub proof fn lemma_filter_same<T>(rows: Seq<T>, p: spec_fn(T) -> bool, q: spec_fn(T) -> bool)
    requires
        forall|i: int| 0 <= i < rows.len() ==> p(#[trigger] rows[i]) == q(rows[i]),
    ensures
        rows.filter(p) == rows.filter(q),
    decreases rows.len(),
{
    reveal(Seq::filter);
    if rows.len() > 0 {
        assert(forall|i: int| 0 <= i < rows.len() - 1 ==> rows.drop_last()[i] == rows[i]);
        lemma_filter_same(rows.drop_last(), p, q);
    }
}

/// A narrower choice chooses no more rows.
pub proof fn lemma_filter_narrower<T>(rows: Seq<T>, p: spec_fn(T) -> bool, q: spec_fn(T) -> bool)
    requires
        forall|i: int| 0 <= i < rows.len() ==> (p(#[trigger] rows[i]) ==> q(rows[i])),
    ensures
        rows.filter(p).len() <= rows.filter(q).len(),
    decreases rows.len(),
{
    reveal(Seq::filter);
    if rows.len() > 0 {
        assert(forall|i: int| 0 <= i < rows.len() - 1 ==> rows.drop_last()[i] == rows[i]);
        lemma_filter_narrower(rows.drop_last(), p, q);
    }
}

/// Appending a row under a key that no row has keeps the keys distinct.
pub proof fn lemma_push_keeps_unique<T: Row>(rows: Seq<T>, row: T)
    requires
        keys_unique(rows),
        first_index(rows, by_key::<T>(row.key())) is None,
    ensures
        keys_unique(rows.push(row)),
{
    lemma_first_index(rows, by_key::<T>(row.key()));
}

/// Replacing a row by one with the same key keeps the keys distinct.
pub proof fn lemma_update_keeps_unique<T: Row>(rows: Seq<T>, i: int, row: T)
    requires
        keys_unique(rows),
        0 <= i < rows.len(),
        rows[i].key() == row.key(),
    ensures
        keys_unique(rows.update(i, row)),
{
}

/// Removing a row keeps the keys distinct, and where they were distinct no row
/// with the removed key is left.
pub proof fn lemma_remove_keeps_unique<T: Row>(rows: Seq<T>, i: int)
    requires
        keys_unique(rows),
        0 <= i < rows.len(),
    ensures
        keys_unique(rows.remove(i)),
        first_index(rows.remove(i), by_key::<T>(rows[i].key())) is None,
{
    let rest = rows.remove(i);
    assert forall|j: int| 0 <= j < rest.len() implies !by_key::<T>(rows[i].key())(#[trigger] rest[j]) by {
        if j < i {
            assert(rest[j] == rows[j]);
        } else {
            assert(rest[j] == rows[j + 1]);
        }
    }
    lemma_first_index_none(rest, by_key::<T>(rows[i].key()));
    assert forall|a: int, b: int| 0 <= a < b < rest.len() implies rest[a].key() != rest[b].key() by {
        let a0 = if a < i { a } else { a + 1 };
        let b0 = if b < i { b } else { b + 1 };
        assert(rest[a] == rows[a0]);
        assert(rest[b] == rows[b0]);
    }
}

} // verus!
