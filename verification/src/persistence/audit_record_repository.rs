//! The audit trail: an append-only log of what was done, and by whom.

use vstd::prelude::*;
use vstd::string::*;

use crate::common::SecurityContext;
use crate::persistence::models::PAuditRecord;
use crate::persistence::table::{by_key, first_index, Record, Row, Table};
use crate::utils::clock;
use crate::utils::ids;
use crate::utils::text::same_text;

verus! {

impl Row for PAuditRecord {
    open spec fn key(&self) -> Seq<char> {
        self.id@
    }

    fn has_key(&self, id: &str) -> (b: bool) {
        same_text(self.id.as_str(), id)
    }

    fn key_text(&self) -> (k: &str) {
        self.id.as_str()
    }
}

impl Record for PAuditRecord {
    fn copy(&self) -> (r: Self) {
        self.clone()
    }
}

/// Whether `rec` records that the principal of `ctx` did `action`, with the
/// given message.
pub open spec fn entry_is(rec: PAuditRecord, ctx: SecurityContext, action: Seq<char>, message: Seq<char>) -> bool {
    &&& rec.message@ == message
    &&& rec.action is Some
    &&& rec.action->0@ == action
    &&& rec.context is Some
    &&& rec.context->0@ == ctx.description()
    &&& rec.created_by is Some
    &&& rec.created_by->0@ == ctx.principal_id@
    &&& rec.created_at is Some
}

/// Whether `after` is `before` with one entry added, which records that the
/// principal of `ctx` did `action`, with the given message.
pub open spec fn logged(
    before: Seq<PAuditRecord>,
    after: Seq<PAuditRecord>,
    ctx: SecurityContext,
    action: Seq<char>,
    message: Seq<char>,
) -> bool {
    &&& after.len() == before.len() + 1
    &&& after.drop_last() == before
    &&& entry_is(after.last(), ctx, action, message)
}

/// Whether `rec` records that the principal of `ctx` did `action`.
pub open spec fn by_actor(rec: PAuditRecord, ctx: SecurityContext, action: Seq<char>) -> bool {
    &&& rec.action is Some
    &&& rec.action->0@ == action
    &&& rec.created_by is Some
    &&& rec.created_by->0@ == ctx.principal_id@
}

/// Whether `after` is `before` with entries added, each of which records that
/// the principal of `ctx` did `action`.
pub open spec fn extended(
    before: Seq<PAuditRecord>,
    after: Seq<PAuditRecord>,
    ctx: SecurityContext,
    action: Seq<char>,
) -> bool {
    &&& before.len() <= after.len()
    &&& after.take(before.len() as int) == before
    &&& forall|i: int| before.len() <= i < after.len() ==> by_actor(#[trigger] after[i], ctx, action)
}

/// A trail is an extension of itself.
pub proof fn lemma_extended_none(log: Seq<PAuditRecord>, ctx: SecurityContext, action: Seq<char>)
    ensures
        extended(log, log, ctx, action),
{
    assert(log.take(log.len() as int) =~= log);
}

/// One entry added is an extension.
pub proof fn lemma_logged_extends(
    before: Seq<PAuditRecord>,
    after: Seq<PAuditRecord>,
    ctx: SecurityContext,
    action: Seq<char>,
    message: Seq<char>,
)
    requires
        logged(before, after, ctx, action, message),
    ensures
        extended(before, after, ctx, action),
        after.len() == before.len() + 1,
{
    assert(after.take(before.len() as int) =~= after.drop_last());
}

/// An extension of an extension is an extension.
pub proof fn lemma_extended_twice(
    a: Seq<PAuditRecord>,
    b: Seq<PAuditRecord>,
    c: Seq<PAuditRecord>,
    ctx: SecurityContext,
    action: Seq<char>,
)
    requires
        extended(a, b, ctx, action),
        extended(b, c, ctx, action),
    ensures
        extended(a, c, ctx, action),
{
    assert(c.take(a.len() as int) =~= c.take(b.len() as int).take(a.len() as int));
    assert forall|i: int| a.len() <= i < c.len() implies by_actor(#[trigger] c[i], ctx, action) by {
        if i < b.len() {
            assert(c.take(b.len() as int)[i] == c[i]);
            assert(by_actor(b[i], ctx, action));
        }
    }
}

/// The `n` newest entries of `records`, the newest first.
pub open spec fn newest(records: Seq<PAuditRecord>, n: int) -> Seq<PAuditRecord> {
    let k = if n <= 0 {
        0
    } else if n <= records.len() {
        n
    } else {
        records.len() as int
    };
    Seq::new(k as nat, |i: int| records[records.len() - 1 - i])
}

/// The audit trail.
pub struct AuditRecordRepository {
    pub records: Table<PAuditRecord>,
}

impl View for AuditRecordRepository {
    type V = Seq<PAuditRecord>;

    open spec fn view(&self) -> Seq<PAuditRecord> {
        self.records@
    }
}

impl AuditRecordRepository {
    /// An empty trail.
    pub fn new() -> (r: Self)
        ensures
            r@ == Seq::<PAuditRecord>::empty(),
    {
        AuditRecordRepository { records: Table::new() }
    }

    /// The `max` newest entries, the newest first.
    pub fn latest(&self, max: i64) -> (out: Vec<PAuditRecord>)
        ensures
            out@ == newest(self@, max as int),
    {
        let mut out: Vec<PAuditRecord> = Vec::new();
        let total: usize = self.records.len();
        let mut i: usize = 0;
        while i < total && (i as i64) < max
            invariant
                total == self@.len(),
                i <= total,
                i <= max || i == 0,
                out@.len() == i,
                forall|k: int| 0 <= k < i ==> out@[k] == self@[total - 1 - k],
            decreases total - i,
        {
            out.push(self.records.rows[total - 1 - i].copy());
            i += 1;
        }
        proof {
            assert(out@ =~= newest(self@, max as int));
        }
        out
    }

    /// Appends an entry which records that `created_by` did `action`; the
    /// entry gets a fresh identifier and the current time. Returns the number
    /// of entries added, which is one.
    pub fn create_with(&mut self, message: &str, action: &str, context: &str, created_by: String) -> (r: Result<
        usize,
        crate::common::RbacError,
    >)
        ensures
            r == Ok::<usize, crate::common::RbacError>(1usize),
            final(self)@.len() == old(self)@.len() + 1,
            final(self)@.drop_last() == old(self)@,
            final(self)@.last().message@ == message@,
            final(self)@.last().action is Some,
            final(self)@.last().action->0@ == action@,
            final(self)@.last().context is Some,
            final(self)@.last().context->0@ == context@,
            final(self)@.last().created_by == Some(created_by),
            final(self)@.last().created_at is Some,
    {
        let rec = PAuditRecord {
            id: ids::new_id(),
            message: message.to_string(),
            action: Some(action.to_string()),
            context: Some(context.to_string()),
            created_by: Some(created_by),
            created_at: Some(clock::now()),
        };
        self.records.push(rec);
        proof {
            assert(self@.drop_last() =~= old(self)@);
        }
        Ok(1)
    }

    /// Appends a copy of `rec`. Returns the number of entries added, which is
    /// one.
    pub fn create(&mut self, rec: &PAuditRecord) -> (r: Result<usize, crate::common::RbacError>)
        ensures
            r == Ok::<usize, crate::common::RbacError>(1usize),
            final(self)@ == old(self)@.push(*rec),
    {
        self.records.push(rec.clone());
        Ok(1)
    }

    /// The first entry with the identifier `id`.
    pub fn get(&self, id: &str) -> (r: Option<PAuditRecord>)
        ensures
            match r {
                Some(x) => first_index(self@, by_key::<PAuditRecord>(id@)) is Some && x == self@[first_index(
                    self@,
                    by_key::<PAuditRecord>(id@),
                )->0],
                None => first_index(self@, by_key::<PAuditRecord>(id@)) is None,
            },
    {
        self.records.get(id)
    }

    /// Empties the trail.
    pub fn clear(&mut self)
        ensures
            final(self)@ == Seq::<PAuditRecord>::empty(),
    {
        self.records.clear();
    }

    /// Records that the principal of `ctx` did `action`; the message is `text`
    /// followed by `subject`.
    pub fn log(&mut self, ctx: &SecurityContext, text: &str, subject: &str, action: &str)
        ensures
            logged(old(self)@, final(self)@, *ctx, action@, text@ + subject@),
    {
        let message = String::from_str(text).concat(subject);
        let context = ctx.describe();
        let _ = self.create_with(message.as_str(), action, context.as_str(), ctx.principal_id.clone());
    }
}

} // verus!
