//! Messages in flight: those sent, kept for a retry, and those received, kept until handled.

use crate::effects::{
    delete, delete_row, key2, key3, lemma_apply_push, lemma_sweeps, one, pin2, pin3, reads_row,
    removes, row_answer, row_query, single,
};
use crate::error::StoreError;
use crate::model::{
    always_taken, answers, apply, apply_all, completed, holds, never_refused, row_wf, Db,
};
use crate::plan::{both, owned_by, query_sound, sound, Guard, Lane, ReadPlan, Source, WritePlan};
use crate::rows::{blob_at, first_blob, is_mismatch, rows_view, Rows};
use crate::schema::{key_of, Column, Key, Table};
use crate::sql::{Cond, Query, Statement};
use crate::store::SqliteStore;
use crate::value::{values, Val, Value};
use vstd::prelude::*;

verus! {

broadcast use {
    crate::model::lemma_takes_all,
    vstd::string::group_string_axioms,
    vstd::seq::group_seq_axioms,
};

/// The row of a sent message, with the time it was stored.
pub open spec fn sent_row(
    chat: Seq<char>,
    id: Seq<char>,
    payload: Seq<u8>,
    device_id: int,
    now: int,
) -> Seq<Val> {
    seq![
        Val::Text(chat),
        Val::Text(id),
        Val::Blob(payload),
        Val::Int(device_id),
        Val::Int(now),
    ]
}

/// The key of a sent message.
pub open spec fn sent_key(chat: Seq<char>, id: Seq<char>, device_id: int) -> Key {
    key2(Table::SentMessages, device_id, Val::Text(chat), Val::Text(id))
}

/// A received message that was not handled yet.
#[derive(Debug)]
pub struct PendingInboundRow {
    pub chat: String,
    pub sender: String,
    pub id: String,
    pub message: Vec<u8>,
}

/// What identifies a received message.
#[derive(Debug)]
pub struct PendingInboundKey {
    pub chat: String,
    pub sender: String,
    pub id: String,
}

/// The row of a received message, with the time it was stored.
pub open spec fn pending_row(
    chat: Seq<char>,
    sender: Seq<char>,
    id: Seq<char>,
    message: Seq<u8>,
    device_id: int,
    now: int,
) -> Seq<Val> {
    seq![
        Val::Text(chat),
        Val::Text(sender),
        Val::Text(id),
        Val::Blob(message),
        Val::Int(device_id),
        Val::Int(now),
    ]
}

/// The key of a received message.
pub open spec fn pending_key(
    chat: Seq<char>,
    sender: Seq<char>,
    id: Seq<char>,
    device_id: int,
) -> Key {
    key3(
        Table::PendingInboundMessages,
        device_id,
        Val::Text(chat),
        Val::Text(sender),
        Val::Text(id),
    )
}

/// The rows of received messages.
pub open spec fn pending_rows(rows: Seq<PendingInboundRow>, device_id: int, now: int) -> Seq<
    Seq<Val>,
> {
    rows.map_values(
        |r: PendingInboundRow|
            pending_row(r.chat@, r.sender@, r.id@, r.message@, device_id, now),
    )
}

/// The keys of received messages.
pub open spec fn pending_keys(keys: Seq<PendingInboundKey>, device_id: int) -> Seq<Key> {
    keys.map_values(|k: PendingInboundKey| pending_key(k.chat@, k.sender@, k.id@, device_id))
}

impl Db {
    /// The database without the rows under listed keys.
    pub open spec fn remove_all(self, keys: Seq<Key>) -> Db {
        self.without(|k: Key, row: Seq<Val>| keys.contains(k))
    }
}

fn sent_test(chat_jid: &str, message_id: &str, device_id: i32) -> (filter: Cond)
    ensures
        crate::effects::pins(
            filter,
            Table::SentMessages,
            sent_key(chat_jid@, message_id@, device_id as int),
        ),
        crate::plan::cond_wf(filter, Table::SentMessages),
        crate::sql::cond_values(filter).len() == 3,
{
    pin2(
        Table::SentMessages,
        Column::ChatJid,
        Value::text(chat_jid),
        Column::MessageId,
        Value::text(message_id),
        device_id,
    )
}

fn pending_test(chat: &str, sender: &str, id: &str, device_id: i32) -> (filter: Cond)
    ensures
        crate::effects::pins(
            filter,
            Table::PendingInboundMessages,
            pending_key(chat@, sender@, id@, device_id as int),
        ),
        crate::plan::cond_wf(filter, Table::PendingInboundMessages),
        crate::sql::cond_values(filter).len() == 4,
{
    pin3(
        Table::PendingInboundMessages,
        Column::Chat,
        Value::text(chat),
        Column::Sender,
        Value::text(sender),
        Column::Id,
        Value::text(id),
        device_id,
    )
}

/// The insert of a received message in place of one with its key.
fn insert_pending_inbound_row(device_id: i32, chat: &str, sender: &str, id: &str, message: &[u8])
    -> (s: Statement)
    ensures
        sound(s),
        never_refused(s),
        forall|db: Db, now: int| #[trigger]
            apply(s, db, now) == db.put(
                Table::PendingInboundMessages,
                pending_row(chat@, sender@, id@, message@, device_id as int, now),
            ),
{
    let row: Vec<Value> = vec![
        Value::text(chat),
        Value::text(sender),
        Value::text(id),
        Value::blob(message),
        Value::Int(device_id as i64),
    ];
    let s = Statement::Replace { table: Table::PendingInboundMessages, row };
    proof {
        assert forall|db: Db, now: int| #[trigger] apply(s, db, now) == db.put(
            Table::PendingInboundMessages,
            pending_row(chat@, sender@, id@, message@, device_id as int, now),
        ) by {
            assert(completed(Table::PendingInboundMessages, values(row@), now) =~= pending_row(
                chat@,
                sender@,
                id@,
                message@,
                device_id as int,
                now,
            ));
        }
    }
    s
}

/// The deletion of a received message.
fn delete_pending_inbound_row(device_id: i32, chat: &str, sender: &str, id: &str) -> (s: Statement)
    ensures
        sound(s),
        never_refused(s),
        removes(s, pending_key(chat@, sender@, id@, device_id as int)),
{
    delete(Table::PendingInboundMessages, pending_test(chat, sender, id, device_id))
}

/// The taking of a sent message: what is read, and the deletion that follows where there was
/// one, in one transaction.
#[derive(Debug)]
pub struct Taking {
    pub lane: Lane,
    pub guard: Guard,
    /// Reads the message.
    pub read: Query,
    /// Deletes it.
    pub delete: Statement,
}

impl Taking {
    /// What was taken, and the statement that deletes it.
    pub fn settle(self, rows: &Rows) -> (taken: Result<
        (Option<Vec<u8>>, Option<Statement>),
        StoreError,
    >)
        ensures
            rows_view(*rows).len() == 0 ==> (taken matches Ok(t) && t.0 is None && t.1 is None),
            rows_view(*rows).len() > 0 ==> match blob_at(rows_view(*rows)[0], 0) {
                Some(b) => taken matches Ok((Some(payload), Some(s))) && payload@ == b && s
                    == self.delete,
                None => taken matches Err(e) && is_mismatch(e),
            },
    {
        match first_blob(rows) {
            Err(e) => Err(e),
            Ok(None) => Ok((None, None)),
            Ok(Some(payload)) => Ok((Some(payload), Some(self.delete))),
        }
    }
}

impl SqliteStore {
    /// Stores a sent message, over one with its id.
    pub fn store_sent_message(&self, chat_jid: &str, message_id: &str, payload: &[u8]) -> (plan:
        WritePlan)
        ensures
            plan.retried_as("store_sent_message"@, Guard::Bare),
            plan.sound(),
            plan.always_taken(),
            plan.leaves(
                |db: Db, now: int|
                    db.put(
                        Table::SentMessages,
                        sent_row(chat_jid@, message_id@, payload@, self.device_id as int, now),
                    ),
            ),
    {
        let row: Vec<Value> = vec![
            Value::text(chat_jid),
            Value::text(message_id),
            Value::blob(payload),
            Value::Int(self.device_id as i64),
        ];
        let s = Statement::Replace { table: Table::SentMessages, row };
        let plan = single(Lane::Retried("store_sent_message"), s);
        proof {
            assert forall|db: Db, now: int| db.wf() implies #[trigger] plan.apply(db, now)
                == db.put(
                Table::SentMessages,
                sent_row(chat_jid@, message_id@, payload@, self.device_id as int, now),
            ) by {
                assert(completed(Table::SentMessages, values(row@), now) =~= sent_row(
                    chat_jid@,
                    message_id@,
                    payload@,
                    self.device_id as int,
                    now,
                ));
            }
        }
        plan
    }

    /// Reads a sent message.
    pub fn get_sent_message(&self, chat_jid: &str, message_id: &str) -> (plan: ReadPlan)
        ensures
            plan.source matches Source::QueueRetried(name) && name@ == "get_sent_message"@,
            plan.reads(
                sent_key(chat_jid@, message_id@, self.device_id as int),
                seq![Column::Payload],
            ),
    {
        let filter = sent_test(chat_jid, message_id, self.device_id);
        let q = row_query(Table::SentMessages, one(Column::Payload), filter);
        ReadPlan { source: Source::QueueRetried("get_sent_message"), queries: vec![q] }
    }

    /// Reads a sent message and deletes it.
    pub fn take_sent_message(&self, chat_jid: &str, message_id: &str) -> (taking: Taking)
        ensures
            taking.guard == Guard::Immediate,
            taking.lane matches Lane::Retried(name) && name@ == "take_sent_message"@,
            query_sound(taking.read),
            reads_row(
                taking.read,
                sent_key(chat_jid@, message_id@, self.device_id as int),
                seq![Column::Payload],
            ),
            sound(taking.delete),
            never_refused(taking.delete),
            removes(taking.delete, sent_key(chat_jid@, message_id@, self.device_id as int)),
    {
        let read = row_query(
            Table::SentMessages,
            one(Column::Payload),
            sent_test(chat_jid, message_id, self.device_id),
        );
        let delete = delete(
            Table::SentMessages,
            sent_test(chat_jid, message_id, self.device_id),
        );
        Taking {
            lane: Lane::Retried("take_sent_message"),
            guard: Guard::Immediate,
            read,
            delete,
        }
    }

    /// Deletes the sent messages stored before a time.
    pub fn delete_expired_sent_messages(&self, cutoff_timestamp: i64) -> (plan: WritePlan)
        ensures
            plan.retried_as("delete_expired_sent_messages"@, Guard::Bare),
            plan.sound(),
            plan.always_taken(),
            plan.sweeps(
                |k: Key, row: Seq<Val>|
                    k.table == Table::SentMessages && k.device == Val::Int(
                        self.device_id as int,
                    ) && (row[4] matches Val::Int(n) && n < cutoff_timestamp),
            ),
    {
        let old_enough = Cond::Below(Column::CreatedAt, Value::Int(cutoff_timestamp));
        let filter = both(old_enough, owned_by(self.device_id));
        let plan = delete_row(
            Lane::Retried("delete_expired_sent_messages"),
            Table::SentMessages,
            filter,
        );
        proof {
            let t = Table::SentMessages;
            let p = |k: Key, row: Seq<Val>|
                k.table == Table::SentMessages && k.device == Val::Int(self.device_id as int) && (row[4]
                    matches Val::Int(n) && n < cutoff_timestamp);
            assert forall|k: Key, row: Seq<Val>|
                row_wf(k.table, row) && key_of(k.table, row) == k implies #[trigger] p(k, row) == (
            k.table == t && holds(filter, t, row)) by {
                assert(holds(old_enough, t, row) == (row[4] matches Val::Int(n) && n < cutoff_timestamp));
            }
            lemma_sweeps(plan, t, filter, p);
        }
        plan
    }

    /// Stores a received message, over one with its key.
    pub fn store_pending_inbound(&self, chat: &str, sender: &str, id: &str, message: &[u8])
        -> (plan: WritePlan)
        ensures
            plan.retried_as("store_pending_inbound"@, Guard::Bare),
            plan.sound(),
            plan.always_taken(),
            plan.leaves(
                |db: Db, now: int|
                    db.put(
                        Table::PendingInboundMessages,
                        pending_row(chat@, sender@, id@, message@, self.device_id as int, now),
                    ),
            ),
    {
        let s = insert_pending_inbound_row(self.device_id, chat, sender, id, message);
        single(Lane::Retried("store_pending_inbound"), s)
    }

    /// Reads a received message. Contention must not look like a missing message, so the read
    /// is tried again.
    pub fn get_pending_inbound(&self, chat: &str, sender: &str, id: &str) -> (plan: ReadPlan)
        ensures
            plan.source matches Source::QueueRetried(name) && name@ == "get_pending_inbound"@,
            plan.reads(
                pending_key(chat@, sender@, id@, self.device_id as int),
                seq![Column::Message],
            ),
    {
        let filter = pending_test(chat, sender, id, self.device_id);
        let q = row_query(Table::PendingInboundMessages, one(Column::Message), filter);
        ReadPlan { source: Source::QueueRetried("get_pending_inbound"), queries: vec![q] }
    }

    /// Deletes a received message.
    pub fn delete_pending_inbound(&self, chat: &str, sender: &str, id: &str) -> (plan: WritePlan)
        ensures
            plan.retried_as("delete_pending_inbound"@, Guard::Bare),
            plan.sound(),
            plan.always_taken(),
            plan.leaves(
                |db: Db, now: int|
                    db.remove(pending_key(chat@, sender@, id@, self.device_id as int)),
            ),
    {
        let s = delete_pending_inbound_row(self.device_id, chat, sender, id);
        single(Lane::Retried("delete_pending_inbound"), s)
    }

    /// Deletes the received messages stored before a time.
    pub fn delete_expired_pending_inbound(&self, cutoff_timestamp: i64) -> (plan: WritePlan)
        ensures
            plan.retried_as("delete_expired_pending_inbound"@, Guard::Bare),
            plan.sound(),
            plan.always_taken(),
            plan.sweeps(
                |k: Key, row: Seq<Val>|
                    k.table == Table::PendingInboundMessages && k.device == Val::Int(
                        self.device_id as int,
                    ) && (row[5] matches Val::Int(n) && n < cutoff_timestamp),
            ),
    {
        let old_enough = Cond::Below(Column::InsertedAt, Value::Int(cutoff_timestamp));
        let filter = both(old_enough, owned_by(self.device_id));
        let plan = delete_row(
            Lane::Retried("delete_expired_pending_inbound"),
            Table::PendingInboundMessages,
            filter,
        );
        proof {
            let t = Table::PendingInboundMessages;
            let p = |k: Key, row: Seq<Val>|
                k.table == Table::PendingInboundMessages && k.device == Val::Int(self.device_id as int) && (row[5]
                    matches Val::Int(n) && n < cutoff_timestamp);
            assert forall|k: Key, row: Seq<Val>|
                row_wf(k.table, row) && key_of(k.table, row) == k implies #[trigger] p(k, row) == (
            k.table == t && holds(filter, t, row)) by {
                assert(holds(old_enough, t, row) == (row[5] matches Val::Int(n) && n < cutoff_timestamp));
            }
            lemma_sweeps(plan, t, filter, p);
        }
        plan
    }

    /// Stores received messages, all or none of them.
    pub fn store_pending_inbound_batch(&self, rows: &[PendingInboundRow]) -> (plan: WritePlan)
        ensures
            plan.retried_as("store_pending_inbound_batch"@, Guard::Deferred),
            plan.sound(),
            plan.always_taken(),
            rows@.len() == plan.statements@.len(),
            plan.leaves(
                |db: Db, now: int|
                    db.put_all(
                        Table::PendingInboundMessages,
                        pending_rows(rows@, self.device_id as int, now),
                    ),
            ),
    {
        let ghost d = self.device_id as int;
        let ghost t = Table::PendingInboundMessages;
        let mut statements: Vec<Statement> = Vec::new();
        let mut i: usize = 0;
        proof {
            assert forall|db: Db, now: int| #[trigger] apply_all(statements@, db, now)
                == db.put_all(t, pending_rows(rows@.take(0), d, now)) by {
                assert(pending_rows(rows@.take(0), d, now) =~= seq![]);
            }
        }
        while i < rows.len()
            invariant
                i <= rows.len(),
                d == self.device_id,
                t == Table::PendingInboundMessages,
                statements@.len() == i,
                forall|j: int| 0 <= j < i ==> sound(#[trigger] statements@[j]),
                always_taken(statements@),
                forall|db: Db, now: int| #[trigger]
                    apply_all(statements@, db, now) == db.put_all(
                        t,
                        pending_rows(rows@.take(i as int), d, now),
                    ),
            decreases rows.len() - i,
        {
            let r = &rows[i];
            let s = insert_pending_inbound_row(
                self.device_id,
                &r.chat,
                &r.sender,
                &r.id,
                r.message.as_slice(),
            );
            let ghost before = statements@;
            statements.push(s);
            proof {
                assert forall|db: Db, now: int| #[trigger] apply_all(statements@, db, now)
                    == db.put_all(t, pending_rows(rows@.take(i + 1), d, now)) by {
                    lemma_apply_push(before, s, db, now);
                    let all = pending_rows(rows@.take(i + 1), d, now);
                    assert(all.drop_last() =~= pending_rows(rows@.take(i as int), d, now));
                    assert(all.last() == pending_row(
                        r.chat@,
                        r.sender@,
                        r.id@,
                        r.message@,
                        d,
                        now,
                    ));
                }
            }
            i = i + 1;
        }
        assert(rows@.take(i as int) =~= rows@);
        WritePlan {
            lane: Lane::Retried("store_pending_inbound_batch"),
            guard: Guard::Deferred,
            statements,
        }
    }

    /// Deletes received messages, all or none of them.
    pub fn delete_pending_inbound_batch(&self, keys: &[PendingInboundKey]) -> (plan: WritePlan)
        ensures
            plan.retried_as("delete_pending_inbound_batch"@, Guard::Deferred),
            plan.sound(),
            plan.always_taken(),
            keys@.len() == plan.statements@.len(),
            plan.leaves(
                |db: Db, now: int| db.remove_all(pending_keys(keys@, self.device_id as int)),
            ),
    {
        let ghost d = self.device_id as int;
        let mut statements: Vec<Statement> = Vec::new();
        let mut i: usize = 0;
        proof {
            assert forall|db: Db, now: int| db.wf() implies #[trigger] apply_all(
                statements@,
                db,
                now,
            ) == db.remove_all(pending_keys(keys@.take(0), d)) && apply_all(
                statements@,
                db,
                now,
            ).wf() by {
                assert(db =~= db.remove_all(pending_keys(keys@.take(0), d)));
            }
        }
        while i < keys.len()
            invariant
                i <= keys.len(),
                d == self.device_id,
                statements@.len() == i,
                forall|j: int| 0 <= j < i ==> sound(#[trigger] statements@[j]),
                always_taken(statements@),
                forall|db: Db, now: int|
                    db.wf() ==> #[trigger] apply_all(statements@, db, now) == db.remove_all(
                        pending_keys(keys@.take(i as int), d),
                    ) && apply_all(statements@, db, now).wf(),
            decreases keys.len() - i,
        {
            let k = &keys[i];
            let s = delete_pending_inbound_row(self.device_id, &k.chat, &k.sender, &k.id);
            let ghost key = pending_key(k.chat@, k.sender@, k.id@, d);
            let ghost before = statements@;
            statements.push(s);
            proof {
                let done = pending_keys(keys@.take(i as int), d);
                let next = pending_keys(keys@.take(i + 1), d);
                assert(next =~= done + seq![key]);
                assert forall|db: Db, now: int| db.wf() implies #[trigger] apply_all(
                    statements@,
                    db,
                    now,
                ) == db.remove_all(next) && apply_all(statements@, db, now).wf() by {
                    lemma_apply_push(before, s, db, now);
                    let mid = apply_all(before, db, now);
                    assert(mid.wf());
                    let after = apply(s, mid, now);
                    assert forall|x: Key| #[trigger]
                        after.rows.contains_key(x) <==> db.remove_all(next).rows.contains_key(x) by {
                        crate::effects::lemma_concat_contains(done, seq![key], x);
                        assert(seq![key].contains(x) <==> x == key) by {
                            assert(seq![key][0] == key);
                        }
                    }
                    assert(after.rows =~= db.remove_all(next).rows);
                }
            }
            i = i + 1;
        }
        assert(keys@.take(i as int) =~= keys@);
        WritePlan {
            lane: Lane::Retried("delete_pending_inbound_batch"),
            guard: Guard::Deferred,
            statements,
        }
    }
}

// ---------------------------------------------------------------------------------------
// Laws

/// A message that is taken is handed out and gone: taking it again finds nothing.
pub proof fn law_a_message_is_taken_once(
    taking: Taking,
    db: Db,
    key: Key,
    out: Seq<Seq<Val>>,
    again: Seq<Seq<Val>>,
    now: int,
)
    requires
        db.wf(),
        reads_row(taking.read, key, seq![Column::Payload]),
        removes(taking.delete, key),
        answers(taking.read, db, out),
        answers(taking.read, apply(taking.delete, db, now), again),
    ensures
        out == row_answer(db, key, seq![Column::Payload]),
        again.len() == 0,
        forall|k: Key|
            k != key ==> #[trigger] apply(taking.delete, db, now).get(k) == db.get(k),
{
    let after = apply(taking.delete, db, now);
    assert(after == db.remove(key));
    assert(again == row_answer(after, key, seq![Column::Payload]));
    assert forall|k: Key| k != key implies #[trigger] after.get(k) == db.get(k) by {}
}

} // verus!
