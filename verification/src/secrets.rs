//! The secrets of messages, by which later reactions, votes and edits are opened.

use crate::effects::{
    completed_rows, delete_row, key3, lemma_sweeps, pin3, row_query, rows_inserted, write_rows,
};
use crate::error::StoreError;
use crate::merge::{merged, merged_deadline, Merge};
use crate::model::{holds, row_wf, Db};
use crate::plan::{both, owned_by, Guard, Lane, ReadPlan, Source, WritePlan};
use crate::rows::{blob_at, int_at, is_mismatch, read_blob, read_int, rows_view, Rows};
use crate::schema::{key_of, Column, Key, Table};
use crate::sql::Cond;
use crate::store::SqliteStore;
use crate::value::{larger, values, Val, Value};
use vstd::prelude::*;

verus! {

broadcast use {vstd::string::group_string_axioms, vstd::seq::group_seq_axioms};

/// How many secrets one statement inserts at most.
pub const MSG_SECRET_INSERT_CHUNK_SIZE: usize = 100;

/// The secret of a message. It expires at a time, never where that is zero.
#[derive(Debug)]
pub struct MsgSecretEntry {
    pub chat: String,
    pub sender: String,
    pub msg_id: String,
    pub secret: [u8; 32],
    pub expires_at: i64,
    pub message_ts: i64,
}

/// The row of a secret.
pub open spec fn secret_row(e: MsgSecretEntry, device_id: int) -> Seq<Val> {
    seq![
        Val::Text(e.chat@),
        Val::Text(e.sender@),
        Val::Text(e.msg_id@),
        Val::Blob(e.secret@),
        Val::Int(e.expires_at as int),
        Val::Int(e.message_ts as int),
        Val::Int(device_id),
    ]
}

/// The rows of secrets.
pub open spec fn secret_rows(entries: Seq<MsgSecretEntry>, device_id: int) -> Seq<Seq<Val>> {
    entries.map_values(|e: MsgSecretEntry| secret_row(e, device_id))
}

/// The key of a secret.
pub open spec fn secret_key(
    chat: Seq<char>,
    sender: Seq<char>,
    msg_id: Seq<char>,
    device_id: int,
) -> Key {
    key3(Table::MsgSecrets, device_id, Val::Text(chat), Val::Text(sender), Val::Text(msg_id))
}

/// A secret's row has expired by a time.
pub open spec fn expired(row: Seq<Val>, cutoff: int) -> bool {
    row[4] matches Val::Int(n) && n != 0 && n <= cutoff
}

impl SqliteStore {
    /// Stores secrets, all or none of them. What is stored already keeps the later deadline and
    /// the later message time.
    pub fn put_msg_secrets(&self, entries: &[MsgSecretEntry]) -> (plan: WritePlan)
        ensures
            plan.retried_as("put_msg_secrets"@, Guard::Immediate),
            plan.sound(),
            plan.always_taken(),
            entries@.len() == 0 <==> plan.statements@.len() == 0,
            rows_inserted(plan.statements@) == entries@.len(),
            plan.leaves(
                |db: Db, now: int|
                    db.merge_all(
                        Merge::Secret,
                        Table::MsgSecrets,
                        secret_rows(entries@, self.device_id as int),
                    ),
            ),
    {
        let mut rows: Vec<Vec<Value>> = Vec::new();
        let mut i: usize = 0;
        while i < entries.len()
            invariant
                i <= entries.len(),
                rows@.len() == i,
                forall|j: int|
                    0 <= j < i ==> (#[trigger] rows@[j])@.len() == 7 && values(rows@[j]@)
                        == secret_row(entries@[j], self.device_id as int),
            decreases entries.len() - i,
        {
            let e = &entries[i];
            let row: Vec<Value> = vec![
                Value::text(&e.chat),
                Value::text(&e.sender),
                Value::text(&e.msg_id),
                Value::blob(e.secret.as_slice()),
                Value::Int(e.expires_at),
                Value::Int(e.message_ts),
                Value::Int(self.device_id as i64),
            ];
            assert(values(row@) =~= secret_row(*e, self.device_id as int));
            rows.push(row);
            i = i + 1;
        }
        proof {
            assert forall|now: int| #[trigger] completed_rows(Table::MsgSecrets, rows@, now)
                == secret_rows(entries@, self.device_id as int) by {
                assert(completed_rows(Table::MsgSecrets, rows@, now) =~= secret_rows(
                    entries@,
                    self.device_id as int,
                ));
            }
        }
        write_rows(
            "put_msg_secrets",
            Guard::Immediate,
            Merge::Secret,
            Table::MsgSecrets,
            rows,
            MSG_SECRET_INSERT_CHUNK_SIZE,
        )
    }

    /// Reads a secret and the time of its message. A missing secret is final for its reader, so
    /// the read waits behind the writes before it.
    pub fn get_msg_secret_with_ts(&self, chat: &str, sender: &str, msg_id: &str) -> (plan: ReadPlan)
        ensures
            plan.source is Queue,
            plan.reads(
                secret_key(chat@, sender@, msg_id@, self.device_id as int),
                seq![Column::Secret, Column::MessageTs],
            ),
    {
        let filter = pin3(
            Table::MsgSecrets,
            Column::Chat,
            Value::text(chat),
            Column::Sender,
            Value::text(sender),
            Column::MsgId,
            Value::text(msg_id),
            self.device_id,
        );
        let cs: Vec<Column> = vec![Column::Secret, Column::MessageTs];
        assert(cs@ =~= seq![Column::Secret, Column::MessageTs]);
        let q = row_query(Table::MsgSecrets, cs, filter);
        ReadPlan { source: Source::Queue, queries: vec![q] }
    }

    /// Deletes the secrets whose deadline has passed. Those without one stay.
    pub fn delete_expired_msg_secrets(&self, cutoff_timestamp: i64) -> (plan: WritePlan)
        ensures
            plan.retried_as("delete_expired_msg_secrets"@, Guard::Bare),
            plan.sound(),
            plan.always_taken(),
            plan.sweeps(
                |k: Key, row: Seq<Val>|
                    k.table == Table::MsgSecrets && k.device == Val::Int(
                        self.device_id as int,
                    ) && expired(row, cutoff_timestamp as int),
            ),
    {
        let has_deadline = Cond::Differs(Column::ExpiresAt, Value::Int(0));
        let passed = Cond::AtMost(Column::ExpiresAt, Value::Int(cutoff_timestamp));
        let filter = both(has_deadline, both(passed, owned_by(self.device_id)));
        let plan = delete_row(
            Lane::Retried("delete_expired_msg_secrets"),
            Table::MsgSecrets,
            filter,
        );
        proof {
            let p = |k: Key, row: Seq<Val>|
                k.table == Table::MsgSecrets && k.device == Val::Int(self.device_id as int)
                    && expired(row, cutoff_timestamp as int);
            assert forall|k: Key, row: Seq<Val>|
                row_wf(k.table, row) && key_of(k.table, row) == k implies #[trigger] p(k, row) == (
            k.table == Table::MsgSecrets && holds(filter, Table::MsgSecrets, row)) by {
                assert(holds(has_deadline, Table::MsgSecrets, row) == (!(row[4] is Null) && row[4]
                    != Val::Int(0)));
                assert(holds(passed, Table::MsgSecrets, row) == (row[4] matches Val::Int(n) && n
                    <= cutoff_timestamp));
            }
            lemma_sweeps(plan, Table::MsgSecrets, filter, p);
        }
        plan
    }
}

/// A secret and a time in a row.
pub open spec fn is_secret(row: Seq<Val>) -> bool {
    blob_at(row, 0) is Some && int_at(row, 1) is Some
}

/// The secret that came back, with the time of its message; none where there is no row.
pub fn secret_answer(rows: &Rows) -> (r: Result<Option<(Vec<u8>, i64)>, StoreError>)
    ensures
        rows_view(*rows).len() == 0 ==> (r matches Ok(v) && v is None),
        rows_view(*rows).len() > 0 ==> if is_secret(rows_view(*rows)[0]) {
            r matches Ok(Some(s)) && blob_at(rows_view(*rows)[0], 0) == Some(s.0@) && int_at(
                rows_view(*rows)[0],
                1,
            ) == Some(s.1 as int)
        } else {
            r matches Err(e) && is_mismatch(e)
        },
{
    if rows.len() == 0 {
        return Ok(None);
    }
    let secret = match read_blob(&rows[0], 0) {
        Ok(v) => v,
        Err(e) => return Err(e),
    };
    let time: i64 = match read_int(&rows[0], 1) {
        Ok(v) => v,
        Err(e) => return Err(e),
    };
    Ok(Some((secret, time)))
}

/// The secret alone.
pub fn get_msg_secret(found: Option<(Vec<u8>, i64)>) -> (secret: Option<Vec<u8>>)
    ensures
        secret == (match found {
            Some((s, _)) => Some(s),
            None => None,
        }),
{
    match found {
        Some((secret, _)) => Some(secret),
        None => None,
    }
}

// ---------------------------------------------------------------------------------------
// Laws

/// A deadline is at least as late as another, where zero is later than any.
pub open spec fn no_earlier(a: int, b: int) -> bool {
    a == 0 || (b != 0 && a >= b)
}

/// Storing a secret again never shortens its life: the deadline that stays is no earlier than
/// the stored one and no earlier than the new one, and is one of the two. The secret is the
/// new one, and the time of the message never goes back.
pub proof fn law_secrets_live_on(old_row: Seq<Val>, e: MsgSecretEntry, device_id: int)
    requires
        old_row.len() == 7,
        old_row[4] is Int,
        old_row[5] is Int,
    ensures
        ({
            let row = merged(Merge::Secret, old_row, secret_row(e, device_id));
            let stored = old_row[4]->Int_0;
            &&& row[3] == Val::Blob(e.secret@)
            &&& row[4] matches Val::Int(n) && no_earlier(n, stored) && no_earlier(
                n,
                e.expires_at as int,
            ) && (n == stored || n == e.expires_at)
            &&& row[5] matches Val::Int(n) && n >= old_row[5]->Int_0 && n >= e.message_ts
        }),
{
}

/// In whichever order versions of a secret are stored, the deadline and the time of the message
/// come out the same; and storing one twice is storing it once.
pub proof fn law_deadlines_merge_in_any_order(a: int, b: int, c: int)
    ensures
        merged_deadline(Val::Int(a), Val::Int(b)) == merged_deadline(Val::Int(b), Val::Int(a)),
        merged_deadline(merged_deadline(Val::Int(a), Val::Int(b)), Val::Int(c)) == merged_deadline(
            Val::Int(a),
            merged_deadline(Val::Int(b), Val::Int(c)),
        ),
        merged_deadline(Val::Int(a), Val::Int(a)) == Val::Int(a),
        larger(Val::Int(a), Val::Int(b)) == larger(Val::Int(b), Val::Int(a)),
        larger(larger(Val::Int(a), Val::Int(b)), Val::Int(c)) == larger(
            Val::Int(a),
            larger(Val::Int(b), Val::Int(c)),
        ),
{
}

/// A secret that a sweep removes has a deadline, and every secret without one stays.
pub proof fn law_secrets_without_deadline_stay(row: Seq<Val>, cutoff: int)
    requires
        row[4] == Val::Int(0),
    ensures
        !expired(row, cutoff),
{
}

} // verus!
