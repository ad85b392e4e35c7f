//! Privacy tokens: those received, and when this side last issued one.

use crate::effects::{
    asks, asks_for_listed, delete_row, key1, lemma_sweeps, one, pin1, query_in_chunks, reads_row,
    row_answer, row_query, write_row,
};
use crate::error::StoreError;
use crate::merge::{merged, Merge};
use crate::model::{answers, apply, holds, never_refused, projected, row_wf, Db};
use crate::plan::{
    both, either, equals, owned_by, query_sound, sound, Guard, Lane, ReadPlan, Source, WritePlan,
};
use crate::rows::{
    blob_at, int_at, is_mismatch, opt_int_ok, read_blob, read_int, read_opt_int, read_text,
    row_view, rows_view, text_at, Rows,
};
use crate::schema::{key_of, Column, Key, Table};
use crate::signal::{address_values, text_values};
use crate::sql::{Cond, Order, Query, Statement, Want};
use crate::store::SqliteStore;
use crate::value::{int_or_null, values, Val, Value};
use vstd::prelude::*;

verus! {

broadcast use {
    crate::model::lemma_takes_all,
    vstd::string::group_string_axioms,
    vstd::seq::group_seq_axioms,
};

/// How many identities one query lists at most.
pub const TOKEN_LIST_CHUNK: usize = 500;

/// A token, its time, and when this side last issued one. The token is empty where none was
/// received.
#[derive(Debug)]
pub struct TcTokenEntry {
    pub token: Vec<u8>,
    pub token_timestamp: i64,
    pub sender_timestamp: Option<i64>,
}

/// A time that may be missing.
pub open spec fn opt_time(t: Option<i64>) -> Val {
    match t {
        Some(n) => Val::Int(n as int),
        None => Val::Null,
    }
}

/// The row of a token.
pub open spec fn token_row(
    jid: Seq<char>,
    token: Seq<u8>,
    token_timestamp: i64,
    sender_timestamp: Option<i64>,
    device_id: int,
    now: i64,
) -> Seq<Val> {
    seq![
        Val::Text(jid),
        Val::Blob(token),
        Val::Int(token_timestamp as int),
        opt_time(sender_timestamp),
        Val::Int(device_id),
        Val::Int(now as int),
    ]
}

/// The key of a token.
pub open spec fn token_key(jid: Seq<char>, device_id: int) -> Key {
    key1(Table::TcTokens, device_id, Val::Text(jid))
}

fn new_token_row(
    jid: &str,
    token: &[u8],
    token_timestamp: i64,
    sender_timestamp: Option<i64>,
    device_id: i32,
    now: i64,
) -> (row: Vec<Value>)
    ensures
        values(row@) == token_row(
            jid@,
            token@,
            token_timestamp,
            sender_timestamp,
            device_id as int,
            now,
        ),
        row@.len() == 6,
{
    let row: Vec<Value> = vec![
        Value::text(jid),
        Value::blob(token),
        Value::Int(token_timestamp),
        Value::int_or_null(sender_timestamp),
        Value::Int(device_id as i64),
        Value::Int(now),
    ];
    assert(values(row@) =~= token_row(
        jid@,
        token@,
        token_timestamp,
        sender_timestamp,
        device_id as int,
        now,
    ));
    row
}

/// A row is spent: its token is empty or older than the first time, and no token was issued or
/// the last was before the second.
pub open spec fn spent(row: Seq<Val>, token_cutoff: int, sender_cutoff: int) -> bool {
    &&& row[1] == Val::Blob(seq![]) || (row[2] matches Val::Int(n) && n < token_cutoff)
    &&& row[3] is Null || (row[3] matches Val::Int(n) && n < sender_cutoff)
}

/// Whether a received token is taken: there is none yet, or it is no older.
pub open spec fn accepts(stored: Option<(Seq<u8>, int)>, token_timestamp: int) -> bool {
    match stored {
        None => true,
        Some((token, time)) => token.len() == 0 || token_timestamp >= time,
    }
}

/// The token and its time in a row.
pub open spec fn stored_token(row: Seq<Val>) -> Option<(Seq<u8>, int)> {
    match (blob_at(row, 0), int_at(row, 1)) {
        (Some(token), Some(time)) => Some((token, time)),
        _ => None,
    }
}

/// The arrival of a token: what is read, and what is written where the token is taken, in one
/// transaction.
#[derive(Debug)]
pub struct TokenArrival {
    pub lane: Lane,
    pub guard: Guard,
    pub token_timestamp: i64,
    /// Reads the stored token and its time.
    pub read: Query,
    /// Writes the token.
    pub write: Statement,
}

impl TokenArrival {
    /// Decides whether the token is written, given what was read.
    pub fn settle(self, rows: &Rows) -> (write: Result<Option<Statement>, StoreError>)
        ensures
            rows_view(*rows).len() == 0 ==> write == Ok::<Option<Statement>, StoreError>(
                Some(self.write),
            ),
            rows_view(*rows).len() > 0 ==> match stored_token(rows_view(*rows)[0]) {
                Some(stored) => write == Ok::<Option<Statement>, StoreError>(
                    if accepts(Some(stored), self.token_timestamp as int) {
                        Some(self.write)
                    } else {
                        None
                    },
                ),
                None => write matches Err(e) && is_mismatch(e),
            },
    {
        if rows.len() == 0 {
            return Ok(Some(self.write));
        }
        let token = match read_blob(&rows[0], 0) {
            Ok(v) => v,
            Err(e) => return Err(e),
        };
        let time: i64 = match read_int(&rows[0], 1) {
            Ok(v) => v,
            Err(e) => return Err(e),
        };
        if token.len() == 0 || self.token_timestamp >= time {
            Ok(Some(self.write))
        } else {
            Ok(None)
        }
    }
}

impl SqliteStore {
    /// Reads the token of an identity. Its times schedule the next one, so the read waits
    /// behind the writes before it.
    pub fn get_tc_token(&self, jid: &str) -> (plan: ReadPlan)
        ensures
            plan.source is Queue,
            plan.reads(
                token_key(jid@, self.device_id as int),
                seq![Column::Token, Column::TokenTimestamp, Column::SenderTimestamp],
            ),
    {
        let filter = pin1(Table::TcTokens, Column::Jid, Value::text(jid), self.device_id);
        let cs: Vec<Column> = vec![
            Column::Token,
            Column::TokenTimestamp,
            Column::SenderTimestamp,
        ];
        assert(cs@ =~= seq![Column::Token, Column::TokenTimestamp, Column::SenderTimestamp]);
        let q = row_query(Table::TcTokens, cs, filter);
        ReadPlan { source: Source::Queue, queries: vec![q] }
    }

    /// Reads the tokens of identities, each with its identity.
    pub fn get_tc_tokens(&self, jids: &[String]) -> (plan: ReadPlan)
        ensures
            plan.source is Queue,
            asks_for_listed(
                plan.queries@,
                Table::TcTokens,
                seq![Column::Jid, Column::Token, Column::TokenTimestamp, Column::SenderTimestamp],
                None,
                Column::Jid,
                text_values(jids@),
                TOKEN_LIST_CHUNK as nat,
                self.device_id as int,
            ),
    {
        let queries = query_in_chunks(
            Table::TcTokens,
            None,
            vec![
                Column::Jid,
                Column::Token,
                Column::TokenTimestamp,
                Column::SenderTimestamp,
            ],
            Column::Jid,
            address_values(jids),
            self.device_id,
            TOKEN_LIST_CHUNK,
        );
        ReadPlan { source: Source::Queue, queries }
    }

    /// Stores the token of an identity, whatever is stored.
    pub fn put_tc_token(&self, jid: &str, entry: &TcTokenEntry, now: i64) -> (plan: WritePlan)
        ensures
            plan.once(),
            plan.sound(),
            plan.always_taken(),
            plan.leaves(
                |db: Db, at: int|
                    db.put(
                        Table::TcTokens,
                        token_row(
                            jid@,
                            entry.token@,
                            entry.token_timestamp,
                            entry.sender_timestamp,
                            self.device_id as int,
                            now,
                        ),
                    ),
            ),
    {
        let row = new_token_row(
            jid,
            entry.token.as_slice(),
            entry.token_timestamp,
            entry.sender_timestamp,
            self.device_id,
            now,
        );
        write_row(Lane::Once, Merge::Overwrite, Table::TcTokens, row)
    }

    /// Deletes the token of an identity.
    pub fn delete_tc_token(&self, jid: &str) -> (plan: WritePlan)
        ensures
            plan.once(),
            plan.sound(),
            plan.always_taken(),
            plan.leaves(
                |db: Db, now: int| db.remove(token_key(jid@, self.device_id as int)),
            ),
    {
        let filter = pin1(Table::TcTokens, Column::Jid, Value::text(jid), self.device_id);
        delete_row(Lane::Once, Table::TcTokens, filter)
    }

    /// Reads the identities with a token.
    pub fn get_all_tc_token_jids(&self) -> (plan: ReadPlan)
        ensures
            plan.source is Reader,
            plan.queries@.len() == 1,
            asks(
                plan.queries@[0],
                Table::TcTokens,
                seq![Column::Jid],
                |row: Seq<Val>| row[4] == Val::Int(self.device_id as int),
                Order::Unordered,
                false,
            ),
    {
        let q = Query {
            table: Table::TcTokens,
            want: Want::Columns(one(Column::Jid)),
            filter: owned_by(self.device_id),
            order: Order::Unordered,
            first: false,
        };
        ReadPlan { source: Source::Reader, queries: vec![q] }
    }

    /// Deletes the tokens that are spent on both sides.
    pub fn delete_expired_tc_tokens(&self, token_cutoff: i64, sender_cutoff: i64) -> (plan:
        WritePlan)
        ensures
            plan.retried_as("delete_expired_tc_tokens"@, Guard::Bare),
            plan.sound(),
            plan.always_taken(),
            plan.sweeps(
                |k: Key, row: Seq<Val>|
                    k.table == Table::TcTokens && k.device == Val::Int(
                        self.device_id as int,
                    ) && spent(row, token_cutoff as int, sender_cutoff as int),
            ),
    {
        let empty: Vec<u8> = Vec::new();
        let no_token = equals(Column::Token, Value::Blob(empty));
        let old_token = Cond::Below(Column::TokenTimestamp, Value::Int(token_cutoff));
        let no_sender = Cond::IsNull(Column::SenderTimestamp);
        let old_sender = Cond::Below(Column::SenderTimestamp, Value::Int(sender_cutoff));
        let filter = both(
            either(no_token, old_token),
            both(either(no_sender, old_sender), owned_by(self.device_id)),
        );
        let plan = delete_row(Lane::Retried("delete_expired_tc_tokens"), Table::TcTokens, filter);
        proof {
            assert(empty@ =~= seq![]);
            let p = |k: Key, row: Seq<Val>|
                k.table == Table::TcTokens && k.device == Val::Int(self.device_id as int) && spent(
                    row,
                    token_cutoff as int,
                    sender_cutoff as int,
                );
            assert forall|k: Key, row: Seq<Val>|
                row_wf(k.table, row) && key_of(k.table, row) == k implies #[trigger] p(k, row) == (
            k.table == Table::TcTokens && holds(filter, Table::TcTokens, row)) by {
                assert(holds(old_token, Table::TcTokens, row) == (row[2] matches Val::Int(n) && n
                    < token_cutoff));
                assert(holds(no_sender, Table::TcTokens, row) == (row[3] is Null));
                assert(holds(old_sender, Table::TcTokens, row) == (row[3] matches Val::Int(n) && n
                    < sender_cutoff));
            }
            lemma_sweeps(plan, Table::TcTokens, filter, p);
        }
        plan
    }

    /// Takes in a token that was received, unless a newer one is stored. When this side last
    /// issued one stays.
    pub fn store_received_tc_token(
        &self,
        jid: &str,
        token: &[u8],
        token_timestamp: i64,
        now: i64,
    ) -> (arrival: TokenArrival)
        ensures
            arrival.guard == Guard::Immediate,
            arrival.lane matches Lane::Retried(name) && name@ == "store_received_tc_token"@,
            arrival.token_timestamp == token_timestamp,
            query_sound(arrival.read),
            reads_row(
                arrival.read,
                token_key(jid@, self.device_id as int),
                seq![Column::Token, Column::TokenTimestamp],
            ),
            sound(arrival.write),
            never_refused(arrival.write),
            forall|db: Db, at: int|
                db.wf() ==> #[trigger] apply(arrival.write, db, at) == db.merge(
                    Merge::Received,
                    Table::TcTokens,
                    token_row(jid@, token@, token_timestamp, None, self.device_id as int, now),
                ),
    {
        let filter = pin1(Table::TcTokens, Column::Jid, Value::text(jid), self.device_id);
        let cs: Vec<Column> = vec![Column::Token, Column::TokenTimestamp];
        assert(cs@ =~= seq![Column::Token, Column::TokenTimestamp]);
        let read = row_query(Table::TcTokens, cs, filter);
        let row = new_token_row(jid, token, token_timestamp, None, self.device_id, now);
        let ghost r = row@;
        let mut plan = write_row(Lane::Once, Merge::Received, Table::TcTokens, row);
        let ghost before = plan;
        let ghost s = plan.statements@[0];
        proof {
            assert forall|db: Db, at: int| db.wf() implies #[trigger] apply(s, db, at) == db.merge(
                Merge::Received,
                Table::TcTokens,
                token_row(jid@, token@, token_timestamp, None, self.device_id as int, now),
            ) by {
                crate::effects::lemma_apply_one(s, db, at);
                assert(before.statements@ =~= seq![s]);
                assert(before.apply(db, at) == apply(s, db, at));
            }
        }
        let write = plan.statements.remove(0);
        TokenArrival {
            lane: Lane::Retried("store_received_tc_token"),
            guard: Guard::Immediate,
            token_timestamp,
            read,
            write,
        }
    }

    /// Records that this side issued a token. The time moves forward only, and a token that was
    /// received stays.
    pub fn touch_tc_token_sender_timestamp(&self, jid: &str, sender_timestamp: i64, now: i64)
        -> (plan: WritePlan)
        ensures
            plan.once(),
            plan.sound(),
            plan.always_taken(),
            plan.leaves(
                |db: Db, at: int|
                    db.merge(
                        Merge::Touch,
                        Table::TcTokens,
                        token_row(
                            jid@,
                            seq![],
                            sender_timestamp,
                            Some(sender_timestamp),
                            self.device_id as int,
                            now,
                        ),
                    ),
            ),
    {
        let empty: Vec<u8> = Vec::new();
        assert(empty@ =~= seq![]);
        let row = new_token_row(
            jid,
            empty.as_slice(),
            sender_timestamp,
            Some(sender_timestamp),
            self.device_id,
            now,
        );
        write_row(Lane::Once, Merge::Touch, Table::TcTokens, row)
    }
}

// ---------------------------------------------------------------------------------------
// Answers

/// The columns of a token, from a place on, can be read.
pub open spec fn is_token(row: Seq<Val>, from: int) -> bool {
    blob_at(row, from) is Some && int_at(row, from + 1) is Some && opt_int_ok(row, from + 2)
}

/// A token from a row.
pub open spec fn describes(row: Seq<Val>, from: int, e: TcTokenEntry) -> bool {
    &&& blob_at(row, from) == Some(e.token@)
    &&& int_at(row, from + 1) == Some(e.token_timestamp as int)
    &&& match e.sender_timestamp {
        Some(n) => int_at(row, from + 2) == Some(n as int),
        None => int_at(row, from + 2) is None,
    }
}

fn read_token(row: &Vec<Value>, from: usize) -> (r: Result<TcTokenEntry, StoreError>)
    requires
        from <= 1,
    ensures
        if is_token(row_view(*row), from as int) {
            r matches Ok(e) && describes(row_view(*row), from as int, e)
        } else {
            r matches Err(e) && is_mismatch(e)
        },
{
    let token = match read_blob(row, from) {
        Ok(v) => v,
        Err(e) => return Err(e),
    };
    let token_timestamp: i64 = match read_int(row, from + 1) {
        Ok(v) => v,
        Err(e) => return Err(e),
    };
    let sender_timestamp = match read_opt_int(row, from + 2) {
        Ok(v) => v,
        Err(e) => return Err(e),
    };
    Ok(TcTokenEntry { token, token_timestamp, sender_timestamp })
}

/// The token that came back; none where there is no row.
pub fn token_answer(rows: &Rows) -> (r: Result<Option<TcTokenEntry>, StoreError>)
    ensures
        rows_view(*rows).len() == 0 ==> (r matches Ok(v) && v is None),
        rows_view(*rows).len() > 0 ==> if is_token(rows_view(*rows)[0], 0) {
            r matches Ok(Some(e)) && describes(rows_view(*rows)[0], 0, e)
        } else {
            r matches Err(e) && is_mismatch(e)
        },
{
    if rows.len() == 0 {
        return Ok(None);
    }
    match read_token(&rows[0], 0) {
        Ok(e) => Ok(Some(e)),
        Err(e) => Err(e),
    }
}

/// The place of the last row for an identity; minus one where there is none.
pub open spec fn last_row_for(rows: Seq<Seq<Val>>, jid: Seq<char>) -> int
    decreases rows.len(),
{
    if rows.len() == 0 {
        -1
    } else if text_at(rows.last(), 0) == Some(jid) {
        rows.len() - 1
    } else {
        last_row_for(rows.drop_last(), jid)
    }
}

/// The row of an identity and its token can be read.
pub open spec fn is_named_token(row: Seq<Val>) -> bool {
    text_at(row, 0) is Some && is_token(row, 1)
}

/// What is answered for an identity: the token in its row, none where it has no row.
pub open spec fn answers_for(rows: Seq<Seq<Val>>, jid: Seq<char>, a: Option<TcTokenEntry>) -> bool {
    let i = last_row_for(rows, jid);
    match a {
        Some(e) => 0 <= i < rows.len() && describes(rows[i], 1, e),
        None => i == -1,
    }
}

/// The token of one identity among the rows that came back.
fn find_token(rows: &Rows, jid: &String) -> (r: Option<TcTokenEntry>)
    requires
        forall|i: int|
            0 <= i < rows_view(*rows).len() ==> is_named_token(#[trigger] rows_view(*rows)[i]),
    ensures
        answers_for(rows_view(*rows), jid@, r),
{
    let ghost all = rows_view(*rows);
    let mut n: usize = rows.len();
    assert(all.take(n as int) =~= all);
    while n > 0
        invariant
            n <= rows.len(),
            all == rows_view(*rows),
            last_row_for(all.take(n as int), jid@) == last_row_for(all, jid@),
            forall|i: int| 0 <= i < all.len() ==> is_named_token(#[trigger] all[i]),
        decreases n,
    {
        let ghost head = all.take(n as int);
        assert(head.last() == all[n - 1]);
        assert(all[n - 1] == row_view(rows@[n - 1]));
        assert(is_named_token(all[n - 1]));
        assert(head.drop_last() =~= all.take(n - 1));
        n = n - 1;
        if let Ok(text) = read_text(&rows[n], 0) {
            if text == *jid {
                return match read_token(&rows[n], 1) {
                    Ok(e) => Some(e),
                    Err(_) => None,
                };
            }
        }
    }
    assert(all.take(0) =~= seq![]);
    None
}

/// The tokens of identities, each in the place of its identity.
pub fn tokens_answer(jids: &[String], rows: &Rows) -> (r: Result<
    Vec<Option<TcTokenEntry>>,
    StoreError,
>)
    ensures
        if forall|i: int|
            0 <= i < rows_view(*rows).len() ==> is_named_token(#[trigger] rows_view(*rows)[i]) {
            &&& r matches Ok(list)
            &&& list@.len() == jids@.len()
            &&& forall|i: int|
                0 <= i < list@.len() ==> answers_for(
                    rows_view(*rows),
                    jids@[i]@,
                    #[trigger] list@[i],
                )
        } else {
            r matches Err(e) && is_mismatch(e)
        },
{
    let ghost all = rows_view(*rows);
    let mut k: usize = 0;
    while k < rows.len()
        invariant
            k <= rows.len(),
            all == rows_view(*rows),
            forall|i: int| 0 <= i < k ==> is_named_token(#[trigger] all[i]),
        decreases rows.len() - k,
    {
        assert(all[k as int] == row_view(rows@[k as int]));
        if let Err(e) = read_text(&rows[k], 0) {
            assert(!is_named_token(all[k as int]));
            return Err(e);
        }
        if let Err(e) = read_token(&rows[k], 1) {
            assert(!is_named_token(all[k as int]));
            return Err(e);
        }
        k = k + 1;
    }
    let mut list: Vec<Option<TcTokenEntry>> = Vec::new();
    let mut i: usize = 0;
    while i < jids.len()
        invariant
            i <= jids.len(),
            list@.len() == i,
            all == rows_view(*rows),
            forall|j: int| 0 <= j < all.len() ==> is_named_token(#[trigger] all[j]),
            forall|j: int| 0 <= j < i ==> answers_for(all, jids@[j]@, #[trigger] list@[j]),
        decreases jids.len() - i,
    {
        list.push(find_token(rows, &jids[i]));
        i = i + 1;
    }
    Ok(list)
}

/// The identities that came back.
pub fn jids_answer(rows: &Rows) -> (r: Result<Vec<String>, StoreError>)
    ensures
        if forall|i: int|
            0 <= i < rows_view(*rows).len() ==> text_at(#[trigger] rows_view(*rows)[i], 0) is Some {
            &&& r matches Ok(list)
            &&& list@.len() == rows_view(*rows).len()
            &&& forall|i: int|
                0 <= i < list@.len() ==> text_at(rows_view(*rows)[i], 0) == Some(
                    (#[trigger] list@[i])@,
                )
        } else {
            r matches Err(e) && is_mismatch(e)
        },
{
    let mut list: Vec<String> = Vec::new();
    let mut i: usize = 0;
    while i < rows.len()
        invariant
            i <= rows.len(),
            list@.len() == i,
            forall|j: int| 0 <= j < i ==> text_at(#[trigger] rows_view(*rows)[j], 0) is Some,
            forall|j: int|
                0 <= j < i ==> text_at(rows_view(*rows)[j], 0) == Some((#[trigger] list@[j])@),
        decreases rows.len() - i,
    {
        assert(rows_view(*rows)[i as int] == row_view(rows@[i as int]));
        match read_text(&rows[i], 0) {
            Ok(text) => list.push(text),
            Err(e) => {
                assert(text_at(rows_view(*rows)[i as int], 0) is None);
                return Err(e);
            },
        }
        i = i + 1;
    }
    Ok(list)
}

// ---------------------------------------------------------------------------------------
// Laws

/// A token's row holds a token and a time.
pub open spec fn typed(db: Db, k: Key) -> bool {
    db.rows.contains_key(k) ==> db.rows[k].len() == 6 && db.rows[k][1] is Blob && db.rows[k][2] is Int
}

/// The database after a token arrived.
pub open spec fn arrived(
    db: Db,
    jid: Seq<char>,
    token: Seq<u8>,
    token_timestamp: i64,
    device_id: int,
    now: i64,
) -> Db {
    let k = token_key(jid, device_id);
    let read = row_answer(db, k, seq![Column::Token, Column::TokenTimestamp]);
    let stored = if read.len() == 0 {
        None
    } else {
        stored_token(read[0])
    };
    if accepts(stored, token_timestamp as int) {
        db.merge(
            Merge::Received,
            Table::TcTokens,
            token_row(jid, token, token_timestamp, None, device_id, now),
        )
    } else {
        db
    }
}

/// An arrival that is settled on what its own query came back with leaves the database of
/// [`arrived`].
pub proof fn law_arrivals_settle(
    arrival: TokenArrival,
    db: Db,
    out: Seq<Seq<Val>>,
    jid: Seq<char>,
    token: Seq<u8>,
    device_id: int,
    now: i64,
    at: int,
)
    requires
        db.wf(),
        typed(db, token_key(jid, device_id)),
        reads_row(
            arrival.read,
            token_key(jid, device_id),
            seq![Column::Token, Column::TokenTimestamp],
        ),
        apply(arrival.write, db, at) == db.merge(
            Merge::Received,
            Table::TcTokens,
            token_row(jid, token, arrival.token_timestamp, None, device_id, now),
        ),
        answers(arrival.read, db, out),
    ensures
        out.len() > 0 ==> stored_token(out[0]) is Some,
        arrived(db, jid, token, arrival.token_timestamp, device_id, now) == (if out.len() == 0
            || accepts(stored_token(out[0]), arrival.token_timestamp as int) {
            apply(arrival.write, db, at)
        } else {
            db
        }),
{
    let k = token_key(jid, device_id);
    let cs = seq![Column::Token, Column::TokenTimestamp];
    assert(out == row_answer(db, k, cs));
    if db.rows.contains_key(k) {
        let row = db.rows[k];
        assert(projected(k.table, cs, row) =~= seq![row[1], row[2]]);
    }
}

/// The token and its time under a key.
pub open spec fn token_at(db: Db, k: Key) -> (Option<Val>, Option<Val>) {
    (db.column(k, Column::Token), db.column(k, Column::TokenTimestamp))
}

/// Two tokens of different times leave the newer one, in whichever order they arrive.
pub proof fn law_newer_token_wins_in_any_order(
    db: Db,
    jid: Seq<char>,
    device_id: int,
    a: Seq<u8>,
    time_a: i64,
    b: Seq<u8>,
    time_b: i64,
    now: i64,
)
    requires
        db.wf(),
        typed(db, token_key(jid, device_id)),
        a.len() > 0,
        b.len() > 0,
        time_a != time_b,
    ensures
        ({
            let k = token_key(jid, device_id);
            let ab = arrived(
                arrived(db, jid, a, time_a, device_id, now),
                jid,
                b,
                time_b,
                device_id,
                now,
            );
            let ba = arrived(
                arrived(db, jid, b, time_b, device_id, now),
                jid,
                a,
                time_a,
                device_id,
                now,
            );
            token_at(ab, k) == token_at(ba, k)
        }),
{
    lemma_arrival(db, jid, a, time_a, device_id, now);
    lemma_arrival(db, jid, b, time_b, device_id, now);
    lemma_arrival(
        arrived(db, jid, a, time_a, device_id, now),
        jid,
        b,
        time_b,
        device_id,
        now,
    );
    lemma_arrival(
        arrived(db, jid, b, time_b, device_id, now),
        jid,
        a,
        time_a,
        device_id,
        now,
    );
}

/// What an arrival does to the token and its time.
proof fn lemma_arrival(
    db: Db,
    jid: Seq<char>,
    token: Seq<u8>,
    time: i64,
    device_id: int,
    now: i64,
)
    requires
        db.wf(),
        typed(db, token_key(jid, device_id)),
    ensures
        ({
            let k = token_key(jid, device_id);
            let after = arrived(db, jid, token, time, device_id, now);
            &&& after.wf()
            &&& typed(after, k)
            &&& after.rows.contains_key(k)
            &&& token_at(after, k) == (match db.get(k) {
                Some(row) if !(row[1] == Val::Blob(seq![]) || time >= row[2]->Int_0) => (
                    Some(row[1]),
                    Some(row[2]),
                ),
                _ => (Some(Val::Blob(token)), Some(Val::Int(time as int))),
            })
        }),
{
    let k = token_key(jid, device_id);
    let cs = seq![Column::Token, Column::TokenTimestamp];
    let row = token_row(jid, token, time, None, device_id, now);
    assert(key_of(Table::TcTokens, row) == k);
    crate::effects::lemma_merge_wf(db, Merge::Received, Table::TcTokens, row);
    if db.rows.contains_key(k) {
        let old_row = db.rows[k];
        assert(projected(k.table, cs, old_row) =~= seq![old_row[1], old_row[2]]);
        let read = row_answer(db, k, cs);
        assert(read.len() == 1);
        assert(stored_token(read[0]) is Some);
        let held = old_row[1]->Blob_0;
        assert(held.len() == 0 ==> held =~= seq![]);
        assert(key_of(Table::TcTokens, old_row) == k);
        assert(key_of(Table::TcTokens, merged(Merge::Received, old_row, row)) == k);
    }
}

/// Taking in a token leaves when this side last issued one, and other rows.
pub proof fn law_arrivals_keep_the_sender_time(
    db: Db,
    jid: Seq<char>,
    token: Seq<u8>,
    token_timestamp: i64,
    device_id: int,
    now: i64,
    k: Key,
)
    requires
        db.wf(),
        db.rows.contains_key(k),
    ensures
        arrived(db, jid, token, token_timestamp, device_id, now).rows.contains_key(k),
        k == token_key(jid, device_id) ==> arrived(
            db,
            jid,
            token,
            token_timestamp,
            device_id,
            now,
        ).column(k, Column::SenderTimestamp) == db.column(k, Column::SenderTimestamp),
        k != token_key(jid, device_id) ==> arrived(
            db,
            jid,
            token,
            token_timestamp,
            device_id,
            now,
        ).rows[k] == db.rows[k],
{
    let row = token_row(jid, token, token_timestamp, None, device_id, now);
    let own = token_key(jid, device_id);
    assert(key_of(Table::TcTokens, row) == own);
    if db.rows.contains_key(own) {
        let old_row = db.rows[own];
        assert(key_of(Table::TcTokens, old_row) == own);
        assert(key_of(Table::TcTokens, merged(Merge::Received, old_row, row)) == own);
    }
}

/// Recording that a token was issued moves the sender's time forward only, and leaves the token
/// that was received.
pub proof fn law_touches_only_advance(
    db: Db,
    jid: Seq<char>,
    sender_timestamp: i64,
    device_id: int,
    now: i64,
)
    requires
        db.wf(),
    ensures
        ({
            let k = token_key(jid, device_id);
            let after = db.merge(
                Merge::Touch,
                Table::TcTokens,
                token_row(jid, seq![], sender_timestamp, Some(sender_timestamp), device_id, now),
            );
            &&& after.rows.contains_key(k)
            &&& db.rows.contains_key(k) ==> token_at(after, k) == token_at(db, k)
            &&& match db.column(k, Column::SenderTimestamp) {
                Some(Val::Int(n)) => after.column(k, Column::SenderTimestamp) == Some(
                    Val::Int(
                        if n < sender_timestamp {
                            sender_timestamp as int
                        } else {
                            n
                        },
                    ),
                ),
                Some(Val::Null) | None => after.column(k, Column::SenderTimestamp) == Some(
                    Val::Int(sender_timestamp as int),
                ),
                _ => true,
            }
        }),
{
    let k = token_key(jid, device_id);
    let row = token_row(jid, seq![], sender_timestamp, Some(sender_timestamp), device_id, now);
    assert(key_of(Table::TcTokens, row) == k);
    if db.rows.contains_key(k) {
        let old_row = db.rows[k];
        assert(key_of(Table::TcTokens, old_row) == k);
        assert(key_of(Table::TcTokens, merged(Merge::Touch, old_row, row)) == k);
    }
}

} // verus!
