//! The state of the cipher: identities, sessions, sender keys and prekeys.

use crate::effects::{
    asks_for_listed, completed_rows, delete_keys, delete_row, key1, lemma_apply_push,
    lemma_concat_contains, listed_test, no_nulls, one, pin1, query_in_chunks, row_query, widths_fit,
    without_keys, write_row, write_rows,
};
use crate::error::StoreError;
use crate::keys::array32;
use crate::merge::Merge;
use crate::model::{always_taken, answers, apply, apply_all, assigned, holds, selected, Db};
use crate::load::unsigned;
use crate::pattern::{fits_points, folded, like, text_points};
use crate::plan::{
    both, either, owned_by, query_sound, set_wf, sound, Guard, Lane, ReadPlan, Source, WritePlan,
};
use crate::rows::{
    blob_at, first_blob, first_int, int_at, is_mismatch, is_null, is_true, null_at, read_blob,
    read_int, read_text, row_view, rows_view, text_at, Rows,
};
use crate::schema::{key_columns, key_of, pos, Column, Key, Table};
use crate::sql::{set_values, Assignment, Cond, Expr, Order, Query, Statement, Want};
use crate::store::SqliteStore;
use crate::text::{append_decimal, decimal, starts_with};
use crate::value::{flag, values, Val, Value};
use vstd::prelude::*;

verus! {

broadcast use {
    crate::model::lemma_takes_all,
    vstd::string::group_string_axioms,
    vstd::seq::group_seq_axioms,
};

/// How many identifying values one statement or query lists at most.
pub const ID_PARAM_CHUNK: usize = 900;

/// The tables that hold a blob for an address.
pub open spec fn is_record_table(t: Table) -> bool {
    t == Table::Identities || t == Table::Sessions || t == Table::SenderKeys
}

/// The column that holds the blob.
pub open spec fn record_column(t: Table) -> Column {
    if t == Table::Identities {
        Column::Key
    } else {
        Column::Record
    }
}

/// The row of a blob for an address.
pub open spec fn record(address: Seq<char>, bytes: Seq<u8>, device_id: int) -> Seq<Val> {
    seq![Val::Text(address), Val::Blob(bytes), Val::Int(device_id)]
}

/// The rows of blobs for addresses.
pub open spec fn records(items: Seq<(String, Vec<u8>)>, device_id: int) -> Seq<Seq<Val>> {
    items.map_values(|it: (String, Vec<u8>)| record(it.0@, it.1@, device_id))
}

/// The rows of identity keys for addresses.
pub open spec fn identity_records(items: Seq<(String, [u8; 32])>, device_id: int) -> Seq<Seq<Val>> {
    items.map_values(|it: (String, [u8; 32])| record(it.0@, it.1@, device_id))
}

/// The addresses as values.
pub open spec fn text_values(list: Seq<String>) -> Seq<Val> {
    list.map_values(|s: String| Val::Text(s@))
}

/// A number as its bits are stored.
pub open spec fn stored_id(id: u32) -> Val {
    Val::Int((id as i32) as int)
}

/// Numbers as their bits are stored.
pub open spec fn stored_ids(ids: Seq<u32>) -> Seq<Val> {
    ids.map_values(|id: u32| stored_id(id))
}

fn record_row(address: &str, bytes: &[u8], device_id: i32) -> (row: Vec<Value>)
    ensures
        values(row@) == record(address@, bytes@, device_id as int),
        row@.len() == 3,
{
    let row: Vec<Value> = vec![
        Value::text(address),
        Value::blob(bytes),
        Value::Int(device_id as i64),
    ];
    assert(values(row@) =~= record(address@, bytes@, device_id as int));
    row
}

fn record_rows(t: Table, items: &[(String, Vec<u8>)], device_id: i32) -> (rows: Vec<Vec<Value>>)
    requires
        is_record_table(t),
    ensures
        widths_fit(t, rows@),
        rows@.len() == items@.len(),
        forall|now: int| #[trigger]
            completed_rows(t, rows@, now) == records(items@, device_id as int),
{
    let mut rows: Vec<Vec<Value>> = Vec::new();
    let mut i: usize = 0;
    while i < items.len()
        invariant
            i <= items.len(),
            is_record_table(t),
            rows@.len() == i,
            forall|j: int|
                0 <= j < i ==> (#[trigger] rows@[j])@.len() == 3 && values(rows@[j]@) == record(
                    items@[j].0@,
                    items@[j].1@,
                    device_id as int,
                ),
        decreases items.len() - i,
    {
        rows.push(record_row(&items[i].0, &items[i].1, device_id));
        i = i + 1;
    }
    assert forall|now: int| #[trigger] completed_rows(t, rows@, now) == records(
        items@,
        device_id as int,
    ) by {
        assert(completed_rows(t, rows@, now) =~= records(items@, device_id as int));
    }
    rows
}

/// Stores a blob for an address.
fn put_record(t: Table, lane: Lane, address: &str, bytes: &[u8], device_id: i32) -> (plan:
    WritePlan)
    requires
        is_record_table(t),
    ensures
        plan.lane == lane,
        plan.guard == Guard::Bare,
        plan.statements@.len() == 1,
        plan.sound(),
        plan.always_taken(),
        plan.leaves(|db: Db, now: int| db.put(t, record(address@, bytes@, device_id as int))),
{
    write_row(lane, Merge::Overwrite, t, record_row(address, bytes, device_id))
}

/// Deletes the blob of an address.
fn delete_record(t: Table, address: &str, device_id: i32) -> (plan: WritePlan)
    requires
        is_record_table(t),
    ensures
        plan.once(),
        plan.sound(),
        plan.always_taken(),
        plan.leaves(|db: Db, now: int| db.remove(key1(t, device_id as int, Val::Text(address@)))),
{
    delete_row(Lane::Once, t, pin1(t, Column::Address, Value::text(address), device_id))
}

/// Reads the blob of an address.
fn get_record(t: Table, address: &str, device_id: i32) -> (plan: ReadPlan)
    requires
        is_record_table(t),
    ensures
        plan.source is Reader,
        plan.reads(key1(t, device_id as int, Val::Text(address@)), seq![record_column(t)]),
{
    let filter = pin1(t, Column::Address, Value::text(address), device_id);
    let cs = match t {
        Table::Identities => one(Column::Key),
        _ => one(Column::Record),
    };
    let q = row_query(t, cs, filter);
    ReadPlan { source: Source::Reader, queries: vec![q] }
}

/// Addresses as values to bind.
pub fn address_values(items: &[String]) -> (list: Vec<Value>)
    ensures
        values(list@) == text_values(items@),
        no_nulls(values(list@)),
        list@.len() == items@.len(),
{
    let mut list: Vec<Value> = Vec::new();
    let mut i: usize = 0;
    while i < items.len()
        invariant
            i <= items.len(),
            list@.len() == i,
            forall|j: int| 0 <= j < i ==> (#[trigger] list@[j])@ == Val::Text(items@[j]@),
        decreases items.len() - i,
    {
        list.push(Value::text(&items[i]));
        i = i + 1;
    }
    assert(values(list@) =~= text_values(items@));
    list
}

/// Numbers as values to bind.
pub fn id_values(ids: &[u32]) -> (list: Vec<Value>)
    ensures
        values(list@) == stored_ids(ids@),
        no_nulls(values(list@)),
        list@.len() == ids@.len(),
{
    let mut list: Vec<Value> = Vec::new();
    let mut i: usize = 0;
    while i < ids.len()
        invariant
            i <= ids.len(),
            list@.len() == i,
            forall|j: int| 0 <= j < i ==> (#[trigger] list@[j])@ == stored_id(ids@[j]),
        decreases ids.len() - i,
    {
        list.push(Value::Int((ids[i] as i32) as i64));
        i = i + 1;
    }
    assert(values(list@) =~= stored_ids(ids@));
    list
}

// ---------------------------------------------------------------------------------------
// Identities, sessions and sender keys

impl SqliteStore {
    /// Stores the identity key of an address.
    pub fn put_identity_for_device(&self, address: &str, key: [u8; 32], device_id: i32) -> (plan:
        WritePlan)
        ensures
            plan.retried_as("identity_write"@, Guard::Bare),
            plan.sound(),
            plan.always_taken(),
            plan.leaves(
                |db: Db, now: int|
                    db.put(Table::Identities, record(address@, key@, device_id as int)),
            ),
    {
        put_record(
            Table::Identities,
            Lane::Retried("identity_write"),
            address,
            key.as_slice(),
            device_id,
        )
    }

    /// Deletes the identity key of an address.
    pub fn delete_identity_for_device(&self, address: &str, device_id: i32) -> (plan: WritePlan)
        ensures
            plan.once(),
            plan.sound(),
            plan.always_taken(),
            plan.leaves(
                |db: Db, now: int|
                    db.remove(key1(Table::Identities, device_id as int, Val::Text(address@))),
            ),
    {
        delete_record(Table::Identities, address, device_id)
    }

    /// Reads the identity key of an address, whatever its length.
    pub fn load_identity_for_device(&self, address: &str, device_id: i32) -> (plan: ReadPlan)
        ensures
            plan.source is Reader,
            plan.reads(
                key1(Table::Identities, device_id as int, Val::Text(address@)),
                seq![Column::Key],
            ),
    {
        get_record(Table::Identities, address, device_id)
    }

    /// Stores identity keys, the later of two for one address.
    pub fn put_identities_batch(&self, identities: &[(String, [u8; 32])]) -> (plan: WritePlan)
        ensures
            plan.retried_as("put_identities_batch"@, Guard::Deferred),
            plan.sound(),
            plan.always_taken(),
            identities@.len() == 0 <==> plan.statements@.len() == 0,
            plan.leaves(
                |db: Db, now: int|
                    db.put_all(
                        Table::Identities,
                        identity_records(identities@, self.device_id as int),
                    ),
            ),
    {
        let mut rows: Vec<Vec<Value>> = Vec::new();
        let mut i: usize = 0;
        while i < identities.len()
            invariant
                i <= identities.len(),
                rows@.len() == i,
                forall|j: int|
                    0 <= j < i ==> (#[trigger] rows@[j])@.len() == 3 && values(rows@[j]@) == record(
                        identities@[j].0@,
                        identities@[j].1@,
                        self.device_id as int,
                    ),
            decreases identities.len() - i,
        {
            rows.push(record_row(&identities[i].0, identities[i].1.as_slice(), self.device_id));
            i = i + 1;
        }
        proof {
            assert forall|now: int| #[trigger] completed_rows(Table::Identities, rows@, now)
                == identity_records(identities@, self.device_id as int) by {
                assert(completed_rows(Table::Identities, rows@, now) =~= identity_records(
                    identities@,
                    self.device_id as int,
                ));
            }
        }
        write_rows(
            "put_identities_batch",
            Guard::Deferred,
            Merge::Overwrite,
            Table::Identities,
            rows,
            1,
        )
    }

    /// Deletes the identity keys of addresses.
    pub fn delete_identities_batch(&self, items: &[String]) -> (plan: WritePlan)
        ensures
            plan.retried_as("delete_identities_batch"@, Guard::Deferred),
            plan.sound(),
            plan.always_taken(),
            items@.len() == 0 <==> plan.statements@.len() == 0,
            plan.leaves(
                |db: Db, now: int|
                    without_keys(
                        db,
                        Table::Identities,
                        self.device_id as int,
                        text_values(items@),
                    ),
            ),
    {
        delete_keys(
            "delete_identities_batch",
            Table::Identities,
            Column::Address,
            address_values(items),
            self.device_id,
            ID_PARAM_CHUNK,
        )
    }

    /// Reads the session with an address.
    pub fn get_session_for_device(&self, address: &str, device_id: i32) -> (plan: ReadPlan)
        ensures
            plan.source is Reader,
            plan.reads(
                key1(Table::Sessions, device_id as int, Val::Text(address@)),
                seq![Column::Record],
            ),
    {
        get_record(Table::Sessions, address, device_id)
    }

    /// Stores the session with an address.
    pub fn put_session_for_device(&self, address: &str, session: &[u8], device_id: i32) -> (plan:
        WritePlan)
        ensures
            plan.retried_as("session_write"@, Guard::Bare),
            plan.sound(),
            plan.always_taken(),
            plan.leaves(
                |db: Db, now: int|
                    db.put(Table::Sessions, record(address@, session@, device_id as int)),
            ),
    {
        put_record(Table::Sessions, Lane::Retried("session_write"), address, session, device_id)
    }

    /// Deletes the session with an address.
    pub fn delete_session_for_device(&self, address: &str, device_id: i32) -> (plan: WritePlan)
        ensures
            plan.once(),
            plan.sound(),
            plan.always_taken(),
            plan.leaves(
                |db: Db, now: int|
                    db.remove(key1(Table::Sessions, device_id as int, Val::Text(address@))),
            ),
    {
        delete_record(Table::Sessions, address, device_id)
    }

    /// Reads the sessions with addresses.
    pub fn get_sessions_batch(&self, addresses: &[String]) -> (plan: ReadPlan)
        ensures
            plan.source is Reader,
            asks_for_listed(
                plan.queries@,
                Table::Sessions,
                seq![Column::Address, Column::Record],
                None,
                Column::Address,
                text_values(addresses@),
                ID_PARAM_CHUNK as nat,
                self.device_id as int,
            ),
    {
        let queries = query_in_chunks(
            Table::Sessions,
            None,
            vec![Column::Address, Column::Record],
            Column::Address,
            address_values(addresses),
            self.device_id,
            ID_PARAM_CHUNK,
        );
        ReadPlan { source: Source::Reader, queries }
    }

    /// Stores sessions, the later of two with one address.
    pub fn put_sessions_batch(&self, sessions: &[(String, Vec<u8>)]) -> (plan: WritePlan)
        ensures
            plan.retried_as("put_sessions_batch"@, Guard::Deferred),
            plan.sound(),
            plan.always_taken(),
            sessions@.len() == 0 <==> plan.statements@.len() == 0,
            plan.leaves(
                |db: Db, now: int|
                    db.put_all(Table::Sessions, records(sessions@, self.device_id as int)),
            ),
    {
        write_rows(
            "put_sessions_batch",
            Guard::Deferred,
            Merge::Overwrite,
            Table::Sessions,
            record_rows(Table::Sessions, sessions, self.device_id),
            1,
        )
    }

    /// Deletes the sessions with addresses.
    pub fn delete_sessions_batch(&self, items: &[String]) -> (plan: WritePlan)
        ensures
            plan.retried_as("delete_sessions_batch"@, Guard::Deferred),
            plan.sound(),
            plan.always_taken(),
            items@.len() == 0 <==> plan.statements@.len() == 0,
            plan.leaves(
                |db: Db, now: int|
                    without_keys(db, Table::Sessions, self.device_id as int, text_values(items@)),
            ),
    {
        delete_keys(
            "delete_sessions_batch",
            Table::Sessions,
            Column::Address,
            address_values(items),
            self.device_id,
            ID_PARAM_CHUNK,
        )
    }

    /// Stores the sender key of an address.
    pub fn put_sender_key_for_device(&self, address: &str, record_bytes: &[u8], device_id: i32)
        -> (plan: WritePlan)
        ensures
            plan.once(),
            plan.sound(),
            plan.always_taken(),
            plan.leaves(
                |db: Db, now: int|
                    db.put(Table::SenderKeys, record(address@, record_bytes@, device_id as int)),
            ),
    {
        put_record(Table::SenderKeys, Lane::Once, address, record_bytes, device_id)
    }

    /// Reads the sender key of an address.
    pub fn get_sender_key_for_device(&self, address: &str, device_id: i32) -> (plan: ReadPlan)
        ensures
            plan.source is Reader,
            plan.reads(
                key1(Table::SenderKeys, device_id as int, Val::Text(address@)),
                seq![Column::Record],
            ),
    {
        get_record(Table::SenderKeys, address, device_id)
    }

    /// Deletes the sender key of an address.
    pub fn delete_sender_key_for_device(&self, address: &str, device_id: i32) -> (plan: WritePlan)
        ensures
            plan.once(),
            plan.sound(),
            plan.always_taken(),
            plan.leaves(
                |db: Db, now: int|
                    db.remove(key1(Table::SenderKeys, device_id as int, Val::Text(address@))),
            ),
    {
        delete_record(Table::SenderKeys, address, device_id)
    }

    /// Stores sender keys, the later of two for one address.
    pub fn put_sender_keys_batch(&self, sender_keys: &[(String, Vec<u8>)]) -> (plan: WritePlan)
        ensures
            plan.retried_as("put_sender_keys_batch"@, Guard::Deferred),
            plan.sound(),
            plan.always_taken(),
            sender_keys@.len() == 0 <==> plan.statements@.len() == 0,
            plan.leaves(
                |db: Db, now: int|
                    db.put_all(Table::SenderKeys, records(sender_keys@, self.device_id as int)),
            ),
    {
        write_rows(
            "put_sender_keys_batch",
            Guard::Deferred,
            Merge::Overwrite,
            Table::SenderKeys,
            record_rows(Table::SenderKeys, sender_keys, self.device_id),
            1,
        )
    }

    /// Deletes the sender keys of addresses.
    pub fn delete_sender_keys_batch(&self, items: &[String]) -> (plan: WritePlan)
        ensures
            plan.retried_as("delete_sender_keys_batch"@, Guard::Deferred),
            plan.sound(),
            plan.always_taken(),
            items@.len() == 0 <==> plan.statements@.len() == 0,
            plan.leaves(
                |db: Db, now: int|
                    without_keys(db, Table::SenderKeys, self.device_id as int, text_values(items@)),
            ),
    {
        delete_keys(
            "delete_sender_keys_batch",
            Table::SenderKeys,
            Column::Address,
            address_values(items),
            self.device_id,
            ID_PARAM_CHUNK,
        )
    }
}

// ---------------------------------------------------------------------------------------
// Whether there is state at all

/// The patterns for the addresses of a user: its first device, and its others.
pub open spec fn user_patterns(user: Seq<char>) -> (Seq<char>, Seq<char>) {
    (user + "@%"@, user + ":%"@)
}

/// The row of an account is for an address of the user.
pub open spec fn for_user(t: Table, row: Seq<Val>, user: Seq<char>, device_id: int) -> bool {
    &&& row[pos(t, Column::DeviceId)] == Val::Int(device_id)
    &&& like(user_patterns(user).0, row[pos(t, Column::Address)]) || like(
        user_patterns(user).1,
        row[pos(t, Column::Address)],
    )
}

/// The query asks whether there is a row for which `p` holds.
pub open spec fn asks_exists(q: Query, t: Table, p: spec_fn(Seq<Val>) -> bool) -> bool {
    &&& query_sound(q)
    &&& q.table == t
    &&& q.want is Exists
    &&& forall|row: Seq<Val>| #[trigger] holds(q.filter, t, row) == p(row)
}

/// A question whether an account has state for a user in a table.
fn user_query(t: Table, user: &str, device_id: i32) -> (q: Query)
    requires
        is_record_table(t),
    ensures
        asks_exists(q, t, |row: Seq<Val>| for_user(t, row, user@, device_id as int)),
{
    let mut first: String = user.to_owned();
    first.append("@%");
    let mut others: String = user.to_owned();
    others.append(":%");
    let a = Cond::Like(Column::Address, first);
    let b = Cond::Like(Column::Address, others);
    let filter = both(owned_by(device_id), either(a, b));
    assert forall|row: Seq<Val>| #[trigger] holds(filter, t, row) == for_user(
        t,
        row,
        user@,
        device_id as int,
    ) by {
        assert(holds(a, t, row) == like(first@, row[pos(t, Column::Address)]));
        assert(holds(b, t, row) == like(others@, row[pos(t, Column::Address)]));
    }
    Query { table: t, want: Want::Exists, filter, order: Order::Unordered, first: false }
}

/// Whether a question for existence was answered with yes.
pub fn exists_in(rows: &Rows) -> (r: Result<bool, StoreError>)
    ensures
        if rows_view(*rows).len() > 0 && int_at(rows_view(*rows)[0], 0) is Some {
            r matches Ok(b) && b == is_true(int_at(rows_view(*rows)[0], 0)->0)
        } else {
            r matches Err(e) && is_mismatch(e)
        },
{
    match first_int(rows) {
        Ok(n) => Ok((n as i32) != 0),
        Err(e) => Err(e),
    }
}

/// What the answer to a question for existence says.
pub open spec fn answered(rows: Seq<Seq<Val>>) -> Option<bool> {
    if rows.len() > 0 && int_at(rows[0], 0) is Some {
        Some(is_true(int_at(rows[0], 0)->0))
    } else {
        None
    }
}

/// Whether the identity keys are to be asked for: only where there is no session.
pub fn asks_for_identities(sessions: &Rows) -> (r: Result<bool, StoreError>)
    ensures
        match answered(rows_view(*sessions)) {
            None => r matches Err(e) && is_mismatch(e),
            Some(found) => r == Ok::<bool, StoreError>(!found),
        },
{
    match exists_in(sessions) {
        Ok(found) => Ok(!found),
        Err(e) => Err(e),
    }
}

/// Whether there is state for a user, given the answers for its sessions and for its identity
/// keys. The second counts only where the first is no.
pub fn user_state_answer(sessions: &Rows, identities: &Rows) -> (r: Result<bool, StoreError>)
    ensures
        match answered(rows_view(*sessions)) {
            None => r matches Err(e) && is_mismatch(e),
            Some(true) => r == Ok::<bool, StoreError>(true),
            Some(false) => match answered(rows_view(*identities)) {
                None => r matches Err(e) && is_mismatch(e),
                Some(b) => r == Ok::<bool, StoreError>(b),
            },
        },
{
    match exists_in(sessions) {
        Err(e) => Err(e),
        Ok(true) => Ok(true),
        Ok(false) => exists_in(identities),
    }
}

impl SqliteStore {
    /// Asks whether there is a session with an address.
    pub fn has_session(&self, address: &str) -> (plan: ReadPlan)
        ensures
            plan.source is Reader,
            plan.queries@.len() == 1,
            query_sound(plan.queries@[0]),
            forall|db: Db, out: Seq<Seq<Val>>|
                db.wf() && #[trigger] answers(plan.queries@[0], db, out) ==> out == seq![
                    seq![
                        flag(
                            db.rows.contains_key(
                                key1(
                                    Table::Sessions,
                                    self.device_id as int,
                                    Val::Text(address@),
                                ),
                            ),
                        ),
                    ],
                ],
    {
        let filter = pin1(Table::Sessions, Column::Address, Value::text(address), self.device_id);
        let q = Query {
            table: Table::Sessions,
            want: Want::Exists,
            filter,
            order: Order::Unordered,
            first: false,
        };
        proof {
            let key = key1(Table::Sessions, self.device_id as int, Val::Text(address@));
            assert forall|db: Db, out: Seq<Seq<Val>>|
                db.wf() && #[trigger] answers(q, db, out) implies out == seq![
                seq![flag(db.rows.contains_key(key))],
            ] by {
                assert forall|k: Key| #[trigger] selected(q, db, k) implies k == key by {
                    assert(key_of(k.table, db.rows[k]) == k);
                }
                if db.rows.contains_key(key) {
                    assert(key_of(key.table, db.rows[key]) == key);
                    assert(selected(q, db, key));
                }
            }
        }
        ReadPlan { source: Source::Reader, queries: vec![q] }
    }

    /// Asks whether there is a session or an identity key for any device of a user. The answer
    /// decides whether state is migrated, so it waits behind the writes before it.
    pub fn has_signal_state_for_user(&self, user: &str) -> (plan: ReadPlan)
        ensures
            plan.source is Queue,
            plan.queries@.len() == 2,
            asks_exists(
                plan.queries@[0],
                Table::Sessions,
                |row: Seq<Val>| for_user(Table::Sessions, row, user@, self.device_id as int),
            ),
            asks_exists(
                plan.queries@[1],
                Table::Identities,
                |row: Seq<Val>| for_user(Table::Identities, row, user@, self.device_id as int),
            ),
    {
        let sessions = user_query(Table::Sessions, user, self.device_id);
        let identities = user_query(Table::Identities, user, self.device_id);
        ReadPlan { source: Source::Queue, queries: vec![sessions, identities] }
    }
}

// ---------------------------------------------------------------------------------------
// Prekeys

/// The row of a prekey.
pub open spec fn prekey_row(id: u32, bytes: Seq<u8>, uploaded: bool, device_id: int) -> Seq<Val> {
    seq![stored_id(id), Val::Blob(bytes), flag(uploaded), Val::Int(device_id)]
}

/// The rows of prekeys.
pub open spec fn prekey_rows(
    keys: Seq<(u32, Vec<u8>)>,
    uploaded: bool,
    device_id: int,
) -> Seq<Seq<Val>> {
    keys.map_values(|k: (u32, Vec<u8>)| prekey_row(k.0, k.1@, uploaded, device_id))
}

/// The row of a signed prekey.
pub open spec fn signed_prekey_row(id: u32, bytes: Seq<u8>, device_id: int) -> Seq<Val> {
    seq![stored_id(id), Val::Blob(bytes), Val::Int(device_id)]
}

/// The database with an account's listed prekeys marked as uploaded. A prekey that is gone
/// stays gone.
pub open spec fn marked_uploaded(db: Db, device_id: int, ids: Seq<Val>) -> Db {
    Db {
        rows: Map::new(
            |k: Key| db.rows.contains_key(k),
            |k: Key|
                if k.table == Table::Prekeys && k.device == Val::Int(device_id) && ids.contains(
                    k.a,
                ) {
                    db.rows[k].update(2, flag(true))
                } else {
                    db.rows[k]
                },
        ),
        last_id: db.last_id,
    }
}

fn new_prekey_row(id: u32, bytes: &[u8], uploaded: bool, device_id: i32) -> (row: Vec<Value>)
    ensures
        values(row@) == prekey_row(id, bytes@, uploaded, device_id as int),
        row@.len() == 4,
{
    let row: Vec<Value> = vec![
        Value::Int((id as i32) as i64),
        Value::blob(bytes),
        Value::flag(uploaded),
        Value::Int(device_id as i64),
    ];
    assert(values(row@) =~= prekey_row(id, bytes@, uploaded, device_id as int));
    row
}

impl SqliteStore {
    /// Stores a prekey.
    pub fn store_prekey(&self, id: u32, record_bytes: &[u8], uploaded: bool) -> (plan: WritePlan)
        ensures
            plan.retried_as("store_prekey"@, Guard::Bare),
            plan.sound(),
            plan.always_taken(),
            plan.leaves(
                |db: Db, now: int|
                    db.put(
                        Table::Prekeys,
                        prekey_row(id, record_bytes@, uploaded, self.device_id as int),
                    ),
            ),
    {
        write_row(
            Lane::Retried("store_prekey"),
            Merge::Overwrite,
            Table::Prekeys,
            new_prekey_row(id, record_bytes, uploaded, self.device_id),
        )
    }

    /// Stores prekeys, the later of two with one id.
    pub fn store_prekeys_batch(&self, keys: &[(u32, Vec<u8>)], uploaded: bool) -> (plan: WritePlan)
        ensures
            plan.retried_as("store_prekeys_batch"@, Guard::Deferred),
            plan.sound(),
            plan.always_taken(),
            keys@.len() == 0 <==> plan.statements@.len() == 0,
            plan.leaves(
                |db: Db, now: int|
                    db.put_all(
                        Table::Prekeys,
                        prekey_rows(keys@, uploaded, self.device_id as int),
                    ),
            ),
    {
        let mut rows: Vec<Vec<Value>> = Vec::new();
        let mut i: usize = 0;
        while i < keys.len()
            invariant
                i <= keys.len(),
                rows@.len() == i,
                forall|j: int|
                    0 <= j < i ==> (#[trigger] rows@[j])@.len() == 4 && values(rows@[j]@)
                        == prekey_row(keys@[j].0, keys@[j].1@, uploaded, self.device_id as int),
            decreases keys.len() - i,
        {
            rows.push(new_prekey_row(keys[i].0, &keys[i].1, uploaded, self.device_id));
            i = i + 1;
        }
        proof {
            assert forall|now: int| #[trigger] completed_rows(Table::Prekeys, rows@, now)
                == prekey_rows(keys@, uploaded, self.device_id as int) by {
                assert(completed_rows(Table::Prekeys, rows@, now) =~= prekey_rows(
                    keys@,
                    uploaded,
                    self.device_id as int,
                ));
            }
        }
        write_rows(
            "store_prekeys_batch",
            Guard::Deferred,
            Merge::Overwrite,
            Table::Prekeys,
            rows,
            1,
        )
    }

    /// Reads a prekey.
    pub fn load_prekey(&self, id: u32) -> (plan: ReadPlan)
        ensures
            plan.source is Reader,
            plan.reads(
                key1(Table::Prekeys, self.device_id as int, stored_id(id)),
                seq![Column::Key],
            ),
    {
        let filter = pin1(
            Table::Prekeys,
            Column::Id,
            Value::Int((id as i32) as i64),
            self.device_id,
        );
        let q = row_query(Table::Prekeys, one(Column::Key), filter);
        ReadPlan { source: Source::Reader, queries: vec![q] }
    }

    /// Reads prekeys.
    pub fn load_prekeys_batch(&self, ids: &[u32]) -> (plan: ReadPlan)
        ensures
            plan.source is Reader,
            asks_for_listed(
                plan.queries@,
                Table::Prekeys,
                seq![Column::Id, Column::Key],
                None,
                Column::Id,
                stored_ids(ids@),
                ID_PARAM_CHUNK as nat,
                self.device_id as int,
            ),
    {
        let queries = query_in_chunks(
            Table::Prekeys,
            None,
            vec![Column::Id, Column::Key],
            Column::Id,
            id_values(ids),
            self.device_id,
            ID_PARAM_CHUNK,
        );
        ReadPlan { source: Source::Reader, queries }
    }

    /// Deletes a prekey.
    pub fn remove_prekey(&self, id: u32) -> (plan: WritePlan)
        ensures
            plan.retried_as("remove_prekey"@, Guard::Bare),
            plan.sound(),
            plan.always_taken(),
            plan.leaves(
                |db: Db, now: int|
                    db.remove(key1(Table::Prekeys, self.device_id as int, stored_id(id))),
            ),
    {
        let filter = pin1(
            Table::Prekeys,
            Column::Id,
            Value::Int((id as i32) as i64),
            self.device_id,
        );
        delete_row(Lane::Retried("remove_prekey"), Table::Prekeys, filter)
    }

    /// Deletes prekeys.
    pub fn remove_prekeys_batch(&self, items: &[u32]) -> (plan: WritePlan)
        ensures
            plan.retried_as("remove_prekeys_batch"@, Guard::Deferred),
            plan.sound(),
            plan.always_taken(),
            items@.len() == 0 <==> plan.statements@.len() == 0,
            plan.leaves(
                |db: Db, now: int|
                    without_keys(db, Table::Prekeys, self.device_id as int, stored_ids(items@)),
            ),
    {
        delete_keys(
            "remove_prekeys_batch",
            Table::Prekeys,
            Column::Id,
            id_values(items),
            self.device_id,
            ID_PARAM_CHUNK,
        )
    }

    /// Asks for the largest id of a prekey.
    pub fn get_max_prekey_id(&self) -> (plan: ReadPlan)
        ensures
            plan.source is Reader,
            plan.queries@.len() == 1,
            query_sound(plan.queries@[0]),
            plan.queries@[0].table == Table::Prekeys,
            plan.queries@[0].want == Want::Largest(Column::Id),
            forall|row: Seq<Val>| #[trigger]
                holds(plan.queries@[0].filter, Table::Prekeys, row) == (row[pos(
                    Table::Prekeys,
                    Column::DeviceId,
                )] == Val::Int(self.device_id as int)),
    {
        let q = Query {
            table: Table::Prekeys,
            want: Want::Largest(Column::Id),
            filter: owned_by(self.device_id),
            order: Order::Unordered,
            first: false,
        };
        ReadPlan { source: Source::Reader, queries: vec![q] }
    }

    /// Stores a signed prekey.
    pub fn store_signed_prekey(&self, id: u32, record_bytes: &[u8]) -> (plan: WritePlan)
        ensures
            plan.retried_as("store_signed_prekey"@, Guard::Bare),
            plan.sound(),
            plan.always_taken(),
            plan.leaves(
                |db: Db, now: int|
                    db.put(
                        Table::SignedPrekeys,
                        signed_prekey_row(id, record_bytes@, self.device_id as int),
                    ),
            ),
    {
        let row: Vec<Value> = vec![
            Value::Int((id as i32) as i64),
            Value::blob(record_bytes),
            Value::Int(self.device_id as i64),
        ];
        assert(values(row@) =~= signed_prekey_row(id, record_bytes@, self.device_id as int));
        write_row(
            Lane::Retried("store_signed_prekey"),
            Merge::Overwrite,
            Table::SignedPrekeys,
            row,
        )
    }

    /// Reads a signed prekey.
    pub fn load_signed_prekey(&self, id: u32) -> (plan: ReadPlan)
        ensures
            plan.source is Reader,
            plan.reads(
                key1(Table::SignedPrekeys, self.device_id as int, stored_id(id)),
                seq![Column::Record],
            ),
    {
        let filter = pin1(
            Table::SignedPrekeys,
            Column::Id,
            Value::Int((id as i32) as i64),
            self.device_id,
        );
        let q = row_query(Table::SignedPrekeys, one(Column::Record), filter);
        ReadPlan { source: Source::Reader, queries: vec![q] }
    }

    /// Reads all signed prekeys.
    pub fn load_all_signed_prekeys(&self) -> (plan: ReadPlan)
        ensures
            plan.source is Reader,
            plan.queries@.len() == 1,
            crate::effects::asks(
                plan.queries@[0],
                Table::SignedPrekeys,
                seq![Column::Id, Column::Record],
                |row: Seq<Val>|
                    row[pos(Table::SignedPrekeys, Column::DeviceId)] == Val::Int(
                        self.device_id as int,
                    ),
                Order::Unordered,
                false,
            ),
    {
        let q = Query {
            table: Table::SignedPrekeys,
            want: Want::Columns(vec![Column::Id, Column::Record]),
            filter: owned_by(self.device_id),
            order: Order::Unordered,
            first: false,
        };
        ReadPlan { source: Source::Reader, queries: vec![q] }
    }

    /// Deletes a signed prekey.
    pub fn remove_signed_prekey(&self, id: u32) -> (plan: WritePlan)
        ensures
            plan.retried_as("remove_signed_prekey"@, Guard::Bare),
            plan.sound(),
            plan.always_taken(),
            plan.leaves(
                |db: Db, now: int|
                    db.remove(key1(Table::SignedPrekeys, self.device_id as int, stored_id(id))),
            ),
    {
        let filter = pin1(
            Table::SignedPrekeys,
            Column::Id,
            Value::Int((id as i32) as i64),
            self.device_id,
        );
        delete_row(Lane::Retried("remove_signed_prekey"), Table::SignedPrekeys, filter)
    }
}

/// The assignment that marks a prekey as uploaded.
fn mark_set() -> (set: Vec<Assignment>)
    ensures
        set_wf(set@, Table::Prekeys),
        set_values(set@) == seq![flag(true)],
        forall|row: Seq<Val>| #[trigger]
            assigned(Table::Prekeys, set@, row, row) == row.update(2, flag(true)),
{
    let set: Vec<Assignment> = vec![
        Assignment { column: Column::Uploaded, value: Expr::Bound(Value::flag(true)) },
    ];
    proof {
        reveal_with_fuel(assigned, 3);
        reveal_with_fuel(set_values, 3);
        assert(set@.drop_last() =~= seq![]);
        assert(set_values(set@) =~= seq![flag(true)]);
        assert(!key_columns(Table::Prekeys).contains(Column::Uploaded));
    }
    set
}

impl SqliteStore {
    /// Marks prekeys as uploaded.
    pub fn mark_prekeys_uploaded(&self, ids: &[u32]) -> (plan: WritePlan)
        ensures
            plan.retried_as("mark_prekeys_uploaded"@, Guard::Deferred),
            plan.sound(),
            plan.always_taken(),
            ids@.len() == 0 <==> plan.statements@.len() == 0,
            plan.leaves(
                |db: Db, now: int|
                    marked_uploaded(db, self.device_id as int, stored_ids(ids@)),
            ),
    {
        let ghost d = self.device_id as int;
        let ghost all = stored_ids(ids@);
        let mut rest = id_values(ids);
        let ghost whole = rest@;
        let mut statements: Vec<Statement> = Vec::new();
        let ghost mut done: int = 0;
        assert(rest@ =~= whole.skip(0));
        proof {
            assert forall|db: Db, now: int| db.wf() implies #[trigger] apply_all(
                statements@,
                db,
                now,
            ) == marked_uploaded(db, d, all.take(0)) by {
                assert(db =~= marked_uploaded(db, d, all.take(0)));
            }
        }
        while rest.len() > 0
            invariant
                d == self.device_id,
                all == values(whole),
                no_nulls(all),
                0 <= done <= whole.len(),
                rest@ == whole.skip(done),
                forall|i: int|
                    0 <= i < statements@.len() ==> sound(#[trigger] statements@[i]),
                always_taken(statements@),
                done > 0 <==> statements@.len() > 0,
                forall|db: Db, now: int|
                    db.wf() ==> #[trigger] apply_all(statements@, db, now) == marked_uploaded(
                        db,
                        d,
                        all.take(done),
                    ),
            decreases rest.len(),
        {
            let mut chunk = rest;
            if chunk.len() > ID_PARAM_CHUNK {
                rest = chunk.split_off(ID_PARAM_CHUNK);
            } else {
                rest = Vec::new();
            }
            let ghost n = chunk@.len() as int;
            assert(chunk@ =~= whole.subrange(done, done + n));
            assert(rest@ =~= whole.skip(done + n));
            let ghost part = values(chunk@);
            let filter = listed_test(Table::Prekeys, None, Column::Id, chunk, self.device_id);
            let set = mark_set();
            let s = Statement::Update { table: Table::Prekeys, set, filter };
            let ghost before = statements@;
            statements.push(s);
            proof {
                let first = all.take(done);
                let joined = all.take(done + n);
                assert(joined =~= first + part);
                assert forall|db: Db, now: int| db.wf() implies #[trigger] apply_all(
                    statements@,
                    db,
                    now,
                ) == marked_uploaded(db, d, joined) by {
                    lemma_apply_push(before, s, db, now);
                    let mid = apply_all(before, db, now);
                    let after = apply(s, mid, now);
                    let goal = marked_uploaded(db, d, joined);
                    assert(after.rows.dom() =~= goal.rows.dom());
                    assert forall|k: Key| #[trigger] after.rows.contains_key(k) implies after.rows[k]
                        == goal.rows[k] by {
                        assert(db.rows.contains_key(k));
                        assert(key_of(k.table, db.rows[k]) == k);
                        lemma_concat_contains(first, part, k.a);
                        if k.table == Table::Prekeys {
                            assert(mid.rows[k][0] == k.a);
                            assert(mid.rows[k][3] == k.device);
                            assert(mid.rows[k].update(2, flag(true)) =~= db.rows[k].update(
                                2,
                                flag(true),
                            ));
                            assert(part.contains(k.a) ==> !(k.a is Null)) by {
                                if part.contains(k.a) {
                                    let i = choose|i: int| 0 <= i < part.len() && part[i] == k.a;
                                    assert(all[done + i] == k.a);
                                }
                            }
                        }
                    }
                    assert(after.rows =~= goal.rows);
                }
                done = done + n;
            }
        }
        assert(all.take(done) =~= all);
        WritePlan {
            lane: Lane::Retried("mark_prekeys_uploaded"),
            guard: Guard::Deferred,
            statements,
        }
    }
}

// ---------------------------------------------------------------------------------------
// Answers

/// The message about a stored identity key of the wrong length.
pub open spec fn identity_message(address: Seq<char>, n: nat) -> Seq<char> {
    "identity key for '"@ + address + "' has invalid length "@ + decimal(n) + " (expected 32)"@
}

/// The identity key that came back for an address; none where there is no row.
pub fn identity_answer(address: &str, rows: &Rows) -> (r: Result<Option<[u8; 32]>, StoreError>)
    ensures
        rows_view(*rows).len() == 0 ==> (r matches Ok(v) && v is None),
        rows_view(*rows).len() > 0 ==> match blob_at(rows_view(*rows)[0], 0) {
            Some(b) => if b.len() == 32 {
                r matches Ok(Some(key)) && key@ == b
            } else {
                r matches Err(StoreError::Validation(m)) && m@ == identity_message(
                    address@,
                    b.len(),
                )
            },
            None => r matches Err(e) && is_mismatch(e),
        },
{
    match first_blob(rows) {
        Err(e) => Err(e),
        Ok(None) => Ok(None),
        Ok(Some(bytes)) => match array32(bytes.as_slice()) {
            Some(key) => Ok(Some(key)),
            None => {
                let mut message: String = "identity key for '".to_owned();
                message.append(address);
                message.append("' has invalid length ");
                append_decimal(&mut message, bytes.len() as u64);
                message.append(" (expected 32)");
                Err(StoreError::Validation(message))
            },
        },
    }
}

/// Addresses and blobs in a row.
pub open spec fn is_text_blob(row: Seq<Val>) -> bool {
    text_at(row, 0) is Some && blob_at(row, 1) is Some
}

/// The addresses and blobs that came back, in the order of the rows.
pub fn text_blob_answer(rows: &Rows) -> (r: Result<Vec<(String, Vec<u8>)>, StoreError>)
    ensures
        if forall|i: int|
            0 <= i < rows_view(*rows).len() ==> is_text_blob(#[trigger] rows_view(*rows)[i]) {
            &&& r matches Ok(list)
            &&& list@.len() == rows_view(*rows).len()
            &&& forall|i: int|
                0 <= i < list@.len() ==> text_at(rows_view(*rows)[i], 0) == Some(
                    (#[trigger] list@[i]).0@,
                ) && blob_at(rows_view(*rows)[i], 1) == Some(list@[i].1@)
        } else {
            r matches Err(e) && is_mismatch(e)
        },
{
    let mut list: Vec<(String, Vec<u8>)> = Vec::new();
    let mut i: usize = 0;
    while i < rows.len()
        invariant
            i <= rows.len(),
            list@.len() == i,
            forall|j: int| 0 <= j < i ==> is_text_blob(#[trigger] rows_view(*rows)[j]),
            forall|j: int|
                0 <= j < i ==> text_at(rows_view(*rows)[j], 0) == Some((#[trigger] list@[j]).0@)
                    && blob_at(rows_view(*rows)[j], 1) == Some(list@[j].1@),
        decreases rows.len() - i,
    {
        assert(rows_view(*rows)[i as int] == row_view(rows@[i as int]));
        let text = match read_text(&rows[i], 0) {
            Ok(v) => v,
            Err(e) => {
                assert(!is_text_blob(rows_view(*rows)[i as int]));
                return Err(e);
            },
        };
        let bytes = match read_blob(&rows[i], 1) {
            Ok(v) => v,
            Err(e) => {
                assert(!is_text_blob(rows_view(*rows)[i as int]));
                return Err(e);
            },
        };
        list.push((text, bytes));
        i = i + 1;
    }
    Ok(list)
}

/// A number and a blob in a row.
pub open spec fn is_id_blob(row: Seq<Val>) -> bool {
    int_at(row, 0) is Some && blob_at(row, 1) is Some
}

/// The ids and blobs that came back, in the order of the rows.
pub fn id_blob_answer(rows: &Rows) -> (r: Result<Vec<(u32, Vec<u8>)>, StoreError>)
    ensures
        if forall|i: int|
            0 <= i < rows_view(*rows).len() ==> is_id_blob(#[trigger] rows_view(*rows)[i]) {
            &&& r matches Ok(list)
            &&& list@.len() == rows_view(*rows).len()
            &&& forall|i: int|
                0 <= i < list@.len() ==> (#[trigger] list@[i]).0 == unsigned(
                    int_at(rows_view(*rows)[i], 0)->0,
                ) && blob_at(rows_view(*rows)[i], 1) == Some(list@[i].1@)
        } else {
            r matches Err(e) && is_mismatch(e)
        },
{
    let mut list: Vec<(u32, Vec<u8>)> = Vec::new();
    let mut i: usize = 0;
    while i < rows.len()
        invariant
            i <= rows.len(),
            list@.len() == i,
            forall|j: int| 0 <= j < i ==> is_id_blob(#[trigger] rows_view(*rows)[j]),
            forall|j: int|
                0 <= j < i ==> (#[trigger] list@[j]).0 == unsigned(
                    int_at(rows_view(*rows)[j], 0)->0,
                ) && blob_at(rows_view(*rows)[j], 1) == Some(list@[j].1@),
        decreases rows.len() - i,
    {
        assert(rows_view(*rows)[i as int] == row_view(rows@[i as int]));
        let id: i64 = match read_int(&rows[i], 0) {
            Ok(v) => v,
            Err(e) => {
                assert(!is_id_blob(rows_view(*rows)[i as int]));
                return Err(e);
            },
        };
        let bytes = match read_blob(&rows[i], 1) {
            Ok(v) => v,
            Err(e) => {
                assert(!is_id_blob(rows_view(*rows)[i as int]));
                return Err(e);
            },
        };
        list.push(((id as i32) as u32, bytes));
        i = i + 1;
    }
    Ok(list)
}

/// The largest id that came back; zero where there is none.
pub fn max_id_answer(rows: &Rows) -> (r: Result<u32, StoreError>)
    ensures
        if rows_view(*rows).len() == 0 {
            r matches Err(e) && is_mismatch(e)
        } else if null_at(rows_view(*rows)[0], 0) {
            r matches Ok(n) && n == 0
        } else {
            match int_at(rows_view(*rows)[0], 0) {
                Some(n) => r matches Ok(v) && v == unsigned(n),
                None => r matches Err(e) && is_mismatch(e),
            }
        },
{
    if rows.len() > 0 && is_null(&rows[0], 0) {
        return Ok(0);
    }
    match first_int(rows) {
        Ok(n) => Ok((n as i32) as u32),
        Err(e) => Err(e),
    }
}

// ---------------------------------------------------------------------------------------
// Laws

/// `%` alone matches everything.
proof fn lemma_anything(text: Seq<int>)
    ensures
        fits_points(seq!['%' as int], text),
    decreases text.len(),
{
    reveal_with_fuel(fits_points, 2);
    let pattern = seq!['%' as int];
    assert(pattern.drop_first() =~= seq![]);
    if text.len() > 0 {
        lemma_anything(text.drop_first());
    }
}

/// A character that a pattern takes literally: no wildcard, no ASCII letter, and none that is
/// read as the end of the text or as another.
pub open spec fn literal(c: char) -> bool {
    &&& c != '%' && c != '_' && c != '\0'
    &&& !('a' <= c <= 'z') && !('A' <= c <= 'Z')
    &&& !('\u{fffd}' <= c <= '\u{ffff}')
}

/// A pattern of literal characters and a closing `%` matches what begins with them.
proof fn lemma_prefix_pattern(prefix: Seq<char>, text: Seq<char>)
    requires
        forall|i: int| 0 <= i < prefix.len() ==> literal(#[trigger] prefix[i]),
    ensures
        like(prefix + seq!['%'], Val::Text(text)) <==> starts_with(text, prefix),
    decreases prefix.len(),
{
    let pattern = prefix + seq!['%'];
    let p = text_points(pattern);
    let s = text_points(text);
    if prefix.len() == 0 {
        assert(pattern =~= seq!['%']);
        assert(pattern.drop_first() =~= seq![]);
        assert(text_points(seq![]) =~= seq![]);
        assert(p =~= seq!['%' as int]);
        lemma_anything(s);
        assert(text.subrange(0, 0) =~= prefix);
    } else {
        assert(literal(prefix[0]));
        assert(pattern[0] == prefix[0]);
        let rest = prefix.drop_first();
        assert(pattern.drop_first() =~= rest + seq!['%']);
        assert(p.drop_first() =~= text_points(rest + seq!['%']));
        if text.len() == 0 || text[0] == '\0' {
            assert(s.len() == 0);
            if starts_with(text, prefix) {
                assert(text.subrange(0, prefix.len() as int)[0] == text[0]);
            }
        } else {
            let tail = text.drop_first();
            assert(s.drop_first() =~= text_points(tail));
            assert forall|i: int| 0 <= i < rest.len() implies literal(#[trigger] rest[i]) by {
                assert(literal(prefix[i + 1]));
            }
            lemma_prefix_pattern(rest, tail);
            vstd::utf8::char_is_scalar(prefix[0]);
            vstd::utf8::char_is_scalar(text[0]);
            let (x, y) = (prefix[0] as int, text[0] as int);
            assert(p[0] == x);
            assert(s[0] == y || (s[0] == 0xfffd && 0xfffe <= y <= 0xffff));
            assert(folded(x) == x);
            assert(folded(s[0]) == x ==> s[0] == x);
            assert(folded(p[0]) == folded(s[0]) <==> prefix[0] == text[0]);
            if starts_with(text, prefix) {
                assert(tail.subrange(0, rest.len() as int) =~= text.subrange(
                    0,
                    prefix.len() as int,
                ).drop_first());
                assert(text.subrange(0, prefix.len() as int)[0] == text[0]);
            }
            if starts_with(tail, rest) && prefix[0] == text[0] {
                assert(text.subrange(0, prefix.len() as int) =~= prefix) by {
                    assert forall|i: int| 0 <= i < prefix.len() implies #[trigger] text.subrange(
                        0,
                        prefix.len() as int,
                    )[i] == prefix[i] by {
                        if i > 0 {
                            assert(tail.subrange(0, rest.len() as int)[i - 1] == rest[i - 1]);
                        }
                    }
                }
            }
        }
    }
}

/// For a user written in digits, the addresses with state are those that begin with the user
/// and then the sign of a server or of a device: no other user's.
pub proof fn law_user_state_is_by_prefix(user: Seq<char>, address: Seq<char>)
    requires
        forall|i: int| 0 <= i < user.len() ==> literal(#[trigger] user[i]),
    ensures
        like(user_patterns(user).0, Val::Text(address)) <==> starts_with(
            address,
            user + seq!['@'],
        ),
        like(user_patterns(user).1, Val::Text(address)) <==> starts_with(
            address,
            user + seq![':'],
        ),
{
    reveal_strlit("@%");
    reveal_strlit(":%");
    lemma_prefix_pattern(user + seq!['@'], address);
    lemma_prefix_pattern(user + seq![':'], address);
    assert(user + seq!['@'] + seq!['%'] =~= user_patterns(user).0);
    assert(user + seq![':'] + seq!['%'] =~= user_patterns(user).1);
}

/// Marking prekeys as uploaded brings none back and removes none.
pub proof fn law_marking_keeps_the_set_of_prekeys(db: Db, device_id: int, ids: Seq<Val>)
    ensures
        marked_uploaded(db, device_id, ids).rows.dom() == db.rows.dom(),
{
    assert(marked_uploaded(db, device_id, ids).rows.dom() =~= db.rows.dom());
}

} // verus!
