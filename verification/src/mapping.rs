//! Which hidden identity belongs to which phone number, and the base keys of sessions.

use crate::effects::{
    asks, carries, completed_rows, delete_row, key1, key2, lemma_refused, lemma_sweeps,
    lemma_taken_with_account, one, pin1, pin2, row_query, write_row, write_rows,
};
use crate::error::StoreError;
use crate::merge::Merge;
use crate::model::{anchored, completed, device_key, holds, row_wf, takes, Db};
use crate::plan::{both, equals, owned_by, Guard, Lane, ReadPlan, Source, WritePlan};
use crate::rows::{
    blob_at, first_blob, int_at, is_mismatch, read_int, read_text, row_view, rows_view, text_at,
    Rows,
};
use crate::schema::{key_of, Column, Key, Table};
use crate::sql::{Cond, Order, Query, Statement, Want};
use crate::store::SqliteStore;
use crate::value::{values, Val, Value};
use vstd::prelude::*;

verus! {

broadcast use {vstd::string::group_string_axioms, vstd::seq::group_seq_axioms};

/// A hidden identity, the phone number behind it, and when and how that was learned.
#[derive(Debug)]
pub struct LidPnMappingEntry {
    pub lid: String,
    pub phone_number: String,
    pub created_at: i64,
    pub updated_at: i64,
    pub learning_source: String,
}

/// The row of a mapping.
pub open spec fn mapping_row(e: LidPnMappingEntry, device_id: int) -> Seq<Val> {
    seq![
        Val::Text(e.lid@),
        Val::Text(e.phone_number@),
        Val::Int(e.created_at as int),
        Val::Text(e.learning_source@),
        Val::Int(e.updated_at as int),
        Val::Int(device_id),
    ]
}

/// The rows of mappings.
pub open spec fn mapping_rows(entries: Seq<LidPnMappingEntry>, device_id: int) -> Seq<Seq<Val>> {
    entries.map_values(|e: LidPnMappingEntry| mapping_row(e, device_id))
}

/// The columns a mapping is read from, in order.
pub open spec fn mapping_columns() -> Seq<Column> {
    seq![
        Column::Lid,
        Column::PhoneNumber,
        Column::CreatedAt,
        Column::LearningSource,
        Column::UpdatedAt,
    ]
}

fn mapping_column_list() -> (cs: Vec<Column>)
    ensures
        cs@ == mapping_columns(),
{
    let cs: Vec<Column> = vec![
        Column::Lid,
        Column::PhoneNumber,
        Column::CreatedAt,
        Column::LearningSource,
        Column::UpdatedAt,
    ];
    assert(cs@ =~= mapping_columns());
    cs
}

fn new_mapping_row(e: &LidPnMappingEntry, device_id: i32) -> (row: Vec<Value>)
    ensures
        values(row@) == mapping_row(*e, device_id as int),
        row@.len() == 6,
{
    let row: Vec<Value> = vec![
        Value::text(&e.lid),
        Value::text(&e.phone_number),
        Value::Int(e.created_at),
        Value::text(&e.learning_source),
        Value::Int(e.updated_at),
        Value::Int(device_id as i64),
    ];
    assert(values(row@) =~= mapping_row(*e, device_id as int));
    row
}

/// The row of a base key.
pub open spec fn base_key_row(
    address: Seq<char>,
    message_id: Seq<char>,
    base_key: Seq<u8>,
    device_id: int,
    now: i64,
) -> Seq<Val> {
    seq![
        Val::Text(address),
        Val::Text(message_id),
        Val::Blob(base_key),
        Val::Int(device_id),
        Val::Int((now as i32) as int),
    ]
}

/// An insert of an account's mappings is taken where the account is stored.
proof fn lemma_mappings_need_account(plan: WritePlan, rows: Seq<Vec<Value>>, id: int)
    requires
        carries(plan.statements@, Table::LidPnMapping, rows),
        forall|j: int|
            0 <= j < rows.len() ==> (#[trigger] rows[j])@.len() == 6 && key_of(
                Table::LidPnMapping,
                values(rows[j]@),
            ).device == Val::Int(id),
    ensures
        plan.needs_account(id),
{
    assert forall|i: int, db: Db, now: int| 0 <= i < plan.statements@.len() implies (
    #[trigger] takes(plan.statements@[i], db, now) <==> db.rows.contains_key(device_key(id))) by {
        if let Statement::Upsert { table, rows: part, set } = plan.statements@[i] {
            assert(rows.contains(part@[0]));
            assert forall|j: int| 0 <= j < part@.len() implies (anchored(
                db,
                table,
                completed(table, values((#[trigger] part@[j])@), now),
            ) <==> db.rows.contains_key(device_key(id))) by {
                assert(rows.contains(part@[j]));
                let n = choose|n: int| 0 <= n < rows.len() && rows[n] == part@[j];
                assert(rows[n]@.len() == 6);
                assert(completed(table, values(part@[j]@), now) =~= values(part@[j]@));
            }
            let first = completed(table, values(part@[0]@), now);
            assert(anchored(db, table, first) <==> db.rows.contains_key(device_key(id)));
        }
    }
}

impl SqliteStore {
    /// Reads the mapping of a hidden identity. A missing one is final for its reader, so the
    /// read waits behind the writes before it.
    pub fn get_lid_mapping(&self, lid: &str) -> (plan: ReadPlan)
        ensures
            plan.source is Queue,
            plan.reads(
                key1(Table::LidPnMapping, self.device_id as int, Val::Text(lid@)),
                mapping_columns(),
            ),
    {
        let filter = pin1(Table::LidPnMapping, Column::Lid, Value::text(lid), self.device_id);
        let q = row_query(Table::LidPnMapping, mapping_column_list(), filter);
        ReadPlan { source: Source::Queue, queries: vec![q] }
    }

    /// Reads the mapping of a phone number that was updated last.
    pub fn get_pn_mapping(&self, phone: &str) -> (plan: ReadPlan)
        ensures
            plan.source is Queue,
            plan.queries@.len() == 1,
            asks(
                plan.queries@[0],
                Table::LidPnMapping,
                mapping_columns(),
                |row: Seq<Val>|
                    row[1] == Val::Text(phone@) && row[5] == Val::Int(self.device_id as int),
                Order::Descending(Column::UpdatedAt),
                true,
            ),
    {
        let filter = both(
            equals(Column::PhoneNumber, Value::text(phone)),
            owned_by(self.device_id),
        );
        let q = Query {
            table: Table::LidPnMapping,
            want: Want::Columns(mapping_column_list()),
            filter,
            order: Order::Descending(Column::UpdatedAt),
            first: true,
        };
        ReadPlan { source: Source::Queue, queries: vec![q] }
    }

    /// Stores a mapping. The account it belongs to must be stored.
    pub fn put_lid_mapping(&self, entry: &LidPnMappingEntry) -> (plan: WritePlan)
        ensures
            plan.retried_as("put_lid_mappings"@, Guard::Deferred),
            plan.sound(),
            plan.needs_account(self.device_id as int),
            plan.leaves(
                |db: Db, now: int|
                    if db.rows.contains_key(device_key(self.device_id as int)) {
                        db.merge(
                            Merge::Mapping,
                            Table::LidPnMapping,
                            mapping_row(*entry, self.device_id as int),
                        )
                    } else {
                        db
                    },
            ),
    {
        let row = new_mapping_row(entry, self.device_id);
        let ghost rows = seq![row];
        let mut plan = write_row(
            Lane::Retried("put_lid_mappings"),
            Merge::Mapping,
            Table::LidPnMapping,
            row,
        );
        let ghost before = plan;
        plan.guard = Guard::Deferred;
        assert forall|db: Db, now: int| #[trigger] plan.apply(db, now) == before.apply(db, now) by {}
        proof {
            lemma_mappings_need_account(plan, rows, self.device_id as int);
        }
        plan
    }

    /// Stores mappings, all or none of them. When a mapping was first learned stays. The account
    /// that they belong to must be stored.
    pub fn put_lid_mappings(&self, entries: &[LidPnMappingEntry]) -> (plan: WritePlan)
        ensures
            plan.retried_as("put_lid_mappings"@, Guard::Deferred),
            plan.sound(),
            plan.needs_account(self.device_id as int),
            entries@.len() == 0 <==> plan.statements@.len() == 0,
            plan.leaves(
                |db: Db, now: int|
                    if db.rows.contains_key(device_key(self.device_id as int)) {
                        db.merge_all(
                            Merge::Mapping,
                            Table::LidPnMapping,
                            mapping_rows(entries@, self.device_id as int),
                        )
                    } else {
                        db
                    },
            ),
    {
        let mut rows: Vec<Vec<Value>> = Vec::new();
        let mut i: usize = 0;
        while i < entries.len()
            invariant
                i <= entries.len(),
                rows@.len() == i,
                forall|j: int|
                    0 <= j < i ==> (#[trigger] rows@[j])@.len() == 6 && values(rows@[j]@)
                        == mapping_row(entries@[j], self.device_id as int),
            decreases entries.len() - i,
        {
            rows.push(new_mapping_row(&entries[i], self.device_id));
            i = i + 1;
        }
        proof {
            assert forall|now: int| #[trigger] completed_rows(Table::LidPnMapping, rows@, now)
                == mapping_rows(entries@, self.device_id as int) by {
                assert(completed_rows(Table::LidPnMapping, rows@, now) =~= mapping_rows(
                    entries@,
                    self.device_id as int,
                ));
            }
        }
        let ghost all = rows@;
        let plan = write_rows(
            "put_lid_mappings",
            Guard::Deferred,
            Merge::Mapping,
            Table::LidPnMapping,
            rows,
            1,
        );
        proof {
            let id = self.device_id as int;
            lemma_mappings_need_account(plan, all, id);
            assert forall|db: Db, now: int| db.wf() implies #[trigger] plan.apply(db, now) == (
            if db.rows.contains_key(device_key(id)) {
                db.merge_all(Merge::Mapping, Table::LidPnMapping, mapping_rows(entries@, id))
            } else {
                db
            }) by {
                let rows = completed_rows(Table::LidPnMapping, all, now);
                assert(rows == mapping_rows(entries@, id));
                if db.rows.contains_key(device_key(id)) {
                    lemma_taken_with_account(plan.statements@, db, id, now);
                    assert forall|j: int| 0 <= j < rows.len() implies anchored(
                        db,
                        Table::LidPnMapping,
                        #[trigger] rows[j],
                    ) by {
                        assert(rows[j] == mapping_row(entries@[j], id));
                    }
                } else {
                    lemma_refused(plan.statements@, db, now);
                }
            }
        }
        plan
    }

    /// Reads all mappings. They fill a cache, so the read waits behind the writes before it.
    pub fn get_all_lid_mappings(&self) -> (plan: ReadPlan)
        ensures
            plan.source is Queue,
            plan.queries@.len() == 1,
            asks(
                plan.queries@[0],
                Table::LidPnMapping,
                mapping_columns(),
                |row: Seq<Val>| row[5] == Val::Int(self.device_id as int),
                Order::Unordered,
                false,
            ),
    {
        let q = Query {
            table: Table::LidPnMapping,
            want: Want::Columns(mapping_column_list()),
            filter: owned_by(self.device_id),
            order: Order::Unordered,
            first: false,
        };
        ReadPlan { source: Source::Queue, queries: vec![q] }
    }

    /// Stores the base key of a session as a message found it. When one was first stored
    /// stays.
    pub fn save_base_key(&self, address: &str, message_id: &str, base_key: &[u8], now: i64)
        -> (plan: WritePlan)
        ensures
            plan.once(),
            plan.sound(),
            plan.always_taken(),
            plan.leaves(
                |db: Db, at: int|
                    db.merge(
                        Merge::BaseKey,
                        Table::BaseKeys,
                        base_key_row(
                            address@,
                            message_id@,
                            base_key@,
                            self.device_id as int,
                            now,
                        ),
                    ),
            ),
    {
        let row: Vec<Value> = vec![
            Value::text(address),
            Value::text(message_id),
            Value::blob(base_key),
            Value::Int(self.device_id as i64),
            Value::Int((now as i32) as i64),
        ];
        assert(values(row@) =~= base_key_row(
            address@,
            message_id@,
            base_key@,
            self.device_id as int,
            now,
        ));
        write_row(Lane::Once, Merge::BaseKey, Table::BaseKeys, row)
    }

    /// Reads the base key of a session as a message found it.
    pub fn has_same_base_key(&self, address: &str, message_id: &str) -> (plan: ReadPlan)
        ensures
            plan.source is Reader,
            plan.reads(
                key2(
                    Table::BaseKeys,
                    self.device_id as int,
                    Val::Text(address@),
                    Val::Text(message_id@),
                ),
                seq![Column::BaseKey],
            ),
    {
        let filter = pin2(
            Table::BaseKeys,
            Column::Address,
            Value::text(address),
            Column::MessageId,
            Value::text(message_id),
            self.device_id,
        );
        let q = row_query(Table::BaseKeys, one(Column::BaseKey), filter);
        ReadPlan { source: Source::Reader, queries: vec![q] }
    }

    /// Deletes the base key of a session as a message found it.
    pub fn delete_base_key(&self, address: &str, message_id: &str) -> (plan: WritePlan)
        ensures
            plan.once(),
            plan.sound(),
            plan.always_taken(),
            plan.leaves(
                |db: Db, now: int|
                    db.remove(
                        key2(
                            Table::BaseKeys,
                            self.device_id as int,
                            Val::Text(address@),
                            Val::Text(message_id@),
                        ),
                    ),
            ),
    {
        let filter = pin2(
            Table::BaseKeys,
            Column::Address,
            Value::text(address),
            Column::MessageId,
            Value::text(message_id),
            self.device_id,
        );
        delete_row(Lane::Once, Table::BaseKeys, filter)
    }

    /// Deletes the base keys first stored before a time.
    pub fn delete_expired_base_keys(&self, cutoff_timestamp: i64) -> (plan: WritePlan)
        ensures
            plan.retried_as("delete_expired_base_keys"@, Guard::Bare),
            plan.sound(),
            plan.always_taken(),
            plan.sweeps(
                |k: Key, row: Seq<Val>|
                    k.table == Table::BaseKeys && k.device == Val::Int(
                        self.device_id as int,
                    ) && (row[4] matches Val::Int(n) && n < (cutoff_timestamp as i32)),
            ),
    {
        let old_enough = Cond::Below(
            Column::CreatedAt,
            Value::Int((cutoff_timestamp as i32) as i64),
        );
        let filter = both(old_enough, owned_by(self.device_id));
        let plan = delete_row(
            Lane::Retried("delete_expired_base_keys"),
            Table::BaseKeys,
            filter,
        );
        proof {
            let t = Table::BaseKeys;
            let p = |k: Key, row: Seq<Val>|
                k.table == Table::BaseKeys && k.device == Val::Int(self.device_id as int) && (row[4]
                    matches Val::Int(n) && n < (cutoff_timestamp as i32));
            assert forall|k: Key, row: Seq<Val>|
                row_wf(k.table, row) && key_of(k.table, row) == k implies #[trigger] p(k, row) == (
            k.table == t && holds(filter, t, row)) by {
                assert(holds(old_enough, t, row) == (row[4] matches Val::Int(n) && n < (cutoff_timestamp as i32)));
            }
            lemma_sweeps(plan, t, filter, p);
        }
        plan
    }
}

// ---------------------------------------------------------------------------------------
// Answers

/// The columns of a mapping can be read.
pub open spec fn is_mapping(row: Seq<Val>) -> bool {
    &&& text_at(row, 0) is Some && text_at(row, 1) is Some && int_at(row, 2) is Some
    &&& text_at(row, 3) is Some && int_at(row, 4) is Some
}

/// A mapping from a row.
pub open spec fn describes(row: Seq<Val>, e: LidPnMappingEntry) -> bool {
    &&& text_at(row, 0) == Some(e.lid@)
    &&& text_at(row, 1) == Some(e.phone_number@)
    &&& int_at(row, 2) == Some(e.created_at as int)
    &&& text_at(row, 3) == Some(e.learning_source@)
    &&& int_at(row, 4) == Some(e.updated_at as int)
}

fn read_mapping(row: &Vec<Value>) -> (r: Result<LidPnMappingEntry, StoreError>)
    ensures
        if is_mapping(row_view(*row)) {
            r matches Ok(e) && describes(row_view(*row), e)
        } else {
            r matches Err(e) && is_mismatch(e)
        },
{
    let lid = match read_text(row, 0) {
        Ok(v) => v,
        Err(e) => return Err(e),
    };
    let phone_number = match read_text(row, 1) {
        Ok(v) => v,
        Err(e) => return Err(e),
    };
    let created_at: i64 = match read_int(row, 2) {
        Ok(v) => v,
        Err(e) => return Err(e),
    };
    let learning_source = match read_text(row, 3) {
        Ok(v) => v,
        Err(e) => return Err(e),
    };
    let updated_at: i64 = match read_int(row, 4) {
        Ok(v) => v,
        Err(e) => return Err(e),
    };
    Ok(LidPnMappingEntry { lid, phone_number, created_at, updated_at, learning_source })
}

/// The mapping that came back; none where there is no row.
pub fn mapping_answer(rows: &Rows) -> (r: Result<Option<LidPnMappingEntry>, StoreError>)
    ensures
        rows_view(*rows).len() == 0 ==> (r matches Ok(v) && v is None),
        rows_view(*rows).len() > 0 ==> if is_mapping(rows_view(*rows)[0]) {
            r matches Ok(Some(e)) && describes(rows_view(*rows)[0], e)
        } else {
            r matches Err(e) && is_mismatch(e)
        },
{
    if rows.len() == 0 {
        return Ok(None);
    }
    match read_mapping(&rows[0]) {
        Ok(e) => Ok(Some(e)),
        Err(e) => Err(e),
    }
}

/// The mappings that came back.
pub fn mappings_answer(rows: &Rows) -> (r: Result<Vec<LidPnMappingEntry>, StoreError>)
    ensures
        if forall|i: int| 0 <= i < rows_view(*rows).len() ==> is_mapping(#[trigger] rows_view(*rows)[i]) {
            &&& r matches Ok(list)
            &&& list@.len() == rows_view(*rows).len()
            &&& forall|i: int|
                0 <= i < list@.len() ==> describes(rows_view(*rows)[i], #[trigger] list@[i])
        } else {
            r matches Err(e) && is_mismatch(e)
        },
{
    let mut list: Vec<LidPnMappingEntry> = Vec::new();
    let mut i: usize = 0;
    while i < rows.len()
        invariant
            i <= rows.len(),
            list@.len() == i,
            forall|j: int| 0 <= j < i ==> is_mapping(#[trigger] rows_view(*rows)[j]),
            forall|j: int| 0 <= j < i ==> describes(rows_view(*rows)[j], #[trigger] list@[j]),
        decreases rows.len() - i,
    {
        assert(rows_view(*rows)[i as int] == row_view(rows@[i as int]));
        match read_mapping(&rows[i]) {
            Ok(e) => list.push(e),
            Err(e) => {
                assert(!is_mapping(rows_view(*rows)[i as int]));
                return Err(e);
            },
        }
        i = i + 1;
    }
    Ok(list)
}

/// Whether the base key that came back is the current one; not where there is none.
pub fn same_base_key_answer(rows: &Rows, current: &[u8]) -> (r: Result<bool, StoreError>)
    ensures
        rows_view(*rows).len() == 0 ==> (r matches Ok(b) && !b),
        rows_view(*rows).len() > 0 ==> match blob_at(rows_view(*rows)[0], 0) {
            Some(stored) => r matches Ok(b) && b == (stored == current@),
            None => r matches Err(e) && is_mismatch(e),
        },
{
    match first_blob(rows) {
        Err(e) => Err(e),
        Ok(None) => Ok(false),
        Ok(Some(stored)) => Ok(same_bytes(stored.as_slice(), current)),
    }
}

/// Whether two byte strings are the same.
fn same_bytes(a: &[u8], b: &[u8]) -> (same: bool)
    ensures
        same == (a@ == b@),
{
    if a.len() != b.len() {
        return false;
    }
    let mut i: usize = 0;
    while i < a.len()
        invariant
            i <= a.len(),
            a@.len() == b@.len(),
            forall|j: int| 0 <= j < i ==> a@[j] == b@[j],
        decreases a.len() - i,
    {
        if a[i] != b[i] {
            return false;
        }
        i = i + 1;
    }
    assert(a@ =~= b@);
    true
}

// ---------------------------------------------------------------------------------------
// Laws

/// When a mapping was first learned is never rewritten, and everything else of it is.
pub proof fn law_mappings_keep_their_origin(
    db: Db,
    device_id: int,
    entry: LidPnMappingEntry,
    again: LidPnMappingEntry,
)
    requires
        db.wf(),
        again.lid@ == entry.lid@,
    ensures
        ({
            let k = key1(Table::LidPnMapping, device_id, Val::Text(entry.lid@));
            let once = db.remove(k).merge(
                Merge::Mapping,
                Table::LidPnMapping,
                mapping_row(entry, device_id),
            );
            let twice = once.merge(
                Merge::Mapping,
                Table::LidPnMapping,
                mapping_row(again, device_id),
            );
            &&& once.get(k) == Some(mapping_row(entry, device_id))
            &&& twice.column(k, Column::CreatedAt) == Some(Val::Int(entry.created_at as int))
            &&& twice.column(k, Column::PhoneNumber) == Some(Val::Text(again.phone_number@))
            &&& twice.column(k, Column::LearningSource) == Some(Val::Text(again.learning_source@))
            &&& twice.column(k, Column::UpdatedAt) == Some(Val::Int(again.updated_at as int))
        }),
{
}

/// Storing a base key again replaces the key and leaves the time by which it expires.
pub proof fn law_base_keys_keep_their_age(
    db: Db,
    device_id: int,
    address: Seq<char>,
    message_id: Seq<char>,
    key: Seq<u8>,
    now: i64,
    later_key: Seq<u8>,
    later: i64,
)
    requires
        db.wf(),
    ensures
        ({
            let k = key2(Table::BaseKeys, device_id, Val::Text(address), Val::Text(message_id));
            let once = db.remove(k).merge(
                Merge::BaseKey,
                Table::BaseKeys,
                base_key_row(address, message_id, key, device_id, now),
            );
            let twice = once.merge(
                Merge::BaseKey,
                Table::BaseKeys,
                base_key_row(address, message_id, later_key, device_id, later),
            );
            &&& twice.column(k, Column::BaseKey) == Some(Val::Blob(later_key))
            &&& twice.column(k, Column::CreatedAt) == Some(Val::Int((now as i32) as int))
        }),
{
}

} // verus!
