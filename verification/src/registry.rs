//! The devices that users have.

use crate::effects::{
    asks_for_listed, completed_rows, delete_row, key1, pin1, query_in_chunks, row_query, write_row,
    write_rows,
};
use crate::error::StoreError;
use crate::load::unsigned;
use crate::merge::Merge;
use crate::model::Db;
use crate::plan::{Guard, Lane, ReadPlan, Source, WritePlan};
use crate::rows::{
    int_at, is_mismatch, opt_int_ok, opt_text_ok, read_int, read_opt_int, read_opt_text, read_text,
    row_view, rows_view, text_at, Rows,
};
use crate::schema::{Column, Table};
use crate::signal::{address_values, text_values, ID_PARAM_CHUNK};
use crate::store::SqliteStore;
use crate::value::{opt_text, text_or_null, values, Val, Value};
use vstd::prelude::*;

verus! {

broadcast use {vstd::string::group_string_axioms, vstd::seq::group_seq_axioms};

/// The devices of a user, as the store keeps them: the list itself in its encoded form.
#[derive(Debug)]
pub struct DeviceListRecord {
    pub user: String,
    pub devices_json: String,
    pub timestamp: i64,
    pub phash: Option<String>,
    pub raw_id: Option<u32>,
}

/// An optional number as its bits are stored.
pub open spec fn stored_raw_id(raw_id: Option<u32>) -> Val {
    match raw_id {
        Some(n) => Val::Int((n as i32) as int),
        None => Val::Null,
    }
}

/// The row of a user's devices. Times are stored in thirty-two bits.
pub open spec fn registry_row(r: DeviceListRecord, device_id: int, now: i64) -> Seq<Val> {
    seq![
        Val::Text(r.user@),
        Val::Text(r.devices_json@),
        Val::Int((r.timestamp as i32) as int),
        text_or_null(opt_text(r.phash)),
        Val::Int(device_id),
        Val::Int((now as i32) as int),
        stored_raw_id(r.raw_id),
    ]
}

/// The rows of users' devices.
pub open spec fn registry_rows(
    records: Seq<DeviceListRecord>,
    device_id: int,
    now: i64,
) -> Seq<Seq<Val>> {
    records.map_values(|r: DeviceListRecord| registry_row(r, device_id, now))
}

/// The columns a record is read from, in order.
pub open spec fn registry_columns() -> Seq<Column> {
    seq![
        Column::UserId,
        Column::DevicesJson,
        Column::Timestamp,
        Column::Phash,
        Column::RawId,
    ]
}

fn registry_column_list() -> (cs: Vec<Column>)
    ensures
        cs@ == registry_columns(),
{
    let cs: Vec<Column> = vec![
        Column::UserId,
        Column::DevicesJson,
        Column::Timestamp,
        Column::Phash,
        Column::RawId,
    ];
    assert(cs@ =~= registry_columns());
    cs
}

fn new_registry_row(r: &DeviceListRecord, device_id: i32, now: i64) -> (row: Vec<Value>)
    ensures
        values(row@) == registry_row(*r, device_id as int, now),
        row@.len() == 7,
{
    let raw_id = match r.raw_id {
        Some(n) => Value::Int((n as i32) as i64),
        None => Value::Null,
    };
    let row: Vec<Value> = vec![
        Value::text(&r.user),
        Value::text(&r.devices_json),
        Value::Int((r.timestamp as i32) as i64),
        Value::text_or_null(&r.phash),
        Value::Int(device_id as i64),
        Value::Int((now as i32) as i64),
        raw_id,
    ];
    assert(values(row@) =~= registry_row(*r, device_id as int, now));
    row
}

impl SqliteStore {
    /// Stores the devices of a user.
    pub fn update_device_list(&self, record: &DeviceListRecord, now: i64) -> (plan: WritePlan)
        ensures
            plan.once(),
            plan.sound(),
            plan.always_taken(),
            plan.leaves(
                |db: Db, at: int|
                    db.put(
                        Table::DeviceRegistry,
                        registry_row(*record, self.device_id as int, now),
                    ),
            ),
    {
        write_row(
            Lane::Once,
            Merge::Overwrite,
            Table::DeviceRegistry,
            new_registry_row(record, self.device_id, now),
        )
    }

    /// Stores the devices of users, all or none of them, the later of two for one user.
    pub fn update_device_lists(&self, records: &[DeviceListRecord], now: i64) -> (plan: WritePlan)
        ensures
            plan.retried_as("update_device_lists"@, Guard::Deferred),
            plan.sound(),
            plan.always_taken(),
            records@.len() == 0 <==> plan.statements@.len() == 0,
            plan.leaves(
                |db: Db, at: int|
                    db.put_all(
                        Table::DeviceRegistry,
                        registry_rows(records@, self.device_id as int, now),
                    ),
            ),
    {
        let mut rows: Vec<Vec<Value>> = Vec::new();
        let mut i: usize = 0;
        while i < records.len()
            invariant
                i <= records.len(),
                rows@.len() == i,
                forall|j: int|
                    0 <= j < i ==> (#[trigger] rows@[j])@.len() == 7 && values(rows@[j]@)
                        == registry_row(records@[j], self.device_id as int, now),
            decreases records.len() - i,
        {
            rows.push(new_registry_row(&records[i], self.device_id, now));
            i = i + 1;
        }
        proof {
            assert forall|at: int| #[trigger] completed_rows(Table::DeviceRegistry, rows@, at)
                == registry_rows(records@, self.device_id as int, now) by {
                assert(completed_rows(Table::DeviceRegistry, rows@, at) =~= registry_rows(
                    records@,
                    self.device_id as int,
                    now,
                ));
            }
        }
        write_rows(
            "update_device_lists",
            Guard::Deferred,
            Merge::Overwrite,
            Table::DeviceRegistry,
            rows,
            1,
        )
    }

    /// Reads the devices of a user. They fill a cache, so the read waits behind the writes
    /// before it.
    pub fn get_devices(&self, user: &str) -> (plan: ReadPlan)
        ensures
            plan.source is Queue,
            plan.reads(
                key1(Table::DeviceRegistry, self.device_id as int, Val::Text(user@)),
                registry_columns(),
            ),
    {
        let filter = pin1(
            Table::DeviceRegistry,
            Column::UserId,
            Value::text(user),
            self.device_id,
        );
        let q = row_query(Table::DeviceRegistry, registry_column_list(), filter);
        ReadPlan { source: Source::Queue, queries: vec![q] }
    }

    /// Reads the devices of users.
    pub fn get_devices_batch(&self, users: &[String]) -> (plan: ReadPlan)
        ensures
            plan.source is Queue,
            asks_for_listed(
                plan.queries@,
                Table::DeviceRegistry,
                registry_columns(),
                None,
                Column::UserId,
                text_values(users@),
                ID_PARAM_CHUNK as nat,
                self.device_id as int,
            ),
    {
        let queries = query_in_chunks(
            Table::DeviceRegistry,
            None,
            registry_column_list(),
            Column::UserId,
            address_values(users),
            self.device_id,
            ID_PARAM_CHUNK,
        );
        ReadPlan { source: Source::Queue, queries }
    }

    /// Deletes the devices of a user.
    pub fn delete_devices(&self, user: &str) -> (plan: WritePlan)
        ensures
            plan.once(),
            plan.sound(),
            plan.always_taken(),
            plan.leaves(
                |db: Db, now: int|
                    db.remove(key1(Table::DeviceRegistry, self.device_id as int, Val::Text(user@))),
            ),
    {
        let filter = pin1(
            Table::DeviceRegistry,
            Column::UserId,
            Value::text(user),
            self.device_id,
        );
        delete_row(Lane::Once, Table::DeviceRegistry, filter)
    }
}

/// The columns of a record can be read.
pub open spec fn is_record(row: Seq<Val>) -> bool {
    &&& text_at(row, 0) is Some && text_at(row, 1) is Some && int_at(row, 2) is Some
    &&& opt_text_ok(row, 3) && opt_int_ok(row, 4)
}

/// A record from a row.
pub open spec fn describes(row: Seq<Val>, r: DeviceListRecord) -> bool {
    &&& text_at(row, 0) == Some(r.user@)
    &&& text_at(row, 1) == Some(r.devices_json@)
    &&& r.timestamp == ((int_at(row, 2)->0) as i32) as i64
    &&& opt_text(r.phash) == text_at(row, 3)
    &&& r.raw_id == (match int_at(row, 4) {
        Some(n) => Some(unsigned(n)),
        None => None,
    })
}

/// The record that a row of the registry describes.
pub fn device_registry_row_to_record(row: &Vec<Value>) -> (r: Result<DeviceListRecord, StoreError>)
    ensures
        if is_record(row_view(*row)) {
            r matches Ok(record) && describes(row_view(*row), record)
        } else {
            r matches Err(e) && is_mismatch(e)
        },
{
    let user = match read_text(row, 0) {
        Ok(v) => v,
        Err(e) => return Err(e),
    };
    let devices_json = match read_text(row, 1) {
        Ok(v) => v,
        Err(e) => return Err(e),
    };
    let timestamp: i64 = match read_int(row, 2) {
        Ok(v) => v,
        Err(e) => return Err(e),
    };
    let phash = match read_opt_text(row, 3) {
        Ok(v) => v,
        Err(e) => return Err(e),
    };
    let raw_id = match read_opt_int(row, 4) {
        Ok(v) => v,
        Err(e) => return Err(e),
    };
    let raw_id = match raw_id {
        Some(n) => Some((n as i32) as u32),
        None => None,
    };
    Ok(DeviceListRecord { user, devices_json, timestamp: (timestamp as i32) as i64, phash, raw_id })
}

/// A record as its reader sees it, given what the decoder of its list complains of. A list that
/// cannot be decoded is an error, not an absent record.
pub fn decoded_record(record: DeviceListRecord, complaint: Option<String>) -> (r: Result<
    DeviceListRecord,
    StoreError,
>)
    ensures
        r == (match complaint {
            Some(text) => Err::<DeviceListRecord, StoreError>(StoreError::Serialization(text)),
            None => Ok(record),
        }),
{
    match complaint {
        Some(text) => Err(StoreError::Serialization(text)),
        None => Ok(record),
    }
}

/// The record that came back; none where there is no row.
pub fn registry_answer(rows: &Rows) -> (r: Result<Option<DeviceListRecord>, StoreError>)
    ensures
        rows_view(*rows).len() == 0 ==> (r matches Ok(v) && v is None),
        rows_view(*rows).len() > 0 ==> if is_record(rows_view(*rows)[0]) {
            r matches Ok(Some(record)) && describes(rows_view(*rows)[0], record)
        } else {
            r matches Err(e) && is_mismatch(e)
        },
{
    if rows.len() == 0 {
        return Ok(None);
    }
    match device_registry_row_to_record(&rows[0]) {
        Ok(record) => Ok(Some(record)),
        Err(e) => Err(e),
    }
}

/// The records that came back.
pub fn registry_list_answer(rows: &Rows) -> (r: Result<Vec<DeviceListRecord>, StoreError>)
    ensures
        if forall|i: int| 0 <= i < rows_view(*rows).len() ==> is_record(#[trigger] rows_view(*rows)[i]) {
            &&& r matches Ok(list)
            &&& list@.len() == rows_view(*rows).len()
            &&& forall|i: int|
                0 <= i < list@.len() ==> describes(rows_view(*rows)[i], #[trigger] list@[i])
        } else {
            r matches Err(e) && is_mismatch(e)
        },
{
    let mut list: Vec<DeviceListRecord> = Vec::new();
    let mut i: usize = 0;
    while i < rows.len()
        invariant
            i <= rows.len(),
            list@.len() == i,
            forall|j: int| 0 <= j < i ==> is_record(#[trigger] rows_view(*rows)[j]),
            forall|j: int| 0 <= j < i ==> describes(rows_view(*rows)[j], #[trigger] list@[j]),
        decreases rows.len() - i,
    {
        assert(rows_view(*rows)[i as int] == row_view(rows@[i as int]));
        match device_registry_row_to_record(&rows[i]) {
            Ok(record) => list.push(record),
            Err(e) => {
                assert(!is_record(rows_view(*rows)[i as int]));
                return Err(e);
            },
        }
        i = i + 1;
    }
    Ok(list)
}

proof fn lemma_bits(n: u32)
    by (bit_vector)
    ensures
        (n as i32) as u32 == n,
{
}

/// A record comes back as it was stored, its time within thirty-two bits.
pub proof fn law_records_round_trip(r: DeviceListRecord, device_id: int, now: i64)
    requires
        i32::MIN <= r.timestamp <= i32::MAX,
    ensures
        ({
            let row = crate::model::projected(
                Table::DeviceRegistry,
                registry_columns(),
                registry_row(r, device_id, now),
            );
            is_record(row) && describes(row, r)
        }),
{
    match r.raw_id {
        Some(n) => lemma_bits(n),
        None => {},
    }
    let full = registry_row(r, device_id, now);
    let row = crate::model::projected(Table::DeviceRegistry, registry_columns(), full);
    assert(row =~= seq![full[0], full[1], full[2], full[3], full[6]]);
}

} // verus!
