//! Groups: which devices hold the sender key of a group, and what is known of a group.

use crate::effects::{
    asks, completed_rows, delete_in_chunks, delete_row, key1, lemma_without_eq, one, pin1,
    row_query, widths_fit, write_row, write_rows,
};
use crate::error::StoreError;
use crate::merge::Merge;
use crate::model::Db;
use crate::plan::{both, equals, owned_by, Guard, Lane, ReadPlan, Source, WritePlan};
use crate::rows::{
    int_at, is_mismatch, is_true, read_flag, read_text, row_view, rows_view, text_at, Rows,
};
use crate::schema::{key_of, Column, Key, Table};
use crate::signal::text_values;
use crate::sql::{Order, Query, Want};
use crate::store::SqliteStore;
use crate::value::{flag, values, Val, Value};
use vstd::prelude::*;

verus! {

broadcast use {
    crate::model::lemma_takes_all,
    vstd::string::group_string_axioms,
    vstd::seq::group_seq_axioms,
};

/// How many devices one statement names at most.
pub const SENDER_KEY_CHUNK: usize = 190;

/// The row of a device's sender key status.
pub open spec fn status_row(
    group: Seq<char>,
    device_jid: Seq<char>,
    has_key: bool,
    device_id: int,
    now: int,
) -> Seq<Val> {
    seq![
        Val::Text(group),
        Val::Text(device_jid),
        flag(has_key),
        Val::Int(device_id),
        Val::Int(now),
    ]
}

/// The rows of devices' sender key status.
pub open spec fn status_rows(
    group: Seq<char>,
    entries: Seq<(String, bool)>,
    device_id: int,
    now: int,
) -> Seq<Seq<Val>> {
    entries.map_values(|e: (String, bool)| status_row(group, e.0@, e.1, device_id, now))
}

/// The row of a group's metadata.
pub open spec fn metadata_row(group: Seq<char>, info: Seq<u8>, device_id: int, now: int) -> Seq<
    Val,
> {
    seq![Val::Text(group), Val::Blob(info), Val::Int(device_id), Val::Int(now)]
}

fn new_status_rows(group: &str, entries: &[(String, bool)], device_id: i32, now: i64) -> (rows: Vec<
    Vec<Value>,
>)
    ensures
        widths_fit(Table::SenderKeyDevices, rows@),
        rows@.len() == entries@.len(),
        forall|at: int| #[trigger]
            completed_rows(Table::SenderKeyDevices, rows@, at) == status_rows(
                group@,
                entries@,
                device_id as int,
                now as int,
            ),
{
    let mut rows: Vec<Vec<Value>> = Vec::new();
    let mut i: usize = 0;
    while i < entries.len()
        invariant
            i <= entries.len(),
            rows@.len() == i,
            forall|j: int|
                0 <= j < i ==> (#[trigger] rows@[j])@.len() == 5 && values(rows@[j]@) == status_row(
                    group@,
                    entries@[j].0@,
                    entries@[j].1,
                    device_id as int,
                    now as int,
                ),
        decreases entries.len() - i,
    {
        let row: Vec<Value> = vec![
            Value::text(group),
            Value::text(&entries[i].0),
            Value::flag(entries[i].1),
            Value::Int(device_id as i64),
            Value::Int(now),
        ];
        assert(values(row@) =~= status_row(
            group@,
            entries@[i as int].0@,
            entries@[i as int].1,
            device_id as int,
            now as int,
        ));
        rows.push(row);
        i = i + 1;
    }
    assert forall|at: int| #[trigger] completed_rows(Table::SenderKeyDevices, rows@, at)
        == status_rows(group@, entries@, device_id as int, now as int) by {
        assert(completed_rows(Table::SenderKeyDevices, rows@, at) =~= status_rows(
            group@,
            entries@,
            device_id as int,
            now as int,
        ));
    }
    rows
}

/// The database without an account's sender key status for listed devices, in every group.
pub open spec fn without_devices(db: Db, device_id: int, list: Seq<Val>) -> Db {
    db.without(
        |k: Key, row: Seq<Val>|
            k.table == Table::SenderKeyDevices && k.device == Val::Int(device_id) && list.contains(
                k.b,
            ),
    )
}

impl SqliteStore {
    /// Reads the devices of a group and whether they hold its sender key. The answer fills a
    /// cache, so the read waits behind the writes before it.
    pub fn get_sender_key_devices(&self, group_jid: &str) -> (plan: ReadPlan)
        ensures
            plan.source is Queue,
            plan.queries@.len() == 1,
            asks(
                plan.queries@[0],
                Table::SenderKeyDevices,
                seq![Column::DeviceJid, Column::HasKey],
                |row: Seq<Val>|
                    row[0] == Val::Text(group_jid@) && row[3] == Val::Int(self.device_id as int),
                Order::Unordered,
                false,
            ),
    {
        let filter = both(
            equals(Column::GroupJid, Value::text(group_jid)),
            owned_by(self.device_id),
        );
        let q = Query {
            table: Table::SenderKeyDevices,
            want: Want::Columns(vec![Column::DeviceJid, Column::HasKey]),
            filter,
            order: Order::Unordered,
            first: false,
        };
        ReadPlan { source: Source::Queue, queries: vec![q] }
    }

    /// Records for devices of a group whether they hold its sender key, all or none of them.
    pub fn set_sender_key_status(&self, group_jid: &str, entries: &[(String, bool)], now: i64)
        -> (plan: WritePlan)
        ensures
            plan.retried_as("set_sender_key_status"@, Guard::Deferred),
            plan.sound(),
            plan.always_taken(),
            entries@.len() == 0 <==> plan.statements@.len() == 0,
            plan.leaves(
                |db: Db, at: int|
                    db.put_all(
                        Table::SenderKeyDevices,
                        status_rows(group_jid@, entries@, self.device_id as int, now as int),
                    ),
            ),
    {
        write_rows(
            "set_sender_key_status",
            Guard::Deferred,
            Merge::Overwrite,
            Table::SenderKeyDevices,
            new_status_rows(group_jid, entries, self.device_id, now),
            SENDER_KEY_CHUNK,
        )
    }

    /// Forgets the devices of a group.
    pub fn clear_sender_key_devices(&self, group_jid: &str) -> (plan: WritePlan)
        ensures
            plan.retried_as("clear_sender_key_devices"@, Guard::Bare),
            plan.sound(),
            plan.always_taken(),
            plan.leaves(
                |db: Db, now: int|
                    db.without(
                        |k: Key, row: Seq<Val>|
                            k.table == Table::SenderKeyDevices && k.device == Val::Int(
                                self.device_id as int,
                            ) && k.a == Val::Text(group_jid@),
                    ),
            ),
    {
        let filter = both(
            equals(Column::GroupJid, Value::text(group_jid)),
            owned_by(self.device_id),
        );
        let plan = delete_row(
            Lane::Retried("clear_sender_key_devices"),
            Table::SenderKeyDevices,
            filter,
        );
        proof {
            let q = |k: Key, row: Seq<Val>|
                k.table == Table::SenderKeyDevices && k.device == Val::Int(self.device_id as int)
                    && k.a == Val::Text(group_jid@);
            assert forall|db: Db, now: int| db.wf() implies #[trigger] plan.apply(db, now)
                == db.without(q) by {
                let p = |k: Key, row: Seq<Val>|
                    k.table == Table::SenderKeyDevices && crate::model::holds(
                        filter,
                        Table::SenderKeyDevices,
                        row,
                    );
                assert forall|k: Key| #[trigger] db.rows.contains_key(k) implies p(k, db.rows[k])
                    == q(k, db.rows[k]) by {
                    assert(key_of(k.table, db.rows[k]) == k);
                }
                lemma_without_eq(db, p, q);
            }
        }
        plan
    }

    /// Forgets the devices of all groups.
    pub fn clear_all_sender_key_devices(&self) -> (plan: WritePlan)
        ensures
            plan.retried_as("clear_all_sender_key_devices"@, Guard::Bare),
            plan.sound(),
            plan.always_taken(),
            plan.leaves(
                |db: Db, now: int|
                    db.without(
                        |k: Key, row: Seq<Val>|
                            k.table == Table::SenderKeyDevices && k.device == Val::Int(
                                self.device_id as int,
                            ),
                    ),
            ),
    {
        let filter = owned_by(self.device_id);
        let plan = delete_row(
            Lane::Retried("clear_all_sender_key_devices"),
            Table::SenderKeyDevices,
            filter,
        );
        proof {
            let q = |k: Key, row: Seq<Val>|
                k.table == Table::SenderKeyDevices && k.device == Val::Int(self.device_id as int);
            assert forall|db: Db, now: int| db.wf() implies #[trigger] plan.apply(db, now)
                == db.without(q) by {
                let p = |k: Key, row: Seq<Val>|
                    k.table == Table::SenderKeyDevices && crate::model::holds(
                        filter,
                        Table::SenderKeyDevices,
                        row,
                    );
                assert forall|k: Key| #[trigger] db.rows.contains_key(k) implies p(k, db.rows[k])
                    == q(k, db.rows[k]) by {
                    assert(key_of(k.table, db.rows[k]) == k);
                }
                lemma_without_eq(db, p, q);
            }
        }
        plan
    }

    /// Forgets devices in every group, all or none of them.
    pub fn delete_sender_key_device_rows(&self, device_jids: &[String]) -> (plan: WritePlan)
        ensures
            plan.retried_as("delete_sender_key_device_rows"@, Guard::Deferred),
            plan.sound(),
            plan.always_taken(),
            device_jids@.len() == 0 <==> plan.statements@.len() == 0,
            plan.leaves(
                |db: Db, now: int|
                    without_devices(db, self.device_id as int, text_values(device_jids@)),
            ),
    {
        let wanted = crate::signal::address_values(device_jids);
        let ghost list = text_values(device_jids@);
        let statements = delete_in_chunks(
            Table::SenderKeyDevices,
            None,
            Column::DeviceJid,
            wanted,
            self.device_id,
            SENDER_KEY_CHUNK,
        );
        let plan = WritePlan {
            lane: Lane::Retried("delete_sender_key_device_rows"),
            guard: Guard::Deferred,
            statements,
        };
        proof {
            let d = self.device_id as int;
            let q = |k: Key, row: Seq<Val>|
                k.table == Table::SenderKeyDevices && k.device == Val::Int(d) && list.contains(k.b);
            assert forall|db: Db, now: int| db.wf() implies #[trigger] plan.apply(db, now)
                == without_devices(db, d, list) by {
                let p = |k: Key, row: Seq<Val>|
                    k.table == Table::SenderKeyDevices && crate::effects::listed(
                        Table::SenderKeyDevices,
                        None,
                        Column::DeviceJid,
                        list,
                        d,
                        row,
                    );
                assert forall|k: Key| #[trigger] db.rows.contains_key(k) implies p(k, db.rows[k])
                    == q(k, db.rows[k]) by {
                    assert(key_of(k.table, db.rows[k]) == k);
                    if list.contains(k.b) {
                        let i = choose|i: int| 0 <= i < list.len() && list[i] == k.b;
                        assert(list[i] == Val::Text(device_jids@[i]@));
                    }
                }
                lemma_without_eq(db, p, q);
                assert(plan.apply(db, now) =~= db.without(p));
            }
        }
        plan
    }

    /// Reads what is known of a group.
    pub fn get_group_metadata(&self, group_jid: &str) -> (plan: ReadPlan)
        ensures
            plan.source is Reader,
            plan.reads(
                key1(Table::GroupMetadata, self.device_id as int, Val::Text(group_jid@)),
                seq![Column::Info],
            ),
    {
        let filter = pin1(
            Table::GroupMetadata,
            Column::GroupJid,
            Value::text(group_jid),
            self.device_id,
        );
        let q = row_query(Table::GroupMetadata, one(Column::Info), filter);
        ReadPlan { source: Source::Reader, queries: vec![q] }
    }

    /// Stores what is known of a group.
    pub fn put_group_metadata(&self, group_jid: &str, blob: &[u8], now: i64) -> (plan: WritePlan)
        ensures
            plan.once(),
            plan.sound(),
            plan.always_taken(),
            plan.leaves(
                |db: Db, at: int|
                    db.put(
                        Table::GroupMetadata,
                        metadata_row(group_jid@, blob@, self.device_id as int, now as int),
                    ),
            ),
    {
        let row: Vec<Value> = vec![
            Value::text(group_jid),
            Value::blob(blob),
            Value::Int(self.device_id as i64),
            Value::Int(now),
        ];
        assert(values(row@) =~= metadata_row(
            group_jid@,
            blob@,
            self.device_id as int,
            now as int,
        ));
        write_row(Lane::Once, Merge::Overwrite, Table::GroupMetadata, row)
    }

    /// Deletes what is known of a group.
    pub fn delete_group_metadata(&self, group_jid: &str) -> (plan: WritePlan)
        ensures
            plan.once(),
            plan.sound(),
            plan.always_taken(),
            plan.leaves(
                |db: Db, now: int|
                    db.remove(
                        key1(Table::GroupMetadata, self.device_id as int, Val::Text(group_jid@)),
                    ),
            ),
    {
        let filter = pin1(
            Table::GroupMetadata,
            Column::GroupJid,
            Value::text(group_jid),
            self.device_id,
        );
        delete_row(Lane::Once, Table::GroupMetadata, filter)
    }
}

/// A device and a number in a row.
pub open spec fn is_status(row: Seq<Val>) -> bool {
    text_at(row, 0) is Some && int_at(row, 1) is Some
}

/// The devices that came back, and whether they hold the sender key.
pub fn status_answer(rows: &Rows) -> (r: Result<Vec<(String, bool)>, StoreError>)
    ensures
        if forall|i: int| 0 <= i < rows_view(*rows).len() ==> is_status(#[trigger] rows_view(*rows)[i]) {
            &&& r matches Ok(list)
            &&& list@.len() == rows_view(*rows).len()
            &&& forall|i: int|
                0 <= i < list@.len() ==> text_at(rows_view(*rows)[i], 0) == Some(
                    (#[trigger] list@[i]).0@,
                ) && list@[i].1 == is_true(int_at(rows_view(*rows)[i], 1)->0)
        } else {
            r matches Err(e) && is_mismatch(e)
        },
{
    let mut list: Vec<(String, bool)> = Vec::new();
    let mut i: usize = 0;
    while i < rows.len()
        invariant
            i <= rows.len(),
            list@.len() == i,
            forall|j: int| 0 <= j < i ==> is_status(#[trigger] rows_view(*rows)[j]),
            forall|j: int|
                0 <= j < i ==> text_at(rows_view(*rows)[j], 0) == Some((#[trigger] list@[j]).0@)
                    && list@[j].1 == is_true(int_at(rows_view(*rows)[j], 1)->0),
        decreases rows.len() - i,
    {
        assert(rows_view(*rows)[i as int] == row_view(rows@[i as int]));
        let jid = match read_text(&rows[i], 0) {
            Ok(v) => v,
            Err(e) => {
                assert(!is_status(rows_view(*rows)[i as int]));
                return Err(e);
            },
        };
        let has_key = match read_flag(&rows[i], 1) {
            Ok(v) => v,
            Err(e) => {
                assert(!is_status(rows_view(*rows)[i as int]));
                return Err(e);
            },
        };
        list.push((jid, has_key));
        i = i + 1;
    }
    Ok(list)
}

} // verus!
