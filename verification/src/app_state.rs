//! The state of the synchronized collections: sync keys, versions and mutation MACs.

use crate::effects::{
    asks, asks_for_listed, completed_rows, delete_in_chunks, delete_row, key1, key2, one, pin1,
    pin2, query_in_chunks, row_query, upsert_in_chunks, widths_fit, write_row, write_rows,
};
use crate::error::StoreError;
use crate::keys::array32;
use crate::merge::Merge;
use crate::model::{
    always_taken, answers, apply, apply_all, comes_before, lists, projected, takes, Db,
};
use crate::plan::{both, equals, owned_by, sound, Guard, Lane, ReadPlan, Source, WritePlan};
use crate::rows::{blob_at, is_mismatch, read_blob, row_view, rows_view, Rows};
use crate::schema::{key_of, pos, Column, Key, Table};
use crate::sql::{Order, Query, Statement, Want};
use crate::store::SqliteStore;
use crate::value::{bytes_below, sorts_below, values, Val, Value};
use vstd::prelude::*;

verus! {

broadcast use {
    crate::model::lemma_takes_all,
    vstd::string::group_string_axioms,
    vstd::seq::group_seq_axioms,
};

/// How many MACs one statement inserts at most.
pub const MAC_INSERT_CHUNK: usize = 100;

/// How many MACs one statement or query lists at most.
pub const MAC_LIST_CHUNK: usize = 500;

/// The MAC of a mutation: of its index, by which it is found, and of its value.
#[derive(Debug)]
pub struct AppStateMutationMAC {
    pub index_mac: Vec<u8>,
    pub value_mac: Vec<u8>,
}

/// The row of a sync key.
pub open spec fn sync_key_row(key_id: Seq<u8>, data: Seq<u8>, device_id: int) -> Seq<Val> {
    seq![Val::Blob(key_id), Val::Blob(data), Val::Int(device_id)]
}

/// The row of a collection's version.
pub open spec fn version_row(name: Seq<char>, data: Seq<u8>, device_id: int) -> Seq<Val> {
    seq![Val::Text(name), Val::Blob(data), Val::Int(device_id)]
}

/// The row of a MAC. The version is stored by its bits.
pub open spec fn mac_row(
    name: Seq<char>,
    version: u64,
    mac: AppStateMutationMAC,
    device_id: int,
) -> Seq<Val> {
    seq![
        Val::Text(name),
        Val::Int((version as i64) as int),
        Val::Blob(mac.index_mac@),
        Val::Blob(mac.value_mac@),
        Val::Int(device_id),
    ]
}

/// The rows of MACs.
pub open spec fn mac_rows(
    name: Seq<char>,
    version: u64,
    macs: Seq<AppStateMutationMAC>,
    device_id: int,
) -> Seq<Seq<Val>> {
    macs.map_values(|m: AppStateMutationMAC| mac_row(name, version, m, device_id))
}

/// Byte strings as values.
pub open spec fn blob_values(list: Seq<Vec<u8>>) -> Seq<Val> {
    list.map_values(|b: Vec<u8>| Val::Blob(b@))
}

/// Arrays as values.
pub open spec fn array_values(list: Seq<[u8; 32]>) -> Seq<Val> {
    list.map_values(|b: [u8; 32]| Val::Blob(b@))
}

/// The database without an account's listed MACs of a collection.
pub open spec fn without_macs(db: Db, device_id: int, name: Seq<char>, list: Seq<Val>) -> Db {
    db.without(
        |k: Key, row: Seq<Val>|
            k.table == Table::AppStateMutationMacs && k.device == Val::Int(device_id) && k.a
                == Val::Text(name) && list.contains(k.b),
    )
}

fn blob_list(items: &[Vec<u8>]) -> (list: Vec<Value>)
    ensures
        values(list@) == blob_values(items@),
        list@.len() == items@.len(),
{
    let mut list: Vec<Value> = Vec::new();
    let mut i: usize = 0;
    while i < items.len()
        invariant
            i <= items.len(),
            list@.len() == i,
            forall|j: int| 0 <= j < i ==> (#[trigger] list@[j])@ == Val::Blob(items@[j]@),
        decreases items.len() - i,
    {
        list.push(Value::blob(items[i].as_slice()));
        i = i + 1;
    }
    assert(values(list@) =~= blob_values(items@));
    list
}

fn array_list(items: &[[u8; 32]]) -> (list: Vec<Value>)
    ensures
        values(list@) == array_values(items@),
        list@.len() == items@.len(),
{
    let mut list: Vec<Value> = Vec::new();
    let mut i: usize = 0;
    while i < items.len()
        invariant
            i <= items.len(),
            list@.len() == i,
            forall|j: int| 0 <= j < i ==> (#[trigger] list@[j])@ == Val::Blob(items@[j]@),
        decreases items.len() - i,
    {
        list.push(Value::blob(items[i].as_slice()));
        i = i + 1;
    }
    assert(values(list@) =~= array_values(items@));
    list
}

fn new_version_row(name: &str, data: &[u8], device_id: i32) -> (row: Vec<Value>)
    ensures
        values(row@) == version_row(name@, data@, device_id as int),
        row@.len() == 3,
{
    let row: Vec<Value> = vec![
        Value::text(name),
        Value::blob(data),
        Value::Int(device_id as i64),
    ];
    assert(values(row@) =~= version_row(name@, data@, device_id as int));
    row
}

fn new_mac_rows(name: &str, version: u64, macs: &[AppStateMutationMAC], device_id: i32) -> (rows:
    Vec<Vec<Value>>)
    ensures
        widths_fit(Table::AppStateMutationMacs, rows@),
        rows@.len() == macs@.len(),
        forall|now: int| #[trigger]
            completed_rows(Table::AppStateMutationMacs, rows@, now) == mac_rows(
                name@,
                version,
                macs@,
                device_id as int,
            ),
{
    let mut rows: Vec<Vec<Value>> = Vec::new();
    let mut i: usize = 0;
    while i < macs.len()
        invariant
            i <= macs.len(),
            rows@.len() == i,
            forall|j: int|
                0 <= j < i ==> (#[trigger] rows@[j])@.len() == 5 && values(rows@[j]@) == mac_row(
                    name@,
                    version,
                    macs@[j],
                    device_id as int,
                ),
        decreases macs.len() - i,
    {
        let row: Vec<Value> = vec![
            Value::text(name),
            Value::Int(version as i64),
            Value::blob(macs[i].index_mac.as_slice()),
            Value::blob(macs[i].value_mac.as_slice()),
            Value::Int(device_id as i64),
        ];
        assert(values(row@) =~= mac_row(name@, version, macs@[i as int], device_id as int));
        rows.push(row);
        i = i + 1;
    }
    assert forall|now: int| #[trigger] completed_rows(Table::AppStateMutationMacs, rows@, now)
        == mac_rows(name@, version, macs@, device_id as int) by {
        assert(completed_rows(Table::AppStateMutationMacs, rows@, now) =~= mac_rows(
            name@,
            version,
            macs@,
            device_id as int,
        ));
    }
    rows
}

/// The statements that delete listed MACs of a collection.
fn delete_mac_statements(name: &str, macs: &[Vec<u8>], device_id: i32) -> (list: Vec<Statement>)
    ensures
        forall|i: int| 0 <= i < list@.len() ==> sound(#[trigger] list@[i]),
        always_taken(list@),
        macs@.len() == 0 <==> list@.len() == 0,
        forall|db: Db, now: int|
            db.wf() ==> #[trigger] apply_all(list@, db, now) == without_macs(
                db,
                device_id as int,
                name@,
                blob_values(macs@),
            ) && apply_all(list@, db, now).wf(),
{
    let wanted = blob_list(macs);
    let ghost blobs = blob_values(macs@);
    let list = delete_in_chunks(
        Table::AppStateMutationMacs,
        Some((Column::Name, name)),
        Column::IndexMac,
        wanted,
        device_id,
        MAC_LIST_CHUNK,
    );
    proof {
        assert forall|db: Db, now: int| db.wf() implies #[trigger] apply_all(list@, db, now)
            == without_macs(db, device_id as int, name@, blobs) && apply_all(
            list@,
            db,
            now,
        ).wf() by {
            let after = apply_all(list@, db, now);
            let goal = without_macs(db, device_id as int, name@, blobs);
            assert forall|k: Key| #[trigger]
                after.rows.contains_key(k) <==> goal.rows.contains_key(k) by {
                if db.rows.contains_key(k) && k.table == Table::AppStateMutationMacs {
                    assert(key_of(k.table, db.rows[k]) == k);
                    if blobs.contains(k.b) {
                        let i = choose|i: int| 0 <= i < blobs.len() && blobs[i] == k.b;
                        assert(blobs[i] == Val::Blob(macs@[i]@));
                    }
                }
            }
            assert(after.rows =~= goal.rows);
        }
    }
    list
}

/// Statements run in two parts are statements run in one.
proof fn lemma_apply_concat(a: Seq<Statement>, b: Seq<Statement>, db: Db, now: int)
    ensures
        apply_all(a + b, db, now) == apply_all(b, apply_all(a, db, now), now),
    decreases b.len(),
{
    if b.len() > 0 {
        lemma_apply_concat(a, b.drop_last(), db, now);
        assert((a + b).drop_last() =~= a + b.drop_last());
        assert((a + b).last() == b.last());
    } else {
        assert(a + b =~= a);
    }
}

impl SqliteStore {
    /// Reads a sync key. A missing key is reported to a peer, so the read waits behind the
    /// writes before it.
    pub fn get_app_state_sync_key_for_device(&self, key_id: &[u8], device_id: i32) -> (plan:
        ReadPlan)
        ensures
            plan.source is Queue,
            plan.reads(
                key1(Table::AppStateKeys, device_id as int, Val::Blob(key_id@)),
                seq![Column::KeyData],
            ),
    {
        let filter = pin1(Table::AppStateKeys, Column::KeyId, Value::blob(key_id), device_id);
        let q = row_query(Table::AppStateKeys, one(Column::KeyData), filter);
        ReadPlan { source: Source::Queue, queries: vec![q] }
    }

    /// Stores a sync key in its encoded form.
    pub fn set_app_state_sync_key_for_device(&self, key_id: &[u8], data: &[u8], device_id: i32)
        -> (plan: WritePlan)
        ensures
            plan.once(),
            plan.sound(),
            plan.always_taken(),
            plan.leaves(
                |db: Db, now: int|
                    db.put(Table::AppStateKeys, sync_key_row(key_id@, data@, device_id as int)),
            ),
    {
        let row: Vec<Value> = vec![
            Value::blob(key_id),
            Value::blob(data),
            Value::Int(device_id as i64),
        ];
        assert(values(row@) =~= sync_key_row(key_id@, data@, device_id as int));
        write_row(Lane::Once, Merge::Overwrite, Table::AppStateKeys, row)
    }

    /// Reads all sync keys of an account, the largest id first. A missing key fails what the
    /// user asked for, so the read waits behind the writes before it.
    pub fn get_latest_app_state_sync_key_id_for_device(&self, device_id: i32) -> (plan: ReadPlan)
        ensures
            plan.source is Queue,
            plan.queries@.len() == 1,
            asks(
                plan.queries@[0],
                Table::AppStateKeys,
                seq![Column::KeyId, Column::KeyData],
                |row: Seq<Val>|
                    row[pos(Table::AppStateKeys, Column::DeviceId)] == Val::Int(device_id as int),
                Order::Descending(Column::KeyId),
                false,
            ),
    {
        let q = Query {
            table: Table::AppStateKeys,
            want: Want::Columns(vec![Column::KeyId, Column::KeyData]),
            filter: owned_by(device_id),
            order: Order::Descending(Column::KeyId),
            first: false,
        };
        ReadPlan { source: Source::Queue, queries: vec![q] }
    }

    /// Reads the version of a collection.
    pub fn get_app_state_version_for_device(&self, name: &str, device_id: i32) -> (plan: ReadPlan)
        ensures
            plan.source is Reader,
            plan.reads(
                key1(Table::AppStateVersions, device_id as int, Val::Text(name@)),
                seq![Column::StateData],
            ),
    {
        let filter = pin1(Table::AppStateVersions, Column::Name, Value::text(name), device_id);
        let q = row_query(Table::AppStateVersions, one(Column::StateData), filter);
        ReadPlan { source: Source::Reader, queries: vec![q] }
    }

    /// Deletes the version of a collection.
    pub fn delete_app_state_version_for_device(&self, name: &str, device_id: i32) -> (plan:
        WritePlan)
        ensures
            plan.retried_as("delete_app_state_version"@, Guard::Bare),
            plan.sound(),
            plan.always_taken(),
            plan.leaves(
                |db: Db, now: int|
                    db.remove(key1(Table::AppStateVersions, device_id as int, Val::Text(name@))),
            ),
    {
        let filter = pin1(Table::AppStateVersions, Column::Name, Value::text(name), device_id);
        delete_row(Lane::Retried("delete_app_state_version"), Table::AppStateVersions, filter)
    }

    /// Stores the version of a collection in its encoded form.
    pub fn set_app_state_version_for_device(&self, name: &str, data: &[u8], device_id: i32)
        -> (plan: WritePlan)
        ensures
            plan.retried_as("set_app_state_version"@, Guard::Bare),
            plan.sound(),
            plan.always_taken(),
            plan.leaves(
                |db: Db, now: int|
                    db.put(Table::AppStateVersions, version_row(name@, data@, device_id as int)),
            ),
    {
        write_row(
            Lane::Retried("set_app_state_version"),
            Merge::Overwrite,
            Table::AppStateVersions,
            new_version_row(name, data, device_id),
        )
    }

    /// Stores MACs of a collection, all or none of them.
    pub fn put_app_state_mutation_macs_for_device(
        &self,
        name: &str,
        version: u64,
        mutations: &[AppStateMutationMAC],
        device_id: i32,
    ) -> (plan: WritePlan)
        ensures
            plan.retried_as("put_app_state_mutation_macs"@, Guard::Deferred),
            plan.sound(),
            plan.always_taken(),
            mutations@.len() == 0 <==> plan.statements@.len() == 0,
            plan.leaves(
                |db: Db, now: int|
                    db.put_all(
                        Table::AppStateMutationMacs,
                        mac_rows(name@, version, mutations@, device_id as int),
                    ),
            ),
    {
        write_rows(
            "put_app_state_mutation_macs",
            Guard::Deferred,
            Merge::Overwrite,
            Table::AppStateMutationMacs,
            new_mac_rows(name, version, mutations, device_id),
            MAC_INSERT_CHUNK,
        )
    }

    /// Deletes listed MACs of a collection, all or none of them.
    pub fn delete_app_state_mutation_macs_for_device(
        &self,
        name: &str,
        index_macs: &[Vec<u8>],
        device_id: i32,
    ) -> (plan: WritePlan)
        ensures
            plan.retried_as("delete_app_state_mutation_macs"@, Guard::Deferred),
            plan.sound(),
            plan.always_taken(),
            index_macs@.len() == 0 <==> plan.statements@.len() == 0,
            plan.leaves(
                |db: Db, now: int|
                    without_macs(db, device_id as int, name@, blob_values(index_macs@)),
            ),
    {
        WritePlan {
            lane: Lane::Retried("delete_app_state_mutation_macs"),
            guard: Guard::Deferred,
            statements: delete_mac_statements(name, index_macs, device_id),
        }
    }

    /// Commits a patch of a collection: its new version in its encoded form, the MACs that go
    /// and the MACs that come, all together or not at all.
    pub fn commit_app_state_patch_for_device(
        &self,
        name: &str,
        data: &[u8],
        version: u64,
        removed_index_macs: &[Vec<u8>],
        added: &[AppStateMutationMAC],
        device_id: i32,
    ) -> (plan: WritePlan)
        ensures
            plan.retried_as("commit_app_state_patch"@, Guard::Deferred),
            plan.sound(),
            plan.always_taken(),
            plan.leaves(
                |db: Db, now: int|
                    without_macs(
                        db.put(
                            Table::AppStateVersions,
                            version_row(name@, data@, device_id as int),
                        ),
                        device_id as int,
                        name@,
                        blob_values(removed_index_macs@),
                    ).put_all(
                        Table::AppStateMutationMacs,
                        mac_rows(name@, version, added@, device_id as int),
                    ),
            ),
    {
        let ghost d = device_id as int;
        let mut plan = self.set_app_state_version_for_device(name, data, device_id);
        let mut removals = delete_mac_statements(name, removed_index_macs, device_id);
        let rows = new_mac_rows(name, version, added, device_id);
        let ghost r = rows@;
        let mut inserts = upsert_in_chunks(
            Merge::Overwrite,
            Table::AppStateMutationMacs,
            rows,
            MAC_INSERT_CHUNK,
        );
        let ghost a = plan.statements@;
        let ghost b = removals@;
        let ghost c = inserts@;
        let ghost first = plan;
        let mut statements = plan.statements;
        statements.append(&mut removals);
        statements.append(&mut inserts);
        let out = WritePlan {
            lane: Lane::Retried("commit_app_state_patch"),
            guard: Guard::Deferred,
            statements,
        };
        proof {
            assert(out.statements@ =~= a + b + c);
            assert forall|i: int| 0 <= i < out.statements@.len() implies #[trigger] sound(
                out.statements@[i],
            ) by {
                if i < a.len() {
                    assert(sound(a[i]));
                } else if i < a.len() + b.len() {
                    assert(sound(b[i - a.len()]));
                } else {
                    assert(sound(c[i - a.len() - b.len()]));
                }
            }
            assert forall|i: int, db: Db, now: int| 0 <= i < out.statements@.len() implies
            #[trigger] takes(out.statements@[i], db, now) by {
                if i < a.len() {
                    assert(takes(a[i], db, now));
                } else if i < a.len() + b.len() {
                    assert(takes(b[i - a.len()], db, now));
                } else {
                    assert(takes(c[i - a.len() - b.len()], db, now));
                }
            }
            let row = version_row(name@, data@, d);
            assert forall|db: Db, now: int| db.wf() implies #[trigger] out.apply(db, now)
                == without_macs(
                db.put(Table::AppStateVersions, row),
                d,
                name@,
                blob_values(removed_index_macs@),
            ).put_all(Table::AppStateMutationMacs, mac_rows(name@, version, added@, d)) by {
                lemma_apply_concat(a + b, c, db, now);
                lemma_apply_concat(a, b, db, now);
                assert(first.apply(db, now) == db.put(Table::AppStateVersions, row));
                crate::effects::lemma_put_wf(db, Table::AppStateVersions, row);
                let one_done = apply_all(a, db, now);
                let two_done = apply_all(b, one_done, now);
                assert(two_done.wf());
                assert(apply_all(c, two_done, now) == two_done.merge_all(
                    Merge::Overwrite,
                    Table::AppStateMutationMacs,
                    completed_rows(Table::AppStateMutationMacs, r, now),
                ));
                crate::effects::lemma_put_all(
                    two_done,
                    Table::AppStateMutationMacs,
                    mac_rows(name@, version, added@, d),
                );
            }
        }
        out
    }

    /// Reads the value MAC of a mutation.
    pub fn get_app_state_mutation_mac_for_device(
        &self,
        name: &str,
        index_mac: &[u8],
        device_id: i32,
    ) -> (plan: ReadPlan)
        ensures
            plan.source is Reader,
            plan.reads(
                key2(
                    Table::AppStateMutationMacs,
                    device_id as int,
                    Val::Text(name@),
                    Val::Blob(index_mac@),
                ),
                seq![Column::ValueMac],
            ),
    {
        let filter = pin2(
            Table::AppStateMutationMacs,
            Column::Name,
            Value::text(name),
            Column::IndexMac,
            Value::blob(index_mac),
            device_id,
        );
        let q = row_query(Table::AppStateMutationMacs, one(Column::ValueMac), filter);
        ReadPlan { source: Source::Reader, queries: vec![q] }
    }

    /// Reads the value MACs of mutations.
    pub fn get_app_state_mutation_macs_batch_for_device(
        &self,
        name: &str,
        index_macs: &[[u8; 32]],
        device_id: i32,
    ) -> (plan: ReadPlan)
        ensures
            plan.source is Reader,
            asks_for_listed(
                plan.queries@,
                Table::AppStateMutationMacs,
                seq![Column::IndexMac, Column::ValueMac],
                Some((Column::Name, name@)),
                Column::IndexMac,
                array_values(index_macs@),
                MAC_LIST_CHUNK as nat,
                device_id as int,
            ),
    {
        let queries = query_in_chunks(
            Table::AppStateMutationMacs,
            Some((Column::Name, name)),
            vec![Column::IndexMac, Column::ValueMac],
            Column::IndexMac,
            array_list(index_macs),
            device_id,
            MAC_LIST_CHUNK,
        );
        ReadPlan { source: Source::Reader, queries }
    }

    /// Deletes all MACs of a collection.
    pub fn clear_mutation_macs(&self, name: &str) -> (plan: WritePlan)
        ensures
            plan.retried_as("clear_mutation_macs"@, Guard::Bare),
            plan.sound(),
            plan.always_taken(),
            plan.leaves(
                |db: Db, now: int|
                    db.without(
                        |k: Key, row: Seq<Val>|
                            k.table == Table::AppStateMutationMacs && k.device == Val::Int(
                                self.device_id as int,
                            ) && k.a == Val::Text(name@),
                    ),
            ),
    {
        let filter = both(equals(Column::Name, Value::text(name)), owned_by(self.device_id));
        let plan = delete_row(
            Lane::Retried("clear_mutation_macs"),
            Table::AppStateMutationMacs,
            filter,
        );
        proof {
            assert forall|db: Db, now: int| db.wf() implies #[trigger] plan.apply(db, now)
                == db.without(
                |k: Key, row: Seq<Val>|
                    k.table == Table::AppStateMutationMacs && k.device == Val::Int(
                        self.device_id as int,
                    ) && k.a == Val::Text(name@),
            ) by {
                let goal = db.without(
                    |k: Key, row: Seq<Val>|
                        k.table == Table::AppStateMutationMacs && k.device == Val::Int(
                            self.device_id as int,
                        ) && k.a == Val::Text(name@),
                );
                let after = plan.apply(db, now);
                assert forall|k: Key| #[trigger]
                    after.rows.contains_key(k) <==> goal.rows.contains_key(k) by {
                    if db.rows.contains_key(k) {
                        assert(key_of(k.table, db.rows[k]) == k);
                    }
                }
                assert(after.rows =~= goal.rows);
            }
        }
        plan
    }
}

// ---------------------------------------------------------------------------------------
// Answers

/// A stored value as its reader sees it: what it decoded to, and nothing where nothing is
/// stored or what is stored could not be decoded.
pub fn decoded_or_absent<K>(stored: &Option<Vec<u8>>, decoded: Option<K>) -> (value: Option<K>)
    ensures
        value == (if stored is Some {
            decoded
        } else {
            None
        }),
{
    match stored {
        Some(_) => decoded,
        None => None,
    }
}

/// Two blobs in a row.
pub open spec fn is_blob_pair(row: Seq<Val>) -> bool {
    blob_at(row, 0) is Some && blob_at(row, 1) is Some
}

/// The place of the first usable key; the number of keys where none is.
pub open spec fn first_usable(usable: Seq<bool>) -> int
    decreases usable.len(),
{
    if usable.len() == 0 || usable[0] {
        0
    } else {
        1 + first_usable(usable.drop_first())
    }
}

/// What [`first_usable`] is.
proof fn lemma_first_usable(usable: Seq<bool>, i: int)
    requires
        0 <= i <= usable.len(),
        forall|j: int| 0 <= j < i ==> !(#[trigger] usable[j]),
        i < usable.len() ==> usable[i],
    ensures
        first_usable(usable) == i,
    decreases usable.len(),
{
    if i > 0 {
        let rest = usable.drop_first();
        assert forall|j: int| 0 <= j < i - 1 implies !(#[trigger] rest[j]) by {
            assert(!usable[j + 1]);
        }
        lemma_first_usable(rest, i - 1);
    }
}

/// The id of the first key in the rows that can be used, given which can be decoded. Every row
/// is read, whether or not it is the one.
pub fn latest_key_answer(rows: &Rows, usable: &[bool]) -> (r: Result<Option<Vec<u8>>, StoreError>)
    requires
        usable@.len() == rows@.len(),
    ensures
        if forall|i: int|
            0 <= i < rows_view(*rows).len() ==> is_blob_pair(#[trigger] rows_view(*rows)[i]) {
            &&& 0 <= first_usable(usable@) <= rows@.len()
            &&& r matches Ok(v)
            &&& if first_usable(usable@) == rows@.len() {
                v is None
            } else {
                v matches Some(id) && blob_at(rows_view(*rows)[first_usable(usable@)], 0) == Some(
                    id@,
                )
            }
        } else {
            r matches Err(e) && is_mismatch(e)
        },
{
    let ghost all = rows_view(*rows);
    let mut latest: Option<Vec<u8>> = None;
    let mut i: usize = 0;
    while i < rows.len()
        invariant
            i <= rows.len(),
            all == rows_view(*rows),
            usable@.len() == rows@.len(),
            forall|j: int| 0 <= j < i ==> is_blob_pair(#[trigger] all[j]),
            latest is None ==> forall|j: int| 0 <= j < i ==> !(#[trigger] usable@[j]),
            latest matches Some(id) ==> 0 <= first_usable(usable@) < i && blob_at(
                all[first_usable(usable@)],
                0,
            ) == Some(id@),
        decreases rows.len() - i,
    {
        assert(all[i as int] == row_view(rows@[i as int]));
        let id = match read_blob(&rows[i], 0) {
            Ok(v) => v,
            Err(e) => {
                assert(!is_blob_pair(all[i as int]));
                return Err(e);
            },
        };
        match read_blob(&rows[i], 1) {
            Ok(_) => {},
            Err(e) => {
                assert(!is_blob_pair(all[i as int]));
                return Err(e);
            },
        }
        if latest.is_none() && usable[i] {
            proof {
                lemma_first_usable(usable@, i as int);
            }
            latest = Some(id);
        }
        i = i + 1;
    }
    proof {
        if latest is None {
            lemma_first_usable(usable@, i as int);
        }
    }
    Ok(latest)
}

/// The index and value MACs of rows, those with an index MAC of another length left out.
pub open spec fn mac_entries(rows: Seq<Seq<Val>>) -> Seq<(Seq<u8>, Seq<u8>)>
    decreases rows.len(),
{
    if rows.len() == 0 {
        seq![]
    } else {
        let head = mac_entries(rows.drop_last());
        let index = blob_at(rows.last(), 0)->0;
        if index.len() == 32 {
            head.push((index, blob_at(rows.last(), 1)->0))
        } else {
            head
        }
    }
}

/// The contents of pairs.
pub open spec fn pair_views(list: Seq<([u8; 32], Vec<u8>)>) -> Seq<(Seq<u8>, Seq<u8>)> {
    list.map_values(|p: ([u8; 32], Vec<u8>)| (p.0@, p.1@))
}

/// The index and value MACs that came back.
pub fn mac_answer(rows: &Rows) -> (r: Result<Vec<([u8; 32], Vec<u8>)>, StoreError>)
    ensures
        if forall|i: int|
            0 <= i < rows_view(*rows).len() ==> is_blob_pair(#[trigger] rows_view(*rows)[i]) {
            r matches Ok(list) && pair_views(list@) == mac_entries(rows_view(*rows))
        } else {
            r matches Err(e) && is_mismatch(e)
        },
{
    let ghost all = rows_view(*rows);
    let mut list: Vec<([u8; 32], Vec<u8>)> = Vec::new();
    let mut i: usize = 0;
    assert(pair_views(list@) =~= mac_entries(all.take(0)));
    while i < rows.len()
        invariant
            i <= rows.len(),
            all == rows_view(*rows),
            forall|j: int| 0 <= j < i ==> is_blob_pair(#[trigger] all[j]),
            pair_views(list@) == mac_entries(all.take(i as int)),
        decreases rows.len() - i,
    {
        assert(all[i as int] == row_view(rows@[i as int]));
        let index = match read_blob(&rows[i], 0) {
            Ok(v) => v,
            Err(e) => {
                assert(!is_blob_pair(all[i as int]));
                return Err(e);
            },
        };
        let value = match read_blob(&rows[i], 1) {
            Ok(v) => v,
            Err(e) => {
                assert(!is_blob_pair(all[i as int]));
                return Err(e);
            },
        };
        assert(all.take(i + 1).drop_last() =~= all.take(i as int));
        assert(all.take(i + 1).last() == all[i as int]);
        let ghost before = pair_views(list@);
        match array32(index.as_slice()) {
            Some(key) => {
                list.push((key, value));
                assert(pair_views(list@) =~= before.push((key@, value@)));
            },
            None => {},
        }
        i = i + 1;
    }
    assert(all.take(i as int) =~= all);
    Ok(list)
}

// ---------------------------------------------------------------------------------------
// Laws

/// The key that is used is the largest of those that can be used: a larger one that cannot be
/// decoded does not hide it.
pub proof fn law_latest_usable_key_is_the_largest(
    q: Query,
    db: Db,
    out: Seq<Seq<Val>>,
    usable: Seq<bool>,
    device_id: int,
    j: int,
)
    requires
        asks(
            q,
            Table::AppStateKeys,
            seq![Column::KeyId, Column::KeyData],
            |row: Seq<Val>| row[pos(Table::AppStateKeys, Column::DeviceId)] == Val::Int(device_id),
            Order::Descending(Column::KeyId),
            false,
        ),
        answers(q, db, out),
        usable.len() == out.len(),
        first_usable(usable) < out.len(),
        0 <= j < out.len(),
        usable[j],
    ensures
        0 <= first_usable(usable) <= j,
        usable[first_usable(usable)],
        !sorts_below(out[first_usable(usable)][0], out[j][0]),
{
    lemma_first_usable_bound(usable, j);
    let i = first_usable(usable);
    let cs = seq![Column::KeyId, Column::KeyData];
    let f = |k: Key| projected(q.table, cs, db.rows[k]);
    let ks = choose|ks: Seq<Key>| #[trigger] lists(q, db, ks) && out == ks.map_values(f);
    assert(out[i] == f(ks[i]));
    assert(out[j] == f(ks[j]));
    assert(out[i][0] == db.rows[ks[i]][0]);
    assert(out[j][0] == db.rows[ks[j]][0]);
    if i < j {
        assert(!comes_before(q, db.rows[ks[j]], db.rows[ks[i]]));
    } else {
        lemma_not_below_itself(out[i][0]);
    }
}

/// The first usable key is no later than any usable one.
proof fn lemma_first_usable_bound(usable: Seq<bool>, j: int)
    requires
        0 <= j < usable.len(),
        usable[j],
    ensures
        0 <= first_usable(usable) <= j,
        usable[first_usable(usable)],
    decreases usable.len(),
{
    if !usable[0] {
        assert(usable.drop_first()[j - 1] == usable[j]);
        lemma_first_usable_bound(usable.drop_first(), j - 1);
    }
}

/// No byte string sorts before itself.
proof fn lemma_bytes_not_below(b: Seq<u8>)
    ensures
        !bytes_below(b, b),
    decreases b.len(),
{
    if b.len() > 0 {
        lemma_bytes_not_below(b.drop_first());
    }
}

/// No value sorts before itself.
pub proof fn lemma_not_below_itself(v: Val)
    ensures
        !sorts_below(v, v),
{
    match v {
        Val::Text(s) => lemma_bytes_not_below(vstd::utf8::encode_utf8(s)),
        Val::Blob(b) => lemma_bytes_not_below(b),
        _ => {},
    }
}

/// A patch that removes and adds one MAC leaves the added one, under the new version.
pub proof fn law_added_macs_survive_their_removal(
    db: Db,
    device_id: int,
    name: Seq<char>,
    data: Seq<u8>,
    version: u64,
    mac: AppStateMutationMAC,
)
    ensures
        ({
            let after = without_macs(
                db.put(Table::AppStateVersions, version_row(name, data, device_id)),
                device_id,
                name,
                seq![Val::Blob(mac.index_mac@)],
            ).put_all(
                Table::AppStateMutationMacs,
                mac_rows(name, version, seq![mac], device_id),
            );
            &&& after.column(
                key2(
                    Table::AppStateMutationMacs,
                    device_id,
                    Val::Text(name),
                    Val::Blob(mac.index_mac@),
                ),
                Column::ValueMac,
            ) == Some(Val::Blob(mac.value_mac@))
            &&& after.column(
                key1(Table::AppStateVersions, device_id, Val::Text(name)),
                Column::StateData,
            ) == Some(Val::Blob(data))
        }),
{
    let rows = mac_rows(name, version, seq![mac], device_id);
    assert(rows =~= seq![mac_row(name, version, mac, device_id)]);
    reveal_with_fuel(Db::put_all, 2);
    assert(rows.drop_last() =~= seq![]);
    assert(key_of(Table::AppStateMutationMacs, rows.last()) == key2(
        Table::AppStateMutationMacs,
        device_id,
        Val::Text(name),
        Val::Blob(mac.index_mac@),
    ));
}

} // verus!
