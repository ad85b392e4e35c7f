//! The operations of a handle on its own account.

use crate::app_state::{
    array_values, blob_values, mac_rows, sync_key_row, version_row, without_macs,
    AppStateMutationMAC, MAC_LIST_CHUNK,
};
use crate::device::{account_row, unpaired, DeviceData};
use crate::effects::{asks, asks_for_listed, key1, key2, reads_row};
use crate::model::{device_key, takes, Db};
use crate::plan::{query_sound, Guard, ReadPlan, WritePlan};
use crate::schema::{columns, pos, Column, Key, Table};
use crate::signal::record;
use crate::sql::Order;
use crate::store::SqliteStore;
use crate::value::Val;
use vstd::prelude::*;

verus! {

impl SqliteStore {
    /// Stores the identity key of an address.
    pub fn put_identity(&self, address: &str, key: [u8; 32]) -> (plan: WritePlan)
        ensures
            plan.retried_as("identity_write"@, Guard::Bare),
            plan.sound(),
            plan.always_taken(),
            plan.leaves(
                |db: Db, now: int|
                    db.put(Table::Identities, record(address@, key@, self.device_id as int)),
            ),
    {
        self.put_identity_for_device(address, key, self.device_id)
    }

    /// Reads the identity key of an address, whatever its length.
    pub fn load_identity(&self, address: &str) -> (plan: ReadPlan)
        ensures
            plan.source is Reader,
            plan.reads(
                key1(Table::Identities, self.device_id as int, Val::Text(address@)),
                seq![Column::Key],
            ),
    {
        self.load_identity_for_device(address, self.device_id)
    }

    /// Deletes the identity key of an address.
    pub fn delete_identity(&self, address: &str) -> (plan: WritePlan)
        ensures
            plan.once(),
            plan.sound(),
            plan.always_taken(),
            plan.leaves(
                |db: Db, now: int|
                    db.remove(key1(Table::Identities, self.device_id as int, Val::Text(address@))),
            ),
    {
        self.delete_identity_for_device(address, self.device_id)
    }

    /// Reads the session with an address.
    pub fn get_session(&self, address: &str) -> (plan: ReadPlan)
        ensures
            plan.source is Reader,
            plan.reads(
                key1(Table::Sessions, self.device_id as int, Val::Text(address@)),
                seq![Column::Record],
            ),
    {
        self.get_session_for_device(address, self.device_id)
    }

    /// Stores the session with an address.
    pub fn put_session(&self, address: &str, session: &[u8]) -> (plan: WritePlan)
        ensures
            plan.retried_as("session_write"@, Guard::Bare),
            plan.sound(),
            plan.always_taken(),
            plan.leaves(
                |db: Db, now: int|
                    db.put(Table::Sessions, record(address@, session@, self.device_id as int)),
            ),
    {
        self.put_session_for_device(address, session, self.device_id)
    }

    /// Deletes the session with an address.
    pub fn delete_session(&self, address: &str) -> (plan: WritePlan)
        ensures
            plan.once(),
            plan.sound(),
            plan.always_taken(),
            plan.leaves(
                |db: Db, now: int|
                    db.remove(key1(Table::Sessions, self.device_id as int, Val::Text(address@))),
            ),
    {
        self.delete_session_for_device(address, self.device_id)
    }

    /// Stores the sender key of an address.
    pub fn put_sender_key(&self, address: &str, record_bytes: &[u8]) -> (plan: WritePlan)
        ensures
            plan.once(),
            plan.sound(),
            plan.always_taken(),
            plan.leaves(
                |db: Db, now: int|
                    db.put(Table::SenderKeys, record(address@, record_bytes@, self.device_id as int)),
            ),
    {
        self.put_sender_key_for_device(address, record_bytes, self.device_id)
    }

    /// Reads the sender key of an address.
    pub fn get_sender_key(&self, address: &str) -> (plan: ReadPlan)
        ensures
            plan.source is Reader,
            plan.reads(
                key1(Table::SenderKeys, self.device_id as int, Val::Text(address@)),
                seq![Column::Record],
            ),
    {
        self.get_sender_key_for_device(address, self.device_id)
    }

    /// Deletes the sender key of an address.
    pub fn delete_sender_key(&self, address: &str) -> (plan: WritePlan)
        ensures
            plan.once(),
            plan.sound(),
            plan.always_taken(),
            plan.leaves(
                |db: Db, now: int|
                    db.remove(key1(Table::SenderKeys, self.device_id as int, Val::Text(address@))),
            ),
    {
        self.delete_sender_key_for_device(address, self.device_id)
    }

    /// Reads a sync key. A missing key is reported to a peer, so the read waits behind the
    /// writes before it.
    pub fn get_sync_key(&self, key_id: &[u8]) -> (plan: ReadPlan)
        ensures
            plan.source is Queue,
            plan.reads(
                key1(Table::AppStateKeys, self.device_id as int, Val::Blob(key_id@)),
                seq![Column::KeyData],
            ),
    {
        self.get_app_state_sync_key_for_device(key_id, self.device_id)
    }

    /// Stores a sync key in its encoded form.
    pub fn set_sync_key(&self, key_id: &[u8], data: &[u8]) -> (plan: WritePlan)
        ensures
            plan.once(),
            plan.sound(),
            plan.always_taken(),
            plan.leaves(
                |db: Db, now: int|
                    db.put(Table::AppStateKeys, sync_key_row(key_id@, data@, self.device_id as int)),
            ),
    {
        self.set_app_state_sync_key_for_device(key_id, data, self.device_id)
    }

    /// Reads all sync keys of an account, the largest id first. A missing key fails what the
    /// user asked for, so the read waits behind the writes before it.
    pub fn get_latest_sync_key_id(&self) -> (plan: ReadPlan)
        ensures
            plan.source is Queue,
            plan.queries@.len() == 1,
            asks(
                plan.queries@[0],
                Table::AppStateKeys,
                seq![Column::KeyId, Column::KeyData],
                |row: Seq<Val>|
                    row[pos(Table::AppStateKeys, Column::DeviceId)] == Val::Int(self.device_id as int),
                Order::Descending(Column::KeyId),
                false,
            ),
    {
        self.get_latest_app_state_sync_key_id_for_device(self.device_id)
    }

    /// Reads the version of a collection.
    pub fn get_version(&self, name: &str) -> (plan: ReadPlan)
        ensures
            plan.source is Reader,
            plan.reads(
                key1(Table::AppStateVersions, self.device_id as int, Val::Text(name@)),
                seq![Column::StateData],
            ),
    {
        self.get_app_state_version_for_device(name, self.device_id)
    }

    /// Stores the version of a collection in its encoded form.
    pub fn set_version(&self, name: &str, data: &[u8]) -> (plan: WritePlan)
        ensures
            plan.retried_as("set_app_state_version"@, Guard::Bare),
            plan.sound(),
            plan.always_taken(),
            plan.leaves(
                |db: Db, now: int|
                    db.put(Table::AppStateVersions, version_row(name@, data@, self.device_id as int)),
            ),
    {
        self.set_app_state_version_for_device(name, data, self.device_id)
    }

    /// Deletes the version of a collection.
    pub fn delete_version(&self, name: &str) -> (plan: WritePlan)
        ensures
            plan.retried_as("delete_app_state_version"@, Guard::Bare),
            plan.sound(),
            plan.always_taken(),
            plan.leaves(
                |db: Db, now: int|
                    db.remove(key1(Table::AppStateVersions, self.device_id as int, Val::Text(name@))),
            ),
    {
        self.delete_app_state_version_for_device(name, self.device_id)
    }

    /// Stores MACs of a collection, all or none of them.
    pub fn put_mutation_macs(
        &self,
        name: &str,
        version: u64,
        mutations: &[AppStateMutationMAC],
    ) -> (plan: WritePlan)
        ensures
            plan.retried_as("put_app_state_mutation_macs"@, Guard::Deferred),
            plan.sound(),
            plan.always_taken(),
            mutations@.len() == 0 <==> plan.statements@.len() == 0,
            plan.leaves(
                |db: Db, now: int|
                    db.put_all(
                        Table::AppStateMutationMacs,
                        mac_rows(name@, version, mutations@, self.device_id as int),
                    ),
            ),
    {
        self.put_app_state_mutation_macs_for_device(name, version, mutations, self.device_id)
    }

    /// Deletes listed MACs of a collection, all or none of them.
    pub fn delete_mutation_macs(&self, name: &str, index_macs: &[Vec<u8>]) -> (plan: WritePlan)
        ensures
            plan.retried_as("delete_app_state_mutation_macs"@, Guard::Deferred),
            plan.sound(),
            plan.always_taken(),
            index_macs@.len() == 0 <==> plan.statements@.len() == 0,
            plan.leaves(
                |db: Db, now: int|
                    without_macs(db, self.device_id as int, name@, blob_values(index_macs@)),
            ),
    {
        self.delete_app_state_mutation_macs_for_device(name, index_macs, self.device_id)
    }

    /// Commits a patch of a collection: its new version in its encoded form, the MACs that go
    /// and the MACs that come, all together or not at all.
    pub fn commit_patch(
        &self,
        name: &str,
        data: &[u8],
        version: u64,
        removed_index_macs: &[Vec<u8>],
        added: &[AppStateMutationMAC],
    ) -> (plan: WritePlan)
        ensures
            plan.retried_as("commit_app_state_patch"@, Guard::Deferred),
            plan.sound(),
            plan.always_taken(),
            plan.leaves(
                |db: Db, now: int|
                    without_macs(
                        db.put(
                            Table::AppStateVersions,
                            version_row(name@, data@, self.device_id as int),
                        ),
                        self.device_id as int,
                        name@,
                        blob_values(removed_index_macs@),
                    ).put_all(
                        Table::AppStateMutationMacs,
                        mac_rows(name@, version, added@, self.device_id as int),
                    ),
            ),
    {
        self.commit_app_state_patch_for_device(
            name,
            data,
            version,
            removed_index_macs,
            added,
            self.device_id,
        )
    }

    /// Reads the value MAC of a mutation.
    pub fn get_mutation_mac(&self, name: &str, index_mac: &[u8]) -> (plan: ReadPlan)
        ensures
            plan.source is Reader,
            plan.reads(
                key2(
                    Table::AppStateMutationMacs,
                    self.device_id as int,
                    Val::Text(name@),
                    Val::Blob(index_mac@),
                ),
                seq![Column::ValueMac],
            ),
    {
        self.get_app_state_mutation_mac_for_device(name, index_mac, self.device_id)
    }

    /// Reads the value MACs of mutations.
    pub fn get_mutation_macs(&self, name: &str, index_macs: &[[u8; 32]]) -> (plan: ReadPlan)
        ensures
            plan.source is Reader,
            asks_for_listed(
                plan.queries@,
                Table::AppStateMutationMacs,
                seq![Column::IndexMac, Column::ValueMac],
                Some((Column::Name, name@)),
                Column::IndexMac,
                array_values(index_macs@),
                MAC_LIST_CHUNK as nat,
                self.device_id as int,
            ),
    {
        self.get_app_state_mutation_macs_batch_for_device(name, index_macs, self.device_id)
    }

    /// Stores an account, over whatever is stored under its id.
    pub fn save(&self, device_data: &DeviceData) -> (plan: WritePlan)
        ensures
            plan.retried_as("save_device_data"@, Guard::Bare),
            plan.sound(),
            plan.always_taken(),
            plan.leaves(
                |db: Db, now: int|
                    db.put(Table::Device, account_row(self.device_id as int, device_data@)),
            ),
    {
        self.save_device_data_for_device(self.device_id, device_data)
    }

    /// Reads the row of an account, all columns.
    pub fn load(&self) -> (plan: ReadPlan)
        ensures
            plan.source is Reader,
            plan.queries@.len() == 1,
            query_sound(plan.queries@[0]),
            reads_row(plan.queries@[0], device_key(self.device_id as int), columns(Table::Device)),
    {
        self.load_device_data_for_device(self.device_id)
    }

    /// Creates the handle's own account from a generated one. The account must not exist yet.
    /// The id of the new account is the handle's.
    pub fn create(&self, generated: &DeviceData) -> (created: (WritePlan, i32))
        ensures
            created.0.retried_as("create_new_device"@, Guard::Bare),
            created.0.sound(),
            created.0.leaves(
                |db: Db, now: int|
                    if db.rows.contains_key(device_key(self.device_id as int)) {
                        db
                    } else {
                        db.put(
                            Table::Device,
                            account_row(self.device_id as int, unpaired(generated@)),
                        )
                    },
            ),
            created.0.statements@.len() == 1,
            forall|db: Db, now: int| #[trigger]
                takes(created.0.statements@[0], db, now) <==> !db.rows.contains_key(
                    device_key(self.device_id as int),
                ),
            created.1 == self.device_id,
    {
        self.create_new_device(generated)
    }
}

} // verus!
