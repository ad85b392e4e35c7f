//! Accounts: their rows, how they are created, reset and removed.

use crate::effects::{
    delete, lemma_apply_one, lemma_apply_push, lemma_without_wf, single, write_row,
};
use crate::error::{Fault, StoreError};
use crate::keys::{serialize_keypair, KeyPair};
use crate::merge::Merge;
use crate::model::{
    affected, always_taken, apply, apply_all, device_key, holds, never_refused, takes, Db,
};
use crate::plan::{equals, owned_by, sound, Guard, Lane, WritePlan};
use crate::rows::{first_int, int_at, is_mismatch, rows_view, Rows};
use crate::schema::{
    account_scoped_table_list, account_scoped_tables, columns, key_of, lemma_account_scoped, pos,
    Column, Key, Table,
};
use crate::sql::Statement;
use crate::store::SqliteStore;
use crate::value::{blob_or_null, flag, opt_bytes, opt_text, text_or_null, values, Val, Value};
use vstd::prelude::*;

verus! {

broadcast use {
    crate::model::lemma_takes_all,
    vstd::string::group_string_axioms,
    vstd::seq::group_seq_axioms,
};

/// An account as the store keeps it. The account proof, the certificate chain and the
/// expiration are held in their encoded form, identities in their text form.
#[derive(Debug)]
pub struct DeviceData {
    pub lid: Option<String>,
    pub pn: Option<String>,
    pub registration_id: u32,
    pub noise_key: KeyPair,
    pub identity_key: KeyPair,
    pub signed_pre_key: KeyPair,
    pub signed_pre_key_id: u32,
    pub signed_pre_key_signature: [u8; 64],
    pub adv_secret_key: [u8; 32],
    pub account: Option<Vec<u8>>,
    pub push_name: String,
    pub app_version_primary: u32,
    pub app_version_secondary: u32,
    pub app_version_tertiary: u32,
    pub app_version_last_fetched_ms: i64,
    pub edge_routing_info: Option<Vec<u8>>,
    pub props_hash: Option<String>,
    pub next_pre_key_id: u32,
    pub nct_salt: Option<Vec<u8>>,
    pub server_has_prekeys: bool,
    pub server_cert_chain: Option<Vec<u8>>,
    pub login_counter: i32,
    pub first_unupload_pre_key_id: u32,
    pub lid_migrated: bool,
    pub last_signed_pre_key_rotation_ms: i64,
    pub read_receipts_disabled: bool,
    pub server_client_expiration: Option<String>,
    /// Whether the salt was seen in a sync of this session; not stored.
    pub nct_salt_sync_seen: bool,
}

/// What a [`DeviceData`] stands for.
#[verifier::ext_equal]
pub struct DeviceView {
    pub lid: Option<Seq<char>>,
    pub pn: Option<Seq<char>>,
    pub registration_id: u32,
    pub noise_key: Seq<u8>,
    pub identity_key: Seq<u8>,
    pub signed_pre_key: Seq<u8>,
    pub signed_pre_key_id: u32,
    pub signed_pre_key_signature: Seq<u8>,
    pub adv_secret_key: Seq<u8>,
    pub account: Option<Seq<u8>>,
    pub push_name: Seq<char>,
    pub app_version_primary: u32,
    pub app_version_secondary: u32,
    pub app_version_tertiary: u32,
    pub app_version_last_fetched_ms: i64,
    pub edge_routing_info: Option<Seq<u8>>,
    pub props_hash: Option<Seq<char>>,
    pub next_pre_key_id: u32,
    pub nct_salt: Option<Seq<u8>>,
    pub server_has_prekeys: bool,
    pub server_cert_chain: Option<Seq<u8>>,
    pub login_counter: i32,
    pub first_unupload_pre_key_id: u32,
    pub lid_migrated: bool,
    pub last_signed_pre_key_rotation_ms: i64,
    pub read_receipts_disabled: bool,
    pub server_client_expiration: Option<Seq<char>>,
    pub nct_salt_sync_seen: bool,
}

impl View for DeviceData {
    type V = DeviceView;

    open spec fn view(&self) -> DeviceView {
        DeviceView {
            lid: opt_text(self.lid),
            pn: opt_text(self.pn),
            registration_id: self.registration_id,
            noise_key: self.noise_key@,
            identity_key: self.identity_key@,
            signed_pre_key: self.signed_pre_key@,
            signed_pre_key_id: self.signed_pre_key_id,
            signed_pre_key_signature: self.signed_pre_key_signature@,
            adv_secret_key: self.adv_secret_key@,
            account: opt_bytes(self.account),
            push_name: self.push_name@,
            app_version_primary: self.app_version_primary,
            app_version_secondary: self.app_version_secondary,
            app_version_tertiary: self.app_version_tertiary,
            app_version_last_fetched_ms: self.app_version_last_fetched_ms,
            edge_routing_info: opt_bytes(self.edge_routing_info),
            props_hash: opt_text(self.props_hash),
            next_pre_key_id: self.next_pre_key_id,
            nct_salt: opt_bytes(self.nct_salt),
            server_has_prekeys: self.server_has_prekeys,
            server_cert_chain: opt_bytes(self.server_cert_chain),
            login_counter: self.login_counter,
            first_unupload_pre_key_id: self.first_unupload_pre_key_id,
            lid_migrated: self.lid_migrated,
            last_signed_pre_key_rotation_ms: self.last_signed_pre_key_rotation_ms,
            read_receipts_disabled: self.read_receipts_disabled,
            server_client_expiration: opt_text(self.server_client_expiration),
            nct_salt_sync_seen: self.nct_salt_sync_seen,
        }
    }
}

/// An identity as the row holds it: empty where there is none.
pub open spec fn jid_text(jid: Option<Seq<char>>) -> Seq<char> {
    match jid {
        Some(s) => s,
        None => ""@,
    }
}

/// The columns of an account's row behind its id. Unsigned numbers are stored by their bits.
pub open spec fn account_columns(d: DeviceView) -> Seq<Val> {
    seq![
        Val::Text(jid_text(d.lid)),
        Val::Text(jid_text(d.pn)),
        Val::Int((d.registration_id as i32) as int),
        Val::Blob(d.noise_key),
        Val::Blob(d.identity_key),
        Val::Blob(d.signed_pre_key),
        Val::Int((d.signed_pre_key_id as i32) as int),
        Val::Blob(d.signed_pre_key_signature),
        Val::Blob(d.adv_secret_key),
        blob_or_null(d.account),
        Val::Text(d.push_name),
        Val::Int((d.app_version_primary as i32) as int),
        Val::Int((d.app_version_secondary as i32) as int),
        Val::Int(d.app_version_tertiary as int),
        Val::Int(d.app_version_last_fetched_ms as int),
        blob_or_null(d.edge_routing_info),
        text_or_null(d.props_hash),
        Val::Int((d.next_pre_key_id as i32) as int),
        blob_or_null(d.nct_salt),
        flag(d.server_has_prekeys),
        blob_or_null(d.server_cert_chain),
        Val::Int(d.login_counter as int),
        Val::Int((d.first_unupload_pre_key_id as i32) as int),
        flag(d.lid_migrated),
        Val::Int(d.last_signed_pre_key_rotation_ms as int),
        flag(d.read_receipts_disabled),
        text_or_null(d.server_client_expiration),
    ]
}

/// The row of an account.
pub open spec fn account_row(id: int, d: DeviceView) -> Seq<Val> {
    seq![Val::Int(id)] + account_columns(d)
}

/// A new, unpaired account: of a generated one, what is known before pairing stays.
pub open spec fn unpaired(d: DeviceView) -> DeviceView {
    DeviceView {
        lid: None,
        pn: None,
        account: None,
        edge_routing_info: None,
        props_hash: None,
        nct_salt: None,
        server_cert_chain: None,
        login_counter: 0,
        lid_migrated: false,
        read_receipts_disabled: false,
        server_client_expiration: None,
        ..d
    }
}

/// An identity as the row holds it.
fn jid_value(jid: &Option<String>) -> (v: Value)
    ensures
        v@ == Val::Text(jid_text(opt_text(*jid))),
{
    match jid {
        Some(s) => Value::Text(s.clone()),
        None => Value::text(""),
    }
}

/// A number by its bits, as a signed column holds it.
fn bits(n: u32) -> (v: Value)
    ensures
        v@ == Val::Int((n as i32) as int),
{
    Value::Int((n as i32) as i64)
}

/// The columns of an account's row behind its id.
fn push_account_columns(row: &mut Vec<Value>, d: &DeviceData)
    ensures
        values(final(row)@) == values(old(row)@) + account_columns(d@),
        final(row)@.len() == old(row)@.len() + 27,
{
    let ghost before = values(row@);
    row.push(jid_value(&d.lid));
    row.push(jid_value(&d.pn));
    row.push(bits(d.registration_id));
    row.push(Value::Blob(serialize_keypair(&d.noise_key)));
    row.push(Value::Blob(serialize_keypair(&d.identity_key)));
    row.push(Value::Blob(serialize_keypair(&d.signed_pre_key)));
    row.push(bits(d.signed_pre_key_id));
    row.push(Value::blob(&d.signed_pre_key_signature));
    row.push(Value::blob(&d.adv_secret_key));
    row.push(Value::blob_or_null(&d.account));
    row.push(Value::text(&d.push_name));
    row.push(bits(d.app_version_primary));
    row.push(bits(d.app_version_secondary));
    row.push(Value::Int(d.app_version_tertiary as i64));
    row.push(Value::Int(d.app_version_last_fetched_ms));
    row.push(Value::blob_or_null(&d.edge_routing_info));
    row.push(Value::text_or_null(&d.props_hash));
    row.push(bits(d.next_pre_key_id));
    row.push(Value::blob_or_null(&d.nct_salt));
    row.push(Value::flag(d.server_has_prekeys));
    row.push(Value::blob_or_null(&d.server_cert_chain));
    row.push(Value::Int(d.login_counter as i64));
    row.push(bits(d.first_unupload_pre_key_id));
    row.push(Value::flag(d.lid_migrated));
    row.push(Value::Int(d.last_signed_pre_key_rotation_ms));
    row.push(Value::flag(d.read_receipts_disabled));
    row.push(Value::text_or_null(&d.server_client_expiration));
    assert(values(row@) =~= before + account_columns(d@));
}

/// The columns of a new account's row behind its id.
fn push_unpaired_columns(row: &mut Vec<Value>, d: &DeviceData)
    ensures
        values(final(row)@) == values(old(row)@) + account_columns(unpaired(d@)),
        final(row)@.len() == old(row)@.len() + 27,
{
    let ghost before = values(row@);
    row.push(Value::text(""));
    row.push(Value::text(""));
    row.push(bits(d.registration_id));
    row.push(Value::Blob(serialize_keypair(&d.noise_key)));
    row.push(Value::Blob(serialize_keypair(&d.identity_key)));
    row.push(Value::Blob(serialize_keypair(&d.signed_pre_key)));
    row.push(bits(d.signed_pre_key_id));
    row.push(Value::blob(&d.signed_pre_key_signature));
    row.push(Value::blob(&d.adv_secret_key));
    row.push(Value::Null);
    row.push(Value::text(&d.push_name));
    row.push(bits(d.app_version_primary));
    row.push(bits(d.app_version_secondary));
    row.push(Value::Int(d.app_version_tertiary as i64));
    row.push(Value::Int(d.app_version_last_fetched_ms));
    row.push(Value::Null);
    row.push(Value::Null);
    row.push(bits(d.next_pre_key_id));
    row.push(Value::Null);
    row.push(Value::flag(d.server_has_prekeys));
    row.push(Value::Null);
    row.push(Value::Int(0));
    row.push(bits(d.first_unupload_pre_key_id));
    row.push(Value::Int(0));
    row.push(Value::Int(d.last_signed_pre_key_rotation_ms));
    row.push(Value::Int(0));
    row.push(Value::Null);
    assert(values(row@) =~= before + account_columns(unpaired(d@)));
}

/// The row of a new account under an id.
fn unpaired_row(id: i32, d: &DeviceData) -> (row: Vec<Value>)
    ensures
        values(row@) == account_row(id as int, unpaired(d@)),
        row@.len() == 28,
{
    let mut row: Vec<Value> = vec![Value::Int(id as i64)];
    assert(values(row@) =~= seq![Val::Int(id as int)]);
    push_unpaired_columns(&mut row, d);
    row
}

// ---------------------------------------------------------------------------------------
// Saving and creating

impl SqliteStore {
    /// Stores an account, over whatever is stored under its id.
    pub fn save_device_data_for_device(&self, device_id: i32, device_data: &DeviceData) -> (plan:
        WritePlan)
        ensures
            plan.retried_as("save_device_data"@, Guard::Bare),
            plan.sound(),
            plan.always_taken(),
            plan.leaves(
                |db: Db, now: int|
                    db.put(Table::Device, account_row(device_id as int, device_data@)),
            ),
    {
        let mut row: Vec<Value> = vec![Value::Int(device_id as i64)];
        assert(values(row@) =~= seq![Val::Int(device_id as int)]);
        push_account_columns(&mut row, device_data);
        write_row(Lane::Retried("save_device_data"), Merge::Overwrite, Table::Device, row)
    }

    /// Creates the handle's own account from a generated one. The account must not exist yet.
    /// The id of the new account is the handle's.
    pub fn create_new_device(&self, generated: &DeviceData) -> (created: (WritePlan, i32))
        ensures
            created.0.retried_as("create_new_device"@, Guard::Bare),
            created.0.sound(),
            created.0.leaves(
                |db: Db, now: int|
                    if db.rows.contains_key(device_key(self.device_id as int)) {
                        db
                    } else {
                        db.put(
                            Table::Device,
                            account_row(self.device_id as int, unpaired(generated@)),
                        )
                    },
            ),
            created.0.statements@.len() == 1,
            forall|db: Db, now: int| #[trigger]
                takes(created.0.statements@[0], db, now) <==> !db.rows.contains_key(
                    device_key(self.device_id as int),
                ),
            created.1 == self.device_id,
    {
        let row = unpaired_row(self.device_id, generated);
        let s = Statement::Insert { table: Table::Device, row };
        (single(Lane::Retried("create_new_device"), s), self.device_id)
    }

    /// Creates another account in the database and lets the database choose its id, which is
    /// then the last inserted row id of the connection. One transaction holds both.
    pub fn create_sibling_device(&self, generated: &DeviceData) -> (plan: WritePlan)
        ensures
            plan.retried_as("create_sibling_device"@, Guard::Immediate),
            plan.sound(),
            plan.always_taken(),
            plan.leaves(
                |db: Db, now: int|
                    db.put(Table::Device, account_row(db.last_id + 1, unpaired(generated@))),
            ),
    {
        let mut row: Vec<Value> = Vec::new();
        assert(values(row@) =~= seq![]);
        push_unpaired_columns(&mut row, generated);
        assert(values(row@) =~= account_columns(unpaired(generated@)));
        let s = Statement::InsertNumbered { row };
        let mut plan = single(Lane::Retried("create_sibling_device"), s);
        plan.guard = Guard::Immediate;
        proof {
            assert forall|db: Db, now: int| db.wf() implies #[trigger] plan.apply(db, now)
                == db.put(Table::Device, account_row(db.last_id + 1, unpaired(generated@))) by {
                lemma_apply_one(s, db, now);
            }
        }
        plan
    }
}

/// The query for the id that the database chose last on a connection.
pub fn last_insert_rowid() -> (sql: &'static str)
    ensures
        sql@ == "SELECT last_insert_rowid()"@,
{
    "SELECT last_insert_rowid()"
}

/// The id of an account that was just created.
pub fn sibling_id(rows: &Rows) -> (r: Result<i32, StoreError>)
    ensures
        if rows_view(*rows).len() > 0 && int_at(rows_view(*rows)[0], 0) is Some {
            r matches Ok(id) && id == (int_at(rows_view(*rows)[0], 0)->0) as i32
        } else {
            r matches Err(e) && is_mismatch(e)
        },
{
    match first_int(rows) {
        Ok(n) => Ok(n as i32),
        Err(e) => Err(e),
    }
}

// ---------------------------------------------------------------------------------------
// Resetting and removing

/// The end of an account: the deletion of its row, and what follows in the same transaction
/// where that deletion found the row.
#[derive(Debug)]
pub struct Teardown {
    pub lane: Lane,
    pub guard: Guard,
    /// The account.
    pub device_id: i32,
    /// Deletes the account's row.
    pub delete: Statement,
    /// What follows.
    pub rest: Vec<Statement>,
}

/// The database without anything of an account.
pub open spec fn without_account(db: Db, id: int) -> Db {
    db.without(|k: Key, row: Seq<Val>| k.device == Val::Int(id))
}

/// The statement that deletes an account's row.
pub open spec fn deletes_account(s: Statement, id: int) -> bool {
    &&& sound(s)
    &&& never_refused(s)
    &&& forall|db: Db, now: int|
        db.wf() ==> #[trigger] apply(s, db, now) == db.without(
            |k: Key, row: Seq<Val>|
                k.device == Val::Int(id) && (k.table == Table::Device || (k.table
                    == Table::LidPnMapping && db.rows.contains_key(device_key(id)))),
        )
    &&& forall|db: Db|
        db.wf() ==> #[trigger] affected(s, db) == (if db.rows.contains_key(device_key(id)) {
            1nat
        } else {
            0nat
        })
}

/// A row of account state belongs to the account in its key.
proof fn lemma_owner(t: Table, row: Seq<Val>)
    requires
        t != Table::Device,
    ensures
        pos(t, Column::DeviceId) >= 0,
        row[pos(t, Column::DeviceId)] == key_of(t, row).device,
{
}

/// The deletion of an account's row.
fn delete_account_row(device_id: i32) -> (s: Statement)
    ensures
        deletes_account(s, device_id as int),
{
    let filter = equals(Column::Id, Value::Int(device_id as i64));
    let s = Statement::Delete { table: Table::Device, filter };
    proof {
        let id = device_id as int;
        assert forall|db: Db, now: int| db.wf() implies #[trigger] apply(s, db, now) == db.without(
            |k: Key, row: Seq<Val>|
                k.device == Val::Int(id) && (k.table == Table::Device || (k.table
                    == Table::LidPnMapping && db.rows.contains_key(device_key(id)))),
        ) by {
            let goal = db.without(
                |k: Key, row: Seq<Val>|
                    k.device == Val::Int(id) && (k.table == Table::Device || (k.table
                        == Table::LidPnMapping && db.rows.contains_key(device_key(id)))),
            );
            assert forall|k: Key| #[trigger]
                apply(s, db, now).rows.contains_key(k) <==> goal.rows.contains_key(k) by {
                if db.rows.contains_key(k) {
                    assert(key_of(k.table, db.rows[k]) == k);
                    let owner = Key {
                        table: Table::Device,
                        device: k.device,
                        a: Val::Null,
                        b: Val::Null,
                        c: Val::Null,
                    };
                    if db.rows.contains_key(owner) {
                        assert(key_of(owner.table, db.rows[owner]) == owner);
                    }
                }
            }
            assert(apply(s, db, now).rows =~= goal.rows);
        }
        assert forall|db: Db| db.wf() implies #[trigger] affected(s, db) == (
        if db.rows.contains_key(device_key(id)) {
            1nat
        } else {
            0nat
        }) by {
            let hit = db.matching(Table::Device, |row: Seq<Val>| holds(filter, Table::Device, row));
            assert forall|k: Key| #[trigger] hit.contains(k) <==> (db.rows.contains_key(
                device_key(id),
            ) && k == device_key(id)) by {
                if db.rows.contains_key(k) {
                    assert(key_of(k.table, db.rows[k]) == k);
                }
            }
            if db.rows.contains_key(device_key(id)) {
                assert(hit =~= set![device_key(id)]);
            } else {
                assert(hit =~= Set::empty());
            }
        }
    }
    s
}

/// The statements that delete all state of an account, table by table.
fn purge_account_state(device_id: i32) -> (list: Vec<Statement>)
    ensures
        forall|i: int| 0 <= i < list@.len() ==> sound(#[trigger] list@[i]),
        always_taken(list@),
        forall|db: Db, now: int|
            db.wf() ==> #[trigger] apply_all(list@, db, now) == db.without(
                |k: Key, row: Seq<Val>|
                    k.table != Table::Device && k.device == Val::Int(device_id as int),
            ) && apply_all(list@, db, now).wf(),
{
    let tables = account_scoped_table_list();
    let ghost id = device_id as int;
    let mut list: Vec<Statement> = Vec::new();
    let mut i: usize = 0;
    proof {
        assert forall|db: Db, now: int| db.wf() implies #[trigger] apply_all(list@, db, now)
            == db.without(
            |k: Key, row: Seq<Val>| tables@.take(0).contains(k.table) && k.device == Val::Int(id),
        ) && apply_all(list@, db, now).wf() by {
            assert(db =~= db.without(
                |k: Key, row: Seq<Val>|
                    tables@.take(0).contains(k.table) && k.device == Val::Int(id),
            ));
        }
    }
    while i < tables.len()
        invariant
            i <= tables@.len(),
            id == device_id,
            tables@ == account_scoped_tables(),
            forall|j: int| 0 <= j < list@.len() ==> sound(#[trigger] list@[j]),
            forall|j: int| 0 <= j < list@.len() ==> (#[trigger] list@[j]) is Delete,
            forall|db: Db, now: int|
                db.wf() ==> #[trigger] apply_all(list@, db, now) == db.without(
                    |k: Key, row: Seq<Val>|
                        tables@.take(i as int).contains(k.table) && k.device == Val::Int(id),
                ) && apply_all(list@, db, now).wf(),
        decreases tables.len() - i,
    {
        let t = tables[i];
        proof {
            lemma_account_scoped(t);
            assert(account_scoped_tables()[i as int] == t);
            assert(account_scoped_tables().contains(t));
            lemma_owner(t, columns(t).map_values(|c: Column| Val::Null));
        }
        let filter = owned_by(device_id);
        let s = delete(t, filter);
        let ghost before = list@;
        list.push(s);
        proof {
            let done = tables@.take(i as int);
            let next = tables@.take(i + 1);
            assert(next =~= done.push(t));
            assert forall|x: Table| #[trigger] next.contains(x) <==> done.contains(x) || x == t by {
                crate::effects::lemma_concat_contains(done, seq![t], x);
                assert(done + seq![t] =~= next);
                assert(seq![t].contains(x) <==> x == t) by {
                    assert(seq![t][0] == t);
                }
            }
            assert forall|db: Db, now: int| db.wf() implies #[trigger] apply_all(list@, db, now)
                == db.without(
                |k: Key, row: Seq<Val>| next.contains(k.table) && k.device == Val::Int(id),
            ) && apply_all(list@, db, now).wf() by {
                lemma_apply_push(before, s, db, now);
                let mid = apply_all(before, db, now);
                assert(mid.wf());
                let after = apply(s, mid, now);
                let goal = db.without(
                    |k: Key, row: Seq<Val>| next.contains(k.table) && k.device == Val::Int(id),
                );
                assert forall|k: Key| #[trigger]
                    after.rows.contains_key(k) <==> goal.rows.contains_key(k) by {
                    if db.rows.contains_key(k) {
                        assert(key_of(k.table, db.rows[k]) == k);
                        if k.table != Table::Device {
                            lemma_owner(k.table, db.rows[k]);
                        }
                    }
                }
                assert(after.rows =~= goal.rows);
            }
        }
        i = i + 1;
    }
    proof {
        assert(tables@.take(i as int) =~= tables@);
        assert forall|db: Db, now: int| db.wf() implies #[trigger] apply_all(list@, db, now)
            == db.without(
            |k: Key, row: Seq<Val>| k.table != Table::Device && k.device == Val::Int(id),
        ) && apply_all(list@, db, now).wf() by {
            let goal = db.without(
                |k: Key, row: Seq<Val>| k.table != Table::Device && k.device == Val::Int(id),
            );
            let after = apply_all(list@, db, now);
            assert forall|k: Key| #[trigger]
                after.rows.contains_key(k) <==> goal.rows.contains_key(k) by {
                lemma_account_scoped(k.table);
            }
            assert(after.rows =~= goal.rows);
        }
    }
    list
}

impl Teardown {
    /// What the database holds once the account's row was found and the rest has run.
    pub open spec fn apply(self, db: Db, now: int) -> Db {
        apply_all(self.rest@, apply(self.delete, db, now), now)
    }

    /// Every statement is well formed and within the parameter limit.
    pub open spec fn sound(self) -> bool {
        &&& deletes_account(self.delete, self.device_id as int)
        &&& forall|i: int| 0 <= i < self.rest@.len() ==> sound(#[trigger] self.rest@[i])
    }

    /// Goes on after the deletion of the account's row, given how many rows it deleted: with
    /// none, there is no such account, and the transaction is to be rolled back.
    pub fn proceed(self, deleted: usize) -> (rest: Result<Vec<Statement>, Fault>)
        ensures
            deleted == 0 ==> (rest matches Err(f) && f is NotFound),
            deleted != 0 ==> rest == Ok::<Vec<Statement>, Fault>(self.rest),
    {
        if deleted == 0 {
            Err(Fault::NotFound)
        } else {
            Ok(self.rest)
        }
    }
}

/// Deleting the account's row and purging its state leaves nothing of it.
proof fn lemma_purged(db: Db, s: Statement, id: int, purge: Seq<Statement>, now: int)
    requires
        db.wf(),
        deletes_account(s, id),
        forall|db: Db, now: int|
            db.wf() ==> #[trigger] apply_all(purge, db, now) == db.without(
                |k: Key, row: Seq<Val>| k.table != Table::Device && k.device == Val::Int(id),
            ),
    ensures
        apply_all(purge, apply(s, db, now), now) == without_account(db, id),
        without_account(db, id).wf(),
{
    let gone = |k: Key, row: Seq<Val>|
        k.device == Val::Int(id) && (k.table == Table::Device || (k.table == Table::LidPnMapping
            && db.rows.contains_key(device_key(id))));
    let mid = apply(s, db, now);
    assert(mid == db.without(gone));
    lemma_without_wf(db, gone);
    let after = apply_all(purge, mid, now);
    let goal = without_account(db, id);
    assert(after.rows =~= goal.rows);
    lemma_without_wf(db, |k: Key, row: Seq<Val>| k.device == Val::Int(id));
}

impl SqliteStore {
    /// Wipes an account and starts it over under its id: its state and its row go, and a new,
    /// unpaired row comes back.
    pub fn reset_device(&self, device_id: i32, generated: &DeviceData) -> (end: Teardown)
        ensures
            end.device_id == device_id,
            end.guard == Guard::Immediate,
            end.lane matches Lane::Retried(name) && name@ == "reset_device"@,
            end.sound(),
            forall|db: Db, now: int|
                db.wf() ==> #[trigger] end.apply(db, now) == without_account(
                    db,
                    device_id as int,
                ).put(Table::Device, account_row(device_id as int, unpaired(generated@))),
            end.rest@.len() > 0,
            always_taken(end.rest@.drop_last()),
            forall|db: Db, now: int| #[trigger]
                takes(end.rest@.last(), without_account(db, device_id as int), now),
    {
        let delete = delete_account_row(device_id);
        let mut rest = purge_account_state(device_id);
        let row = unpaired_row(device_id, generated);
        let s = Statement::Insert { table: Table::Device, row };
        let ghost purge = rest@;
        rest.push(s);
        let end = Teardown {
            lane: Lane::Retried("reset_device"),
            guard: Guard::Immediate,
            device_id,
            delete,
            rest,
        };
        proof {
            assert forall|db: Db, now: int| db.wf() implies #[trigger] end.apply(db, now)
                == without_account(db, device_id as int).put(
                Table::Device,
                account_row(device_id as int, unpaired(generated@)),
            ) by {
                lemma_purged(db, delete, device_id as int, purge, now);
                lemma_apply_push(purge, s, apply(delete, db, now), now);
            }
        }
        end
    }

    /// Removes an account: its state and its row go for good.
    pub fn remove_device(&self, device_id: i32) -> (end: Teardown)
        ensures
            end.device_id == device_id,
            end.guard == Guard::Immediate,
            end.lane matches Lane::Retried(name) && name@ == "remove_device"@,
            end.sound(),
            forall|db: Db, now: int|
                db.wf() ==> #[trigger] end.apply(db, now) == without_account(db, device_id as int),
            always_taken(end.rest@),
    {
        let delete = delete_account_row(device_id);
        let rest = purge_account_state(device_id);
        let end = Teardown {
            lane: Lane::Retried("remove_device"),
            guard: Guard::Immediate,
            device_id,
            delete,
            rest,
        };
        proof {
            assert forall|db: Db, now: int| db.wf() implies #[trigger] end.apply(db, now)
                == without_account(db, device_id as int) by {
                lemma_purged(db, delete, device_id as int, rest@, now);
            }
        }
        end
    }
}

} // verus!
