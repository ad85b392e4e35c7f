//! The plans of the store, run on a SQLite database in memory.

use diesel::connection::SimpleConnection;
use diesel::deserialize::{self, QueryableByName};
use diesel::result::Error as DieselError;
use diesel::row::{Field, NamedRow, Row};
use diesel::sql_types::{BigInt, Binary, Bool, Nullable, Text};
use diesel::sqlite::{Sqlite, SqliteConnection, SqliteType};
use diesel::{Connection, RunQueryDsl};
use sqlite_storage::app_state::{
    decoded_or_absent, latest_key_answer, mac_answer, AppStateMutationMAC,
};
use sqlite_storage::config::{
    ConnectionOptions, SqliteStoreConfig, Synchronous, Timeout,
};
use sqlite_storage::device::{last_insert_rowid, sibling_id, DeviceData, Teardown};
use sqlite_storage::error::{missing_device, Fault, StoreError};
use sqlite_storage::groups::status_answer;
use sqlite_storage::keys::KeyPair;
use sqlite_storage::load::{account_rows, exists_answer, load_device_row, summarize, Decoded};
use sqlite_storage::mapping::{
    mapping_answer, mappings_answer, same_base_key_answer, LidPnMappingEntry,
};
use sqlite_storage::outbox::{PendingInboundKey, PendingInboundRow};
use sqlite_storage::plan::{Guard, Lane, ReadPlan, WritePlan};
use sqlite_storage::registry::{registry_answer, registry_list_answer, DeviceListRecord};
use sqlite_storage::rows::{first_blob, read_blob, read_flag, read_int, read_text};
use sqlite_storage::schema::{account_scoped_table_list, Table};
use sqlite_storage::secrets::{
    get_msg_secret, secret_answer, MsgSecretEntry, MSG_SECRET_INSERT_CHUNK_SIZE,
};
use sqlite_storage::signal::{
    asks_for_identities, exists_in, id_blob_answer, identity_answer, max_id_answer, text_blob_answer,
    user_state_answer,
};
use sqlite_storage::sql::{Query, Statement};
use sqlite_storage::store::SqliteStore;
use sqlite_storage::tokens::{jids_answer, token_answer, tokens_answer, TcTokenEntry};
use sqlite_storage::upkeep::{pragma_i64, Readings, StorageResourceReport};
use sqlite_storage::value::Value;
use std::cell::RefCell;
use std::collections::HashMap;
use std::rc::Rc;

const TABLES: &str = "
CREATE TABLE device (
    id INTEGER PRIMARY KEY AUTOINCREMENT, lid TEXT NOT NULL, pn TEXT NOT NULL,
    registration_id INTEGER NOT NULL, noise_key BLOB NOT NULL, identity_key BLOB NOT NULL,
    signed_pre_key BLOB NOT NULL, signed_pre_key_id INTEGER NOT NULL,
    signed_pre_key_signature BLOB NOT NULL, adv_secret_key BLOB NOT NULL, account BLOB,
    push_name TEXT NOT NULL, app_version_primary INTEGER NOT NULL,
    app_version_secondary INTEGER NOT NULL, app_version_tertiary BIGINT NOT NULL,
    app_version_last_fetched_ms BIGINT NOT NULL, edge_routing_info BLOB, props_hash TEXT,
    next_pre_key_id INTEGER NOT NULL, nct_salt BLOB, server_has_prekeys BOOLEAN NOT NULL,
    server_cert_chain BLOB, login_counter INTEGER NOT NULL,
    first_unupload_pre_key_id INTEGER NOT NULL, lid_migrated BOOLEAN NOT NULL,
    last_signed_pre_key_rotation_ms BIGINT NOT NULL, read_receipts_disabled BOOLEAN NOT NULL,
    server_client_expiration TEXT);
CREATE TABLE app_state_keys (
    key_id BLOB NOT NULL, key_data BLOB NOT NULL, device_id INTEGER NOT NULL,
    PRIMARY KEY (key_id, device_id));
CREATE TABLE app_state_mutation_macs (
    name TEXT NOT NULL, version BIGINT NOT NULL, index_mac BLOB NOT NULL,
    value_mac BLOB NOT NULL, device_id INTEGER NOT NULL,
    PRIMARY KEY (name, index_mac, device_id));
CREATE TABLE app_state_versions (
    name TEXT NOT NULL, state_data BLOB NOT NULL, device_id INTEGER NOT NULL,
    PRIMARY KEY (name, device_id));
CREATE TABLE base_keys (
    address TEXT NOT NULL, message_id TEXT NOT NULL, base_key BLOB NOT NULL,
    device_id INTEGER NOT NULL, created_at INTEGER NOT NULL,
    PRIMARY KEY (address, message_id, device_id));
CREATE TABLE device_registry (
    user_id TEXT NOT NULL, devices_json TEXT NOT NULL, timestamp INTEGER NOT NULL, phash TEXT,
    device_id INTEGER NOT NULL, updated_at INTEGER NOT NULL, raw_id INTEGER,
    PRIMARY KEY (user_id, device_id));
CREATE TABLE group_metadata (
    group_jid TEXT NOT NULL, info BLOB NOT NULL, device_id INTEGER NOT NULL,
    updated_at INTEGER NOT NULL, PRIMARY KEY (group_jid, device_id));
CREATE TABLE identities (
    address TEXT NOT NULL, key BLOB NOT NULL, device_id INTEGER NOT NULL,
    PRIMARY KEY (address, device_id));
CREATE TABLE lid_pn_mapping (
    lid TEXT NOT NULL, phone_number TEXT NOT NULL, created_at BIGINT NOT NULL,
    learning_source TEXT NOT NULL, updated_at BIGINT NOT NULL, device_id INTEGER NOT NULL,
    PRIMARY KEY (lid, device_id),
    FOREIGN KEY (device_id) REFERENCES device (id) ON DELETE CASCADE);
CREATE TABLE msg_secrets (
    chat TEXT NOT NULL, sender TEXT NOT NULL, msg_id TEXT NOT NULL, secret BLOB NOT NULL,
    expires_at BIGINT NOT NULL, message_ts BIGINT NOT NULL, device_id INTEGER NOT NULL,
    PRIMARY KEY (chat, sender, msg_id, device_id));
CREATE TABLE pending_inbound_messages (
    chat TEXT NOT NULL, sender TEXT NOT NULL, id TEXT NOT NULL, message BLOB NOT NULL,
    device_id INTEGER NOT NULL, inserted_at BIGINT NOT NULL DEFAULT (strftime('%s', 'now')),
    PRIMARY KEY (chat, sender, id, device_id));
CREATE TABLE prekeys (
    id INTEGER NOT NULL, key BLOB NOT NULL, uploaded BOOLEAN NOT NULL,
    device_id INTEGER NOT NULL, PRIMARY KEY (id, device_id));
CREATE TABLE sender_key_devices (
    group_jid TEXT NOT NULL, device_jid TEXT NOT NULL, has_key INTEGER NOT NULL,
    device_id INTEGER NOT NULL, updated_at INTEGER NOT NULL,
    PRIMARY KEY (group_jid, device_jid, device_id));
CREATE TABLE sender_keys (
    address TEXT NOT NULL, record BLOB NOT NULL, device_id INTEGER NOT NULL,
    PRIMARY KEY (address, device_id));
CREATE TABLE sent_messages (
    chat_jid TEXT NOT NULL, message_id TEXT NOT NULL, payload BLOB NOT NULL,
    device_id INTEGER NOT NULL, created_at BIGINT NOT NULL DEFAULT (strftime('%s', 'now')),
    PRIMARY KEY (chat_jid, message_id, device_id));
CREATE TABLE sessions (
    address TEXT NOT NULL, record BLOB NOT NULL, device_id INTEGER NOT NULL,
    PRIMARY KEY (address, device_id));
CREATE TABLE signed_prekeys (
    id INTEGER NOT NULL, record BLOB NOT NULL, device_id INTEGER NOT NULL,
    PRIMARY KEY (id, device_id));
CREATE TABLE tc_tokens (
    jid TEXT NOT NULL, token BLOB NOT NULL, token_timestamp BIGINT NOT NULL,
    sender_timestamp BIGINT, device_id INTEGER NOT NULL, updated_at BIGINT NOT NULL,
    PRIMARY KEY (jid, device_id));
";

/// What stands at a place of a row: a value, or a fraction as a whole number and as text.
enum Cell {
    Value(Value),
    Fraction(i64, String),
}

impl Cell {
    fn settled(self, is_for_numbers: bool) -> Value {
        match self {
            Cell::Value(value) => value,
            Cell::Fraction(whole, _) if is_for_numbers => Value::Int(whole),
            Cell::Fraction(_, text) => Value::Text(text),
        }
    }
}

/// A row of any query.
struct Line(Vec<Cell>);

impl QueryableByName<Sqlite> for Line {
    fn build<'a>(row: &impl NamedRow<'a, Sqlite>) -> deserialize::Result<Self> {
        let mut cells = Vec::new();
        for i in 0..row.field_count() {
            let field = Row::get(row, i).ok_or("no such field")?;
            let cell = match field.value() {
                None => Cell::Value(Value::Null),
                Some(mut raw) => match raw.value_type() {
                    None => Cell::Value(Value::Null),
                    Some(SqliteType::Text) => Cell::Value(
                        match String::from_utf8(raw.read_blob().to_vec()) {
                            Ok(text) => Value::Text(text),
                            Err(error) => Value::Blob(error.into_bytes()),
                        },
                    ),
                    Some(SqliteType::Binary) => Cell::Value(Value::Blob(raw.read_blob().to_vec())),
                    Some(SqliteType::Double) => {
                        Cell::Fraction(raw.read_long(), raw.read_text().to_string())
                    }
                    Some(_) => Cell::Value(Value::Int(raw.read_long())),
                },
            };
            cells.push(cell);
        }
        Ok(Line(cells))
    }
}

fn execute(conn: &mut SqliteConnection, s: &Statement) -> Result<usize, DieselError> {
    let mut query = diesel::sql_query(s.sql()).into_boxed::<Sqlite>();
    for value in s.values() {
        query = match value {
            Value::Null => query.bind::<Nullable<Text>, _>(None::<String>),
            Value::Int(n) => query.bind::<BigInt, _>(n),
            Value::Text(t) => query.bind::<Text, _>(t),
            Value::Blob(b) => query.bind::<Binary, _>(b),
        };
    }
    query.execute(conn)
}

fn fetch(conn: &mut SqliteConnection, q: &Query) -> Result<Vec<Vec<Value>>, DieselError> {
    let mut query = diesel::sql_query(q.sql()).into_boxed::<Sqlite>();
    for value in q.values() {
        query = match value {
            Value::Null => query.bind::<Nullable<Text>, _>(None::<String>),
            Value::Int(n) => query.bind::<BigInt, _>(n),
            Value::Text(t) => query.bind::<Text, _>(t),
            Value::Blob(b) => query.bind::<Binary, _>(b),
        };
    }
    let lines: Vec<Line> = query.load(conn)?;
    let settled = |(i, cell): (usize, Cell)| cell.settled(q.is_for_numbers(i));
    Ok(lines.into_iter().map(|line| line.0.into_iter().enumerate().map(settled).collect()).collect())
}

/// The first row of a query that is given as text, each place read as the flag says.
fn fetch_first(conn: &mut SqliteConnection, sql: &str, as_numbers: bool) -> Vec<Value> {
    let lines: Vec<Line> = diesel::sql_query(sql).load(conn).unwrap();
    let first = lines.into_iter().next().unwrap();
    first.0.into_iter().map(|cell| cell.settled(as_numbers)).collect()
}

fn guarded<T>(
    conn: &mut SqliteConnection,
    guard: Guard,
    run: impl FnOnce(&mut SqliteConnection) -> Result<T, DieselError>,
) -> Result<T, DieselError> {
    match guard {
        Guard::Bare => run(conn),
        Guard::Deferred => conn.transaction(run),
        Guard::Immediate => conn.immediate_transaction(run),
    }
}

fn fault(e: DieselError) -> StoreError {
    StoreError::Database(Fault::of(&e))
}

fn handle(device_id: i32) -> SqliteStore {
    SqliteStore {
        device_id,
        database_path: String::new(),
        pool_size: 1,
        readers: None,
        snapshot_safe: false,
        incremental_vacuum: false,
        incremental_vacuum_pages: 0,
    }
}

fn strings(list: &[&str]) -> Vec<String> {
    list.iter().map(|s| s.to_string()).collect()
}

fn now_secs() -> i64 {
    let now = std::time::SystemTime::now().duration_since(std::time::UNIX_EPOCH).unwrap();
    now.as_secs() as i64
}

fn pair(seed: u8) -> KeyPair {
    KeyPair { private_key: [seed; 32], public_key: [seed + 1; 32] }
}

/// An account with made-up keys.
fn generated() -> DeviceData {
    DeviceData {
        lid: None,
        pn: None,
        registration_id: 4_000_000_000,
        noise_key: pair(1),
        identity_key: pair(3),
        signed_pre_key: pair(5),
        signed_pre_key_id: 1,
        signed_pre_key_signature: [9; 64],
        adv_secret_key: [8; 32],
        account: None,
        push_name: String::new(),
        app_version_primary: 2,
        app_version_secondary: 3000,
        app_version_tertiary: 1_023_920_349,
        app_version_last_fetched_ms: 0,
        edge_routing_info: None,
        props_hash: None,
        next_pre_key_id: 0,
        nct_salt: None,
        server_has_prekeys: false,
        server_cert_chain: None,
        login_counter: 0,
        first_unupload_pre_key_id: 0,
        lid_migrated: false,
        last_signed_pre_key_rotation_ms: 0,
        read_receipts_disabled: false,
        server_client_expiration: None,
        nct_salt_sync_seen: false,
    }
}

fn decoded() -> Decoded {
    Decoded {
        noise_key: None,
        identity_key: None,
        signed_pre_key: None,
        account: None,
        pn: true,
        lid: true,
        server_cert_chain: true,
        server_client_expiration: true,
    }
}

/// A handle and the connection it shares with its siblings.
struct TestStore {
    conn: Rc<RefCell<SqliteConnection>>,
    plans: SqliteStore,
}

impl TestStore {
    fn new(device_id: i32) -> TestStore {
        let mut conn = SqliteConnection::establish(":memory:").unwrap();
        for pragma in SqliteStoreConfig::default().connection_options(false).pragmas() {
            conn.batch_execute(&pragma).unwrap();
        }
        conn.batch_execute(TABLES).unwrap();
        TestStore { conn: Rc::new(RefCell::new(conn)), plans: handle(device_id) }
    }

    fn share(&self, device_id: i32) -> TestStore {
        TestStore {
            conn: Rc::clone(&self.conn),
            plans: self.plans.share_for_device(device_id),
        }
    }

    fn raw(&self, sql: &str) {
        self.conn.borrow_mut().batch_execute(sql).unwrap();
    }

    fn count(&self, sql: &str) -> i64 {
        match fetch_first(&mut self.conn.borrow_mut(), sql, true)[0] {
            Value::Int(n) => n,
            _ => panic!("not a number"),
        }
    }

    fn write(&self, plan: WritePlan) -> Result<usize, StoreError> {
        let mut conn = self.conn.borrow_mut();
        guarded(&mut conn, plan.guard, |conn| {
            let mut changed = 0;
            for s in &plan.statements {
                changed += execute(conn, s)?;
            }
            Ok(changed)
        })
        .map_err(fault)
    }

    fn read(&self, plan: ReadPlan) -> Vec<Vec<Value>> {
        let mut conn = self.conn.borrow_mut();
        let mut rows = Vec::new();
        for q in &plan.queries {
            rows.extend(fetch(&mut conn, q).unwrap());
        }
        rows
    }

    fn tear_down(&self, end: Teardown) -> Result<(), StoreError> {
        let id = end.device_id;
        let mut conn = self.conn.borrow_mut();
        guarded(&mut conn, end.guard, |conn| {
            let deleted = execute(conn, &end.delete)?;
            match end.proceed(deleted) {
                Ok(rest) => {
                    for s in &rest {
                        execute(conn, s)?;
                    }
                    Ok(())
                }
                Err(_) => Err(DieselError::NotFound),
            }
        })
        .map_err(|e| missing_device(fault(e), id))
    }

    fn create_sibling(&self) -> i32 {
        self.write(self.plans.create_sibling_device(&generated())).unwrap();
        let row = fetch_first(&mut self.conn.borrow_mut(), last_insert_rowid(), true);
        sibling_id(&vec![row]).unwrap()
    }

    fn device_exists(&self, id: i32) -> bool {
        exists_answer(&self.read(self.plans.device_exists(id))).unwrap()
    }

    fn load(&self, id: i32) -> Option<DeviceData> {
        let rows = self.read(self.plans.load_device_data_for_device(id));
        rows.first().map(|row| load_device_row(row, decoded()).unwrap())
    }

    fn session(&self, address: &str) -> Option<Vec<u8>> {
        first_blob(&self.read(self.plans.get_session(address))).unwrap()
    }

    fn token(&self, jid: &str) -> Option<TcTokenEntry> {
        token_answer(&self.read(self.plans.get_tc_token(jid))).unwrap()
    }

    fn put_token(&self, jid: &str, token: &[u8], time: i64, sender: Option<i64>) {
        let entry =
            TcTokenEntry { token: token.to_vec(), token_timestamp: time, sender_timestamp: sender };
        self.write(self.plans.put_tc_token(jid, &entry, 1)).unwrap();
    }

    fn receive_token(&self, jid: &str, token: &[u8], time: i64) {
        let arrival = self.plans.store_received_tc_token(jid, token, time, 1);
        let mut conn = self.conn.borrow_mut();
        guarded(&mut conn, arrival.guard, |conn| {
            let rows = fetch(conn, &arrival.read)?;
            if let Some(s) = arrival.settle(&rows).unwrap() {
                execute(conn, &s)?;
            }
            Ok(())
        })
        .unwrap();
    }

    fn touch_token(&self, jid: &str, time: i64) {
        self.write(self.plans.touch_tc_token_sender_timestamp(jid, time, 1)).unwrap();
    }

    fn put_secret(&self, chat: &str, sender: &str, id: &str, secret: &[u8; 32]) {
        let entry = secret_entry(chat, sender, id, *secret, 0, 0);
        self.write(self.plans.put_msg_secrets(&[entry])).unwrap();
    }

    fn secret(&self, chat: &str, sender: &str, id: &str) -> Option<Vec<u8>> {
        get_msg_secret(self.secret_with_ts(chat, sender, id))
    }

    fn secret_with_ts(&self, chat: &str, sender: &str, id: &str) -> Option<(Vec<u8>, i64)> {
        secret_answer(&self.read(self.plans.get_msg_secret_with_ts(chat, sender, id))).unwrap()
    }

    fn take_sent(&self, chat: &str, id: &str) -> Option<Vec<u8>> {
        let taking = self.plans.take_sent_message(chat, id);
        let mut conn = self.conn.borrow_mut();
        guarded(&mut conn, taking.guard, |conn| {
            let rows = fetch(conn, &taking.read)?;
            let (payload, delete) = taking.settle(&rows).unwrap();
            if let Some(s) = delete {
                execute(conn, &s)?;
            }
            Ok(payload)
        })
        .unwrap()
    }

    fn sent(&self, chat: &str, id: &str) -> Option<Vec<u8>> {
        first_blob(&self.read(self.plans.get_sent_message(chat, id))).unwrap()
    }

    fn pending(&self, chat: &str, sender: &str, id: &str) -> Option<Vec<u8>> {
        first_blob(&self.read(self.plans.get_pending_inbound(chat, sender, id))).unwrap()
    }

    fn devices(&self, user: &str) -> Option<DeviceListRecord> {
        registry_answer(&self.read(self.plans.get_devices(user))).unwrap()
    }

    fn key_status(&self, group: &str) -> Vec<(String, bool)> {
        status_answer(&self.read(self.plans.get_sender_key_devices(group))).unwrap()
    }

    fn set_key_status(&self, group: &str, entries: &[(&str, bool)]) {
        let entries: Vec<(String, bool)> =
            entries.iter().map(|(jid, has)| (jid.to_string(), *has)).collect();
        self.write(self.plans.set_sender_key_status(group, &entries, 1)).unwrap();
    }

    fn prekey(&self, id: u32) -> Option<Vec<u8>> {
        first_blob(&self.read(self.plans.load_prekey(id))).unwrap()
    }

    /// Stores the value of a sync key as it is.
    fn insert_sync_key(&self, key_id: &[u8], data: &[u8]) {
        let row = vec![Value::blob(key_id), Value::blob(data), Value::Int(1)];
        let insert = Statement::Insert { table: Table::AppStateKeys, row };
        self.write(WritePlan { lane: Lane::Once, guard: Guard::Bare, statements: vec![insert] })
            .unwrap();
    }

    fn version(&self, name: &str, device_id: i32) -> Option<Vec<u8>> {
        first_blob(&self.read(self.plans.get_app_state_version_for_device(name, device_id)))
            .unwrap()
    }

    fn mac(&self, name: &str, index: &[u8]) -> Option<Vec<u8>> {
        first_blob(&self.read(self.plans.get_mutation_mac(name, index))).unwrap()
    }

    fn same_base_key(&self, address: &str, id: &str, key: &[u8]) -> bool {
        same_base_key_answer(&self.read(self.plans.has_same_base_key(address, id)), key).unwrap()
    }

    fn scoped_row_counts(&self, device_id: i32) -> Vec<(String, i64)> {
        account_scoped_table_list()
            .into_iter()
            .map(|table| {
                let sql = format!(
                    "SELECT count(*) FROM {} WHERE device_id = {device_id}",
                    table.name()
                );
                (table.name().to_string(), self.count(&sql))
            })
            .collect()
    }
}

fn secret_entry(
    chat: &str,
    sender: &str,
    id: &str,
    secret: [u8; 32],
    expires_at: i64,
    message_ts: i64,
) -> MsgSecretEntry {
    MsgSecretEntry {
        chat: chat.to_string(),
        sender: sender.to_string(),
        msg_id: id.to_string(),
        secret,
        expires_at,
        message_ts,
    }
}

fn mac(index: &[u8], value: &[u8]) -> AppStateMutationMAC {
    AppStateMutationMAC { index_mac: index.to_vec(), value_mac: value.to_vec() }
}

fn record(user: &str, devices: &str, time: i64, phash: Option<&str>, raw: Option<u32>)
    -> DeviceListRecord {
    DeviceListRecord {
        user: user.to_string(),
        devices_json: devices.to_string(),
        timestamp: time,
        phash: phash.map(|p| p.to_string()),
        raw_id: raw,
    }
}

// ---------------------------------------------------------------------------------------
// Sent messages and received ones

#[test]
fn get_sent_message_preserves_payload_expiry_and_device_scope() {
    let store = TestStore::new(1);
    let chat = "120363000000000001@g.us";
    store.write(store.plans.store_sent_message(chat, "READ", b"payload")).unwrap();
    store.raw("UPDATE sent_messages SET created_at = 1");
    for _ in 0..2 {
        assert_eq!(store.sent(chat, "READ").as_deref(), Some(b"payload".as_slice()));
    }
    assert!(store.sent(chat, "MISSING").is_none());
    assert!(store.sent("120363000000000002@g.us", "READ").is_none());
    assert!(store.share(2).sent(chat, "READ").is_none());
    assert_eq!(store.write(store.plans.delete_expired_sent_messages(2)).unwrap(), 1);
    assert!(store.sent(chat, "READ").is_none());
}

#[test]
fn a_sent_message_is_taken_once() {
    let store = TestStore::new(1);
    store.write(store.plans.store_sent_message("c", "A", b"one")).unwrap();
    store.write(store.plans.store_sent_message("c", "A", b"two")).unwrap();
    store.write(store.plans.store_sent_message("c", "B", b"three")).unwrap();
    assert_eq!(store.take_sent("c", "A"), Some(b"two".to_vec()));
    assert_eq!(store.take_sent("c", "A"), None);
    assert_eq!(store.take_sent("c", "B"), Some(b"three".to_vec()));
}

#[test]
fn each_sweep_deletes_only_its_expired_rows() {
    let store = TestStore::new(1);
    let now = now_secs();
    store.write(store.plans.store_sent_message("1@s.whatsapp.net", "OLD", b"payload")).unwrap();
    store.write(store.plans.store_sent_message("1@s.whatsapp.net", "NEW", b"payload")).unwrap();
    store.raw("UPDATE sent_messages SET created_at = created_at - 86400 WHERE message_id = 'OLD'");
    for id in ["OLD", "NEW"] {
        let plan =
            store.plans.store_pending_inbound("1@s.whatsapp.net", "2@s.whatsapp.net", id, b"msg");
        store.write(plan).unwrap();
    }
    store.raw(
        "UPDATE pending_inbound_messages SET inserted_at = inserted_at - 86400 WHERE id = 'OLD'",
    );
    store.put_token("old@lid", &[1], now - 86_400, None);
    store.put_token("new@lid", &[2], now, None);

    let cutoff = now - 3600;
    assert_eq!(store.write(store.plans.delete_expired_sent_messages(cutoff)).unwrap(), 1);
    assert_eq!(store.write(store.plans.delete_expired_pending_inbound(cutoff)).unwrap(), 1);
    assert_eq!(store.write(store.plans.delete_expired_tc_tokens(cutoff, cutoff)).unwrap(), 1);

    assert!(store.take_sent("1@s.whatsapp.net", "OLD").is_none());
    assert!(store.take_sent("1@s.whatsapp.net", "NEW").is_some());
    assert!(store.pending("1@s.whatsapp.net", "2@s.whatsapp.net", "OLD").is_none());
    assert!(store.pending("1@s.whatsapp.net", "2@s.whatsapp.net", "NEW").is_some());
    assert!(store.token("old@lid").is_none());
    assert!(store.token("new@lid").is_some());
}

#[test]
fn pending_messages_are_stored_and_deleted_in_batches() {
    let store = TestStore::new(1);
    let rows: Vec<PendingInboundRow> = (0..250)
        .map(|i| PendingInboundRow {
            chat: "c".to_string(),
            sender: "s".to_string(),
            id: format!("M{i}"),
            message: vec![i as u8; 3],
        })
        .collect();
    store.write(store.plans.store_pending_inbound_batch(&rows)).unwrap();
    assert_eq!(store.count("SELECT count(*) FROM pending_inbound_messages"), 250);
    assert_eq!(store.pending("c", "s", "M249"), Some(vec![249; 3]));
    store.write(store.plans.store_pending_inbound("c", "s", "M249", b"new")).unwrap();
    assert_eq!(store.pending("c", "s", "M249"), Some(b"new".to_vec()));

    let keys: Vec<PendingInboundKey> = (0..249)
        .map(|i| PendingInboundKey {
            chat: "c".to_string(),
            sender: "s".to_string(),
            id: format!("M{i}"),
        })
        .collect();
    store.write(store.plans.delete_pending_inbound_batch(&keys)).unwrap();
    assert_eq!(store.count("SELECT count(*) FROM pending_inbound_messages"), 1);
    store.write(store.plans.delete_pending_inbound("c", "s", "M249")).unwrap();
    assert!(store.pending("c", "s", "M249").is_none());
    assert!(store.plans.store_pending_inbound_batch(&[]).statements.is_empty());
    assert!(store.plans.delete_pending_inbound_batch(&[]).statements.is_empty());
}

// ---------------------------------------------------------------------------------------
// Application state

#[test]
fn delete_version_removes_one_device_and_tolerates_a_missing_row() {
    let store = TestStore::new(1);
    let name = "regular_low";
    store.write(store.plans.delete_app_state_version_for_device(name, 1)).unwrap();
    for device_id in [1, 2] {
        let state = [40 + device_id as u8];
        store.write(store.plans.set_app_state_version_for_device(name, &state, device_id)).unwrap();
    }
    store.write(store.plans.delete_app_state_version_for_device(name, 1)).unwrap();
    assert!(store.version(name, 1).is_none());
    assert_eq!(store.version(name, 2), Some(vec![42]));
}

#[test]
fn batch_mutation_macs_matches_per_item() {
    let store = TestStore::new(1);
    let name = "regular";
    let macs: Vec<AppStateMutationMAC> = (0..25u8)
        .map(|i| {
            let mut index_mac = vec![0u8; 32];
            index_mac[0] = i;
            mac(&index_mac, &[i; 32])
        })
        .collect();
    store.write(store.plans.put_app_state_mutation_macs_for_device(name, 1, &macs, 1)).unwrap();

    let mut index_macs: Vec<[u8; 32]> =
        macs.iter().map(|m| m.index_mac.as_slice().try_into().unwrap()).collect();
    index_macs.push([0xFF; 32]);

    let plan = store.plans.get_app_state_mutation_macs_batch_for_device(name, &index_macs, 1);
    let batch: HashMap<[u8; 32], Vec<u8>> =
        mac_answer(&store.read(plan)).unwrap().into_iter().collect();
    assert_eq!(batch.len(), macs.len());
    assert!(!batch.contains_key(&[0xFF; 32]));
    for m in &macs {
        let key: [u8; 32] = m.index_mac.as_slice().try_into().unwrap();
        assert_eq!(store.mac(name, &m.index_mac).as_ref(), batch.get(&key));
        assert_eq!(batch.get(&key), Some(&m.value_mac));
    }
    let empty = store.plans.get_app_state_mutation_macs_batch_for_device(name, &[], 1);
    assert!(empty.queries.is_empty());
}

#[test]
fn clear_mutation_macs_wipes_only_named_collection() {
    let store = TestStore::new(1);
    store.write(store.plans.put_mutation_macs("regular", 1, &[mac(&[1; 32], &[1; 32])])).unwrap();
    store.write(store.plans.put_mutation_macs("critical", 1, &[mac(&[2; 32], &[2; 32])])).unwrap();
    store.write(store.plans.clear_mutation_macs("regular")).unwrap();
    assert!(store.mac("regular", &[1; 32]).is_none());
    assert!(store.mac("critical", &[2; 32]).is_some());
}

#[test]
fn a_patch_is_committed_whole() {
    let store = TestStore::new(1);
    let old: Vec<AppStateMutationMAC> =
        (0..40u8).map(|i| mac(&[i; 32], &[i; 32])).collect();
    store.write(store.plans.put_mutation_macs("regular", 1, &old)).unwrap();
    let removed: Vec<Vec<u8>> = (0..30u8).map(|i| vec![i; 32]).collect();
    let added = [mac(&[5; 32], &[0xA5; 32]), mac(&[200; 32], &[0xC8; 32])];
    store.write(store.plans.commit_patch("regular", b"state", 2, &removed, &added)).unwrap();
    assert_eq!(store.version("regular", 1), Some(b"state".to_vec()));
    assert!(store.mac("regular", &[4; 32]).is_none());
    assert_eq!(store.mac("regular", &[5; 32]), Some(vec![0xA5; 32]));
    assert_eq!(store.mac("regular", &[200; 32]), Some(vec![0xC8; 32]));
    assert_eq!(store.mac("regular", &[31; 32]), Some(vec![31; 32]));
    assert_eq!(store.count("SELECT count(*) FROM app_state_mutation_macs WHERE version = 2"), 2);
    let gone = [vec![31; 32]];
    store.write(store.plans.delete_mutation_macs("regular", &gone)).unwrap();
    assert!(store.mac("regular", &[31; 32]).is_none());
}

#[test]
fn legacy_bincode_blobs_self_heal_then_overwrite() {
    let mut legacy = vec![0x20u8];
    legacy.extend([0x11u8; 32]);
    legacy.extend([0x04, 0xaa, 0xbb, 0xcc, 0xdd, 0xfc, 0x00, 0xe2, 0xa7, 0xca]);
    let mut legacy_state = vec![0x07u8, 0xde, 0xad];
    legacy_state.extend([0u8; 125]);
    legacy_state.extend([0xbe, 0x00]);
    let store = TestStore::new(1);
    let key_id = b"legacy-key";
    store.insert_sync_key(key_id, &legacy);
    // A codec that does not know the form of the stored value has nothing to say of it.
    let stored = || first_blob(&store.read(store.plans.get_sync_key(key_id))).unwrap();
    assert_eq!(stored(), Some(legacy));
    assert_eq!(sync_key(&stored()), None);

    store.write(store.plans.set_sync_key(key_id, &encoded_key([7; 32]))).unwrap();
    assert_eq!(sync_key(&stored()), Some(vec![7; 32]));
    assert_eq!(decoded_or_absent(&None, Some(99)), None);

    // So with the state of a collection: it counts as never synced, and a new one goes over it.
    let name = "critical_block";
    store
        .write(WritePlan {
            lane: Lane::Once,
            guard: Guard::Bare,
            statements: vec![Statement::Insert {
                table: Table::AppStateVersions,
                row: vec![Value::text(name), Value::blob(&legacy_state), Value::Int(1)],
            }],
        })
        .unwrap();
    let state = store.version(name, 1);
    assert_eq!(state, Some(legacy_state));
    assert_eq!(state_version(&state), None);
    store.write(store.plans.set_app_state_version_for_device(name, &encoded_state(5), 1)).unwrap();
    assert_eq!(state_version(&store.version(name, 1)), Some(5));
    assert_eq!(state_version(&store.version("regular", 1)), None);

    // What is damaged is no different.
    store.raw("UPDATE app_state_keys SET key_data = X'00ff00ff'");
    assert_eq!(stored(), Some(vec![0x00, 0xff, 0x00, 0xff]));
    assert_eq!(sync_key(&stored()), None);
    store.write(store.plans.set_version(name, &[0xFF; 3])).unwrap();
    assert_eq!(state_version(&store.version(name, 1)), None);
    store.write(store.plans.set_version(name, &encoded_state(6))).unwrap();
    assert_eq!(state_version(&store.version(name, 1)), Some(6));
}

/// A sync key in a form that its reader knows: a mark, the length, and the key.
fn encoded_key(key: [u8; 32]) -> Vec<u8> {
    let mut data = vec![0x0a, 32];
    data.extend(key);
    data
}

fn decoded_key(data: &[u8]) -> Option<Vec<u8>> {
    match data {
        [0x0a, 32, key @ ..] if key.len() == 32 => Some(key.to_vec()),
        _ => None,
    }
}

/// The sync key in a stored value, as a reader sees it.
fn sync_key(stored: &Option<Vec<u8>>) -> Option<Vec<u8>> {
    decoded_or_absent(stored, stored.as_deref().and_then(decoded_key))
}

/// The state of a collection in a form that its reader knows: a mark and the version.
fn encoded_state(version: u8) -> Vec<u8> {
    vec![0x08, version]
}

/// The version in a stored state, as a reader sees it.
fn state_version(stored: &Option<Vec<u8>>) -> Option<u8> {
    let decoded = match stored.as_deref() {
        Some([0x08, version]) => Some(*version),
        _ => None,
    };
    decoded_or_absent(stored, decoded)
}

#[test]
fn latest_sync_key_skips_undecodable_rows() {
    let mut legacy = vec![0x20u8];
    legacy.extend([0x11u8; 32]);
    legacy.extend([0x04, 0xaa, 0xbb, 0xcc, 0xdd, 0xfc, 0x00, 0xe2, 0xa7, 0xca]);
    let store = TestStore::new(1);
    store.write(store.plans.set_sync_key(b"key-aaa", &encoded_key([7; 32]))).unwrap();
    store.insert_sync_key(b"key-zzz", &legacy);
    store.write(store.share(2).plans.set_sync_key(b"key-zzzz", &encoded_key([7; 32]))).unwrap();
    let rows = store.read(store.plans.get_latest_sync_key_id());
    assert_eq!(rows.len(), 2);
    let usable: Vec<bool> =
        rows.iter().map(|row| decoded_key(&read_blob(row, 1).unwrap()).is_some()).collect();
    assert_eq!(latest_key_answer(&rows, &usable).unwrap(), Some(b"key-aaa".to_vec()));
    assert_eq!(latest_key_answer(&rows, &[true, true]).unwrap(), Some(b"key-zzz".to_vec()));
    assert_eq!(latest_key_answer(&rows, &[false, false]).unwrap(), None);
}

// ---------------------------------------------------------------------------------------
// Signal state

#[test]
fn put_signal_batches_persist_and_upsert() {
    let store = TestStore::new(1);
    let sessions: Vec<(String, Vec<u8>)> =
        (0..5u8).map(|i| (format!("user{i}@s.whatsapp.net"), vec![i; 8])).collect();
    store.write(store.plans.put_sessions_batch(&sessions)).unwrap();
    for (addr, bytes) in &sessions {
        assert_eq!(store.session(addr).as_ref(), Some(bytes));
    }

    let identities: Vec<(String, [u8; 32])> =
        (0..5u8).map(|i| (format!("user{i}@s.whatsapp.net"), [i; 32])).collect();
    store.write(store.plans.put_identities_batch(&identities)).unwrap();
    for (addr, key) in &identities {
        let rows = store.read(store.plans.load_identity(addr));
        assert_eq!(identity_answer(addr, &rows).unwrap(), Some(*key));
    }

    let sender_keys: Vec<(String, Vec<u8>)> =
        (0..5u8).map(|i| (format!("g@g.us::user{i}"), vec![i; 16])).collect();
    store.write(store.plans.put_sender_keys_batch(&sender_keys)).unwrap();
    for (addr, bytes) in &sender_keys {
        let rows = store.read(store.plans.get_sender_key(addr));
        assert_eq!(first_blob(&rows).unwrap().as_ref(), Some(bytes));
    }

    let updated: Vec<(String, Vec<u8>)> =
        sessions.iter().map(|(addr, _)| (addr.clone(), vec![0xAA; 8])).collect();
    store.write(store.plans.put_sessions_batch(&updated)).unwrap();
    for (addr, _) in &sessions {
        assert_eq!(store.session(addr), Some(vec![0xAA; 8]));
    }

    let dup = "dup@s.whatsapp.net".to_string();
    let twice = [(dup.clone(), vec![1u8; 4]), (dup.clone(), vec![2u8; 4])];
    store.write(store.plans.put_sessions_batch(&twice)).unwrap();
    assert_eq!(store.session(&dup), Some(vec![2; 4]));

    store.write(store.plans.put_sessions_batch(&[])).unwrap();
    store.write(store.plans.put_identities_batch(&[])).unwrap();
    store.write(store.plans.put_sender_keys_batch(&[])).unwrap();
}

#[test]
fn get_sessions_batch_reads_hits_in_one_query() {
    let store = TestStore::new(1);
    let sessions: Vec<(String, Vec<u8>)> =
        (0..5u8).map(|i| (format!("batchuser{i}@s.whatsapp.net"), vec![i; 8])).collect();
    store.write(store.plans.put_sessions_batch(&sessions)).unwrap();

    let missing = "nobody@s.whatsapp.net".to_string();
    let mut requested: Vec<String> = sessions.iter().map(|(addr, _)| addr.clone()).collect();
    requested.insert(2, missing.clone());
    let plan = store.plans.get_sessions_batch(&requested);
    assert_eq!(plan.queries.len(), 1);
    let loaded = text_blob_answer(&store.read(plan)).unwrap();
    assert_eq!(loaded.len(), sessions.len());
    for (addr, bytes) in &sessions {
        assert!(loaded.iter().any(|(a, b)| a == addr && b == bytes));
    }
    assert!(store.read(store.plans.get_sessions_batch(&[missing])).is_empty());
    assert!(store.plans.get_sessions_batch(&[]).queries.is_empty());
}

#[test]
fn a_long_list_is_asked_for_in_parts() {
    let store = TestStore::new(1);
    let sessions: Vec<(String, Vec<u8>)> =
        (0..2000u32).map(|i| (format!("u{i}"), i.to_le_bytes().to_vec())).collect();
    store.write(store.plans.put_sessions_batch(&sessions)).unwrap();
    let all: Vec<String> = sessions.iter().map(|(addr, _)| addr.clone()).collect();
    let plan = store.plans.get_sessions_batch(&all);
    assert!(plan.queries.len() > 1);
    for q in &plan.queries {
        assert!(q.values().len() <= 999);
    }
    assert_eq!(text_blob_answer(&store.read(plan)).unwrap().len(), 2000);
    store.write(store.plans.delete_sessions_batch(&all[1..])).unwrap();
    assert_eq!(store.count("SELECT count(*) FROM sessions"), 1);
    assert_eq!(store.session("u0"), Some(vec![0, 0, 0, 0]));
}

#[test]
fn signal_rows_are_deleted_one_by_one_and_in_batches() {
    let store = TestStore::new(1);
    for a in ["a", "b", "c"] {
        store.write(store.plans.put_identity(a, [1; 32])).unwrap();
        store.write(store.plans.put_session(a, b"s")).unwrap();
        store.write(store.plans.put_sender_key(a, b"k")).unwrap();
    }
    store.write(store.plans.delete_identity("a")).unwrap();
    store.write(store.plans.delete_session("a")).unwrap();
    store.write(store.plans.delete_sender_key("a")).unwrap();
    for table in ["identities", "sessions", "sender_keys"] {
        assert_eq!(store.count(&format!("SELECT count(*) FROM {table}")), 2);
    }
    let rest = strings(&["b", "c", "nobody"]);
    store.write(store.plans.delete_identities_batch(&rest)).unwrap();
    store.write(store.plans.delete_sessions_batch(&rest)).unwrap();
    store.write(store.plans.delete_sender_keys_batch(&rest)).unwrap();
    for table in ["identities", "sessions", "sender_keys"] {
        assert_eq!(store.count(&format!("SELECT count(*) FROM {table}")), 0);
    }
}

#[test]
fn an_identity_of_the_wrong_length_is_reported() {
    let store = TestStore::new(1);
    store.raw("INSERT INTO identities (address, key, device_id) VALUES ('a', x'0102', 1)");
    let rows = store.read(store.plans.load_identity("a"));
    let error = identity_answer("a", &rows).unwrap_err();
    assert!(matches!(error, StoreError::Validation(_)));
    assert_eq!(error.message(), "identity key for 'a' has invalid length 2 (expected 32)");
    let rows = store.read(store.plans.load_identity("b"));
    assert_eq!(identity_answer("b", &rows).unwrap(), None);
}

#[test]
fn state_of_a_user_is_found_by_its_addresses() {
    let store = TestStore::new(1);
    let has = |user: &str| {
        let plan = store.plans.has_signal_state_for_user(user);
        let mut conn = store.conn.borrow_mut();
        let sessions = fetch(&mut conn, &plan.queries[0]).unwrap();
        let identities = if asks_for_identities(&sessions).unwrap() {
            fetch(&mut conn, &plan.queries[1]).unwrap()
        } else {
            vec![]
        };
        user_state_answer(&sessions, &identities).unwrap()
    };
    assert!(!has("100"));
    store.write(store.plans.put_session("100@c.us.0", b"s")).unwrap();
    assert!(has("100"));
    assert!(!has("10"));
    assert!(exists_in(&store.read(store.plans.has_session("100@c.us.0"))).unwrap());
    assert!(!exists_in(&store.read(store.plans.has_session("100"))).unwrap());
    store.write(store.plans.put_identity("200:3@lid.0", [1; 32])).unwrap();
    assert!(has("200"));
    let other = store.share(2);
    let rows = other.read(other.plans.has_signal_state_for_user("100"));
    assert!(rows.iter().all(|row| matches!(row[0], Value::Int(0))));
}

#[test]
fn addresses_of_any_class_are_matched_as_text() {
    let store = TestStore::new(1);
    let has = |user: &str| {
        let plan = store.plans.has_signal_state_for_user(user);
        exists_in(&fetch(&mut store.conn.borrow_mut(), &plan.queries[0]).unwrap()).unwrap()
    };
    // Bytes match as the text they encode, whether or not all of them are UTF-8.
    store.raw("INSERT INTO sessions VALUES (CAST('300@c.us' AS BLOB), x'', 1)");
    assert!(has("300") && !has("30"));
    store.raw("INSERT INTO sessions VALUES (x'34303040ff80fe', x'', 1)");
    assert!(has("400"));
    // Only ASCII letters match in either case.
    store.write(store.plans.put_session("Ab\u{e9}@c.us", b"s")).unwrap();
    assert!(has("aB\u{e9}") && !has("aB\u{c9}"));
    // Both sides end at a NUL.
    store.write(store.plans.put_session("50\0@c.us", b"s")).unwrap();
    assert!(!has("50"));
    assert!(has("50\0x"));
    assert!(!has("5"));
    // What is no character matches as the replacement character.
    store.write(store.plans.put_session("6\u{ffff}@c.us", b"s")).unwrap();
    assert!(has("6\u{fffd}") && has("6\u{fffe}") && !has("6?"));
}

#[test]
fn a_sweep_reports_how_many_rows_went() {
    let store = TestStore::new(1);
    let other = store.share(2);
    for (id, deadline) in [("a", 0), ("b", 5), ("c", 10), ("d", 11)] {
        let entry = || secret_entry("chat", "sender", id, [1; 32], deadline, 0);
        store.write(store.plans.put_msg_secrets(&[entry()])).unwrap();
        other.write(other.plans.put_msg_secrets(&[entry()])).unwrap();
    }
    assert_eq!(store.write(store.plans.delete_expired_msg_secrets(10)).unwrap(), 2);
    assert_eq!(store.write(store.plans.delete_expired_msg_secrets(10)).unwrap(), 0);
    assert_eq!(store.count("SELECT COUNT(*) FROM msg_secrets"), 6);
    for (jid, time) in [("x", 1), ("y", 2), ("z", 3)] {
        store.put_token(jid, b"t", time, None);
    }
    assert_eq!(store.write(store.plans.delete_expired_tc_tokens(3, 3)).unwrap(), 2);
    assert_eq!(store.write(store.plans.delete_expired_base_keys(9)).unwrap(), 0);
    store.write(store.plans.save_base_key("a", "m", b"k", 8)).unwrap();
    assert_eq!(store.write(store.plans.delete_expired_base_keys(9)).unwrap(), 1);
    store.write(store.plans.store_sent_message("c", "m", b"p")).unwrap();
    let later = now_secs() + 100;
    assert_eq!(store.write(store.plans.delete_expired_sent_messages(later)).unwrap(), 1);
    store.write(store.plans.store_pending_inbound("c", "s", "m", b"p")).unwrap();
    assert_eq!(store.write(store.plans.delete_expired_pending_inbound(later)).unwrap(), 1);
}

#[test]
fn mark_prekeys_uploaded_never_resurrects_deleted_rows() {
    let store = TestStore::new(1);
    store.write(store.plans.store_prekey(1, b"record-1", false)).unwrap();
    store.write(store.plans.store_prekey(2, b"record-2", false)).unwrap();
    store.write(store.plans.remove_prekey(1)).unwrap();
    store.write(store.plans.mark_prekeys_uploaded(&[1, 2])).unwrap();
    assert!(store.prekey(1).is_none());
    assert_eq!(store.prekey(2), Some(b"record-2".to_vec()));
    assert_eq!(store.count("SELECT uploaded FROM prekeys WHERE id = 2"), 1);
}

#[test]
fn store_and_remove_prekeys_batch_round_trip() {
    let store = TestStore::new(1);
    let batch: Vec<(u32, Vec<u8>)> = (1..=4u32).map(|id| (id, vec![id as u8; 16])).collect();
    store.write(store.plans.store_prekeys_batch(&batch, false)).unwrap();
    assert_eq!(store.count("SELECT count(*) FROM prekeys WHERE uploaded = 0"), 4);

    let plan = store.plans.load_prekeys_batch(&[1, 2, 3, 4]);
    let mut loaded = id_blob_answer(&store.read(plan)).unwrap();
    loaded.sort();
    assert_eq!(loaded, batch);

    let updated: Vec<(u32, Vec<u8>)> = (1..=4u32).map(|id| (id, vec![0xAA; 16])).collect();
    store.write(store.plans.store_prekeys_batch(&updated, true)).unwrap();
    for id in 1..=4u32 {
        assert_eq!(store.prekey(id), Some(vec![0xAA; 16]));
    }
    assert_eq!(store.count("SELECT count(*) FROM prekeys WHERE uploaded = 1"), 4);

    store.write(store.plans.remove_prekeys_batch(&[1, 2, 3, 4])).unwrap();
    assert!(store.read(store.plans.load_prekeys_batch(&[1, 2, 3, 4])).is_empty());
    store.write(store.plans.store_prekeys_batch(&[], false)).unwrap();
    store.write(store.plans.remove_prekeys_batch(&[])).unwrap();
}

#[test]
fn the_largest_prekey_id_is_found() {
    let store = TestStore::new(1);
    let max = || max_id_answer(&store.read(store.plans.get_max_prekey_id())).unwrap();
    assert_eq!(max(), 0);
    for id in [3, 70_000, 12] {
        store.write(store.plans.store_prekey(id, b"r", false)).unwrap();
    }
    store.write(store.share(2).plans.store_prekey(90_000, b"r", false)).unwrap();
    assert_eq!(max(), 70_000);
}

#[test]
fn signed_prekeys_round_trip() {
    let store = TestStore::new(1);
    store.write(store.plans.store_signed_prekey(7, b"seven")).unwrap();
    store.write(store.plans.store_signed_prekey(8, b"eight")).unwrap();
    store.write(store.plans.store_signed_prekey(7, b"SEVEN")).unwrap();
    let load = |id| first_blob(&store.read(store.plans.load_signed_prekey(id))).unwrap();
    assert_eq!(load(7), Some(b"SEVEN".to_vec()));
    let mut all = id_blob_answer(&store.read(store.plans.load_all_signed_prekeys())).unwrap();
    all.sort();
    assert_eq!(all, vec![(7, b"SEVEN".to_vec()), (8, b"eight".to_vec())]);
    store.write(store.plans.remove_signed_prekey(7)).unwrap();
    assert_eq!(load(7), None);
    assert_eq!(load(8), Some(b"eight".to_vec()));
}

// ---------------------------------------------------------------------------------------
// The device registry and the groups

#[test]
fn test_device_registry_save_and_get() {
    let store = TestStore::new(1);
    let devices = "[{\"id\":0},{\"id\":1,\"key\":42}]";
    let saved = record("1234567890", devices, 1234567890, Some("2:abcdef"), None);
    store.write(store.plans.update_device_list(&saved, 1)).unwrap();
    let loaded = store.devices("1234567890").unwrap();
    assert_eq!(loaded.user, "1234567890");
    assert_eq!(loaded.devices_json, devices);
    assert_eq!(loaded.timestamp, 1234567890);
    assert_eq!(loaded.phash.as_deref(), Some("2:abcdef"));
    assert_eq!(loaded.raw_id, None);
}

#[test]
fn test_device_registry_update_existing() {
    let store = TestStore::new(1);
    let first = record("1234567890", "[0]", 1000, Some("2:old"), None);
    store.write(store.plans.update_device_list(&first, 1)).unwrap();
    let second = record("1234567890", "[0,2]", 2000, Some("2:new"), None);
    store.write(store.plans.update_device_list(&second, 2)).unwrap();
    let loaded = store.devices("1234567890").unwrap();
    assert_eq!(loaded.devices_json, "[0,2]");
    assert_eq!(loaded.phash.as_deref(), Some("2:new"));
}

#[test]
fn test_device_registry_batch_update_transitions() {
    let store = TestStore::new(1);
    let batch1 = [
        record("user_a", "[0]", 1000, Some("phash_a1"), Some(10)),
        record("user_b", "[0,1]", 1000, None, None),
    ];
    store.write(store.plans.update_device_lists(&batch1, 1)).unwrap();
    let a = store.devices("user_a").unwrap();
    assert_eq!(a.phash.as_deref(), Some("phash_a1"));
    assert_eq!(a.raw_id, Some(10));
    let b = store.devices("user_b").unwrap();
    assert_eq!(b.phash, None);
    assert_eq!(b.raw_id, None);

    let batch2 = [
        record("user_a", "[0,2]", 2000, None, None),
        record("user_b", "[0]", 2000, Some("phash_b2"), Some(20)),
    ];
    store.write(store.plans.update_device_lists(&batch2, 2)).unwrap();
    let a = store.devices("user_a").unwrap();
    assert_eq!(a.phash, None);
    assert_eq!(a.raw_id, None);
    assert_eq!(a.devices_json, "[0,2]");
    let b = store.devices("user_b").unwrap();
    assert_eq!(b.phash.as_deref(), Some("phash_b2"));
    assert_eq!(b.raw_id, Some(20));
    assert_eq!(b.devices_json, "[0]");
}

#[test]
fn test_device_registry_get_nonexistent() {
    let store = TestStore::new(1);
    assert!(store.devices("nonexistent").is_none());
}

#[test]
fn registry_records_are_read_and_deleted_by_user() {
    let store = TestStore::new(1);
    let records: Vec<DeviceListRecord> = (0..300)
        .map(|i| record(&format!("u{i}"), "[]", i, None, Some(4_294_967_295)))
        .collect();
    store.write(store.plans.update_device_lists(&records, 1)).unwrap();
    let users = strings(&["u0", "u299", "nobody"]);
    let found = registry_list_answer(&store.read(store.plans.get_devices_batch(&users))).unwrap();
    assert_eq!(found.len(), 2);
    assert!(found.iter().all(|r| r.raw_id == Some(4_294_967_295)));
    store.write(store.plans.delete_devices("u0")).unwrap();
    assert!(store.devices("u0").is_none());
    assert!(store.devices("u1").is_some());
    assert!(store.plans.get_devices_batch(&[]).queries.is_empty());
    assert!(store.plans.update_device_lists(&[], 1).statements.is_empty());
}

#[test]
fn test_sender_key_devices_set_and_get() {
    let store = TestStore::new(1);
    store.set_key_status("group123@g.us", &[("user1:5@lid", true), ("user2:3@lid", false)]);
    let devices = store.key_status("group123@g.us");
    assert_eq!(devices.len(), 2);
    assert!(devices.contains(&("user1:5@lid".to_string(), true)));
    assert!(devices.contains(&("user2:3@lid".to_string(), false)));
}

#[test]
fn test_sender_key_devices_upsert_overwrites() {
    let store = TestStore::new(1);
    store.set_key_status("group123@g.us", &[("user1:5@lid", false)]);
    store.set_key_status("group123@g.us", &[("user1:5@lid", true)]);
    assert_eq!(store.key_status("group123@g.us"), vec![("user1:5@lid".to_string(), true)]);
}

#[test]
fn test_sender_key_devices_clear() {
    let store = TestStore::new(1);
    store.set_key_status("group123@g.us", &[("user1:5@lid", true), ("user2:3@lid", true)]);
    store.write(store.plans.clear_sender_key_devices("group123@g.us")).unwrap();
    assert!(store.key_status("group123@g.us").is_empty());
}

#[test]
fn test_sender_key_devices_different_groups() {
    let store = TestStore::new(1);
    store.set_key_status("group1@g.us", &[("user:5@lid", true)]);
    assert_eq!(store.key_status("group1@g.us").len(), 1);
    assert!(store.key_status("group2@g.us").is_empty());
}

#[test]
fn sender_key_devices_are_forgotten_by_device_and_altogether() {
    let store = TestStore::new(1);
    let other = store.share(2);
    let many: Vec<String> = (0..300).map(|i| format!("d{i}")).collect();
    let entries: Vec<(&str, bool)> = many.iter().map(|d| (d.as_str(), true)).collect();
    store.set_key_status("g1", &entries);
    store.set_key_status("g2", &entries);
    other.set_key_status("g1", &entries);
    let gone = strings(&["d0", "d1"]);
    store.write(store.plans.delete_sender_key_device_rows(&gone)).unwrap();
    assert_eq!(store.key_status("g1").len(), 298);
    assert_eq!(store.key_status("g2").len(), 298);
    assert_eq!(other.key_status("g1").len(), 300);
    store.write(store.plans.clear_all_sender_key_devices()).unwrap();
    assert!(store.key_status("g1").is_empty());
    assert!(store.key_status("g2").is_empty());
    assert_eq!(other.key_status("g1").len(), 300);
}

#[test]
fn group_metadata_round_trip_sqlite() {
    let store = TestStore::new(1);
    let jid = "120363000000000001@g.us";
    let get = || first_blob(&store.read(store.plans.get_group_metadata(jid))).unwrap();
    assert!(get().is_none());
    store.write(store.plans.put_group_metadata(jid, b"blob-v1", 1)).unwrap();
    assert_eq!(get().as_deref(), Some(&b"blob-v1"[..]));
    store.write(store.plans.put_group_metadata(jid, b"blob-v2", 2)).unwrap();
    assert_eq!(get().as_deref(), Some(&b"blob-v2"[..]));
    store.write(store.plans.delete_group_metadata(jid)).unwrap();
    assert!(get().is_none());
}

// ---------------------------------------------------------------------------------------
// Tokens

#[test]
fn test_tc_token_put_and_get() {
    let store = TestStore::new(1);
    store.put_token("user@lid", &[1, 2, 3, 4, 5], 1707000000, Some(1707000100));
    let loaded = store.token("user@lid").unwrap();
    assert_eq!(loaded.token, vec![1, 2, 3, 4, 5]);
    assert_eq!(loaded.token_timestamp, 1707000000);
    assert_eq!(loaded.sender_timestamp, Some(1707000100));
}

#[test]
fn test_tc_tokens_batched_get_answers_in_the_order_asked() {
    let store = TestStore::new(1);
    for (jid, byte) in [("a@lid", 1u8), ("c@lid", 3u8)] {
        store.put_token(jid, &[byte], 1000 + i64::from(byte), None);
    }
    let asked = strings(&["c@lid", "b@lid", "a@lid", "c@lid"]);
    let got = tokens_answer(&asked, &store.read(store.plans.get_tc_tokens(&asked))).unwrap();
    assert_eq!(
        got.iter().map(|entry| entry.as_ref().map(|e| e.token.clone())).collect::<Vec<_>>(),
        vec![Some(vec![3]), None, Some(vec![1]), Some(vec![3])],
    );
    let none = store.read(store.plans.get_tc_tokens(&[]));
    assert!(tokens_answer(&[], &none).unwrap().is_empty());
}

#[test]
fn test_tc_token_upsert() {
    let store = TestStore::new(1);
    store.put_token("user@lid", &[1, 2, 3], 1000, None);
    store.put_token("user@lid", &[4, 5, 6], 2000, Some(1500));
    let loaded = store.token("user@lid").unwrap();
    assert_eq!(loaded.token, vec![4, 5, 6]);
    assert_eq!(loaded.token_timestamp, 2000);
    assert_eq!(loaded.sender_timestamp, Some(1500));
}

#[test]
fn test_tc_token_delete() {
    let store = TestStore::new(1);
    store.put_token("user@lid", &[1, 2, 3], 1000, None);
    store.write(store.plans.delete_tc_token("user@lid")).unwrap();
    assert!(store.token("user@lid").is_none());
}

#[test]
fn test_touch_and_store_received_preserve_each_others_field() {
    let store = TestStore::new(1);
    store.touch_token("user@lid", 5000);
    store.receive_token("user@lid", &[7, 8, 9], 4000);
    let a = store.token("user@lid").unwrap();
    assert_eq!(a.token, vec![7, 8, 9]);
    assert_eq!(a.token_timestamp, 4000);
    assert_eq!(a.sender_timestamp, Some(5000));

    store.touch_token("user@lid", 6000);
    let b = store.token("user@lid").unwrap();
    assert_eq!(b.token, vec![7, 8, 9]);
    assert_eq!(b.sender_timestamp, Some(6000));

    store.touch_token("user@lid", 1000);
    let c = store.token("user@lid").unwrap();
    assert_eq!(c.sender_timestamp, Some(6000));
}

#[test]
fn store_received_tc_token_is_newer_wins() {
    let store = TestStore::new(1);
    store.receive_token("c@lid", &[1, 1, 1], 5000);
    store.receive_token("c@lid", &[2, 2, 2], 3000);
    let e = store.token("c@lid").unwrap();
    assert_eq!(e.token, vec![1, 1, 1]);
    assert_eq!(e.token_timestamp, 5000);

    store.receive_token("c@lid", &[3, 3, 3], 7000);
    let e = store.token("c@lid").unwrap();
    assert_eq!(e.token, vec![3, 3, 3]);
    assert_eq!(e.token_timestamp, 7000);

    store.touch_token("p@lid", 9000);
    store.receive_token("p@lid", &[4, 4, 4], 6000);
    let e = store.token("p@lid").unwrap();
    assert_eq!(e.token, vec![4, 4, 4]);
    assert_eq!(e.token_timestamp, 6000);
    assert_eq!(e.sender_timestamp, Some(9000));
}

#[test]
fn the_newer_token_wins_in_any_order() {
    for times in [[5, 7], [7, 5]] {
        let store = TestStore::new(1);
        store.touch_token("c@lid", 3);
        for time in times {
            store.receive_token("c@lid", &[time as u8], time);
        }
        let e = store.token("c@lid").unwrap();
        assert_eq!((e.token, e.token_timestamp, e.sender_timestamp), (vec![7], 7, Some(3)));
    }
}

#[test]
fn a_token_of_the_same_age_replaces_the_stored_one() {
    let store = TestStore::new(1);
    store.receive_token("c@lid", &[1], 5000);
    store.receive_token("c@lid", &[2], 5000);
    assert_eq!(store.token("c@lid").unwrap().token, vec![2]);
}

#[test]
fn test_delete_expired_two_window_pruning() {
    let store = TestStore::new(1);
    store.touch_token("recent_ph@lid", 2500);
    store.touch_token("stale_ph@lid", 100);
    store.put_token("expired_live_sender@lid", &[1], 1, Some(2500));
    store.put_token("orphan_expired@lid", &[2], 1, None);
    assert_eq!(store.write(store.plans.delete_expired_tc_tokens(1000, 2000)).unwrap(), 2);
    assert!(store.token("recent_ph@lid").is_some());
    assert!(store.token("stale_ph@lid").is_none());
    assert!(store.token("expired_live_sender@lid").is_some());
    assert!(store.token("orphan_expired@lid").is_none());
}

#[test]
fn test_tc_token_get_all_jids() {
    let store = TestStore::new(1);
    for jid in ["user1@lid", "user2@lid", "user3@lid"] {
        store.put_token(jid, &[1], 1000, None);
    }
    let mut jids = jids_answer(&store.read(store.plans.get_all_tc_token_jids())).unwrap();
    jids.sort();
    assert_eq!(jids, vec!["user1@lid", "user2@lid", "user3@lid"]);
}

#[test]
fn test_tc_token_delete_expired() {
    let store = TestStore::new(1);
    store.put_token("old@lid", &[1], 1000, None);
    store.put_token("recent@lid", &[2], 5000, None);
    assert_eq!(store.write(store.plans.delete_expired_tc_tokens(3000, 3000)).unwrap(), 1);
    assert!(store.token("old@lid").is_none());
    assert!(store.token("recent@lid").is_some());
}

#[test]
fn test_tc_token_get_nonexistent() {
    let store = TestStore::new(1);
    assert!(store.token("nonexistent@lid").is_none());
}

// ---------------------------------------------------------------------------------------
// Message secrets

#[test]
fn msg_secret_round_trip_sqlite() {
    let store = TestStore::new(1);
    store.put_secret("12345@s.whatsapp.net", "9999@lid", "MID1", &[0xAB; 32]);
    let got = store.secret("12345@s.whatsapp.net", "9999@lid", "MID1").unwrap();
    assert_eq!(got, vec![0xAB; 32]);
}

#[test]
fn msg_secret_miss_returns_none_sqlite() {
    let store = TestStore::new(1);
    assert!(store.secret("any@s.whatsapp.net", "any@lid", "NOPE").is_none());
}

#[test]
fn msg_secret_upsert_replaces_secret() {
    let store = TestStore::new(1);
    store.put_secret("c", "s", "M", &[1; 32]);
    store.put_secret("c", "s", "M", &[9; 32]);
    assert_eq!(store.secret("c", "s", "M").unwrap(), vec![9; 32]);
}

#[test]
fn msg_secret_scoped_by_three_columns() {
    let store = TestStore::new(1);
    let all = [
        ("c1", "s1", "M1", 1u8),
        ("c1", "s1", "M2", 2),
        ("c1", "s2", "M1", 3),
        ("c2", "s1", "M1", 4),
    ];
    for (chat, sender, id, byte) in all {
        store.put_secret(chat, sender, id, &[byte; 32]);
    }
    for (chat, sender, id, byte) in all {
        assert_eq!(store.secret(chat, sender, id).unwrap(), vec![byte; 32]);
    }
}

#[test]
fn msg_secret_batch_upserts_in_one_call() {
    let store = TestStore::new(1);
    let mut entries: Vec<MsgSecretEntry> = (0..=MSG_SECRET_INSERT_CHUNK_SIZE)
        .map(|index| secret_entry("c", "s", &format!("M{index}"), [0x5a; 32], 0, 0))
        .collect();
    entries.push(secret_entry("c", "s", "M0", [0xa5; 32], 0, 0));
    let expected = entries.len();
    let plan = store.plans.put_msg_secrets(&entries);
    assert!(plan.statements.len() > 1);
    assert_eq!(store.write(plan).unwrap(), expected);
    assert_eq!(store.secret("c", "s", "M0").unwrap(), vec![0xa5; 32]);
    let last = format!("M{MSG_SECRET_INSERT_CHUNK_SIZE}");
    assert_eq!(store.secret("c", "s", &last).unwrap(), vec![0x5a; 32]);
}

#[test]
fn delete_expired_msg_secrets_deletes_only_passed_deadlines() {
    let store = TestStore::new(1);
    let now = now_secs();
    let entries = [
        secret_entry("c", "s", "NEVER", [1; 32], 0, 0),
        secret_entry("c", "s", "FUTURE", [2; 32], now + 86_400, 0),
        secret_entry("c", "s", "PAST", [3; 32], now - 86_400, 0),
    ];
    store.write(store.plans.put_msg_secrets(&entries)).unwrap();
    assert_eq!(store.write(store.plans.delete_expired_msg_secrets(now)).unwrap(), 1);
    assert!(store.secret("c", "s", "NEVER").is_some());
    assert!(store.secret("c", "s", "FUTURE").is_some());
    assert!(store.secret("c", "s", "PAST").is_none());
}

#[test]
fn put_msg_secrets_keeps_later_deadline_on_conflict() {
    let store = TestStore::new(1);
    let now = now_secs();
    for days in [90, 30] {
        let entry = secret_entry("c", "s", "M", [1; 32], now + days * 86_400, 0);
        store.write(store.plans.put_msg_secrets(&[entry])).unwrap();
    }
    let plan = store.plans.delete_expired_msg_secrets(now + 60 * 86_400);
    assert_eq!(store.write(plan).unwrap(), 0);
    store.put_secret("c", "s", "M", &[1; 32]);
    let plan = store.plans.delete_expired_msg_secrets(now + 200 * 86_400);
    assert_eq!(store.write(plan).unwrap(), 0);
}

#[test]
fn deadlines_merge_in_any_order() {
    for (deadlines, stays) in [
        ([10, 20, 15], 20),
        ([20, 15, 10], 20),
        ([10, 0, 20], 0),
        ([0, 20, 10], 0),
    ] {
        let store = TestStore::new(1);
        for at in deadlines {
            let entry = secret_entry("c", "s", "M", [1; 32], at, at);
            store.write(store.plans.put_msg_secrets(&[entry])).unwrap();
        }
        assert_eq!(store.count("SELECT expires_at FROM msg_secrets"), stays);
        let latest = deadlines.into_iter().max().unwrap();
        assert_eq!(store.secret_with_ts("c", "s", "M").unwrap().1, latest);
    }
}

#[test]
fn get_msg_secret_with_ts_round_trips_and_keeps_parent_ts() {
    let store = TestStore::new(1);
    let parent_ts = 1_700_000_000i64;
    let entry = secret_entry("c", "s", "M", [5; 32], 0, parent_ts);
    store.write(store.plans.put_msg_secrets(&[entry])).unwrap();
    assert_eq!(store.secret_with_ts("c", "s", "M"), Some((vec![5; 32], parent_ts)));
    store.put_secret("c", "s", "M", &[5; 32]);
    assert_eq!(store.secret_with_ts("c", "s", "M"), Some((vec![5; 32], parent_ts)));
    assert_eq!(store.secret_with_ts("c", "s", "MISSING"), None);
}

#[test]
fn msg_secret_isolated_per_device_id() {
    let a = TestStore::new(1);
    let b = a.share(2);
    a.put_secret("c", "s", "M", &[7; 32]);
    assert!(b.secret("c", "s", "M").is_none());
    assert_eq!(a.secret("c", "s", "M").unwrap(), vec![7; 32]);
}

#[test]
fn the_secret_prune_is_scoped_to_one_device() {
    let device_1 = TestStore::new(1);
    let device_2 = device_1.share(2);
    let now = now_secs();
    let who = "19045550180@s.whatsapp.net";
    for (store, marker) in [(&device_1, 1u8), (&device_2, 2u8)] {
        let entry = secret_entry(who, who, "SHARED_EXPIRED", [marker; 32], now - 86_400, 0);
        store.write(store.plans.put_msg_secrets(&[entry])).unwrap();
    }
    assert_eq!(device_1.write(device_1.plans.delete_expired_msg_secrets(now)).unwrap(), 1);
    assert!(device_1.secret(who, who, "SHARED_EXPIRED").is_none());
    assert!(device_2.secret(who, who, "SHARED_EXPIRED").is_some());
}

// ---------------------------------------------------------------------------------------
// Base keys and mappings

#[test]
fn the_base_key_sweep_deletes_only_backdated_rows() {
    let store = TestStore::new(1);
    let now = now_secs();
    let address = "1@s.whatsapp.net.0";
    store.write(store.plans.save_base_key(address, "OLD", &[0xAA; 32], now)).unwrap();
    store.write(store.plans.save_base_key(address, "NEW", &[0xBB; 32], now)).unwrap();
    store.raw("UPDATE base_keys SET created_at = created_at - 7200 WHERE message_id = 'OLD'");
    assert_eq!(store.write(store.plans.delete_expired_base_keys(now - 3600)).unwrap(), 1);
    assert!(!store.same_base_key(address, "OLD", &[0xAA; 32]));
    assert!(store.same_base_key(address, "NEW", &[0xBB; 32]));
    assert!(!store.same_base_key(address, "NEW", &[0xBC; 32]));
}

#[test]
fn a_base_key_keeps_its_age_when_it_is_saved_again() {
    let store = TestStore::new(1);
    store.write(store.plans.save_base_key("a", "M", &[1], 100)).unwrap();
    store.write(store.plans.save_base_key("a", "M", &[2], 200)).unwrap();
    assert!(store.same_base_key("a", "M", &[2]));
    assert_eq!(store.count("SELECT created_at FROM base_keys"), 100);
    store.write(store.plans.delete_base_key("a", "M")).unwrap();
    assert!(!store.same_base_key("a", "M", &[2]));
}

fn mapping(lid: &str, phone: &str, created: i64, updated: i64) -> LidPnMappingEntry {
    LidPnMappingEntry {
        lid: lid.to_string(),
        phone_number: phone.to_string(),
        created_at: created,
        updated_at: updated,
        learning_source: "usync".to_string(),
    }
}

#[test]
fn mappings_keep_when_they_were_learned() {
    let store = TestStore::new(1);
    let (plan, id) = store.plans.create(&generated());
    store.write(plan).unwrap();
    assert_eq!(id, 1);
    store.write(store.plans.put_lid_mapping(&mapping("L1", "P1", 10, 10))).unwrap();
    let more = [mapping("L1", "P2", 20, 30), mapping("L2", "P2", 25, 25)];
    store.write(store.plans.put_lid_mappings(&more)).unwrap();
    let one = mapping_answer(&store.read(store.plans.get_lid_mapping("L1"))).unwrap().unwrap();
    assert_eq!(one.phone_number, "P2");
    assert_eq!(one.created_at, 10);
    assert_eq!(one.updated_at, 30);
    // Two identities claim the number: the one that was learned last answers.
    let of = mapping_answer(&store.read(store.plans.get_pn_mapping("P2"))).unwrap().unwrap();
    assert_eq!(of.lid, "L1");
    let all = mappings_answer(&store.read(store.plans.get_all_lid_mappings())).unwrap();
    assert_eq!(all.len(), 2);
    assert!(mapping_answer(&store.read(store.plans.get_lid_mapping("L3"))).unwrap().is_none());
}

#[test]
fn a_mapping_needs_its_account() {
    let store = TestStore::new(1);
    let refused = store.write(store.plans.put_lid_mapping(&mapping("L1", "P1", 10, 10)));
    assert!(matches!(refused, Err(StoreError::Database(Fault::Other(_)))));
    assert_eq!(store.count("SELECT count(*) FROM lid_pn_mapping"), 0);
}

// ---------------------------------------------------------------------------------------
// Accounts

#[test]
fn test_create_new_device_uses_configured_device_id() {
    let store = TestStore::new(42);
    assert!(!store.device_exists(42));
    let (plan, id) = store.plans.create_new_device(&generated());
    store.write(plan).unwrap();
    assert_eq!(id, 42);
    assert!(store.device_exists(42));
    assert!(!store.device_exists(1));
    assert!(store.load(42).is_some());
}

#[test]
fn an_account_is_not_created_twice() {
    let store = TestStore::new(7);
    let mut first = generated();
    first.push_name = "ignored".to_string();
    store.write(store.plans.create_new_device(&first).0).unwrap();
    let again = store.write(store.plans.create_new_device(&generated()).0);
    assert!(matches!(again, Err(StoreError::Database(Fault::Other(_)))));
    assert_eq!(store.count("SELECT count(*) FROM device"), 1);
}

#[test]
fn test_prekey_watermarks_survive_save_load_roundtrip() {
    let store = TestStore::new(9);
    store.write(store.plans.create_new_device(&generated()).0).unwrap();
    let mut device = store.load(9).unwrap();
    assert_eq!(device.first_unupload_pre_key_id, 0);
    device.next_pre_key_id = 913;
    device.first_unupload_pre_key_id = 101;
    store.write(store.plans.save_device_data_for_device(9, &device)).unwrap();
    let loaded = store.load(9).unwrap();
    assert_eq!(loaded.next_pre_key_id, 913);
    assert_eq!(loaded.first_unupload_pre_key_id, 101);
}

#[test]
fn test_server_cert_chain_survives_save_load_roundtrip() {
    let store = TestStore::new(7);
    store.write(store.plans.create_new_device(&generated()).0).unwrap();
    let mut device = store.load(7).unwrap();
    device.server_cert_chain = Some(vec![0xAB, 0xCD, 1]);
    store.write(store.plans.save(&device)).unwrap();
    let mut loaded = store.load(7).unwrap();
    assert_eq!(loaded.server_cert_chain, Some(vec![0xAB, 0xCD, 1]));

    // A chain without its mark comes back without it.
    loaded.server_cert_chain = Some(vec![0xAB, 0xCD]);
    store.write(store.plans.save(&loaded)).unwrap();
    assert_eq!(store.load(7).unwrap().server_cert_chain, Some(vec![0xAB, 0xCD]));

    // A chain that the codec does not take is as good as none.
    let rows = store.read(store.plans.load());
    let outcome = Decoded { server_cert_chain: false, ..decoded() };
    assert_eq!(load_device_row(&rows[0], outcome).unwrap().server_cert_chain, None);

    loaded.server_cert_chain = None;
    store.write(store.plans.save(&loaded)).unwrap();
    assert_eq!(store.load(7).unwrap().server_cert_chain, None);
    assert_eq!(store.count("SELECT count(*) FROM device WHERE server_cert_chain IS NULL"), 1);
}

#[test]
fn a_saved_account_loads_as_it_was() {
    let store = TestStore::new(3);
    let mut saved = generated();
    saved.lid = Some("100@lid".to_string());
    saved.pn = Some("200@s.whatsapp.net".to_string());
    saved.account = Some(vec![1, 2, 3]);
    saved.push_name = "Alice".to_string();
    saved.app_version_last_fetched_ms = 1_700_000_000_123;
    saved.edge_routing_info = Some(vec![]);
    saved.props_hash = Some("hash".to_string());
    saved.next_pre_key_id = 4_294_967_295;
    saved.nct_salt = Some(vec![4; 16]);
    saved.server_has_prekeys = true;
    saved.login_counter = -5;
    saved.lid_migrated = true;
    saved.last_signed_pre_key_rotation_ms = 1;
    saved.read_receipts_disabled = true;
    saved.server_client_expiration = Some("{}".to_string());
    saved.nct_salt_sync_seen = true;
    store.write(store.plans.save(&saved)).unwrap();
    let loaded = store.load(3).unwrap();
    saved.nct_salt_sync_seen = false;
    assert_eq!(format!("{loaded:?}"), format!("{saved:?}"));
}

#[test]
fn a_stored_key_of_the_wrong_length_is_reported() {
    let store = TestStore::new(3);
    store.write(store.plans.save(&generated())).unwrap();
    let load = || {
        let rows = store.read(store.plans.load());
        load_device_row(&rows[0], decoded())
    };
    assert!(load().is_ok());
    store.raw("UPDATE device SET signed_pre_key_signature = x'00'");
    assert!(matches!(load(), Err(StoreError::Validation(_))));
    store.write(store.plans.save(&generated())).unwrap();
    store.raw("UPDATE device SET adv_secret_key = x'00'");
    assert!(matches!(load(), Err(StoreError::Validation(_))));
    store.write(store.plans.save(&generated())).unwrap();
    store.raw("UPDATE device SET noise_key = x'00'");
    assert!(matches!(load(), Err(StoreError::Validation(_))));
}

#[test]
fn siblings_share_the_database_but_not_each_other_s_rows() {
    let device_1 = TestStore::new(1);
    let device_2 = device_1.share(2);
    assert_eq!(device_2.plans.device_id(), 2);
    device_1.write(device_1.plans.put_session("alice.1:0", b"device-1-record")).unwrap();
    let rows = device_2.read(device_2.plans.get_session_for_device("alice.1:0", 1));
    assert_eq!(first_blob(&rows).unwrap(), Some(b"device-1-record".to_vec()));
    assert_eq!(device_2.session("alice.1:0"), None);
    device_2.write(device_2.plans.put_session("alice.1:0", b"device-2-record")).unwrap();
    assert_eq!(device_1.session("alice.1:0"), Some(b"device-1-record".to_vec()));
}

#[test]
fn account_scoped_table_list_covers_the_schema() {
    let store = TestStore::new(1);
    let lines: Vec<Line> = diesel::sql_query(
        "SELECT m.name AS name FROM sqlite_master AS m \
         WHERE m.type = 'table' AND m.name NOT LIKE 'sqlite_%' AND m.name <> 'device' \
           AND EXISTS (SELECT 1 FROM pragma_table_info(m.name) WHERE name = 'device_id') \
         ORDER BY m.name",
    )
    .load(&mut *store.conn.borrow_mut())
    .unwrap();
    let found: Vec<String> = lines
        .into_iter()
        .map(|line| match &line.0[0] {
            Cell::Value(Value::Text(name)) => name.clone(),
            _ => panic!("not a name"),
        })
        .collect();
    let mut listed: Vec<String> =
        account_scoped_table_list().into_iter().map(|t| t.name().to_string()).collect();
    listed.sort();
    assert_eq!(found, listed);
}

#[test]
fn create_sibling_device_allocates_and_binds() {
    let base = TestStore::new(1);
    let first = base.create_sibling();
    let second = base.create_sibling();
    assert_ne!(first, second);
    assert_eq!(base.share(first).plans.device_id(), first);
    let listed = account_rows(&base.read(base.plans.list_devices())).unwrap();
    assert_eq!(listed.len(), 2);
    assert_eq!(listed[0].id, first);
    assert!(listed.iter().all(|d| d.pn.is_empty()));
}

#[test]
fn list_devices_reports_pn_lid_and_push_name() {
    let base = TestStore::new(1);
    base.write(base.plans.create_new_device(&generated()).0).unwrap();
    base.raw(
        "UPDATE device SET pn = '559980000001@s.whatsapp.net', lid = '100000012345678@lid', \
         push_name = 'Alice' WHERE id = 1",
    );
    let id = base.create_sibling();
    let parse = |jid: &str| jid.split_once('@').map(|(user, _)| user.to_string());
    let listed: Vec<_> = account_rows(&base.read(base.plans.list_devices()))
        .unwrap()
        .into_iter()
        .map(|account| {
            let (pn, lid) = (parse(&account.pn), parse(&account.lid));
            summarize(account, pn, lid)
        })
        .collect();
    assert_eq!(listed.len(), 2);
    let paired = listed.iter().find(|d| d.id == 1).unwrap();
    assert_eq!(paired.push_name, "Alice");
    assert!(paired.linked);
    assert_eq!(paired.pn.as_deref(), Some("559980000001"));
    assert_eq!(paired.lid.as_deref(), Some("100000012345678"));
    let fresh = listed.iter().find(|d| d.id == id).unwrap();
    assert!(!fresh.linked);
    assert!(fresh.pn.is_none() && fresh.lid.is_none());
}

#[test]
fn the_list_of_accounts_is_sorted_complete_and_without_repeats() {
    let base = TestStore::new(5);
    base.write(base.plans.create_new_device(&generated()).0).unwrap();
    let low = base.share(2);
    low.write(low.plans.create_new_device(&generated()).0).unwrap();
    let gone = base.create_sibling();
    let last = base.create_sibling();
    base.tear_down(base.plans.remove_device(gone)).unwrap();
    for store in [&base, &low, &base.share(77)] {
        let ids: Vec<i32> = account_rows(&store.read(store.plans.list_devices()))
            .unwrap()
            .iter()
            .map(|account| account.id)
            .collect();
        assert_eq!(ids, vec![2, 5, last]);
        for id in 0..=last + 1 {
            assert_eq!(ids.contains(&id), store.device_exists(id));
        }
    }
}

#[test]
fn a_refused_write_leaves_what_is_stored() {
    let store = TestStore::new(1);
    let mut other = generated();
    other.registration_id = 7;
    assert!(store.write(store.plans.put_lid_mapping(&mapping("lid", "pn", 1, 1))).is_err());
    let several = [mapping("lid", "pn", 1, 1), mapping("lid2", "pn2", 1, 1)];
    assert!(store.write(store.plans.put_lid_mappings(&several)).is_err());
    assert_eq!(store.count("SELECT COUNT(*) FROM lid_pn_mapping"), 0);
    store.write(store.plans.create_new_device(&generated()).0).unwrap();
    assert!(store.write(store.plans.create_new_device(&other).0).is_err());
    assert_eq!(store.load(1).unwrap().registration_id, 4_000_000_000);
    store.write(store.plans.put_lid_mapping(&mapping("lid", "pn", 1, 1))).unwrap();
    // A save goes over the stored account, and its mappings stay.
    store.write(store.plans.save_device_data_for_device(1, &other)).unwrap();
    assert_eq!(store.load(1).unwrap().registration_id, 7);
    assert_eq!(store.count("SELECT COUNT(*) FROM lid_pn_mapping"), 1);
}

/// One value, read under each of the types that the columns have.
struct Typed {
    number: i64,
    text: Option<String>,
    bytes: Vec<u8>,
    truth: bool,
}

impl QueryableByName<Sqlite> for Typed {
    fn build<'a>(row: &impl NamedRow<'a, Sqlite>) -> deserialize::Result<Self> {
        Ok(Typed {
            number: NamedRow::get::<BigInt, i64>(row, "v")?,
            text: NamedRow::get::<Text, String>(row, "v").ok(),
            bytes: NamedRow::get::<Binary, Vec<u8>>(row, "v")?,
            truth: NamedRow::get::<Bool, bool>(row, "v")?,
        })
    }
}

#[test]
fn values_of_any_class_are_read_as_diesel_reads_them() {
    let mut conn = SqliteConnection::establish(":memory:").unwrap();
    for literal in [
        "0",
        "42",
        "-42",
        "4294967296",
        "9223372036854775807",
        "(-9223372036854775807 - 1)",
        "'12abc'",
        "'  -7 '",
        "char(9, 10, 13, 43, 53)",
        "'- 5'",
        "'007'",
        "'9223372036854775807'",
        "'9223372036854775808'",
        "'-9223372036854775808'",
        "'-9223372036854775809'",
        "'00000000000000000000000000001'",
        "'184467440737095516160'",
        "''",
        "'abc'",
        "'\u{e9}1'",
        "'1.5'",
        "x''",
        "x'3132'",
        "x'ff41'",
        "x'203133fe'",
        "CAST(x'31fe' AS TEXT)",
        "1.5",
        "-2.5",
        "1e20",
        "0.0",
    ] {
        let sql = format!("SELECT {literal} AS v");
        let typed: Vec<Typed> = diesel::sql_query(sql.as_str()).load(&mut conn).unwrap();
        let number = fetch_first(&mut conn, &sql, true);
        let other = fetch_first(&mut conn, &sql, false);
        assert_eq!(read_int(&number, 0).unwrap(), typed[0].number, "{literal}");
        assert_eq!(read_flag(&number, 0).unwrap(), typed[0].truth, "{literal}");
        assert_eq!(read_text(&other, 0).ok(), typed[0].text, "{literal}");
        assert_eq!(read_blob(&other, 0).unwrap(), typed[0].bytes, "{literal}");
    }
    let null = fetch_first(&mut conn, "SELECT NULL AS v", true);
    assert!(read_int(&null, 0).is_err() && read_flag(&null, 0).is_err());
    assert!(read_text(&null, 0).is_err() && read_blob(&null, 0).is_err());
}

#[test]
fn fractions_are_read_by_what_their_column_is_for() {
    let store = TestStore::new(1);
    store.raw("INSERT INTO tc_tokens VALUES ('jid', 2.5, 7.9, NULL, 1, 1)");
    let token = store.token("jid").unwrap();
    assert_eq!(token.token, b"2.5".to_vec());
    assert_eq!(token.token_timestamp, 7);
    assert_eq!(token.sender_timestamp, None);
}

/// A row in every table of account state.
fn seed_account_scoped_rows(store: &TestStore) {
    let plans = &store.plans;
    store.write(plans.set_sync_key(b"k", b"d")).unwrap();
    store.write(plans.put_mutation_macs("regular", 1, &[mac(&[1; 32], &[1; 32])])).unwrap();
    store.write(plans.set_version("regular", b"v")).unwrap();
    store.write(plans.save_base_key("a", "m", b"b", 1)).unwrap();
    store.write(plans.update_device_list(&record("u", "[]", 1, None, None), 1)).unwrap();
    store.write(plans.put_group_metadata("g", b"i", 1)).unwrap();
    store.write(plans.put_identity("a", [1; 32])).unwrap();
    store.write(plans.put_lid_mapping(&mapping("L", "P", 1, 1))).unwrap();
    store.put_secret("c", "s", "m", &[1; 32]);
    store.write(plans.store_pending_inbound("c", "s", "i", b"m")).unwrap();
    store.write(plans.store_prekey(1, b"p", false)).unwrap();
    store.set_key_status("g", &[("d", true)]);
    store.write(plans.put_sender_key("a", b"r")).unwrap();
    store.write(plans.store_sent_message("c", "m", b"p")).unwrap();
    store.write(plans.put_session("a", b"s")).unwrap();
    store.write(plans.store_signed_prekey(1, b"s")).unwrap();
    store.put_token("j", &[1], 1, None);
}

#[test]
fn reset_device_clears_state_and_keeps_the_id() {
    let base = TestStore::new(1);
    let id = base.create_sibling();
    let account = base.share(id);
    seed_account_scoped_rows(&account);
    let other = base.share(base.create_sibling());
    seed_account_scoped_rows(&other);
    assert!(base.scoped_row_counts(id).iter().all(|(_, n)| *n == 1));

    base.tear_down(base.plans.reset_device(id, &generated())).unwrap();
    assert!(base.scoped_row_counts(id).iter().all(|(_, n)| *n == 0));
    assert!(base.scoped_row_counts(other.plans.device_id).iter().all(|(_, n)| *n == 1));
    assert!(base.load(id).unwrap().pn.is_none());
    let listed = account_rows(&base.read(base.plans.list_devices())).unwrap();
    assert!(listed.iter().any(|d| d.id == id));
}

#[test]
fn remove_device_purges_and_retires_the_id() {
    let base = TestStore::new(1);
    let id = base.create_sibling();
    seed_account_scoped_rows(&base.share(id));
    assert!(base.scoped_row_counts(id).iter().all(|(_, n)| *n == 1));
    base.tear_down(base.plans.remove_device(id)).unwrap();
    assert!(!base.device_exists(id));
    assert!(base.scoped_row_counts(id).iter().all(|(_, n)| *n == 0));
    assert_ne!(base.create_sibling(), id);
}

#[test]
fn lifecycle_ops_reject_an_unknown_device() {
    let base = TestStore::new(1);
    base.write(base.plans.create_new_device(&generated()).0).unwrap();
    let reset = base.tear_down(base.plans.reset_device(9_999, &generated())).err();
    assert!(matches!(reset, Some(StoreError::DeviceNotFound(9_999))));
    let remove = base.tear_down(base.plans.remove_device(9_999)).err();
    assert!(matches!(remove, Some(StoreError::DeviceNotFound(9_999))));
    assert!(!base.device_exists(9_999));
}

#[test]
fn a_sibling_table_cascades_away_with_its_account() {
    let base = TestStore::new(1);
    let id = base.create_sibling();
    base.raw(
        "CREATE TABLE sibling_chat_store (chat_jid TEXT NOT NULL, device_id INTEGER NOT NULL, \
         PRIMARY KEY (chat_jid, device_id), \
         FOREIGN KEY(device_id) REFERENCES device(id) ON DELETE CASCADE)",
    );
    let seed = format!("INSERT INTO sibling_chat_store VALUES ('chat@c.us', {id})");
    let rows = || base.count("SELECT count(*) FROM sibling_chat_store");
    base.raw(&seed);
    assert_eq!(rows(), 1);
    base.tear_down(base.plans.reset_device(id, &generated())).unwrap();
    assert_eq!(rows(), 0);
    base.raw(&seed);
    base.tear_down(base.plans.remove_device(id)).unwrap();
    assert_eq!(rows(), 0);
}

// ---------------------------------------------------------------------------------------
// The report

#[test]
fn resource_report_bounds_cache_by_db_size_and_cap() {
    let store = TestStore::new(1);
    let macs: Vec<AppStateMutationMAC> = (0..500u32)
        .map(|i| {
            let mut index_mac = vec![0u8; 32];
            index_mac[..4].copy_from_slice(&i.to_le_bytes());
            mac(&index_mac, &[(i % 251) as u8; 32])
        })
        .collect();
    store.write(store.plans.put_app_state_mutation_macs_for_device("coll", 1, &macs, 1)).unwrap();
    let pragma = |name: &str| Some(store.count(&pragma_i64(name).unwrap()));
    let report = StorageResourceReport::of(Readings {
        page_size: pragma("page_size"),
        page_count: pragma("page_count"),
        cache_size: pragma("cache_size"),
        freelist_count: pragma("freelist_count"),
        wal_bytes: None,
        write_connections: 1,
        read_connections: 0,
    });
    assert!(report.pages.unwrap() > 0);
    let mem = report.memory_bytes.unwrap();
    assert!(mem > 0);
    assert!(mem <= 512 * 1024);
    assert_eq!(report.io_read_bytes, None);
    assert_eq!(report.io_write_bytes, None);
}

// ---------------------------------------------------------------------------------------
// Connections

#[test]
fn a_reader_connection_refuses_writes() {
    let store = TestStore::new(1);
    store.write(store.plans.put_session("a", b"s")).unwrap();
    for pragma in SqliteStoreConfig::default().connection_options(true).pragmas() {
        store.raw(&pragma);
    }
    assert_eq!(store.session("a"), Some(b"s".to_vec()));
    assert!(store.write(store.plans.put_session("a", b"t")).is_err());
    assert_eq!(store.session("a"), Some(b"s".to_vec()));
}

/// Sets up a new connection, as a pool does.
fn acquire(
    conn: &mut SqliteConnection,
    options: ConnectionOptions,
    init: impl Fn(&mut SqliteConnection) -> Result<(), String>,
) -> Result<(), String> {
    for pragma in options.on_acquire(init(conn))? {
        conn.batch_execute(&pragma).map_err(|e| e.to_string())?;
    }
    Ok(())
}

fn busy_timeout(conn: &mut SqliteConnection) -> i64 {
    match fetch_first(conn, "PRAGMA busy_timeout", true)[0] {
        Value::Int(n) => n,
        _ => panic!("not a number"),
    }
}

#[test]
fn connection_init_error_rejects_connection_before_pragmas() {
    let mut conn = SqliteConnection::establish(":memory:").unwrap();
    let options = ConnectionOptions {
        cache_size_kib: 512,
        mmap_size: None,
        busy_timeout_ms: 30_000,
        synchronous: Synchronous::Normal,
        query_only: false,
    };
    let err = acquire(&mut conn, options, |_| Err("wrong key".to_string())).unwrap_err();
    assert!(err.contains("wrong key"));
    assert_eq!(busy_timeout(&mut conn), 0);
    acquire(&mut conn, options, |_| Ok(())).unwrap();
    assert_eq!(busy_timeout(&mut conn), 30_000);
}

#[test]
fn with_config_custom_tuning_builds_and_operates() {
    let def = SqliteStoreConfig::default();
    assert_eq!(def.pool_size, 1);
    assert_eq!(def.cache_size_kib, 512);
    let config = SqliteStoreConfig {
        pool_size: 2,
        read_pool_size: 0,
        cache_size_kib: 4096,
        mmap_size: None,
        busy_timeout: Timeout { secs: 7, nanos: 0 },
        synchronous: Synchronous::Full,
        incremental_vacuum: false,
        incremental_vacuum_pages: 400,
    };
    let store = TestStore::new(1);
    acquire(&mut store.conn.borrow_mut(), config.connection_options(false), |_| Ok(())).unwrap();
    let one = mac(&[1; 32], &[2; 32]);
    store.write(store.plans.put_app_state_mutation_macs_for_device("c", 1, &[one], 1)).unwrap();
    assert_eq!(store.mac("c", &[1; 32]), Some(vec![2; 32]));
    assert_eq!(store.count("PRAGMA cache_size"), -4096);
    assert_eq!(store.count("PRAGMA synchronous"), 2);
    assert_eq!(store.count("PRAGMA busy_timeout"), 7000);
}

#[test]
fn default_pragmas_are_normal_sync_and_memory_temp_store() {
    let store = TestStore::new(1);
    let pragma = |name: &str| store.count(&pragma_i64(name).unwrap());
    assert_eq!(pragma("synchronous"), 1);
    assert_eq!(pragma("temp_store"), 2);
    assert_eq!(pragma("cache_size"), -512);
    assert_eq!(pragma("foreign_keys"), 1);
    assert_eq!(store.count("PRAGMA busy_timeout"), 30_000);
    assert_eq!(store.count("PRAGMA journal_size_limit"), 33_554_432);
}
