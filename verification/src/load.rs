//! Reading accounts back.

use crate::device::{account_row, DeviceData, DeviceView};
use crate::effects::{asks, pins, reads_row, row_query};
use crate::error::StoreError;
use crate::keys::{array32, array64, deserialize_keypair, length_message, KeyPair};
use crate::model::{answers, device_key, holds, row_wf, Db};
use crate::plan::{equals, query_sound, ReadPlan, Source};
use crate::rows::{
    blob_at, first_int, int_at, is_mismatch, is_true, opt_blob_ok, opt_text_ok, read_blob,
    read_flag, read_int, read_opt_blob, read_opt_text, read_text, row_view, rows_view, text_at,
    Rows,
};
use crate::schema::{columns, key_of, lemma_positions, Column, Key, Table};
use crate::sql::{Cond, Order, Query, Want};
use crate::store::SqliteStore;
use crate::value::{flag, opt_text, Val, Value};
use vstd::prelude::*;

verus! {

broadcast use {vstd::string::group_string_axioms, vstd::seq::group_seq_axioms};

/// What the codecs and the cipher made of an account's stored values. For the values that an
/// account cannot do without, the error where there was one; for the others, whether they
/// could be decoded.
#[derive(Debug)]
pub struct Decoded {
    pub noise_key: Option<String>,
    pub identity_key: Option<String>,
    pub signed_pre_key: Option<String>,
    pub account: Option<String>,
    pub pn: bool,
    pub lid: bool,
    pub server_cert_chain: bool,
    pub server_client_expiration: bool,
}

/// Every stored value could be decoded.
pub open spec fn all_decoded(c: Decoded) -> bool {
    &&& c.noise_key is None && c.identity_key is None && c.signed_pre_key is None
    &&& c.account is None
    &&& c.pn && c.lid && c.server_cert_chain && c.server_client_expiration
}

/// Every column of an account's row can be read as what it is for.
pub open spec fn readable(row: Seq<Val>) -> bool {
    &&& row.len() == 28
    &&& text_at(row, 1) is Some
    &&& text_at(row, 2) is Some
    &&& int_at(row, 3) is Some
    &&& blob_at(row, 4) is Some
    &&& blob_at(row, 5) is Some
    &&& blob_at(row, 6) is Some
    &&& int_at(row, 7) is Some
    &&& blob_at(row, 8) is Some
    &&& blob_at(row, 9) is Some
    &&& opt_blob_ok(row, 10)
    &&& text_at(row, 11) is Some
    &&& int_at(row, 12) is Some
    &&& int_at(row, 13) is Some
    &&& int_at(row, 14) is Some
    &&& int_at(row, 15) is Some
    &&& opt_blob_ok(row, 16)
    &&& opt_text_ok(row, 17)
    &&& int_at(row, 18) is Some
    &&& opt_blob_ok(row, 19)
    &&& int_at(row, 20) is Some
    &&& opt_blob_ok(row, 21)
    &&& int_at(row, 22) is Some
    &&& int_at(row, 23) is Some
    &&& int_at(row, 24) is Some
    &&& int_at(row, 25) is Some
    &&& int_at(row, 26) is Some
    &&& opt_text_ok(row, 27)
}

/// Why an account cannot be loaded.
pub enum LoadFault {
    /// A stored key pair has this many bytes.
    KeyLength(nat),
    /// A stored key pair is none, or the account proof is not one, for this reason.
    Undecodable(Seq<char>),
    SignatureLength,
    SecretLength,
}

/// What is wrong with a stored key pair.
pub open spec fn key_fault(bytes: Seq<u8>, error: Option<Seq<char>>) -> Option<LoadFault> {
    if bytes.len() != 64 {
        Some(LoadFault::KeyLength(bytes.len()))
    } else {
        match error {
            Some(e) => Some(LoadFault::Undecodable(e)),
            None => None,
        }
    }
}

/// The first thing wrong with an account's row, in the order in which its values are looked at.
pub open spec fn load_fault(row: Seq<Val>, c: Decoded) -> Option<LoadFault> {
    let noise = key_fault(blob_at(row, 4)->0, opt_text(c.noise_key));
    let identity = key_fault(blob_at(row, 5)->0, opt_text(c.identity_key));
    let signed = key_fault(blob_at(row, 6)->0, opt_text(c.signed_pre_key));
    if noise is Some {
        noise
    } else if identity is Some {
        identity
    } else if signed is Some {
        signed
    } else if (blob_at(row, 8)->0).len() != 64 {
        Some(LoadFault::SignatureLength)
    } else if (blob_at(row, 9)->0).len() != 32 {
        Some(LoadFault::SecretLength)
    } else {
        match (blob_at(row, 10), opt_text(c.account)) {
            (Some(_), Some(e)) => Some(LoadFault::Undecodable(e)),
            _ => None,
        }
    }
}

/// An identity read back: none where it is empty or is no identity.
pub open spec fn jid_of(text: Seq<char>, decoded: bool) -> Option<Seq<char>> {
    if text.len() > 0 && decoded {
        Some(text)
    } else {
        None
    }
}

/// A number from the bits that a signed column holds.
pub open spec fn unsigned(n: int) -> u32 {
    (n as i32) as u32
}

/// A number from a wide column; zero where it does not fit.
pub open spec fn narrowed(n: int) -> u32 {
    if 0 <= n <= u32::MAX {
        n as u32
    } else {
        0
    }
}

/// The account that a row describes.
pub open spec fn account_of(row: Seq<Val>, c: Decoded) -> DeviceView {
    DeviceView {
        lid: jid_of(text_at(row, 1)->0, c.lid),
        pn: jid_of(text_at(row, 2)->0, c.pn),
        registration_id: unsigned(int_at(row, 3)->0),
        noise_key: blob_at(row, 4)->0,
        identity_key: blob_at(row, 5)->0,
        signed_pre_key: blob_at(row, 6)->0,
        signed_pre_key_id: unsigned(int_at(row, 7)->0),
        signed_pre_key_signature: blob_at(row, 8)->0,
        adv_secret_key: blob_at(row, 9)->0,
        account: blob_at(row, 10),
        push_name: text_at(row, 11)->0,
        app_version_primary: unsigned(int_at(row, 12)->0),
        app_version_secondary: unsigned(int_at(row, 13)->0),
        app_version_tertiary: narrowed(int_at(row, 14)->0),
        app_version_last_fetched_ms: (int_at(row, 15)->0) as i64,
        edge_routing_info: blob_at(row, 16),
        props_hash: text_at(row, 17),
        next_pre_key_id: unsigned(int_at(row, 18)->0),
        nct_salt: blob_at(row, 19),
        server_has_prekeys: is_true(int_at(row, 20)->0),
        server_cert_chain: if c.server_cert_chain {
            blob_at(row, 21)
        } else {
            None
        },
        login_counter: (int_at(row, 22)->0) as i32,
        first_unupload_pre_key_id: unsigned(int_at(row, 23)->0),
        lid_migrated: is_true(int_at(row, 24)->0),
        last_signed_pre_key_rotation_ms: (int_at(row, 25)->0) as i64,
        read_receipts_disabled: is_true(int_at(row, 26)->0),
        server_client_expiration: if c.server_client_expiration {
            text_at(row, 27)
        } else {
            None
        },
        nct_salt_sync_seen: false,
    }
}

/// The error that reports a fault.
pub open spec fn reports(error: StoreError, fault: LoadFault) -> bool {
    match fault {
        LoadFault::KeyLength(n) => error matches StoreError::Validation(m) && m@ == length_message(
            n,
        ),
        LoadFault::Undecodable(e) => error matches StoreError::Serialization(m) && m@ == e,
        LoadFault::SignatureLength => error matches StoreError::Validation(m) && m@
            == "Invalid signed_pre_key_signature length"@,
        LoadFault::SecretLength => error matches StoreError::Validation(m) && m@
            == "Invalid adv_secret_key length"@,
    }
}

/// A key pair read back, unless the cipher refused it.
fn read_keypair(bytes: &Vec<u8>, error: Option<String>) -> (r: Result<KeyPair, StoreError>)
    ensures
        match key_fault(bytes@, opt_text(error)) {
            Some(fault) => r matches Err(e) && reports(e, fault),
            None => r matches Ok(pair) && pair@ == bytes@,
        },
{
    match deserialize_keypair(bytes.as_slice()) {
        Err(e) => Err(e),
        Ok(pair) => match error {
            Some(e) => Err(StoreError::Serialization(e)),
            None => Ok(pair),
        },
    }
}

/// An identity read back.
fn read_jid(text: String, decoded: bool) -> (jid: Option<String>)
    ensures
        opt_text(jid) == jid_of(text@, decoded),
{
    if decoded && !text.as_str().is_empty() {
        Some(text)
    } else {
        None
    }
}

/// A number from a wide column; zero where it does not fit.
fn narrow(n: i64) -> (v: u32)
    ensures
        v == narrowed(n as int),
{
    if 0 <= n && n <= 4_294_967_295 {
        n as u32
    } else {
        0
    }
}

/// The account that a row describes, given what the codecs and the cipher made of its values.
pub fn load_device_row(row: &Vec<Value>, c: Decoded) -> (r: Result<DeviceData, StoreError>)
    ensures
        if !readable(row_view(*row)) {
            r matches Err(e) && is_mismatch(e)
        } else {
            match load_fault(row_view(*row), c) {
                Some(fault) => r matches Err(e) && reports(e, fault),
                None => r matches Ok(d) && d@ == account_of(row_view(*row), c),
            }
        },
{
    if row.len() != 28 {
        return Err(crate::rows::mismatch());
    }
    let lid = match read_text(row, 1) {
        Ok(v) => v,
        Err(e) => return Err(e),
    };
    let pn = match read_text(row, 2) {
        Ok(v) => v,
        Err(e) => return Err(e),
    };
    let registration_id: i64 = match read_int(row, 3) {
        Ok(v) => v,
        Err(e) => return Err(e),
    };
    let noise_key = match read_blob(row, 4) {
        Ok(v) => v,
        Err(e) => return Err(e),
    };
    let identity_key = match read_blob(row, 5) {
        Ok(v) => v,
        Err(e) => return Err(e),
    };
    let signed_pre_key = match read_blob(row, 6) {
        Ok(v) => v,
        Err(e) => return Err(e),
    };
    let signed_pre_key_id: i64 = match read_int(row, 7) {
        Ok(v) => v,
        Err(e) => return Err(e),
    };
    let signed_pre_key_signature = match read_blob(row, 8) {
        Ok(v) => v,
        Err(e) => return Err(e),
    };
    let adv_secret_key = match read_blob(row, 9) {
        Ok(v) => v,
        Err(e) => return Err(e),
    };
    let account = match read_opt_blob(row, 10) {
        Ok(v) => v,
        Err(e) => return Err(e),
    };
    let push_name = match read_text(row, 11) {
        Ok(v) => v,
        Err(e) => return Err(e),
    };
    let app_version_primary: i64 = match read_int(row, 12) {
        Ok(v) => v,
        Err(e) => return Err(e),
    };
    let app_version_secondary: i64 = match read_int(row, 13) {
        Ok(v) => v,
        Err(e) => return Err(e),
    };
    let app_version_tertiary: i64 = match read_int(row, 14) {
        Ok(v) => v,
        Err(e) => return Err(e),
    };
    let app_version_last_fetched_ms: i64 = match read_int(row, 15) {
        Ok(v) => v,
        Err(e) => return Err(e),
    };
    let edge_routing_info = match read_opt_blob(row, 16) {
        Ok(v) => v,
        Err(e) => return Err(e),
    };
    let props_hash = match read_opt_text(row, 17) {
        Ok(v) => v,
        Err(e) => return Err(e),
    };
    let next_pre_key_id: i64 = match read_int(row, 18) {
        Ok(v) => v,
        Err(e) => return Err(e),
    };
    let nct_salt = match read_opt_blob(row, 19) {
        Ok(v) => v,
        Err(e) => return Err(e),
    };
    let server_has_prekeys = match read_flag(row, 20) {
        Ok(v) => v,
        Err(e) => return Err(e),
    };
    let server_cert_chain = match read_opt_blob(row, 21) {
        Ok(v) => v,
        Err(e) => return Err(e),
    };
    let login_counter: i64 = match read_int(row, 22) {
        Ok(v) => v,
        Err(e) => return Err(e),
    };
    let first_unupload_pre_key_id: i64 = match read_int(row, 23) {
        Ok(v) => v,
        Err(e) => return Err(e),
    };
    let lid_migrated = match read_flag(row, 24) {
        Ok(v) => v,
        Err(e) => return Err(e),
    };
    let last_signed_pre_key_rotation_ms: i64 = match read_int(row, 25) {
        Ok(v) => v,
        Err(e) => return Err(e),
    };
    let read_receipts_disabled = match read_flag(row, 26) {
        Ok(v) => v,
        Err(e) => return Err(e),
    };
    let server_client_expiration = match read_opt_text(row, 27) {
        Ok(v) => v,
        Err(e) => return Err(e),
    };
    let noise_key = match read_keypair(&noise_key, c.noise_key) {
        Ok(pair) => pair,
        Err(e) => return Err(e),
    };
    let identity_key = match read_keypair(&identity_key, c.identity_key) {
        Ok(pair) => pair,
        Err(e) => return Err(e),
    };
    let signed_pre_key = match read_keypair(&signed_pre_key, c.signed_pre_key) {
        Ok(pair) => pair,
        Err(e) => return Err(e),
    };
    let signed_pre_key_signature = match array64(signed_pre_key_signature.as_slice()) {
        Some(bytes) => bytes,
        None => return Err(
            StoreError::Validation("Invalid signed_pre_key_signature length".to_owned()),
        ),
    };
    let adv_secret_key = match array32(adv_secret_key.as_slice()) {
        Some(bytes) => bytes,
        None => return Err(StoreError::Validation("Invalid adv_secret_key length".to_owned())),
    };
    if account.is_some() {
        if let Some(e) = c.account {
            return Err(StoreError::Serialization(e));
        }
    }
    Ok(
        DeviceData {
            lid: read_jid(lid, c.lid),
            pn: read_jid(pn, c.pn),
            registration_id: (registration_id as i32) as u32,
            noise_key,
            identity_key,
            signed_pre_key,
            signed_pre_key_id: (signed_pre_key_id as i32) as u32,
            signed_pre_key_signature,
            adv_secret_key,
            account,
            push_name,
            app_version_primary: (app_version_primary as i32) as u32,
            app_version_secondary: (app_version_secondary as i32) as u32,
            app_version_tertiary: narrow(app_version_tertiary),
            app_version_last_fetched_ms,
            edge_routing_info,
            props_hash,
            next_pre_key_id: (next_pre_key_id as i32) as u32,
            nct_salt,
            server_has_prekeys,
            server_cert_chain: if c.server_cert_chain {
                server_cert_chain
            } else {
                None
            },
            login_counter: login_counter as i32,
            first_unupload_pre_key_id: (first_unupload_pre_key_id as i32) as u32,
            lid_migrated,
            last_signed_pre_key_rotation_ms,
            read_receipts_disabled,
            server_client_expiration: if c.server_client_expiration {
                server_client_expiration
            } else {
                None
            },
            nct_salt_sync_seen: false,
        },
    )
}

/// The columns of an account's row, in order.
fn all_columns() -> (cs: Vec<Column>)
    ensures
        cs@ == columns(Table::Device),
{
    Table::Device.columns()
}

/// A test for an account's own row.
fn account_test(device_id: i32) -> (filter: Cond)
    ensures
        pins(filter, Table::Device, device_key(device_id as int)),
        crate::plan::cond_wf(filter, Table::Device),
        crate::sql::cond_values(filter).len() == 1,
{
    let filter = equals(Column::Id, Value::Int(device_id as i64));
    assert forall|row: Seq<Val>| row_wf(Table::Device, row) implies (#[trigger] holds(
        filter,
        Table::Device,
        row,
    ) <==> key_of(Table::Device, row) == device_key(device_id as int)) by {}
    filter
}

impl SqliteStore {
    /// Reads the row of an account, all columns.
    pub fn load_device_data_for_device(&self, device_id: i32) -> (plan: ReadPlan)
        ensures
            plan.source is Reader,
            plan.queries@.len() == 1,
            query_sound(plan.queries@[0]),
            reads_row(plan.queries@[0], device_key(device_id as int), columns(Table::Device)),
    {
        proof {
            lemma_positions(Table::Device);
        }
        let q = row_query(Table::Device, all_columns(), account_test(device_id));
        ReadPlan { source: Source::Reader, queries: vec![q] }
    }

    /// Asks how many rows there are with an account's id.
    pub fn device_exists(&self, device_id: i32) -> (plan: ReadPlan)
        ensures
            plan.source is Reader,
            plan.queries@.len() == 1,
            query_sound(plan.queries@[0]),
            forall|db: Db, out: Seq<Seq<Val>>|
                db.wf() && #[trigger] answers(plan.queries@[0], db, out) ==> out == seq![
                    seq![flag(db.rows.contains_key(device_key(device_id as int)))],
                ],
    {
        let filter = account_test(device_id);
        let q = Query {
            table: Table::Device,
            want: Want::Count,
            filter,
            order: Order::Unordered,
            first: false,
        };
        proof {
            let k = device_key(device_id as int);
            assert forall|db: Db, out: Seq<Seq<Val>>|
                db.wf() && #[trigger] answers(q, db, out) implies out == seq![
                seq![flag(db.rows.contains_key(k))],
            ] by {
                let hit = db.matching(
                    Table::Device,
                    |row: Seq<Val>| holds(filter, Table::Device, row),
                );
                assert forall|j: Key| #[trigger] hit.contains(j) <==> (db.rows.contains_key(k) && j
                    == k) by {
                    if db.rows.contains_key(j) && j.table == Table::Device {
                        assert(row_wf(j.table, db.rows[j]));
                        assert(key_of(j.table, db.rows[j]) == j);
                    }
                    if db.rows.contains_key(k) {
                        assert(row_wf(k.table, db.rows[k]));
                        assert(key_of(k.table, db.rows[k]) == k);
                    }
                }
                if db.rows.contains_key(k) {
                    assert(hit =~= set![k]);
                } else {
                    assert(hit =~= Set::empty());
                }
            }
        }
        ReadPlan { source: Source::Reader, queries: vec![q] }
    }

    /// Asks for every account, in the order of their ids.
    pub fn list_devices(&self) -> (plan: ReadPlan)
        ensures
            plan.source is Reader,
            plan.queries@.len() == 1,
            asks(
                plan.queries@[0],
                Table::Device,
                seq![Column::Id, Column::Pn, Column::Lid, Column::PushName],
                |row: Seq<Val>| true,
                Order::Ascending(Column::Id),
                false,
            ),
    {
        let cs: Vec<Column> = vec![Column::Id, Column::Pn, Column::Lid, Column::PushName];
        let q = Query {
            table: Table::Device,
            want: Want::Columns(cs),
            filter: Cond::Always,
            order: Order::Ascending(Column::Id),
            first: false,
        };
        ReadPlan { source: Source::Reader, queries: vec![q] }
    }
}

/// Whether the count that came back says that there is such an account.
pub fn exists_answer(rows: &Rows) -> (r: Result<bool, StoreError>)
    ensures
        if rows_view(*rows).len() > 0 && int_at(rows_view(*rows)[0], 0) is Some {
            r matches Ok(b) && b == (int_at(rows_view(*rows)[0], 0)->0 > 0)
        } else {
            r matches Err(e) && is_mismatch(e)
        },
{
    match first_int(rows) {
        Ok(n) => Ok(n > 0),
        Err(e) => Err(e),
    }
}

// ---------------------------------------------------------------------------------------
// The list of accounts

/// An account as the list of accounts reads it.
#[derive(Debug)]
pub struct AccountRow {
    pub id: i32,
    pub pn: String,
    pub lid: String,
    pub push_name: String,
}

/// One account of a database that holds several. It counts as linked once it has a phone
/// number. `J` is the type of identities.
#[derive(Clone, Debug, PartialEq, Eq)]
pub struct StoredDeviceSummary<J> {
    pub id: i32,
    pub pn: Option<J>,
    pub lid: Option<J>,
    pub push_name: String,
    pub linked: bool,
}

/// The columns of a listed account can be read.
pub open spec fn listable(row: Seq<Val>) -> bool {
    int_at(row, 0) is Some && text_at(row, 1) is Some && text_at(row, 2) is Some && text_at(row, 3)
        is Some
}

/// An account from a row of the list.
pub open spec fn lists_account(row: Seq<Val>, a: AccountRow) -> bool {
    &&& a.id == (int_at(row, 0)->0) as i32
    &&& a.pn@ == text_at(row, 1)->0
    &&& a.lid@ == text_at(row, 2)->0
    &&& a.push_name@ == text_at(row, 3)->0
}

/// The accounts of a list, in its order.
pub fn account_rows(rows: &Rows) -> (r: Result<Vec<AccountRow>, StoreError>)
    ensures
        if forall|i: int| 0 <= i < rows_view(*rows).len() ==> listable(#[trigger] rows_view(*rows)[i]) {
            &&& r matches Ok(list)
            &&& list@.len() == rows_view(*rows).len()
            &&& forall|i: int|
                0 <= i < list@.len() ==> lists_account(rows_view(*rows)[i], #[trigger] list@[i])
        } else {
            r matches Err(e) && is_mismatch(e)
        },
{
    let mut list: Vec<AccountRow> = Vec::new();
    let mut i: usize = 0;
    while i < rows.len()
        invariant
            i <= rows.len(),
            list@.len() == i,
            forall|j: int| 0 <= j < i ==> listable(#[trigger] rows_view(*rows)[j]),
            forall|j: int|
                0 <= j < i ==> lists_account(rows_view(*rows)[j], #[trigger] list@[j]),
        decreases rows.len() - i,
    {
        let row = &rows[i];
        assert(rows_view(*rows)[i as int] == row_view(*row));
        let id: i64 = match read_int(row, 0) {
            Ok(v) => v,
            Err(e) => {
                assert(!listable(rows_view(*rows)[i as int]));
                return Err(e);
            },
        };
        let pn = match read_text(row, 1) {
            Ok(v) => v,
            Err(e) => {
                assert(!listable(rows_view(*rows)[i as int]));
                return Err(e);
            },
        };
        let lid = match read_text(row, 2) {
            Ok(v) => v,
            Err(e) => {
                assert(!listable(rows_view(*rows)[i as int]));
                return Err(e);
            },
        };
        let push_name = match read_text(row, 3) {
            Ok(v) => v,
            Err(e) => {
                assert(!listable(rows_view(*rows)[i as int]));
                return Err(e);
            },
        };
        list.push(AccountRow { id: id as i32, pn, lid, push_name });
        i = i + 1;
    }
    Ok(list)
}

/// The summary of an account, given what its identities parsed to. An identity without text is
/// none.
pub fn summarize<J>(account: AccountRow, pn: Option<J>, lid: Option<J>) -> (s:
    StoredDeviceSummary<J>)
    ensures
        s.id == account.id,
        s.pn == (if account.pn@.len() == 0 {
            None
        } else {
            pn
        }),
        s.linked == (s.pn is Some),
        s.lid == (if account.lid@.len() == 0 {
            None
        } else {
            lid
        }),
        s.push_name@ == account.push_name@,
{
    let pn = if account.pn.as_str().is_empty() {
        None
    } else {
        pn
    };
    StoredDeviceSummary {
        id: account.id,
        linked: pn.is_some(),
        pn,
        lid: if account.lid.as_str().is_empty() {
            None
        } else {
            lid
        },
        push_name: account.push_name,
    }
}

// ---------------------------------------------------------------------------------------
// Laws

/// What is stored of an account: an identity without text is none, and whether the salt was
/// seen is not kept.
pub open spec fn stored(d: DeviceView) -> DeviceView {
    DeviceView {
        pn: jid_of(crate::device::jid_text(d.pn), true),
        lid: jid_of(crate::device::jid_text(d.lid), true),
        nct_salt_sync_seen: false,
        ..d
    }
}

proof fn lemma_bits(n: u32)
    by (bit_vector)
    ensures
        (n as i32) as u32 == n,
{
}

/// What a row holds of a number is within a signed column.
proof fn lemma_unsigned(n: u32)
    ensures
        unsigned((n as i32) as int) == n,
{
    lemma_bits(n);
}

/// An account that was saved is loaded as it was saved: every value of its row is readable and
/// where the codecs take back what they gave out, the account that comes back is the one that
/// went in.
pub proof fn law_saved_accounts_load(id: int, data: DeviceData, c: Decoded)
    requires
        all_decoded(c),
    ensures
        readable(account_row(id, data@)),
        load_fault(account_row(id, data@), c) is None,
        account_of(account_row(id, data@), c) == stored(data@),
{
    reveal_strlit("");
    let d = data@;
    let row = account_row(id, d);
    lemma_unsigned(d.registration_id);
    lemma_unsigned(d.signed_pre_key_id);
    lemma_unsigned(d.app_version_primary);
    lemma_unsigned(d.app_version_secondary);
    lemma_unsigned(d.next_pre_key_id);
    lemma_unsigned(d.first_unupload_pre_key_id);
    assert(row.len() == 28);
    assert(account_of(row, c) =~= stored(d));
}

} // verus!
