//! What a caller finds after each operation, in terms of what the caller handed in: every value
//! stands whole in the column that is named for it, under the values that identify it, and comes
//! back as it went in.

use crate::device::{account_row, deletes_account, unpaired, DeviceData, DeviceView};
use crate::effects::{lemma_merge_wf, without_keys};
use crate::keys::law_keypair_round_trip;
use crate::load::{account_of, lists_account, load_fault, unsigned, AccountRow, Decoded};
use crate::merge::{fits, merged, Merge};
use crate::model::{affected, apply, device_key, projected, row_wf, Db};
use crate::rows::{blob_at, is_true};
use crate::schema::{key_of, lemma_positions, pos, Column, Key, Table};
use crate::signal::{
    identity_records, marked_uploaded, prekey_row, prekey_rows, record, records, signed_prekey_row,
    stored_id, stored_ids, text_values,
};
use crate::sql::Statement;
use crate::value::Val;
use vstd::prelude::*;

verus! {

/// The key of a table's row in an account, by the values that identify it.
pub open spec fn place(t: Table, device_id: int, a: Val, b: Val, c: Val) -> Key {
    Key { table: t, device: Val::Int(device_id), a, b, c }
}

/// A row that was put stands under its key, column by column.
pub proof fn lemma_put(db: Db, t: Table, row: Seq<Val>, k: Key)
    requires
        key_of(t, row) == k,
        k.table == t,
    ensures
        db.put(t, row).rows.contains_key(k),
        forall|c: Column| #[trigger]
            db.put(t, row).column(k, c) == Some(row[pos(t, c)]),
        forall|j: Key| j != k ==> #[trigger] db.put(t, row).get(j) == db.get(j),
{
}

// ---------------------------------------------------------------------------------------
// Accounts

proof fn lemma_number(n: u32)
    by (bit_vector)
    ensures
        (n as i32) as u32 == n,
{
}

/// A number that is stored by its bits is read as the number.
proof fn lemma_numbers(d: DeviceView)
    ensures
        ((d.registration_id as i32) as int as i32) as u32 == d.registration_id,
        ((d.signed_pre_key_id as i32) as int as i32) as u32 == d.signed_pre_key_id,
        ((d.app_version_primary as i32) as int as i32) as u32 == d.app_version_primary,
        ((d.app_version_secondary as i32) as int as i32) as u32 == d.app_version_secondary,
        ((d.next_pre_key_id as i32) as int as i32) as u32 == d.next_pre_key_id,
        ((d.first_unupload_pre_key_id as i32) as int as i32) as u32 == d.first_unupload_pre_key_id,
{
    lemma_number(d.registration_id);
    lemma_number(d.signed_pre_key_id);
    lemma_number(d.app_version_primary);
    lemma_number(d.app_version_secondary);
    lemma_number(d.next_pre_key_id);
    lemma_number(d.first_unupload_pre_key_id);
}

/// A saved account is loaded with every field as it was saved. An identity without text is none,
/// what a codec does not take is none, and nothing else of the account depends on the codecs.
pub proof fn law_saved_accounts_keep_every_field(id: int, d: DeviceView, c: Decoded)
    ensures
        ({
            let a = account_of(account_row(id, d), c);
            &&& a.registration_id == d.registration_id
            &&& a.noise_key == d.noise_key
            &&& a.identity_key == d.identity_key
            &&& a.signed_pre_key == d.signed_pre_key
            &&& a.signed_pre_key_id == d.signed_pre_key_id
            &&& a.signed_pre_key_signature == d.signed_pre_key_signature
            &&& a.adv_secret_key == d.adv_secret_key
            &&& a.account == d.account
            &&& a.push_name == d.push_name
            &&& a.app_version_primary == d.app_version_primary
            &&& a.app_version_secondary == d.app_version_secondary
            &&& a.app_version_tertiary == d.app_version_tertiary
            &&& a.app_version_last_fetched_ms == d.app_version_last_fetched_ms
            &&& a.edge_routing_info == d.edge_routing_info
            &&& a.props_hash == d.props_hash
            &&& a.next_pre_key_id == d.next_pre_key_id
            &&& a.nct_salt == d.nct_salt
            &&& a.server_has_prekeys == d.server_has_prekeys
            &&& a.login_counter == d.login_counter
            &&& a.first_unupload_pre_key_id == d.first_unupload_pre_key_id
            &&& a.lid_migrated == d.lid_migrated
            &&& a.last_signed_pre_key_rotation_ms == d.last_signed_pre_key_rotation_ms
            &&& a.read_receipts_disabled == d.read_receipts_disabled
            &&& a.pn is Some ==> a.pn == d.pn && c.pn
            &&& c.pn ==> (d.pn matches Some(jid) ==> jid.len() > 0 ==> a.pn == Some(jid))
            &&& a.lid is Some ==> a.lid == d.lid && c.lid
            &&& c.lid ==> (d.lid matches Some(jid) ==> jid.len() > 0 ==> a.lid == Some(jid))
            &&& c.server_cert_chain ==> a.server_cert_chain == d.server_cert_chain
            &&& !c.server_cert_chain ==> a.server_cert_chain is None
            &&& c.server_client_expiration ==> a.server_client_expiration
                == d.server_client_expiration
            &&& !c.server_client_expiration ==> a.server_client_expiration is None
        }),
{
    reveal_strlit("");
    lemma_numbers(d);
    assert(account_row(id, d).len() == 28);
}

/// A created account is loaded with everything that was generated for it: the registration id, the
/// three key pairs, the signature, the secret, the name, the app version and the prekey counters
/// are the generated ones, and nothing of a pairing is there.
pub proof fn law_created_accounts_keep_what_was_generated(id: int, d: DeviceView, c: Decoded)
    ensures
        ({
            let a = account_of(account_row(id, unpaired(d)), c);
            &&& a.registration_id == d.registration_id
            &&& a.noise_key == d.noise_key
            &&& a.identity_key == d.identity_key
            &&& a.signed_pre_key == d.signed_pre_key
            &&& a.signed_pre_key_id == d.signed_pre_key_id
            &&& a.signed_pre_key_signature == d.signed_pre_key_signature
            &&& a.adv_secret_key == d.adv_secret_key
            &&& a.push_name == d.push_name
            &&& a.app_version_primary == d.app_version_primary
            &&& a.app_version_secondary == d.app_version_secondary
            &&& a.app_version_tertiary == d.app_version_tertiary
            &&& a.app_version_last_fetched_ms == d.app_version_last_fetched_ms
            &&& a.next_pre_key_id == d.next_pre_key_id
            &&& a.first_unupload_pre_key_id == d.first_unupload_pre_key_id
            &&& a.server_has_prekeys == d.server_has_prekeys
            &&& a.last_signed_pre_key_rotation_ms == d.last_signed_pre_key_rotation_ms
            &&& a.lid is None && a.pn is None && a.account is None
            &&& a.edge_routing_info is None && a.props_hash is None && a.nct_salt is None
            &&& a.server_cert_chain is None && a.server_client_expiration is None
            &&& a.login_counter == 0
            &&& !a.lid_migrated && !a.read_receipts_disabled && !a.nct_salt_sync_seen
        }),
{
    law_saved_accounts_keep_every_field(id, unpaired(d), c);
}

/// A generated account that is not paired yet is loaded as it was generated.
pub proof fn law_unpaired_accounts_load_as_generated(id: int, d: DeviceView, c: Decoded)
    requires
        d.lid is None,
        d.pn is None,
        d.account is None,
        d.edge_routing_info is None,
        d.props_hash is None,
        d.nct_salt is None,
        d.server_cert_chain is None,
        d.server_client_expiration is None,
        d.login_counter == 0,
        !d.lid_migrated,
        !d.read_receipts_disabled,
        !d.nct_salt_sync_seen,
    ensures
        account_of(account_row(id, unpaired(d)), c) == d,
{
    law_created_accounts_keep_what_was_generated(id, d, c);
}

/// An account's keys and secrets have the lengths that loading asks for, so a saved account loads
/// wherever the codecs take what they gave.
pub proof fn law_saved_accounts_have_no_fault(id: int, d: DeviceData, c: Decoded)
    requires
        c.noise_key is None,
        c.identity_key is None,
        c.signed_pre_key is None,
        c.account is None,
    ensures
        load_fault(account_row(id, d@), c) is None,
        load_fault(account_row(id, unpaired(d@)), c) is None,
{
    assert(account_row(id, d@).len() == 28);
    assert(account_row(id, unpaired(d@)).len() == 28);
}

/// A row loads exactly where its three key pairs have 64 bytes each and are taken by the cipher,
/// the signature has 64, the secret 32, and a pairing that is stored can be decoded.
pub proof fn law_accounts_load_where_their_parts_do(row: Seq<Val>, c: Decoded)
    ensures
        load_fault(row, c) is None <==> {
            &&& (blob_at(row, pos(Table::Device, Column::NoiseKey))->0).len() == 64
            &&& c.noise_key is None
            &&& (blob_at(row, pos(Table::Device, Column::IdentityKey))->0).len() == 64
            &&& c.identity_key is None
            &&& (blob_at(row, pos(Table::Device, Column::SignedPreKey))->0).len() == 64
            &&& c.signed_pre_key is None
            &&& (blob_at(row, pos(Table::Device, Column::SignedPreKeySignature))->0).len() == 64
            &&& (blob_at(row, pos(Table::Device, Column::AdvSecretKey))->0).len() == 32
            &&& blob_at(row, pos(Table::Device, Column::Account)) is None || c.account is None
        },
{
}

/// Each field of an account stands in the column that is named for it.
pub proof fn law_account_fields_stand_in_their_columns(db: Db, id: int, d: DeviceView)
    ensures
        ({
            let after = db.put(Table::Device, account_row(id, d));
            let k = place(Table::Device, id, Val::Null, Val::Null, Val::Null);
            &&& forall|j: Key| j != k ==> #[trigger] after.get(j) == db.get(j)
            &&& after.column(k, Column::Id) == Some(Val::Int(id))
            &&& after.column(k, Column::NoiseKey) == Some(Val::Blob(d.noise_key))
            &&& after.column(k, Column::IdentityKey) == Some(Val::Blob(d.identity_key))
            &&& after.column(k, Column::SignedPreKey) == Some(Val::Blob(d.signed_pre_key))
            &&& after.column(k, Column::SignedPreKeySignature) == Some(
                Val::Blob(d.signed_pre_key_signature),
            )
            &&& after.column(k, Column::AdvSecretKey) == Some(Val::Blob(d.adv_secret_key))
            &&& after.column(k, Column::PushName) == Some(Val::Text(d.push_name))
            &&& after.column(k, Column::AppVersionTertiary) == Some(
                Val::Int(d.app_version_tertiary as int),
            )
            &&& after.column(k, Column::AppVersionLastFetchedMs) == Some(
                Val::Int(d.app_version_last_fetched_ms as int),
            )
            &&& after.column(k, Column::LoginCounter) == Some(Val::Int(d.login_counter as int))
            &&& after.column(k, Column::LastSignedPreKeyRotationMs) == Some(
                Val::Int(d.last_signed_pre_key_rotation_ms as int),
            )
            &&& d.pn matches Some(jid) ==> after.column(k, Column::Pn) == Some(Val::Text(jid))
            &&& d.lid matches Some(jid) ==> after.column(k, Column::Lid) == Some(Val::Text(jid))
            &&& d.pn is None ==> after.column(k, Column::Pn) == Some(Val::Text(seq![]))
            &&& d.lid is None ==> after.column(k, Column::Lid) == Some(Val::Text(seq![]))
            &&& d.account matches Some(b) ==> after.column(k, Column::Account) == Some(Val::Blob(b))
            &&& d.account is None ==> after.column(k, Column::Account) == Some(Val::Null)
            &&& d.edge_routing_info matches Some(b) ==> after.column(k, Column::EdgeRoutingInfo)
                == Some(Val::Blob(b))
            &&& d.props_hash matches Some(s) ==> after.column(k, Column::PropsHash) == Some(
                Val::Text(s),
            )
            &&& d.nct_salt matches Some(b) ==> after.column(k, Column::NctSalt) == Some(
                Val::Blob(b),
            )
            &&& d.server_cert_chain matches Some(b) ==> after.column(k, Column::ServerCertChain)
                == Some(Val::Blob(b))
            &&& d.server_cert_chain is None ==> after.column(k, Column::ServerCertChain) == Some(
                Val::Null,
            )
            &&& d.server_client_expiration matches Some(s) ==> after.column(
                k,
                Column::ServerClientExpiration,
            ) == Some(Val::Text(s))
            &&& after.column(k, Column::ServerHasPrekeys) == Some(
                Val::Int(
                    if d.server_has_prekeys {
                        1
                    } else {
                        0
                    },
                ),
            )
            &&& after.column(k, Column::LidMigrated) == Some(
                Val::Int(
                    if d.lid_migrated {
                        1
                    } else {
                        0
                    },
                ),
            )
            &&& after.column(k, Column::ReadReceiptsDisabled) == Some(
                Val::Int(
                    if d.read_receipts_disabled {
                        1
                    } else {
                        0
                    },
                ),
            )
            &&& after.column(k, Column::RegistrationId) matches Some(Val::Int(n)) && i32::MIN <= n
                <= i32::MAX && (n as i32) as u32 == d.registration_id
            &&& after.column(k, Column::SignedPreKeyId) matches Some(Val::Int(n)) && i32::MIN <= n
                <= i32::MAX && (n as i32) as u32 == d.signed_pre_key_id
            &&& after.column(k, Column::AppVersionPrimary) matches Some(Val::Int(n)) && i32::MIN <= n
                <= i32::MAX && (n as i32) as u32 == d.app_version_primary
            &&& after.column(k, Column::AppVersionSecondary) matches Some(Val::Int(n)) && i32::MIN <= n
                <= i32::MAX && (n as i32) as u32 == d.app_version_secondary
            &&& after.column(k, Column::NextPreKeyId) matches Some(Val::Int(n)) && i32::MIN <= n
                <= i32::MAX && (n as i32) as u32 == d.next_pre_key_id
            &&& after.column(k, Column::FirstUnuploadPreKeyId) matches Some(Val::Int(n)) && i32::MIN <= n
                <= i32::MAX && (n as i32) as u32 == d.first_unupload_pre_key_id
        }),
{
    reveal_strlit("");
    lemma_numbers(d);
    let row = account_row(id, d);
    let k = place(Table::Device, id, Val::Null, Val::Null, Val::Null);
    assert(row.len() == 28);
    assert(row[0] == Val::Int(id));
    assert(""@ =~= seq![]);
    lemma_put(db, Table::Device, row, k);
}

/// What is saved of an account are its own values, each in its own place: a key pair is its private
/// half and then its public half, and loading gives every one of them back.
pub proof fn law_accounts_are_saved_field_by_field(id: int, d: DeviceData, c: Decoded)
    requires
        c.pn,
        c.lid,
        c.server_cert_chain,
        c.server_client_expiration,
    ensures
        ({
            let a = account_of(account_row(id, d@), c);
            &&& a.noise_key == d.noise_key.private_key@ + d.noise_key.public_key@
            &&& a.identity_key == d.identity_key.private_key@ + d.identity_key.public_key@
            &&& a.signed_pre_key == d.signed_pre_key.private_key@ + d.signed_pre_key.public_key@
            &&& a.signed_pre_key_signature == d.signed_pre_key_signature@
            &&& a.adv_secret_key == d.adv_secret_key@
            &&& a.push_name == d.push_name@
            &&& a.registration_id == d.registration_id
            &&& a.signed_pre_key_id == d.signed_pre_key_id
            &&& a.app_version_primary == d.app_version_primary
            &&& a.app_version_secondary == d.app_version_secondary
            &&& a.app_version_tertiary == d.app_version_tertiary
            &&& a.app_version_last_fetched_ms == d.app_version_last_fetched_ms
            &&& a.next_pre_key_id == d.next_pre_key_id
            &&& a.first_unupload_pre_key_id == d.first_unupload_pre_key_id
            &&& a.server_has_prekeys == d.server_has_prekeys
            &&& a.login_counter == d.login_counter
            &&& a.lid_migrated == d.lid_migrated
            &&& a.last_signed_pre_key_rotation_ms == d.last_signed_pre_key_rotation_ms
            &&& a.read_receipts_disabled == d.read_receipts_disabled
            &&& d.pn matches Some(jid) ==> jid@.len() > 0 ==> a.pn == Some(jid@)
            &&& d.pn is None ==> a.pn is None
            &&& d.lid matches Some(jid) ==> jid@.len() > 0 ==> a.lid == Some(jid@)
            &&& d.lid is None ==> a.lid is None
            &&& d.account matches Some(b) ==> a.account == Some(b@)
            &&& d.account is None ==> a.account is None
            &&& d.edge_routing_info matches Some(b) ==> a.edge_routing_info == Some(b@)
            &&& d.edge_routing_info is None ==> a.edge_routing_info is None
            &&& d.props_hash matches Some(s) ==> a.props_hash == Some(s@)
            &&& d.props_hash is None ==> a.props_hash is None
            &&& d.nct_salt matches Some(b) ==> a.nct_salt == Some(b@)
            &&& d.nct_salt is None ==> a.nct_salt is None
            &&& d.server_cert_chain matches Some(b) ==> a.server_cert_chain == Some(b@)
            &&& d.server_cert_chain is None ==> a.server_cert_chain is None
            &&& d.server_client_expiration matches Some(s) ==> a.server_client_expiration == Some(
                s@,
            )
            &&& d.server_client_expiration is None ==> a.server_client_expiration is None
        }),
{
    law_saved_accounts_keep_every_field(id, d@, c);
}

/// Two accounts that are seen as one have the same keys, secrets, names, numbers and marks.
pub proof fn law_accounts_are_seen_whole(d: DeviceData, e: DeviceData)
    requires
        d@ == e@,
    ensures
        d.noise_key.private_key@ == e.noise_key.private_key@,
        d.noise_key.public_key@ == e.noise_key.public_key@,
        d.identity_key.private_key@ == e.identity_key.private_key@,
        d.identity_key.public_key@ == e.identity_key.public_key@,
        d.signed_pre_key.private_key@ == e.signed_pre_key.private_key@,
        d.signed_pre_key.public_key@ == e.signed_pre_key.public_key@,
        d.signed_pre_key_signature@ == e.signed_pre_key_signature@,
        d.adv_secret_key@ == e.adv_secret_key@,
        d.push_name@ == e.push_name@,
        d.nct_salt_sync_seen == e.nct_salt_sync_seen,
{
    law_keypair_round_trip(d.noise_key);
    law_keypair_round_trip(e.noise_key);
    law_keypair_round_trip(d.identity_key);
    law_keypair_round_trip(e.identity_key);
    law_keypair_round_trip(d.signed_pre_key);
    law_keypair_round_trip(e.signed_pre_key);
}

/// The statement that deletes an account takes its row and its mappings and reports one row where
/// there was one. Nothing of another account goes, and nothing comes.
pub proof fn law_deleting_an_account_takes_its_row(s: Statement, id: int, db: Db, now: int, k: Key)
    requires
        deletes_account(s, id),
        db.wf(),
    ensures
        ({
            let after = apply(s, db, now);
            let own = place(Table::Device, id, Val::Null, Val::Null, Val::Null);
            &&& !after.rows.contains_key(own)
            &&& k.device != Val::Int(id) ==> after.get(k) == db.get(k)
            &&& k.table != Table::Device && k.table != Table::LidPnMapping ==> after.get(k) == db.get(
                k,
            )
            &&& db.rows.contains_key(own) ==> affected(s, db) == 1
            &&& !db.rows.contains_key(own) ==> affected(s, db) == 0 && after.get(k) == db.get(k)
        }),
{
    let own = place(Table::Device, id, Val::Null, Val::Null, Val::Null);
    if db.rows.contains_key(k) && k.table == Table::Device {
        assert(key_of(k.table, db.rows[k]) == k);
    }
    assert(device_key(id) == own);
}

/// A listed account has the id, the identities and the name that were saved.
pub proof fn law_listed_accounts_are_the_saved_ones(id: i32, d: DeviceView, a: AccountRow)
    requires
        lists_account(
            projected(
                Table::Device,
                seq![Column::Id, Column::Pn, Column::Lid, Column::PushName],
                account_row(id as int, d),
            ),
            a,
        ),
    ensures
        a.id == id,
        a.push_name@ == d.push_name,
        d.pn matches Some(jid) ==> a.pn@ == jid,
        d.pn is None ==> a.pn@.len() == 0,
        d.lid matches Some(jid) ==> a.lid@ == jid,
        d.lid is None ==> a.lid@.len() == 0,
{
    reveal_strlit("");
    let row = account_row(id as int, d);
    assert(row.len() == 28);
    let cs = seq![Column::Id, Column::Pn, Column::Lid, Column::PushName];
    assert(projected(Table::Device, cs, row) =~= seq![row[0], row[2], row[1], row[11]]);
}

// ---------------------------------------------------------------------------------------
// Batches

/// Of the rows of a batch under a key the last one stays.
pub proof fn lemma_last_stays(db: Db, t: Table, rows: Seq<Seq<Val>>, k: Key, i: int)
    requires
        0 <= i < rows.len(),
        key_of(t, rows[i]) == k,
        forall|j: int| i < j < rows.len() ==> key_of(t, #[trigger] rows[j]) != k,
    ensures
        db.put_all(t, rows).get(k) == Some(rows[i]),
    decreases rows.len(),
{
    if i < rows.len() - 1 {
        let head = rows.drop_last();
        assert(key_of(t, rows[rows.len() - 1]) != k);
        assert forall|j: int| i < j < head.len() implies key_of(t, #[trigger] head[j]) != k by {
            assert(key_of(t, rows[j]) != k);
        }
        lemma_last_stays(db, t, head, k, i);
    }
}

/// A key that is not in a batch is left alone.
pub proof fn lemma_not_in_batch(db: Db, t: Table, rows: Seq<Seq<Val>>, k: Key)
    requires
        forall|j: int| 0 <= j < rows.len() ==> key_of(t, #[trigger] rows[j]) != k,
    ensures
        db.put_all(t, rows).get(k) == db.get(k),
    decreases rows.len(),
{
    if rows.len() > 0 {
        let head = rows.drop_last();
        assert(key_of(t, rows[rows.len() - 1]) != k);
        assert forall|j: int| 0 <= j < head.len() implies key_of(t, #[trigger] head[j]) != k by {
            assert(key_of(t, rows[j]) != k);
        }
        lemma_not_in_batch(db, t, head, k);
    }
}

/// A key that is not in a batch is left alone under any merge rule.
pub proof fn lemma_not_merged(db: Db, m: Merge, t: Table, rows: Seq<Seq<Val>>, k: Key)
    requires
        fits(m, t),
        db.wf(),
        forall|j: int|
            0 <= j < rows.len() ==> row_wf(t, #[trigger] rows[j]) && key_of(t, rows[j]) != k,
    ensures
        db.merge_all(m, t, rows).get(k) == db.get(k),
        db.merge_all(m, t, rows).wf(),
    decreases rows.len(),
{
    if rows.len() > 0 {
        let head = rows.drop_last();
        let last = rows[rows.len() - 1];
        assert(row_wf(t, last) && key_of(t, last) != k);
        assert forall|j: int| 0 <= j < head.len() implies row_wf(t, #[trigger] head[j]) && key_of(
            t,
            head[j],
        ) != k by {
            assert(key_of(t, rows[j]) != k);
        }
        lemma_not_merged(db, m, t, head, k);
        let mid = db.merge_all(m, t, head);
        lemma_merge_wf(mid, m, t, last);
        let own = key_of(t, last);
        if mid.rows.contains_key(own) {
            assert(key_of(own.table, mid.rows[own]) == own);
            assert(key_of(t, merged(m, mid.rows[own], last)) == own);
        }
    }
}

/// A row whose key occurs once in a batch is merged as it would be alone.
pub proof fn lemma_merged_once(db: Db, m: Merge, t: Table, rows: Seq<Seq<Val>>, i: int)
    requires
        fits(m, t),
        db.wf(),
        0 <= i < rows.len(),
        forall|j: int| 0 <= j < rows.len() ==> row_wf(t, #[trigger] rows[j]),
        forall|j: int|
            0 <= j < rows.len() && j != i ==> key_of(t, #[trigger] rows[j]) != key_of(t, rows[i]),
    ensures
        db.merge_all(m, t, rows).get(key_of(t, rows[i])) == db.merge(m, t, rows[i]).get(
            key_of(t, rows[i]),
        ),
    decreases rows.len(),
{
    let head = rows.drop_last();
    let last = rows[rows.len() - 1];
    let k = key_of(t, rows[i]);
    assert(row_wf(t, last));
    assert forall|j: int| 0 <= j < head.len() implies row_wf(t, #[trigger] head[j]) by {
        assert(row_wf(t, rows[j]));
    }
    if i == rows.len() - 1 {
        assert forall|j: int| 0 <= j < head.len() implies row_wf(t, #[trigger] head[j]) && key_of(
            t,
            head[j],
        ) != k by {
            assert(key_of(t, rows[j]) != k);
        }
        lemma_not_merged(db, m, t, head, k);
        let mid = db.merge_all(m, t, head);
        assert(mid.get(k) == db.get(k));
        if db.rows.contains_key(k) {
            assert(mid.rows.contains_key(k));
            assert(key_of(k.table, db.rows[k]) == k);
            assert(key_of(t, merged(m, db.rows[k], last)) == k);
        } else {
            assert(!mid.rows.contains_key(k));
        }
    } else {
        assert forall|j: int| 0 <= j < head.len() && j != i implies key_of(t, #[trigger] head[j])
            != key_of(t, head[i]) by {
            assert(key_of(t, rows[j]) != k);
        }
        lemma_merged_once(db, m, t, head, i);
        let mid = db.merge_all(m, t, head);
        assert(key_of(t, last) != k);
        lemma_merge_all_wf(db, m, t, head);
        let own = key_of(t, last);
        if mid.rows.contains_key(own) {
            assert(key_of(own.table, mid.rows[own]) == own);
            assert(key_of(t, merged(m, mid.rows[own], last)) == own);
        }
    }
}

proof fn lemma_merge_all_wf(db: Db, m: Merge, t: Table, rows: Seq<Seq<Val>>)
    requires
        fits(m, t),
        db.wf(),
        forall|j: int| 0 <= j < rows.len() ==> row_wf(t, #[trigger] rows[j]),
    ensures
        db.merge_all(m, t, rows).wf(),
    decreases rows.len(),
{
    if rows.len() > 0 {
        let head = rows.drop_last();
        assert(row_wf(t, rows[rows.len() - 1]));
        assert forall|j: int| 0 <= j < head.len() implies row_wf(t, #[trigger] head[j]) by {
            assert(row_wf(t, rows[j]));
        }
        lemma_merge_all_wf(db, m, t, head);
        lemma_merge_wf(db.merge_all(m, t, head), m, t, rows.last());
    }
}

// ---------------------------------------------------------------------------------------
// Sessions, identity keys and sender keys

/// What is stored for an address is stored whole, whatever its length, under that address and
/// account and no other.
pub proof fn law_records_are_stored_whole(
    db: Db,
    t: Table,
    address: Seq<char>,
    bytes: Seq<u8>,
    device_id: int,
)
    requires
        t == Table::Sessions || t == Table::Identities || t == Table::SenderKeys,
    ensures
        ({
            let after = db.put(t, record(address, bytes, device_id));
            let k = place(t, device_id, Val::Text(address), Val::Null, Val::Null);
            &&& t != Table::Identities ==> after.column(k, Column::Record) == Some(Val::Blob(bytes))
            &&& t == Table::Identities ==> after.column(k, Column::Key) == Some(Val::Blob(bytes))
            &&& forall|j: Key| j != k ==> #[trigger] after.get(j) == db.get(j)
        }),
{
    lemma_put(
        db,
        t,
        record(address, bytes, device_id),
        place(t, device_id, Val::Text(address), Val::Null, Val::Null),
    );
}

/// Of a batch of records the last one for an address is stored, whole, and addresses that are not
/// in the batch keep what they have.
pub proof fn law_batched_records_are_stored_whole(
    db: Db,
    t: Table,
    items: Seq<(String, Vec<u8>)>,
    device_id: int,
    address: Seq<char>,
)
    requires
        t == Table::Sessions || t == Table::SenderKeys,
    ensures
        ({
            let after = db.put_all(t, records(items, device_id));
            let k = place(t, device_id, Val::Text(address), Val::Null, Val::Null);
            &&& forall|i: int|
                0 <= i < items.len() && (#[trigger] items[i]).0@ == address && (forall|j: int|
                    i < j < items.len() ==> (#[trigger] items[j]).0@ != address) ==> after.column(
                    k,
                    Column::Record,
                ) == Some(Val::Blob(items[i].1@))
            &&& (forall|i: int| 0 <= i < items.len() ==> (#[trigger] items[i]).0@ != address)
                ==> after.get(k) == db.get(k)
        }),
{
    let rows = records(items, device_id);
    let after = db.put_all(t, rows);
    let k = place(t, device_id, Val::Text(address), Val::Null, Val::Null);
    assert forall|j: int| 0 <= j < items.len() implies key_of(t, #[trigger] rows[j]) == place(
        t,
        device_id,
        Val::Text(items[j].0@),
        Val::Null,
        Val::Null,
    ) && rows[j][1] == Val::Blob(items[j].1@) by {}
    assert forall|i: int|
        0 <= i < items.len() && (#[trigger] items[i]).0@ == address && (forall|j: int|
            i < j < items.len() ==> (#[trigger] items[j]).0@ != address) implies after.column(
        k,
        Column::Record,
    ) == Some(Val::Blob(items[i].1@)) by {
        assert(key_of(t, rows[i]) == k);
        assert forall|j: int| i < j < rows.len() implies key_of(t, #[trigger] rows[j]) != k by {
            assert(items[j].0@ != address);
        }
        lemma_last_stays(db, t, rows, k, i);
        assert(after.get(k) == Some(rows[i]));
    }
    if forall|i: int| 0 <= i < items.len() ==> (#[trigger] items[i]).0@ != address {
        assert forall|j: int| 0 <= j < rows.len() implies key_of(t, #[trigger] rows[j]) != k by {
            assert(items[j].0@ != address);
        }
        lemma_not_in_batch(db, t, rows, k);
    }
}

/// Of a batch of identity keys the last one for an address is stored, and addresses that are not
/// in the batch keep what they have.
pub proof fn law_batched_identities_are_stored(
    db: Db,
    items: Seq<(String, [u8; 32])>,
    device_id: int,
    address: Seq<char>,
)
    ensures
        ({
            let after = db.put_all(Table::Identities, identity_records(items, device_id));
            let k = place(Table::Identities, device_id, Val::Text(address), Val::Null, Val::Null);
            &&& forall|i: int|
                0 <= i < items.len() && (#[trigger] items[i]).0@ == address && (forall|j: int|
                    i < j < items.len() ==> (#[trigger] items[j]).0@ != address) ==> after.column(
                    k,
                    Column::Key,
                ) == Some(Val::Blob(items[i].1@))
            &&& (forall|i: int| 0 <= i < items.len() ==> (#[trigger] items[i]).0@ != address)
                ==> after.get(k) == db.get(k)
        }),
{
    let t = Table::Identities;
    let rows = identity_records(items, device_id);
    let after = db.put_all(t, rows);
    let k = place(t, device_id, Val::Text(address), Val::Null, Val::Null);
    assert forall|j: int| 0 <= j < items.len() implies key_of(t, #[trigger] rows[j]) == place(
        t,
        device_id,
        Val::Text(items[j].0@),
        Val::Null,
        Val::Null,
    ) && rows[j][1] == Val::Blob(items[j].1@) by {}
    assert forall|i: int|
        0 <= i < items.len() && (#[trigger] items[i]).0@ == address && (forall|j: int|
            i < j < items.len() ==> (#[trigger] items[j]).0@ != address) implies after.column(
        k,
        Column::Key,
    ) == Some(Val::Blob(items[i].1@)) by {
        assert(key_of(t, rows[i]) == k);
        assert forall|j: int| i < j < rows.len() implies key_of(t, #[trigger] rows[j]) != k by {
            assert(items[j].0@ != address);
        }
        lemma_last_stays(db, t, rows, k, i);
        assert(after.get(k) == Some(rows[i]));
    }
    if forall|i: int| 0 <= i < items.len() ==> (#[trigger] items[i]).0@ != address {
        assert forall|j: int| 0 <= j < rows.len() implies key_of(t, #[trigger] rows[j]) != k by {
            assert(items[j].0@ != address);
        }
        lemma_not_in_batch(db, t, rows, k);
    }
}

/// A batched deletion takes the listed rows of the account, and nothing else goes.
pub proof fn law_batched_deletions_take_what_is_listed(
    db: Db,
    t: Table,
    items: Seq<String>,
    device_id: int,
    k: Key,
)
    ensures
        ({
            let after = without_keys(db, t, device_id, text_values(items));
            &&& (exists|i: int|
                0 <= i < items.len() && k.a == Val::Text((#[trigger] items[i])@) && k.table == t
                    && k.device == Val::Int(device_id)) ==> !after.rows.contains_key(k)
            &&& !(exists|i: int|
                0 <= i < items.len() && k.a == Val::Text((#[trigger] items[i])@) && k.table == t
                    && k.device == Val::Int(device_id)) ==> after.get(k) == db.get(k)
        }),
{
    let list = text_values(items);
    if exists|i: int|
        0 <= i < items.len() && k.a == Val::Text((#[trigger] items[i])@) && k.table == t && k.device
            == Val::Int(device_id) {
        let i = choose|i: int|
            0 <= i < items.len() && k.a == Val::Text((#[trigger] items[i])@) && k.table == t
                && k.device == Val::Int(device_id);
        assert(list[i] == k.a);
    } else if list.contains(k.a) && k.table == t && k.device == Val::Int(device_id) {
        let i = choose|i: int| 0 <= i < list.len() && list[i] == k.a;
        assert(k.a == Val::Text(items[i]@));
    }
}

// ---------------------------------------------------------------------------------------
// Prekeys

/// The id of a prekey is stored as a number that reads back as the id, and no two ids share one.
pub proof fn law_prekey_ids_are_kept(id: u32, other: u32)
    ensures
        stored_id(id) matches Val::Int(n) && i32::MIN <= n <= i32::MAX && (n as i32) as u32 == id
            && unsigned(n) == id,
        stored_id(id) == stored_id(other) ==> id == other,
{
    lemma_number(id);
    lemma_number(other);
}

/// A prekey is stored whole under its id, with whether it was uploaded as a truth value.
pub proof fn law_prekeys_are_stored_whole(
    db: Db,
    id: u32,
    bytes: Seq<u8>,
    uploaded: bool,
    device_id: int,
)
    ensures
        ({
            let after = db.put(Table::Prekeys, prekey_row(id, bytes, uploaded, device_id));
            let k = place(Table::Prekeys, device_id, stored_id(id), Val::Null, Val::Null);
            &&& after.column(k, Column::Key) == Some(Val::Blob(bytes))
            &&& after.column(k, Column::Uploaded) matches Some(Val::Int(n)) && is_true(n) == uploaded
                && (n == 0 || n == 1)
            &&& after.column(k, Column::Id) == Some(stored_id(id))
            &&& forall|j: Key| j != k ==> #[trigger] after.get(j) == db.get(j)
        }),
{
    lemma_put(
        db,
        Table::Prekeys,
        prekey_row(id, bytes, uploaded, device_id),
        place(Table::Prekeys, device_id, stored_id(id), Val::Null, Val::Null),
    );
}

/// Of a batch of prekeys the last one for an id is stored, whole, and ids that are not in the batch
/// keep what they have.
pub proof fn law_batched_prekeys_are_stored_whole(
    db: Db,
    keys: Seq<(u32, Vec<u8>)>,
    uploaded: bool,
    device_id: int,
    id: u32,
)
    ensures
        ({
            let after = db.put_all(Table::Prekeys, prekey_rows(keys, uploaded, device_id));
            let k = place(Table::Prekeys, device_id, stored_id(id), Val::Null, Val::Null);
            &&& forall|i: int|
                0 <= i < keys.len() && (#[trigger] keys[i]).0 == id && (forall|j: int|
                    i < j < keys.len() ==> (#[trigger] keys[j]).0 != id) ==> after.column(
                    k,
                    Column::Key,
                ) == Some(Val::Blob(keys[i].1@)) && (after.column(k, Column::Uploaded) matches Some(
                    Val::Int(n),
                ) && is_true(n) == uploaded)
            &&& (forall|i: int| 0 <= i < keys.len() ==> (#[trigger] keys[i]).0 != id)
                ==> after.get(k) == db.get(k)
        }),
{
    let t = Table::Prekeys;
    let rows = prekey_rows(keys, uploaded, device_id);
    let after = db.put_all(t, rows);
    let k = place(t, device_id, stored_id(id), Val::Null, Val::Null);
    assert forall|j: int| 0 <= j < keys.len() implies (key_of(t, #[trigger] rows[j]) == k <==> keys[j].0
        == id) && rows[j] == prekey_row(keys[j].0, keys[j].1@, uploaded, device_id) by {
        law_prekey_ids_are_kept(keys[j].0, id);
    }
    assert forall|i: int|
        0 <= i < keys.len() && (#[trigger] keys[i]).0 == id && (forall|j: int|
            i < j < keys.len() ==> (#[trigger] keys[j]).0 != id) implies after.column(
        k,
        Column::Key,
    ) == Some(Val::Blob(keys[i].1@)) && (after.column(k, Column::Uploaded) matches Some(
        Val::Int(n),
    ) && is_true(n) == uploaded) by {
        assert(key_of(t, rows[i]) == k);
        assert forall|j: int| i < j < rows.len() implies key_of(t, #[trigger] rows[j]) != k by {
            assert(keys[j].0 != id);
        }
        lemma_last_stays(db, t, rows, k, i);
        assert(after.get(k) == Some(rows[i]));
    }
    if forall|i: int| 0 <= i < keys.len() ==> (#[trigger] keys[i]).0 != id {
        assert forall|j: int| 0 <= j < rows.len() implies key_of(t, #[trigger] rows[j]) != k by {
            assert(keys[j].0 != id);
        }
        lemma_not_in_batch(db, t, rows, k);
    }
}

/// Marking prekeys as uploaded sets that mark on the listed ones that are stored and changes
/// nothing else of them, nor anything of other rows.
pub proof fn law_marking_changes_the_mark_alone(
    db: Db,
    device_id: int,
    ids: Seq<u32>,
    k: Key,
    c: Column,
)
    requires
        db.wf(),
        pos(k.table, c) >= 0,
    ensures
        ({
            let after = marked_uploaded(db, device_id, stored_ids(ids));
            &&& after.rows.contains_key(k) <==> db.rows.contains_key(k)
            &&& k.table != Table::Prekeys || c != Column::Uploaded || k.device != Val::Int(
                device_id,
            ) ==> after.column(k, c) == db.column(k, c)
            &&& (forall|i: int| 0 <= i < ids.len() ==> stored_id(#[trigger] ids[i]) != k.a)
                ==> after.column(k, c) == db.column(k, c)
            &&& k.table == Table::Prekeys && k.device == Val::Int(device_id)
                && db.rows.contains_key(k) && (exists|i: int|
                0 <= i < ids.len() && stored_id(#[trigger] ids[i]) == k.a) ==> (after.column(
                k,
                Column::Uploaded,
            ) matches Some(Val::Int(n)) && is_true(n))
        }),
{
    let list = stored_ids(ids);
    if exists|i: int| 0 <= i < ids.len() && stored_id(#[trigger] ids[i]) == k.a {
        let i = choose|i: int| 0 <= i < ids.len() && stored_id(#[trigger] ids[i]) == k.a;
        assert(list[i] == k.a);
    } else if list.contains(k.a) {
        let i = choose|i: int| 0 <= i < list.len() && list[i] == k.a;
        assert(stored_id(ids[i]) == k.a);
    }
    if db.rows.contains_key(k) {
        assert(row_wf(k.table, db.rows[k]));
        lemma_positions(k.table);
    }
}

/// A signed prekey is stored whole under its id.
pub proof fn law_signed_prekeys_are_stored_whole(db: Db, id: u32, bytes: Seq<u8>, device_id: int)
    ensures
        ({
            let after = db.put(Table::SignedPrekeys, signed_prekey_row(id, bytes, device_id));
            let k = place(Table::SignedPrekeys, device_id, stored_id(id), Val::Null, Val::Null);
            &&& after.column(k, Column::Record) == Some(Val::Blob(bytes))
            &&& after.column(k, Column::Id) == Some(stored_id(id))
            &&& forall|j: Key| j != k ==> #[trigger] after.get(j) == db.get(j)
        }),
{
    lemma_put(
        db,
        Table::SignedPrekeys,
        signed_prekey_row(id, bytes, device_id),
        place(Table::SignedPrekeys, device_id, stored_id(id), Val::Null, Val::Null),
    );
}

} // verus!
