//! What a caller finds of tokens, message secrets, application state, groups, mappings, device lists
//! and messages after they were stored, in terms of what was handed in.

use crate::app_state::{
    blob_values, first_usable, mac_entries, mac_row, mac_rows, pair_views, sync_key_row,
    version_row, without_macs, AppStateMutationMAC,
};
use crate::device::{account_row, DeviceView};
use crate::effects::{key1, key2, key3};
use crate::groups::{metadata_row, status_row, status_rows, without_devices};
use crate::mapping::{
    base_key_row, is_mapping, mapping_columns, mapping_row, mapping_rows, LidPnMappingEntry,
};
use crate::merge::{merged, Merge};
use crate::model::{projected, row_wf, Db};
use crate::outbox::{
    pending_key, pending_keys, pending_row, pending_rows, sent_key, sent_row, PendingInboundKey,
    PendingInboundRow,
};
use crate::promises::{
    lemma_last_stays, lemma_merged_once, lemma_not_in_batch, lemma_not_merged, lemma_put, place,
};
use crate::registry::{is_record, registry_columns, registry_row, registry_rows, DeviceListRecord};
use crate::representation::law_numbers_are_cut_to_their_low_bits;
use crate::rows::{blob_at, int_at, is_true, text_at};
use crate::schema::{columns, is_numeric, key_of, pos, Column, Key, Table};
use crate::secrets::{expired, secret_key, secret_row, secret_rows, MsgSecretEntry};
use crate::signal::{prekey_row, record, signed_prekey_row, text_values};
use crate::tokens::{
    accepts, answers_for, arrived, describes, is_token, last_row_for, spent, stored_token,
    token_key, token_row, typed, TcTokenEntry,
};
use crate::value::Val;
use vstd::prelude::*;

verus! {

/// Rows are found by the values that identify them within their account.
pub proof fn law_keys_are_what_identifies_a_row(t: Table, device_id: int, a: Val, b: Val, c: Val)
    ensures
        key1(t, device_id, a) == place(t, device_id, a, Val::Null, Val::Null),
        key2(t, device_id, a, b) == place(t, device_id, a, b, Val::Null),
        key3(t, device_id, a, b, c) == place(t, device_id, a, b, c),
{
}

// ---------------------------------------------------------------------------------------
// Tokens

/// Where a token is stored for an identity.
pub open spec fn token_place(jid: Seq<char>, device_id: int) -> Key {
    place(Table::TcTokens, device_id, Val::Text(jid), Val::Null, Val::Null)
}

/// Two entries say the same.
pub open spec fn same_token(a: TcTokenEntry, b: TcTokenEntry) -> bool {
    a.token@ == b.token@ && a.token_timestamp == b.token_timestamp && a.sender_timestamp
        == b.sender_timestamp
}

/// A token entry that is put stands in its columns, a missing sender's time as `NULL`, and an entry
/// that is read from them is the one that was put, in all three fields.
pub proof fn law_put_tokens_read_back(
    db: Db,
    jid: Seq<char>,
    e: TcTokenEntry,
    device_id: int,
    now: i64,
    back: TcTokenEntry,
)
    ensures
        token_key(jid, device_id) == token_place(jid, device_id),
        ({
            let row = token_row(
                jid,
                e.token@,
                e.token_timestamp,
                e.sender_timestamp,
                device_id,
                now,
            );
            let after = db.put(Table::TcTokens, row);
            let k = token_place(jid, device_id);
            let one = projected(
                Table::TcTokens,
                seq![Column::Token, Column::TokenTimestamp, Column::SenderTimestamp],
                row,
            );
            let named = projected(
                Table::TcTokens,
                seq![Column::Jid, Column::Token, Column::TokenTimestamp, Column::SenderTimestamp],
                row,
            );
            &&& after.column(k, Column::Token) == Some(Val::Blob(e.token@))
            &&& after.column(k, Column::TokenTimestamp) == Some(Val::Int(e.token_timestamp as int))
            &&& e.sender_timestamp matches Some(n) ==> after.column(k, Column::SenderTimestamp)
                == Some(Val::Int(n as int))
            &&& e.sender_timestamp is None ==> after.column(k, Column::SenderTimestamp) == Some(
                Val::Null,
            )
            &&& after.column(k, Column::UpdatedAt) == Some(Val::Int(now as int))
            &&& forall|j: Key| j != k ==> #[trigger] after.get(j) == db.get(j)
            &&& is_token(one, 0) && is_token(named, 1)
            &&& describes(one, 0, back) <==> same_token(back, e)
            &&& describes(named, 1, back) <==> same_token(back, e)
            &&& named[0] == Val::Text(jid)
        }),
{
    let row = token_row(jid, e.token@, e.token_timestamp, e.sender_timestamp, device_id, now);
    lemma_put(db, Table::TcTokens, row, token_place(jid, device_id));
    let cs = seq![Column::Token, Column::TokenTimestamp, Column::SenderTimestamp];
    assert(projected(Table::TcTokens, cs, row) =~= seq![row[1], row[2], row[3]]);
    let ds = seq![Column::Jid, Column::Token, Column::TokenTimestamp, Column::SenderTimestamp];
    assert(projected(Table::TcTokens, ds, row) =~= seq![row[0], row[1], row[2], row[3]]);
}

/// A token that arrives for an identity without a row is stored with its time, and this side has
/// issued none. Where a row is stored, the token and its time are replaced exactly where the
/// stored token is empty or no newer; when this side last issued one is left. Other rows are left
/// in any case.
pub proof fn law_arrivals_store_the_newer_token(
    db: Db,
    jid: Seq<char>,
    token: Seq<u8>,
    time: i64,
    device_id: int,
    now: i64,
)
    requires
        db.wf(),
        typed(db, token_place(jid, device_id)),
    ensures
        ({
            let k = token_place(jid, device_id);
            let after = arrived(db, jid, token, time, device_id, now);
            &&& forall|j: Key| j != k ==> #[trigger] after.get(j) == db.get(j)
            &&& !db.rows.contains_key(k) ==> {
                &&& after.column(k, Column::Token) == Some(Val::Blob(token))
                &&& after.column(k, Column::TokenTimestamp) == Some(Val::Int(time as int))
                &&& after.column(k, Column::SenderTimestamp) == Some(Val::Null)
                &&& after.column(k, Column::UpdatedAt) == Some(Val::Int(now as int))
            }
            &&& db.rows.contains_key(k) ==> {
                let held = db.column(k, Column::Token)->0->Blob_0;
                let since = db.column(k, Column::TokenTimestamp)->0->Int_0;
                &&& after.column(k, Column::SenderTimestamp) == db.column(
                    k,
                    Column::SenderTimestamp,
                )
                &&& held.len() == 0 || time >= since ==> after.column(k, Column::Token) == Some(
                    Val::Blob(token),
                ) && after.column(k, Column::TokenTimestamp) == Some(Val::Int(time as int))
                    && after.column(k, Column::UpdatedAt) == Some(Val::Int(now as int))
                &&& held.len() > 0 && time < since ==> after == db
            }
        }),
{
    let k = token_place(jid, device_id);
    let cs = seq![Column::Token, Column::TokenTimestamp];
    let row = token_row(jid, token, time, None, device_id, now);
    assert(key_of(Table::TcTokens, row) == k);
    assert(token_key(jid, device_id) == k);
    if db.rows.contains_key(k) {
        let old_row = db.rows[k];
        assert(projected(k.table, cs, old_row) =~= seq![old_row[1], old_row[2]]);
        assert(key_of(Table::TcTokens, old_row) == k);
        assert(key_of(Table::TcTokens, merged(Merge::Received, old_row, row)) == k);
    }
}

/// An arrival is decided by what is stored: nothing, an empty token or an older or equal time let
/// it in, a newer one keeps it out.
pub proof fn law_arrivals_are_decided_by_time(token: Seq<u8>, stored: int, time: int)
    ensures
        accepts(None, time),
        token.len() == 0 ==> accepts(Some((token, stored)), time),
        token.len() > 0 ==> (accepts(Some((token, stored)), time) <==> stored <= time),
        stored_token(seq![Val::Blob(token), Val::Int(stored)]) == Some((token, stored)),
{
}

/// Recording that this side issued a token, where no row is stored, makes one without a token.
pub proof fn law_first_touch_has_no_token(
    db: Db,
    jid: Seq<char>,
    sender_timestamp: i64,
    device_id: int,
    now: i64,
)
    requires
        !db.rows.contains_key(token_place(jid, device_id)),
    ensures
        ({
            let k = token_place(jid, device_id);
            let after = db.merge(
                Merge::Touch,
                Table::TcTokens,
                token_row(jid, seq![], sender_timestamp, Some(sender_timestamp), device_id, now),
            );
            &&& after.column(k, Column::Token) == Some(Val::Blob(seq![]))
            &&& after.column(k, Column::TokenTimestamp) == Some(Val::Int(sender_timestamp as int))
            &&& after.column(k, Column::SenderTimestamp) == Some(Val::Int(sender_timestamp as int))
            &&& after.column(k, Column::UpdatedAt) == Some(Val::Int(now as int))
            &&& forall|j: Key| j != k ==> #[trigger] after.get(j) == db.get(j)
        }),
{
    let row = token_row(jid, seq![], sender_timestamp, Some(sender_timestamp), device_id, now);
    lemma_put(db, Table::TcTokens, row, token_place(jid, device_id));
}

/// Recording that this side issued a token never takes its time back and never touches the token,
/// its time or another row.
pub proof fn law_touches_leave_the_token(
    db: Db,
    jid: Seq<char>,
    sender_timestamp: i64,
    device_id: int,
    now: i64,
    k: Key,
)
    requires
        db.wf(),
        db.rows.contains_key(k),
    ensures
        ({
            let after = db.merge(
                Merge::Touch,
                Table::TcTokens,
                token_row(jid, seq![], sender_timestamp, Some(sender_timestamp), device_id, now),
            );
            &&& k != token_place(jid, device_id) ==> after.get(k) == db.get(k)
            &&& k == token_place(jid, device_id) ==> {
                &&& after.column(k, Column::Token) == db.column(k, Column::Token)
                &&& after.column(k, Column::TokenTimestamp) == db.column(k, Column::TokenTimestamp)
                &&& after.column(k, Column::UpdatedAt) == Some(Val::Int(now as int))
                &&& db.column(k, Column::SenderTimestamp) == Some(Val::Null) ==> after.column(
                    k,
                    Column::SenderTimestamp,
                ) == Some(Val::Int(sender_timestamp as int))
                &&& db.column(k, Column::SenderTimestamp) matches Some(Val::Int(n)) ==> {
                    &&& after.column(k, Column::SenderTimestamp) matches Some(Val::Int(m)) && m >= n
                        && m >= sender_timestamp && (m == n || m == sender_timestamp)
                }
            }
        }),
{
    let row = token_row(jid, seq![], sender_timestamp, Some(sender_timestamp), device_id, now);
    let own = token_place(jid, device_id);
    assert(key_of(Table::TcTokens, row) == own);
    if db.rows.contains_key(own) {
        let old_row = db.rows[own];
        assert(key_of(Table::TcTokens, old_row) == own);
        assert(key_of(Table::TcTokens, merged(Merge::Touch, old_row, row)) == own);
    }
}

/// A sweep takes a row that is spent on both sides and no other: a token that has not expired
/// keeps its row, whatever the sender's time; a sender's time that has not expired keeps it,
/// whatever the token; and what is expired or missing on both sides goes.
pub proof fn law_only_spent_tokens_are_swept(
    row: Seq<Val>,
    token_cutoff: int,
    sender_cutoff: int,
    token: Seq<u8>,
    time: int,
)
    requires
        row[pos(Table::TcTokens, Column::Token)] == Val::Blob(token),
        row[pos(Table::TcTokens, Column::TokenTimestamp)] == Val::Int(time),
    ensures
        token.len() > 0 && time >= token_cutoff ==> !spent(row, token_cutoff, sender_cutoff),
        row[pos(Table::TcTokens, Column::SenderTimestamp)] matches Val::Int(n) ==> (n
            >= sender_cutoff ==> !spent(row, token_cutoff, sender_cutoff)),
        (token.len() == 0 || time < token_cutoff) && row[pos(
            Table::TcTokens,
            Column::SenderTimestamp,
        )] is Null ==> spent(row, token_cutoff, sender_cutoff),
        row[pos(Table::TcTokens, Column::SenderTimestamp)] matches Val::Int(n) ==> (n
            < sender_cutoff && (token.len() == 0 || time < token_cutoff) ==> spent(
            row,
            token_cutoff,
            sender_cutoff,
        )),
{
    if token.len() == 0 {
        assert(token =~= seq![]);
    }
}

/// A later cutoff sweeps no less.
pub proof fn law_later_cutoffs_sweep_no_less(
    row: Seq<Val>,
    token_cutoff: int,
    sender_cutoff: int,
    later_token_cutoff: int,
    later_sender_cutoff: int,
)
    requires
        token_cutoff <= later_token_cutoff,
        sender_cutoff <= later_sender_cutoff,
        spent(row, token_cutoff, sender_cutoff),
    ensures
        spent(row, later_token_cutoff, later_sender_cutoff),
{
}

/// Each identity that is asked for is answered with the entry of its own row, and with none where
/// no row came back for it.
pub proof fn law_tokens_are_answered_by_identity(
    rows: Seq<Seq<Val>>,
    jid: Seq<char>,
    answer: Option<TcTokenEntry>,
    i: int,
)
    requires
        answers_for(rows, jid, answer),
        forall|j: int| 0 <= j < rows.len() ==> (#[trigger] rows[j]).len() > 0 && rows[j][0] is Text,
    ensures
        (forall|j: int| 0 <= j < rows.len() ==> (#[trigger] rows[j])[0] != Val::Text(jid)) ==> answer
            is None,
        0 <= i < rows.len() && rows[i][0] == Val::Text(jid) && (forall|j: int|
            i < j < rows.len() ==> (#[trigger] rows[j])[0] != Val::Text(jid)) ==> (answer matches Some(
            e,
        ) && describes(rows[i], 1, e)),
{
    lemma_last_row(rows, jid);
}

proof fn lemma_last_row(rows: Seq<Seq<Val>>, jid: Seq<char>)
    requires
        forall|j: int| 0 <= j < rows.len() ==> (#[trigger] rows[j]).len() > 0 && rows[j][0] is Text,
    ensures
        ({
            let i = last_row_for(rows, jid);
            &&& -1 <= i < rows.len()
            &&& i >= 0 ==> rows[i][0] == Val::Text(jid)
            &&& forall|j: int| i < j < rows.len() ==> (#[trigger] rows[j])[0] != Val::Text(jid)
        }),
    decreases rows.len(),
{
    if rows.len() > 0 {
        let head = rows.drop_last();
        assert(rows[rows.len() - 1].len() > 0);
        assert forall|j: int| 0 <= j < head.len() implies (#[trigger] head[j]).len() > 0
            && head[j][0] is Text by {
            assert(rows[j].len() > 0);
        }
        lemma_last_row(head, jid);
        let i = last_row_for(rows, jid);
        assert forall|j: int| i < j < rows.len() implies (#[trigger] rows[j])[0] != Val::Text(
            jid,
        ) by {
            if j < rows.len() - 1 {
                assert(head[j] == rows[j]);
            }
        }
    }
}

// ---------------------------------------------------------------------------------------
// Message secrets

/// Where the secret of a message is stored.
pub open spec fn secret_place(e: MsgSecretEntry, device_id: int) -> Key {
    place(
        Table::MsgSecrets,
        device_id,
        Val::Text(e.chat@),
        Val::Text(e.sender@),
        Val::Text(e.msg_id@),
    )
}

/// A secret that is stored for the first time stands under its message with its own deadline and
/// its own time of the message, and reads back with exactly these.
pub proof fn law_new_secrets_read_back(db: Db, e: MsgSecretEntry, device_id: int)
    requires
        !db.rows.contains_key(secret_place(e, device_id)),
    ensures
        secret_key(e.chat@, e.sender@, e.msg_id@, device_id) == secret_place(e, device_id),
        ({
            let row = secret_row(e, device_id);
            let after = db.merge(Merge::Secret, Table::MsgSecrets, row);
            let k = secret_place(e, device_id);
            let read = projected(Table::MsgSecrets, seq![Column::Secret, Column::MessageTs], row);
            &&& after.column(k, Column::Secret) == Some(Val::Blob(e.secret@))
            &&& after.column(k, Column::MessageTs) == Some(Val::Int(e.message_ts as int))
            &&& after.column(k, Column::ExpiresAt) == Some(Val::Int(e.expires_at as int))
            &&& blob_at(read, 0) == Some(e.secret@)
            &&& int_at(read, 1) == Some(e.message_ts as int)
            &&& forall|j: Key| j != k ==> #[trigger] after.get(j) == db.get(j)
        }),
{
    let row = secret_row(e, device_id);
    lemma_put(db, Table::MsgSecrets, row, secret_place(e, device_id));
    let cs = seq![Column::Secret, Column::MessageTs];
    assert(projected(Table::MsgSecrets, cs, row) =~= seq![row[3], row[5]]);
}

/// A secret that is stored again is the new one. The time of the message that stays is the larger
/// of the two, the deadline is the later of the two, where none is later than any, and other rows
/// are left.
pub proof fn law_redelivered_secrets_merge(db: Db, e: MsgSecretEntry, device_id: int)
    requires
        db.wf(),
        db.rows.contains_key(secret_place(e, device_id)),
        db.column(secret_place(e, device_id), Column::ExpiresAt)->0 is Int,
        db.column(secret_place(e, device_id), Column::MessageTs)->0 is Int,
    ensures
        ({
            let after = db.merge(Merge::Secret, Table::MsgSecrets, secret_row(e, device_id));
            let k = secret_place(e, device_id);
            let deadline = db.column(k, Column::ExpiresAt)->0->Int_0;
            let time = db.column(k, Column::MessageTs)->0->Int_0;
            &&& after.column(k, Column::Secret) == Some(Val::Blob(e.secret@))
            &&& after.column(k, Column::MessageTs) == Some(
                Val::Int(
                    if time >= e.message_ts {
                        time
                    } else {
                        e.message_ts as int
                    },
                ),
            )
            &&& deadline == 0 || e.expires_at == 0 ==> after.column(k, Column::ExpiresAt) == Some(
                Val::Int(0),
            )
            &&& deadline != 0 && e.expires_at != 0 ==> after.column(k, Column::ExpiresAt) == Some(
                Val::Int(
                    if deadline >= e.expires_at {
                        deadline
                    } else {
                        e.expires_at as int
                    },
                ),
            )
            &&& forall|j: Key| j != k ==> #[trigger] after.get(j) == db.get(j)
        }),
{
    let row = secret_row(e, device_id);
    let k = secret_place(e, device_id);
    assert(key_of(Table::MsgSecrets, row) == k);
    assert(key_of(Table::MsgSecrets, db.rows[k]) == k);
    assert(key_of(Table::MsgSecrets, merged(Merge::Secret, db.rows[k], row)) == k);
}

/// A batch of secrets has one row for each, in their order. One whose message occurs once is stored
/// as it would be alone, and messages that are not in the batch keep what they have.
pub proof fn law_batched_secrets_are_stored_each(
    db: Db,
    entries: Seq<MsgSecretEntry>,
    device_id: int,
    i: int,
    k: Key,
)
    requires
        db.wf(),
    ensures
        ({
            let after = db.merge_all(
                Merge::Secret,
                Table::MsgSecrets,
                secret_rows(entries, device_id),
            );
            &&& secret_rows(entries, device_id).len() == entries.len()
            &&& forall|j: int|
                0 <= j < entries.len() ==> #[trigger] secret_rows(entries, device_id)[j]
                    == secret_row(entries[j], device_id)
            &&& 0 <= i < entries.len() && (forall|j: int|
                0 <= j < entries.len() && j != i ==> secret_place(#[trigger] entries[j], device_id)
                    != secret_place(entries[i], device_id)) ==> after.get(
                secret_place(entries[i], device_id),
            ) == db.merge(
                Merge::Secret,
                Table::MsgSecrets,
                secret_row(entries[i], device_id),
            ).get(secret_place(entries[i], device_id))
            &&& (forall|j: int|
                0 <= j < entries.len() ==> secret_place(#[trigger] entries[j], device_id) != k)
                ==> after.get(k) == db.get(k)
        }),
{
    let t = Table::MsgSecrets;
    let rows = secret_rows(entries, device_id);
    assert forall|j: int| 0 <= j < rows.len() implies row_wf(t, #[trigger] rows[j])
        && key_of(t, rows[j]) == secret_place(entries[j], device_id) by {}
    if 0 <= i < entries.len() && (forall|j: int|
        0 <= j < entries.len() && j != i ==> secret_place(#[trigger] entries[j], device_id)
            != secret_place(entries[i], device_id)) {
        assert forall|j: int| 0 <= j < rows.len() && j != i implies key_of(t, #[trigger] rows[j])
            != key_of(t, rows[i]) by {
            assert(secret_place(entries[j], device_id) != secret_place(entries[i], device_id));
        }
        assert(rows[i] == secret_row(entries[i], device_id));
        lemma_merged_once(db, Merge::Secret, t, rows, i);
    }
    if forall|j: int|
        0 <= j < entries.len() ==> secret_place(#[trigger] entries[j], device_id) != k {
        assert forall|j: int| 0 <= j < rows.len() implies row_wf(
            t,
            #[trigger] rows[j],
        ) && key_of(t, rows[j]) != k by {
            assert(secret_place(entries[j], device_id) != k);
        }
        lemma_not_merged(db, Merge::Secret, t, rows, k);
    }
}

/// A secret is swept exactly where it has a deadline and the deadline has come.
pub proof fn law_secrets_are_swept_at_their_deadline(row: Seq<Val>, deadline: int, cutoff: int)
    requires
        row[pos(Table::MsgSecrets, Column::ExpiresAt)] == Val::Int(deadline),
    ensures
        deadline == 0 ==> !expired(row, cutoff),
        deadline > cutoff ==> !expired(row, cutoff),
        deadline != 0 && deadline <= cutoff ==> expired(row, cutoff),
{
}

// ---------------------------------------------------------------------------------------
// Application state

/// A sync key is stored whole under its id.
pub proof fn law_sync_keys_are_stored_whole(
    db: Db,
    key_id: Seq<u8>,
    data: Seq<u8>,
    device_id: int,
)
    ensures
        ({
            let after = db.put(Table::AppStateKeys, sync_key_row(key_id, data, device_id));
            let k = place(Table::AppStateKeys, device_id, Val::Blob(key_id), Val::Null, Val::Null);
            &&& after.column(k, Column::KeyData) == Some(Val::Blob(data))
            &&& after.column(k, Column::KeyId) == Some(Val::Blob(key_id))
            &&& forall|j: Key| j != k ==> #[trigger] after.get(j) == db.get(j)
        }),
{
    lemma_put(
        db,
        Table::AppStateKeys,
        sync_key_row(key_id, data, device_id),
        place(Table::AppStateKeys, device_id, Val::Blob(key_id), Val::Null, Val::Null),
    );
}

/// The state of a collection is stored whole under its name.
pub proof fn law_versions_are_stored_whole(
    db: Db,
    name: Seq<char>,
    data: Seq<u8>,
    device_id: int,
)
    ensures
        ({
            let after = db.put(Table::AppStateVersions, version_row(name, data, device_id));
            let k = place(
                Table::AppStateVersions,
                device_id,
                Val::Text(name),
                Val::Null,
                Val::Null,
            );
            &&& after.column(k, Column::StateData) == Some(Val::Blob(data))
            &&& forall|j: Key| j != k ==> #[trigger] after.get(j) == db.get(j)
        }),
{
    lemma_put(
        db,
        Table::AppStateVersions,
        version_row(name, data, device_id),
        place(Table::AppStateVersions, device_id, Val::Text(name), Val::Null, Val::Null),
    );
}

/// Where a MAC is stored: by its collection and its index.
pub open spec fn mac_place(name: Seq<char>, index: Seq<u8>, device_id: int) -> Key {
    place(
        Table::AppStateMutationMacs,
        device_id,
        Val::Text(name),
        Val::Blob(index),
        Val::Null,
    )
}

proof fn lemma_version(n: u64)
    by (bit_vector)
    ensures
        (n as i64) as u64 == n,
{
}

/// A batch of MACs has one row for each, in their order, under its own index and with its own
/// value, and with the version of the patch.
pub proof fn law_macs_are_stored_each(
    name: Seq<char>,
    version: u64,
    macs: Seq<AppStateMutationMAC>,
    device_id: int,
)
    ensures
        ({
            let t = Table::AppStateMutationMacs;
            let rows = mac_rows(name, version, macs, device_id);
            &&& rows.len() == macs.len()
            &&& forall|i: int|
                0 <= i < macs.len() ==> {
                    let row = #[trigger] rows[i];
                    &&& key_of(t, row) == mac_place(name, macs[i].index_mac@, device_id)
                    &&& row[pos(t, Column::ValueMac)] == Val::Blob(macs[i].value_mac@)
                    &&& row[pos(t, Column::Version)] matches Val::Int(n) && i64::MIN <= n
                        <= i64::MAX && (n as i64) as u64 == version
                }
        }),
{
    lemma_version(version);
}

/// Removing MACs from a collection takes those with a listed index, and nothing else goes.
pub proof fn law_removed_macs_are_the_listed_ones(
    db: Db,
    device_id: int,
    name: Seq<char>,
    removed: Seq<Vec<u8>>,
    k: Key,
)
    ensures
        ({
            let after = without_macs(db, device_id, name, blob_values(removed));
            let hit = exists|i: int|
                0 <= i < removed.len() && k == mac_place(name, (#[trigger] removed[i])@, device_id);
            &&& hit ==> !after.rows.contains_key(k)
            &&& k.c == Val::Null && !hit ==> after.get(k) == db.get(k)
        }),
{
    let list = blob_values(removed);
    if exists|i: int|
        0 <= i < removed.len() && k == mac_place(name, (#[trigger] removed[i])@, device_id) {
        let i = choose|i: int|
            0 <= i < removed.len() && k == mac_place(name, (#[trigger] removed[i])@, device_id);
        assert(list[i] == k.b);
    } else if list.contains(k.b) && k.table == Table::AppStateMutationMacs && k.device == Val::Int(
        device_id,
    ) && k.a == Val::Text(name) && k.c == Val::Null {
        let i = choose|i: int| 0 <= i < list.len() && list[i] == k.b;
        assert(k == mac_place(name, removed[i]@, device_id));
    }
}

/// A patch leaves the new state of its collection; of the added MACs the last with an index, even
/// where the patch removes that index; none that it removes and does not add; and everything else
/// as it was.
pub proof fn law_patches_are_committed_whole(
    db: Db,
    device_id: int,
    name: Seq<char>,
    data: Seq<u8>,
    version: u64,
    removed: Seq<Vec<u8>>,
    added: Seq<AppStateMutationMAC>,
    index: Seq<u8>,
)
    ensures
        ({
            let after = without_macs(
                db.put(Table::AppStateVersions, version_row(name, data, device_id)),
                device_id,
                name,
                blob_values(removed),
            ).put_all(Table::AppStateMutationMacs, mac_rows(name, version, added, device_id));
            let k = mac_place(name, index, device_id);
            let v = place(
                Table::AppStateVersions,
                device_id,
                Val::Text(name),
                Val::Null,
                Val::Null,
            );
            &&& after.column(v, Column::StateData) == Some(Val::Blob(data))
            &&& forall|i: int|
                0 <= i < added.len() && (#[trigger] added[i]).index_mac@ == index && (forall|j: int|
                    i < j < added.len() ==> (#[trigger] added[j]).index_mac@ != index)
                    ==> after.column(k, Column::ValueMac) == Some(Val::Blob(added[i].value_mac@))
            &&& (forall|i: int| 0 <= i < added.len() ==> (#[trigger] added[i]).index_mac@ != index)
                ==> {
                &&& (exists|i: int| 0 <= i < removed.len() && (#[trigger] removed[i])@ == index)
                    ==> !after.rows.contains_key(k)
                &&& !(exists|i: int| 0 <= i < removed.len() && (#[trigger] removed[i])@ == index)
                    ==> after.get(k) == db.get(k)
            }
            &&& forall|j: Key|
                j != v && (j.table != Table::AppStateMutationMacs || j.device != Val::Int(device_id)
                    || j.a != Val::Text(name)) ==> #[trigger] after.get(j) == db.get(j)
        }),
{
    let t = Table::AppStateMutationMacs;
    let put = db.put(Table::AppStateVersions, version_row(name, data, device_id));
    let cleared = without_macs(put, device_id, name, blob_values(removed));
    let rows = mac_rows(name, version, added, device_id);
    let after = cleared.put_all(t, rows);
    let k = mac_place(name, index, device_id);
    let v = place(Table::AppStateVersions, device_id, Val::Text(name), Val::Null, Val::Null);
    law_macs_are_stored_each(name, version, added, device_id);
    law_versions_are_stored_whole(db, name, data, device_id);
    law_removed_macs_are_the_listed_ones(put, device_id, name, removed, k);
    law_removed_macs_are_the_listed_ones(put, device_id, name, removed, v);
    assert(put.get(k) == db.get(k));
    assert forall|i: int| 0 <= i < rows.len() implies key_of(t, #[trigger] rows[i]) != v by {}
    lemma_not_in_batch(cleared, t, rows, v);
    assert(after.get(v) == put.get(v));
    assert forall|i: int|
        0 <= i < added.len() && (#[trigger] added[i]).index_mac@ == index && (forall|j: int|
            i < j < added.len() ==> (#[trigger] added[j]).index_mac@ != index) implies after.column(
        k,
        Column::ValueMac,
    ) == Some(Val::Blob(added[i].value_mac@)) by {
        assert(key_of(t, rows[i]) == k);
        assert forall|j: int| i < j < rows.len() implies key_of(t, #[trigger] rows[j]) != k by {
            assert(added[j].index_mac@ != index);
        }
        lemma_last_stays(cleared, t, rows, k, i);
        assert(after.get(k) == Some(rows[i]));
    }
    if forall|i: int| 0 <= i < added.len() ==> (#[trigger] added[i]).index_mac@ != index {
        assert forall|j: int| 0 <= j < rows.len() implies key_of(t, #[trigger] rows[j]) != k by {
            assert(added[j].index_mac@ != index);
        }
        lemma_not_in_batch(cleared, t, rows, k);
        assert(after.get(k) == cleared.get(k));
        if exists|i: int| 0 <= i < removed.len() && (#[trigger] removed[i])@ == index {
            let i = choose|i: int| 0 <= i < removed.len() && (#[trigger] removed[i])@ == index;
            assert(k == mac_place(name, removed[i]@, device_id));
        } else {
            assert forall|i: int| 0 <= i < removed.len() implies k != mac_place(
                name,
                (#[trigger] removed[i])@,
                device_id,
            ) by {
                assert(removed[i]@ != index);
            }
        }
    }
    assert forall|j: Key|
        j != v && (j.table != Table::AppStateMutationMacs || j.device != Val::Int(device_id) || j.a
            != Val::Text(name)) implies #[trigger] after.get(j) == db.get(j) by {
        assert forall|i: int| 0 <= i < rows.len() implies key_of(t, #[trigger] rows[i]) != j by {}
        lemma_not_in_batch(cleared, t, rows, j);
    }
}

/// What is read of MACs are the index and the value of each row, in their order.
pub proof fn law_macs_are_read_in_order(rows: Seq<Seq<Val>>)
    requires
        forall|i: int|
            0 <= i < rows.len() ==> (#[trigger] rows[i]).len() == 2 && (rows[i][0] matches Val::Blob(
                index,
            ) && index.len() == 32) && rows[i][1] is Blob,
    ensures
        mac_entries(rows).len() == rows.len(),
        forall|i: int|
            0 <= i < rows.len() ==> (#[trigger] rows[i]) == seq![
                Val::Blob(mac_entries(rows)[i].0),
                Val::Blob(mac_entries(rows)[i].1),
            ],
    decreases rows.len(),
{
    if rows.len() > 0 {
        let head = rows.drop_last();
        let last = rows[rows.len() - 1];
        assert(last.len() == 2);
        assert forall|i: int| 0 <= i < head.len() implies (#[trigger] head[i]).len() == 2 && (
        head[i][0] matches Val::Blob(index) && index.len() == 32) && head[i][1] is Blob by {
            assert(rows[i].len() == 2);
        }
        law_macs_are_read_in_order(head);
        assert forall|i: int| 0 <= i < rows.len() implies (#[trigger] rows[i]) == seq![
            Val::Blob(mac_entries(rows)[i].0),
            Val::Blob(mac_entries(rows)[i].1),
        ] by {
            if i < rows.len() - 1 {
                assert(head[i] == rows[i]);
                assert(mac_entries(rows)[i] == mac_entries(head)[i]);
            } else {
                assert(rows[i] =~= seq![last[0], last[1]]);
            }
        }
    }
}

/// What is read of MACs is read row by row, and a row whose index is not of the length of a hash
/// is passed over.
pub proof fn law_macs_are_read_row_by_row(
    rows: Seq<Seq<Val>>,
    index: Seq<u8>,
    value: Seq<u8>,
    list: Seq<([u8; 32], Vec<u8>)>,
)
    ensures
        ({
            let more = mac_entries(rows.push(seq![Val::Blob(index), Val::Blob(value)]));
            &&& index.len() == 32 ==> more == mac_entries(rows).push((index, value))
            &&& index.len() != 32 ==> more == mac_entries(rows)
        }),
        pair_views(list).len() == list.len(),
        forall|i: int| 0 <= i < list.len() ==> pair_views(list)[i] == (
            (#[trigger] list[i]).0@,
            list[i].1@,
        ),
{
    let row = seq![Val::Blob(index), Val::Blob(value)];
    assert(rows.push(row).drop_last() =~= rows);
    assert(rows.push(row).last() == row);
    assert forall|i: int| 0 <= i < list.len() implies pair_views(list)[i] == (
        (#[trigger] list[i]).0@,
        list[i].1@,
    ) by {}
}

/// The key that is used is the first that can be used: none before it can.
pub proof fn law_the_first_usable_key_is_used(usable: Seq<bool>)
    ensures
        0 <= first_usable(usable) <= usable.len(),
        forall|i: int| 0 <= i < first_usable(usable) ==> !(#[trigger] usable[i]),
        first_usable(usable) < usable.len() ==> usable[first_usable(usable)],
    decreases usable.len(),
{
    if usable.len() > 0 && !usable[0] {
        law_the_first_usable_key_is_used(usable.drop_first());
        assert forall|i: int| 0 <= i < first_usable(usable) implies !(#[trigger] usable[i]) by {
            if i > 0 {
                assert(!usable.drop_first()[i - 1]);
            }
        }
    }
}

// ---------------------------------------------------------------------------------------
// Groups

/// Where it is stored whether a device of a group has the sender key.
pub open spec fn status_place(group: Seq<char>, device_jid: Seq<char>, device_id: int) -> Key {
    place(
        Table::SenderKeyDevices,
        device_id,
        Val::Text(group),
        Val::Text(device_jid),
        Val::Null,
    )
}

/// A batch of statuses has one row for each device, in their order, under the group and that
/// device, with its own status as a truth value and the time.
pub proof fn law_statuses_are_stored_each(
    group: Seq<char>,
    entries: Seq<(String, bool)>,
    device_id: int,
    now: int,
)
    ensures
        ({
            let t = Table::SenderKeyDevices;
            let rows = status_rows(group, entries, device_id, now);
            &&& rows.len() == entries.len()
            &&& forall|i: int|
                0 <= i < entries.len() ==> {
                    let row = #[trigger] rows[i];
                    let read = projected(t, seq![Column::DeviceJid, Column::HasKey], row);
                    &&& key_of(t, row) == status_place(group, entries[i].0@, device_id)
                    &&& row[pos(t, Column::HasKey)] == Val::Int(
                        if entries[i].1 {
                            1
                        } else {
                            0
                        },
                    )
                    &&& row[pos(t, Column::UpdatedAt)] == Val::Int(now)
                    &&& text_at(read, 0) == Some(entries[i].0@)
                    &&& int_at(read, 1) matches Some(n) && is_true(n) == entries[i].1
                }
        }),
{
    let t = Table::SenderKeyDevices;
    let rows = status_rows(group, entries, device_id, now);
    assert forall|i: int| 0 <= i < entries.len() implies projected(
        t,
        seq![Column::DeviceJid, Column::HasKey],
        #[trigger] rows[i],
    ) == seq![rows[i][1], rows[i][2]] by {
        assert(projected(t, seq![Column::DeviceJid, Column::HasKey], rows[i]) =~= seq![
            rows[i][1],
            rows[i][2],
        ]);
    }
}

/// Of a batch of statuses the last one for a device stays, and other devices keep theirs.
pub proof fn law_the_last_status_stays(
    db: Db,
    group: Seq<char>,
    entries: Seq<(String, bool)>,
    device_id: int,
    now: int,
    device_jid: Seq<char>,
)
    ensures
        ({
            let after = db.put_all(
                Table::SenderKeyDevices,
                status_rows(group, entries, device_id, now),
            );
            let k = status_place(group, device_jid, device_id);
            &&& forall|i: int|
                0 <= i < entries.len() && (#[trigger] entries[i]).0@ == device_jid && (forall|j: int|
                    i < j < entries.len() ==> (#[trigger] entries[j]).0@ != device_jid) ==> (
                after.column(k, Column::HasKey) matches Some(Val::Int(n)) && is_true(n)
                    == entries[i].1)
            &&& (forall|i: int| 0 <= i < entries.len() ==> (#[trigger] entries[i]).0@ != device_jid)
                ==> after.get(k) == db.get(k)
            &&& forall|j: Key|
                j.table != Table::SenderKeyDevices || j.device != Val::Int(device_id) || j.a
                    != Val::Text(group) ==> #[trigger] after.get(j) == db.get(j)
        }),
{
    let t = Table::SenderKeyDevices;
    let rows = status_rows(group, entries, device_id, now);
    let after = db.put_all(t, rows);
    let k = status_place(group, device_jid, device_id);
    law_statuses_are_stored_each(group, entries, device_id, now);
    assert forall|i: int|
        0 <= i < entries.len() && (#[trigger] entries[i]).0@ == device_jid && (forall|j: int|
            i < j < entries.len() ==> (#[trigger] entries[j]).0@ != device_jid) implies (
    after.column(k, Column::HasKey) matches Some(Val::Int(n)) && is_true(n) == entries[i].1) by {
        assert(key_of(t, rows[i]) == k);
        assert forall|j: int| i < j < rows.len() implies key_of(t, #[trigger] rows[j]) != k by {
            assert(entries[j].0@ != device_jid);
        }
        lemma_last_stays(db, t, rows, k, i);
        assert(after.get(k) == Some(rows[i]));
    }
    if forall|i: int| 0 <= i < entries.len() ==> (#[trigger] entries[i]).0@ != device_jid {
        assert forall|j: int| 0 <= j < rows.len() implies key_of(t, #[trigger] rows[j]) != k by {
            assert(entries[j].0@ != device_jid);
        }
        lemma_not_in_batch(db, t, rows, k);
    }
    assert forall|j: Key|
        j.table != Table::SenderKeyDevices || j.device != Val::Int(device_id) || j.a != Val::Text(
            group,
        ) implies #[trigger] after.get(j) == db.get(j) by {
        assert forall|i: int| 0 <= i < rows.len() implies key_of(t, #[trigger] rows[i]) != j by {}
        lemma_not_in_batch(db, t, rows, j);
    }
}

/// Forgetting devices takes their statuses in every group of the account, and nothing else goes.
pub proof fn law_forgotten_devices_are_the_listed_ones(
    db: Db,
    device_id: int,
    items: Seq<String>,
    k: Key,
)
    ensures
        ({
            let after = without_devices(db, device_id, text_values(items));
            let hit = k.table == Table::SenderKeyDevices && k.device == Val::Int(device_id)
                && exists|i: int| 0 <= i < items.len() && k.b == Val::Text((#[trigger] items[i])@);
            &&& hit ==> !after.rows.contains_key(k)
            &&& !hit ==> after.get(k) == db.get(k)
        }),
{
    let list = text_values(items);
    if exists|i: int| 0 <= i < items.len() && k.b == Val::Text((#[trigger] items[i])@) {
        let i = choose|i: int| 0 <= i < items.len() && k.b == Val::Text((#[trigger] items[i])@);
        assert(list[i] == k.b);
    } else if list.contains(k.b) {
        let i = choose|i: int| 0 <= i < list.len() && list[i] == k.b;
        assert(k.b == Val::Text(items[i]@));
    }
}

/// What is known of a group is stored whole under the group.
pub proof fn law_group_metadata_is_stored_whole(
    db: Db,
    group: Seq<char>,
    info: Seq<u8>,
    device_id: int,
    now: int,
)
    ensures
        ({
            let after = db.put(Table::GroupMetadata, metadata_row(group, info, device_id, now));
            let k = place(Table::GroupMetadata, device_id, Val::Text(group), Val::Null, Val::Null);
            &&& after.column(k, Column::Info) == Some(Val::Blob(info))
            &&& after.column(k, Column::UpdatedAt) == Some(Val::Int(now))
            &&& forall|j: Key| j != k ==> #[trigger] after.get(j) == db.get(j)
        }),
{
    lemma_put(
        db,
        Table::GroupMetadata,
        metadata_row(group, info, device_id, now),
        place(Table::GroupMetadata, device_id, Val::Text(group), Val::Null, Val::Null),
    );
}

// ---------------------------------------------------------------------------------------
// Mappings and base keys

/// Where the mapping of a hidden identity is stored.
pub open spec fn mapping_place(lid: Seq<char>, device_id: int) -> Key {
    place(Table::LidPnMapping, device_id, Val::Text(lid), Val::Null, Val::Null)
}

/// A mapping stands in its columns under its hidden identity, and an entry that is read from them
/// is the one that was stored, in all five fields.
pub proof fn law_mappings_read_back(
    e: LidPnMappingEntry,
    device_id: int,
    back: LidPnMappingEntry,
)
    ensures
        ({
            let t = Table::LidPnMapping;
            let row = mapping_row(e, device_id);
            let read = projected(t, mapping_columns(), row);
            &&& key_of(t, row) == mapping_place(e.lid@, device_id)
            &&& row[pos(t, Column::PhoneNumber)] == Val::Text(e.phone_number@)
            &&& row[pos(t, Column::CreatedAt)] == Val::Int(e.created_at as int)
            &&& row[pos(t, Column::LearningSource)] == Val::Text(e.learning_source@)
            &&& row[pos(t, Column::UpdatedAt)] == Val::Int(e.updated_at as int)
            &&& is_mapping(read)
            &&& crate::mapping::describes(read, back) <==> {
                &&& back.lid@ == e.lid@ && back.phone_number@ == e.phone_number@
                &&& back.created_at == e.created_at && back.updated_at == e.updated_at
                &&& back.learning_source@ == e.learning_source@
            }
        }),
{
    let row = mapping_row(e, device_id);
    assert(projected(Table::LidPnMapping, mapping_columns(), row) =~= seq![
        row[0],
        row[1],
        row[2],
        row[3],
        row[4],
    ]);
}

/// A mapping that is learned again has the new number, source and time, and keeps the time at which
/// it was first learned. Other rows are left.
pub proof fn law_mappings_are_learned_again(db: Db, e: LidPnMappingEntry, device_id: int)
    requires
        db.wf(),
        db.rows.contains_key(mapping_place(e.lid@, device_id)),
    ensures
        ({
            let after = db.merge(Merge::Mapping, Table::LidPnMapping, mapping_row(e, device_id));
            let k = mapping_place(e.lid@, device_id);
            &&& after.column(k, Column::PhoneNumber) == Some(Val::Text(e.phone_number@))
            &&& after.column(k, Column::LearningSource) == Some(Val::Text(e.learning_source@))
            &&& after.column(k, Column::UpdatedAt) == Some(Val::Int(e.updated_at as int))
            &&& after.column(k, Column::CreatedAt) == db.column(k, Column::CreatedAt)
            &&& forall|j: Key| j != k ==> #[trigger] after.get(j) == db.get(j)
        }),
{
    let row = mapping_row(e, device_id);
    let k = mapping_place(e.lid@, device_id);
    assert(key_of(Table::LidPnMapping, row) == k);
    assert(key_of(Table::LidPnMapping, db.rows[k]) == k);
    assert(key_of(Table::LidPnMapping, merged(Merge::Mapping, db.rows[k], row)) == k);
}

/// A batch of mappings has one row for each, in their order; one whose hidden identity occurs once
/// is stored as it would be alone, and identities that are not in the batch keep theirs.
pub proof fn law_mappings_are_stored_each(
    db: Db,
    entries: Seq<LidPnMappingEntry>,
    device_id: int,
    i: int,
    k: Key,
)
    requires
        db.wf(),
    ensures
        ({
            let t = Table::LidPnMapping;
            let rows = mapping_rows(entries, device_id);
            let after = db.merge_all(Merge::Mapping, t, rows);
            &&& rows.len() == entries.len()
            &&& forall|j: int|
                0 <= j < entries.len() ==> #[trigger] rows[j] == mapping_row(entries[j], device_id)
            &&& 0 <= i < entries.len() && (forall|j: int|
                0 <= j < entries.len() && j != i ==> (#[trigger] entries[j]).lid@ != entries[i].lid@)
                ==> after.get(mapping_place(entries[i].lid@, device_id)) == db.merge(
                Merge::Mapping,
                t,
                mapping_row(entries[i], device_id),
            ).get(mapping_place(entries[i].lid@, device_id))
            &&& (forall|j: int|
                0 <= j < entries.len() ==> mapping_place((#[trigger] entries[j]).lid@, device_id)
                    != k) ==> after.get(k) == db.get(k)
        }),
{
    let t = Table::LidPnMapping;
    let rows = mapping_rows(entries, device_id);
    assert forall|j: int| 0 <= j < rows.len() implies row_wf(t, #[trigger] rows[j]) && key_of(
        t,
        rows[j],
    ) == mapping_place(entries[j].lid@, device_id) by {}
    if 0 <= i < entries.len() && (forall|j: int|
        0 <= j < entries.len() && j != i ==> (#[trigger] entries[j]).lid@ != entries[i].lid@) {
        assert forall|j: int| 0 <= j < rows.len() && j != i implies key_of(t, #[trigger] rows[j])
            != key_of(t, rows[i]) by {
            assert(entries[j].lid@ != entries[i].lid@);
        }
        assert(rows[i] == mapping_row(entries[i], device_id));
        lemma_merged_once(db, Merge::Mapping, t, rows, i);
    }
    if forall|j: int|
        0 <= j < entries.len() ==> mapping_place((#[trigger] entries[j]).lid@, device_id) != k {
        assert forall|j: int| 0 <= j < rows.len() implies row_wf(t, #[trigger] rows[j]) && key_of(
            t,
            rows[j],
        ) != k by {
            assert(mapping_place(entries[j].lid@, device_id) != k);
        }
        lemma_not_merged(db, Merge::Mapping, t, rows, k);
    }
}

/// What 32 bits keep of a number: the number itself where they can hold it, and what differs from it
/// by a multiple of 2^32 otherwise.
pub open spec fn is_cut(n: i64, kept: int) -> bool {
    i32::MIN <= kept <= i32::MAX && (n - kept) % 0x1_0000_0000 == 0
}

/// A base key is stored whole under its address and message. Its age is counted from when it was
/// first stored, in the 32 bits of the column.
pub proof fn law_base_keys_are_stored_whole(
    db: Db,
    address: Seq<char>,
    message_id: Seq<char>,
    base_key: Seq<u8>,
    device_id: int,
    now: i64,
)
    requires
        db.wf(),
    ensures
        ({
            let k = place(
                Table::BaseKeys,
                device_id,
                Val::Text(address),
                Val::Text(message_id),
                Val::Null,
            );
            let after = db.merge(
                Merge::BaseKey,
                Table::BaseKeys,
                base_key_row(address, message_id, base_key, device_id, now),
            );
            &&& after.column(k, Column::BaseKey) == Some(Val::Blob(base_key))
            &&& db.rows.contains_key(k) ==> after.column(k, Column::CreatedAt) == db.column(
                k,
                Column::CreatedAt,
            )
            &&& !db.rows.contains_key(k) ==> (after.column(k, Column::CreatedAt) matches Some(
                Val::Int(n),
            ) && is_cut(now, n))
            &&& forall|j: Key| j != k ==> #[trigger] after.get(j) == db.get(j)
        }),
{
    let k = place(
        Table::BaseKeys,
        device_id,
        Val::Text(address),
        Val::Text(message_id),
        Val::Null,
    );
    let row = base_key_row(address, message_id, base_key, device_id, now);
    law_numbers_are_cut_to_their_low_bits(now);
    assert(key_of(Table::BaseKeys, row) == k);
    if db.rows.contains_key(k) {
        assert(key_of(Table::BaseKeys, db.rows[k]) == k);
        assert(key_of(Table::BaseKeys, merged(Merge::BaseKey, db.rows[k], row)) == k);
    }
}

// ---------------------------------------------------------------------------------------
// Device lists

/// Where the devices of a user are stored.
pub open spec fn registry_place(user: Seq<char>, device_id: int) -> Key {
    place(Table::DeviceRegistry, device_id, Val::Text(user), Val::Null, Val::Null)
}

/// A device list stands in its columns under its user, a missing hash and a missing id as `NULL`,
/// and a record that is read from them is the one that was stored, in all five fields, its time
/// within the 32 bits of the column.
pub proof fn law_device_lists_read_back(
    r: DeviceListRecord,
    device_id: int,
    now: i64,
    back: DeviceListRecord,
)
    ensures
        ({
            let t = Table::DeviceRegistry;
            let row = registry_row(r, device_id, now);
            let read = projected(t, registry_columns(), row);
            &&& key_of(t, row) == registry_place(r.user@, device_id)
            &&& row[pos(t, Column::DevicesJson)] == Val::Text(r.devices_json@)
            &&& r.phash matches Some(h) ==> row[pos(t, Column::Phash)] == Val::Text(h@)
            &&& r.phash is None ==> row[pos(t, Column::Phash)] is Null
            &&& r.raw_id is None ==> row[pos(t, Column::RawId)] is Null
            &&& r.raw_id matches Some(id) ==> (row[pos(t, Column::RawId)] matches Val::Int(n)
                && i32::MIN <= n <= i32::MAX && (n as i32) as u32 == id)
            &&& row[pos(t, Column::Timestamp)] matches Val::Int(n) && is_cut(r.timestamp, n)
            &&& row[pos(t, Column::UpdatedAt)] matches Val::Int(n) && is_cut(now, n)
            &&& is_record(read)
            &&& crate::registry::describes(read, back) ==> {
                &&& back.user@ == r.user@ && back.devices_json@ == r.devices_json@
                &&& is_cut(r.timestamp, back.timestamp as int)
                &&& i32::MIN <= r.timestamp <= i32::MAX ==> back.timestamp == r.timestamp
                &&& back.raw_id == r.raw_id
                &&& (back.phash is Some <==> r.phash is Some)
                &&& back.phash is Some ==> back.phash->0@ == r.phash->0@
            }
        }),
{
    let row = registry_row(r, device_id, now);
    law_numbers_are_cut_to_their_low_bits(r.timestamp);
    law_numbers_are_cut_to_their_low_bits(now);
    if let Some(n) = r.raw_id {
        lemma_id(n);
    }
    assert(projected(Table::DeviceRegistry, registry_columns(), row) =~= seq![
        row[0],
        row[1],
        row[2],
        row[3],
        row[6],
    ]);
}

proof fn lemma_id(n: u32)
    by (bit_vector)
    ensures
        (n as i32) as u32 == n,
{
}

/// A batch of device lists has one row for each, in their order; the last one for a user stays
/// whole, and users that are not in the batch keep theirs.
pub proof fn law_device_lists_are_stored_each(
    db: Db,
    records: Seq<DeviceListRecord>,
    device_id: int,
    now: i64,
    user: Seq<char>,
)
    ensures
        ({
            let t = Table::DeviceRegistry;
            let rows = registry_rows(records, device_id, now);
            let after = db.put_all(t, rows);
            let k = registry_place(user, device_id);
            &&& rows.len() == records.len()
            &&& forall|i: int|
                0 <= i < records.len() && (#[trigger] records[i]).user@ == user && (forall|j: int|
                    i < j < records.len() ==> (#[trigger] records[j]).user@ != user) ==> after.get(k)
                    == Some(registry_row(records[i], device_id, now))
            &&& (forall|i: int| 0 <= i < records.len() ==> (#[trigger] records[i]).user@ != user)
                ==> after.get(k) == db.get(k)
        }),
{
    let t = Table::DeviceRegistry;
    let rows = registry_rows(records, device_id, now);
    let after = db.put_all(t, rows);
    let k = registry_place(user, device_id);
    assert forall|j: int| 0 <= j < rows.len() implies key_of(t, #[trigger] rows[j])
        == registry_place(records[j].user@, device_id) && rows[j] == registry_row(
        records[j],
        device_id,
        now,
    ) by {}
    assert forall|i: int|
        0 <= i < records.len() && (#[trigger] records[i]).user@ == user && (forall|j: int|
            i < j < records.len() ==> (#[trigger] records[j]).user@ != user) implies after.get(k)
        == Some(registry_row(records[i], device_id, now)) by {
        assert(key_of(t, rows[i]) == k);
        assert forall|j: int| i < j < rows.len() implies key_of(t, #[trigger] rows[j]) != k by {
            assert(records[j].user@ != user);
        }
        lemma_last_stays(db, t, rows, k, i);
    }
    if forall|i: int| 0 <= i < records.len() ==> (#[trigger] records[i]).user@ != user {
        assert forall|j: int| 0 <= j < rows.len() implies key_of(t, #[trigger] rows[j]) != k by {
            assert(records[j].user@ != user);
        }
        lemma_not_in_batch(db, t, rows, k);
    }
}

// ---------------------------------------------------------------------------------------
// Messages

/// A sent message is stored whole under its chat and id, with the time it was stored at.
pub proof fn law_sent_messages_are_stored_whole(
    db: Db,
    chat: Seq<char>,
    id: Seq<char>,
    payload: Seq<u8>,
    device_id: int,
    now: int,
)
    ensures
        sent_key(chat, id, device_id) == place(
            Table::SentMessages,
            device_id,
            Val::Text(chat),
            Val::Text(id),
            Val::Null,
        ),
        ({
            let after = db.put(Table::SentMessages, sent_row(chat, id, payload, device_id, now));
            let k = place(
                Table::SentMessages,
                device_id,
                Val::Text(chat),
                Val::Text(id),
                Val::Null,
            );
            &&& after.column(k, Column::Payload) == Some(Val::Blob(payload))
            &&& after.column(k, Column::CreatedAt) == Some(Val::Int(now))
            &&& forall|j: Key| j != k ==> #[trigger] after.get(j) == db.get(j)
        }),
{
    lemma_put(
        db,
        Table::SentMessages,
        sent_row(chat, id, payload, device_id, now),
        place(Table::SentMessages, device_id, Val::Text(chat), Val::Text(id), Val::Null),
    );
}

/// Where a received message is stored.
pub open spec fn pending_place(
    chat: Seq<char>,
    sender: Seq<char>,
    id: Seq<char>,
    device_id: int,
) -> Key {
    place(
        Table::PendingInboundMessages,
        device_id,
        Val::Text(chat),
        Val::Text(sender),
        Val::Text(id),
    )
}

/// A received message is stored whole under its chat, sender and id, with the time it was stored
/// at.
pub proof fn law_pending_messages_are_stored_whole(
    db: Db,
    chat: Seq<char>,
    sender: Seq<char>,
    id: Seq<char>,
    message: Seq<u8>,
    device_id: int,
    now: int,
)
    ensures
        pending_key(chat, sender, id, device_id) == pending_place(chat, sender, id, device_id),
        ({
            let after = db.put(
                Table::PendingInboundMessages,
                pending_row(chat, sender, id, message, device_id, now),
            );
            let k = pending_place(chat, sender, id, device_id);
            &&& after.column(k, Column::Message) == Some(Val::Blob(message))
            &&& after.column(k, Column::InsertedAt) == Some(Val::Int(now))
            &&& forall|j: Key| j != k ==> #[trigger] after.get(j) == db.get(j)
        }),
{
    lemma_put(
        db,
        Table::PendingInboundMessages,
        pending_row(chat, sender, id, message, device_id, now),
        pending_place(chat, sender, id, device_id),
    );
}

/// A batch of received messages has one row for each, in their order, and each stands whole under
/// its own chat, sender and id.
pub proof fn law_pending_messages_are_stored_each(
    rows: Seq<PendingInboundRow>,
    device_id: int,
    now: int,
)
    ensures
        ({
            let t = Table::PendingInboundMessages;
            let made = pending_rows(rows, device_id, now);
            &&& made.len() == rows.len()
            &&& forall|i: int|
                0 <= i < rows.len() ==> {
                    let row = #[trigger] made[i];
                    &&& key_of(t, row) == pending_place(
                        rows[i].chat@,
                        rows[i].sender@,
                        rows[i].id@,
                        device_id,
                    )
                    &&& row[pos(t, Column::Message)] == Val::Blob(rows[i].message@)
                    &&& row[pos(t, Column::InsertedAt)] == Val::Int(now)
                }
        }),
{
}

/// Deleting received messages takes the listed ones, and nothing else goes.
pub proof fn law_deleted_messages_are_the_listed_ones(
    db: Db,
    keys: Seq<PendingInboundKey>,
    device_id: int,
    k: Key,
)
    ensures
        ({
            let after = db.remove_all(pending_keys(keys, device_id));
            let hit = exists|i: int|
                0 <= i < keys.len() && k == pending_place(
                    (#[trigger] keys[i]).chat@,
                    keys[i].sender@,
                    keys[i].id@,
                    device_id,
                );
            &&& hit ==> !after.rows.contains_key(k)
            &&& !hit ==> after.get(k) == db.get(k)
        }),
{
    let list = pending_keys(keys, device_id);
    if exists|i: int|
        0 <= i < keys.len() && k == pending_place(
            (#[trigger] keys[i]).chat@,
            keys[i].sender@,
            keys[i].id@,
            device_id,
        ) {
        let i = choose|i: int|
            0 <= i < keys.len() && k == pending_place(
                (#[trigger] keys[i]).chat@,
                keys[i].sender@,
                keys[i].id@,
                device_id,
            );
        assert(list[i] == k);
    } else if list.contains(k) {
        let i = choose|i: int| 0 <= i < list.len() && list[i] == k;
        assert(k == pending_place(keys[i].chat@, keys[i].sender@, keys[i].id@, device_id));
    }
}

// ---------------------------------------------------------------------------------------
// Columns of numbers

/// The values of a row stand in columns of their class: numbers in columns of numbers, text and
/// bytes in others.
pub open spec fn stands_by_class(t: Table, row: Seq<Val>) -> bool {
    &&& row.len() == columns(t).len()
    &&& forall|i: int|
        0 <= i < row.len() ==> {
            &&& #[trigger] row[i] is Int ==> is_numeric(t, columns(t)[i])
            &&& row[i] is Text || row[i] is Blob ==> !is_numeric(t, columns(t)[i])
        }
}

/// Whatever is stored stands in columns of its class.
pub proof fn law_values_stand_in_columns_of_their_class(
    text: Seq<char>,
    bytes: Seq<u8>,
    time: i64,
    device_id: int,
    secret: MsgSecretEntry,
    mapping: LidPnMappingEntry,
    list: DeviceListRecord,
    account: DeviceView,
    mac: AppStateMutationMAC,
    version: u64,
    id: u32,
    flag: bool,
)
    ensures
        stands_by_class(Table::AppStateMutationMacs, mac_row(text, version, mac, device_id)),
        stands_by_class(
            Table::TcTokens,
            token_row(text, bytes, time, Some(time), device_id, time),
        ),
        stands_by_class(Table::MsgSecrets, secret_row(secret, device_id)),
        stands_by_class(Table::LidPnMapping, mapping_row(mapping, device_id)),
        stands_by_class(Table::DeviceRegistry, registry_row(list, device_id, time)),
        stands_by_class(Table::Device, account_row(device_id, account)),
        stands_by_class(Table::Prekeys, prekey_row(id, bytes, flag, device_id)),
        stands_by_class(Table::SignedPrekeys, signed_prekey_row(id, bytes, device_id)),
        stands_by_class(Table::Sessions, record(text, bytes, device_id)),
        stands_by_class(Table::Identities, record(text, bytes, device_id)),
        stands_by_class(Table::SenderKeys, record(text, bytes, device_id)),
        stands_by_class(
            Table::SentMessages,
            sent_row(text, text, bytes, device_id, time as int),
        ),
        stands_by_class(
            Table::PendingInboundMessages,
            pending_row(text, text, text, bytes, device_id, time as int),
        ),
        stands_by_class(Table::AppStateKeys, sync_key_row(bytes, bytes, device_id)),
        stands_by_class(Table::AppStateVersions, version_row(text, bytes, device_id)),
        stands_by_class(Table::BaseKeys, base_key_row(text, text, bytes, device_id, time)),
        stands_by_class(Table::GroupMetadata, metadata_row(text, bytes, device_id, time as int)),
        stands_by_class(
            Table::SenderKeyDevices,
            status_row(text, text, flag, device_id, time as int),
        ),
{
    let row = account_row(device_id, account);
    assert(row.len() == 28);
    assert(stands_by_class(Table::Device, row));
}

} // verus!
