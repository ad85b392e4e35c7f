//! The tables, their columns and the columns that identify a row.

use crate::value::Val;
use vstd::prelude::*;

verus! {

/// A table of the database.
#[derive(Clone, Copy, Debug, PartialEq, Eq, Structural)]
pub enum Table {
    Device,
    AppStateKeys,
    AppStateMutationMacs,
    AppStateVersions,
    BaseKeys,
    DeviceRegistry,
    GroupMetadata,
    Identities,
    LidPnMapping,
    MsgSecrets,
    PendingInboundMessages,
    Prekeys,
    SenderKeyDevices,
    SenderKeys,
    SentMessages,
    Sessions,
    SignedPrekeys,
    TcTokens,
}

/// A column. Tables share the variants of columns that have the same name.
#[derive(Clone, Copy, Debug, PartialEq, Eq, Structural)]
pub enum Column {
    Id,
    Lid,
    Pn,
    RegistrationId,
    NoiseKey,
    IdentityKey,
    SignedPreKey,
    SignedPreKeyId,
    SignedPreKeySignature,
    AdvSecretKey,
    Account,
    PushName,
    AppVersionPrimary,
    AppVersionSecondary,
    AppVersionTertiary,
    AppVersionLastFetchedMs,
    EdgeRoutingInfo,
    PropsHash,
    NextPreKeyId,
    NctSalt,
    ServerHasPrekeys,
    ServerCertChain,
    LoginCounter,
    FirstUnuploadPreKeyId,
    LidMigrated,
    LastSignedPreKeyRotationMs,
    ReadReceiptsDisabled,
    ServerClientExpiration,
    KeyId,
    KeyData,
    DeviceId,
    Name,
    Version,
    IndexMac,
    ValueMac,
    StateData,
    Address,
    MessageId,
    BaseKey,
    CreatedAt,
    UserId,
    DevicesJson,
    Timestamp,
    Phash,
    UpdatedAt,
    RawId,
    GroupJid,
    Info,
    Key,
    PhoneNumber,
    LearningSource,
    Chat,
    Sender,
    MsgId,
    Secret,
    ExpiresAt,
    MessageTs,
    Message,
    InsertedAt,
    Uploaded,
    DeviceJid,
    HasKey,
    Record,
    ChatJid,
    Payload,
    Jid,
    Token,
    TokenTimestamp,
    SenderTimestamp,
}

/// What identifies a row: its table, the account it belongs to and up to three more values.
/// Places that a table does not use hold `NULL`. An account's own row in `device` belongs to
/// that account.
pub struct Key {
    pub table: Table,
    pub device: Val,
    pub a: Val,
    pub b: Val,
    pub c: Val,
}

/// The columns of a table, in the order in which a row lists their values.
pub open spec fn columns(t: Table) -> Seq<Column> {
    match t {
        Table::Device => seq![
            Column::Id,
            Column::Lid,
            Column::Pn,
            Column::RegistrationId,
            Column::NoiseKey,
            Column::IdentityKey,
            Column::SignedPreKey,
            Column::SignedPreKeyId,
            Column::SignedPreKeySignature,
            Column::AdvSecretKey,
            Column::Account,
            Column::PushName,
            Column::AppVersionPrimary,
            Column::AppVersionSecondary,
            Column::AppVersionTertiary,
            Column::AppVersionLastFetchedMs,
            Column::EdgeRoutingInfo,
            Column::PropsHash,
            Column::NextPreKeyId,
            Column::NctSalt,
            Column::ServerHasPrekeys,
            Column::ServerCertChain,
            Column::LoginCounter,
            Column::FirstUnuploadPreKeyId,
            Column::LidMigrated,
            Column::LastSignedPreKeyRotationMs,
            Column::ReadReceiptsDisabled,
            Column::ServerClientExpiration,
        ],
        Table::AppStateKeys => seq![
            Column::KeyId,
            Column::KeyData,
            Column::DeviceId,
        ],
        Table::AppStateMutationMacs => seq![
            Column::Name,
            Column::Version,
            Column::IndexMac,
            Column::ValueMac,
            Column::DeviceId,
        ],
        Table::AppStateVersions => seq![
            Column::Name,
            Column::StateData,
            Column::DeviceId,
        ],
        Table::BaseKeys => seq![
            Column::Address,
            Column::MessageId,
            Column::BaseKey,
            Column::DeviceId,
            Column::CreatedAt,
        ],
        Table::DeviceRegistry => seq![
            Column::UserId,
            Column::DevicesJson,
            Column::Timestamp,
            Column::Phash,
            Column::DeviceId,
            Column::UpdatedAt,
            Column::RawId,
        ],
        Table::GroupMetadata => seq![
            Column::GroupJid,
            Column::Info,
            Column::DeviceId,
            Column::UpdatedAt,
        ],
        Table::Identities => seq![
            Column::Address,
            Column::Key,
            Column::DeviceId,
        ],
        Table::LidPnMapping => seq![
            Column::Lid,
            Column::PhoneNumber,
            Column::CreatedAt,
            Column::LearningSource,
            Column::UpdatedAt,
            Column::DeviceId,
        ],
        Table::MsgSecrets => seq![
            Column::Chat,
            Column::Sender,
            Column::MsgId,
            Column::Secret,
            Column::ExpiresAt,
            Column::MessageTs,
            Column::DeviceId,
        ],
        Table::PendingInboundMessages => seq![
            Column::Chat,
            Column::Sender,
            Column::Id,
            Column::Message,
            Column::DeviceId,
            Column::InsertedAt,
        ],
        Table::Prekeys => seq![
            Column::Id,
            Column::Key,
            Column::Uploaded,
            Column::DeviceId,
        ],
        Table::SenderKeyDevices => seq![
            Column::GroupJid,
            Column::DeviceJid,
            Column::HasKey,
            Column::DeviceId,
            Column::UpdatedAt,
        ],
        Table::SenderKeys => seq![
            Column::Address,
            Column::Record,
            Column::DeviceId,
        ],
        Table::SentMessages => seq![
            Column::ChatJid,
            Column::MessageId,
            Column::Payload,
            Column::DeviceId,
            Column::CreatedAt,
        ],
        Table::Sessions => seq![
            Column::Address,
            Column::Record,
            Column::DeviceId,
        ],
        Table::SignedPrekeys => seq![
            Column::Id,
            Column::Record,
            Column::DeviceId,
        ],
        Table::TcTokens => seq![
            Column::Jid,
            Column::Token,
            Column::TokenTimestamp,
            Column::SenderTimestamp,
            Column::DeviceId,
            Column::UpdatedAt,
        ],
    }
}

/// The place of a column in a row of the table; negative where the table has no such column.
pub open spec fn pos(t: Table, c: Column) -> int {
    match t {
        Table::Device => match c {
            Column::Id => 0,
            Column::Lid => 1,
            Column::Pn => 2,
            Column::RegistrationId => 3,
            Column::NoiseKey => 4,
            Column::IdentityKey => 5,
            Column::SignedPreKey => 6,
            Column::SignedPreKeyId => 7,
            Column::SignedPreKeySignature => 8,
            Column::AdvSecretKey => 9,
            Column::Account => 10,
            Column::PushName => 11,
            Column::AppVersionPrimary => 12,
            Column::AppVersionSecondary => 13,
            Column::AppVersionTertiary => 14,
            Column::AppVersionLastFetchedMs => 15,
            Column::EdgeRoutingInfo => 16,
            Column::PropsHash => 17,
            Column::NextPreKeyId => 18,
            Column::NctSalt => 19,
            Column::ServerHasPrekeys => 20,
            Column::ServerCertChain => 21,
            Column::LoginCounter => 22,
            Column::FirstUnuploadPreKeyId => 23,
            Column::LidMigrated => 24,
            Column::LastSignedPreKeyRotationMs => 25,
            Column::ReadReceiptsDisabled => 26,
            Column::ServerClientExpiration => 27,
            _ => -1,
        },
        Table::AppStateKeys => match c {
            Column::KeyId => 0,
            Column::KeyData => 1,
            Column::DeviceId => 2,
            _ => -1,
        },
        Table::AppStateMutationMacs => match c {
            Column::Name => 0,
            Column::Version => 1,
            Column::IndexMac => 2,
            Column::ValueMac => 3,
            Column::DeviceId => 4,
            _ => -1,
        },
        Table::AppStateVersions => match c {
            Column::Name => 0,
            Column::StateData => 1,
            Column::DeviceId => 2,
            _ => -1,
        },
        Table::BaseKeys => match c {
            Column::Address => 0,
            Column::MessageId => 1,
            Column::BaseKey => 2,
            Column::DeviceId => 3,
            Column::CreatedAt => 4,
            _ => -1,
        },
        Table::DeviceRegistry => match c {
            Column::UserId => 0,
            Column::DevicesJson => 1,
            Column::Timestamp => 2,
            Column::Phash => 3,
            Column::DeviceId => 4,
            Column::UpdatedAt => 5,
            Column::RawId => 6,
            _ => -1,
        },
        Table::GroupMetadata => match c {
            Column::GroupJid => 0,
            Column::Info => 1,
            Column::DeviceId => 2,
            Column::UpdatedAt => 3,
            _ => -1,
        },
        Table::Identities => match c {
            Column::Address => 0,
            Column::Key => 1,
            Column::DeviceId => 2,
            _ => -1,
        },
        Table::LidPnMapping => match c {
            Column::Lid => 0,
            Column::PhoneNumber => 1,
            Column::CreatedAt => 2,
            Column::LearningSource => 3,
            Column::UpdatedAt => 4,
            Column::DeviceId => 5,
            _ => -1,
        },
        Table::MsgSecrets => match c {
            Column::Chat => 0,
            Column::Sender => 1,
            Column::MsgId => 2,
            Column::Secret => 3,
            Column::ExpiresAt => 4,
            Column::MessageTs => 5,
            Column::DeviceId => 6,
            _ => -1,
        },
        Table::PendingInboundMessages => match c {
            Column::Chat => 0,
            Column::Sender => 1,
            Column::Id => 2,
            Column::Message => 3,
            Column::DeviceId => 4,
            Column::InsertedAt => 5,
            _ => -1,
        },
        Table::Prekeys => match c {
            Column::Id => 0,
            Column::Key => 1,
            Column::Uploaded => 2,
            Column::DeviceId => 3,
            _ => -1,
        },
        Table::SenderKeyDevices => match c {
            Column::GroupJid => 0,
            Column::DeviceJid => 1,
            Column::HasKey => 2,
            Column::DeviceId => 3,
            Column::UpdatedAt => 4,
            _ => -1,
        },
        Table::SenderKeys => match c {
            Column::Address => 0,
            Column::Record => 1,
            Column::DeviceId => 2,
            _ => -1,
        },
        Table::SentMessages => match c {
            Column::ChatJid => 0,
            Column::MessageId => 1,
            Column::Payload => 2,
            Column::DeviceId => 3,
            Column::CreatedAt => 4,
            _ => -1,
        },
        Table::Sessions => match c {
            Column::Address => 0,
            Column::Record => 1,
            Column::DeviceId => 2,
            _ => -1,
        },
        Table::SignedPrekeys => match c {
            Column::Id => 0,
            Column::Record => 1,
            Column::DeviceId => 2,
            _ => -1,
        },
        Table::TcTokens => match c {
            Column::Jid => 0,
            Column::Token => 1,
            Column::TokenTimestamp => 2,
            Column::SenderTimestamp => 3,
            Column::DeviceId => 4,
            Column::UpdatedAt => 5,
            _ => -1,
        },
    }
}

/// The columns that identify a row of the table.
pub open spec fn key_columns(t: Table) -> Seq<Column> {
    match t {
        Table::Device => seq![Column::Id],
        Table::AppStateKeys => seq![Column::KeyId, Column::DeviceId],
        Table::AppStateMutationMacs => seq![Column::Name, Column::IndexMac, Column::DeviceId],
        Table::AppStateVersions => seq![Column::Name, Column::DeviceId],
        Table::BaseKeys => seq![Column::Address, Column::MessageId, Column::DeviceId],
        Table::DeviceRegistry => seq![Column::UserId, Column::DeviceId],
        Table::GroupMetadata => seq![Column::GroupJid, Column::DeviceId],
        Table::Identities => seq![Column::Address, Column::DeviceId],
        Table::LidPnMapping => seq![Column::Lid, Column::DeviceId],
        Table::MsgSecrets => seq![Column::Chat, Column::Sender, Column::MsgId, Column::DeviceId],
        Table::PendingInboundMessages => seq![Column::Chat, Column::Sender, Column::Id, Column::DeviceId],
        Table::Prekeys => seq![Column::Id, Column::DeviceId],
        Table::SenderKeyDevices => seq![Column::GroupJid, Column::DeviceJid, Column::DeviceId],
        Table::SenderKeys => seq![Column::Address, Column::DeviceId],
        Table::SentMessages => seq![Column::ChatJid, Column::MessageId, Column::DeviceId],
        Table::Sessions => seq![Column::Address, Column::DeviceId],
        Table::SignedPrekeys => seq![Column::Id, Column::DeviceId],
        Table::TcTokens => seq![Column::Jid, Column::DeviceId],
    }
}

/// The key of a row of the table.
pub open spec fn key_of(t: Table, row: Seq<Val>) -> Key {
    match t {
        Table::Device => Key { table: t, device: row[0], a: Val::Null, b: Val::Null, c: Val::Null },
        Table::AppStateKeys => Key { table: t, device: row[2], a: row[0], b: Val::Null, c: Val::Null },
        Table::AppStateMutationMacs => Key { table: t, device: row[4], a: row[0], b: row[2], c: Val::Null },
        Table::AppStateVersions => Key { table: t, device: row[2], a: row[0], b: Val::Null, c: Val::Null },
        Table::BaseKeys => Key { table: t, device: row[3], a: row[0], b: row[1], c: Val::Null },
        Table::DeviceRegistry => Key { table: t, device: row[4], a: row[0], b: Val::Null, c: Val::Null },
        Table::GroupMetadata => Key { table: t, device: row[2], a: row[0], b: Val::Null, c: Val::Null },
        Table::Identities => Key { table: t, device: row[2], a: row[0], b: Val::Null, c: Val::Null },
        Table::LidPnMapping => Key { table: t, device: row[5], a: row[0], b: Val::Null, c: Val::Null },
        Table::MsgSecrets => Key { table: t, device: row[6], a: row[0], b: row[1], c: row[2] },
        Table::PendingInboundMessages => Key { table: t, device: row[4], a: row[0], b: row[1], c: row[2] },
        Table::Prekeys => Key { table: t, device: row[3], a: row[0], b: Val::Null, c: Val::Null },
        Table::SenderKeyDevices => Key { table: t, device: row[3], a: row[0], b: row[1], c: Val::Null },
        Table::SenderKeys => Key { table: t, device: row[2], a: row[0], b: Val::Null, c: Val::Null },
        Table::SentMessages => Key { table: t, device: row[3], a: row[0], b: row[1], c: Val::Null },
        Table::Sessions => Key { table: t, device: row[2], a: row[0], b: Val::Null, c: Val::Null },
        Table::SignedPrekeys => Key { table: t, device: row[2], a: row[0], b: Val::Null, c: Val::Null },
        Table::TcTokens => Key { table: t, device: row[4], a: row[0], b: Val::Null, c: Val::Null },
    }
}

/// How many values of a row a statement supplies: the columns behind them are filled in by
/// the database with the time of the insert.
pub open spec fn supplied(t: Table) -> nat {
    match t {
        Table::PendingInboundMessages => 5,
        Table::SentMessages => 4,
        _ => columns(t).len(),
    }
}

/// The name of a table.
pub open spec fn table_name(t: Table) -> Seq<char> {
    match t {
        Table::Device => "device"@,
        Table::AppStateKeys => "app_state_keys"@,
        Table::AppStateMutationMacs => "app_state_mutation_macs"@,
        Table::AppStateVersions => "app_state_versions"@,
        Table::BaseKeys => "base_keys"@,
        Table::DeviceRegistry => "device_registry"@,
        Table::GroupMetadata => "group_metadata"@,
        Table::Identities => "identities"@,
        Table::LidPnMapping => "lid_pn_mapping"@,
        Table::MsgSecrets => "msg_secrets"@,
        Table::PendingInboundMessages => "pending_inbound_messages"@,
        Table::Prekeys => "prekeys"@,
        Table::SenderKeyDevices => "sender_key_devices"@,
        Table::SenderKeys => "sender_keys"@,
        Table::SentMessages => "sent_messages"@,
        Table::Sessions => "sessions"@,
        Table::SignedPrekeys => "signed_prekeys"@,
        Table::TcTokens => "tc_tokens"@,
    }
}

/// The name of a column.
pub open spec fn column_name(c: Column) -> Seq<char> {
    match c {
        Column::Id => "id"@,
        Column::Lid => "lid"@,
        Column::Pn => "pn"@,
        Column::RegistrationId => "registration_id"@,
        Column::NoiseKey => "noise_key"@,
        Column::IdentityKey => "identity_key"@,
        Column::SignedPreKey => "signed_pre_key"@,
        Column::SignedPreKeyId => "signed_pre_key_id"@,
        Column::SignedPreKeySignature => "signed_pre_key_signature"@,
        Column::AdvSecretKey => "adv_secret_key"@,
        Column::Account => "account"@,
        Column::PushName => "push_name"@,
        Column::AppVersionPrimary => "app_version_primary"@,
        Column::AppVersionSecondary => "app_version_secondary"@,
        Column::AppVersionTertiary => "app_version_tertiary"@,
        Column::AppVersionLastFetchedMs => "app_version_last_fetched_ms"@,
        Column::EdgeRoutingInfo => "edge_routing_info"@,
        Column::PropsHash => "props_hash"@,
        Column::NextPreKeyId => "next_pre_key_id"@,
        Column::NctSalt => "nct_salt"@,
        Column::ServerHasPrekeys => "server_has_prekeys"@,
        Column::ServerCertChain => "server_cert_chain"@,
        Column::LoginCounter => "login_counter"@,
        Column::FirstUnuploadPreKeyId => "first_unupload_pre_key_id"@,
        Column::LidMigrated => "lid_migrated"@,
        Column::LastSignedPreKeyRotationMs => "last_signed_pre_key_rotation_ms"@,
        Column::ReadReceiptsDisabled => "read_receipts_disabled"@,
        Column::ServerClientExpiration => "server_client_expiration"@,
        Column::KeyId => "key_id"@,
        Column::KeyData => "key_data"@,
        Column::DeviceId => "device_id"@,
        Column::Name => "name"@,
        Column::Version => "version"@,
        Column::IndexMac => "index_mac"@,
        Column::ValueMac => "value_mac"@,
        Column::StateData => "state_data"@,
        Column::Address => "address"@,
        Column::MessageId => "message_id"@,
        Column::BaseKey => "base_key"@,
        Column::CreatedAt => "created_at"@,
        Column::UserId => "user_id"@,
        Column::DevicesJson => "devices_json"@,
        Column::Timestamp => "timestamp"@,
        Column::Phash => "phash"@,
        Column::UpdatedAt => "updated_at"@,
        Column::RawId => "raw_id"@,
        Column::GroupJid => "group_jid"@,
        Column::Info => "info"@,
        Column::Key => "key"@,
        Column::PhoneNumber => "phone_number"@,
        Column::LearningSource => "learning_source"@,
        Column::Chat => "chat"@,
        Column::Sender => "sender"@,
        Column::MsgId => "msg_id"@,
        Column::Secret => "secret"@,
        Column::ExpiresAt => "expires_at"@,
        Column::MessageTs => "message_ts"@,
        Column::Message => "message"@,
        Column::InsertedAt => "inserted_at"@,
        Column::Uploaded => "uploaded"@,
        Column::DeviceJid => "device_jid"@,
        Column::HasKey => "has_key"@,
        Column::Record => "record"@,
        Column::ChatJid => "chat_jid"@,
        Column::Payload => "payload"@,
        Column::Jid => "jid"@,
        Column::Token => "token"@,
        Column::TokenTimestamp => "token_timestamp"@,
        Column::SenderTimestamp => "sender_timestamp"@,
    }
}

/// The tables that hold an account's state: every table with a `device_id`.
pub open spec fn account_scoped_tables() -> Seq<Table> {
    seq![
        Table::AppStateKeys,
        Table::AppStateMutationMacs,
        Table::AppStateVersions,
        Table::BaseKeys,
        Table::DeviceRegistry,
        Table::GroupMetadata,
        Table::Identities,
        Table::LidPnMapping,
        Table::MsgSecrets,
        Table::PendingInboundMessages,
        Table::Prekeys,
        Table::SenderKeyDevices,
        Table::SenderKeys,
        Table::SentMessages,
        Table::Sessions,
        Table::SignedPrekeys,
        Table::TcTokens,
    ]
}

impl Table {
    /// The columns, in the order in which a row lists their values.
    pub fn columns(self) -> (list: Vec<Column>)
        ensures
            list@ == columns(self),
    {
        match self {
            Table::Device => vec![
                Column::Id,
                Column::Lid,
                Column::Pn,
                Column::RegistrationId,
                Column::NoiseKey,
                Column::IdentityKey,
                Column::SignedPreKey,
                Column::SignedPreKeyId,
                Column::SignedPreKeySignature,
                Column::AdvSecretKey,
                Column::Account,
                Column::PushName,
                Column::AppVersionPrimary,
                Column::AppVersionSecondary,
                Column::AppVersionTertiary,
                Column::AppVersionLastFetchedMs,
                Column::EdgeRoutingInfo,
                Column::PropsHash,
                Column::NextPreKeyId,
                Column::NctSalt,
                Column::ServerHasPrekeys,
                Column::ServerCertChain,
                Column::LoginCounter,
                Column::FirstUnuploadPreKeyId,
                Column::LidMigrated,
                Column::LastSignedPreKeyRotationMs,
                Column::ReadReceiptsDisabled,
                Column::ServerClientExpiration,
            ],
            Table::AppStateKeys => vec![
                Column::KeyId,
                Column::KeyData,
                Column::DeviceId,
            ],
            Table::AppStateMutationMacs => vec![
                Column::Name,
                Column::Version,
                Column::IndexMac,
                Column::ValueMac,
                Column::DeviceId,
            ],
            Table::AppStateVersions => vec![
                Column::Name,
                Column::StateData,
                Column::DeviceId,
            ],
            Table::BaseKeys => vec![
                Column::Address,
                Column::MessageId,
                Column::BaseKey,
                Column::DeviceId,
                Column::CreatedAt,
            ],
            Table::DeviceRegistry => vec![
                Column::UserId,
                Column::DevicesJson,
                Column::Timestamp,
                Column::Phash,
                Column::DeviceId,
                Column::UpdatedAt,
                Column::RawId,
            ],
            Table::GroupMetadata => vec![
                Column::GroupJid,
                Column::Info,
                Column::DeviceId,
                Column::UpdatedAt,
            ],
            Table::Identities => vec![
                Column::Address,
                Column::Key,
                Column::DeviceId,
            ],
            Table::LidPnMapping => vec![
                Column::Lid,
                Column::PhoneNumber,
                Column::CreatedAt,
                Column::LearningSource,
                Column::UpdatedAt,
                Column::DeviceId,
            ],
            Table::MsgSecrets => vec![
                Column::Chat,
                Column::Sender,
                Column::MsgId,
                Column::Secret,
                Column::ExpiresAt,
                Column::MessageTs,
                Column::DeviceId,
            ],
            Table::PendingInboundMessages => vec![
                Column::Chat,
                Column::Sender,
                Column::Id,
                Column::Message,
                Column::DeviceId,
                Column::InsertedAt,
            ],
            Table::Prekeys => vec![
                Column::Id,
                Column::Key,
                Column::Uploaded,
                Column::DeviceId,
            ],
            Table::SenderKeyDevices => vec![
                Column::GroupJid,
                Column::DeviceJid,
                Column::HasKey,
                Column::DeviceId,
                Column::UpdatedAt,
            ],
            Table::SenderKeys => vec![
                Column::Address,
                Column::Record,
                Column::DeviceId,
            ],
            Table::SentMessages => vec![
                Column::ChatJid,
                Column::MessageId,
                Column::Payload,
                Column::DeviceId,
                Column::CreatedAt,
            ],
            Table::Sessions => vec![
                Column::Address,
                Column::Record,
                Column::DeviceId,
            ],
            Table::SignedPrekeys => vec![
                Column::Id,
                Column::Record,
                Column::DeviceId,
            ],
            Table::TcTokens => vec![
                Column::Jid,
                Column::Token,
                Column::TokenTimestamp,
                Column::SenderTimestamp,
                Column::DeviceId,
                Column::UpdatedAt,
            ],
        }
    }

    /// The columns that identify a row.
    pub fn key_columns(self) -> (list: Vec<Column>)
        ensures
            list@ == key_columns(self),
    {
        match self {
            Table::Device => vec![Column::Id],
            Table::AppStateKeys => vec![Column::KeyId, Column::DeviceId],
            Table::AppStateMutationMacs => vec![Column::Name, Column::IndexMac, Column::DeviceId],
            Table::AppStateVersions => vec![Column::Name, Column::DeviceId],
            Table::BaseKeys => vec![Column::Address, Column::MessageId, Column::DeviceId],
            Table::DeviceRegistry => vec![Column::UserId, Column::DeviceId],
            Table::GroupMetadata => vec![Column::GroupJid, Column::DeviceId],
            Table::Identities => vec![Column::Address, Column::DeviceId],
            Table::LidPnMapping => vec![Column::Lid, Column::DeviceId],
            Table::MsgSecrets => vec![Column::Chat, Column::Sender, Column::MsgId, Column::DeviceId],
            Table::PendingInboundMessages => vec![Column::Chat, Column::Sender, Column::Id, Column::DeviceId],
            Table::Prekeys => vec![Column::Id, Column::DeviceId],
            Table::SenderKeyDevices => vec![Column::GroupJid, Column::DeviceJid, Column::DeviceId],
            Table::SenderKeys => vec![Column::Address, Column::DeviceId],
            Table::SentMessages => vec![Column::ChatJid, Column::MessageId, Column::DeviceId],
            Table::Sessions => vec![Column::Address, Column::DeviceId],
            Table::SignedPrekeys => vec![Column::Id, Column::DeviceId],
            Table::TcTokens => vec![Column::Jid, Column::DeviceId],
        }
    }

    /// How many values of a row a statement supplies.
    pub fn supplied(self) -> (n: usize)
        ensures
            n == supplied(self),
    {
        match self {
            Table::PendingInboundMessages => 5,
            Table::SentMessages => 4,
            _ => self.columns().len(),
        }
    }

    /// The name in the database.
    pub fn name(self) -> (name: &'static str)
        ensures
            name@ == table_name(self),
    {
        match self {
            Table::Device => "device",
            Table::AppStateKeys => "app_state_keys",
            Table::AppStateMutationMacs => "app_state_mutation_macs",
            Table::AppStateVersions => "app_state_versions",
            Table::BaseKeys => "base_keys",
            Table::DeviceRegistry => "device_registry",
            Table::GroupMetadata => "group_metadata",
            Table::Identities => "identities",
            Table::LidPnMapping => "lid_pn_mapping",
            Table::MsgSecrets => "msg_secrets",
            Table::PendingInboundMessages => "pending_inbound_messages",
            Table::Prekeys => "prekeys",
            Table::SenderKeyDevices => "sender_key_devices",
            Table::SenderKeys => "sender_keys",
            Table::SentMessages => "sent_messages",
            Table::Sessions => "sessions",
            Table::SignedPrekeys => "signed_prekeys",
            Table::TcTokens => "tc_tokens",
        }
    }
}

/// Whether a column is declared to hold numbers. The others hold text or bytes. A message has
/// a text for its id, everything else a number.
pub open spec fn is_numeric(t: Table, c: Column) -> bool {
    match c {
        Column::Id => t != Table::PendingInboundMessages,
        Column::RegistrationId
        | Column::SignedPreKeyId
        | Column::AppVersionPrimary
        | Column::AppVersionSecondary
        | Column::AppVersionTertiary
        | Column::AppVersionLastFetchedMs
        | Column::NextPreKeyId
        | Column::ServerHasPrekeys
        | Column::LoginCounter
        | Column::FirstUnuploadPreKeyId
        | Column::LidMigrated
        | Column::LastSignedPreKeyRotationMs
        | Column::ReadReceiptsDisabled
        | Column::DeviceId
        | Column::Version
        | Column::CreatedAt
        | Column::Timestamp
        | Column::UpdatedAt
        | Column::RawId
        | Column::ExpiresAt
        | Column::MessageTs
        | Column::InsertedAt
        | Column::Uploaded
        | Column::HasKey
        | Column::TokenTimestamp
        | Column::SenderTimestamp => true,
        _ => false,
    }
}

/// Whether a column of a table is declared to hold numbers.
pub fn holds_numbers(t: Table, c: Column) -> (b: bool)
    ensures
        b == is_numeric(t, c),
{
    match c {
        Column::Id => t != Table::PendingInboundMessages,
        Column::RegistrationId
        | Column::SignedPreKeyId
        | Column::AppVersionPrimary
        | Column::AppVersionSecondary
        | Column::AppVersionTertiary
        | Column::AppVersionLastFetchedMs
        | Column::NextPreKeyId
        | Column::ServerHasPrekeys
        | Column::LoginCounter
        | Column::FirstUnuploadPreKeyId
        | Column::LidMigrated
        | Column::LastSignedPreKeyRotationMs
        | Column::ReadReceiptsDisabled
        | Column::DeviceId
        | Column::Version
        | Column::CreatedAt
        | Column::Timestamp
        | Column::UpdatedAt
        | Column::RawId
        | Column::ExpiresAt
        | Column::MessageTs
        | Column::InsertedAt
        | Column::Uploaded
        | Column::HasKey
        | Column::TokenTimestamp
        | Column::SenderTimestamp => true,
        _ => false,
    }
}

impl Column {
    /// The name in the database.
    pub fn name(self) -> (name: &'static str)
        ensures
            name@ == column_name(self),
    {
        match self {
            Column::Id => "id",
            Column::Lid => "lid",
            Column::Pn => "pn",
            Column::RegistrationId => "registration_id",
            Column::NoiseKey => "noise_key",
            Column::IdentityKey => "identity_key",
            Column::SignedPreKey => "signed_pre_key",
            Column::SignedPreKeyId => "signed_pre_key_id",
            Column::SignedPreKeySignature => "signed_pre_key_signature",
            Column::AdvSecretKey => "adv_secret_key",
            Column::Account => "account",
            Column::PushName => "push_name",
            Column::AppVersionPrimary => "app_version_primary",
            Column::AppVersionSecondary => "app_version_secondary",
            Column::AppVersionTertiary => "app_version_tertiary",
            Column::AppVersionLastFetchedMs => "app_version_last_fetched_ms",
            Column::EdgeRoutingInfo => "edge_routing_info",
            Column::PropsHash => "props_hash",
            Column::NextPreKeyId => "next_pre_key_id",
            Column::NctSalt => "nct_salt",
            Column::ServerHasPrekeys => "server_has_prekeys",
            Column::ServerCertChain => "server_cert_chain",
            Column::LoginCounter => "login_counter",
            Column::FirstUnuploadPreKeyId => "first_unupload_pre_key_id",
            Column::LidMigrated => "lid_migrated",
            Column::LastSignedPreKeyRotationMs => "last_signed_pre_key_rotation_ms",
            Column::ReadReceiptsDisabled => "read_receipts_disabled",
            Column::ServerClientExpiration => "server_client_expiration",
            Column::KeyId => "key_id",
            Column::KeyData => "key_data",
            Column::DeviceId => "device_id",
            Column::Name => "name",
            Column::Version => "version",
            Column::IndexMac => "index_mac",
            Column::ValueMac => "value_mac",
            Column::StateData => "state_data",
            Column::Address => "address",
            Column::MessageId => "message_id",
            Column::BaseKey => "base_key",
            Column::CreatedAt => "created_at",
            Column::UserId => "user_id",
            Column::DevicesJson => "devices_json",
            Column::Timestamp => "timestamp",
            Column::Phash => "phash",
            Column::UpdatedAt => "updated_at",
            Column::RawId => "raw_id",
            Column::GroupJid => "group_jid",
            Column::Info => "info",
            Column::Key => "key",
            Column::PhoneNumber => "phone_number",
            Column::LearningSource => "learning_source",
            Column::Chat => "chat",
            Column::Sender => "sender",
            Column::MsgId => "msg_id",
            Column::Secret => "secret",
            Column::ExpiresAt => "expires_at",
            Column::MessageTs => "message_ts",
            Column::Message => "message",
            Column::InsertedAt => "inserted_at",
            Column::Uploaded => "uploaded",
            Column::DeviceJid => "device_jid",
            Column::HasKey => "has_key",
            Column::Record => "record",
            Column::ChatJid => "chat_jid",
            Column::Payload => "payload",
            Column::Jid => "jid",
            Column::Token => "token",
            Column::TokenTimestamp => "token_timestamp",
            Column::SenderTimestamp => "sender_timestamp",
        }
    }
}

/// The tables that hold an account's state.
pub fn account_scoped_table_list() -> (list: Vec<Table>)
    ensures
        list@ == account_scoped_tables(),
{
    vec![
        Table::AppStateKeys,
        Table::AppStateMutationMacs,
        Table::AppStateVersions,
        Table::BaseKeys,
        Table::DeviceRegistry,
        Table::GroupMetadata,
        Table::Identities,
        Table::LidPnMapping,
        Table::MsgSecrets,
        Table::PendingInboundMessages,
        Table::Prekeys,
        Table::SenderKeyDevices,
        Table::SenderKeys,
        Table::SentMessages,
        Table::Sessions,
        Table::SignedPrekeys,
        Table::TcTokens,
    ]
}

/// The two descriptions of a row agree: [`pos`] is where [`columns`] lists the column.
pub proof fn lemma_positions(t: Table)
    ensures
        forall|i: int| 0 <= i < columns(t).len() ==> pos(t, #[trigger] columns(t)[i]) == i,
        forall|c: Column| #![trigger pos(t, c)] pos(t, c) < columns(t).len(),
        forall|c: Column| #![trigger pos(t, c)] pos(t, c) >= 0 ==> columns(t)[pos(t, c)] == c,
{
}

/// Every table but `device` is scoped to an account, and each is listed once.
pub proof fn lemma_account_scoped(t: Table)
    ensures
        account_scoped_tables().contains(t) <==> t != Table::Device,
        account_scoped_tables().contains(t) <==> columns(t).contains(Column::DeviceId),
        account_scoped_tables().no_duplicates(),
{

    assert(account_scoped_tables()[0] == Table::AppStateKeys);
    assert(account_scoped_tables()[1] == Table::AppStateMutationMacs);
    assert(account_scoped_tables()[2] == Table::AppStateVersions);
    assert(account_scoped_tables()[3] == Table::BaseKeys);
    assert(account_scoped_tables()[4] == Table::DeviceRegistry);
    assert(account_scoped_tables()[5] == Table::GroupMetadata);
    assert(account_scoped_tables()[6] == Table::Identities);
    assert(account_scoped_tables()[7] == Table::LidPnMapping);
    assert(account_scoped_tables()[8] == Table::MsgSecrets);
    assert(account_scoped_tables()[9] == Table::PendingInboundMessages);
    assert(account_scoped_tables()[10] == Table::Prekeys);
    assert(account_scoped_tables()[11] == Table::SenderKeyDevices);
    assert(account_scoped_tables()[12] == Table::SenderKeys);
    assert(account_scoped_tables()[13] == Table::SentMessages);
    assert(account_scoped_tables()[14] == Table::Sessions);
    assert(account_scoped_tables()[15] == Table::SignedPrekeys);
    assert(account_scoped_tables()[16] == Table::TcTokens);
    assert(columns(Table::AppStateKeys)[2] == Column::DeviceId);
    assert(columns(Table::AppStateMutationMacs)[4] == Column::DeviceId);
    assert(columns(Table::AppStateVersions)[2] == Column::DeviceId);
    assert(columns(Table::BaseKeys)[3] == Column::DeviceId);
    assert(columns(Table::DeviceRegistry)[4] == Column::DeviceId);
    assert(columns(Table::GroupMetadata)[2] == Column::DeviceId);
    assert(columns(Table::Identities)[2] == Column::DeviceId);
    assert(columns(Table::LidPnMapping)[5] == Column::DeviceId);
    assert(columns(Table::MsgSecrets)[6] == Column::DeviceId);
    assert(columns(Table::PendingInboundMessages)[4] == Column::DeviceId);
    assert(columns(Table::Prekeys)[3] == Column::DeviceId);
    assert(columns(Table::SenderKeyDevices)[3] == Column::DeviceId);
    assert(columns(Table::SenderKeys)[2] == Column::DeviceId);
    assert(columns(Table::SentMessages)[3] == Column::DeviceId);
    assert(columns(Table::Sessions)[2] == Column::DeviceId);
    assert(columns(Table::SignedPrekeys)[2] == Column::DeviceId);
    assert(columns(Table::TcTokens)[4] == Column::DeviceId);
}

} // verus!
