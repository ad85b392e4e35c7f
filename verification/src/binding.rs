//! The text of a statement and the values it binds belong together: there is one placeholder
//! for each value.

use crate::plan::statement_wf;
use crate::schema::{column_name, columns, key_columns, supplied, table_name, Column, Table};
use crate::sql::{
    all_values, cond_sql, cond_values, expr_sql, expr_values, into_sql, name_list, placeholders,
    query_sql, query_values, set_sql, set_values, statement_sql, statement_values, supplied_columns,
    value_rows_sql, Assignment, Cond, Expr, Order, Query, Statement, Want,
};
use crate::value::Value;
use vstd::prelude::*;

verus! {

broadcast use {vstd::string::group_string_axioms, vstd::seq::group_seq_axioms};

/// How many placeholders a text has.
pub open spec fn marks(s: Seq<char>) -> nat
    decreases s.len(),
{
    if s.len() == 0 {
        0
    } else {
        marks(s.drop_last()) + (if s.last() == '?' {
            1nat
        } else {
            0nat
        })
    }
}

/// The placeholders of two texts add up.
proof fn lemma_add(a: Seq<char>, b: Seq<char>)
    ensures
        marks(a + b) == marks(a) + marks(b),
    decreases b.len(),
{
    if b.len() == 0 {
        assert(a + b =~= a);
    } else {
        lemma_add(a, b.drop_last());
        assert((a + b).drop_last() =~= a + b.drop_last());
    }
}

/// A text without a question mark has no placeholders.
proof fn lemma_none(s: Seq<char>)
    requires
        forall|i: int| 0 <= i < s.len() ==> s[i] != '?',
    ensures
        marks(s) == 0,
    decreases s.len(),
{
    if s.len() > 0 {
        lemma_none(s.drop_last());
    }
}

/// A text that ends in its only question mark has one placeholder.
proof fn lemma_one(s: Seq<char>)
    requires
        s.len() > 0,
        s.last() == '?',
        forall|i: int| 0 <= i < s.len() - 1 ==> s[i] != '?',
    ensures
        marks(s) == 1,
{
    lemma_none(s.drop_last());
}

/// The names of tables have no placeholders.
proof fn lemma_table(t: Table)
    ensures
        marks(table_name(t)) == 0,
{
    match t {
        Table::Device => {
            reveal_strlit("device");
        },
        Table::AppStateKeys => {
            reveal_strlit("app_state_keys");
        },
        Table::AppStateMutationMacs => {
            reveal_strlit("app_state_mutation_macs");
        },
        Table::AppStateVersions => {
            reveal_strlit("app_state_versions");
        },
        Table::BaseKeys => {
            reveal_strlit("base_keys");
        },
        Table::DeviceRegistry => {
            reveal_strlit("device_registry");
        },
        Table::GroupMetadata => {
            reveal_strlit("group_metadata");
        },
        Table::Identities => {
            reveal_strlit("identities");
        },
        Table::LidPnMapping => {
            reveal_strlit("lid_pn_mapping");
        },
        Table::MsgSecrets => {
            reveal_strlit("msg_secrets");
        },
        Table::PendingInboundMessages => {
            reveal_strlit("pending_inbound_messages");
        },
        Table::Prekeys => {
            reveal_strlit("prekeys");
        },
        Table::SenderKeyDevices => {
            reveal_strlit("sender_key_devices");
        },
        Table::SenderKeys => {
            reveal_strlit("sender_keys");
        },
        Table::SentMessages => {
            reveal_strlit("sent_messages");
        },
        Table::Sessions => {
            reveal_strlit("sessions");
        },
        Table::SignedPrekeys => {
            reveal_strlit("signed_prekeys");
        },
        Table::TcTokens => {
            reveal_strlit("tc_tokens");
        },
    }
    lemma_none(table_name(t));
}

/// The names of columns have no placeholders.
proof fn lemma_column(c: Column)
    ensures
        marks(column_name(c)) == 0,
{
    match c {
        Column::Id => {
            reveal_strlit("id");
        },
        Column::Lid => {
            reveal_strlit("lid");
        },
        Column::Pn => {
            reveal_strlit("pn");
        },
        Column::RegistrationId => {
            reveal_strlit("registration_id");
        },
        Column::NoiseKey => {
            reveal_strlit("noise_key");
        },
        Column::IdentityKey => {
            reveal_strlit("identity_key");
        },
        Column::SignedPreKey => {
            reveal_strlit("signed_pre_key");
        },
        Column::SignedPreKeyId => {
            reveal_strlit("signed_pre_key_id");
        },
        Column::SignedPreKeySignature => {
            reveal_strlit("signed_pre_key_signature");
        },
        Column::AdvSecretKey => {
            reveal_strlit("adv_secret_key");
        },
        Column::Account => {
            reveal_strlit("account");
        },
        Column::PushName => {
            reveal_strlit("push_name");
        },
        Column::AppVersionPrimary => {
            reveal_strlit("app_version_primary");
        },
        Column::AppVersionSecondary => {
            reveal_strlit("app_version_secondary");
        },
        Column::AppVersionTertiary => {
            reveal_strlit("app_version_tertiary");
        },
        Column::AppVersionLastFetchedMs => {
            reveal_strlit("app_version_last_fetched_ms");
        },
        Column::EdgeRoutingInfo => {
            reveal_strlit("edge_routing_info");
        },
        Column::PropsHash => {
            reveal_strlit("props_hash");
        },
        Column::NextPreKeyId => {
            reveal_strlit("next_pre_key_id");
        },
        Column::NctSalt => {
            reveal_strlit("nct_salt");
        },
        Column::ServerHasPrekeys => {
            reveal_strlit("server_has_prekeys");
        },
        Column::ServerCertChain => {
            reveal_strlit("server_cert_chain");
        },
        Column::LoginCounter => {
            reveal_strlit("login_counter");
        },
        Column::FirstUnuploadPreKeyId => {
            reveal_strlit("first_unupload_pre_key_id");
        },
        Column::LidMigrated => {
            reveal_strlit("lid_migrated");
        },
        Column::LastSignedPreKeyRotationMs => {
            reveal_strlit("last_signed_pre_key_rotation_ms");
        },
        Column::ReadReceiptsDisabled => {
            reveal_strlit("read_receipts_disabled");
        },
        Column::ServerClientExpiration => {
            reveal_strlit("server_client_expiration");
        },
        Column::KeyId => {
            reveal_strlit("key_id");
        },
        Column::KeyData => {
            reveal_strlit("key_data");
        },
        Column::DeviceId => {
            reveal_strlit("device_id");
        },
        Column::Name => {
            reveal_strlit("name");
        },
        Column::Version => {
            reveal_strlit("version");
        },
        Column::IndexMac => {
            reveal_strlit("index_mac");
        },
        Column::ValueMac => {
            reveal_strlit("value_mac");
        },
        Column::StateData => {
            reveal_strlit("state_data");
        },
        Column::Address => {
            reveal_strlit("address");
        },
        Column::MessageId => {
            reveal_strlit("message_id");
        },
        Column::BaseKey => {
            reveal_strlit("base_key");
        },
        Column::CreatedAt => {
            reveal_strlit("created_at");
        },
        Column::UserId => {
            reveal_strlit("user_id");
        },
        Column::DevicesJson => {
            reveal_strlit("devices_json");
        },
        Column::Timestamp => {
            reveal_strlit("timestamp");
        },
        Column::Phash => {
            reveal_strlit("phash");
        },
        Column::UpdatedAt => {
            reveal_strlit("updated_at");
        },
        Column::RawId => {
            reveal_strlit("raw_id");
        },
        Column::GroupJid => {
            reveal_strlit("group_jid");
        },
        Column::Info => {
            reveal_strlit("info");
        },
        Column::Key => {
            reveal_strlit("key");
        },
        Column::PhoneNumber => {
            reveal_strlit("phone_number");
        },
        Column::LearningSource => {
            reveal_strlit("learning_source");
        },
        Column::Chat => {
            reveal_strlit("chat");
        },
        Column::Sender => {
            reveal_strlit("sender");
        },
        Column::MsgId => {
            reveal_strlit("msg_id");
        },
        Column::Secret => {
            reveal_strlit("secret");
        },
        Column::ExpiresAt => {
            reveal_strlit("expires_at");
        },
        Column::MessageTs => {
            reveal_strlit("message_ts");
        },
        Column::Message => {
            reveal_strlit("message");
        },
        Column::InsertedAt => {
            reveal_strlit("inserted_at");
        },
        Column::Uploaded => {
            reveal_strlit("uploaded");
        },
        Column::DeviceJid => {
            reveal_strlit("device_jid");
        },
        Column::HasKey => {
            reveal_strlit("has_key");
        },
        Column::Record => {
            reveal_strlit("record");
        },
        Column::ChatJid => {
            reveal_strlit("chat_jid");
        },
        Column::Payload => {
            reveal_strlit("payload");
        },
        Column::Jid => {
            reveal_strlit("jid");
        },
        Column::Token => {
            reveal_strlit("token");
        },
        Column::TokenTimestamp => {
            reveal_strlit("token_timestamp");
        },
        Column::SenderTimestamp => {
            reveal_strlit("sender_timestamp");
        },
    }
    lemma_none(column_name(c));
}

/// The placeholders of the fixed parts of the text.
proof fn lemma_fixed()
    ensures
        marks(""@) == 0,
        marks(", "@) == 0,
        marks("excluded."@) == 0,
        marks("MAX("@) == 0,
        marks(")"@) == 0,
        marks("COALESCE("@) == 0,
        marks("CASE WHEN "@) == 0,
        marks(" = 0 OR "@) == 0,
        marks(" = 0 THEN 0 ELSE "@) == 0,
        marks(" END"@) == 0,
        marks(" = "@) == 0,
        marks("1 = 1"@) == 0,
        marks(" IS NULL"@) == 0,
        marks(" IN ("@) == 0,
        marks("("@) == 0,
        marks(" AND "@) == 0,
        marks(" OR "@) == 0,
        marks(", ("@) == 0,
        marks(" INTO "@) == 0,
        marks(" ("@) == 0,
        marks(") VALUES "@) == 0,
        marks("INSERT"@) == 0,
        marks(" ON CONFLICT ("@) == 0,
        marks(") DO UPDATE SET "@) == 0,
        marks("REPLACE"@) == 0,
        marks("DELETE FROM "@) == 0,
        marks(" WHERE "@) == 0,
        marks("UPDATE "@) == 0,
        marks(" SET "@) == 0,
        marks(" FROM "@) == 0,
        marks("SELECT "@) == 0,
        marks(" ORDER BY "@) == 0,
        marks(" ASC"@) == 0,
        marks(" DESC"@) == 0,
        marks(" LIMIT 1"@) == 0,
        marks("SELECT COUNT(*)"@) == 0,
        marks("SELECT MAX("@) == 0,
        marks("SELECT EXISTS (SELECT 1"@) == 0,
        marks("?"@) == 1,
        marks(", ?"@) == 1,
        marks(" = ?"@) == 1,
        marks(" <> ?"@) == 1,
        marks(" < ?"@) == 1,
        marks(" <= ?"@) == 1,
        marks(" LIKE ?"@) == 1,
{
    reveal_strlit("");
    lemma_none(""@);
    reveal_strlit(", ");
    lemma_none(", "@);
    reveal_strlit("excluded.");
    lemma_none("excluded."@);
    reveal_strlit("MAX(");
    lemma_none("MAX("@);
    reveal_strlit(")");
    lemma_none(")"@);
    reveal_strlit("COALESCE(");
    lemma_none("COALESCE("@);
    reveal_strlit("CASE WHEN ");
    lemma_none("CASE WHEN "@);
    reveal_strlit(" = 0 OR ");
    lemma_none(" = 0 OR "@);
    reveal_strlit(" = 0 THEN 0 ELSE ");
    lemma_none(" = 0 THEN 0 ELSE "@);
    reveal_strlit(" END");
    lemma_none(" END"@);
    reveal_strlit(" = ");
    lemma_none(" = "@);
    reveal_strlit("1 = 1");
    lemma_none("1 = 1"@);
    reveal_strlit(" IS NULL");
    lemma_none(" IS NULL"@);
    reveal_strlit(" IN (");
    lemma_none(" IN ("@);
    reveal_strlit("(");
    lemma_none("("@);
    reveal_strlit(" AND ");
    lemma_none(" AND "@);
    reveal_strlit(" OR ");
    lemma_none(" OR "@);
    reveal_strlit(", (");
    lemma_none(", ("@);
    reveal_strlit(" INTO ");
    lemma_none(" INTO "@);
    reveal_strlit(" (");
    lemma_none(" ("@);
    reveal_strlit(") VALUES ");
    lemma_none(") VALUES "@);
    reveal_strlit("INSERT");
    lemma_none("INSERT"@);
    reveal_strlit(" ON CONFLICT (");
    lemma_none(" ON CONFLICT ("@);
    reveal_strlit(") DO UPDATE SET ");
    lemma_none(") DO UPDATE SET "@);
    reveal_strlit("REPLACE");
    lemma_none("REPLACE"@);
    reveal_strlit("DELETE FROM ");
    lemma_none("DELETE FROM "@);
    reveal_strlit(" WHERE ");
    lemma_none(" WHERE "@);
    reveal_strlit("UPDATE ");
    lemma_none("UPDATE "@);
    reveal_strlit(" SET ");
    lemma_none(" SET "@);
    reveal_strlit(" FROM ");
    lemma_none(" FROM "@);
    reveal_strlit("SELECT ");
    lemma_none("SELECT "@);
    reveal_strlit(" ORDER BY ");
    lemma_none(" ORDER BY "@);
    reveal_strlit(" ASC");
    lemma_none(" ASC"@);
    reveal_strlit(" DESC");
    lemma_none(" DESC"@);
    reveal_strlit(" LIMIT 1");
    lemma_none(" LIMIT 1"@);
    reveal_strlit("SELECT COUNT(*)");
    lemma_none("SELECT COUNT(*)"@);
    reveal_strlit("SELECT MAX(");
    lemma_none("SELECT MAX("@);
    reveal_strlit("SELECT EXISTS (SELECT 1");
    lemma_none("SELECT EXISTS (SELECT 1"@);
    reveal_strlit("?");
    lemma_one("?"@);
    reveal_strlit(", ?");
    lemma_one(", ?"@);
    reveal_strlit(" = ?");
    lemma_one(" = ?"@);
    reveal_strlit(" <> ?");
    lemma_one(" <> ?"@);
    reveal_strlit(" < ?");
    lemma_one(" < ?"@);
    reveal_strlit(" <= ?");
    lemma_one(" <= ?"@);
    reveal_strlit(" LIKE ?");
    lemma_one(" LIKE ?"@);
}

/// `n` placeholders are `n`.
proof fn lemma_placeholders(n: nat)
    ensures
        marks(placeholders(n)) == n,
    decreases n,
{
    lemma_fixed();
    if n > 1 {
        lemma_placeholders((n - 1) as nat);
        lemma_add(placeholders((n - 1) as nat), ", ?"@);
    }
}

proof fn lemma_names(cs: Seq<Column>)
    ensures
        marks(name_list(cs)) == 0,
    decreases cs.len(),
{
    lemma_fixed();
    if cs.len() == 1 {
        lemma_column(cs[0]);
    } else if cs.len() > 1 {
        lemma_names(cs.drop_last());
        lemma_column(cs.last());
        lemma_add(name_list(cs.drop_last()), ", "@);
        lemma_add(name_list(cs.drop_last()) + ", "@, column_name(cs.last()));
    }
}

proof fn lemma_expr(e: Expr)
    ensures
        marks(expr_sql(e)) == expr_values(e).len(),
    decreases e,
{
    lemma_fixed();
    match e {
        Expr::Bound(_) => {},
        Expr::Stored(c) => lemma_column(c),
        Expr::Excluded(c) => {
            lemma_column(c);
            lemma_add("excluded."@, column_name(c));
        },
        Expr::Larger(a, b) => {
            lemma_expr(*a);
            lemma_expr(*b);
            lemma_add("MAX("@, expr_sql(*a));
            lemma_add("MAX("@ + expr_sql(*a), ", "@);
            lemma_add("MAX("@ + expr_sql(*a) + ", "@, expr_sql(*b));
            lemma_add("MAX("@ + expr_sql(*a) + ", "@ + expr_sql(*b), ")"@);
        },
        Expr::Coalesce(a, b) => {
            lemma_expr(*a);
            lemma_expr(*b);
            lemma_add("COALESCE("@, expr_sql(*a));
            lemma_add("COALESCE("@ + expr_sql(*a), ", "@);
            lemma_add("COALESCE("@ + expr_sql(*a) + ", "@, expr_sql(*b));
            lemma_add("COALESCE("@ + expr_sql(*a) + ", "@ + expr_sql(*b), ")"@);
        },
        Expr::ZeroIfEither(a, b, other) => {
            lemma_expr(*a);
            lemma_expr(*b);
            lemma_expr(*other);
            let p1 = "CASE WHEN "@ + expr_sql(*a);
            let p2 = p1 + " = 0 OR "@;
            let p3 = p2 + expr_sql(*b);
            let p4 = p3 + " = 0 THEN 0 ELSE "@;
            let p5 = p4 + expr_sql(*other);
            lemma_add("CASE WHEN "@, expr_sql(*a));
            lemma_add(p1, " = 0 OR "@);
            lemma_add(p2, expr_sql(*b));
            lemma_add(p3, " = 0 THEN 0 ELSE "@);
            lemma_add(p4, expr_sql(*other));
            lemma_add(p5, " END"@);
        },
    }
}

proof fn lemma_set(set: Seq<Assignment>)
    ensures
        marks(set_sql(set)) == set_values(set).len(),
    decreases set.len(),
{
    lemma_fixed();
    if set.len() > 0 {
        lemma_set(set.drop_last());
        lemma_column(set.last().column);
        lemma_expr(set.last().value);
        let separator = if set.len() == 1 {
            ""@
        } else {
            ", "@
        };
        let p1 = set_sql(set.drop_last()) + separator;
        let p2 = p1 + column_name(set.last().column);
        let p3 = p2 + " = "@;
        lemma_add(set_sql(set.drop_last()), separator);
        lemma_add(p1, column_name(set.last().column));
        lemma_add(p2, " = "@);
        lemma_add(p3, expr_sql(set.last().value));
    }
}

proof fn lemma_cond(c: Cond)
    ensures
        marks(cond_sql(c)) == cond_values(c).len(),
    decreases c,
{
    lemma_fixed();
    match c {
        Cond::Always => {},
        Cond::Equals(c, _) => {
            lemma_column(c);
            lemma_add(column_name(c), " = ?"@);
        },
        Cond::Differs(c, _) => {
            lemma_column(c);
            lemma_add(column_name(c), " <> ?"@);
        },
        Cond::Below(c, _) => {
            lemma_column(c);
            lemma_add(column_name(c), " < ?"@);
        },
        Cond::AtMost(c, _) => {
            lemma_column(c);
            lemma_add(column_name(c), " <= ?"@);
        },
        Cond::IsNull(c) => {
            lemma_column(c);
            lemma_add(column_name(c), " IS NULL"@);
        },
        Cond::OneOf(c, list) => {
            lemma_column(c);
            lemma_placeholders(list@.len());
            lemma_add(column_name(c), " IN ("@);
            lemma_add(column_name(c) + " IN ("@, placeholders(list@.len()));
            lemma_add(column_name(c) + " IN ("@ + placeholders(list@.len()), ")"@);
        },
        Cond::Like(c, _) => {
            lemma_column(c);
            lemma_add(column_name(c), " LIKE ?"@);
        },
        Cond::Both(a, b) => {
            lemma_cond(*a);
            lemma_cond(*b);
            lemma_add("("@, cond_sql(*a));
            lemma_add("("@ + cond_sql(*a), " AND "@);
            lemma_add("("@ + cond_sql(*a) + " AND "@, cond_sql(*b));
            lemma_add("("@ + cond_sql(*a) + " AND "@ + cond_sql(*b), ")"@);
        },
        Cond::Either(a, b) => {
            lemma_cond(*a);
            lemma_cond(*b);
            lemma_add("("@, cond_sql(*a));
            lemma_add("("@ + cond_sql(*a), " OR "@);
            lemma_add("("@ + cond_sql(*a) + " OR "@, cond_sql(*b));
            lemma_add("("@ + cond_sql(*a) + " OR "@ + cond_sql(*b), ")"@);
        },
    }
}

proof fn lemma_value_rows(n: nat, width: nat)
    ensures
        marks(value_rows_sql(n, width)) == n * width,
    decreases n,
{
    lemma_fixed();
    if n > 0 {
        let m = (n - 1) as nat;
        lemma_value_rows(m, width);
        lemma_placeholders(width);
        let opening = if n == 1 {
            "("@
        } else {
            ", ("@
        };
        lemma_add(value_rows_sql(m, width), opening);
        lemma_add(value_rows_sql(m, width) + opening, placeholders(width));
        lemma_add(value_rows_sql(m, width) + opening + placeholders(width), ")"@);
        assert(n * width == m * width + width) by (nonlinear_arith)
            requires
                n == m + 1,
        ;
    } else {
        assert(n * width == 0) by (nonlinear_arith)
            requires
                n == 0,
        ;
    }
}

proof fn lemma_into(t: Table, cs: Seq<Column>)
    ensures
        marks(into_sql(t, cs)) == 0,
{
    lemma_fixed();
    lemma_table(t);
    lemma_names(cs);
    lemma_add(" INTO "@, table_name(t));
    lemma_add(" INTO "@ + table_name(t), " ("@);
    lemma_add(" INTO "@ + table_name(t) + " ("@, name_list(cs));
    lemma_add(" INTO "@ + table_name(t) + " ("@ + name_list(cs), ") VALUES "@);
}

proof fn lemma_rows_len(rows: Seq<Vec<Value>>, width: nat)
    requires
        forall|i: int| 0 <= i < rows.len() ==> (#[trigger] rows[i])@.len() == width,
    ensures
        all_values(rows).len() == rows.len() * width,
    decreases rows.len(),
{
    if rows.len() > 0 {
        lemma_rows_len(rows.drop_last(), width);
        assert(rows[rows.len() - 1]@.len() == width);
        assert(rows.len() * width == (rows.len() - 1) * width + width) by (nonlinear_arith)
            requires
                rows.len() > 0,
        ;
    } else {
        assert(rows.len() * width == 0) by (nonlinear_arith)
            requires
                rows.len() == 0,
        ;
    }
}

/// The text of a statement has one placeholder for each value it binds.
pub proof fn law_one_placeholder_for_each_value(s: Statement)
    requires
        statement_wf(s),
    ensures
        marks(statement_sql(s)) == statement_values(s).len(),
{
    lemma_fixed();
    match s {
        Statement::Upsert { table, rows, set } => {
            let into = into_sql(table, supplied_columns(table));
            let groups = value_rows_sql(rows@.len(), supplied(table));
            lemma_into(table, supplied_columns(table));
            lemma_value_rows(rows@.len(), supplied(table));
            lemma_rows_len(rows@, supplied(table));
            lemma_names(key_columns(table));
            lemma_set(set@);
            let p1 = "INSERT"@ + into;
            let p2 = p1 + groups;
            let p3 = p2 + " ON CONFLICT ("@;
            let p4 = p3 + name_list(key_columns(table));
            let p5 = p4 + ") DO UPDATE SET "@;
            lemma_add("INSERT"@, into);
            lemma_add(p1, groups);
            lemma_add(p2, " ON CONFLICT ("@);
            lemma_add(p3, name_list(key_columns(table)));
            lemma_add(p4, ") DO UPDATE SET "@);
            lemma_add(p5, set_sql(set@));
        },
        Statement::Insert { table, row } => {
            let into = into_sql(table, supplied_columns(table));
            lemma_into(table, supplied_columns(table));
            lemma_value_rows(1, supplied(table));
            lemma_add("INSERT"@, into);
            lemma_add("INSERT"@ + into, value_rows_sql(1, supplied(table)));
        },
        Statement::InsertNumbered { row } => {
            let into = into_sql(Table::Device, columns(Table::Device).skip(1));
            lemma_into(Table::Device, columns(Table::Device).skip(1));
            lemma_value_rows(1, 27);
            lemma_add("INSERT"@, into);
            lemma_add("INSERT"@ + into, value_rows_sql(1, 27));
        },
        Statement::Replace { table, row } => {
            let into = into_sql(table, supplied_columns(table));
            lemma_into(table, supplied_columns(table));
            lemma_value_rows(1, supplied(table));
            lemma_add("REPLACE"@, into);
            lemma_add("REPLACE"@ + into, value_rows_sql(1, supplied(table)));
        },
        Statement::Delete { table, filter } => {
            lemma_table(table);
            lemma_cond(filter);
            lemma_add("DELETE FROM "@, table_name(table));
            lemma_add("DELETE FROM "@ + table_name(table), " WHERE "@);
            lemma_add("DELETE FROM "@ + table_name(table) + " WHERE "@, cond_sql(filter));
        },
        Statement::Update { table, set, filter } => {
            lemma_table(table);
            lemma_set(set@);
            lemma_cond(filter);
            let p1 = "UPDATE "@ + table_name(table);
            let p2 = p1 + " SET "@;
            let p3 = p2 + set_sql(set@);
            let p4 = p3 + " WHERE "@;
            lemma_add("UPDATE "@, table_name(table));
            lemma_add(p1, " SET "@);
            lemma_add(p2, set_sql(set@));
            lemma_add(p3, " WHERE "@);
            lemma_add(p4, cond_sql(filter));
        },
    }
}

/// The text of a query has one placeholder for each value it binds.
pub proof fn law_one_placeholder_for_each_value_of_a_query(q: Query)
    ensures
        marks(query_sql(q)) == query_values(q).len(),
{
    lemma_fixed();
    lemma_table(q.table);
    lemma_cond(q.filter);
    let s1 = " FROM "@ + table_name(q.table);
    let s2 = s1 + " WHERE "@;
    let source = s2 + cond_sql(q.filter);
    lemma_add(" FROM "@, table_name(q.table));
    lemma_add(s1, " WHERE "@);
    lemma_add(s2, cond_sql(q.filter));
    match q.want {
        Want::Columns(cs) => {
            lemma_names(cs@);
            let order = match q.order {
                Order::Unordered => ""@,
                Order::Ascending(c) => " ORDER BY "@ + column_name(c) + " ASC"@,
                Order::Descending(c) => " ORDER BY "@ + column_name(c) + " DESC"@,
            };
            match q.order {
                Order::Unordered => {},
                Order::Ascending(c) => {
                    lemma_column(c);
                    lemma_add(" ORDER BY "@, column_name(c));
                    lemma_add(" ORDER BY "@ + column_name(c), " ASC"@);
                },
                Order::Descending(c) => {
                    lemma_column(c);
                    lemma_add(" ORDER BY "@, column_name(c));
                    lemma_add(" ORDER BY "@ + column_name(c), " DESC"@);
                },
            }
            let limit = if q.first {
                " LIMIT 1"@
            } else {
                ""@
            };
            let p1 = "SELECT "@ + name_list(cs@);
            lemma_add("SELECT "@, name_list(cs@));
            lemma_add(p1, source);
            lemma_add(p1 + source, order);
            lemma_add(p1 + source + order, limit);
        },
        Want::Count => {
            lemma_add("SELECT COUNT(*)"@, source);
        },
        Want::Largest(c) => {
            lemma_column(c);
            lemma_add("SELECT MAX("@, column_name(c));
            lemma_add("SELECT MAX("@ + column_name(c), ")"@);
            lemma_add("SELECT MAX("@ + column_name(c) + ")"@, source);
        },
        Want::Exists => {
            lemma_add("SELECT EXISTS (SELECT 1"@, source);
            lemma_add("SELECT EXISTS (SELECT 1"@ + source, ")"@);
        },
    }
}

} // verus!
