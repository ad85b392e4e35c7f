//! What the text of a statement says and what the statement does agree.

use crate::app_state::{array_values, blob_values};
use crate::effects::listed;
use crate::error::StoreError;
use crate::load::{load_fault, reports, Decoded, LoadFault};
use crate::merge::Merge;
use crate::model::{
    affected, always_taken, apply, apply_all, comes_before, completed, device_key, eval, holds,
    projected, selected, takes, takes_all, Db,
};
use crate::plan::{sound, Guard, Lane, WritePlan};
use crate::promises::place;
use crate::rows::blob_at;
use crate::schema::{
    column_name, columns, is_numeric, key_columns, pos, supplied, table_name, Column, Key, Table,
};
use crate::signal::{for_user, identity_message, law_user_state_is_by_prefix, literal, text_values};
use crate::sql::{
    all_values, cond_sql, cond_values, expr_sql, expr_values, hands_out_numbers, name_list,
    placeholders, query_sql, set_sql, set_values, statement_sql, statement_values, supplied_columns,
    value_rows_sql, Assignment, Cond, Expr, Order, Query, Statement, Want,
};
use crate::text::{decimal, starts_with};
use crate::value::{values, Val, Value};
use vstd::prelude::*;

verus! {

broadcast use {vstd::string::group_string_axioms, vstd::seq::group_seq_axioms};

// ---------------------------------------------------------------------------------------
// Tests

/// A comparison with a number says what it means: each sign stands for the comparison that it
/// stands for anywhere, and the number is bound where the mark is.
pub proof fn law_comparisons_mean_what_they_say(t: Table, c: Column, row: Seq<Val>, m: int, n: i64)
    requires
        row[pos(t, c)] == Val::Int(m),
    ensures
        ({
            let v = Value::Int(n);
            let name = column_name(c);
            &&& cond_sql(Cond::Equals(c, v)) == name + " = ?"@
            &&& holds(Cond::Equals(c, v), t, row) <==> m == n
            &&& cond_sql(Cond::Differs(c, v)) == name + " <> ?"@
            &&& holds(Cond::Differs(c, v), t, row) <==> m != n
            &&& cond_sql(Cond::Below(c, v)) == name + " < ?"@
            &&& holds(Cond::Below(c, v), t, row) <==> m < n
            &&& cond_sql(Cond::AtMost(c, v)) == name + " <= ?"@
            &&& holds(Cond::AtMost(c, v), t, row) <==> m <= n
            &&& cond_sql(Cond::IsNull(c)) == name + " IS NULL"@
            &&& !holds(Cond::IsNull(c), t, row)
            &&& cond_values(Cond::Equals(c, v)) == seq![Val::Int(n as int)]
            &&& cond_values(Cond::Differs(c, v)) == seq![Val::Int(n as int)]
            &&& cond_values(Cond::Below(c, v)) == seq![Val::Int(n as int)]
            &&& cond_values(Cond::AtMost(c, v)) == seq![Val::Int(n as int)]
            &&& cond_values(Cond::IsNull(c)) == Seq::<Val>::empty()
        }),
{
}

/// No comparison holds of `NULL` but the test for it, and none holds with `NULL`.
pub proof fn law_null_is_compared_with_nothing(t: Table, c: Column, row: Seq<Val>, v: Value)
    ensures
        row[pos(t, c)] is Null || v@ is Null ==> {
            &&& !holds(Cond::Equals(c, v), t, row)
            &&& !holds(Cond::Differs(c, v), t, row)
            &&& !holds(Cond::Below(c, v), t, row)
            &&& !holds(Cond::AtMost(c, v), t, row)
        },
        holds(Cond::IsNull(c), t, row) <==> row[pos(t, c)] == Val::Null,
        !(v@ is Null) && !(row[pos(t, c)] is Null) ==> {
            &&& holds(Cond::Equals(c, v), t, row) <==> row[pos(t, c)] == v@
            &&& holds(Cond::Differs(c, v), t, row) <==> row[pos(t, c)] != v@
        },
{
}

/// Two tests are joined in brackets, by `AND` where both must hold and by `OR` where one must; the
/// values of the first are bound before those of the second.
pub proof fn law_joined_tests_mean_what_they_say(a: Cond, b: Cond, t: Table, row: Seq<Val>)
    ensures
        ({
            let both = Cond::Both(Box::new(a), Box::new(b));
            let either = Cond::Either(Box::new(a), Box::new(b));
            &&& cond_sql(both) == "("@ + cond_sql(a) + " AND "@ + cond_sql(b) + ")"@
            &&& holds(both, t, row) <==> holds(a, t, row) && holds(b, t, row)
            &&& cond_sql(either) == "("@ + cond_sql(a) + " OR "@ + cond_sql(b) + ")"@
            &&& holds(either, t, row) <==> holds(a, t, row) || holds(b, t, row)
            &&& cond_values(both) == cond_values(a) + cond_values(b)
            &&& cond_values(either) == cond_values(a) + cond_values(b)
        }),
{
}

/// A list of marks has one for each value, with a comma and a space between two.
pub proof fn law_marks_are_listed_one_by_one(n: nat)
    ensures
        n == 0 ==> placeholders(n).len() == 0,
        n >= 1 ==> placeholders(n).len() == 3 * n - 2,
        forall|i: int|
            0 <= i < placeholders(n).len() ==> #[trigger] placeholders(n)[i] == (if i % 3 == 0 {
                '?'
            } else if i % 3 == 1 {
                ','
            } else {
                ' '
            }),
    decreases n,
{
    reveal_strlit("");
    reveal_strlit("?");
    reveal_strlit(", ?");
    if n > 1 {
        let head = placeholders((n - 1) as nat);
        law_marks_are_listed_one_by_one((n - 1) as nat);
        assert forall|i: int| 0 <= i < placeholders(n).len() implies #[trigger] placeholders(n)[i]
            == (if i % 3 == 0 {
            '?'
        } else if i % 3 == 1 {
            ','
        } else {
            ' '
        }) by {
            if i < head.len() {
                assert(placeholders(n)[i] == head[i]);
            } else {
                assert(placeholders(n)[i] == ", ?"@[i - head.len()]);
            }
        }
    }
}

/// A test against a list holds of what is in the list, and binds its values in their order.
pub proof fn law_lists_mean_what_they_say(t: Table, c: Column, list: Vec<Value>, row: Seq<Val>)
    ensures
        ({
            let one = Cond::OneOf(c, list);
            &&& cond_sql(one) == column_name(c) + " IN ("@ + placeholders(list@.len()) + ")"@
            &&& cond_values(one).len() == list@.len()
            &&& forall|i: int| 0 <= i < list@.len() ==> cond_values(one)[i] == (#[trigger] list@[i])@
            &&& holds(one, t, row) <==> !(row[pos(t, c)] is Null) && exists|i: int|
                0 <= i < list@.len() && (#[trigger] list@[i])@ == row[pos(t, c)]
        }),
{
    let one = Cond::OneOf(c, list);
    let vs = values(list@);
    assert forall|i: int| 0 <= i < list@.len() implies cond_values(one)[i] == (#[trigger] list@[i])@ by {
        assert(vs[i] == list@[i]@);
    }
    if vs.contains(row[pos(t, c)]) {
        let i = choose|i: int| 0 <= i < vs.len() && vs[i] == row[pos(t, c)];
        assert(list@[i]@ == row[pos(t, c)]);
    }
    if exists|i: int| 0 <= i < list@.len() && (#[trigger] list@[i])@ == row[pos(t, c)] {
        let i = choose|i: int| 0 <= i < list@.len() && (#[trigger] list@[i])@ == row[pos(t, c)];
        assert(vs[i] == row[pos(t, c)]);
    }
}

// ---------------------------------------------------------------------------------------
// Assignments

/// An expression says what it means: the stored column, the column of the row that was to be
/// inserted, a bound value, the larger of two, the first that is there, or zero where one of two is.
pub proof fn law_expressions_mean_what_they_say(
    t: Table,
    c: Column,
    v: Value,
    a: Expr,
    b: Expr,
    o: Expr,
    old_row: Seq<Val>,
    new_row: Seq<Val>,
)
    ensures
        expr_sql(Expr::Stored(c)) == column_name(c),
        eval(Expr::Stored(c), t, old_row, new_row) == old_row[pos(t, c)],
        expr_sql(Expr::Excluded(c)) == "excluded."@ + column_name(c),
        eval(Expr::Excluded(c), t, old_row, new_row) == new_row[pos(t, c)],
        expr_sql(Expr::Bound(v)) == "?"@,
        eval(Expr::Bound(v), t, old_row, new_row) == v@,
        expr_values(Expr::Bound(v)) == seq![v@],
        ({
            let x = eval(a, t, old_row, new_row);
            let y = eval(b, t, old_row, new_row);
            let z = eval(o, t, old_row, new_row);
            let larger = Expr::Larger(Box::new(a), Box::new(b));
            let first = Expr::Coalesce(Box::new(a), Box::new(b));
            let zero = Expr::ZeroIfEither(Box::new(a), Box::new(b), Box::new(o));
            &&& expr_sql(larger) == "MAX("@ + expr_sql(a) + ", "@ + expr_sql(b) + ")"@
            &&& x matches Val::Int(m) ==> y matches Val::Int(n) ==> eval(larger, t, old_row, new_row)
                == Val::Int(
                if m >= n {
                    m
                } else {
                    n
                },
            )
            &&& expr_sql(first) == "COALESCE("@ + expr_sql(a) + ", "@ + expr_sql(b) + ")"@
            &&& !(x is Null) ==> eval(first, t, old_row, new_row) == x
            &&& x is Null ==> eval(first, t, old_row, new_row) == y
            &&& expr_sql(zero) == "CASE WHEN "@ + expr_sql(a) + " = 0 OR "@ + expr_sql(b)
                + " = 0 THEN 0 ELSE "@ + expr_sql(o) + " END"@
            &&& x == Val::Int(0) || y == Val::Int(0) ==> eval(zero, t, old_row, new_row) == Val::Int(
                0,
            )
            &&& x != Val::Int(0) && y != Val::Int(0) ==> eval(zero, t, old_row, new_row) == z
            &&& expr_values(larger) == expr_values(a) + expr_values(b)
            &&& expr_values(first) == expr_values(a) + expr_values(b)
            &&& expr_values(zero) == expr_values(a) + expr_values(b) + expr_values(o)
        }),
{
}

/// A further assignment stands behind a comma, and its values behind those of the others.
pub proof fn law_assignments_are_listed_one_by_one(set: Seq<Assignment>, a: Assignment)
    ensures
        set.len() > 0 ==> set_sql(set.push(a)) == set_sql(set) + ", "@ + column_name(a.column)
            + " = "@ + expr_sql(a.value),
        set.len() == 0 ==> set_sql(set.push(a)) == column_name(a.column) + " = "@ + expr_sql(a.value),
{
    reveal_strlit("");
    assert(set.push(a).drop_last() =~= set);
    if set.len() == 0 {
        assert(set_sql(set) =~= Seq::<char>::empty());
        assert(set_sql(set.push(a)) =~= column_name(a.column) + " = "@ + expr_sql(a.value));
    } else {
        assert(set_sql(set.push(a)) =~= set_sql(set) + ", "@ + column_name(a.column) + " = "@
            + expr_sql(a.value));
    }
}

/// A further name of a list stands behind a comma.
pub proof fn law_names_are_listed_one_by_one(cs: Seq<Column>, c: Column)
    ensures
        cs.len() > 0 ==> name_list(cs.push(c)) == name_list(cs) + ", "@ + column_name(c),
        cs.len() == 0 ==> name_list(cs.push(c)) == column_name(c),
{
    assert(cs.push(c).drop_last() =~= cs);
}

// ---------------------------------------------------------------------------------------
// Statements

/// A deletion names its table and its test. The rows of that table that pass the test go, and no
/// others, wherever nothing hangs on the table's rows.
pub proof fn law_deletions_mean_what_they_say(t: Table, filter: Cond, db: Db, now: int, k: Key)
    requires
        t != Table::Device,
    ensures
        ({
            let s = Statement::Delete { table: t, filter };
            let after = apply(s, db, now);
            &&& statement_sql(s) == "DELETE FROM "@ + table_name(t) + " WHERE "@ + cond_sql(filter)
            &&& statement_values(s) == cond_values(filter)
            &&& k.table == t && db.rows.contains_key(k) && holds(filter, t, db.rows[k])
                ==> !after.rows.contains_key(k)
            &&& k.table != t || !holds(filter, t, db.rows[k]) ==> after.get(k) == db.get(k)
        }),
{
}

/// An update names its table, its assignments and its test, and binds the values of the assignments
/// first. No row comes or goes, and only those of the table that pass the test change.
pub proof fn law_updates_mean_what_they_say(
    t: Table,
    set: Vec<Assignment>,
    filter: Cond,
    db: Db,
    now: int,
    k: Key,
)
    ensures
        ({
            let s = Statement::Update { table: t, set, filter };
            let after = apply(s, db, now);
            &&& statement_sql(s) == "UPDATE "@ + table_name(t) + " SET "@ + set_sql(set@) + " WHERE "@
                + cond_sql(filter)
            &&& statement_values(s) == set_values(set@) + cond_values(filter)
            &&& after.rows.contains_key(k) <==> db.rows.contains_key(k)
            &&& k.table != t || !holds(filter, t, db.rows[k]) ==> after.get(k) == db.get(k)
        }),
{
}

/// The values of rows are bound row by row, each in its own order.
pub proof fn law_rows_are_bound_one_by_one(rows: Seq<Vec<Value>>, row: Vec<Value>)
    ensures
        all_values(rows.push(row)) == all_values(rows) + values(row@),
        all_values(Seq::empty()) == Seq::<Val>::empty(),
        values(row@).len() == row@.len(),
        forall|i: int| 0 <= i < row@.len() ==> values(row@)[i] == (#[trigger] row@[i])@,
{
    assert(rows.push(row).drop_last() =~= rows);
    assert forall|i: int| 0 <= i < row@.len() implies values(row@)[i] == (#[trigger] row@[i])@ by {}
}

/// Messages get the time at which they are stored from the database, behind the values that are
/// given; every other row is given whole.
pub proof fn law_messages_are_timed_by_the_database(t: Table, given: Seq<Val>, now: int)
    ensures
        t == Table::SentMessages || t == Table::PendingInboundMessages ==> {
            &&& completed(t, given, now).len() == given.len() + 1
            &&& completed(t, given, now).take(given.len() as int) == given
            &&& completed(t, given, now).last() == Val::Int(now)
            &&& supplied(t) + 1 == columns(t).len()
        },
        t != Table::SentMessages && t != Table::PendingInboundMessages ==> completed(t, given, now)
            == given && supplied(t) == columns(t).len(),
{
    assert(given.push(Val::Int(now)).take(given.len() as int) =~= given);
}

/// An insertion names its table and the columns that it gives values for, and has one mark for each
/// value of a row. A replacement says so in its first word; one that changes the row that is there
/// already names the columns by which it is found, and what it is to be changed to.
pub proof fn law_insertions_mean_what_they_say(
    t: Table,
    row: Vec<Value>,
    rows: Vec<Vec<Value>>,
    set: Vec<Assignment>,
)
    ensures
        ({
            let into = " INTO "@ + table_name(t) + " ("@ + name_list(supplied_columns(t))
                + ") VALUES "@;
            let one = "("@ + placeholders(supplied(t)) + ")"@;
            let insert = Statement::Insert { table: t, row };
            let replace = Statement::Replace { table: t, row };
            let upsert = Statement::Upsert { table: t, rows, set };
            &&& statement_sql(insert) == "INSERT"@ + into + one
            &&& statement_values(insert) == values(row@)
            &&& statement_sql(replace) == "REPLACE"@ + into + one
            &&& statement_values(replace) == values(row@)
            &&& rows@.len() == 1 ==> statement_sql(upsert) == "INSERT"@ + into + one
                + " ON CONFLICT ("@ + name_list(key_columns(t)) + ") DO UPDATE SET "@ + set_sql(set@)
            &&& statement_values(upsert) == all_values(rows@) + set_values(set@)
        }),
{
    reveal_strlit("");
    reveal_with_fuel(value_rows_sql, 2);
    let one = "("@ + placeholders(supplied(t)) + ")"@;
    assert(value_rows_sql(1, supplied(t)) =~= one);
}

/// A further row of marks stands behind a comma.
pub proof fn law_rows_of_marks_are_listed_one_by_one(n: nat, width: nat)
    requires
        n >= 1,
    ensures
        value_rows_sql(n + 1, width) == value_rows_sql(n, width) + ", ("@ + placeholders(width)
            + ")"@,
{
}

/// A query for columns names them, its table, its test and its order, and asks for one row where it
/// wants the first only.
pub proof fn law_queries_mean_what_they_say(
    t: Table,
    cs: Vec<Column>,
    filter: Cond,
    c: Column,
    a: Seq<Val>,
    b: Seq<Val>,
    m: int,
    n: int,
)
    requires
        a[pos(t, c)] == Val::Int(m),
        b[pos(t, c)] == Val::Int(n),
    ensures
        ({
            let source = " FROM "@ + table_name(t) + " WHERE "@ + cond_sql(filter);
            let up = Query {
                table: t,
                want: Want::Columns(cs),
                filter,
                order: Order::Ascending(c),
                first: false,
            };
            let down = Query { order: Order::Descending(c), ..up };
            let plain = Query { order: Order::Unordered, ..up };
            let one = Query { first: true, ..plain };
            let count = Query { want: Want::Count, ..plain };
            let most = Query { want: Want::Largest(c), ..plain };
            let any = Query { want: Want::Exists, ..plain };
            &&& query_sql(plain) == "SELECT "@ + name_list(cs@) + source
            &&& query_sql(one) == query_sql(plain) + " LIMIT 1"@
            &&& query_sql(up) == query_sql(plain) + " ORDER BY "@ + column_name(c) + " ASC"@
            &&& comes_before(up, a, b) <==> m < n
            &&& query_sql(down) == query_sql(plain) + " ORDER BY "@ + column_name(c) + " DESC"@
            &&& comes_before(down, a, b) <==> m > n
            &&& query_sql(count) == "SELECT COUNT(*)"@ + source
            &&& query_sql(most) == "SELECT MAX("@ + column_name(c) + ")"@ + source
            &&& query_sql(any) == "SELECT EXISTS (SELECT 1"@ + source + ")"@
        }),
{
    reveal_strlit("");
    let source = " FROM "@ + table_name(t) + " WHERE "@ + cond_sql(filter);
    let up = Query {
        table: t,
        want: Want::Columns(cs),
        filter,
        order: Order::Ascending(c),
        first: false,
    };
    let down = Query { order: Order::Descending(c), ..up };
    let plain = Query { order: Order::Unordered, ..up };
    let one = Query { first: true, ..plain };
    let head = "SELECT "@ + name_list(cs@) + source;
    assert(query_sql(plain) =~= head);
    assert(query_sql(one) =~= head + " LIMIT 1"@);
    assert(query_sql(up) =~= head + " ORDER BY "@ + column_name(c) + " ASC"@);
    assert(query_sql(down) =~= head + " ORDER BY "@ + column_name(c) + " DESC"@);
}

/// Numbers are handed out where a column of numbers was asked for, and wherever something is
/// counted.
pub proof fn law_numbers_are_handed_out_where_asked(q: Query, i: int)
    ensures
        q.want matches Want::Columns(cs) ==> (hands_out_numbers(q, i) <==> 0 <= i < cs@.len()
            && is_numeric(q.table, cs@[i])),
        q.want matches Want::Largest(c) ==> (hands_out_numbers(q, i) <==> is_numeric(q.table, c)),
        q.want is Count || q.want is Exists ==> hands_out_numbers(q, i),
{
}

/// A row is among those asked for exactly where it is stored in the table and passes the test, and
/// what is handed out of it are the columns asked for, in the order in which they were asked for.
pub proof fn law_rows_are_handed_out_as_asked(q: Query, db: Db, k: Key, cs: Seq<Column>, i: int)
    ensures
        selected(q, db, k) <==> (db.get(k) matches Some(row) && k.table == q.table && holds(
            q.filter,
            q.table,
            row,
        )),
        projected(k.table, cs, db.rows[k]).len() == cs.len(),
        db.rows.contains_key(k) && 0 <= i < cs.len() ==> db.column(k, cs[i]) == Some(
            projected(k.table, cs, db.rows[k])[i],
        ),
{
}

// ---------------------------------------------------------------------------------------
// Batches

/// A batch is as good as its parts, one after the other, and a batch of one row is that row.
pub proof fn law_batches_are_as_good_as_their_parts(
    db: Db,
    m: Merge,
    t: Table,
    a: Seq<Seq<Val>>,
    b: Seq<Seq<Val>>,
    row: Seq<Val>,
)
    ensures
        db.put_all(t, a + b) == db.put_all(t, a).put_all(t, b),
        db.merge_all(m, t, a + b) == db.merge_all(m, t, a).merge_all(m, t, b),
        db.put_all(t, seq![row]) == db.put(t, row),
        db.merge_all(m, t, seq![row]) == db.merge(m, t, row),
        db.put_all(t, seq![]) == db,
        db.merge_all(m, t, seq![]) == db,
    decreases b.len(),
{
    reveal_with_fuel(Db::put_all, 2);
    reveal_with_fuel(Db::merge_all, 2);
    assert(seq![row].drop_last() =~= seq![]);
    if b.len() == 0 {
        assert(a + b =~= a);
    } else {
        law_batches_are_as_good_as_their_parts(db, m, t, a, b.drop_last(), row);
        assert((a + b).drop_last() =~= a + b.drop_last());
        assert((a + b).last() == b.last());
    }
}

// ---------------------------------------------------------------------------------------
// Loading

/// Where several parts of an account are at fault, the first of them is reported: the noise key,
/// the identity key, the signed prekey, its signature, the secret, the pairing. Each is reported
/// for what is wrong with it.
pub proof fn law_the_first_fault_is_reported(row: Seq<Val>, c: Decoded)
    ensures
        ({
            let noise = blob_at(row, pos(Table::Device, Column::NoiseKey))->0;
            let identity = blob_at(row, pos(Table::Device, Column::IdentityKey))->0;
            let signed = blob_at(row, pos(Table::Device, Column::SignedPreKey))->0;
            let signature = blob_at(row, pos(Table::Device, Column::SignedPreKeySignature))->0;
            let secret = blob_at(row, pos(Table::Device, Column::AdvSecretKey))->0;
            let fault = load_fault(row, c);
            let noise_ok = noise.len() == 64 && c.noise_key is None;
            let identity_ok = noise_ok && identity.len() == 64 && c.identity_key is None;
            let signed_ok = identity_ok && signed.len() == 64 && c.signed_pre_key is None;
            &&& noise.len() != 64 ==> fault == Some(LoadFault::KeyLength(noise.len()))
            &&& noise.len() == 64 ==> (c.noise_key matches Some(e) ==> fault == Some(
                LoadFault::Undecodable(e@),
            ))
            &&& noise_ok && identity.len() != 64 ==> fault == Some(
                LoadFault::KeyLength(identity.len()),
            )
            &&& noise_ok && identity.len() == 64 ==> (c.identity_key matches Some(e) ==> fault
                == Some(LoadFault::Undecodable(e@)))
            &&& identity_ok && signed.len() != 64 ==> fault == Some(
                LoadFault::KeyLength(signed.len()),
            )
            &&& identity_ok && signed.len() == 64 ==> (c.signed_pre_key matches Some(e) ==> fault
                == Some(LoadFault::Undecodable(e@)))
            &&& signed_ok && signature.len() != 64 ==> fault == Some(LoadFault::SignatureLength)
            &&& signed_ok && signature.len() == 64 && secret.len() != 32 ==> fault == Some(
                LoadFault::SecretLength,
            )
            &&& signed_ok && signature.len() == 64 && secret.len() == 32 && blob_at(
                row,
                pos(Table::Device, Column::Account),
            ) is Some ==> (c.account matches Some(e) ==> fault == Some(LoadFault::Undecodable(e@)))
        }),
{
}

/// A part of the wrong length is reported as invalid, and one that a codec does not take in the
/// codec's own words.
pub proof fn law_faults_are_reported_by_kind(error: StoreError, fault: LoadFault)
    requires
        reports(error, fault),
    ensures
        fault matches LoadFault::Undecodable(e) ==> (error matches StoreError::Serialization(m) && m@
            == e),
        fault matches LoadFault::KeyLength(n) ==> (error matches StoreError::Validation(m) && m@
            == "Invalid KeyPair length: "@ + decimal(n)),
        fault is SignatureLength ==> (error matches StoreError::Validation(m) && m@
            == "Invalid signed_pre_key_signature length"@),
        fault is SecretLength ==> (error matches StoreError::Validation(m) && m@
            == "Invalid adv_secret_key length"@),
{
}

// ---------------------------------------------------------------------------------------
// Plans

/// A write that is retried under a name in a transaction is just that; one that is tried once is one
/// statement without a transaction; and the statements of a sound write bind no more values than the
/// database takes and are held together where there are several.
pub proof fn law_writes_run_as_they_say(plan: WritePlan, name: Seq<char>, guard: Guard, i: int)
    ensures
        plan.retried_as(name, guard) ==> plan.guard == guard && (plan.lane matches Lane::Retried(n)
            && n@ == name),
        plan.once() ==> plan.lane is Once && plan.guard == Guard::Bare && plan.statements@.len()
            == 1,
        plan.sound() && plan.guard == Guard::Bare ==> plan.statements@.len() <= 1,
        plan.sound() && 0 <= i < plan.statements@.len() ==> statement_values(
            plan.statements@[i],
        ).len() <= 999,
{
    if plan.sound() && 0 <= i < plan.statements@.len() {
        assert(sound(plan.statements@[i]));
    }
}

/// A write that is always taken has its effect on every database, and one that needs an account has
/// it where the account is, and none at all where it is not.
pub proof fn law_writes_happen_whole_or_not_at_all(
    plan: WritePlan,
    f: spec_fn(Db, int) -> Db,
    id: int,
    db: Db,
    now: int,
)
    requires
        db.wf(),
    ensures
        plan.leaves(f) ==> plan.apply(db, now) == f(db, now),
        plan.always_taken() ==> plan.apply(db, now) == apply_all(plan.statements@, db, now),
        plan.needs_account(id) && plan.statements@.len() > 0 && !db.rows.contains_key(
            place(Table::Device, id, Val::Null, Val::Null, Val::Null),
        ) ==> plan.apply(db, now) == db,
{
    let list = plan.statements@;
    if plan.always_taken() {
        lemma_all_taken(list, db, now);
    }
    if plan.needs_account(id) && list.len() > 0 && !db.rows.contains_key(
        place(Table::Device, id, Val::Null, Val::Null, Val::Null),
    ) {
        assert(device_key(id) == place(Table::Device, id, Val::Null, Val::Null, Val::Null));
        lemma_none_taken(list, db, now, id);
    }
}

proof fn lemma_all_taken(list: Seq<Statement>, db: Db, now: int)
    requires
        always_taken(list),
    ensures
        takes_all(list, db, now),
    decreases list.len(),
{
    if list.len() > 0 {
        let head = list.drop_last();
        assert(always_taken(head)) by {
            assert forall|i: int, d: Db, at: int| 0 <= i < head.len() implies #[trigger] takes(
                head[i],
                d,
                at,
            ) by {
                assert(takes(list[i], d, at));
            }
        }
        lemma_all_taken(head, db, now);
        assert(takes(list[list.len() - 1], apply_all(head, db, now), now));
    }
}

proof fn lemma_none_taken(list: Seq<Statement>, db: Db, now: int, id: int)
    requires
        list.len() > 0,
        !db.rows.contains_key(device_key(id)),
        forall|i: int, d: Db, at: int|
            0 <= i < list.len() ==> (#[trigger] takes(list[i], d, at) <==> d.rows.contains_key(
                device_key(id),
            )),
    ensures
        !takes_all(list, db, now),
    decreases list.len(),
{
    let head = list.drop_last();
    if head.len() == 0 {
        assert(!takes(list[0], db, now));
        assert(apply_all(head, db, now) == db);
    } else {
        assert forall|i: int, d: Db, at: int| 0 <= i < head.len() implies (#[trigger] takes(
            head[i],
            d,
            at,
        ) <==> d.rows.contains_key(device_key(id))) by {
            assert(takes(list[i], d, at) <==> d.rows.contains_key(device_key(id)));
        }
        lemma_none_taken(head, db, now, id);
    }
}

/// A sweep takes the rows that are to go and no others, and reports how many.
pub proof fn law_sweeps_take_what_they_say(
    plan: WritePlan,
    p: spec_fn(Key, Seq<Val>) -> bool,
    db: Db,
    now: int,
    k: Key,
)
    requires
        plan.sweeps(p),
        db.wf(),
    ensures
        ({
            let after = plan.apply(db, now);
            &&& db.get(k) matches Some(row) ==> p(k, row) ==> !after.rows.contains_key(k)
            &&& db.get(k) matches Some(row) ==> !p(k, row) ==> after.get(k) == Some(row)
            &&& !db.rows.contains_key(k) ==> !after.rows.contains_key(k)
            &&& plan.statements@.len() == 1
            &&& affected(plan.statements@[0], db) == db.rows.dom().filter(
                |j: Key| p(j, db.rows[j]),
            ).len()
        }),
{
    let f = |d: Db, at: int| d.without(p);
    assert(plan.apply(db, now) == f(db, now));
    assert(db.hit(p) =~= db.rows.dom().filter(|j: Key| p(j, db.rows[j])));
}

/// A row is one of the listed ones exactly where it belongs to the account, has one of the listed
/// texts in the column, and the fixed text where one is fixed.
pub proof fn law_listed_rows_are_the_listed_ones(
    t: Table,
    c: Column,
    text: Seq<char>,
    column: Column,
    items: Seq<String>,
    device_id: int,
    row: Seq<Val>,
)
    ensures
        ({
            let hit = row[pos(t, Column::DeviceId)] == Val::Int(device_id) && exists|i: int|
                0 <= i < items.len() && row[pos(t, column)] == Val::Text((#[trigger] items[i])@);
            &&& listed(t, None, column, text_values(items), device_id, row) <==> hit
            &&& listed(t, Some((c, text)), column, text_values(items), device_id, row) <==> hit
                && row[pos(t, c)] == Val::Text(text)
        }),
{
    let list = text_values(items);
    let v = row[pos(t, column)];
    if exists|i: int| 0 <= i < items.len() && v == Val::Text((#[trigger] items[i])@) {
        let i = choose|i: int| 0 <= i < items.len() && v == Val::Text((#[trigger] items[i])@);
        assert(list[i] == v);
    }
    if list.contains(v) {
        let i = choose|i: int| 0 <= i < list.len() && list[i] == v;
        assert(v == Val::Text(items[i]@));
    }
}

/// What is bound for a list of hashes or of blobs are these, one by one.
pub proof fn law_blobs_are_bound_one_by_one(arrays: Seq<[u8; 32]>, blobs: Seq<Vec<u8>>)
    ensures
        array_values(arrays).len() == arrays.len(),
        forall|i: int| 0 <= i < arrays.len() ==> array_values(arrays)[i] == Val::Blob(
            (#[trigger] arrays[i])@,
        ),
        blob_values(blobs).len() == blobs.len(),
        forall|i: int| 0 <= i < blobs.len() ==> blob_values(blobs)[i] == Val::Blob(
            (#[trigger] blobs[i])@,
        ),
{
    assert forall|i: int| 0 <= i < arrays.len() implies array_values(arrays)[i] == Val::Blob(
        (#[trigger] arrays[i])@,
    ) by {}
    assert forall|i: int| 0 <= i < blobs.len() implies blob_values(blobs)[i] == Val::Blob(
        (#[trigger] blobs[i])@,
    ) by {}
}

/// State of a user is what belongs to the account and is stored for an address of the user: the
/// user's name, then `@` or `:`, then anything.
pub proof fn law_state_of_a_user_is_by_address(
    t: Table,
    row: Seq<Val>,
    user: Seq<char>,
    device_id: int,
    address: Seq<char>,
)
    requires
        row[pos(t, Column::Address)] == Val::Text(address),
        forall|i: int| 0 <= i < user.len() ==> literal(#[trigger] user[i]),
    ensures
        for_user(t, row, user, device_id) <==> row[pos(t, Column::DeviceId)] == Val::Int(device_id)
            && (starts_with(address, user + seq!['@']) || starts_with(address, user + seq![':'])),
{
    law_user_state_is_by_prefix(user, address);
}

/// Identity keys of the wrong length are reported with their address and their length.
pub proof fn law_wrong_identity_keys_are_named(address: Seq<char>, n: nat)
    ensures
        identity_message(address, n) == "identity key for '"@ + address + "' has invalid length "@
            + decimal(n) + " (expected 32)"@,
{
}

// ---------------------------------------------------------------------------------------
// Names

/// The tables that a database on disk holds.
pub proof fn law_tables_are_named_as_on_disk()
    ensures
        table_name(Table::Device) == "device"@,
        table_name(Table::AppStateKeys) == "app_state_keys"@,
        table_name(Table::AppStateMutationMacs) == "app_state_mutation_macs"@,
        table_name(Table::AppStateVersions) == "app_state_versions"@,
        table_name(Table::BaseKeys) == "base_keys"@,
        table_name(Table::DeviceRegistry) == "device_registry"@,
        table_name(Table::GroupMetadata) == "group_metadata"@,
        table_name(Table::Identities) == "identities"@,
        table_name(Table::LidPnMapping) == "lid_pn_mapping"@,
        table_name(Table::MsgSecrets) == "msg_secrets"@,
        table_name(Table::PendingInboundMessages) == "pending_inbound_messages"@,
        table_name(Table::Prekeys) == "prekeys"@,
        table_name(Table::SenderKeyDevices) == "sender_key_devices"@,
        table_name(Table::SenderKeys) == "sender_keys"@,
        table_name(Table::SentMessages) == "sent_messages"@,
        table_name(Table::Sessions) == "sessions"@,
        table_name(Table::SignedPrekeys) == "signed_prekeys"@,
        table_name(Table::TcTokens) == "tc_tokens"@,
{
}

/// The columns that the tables of a database on disk have.
pub proof fn law_columns_are_named_as_on_disk()
    ensures
        column_name(Column::Id) == "id"@,
        column_name(Column::Lid) == "lid"@,
        column_name(Column::Pn) == "pn"@,
        column_name(Column::RegistrationId) == "registration_id"@,
        column_name(Column::NoiseKey) == "noise_key"@,
        column_name(Column::IdentityKey) == "identity_key"@,
        column_name(Column::SignedPreKey) == "signed_pre_key"@,
        column_name(Column::SignedPreKeyId) == "signed_pre_key_id"@,
        column_name(Column::SignedPreKeySignature) == "signed_pre_key_signature"@,
        column_name(Column::AdvSecretKey) == "adv_secret_key"@,
        column_name(Column::Account) == "account"@,
        column_name(Column::PushName) == "push_name"@,
        column_name(Column::AppVersionPrimary) == "app_version_primary"@,
        column_name(Column::AppVersionSecondary) == "app_version_secondary"@,
        column_name(Column::AppVersionTertiary) == "app_version_tertiary"@,
        column_name(Column::AppVersionLastFetchedMs) == "app_version_last_fetched_ms"@,
        column_name(Column::EdgeRoutingInfo) == "edge_routing_info"@,
        column_name(Column::PropsHash) == "props_hash"@,
        column_name(Column::NextPreKeyId) == "next_pre_key_id"@,
        column_name(Column::NctSalt) == "nct_salt"@,
        column_name(Column::ServerHasPrekeys) == "server_has_prekeys"@,
        column_name(Column::ServerCertChain) == "server_cert_chain"@,
        column_name(Column::LoginCounter) == "login_counter"@,
        column_name(Column::FirstUnuploadPreKeyId) == "first_unupload_pre_key_id"@,
        column_name(Column::LidMigrated) == "lid_migrated"@,
        column_name(Column::LastSignedPreKeyRotationMs) == "last_signed_pre_key_rotation_ms"@,
        column_name(Column::ReadReceiptsDisabled) == "read_receipts_disabled"@,
        column_name(Column::ServerClientExpiration) == "server_client_expiration"@,
        column_name(Column::KeyId) == "key_id"@,
        column_name(Column::KeyData) == "key_data"@,
        column_name(Column::DeviceId) == "device_id"@,
        column_name(Column::Name) == "name"@,
        column_name(Column::Version) == "version"@,
        column_name(Column::IndexMac) == "index_mac"@,
        column_name(Column::ValueMac) == "value_mac"@,
        column_name(Column::StateData) == "state_data"@,
        column_name(Column::Address) == "address"@,
        column_name(Column::MessageId) == "message_id"@,
        column_name(Column::BaseKey) == "base_key"@,
        column_name(Column::CreatedAt) == "created_at"@,
        column_name(Column::UserId) == "user_id"@,
        column_name(Column::DevicesJson) == "devices_json"@,
        column_name(Column::Timestamp) == "timestamp"@,
        column_name(Column::Phash) == "phash"@,
        column_name(Column::UpdatedAt) == "updated_at"@,
        column_name(Column::RawId) == "raw_id"@,
        column_name(Column::GroupJid) == "group_jid"@,
        column_name(Column::Info) == "info"@,
        column_name(Column::Key) == "key"@,
        column_name(Column::PhoneNumber) == "phone_number"@,
        column_name(Column::LearningSource) == "learning_source"@,
        column_name(Column::Chat) == "chat"@,
        column_name(Column::Sender) == "sender"@,
        column_name(Column::MsgId) == "msg_id"@,
        column_name(Column::Secret) == "secret"@,
        column_name(Column::ExpiresAt) == "expires_at"@,
        column_name(Column::MessageTs) == "message_ts"@,
        column_name(Column::Message) == "message"@,
        column_name(Column::InsertedAt) == "inserted_at"@,
        column_name(Column::Uploaded) == "uploaded"@,
        column_name(Column::DeviceJid) == "device_jid"@,
        column_name(Column::HasKey) == "has_key"@,
        column_name(Column::Record) == "record"@,
        column_name(Column::ChatJid) == "chat_jid"@,
        column_name(Column::Payload) == "payload"@,
        column_name(Column::Jid) == "jid"@,
        column_name(Column::Token) == "token"@,
        column_name(Column::TokenTimestamp) == "token_timestamp"@,
        column_name(Column::SenderTimestamp) == "sender_timestamp"@,
{
}

} // verus!
