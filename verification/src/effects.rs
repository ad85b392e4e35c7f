//! Building statements and queries, with what they do stated on the contents of the database.

use crate::merge::{assignments, fits, merged, realizes, Merge};
use crate::model::{
    affected, always_taken, anchored, answers, apply, apply_all, assigned, completed, device_key,
    holds, lists, projected, row_wf, selected, takes, takes_all, upsert_row, upsert_rows, Db,
};
use crate::plan::{
    both, cond_wf, equals, owned_by, query_sound, sound, Guard, Lane, WritePlan, PARAMETER_LIMIT,
};
use crate::schema::{key_of, pos, supplied, Column, Key, Table};
use crate::sql::{all_values, cond_values, Assignment, Cond, Order, Query, Statement, Want};
use crate::value::{values, Val, Value};
use vstd::prelude::*;

verus! {

broadcast use crate::model::lemma_takes_all;

/// The rows that an insert of these values makes.
pub open spec fn completed_rows(t: Table, rows: Seq<Vec<Value>>, now: int) -> Seq<Seq<Val>> {
    rows.map_values(|r: Vec<Value>| completed(t, values(r@), now))
}

/// Each row has a value for every column that a statement supplies.
pub open spec fn widths_fit(t: Table, rows: Seq<Vec<Value>>) -> bool {
    forall|i: int| 0 <= i < rows.len() ==> (#[trigger] rows[i])@.len() == supplied(t)
}

/// A merge keeps the key.
proof fn lemma_merged_key(m: Merge, t: Table, old_row: Seq<Val>, new_row: Seq<Val>)
    requires
        fits(m, t),
        row_wf(t, old_row),
        row_wf(t, new_row),
        key_of(t, old_row) == key_of(t, new_row),
    ensures
        row_wf(t, merged(m, old_row, new_row)),
        key_of(t, merged(m, old_row, new_row)) == key_of(t, new_row),
{
}

/// Putting a row keeps the database well formed.
pub proof fn lemma_put_wf(db: Db, t: Table, row: Seq<Val>)
    requires
        db.wf(),
        row_wf(t, row),
    ensures
        db.put(t, row).wf(),
{
    let after = db.put(t, row);
    assert forall|k: Key| #[trigger] after.rows.contains_key(k) implies row_wf(
        k.table,
        after.rows[k],
    ) && key_of(k.table, after.rows[k]) == k by {
        if k != key_of(t, row) {
            assert(db.rows.contains_key(k));
        }
    }
    assert forall|k: Key| #[trigger]
        after.rows.contains_key(k) && k.table == Table::Device implies crate::model::id_of(k.device)
        <= after.last_id by {
        if k != key_of(t, row) {
            assert(db.rows.contains_key(k));
        }
    }
}

/// Merging a row keeps the database well formed.
pub proof fn lemma_merge_wf(db: Db, m: Merge, t: Table, row: Seq<Val>)
    requires
        db.wf(),
        fits(m, t),
        row_wf(t, row),
    ensures
        db.merge(m, t, row).wf(),
{
    let k = key_of(t, row);
    if db.rows.contains_key(k) {
        lemma_merged_key(m, t, db.rows[k], row);
        lemma_put_wf(db, t, merged(m, db.rows[k], row));
    } else {
        lemma_put_wf(db, t, row);
    }
}

/// Dropping rows keeps the database well formed.
pub proof fn lemma_without_wf(db: Db, gone: spec_fn(Key, Seq<Val>) -> bool)
    requires
        db.wf(),
    ensures
        db.without(gone).wf(),
{
    let after = db.without(gone);
    assert(after.rows.dom() =~= db.rows.dom().filter(|k: Key| !gone(k, db.rows[k])));
    assert(after.rows.dom().finite());
    assert forall|k: Key| #[trigger] after.rows.contains_key(k) implies db.rows.contains_key(k) by {
    }
}

/// An upsert does what its merge rule says, row by row.
proof fn lemma_upsert(
    db: Db,
    m: Merge,
    t: Table,
    rows: Seq<Vec<Value>>,
    set: Seq<Assignment>,
    now: int,
)
    requires
        db.wf(),
        fits(m, t),
        realizes(m, t, set),
        widths_fit(t, rows),
    ensures
        upsert_rows(db, t, rows, set, now) == db.merge_all(m, t, completed_rows(t, rows, now)),
        upsert_rows(db, t, rows, set, now).wf(),
    decreases rows.len(),
{
    if rows.len() > 0 {
        let head = rows.drop_last();
        lemma_upsert(db, m, t, head, set, now);
        let before = upsert_rows(db, t, head, set, now);
        let all = completed_rows(t, rows, now);
        assert(all.drop_last() =~= completed_rows(t, head, now));
        let row = completed(t, values(rows.last()@), now);
        assert(all.last() == row);
        assert(rows[rows.len() - 1]@.len() == supplied(t));
        assert(row_wf(t, row));
        let k = key_of(t, row);
        if before.rows.contains_key(k) {
            let old_row = before.rows[k];
            assert(assigned(t, set, old_row, row) == merged(m, old_row, row));
            lemma_merged_key(m, t, old_row, row);
        }
        assert(upsert_row(before, t, row, set) =~= before.merge(m, t, row));
        lemma_merge_wf(before, m, t, row);
    } else {
        assert(completed_rows(t, rows, now) =~= seq![]);
    }
}

/// Inserting rows in two parts is inserting them all.
pub proof fn lemma_merge_all_concat(
    db: Db,
    m: Merge,
    t: Table,
    a: Seq<Seq<Val>>,
    b: Seq<Seq<Val>>,
)
    ensures
        db.merge_all(m, t, a).merge_all(m, t, b) == db.merge_all(m, t, a + b),
    decreases b.len(),
{
    if b.len() > 0 {
        lemma_merge_all_concat(db, m, t, a, b.drop_last());
        assert((a + b).drop_last() =~= a + b.drop_last());
        assert((a + b).last() == b.last());
    } else {
        assert(a + b =~= a);
    }
}

/// The values of the rows of one statement.
proof fn lemma_all_values_len(t: Table, rows: Seq<Vec<Value>>)
    requires
        widths_fit(t, rows),
    ensures
        all_values(rows).len() == rows.len() * supplied(t),
    decreases rows.len(),
{
    if rows.len() > 0 {
        lemma_all_values_len(t, rows.drop_last());
        assert(rows[rows.len() - 1]@.len() == supplied(t));
        assert(rows.len() * supplied(t) == (rows.len() - 1) * supplied(t) + supplied(t))
            by (nonlinear_arith)
            requires
                rows.len() > 0,
        ;
    } else {
        assert(rows.len() * supplied(t) == 0) by (nonlinear_arith)
            requires
                rows.len() == 0,
        ;
    }
}

/// One statement more.
pub proof fn lemma_apply_push(list: Seq<Statement>, s: Statement, db: Db, now: int)
    ensures
        apply_all(list.push(s), db, now) == apply(s, apply_all(list, db, now), now),
{
    assert(list.push(s).drop_last() =~= list);
}

/// A single statement.
pub proof fn lemma_apply_one(s: Statement, db: Db, now: int)
    ensures
        apply_all(seq![s], db, now) == apply(s, db, now),
{
    assert(seq![s].drop_last() =~= seq![]);
    assert(apply_all(seq![], db, now) == db);
}

/// The accounts that rows hang on are stored.
pub open spec fn all_anchored(db: Db, t: Table, rows: Seq<Seq<Val>>) -> bool {
    forall|i: int| 0 <= i < rows.len() ==> anchored(db, t, #[trigger] rows[i])
}

/// Inserting rows of account state keeps every account.
proof fn lemma_stays_anchored(db: Db, m: Merge, t: Table, rows: Seq<Seq<Val>>, k: Key)
    requires
        db.rows.contains_key(k),
    ensures
        db.merge_all(m, t, rows).rows.contains_key(k),
    decreases rows.len(),
{
    if rows.len() > 0 {
        lemma_stays_anchored(db, m, t, rows.drop_last(), k);
    }
}

/// Inserting rows keeps every key.
proof fn lemma_upserts_keep(
    db: Db,
    t: Table,
    rows: Seq<Vec<Value>>,
    set: Seq<Assignment>,
    now: int,
    k: Key,
)
    requires
        db.rows.contains_key(k),
    ensures
        upsert_rows(db, t, rows, set, now).rows.contains_key(k),
    decreases rows.len(),
{
    if rows.len() > 0 {
        lemma_upserts_keep(db, t, rows.drop_last(), set, now, k);
    }
}

/// Inserts that need an account are taken one after the other where it is stored.
pub proof fn lemma_taken_with_account(list: Seq<Statement>, db: Db, id: int, now: int)
    requires
        db.rows.contains_key(device_key(id)),
        forall|i: int| 0 <= i < list.len() ==> #[trigger] list[i] is Upsert,
        forall|i: int, d: Db, at: int|
            0 <= i < list.len() && d.rows.contains_key(device_key(id)) ==> #[trigger] takes(
                list[i],
                d,
                at,
            ),
    ensures
        takes_all(list, db, now),
        apply_all(list, db, now).rows.contains_key(device_key(id)),
    decreases list.len(),
{
    if list.len() > 0 {
        let front = list.drop_last();
        assert forall|i: int, d: Db, at: int|
            0 <= i < front.len() && d.rows.contains_key(device_key(id)) implies #[trigger] takes(
            front[i],
            d,
            at,
        ) by {
            assert(takes(list[i], d, at));
        }
        lemma_taken_with_account(front, db, id, now);
        let mid = apply_all(front, db, now);
        let last = list[list.len() - 1];
        assert(takes(last, mid, now));
        if let Statement::Upsert { table, rows, set } = last {
            lemma_upserts_keep(mid, table, rows@, set@, now, device_key(id));
        }
    }
}

/// Statements that the database refuses leave it as it was.
pub proof fn lemma_refused(list: Seq<Statement>, db: Db, now: int)
    requires
        forall|i: int| 0 <= i < list.len() ==> !takes(#[trigger] list[i], db, now),
    ensures
        apply_all(list, db, now) == db,
    decreases list.len(),
{
    if list.len() > 0 {
        lemma_refused(list.drop_last(), db, now);
    }
}

/// The statement inserts rows under a merge rule.
pub open spec fn merges(s: Statement, m: Merge, t: Table, rows: Seq<Vec<Value>>) -> bool {
    forall|db: Db, now: int|
        db.wf() && all_anchored(db, t, completed_rows(t, rows, now)) ==> #[trigger] apply(s, db, now)
            == db.merge_all(m, t, completed_rows(t, rows, now)) && apply(s, db, now).wf()
}

/// An insert of rows under a merge rule, as one statement.
pub fn upsert(m: Merge, t: Table, rows: Vec<Vec<Value>>) -> (s: Statement)
    requires
        fits(m, t),
        widths_fit(t, rows@),
        rows@.len() > 0,
        rows@.len() * supplied(t) <= PARAMETER_LIMIT,
    ensures
        merges(s, m, t, rows@),
        sound(s),
        s matches Statement::Upsert { table, rows: r, set } && table == t && r@ == rows@,
{
    let set = assignments(m, t);
    let s = Statement::Upsert { table: t, rows, set };
    proof {
        lemma_all_values_len(t, rows@);
        assert forall|db: Db, now: int|
            db.wf() && all_anchored(db, t, completed_rows(t, rows@, now)) implies #[trigger] apply(
            s,
            db,
            now,
        ) == db.merge_all(m, t, completed_rows(t, rows@, now)) && apply(s, db, now).wf() by {
            lemma_upsert(db, m, t, rows@, set@, now);
            let whole = completed_rows(t, rows@, now);
            assert forall|i: int| 0 <= i < rows@.len() implies anchored(
                db,
                t,
                completed(t, values((#[trigger] rows@[i])@), now),
            ) by {
                assert(anchored(db, t, whole[i]));
            }
            assert(takes(s, db, now));
        }
    }
    s
}

/// The statements insert rows under a merge rule.
pub open spec fn all_merge(list: Seq<Statement>, m: Merge, t: Table, rows: Seq<Vec<Value>>) -> bool {
    forall|db: Db, now: int|
        db.wf() && all_anchored(db, t, completed_rows(t, rows, now)) ==> #[trigger] apply_all(
            list,
            db,
            now,
        ) == db.merge_all(m, t, completed_rows(t, rows, now)) && apply_all(list, db, now).wf()
}

/// Every statement inserts rows into `t`, at least one, and only rows out of `rows`.
pub open spec fn carries(list: Seq<Statement>, t: Table, rows: Seq<Vec<Value>>) -> bool {
    forall|i: int|
        0 <= i < list.len() ==> ((#[trigger] list[i]) matches Statement::Upsert {
            table,
            rows: part,
            set,
        } && table == t && part@.len() > 0 && forall|j: int|
            0 <= j < part@.len() ==> rows.contains(#[trigger] part@[j]))
}

/// How many rows the statements of a list insert.
pub open spec fn rows_inserted(list: Seq<Statement>) -> nat
    decreases list.len(),
{
    if list.len() == 0 {
        0
    } else {
        rows_inserted(list.drop_last()) + (match list.last() {
            Statement::Upsert { table, rows, set } => rows@.len(),
            _ => 0,
        })
    }
}

/// An insert of rows under a merge rule, at most `size` rows to a statement.
pub fn upsert_in_chunks(m: Merge, t: Table, rows: Vec<Vec<Value>>, size: usize) -> (list: Vec<
    Statement,
>)
    requires
        fits(m, t),
        widths_fit(t, rows@),
        size > 0,
        size * supplied(t) <= PARAMETER_LIMIT,
    ensures
        all_merge(list@, m, t, rows@),
        forall|i: int| 0 <= i < list@.len() ==> sound(#[trigger] list@[i]),
        rows@.len() > 0 <==> list@.len() > 0,
        rows_inserted(list@) == rows@.len(),
        carries(list@, t, rows@),
        t != Table::LidPnMapping ==> always_taken(list@),
{
    let ghost all = rows@;
    let mut rest = rows;
    let mut list: Vec<Statement> = Vec::new();
    proof {
        assert forall|db: Db, now: int| db.wf() implies #[trigger] apply_all(list@, db, now)
            == db.merge_all(m, t, completed_rows(t, all.take(0), now)) && apply_all(
            list@,
            db,
            now,
        ).wf() by {
            assert(completed_rows(t, all.take(0), now) =~= seq![]);
        }
        assert(all.skip(0) =~= all);
    }
    let ghost mut done: int = 0;
    while rest.len() > 0
        invariant
            fits(m, t),
            size > 0,
            size * supplied(t) <= PARAMETER_LIMIT,
            0 <= done <= all.len(),
            rest@ == all.skip(done),
            widths_fit(t, all),
            all_merge(list@, m, t, all.take(done)),
            rows_inserted(list@) == done,
            carries(list@, t, all),
            t != Table::LidPnMapping ==> always_taken(list@),
            forall|i: int| 0 <= i < list@.len() ==> sound(#[trigger] list@[i]),
            done > 0 <==> list@.len() > 0,
        decreases rest.len(),
    {
        let mut chunk = rest;
        if chunk.len() > size {
            rest = chunk.split_off(size);
        } else {
            rest = Vec::new();
        }
        let ghost n = chunk@.len() as int;
        assert(chunk@ =~= all.subrange(done, done + n));
        assert(rest@ =~= all.skip(done + n));
        assert(widths_fit(t, chunk@));
        assert(chunk@.len() * supplied(t) <= size * supplied(t)) by (nonlinear_arith)
            requires
                chunk@.len() <= size,
        ;
        let ghost part = chunk@;
        assert forall|j: int| 0 <= j < part.len() implies all.contains(#[trigger] part[j]) by {
            assert(all[done + j] == part[j]);
        }
        let s = upsert(m, t, chunk);
        let ghost before = list@;
        list.push(s);
        proof {
            assert(list@.drop_last() =~= before);
            assert forall|db: Db, now: int|
                db.wf() && all_anchored(
                    db,
                    t,
                    completed_rows(t, all.take(done + n), now),
                ) implies #[trigger] apply_all(list@, db, now) == db.merge_all(
                m,
                t,
                completed_rows(t, all.take(done + n), now),
            ) && apply_all(list@, db, now).wf() by {
                lemma_apply_push(before, s, db, now);
                let whole = completed_rows(t, all.take(done + n), now);
                let head = completed_rows(t, all.take(done), now);
                let tail = completed_rows(t, part, now);
                assert forall|i: int| 0 <= i < head.len() implies anchored(
                    db,
                    t,
                    #[trigger] head[i],
                ) by {
                    assert(whole[i] == head[i]);
                }
                let mid = apply_all(before, db, now);
                assert(mid.wf());
                assert forall|i: int| 0 <= i < tail.len() implies anchored(
                    mid,
                    t,
                    #[trigger] tail[i],
                ) by {
                    assert(whole[done + i] == tail[i]);
                    let owner = Key {
                        table: Table::Device,
                        device: key_of(t, tail[i]).device,
                        a: Val::Null,
                        b: Val::Null,
                        c: Val::Null,
                    };
                    if t == Table::LidPnMapping {
                        lemma_stays_anchored(db, m, t, head, owner);
                    }
                }
                assert(apply(s, mid, now) == mid.merge_all(m, t, completed_rows(t, part, now)));
                lemma_merge_all_concat(
                    db,
                    m,
                    t,
                    completed_rows(t, all.take(done), now),
                    completed_rows(t, part, now),
                );
                assert(completed_rows(t, all.take(done), now) + completed_rows(t, part, now)
                    =~= completed_rows(t, all.take(done + n), now));
            }
            done = done + n;
        }
    }
    assert(all.take(done) =~= all);
    list
}

// ---------------------------------------------------------------------------------------
// Deleting

/// The test passes on the row under `k` and on no other row of the table.
pub open spec fn pins(filter: Cond, t: Table, k: Key) -> bool {
    &&& k.table == t
    &&& forall|row: Seq<Val>|
        row_wf(t, row) ==> (#[trigger] holds(filter, t, row) <==> key_of(t, row) == k)
}

/// The statement removes the row under `k` and nothing else.
pub open spec fn removes(s: Statement, k: Key) -> bool {
    forall|db: Db, now: int|
        db.wf() ==> #[trigger] apply(s, db, now) == db.remove(k) && apply(s, db, now).wf()
}

/// The statement drops the rows of a table for which `p` holds and nothing else.
pub open spec fn drops(s: Statement, t: Table, p: spec_fn(Seq<Val>) -> bool) -> bool {
    forall|db: Db, now: int|
        db.wf() ==> #[trigger] apply(s, db, now) == db.without(
            |k: Key, row: Seq<Val>| k.table == t && p(row),
        ) && apply(s, db, now).wf()
}

/// A deletion of the rows that pass the test, from a table of account state.
pub fn delete(t: Table, filter: Cond) -> (s: Statement)
    requires
        t != Table::Device,
        cond_wf(filter, t),
        cond_values(filter).len() <= PARAMETER_LIMIT,
    ensures
        s == (Statement::Delete { table: t, filter }),
        sound(s),
        drops(s, t, |row: Seq<Val>| holds(filter, t, row)),
        forall|k: Key| #[trigger] pins(filter, t, k) ==> removes(s, k),
{
    let s = Statement::Delete { table: t, filter };
    proof {
        assert forall|db: Db, now: int| db.wf() implies #[trigger] apply(s, db, now) == db.without(
            |k: Key, row: Seq<Val>| k.table == t && (|row: Seq<Val>| holds(filter, t, row))(row),
        ) && apply(s, db, now).wf() by {
            lemma_delete(db, t, filter, now);
        }
        assert forall|k: Key| #[trigger] pins(filter, t, k) implies removes(s, k) by {
            assert forall|db: Db, now: int| db.wf() implies #[trigger] apply(s, db, now)
                == db.remove(k) && apply(s, db, now).wf() by {
                lemma_delete(db, t, filter, now);
                let gone = |k: Key, row: Seq<Val>| k.table == t && holds(filter, t, row);
                let after = db.without(gone);
                assert forall|j: Key| #[trigger]
                    after.rows.contains_key(j) <==> db.remove(k).rows.contains_key(j) by {
                    if db.rows.contains_key(j) {
                        assert(row_wf(j.table, db.rows[j]));
                        if j.table == t {
                            assert(holds(filter, t, db.rows[j]) <==> key_of(t, db.rows[j]) == k);
                        }
                    }
                }
                assert(after.rows =~= db.remove(k).rows);
            }
        }
    }
    s
}

/// A deletion from a table of account state touches that table only.
proof fn lemma_delete(db: Db, t: Table, filter: Cond, now: int)
    requires
        db.wf(),
        t != Table::Device,
    ensures
        apply(Statement::Delete { table: t, filter }, db, now) == db.without(
            |k: Key, row: Seq<Val>| k.table == t && holds(filter, t, row),
        ),
        apply(Statement::Delete { table: t, filter }, db, now).wf(),
{
    let gone = |k: Key, row: Seq<Val>| k.table == t && holds(filter, t, row);
    assert(apply(Statement::Delete { table: t, filter }, db, now) =~= db.without(gone));
    lemma_without_wf(db, gone);
}

/// Rows of the account with one of these values in a column, and with the fixed text in the
/// other where one is given.
pub open spec fn listed(
    t: Table,
    fixed: Option<(Column, Seq<char>)>,
    column: Column,
    list: Seq<Val>,
    device_id: int,
    row: Seq<Val>,
) -> bool {
    &&& row[pos(t, Column::DeviceId)] == Val::Int(device_id)
    &&& !(row[pos(t, column)] is Null) && list.contains(row[pos(t, column)])
    &&& match fixed {
        Some((c, text)) => row[pos(t, c)] == Val::Text(text),
        None => true,
    }
}

/// The fixed column and its text.
pub open spec fn fixed_view(fixed: Option<(Column, &str)>) -> Option<(Column, Seq<char>)> {
    match fixed {
        Some((c, text)) => Some((c, text@)),
        None => None,
    }
}

/// The test that [`listed`] states.
pub fn listed_test(
    t: Table,
    fixed: Option<(Column, &str)>,
    column: Column,
    list: Vec<Value>,
    device_id: i32,
) -> (filter: Cond)
    requires
        pos(t, Column::DeviceId) >= 0,
        pos(t, column) >= 0,
        fixed matches Some((c, _)) ==> pos(t, c) >= 0,
    ensures
        forall|row: Seq<Val>| #[trigger]
            holds(filter, t, row) == listed(
                t,
                fixed_view(fixed),
                column,
                values(list@),
                device_id as int,
                row,
            ),
        cond_wf(filter, t),
        cond_values(filter).len() <= list@.len() + 2,
{
    let ghost wanted = values(list@);
    let any = Cond::OneOf(column, list);
    assert(cond_values(any).len() == list@.len());
    match fixed {
        Some((c, text)) => both(
            equals(c, Value::text(text)),
            both(any, owned_by(device_id)),
        ),
        None => both(any, owned_by(device_id)),
    }
}

/// The statements drop the rows of a table for which `p` holds and nothing else.
pub open spec fn all_drop(list: Seq<Statement>, t: Table, p: spec_fn(Seq<Val>) -> bool) -> bool {
    forall|db: Db, now: int|
        db.wf() ==> #[trigger] apply_all(list, db, now) == db.without(
            |k: Key, row: Seq<Val>| k.table == t && p(row),
        ) && apply_all(list, db, now).wf()
}

/// A deletion of the account's rows with one of many values in a column, at most `size`
/// values to a statement.
pub fn delete_in_chunks(
    t: Table,
    fixed: Option<(Column, &str)>,
    column: Column,
    wanted: Vec<Value>,
    device_id: i32,
    size: usize,
) -> (list: Vec<Statement>)
    requires
        t != Table::Device,
        pos(t, Column::DeviceId) >= 0,
        pos(t, column) >= 0,
        fixed matches Some((c, _)) ==> pos(t, c) >= 0,
        0 < size,
        size + 2 <= PARAMETER_LIMIT,
    ensures
        all_drop(
            list@,
            t,
            |row: Seq<Val>|
                listed(t, fixed_view(fixed), column, values(wanted@), device_id as int, row),
        ),
        forall|i: int| 0 <= i < list@.len() ==> sound(#[trigger] list@[i]),
        always_taken(list@),
        wanted@.len() > 0 <==> list@.len() > 0,
{
    let ghost all = wanted@;
    let ghost f = fixed_view(fixed);
    let ghost d = device_id as int;
    let mut rest = wanted;
    let mut list: Vec<Statement> = Vec::new();
    let ghost mut done: int = 0;
    proof {
        let p = |row: Seq<Val>| listed(t, f, column, values(all.take(0)), d, row);
        assert forall|db: Db, now: int| db.wf() implies #[trigger] apply_all(list@, db, now)
            == db.without(|k: Key, row: Seq<Val>| k.table == t && p(row)) && apply_all(
            list@,
            db,
            now,
        ).wf() by {
            assert(db =~= db.without(|k: Key, row: Seq<Val>| k.table == t && p(row)));
        }
    }
    while rest.len() > 0
        invariant
            t != Table::Device,
            pos(t, Column::DeviceId) >= 0,
            pos(t, column) >= 0,
            fixed matches Some((c, _)) ==> pos(t, c) >= 0,
            f == fixed_view(fixed),
            d == device_id,
            0 < size,
            size + 2 <= PARAMETER_LIMIT,
            0 <= done <= all.len(),
            rest@ == all.skip(done),
            all_drop(
                list@,
                t,
                |row: Seq<Val>| listed(t, f, column, values(all.take(done)), d, row),
            ),
            forall|i: int| 0 <= i < list@.len() ==> sound(#[trigger] list@[i]),
            always_taken(list@),
            done > 0 <==> list@.len() > 0,
        decreases rest.len(),
    {
        let mut chunk = rest;
        if chunk.len() > size {
            rest = chunk.split_off(size);
        } else {
            rest = Vec::new();
        }
        let ghost n = chunk@.len() as int;
        assert(chunk@ =~= all.subrange(done, done + n));
        assert(rest@ =~= all.skip(done + n));
        let ghost part = values(chunk@);
        let filter = listed_test(t, fixed, column, chunk, device_id);
        let s = delete(t, filter);
        let ghost before = list@;
        list.push(s);
        proof {
            let first = values(all.take(done));
            let joined = values(all.take(done + n));
            assert(joined =~= first + part);
            let p = |row: Seq<Val>| listed(t, f, column, joined, d, row);
            assert forall|db: Db, now: int| db.wf() implies #[trigger] apply_all(list@, db, now)
                == db.without(|k: Key, row: Seq<Val>| k.table == t && p(row)) && apply_all(
                list@,
                db,
                now,
            ).wf() by {
                lemma_apply_push(before, s, db, now);
                let mid = apply_all(before, db, now);
                assert(mid.wf());
                let after = apply(s, mid, now);
                let goal = db.without(|k: Key, row: Seq<Val>| k.table == t && p(row));
                assert forall|k: Key| #[trigger]
                    after.rows.contains_key(k) <==> goal.rows.contains_key(k) by {
                    if db.rows.contains_key(k) {
                        let v = db.rows[k][pos(t, column)];
                        assert(joined.contains(v) <==> first.contains(v) || part.contains(v)) by {
                            lemma_concat_contains(first, part, v);
                        }
                    }
                }
                assert(after.rows =~= goal.rows);
            }
            done = done + n;
        }
    }
    assert(all.take(done) =~= all);
    list
}

/// What stands in a concatenation stands in one of its parts.
pub proof fn lemma_concat_contains<T>(a: Seq<T>, b: Seq<T>, v: T)
    ensures
        (a + b).contains(v) <==> a.contains(v) || b.contains(v),
{
    if a.contains(v) {
        let i = choose|i: int| 0 <= i < a.len() && a[i] == v;
        assert((a + b)[i] == v);
    }
    if b.contains(v) {
        let i = choose|i: int| 0 <= i < b.len() && b[i] == v;
        assert((a + b)[a.len() + i] == v);
    }
    if (a + b).contains(v) {
        let i = choose|i: int| 0 <= i < (a + b).len() && (a + b)[i] == v;
        if i >= a.len() {
            assert(b[i - a.len()] == v);
        }
    }
}

// ---------------------------------------------------------------------------------------
// Reading

/// What a query for the row under `k` comes back with: its columns, or nothing.
pub open spec fn row_answer(db: Db, k: Key, cs: Seq<Column>) -> Seq<Seq<Val>> {
    match db.get(k) {
        Some(row) => seq![projected(k.table, cs, row)],
        None => seq![],
    }
}

/// The query reads these columns of the row under `k`.
pub open spec fn reads_row(q: Query, k: Key, cs: Seq<Column>) -> bool {
    forall|db: Db, out: Seq<Seq<Val>>|
        db.wf() ==> (#[trigger] answers(q, db, out) <==> out == row_answer(db, k, cs))
}

/// The query asks for these columns of the rows for which `p` holds.
pub open spec fn asks(
    q: Query,
    t: Table,
    cs: Seq<Column>,
    p: spec_fn(Seq<Val>) -> bool,
    order: Order,
    first: bool,
) -> bool {
    &&& query_sound(q)
    &&& q.table == t
    &&& q.want matches Want::Columns(c) && c@ == cs
    &&& q.order == order
    &&& q.first == first
    &&& forall|row: Seq<Val>| #[trigger] holds(q.filter, t, row) == p(row)
}

/// A query for the one row that the test pins.
pub fn row_query(t: Table, cs: Vec<Column>, filter: Cond) -> (q: Query)
    requires
        cond_wf(filter, t),
        cond_values(filter).len() <= PARAMETER_LIMIT,
        cs@.len() > 0,
        forall|i: int| 0 <= i < cs@.len() ==> pos(t, #[trigger] cs@[i]) >= 0,
    ensures
        query_sound(q),
        forall|k: Key| #[trigger] pins(filter, t, k) ==> reads_row(q, k, cs@),
{
    let q = Query { table: t, want: Want::Columns(cs), filter, order: Order::Unordered, first: true };
    proof {
        assert forall|k: Key| #[trigger] pins(filter, t, k) implies reads_row(q, k, cs@) by {
            lemma_row_query(q, k, cs@);
        }
    }
    q
}

/// A list of one column.
pub fn one(c: Column) -> (cs: Vec<Column>)
    ensures
        cs@ == seq![c],
{
    let cs: Vec<Column> = vec![c];
    assert(cs@ =~= seq![c]);
    cs
}

/// A query whose test pins a row reads that row.
proof fn lemma_row_query(q: Query, k: Key, cs: Seq<Column>)
    requires
        pins(q.filter, q.table, k),
        q.want matches Want::Columns(c) && c@ == cs,
        q.first,
        q.order is Unordered,
    ensures
        reads_row(q, k, cs),
{
    assert forall|db: Db, out: Seq<Seq<Val>>| db.wf() implies (#[trigger] answers(q, db, out)
        <==> out == row_answer(db, k, cs)) by {
        assert forall|j: Key| #[trigger] selected(q, db, j) <==> (db.rows.contains_key(k) && j
            == k) by {
            if db.rows.contains_key(j) && j.table == q.table {
                assert(row_wf(j.table, db.rows[j]));
            }
        }
        let f = |j: Key| projected(q.table, cs, db.rows[j]);
        if answers(q, db, out) {
            let ks = choose|ks: Seq<Key>| #[trigger]
                lists(q, db, ks) && out == ks.map_values(f);
            if db.rows.contains_key(k) {
                assert(selected(q, db, k));
                assert(ks.len() == 1);
                assert(selected(q, db, ks[0]));
                assert(ks =~= seq![k]);
                assert(out =~= row_answer(db, k, cs));
            } else {
                if ks.len() > 0 {
                    assert(selected(q, db, ks[0]));
                }
                assert(out =~= row_answer(db, k, cs));
            }
        }
        if out == row_answer(db, k, cs) {
            let ks = if db.rows.contains_key(k) {
                seq![k]
            } else {
                seq![]
            };
            assert(lists(q, db, ks));
            assert(out =~= ks.map_values(f));
        }
    }
}

// ---------------------------------------------------------------------------------------
// Plans of one statement

/// A write of one statement, without a transaction around it.
pub fn single(lane: Lane, s: Statement) -> (plan: WritePlan)
    requires
        sound(s),
    ensures
        plan.lane == lane,
        plan.guard == Guard::Bare,
        plan.statements@ == seq![s],
        plan.sound(),
        forall|db: Db, now: int| #[trigger] plan.apply(db, now) == apply(s, db, now),
{
    let plan = WritePlan { lane, guard: Guard::Bare, statements: vec![s] };
    proof {
        assert(plan.statements@ =~= seq![s]);
        assert forall|db: Db, now: int| #[trigger] plan.apply(db, now) == apply(s, db, now) by {
            lemma_apply_one(s, db, now);
            assert(seq![s].drop_last() =~= seq![]);
            assert(takes_all(seq![s], db, now) == takes(s, db, now)) by {
                assert(takes_all(seq![], db, now));
                assert(apply_all(seq![], db, now) == db);
            }
        }
    }
    plan
}

/// An insert of one row under a merge rule.
pub fn write_row(lane: Lane, m: Merge, t: Table, row: Vec<Value>) -> (plan: WritePlan)
    requires
        fits(m, t),
        row@.len() == supplied(t),
    ensures
        plan.lane == lane,
        plan.guard == Guard::Bare,
        plan.statements@.len() == 1,
        plan.sound(),
        carries(plan.statements@, t, seq![row]),
        t != Table::LidPnMapping ==> plan.always_taken() && plan.leaves(
            |db: Db, now: int| db.merge(m, t, completed(t, values(row@), now)),
        ),
        t == Table::LidPnMapping ==> plan.leaves(
            |db: Db, now: int|
                if anchored(db, t, values(row@)) {
                    db.merge(m, t, values(row@))
                } else {
                    db
                },
        ),
        t != Table::LidPnMapping && m == Merge::Overwrite ==> plan.leaves(
            |db: Db, now: int| db.put(t, completed(t, values(row@), now)),
        ),
{
    let ghost r = row;
    let rows: Vec<Vec<Value>> = vec![row];
    proof {
        assert(rows@ =~= seq![r]);
        assert(supplied(t) <= 28);
    }
    let s = upsert(m, t, rows);
    let plan = single(lane, s);
    proof {
        assert forall|db: Db, now: int| db.wf() implies #[trigger] plan.apply(db, now) == (
        if anchored(db, t, completed(t, values(r@), now)) {
            db.merge(m, t, completed(t, values(r@), now))
        } else {
            db
        }) by {
            let whole = completed(t, values(r@), now);
            let all = completed_rows(t, rows@, now);
            assert(all =~= seq![whole]);
            assert(all.drop_last() =~= seq![]);
            assert(db.merge_all(m, t, seq![]) == db);
            if anchored(db, t, whole) {
                assert(all_anchored(db, t, all));
                assert(apply(s, db, now) == db.merge_all(m, t, all));
            } else {
                assert(rows@[0] == r);
                assert(!takes(s, db, now));
            }
        }
    }
    plan
}

/// A deletion of the row that the test pins.
pub fn delete_row(lane: Lane, t: Table, filter: Cond) -> (plan: WritePlan)
    requires
        t != Table::Device,
        cond_wf(filter, t),
        cond_values(filter).len() <= PARAMETER_LIMIT,
    ensures
        plan.lane == lane,
        plan.guard == Guard::Bare,
        plan.statements@ == seq![Statement::Delete { table: t, filter }],
        plan.sound(),
        plan.always_taken(),
        forall|k: Key| #[trigger]
            pins(filter, t, k) ==> plan.leaves(|db: Db, now: int| db.remove(k)),
        plan.leaves(
            |db: Db, now: int|
                db.without(|k: Key, row: Seq<Val>| k.table == t && holds(filter, t, row)),
        ),
{
    let s = delete(t, filter);
    let plan = single(lane, s);
    proof {
        assert forall|k: Key| #[trigger] pins(filter, t, k) implies plan.leaves(
            |db: Db, now: int| db.remove(k),
        ) by {
            assert(removes(s, k));
        }
        assert forall|db: Db, now: int| db.wf() implies #[trigger] plan.apply(db, now)
            == db.without(|k: Key, row: Seq<Val>| k.table == t && holds(filter, t, row)) by {
            assert(apply(s, db, now) =~= db.without(
                |k: Key, row: Seq<Val>| k.table == t && holds(filter, t, row),
            ));
        }
    }
    plan
}

/// A deletion by a test deletes what `p` holds for, where the two agree on every row that a
/// database can hold.
pub proof fn lemma_sweeps(
    plan: WritePlan,
    t: Table,
    filter: Cond,
    p: spec_fn(Key, Seq<Val>) -> bool,
)
    requires
        plan.statements@ == seq![Statement::Delete { table: t, filter }],
        plan.leaves(
            |db: Db, now: int|
                db.without(|k: Key, row: Seq<Val>| k.table == t && holds(filter, t, row)),
        ),
        forall|k: Key, row: Seq<Val>|
            row_wf(k.table, row) && key_of(k.table, row) == k ==> #[trigger] p(k, row) == (k.table
                == t && holds(filter, t, row)),
    ensures
        plan.sweeps(p),
{
    let tested = |k: Key, row: Seq<Val>| k.table == t && holds(filter, t, row);
    assert forall|db: Db, now: int| db.wf() implies #[trigger] plan.apply(db, now) == db.without(
        p,
    ) by {
        assert(plan.apply(db, now) == db.without(tested));
        lemma_without_eq(db, tested, p);
    }
    assert forall|db: Db| db.wf() implies #[trigger] affected(plan.statements@[0], db) == db.hit(
        p,
    ).len() by {
        let counted = db.matching(t, |row: Seq<Val>| holds(filter, t, row));
        assert forall|k: Key| #[trigger] counted.contains(k) <==> db.hit(p).contains(k) by {
            if db.rows.contains_key(k) {
                assert(p(k, db.rows[k]) == (k.table == t && holds(filter, t, db.rows[k])));
            }
        }
        assert(counted =~= db.hit(p));
    }
}

// ---------------------------------------------------------------------------------------
// Keys

/// The key of a row that one value identifies within its account.
pub open spec fn key1(t: Table, device_id: int, a: Val) -> Key {
    Key { table: t, device: Val::Int(device_id), a, b: Val::Null, c: Val::Null }
}

/// The key of a row that two values identify within its account.
pub open spec fn key2(t: Table, device_id: int, a: Val, b: Val) -> Key {
    Key { table: t, device: Val::Int(device_id), a, b, c: Val::Null }
}

/// The key of a row that three values identify within its account.
pub open spec fn key3(t: Table, device_id: int, a: Val, b: Val, c: Val) -> Key {
    Key { table: t, device: Val::Int(device_id), a, b, c }
}

/// The column identifies a row of the table within its account.
pub open spec fn keyed_by1(t: Table, x: Column) -> bool {
    &&& t != Table::Device
    &&& pos(t, x) >= 0
    &&& pos(t, Column::DeviceId) >= 0
    &&& forall|row: Seq<Val>| #[trigger]
        key_of(t, row) == (Key {
            table: t,
            device: row[pos(t, Column::DeviceId)],
            a: row[pos(t, x)],
            b: Val::Null,
            c: Val::Null,
        })
}

/// The columns identify a row of the table within its account.
pub open spec fn keyed_by2(t: Table, x: Column, y: Column) -> bool {
    &&& t != Table::Device
    &&& pos(t, x) >= 0 && pos(t, y) >= 0
    &&& pos(t, Column::DeviceId) >= 0
    &&& forall|row: Seq<Val>| #[trigger]
        key_of(t, row) == (Key {
            table: t,
            device: row[pos(t, Column::DeviceId)],
            a: row[pos(t, x)],
            b: row[pos(t, y)],
            c: Val::Null,
        })
}

/// The columns identify a row of the table within its account.
pub open spec fn keyed_by3(t: Table, x: Column, y: Column, z: Column) -> bool {
    &&& t != Table::Device
    &&& pos(t, x) >= 0 && pos(t, y) >= 0 && pos(t, z) >= 0
    &&& pos(t, Column::DeviceId) >= 0
    &&& forall|row: Seq<Val>| #[trigger]
        key_of(t, row) == (Key {
            table: t,
            device: row[pos(t, Column::DeviceId)],
            a: row[pos(t, x)],
            b: row[pos(t, y)],
            c: row[pos(t, z)],
        })
}

/// A test for one row of an account.
pub fn pin1(t: Table, x: Column, a: Value, device_id: i32) -> (filter: Cond)
    requires
        keyed_by1(t, x),
        !(a@ is Null),
    ensures
        pins(filter, t, key1(t, device_id as int, a@)),
        cond_wf(filter, t),
        cond_values(filter).len() == 2,
{
    let filter = both(equals(x, a), owned_by(device_id));
    assert forall|row: Seq<Val>| row_wf(t, row) implies (#[trigger] holds(filter, t, row) <==> key_of(
        t,
        row,
    ) == key1(t, device_id as int, a@)) by {}
    filter
}

/// A test for one row of an account.
pub fn pin2(t: Table, x: Column, a: Value, y: Column, b: Value, device_id: i32) -> (filter: Cond)
    requires
        keyed_by2(t, x, y),
        !(a@ is Null),
        !(b@ is Null),
    ensures
        pins(filter, t, key2(t, device_id as int, a@, b@)),
        cond_wf(filter, t),
        cond_values(filter).len() == 3,
{
    let filter = both(equals(x, a), both(equals(y, b), owned_by(device_id)));
    assert forall|row: Seq<Val>| row_wf(t, row) implies (#[trigger] holds(filter, t, row) <==> key_of(
        t,
        row,
    ) == key2(t, device_id as int, a@, b@)) by {}
    filter
}

/// A test for one row of an account.
pub fn pin3(
    t: Table,
    x: Column,
    a: Value,
    y: Column,
    b: Value,
    z: Column,
    c: Value,
    device_id: i32,
) -> (filter: Cond)
    requires
        keyed_by3(t, x, y, z),
        !(a@ is Null),
        !(b@ is Null),
        !(c@ is Null),
    ensures
        pins(filter, t, key3(t, device_id as int, a@, b@, c@)),
        cond_wf(filter, t),
        cond_values(filter).len() == 4,
{
    let filter = both(equals(x, a), both(equals(y, b), both(equals(z, c), owned_by(device_id))));
    assert forall|row: Seq<Val>| row_wf(t, row) implies (#[trigger] holds(filter, t, row) <==> key_of(
        t,
        row,
    ) == key3(t, device_id as int, a@, b@, c@)) by {}
    filter
}

// ---------------------------------------------------------------------------------------
// Plans of many statements

/// Overwriting with rows in turn is putting them in turn.
pub proof fn lemma_put_all(db: Db, t: Table, rows: Seq<Seq<Val>>)
    ensures
        db.merge_all(Merge::Overwrite, t, rows) == db.put_all(t, rows),
    decreases rows.len(),
{
    if rows.len() > 0 {
        lemma_put_all(db, t, rows.drop_last());
    }
}

/// An insert of rows under a merge rule, at most `size` rows to a statement, in one
/// transaction. Without rows there is nothing to do.
pub fn write_rows(
    name: &'static str,
    guard: Guard,
    m: Merge,
    t: Table,
    rows: Vec<Vec<Value>>,
    size: usize,
) -> (plan: WritePlan)
    requires
        guard != Guard::Bare,
        fits(m, t),
        widths_fit(t, rows@),
        size > 0,
        size * supplied(t) <= PARAMETER_LIMIT,
    ensures
        plan.retried_as(name@, guard),
        plan.sound(),
        rows@.len() == 0 <==> plan.statements@.len() == 0,
        rows_inserted(plan.statements@) == rows@.len(),
        carries(plan.statements@, t, rows@),
        all_merge(plan.statements@, m, t, rows@),
        t != Table::LidPnMapping ==> plan.always_taken() && plan.leaves(
            |db: Db, now: int| db.merge_all(m, t, completed_rows(t, rows@, now)),
        ),
        t != Table::LidPnMapping && m == Merge::Overwrite ==> plan.leaves(
            |db: Db, now: int| db.put_all(t, completed_rows(t, rows@, now)),
        ),
{
    let statements = upsert_in_chunks(m, t, rows, size);
    let plan = WritePlan { lane: Lane::Retried(name), guard, statements };
    proof {
        assert forall|db: Db, now: int|
            db.wf() && t != Table::LidPnMapping implies #[trigger] plan.apply(db, now)
            == db.merge_all(m, t, completed_rows(t, rows@, now)) by {
            assert(all_anchored(db, t, completed_rows(t, rows@, now)));
        }
        if t != Table::LidPnMapping && m == Merge::Overwrite {
            assert forall|db: Db, now: int| db.wf() implies #[trigger] plan.apply(db, now)
                == db.put_all(t, completed_rows(t, rows@, now)) by {
                lemma_put_all(db, t, completed_rows(t, rows@, now));
            }
        }
    }
    plan
}

/// The database without an account's rows whose first identifying value is listed.
pub open spec fn without_keys(db: Db, t: Table, device_id: int, list: Seq<Val>) -> Db {
    db.without(
        |k: Key, row: Seq<Val>| k.table == t && k.device == Val::Int(device_id) && list.contains(k.a),
    )
}

/// None of the values is `NULL`.
pub open spec fn no_nulls(list: Seq<Val>) -> bool {
    forall|i: int| 0 <= i < list.len() ==> !(#[trigger] list[i] is Null)
}

/// Dropping the rows for which `p` holds is dropping those for which `q` does, where the two
/// agree on the rows of the database.
pub proof fn lemma_without_eq(
    db: Db,
    p: spec_fn(Key, Seq<Val>) -> bool,
    q: spec_fn(Key, Seq<Val>) -> bool,
)
    requires
        forall|k: Key| #[trigger]
            db.rows.contains_key(k) ==> p(k, db.rows[k]) == q(k, db.rows[k]),
    ensures
        db.without(p) == db.without(q),
{
    assert(db.without(p).rows =~= db.without(q).rows);
}

/// A deletion of an account's rows by the value that identifies them, at most `size` values to
/// a statement, in one transaction. Without values there is nothing to do.
pub fn delete_keys(
    name: &'static str,
    t: Table,
    x: Column,
    wanted: Vec<Value>,
    device_id: i32,
    size: usize,
) -> (plan: WritePlan)
    requires
        keyed_by1(t, x),
        no_nulls(values(wanted@)),
        0 < size,
        size + 2 <= PARAMETER_LIMIT,
    ensures
        plan.retried_as(name@, Guard::Deferred),
        plan.sound(),
        plan.always_taken(),
        wanted@.len() == 0 <==> plan.statements@.len() == 0,
        plan.leaves(
            |db: Db, now: int| without_keys(db, t, device_id as int, values(wanted@)),
        ),
{
    let ghost list = values(wanted@);
    let statements = delete_in_chunks(t, None, x, wanted, device_id, size);
    let plan = WritePlan { lane: Lane::Retried(name), guard: Guard::Deferred, statements };
    proof {
        assert forall|db: Db, now: int| db.wf() implies #[trigger] plan.apply(db, now)
            == without_keys(db, t, device_id as int, list) by {
            let after = plan.apply(db, now);
            let goal = without_keys(db, t, device_id as int, list);
            assert forall|k: Key| #[trigger]
                after.rows.contains_key(k) <==> goal.rows.contains_key(k) by {
                if db.rows.contains_key(k) && k.table == t {
                    assert(key_of(t, db.rows[k]) == k);
                    assert(db.rows[k][pos(t, x)] == k.a);
                    if list.contains(k.a) {
                        let i = choose|i: int| 0 <= i < list.len() && list[i] == k.a;
                        assert(!(list[i] is Null));
                    }
                }
            }
            assert(after.rows =~= goal.rows);
        }
    }
    plan
}

// ---------------------------------------------------------------------------------------
// Queries for many rows

/// Some query of the list selects the row.
pub open spec fn any_holds(qs: Seq<Query>, t: Table, row: Seq<Val>) -> bool {
    exists|i: int| 0 <= i < qs.len() && holds((#[trigger] qs[i]).filter, t, row)
}

/// Each query asks for these columns of all rows it selects, in no order.
pub open spec fn each_asks(qs: Seq<Query>, t: Table, cs: Seq<Column>) -> bool {
    forall|i: int|
        0 <= i < qs.len() ==> {
            let q = #[trigger] qs[i];
            &&& query_sound(q)
            &&& q.table == t
            &&& q.want matches Want::Columns(c) && c@ == cs
            &&& q.order is Unordered
            &&& !q.first
        }
}

/// A list in parts of `size` values, the last of which may be shorter.
pub open spec fn parts_of(list: Seq<Val>, size: nat) -> Seq<Seq<Val>>
    decreases list.len(),
{
    if list.len() == 0 || size == 0 {
        seq![]
    } else if list.len() <= size {
        seq![list]
    } else {
        seq![list.take(size as int)] + parts_of(list.skip(size as int), size)
    }
}

/// The queries ask for these columns of an account's rows with one of the listed values in a
/// column, one query for each part of the list. Together they select the rows that the whole
/// list does.
pub open spec fn asks_for_listed(
    qs: Seq<Query>,
    t: Table,
    cs: Seq<Column>,
    fixed: Option<(Column, Seq<char>)>,
    column: Column,
    list: Seq<Val>,
    size: nat,
    device_id: int,
) -> bool {
    let parts = parts_of(list, size);
    &&& each_asks(qs, t, cs)
    &&& qs.len() == parts.len()
    &&& forall|i: int, row: Seq<Val>|
        0 <= i < qs.len() ==> #[trigger] holds(qs[i].filter, t, row) == listed(
            t,
            fixed,
            column,
            parts[i],
            device_id,
            row,
        )
    &&& forall|row: Seq<Val>| #[trigger]
        any_holds(qs, t, row) == listed(t, fixed, column, list, device_id, row)
    &&& list.len() == 0 <==> qs.len() == 0
}

/// A copy of a list of columns.
fn copied_columns(cs: &Vec<Column>) -> (copy: Vec<Column>)
    ensures
        copy@ == cs@,
{
    let mut copy: Vec<Column> = Vec::new();
    let mut i: usize = 0;
    while i < cs.len()
        invariant
            i <= cs@.len(),
            copy@ == cs@.take(i as int),
        decreases cs.len() - i,
    {
        copy.push(cs[i]);
        assert(cs@.take(i + 1) =~= cs@.take(i as int).push(cs@[i as int]));
        i = i + 1;
    }
    assert(cs@.take(i as int) =~= cs@);
    copy
}

/// Queries for an account's rows with one of many values in a column, at most `size` values to
/// a query. Without values there is nothing to ask.
pub fn query_in_chunks(
    t: Table,
    fixed: Option<(Column, &str)>,
    cs: Vec<Column>,
    column: Column,
    wanted: Vec<Value>,
    device_id: i32,
    size: usize,
) -> (qs: Vec<Query>)
    requires
        pos(t, Column::DeviceId) >= 0,
        pos(t, column) >= 0,
        fixed matches Some((c, _)) ==> pos(t, c) >= 0,
        cs@.len() > 0,
        forall|i: int| 0 <= i < cs@.len() ==> pos(t, #[trigger] cs@[i]) >= 0,
        0 < size,
        size + 2 <= PARAMETER_LIMIT,
    ensures
        asks_for_listed(
            qs@,
            t,
            cs@,
            fixed_view(fixed),
            column,
            values(wanted@),
            size as nat,
            device_id as int,
        ),
{
    let ghost all = wanted@;
    let ghost f = fixed_view(fixed);
    let ghost d = device_id as int;
    let mut rest = wanted;
    let mut qs: Vec<Query> = Vec::new();
    let ghost mut done: int = 0;
    let ghost mut parts: Seq<Seq<Val>> = seq![];
    assert(parts + parts_of(values(all), size as nat) =~= parts_of(values(all), size as nat));
    assert(all.skip(0) =~= all);
    while rest.len() > 0
        invariant
            pos(t, Column::DeviceId) >= 0,
            pos(t, column) >= 0,
            fixed matches Some((c, _)) ==> pos(t, c) >= 0,
            cs@.len() > 0,
            forall|i: int| 0 <= i < cs@.len() ==> pos(t, #[trigger] cs@[i]) >= 0,
            f == fixed_view(fixed),
            d == device_id,
            0 < size,
            size + 2 <= PARAMETER_LIMIT,
            0 <= done <= all.len(),
            rest@ == all.skip(done),
            each_asks(qs@, t, cs@),
            forall|row: Seq<Val>| #[trigger]
                any_holds(qs@, t, row) == listed(t, f, column, values(all.take(done)), d, row),
            done > 0 <==> qs@.len() > 0,
            parts.len() == qs@.len(),
            parts + parts_of(values(rest@), size as nat) == parts_of(values(all), size as nat),
            forall|i: int, row: Seq<Val>|
                0 <= i < qs@.len() ==> #[trigger] holds(qs@[i].filter, t, row) == listed(
                    t,
                    f,
                    column,
                    parts[i],
                    d,
                    row,
                ),
        decreases rest.len(),
    {
        let ghost left = values(rest@);
        let mut chunk = rest;
        if chunk.len() > size {
            rest = chunk.split_off(size);
        } else {
            rest = Vec::new();
        }
        let ghost n = chunk@.len() as int;
        assert(chunk@ =~= all.subrange(done, done + n));
        assert(rest@ =~= all.skip(done + n));
        let ghost part = values(chunk@);
        let filter = listed_test(t, fixed, column, chunk, device_id);
        let q = Query {
            table: t,
            want: Want::Columns(copied_columns(&cs)),
            filter,
            order: Order::Unordered,
            first: false,
        };
        let ghost before = qs@;
        let ghost earlier = parts;
        qs.push(q);
        proof {
            if n < left.len() {
                assert(left.take(size as int) =~= part);
                assert(left.skip(size as int) =~= values(rest@));
            } else {
                assert(left =~= part);
                assert(values(rest@) =~= seq![]);
            }
            parts = earlier.push(part);
            assert(parts + parts_of(values(rest@), size as nat) =~= earlier + parts_of(
                left,
                size as nat,
            ));
            assert forall|i: int, row: Seq<Val>| 0 <= i < qs@.len() implies #[trigger] holds(
                qs@[i].filter,
                t,
                row,
            ) == listed(t, f, column, parts[i], d, row) by {
                if i < before.len() {
                    assert(holds(before[i].filter, t, row) == listed(
                        t,
                        f,
                        column,
                        earlier[i],
                        d,
                        row,
                    ));
                }
            }
            let first = values(all.take(done));
            let joined = values(all.take(done + n));
            assert(joined =~= first + part);
            assert forall|row: Seq<Val>| #[trigger] any_holds(qs@, t, row) == listed(
                t,
                f,
                column,
                joined,
                d,
                row,
            ) by {
                lemma_concat_contains(first, part, row[pos(t, column)]);
                assert(any_holds(qs@, t, row) <==> any_holds(before, t, row) || holds(
                    filter,
                    t,
                    row,
                )) by {
                    if any_holds(before, t, row) {
                        let i = choose|i: int|
                            0 <= i < before.len() && holds((#[trigger] before[i]).filter, t, row);
                        assert(holds(qs@[i].filter, t, row));
                    }
                    if holds(filter, t, row) {
                        assert(holds(qs@[qs@.len() - 1].filter, t, row));
                    }
                    if any_holds(qs@, t, row) {
                        let i = choose|i: int|
                            0 <= i < qs@.len() && holds((#[trigger] qs@[i]).filter, t, row);
                        if i < before.len() {
                            assert(holds(before[i].filter, t, row));
                        }
                    }
                }
            }
            done = done + n;
        }
    }
    assert(all.take(done) =~= all);
    assert(parts + parts_of(values(rest@), size as nat) =~= parts);
    qs
}

} // verus!
