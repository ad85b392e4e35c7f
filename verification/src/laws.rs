//! What holds of the store as a whole.

use crate::cast::as_text;
use crate::device::{account_row, without_account, DeviceView};
use crate::effects::{
    any_holds, asks, asks_for_listed, lemma_merge_wf, lemma_put_wf, lemma_without_wf, listed,
    reads_row, row_answer,
};
use crate::load::{listable, lists_account, AccountRow};
use crate::merge::{fits, merged, Merge};
use crate::model::{
    affected, answers, apply, assigned, comes_before, completed, device_key, doomed, holds, id_of,
    lists, projected, row_wf, selected, upsert_row, upsert_rows, Db,
};
use crate::plan::{set_wf, statement_wf, ReadPlan, WritePlan};
use crate::schema::{key_columns, key_of, lemma_positions, pos, supplied, Column, Key, Table};
use crate::rows::int_at;
use crate::sql::{Assignment, Order, Query, Statement};
use crate::value::{flag, values, Val, Value};
use vstd::prelude::*;

verus! {

// ---------------------------------------------------------------------------------------
// Reading what was written

/// A read gives back what was written: after a row was put, a query for it comes back with its
/// values and nothing else.
pub proof fn law_reads_give_back_writes(
    db: Db,
    t: Table,
    row: Seq<Val>,
    q: Query,
    cs: Seq<Column>,
    out: Seq<Seq<Val>>,
)
    requires
        db.wf(),
        row_wf(t, row),
        reads_row(q, key_of(t, row), cs),
        answers(q, db.put(t, row), out),
    ensures
        out == seq![projected(t, cs, row)],
{
    lemma_put_wf(db, t, row);
    assert(out == row_answer(db.put(t, row), key_of(t, row), cs));
}

/// What was deleted is not read any more.
pub proof fn law_deleted_rows_are_not_read(
    db: Db,
    k: Key,
    q: Query,
    cs: Seq<Column>,
    out: Seq<Seq<Val>>,
)
    requires
        db.wf(),
        reads_row(q, k, cs),
        answers(q, db.remove(k), out),
    ensures
        out.len() == 0,
{
    lemma_without_wf(db, |j: Key, row: Seq<Val>| j == k);
    assert(db.remove(k) =~= db.without(|j: Key, row: Seq<Val>| j == k));
    assert(out == row_answer(db.remove(k), k, cs));
}

/// A write to one row leaves what is read of any other.
pub proof fn law_writes_leave_other_rows(db: Db, t: Table, row: Seq<Val>, k: Key)
    requires
        k != key_of(t, row),
    ensures
        db.put(t, row).get(k) == db.get(k),
{
}

/// A read that follows a write of its row gives back what was written, whatever the database
/// held before.
pub proof fn law_read_plans_give_back_write_plans(
    write: WritePlan,
    read: ReadPlan,
    t: Table,
    row: Seq<Val>,
    cs: Seq<Column>,
    db: Db,
    now: int,
    out: Seq<Seq<Val>>,
)
    requires
        db.wf(),
        row_wf(t, row),
        write.leaves(|d: Db, at: int| d.put(t, row)),
        read.reads(key_of(t, row), cs),
        answers(read.queries@[0], write.apply(db, now), out),
    ensures
        out == seq![projected(t, cs, row)],
{
    law_reads_give_back_writes(db, t, row, read.queries@[0], cs, out);
}

/// A read that follows the deletion of its row finds nothing.
pub proof fn law_read_plans_miss_what_was_deleted(
    delete: WritePlan,
    read: ReadPlan,
    k: Key,
    cs: Seq<Column>,
    db: Db,
    now: int,
    out: Seq<Seq<Val>>,
)
    requires
        db.wf(),
        delete.leaves(|d: Db, at: int| d.remove(k)),
        read.reads(k, cs),
        answers(read.queries@[0], delete.apply(db, now), out),
    ensures
        out.len() == 0,
{
    law_deleted_rows_are_not_read(db, k, read.queries@[0], cs, out);
}

/// A read of another row than the one that was written comes back as if nothing had been
/// written.
pub proof fn law_read_plans_of_other_rows_are_unmoved(
    write: WritePlan,
    read: ReadPlan,
    t: Table,
    row: Seq<Val>,
    k: Key,
    cs: Seq<Column>,
    db: Db,
    now: int,
    before: Seq<Seq<Val>>,
    after: Seq<Seq<Val>>,
)
    requires
        db.wf(),
        row_wf(t, row),
        k != key_of(t, row),
        write.leaves(|d: Db, at: int| d.put(t, row)),
        read.reads(k, cs),
        answers(read.queries@[0], db, before),
        answers(read.queries@[0], write.apply(db, now), after),
    ensures
        after == before,
{
    lemma_put_wf(db, t, row);
    law_writes_leave_other_rows(db, t, row, k);
    assert(before == row_answer(db, k, cs));
    assert(after == row_answer(db.put(t, row), k, cs));
}

/// The last row with a key in a list.
pub open spec fn last_with_key(t: Table, rows: Seq<Seq<Val>>, k: Key) -> Option<Seq<Val>>
    decreases rows.len(),
{
    if rows.len() == 0 {
        None
    } else if key_of(t, rows.last()) == k {
        Some(rows.last())
    } else {
        last_with_key(t, rows.drop_last(), k)
    }
}

/// Of the rows in a batch the last one with a key stays, and a key that is not in the batch is
/// left alone.
pub proof fn law_last_of_a_batch_stays(db: Db, t: Table, rows: Seq<Seq<Val>>, k: Key)
    ensures
        db.put_all(t, rows).get(k) == (match last_with_key(t, rows, k) {
            Some(row) => Some(row),
            None => db.get(k),
        }),
    decreases rows.len(),
{
    if rows.len() > 0 {
        law_last_of_a_batch_stays(db, t, rows.drop_last(), k);
    }
}

/// The row under a key is one of an account's listed rows, and this is what is asked of it.
pub open spec fn is_listed_row(
    db: Db,
    k: Key,
    t: Table,
    cs: Seq<Column>,
    fixed: Option<(Column, Seq<char>)>,
    column: Column,
    list: Seq<Val>,
    device_id: int,
    part: Seq<Val>,
) -> bool {
    &&& db.rows.contains_key(k) && k.table == t
    &&& listed(t, fixed, column, list, device_id, db.rows[k])
    &&& part == projected(t, cs, db.rows[k])
}

/// There is a listed row of which this is asked.
pub open spec fn comes_from_list(
    db: Db,
    t: Table,
    cs: Seq<Column>,
    fixed: Option<(Column, Seq<char>)>,
    column: Column,
    list: Seq<Val>,
    device_id: int,
    part: Seq<Val>,
) -> bool {
    exists|k: Key| #[trigger]
        is_listed_row(db, k, t, cs, fixed, column, list, device_id, part)
}

/// A batched read comes back with every row that is asked for and with no other: what is listed
/// and stored is in an answer, and what is in an answer is stored and listed. What is listed but
/// not stored is passed over.
pub proof fn law_batched_reads_find_the_listed_rows(
    qs: Seq<Query>,
    t: Table,
    cs: Seq<Column>,
    fixed: Option<(Column, Seq<char>)>,
    column: Column,
    list: Seq<Val>,
    size: nat,
    device_id: int,
    db: Db,
    outs: Seq<Seq<Seq<Val>>>,
)
    requires
        db.wf(),
        asks_for_listed(qs, t, cs, fixed, column, list, size, device_id),
        outs.len() == qs.len(),
        forall|i: int| 0 <= i < qs.len() ==> answers(#[trigger] qs[i], db, outs[i]),
    ensures
        forall|k: Key|
            #![trigger db.rows[k]]
            db.rows.contains_key(k) && k.table == t && listed(
                t,
                fixed,
                column,
                list,
                device_id,
                db.rows[k],
            ) ==> exists|i: int|
                0 <= i < outs.len() && (#[trigger] outs[i]).contains(projected(t, cs, db.rows[k])),
        forall|i: int, j: int|
            0 <= i < outs.len() && 0 <= j < outs[i].len() ==> comes_from_list(
                db,
                t,
                cs,
                fixed,
                column,
                list,
                device_id,
                #[trigger] outs[i][j],
            ),
{
    assert forall|k: Key|
        #![trigger db.rows[k]]
        db.rows.contains_key(k) && k.table == t && listed(
            t,
            fixed,
            column,
            list,
            device_id,
            db.rows[k],
        ) implies exists|i: int|
        0 <= i < outs.len() && (#[trigger] outs[i]).contains(projected(t, cs, db.rows[k])) by {
        let row = db.rows[k];
        assert(any_holds(qs, t, row));
        let i = choose|i: int| 0 <= i < qs.len() && holds((#[trigger] qs[i]).filter, t, row);
        let q = qs[i];
        assert(answers(q, db, outs[i]));
        let ks = choose|ks: Seq<Key>| #[trigger]
            lists(q, db, ks) && outs[i] == ks.map_values(
                |k: Key| projected(q.table, q.want->Columns_0@, db.rows[k]),
            );
        assert(selected(q, db, k));
        assert(ks.contains(k));
        let n = choose|n: int| 0 <= n < ks.len() && ks[n] == k;
        assert(outs[i][n] == projected(t, cs, row));
        assert(outs[i].contains(projected(t, cs, row)));
    }
    assert forall|i: int, j: int|
        0 <= i < outs.len() && 0 <= j < outs[i].len() implies comes_from_list(
        db,
        t,
        cs,
        fixed,
        column,
        list,
        device_id,
        #[trigger] outs[i][j],
    ) by {
        let q = qs[i];
        assert(answers(q, db, outs[i]));
        let ks = choose|ks: Seq<Key>| #[trigger]
            lists(q, db, ks) && outs[i] == ks.map_values(
                |k: Key| projected(q.table, q.want->Columns_0@, db.rows[k]),
            );
        let k = ks[j];
        assert(selected(q, db, k));
        let row = db.rows[k];
        assert(holds(qs[i].filter, t, row));
        assert(any_holds(qs, t, row));
        assert(is_listed_row(db, k, t, cs, fixed, column, list, device_id, outs[i][j]));
    }
}

// ---------------------------------------------------------------------------------------
// The list of accounts

/// What the table of accounts promises of its rows: the id is a number, here one of 32 bits,
/// and the identities and the name are texts.
pub open spec fn accounts_fit(db: Db) -> bool {
    forall|k: Key| #[trigger]
        db.rows.contains_key(k) && k.table == Table::Device ==> {
            &&& k.device matches Val::Int(id) && i32::MIN <= id <= i32::MAX
            &&& as_text(db.rows[k][pos(Table::Device, Column::Pn)]) is Some
            &&& as_text(db.rows[k][pos(Table::Device, Column::Lid)]) is Some
            &&& as_text(db.rows[k][pos(Table::Device, Column::PushName)]) is Some
        }
}

/// The query for the list of accounts.
pub open spec fn asks_for_accounts(q: Query) -> bool {
    asks(
        q,
        Table::Device,
        seq![Column::Id, Column::Pn, Column::Lid, Column::PushName],
        |row: Seq<Val>| true,
        Order::Ascending(Column::Id),
        false,
    )
}

/// Accounts as the rows of the list give them.
pub open spec fn are_listed(out: Seq<Seq<Val>>, accounts: Seq<AccountRow>) -> bool {
    accounts.len() == out.len() && forall|i: int|
        0 <= i < accounts.len() ==> lists_account(out[i], #[trigger] accounts[i])
}

/// An account is on the list.
pub open spec fn is_on(accounts: Seq<AccountRow>, id: i32) -> bool {
    exists|i: int| 0 <= i < accounts.len() && (#[trigger] accounts[i]).id == id
}

/// The list of accounts can be read, goes up by their ids, names none twice, and names those
/// that are stored and no other, whichever account the handle is bound to.
pub proof fn law_accounts_are_listed_once_and_in_order(
    q: Query,
    db: Db,
    out: Seq<Seq<Val>>,
    accounts: Seq<AccountRow>,
)
    requires
        db.wf(),
        accounts_fit(db),
        asks_for_accounts(q),
        answers(q, db, out),
        are_listed(out, accounts),
    ensures
        forall|i: int| 0 <= i < out.len() ==> listable(#[trigger] out[i]),
        forall|i: int, j: int|
            0 <= i < j < accounts.len() ==> (#[trigger] accounts[i]).id < (#[trigger] accounts[j]).id,
        forall|id: i32| #[trigger]
            is_on(accounts, id) <==> db.rows.contains_key(device_key(id as int)),
{
    let cs = q.want->Columns_0@;
    let ks = choose|ks: Seq<Key>| #[trigger]
        lists(q, db, ks) && out == ks.map_values(|k: Key| projected(q.table, cs, db.rows[k]));
    assert forall|i: int| 0 <= i < ks.len() implies {
        &&& ks[i] == device_key(accounts[i].id as int)
        &&& db.rows.contains_key(ks[i])
        &&& db.rows[ks[i]][pos(Table::Device, Column::Id)] == Val::Int(accounts[i].id as int)
        &&& listable(#[trigger] out[i])
    } by {
        assert(selected(q, db, ks[i]));
        let k = ks[i];
        assert(key_of(k.table, db.rows[k]) == k);
        assert(out[i] == projected(Table::Device, cs, db.rows[k]));
        assert(lists_account(out[i], accounts[i]));
    }
    assert forall|i: int, j: int| 0 <= i < j < accounts.len() implies (#[trigger] accounts[i]).id
        < (#[trigger] accounts[j]).id by {
        assert(listable(out[i]) && listable(out[j]));
        assert(!comes_before(q, db.rows[ks[j]], db.rows[ks[i]]));
        assert(ks[i] != ks[j]);
    }
    assert forall|id: i32| #[trigger] is_on(accounts, id) <==> db.rows.contains_key(
        device_key(id as int),
    ) by {
        if is_on(accounts, id) {
            let i = choose|i: int| 0 <= i < accounts.len() && (#[trigger] accounts[i]).id == id;
            assert(listable(out[i]));
        }
        if db.rows.contains_key(device_key(id as int)) {
            let k = device_key(id as int);
            assert(selected(q, db, k));
            let i = choose|i: int| 0 <= i < ks.len() && ks[i] == k;
            assert(listable(out[i]));
            assert(accounts[i].id == id);
        }
    }
}

/// The list of accounts and the question for one of them agree: an account is on the list
/// where the count of its rows says that it exists.
pub proof fn law_the_list_and_the_question_agree(
    q: Query,
    count: Query,
    id: i32,
    db: Db,
    out: Seq<Seq<Val>>,
    counted: Seq<Seq<Val>>,
    accounts: Seq<AccountRow>,
)
    requires
        db.wf(),
        accounts_fit(db),
        asks_for_accounts(q),
        answers(q, db, out),
        are_listed(out, accounts),
        forall|d: Db, o: Seq<Seq<Val>>|
            d.wf() && #[trigger] answers(count, d, o) ==> o == seq![
                seq![flag(d.rows.contains_key(device_key(id as int)))],
            ],
        answers(count, db, counted),
    ensures
        counted.len() > 0,
        int_at(counted[0], 0) is Some,
        (int_at(counted[0], 0)->0 > 0) <==> is_on(accounts, id),
{
    law_accounts_are_listed_once_and_in_order(q, db, out, accounts);
    let on = is_on(accounts, id);
    assert(counted[0][0] == flag(on));
}

// ---------------------------------------------------------------------------------------
// Accounts are apart

/// Nothing of the other accounts changes.
pub open spec fn others_unchanged(before: Db, after: Db, device_id: int) -> bool {
    forall|k: Key|
        k.device != Val::Int(device_id) ==> #[trigger] after.get(k) == before.get(k)
}

/// Rows that belong to an account change nothing of the others, under any merge rule.
pub proof fn law_writes_stay_in_their_account(
    db: Db,
    m: Merge,
    t: Table,
    rows: Seq<Seq<Val>>,
    device_id: int,
)
    requires
        db.wf(),
        fits(m, t),
        forall|i: int|
            0 <= i < rows.len() ==> row_wf(t, #[trigger] rows[i]) && key_of(t, rows[i]).device
                == Val::Int(device_id),
    ensures
        others_unchanged(db, db.merge_all(m, t, rows), device_id),
        db.merge_all(m, t, rows).wf(),
    decreases rows.len(),
{
    if rows.len() > 0 {
        let head = rows.drop_last();
        assert forall|i: int| 0 <= i < head.len() implies row_wf(t, #[trigger] head[i]) && key_of(
            t,
            head[i],
        ).device == Val::Int(device_id) by {
            assert(rows[i] == head[i]);
        }
        law_writes_stay_in_their_account(db, m, t, head, device_id);
        let mid = db.merge_all(m, t, head);
        let row = rows.last();
        assert(rows[rows.len() - 1] == row);
        lemma_merge_wf(mid, m, t, row);
        let k = key_of(t, row);
        if mid.rows.contains_key(k) {
            assert(key_of(k.table, mid.rows[k]) == k);
            lemma_merge_keeps_key(m, t, mid.rows[k], row);
        }
        assert forall|j: Key| j.device != Val::Int(device_id) implies #[trigger] db.merge_all(
            m,
            t,
            rows,
        ).get(j) == db.get(j) by {
            assert(mid.get(j) == db.get(j));
        }
    }
}

proof fn lemma_merge_keeps_key(m: Merge, t: Table, old_row: Seq<Val>, new_row: Seq<Val>)
    requires
        fits(m, t),
        row_wf(t, old_row),
        row_wf(t, new_row),
        key_of(t, old_row) == key_of(t, new_row),
    ensures
        key_of(t, merged(m, old_row, new_row)) == key_of(t, new_row),
{
}

/// Dropping rows of an account changes nothing of the others.
pub proof fn law_deletions_stay_in_their_account(
    db: Db,
    gone: spec_fn(Key, Seq<Val>) -> bool,
    device_id: int,
)
    requires
        forall|k: Key, row: Seq<Val>| #[trigger] gone(k, row) ==> k.device == Val::Int(device_id),
    ensures
        others_unchanged(db, db.without(gone), device_id),
{
}

// ---------------------------------------------------------------------------------------
// The life of an account

/// Nothing of a removed account is left, and everything of the others is.
pub proof fn law_removed_accounts_are_gone(db: Db, id: int)
    requires
        db.wf(),
    ensures
        without_account(db, id).wf(),
        forall|k: Key| #[trigger]
            without_account(db, id).rows.contains_key(k) ==> k.device != Val::Int(id),
        others_unchanged(db, without_account(db, id), id),
        without_account(db, id).last_id == db.last_id,
{
    lemma_without_wf(db, |k: Key, row: Seq<Val>| k.device == Val::Int(id));
}

/// Of an account that was reset its own, new row is left and nothing else; its id is the same,
/// and everything of the others is left.
pub proof fn law_reset_accounts_start_over(db: Db, id: int, d: DeviceView)
    requires
        db.wf(),
        db.rows.contains_key(device_key(id)),
    ensures
        ({
            let after = without_account(db, id).put(Table::Device, account_row(id, d));
            &&& after.wf()
            &&& after.get(device_key(id)) == Some(account_row(id, d))
            &&& forall|k: Key| #[trigger]
                after.rows.contains_key(k) && k.device == Val::Int(id) ==> k == device_key(id)
            &&& others_unchanged(db, after, id)
            &&& after.last_id == db.last_id
        }),
{
    law_removed_accounts_are_gone(db, id);
    let row = account_row(id, d);
    assert(row.len() == 28);
    assert(row[0] == Val::Int(id));
    assert(key_of(Table::Device, row) == device_key(id));
    let purged = without_account(db, id);
    lemma_put_wf(purged, Table::Device, row);
    let after = purged.put(Table::Device, row);
    assert forall|k: Key| k.device != Val::Int(id) implies #[trigger] after.get(k) == db.get(k) by {
        assert(purged.get(k) == db.get(k));
    }
    assert(id_of(device_key(id).device) <= db.last_id);
}

/// A new account gets an id that no account has, and that none had before: it is above the
/// largest id on record, which no statement lowers.
pub proof fn law_ids_are_never_reissued(db: Db, id: int)
    requires
        db.wf(),
        db.rows.contains_key(device_key(id)),
    ensures
        id < db.last_id + 1,
        !db.rows.contains_key(device_key(db.last_id + 1)),
        without_account(db, id).last_id + 1 != id,
{
    assert(id_of(device_key(id).device) <= db.last_id);
    if db.rows.contains_key(device_key(db.last_id + 1)) {
        assert(id_of(device_key(db.last_id + 1).device) <= db.last_id);
    }
}

/// No statement lowers the largest id on record.
pub proof fn law_last_id_never_falls(s: Statement, db: Db, now: int)
    ensures
        apply(s, db, now).last_id >= db.last_id,
{
    match s {
        Statement::Upsert { table, rows, set } => lemma_upserts_raise(
            db,
            table,
            rows@,
            set@,
            now,
        ),
        _ => {},
    }
}

proof fn lemma_upserts_raise(
    db: Db,
    t: Table,
    rows: Seq<Vec<Value>>,
    set: Seq<Assignment>,
    now: int,
)
    ensures
        upsert_rows(db, t, rows, set, now).last_id >= db.last_id,
    decreases rows.len(),
{
    if rows.len() > 0 {
        lemma_upserts_raise(db, t, rows.drop_last(), set, now);
    }
}

// ---------------------------------------------------------------------------------------
// Every statement keeps the database well formed

/// Assignments to columns outside the key keep the key and the columns of a row.
proof fn lemma_assigned_keeps(t: Table, set: Seq<Assignment>, old_row: Seq<Val>, new_row: Seq<Val>)
    requires
        row_wf(t, old_row),
        forall|j: int|
            0 <= j < set.len() ==> pos(t, (#[trigger] set[j]).column) >= 0 && !key_columns(
                t,
            ).contains(set[j].column),
    ensures
        row_wf(t, assigned(t, set, old_row, new_row)),
        key_of(t, assigned(t, set, old_row, new_row)) == key_of(t, old_row),
    decreases set.len(),
{
    if set.len() > 0 {
        let head = set.drop_last();
        assert forall|j: int| 0 <= j < head.len() implies pos(t, (#[trigger] head[j]).column) >= 0
            && !key_columns(t).contains(head[j].column) by {
            assert(set[j] == head[j]);
        }
        lemma_assigned_keeps(t, head, old_row, new_row);
        let c = set.last().column;
        assert(set[set.len() - 1].column == c);
        lemma_positions(t);
        lemma_key_untouched(t, assigned(t, head, old_row, new_row), c, crate::model::eval(
            set.last().value,
            t,
            old_row,
            new_row,
        ));
    }
}

/// Setting a column outside the key keeps the key.
proof fn lemma_key_untouched(t: Table, row: Seq<Val>, c: Column, v: Val)
    requires
        row_wf(t, row),
        pos(t, c) >= 0,
        !key_columns(t).contains(c),
    ensures
        key_of(t, row.update(pos(t, c), v)) == key_of(t, row),
{
    lemma_positions(t);
    let keys = key_columns(t);
    assert(keys.len() > 0 ==> keys.contains(keys[0]));
    assert(keys.len() > 1 ==> keys.contains(keys[1]));
    assert(keys.len() > 2 ==> keys.contains(keys[2]));
    assert(keys.len() > 3 ==> keys.contains(keys[3]));
}

proof fn lemma_upserts_keep_wf(
    db: Db,
    t: Table,
    rows: Seq<Vec<Value>>,
    set: Seq<Assignment>,
    now: int,
)
    requires
        db.wf(),
        forall|i: int| 0 <= i < rows.len() ==> (#[trigger] rows[i])@.len() == supplied(t),
        set_wf(set, t),
    ensures
        upsert_rows(db, t, rows, set, now).wf(),
    decreases rows.len(),
{
    if rows.len() > 0 {
        let head = rows.drop_last();
        assert forall|i: int| 0 <= i < head.len() implies (#[trigger] head[i])@.len() == supplied(
            t,
        ) by {
            assert(rows[i] == head[i]);
        }
        lemma_upserts_keep_wf(db, t, head, set, now);
        let before = upsert_rows(db, t, head, set, now);
        let row = completed(t, values(rows.last()@), now);
        assert(rows[rows.len() - 1]@.len() == supplied(t));
        assert(row_wf(t, row));
        let k = key_of(t, row);
        if before.rows.contains_key(k) {
            let old_row = before.rows[k];
            assert(key_of(k.table, old_row) == k);
            lemma_assigned_keeps(t, set, old_row, row);
            let changed = assigned(t, set, old_row, row);
            lemma_put_wf(before, t, changed);
            assert(before.put(t, changed) =~= upsert_row(before, t, row, set));
        } else {
            lemma_put_wf(before, t, row);
        }
    }
}

/// Every well formed statement keeps the database well formed: rows stay complete and under
/// their own keys.
pub proof fn law_statements_keep_the_database_well_formed(s: Statement, db: Db, now: int)
    requires
        db.wf(),
        statement_wf(s),
    ensures
        apply(s, db, now).wf(),
{
    match s {
        Statement::Upsert { table, rows, set } => lemma_upserts_keep_wf(
            db,
            table,
            rows@,
            set@,
            now,
        ),
        Statement::Insert { table, row } => lemma_put_wf(
            db,
            table,
            completed(table, values(row@), now),
        ),
        Statement::Replace { table, row } => lemma_put_wf(
            db,
            table,
            completed(table, values(row@), now),
        ),
        Statement::InsertNumbered { row } => lemma_put_wf(
            db,
            Table::Device,
            seq![Val::Int(db.last_id + 1)] + values(row@),
        ),
        Statement::Delete { table, filter } => lemma_without_wf(
            db,
            |k: Key, row: Seq<Val>| doomed(db, table, filter, k),
        ),
        Statement::Update { table, set, filter } => {
            let after = apply(s, db, now);
            assert(after.rows.dom() =~= db.rows.dom());
            assert forall|k: Key| #[trigger] after.rows.contains_key(k) implies row_wf(
                k.table,
                after.rows[k],
            ) && key_of(k.table, after.rows[k]) == k by {
                assert(db.rows.contains_key(k));
                if k.table == table && holds(filter, table, db.rows[k]) {
                    lemma_assigned_keeps(table, set@, db.rows[k], db.rows[k]);
                }
            }
            assert forall|k: Key| #[trigger]
                after.rows.contains_key(k) && k.table == Table::Device implies id_of(k.device)
                <= after.last_id by {
                assert(db.rows.contains_key(k));
            }
        },
    }
}

/// The number a deletion reports is the number of rows that it took away.
pub proof fn law_deletions_count_what_they_delete(t: Table, filter: crate::sql::Cond, db: Db, now: int)
    requires
        db.wf(),
        t != Table::Device,
    ensures
        affected(Statement::Delete { table: t, filter }, db) + apply(
            Statement::Delete { table: t, filter },
            db,
            now,
        ).rows.dom().len() == db.rows.dom().len(),
{
    let s = Statement::Delete { table: t, filter };
    let hit = db.matching(t, |row: Seq<Val>| holds(filter, t, row));
    let left = apply(s, db, now).rows.dom();
    let all = db.rows.dom();
    assert(hit.subset_of(all));
    assert(left =~= all.difference(hit));
    vstd::set_lib::lemma_set_disjoint_lens(hit, left);
    assert(hit + left =~= all);
}

} // verus!
