//! What the database holds, and what statements and queries mean on it.

use crate::pattern::like;
use crate::schema::{columns, key_of, pos, Column, Key, Table};
use crate::sql::{Assignment, Cond, Expr, Order, Query, Statement, Want};
use crate::value::{larger, sorts_below, values, Val, Value};
use vstd::prelude::*;

verus! {

/// The contents of the database: the rows by their keys, and the largest account id that was
/// ever in use, above which the next id is chosen.
#[verifier::ext_equal]
pub struct Db {
    pub rows: Map<Key, Seq<Val>>,
    pub last_id: int,
}

/// The key of an account's own row.
pub open spec fn device_key(id: int) -> Key {
    Key {
        table: Table::Device,
        device: Val::Int(id),
        a: Val::Null,
        b: Val::Null,
        c: Val::Null,
    }
}

/// An account id as a number; zero where the value is none.
pub open spec fn id_of(v: Val) -> int {
    match v {
        Val::Int(n) => n,
        _ => 0,
    }
}

pub open spec fn max(a: int, b: int) -> int {
    if a < b {
        b
    } else {
        a
    }
}

impl Db {
    /// Every row has its table's columns and stands under its own key, there are finitely
    /// many rows, and no account id in use exceeds the largest one on record.
    pub open spec fn wf(self) -> bool {
        &&& self.rows.dom().finite()
        &&& forall|k: Key| #[trigger]
            self.rows.contains_key(k) ==> row_wf(k.table, self.rows[k]) && key_of(
                k.table,
                self.rows[k],
            ) == k
        &&& forall|k: Key| #[trigger]
            self.rows.contains_key(k) && k.table == Table::Device ==> id_of(k.device)
                <= self.last_id
    }

    /// The row under a key.
    pub open spec fn get(self, k: Key) -> Option<Seq<Val>> {
        if self.rows.contains_key(k) {
            Some(self.rows[k])
        } else {
            None
        }
    }

    /// One column of the row under a key.
    pub open spec fn column(self, k: Key, c: Column) -> Option<Val> {
        if self.rows.contains_key(k) {
            Some(self.rows[k][pos(k.table, c)])
        } else {
            None
        }
    }

    /// The database with `row` under its key.
    pub open spec fn put(self, t: Table, row: Seq<Val>) -> Db {
        Db {
            rows: self.rows.insert(key_of(t, row), row),
            last_id: if t == Table::Device {
                max(self.last_id, id_of(row[0]))
            } else {
                self.last_id
            },
        }
    }

    /// The database after putting each row in turn, so that of two rows with one key the
    /// later stays.
    pub open spec fn put_all(self, t: Table, rows: Seq<Seq<Val>>) -> Db
        decreases rows.len(),
    {
        if rows.len() == 0 {
            self
        } else {
            self.put_all(t, rows.drop_last()).put(t, rows.last())
        }
    }

    /// The database without the row under a key.
    pub open spec fn remove(self, k: Key) -> Db {
        Db { rows: self.rows.remove(k), last_id: self.last_id }
    }

    /// The database without the rows for which `gone` holds.
    pub open spec fn without(self, gone: spec_fn(Key, Seq<Val>) -> bool) -> Db {
        Db {
            rows: Map::new(
                |k: Key| self.rows.contains_key(k) && !gone(k, self.rows[k]),
                |k: Key| self.rows[k],
            ),
            last_id: self.last_id,
        }
    }

    /// The keys of the rows for which `wanted` holds.
    pub open spec fn hit(self, wanted: spec_fn(Key, Seq<Val>) -> bool) -> Set<Key> {
        self.rows.dom().filter(|k: Key| wanted(k, self.rows[k]))
    }

    /// The keys of a table's rows for which `wanted` holds.
    pub open spec fn matching(self, t: Table, wanted: spec_fn(Seq<Val>) -> bool) -> Set<Key> {
        self.rows.dom().filter(|k: Key| k.table == t && wanted(self.rows[k]))
    }
}

/// A row has as many values as its table has columns.
pub open spec fn row_wf(t: Table, row: Seq<Val>) -> bool {
    row.len() == columns(t).len()
}

/// A row from the values a statement supplies: the database adds the time of the insert.
pub open spec fn completed(t: Table, supplied_values: Seq<Val>, now: int) -> Seq<Val> {
    match t {
        Table::PendingInboundMessages | Table::SentMessages => supplied_values.push(Val::Int(now)),
        _ => supplied_values,
    }
}

/// The value of an expression, given the row before the statement and the row whose insert
/// conflicted with it.
pub open spec fn eval(e: Expr, t: Table, old_row: Seq<Val>, new_row: Seq<Val>) -> Val
    decreases e,
{
    match e {
        Expr::Bound(v) => v@,
        Expr::Stored(c) => old_row[pos(t, c)],
        Expr::Excluded(c) => new_row[pos(t, c)],
        Expr::Larger(a, b) => larger(eval(*a, t, old_row, new_row), eval(*b, t, old_row, new_row)),
        Expr::Coalesce(a, b) => if eval(*a, t, old_row, new_row) is Null {
            eval(*b, t, old_row, new_row)
        } else {
            eval(*a, t, old_row, new_row)
        },
        Expr::ZeroIfEither(a, b, other) => if eval(*a, t, old_row, new_row) == Val::Int(0) || eval(
            *b,
            t,
            old_row,
            new_row,
        ) == Val::Int(0) {
            Val::Int(0)
        } else {
            eval(*other, t, old_row, new_row)
        },
    }
}

/// The row after assignments whose right-hand sides all read `old_row` and `new_row`.
pub open spec fn assigned(
    t: Table,
    set: Seq<Assignment>,
    old_row: Seq<Val>,
    new_row: Seq<Val>,
) -> Seq<Val>
    decreases set.len(),
{
    if set.len() == 0 {
        old_row
    } else {
        assigned(t, set.drop_last(), old_row, new_row).update(
            pos(t, set.last().column),
            eval(set.last().value, t, old_row, new_row),
        )
    }
}

/// Whether a row passes a test.
pub open spec fn holds(c: Cond, t: Table, row: Seq<Val>) -> bool
    decreases c,
{
    match c {
        Cond::Always => true,
        Cond::Equals(c, v) => !(v@ is Null) && row[pos(t, c)] == v@,
        Cond::Differs(c, v) => !(v@ is Null) && !(row[pos(t, c)] is Null) && row[pos(t, c)] != v@,
        Cond::Below(c, v) => !(v@ is Null) && !(row[pos(t, c)] is Null) && sorts_below(
            row[pos(t, c)],
            v@,
        ),
        Cond::AtMost(c, v) => !(v@ is Null) && !(row[pos(t, c)] is Null) && !sorts_below(
            v@,
            row[pos(t, c)],
        ),
        Cond::IsNull(c) => row[pos(t, c)] is Null,
        Cond::OneOf(c, list) => !(row[pos(t, c)] is Null) && values(list@).contains(
            row[pos(t, c)],
        ),
        Cond::Like(c, pattern) => like(pattern@, row[pos(t, c)]),
        Cond::Both(a, b) => holds(*a, t, row) && holds(*b, t, row),
        Cond::Either(a, b) => holds(*a, t, row) || holds(*b, t, row),
    }
}

/// The database after one row of an upsert.
pub open spec fn upsert_row(db: Db, t: Table, new_row: Seq<Val>, set: Seq<Assignment>) -> Db {
    let k = key_of(t, new_row);
    if db.rows.contains_key(k) {
        Db { rows: db.rows.insert(k, assigned(t, set, db.rows[k], new_row)), last_id: db.last_id }
    } else {
        db.put(t, new_row)
    }
}

/// The database after the rows of an upsert, taken in order.
pub open spec fn upsert_rows(
    db: Db,
    t: Table,
    rows: Seq<Vec<Value>>,
    set: Seq<Assignment>,
    now: int,
) -> Db
    decreases rows.len(),
{
    if rows.len() == 0 {
        db
    } else {
        upsert_row(
            upsert_rows(db, t, rows.drop_last(), set, now),
            t,
            completed(t, values(rows.last()@), now),
            set,
        )
    }
}

/// Whether deleting the rows of `t` that pass the test removes the row under `k`: it is one
/// of them, or it hangs by its foreign key on an account whose row is.
pub open spec fn doomed(db: Db, t: Table, filter: Cond, k: Key) -> bool {
    ||| k.table == t && holds(filter, t, db.rows[k])
    ||| t == Table::Device && k.table == Table::LidPnMapping && {
        let owner = Key { table: Table::Device, device: k.device, a: Val::Null, b: Val::Null, c: Val::Null };
        db.rows.contains_key(owner) && holds(filter, Table::Device, db.rows[owner])
    }
}

/// Whether the account that a row hangs on is stored. Only mappings hang on an account.
pub open spec fn anchored(db: Db, t: Table, row: Seq<Val>) -> bool {
    t == Table::LidPnMapping ==> db.rows.contains_key(
        Key {
            table: Table::Device,
            device: key_of(t, row).device,
            a: Val::Null,
            b: Val::Null,
            c: Val::Null,
        },
    )
}

/// Whether the database takes a statement. It refuses a plain insert under a key that is
/// taken, and a row whose account is not stored where it must be. What the contents do not
/// decide is left out: a lock, a full disk, a supply of ids that is used up.
pub open spec fn takes(s: Statement, db: Db, now: int) -> bool {
    match s {
        Statement::Upsert { table, rows, set } => forall|i: int|
            0 <= i < rows@.len() ==> anchored(
                db,
                table,
                completed(table, values((#[trigger] rows@[i])@), now),
            ),
        Statement::Insert { table, row } => {
            let whole = completed(table, values(row@), now);
            !db.rows.contains_key(key_of(table, whole)) && anchored(db, table, whole)
        },
        Statement::Replace { table, row } => anchored(
            db,
            table,
            completed(table, values(row@), now),
        ),
        _ => true,
    }
}

/// Whether a statement is taken by every database, whatever it holds.
pub open spec fn never_refused(s: Statement) -> bool {
    forall|db: Db, now: int| #[trigger] takes(s, db, now)
}

/// Every statement of a list is taken by every database, whatever it holds.
pub open spec fn always_taken(list: Seq<Statement>) -> bool {
    forall|i: int, db: Db, now: int|
        0 <= i < list.len() ==> #[trigger] takes(list[i], db, now)
}

/// What a statement does to a database that takes it, at time `now`.
pub open spec fn effect(s: Statement, db: Db, now: int) -> Db {
    match s {
        Statement::Upsert { table, rows, set } => upsert_rows(db, table, rows@, set@, now),
        Statement::Insert { table, row } => db.put(table, completed(table, values(row@), now)),
        Statement::InsertNumbered { row } => db.put(
            Table::Device,
            seq![Val::Int(db.last_id + 1)] + values(row@),
        ),
        Statement::Replace { table, row } => db.put(table, completed(table, values(row@), now)),
        Statement::Delete { table, filter } => db.without(
            |k: Key, row: Seq<Val>| doomed(db, table, filter, k),
        ),
        Statement::Update { table, set, filter } => Db {
            rows: Map::new(
                |k: Key| db.rows.contains_key(k),
                |k: Key|
                    if k.table == table && holds(filter, table, db.rows[k]) {
                        assigned(table, set@, db.rows[k], db.rows[k])
                    } else {
                        db.rows[k]
                    },
            ),
            last_id: db.last_id,
        },
    }
}

/// What a statement leaves behind, at time `now`. One that is refused leaves the database as it
/// was.
pub open spec fn apply(s: Statement, db: Db, now: int) -> Db {
    if takes(s, db, now) {
        effect(s, db, now)
    } else {
        db
    }
}

/// What statements leave behind, run one after the other.
pub open spec fn apply_all(list: Seq<Statement>, db: Db, now: int) -> Db
    decreases list.len(),
{
    if list.len() == 0 {
        db
    } else {
        apply(list.last(), apply_all(list.drop_last(), db, now), now)
    }
}

/// Whether the database takes statements, each as the ones before it leave the database.
pub open spec fn takes_all(list: Seq<Statement>, db: Db, now: int) -> bool
    decreases list.len(),
{
    list.len() == 0 || (takes_all(list.drop_last(), db, now) && takes(
        list.last(),
        apply_all(list.drop_last(), db, now),
        now,
    ))
}

/// Statements that are taken by every database are taken one after the other.
pub broadcast proof fn lemma_takes_all(list: Seq<Statement>, db: Db, now: int)
    requires
        always_taken(list),
    ensures
        #[trigger] takes_all(list, db, now),
    decreases list.len(),
{
    if list.len() > 0 {
        let front = list.drop_last();
        assert forall|i: int, d: Db, at: int| 0 <= i < front.len() implies #[trigger] takes(
            front[i],
            d,
            at,
        ) by {
            assert(takes(list[i], d, at));
        }
        lemma_takes_all(front, db, now);
        assert(takes(list[list.len() - 1], apply_all(front, db, now), now));
    }
}

/// How many rows a statement that is taken inserts, changes or deletes.
pub open spec fn affected(s: Statement, db: Db) -> nat {
    match s {
        Statement::Upsert { table, rows, set } => rows@.len(),
        Statement::Insert { table, row } => 1,
        Statement::InsertNumbered { row } => 1,
        Statement::Replace { table, row } => 1,
        Statement::Delete { table, filter } => db.matching(
            table,
            |row: Seq<Val>| holds(filter, table, row),
        ).len(),
        Statement::Update { table, set, filter } => db.matching(
            table,
            |row: Seq<Val>| holds(filter, table, row),
        ).len(),
    }
}

/// Whether a query selects the row under a key.
pub open spec fn selected(q: Query, db: Db, k: Key) -> bool {
    db.rows.contains_key(k) && k.table == q.table && holds(q.filter, q.table, db.rows[k])
}

/// Whether a query hands out the first row before the second.
pub open spec fn comes_before(q: Query, a: Seq<Val>, b: Seq<Val>) -> bool {
    match q.order {
        Order::Unordered => false,
        Order::Ascending(c) => sorts_below(a[pos(q.table, c)], b[pos(q.table, c)]),
        Order::Descending(c) => sorts_below(b[pos(q.table, c)], a[pos(q.table, c)]),
    }
}

/// Whether `ks` lists the rows that a query hands out, in an order it allows.
pub open spec fn lists(q: Query, db: Db, ks: Seq<Key>) -> bool {
    &&& ks.no_duplicates()
    &&& forall|i: int| 0 <= i < ks.len() ==> selected(q, db, #[trigger] ks[i])
    &&& forall|i: int, j: int|
        0 <= i < j < ks.len() ==> !comes_before(q, db.rows[#[trigger] ks[j]], db.rows[#[trigger] ks[i]])
    &&& if q.first {
        &&& ks.len() <= 1
        &&& forall|k: Key| #[trigger]
            selected(q, db, k) ==> ks.len() == 1 && !comes_before(q, db.rows[k], db.rows[ks[0]])
    } else {
        forall|k: Key| #[trigger] selected(q, db, k) ==> ks.contains(k)
    }
}

/// The wanted columns of a row.
pub open spec fn projected(t: Table, cs: Seq<Column>, row: Seq<Val>) -> Seq<Val> {
    cs.map_values(|c: Column| row[pos(t, c)])
}

/// Whether `out` is an answer that a query can give.
pub open spec fn answers(q: Query, db: Db, out: Seq<Seq<Val>>) -> bool {
    match q.want {
        Want::Columns(cs) => exists|ks: Seq<Key>| #[trigger]
            lists(q, db, ks) && out == ks.map_values(
                |k: Key| projected(q.table, cs@, db.rows[k]),
            ),
        Want::Count => out == seq![
            seq![
                Val::Int(
                    db.matching(q.table, |row: Seq<Val>| holds(q.filter, q.table, row)).len() as int,
                ),
            ],
        ],
        Want::Largest(c) => out.len() == 1 && out[0].len() == 1 && largest(q, db, c, out[0][0]),
        Want::Exists => out == seq![
            seq![crate::value::flag(exists|k: Key| #[trigger] selected(q, db, k))],
        ],
    }
}

/// Whether `v` is the largest value of a column among the selected rows; `NULL` where no row
/// is selected or all hold `NULL`.
pub open spec fn largest(q: Query, db: Db, c: Column, v: Val) -> bool {
    &&& forall|k: Key| #[trigger]
        selected(q, db, k) && !(db.rows[k][pos(q.table, c)] is Null) ==> !(v is Null)
            && !sorts_below(v, db.rows[k][pos(q.table, c)])
    &&& !(v is Null) ==> exists|k: Key| #[trigger]
        selected(q, db, k) && db.rows[k][pos(q.table, c)] == v
}

} // verus!
