//! Plans: what a store operation asks of the database, and what the rows that come back mean.

use crate::model::{
    affected, always_taken, apply, apply_all, device_key, holds, takes, takes_all, Db,
};
use crate::schema::{key_columns, pos, supplied, Column, Key, Table};
use crate::sql::{
    cond_values, statement_values, Assignment, Cond, Expr, Order, Query, Statement, Want,
};
use crate::value::{Val, Value};
use vstd::prelude::*;

verus! {

/// How a write reaches the database. Either way it waits its turn in the write queue, and its
/// success is reported only once the commit barrier has passed.
#[derive(Clone, Copy, Debug)]
pub enum Lane {
    /// Tried again while the database is busy or locked, under this name.
    Retried(&'static str),
    /// Tried once.
    Once,
}

/// The transaction around a write.
#[derive(Clone, Copy, Debug, PartialEq, Eq, Structural)]
pub enum Guard {
    /// None: a single statement.
    Bare,
    /// One that takes the write lock with its first write.
    Deferred,
    /// One that takes the write lock at its start.
    Immediate,
}

/// A write: statements that take effect together or not at all.
#[derive(Debug)]
pub struct WritePlan {
    pub lane: Lane,
    pub guard: Guard,
    pub statements: Vec<Statement>,
}

/// Where a read runs.
#[derive(Clone, Copy, Debug)]
pub enum Source {
    /// On a reader connection, beside the write queue.
    Reader,
    /// In the write queue, behind every write that was issued before it.
    Queue,
    /// In the write queue, tried again while the database is busy or locked, under this name.
    QueueRetried(&'static str),
}

/// A read: queries answered in order by one connection.
#[derive(Debug)]
pub struct ReadPlan {
    pub source: Source,
    pub queries: Vec<Query>,
}

/// The most values one statement may bind.
pub const PARAMETER_LIMIT: usize = 999;

impl WritePlan {
    /// What the plan leaves behind. It is done as a whole or not at all: where one of its
    /// statements is refused, the others are undone.
    pub open spec fn apply(self, db: Db, now: int) -> Db {
        if takes_all(self.statements@, db, now) {
            apply_all(self.statements@, db, now)
        } else {
            db
        }
    }

    /// The plan does to every database what `f` says.
    pub open spec fn leaves(self, f: spec_fn(Db, int) -> Db) -> bool {
        forall|db: Db, now: int| db.wf() ==> #[trigger] self.apply(db, now) == f(db, now)
    }

    /// The plan is one statement. It deletes the rows for which `p` holds, and the number that
    /// it reports is theirs.
    pub open spec fn sweeps(self, p: spec_fn(Key, Seq<Val>) -> bool) -> bool {
        &&& self.statements@.len() == 1
        &&& self.leaves(|db: Db, now: int| db.without(p))
        &&& forall|db: Db|
            db.wf() ==> #[trigger] affected(self.statements@[0], db) == db.hit(p).len()
    }

    /// Every statement is well formed and binds no more values than the database takes. Where
    /// there are several, a transaction holds them together.
    pub open spec fn sound(self) -> bool {
        &&& forall|i: int| 0 <= i < self.statements@.len() ==> #[trigger] sound(self.statements@[i])
        &&& self.statements@.len() > 1 ==> self.guard != Guard::Bare
    }

    /// Every statement of the plan is taken by every database, whatever it holds.
    pub open spec fn always_taken(self) -> bool {
        always_taken(self.statements@)
    }

    /// Every statement of the plan is taken by the databases that hold the account, and by no
    /// other.
    pub open spec fn needs_account(self, id: int) -> bool {
        forall|i: int, db: Db, now: int|
            0 <= i < self.statements@.len() ==> (#[trigger] takes(self.statements@[i], db, now)
                <==> db.rows.contains_key(device_key(id)))
    }

    /// The plan is retried under this name, in this transaction.
    pub open spec fn retried_as(self, name: Seq<char>, guard: Guard) -> bool {
        self.guard == guard && (self.lane matches Lane::Retried(n) && n@ == name)
    }

    /// The plan is one attempt at one statement.
    pub open spec fn once(self) -> bool {
        self.guard == Guard::Bare && self.lane is Once && self.statements@.len() == 1
    }
}

impl ReadPlan {
    /// The plan is one query, which reads these columns of the row under `k`.
    pub open spec fn reads(self, k: Key, cs: Seq<Column>) -> bool {
        &&& self.queries@.len() == 1
        &&& query_sound(self.queries@[0])
        &&& crate::effects::reads_row(self.queries@[0], k, cs)
    }
}

/// A test names columns of the table only.
pub open spec fn cond_wf(c: Cond, t: Table) -> bool
    decreases c,
{
    match c {
        Cond::Always => true,
        Cond::Equals(c, _)
        | Cond::Differs(c, _)
        | Cond::Below(c, _)
        | Cond::AtMost(c, _)
        | Cond::IsNull(c)
        | Cond::OneOf(c, _)
        | Cond::Like(c, _) => pos(t, c) >= 0,
        Cond::Both(a, b) | Cond::Either(a, b) => cond_wf(*a, t) && cond_wf(*b, t),
    }
}

/// An expression names columns of the table only.
pub open spec fn expr_wf(e: Expr, t: Table) -> bool
    decreases e,
{
    match e {
        Expr::Bound(_) => true,
        Expr::Stored(c) | Expr::Excluded(c) => pos(t, c) >= 0,
        Expr::Larger(a, b) | Expr::Coalesce(a, b) => expr_wf(*a, t) && expr_wf(*b, t),
        Expr::ZeroIfEither(a, b, o) => expr_wf(*a, t) && expr_wf(*b, t) && expr_wf(*o, t),
    }
}

/// Assignments to columns of the table that are not part of its key.
pub open spec fn set_wf(set: Seq<Assignment>, t: Table) -> bool {
    &&& set.len() > 0
    &&& forall|j: int|
        0 <= j < set.len() ==> pos(t, (#[trigger] set[j]).column) >= 0 && !key_columns(t).contains(
            set[j].column,
        ) && expr_wf(set[j].value, t)
}

/// The statement has a value for each column it fills and names columns of its table only.
pub open spec fn statement_wf(s: Statement) -> bool {
    match s {
        Statement::Upsert { table, rows, set } => {
            &&& rows@.len() > 0
            &&& forall|i: int| 0 <= i < rows@.len() ==> (#[trigger] rows@[i])@.len() == supplied(table)
            &&& set_wf(set@, table)
        },
        Statement::Insert { table, row } => row@.len() == supplied(table),
        Statement::InsertNumbered { row } => row@.len() == 27,
        // An account is never replaced as a whole: what hangs on its row would go with it.
        Statement::Replace { table, row } => table != Table::Device && row@.len() == supplied(
            table,
        ),
        Statement::Delete { table, filter } => cond_wf(filter, table),
        Statement::Update { table, set, filter } => set_wf(set@, table) && cond_wf(filter, table),
    }
}

/// The statement is well formed and within the parameter limit.
pub open spec fn sound(s: Statement) -> bool {
    statement_wf(s) && statement_values(s).len() <= PARAMETER_LIMIT
}

/// The query names columns of its table only and is within the parameter limit.
pub open spec fn query_sound(q: Query) -> bool {
    &&& cond_wf(q.filter, q.table)
    &&& cond_values(q.filter).len() <= PARAMETER_LIMIT
    &&& match q.order {
        Order::Unordered => true,
        Order::Ascending(c) | Order::Descending(c) => pos(q.table, c) >= 0,
    }
    &&& match q.want {
        Want::Columns(cs) => cs@.len() > 0 && forall|i: int|
            0 <= i < cs@.len() ==> pos(q.table, #[trigger] cs@[i]) >= 0,
        Want::Largest(c) => pos(q.table, c) >= 0,
        Want::Count | Want::Exists => true,
    }
}

// ---------------------------------------------------------------------------------------
// Building tests

/// The column equals the value.
pub fn equals(c: Column, v: Value) -> (r: Cond)
    ensures
        forall|t: Table, row: Seq<Val>| #[trigger]
            holds(r, t, row) == (!(v@ is Null) && row[pos(t, c)] == v@),
        forall|t: Table| #[trigger] cond_wf(r, t) == (pos(t, c) >= 0),
        cond_values(r) == seq![v@],
{
    Cond::Equals(c, v)
}

/// The row belongs to the account.
pub fn owned_by(device_id: i32) -> (r: Cond)
    ensures
        forall|t: Table, row: Seq<Val>| #[trigger]
            holds(r, t, row) == (row[pos(t, Column::DeviceId)] == Val::Int(device_id as int)),
        forall|t: Table| #[trigger] cond_wf(r, t) == (pos(t, Column::DeviceId) >= 0),
        cond_values(r) == seq![Val::Int(device_id as int)],
{
    equals(Column::DeviceId, Value::Int(device_id as i64))
}

/// Both tests pass.
pub fn both(a: Cond, b: Cond) -> (r: Cond)
    ensures
        forall|t: Table, row: Seq<Val>| #[trigger]
            holds(r, t, row) == (holds(a, t, row) && holds(b, t, row)),
        forall|t: Table| #[trigger] cond_wf(r, t) == (cond_wf(a, t) && cond_wf(b, t)),
        cond_values(r) == cond_values(a) + cond_values(b),
{
    Cond::Both(Box::new(a), Box::new(b))
}

/// One of the tests passes.
pub fn either(a: Cond, b: Cond) -> (r: Cond)
    ensures
        forall|t: Table, row: Seq<Val>| #[trigger]
            holds(r, t, row) == (holds(a, t, row) || holds(b, t, row)),
        forall|t: Table| #[trigger] cond_wf(r, t) == (cond_wf(a, t) && cond_wf(b, t)),
        cond_values(r) == cond_values(a) + cond_values(b),
{
    Cond::Either(Box::new(a), Box::new(b))
}

} // verus!
