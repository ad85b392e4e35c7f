//! The statements and queries the store issues, as data, and the SQL text of each.

use crate::schema::{
    column_name, columns, holds_numbers, is_numeric, key_columns, supplied, table_name, Column,
    Table,
};
use crate::value::{values, Val, Value};
use vstd::prelude::*;

verus! {

broadcast use {vstd::string::group_string_axioms, vstd::seq::group_seq_axioms};

/// The right-hand side of an assignment.
#[derive(Debug)]
pub enum Expr {
    /// A bound value.
    Bound(Value),
    /// The column as the row holds it before the statement.
    Stored(Column),
    /// The column as the conflicting insert would have set it.
    Excluded(Column),
    /// The larger of two values, `NULL` where either is.
    Larger(Box<Expr>, Box<Expr>),
    /// The first of two values that is not `NULL`.
    Coalesce(Box<Expr>, Box<Expr>),
    /// Zero where one of the first two is zero, otherwise the third.
    ZeroIfEither(Box<Expr>, Box<Expr>, Box<Expr>),
}

/// A column and the value it is set to.
#[derive(Debug)]
pub struct Assignment {
    pub column: Column,
    pub value: Expr,
}

/// A test on a row. A comparison with `NULL` does not hold.
#[derive(Debug)]
pub enum Cond {
    /// Holds of every row.
    Always,
    Equals(Column, Value),
    Differs(Column, Value),
    Below(Column, Value),
    AtMost(Column, Value),
    IsNull(Column),
    OneOf(Column, Vec<Value>),
    Like(Column, String),
    Both(Box<Cond>, Box<Cond>),
    Either(Box<Cond>, Box<Cond>),
}

/// A statement that changes the database.
#[derive(Debug)]
pub enum Statement {
    /// Inserts rows; a row whose key is taken changes the row that holds it instead.
    Upsert { table: Table, rows: Vec<Vec<Value>>, set: Vec<Assignment> },
    /// Inserts a row whose key must be free.
    Insert { table: Table, row: Vec<Value> },
    /// Inserts a row of `device` and lets the database choose its id.
    InsertNumbered { row: Vec<Value> },
    /// Inserts a row in place of the one that holds its key, if any.
    Replace { table: Table, row: Vec<Value> },
    /// Deletes the rows that pass the test.
    Delete { table: Table, filter: Cond },
    /// Changes the rows that pass the test.
    Update { table: Table, set: Vec<Assignment>, filter: Cond },
}

/// What a query asks of the rows that pass its test.
#[derive(Debug)]
pub enum Want {
    /// These columns of each row.
    Columns(Vec<Column>),
    /// How many there are.
    Count,
    /// The largest value of a column.
    Largest(Column),
    /// Whether there is one.
    Exists,
}

/// The order in which rows are handed out.
#[derive(Clone, Copy, Debug)]
pub enum Order {
    Unordered,
    Ascending(Column),
    Descending(Column),
}

/// A query.
#[derive(Debug)]
pub struct Query {
    pub table: Table,
    pub want: Want,
    pub filter: Cond,
    pub order: Order,
    /// Only the first row.
    pub first: bool,
}

// ---------------------------------------------------------------------------------------
// Text

/// `n` placeholders.
pub open spec fn placeholders(n: nat) -> Seq<char>
    decreases n,
{
    if n == 0 {
        ""@
    } else if n == 1 {
        "?"@
    } else {
        placeholders((n - 1) as nat) + ", ?"@
    }
}

/// Column names, separated by commas.
pub open spec fn name_list(cs: Seq<Column>) -> Seq<char>
    decreases cs.len(),
{
    if cs.len() == 0 {
        ""@
    } else if cs.len() == 1 {
        column_name(cs[0])
    } else {
        name_list(cs.drop_last()) + ", "@ + column_name(cs.last())
    }
}

/// The text of an expression.
pub open spec fn expr_sql(e: Expr) -> Seq<char>
    decreases e,
{
    match e {
        Expr::Bound(_) => "?"@,
        Expr::Stored(c) => column_name(c),
        Expr::Excluded(c) => "excluded."@ + column_name(c),
        Expr::Larger(a, b) => "MAX("@ + expr_sql(*a) + ", "@ + expr_sql(*b) + ")"@,
        Expr::Coalesce(a, b) => "COALESCE("@ + expr_sql(*a) + ", "@ + expr_sql(*b) + ")"@,
        Expr::ZeroIfEither(a, b, other) => "CASE WHEN "@ + expr_sql(*a) + " = 0 OR "@ + expr_sql(*b)
            + " = 0 THEN 0 ELSE "@ + expr_sql(*other) + " END"@,
    }
}

/// The values an expression binds, in the order of its placeholders.
pub open spec fn expr_values(e: Expr) -> Seq<Val>
    decreases e,
{
    match e {
        Expr::Bound(v) => seq![v@],
        Expr::Stored(_) | Expr::Excluded(_) => seq![],
        Expr::Larger(a, b) => expr_values(*a) + expr_values(*b),
        Expr::Coalesce(a, b) => expr_values(*a) + expr_values(*b),
        Expr::ZeroIfEither(a, b, other) => expr_values(*a) + expr_values(*b) + expr_values(*other),
    }
}

/// The text of a list of assignments.
pub open spec fn set_sql(set: Seq<Assignment>) -> Seq<char>
    decreases set.len(),
{
    if set.len() == 0 {
        ""@
    } else {
        set_sql(set.drop_last()) + (if set.len() == 1 {
            ""@
        } else {
            ", "@
        }) + column_name(set.last().column) + " = "@ + expr_sql(set.last().value)
    }
}

/// The values a list of assignments binds.
pub open spec fn set_values(set: Seq<Assignment>) -> Seq<Val>
    decreases set.len(),
{
    if set.len() == 0 {
        seq![]
    } else {
        set_values(set.drop_last()) + expr_values(set.last().value)
    }
}

/// The text of a test.
pub open spec fn cond_sql(c: Cond) -> Seq<char>
    decreases c,
{
    match c {
        Cond::Always => "1 = 1"@,
        Cond::Equals(c, _) => column_name(c) + " = ?"@,
        Cond::Differs(c, _) => column_name(c) + " <> ?"@,
        Cond::Below(c, _) => column_name(c) + " < ?"@,
        Cond::AtMost(c, _) => column_name(c) + " <= ?"@,
        Cond::IsNull(c) => column_name(c) + " IS NULL"@,
        Cond::OneOf(c, list) => column_name(c) + " IN ("@ + placeholders(list@.len()) + ")"@,
        Cond::Like(c, _) => column_name(c) + " LIKE ?"@,
        Cond::Both(a, b) => "("@ + cond_sql(*a) + " AND "@ + cond_sql(*b) + ")"@,
        Cond::Either(a, b) => "("@ + cond_sql(*a) + " OR "@ + cond_sql(*b) + ")"@,
    }
}

/// The values a test binds.
pub open spec fn cond_values(c: Cond) -> Seq<Val>
    decreases c,
{
    match c {
        Cond::Always | Cond::IsNull(_) => seq![],
        Cond::Equals(_, v) | Cond::Differs(_, v) | Cond::Below(_, v) | Cond::AtMost(_, v) => seq![
            v@,
        ],
        Cond::OneOf(_, list) => values(list@),
        Cond::Like(_, pattern) => seq![Val::Text(pattern@)],
        Cond::Both(a, b) | Cond::Either(a, b) => cond_values(*a) + cond_values(*b),
    }
}

/// A row of placeholders for each of `n` rows of `width` values.
pub open spec fn value_rows_sql(n: nat, width: nat) -> Seq<char>
    decreases n,
{
    if n == 0 {
        ""@
    } else {
        value_rows_sql((n - 1) as nat, width) + (if n == 1 {
            "("@
        } else {
            ", ("@
        }) + placeholders(width) + ")"@
    }
}

/// The values of all rows, one after the other.
pub open spec fn all_values(rows: Seq<Vec<Value>>) -> Seq<Val>
    decreases rows.len(),
{
    if rows.len() == 0 {
        seq![]
    } else {
        all_values(rows.drop_last()) + values(rows.last()@)
    }
}

/// The columns a statement supplies.
pub open spec fn supplied_columns(t: Table) -> Seq<Column> {
    columns(t).take(supplied(t) as int)
}

/// What stands between `INSERT` and the first row of values.
pub open spec fn into_sql(t: Table, cs: Seq<Column>) -> Seq<char> {
    " INTO "@ + table_name(t) + " ("@ + name_list(cs) + ") VALUES "@
}

/// The text of a statement.
pub open spec fn statement_sql(s: Statement) -> Seq<char> {
    match s {
        Statement::Upsert { table, rows, set } => "INSERT"@ + into_sql(
            table,
            supplied_columns(table),
        ) + value_rows_sql(rows@.len(), supplied(table)) + " ON CONFLICT ("@ + name_list(
            key_columns(table),
        ) + ") DO UPDATE SET "@ + set_sql(set@),
        Statement::Insert { table, row } => "INSERT"@ + into_sql(table, supplied_columns(table))
            + value_rows_sql(1, supplied(table)),
        Statement::InsertNumbered { row } => "INSERT"@ + into_sql(
            Table::Device,
            columns(Table::Device).skip(1),
        ) + value_rows_sql(1, 27),
        Statement::Replace { table, row } => "REPLACE"@ + into_sql(table, supplied_columns(table))
            + value_rows_sql(1, supplied(table)),
        Statement::Delete { table, filter } => "DELETE FROM "@ + table_name(table) + " WHERE "@
            + cond_sql(filter),
        Statement::Update { table, set, filter } => "UPDATE "@ + table_name(table) + " SET "@
            + set_sql(set@) + " WHERE "@ + cond_sql(filter),
    }
}

/// The values a statement binds, in the order of its placeholders.
pub open spec fn statement_values(s: Statement) -> Seq<Val> {
    match s {
        Statement::Upsert { table, rows, set } => all_values(rows@) + set_values(set@),
        Statement::Insert { table, row } => values(row@),
        Statement::InsertNumbered { row } => values(row@),
        Statement::Replace { table, row } => values(row@),
        Statement::Delete { table, filter } => cond_values(filter),
        Statement::Update { table, set, filter } => set_values(set@) + cond_values(filter),
    }
}

/// The text of a query.
pub open spec fn query_sql(q: Query) -> Seq<char> {
    let source = " FROM "@ + table_name(q.table) + " WHERE "@ + cond_sql(q.filter);
    match q.want {
        Want::Columns(cs) => "SELECT "@ + name_list(cs@) + source + (match q.order {
            Order::Unordered => ""@,
            Order::Ascending(c) => " ORDER BY "@ + column_name(c) + " ASC"@,
            Order::Descending(c) => " ORDER BY "@ + column_name(c) + " DESC"@,
        }) + (if q.first {
            " LIMIT 1"@
        } else {
            ""@
        }),
        Want::Count => "SELECT COUNT(*)"@ + source,
        Want::Largest(c) => "SELECT MAX("@ + column_name(c) + ")"@ + source,
        Want::Exists => "SELECT EXISTS (SELECT 1"@ + source + ")"@,
    }
}

/// The values a query binds.
pub open spec fn query_values(q: Query) -> Seq<Val> {
    cond_values(q.filter)
}

// ---------------------------------------------------------------------------------------
// Writing the text

/// Appends `n` placeholders.
fn append_placeholders(out: &mut String, n: usize)
    ensures
        final(out)@ == old(out)@ + placeholders(n as nat),
{
    let mut i: usize = 0;
    assert(old(out)@ + placeholders(0) =~= old(out)@) by {
        reveal_strlit("");
    }
    while i < n
        invariant
            i <= n,
            out@ == old(out)@ + placeholders(i as nat),
        decreases n - i,
    {
        if i == 0 {
            out.append("?");
            assert(old(out)@ + placeholders(0) + "?"@ =~= old(out)@ + placeholders(1)) by {
                reveal_strlit("");
            }
        } else {
            out.append(", ?");
            assert(old(out)@ + placeholders(i as nat) + ", ?"@ =~= old(out)@ + placeholders(
                (i + 1) as nat,
            ));
        }
        i = i + 1;
    }
}

/// Appends column names, separated by commas.
fn append_names(out: &mut String, cs: &Vec<Column>, from: usize, to: usize)
    requires
        from <= to <= cs@.len(),
    ensures
        final(out)@ == old(out)@ + name_list(cs@.subrange(from as int, to as int)),
{
    let mut i: usize = from;
    assert(old(out)@ + name_list(cs@.subrange(from as int, from as int)) =~= old(out)@) by {
        reveal_strlit("");
    }
    while i < to
        invariant
            from <= i <= to <= cs@.len(),
            out@ == old(out)@ + name_list(cs@.subrange(from as int, i as int)),
        decreases to - i,
    {
        let ghost before = cs@.subrange(from as int, i as int);
        let ghost after = cs@.subrange(from as int, i + 1);
        assert(after.drop_last() =~= before);
        if i > from {
            out.append(", ");
        }
        out.append(cs[i].name());
        proof {
            if i == from {
                reveal_strlit("");
                assert(old(out)@ + name_list(before) + column_name(cs@[i as int]) =~= old(out)@
                    + name_list(after));
            } else {
                assert(old(out)@ + name_list(before) + ", "@ + column_name(cs@[i as int]) =~= old(
                    out,
                )@ + name_list(after));
            }
        }
        i = i + 1;
    }
}

impl Expr {
    /// Appends the text of the expression.
    fn append_sql(&self, out: &mut String)
        ensures
            final(out)@ == old(out)@ + expr_sql(*self),
        decreases self,
    {
        match self {
            Expr::Bound(_) => out.append("?"),
            Expr::Stored(c) => out.append(c.name()),
            Expr::Excluded(c) => {
                out.append("excluded.");
                out.append(c.name());
            },
            Expr::Larger(a, b) => {
                out.append("MAX(");
                a.append_sql(out);
                out.append(", ");
                b.append_sql(out);
                out.append(")");
            },
            Expr::Coalesce(a, b) => {
                out.append("COALESCE(");
                a.append_sql(out);
                out.append(", ");
                b.append_sql(out);
                out.append(")");
            },
            Expr::ZeroIfEither(a, b, other) => {
                out.append("CASE WHEN ");
                a.append_sql(out);
                out.append(" = 0 OR ");
                b.append_sql(out);
                out.append(" = 0 THEN 0 ELSE ");
                other.append_sql(out);
                out.append(" END");
            },
        }
        assert(out@ =~= old(out)@ + expr_sql(*self));
    }

    /// Appends the values the expression binds.
    fn append_values(&self, out: &mut Vec<Value>)
        ensures
            values(final(out)@) == values(old(out)@) + expr_values(*self),
        decreases self,
    {
        match self {
            Expr::Bound(v) => out.push(v.copied()),
            Expr::Stored(_) => {},
            Expr::Excluded(_) => {},
            Expr::Larger(a, b) => {
                a.append_values(out);
                b.append_values(out);
            },
            Expr::Coalesce(a, b) => {
                a.append_values(out);
                b.append_values(out);
            },
            Expr::ZeroIfEither(a, b, other) => {
                a.append_values(out);
                b.append_values(out);
                other.append_values(out);
            },
        }
        assert(values(out@) =~= values(old(out)@) + expr_values(*self));
    }
}

/// Appends the text of a list of assignments.
fn append_set(out: &mut String, set: &Vec<Assignment>)
    ensures
        final(out)@ == old(out)@ + set_sql(set@),
{
    let mut i: usize = 0;
    assert(old(out)@ + set_sql(set@.take(0)) =~= old(out)@) by {
        reveal_strlit("");
    }
    while i < set.len()
        invariant
            i <= set@.len(),
            out@ == old(out)@ + set_sql(set@.take(i as int)),
        decreases set.len() - i,
    {
        let ghost before = set@.take(i as int);
        let ghost after = set@.take(i + 1);
        assert(after.drop_last() =~= before);
        assert(after.last() == set@[i as int]);
        if i > 0 {
            out.append(", ");
        }
        out.append(set[i].column.name());
        out.append(" = ");
        set[i].value.append_sql(out);
        proof {
            reveal_strlit("");
            assert(out@ =~= old(out)@ + set_sql(after));
        }
        i = i + 1;
    }
    assert(set@.take(set@.len() as int) =~= set@);
}

/// Appends the values a list of assignments binds.
fn append_set_values(out: &mut Vec<Value>, set: &Vec<Assignment>)
    ensures
        values(final(out)@) == values(old(out)@) + set_values(set@),
{
    let mut i: usize = 0;
    assert(values(old(out)@) + set_values(set@.take(0)) =~= values(old(out)@));
    while i < set.len()
        invariant
            i <= set@.len(),
            values(out@) == values(old(out)@) + set_values(set@.take(i as int)),
        decreases set.len() - i,
    {
        assert(set@.take(i + 1).drop_last() =~= set@.take(i as int));
        set[i].value.append_values(out);
        assert(values(out@) =~= values(old(out)@) + set_values(set@.take(i + 1)));
        i = i + 1;
    }
    assert(set@.take(set@.len() as int) =~= set@);
}

/// Appends copies of `list`.
fn append_all(out: &mut Vec<Value>, list: &Vec<Value>)
    ensures
        values(final(out)@) == values(old(out)@) + values(list@),
{
    let mut i: usize = 0;
    assert(values(old(out)@) + values(list@.take(0)) =~= values(old(out)@));
    while i < list.len()
        invariant
            i <= list@.len(),
            values(out@) == values(old(out)@) + values(list@.take(i as int)),
        decreases list.len() - i,
    {
        let ghost before = values(out@);
        out.push(list[i].copied());
        assert(values(out@) =~= before.push(list@[i as int]@));
        assert(values(list@.take(i + 1)) =~= values(list@.take(i as int)).push(list@[i as int]@));
        assert(values(out@) =~= values(old(out)@) + values(list@.take(i + 1)));
        i = i + 1;
    }
    assert(list@.take(list@.len() as int) =~= list@);
}

impl Cond {
    /// Appends the text of the test.
    fn append_sql(&self, out: &mut String)
        ensures
            final(out)@ == old(out)@ + cond_sql(*self),
        decreases self,
    {
        match self {
            Cond::Always => out.append("1 = 1"),
            Cond::Equals(c, _) => {
                out.append(c.name());
                out.append(" = ?");
            },
            Cond::Differs(c, _) => {
                out.append(c.name());
                out.append(" <> ?");
            },
            Cond::Below(c, _) => {
                out.append(c.name());
                out.append(" < ?");
            },
            Cond::AtMost(c, _) => {
                out.append(c.name());
                out.append(" <= ?");
            },
            Cond::IsNull(c) => {
                out.append(c.name());
                out.append(" IS NULL");
            },
            Cond::OneOf(c, list) => {
                out.append(c.name());
                out.append(" IN (");
                append_placeholders(out, list.len());
                out.append(")");
            },
            Cond::Like(c, _) => {
                out.append(c.name());
                out.append(" LIKE ?");
            },
            Cond::Both(a, b) => {
                out.append("(");
                a.append_sql(out);
                out.append(" AND ");
                b.append_sql(out);
                out.append(")");
            },
            Cond::Either(a, b) => {
                out.append("(");
                a.append_sql(out);
                out.append(" OR ");
                b.append_sql(out);
                out.append(")");
            },
        }
        assert(out@ =~= old(out)@ + cond_sql(*self));
    }

    /// Appends the values the test binds.
    fn append_values(&self, out: &mut Vec<Value>)
        ensures
            values(final(out)@) == values(old(out)@) + cond_values(*self),
        decreases self,
    {
        match self {
            Cond::Always => {},
            Cond::IsNull(_) => {},
            Cond::Equals(_, v) => out.push(v.copied()),
            Cond::Differs(_, v) => out.push(v.copied()),
            Cond::Below(_, v) => out.push(v.copied()),
            Cond::AtMost(_, v) => out.push(v.copied()),
            Cond::OneOf(_, list) => append_all(out, list),
            Cond::Like(_, pattern) => out.push(Value::Text(pattern.clone())),
            Cond::Both(a, b) => {
                a.append_values(out);
                b.append_values(out);
            },
            Cond::Either(a, b) => {
                a.append_values(out);
                b.append_values(out);
            },
        }
        assert(values(out@) =~= values(old(out)@) + cond_values(*self));
    }
}

/// Appends a row of placeholders for each of `n` rows.
fn append_value_rows(out: &mut String, n: usize, width: usize)
    ensures
        final(out)@ == old(out)@ + value_rows_sql(n as nat, width as nat),
{
    let mut i: usize = 0;
    assert(old(out)@ + value_rows_sql(0, width as nat) =~= old(out)@) by {
        reveal_strlit("");
    }
    while i < n
        invariant
            i <= n,
            out@ == old(out)@ + value_rows_sql(i as nat, width as nat),
        decreases n - i,
    {
        if i == 0 {
            out.append("(");
        } else {
            out.append(", (");
        }
        append_placeholders(out, width);
        out.append(")");
        assert(out@ =~= old(out)@ + value_rows_sql((i + 1) as nat, width as nat));
        i = i + 1;
    }
}

/// Appends what stands between `INSERT` and the first row of values.
fn append_into(out: &mut String, t: Table, from: usize, to: usize)
    requires
        from <= to <= columns(t).len(),
    ensures
        final(out)@ == old(out)@ + into_sql(t, columns(t).subrange(from as int, to as int)),
{
    out.append(" INTO ");
    out.append(t.name());
    out.append(" (");
    append_names(out, &t.columns(), from, to);
    out.append(") VALUES ");
    assert(out@ =~= old(out)@ + into_sql(t, columns(t).subrange(from as int, to as int)));
}

/// Appends the start of a statement that inserts into every supplied column.
fn append_supplied(out: &mut String, t: Table, n: usize)
    ensures
        final(out)@ == old(out)@ + into_sql(t, supplied_columns(t)) + value_rows_sql(
            n as nat,
            supplied(t),
        ),
{
    append_into(out, t, 0, t.supplied());
    append_value_rows(out, n, t.supplied());
    assert(columns(t).subrange(0, supplied(t) as int) =~= supplied_columns(t));
}

impl Statement {
    /// The text of the statement, with a placeholder for each bound value.
    pub fn sql(&self) -> (text: String)
        ensures
            text@ == statement_sql(*self),
    {
        let mut out: String = String::new();
        match self {
            Statement::Upsert { table, rows, set } => {
                out.append("INSERT");
                append_supplied(&mut out, *table, rows.len());
                out.append(" ON CONFLICT (");
                let keys = table.key_columns();
                append_names(&mut out, &keys, 0, keys.len());
                assert(keys@.subrange(0, keys@.len() as int) =~= keys@);
                out.append(") DO UPDATE SET ");
                append_set(&mut out, set);
            },
            Statement::Insert { table, row: _ } => {
                out.append("INSERT");
                append_supplied(&mut out, *table, 1);
            },
            Statement::InsertNumbered { row: _ } => {
                out.append("INSERT");
                append_into(&mut out, Table::Device, 1, 28);
                assert(columns(Table::Device).subrange(1, 28) =~= columns(Table::Device).skip(1));
                append_value_rows(&mut out, 1, 27);
            },
            Statement::Replace { table, row: _ } => {
                out.append("REPLACE");
                append_supplied(&mut out, *table, 1);
            },
            Statement::Delete { table, filter } => {
                out.append("DELETE FROM ");
                out.append(table.name());
                out.append(" WHERE ");
                filter.append_sql(&mut out);
            },
            Statement::Update { table, set, filter } => {
                out.append("UPDATE ");
                out.append(table.name());
                out.append(" SET ");
                append_set(&mut out, set);
                out.append(" WHERE ");
                filter.append_sql(&mut out);
            },
        }
        assert(out@ =~= statement_sql(*self));
        out
    }

    /// The values to bind, in the order of the placeholders.
    pub fn values(&self) -> (list: Vec<Value>)
        ensures
            values(list@) == statement_values(*self),
    {
        let mut out: Vec<Value> = Vec::new();
        assert(values(out@) =~= seq![]);
        match self {
            Statement::Upsert { table: _, rows, set } => {
                append_rows(&mut out, rows);
                append_set_values(&mut out, set);
            },
            Statement::Insert { table: _, row } => append_all(&mut out, row),
            Statement::InsertNumbered { row } => append_all(&mut out, row),
            Statement::Replace { table: _, row } => append_all(&mut out, row),
            Statement::Delete { table: _, filter } => filter.append_values(&mut out),
            Statement::Update { table: _, set, filter } => {
                append_set_values(&mut out, set);
                filter.append_values(&mut out);
            },
        }
        assert(values(out@) =~= statement_values(*self));
        out
    }
}

/// Appends the values of all rows, one after the other.
fn append_rows(out: &mut Vec<Value>, rows: &Vec<Vec<Value>>)
    ensures
        values(final(out)@) == values(old(out)@) + all_values(rows@),
{
    let mut i: usize = 0;
    assert(values(old(out)@) + all_values(rows@.take(0)) =~= values(old(out)@));
    while i < rows.len()
        invariant
            i <= rows@.len(),
            values(out@) == values(old(out)@) + all_values(rows@.take(i as int)),
        decreases rows.len() - i,
    {
        assert(rows@.take(i + 1).drop_last() =~= rows@.take(i as int));
        append_all(out, &rows[i]);
        assert(values(out@) =~= values(old(out)@) + all_values(rows@.take(i + 1)));
        i = i + 1;
    }
    assert(rows@.take(rows@.len() as int) =~= rows@);
}

/// Whether a query hands out numbers at a place: a column that is declared to hold them, or
/// what it counts.
pub open spec fn hands_out_numbers(q: Query, i: int) -> bool {
    match q.want {
        Want::Columns(cs) => 0 <= i < cs@.len() && is_numeric(q.table, cs@[i]),
        Want::Largest(c) => is_numeric(q.table, c),
        Want::Count | Want::Exists => true,
    }
}

impl Query {
    /// Whether a place of the rows is for numbers. What is stored there as a fraction is read
    /// as a whole number, elsewhere as the text that it is written as.
    pub fn is_for_numbers(&self, i: usize) -> (b: bool)
        ensures
            b == hands_out_numbers(*self, i as int),
    {
        match &self.want {
            Want::Columns(cs) => i < cs.len() && holds_numbers(self.table, cs[i]),
            Want::Largest(c) => holds_numbers(self.table, *c),
            Want::Count => true,
            Want::Exists => true,
        }
    }

    /// The text of the query, with a placeholder for each bound value.
    pub fn sql(&self) -> (text: String)
        ensures
            text@ == query_sql(*self),
    {
        let mut out: String = String::new();
        match &self.want {
            Want::Columns(cs) => {
                out.append("SELECT ");
                append_names(&mut out, cs, 0, cs.len());
                assert(cs@.subrange(0, cs@.len() as int) =~= cs@);
                self.append_source(&mut out);
                match self.order {
                    Order::Unordered => {},
                    Order::Ascending(c) => {
                        out.append(" ORDER BY ");
                        out.append(c.name());
                        out.append(" ASC");
                    },
                    Order::Descending(c) => {
                        out.append(" ORDER BY ");
                        out.append(c.name());
                        out.append(" DESC");
                    },
                }
                if self.first {
                    out.append(" LIMIT 1");
                }
            },
            Want::Count => {
                out.append("SELECT COUNT(*)");
                self.append_source(&mut out);
            },
            Want::Largest(c) => {
                out.append("SELECT MAX(");
                out.append(c.name());
                out.append(")");
                self.append_source(&mut out);
            },
            Want::Exists => {
                out.append("SELECT EXISTS (SELECT 1");
                self.append_source(&mut out);
                out.append(")");
            },
        }
        proof {
            reveal_strlit("");
        }
        assert(out@ =~= query_sql(*self));
        out
    }

    /// Appends the table and the test.
    fn append_source(&self, out: &mut String)
        ensures
            final(out)@ == old(out)@ + (" FROM "@ + table_name(self.table) + " WHERE "@ + cond_sql(
                self.filter,
            )),
    {
        out.append(" FROM ");
        out.append(self.table.name());
        out.append(" WHERE ");
        self.filter.append_sql(out);
        assert(out@ =~= old(out)@ + (" FROM "@ + table_name(self.table) + " WHERE "@ + cond_sql(
            self.filter,
        )));
    }

    /// The values to bind, in the order of the placeholders.
    pub fn values(&self) -> (list: Vec<Value>)
        ensures
            values(list@) == query_values(*self),
    {
        let mut out: Vec<Value> = Vec::new();
        assert(values(out@) =~= seq![]);
        self.filter.append_values(&mut out);
        assert(values(out@) =~= query_values(*self));
        out
    }
}

} // verus!
