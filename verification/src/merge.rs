//! What becomes of a row when a row with its key is inserted again.

use crate::model::{assigned, eval, row_wf, Db};
use crate::plan::{expr_wf, set_wf};
use crate::schema::{columns, key_columns, key_of, lemma_positions, pos, Column, Table};
use crate::sql::{expr_values, set_values, Assignment, Expr};
use crate::value::{larger, Val};
use vstd::prelude::*;

verus! {

/// How an insert treats a row that already holds its key.
#[derive(Clone, Copy, Debug, PartialEq, Eq, Structural)]
pub enum Merge {
    /// The new row takes its place.
    Overwrite,
    /// A message secret: the secret is replaced, the later deadline stays, where zero is later
    /// than any, and so does the later message time.
    Secret,
    /// A mapping: everything but the time it was first learned is replaced.
    Mapping,
    /// A base key: only the key itself is replaced.
    BaseKey,
    /// A received token: the token and its time are replaced, the sender's time stays.
    Received,
    /// An issued token: the sender's time moves forward and never back; the token stays.
    Touch,
}

/// The later of two deadlines, where zero means never.
pub open spec fn merged_deadline(a: Val, b: Val) -> Val {
    if a == Val::Int(0) || b == Val::Int(0) {
        Val::Int(0)
    } else {
        larger(a, b)
    }
}

/// A time moved forward: the later of the two, the second where there is no first.
pub open spec fn advanced(stored: Val, incoming: Val) -> Val {
    larger(
        if stored is Null {
            incoming
        } else {
            stored
        },
        incoming,
    )
}

/// The table a merge other than [`Merge::Overwrite`] is for.
pub open spec fn fits(m: Merge, t: Table) -> bool {
    match m {
        Merge::Overwrite => true,
        Merge::Secret => t == Table::MsgSecrets,
        Merge::Mapping => t == Table::LidPnMapping,
        Merge::BaseKey => t == Table::BaseKeys,
        Merge::Received => t == Table::TcTokens,
        Merge::Touch => t == Table::TcTokens,
    }
}

/// The row that stays when `new_row` is inserted where `old_row` holds the key.
pub open spec fn merged(m: Merge, old_row: Seq<Val>, new_row: Seq<Val>) -> Seq<Val> {
    match m {
        Merge::Overwrite => new_row,
        Merge::Secret => old_row.update(3, new_row[3]).update(
            4,
            merged_deadline(old_row[4], new_row[4]),
        ).update(5, larger(old_row[5], new_row[5])),
        Merge::Mapping => old_row.update(1, new_row[1]).update(3, new_row[3]).update(4, new_row[4]),
        Merge::BaseKey => old_row.update(2, new_row[2]),
        Merge::Received => old_row.update(1, new_row[1]).update(2, new_row[2]).update(
            5,
            new_row[5],
        ),
        Merge::Touch => old_row.update(3, advanced(old_row[3], new_row[3])).update(5, new_row[5]),
    }
}

impl Db {
    /// The database after a row is inserted under a merge rule.
    pub open spec fn merge(self, m: Merge, t: Table, row: Seq<Val>) -> Db {
        let k = key_of(t, row);
        if self.rows.contains_key(k) {
            self.put(t, merged(m, self.rows[k], row))
        } else {
            self.put(t, row)
        }
    }

    /// The database after rows are inserted in turn under a merge rule.
    pub open spec fn merge_all(self, m: Merge, t: Table, rows: Seq<Seq<Val>>) -> Db
        decreases rows.len(),
    {
        if rows.len() == 0 {
            self
        } else {
            self.merge_all(m, t, rows.drop_last()).merge(m, t, rows.last())
        }
    }
}

/// The assignment of the inserted value to a column.
fn take_new(column: Column) -> (a: Assignment)
    ensures
        a == (Assignment { column, value: Expr::Excluded(column) }),
{
    Assignment { column, value: Expr::Excluded(column) }
}

/// The assignments replace every column outside the key by the inserted value.
pub open spec fn overwrites(t: Table, set: Seq<Assignment>) -> bool {
    &&& forall|j: int|
        0 <= j < set.len() ==> (#[trigger] set[j]).value == Expr::Excluded(set[j].column) && pos(
            t,
            set[j].column,
        ) >= 0 && !key_columns(t).contains(set[j].column)
    &&& forall|i: int|
        0 <= i < columns(t).len() && !key_columns(t).contains(#[trigger] columns(t)[i])
            ==> covers(set, columns(t)[i])
}

/// Some assignment sets the column.
pub open spec fn covers(set: Seq<Assignment>, c: Column) -> bool {
    exists|j: int| 0 <= j < set.len() && (#[trigger] set[j]).column == c
}

/// Whether the column is one of the key.
fn is_key_column(t: Table, c: Column) -> (b: bool)
    ensures
        b == key_columns(t).contains(c),
{
    let keys = t.key_columns();
    let mut i: usize = 0;
    while i < keys.len()
        invariant
            i <= keys@.len(),
            keys@ == key_columns(t),
            forall|j: int| 0 <= j < i ==> keys@[j] != c,
        decreases keys.len() - i,
    {
        if keys[i] == c {
            assert(key_columns(t)[i as int] == c);
            return true;
        }
        i = i + 1;
    }
    false
}

/// Assignments that replace every column outside the key.
fn overwrite_set(t: Table) -> (set: Vec<Assignment>)
    ensures
        overwrites(t, set@),
        set@.len() > 0,
        set_values(set@).len() == 0,
{
    let list = t.columns();
    let mut set: Vec<Assignment> = Vec::new();
    let mut i: usize = 0;
    proof {
        lemma_positions(t);
    }
    while i < list.len()
        invariant
            i <= list@.len(),
            list@ == columns(t),
            set_values(set@).len() == 0,
            forall|c: Column| #![trigger pos(t, c)] pos(t, c) < columns(t).len(),
            forall|k: int| 0 <= k < columns(t).len() ==> pos(t, #[trigger] columns(t)[k]) == k,
            forall|j: int|
                0 <= j < set@.len() ==> (#[trigger] set@[j]).value == Expr::Excluded(set@[j].column)
                    && pos(t, set@[j].column) >= 0 && !key_columns(t).contains(set@[j].column),
            forall|k: int|
                0 <= k < i && !key_columns(t).contains(#[trigger] columns(t)[k]) ==> covers(
                    set@,
                    columns(t)[k],
                ),
        decreases list.len() - i,
    {
        let c = list[i];
        let ghost before = set@;
        if !is_key_column(t, c) {
            set.push(take_new(c));
            proof {
                assert(set@.drop_last() =~= before);
                assert(set@[set@.len() - 1].column == c);
                assert forall|k: int|
                    0 <= k < i + 1 && !key_columns(t).contains(
                        #[trigger] columns(t)[k],
                    ) implies covers(set@, columns(t)[k]) by {
                    if k < i {
                        let j = choose|j: int|
                            0 <= j < before.len() && (#[trigger] before[j]).column == columns(t)[k];
                        assert(set@[j].column == columns(t)[k]);
                    }
                }
            }
        }
        i = i + 1;
    }
    proof {
        lemma_some_column_is_free(t);
    }
    set
}

/// Every table has a column outside its key.
proof fn lemma_some_column_is_free(t: Table)
    ensures
        exists|i: int|
            0 <= i < columns(t).len() && !key_columns(t).contains(#[trigger] columns(t)[i]),
{
    assert(!key_columns(t).contains(columns(t)[1]) || !key_columns(t).contains(columns(t)[2])
        || !key_columns(t).contains(columns(t)[3]));
}

/// Rows with one key agree in the columns of the key.
proof fn lemma_same_key(t: Table, a: Seq<Val>, b: Seq<Val>)
    requires
        key_of(t, a) == key_of(t, b),
    ensures
        forall|i: int|
            0 <= i < columns(t).len() && key_columns(t).contains(#[trigger] columns(t)[i]) ==> a[i]
                == b[i],
{
    assert forall|i: int|
        0 <= i < columns(t).len() && key_columns(t).contains(
            #[trigger] columns(t)[i],
        ) implies a[i] == b[i] by {
        let j = choose|j: int|
            0 <= j < key_columns(t).len() && key_columns(t)[j] == columns(t)[i];
        assert(0 <= j < 4);
        lemma_positions(t);
        assert(pos(t, columns(t)[i]) == i);
    }
}

/// Assignments of inserted values take those columns from the new row and leave the others.
proof fn lemma_assigned_new(t: Table, set: Seq<Assignment>, old_row: Seq<Val>, new_row: Seq<Val>)
    requires
        row_wf(t, old_row),
        forall|j: int|
            0 <= j < set.len() ==> (#[trigger] set[j]).value == Expr::Excluded(set[j].column)
                && pos(t, set[j].column) >= 0,
    ensures
        assigned(t, set, old_row, new_row).len() == old_row.len(),
        forall|i: int|
            0 <= i < old_row.len() ==> #[trigger] assigned(t, set, old_row, new_row)[i] == (
            if covers(set, columns(t)[i]) {
                new_row[i]
            } else {
                old_row[i]
            }),
    decreases set.len(),
{
    lemma_positions(t);
    if set.len() > 0 {
        let head = set.drop_last();
        lemma_assigned_new(t, head, old_row, new_row);
        let c = set.last().column;
        assert forall|i: int| 0 <= i < old_row.len() implies #[trigger] assigned(
            t,
            set,
            old_row,
            new_row,
        )[i] == (if covers(set, columns(t)[i]) {
            new_row[i]
        } else {
            old_row[i]
        }) by {
            if pos(t, c) == i {
                assert(columns(t)[i] == c);
                assert(set[set.len() - 1].column == c);
                assert(covers(set, columns(t)[i]));
            } else {
                assert(columns(t)[i] != c);
                if covers(set, columns(t)[i]) {
                    let j = choose|j: int|
                        0 <= j < set.len() && (#[trigger] set[j]).column == columns(t)[i];
                    assert(head[j].column == columns(t)[i]);
                }
                if covers(head, columns(t)[i]) {
                    let j = choose|j: int|
                        0 <= j < head.len() && (#[trigger] head[j]).column == columns(t)[i];
                    assert(set[j].column == columns(t)[i]);
                }
            }
        }
    }
}

/// Overwriting leaves the new row.
proof fn lemma_overwrites(t: Table, set: Seq<Assignment>, old_row: Seq<Val>, new_row: Seq<Val>)
    requires
        overwrites(t, set),
        row_wf(t, old_row),
        row_wf(t, new_row),
        key_of(t, old_row) == key_of(t, new_row),
    ensures
        assigned(t, set, old_row, new_row) == new_row,
{
    lemma_assigned_new(t, set, old_row, new_row);
    lemma_same_key(t, old_row, new_row);
    assert forall|i: int| 0 <= i < new_row.len() implies #[trigger] assigned(
        t,
        set,
        old_row,
        new_row,
    )[i] == new_row[i] by {
        if !key_columns(t).contains(columns(t)[i]) {
            assert(covers(set, columns(t)[i]));
        }
    }
    assert(assigned(t, set, old_row, new_row) =~= new_row);
}

/// The assignments do what the rule says.
pub open spec fn realizes(m: Merge, t: Table, set: Seq<Assignment>) -> bool {
    forall|old_row: Seq<Val>, new_row: Seq<Val>|
        row_wf(t, old_row) && row_wf(t, new_row) && key_of(t, old_row) == key_of(t, new_row)
            ==> #[trigger] assigned(t, set, old_row, new_row) == merged(m, old_row, new_row)
}

/// The assignments that put a merge rule into effect on the table.
pub fn assignments(m: Merge, t: Table) -> (set: Vec<Assignment>)
    requires
        fits(m, t),
    ensures
        realizes(m, t, set@),
        set_wf(set@, t),
        set_values(set@).len() == 0,
{
    let set: Vec<Assignment> = match m {
        Merge::Overwrite => overwrite_set(t),
        Merge::Secret => vec![
            take_new(Column::Secret),
            Assignment {
                column: Column::ExpiresAt,
                value: Expr::ZeroIfEither(
                    Box::new(Expr::Stored(Column::ExpiresAt)),
                    Box::new(Expr::Excluded(Column::ExpiresAt)),
                    Box::new(
                        Expr::Larger(
                            Box::new(Expr::Stored(Column::ExpiresAt)),
                            Box::new(Expr::Excluded(Column::ExpiresAt)),
                        ),
                    ),
                ),
            },
            Assignment {
                column: Column::MessageTs,
                value: Expr::Larger(
                    Box::new(Expr::Stored(Column::MessageTs)),
                    Box::new(Expr::Excluded(Column::MessageTs)),
                ),
            },
        ],
        Merge::Mapping => vec![
            take_new(Column::PhoneNumber),
            take_new(Column::LearningSource),
            take_new(Column::UpdatedAt),
        ],
        Merge::BaseKey => vec![take_new(Column::BaseKey)],
        Merge::Received => vec![
            take_new(Column::Token),
            take_new(Column::TokenTimestamp),
            take_new(Column::UpdatedAt),
        ],
        Merge::Touch => vec![
            Assignment {
                column: Column::SenderTimestamp,
                value: Expr::Larger(
                    Box::new(
                        Expr::Coalesce(
                            Box::new(Expr::Stored(Column::SenderTimestamp)),
                            Box::new(Expr::Excluded(Column::SenderTimestamp)),
                        ),
                    ),
                    Box::new(Expr::Excluded(Column::SenderTimestamp)),
                ),
            },
            take_new(Column::UpdatedAt),
        ],
    };
    proof {
        reveal_with_fuel(assigned, 5);
        reveal_with_fuel(eval, 5);
        reveal_with_fuel(expr_wf, 5);
        reveal_with_fuel(expr_values, 5);
        reveal_with_fuel(set_values, 5);
        assert forall|old_row: Seq<Val>, new_row: Seq<Val>|
            row_wf(t, old_row) && row_wf(t, new_row) && key_of(t, old_row) == key_of(
                t,
                new_row,
            ) implies #[trigger] assigned(t, set@, old_row, new_row) == merged(
            m,
            old_row,
            new_row,
        ) by {
            if m == Merge::Overwrite {
                lemma_overwrites(t, set@, old_row, new_row);
            } else {
                assert(assigned(t, set@, old_row, new_row) =~= merged(m, old_row, new_row));
            }
        }
    }
    set
}

} // verus!
