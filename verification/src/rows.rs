//! Reading typed values out of the rows that a query comes back with.

use crate::cast::{as_blob, as_int, as_text};
use crate::error::{Fault, StoreError};
use crate::value::{Val, Value};
use vstd::prelude::*;

verus! {

/// The rows a query came back with.
pub type Rows = Vec<Vec<Value>>;

/// The values of a row.
pub open spec fn row_view(row: Vec<Value>) -> Seq<Val> {
    crate::value::values(row@)
}

/// The values of rows.
pub open spec fn rows_view(rows: Rows) -> Seq<Seq<Val>> {
    rows@.map_values(|r: Vec<Value>| row_view(r))
}

/// A column that cannot be read: it is not there, or holds `NULL` where it must not, or bytes
/// that are no text.
pub open spec fn is_mismatch(error: StoreError) -> bool {
    error matches StoreError::Database(f) && f is Other
}

/// The error for a column that cannot be read.
pub fn mismatch() -> (error: StoreError)
    ensures
        is_mismatch(error),
{
    StoreError::Database(Fault::Other("unexpected value in a column".to_owned()))
}

/// The number at a place. None where the row ends before it, or holds `NULL` there.
pub open spec fn int_at(row: Seq<Val>, i: int) -> Option<int> {
    if 0 <= i < row.len() {
        as_int(row[i])
    } else {
        None
    }
}

/// Whether a number read as a truth value is true. The lower 32 bits decide.
pub open spec fn is_true(n: int) -> bool {
    (n as i32) != 0
}

/// The text at a place. None where the row ends before it, or holds `NULL` or bytes that are not
/// UTF-8 there.
pub open spec fn text_at(row: Seq<Val>, i: int) -> Option<Seq<char>> {
    if 0 <= i < row.len() {
        as_text(row[i])
    } else {
        None
    }
}

/// The bytes at a place. None where the row ends before it, or holds `NULL` there.
pub open spec fn blob_at(row: Seq<Val>, i: int) -> Option<Seq<u8>> {
    if 0 <= i < row.len() {
        as_blob(row[i])
    } else {
        None
    }
}

/// `NULL` stands at a place.
pub open spec fn null_at(row: Seq<Val>, i: int) -> bool {
    0 <= i < row.len() && row[i] is Null
}

/// Reads the number at a place.
pub fn read_int(row: &Vec<Value>, i: usize) -> (r: Result<i64, StoreError>)
    ensures
        match int_at(row_view(*row), i as int) {
            Some(n) => r matches Ok(v) && v == n,
            None => r matches Err(e) && is_mismatch(e),
        },
{
    if i < row.len() {
        if let Some(n) = row[i].to_int() {
            return Ok(n);
        }
    }
    Err(mismatch())
}

/// Reads the truth value at a place.
pub fn read_flag(row: &Vec<Value>, i: usize) -> (r: Result<bool, StoreError>)
    ensures
        match int_at(row_view(*row), i as int) {
            Some(n) => r matches Ok(v) && v == is_true(n),
            None => r matches Err(e) && is_mismatch(e),
        },
{
    match read_int(row, i) {
        Ok(n) => Ok((n as i32) != 0),
        Err(e) => Err(e),
    }
}

/// Reads the text at a place.
pub fn read_text(row: &Vec<Value>, i: usize) -> (r: Result<String, StoreError>)
    ensures
        match text_at(row_view(*row), i as int) {
            Some(s) => r matches Ok(v) && v@ == s,
            None => r matches Err(e) && is_mismatch(e),
        },
{
    if i < row.len() {
        if let Some(s) = row[i].to_text() {
            return Ok(s);
        }
    }
    Err(mismatch())
}

/// Reads the bytes at a place.
pub fn read_blob(row: &Vec<Value>, i: usize) -> (r: Result<Vec<u8>, StoreError>)
    ensures
        match blob_at(row_view(*row), i as int) {
            Some(b) => r matches Ok(v) && v@ == b,
            None => r matches Err(e) && is_mismatch(e),
        },
{
    if i < row.len() {
        if let Some(b) = row[i].to_bytes() {
            return Ok(b);
        }
    }
    Err(mismatch())
}

/// Whether `NULL` stands at a place.
pub fn is_null(row: &Vec<Value>, i: usize) -> (b: bool)
    ensures
        b == null_at(row_view(*row), i as int),
{
    if i < row.len() {
        if let Value::Null = &row[i] {
            return true;
        }
    }
    false
}

/// An optional column is readable: `NULL`, or what it is read as.
pub open spec fn opt_text_ok(row: Seq<Val>, i: int) -> bool {
    null_at(row, i) || text_at(row, i) is Some
}

pub open spec fn opt_blob_ok(row: Seq<Val>, i: int) -> bool {
    null_at(row, i) || blob_at(row, i) is Some
}

pub open spec fn opt_int_ok(row: Seq<Val>, i: int) -> bool {
    null_at(row, i) || int_at(row, i) is Some
}

/// Reads the text at a place, none for `NULL`.
pub fn read_opt_text(row: &Vec<Value>, i: usize) -> (r: Result<Option<String>, StoreError>)
    ensures
        if opt_text_ok(row_view(*row), i as int) {
            r matches Ok(v) && crate::value::opt_text(v) == text_at(row_view(*row), i as int)
        } else {
            r matches Err(e) && is_mismatch(e)
        },
{
    if is_null(row, i) {
        Ok(None)
    } else {
        match read_text(row, i) {
            Ok(s) => Ok(Some(s)),
            Err(e) => Err(e),
        }
    }
}

/// Reads the bytes at a place, none for `NULL`.
pub fn read_opt_blob(row: &Vec<Value>, i: usize) -> (r: Result<Option<Vec<u8>>, StoreError>)
    ensures
        if opt_blob_ok(row_view(*row), i as int) {
            r matches Ok(v) && crate::value::opt_bytes(v) == blob_at(row_view(*row), i as int)
        } else {
            r matches Err(e) && is_mismatch(e)
        },
{
    if is_null(row, i) {
        Ok(None)
    } else {
        match read_blob(row, i) {
            Ok(b) => Ok(Some(b)),
            Err(e) => Err(e),
        }
    }
}

/// Reads the number at a place, none for `NULL`.
pub fn read_opt_int(row: &Vec<Value>, i: usize) -> (r: Result<Option<i64>, StoreError>)
    ensures
        if opt_int_ok(row_view(*row), i as int) {
            r matches Ok(v) && (match v {
                Some(n) => int_at(row_view(*row), i as int) == Some(n as int),
                None => int_at(row_view(*row), i as int) is None,
            })
        } else {
            r matches Err(e) && is_mismatch(e)
        },
{
    if is_null(row, i) {
        Ok(None)
    } else {
        match read_int(row, i) {
            Ok(n) => Ok(Some(n)),
            Err(e) => Err(e),
        }
    }
}

/// The bytes in the first column of the first row; none where there is no row.
pub fn first_blob(rows: &Rows) -> (r: Result<Option<Vec<u8>>, StoreError>)
    ensures
        rows_view(*rows).len() == 0 ==> (r matches Ok(v) && v is None),
        rows_view(*rows).len() > 0 ==> match blob_at(rows_view(*rows)[0], 0) {
            Some(b) => r matches Ok(Some(v)) && v@ == b,
            None => r matches Err(e) && is_mismatch(e),
        },
{
    if rows.len() == 0 {
        return Ok(None);
    }
    match read_blob(&rows[0], 0) {
        Ok(b) => Ok(Some(b)),
        Err(e) => Err(e),
    }
}

/// The number in the first column of the first row.
pub fn first_int(rows: &Rows) -> (r: Result<i64, StoreError>)
    ensures
        if rows_view(*rows).len() > 0 && int_at(rows_view(*rows)[0], 0) is Some {
            r matches Ok(v) && int_at(rows_view(*rows)[0], 0) == Some(v as int)
        } else {
            r matches Err(e) && is_mismatch(e)
        },
{
    if rows.len() == 0 {
        return Err(mismatch());
    }
    read_int(&rows[0], 0)
}

} // verus!
