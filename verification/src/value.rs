//! The values a column holds, and how the database compares them.

use vstd::prelude::*;

verus! {

/// A value bound to a statement or read back from a row.
#[derive(Debug)]
pub enum Value {
    /// The SQL `NULL`.
    Null,
    /// An integer. Booleans are stored as 0 and 1.
    Int(i64),
    /// Text.
    Text(String),
    /// Raw bytes.
    Blob(Vec<u8>),
}

/// What a [`Value`] stands for.
pub enum Val {
    Null,
    Int(int),
    Text(Seq<char>),
    Blob(Seq<u8>),
}

impl View for Value {
    type V = Val;

    open spec fn view(&self) -> Val {
        match self {
            Value::Null => Val::Null,
            Value::Int(n) => Val::Int(*n as int),
            Value::Text(s) => Val::Text(s@),
            Value::Blob(b) => Val::Blob(b@),
        }
    }
}

/// The values of a list, in order.
pub open spec fn values(list: Seq<Value>) -> Seq<Val> {
    list.map_values(|v: Value| v@)
}

/// How the database stores a truth value.
pub open spec fn flag(b: bool) -> Val {
    Val::Int(if b {
        1
    } else {
        0
    })
}

/// Text, or `NULL` where there is none.
pub open spec fn text_or_null(text: Option<Seq<char>>) -> Val {
    match text {
        Some(s) => Val::Text(s),
        None => Val::Null,
    }
}

/// Bytes, or `NULL` where there are none.
pub open spec fn blob_or_null(bytes: Option<Seq<u8>>) -> Val {
    match bytes {
        Some(b) => Val::Blob(b),
        None => Val::Null,
    }
}

/// A number, or `NULL` where there is none.
pub open spec fn int_or_null(n: Option<int>) -> Val {
    match n {
        Some(n) => Val::Int(n),
        None => Val::Null,
    }
}

/// The characters of an optional text.
pub open spec fn opt_text(text: Option<String>) -> Option<Seq<char>> {
    match text {
        Some(s) => Some(s@),
        None => None,
    }
}

/// The bytes of an optional blob.
pub open spec fn opt_bytes(bytes: Option<Vec<u8>>) -> Option<Seq<u8>> {
    match bytes {
        Some(b) => Some(b@),
        None => None,
    }
}

/// Byte strings in the order `memcmp` puts them, a prefix first.
pub open spec fn bytes_below(a: Seq<u8>, b: Seq<u8>) -> bool
    decreases a.len(),
{
    if b.len() == 0 {
        false
    } else if a.len() == 0 {
        true
    } else if a[0] != b[0] {
        a[0] < b[0]
    } else {
        bytes_below(a.drop_first(), b.drop_first())
    }
}

/// The place of a storage class in the database's order of all values.
pub open spec fn class_rank(v: Val) -> int {
    match v {
        Val::Null => 0,
        Val::Int(_) => 1,
        Val::Text(_) => 2,
        Val::Blob(_) => 3,
    }
}

/// The order in which the database sorts values: by storage class first, numbers by size,
/// text by its encoded bytes, blobs byte by byte.
pub open spec fn sorts_below(a: Val, b: Val) -> bool {
    if class_rank(a) != class_rank(b) {
        class_rank(a) < class_rank(b)
    } else {
        match (a, b) {
            (Val::Int(x), Val::Int(y)) => x < y,
            (Val::Text(x), Val::Text(y)) => bytes_below(
                vstd::utf8::encode_utf8(x),
                vstd::utf8::encode_utf8(y),
            ),
            (Val::Blob(x), Val::Blob(y)) => bytes_below(x, y),
            _ => false,
        }
    }
}

/// The larger of two values. `NULL` where either is `NULL`.
pub open spec fn larger(a: Val, b: Val) -> Val {
    if a is Null || b is Null {
        Val::Null
    } else if sorts_below(a, b) {
        b
    } else {
        a
    }
}

impl Value {
    /// A value with the same contents.
    pub fn copied(&self) -> (copy: Value)
        ensures
            copy@ == self@,
    {
        match self {
            Value::Null => Value::Null,
            Value::Int(n) => Value::Int(*n),
            Value::Text(s) => Value::Text(s.clone()),
            Value::Blob(b) => Value::Blob(copied_bytes(b)),
        }
    }

    /// Text as a value.
    pub fn text(s: &str) -> (v: Value)
        ensures
            v@ == Val::Text(s@),
    {
        Value::Text(s.to_owned())
    }

    /// Bytes as a value.
    pub fn blob(b: &[u8]) -> (v: Value)
        ensures
            v@ == Val::Blob(b@),
    {
        Value::Blob(vstd::slice::slice_to_vec(b))
    }

    /// A truth value as the database stores it.
    pub fn flag(b: bool) -> (v: Value)
        ensures
            v@ == flag(b),
    {
        Value::Int(if b {
            1
        } else {
            0
        })
    }

    /// Text, or `NULL` where there is none.
    pub fn text_or_null(s: &Option<String>) -> (v: Value)
        ensures
            v@ == text_or_null(opt_text(*s)),
    {
        match s {
            Some(s) => Value::Text(s.clone()),
            None => Value::Null,
        }
    }

    /// Bytes, or `NULL` where there are none.
    pub fn blob_or_null(b: &Option<Vec<u8>>) -> (v: Value)
        ensures
            v@ == blob_or_null(opt_bytes(*b)),
    {
        match b {
            Some(b) => Value::Blob(copied_bytes(b)),
            None => Value::Null,
        }
    }

    /// A number, or `NULL` where there is none.
    pub fn int_or_null(n: Option<i64>) -> (v: Value)
        ensures
            v@ == int_or_null(
                match n {
                    Some(n) => Some(n as int),
                    None => None,
                },
            ),
    {
        match n {
            Some(n) => Value::Int(n),
            None => Value::Null,
        }
    }
}

/// A copy of `bytes`.
pub fn copied_bytes(bytes: &Vec<u8>) -> (copy: Vec<u8>)
    ensures
        copy@ == bytes@,
{
    vstd::slice::slice_to_vec(bytes.as_slice())
}

} // verus!
