//! Reading a value as a number, a text or bytes, whatever the class it is stored under: what is
//! stored under another class than its column's is converted on the way out.

use crate::text::{append_signed, signed_decimal, text_from_utf8};
use crate::value::{copied_bytes, Val, Value};
use vstd::prelude::*;
use vstd::utf8::{decode_utf8, encode_utf8, valid_utf8};

verus! {

/// White space in front of a numeral.
pub open spec fn is_space(b: u8) -> bool {
    b == 0x20 || 0x09 <= b <= 0x0d
}

/// A decimal digit.
pub open spec fn is_digit(b: u8) -> bool {
    0x30 <= b <= 0x39
}

/// The number that the digits in front of `bytes` go on to spell after `n`.
pub open spec fn spelled(bytes: Seq<u8>, n: nat) -> nat
    decreases bytes.len(),
{
    if bytes.len() > 0 && is_digit(bytes[0]) {
        spelled(bytes.skip(1), n * 10 + (bytes[0] - 0x30) as nat)
    } else {
        n
    }
}

/// The 64-bit number closest to `n`.
pub open spec fn clamped(n: int) -> int {
    if n < i64::MIN {
        i64::MIN as int
    } else if n > i64::MAX {
        i64::MAX as int
    } else {
        n
    }
}

/// The number that `bytes` begin with, after white space and a sign. Zero where they begin with
/// none.
pub open spec fn leading_int(bytes: Seq<u8>) -> int
    decreases bytes.len(),
{
    if bytes.len() == 0 {
        0
    } else if is_space(bytes[0]) {
        leading_int(bytes.skip(1))
    } else if bytes[0] == 0x2d {
        clamped(-spelled(bytes.skip(1), 0))
    } else if bytes[0] == 0x2b {
        clamped(spelled(bytes.skip(1), 0) as int)
    } else {
        clamped(spelled(bytes, 0) as int)
    }
}

/// The value as a number. `NULL` is none.
pub open spec fn as_int(v: Val) -> Option<int> {
    match v {
        Val::Null => None,
        Val::Int(n) => Some(n),
        Val::Text(s) => Some(leading_int(encode_utf8(s))),
        Val::Blob(b) => Some(leading_int(b)),
    }
}

/// The value as text. `NULL` is none, and so are bytes that are not UTF-8.
pub open spec fn as_text(v: Val) -> Option<Seq<char>> {
    match v {
        Val::Null => None,
        Val::Int(n) => Some(signed_decimal(n)),
        Val::Text(s) => Some(s),
        Val::Blob(b) => if valid_utf8(b) {
            Some(decode_utf8(b))
        } else {
            None
        },
    }
}

/// The value as bytes. `NULL` is none.
pub open spec fn as_blob(v: Val) -> Option<Seq<u8>> {
    match v {
        Val::Null => None,
        Val::Int(n) => Some(encode_utf8(signed_decimal(n))),
        Val::Text(s) => Some(encode_utf8(s)),
        Val::Blob(b) => Some(b),
    }
}

/// The size of the digits in `bytes` from a place on, up to what 63 bits cannot hold.
fn digits_from(bytes: &[u8], from: usize) -> (size: u64)
    requires
        from <= bytes@.len(),
    ensures
        spelled(bytes@.skip(from as int), 0) <= i64::MAX ==> size == spelled(
            bytes@.skip(from as int),
            0,
        ),
        spelled(bytes@.skip(from as int), 0) > i64::MAX ==> size == 0x8000_0000_0000_0000,
{
    let mut size: u64 = 0;
    let mut i: usize = from;
    let ghost mut n: nat = 0;
    while i < bytes.len() && 0x30 <= bytes[i] && bytes[i] <= 0x39
        invariant
            from <= i <= bytes@.len(),
            n <= i64::MAX ==> size == n,
            n > i64::MAX ==> size == 0x8000_0000_0000_0000,
            spelled(bytes@.skip(from as int), 0) == spelled(bytes@.skip(i as int), n),
        decreases bytes.len() - i,
    {
        let d: u64 = (bytes[i] - 0x30) as u64;
        proof {
            assert(bytes@.skip(i as int).skip(1) =~= bytes@.skip(i + 1));
            n = n * 10 + d as nat;
        }
        size = if size > 922_337_203_685_477_580 || size * 10 + d > 0x8000_0000_0000_0000 {
            0x8000_0000_0000_0000
        } else {
            size * 10 + d
        };
        i = i + 1;
    }
    size
}

/// The number that `bytes` begin with.
pub fn int_from(bytes: &[u8]) -> (n: i64)
    ensures
        n == leading_int(bytes@),
{
    let mut i: usize = 0;
    assert(bytes@.skip(0) =~= bytes@);
    while i < bytes.len() && (bytes[i] == 0x20 || (0x09 <= bytes[i] && bytes[i] <= 0x0d))
        invariant
            i <= bytes@.len(),
            leading_int(bytes@) == leading_int(bytes@.skip(i as int)),
        decreases bytes.len() - i,
    {
        assert(bytes@.skip(i as int).skip(1) =~= bytes@.skip(i + 1));
        i = i + 1;
    }
    if i == bytes.len() {
        return 0;
    }
    let negative = bytes[i] == 0x2d;
    let signed = negative || bytes[i] == 0x2b;
    assert(bytes@.skip(i as int).skip(1) =~= bytes@.skip(i + 1));
    let size = digits_from(
        bytes,
        if signed {
            i + 1
        } else {
            i
        },
    );
    if negative {
        if size == 0x8000_0000_0000_0000 {
            i64::MIN
        } else {
            -(size as i64)
        }
    } else if size == 0x8000_0000_0000_0000 {
        i64::MAX
    } else {
        size as i64
    }
}

impl Value {
    /// The value as a number.
    pub fn to_int(&self) -> (n: Option<i64>)
        ensures
            match as_int(self@) {
                Some(x) => n matches Some(y) && x == y,
                None => n is None,
            },
    {
        match self {
            Value::Null => None,
            Value::Int(n) => Some(*n),
            Value::Text(s) => Some(int_from(s.as_str().as_bytes())),
            Value::Blob(b) => Some(int_from(b.as_slice())),
        }
    }

    /// The value as text.
    pub fn to_text(&self) -> (text: Option<String>)
        ensures
            crate::value::opt_text(text) == as_text(self@),
    {
        match self {
            Value::Null => None,
            Value::Int(n) => {
                let mut text = String::new();
                append_signed(&mut text, *n);
                assert(text@ =~= signed_decimal(*n as int));
                Some(text)
            },
            Value::Text(s) => Some(s.clone()),
            Value::Blob(b) => text_from_utf8(copied_bytes(b)),
        }
    }

    /// The value as bytes.
    pub fn to_bytes(&self) -> (bytes: Option<Vec<u8>>)
        ensures
            crate::value::opt_bytes(bytes) == as_blob(self@),
    {
        match self {
            Value::Null => None,
            Value::Int(n) => {
                let mut text = String::new();
                append_signed(&mut text, *n);
                assert(text@ =~= signed_decimal(*n as int));
                Some(vstd::slice::slice_to_vec(text.as_str().as_bytes()))
            },
            Value::Text(s) => Some(vstd::slice::slice_to_vec(s.as_str().as_bytes())),
            Value::Blob(b) => Some(copied_bytes(b)),
        }
    }
}

} // verus!
