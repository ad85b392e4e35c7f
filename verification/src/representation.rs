//! How numbers, text and bytes are written down, read back and compared.

use crate::app_state::is_blob_pair;
use crate::cast::{as_blob, as_int, as_text, is_digit, leading_int, spelled};
use crate::error::{Fault, StoreError};
use crate::groups::is_status;
use crate::load::{narrowed, readable, unsigned};
use crate::mapping::is_mapping;
use crate::model::row_wf;
use crate::registry::is_record;
use crate::rows::{
    blob_at, int_at, is_mismatch, is_true, null_at, opt_blob_ok, opt_int_ok, opt_text_ok, row_view,
    rows_view, text_at, Rows,
};
use crate::schema::{key_columns, key_of, lemma_positions, pos, Column, Table};
use crate::secrets::is_secret;
use crate::signal::{answered, is_id_blob, is_text_blob};
use crate::text::{decimal, digit, signed_decimal};
use crate::tokens::{is_named_token, is_token};
use crate::value::{
    blob_or_null, bytes_below, flag, int_or_null, larger, opt_bytes, opt_text, sorts_below,
    text_or_null, Val, Value,
};
use vstd::prelude::*;
use vstd::utf8::{encode_utf8, is_ascii_chars, valid_utf8};

verus! {

// ---------------------------------------------------------------------------------------
// Numerals

/// A power of ten.
pub open spec fn power_of_ten(k: nat) -> nat
    decreases k,
{
    if k == 0 {
        1
    } else {
        10 * power_of_ten((k - 1) as nat)
    }
}

proof fn lemma_digit(n: nat)
    requires
        n < 10,
    ensures
        digit(n) as int == 48 + n,
        '0' <= digit(n) <= '9',
{
}

proof fn lemma_power(k: nat)
    ensures
        power_of_ten(k) >= 1,
    decreases k,
{
    if k > 0 {
        lemma_power((k - 1) as nat);
    }
}

proof fn lemma_last_place(n: nat)
    ensures
        power_of_ten(0) == 1,
        power_of_ten(1) == 10,
        n / power_of_ten(0) == n,
{
    reveal_with_fuel(power_of_ten, 2);
    assert(n as int / 1 == n);
}

/// Each character of a numeral is the digit for its power of ten, and there is no digit too few and
/// no leading zero too many.
pub proof fn law_numerals_are_place_values(n: nat)
    ensures
        ({
            let s = decimal(n);
            &&& s.len() >= 1
            &&& n < power_of_ten(s.len())
            &&& s.len() > 1 ==> power_of_ten((s.len() - 1) as nat) <= n
            &&& forall|i: int|
                0 <= i < s.len() ==> '0' <= #[trigger] s[i] <= '9' && s[i] as int - 48 == (n
                    / power_of_ten((s.len() - 1 - i) as nat)) % 10
        }),
    decreases n,
{
    let s = decimal(n);
    if n < 10 {
        lemma_digit(n);
        lemma_last_place(n);
        assert(s[0] == digit(n));
    } else {
        let head = decimal(n / 10);
        law_numerals_are_place_values(n / 10);
        lemma_digit(n % 10);
        let w = head.len();
        assert(power_of_ten(w + 1) == 10 * power_of_ten(w));
        assert(power_of_ten(w) == 10 * power_of_ten((w - 1) as nat));
        lemma_last_place(n);
        assert forall|i: int| 0 <= i < s.len() implies '0' <= #[trigger] s[i] <= '9' && s[i] as int
            - 48 == (n / power_of_ten((s.len() - 1 - i) as nat)) % 10 by {
            if i < w {
                let k = (w - 1 - i) as nat;
                assert(s[i] == head[i]);
                lemma_power(k);
                vstd::arithmetic::div_mod::lemma_div_denominator(
                    n as int,
                    10,
                    power_of_ten(k) as int,
                );
                assert(power_of_ten((k + 1) as nat) == 10 * power_of_ten(k));
            } else {
                assert(s[i] == digit(n % 10));
                lemma_last_place(n);
            }
        }
    }
}

/// The digits of a numeral as bytes of text.
proof fn lemma_numeral_bytes(n: nat)
    ensures
        encode_utf8(decimal(n)).len() == decimal(n).len(),
        forall|i: int|
            0 <= i < decimal(n).len() ==> is_digit(#[trigger] encode_utf8(decimal(n))[i])
                && encode_utf8(decimal(n))[i] == decimal(n)[i] as u8,
        is_ascii_chars(decimal(n)),
{
    let s = decimal(n);
    law_numerals_are_place_values(n);
    assert(is_ascii_chars(s)) by {
        assert forall|i: int| 0 <= i < s.len() implies '\0' <= #[trigger] s[i] <= '\u{7f}' by {
            assert('0' <= s[i] <= '9');
        }
    }
    vstd::utf8::is_ascii_chars_encode_utf8(s);
    assert forall|i: int| 0 <= i < s.len() implies is_digit(#[trigger] encode_utf8(s)[i])
        && encode_utf8(s)[i] == s[i] as u8 by {
        assert('0' <= s[i] <= '9');
        assert(s[i] as u8 == encode_utf8(s)[i]);
        lemma_small(s[i]);
    }
}

proof fn lemma_small(c: char)
    requires
        '0' <= c <= '9',
    ensures
        48 <= c as u8 <= 57,
        c as u8 as int == c as int,
{
}

/// One digit more makes a number ten times as large, and the digit larger.
proof fn lemma_one_digit_more(digits: Seq<u8>, d: u8, n: nat)
    requires
        forall|i: int| 0 <= i < digits.len() ==> is_digit(#[trigger] digits[i]),
        is_digit(d),
    ensures
        spelled(digits.push(d), n) == spelled(digits, n) * 10 + (d - 0x30),
    decreases digits.len(),
{
    let more = digits.push(d);
    reveal_with_fuel(spelled, 2);
    if digits.len() == 0 {
        assert(more.skip(1) =~= Seq::<u8>::empty());
        assert(more[0] == d);
    } else {
        let rest = digits.skip(1);
        assert(more.skip(1) =~= rest.push(d));
        assert(more[0] == digits[0]);
        assert(is_digit(digits[0]));
        assert forall|i: int| 0 <= i < rest.len() implies is_digit(#[trigger] rest[i]) by {
            assert(is_digit(digits[i + 1]));
        }
        lemma_one_digit_more(rest, d, n * 10 + (digits[0] - 0x30) as nat);
    }
}

/// What follows the digits does not count.
proof fn lemma_tail_does_not_count(digits: Seq<u8>, tail: Seq<u8>, n: nat)
    requires
        forall|i: int| 0 <= i < digits.len() ==> is_digit(#[trigger] digits[i]),
        tail.len() > 0 ==> !is_digit(tail[0]),
    ensures
        spelled(digits + tail, n) == spelled(digits, n),
    decreases digits.len(),
{
    let whole = digits + tail;
    if digits.len() == 0 {
        assert(whole =~= tail);
    } else {
        let rest = digits.skip(1);
        assert(whole.skip(1) =~= rest + tail);
        assert(whole[0] == digits[0]);
        assert(is_digit(digits[0]));
        assert forall|i: int| 0 <= i < rest.len() implies is_digit(#[trigger] rest[i]) by {
            assert(is_digit(digits[i + 1]));
        }
        lemma_tail_does_not_count(rest, tail, n * 10 + (digits[0] - 0x30) as nat);
    }
}

proof fn lemma_spelled(n: nat)
    ensures
        spelled(encode_utf8(decimal(n)), 0) == n,
    decreases n,
{
    let bytes = encode_utf8(decimal(n));
    lemma_numeral_bytes(n);
    if n < 10 {
        lemma_digit(n);
        lemma_small(decimal(n)[0]);
        assert(bytes =~= seq![(48 + n) as u8]);
        assert(bytes =~= Seq::<u8>::empty().push((48 + n) as u8));
        lemma_one_digit_more(Seq::<u8>::empty(), (48 + n) as u8, 0);
    } else {
        let head = encode_utf8(decimal(n / 10));
        lemma_numeral_bytes(n / 10);
        lemma_spelled(n / 10);
        lemma_digit(n % 10);
        lemma_small(digit(n % 10));
        let d = digit(n % 10) as u8;
        assert(bytes =~= head.push(d)) by {
            assert forall|i: int| 0 <= i < bytes.len() implies bytes[i] == head.push(d)[i] by {
                assert(bytes[i] == decimal(n)[i] as u8);
                if i < head.len() {
                    assert(head[i] == decimal(n / 10)[i] as u8);
                }
            }
        }
        lemma_one_digit_more(head, d, 0);
    }
}

/// A numeral reads back as its number, whatever follows that is no digit; one that 64 bits cannot
/// hold reads as the nearest number that they can.
pub proof fn law_numerals_read_back(n: int, tail: Seq<u8>)
    requires
        tail.len() > 0 ==> !(0x30 <= tail[0] <= 0x39),
    ensures
        ({
            let read = leading_int(encode_utf8(signed_decimal(n)) + tail);
            &&& i64::MIN <= n <= i64::MAX ==> read == n
            &&& n > i64::MAX ==> read == i64::MAX
            &&& n < i64::MIN ==> read == i64::MIN
        }),
        n >= 0 ==> leading_int(seq![0x2bu8] + encode_utf8(signed_decimal(n)) + tail) == leading_int(
            encode_utf8(signed_decimal(n)) + tail,
        ),
{
    let size = if n < 0 {
        (-n) as nat
    } else {
        n as nat
    };
    let digits = encode_utf8(decimal(size));
    lemma_numeral_bytes(size);
    law_numerals_are_place_values(size);
    lemma_spelled(size);
    lemma_tail_does_not_count(digits, tail, 0);
    let plain = digits + tail;
    assert(is_digit(digits[0]));
    assert(plain[0] == digits[0]);
    if n < 0 {
        let s = seq!['-'] + decimal(size);
        assert(is_ascii_chars(s)) by {
            assert forall|i: int| 0 <= i < s.len() implies '\0' <= #[trigger] s[i] <= '\u{7f}' by {
                if i > 0 {
                    assert(s[i] == decimal(size)[i - 1]);
                }
            }
        }
        vstd::utf8::is_ascii_chars_encode_utf8(s);
        let bytes = encode_utf8(s);
        assert(s[0] == '-');
        assert('-' as u8 == 0x2d);
        assert(bytes[0] == s[0] as u8);
        assert(bytes =~= seq![0x2du8] + digits) by {
            assert forall|i: int| 0 <= i < bytes.len() implies bytes[i] == (seq![0x2du8] + digits)[i] by {
                assert(bytes[i] == s[i] as u8);
                if i > 0 {
                    assert(s[i] == decimal(size)[i - 1]);
                    assert(digits[i - 1] == decimal(size)[i - 1] as u8);
                }
            }
        }
        let whole = bytes + tail;
        assert(whole[0] == 0x2d);
        assert(whole.skip(1) =~= plain);
    } else {
        let marked = seq![0x2bu8] + encode_utf8(signed_decimal(n)) + tail;
        assert(marked[0] == 0x2b);
        assert(marked.skip(1) =~= plain);
    }
}

/// White space in front of a numeral does not count, and what is no numeral reads as zero.
pub proof fn law_only_numerals_count(b: u8, rest: Seq<u8>)
    ensures
        b == 0x20 || b == 0x09 || b == 0x0a || b == 0x0b || b == 0x0c || b == 0x0d ==> leading_int(
            seq![b] + rest,
        ) == leading_int(rest),
        !(0x30 <= b <= 0x39) && b != 0x20 && !(0x09 <= b <= 0x0d) && b != 0x2b && b != 0x2d
            ==> leading_int(seq![b] + rest) == 0,
        leading_int(Seq::<u8>::empty()) == 0,
        (b == 0x2b || b == 0x2d) && (rest.len() == 0 || !(0x30 <= rest[0] <= 0x39)) ==> leading_int(
            seq![b] + rest,
        ) == 0,
        i64::MIN <= leading_int(rest) <= i64::MAX,
    decreases rest.len(),
{
    let whole = seq![b] + rest;
    assert(whole.skip(1) =~= rest);
    assert(whole[0] == b);
    if rest.len() > 0 {
        law_only_numerals_count(rest[0], rest.skip(1));
    }
}

// ---------------------------------------------------------------------------------------
// Reading a value

/// A value is read as it was stored where it is of the class that is asked for, text and its bytes
/// are read as each other, a number is read as its numeral, and `NULL` is read as none.
pub proof fn law_values_are_read_as_they_were_stored(n: i64, text: Seq<char>, bytes: Seq<u8>)
    ensures
        as_int(Val::Int(n as int)) == Some(n as int),
        as_text(Val::Text(text)) == Some(text),
        as_blob(Val::Blob(bytes)) == Some(bytes),
        as_blob(Val::Text(text)) == Some(encode_utf8(text)),
        as_text(Val::Blob(encode_utf8(text))) == Some(text),
        as_text(Val::Blob(bytes)) is Some <==> valid_utf8(bytes),
        as_text(Val::Blob(bytes)) matches Some(s) ==> encode_utf8(s) == bytes,
        as_text(Val::Int(n as int)) matches Some(s) && as_int(Val::Text(s)) == Some(n as int),
        as_blob(Val::Int(n as int)) matches Some(b) && as_int(Val::Blob(b)) == Some(n as int),
        as_int(Val::Text(text)) == as_int(Val::Blob(encode_utf8(text))),
        as_int(Val::Null) is None,
        as_text(Val::Null) is None,
        as_blob(Val::Null) is None,
{
    vstd::utf8::encode_utf8_valid_utf8(text);
    vstd::utf8::encode_utf8_decode_utf8(text);
    if valid_utf8(bytes) {
        vstd::utf8::decode_utf8_encode_utf8(bytes);
    }
    let numeral = encode_utf8(signed_decimal(n as int));
    law_numerals_read_back(n as int, seq![]);
    assert(numeral + Seq::<u8>::empty() =~= numeral);
}

/// The values of a row are read by their places, and beyond them there is none.
pub proof fn law_rows_are_read_by_place(row: Seq<Val>, i: int)
    ensures
        0 <= i < row.len() ==> {
            &&& int_at(row, i) == as_int(row[i])
            &&& text_at(row, i) == as_text(row[i])
            &&& blob_at(row, i) == as_blob(row[i])
            &&& null_at(row, i) <==> row[i] is Null
        },
        i < 0 || i >= row.len() ==> {
            &&& int_at(row, i) is None && text_at(row, i) is None && blob_at(row, i) is None
            &&& !null_at(row, i)
        },
{
}

/// A value is seen as what it holds, of its own class, and a text or bytes that may be missing as
/// missing where they are.
pub proof fn law_values_are_seen_as_they_are(n: i64, s: String, b: Vec<u8>, list: Vec<Value>)
    ensures
        Value::Null@ == Val::Null,
        Value::Int(n)@ == Val::Int(n as int),
        Value::Text(s)@ == Val::Text(s@),
        Value::Blob(b)@ == Val::Blob(b@),
        opt_text(Some(s)) == Some(s@),
        opt_text(None) is None,
        opt_bytes(Some(b)) == Some(b@),
        opt_bytes(None) is None,
        row_view(list).len() == list@.len(),
        forall|i: int| 0 <= i < list@.len() ==> row_view(list)[i] == (#[trigger] list@[i])@,
{
    assert forall|i: int| 0 <= i < list@.len() implies row_view(list)[i] == (#[trigger] list@[i])@ by {}
}

/// Rows are seen one by one, in their order.
pub proof fn law_rows_are_seen_one_by_one(rows: Rows)
    ensures
        rows_view(rows).len() == rows@.len(),
        forall|i: int| 0 <= i < rows@.len() ==> rows_view(rows)[i] == row_view(#[trigger] rows@[i]),
{
    assert forall|i: int| 0 <= i < rows@.len() implies rows_view(rows)[i] == row_view(
        #[trigger] rows@[i],
    ) by {}
}

/// A value can be read as a number or as bytes wherever it is there, and as text wherever it is
/// there and is text.
pub open spec fn is_there(v: Val) -> bool {
    v != Val::Null
}

/// A value that can be read as text.
pub open spec fn is_texty(v: Val) -> bool {
    &&& v != Val::Null
    &&& v matches Val::Blob(b) ==> valid_utf8(b)
}

/// A row can be read as what it is read as exactly where each of its values can be.
pub proof fn law_rows_are_readable_where_their_values_are(a: Val, b: Val, c: Val, d: Val, e: Val)
    ensures
        is_status(seq![a, b]) <==> is_texty(a) && is_there(b),
        is_blob_pair(seq![a, b]) <==> is_there(a) && is_there(b),
        is_secret(seq![a, b]) <==> is_there(a) && is_there(b),
        is_text_blob(seq![a, b]) <==> is_texty(a) && is_there(b),
        is_id_blob(seq![a, b]) <==> is_there(a) && is_there(b),
        is_token(seq![a, b, c], 0) <==> is_there(a) && is_there(b),
        is_named_token(seq![a, b, c, d]) <==> is_texty(a) && is_there(b) && is_there(c),
        is_mapping(seq![a, b, c, d, e]) <==> is_texty(a) && is_texty(b) && is_there(c) && is_texty(d)
            && is_there(e),
        is_record(seq![a, b, c, d, e]) <==> is_texty(a) && is_texty(b) && is_there(c) && (is_texty(d)
            || d == Val::Null),
        opt_text_ok(seq![a], 0) <==> is_texty(a) || a == Val::Null,
        opt_blob_ok(seq![a], 0),
        opt_int_ok(seq![a], 0),
{
}

/// An account can be read only where everything that it must have is there.
pub proof fn law_accounts_are_readable_where_they_are_complete(row: Seq<Val>)
    requires
        readable(row),
    ensures
        row.len() == 28,
        forall|c: Column|
            pos(Table::Device, c) >= 1 && c != Column::Account && c != Column::EdgeRoutingInfo && c
                != Column::PropsHash && c != Column::NctSalt && c != Column::ServerCertChain && c
                != Column::ServerClientExpiration ==> is_there(row[#[trigger] pos(Table::Device, c)]),
        is_texty(row[pos(Table::Device, Column::Pn)]),
        is_texty(row[pos(Table::Device, Column::Lid)]),
        is_texty(row[pos(Table::Device, Column::PushName)]),
{
}

/// A row that cannot be read is reported as a fault of the database of no special kind.
pub proof fn law_unreadable_rows_are_faults(error: StoreError)
    ensures
        is_mismatch(error) <==> (error matches StoreError::Database(Fault::Other(_))),
{
}

/// The answer to a question for existence is yes exactly where it is a number other than zero.
pub proof fn law_questions_are_answered(v: Val, n: i32)
    ensures
        answered(seq![]) is None,
        answered(seq![seq![v]]) is None <==> v == Val::Null,
        answered(seq![seq![Val::Int(n as int)]]) == Some(n != 0),
{
}

/// What may be missing is stored as `NULL` exactly where it is, reads back as it went in, and a
/// truth value is one or zero.
pub proof fn law_missing_values_are_null(
    text: Option<Seq<char>>,
    bytes: Option<Seq<u8>>,
    n: Option<int>,
    b: bool,
)
    ensures
        text is None <==> text_or_null(text) is Null,
        text is Some ==> text_or_null(text) is Text,
        as_text(text_or_null(text)) == text,
        bytes is None <==> blob_or_null(bytes) is Null,
        bytes is Some ==> blob_or_null(bytes) is Blob,
        as_blob(blob_or_null(bytes)) == bytes,
        n is None <==> int_or_null(n) is Null,
        n is Some ==> int_or_null(n) is Int,
        as_int(int_or_null(n)) == n,
        flag(b) matches Val::Int(m) && (m == 0 || m == 1) && is_true(m) == b && (m == 1) == b,
{
}

/// A number of 32 bits is a truth value by whether it is zero; read without a sign, it is itself or
/// 2^32 more; and a number that should have no sign reads as zero where it has one or is too large.
pub proof fn law_numbers_are_narrowed(n: int)
    ensures
        i32::MIN <= n <= i32::MAX ==> (is_true(n) <==> n != 0),
        0 <= n <= i32::MAX ==> unsigned(n) == n,
        i32::MIN <= n < 0 ==> unsigned(n) == n + 0x1_0000_0000,
        0 <= n <= u32::MAX ==> narrowed(n) == n,
        n < 0 || n > u32::MAX ==> narrowed(n) == 0,
{
    if i32::MIN <= n <= i32::MAX {
        lemma_sign(n as i32);
    }
}

/// Of a number that 32 bits cannot hold the low 32 bits are read: it is what is left of it by 2^32.
pub proof fn law_numbers_are_cut_to_their_low_bits(n: i64)
    ensures
        unsigned(n as int) == n % 0x1_0000_0000,
        is_true(n as int) <==> n % 0x1_0000_0000 != 0,
        (n - (n as i32)) % 0x1_0000_0000 == 0,
{
    lemma_low_bits(n);
    lemma_sign(n as i32);
}

proof fn lemma_low_bits(n: i64)
    by (bit_vector)
    ensures
        ((n as i32) as u32) as i64 == n % 0x1_0000_0000i64,
{
}

proof fn lemma_sign(n: i32)
    by (bit_vector)
    ensures
        n >= 0 ==> n as u32 == n,
        n < 0 ==> n as u32 == n + 0x1_0000_0000,
{
}

// ---------------------------------------------------------------------------------------
// Order

/// Bytes are ordered by the first at which they differ; where there is none, the shorter come
/// first.
pub proof fn law_bytes_are_ordered_by_their_first_difference(
    same: Seq<u8>,
    x: u8,
    y: u8,
    a: Seq<u8>,
    b: Seq<u8>,
)
    ensures
        !bytes_below(same, same),
        bytes_below(same, same + a) <==> a.len() > 0,
        !bytes_below(same + a, same),
        x < y ==> bytes_below(same + seq![x] + a, same + seq![y] + b) && !bytes_below(
            same + seq![y] + b,
            same + seq![x] + a,
        ),
    decreases same.len(),
{
    let p = same + seq![x] + a;
    let q = same + seq![y] + b;
    let long = same + a;
    if same.len() == 0 {
        assert(p[0] == x);
        assert(q[0] == y);
        assert(long =~= a);
    } else {
        let rest = same.drop_first();
        law_bytes_are_ordered_by_their_first_difference(rest, x, y, a, b);
        assert(p.drop_first() =~= rest + seq![x] + a);
        assert(q.drop_first() =~= rest + seq![y] + b);
        assert(long.drop_first() =~= rest + a);
        assert(p[0] == same[0] && q[0] == same[0] && long[0] == same[0]);
    }
}

/// `NULL` comes before numbers, numbers before text and text before bytes. Numbers are ordered by
/// size, and text by the bytes that encode it.
pub proof fn law_classes_come_in_order(
    m: int,
    n: int,
    s: Seq<char>,
    t: Seq<char>,
    a: Seq<u8>,
    b: Seq<u8>,
)
    ensures
        sorts_below(Val::Null, Val::Int(n)) && !sorts_below(Val::Int(n), Val::Null),
        sorts_below(Val::Null, Val::Text(s)) && !sorts_below(Val::Text(s), Val::Null),
        sorts_below(Val::Null, Val::Blob(a)) && !sorts_below(Val::Blob(a), Val::Null),
        sorts_below(Val::Int(n), Val::Text(s)) && !sorts_below(Val::Text(s), Val::Int(n)),
        sorts_below(Val::Int(n), Val::Blob(a)) && !sorts_below(Val::Blob(a), Val::Int(n)),
        sorts_below(Val::Text(s), Val::Blob(a)) && !sorts_below(Val::Blob(a), Val::Text(s)),
        sorts_below(Val::Int(m), Val::Int(n)) <==> m < n,
        sorts_below(Val::Text(s), Val::Text(t)) <==> sorts_below(
            Val::Blob(encode_utf8(s)),
            Val::Blob(encode_utf8(t)),
        ),
        sorts_below(Val::Blob(a), Val::Blob(b)) <==> bytes_below(a, b),
        !sorts_below(Val::Null, Val::Null),
{
}

proof fn lemma_not_both(a: Seq<u8>, b: Seq<u8>)
    ensures
        !(bytes_below(a, b) && bytes_below(b, a)),
        bytes_below(a, b) || bytes_below(b, a) || a == b,
    decreases a.len(),
{
    if a.len() > 0 && b.len() > 0 {
        lemma_not_both(a.drop_first(), b.drop_first());
        if a[0] == b[0] && a.drop_first() == b.drop_first() {
            assert(a =~= seq![a[0]] + a.drop_first());
            assert(b =~= seq![b[0]] + b.drop_first());
        }
    } else if a.len() == 0 && b.len() == 0 {
        assert(a =~= b);
    }
}

/// The larger of two values is one of them, neither is above it, and it is `NULL` exactly where one
/// of them is.
pub proof fn law_the_larger_is_one_of_the_two(a: Val, b: Val)
    ensures
        larger(a, b) is Null <==> a is Null || b is Null,
        !(a is Null) && !(b is Null) ==> {
            &&& larger(a, b) == a || larger(a, b) == b
            &&& !sorts_below(larger(a, b), a)
            &&& !sorts_below(larger(a, b), b)
        },
{
    match (a, b) {
        (Val::Text(s), Val::Text(t)) => lemma_not_both(encode_utf8(s), encode_utf8(t)),
        (Val::Blob(s), Val::Blob(t)) => lemma_not_both(s, t),
        _ => {},
    }
    match a {
        Val::Text(s) => lemma_not_both(encode_utf8(s), encode_utf8(s)),
        Val::Blob(s) => lemma_not_both(s, s),
        _ => {},
    }
    match b {
        Val::Text(s) => lemma_not_both(encode_utf8(s), encode_utf8(s)),
        Val::Blob(s) => lemma_not_both(s, s),
        _ => {},
    }
}

// ---------------------------------------------------------------------------------------
// Identity

/// Two rows of a table are under one key exactly where they agree in all its key columns.
pub proof fn law_rows_are_identified_by_their_key_columns(t: Table, a: Seq<Val>, b: Seq<Val>)
    requires
        row_wf(t, a),
        row_wf(t, b),
    ensures
        key_of(t, a) == key_of(t, b) <==> forall|c: Column|
            key_columns(t).contains(c) ==> a[#[trigger] pos(t, c)] == b[pos(t, c)],
{
    lemma_positions(t);
    let ks = key_columns(t);
    if forall|c: Column| ks.contains(c) ==> a[#[trigger] pos(t, c)] == b[pos(t, c)] {
        assert forall|i: int| 0 <= i < ks.len() implies a[pos(t, #[trigger] ks[i])] == b[pos(
            t,
            ks[i],
        )] by {
            assert(ks.contains(ks[i]));
        }
        lemma_agree(t, a, b);
    } else {
        let c = choose|c: Column| ks.contains(c) && a[#[trigger] pos(t, c)] != b[pos(t, c)];
        assert(ks.contains(c));
        let i = choose|i: int| 0 <= i < ks.len() && ks[i] == c;
        assert(a[pos(t, ks[i])] != b[pos(t, ks[i])]);
        assert(i == 0 || i == 1 || i == 2 || i == 3);
    }
}

proof fn lemma_agree(t: Table, a: Seq<Val>, b: Seq<Val>)
    requires
        forall|i: int|
            0 <= i < key_columns(t).len() ==> a[pos(t, #[trigger] key_columns(t)[i])] == b[pos(
                t,
                key_columns(t)[i],
            )],
    ensures
        key_of(t, a) == key_of(t, b),
{
    let ks = key_columns(t);
    assert(a[pos(t, ks[0])] == b[pos(t, ks[0])]);
    if ks.len() > 1 {
        assert(a[pos(t, ks[1])] == b[pos(t, ks[1])]);
    }
    if ks.len() > 2 {
        assert(a[pos(t, ks[2])] == b[pos(t, ks[2])]);
    }
    if ks.len() > 3 {
        assert(a[pos(t, ks[3])] == b[pos(t, ks[3])]);
    }
}

} // verus!
