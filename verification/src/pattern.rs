//! `LIKE`, as the database matches it.

use crate::text::signed_decimal;
use crate::value::Val;
use vstd::prelude::*;
use vstd::utf8::{
    char_is_scalar, encode_scalar, encode_utf8, is_scalar, last_continuation_byte,
    leading_byte_width_1, leading_byte_width_2, leading_byte_width_3, leading_byte_width_4,
    second_last_continuation_byte, third_last_continuation_byte,
};

verus! {

/// A code point above ASCII as the database reads it: what is no character, and what ASCII has a
/// shorter form for, reads as the replacement character.
pub open spec fn settled(n: int) -> int {
    if n < 0x80 || 0xd800 <= n <= 0xdfff || n == 0xfffe || n == 0xffff {
        0xfffd
    } else {
        n
    }
}

/// The code points of a text, up to its first NUL.
pub open spec fn text_points(text: Seq<char>) -> Seq<int>
    decreases text.len(),
{
    if text.len() == 0 || text[0] == '\0' {
        seq![]
    } else {
        let n = text[0] as int;
        seq![
            if n < 0x80 {
                n
            } else {
                settled(n)
            },
        ] + text_points(text.drop_first())
    }
}

/// The bits that the first byte of several contributes to a code point.
pub open spec fn lead_bits(b: u8) -> int {
    if b < 0xe0 {
        (b - 0xc0) as int
    } else if b < 0xf0 {
        (b - 0xe0) as int
    } else if b < 0xf8 {
        (b - 0xf0) as int
    } else if b < 0xfc {
        (b - 0xf8) as int
    } else if b < 0xfe {
        (b - 0xfc) as int
    } else {
        0
    }
}

/// The code points of bytes, up to their first NUL, whether or not they are UTF-8: a byte from
/// 0xc0 on begins a code point, and every byte of the form `10xxxxxx` behind it adds its six
/// bits, within thirty-two. `begun` is the code point that is being read.
pub open spec fn byte_points(bytes: Seq<u8>, begun: Option<int>) -> Seq<int>
    decreases bytes.len(), if begun is Some { 1int } else { 0int },
{
    match begun {
        Some(n) => if bytes.len() > 0 && 0x80 <= bytes[0] < 0xc0 {
            byte_points(
                bytes.drop_first(),
                Some(((n * 64 + (bytes[0] - 0x80)) % 0x1_0000_0000) as int),
            )
        } else {
            seq![settled(n)] + byte_points(bytes, None)
        },
        None => if bytes.len() == 0 || bytes[0] == 0 {
            seq![]
        } else if bytes[0] < 0xc0 {
            seq![bytes[0] as int] + byte_points(bytes.drop_first(), None)
        } else {
            byte_points(bytes.drop_first(), Some(lead_bits(bytes[0])))
        },
    }
}

/// The code points that a value is matched by.
pub open spec fn points(v: Val) -> Seq<int> {
    match v {
        Val::Null => seq![],
        Val::Int(n) => text_points(signed_decimal(n)),
        Val::Text(s) => text_points(s),
        Val::Blob(b) => byte_points(b, None),
    }
}

/// An ASCII letter in lower case; any other code point as it is.
pub open spec fn folded(n: int) -> int {
    if 'A' as int <= n <= 'Z' as int {
        n + 32
    } else {
        n
    }
}

/// `%` stands for any code points, `_` for any one, and ASCII letters match in either case.
pub open spec fn fits_points(pattern: Seq<int>, text: Seq<int>) -> bool
    decreases pattern.len() + text.len(),
{
    if pattern.len() == 0 {
        text.len() == 0
    } else if pattern[0] == '%' as int {
        fits_points(pattern.drop_first(), text) || (text.len() > 0 && fits_points(
            pattern,
            text.drop_first(),
        ))
    } else if text.len() == 0 {
        false
    } else {
        (pattern[0] == '_' as int || folded(pattern[0]) == folded(text[0])) && fits_points(
            pattern.drop_first(),
            text.drop_first(),
        )
    }
}

/// `LIKE`: whether a value matches a pattern. `NULL` matches none. A number is matched as it is
/// written, bytes as the text they encode, and both sides end at a NUL. A build of SQLite with
/// `SQLITE_LIKE_DOESNT_MATCH_BLOBS` matches no bytes; the bundled one is built without it.
pub open spec fn like(pattern: Seq<char>, v: Val) -> bool {
    !(v is Null) && fits_points(text_points(pattern), points(v))
}

// ---------------------------------------------------------------------------------------
// Laws

proof fn lemma_one_byte(c: u32)
    by (bit_vector)
    requires
        c <= 0x7f,
    ensures
        leading_byte_width_1(c) == c,
{
}

proof fn lemma_two_bytes(c: u32)
    by (bit_vector)
    requires
        0x80 <= c <= 0x7ff,
    ensures
        0xc0 <= leading_byte_width_2(c) < 0xe0,
        0x80 <= last_continuation_byte(c) < 0xc0,
        (leading_byte_width_2(c) - 0xc0) * 64 + (last_continuation_byte(c) - 0x80) == c,
{
}

proof fn lemma_three_bytes(c: u32)
    by (bit_vector)
    requires
        0x800 <= c <= 0xffff,
    ensures
        0xe0 <= leading_byte_width_3(c) < 0xf0,
        0x80 <= second_last_continuation_byte(c) < 0xc0,
        0x80 <= last_continuation_byte(c) < 0xc0,
        ((leading_byte_width_3(c) - 0xe0) * 64 + (second_last_continuation_byte(c) - 0x80)) * 64 + (
        last_continuation_byte(c) - 0x80) == c,
{
}

proof fn lemma_four_bytes(c: u32)
    by (bit_vector)
    requires
        0x10000 <= c <= 0x10ffff,
    ensures
        0xf0 <= leading_byte_width_4(c) < 0xf8,
        0x80 <= third_last_continuation_byte(c) < 0xc0,
        0x80 <= second_last_continuation_byte(c) < 0xc0,
        0x80 <= last_continuation_byte(c) < 0xc0,
        (((leading_byte_width_4(c) - 0xf0) * 64 + (third_last_continuation_byte(c) - 0x80)) * 64 + (
        second_last_continuation_byte(c) - 0x80)) * 64 + (last_continuation_byte(c) - 0x80) == c,
{
}

/// A character is the number of its code point.
proof fn lemma_char(c: char)
    ensures
        c as u32 == c as int,
        is_scalar(c as u32),
{
    char_is_scalar(c);
}

/// Bytes do not go on with a code point that was begun before them.
spec fn starts_anew(bytes: Seq<u8>) -> bool {
    bytes.len() > 0 ==> !(0x80 <= bytes[0] < 0xc0)
}

/// The bytes of a character are read as its code point.
proof fn lemma_character(c: u32, rest: Seq<u8>)
    requires
        is_scalar(c),
        c != 0,
        starts_anew(rest),
    ensures
        starts_anew(encode_scalar(c)),
        byte_points(encode_scalar(c) + rest, None) == seq![
            if c < 0x80 {
                c as int
            } else {
                settled(c as int)
            },
        ] + byte_points(rest, None),
{
    let bytes = encode_scalar(c) + rest;
    let one = bytes.drop_first();
    if c <= 0x7f {
        lemma_one_byte(c);
        assert(one =~= rest);
    } else if c <= 0x7ff {
        lemma_two_bytes(c);
        let two = one.drop_first();
        assert(two =~= rest);
        assert(byte_points(one, Some(lead_bits(bytes[0]))) == byte_points(two, Some(c as int)));
    } else if c <= 0xffff {
        lemma_three_bytes(c);
        let two = one.drop_first();
        let three = two.drop_first();
        assert(three =~= rest);
        let n = lead_bits(bytes[0]) * 64 + (bytes[1] - 0x80);
        assert(byte_points(one, Some(lead_bits(bytes[0]))) == byte_points(two, Some(n)));
        assert(byte_points(two, Some(n)) == byte_points(three, Some(c as int)));
    } else {
        lemma_four_bytes(c);
        let two = one.drop_first();
        let three = two.drop_first();
        let four = three.drop_first();
        assert(four =~= rest);
        let n = lead_bits(bytes[0]) * 64 + (bytes[1] - 0x80);
        let m = n * 64 + (bytes[2] - 0x80);
        assert(byte_points(one, Some(lead_bits(bytes[0]))) == byte_points(two, Some(n)));
        assert(byte_points(two, Some(n)) == byte_points(three, Some(m)));
        assert(byte_points(three, Some(m)) == byte_points(four, Some(c as int)));
    }
}

/// Bytes that are a text are matched as that text is.
pub proof fn law_encoded_text_is_matched_as_text(text: Seq<char>)
    ensures
        points(Val::Blob(encode_utf8(text))) == points(Val::Text(text)),
{
    lemma_text(text);
}

proof fn lemma_text(text: Seq<char>)
    ensures
        byte_points(encode_utf8(text), None) == text_points(text),
        starts_anew(encode_utf8(text)),
    decreases text.len(),
{
    if text.len() > 0 {
        let c = text[0] as u32;
        lemma_char(text[0]);
        lemma_char('\0');
        lemma_text(text.drop_first());
        if c == 0 {
            lemma_one_byte(c);
            assert(encode_utf8(text)[0] == 0);
        } else {
            lemma_character(c, encode_utf8(text.drop_first()));
            assert(encode_utf8(text)[0] == encode_scalar(c)[0]);
        }
    }
}

/// A pattern without percent signs fits text of its own length, character by character: an
/// underscore fits any, and a letter of the alphabet fits itself in either case.
pub proof fn law_patterns_fit_one_by_one(pattern: Seq<int>, text: Seq<int>)
    requires
        !pattern.contains('%' as int),
    ensures
        fits_points(pattern, text) <==> pattern.len() == text.len() && forall|i: int|
            0 <= i < pattern.len() ==> (#[trigger] pattern[i] == '_' as int || folded(pattern[i])
                == folded(text[i])),
    decreases pattern.len(),
{
    if pattern.len() > 0 {
        assert(pattern.contains(pattern[0]));
        let rest = pattern.drop_first();
        assert(!rest.contains('%' as int)) by {
            if rest.contains('%' as int) {
                let i = choose|i: int| 0 <= i < rest.len() && rest[i] == '%' as int;
                assert(pattern[i + 1] == '%' as int);
            }
        }
        if text.len() > 0 {
            let tail = text.drop_first();
            law_patterns_fit_one_by_one(rest, tail);
            let fit = |p: Seq<int>, t: Seq<int>|
                p.len() == t.len() && forall|i: int|
                    0 <= i < p.len() ==> (#[trigger] p[i] == '_' as int || folded(p[i]) == folded(
                        t[i],
                    ));
            if fit(pattern, text) {
                assert(pattern[0] == '_' as int || folded(pattern[0]) == folded(text[0]));
                assert forall|i: int| 0 <= i < rest.len() implies (#[trigger] rest[i] == '_' as int
                    || folded(rest[i]) == folded(tail[i])) by {
                    assert(pattern[i + 1] == '_' as int || folded(pattern[i + 1]) == folded(
                        text[i + 1],
                    ));
                }
                assert(fit(rest, tail));
            }
            if fits_points(pattern, text) {
                assert forall|i: int| 0 <= i < pattern.len() implies (#[trigger] pattern[i]
                    == '_' as int || folded(pattern[i]) == folded(text[i])) by {
                    if i > 0 {
                        assert(rest[i - 1] == '_' as int || folded(rest[i - 1]) == folded(
                            tail[i - 1],
                        ));
                    }
                }
            }
        }
    }
}

/// A percent sign fits any number of characters, and none.
pub proof fn law_percent_signs_fit_anything(pattern: Seq<int>, text: Seq<int>)
    ensures
        fits_points(seq!['%' as int] + pattern, text) <==> exists|k: int|
            0 <= k <= text.len() && fits_points(pattern, #[trigger] text.skip(k)),
    decreases text.len(),
{
    let whole = seq!['%' as int] + pattern;
    assert(whole.drop_first() =~= pattern);
    assert(whole[0] == '%' as int);
    assert(text.skip(0) =~= text);
    if text.len() > 0 {
        let tail = text.drop_first();
        law_percent_signs_fit_anything(pattern, tail);
        if fits_points(whole, tail) {
            let k = choose|k: int| 0 <= k <= tail.len() && fits_points(
                pattern,
                #[trigger] tail.skip(k),
            );
            assert(text.skip(k + 1) =~= tail.skip(k));
        }
        if exists|k: int| 0 <= k <= text.len() && fits_points(pattern, #[trigger] text.skip(k)) {
            let k = choose|k: int| 0 <= k <= text.len() && fits_points(
                pattern,
                #[trigger] text.skip(k),
            );
            if k > 0 {
                assert(tail.skip(k - 1) =~= text.skip(k));
            }
        }
    } else {
        assert forall|k: int| 0 <= k <= text.len() implies #[trigger] text.skip(k) =~= text by {}
    }
}

} // verus!
