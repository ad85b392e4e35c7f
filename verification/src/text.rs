//! Small operations on text: characters in and out of strings, and decimal numerals.

use vstd::prelude::*;
use vstd::utf8::{decode_utf8, valid_utf8};

verus! {

broadcast use {vstd::string::group_string_axioms, vstd::seq::group_seq_axioms};

/// `String::push` appends the one character given, as its documentation says.
pub assume_specification[ String::push ](text: &mut String, c: char)
    ensures
        final(text)@ == old(text)@.push(c),
;

/// `String::from_utf8`: bytes that are valid UTF-8 become the string they encode,
/// any other bytes are refused.
#[verifier::external_body]
pub(crate) fn text_from_utf8(bytes: Vec<u8>) -> (text: Option<String>)
    ensures
        text is Some <==> valid_utf8(bytes@),
        text matches Some(s) ==> s@ == decode_utf8(bytes@),
{
    String::from_utf8(bytes).ok()
}

/// The characters of `text`, in order.
pub fn chars_of(text: &str) -> (chars: Vec<char>)
    ensures
        chars@ == text@,
{
    let mut chars: Vec<char> = Vec::new();
    for c in it: text.chars()
        invariant
            chars@ == text@.take(it.index() as int),
            it.seq() == text@,
    {
        chars.push(c);
        assert(text@.take(it.index() as int).push(c) =~= text@.take(it.index() + 1));
    }
    assert(text@.take(text@.len() as int) =~= text@);
    chars
}

/// The text that `chars[from..to]` spells.
pub fn text_between(chars: &Vec<char>, from: usize, to: usize) -> (text: String)
    requires
        from <= to <= chars@.len(),
    ensures
        text@ == chars@.subrange(from as int, to as int),
{
    let mut text: String = String::new();
    let mut i: usize = from;
    while i < to
        invariant
            from <= i <= to <= chars@.len(),
            text@ == chars@.subrange(from as int, i as int),
        decreases to - i,
    {
        text.push(chars[i]);
        i = i + 1;
        assert(chars@.subrange(from as int, i as int) =~= chars@.subrange(
            from as int,
            i - 1,
        ).push(chars@[i - 1]));
    }
    text
}

/// The decimal digit of a number below ten.
pub open spec fn digit(n: nat) -> char
    recommends
        n < 10,
{
    ('0' as u32 + n) as char
}

/// `n` written in base ten, without leading zeros.
pub open spec fn decimal(n: nat) -> Seq<char>
    decreases n,
{
    if n < 10 {
        seq![digit(n)]
    } else {
        decimal(n / 10).push(digit(n % 10))
    }
}

/// `n` written in base ten, with a minus sign where it is negative.
pub open spec fn signed_decimal(n: int) -> Seq<char> {
    if n < 0 {
        seq!['-'] + decimal((-n) as nat)
    } else {
        decimal(n as nat)
    }
}

/// The digit of a number below ten, as a character.
fn digit_char(n: u64) -> (c: char)
    requires
        n < 10,
    ensures
        c == digit(n as nat),
{
    match n {
        0 => '0',
        1 => '1',
        2 => '2',
        3 => '3',
        4 => '4',
        5 => '5',
        6 => '6',
        7 => '7',
        8 => '8',
        _ => '9',
    }
}

/// Appends `n` in base ten.
pub fn append_decimal(text: &mut String, n: u64)
    ensures
        final(text)@ == old(text)@ + decimal(n as nat),
    decreases n,
{
    if n >= 10 {
        append_decimal(text, n / 10);
    }
    text.push(digit_char(n % 10));
    proof {
        if n >= 10 {
            assert((old(text)@ + decimal((n / 10) as nat)).push(digit((n % 10) as nat)) =~= old(
                text,
            )@ + decimal((n / 10) as nat).push(digit((n % 10) as nat)));
        } else {
            assert(old(text)@.push(digit(n as nat)) =~= old(text)@ + seq![digit(n as nat)]);
        }
    }
}

/// Appends `n` in base ten, with a minus sign where it is negative.
pub fn append_signed(text: &mut String, n: i64)
    ensures
        final(text)@ == old(text)@ + signed_decimal(n as int),
{
    if n < 0 {
        text.push('-');
        let size: u64 = if n == i64::MIN {
            0x8000_0000_0000_0000
        } else {
            (-n) as u64
        };
        append_decimal(text, size);
        assert(old(text)@.push('-') + decimal((-n) as nat) =~= old(text)@ + (seq!['-'] + decimal(
            (-n) as nat,
        )));
    } else {
        append_decimal(text, n as u64);
    }
}

/// `part` stands in `whole` at place `i`.
pub open spec fn occurs_at(whole: Seq<char>, part: Seq<char>, i: int) -> bool {
    0 <= i && i + part.len() <= whole.len() && whole.subrange(i, i + part.len()) == part
}

/// `part` stands somewhere in `whole`.
pub open spec fn occurs_in(whole: Seq<char>, part: Seq<char>) -> bool {
    exists|i: int| #[trigger] occurs_at(whole, part, i)
}

/// `whole` begins with `part`.
pub open spec fn starts_with(whole: Seq<char>, part: Seq<char>) -> bool {
    occurs_at(whole, part, 0)
}

/// Whether `part` stands in `whole` at place `i`.
pub fn is_at(whole: &Vec<char>, part: &Vec<char>, i: usize) -> (b: bool)
    ensures
        b == occurs_at(whole@, part@, i as int),
{
    if i > whole.len() || part.len() > whole.len() - i {
        return false;
    }
    let mut j: usize = 0;
    while j < part.len()
        invariant
            j <= part.len(),
            i + part.len() <= whole.len(),
            forall|k: int| 0 <= k < j ==> whole@[i + k] == part@[k],
        decreases part.len() - j,
    {
        if whole[i + j] != part[j] {
            assert(whole@.subrange(i as int, i + part@.len())[j as int] != part@[j as int]);
            return false;
        }
        j = j + 1;
    }
    assert(whole@.subrange(i as int, i + part@.len()) =~= part@);
    true
}

/// Whether `part` stands somewhere in `whole`.
pub fn is_in(whole: &str, part: &str) -> (b: bool)
    ensures
        b == occurs_in(whole@, part@),
{
    let w = chars_of(whole);
    let p = chars_of(part);
    let mut i: usize = 0;
    while i < w.len()
        invariant
            i <= w@.len(),
            w@ == whole@,
            p@ == part@,
            forall|k: int| 0 <= k < i ==> !occurs_at(w@, p@, k),
        decreases w.len() - i,
    {
        if is_at(&w, &p, i) {
            return true;
        }
        i = i + 1;
    }
    is_at(&w, &p, i)
}

/// The first place where `stop` holds; the length where it holds nowhere.
pub open spec fn first_place(s: Seq<char>, stop: spec_fn(char) -> bool) -> int
    decreases s.len(),
{
    if s.len() == 0 || stop(s[0]) {
        0
    } else {
        1 + first_place(s.drop_first(), stop)
    }
}

/// What [`first_place`] is.
pub proof fn lemma_first_place(s: Seq<char>, stop: spec_fn(char) -> bool)
    ensures
        0 <= first_place(s, stop) <= s.len(),
        forall|i: int| 0 <= i < first_place(s, stop) ==> !stop(#[trigger] s[i]),
        first_place(s, stop) < s.len() ==> stop(s[first_place(s, stop)]),
    decreases s.len(),
{
    if s.len() > 0 && !stop(s[0]) {
        let rest = s.drop_first();
        lemma_first_place(rest, stop);
        assert forall|i: int| 0 <= i < first_place(s, stop) implies !stop(#[trigger] s[i]) by {
            if i > 0 {
                assert(rest[i - 1] == s[i]);
            }
        }
    }
}

/// There is one first place.
pub proof fn lemma_first_place_is(s: Seq<char>, stop: spec_fn(char) -> bool, r: int)
    requires
        0 <= r <= s.len(),
        forall|i: int| 0 <= i < r ==> !stop(#[trigger] s[i]),
        r < s.len() ==> stop(s[r]),
    ensures
        first_place(s, stop) == r,
{
    lemma_first_place(s, stop);
    let p = first_place(s, stop);
    if p < r {
        assert(!stop(s[p]));
    }
    if r < p {
        assert(!stop(s[r]));
    }
}

/// The first place of `c` in a part of the characters, or the end of the part.
pub fn find_char(chars: &Vec<char>, c: char, from: usize, to: usize) -> (place: usize)
    requires
        from <= to <= chars@.len(),
    ensures
        place == from + first_place(
            chars@.subrange(from as int, to as int),
            |x: char| x == c,
        ),
        from <= place <= to,
        place < to ==> chars@[place as int] == c,
{
    let ghost part = chars@.subrange(from as int, to as int);
    let ghost stop = |x: char| x == c;
    let mut i: usize = from;
    while i < to
        invariant
            from <= i <= to <= chars@.len(),
            part == chars@.subrange(from as int, to as int),
            stop == (|x: char| x == c),
            forall|k: int| 0 <= k < i - from ==> !stop(#[trigger] part[k]),
        decreases to - i,
    {
        if chars[i] == c {
            proof {
                lemma_first_place_is(part, stop, i - from);
            }
            return i;
        }
        i = i + 1;
    }
    proof {
        lemma_first_place_is(part, stop, to - from);
    }
    to
}

} // verus!
