//! Where a database is: what its URL names, and how it is to be opened.

use crate::error::StoreError;
use crate::text::{
    chars_of, find_char, first_place, is_at, lemma_first_place, lemma_first_place_is, starts_with,
    text_between, text_from_utf8,
};
use vstd::prelude::*;
use vstd::utf8::{decode_utf8, encode_utf8, valid_utf8};

verus! {

broadcast use {vstd::string::group_string_axioms, vstd::seq::group_seq_axioms};

/// The part of a URL before its query string and fragment.
pub open spec fn before_query(url: Seq<char>) -> Seq<char> {
    url.take(first_place(url, |c: char| c == '?' || c == '#'))
}

/// A path without the schemes `sqlite://` in front of it.
pub open spec fn without_scheme(path: Seq<char>) -> Seq<char>
    decreases path.len(),
{
    if starts_with(path, seq!['s', 'q', 'l', 'i', 't', 'e', ':', '/', '/']) {
        without_scheme(path.skip(9))
    } else {
        path
    }
}

/// The database path that a URL names; none for a database in memory.
pub open spec fn database_path(url: Seq<char>) -> Option<Seq<char>> {
    let path = without_scheme(before_query(url));
    if url == ":memory:"@ || path == ":memory:"@ {
        None
    } else {
        Some(path)
    }
}

/// The database path that a URL names, with its `file:` scheme where it has one. A database in
/// memory has none.
pub fn parse_database_path(database_url: &str) -> (path: Result<String, StoreError>)
    ensures
        match database_path(database_url@) {
            Some(p) => path matches Ok(text) && text@ == p,
            None => path matches Err(StoreError::InvalidConfig(message)) && message@
                == "Snapshot not supported for in-memory databases"@,
        },
{
    let url = chars_of(database_url);
    let memory = chars_of(":memory:");
    let scheme: Vec<char> = vec!['s', 'q', 'l', 'i', 't', 'e', ':', '/', '/'];
    let ghost stop = |c: char| c == '?' || c == '#';
    let question = find_char(&url, '?', 0, url.len());
    let end = find_char(&url, '#', 0, question);
    proof {
        let marks = |c: char| c == '?';
        let hashes = |c: char| c == '#';
        assert(url@.subrange(0, url@.len() as int) =~= url@);
        lemma_first_place(url@, marks);
        lemma_first_place(url@.subrange(0, question as int), hashes);
        assert forall|i: int| 0 <= i < end implies !stop(#[trigger] url@[i]) by {
            assert(!marks(url@[i]));
            assert(!hashes(url@.subrange(0, question as int)[i]));
        }
        lemma_first_place_is(url@, stop, end as int);
    }
    assert(url@.subrange(0, end as int) =~= before_query(url@));
    let from = skip_schemes(&url, &scheme, 0, end);
    let path = text_between(&url, from, end);
    let is_memory = is_same(&url, 0, url.len(), &memory) || is_same(&url, from, end, &memory);
    assert(url@.subrange(0, url@.len() as int) =~= url@);
    if is_memory {
        Err(
            StoreError::InvalidConfig(
                "Snapshot not supported for in-memory databases".to_owned(),
            ),
        )
    } else {
        Ok(path)
    }
}

/// The place behind the schemes in front of a part of the characters.
fn skip_schemes(url: &Vec<char>, scheme: &Vec<char>, from: usize, end: usize) -> (place: usize)
    requires
        from <= end <= url@.len(),
        scheme@ == seq!['s', 'q', 'l', 'i', 't', 'e', ':', '/', '/'],
    ensures
        from <= place <= end,
        url@.subrange(place as int, end as int) == without_scheme(
            url@.subrange(from as int, end as int),
        ),
{
    let mut place: usize = from;
    let mut more = true;
    while more
        invariant
            from <= place <= end <= url@.len(),
            scheme@ == seq!['s', 'q', 'l', 'i', 't', 'e', ':', '/', '/'],
            without_scheme(url@.subrange(place as int, end as int)) == without_scheme(
                url@.subrange(from as int, end as int),
            ),
            !more ==> url@.subrange(place as int, end as int) == without_scheme(
                url@.subrange(place as int, end as int),
            ),
        decreases end - place + (if more { 1int } else { 0int }),
    {
        let ghost rest = url@.subrange(place as int, end as int);
        if end - place >= 9 && is_at(url, scheme, place) {
            assert(rest.subrange(0, 9) =~= url@.subrange(place as int, place + 9));
            assert(rest.skip(9) =~= url@.subrange(place + 9, end as int));
            place = place + 9;
        } else {
            assert(!starts_with(rest, scheme@)) by {
                if starts_with(rest, scheme@) {
                    assert(rest.subrange(0, 9) =~= url@.subrange(place as int, place + 9));
                }
            }
            more = false;
        }
    }
    place
}

/// Whether a part of the characters is `word`.
fn is_same(chars: &Vec<char>, from: usize, to: usize, word: &Vec<char>) -> (b: bool)
    requires
        from <= to <= chars@.len(),
    ensures
        b == (chars@.subrange(from as int, to as int) == word@),
{
    if to - from != word.len() {
        return false;
    }
    is_at(chars, word, from)
}

// ---------------------------------------------------------------------------------------
// Escapes

/// The value of a hexadecimal digit.
pub open spec fn hex_value(b: u8) -> Option<u8> {
    if '0' as u8 <= b <= '9' as u8 {
        Some((b - '0' as u8) as u8)
    } else if 'a' as u8 <= b <= 'f' as u8 {
        Some((b - 'a' as u8 + 10) as u8)
    } else if 'A' as u8 <= b <= 'F' as u8 {
        Some((b - 'A' as u8 + 10) as u8)
    } else {
        None
    }
}

/// The byte that an escape in front of `bytes` stands for.
pub open spec fn escape(bytes: Seq<u8>) -> Option<u8> {
    if bytes.len() >= 3 && bytes[0] == '%' as u8 {
        match (hex_value(bytes[1]), hex_value(bytes[2])) {
            (Some(high), Some(low)) => Some((high * 16 + low) as u8),
            _ => None,
        }
    } else {
        None
    }
}

/// Bytes with their escapes expanded. A percent sign that no two hexadecimal digits follow
/// stands for itself.
pub open spec fn unescaped(bytes: Seq<u8>) -> Seq<u8>
    decreases bytes.len(),
{
    if bytes.len() == 0 {
        seq![]
    } else {
        match escape(bytes) {
            Some(b) => seq![b] + unescaped(bytes.skip(3)),
            None => seq![bytes[0]] + unescaped(bytes.skip(1)),
        }
    }
}

/// Text with its escapes expanded; the text itself where that is not text any more.
pub open spec fn decoded(text: Seq<char>) -> Seq<char> {
    let bytes = unescaped(encode_utf8(text));
    if valid_utf8(bytes) {
        decode_utf8(bytes)
    } else {
        text
    }
}

/// The value of a hexadecimal digit.
fn hex_digit(b: u8) -> (v: Option<u8>)
    ensures
        v == hex_value(b),
        v matches Some(n) ==> n < 16,
{
    if 48 <= b && b <= 57 {
        Some(b - 48)
    } else if 97 <= b && b <= 102 {
        Some(b - 87)
    } else if 65 <= b && b <= 70 {
        Some(b - 55)
    } else {
        None
    }
}

/// Expands the `%HH` escapes of a URI.
pub fn percent_decode(path: &str) -> (text: String)
    ensures
        text@ == decoded(path@),
{
    let bytes = path.as_bytes();
    let mut out: Vec<u8> = Vec::new();
    let mut i: usize = 0;
    assert(bytes@.skip(0) =~= bytes@);
    assert(out@ + unescaped(bytes@.skip(0)) =~= unescaped(bytes@));
    while i < bytes.len()
        invariant
            i <= bytes.len(),
            out@ + unescaped(bytes@.skip(i as int)) == unescaped(bytes@),
        decreases bytes.len() - i,
    {
        let ghost rest = bytes@.skip(i as int);
        let mut byte: Option<u8> = None;
        if bytes[i] == 37 && bytes.len() - i >= 3 {
            if let (Some(high), Some(low)) = (hex_digit(bytes[i + 1]), hex_digit(bytes[i + 2])) {
                byte = Some(high * 16 + low);
            }
        }
        assert(byte == escape(rest));
        let ghost before = out@;
        match byte {
            Some(b) => {
                out.push(b);
                assert(rest.skip(3) =~= bytes@.skip(i + 3));
                assert(out@ + unescaped(bytes@.skip(i + 3)) =~= before + unescaped(rest));
                i = i + 3;
            },
            None => {
                out.push(bytes[i]);
                assert(rest.skip(1) =~= bytes@.skip(i + 1));
                assert(out@ + unescaped(bytes@.skip(i + 1)) =~= before + unescaped(rest));
                i = i + 1;
            },
        }
    }
    assert(out@ + unescaped(bytes@.skip(i as int)) =~= out@);
    match text_from_utf8(out) {
        Some(text) => text,
        None => path.to_owned(),
    }
}

/// The file that a database path names: the path itself, or what stands behind its `file:`
/// scheme, a local authority dropped and escapes expanded.
pub open spec fn file_path(path: Seq<char>) -> Seq<char> {
    if starts_with(path, "file:"@) {
        let named = if starts_with(path, "file://"@) {
            path.skip(7)
        } else {
            path.skip(5)
        };
        decoded(
            if starts_with(named, "localhost/"@) {
                named.skip(9)
            } else {
                named
            },
        )
    } else {
        path
    }
}

/// The file that a database path names, beside which its sidecar files lie.
pub fn filesystem_path(database_path: &str) -> (path: String)
    ensures
        path@ == file_path(database_path@),
{
    let chars = chars_of(database_path);
    let scheme = chars_of("file:");
    let authority = chars_of("file://");
    let local = chars_of("localhost/");
    proof {
        reveal_strlit("file:");
        reveal_strlit("file://");
        reveal_strlit("localhost/");
    }
    let mut from: usize = 0;
    if is_at(&chars, &authority, 0) {
        from = 7;
        assert(chars@.subrange(0, 7).subrange(0, 5) =~= chars@.subrange(0, 5));
        assert("file://"@.subrange(0, 5) =~= "file:"@);
        assert(starts_with(chars@, "file:"@));
    } else if is_at(&chars, &scheme, 0) {
        from = 5;
    } else {
        return database_path.to_owned();
    }
    let ghost named = chars@.skip(from as int);
    if is_at(&chars, &local, from) {
        assert(named.subrange(0, 10) =~= chars@.subrange(from as int, from + 10));
        from = from + 9;
        assert(chars@.subrange(from as int, chars@.len() as int) =~= named.skip(9));
    } else {
        assert(!starts_with(named, local@)) by {
            if starts_with(named, local@) {
                assert(named.subrange(0, 10) =~= chars@.subrange(from as int, from + 10));
            }
        }
        assert(chars@.subrange(from as int, chars@.len() as int) =~= named);
    }
    percent_decode(&text_between(&chars, from, chars.len()))
}

// ---------------------------------------------------------------------------------------
// Shared cache

/// An ASCII letter in lower case; any other character as it is.
pub open spec fn folded(c: char) -> char {
    if 'A' <= c <= 'Z' {
        (c as u32 + 32) as char
    } else {
        c
    }
}

/// Two texts are the same but for the case of ASCII letters.
pub open spec fn same_ignoring_case(a: Seq<char>, b: Seq<char>) -> bool {
    a.len() == b.len() && forall|i: int|
        0 <= i < a.len() ==> folded(#[trigger] a[i]) == folded(b[i])
}

/// Whether the first parameter named `cache` in a query string, if any, asks for shared cache.
/// A parameter without an equals sign is passed over.
pub open spec fn shared_in(query: Seq<char>) -> bool
    decreases query.len(),
{
    let end = first_place(query, |c: char| c == '&');
    let param = query.take(end);
    let sign = first_place(param, |c: char| c == '=');
    if sign < param.len() && param.take(sign) == "cache"@ {
        same_ignoring_case(param.skip(sign + 1), "shared"@)
    } else if 0 <= end < query.len() {
        shared_in(query.skip(end + 1))
    } else {
        false
    }
}

/// Whether a URL asks for shared cache. Only a `file:` URI carries parameters.
pub open spec fn shared_cache(url: Seq<char>) -> bool {
    let mark = first_place(url, |c: char| c == '?');
    let query = url.skip(mark + 1);
    &&& mark < url.len()
    &&& starts_with(url, "file:"@)
    &&& shared_in(query.take(first_place(query, |c: char| c == '#')))
}

/// An ASCII letter in lower case; any other character as it is.
fn fold(c: char) -> (f: char)
    ensures
        f == folded(c),
{
    match c {
        'A' => 'a',
        'B' => 'b',
        'C' => 'c',
        'D' => 'd',
        'E' => 'e',
        'F' => 'f',
        'G' => 'g',
        'H' => 'h',
        'I' => 'i',
        'J' => 'j',
        'K' => 'k',
        'L' => 'l',
        'M' => 'm',
        'N' => 'n',
        'O' => 'o',
        'P' => 'p',
        'Q' => 'q',
        'R' => 'r',
        'S' => 's',
        'T' => 't',
        'U' => 'u',
        'V' => 'v',
        'W' => 'w',
        'X' => 'x',
        'Y' => 'y',
        'Z' => 'z',
        other => other,
    }
}

/// Whether a part of the characters is `word`, but for the case of ASCII letters.
fn is_same_ignoring_case(chars: &Vec<char>, from: usize, to: usize, word: &Vec<char>) -> (b: bool)
    requires
        from <= to <= chars@.len(),
    ensures
        b == same_ignoring_case(chars@.subrange(from as int, to as int), word@),
{
    let ghost part = chars@.subrange(from as int, to as int);
    if to - from != word.len() {
        return false;
    }
    let mut i: usize = 0;
    while i < word.len()
        invariant
            i <= word.len(),
            from + word.len() == to <= chars.len(),
            part == chars@.subrange(from as int, to as int),
            forall|k: int|
                0 <= k < i ==> folded(#[trigger] part[k]) == folded(
                    word@[k],
                ),
        decreases word.len() - i,
    {
        if fold(chars[from + i]) != fold(word[i]) {
            assert(part[i as int] == chars@[from + i]);
            return false;
        }
        i = i + 1;
    }
    true
}

/// Whether `text` is `word`, but for the case of ASCII letters.
pub fn eq_ignore_ascii_case(text: &str, word: &str) -> (b: bool)
    ensures
        b == same_ignoring_case(text@, word@),
{
    let chars = chars_of(text);
    let w = chars_of(word);
    assert(chars@.subrange(0, chars@.len() as int) =~= chars@);
    is_same_ignoring_case(&chars, 0, chars.len(), &w)
}

/// Whether the parameters in a part of the characters ask for shared cache.
fn params_share(chars: &Vec<char>, from: usize, to: usize) -> (b: bool)
    requires
        from <= to <= chars@.len(),
    ensures
        b == shared_in(chars@.subrange(from as int, to as int)),
    decreases to - from,
{
    let ghost query = chars@.subrange(from as int, to as int);
    let end = find_char(chars, '&', from, to);
    let sign = find_char(chars, '=', from, end);
    let cache = chars_of("cache");
    let shared = chars_of("shared");
    let ghost param = query.take(end - from);
    assert(param =~= chars@.subrange(from as int, end as int));
    if sign < end && is_same(chars, from, sign, &cache) {
        assert(param.take(sign - from) =~= chars@.subrange(from as int, sign as int));
        assert(param.skip(sign - from + 1) =~= chars@.subrange(sign + 1, end as int));
        return is_same_ignoring_case(chars, sign + 1, end, &shared);
    }
    assert(param.take(sign - from) =~= chars@.subrange(from as int, sign as int));
    if end < to {
        assert(query.skip(end - from + 1) =~= chars@.subrange(end + 1, to as int));
        params_share(chars, end + 1, to)
    } else {
        false
    }
}

/// Whether a URL asks the database for shared cache.
pub fn is_shared_cache(database_url: &str) -> (b: bool)
    ensures
        b == shared_cache(database_url@),
{
    let url = chars_of(database_url);
    let scheme = chars_of("file:");
    assert(url@.subrange(0, url@.len() as int) =~= url@);
    let mark = find_char(&url, '?', 0, url.len());
    if mark >= url.len() || !is_at(&url, &scheme, 0) {
        return false;
    }
    let end = find_char(&url, '#', mark + 1, url.len());
    let ghost query = url@.skip(mark + 1);
    assert(query =~= url@.subrange(mark + 1, url@.len() as int));
    assert(query.take(end - mark - 1) =~= url@.subrange(mark + 1, end as int));
    params_share(&url, mark + 1, end)
}

// ---------------------------------------------------------------------------------------
// Laws

/// A path has no query string, no fragment and no `sqlite://` scheme left.
pub proof fn law_path_is_bare(url: Seq<char>)
    ensures
        database_path(url) matches Some(p) ==> {
            &&& !p.contains('?') && !p.contains('#')
            &&& !starts_with(p, seq!['s', 'q', 'l', 'i', 't', 'e', ':', '/', '/'])
        },
{
    let stop = |c: char| c == '?' || c == '#';
    lemma_first_place(url, stop);
    let cut = before_query(url);
    assert forall|i: int| 0 <= i < cut.len() implies !stop(#[trigger] cut[i]) by {
        assert(!stop(url[i]));
    }
    lemma_without_scheme(cut);
    let p = without_scheme(cut);
    if p.contains('?') {
        assert(cut.contains('?'));
        let i = choose|i: int| 0 <= i < cut.len() && cut[i] == '?';
        assert(!stop(cut[i]));
    }
    if p.contains('#') {
        assert(cut.contains('#'));
        let i = choose|i: int| 0 <= i < cut.len() && cut[i] == '#';
        assert(!stop(cut[i]));
    }
}

/// What is left behind the schemes is an end of the path.
proof fn lemma_without_scheme(path: Seq<char>)
    ensures
        !starts_with(without_scheme(path), seq!['s', 'q', 'l', 'i', 't', 'e', ':', '/', '/']),
        forall|c: char| without_scheme(path).contains(c) ==> path.contains(c),
    decreases path.len(),
{
    let scheme = seq!['s', 'q', 'l', 'i', 't', 'e', ':', '/', '/'];
    if starts_with(path, scheme) {
        let rest = path.skip(9);
        lemma_without_scheme(rest);
        assert forall|c: char| without_scheme(path).contains(c) implies path.contains(c) by {
            assert(rest.contains(c));
            let i = choose|i: int| 0 <= i < rest.len() && rest[i] == c;
            assert(path[i + 9] == c);
        }
    }
}

/// A character outside ASCII is encoded without any ASCII byte.
proof fn lemma_wide_scalar(s: u32)
    by (bit_vector)
    requires
        s >= 0x80,
    ensures
        (0xC0u8 | ((s >> 6) & 0x1F) as u8) >= 0x80,
        (0xE0u8 | ((s >> 12) & 0x0F) as u8) >= 0x80,
        (0xF0u8 | ((s >> 18) & 0x7) as u8) >= 0x80,
        (0x80u8 | (s & 0x3F) as u8) >= 0x80,
        (0x80u8 | ((s >> 6) & 0x3F) as u8) >= 0x80,
        (0x80u8 | ((s >> 12) & 0x3F) as u8) >= 0x80,
{
}

/// An ASCII character is encoded as itself.
proof fn lemma_narrow_scalar(s: u32)
    by (bit_vector)
    requires
        s <= 0x7F,
    ensures
        (s & 0x7F) as u8 == s,
{
}

/// Text without a percent sign has none in its encoding.
proof fn lemma_no_percent(text: Seq<char>)
    requires
        !text.contains('%'),
    ensures
        !encode_utf8(text).contains(37),
    decreases text.len(),
{
    if text.len() > 0 {
        let rest = text.drop_first();
        assert(!rest.contains('%')) by {
            if rest.contains('%') {
                let i = choose|i: int| 0 <= i < rest.len() && rest[i] == '%';
                assert(text[i + 1] == '%');
            }
        }
        lemma_no_percent(rest);
        let s = text[0] as u32;
        vstd::utf8::char_is_scalar(text[0]);
        let head = vstd::utf8::encode_scalar(s);
        if s >= 0x80 {
            lemma_wide_scalar(s);
            assert(!head.contains(37));
        } else {
            lemma_narrow_scalar(s);
            assert(text.contains(text[0]));
            vstd::utf8::char_u32_cast(text[0], s);
            assert(37u32 as char == '%');
            assert(s != 37);
            assert(s as u8 == s);
            assert(head.len() == 1 && head[0] != 37);
            assert(!head.contains(37));
        }
        crate::effects::lemma_concat_contains(head, encode_utf8(rest), 37u8);
    }
}

/// Bytes without a percent sign stand for themselves.
proof fn lemma_nothing_to_expand(bytes: Seq<u8>)
    requires
        !bytes.contains(37),
    ensures
        unescaped(bytes) == bytes,
    decreases bytes.len(),
{
    if bytes.len() > 0 {
        let rest = bytes.skip(1);
        assert(bytes[0] != 37) by {
            assert(bytes.contains(bytes[0]));
        }
        assert(!rest.contains(37)) by {
            if rest.contains(37) {
                let i = choose|i: int| 0 <= i < rest.len() && rest[i] == 37;
                assert(bytes[i + 1] == 37);
            }
        }
        lemma_nothing_to_expand(rest);
        assert(unescaped(bytes) =~= bytes);
    }
}

/// Decoding leaves text without a percent sign as it is.
pub proof fn law_plain_text_decodes_to_itself(text: Seq<char>)
    requires
        !text.contains('%'),
    ensures
        decoded(text) == text,
{
    lemma_no_percent(text);
    lemma_nothing_to_expand(encode_utf8(text));
    vstd::utf8::encode_utf8_valid_utf8(text);
    vstd::utf8::encode_utf8_decode_utf8(text);
}

/// An absolute path without escapes, the same path behind `file:`, behind `file://` and behind
/// `file://localhost` name one file.
pub proof fn law_one_file_by_four_names(path: Seq<char>)
    requires
        path.len() > 0,
        path[0] == '/',
        !starts_with(path, "//"@),
        !path.contains('%'),
    ensures
        file_path(path) == path,
        file_path("file:"@ + path) == path,
        file_path("file://"@ + path) == path,
        file_path("file://localhost"@ + path) == path,
{
    reveal_strlit("file:");
    reveal_strlit("file://");
    reveal_strlit("localhost/");
    reveal_strlit("file://localhost");
    reveal_strlit("//");
    law_plain_text_decodes_to_itself(path);
    let a = "file:"@ + path;
    let b = "file://"@ + path;
    let c = "file://localhost"@ + path;
    assert(!starts_with(path, "file:"@)) by {
        if starts_with(path, "file:"@) {
            assert(path.subrange(0, 5)[0] == path[0]);
        }
    }
    assert(!starts_with(path, "localhost/"@)) by {
        if starts_with(path, "localhost/"@) {
            assert(path.subrange(0, 10)[0] == path[0]);
        }
    }
    assert(a.subrange(0, 5) =~= "file:"@);
    assert(a.skip(5) =~= path);
    assert(!starts_with(a, "file://"@)) by {
        if starts_with(a, "file://"@) {
            assert(a.subrange(0, 7)[5] == path[0]);
            assert(a.subrange(0, 7)[6] == path[1]);
            assert(path.subrange(0, 2) =~= "//"@);
        }
    }
    assert(b.subrange(0, 5) =~= "file:"@);
    assert(b.subrange(0, 7) =~= "file://"@);
    assert(b.skip(7) =~= path);
    assert(c.subrange(0, 5) =~= "file:"@);
    assert(c.subrange(0, 7) =~= "file://"@);
    let named = c.skip(7);
    assert(named.subrange(0, 10) =~= "localhost/"@);
    assert(named.skip(9) =~= path);
}

/// The query string and the fragment do not count toward the path of a database.
pub proof fn law_query_and_fragment_do_not_count(url: Seq<char>, rest: Seq<char>)
    ensures
        database_path(url + seq!['?'] + rest) == database_path(url),
        database_path(url + seq!['#'] + rest) == database_path(url),
{
    lemma_cut(url, '?', rest);
    lemma_cut(url, '#', rest);
}

proof fn lemma_cut(url: Seq<char>, mark: char, rest: Seq<char>)
    requires
        mark == '?' || mark == '#',
    ensures
        database_path(url + seq![mark] + rest) == database_path(url),
{
    reveal_strlit(":memory:");
    let stop = |c: char| c == '?' || c == '#';
    let whole = url + seq![mark] + rest;
    lemma_first_place(url, stop);
    let cut = first_place(url, stop);
    assert forall|i: int| 0 <= i < cut implies !stop(#[trigger] whole[i]) by {
        assert(!stop(url[i]));
    }
    assert(whole[url.len() as int] == mark);
    if cut < url.len() {
        assert(whole[cut] == url[cut]);
    }
    lemma_first_place_is(whole, stop, cut);
    assert(whole.take(cut) =~= url.take(cut));
    assert(whole != ":memory:"@) by {
        if whole == ":memory:"@ {
            assert(whole[url.len() as int] == ":memory:"@[url.len() as int]);
        }
    }
    if url == ":memory:"@ {
        assert forall|i: int| 0 <= i < url.len() implies !stop(#[trigger] url[i]) by {}
        lemma_first_place_is(url, stop, url.len() as int);
        assert(url.take(url.len() as int) =~= url);
        let scheme = seq!['s', 'q', 'l', 'i', 't', 'e', ':', '/', '/'];
        assert(!starts_with(url, scheme));
    }
}

/// The scheme `sqlite://` does not count toward the path of a database.
pub proof fn law_the_scheme_does_not_count(url: Seq<char>)
    ensures
        database_path("sqlite://"@ + url) == database_path(url),
{
    reveal_strlit("sqlite://");
    reveal_strlit(":memory:");
    let scheme = seq!['s', 'q', 'l', 'i', 't', 'e', ':', '/', '/'];
    let stop = |c: char| c == '?' || c == '#';
    let whole = "sqlite://"@ + url;
    assert("sqlite://"@ =~= scheme);
    lemma_first_place(url, stop);
    let cut = first_place(url, stop);
    assert forall|i: int| 0 <= i < 9 + cut implies !stop(#[trigger] whole[i]) by {
        if i >= 9 {
            assert(!stop(url[i - 9]));
        }
    }
    if cut < url.len() {
        assert(whole[9 + cut] == url[cut]);
    }
    lemma_first_place_is(whole, stop, 9 + cut);
    let kept = before_query(whole);
    assert(kept =~= scheme + before_query(url));
    assert(kept.subrange(0, 9) =~= scheme);
    assert(kept.skip(9) =~= before_query(url));
    assert(starts_with(kept, scheme));
    assert(without_scheme(kept) == without_scheme(before_query(url)));
    assert(whole != ":memory:"@) by {
        assert(whole[0] == 's');
        assert(":memory:"@[0] == ':');
    }
    if url == ":memory:"@ {
        assert forall|i: int| 0 <= i < url.len() implies !stop(#[trigger] url[i]) by {}
        lemma_first_place_is(url, stop, url.len() as int);
        assert(url.take(url.len() as int) =~= url);
        assert(!starts_with(url, scheme));
    }
}

/// A URL that is a bare path already is the path, except the name of the database in memory.
pub proof fn law_bare_paths_are_kept(url: Seq<char>)
    requires
        !url.contains('?'),
        !url.contains('#'),
        !starts_with(url, "sqlite://"@),
    ensures
        url != ":memory:"@ ==> database_path(url) == Some(url),
        url == ":memory:"@ ==> database_path(url) is None,
{
    reveal_strlit("sqlite://");
    assert("sqlite://"@ =~= seq!['s', 'q', 'l', 'i', 't', 'e', ':', '/', '/']);
    let stop = |c: char| c == '?' || c == '#';
    assert forall|i: int| 0 <= i < url.len() implies !stop(#[trigger] url[i]) by {
        assert(url.contains(url[i]));
    }
    lemma_first_place_is(url, stop, url.len() as int);
    assert(url.take(url.len() as int) =~= url);
}

/// The digit of a number below sixteen, as a byte of text.
pub open spec fn digit_of(n: u8, upper: bool) -> u8 {
    if n < 10 {
        (0x30 + n) as u8
    } else if upper {
        (0x41 + n - 10) as u8
    } else {
        (0x61 + n - 10) as u8
    }
}

/// A percent sign and two digits stand for one byte, whatever the case of the digits. Any other
/// byte stands for itself, and so does a percent sign without two digits behind it.
pub proof fn law_escapes_stand_for_their_byte(
    high: u8,
    upper: bool,
    low: u8,
    lower: bool,
    b: u8,
    rest: Seq<u8>,
)
    requires
        high < 16,
        low < 16,
    ensures
        unescaped(seq![0x25u8, digit_of(high, upper), digit_of(low, lower)] + rest) == seq![
            (high * 16 + low) as u8,
        ] + unescaped(rest),
        b != 0x25 ==> unescaped(seq![b] + rest) == seq![b] + unescaped(rest),
        rest.len() < 2 || !is_hex(rest[0]) || !is_hex(rest[1]) ==> unescaped(seq![0x25u8] + rest)
            == seq![0x25u8] + unescaped(rest),
{
    let coded = seq![0x25u8, digit_of(high, upper), digit_of(low, lower)] + rest;
    assert(coded.skip(3) =~= rest);
    let plain = seq![b] + rest;
    assert(plain.skip(1) =~= rest);
    let bare = seq![0x25u8] + rest;
    assert(bare.skip(1) =~= rest);
    if rest.len() >= 2 {
        assert(bare[1] == rest[0]);
        assert(bare[2] == rest[1]);
    }
}

/// A hexadecimal digit.
pub open spec fn is_hex(b: u8) -> bool {
    0x30 <= b <= 0x39 || 0x41 <= b <= 0x46 || 0x61 <= b <= 0x66
}

/// Decoded text has the bytes that its escapes stand for; where these are no text, it is left as
/// it was.
pub proof fn law_decoding_gives_text_or_nothing(text: Seq<char>)
    ensures
        valid_utf8(unescaped(encode_utf8(text))) ==> encode_utf8(decoded(text)) == unescaped(
            encode_utf8(text),
        ),
        !valid_utf8(unescaped(encode_utf8(text))) ==> decoded(text) == text,
{
    let bytes = unescaped(encode_utf8(text));
    if valid_utf8(bytes) {
        vstd::utf8::decode_utf8_encode_utf8(bytes);
    }
}

/// Only behind the scheme `file:` is a path decoded, and an authority is dropped there where it is
/// empty or the local host.
pub proof fn law_only_file_urls_are_decoded(path: Seq<char>)
    ensures
        !starts_with(path, "file:"@) ==> file_path(path) == path,
        !starts_with(path, "//"@) && !starts_with(path, "localhost/"@) ==> file_path(
            "file:"@ + path,
        ) == decoded(path),
        !starts_with(path, "localhost/"@) ==> file_path("file://"@ + path) == decoded(path),
        path.len() > 0 && path[0] == '/' ==> file_path("file://localhost"@ + path) == decoded(path),
{
    reveal_strlit("file:");
    reveal_strlit("file://");
    reveal_strlit("localhost/");
    reveal_strlit("file://localhost");
    reveal_strlit("//");
    let a = "file:"@ + path;
    let b = "file://"@ + path;
    let c = "file://localhost"@ + path;
    assert(a.subrange(0, 5) =~= "file:"@);
    assert(a.skip(5) =~= path);
    if starts_with(a, "file://"@) {
        assert(a.subrange(0, 7)[5] == path[0]);
        assert(a.subrange(0, 7)[6] == path[1]);
        assert(path.subrange(0, 2) =~= "//"@);
    }
    assert(b.subrange(0, 5) =~= "file:"@);
    assert(b.subrange(0, 7) =~= "file://"@);
    assert(b.skip(7) =~= path);
    if path.len() > 0 && path[0] == '/' {
        assert(c.subrange(0, 5) =~= "file:"@);
        assert(c.subrange(0, 7) =~= "file://"@);
        let named = c.skip(7);
        assert(named.subrange(0, 10) =~= "localhost/"@);
        assert(named.skip(9) =~= path);
    }
}

/// Two characters are one letter of the alphabet, in either case, or the same.
pub open spec fn same_letter(a: char, b: char) -> bool {
    ||| a == b
    ||| 'A' <= a <= 'Z' && b as int == a as int + 32
    ||| 'A' <= b <= 'Z' && a as int == b as int + 32
}

/// The case of the letters of the alphabet is ignored, and nothing else.
pub proof fn law_only_case_is_ignored(a: Seq<char>, b: Seq<char>)
    ensures
        same_ignoring_case(a, b) <==> a.len() == b.len() && forall|i: int|
            0 <= i < a.len() ==> same_letter(#[trigger] a[i], b[i]),
{
    if a.len() == b.len() {
        assert forall|i: int| 0 <= i < a.len() implies (folded(#[trigger] a[i]) == folded(b[i])
            <==> same_letter(a[i], b[i])) by {
            lemma_letters(a[i], b[i]);
        }
    }
}

proof fn lemma_letters(a: char, b: char)
    ensures
        folded(a) == folded(b) <==> same_letter(a, b),
{
    lemma_lower(a);
    lemma_lower(b);
    vstd::utf8::char_is_scalar(a);
    vstd::utf8::char_is_scalar(b);
}

proof fn lemma_lower(c: char)
    ensures
        'A' <= c <= 'Z' ==> folded(c) as int == c as int + 32,
        !('A' <= c <= 'Z') ==> folded(c) == c,
{
}

/// Of the parameters of a query the first that is named `cache` decides, by whether its value is
/// `shared` in any case; without one the cache is not shared.
pub proof fn law_the_first_cache_parameter_decides(
    value: Seq<char>,
    other: Seq<char>,
    rest: Seq<char>,
)
    requires
        !value.contains('&'),
        !other.contains('&'),
        !starts_with(other, "cache="@),
    ensures
        shared_in("cache="@ + value) <==> same_ignoring_case(value, "shared"@),
        shared_in("cache="@ + value + seq!['&'] + rest) <==> same_ignoring_case(value, "shared"@),
        !shared_in(other),
        shared_in(other + seq!['&'] + rest) <==> shared_in(rest),
{
    reveal_strlit("cache=");
    reveal_strlit("cache");
    let amp = |c: char| c == '&';
    let eq = |c: char| c == '=';
    let named = "cache="@ + value;
    assert forall|i: int| 0 <= i < named.len() implies !amp(#[trigger] named[i]) by {
        if i >= 6 {
            assert(named[i] == value[i - 6]);
            assert(value.contains(value[i - 6]));
        }
    }
    lemma_first_place_is(named, amp, named.len() as int);
    assert(named.take(named.len() as int) =~= named);
    assert forall|i: int| 0 <= i < 5 implies !eq(#[trigger] named[i]) by {}
    lemma_first_place_is(named, eq, 5);
    assert(named.take(5) =~= "cache"@);
    assert(named.skip(6) =~= value);
    let more = named + seq!['&'] + rest;
    assert forall|i: int| 0 <= i < named.len() implies !amp(#[trigger] more[i]) by {
        assert(!amp(named[i]));
    }
    assert(more[named.len() as int] == '&');
    lemma_first_place_is(more, amp, named.len() as int);
    assert(more.take(named.len() as int) =~= named);
    assert forall|i: int| 0 <= i < other.len() implies !amp(#[trigger] other[i]) by {
        assert(other.contains(other[i]));
    }
    lemma_first_place_is(other, amp, other.len() as int);
    assert(other.take(other.len() as int) =~= other);
    lemma_first_place(other, eq);
    let sign = first_place(other, eq);
    if sign < other.len() && other.take(sign) == "cache"@ {
        assert(other.take(sign).len() == 5);
        assert(other.subrange(0, 6) =~= "cache="@) by {
            assert forall|i: int| 0 <= i < 6 implies other.subrange(0, 6)[i] == "cache="@[i] by {
                if i < 5 {
                    assert(other.take(sign)[i] == "cache"@[i]);
                }
            }
        }
        assert(starts_with(other, "cache="@));
    }
    let then = other + seq!['&'] + rest;
    assert forall|i: int| 0 <= i < other.len() implies !amp(#[trigger] then[i]) by {
        assert(!amp(other[i]));
    }
    assert(then[other.len() as int] == '&');
    lemma_first_place_is(then, amp, other.len() as int);
    assert(then.take(other.len() as int) =~= other);
    assert(then.skip(other.len() as int + 1) =~= rest);
}

/// Shared cache is asked for in the query of a `file:` URL, between its first question mark and the
/// fragment, and nowhere else.
pub proof fn law_shared_cache_is_asked_for_in_the_query(
    path: Seq<char>,
    query: Seq<char>,
    fragment: Seq<char>,
)
    requires
        !path.contains('?'),
        !query.contains('#'),
    ensures
        shared_cache("file:"@ + path + seq!['?'] + query) <==> shared_in(query),
        shared_cache("file:"@ + path + seq!['?'] + query + seq!['#'] + fragment) <==> shared_in(query),
        !shared_cache(path),
        !starts_with(fragment, "file:"@) ==> !shared_cache(fragment),
{
    reveal_strlit("file:");
    let ask = |c: char| c == '?';
    let hash = |c: char| c == '#';
    let head = "file:"@ + path;
    assert forall|i: int| 0 <= i < path.len() implies !ask(#[trigger] path[i]) by {
        assert(path.contains(path[i]));
    }
    assert forall|i: int| 0 <= i < head.len() implies !ask(#[trigger] head[i]) by {
        if i >= 5 {
            assert(head[i] == path[i - 5]);
        }
    }
    let n = head.len() as int;
    let one = head + seq!['?'] + query;
    let two = one + seq!['#'] + fragment;
    assert forall|i: int| 0 <= i < n implies !ask(#[trigger] one[i]) by {
        assert(!ask(head[i]));
    }
    assert forall|i: int| 0 <= i < n implies !ask(#[trigger] two[i]) by {
        assert(!ask(head[i]));
    }
    assert(one[n] == '?' && two[n] == '?');
    lemma_first_place_is(one, ask, n);
    lemma_first_place_is(two, ask, n);
    assert(one.subrange(0, 5) =~= "file:"@);
    assert(two.subrange(0, 5) =~= "file:"@);
    assert(one.skip(n + 1) =~= query);
    let tail = two.skip(n + 1);
    assert(tail =~= query + seq!['#'] + fragment);
    assert forall|i: int| 0 <= i < query.len() implies !hash(#[trigger] query[i]) by {
        assert(query.contains(query[i]));
    }
    lemma_first_place_is(query, hash, query.len() as int);
    assert(query.take(query.len() as int) =~= query);
    assert forall|i: int| 0 <= i < query.len() implies !hash(#[trigger] tail[i]) by {
        assert(!hash(query[i]));
    }
    assert(tail[query.len() as int] == '#');
    lemma_first_place_is(tail, hash, query.len() as int);
    assert(tail.take(query.len() as int) =~= query);
    lemma_first_place_is(path, ask, path.len() as int);
}

} // verus!
