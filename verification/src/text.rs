//! Text primitives: whitespace, lines, fields, and decimal numbers.
//!
//! Text is handled as a sequence of characters. Every function states its
//! result over that sequence, so the parsers built on top can be specified
//! without mentioning byte offsets.

use vstd::prelude::*;
use vstd::slice::slice_subrange;

verus! {

/// `String::push` appends exactly one character.
pub assume_specification[ String::push ](s: &mut String, c: char)
    ensures
        final(s)@ == old(s)@.push(c),
;

/// The characters of a string, in order.
pub fn chars_of(s: &str) -> (r: Vec<char>)
    ensures
        r@ == s@,
{
    let mut out: Vec<char> = Vec::new();
    for c in iter: s.chars()
        invariant
            iter.seq() == s@,
            out@ == s@.take(iter.index() as int),
    {
        out.push(c);
    }
    out
}

/// The string made of the given characters, in order.
pub fn string_of(chars: &[char]) -> (r: String)
    ensures
        r@ == chars@,
{
    let mut out = String::new();
    let mut i: usize = 0;
    while i < chars.len()
        invariant
            i <= chars@.len(),
            out@ == chars@.take(i as int),
        decreases chars@.len() - i,
    {
        out.push(chars[i]);
        i = i + 1;
    }
    out
}

/// Whether two character sequences are the same.
pub fn same_chars(a: &[char], b: &[char]) -> (r: bool)
    ensures
        r == (a@ == b@),
{
    if a.len() != b.len() {
        return false;
    }
    let mut i: usize = 0;
    while i < a.len()
        invariant
            a@.len() == b@.len(),
            i <= a@.len(),
            forall|k: int| 0 <= k < i ==> a@[k] == b@[k],
        decreases a@.len() - i,
    {
        if a[i] != b[i] {
            return false;
        }
        i = i + 1;
    }
    assert(a@ =~= b@);
    true
}

/// Whether two byte sequences are the same.
pub fn same_bytes(a: &[u8], b: &[u8]) -> (r: bool)
    ensures
        r == (a@ == b@),
{
    if a.len() != b.len() {
        return false;
    }
    let mut i: usize = 0;
    while i < a.len()
        invariant
            a@.len() == b@.len(),
            i <= a@.len(),
            forall|k: int| 0 <= k < i ==> a@[k] == b@[k],
        decreases a@.len() - i,
    {
        if a[i] != b[i] {
            return false;
        }
        i = i + 1;
    }
    assert(a@ =~= b@);
    true
}

/// Whether two strings have the same characters.
pub fn same_text(a: &str, b: &str) -> (r: bool)
    ensures
        r == (a@ == b@),
{
    let x = chars_of(a);
    let y = chars_of(b);
    same_chars(x.as_slice(), y.as_slice())
}

/// Two texts in a row.
pub fn cat2(a: &str, b: &str) -> (r: String)
    ensures
        r@ == a@ + b@,
{
    let mut out = a.to_owned();
    out.append(b);
    out
}

/// Three texts in a row.
pub fn cat3(a: &str, b: &str, c: &str) -> (r: String)
    ensures
        r@ == a@ + b@ + c@,
{
    let mut out = cat2(a, b);
    out.append(c);
    out
}

/// Four texts in a row.
pub fn cat4(a: &str, b: &str, c: &str, d: &str) -> (r: String)
    ensures
        r@ == a@ + b@ + c@ + d@,
{
    let mut out = cat3(a, b, c);
    out.append(d);
    out
}

/// Five texts in a row.
pub fn cat5(a: &str, b: &str, c: &str, d: &str, e: &str) -> (r: String)
    ensures
        r@ == a@ + b@ + c@ + d@ + e@,
{
    let mut out = cat4(a, b, c, d);
    out.append(e);
    out
}

/// Whether `prefix` starts `s`.
pub fn has_prefix(s: &[char], prefix: &[char]) -> (r: bool)
    ensures
        r == prefix@.is_prefix_of(s@),
{
    if s.len() < prefix.len() {
        return false;
    }
    same_chars(slice_subrange(s, 0, prefix.len()), prefix)
}

/// Whether `suffix` ends `s`.
pub fn has_suffix(s: &[char], suffix: &[char]) -> (r: bool)
    ensures
        r == suffix@.is_suffix_of(s@),
{
    if s.len() < suffix.len() {
        return false;
    }
    same_chars(slice_subrange(s, s.len() - suffix.len(), s.len()), suffix)
}

/// The contents of a list of strings.
pub open spec fn texts(list: Seq<String>) -> Seq<Seq<char>> {
    list.map_values(|s: String| s@)
}

/// Whether a text is in a list of strings.
pub fn has_text(list: &Vec<String>, s: &str) -> (r: bool)
    ensures
        r == texts(list@).contains(s@),
{
    let mut i: usize = 0;
    while i < list.len()
        invariant
            i <= list@.len(),
            forall|k: int| 0 <= k < i ==> texts(list@)[k] != s@,
        decreases list@.len() - i,
    {
        assert(texts(list@)[i as int] == list@[i as int]@);
        if same_text(list[i].as_str(), s) {
            return true;
        }
        i = i + 1;
    }
    false
}

/// A copy of a list of strings.
pub fn copy_texts(list: &Vec<String>) -> (r: Vec<String>)
    ensures
        texts(r@) == texts(list@),
{
    let mut out: Vec<String> = Vec::new();
    let mut i: usize = 0;
    assert(texts(out@) =~= texts(list@).take(0));
    while i < list.len()
        invariant
            i <= list@.len(),
            texts(out@) == texts(list@).take(i as int),
        decreases list@.len() - i,
    {
        let s = list[i].clone();
        proof {
            assert(texts(out@.push(s)) =~= texts(out@).push(s@));
            assert(texts(list@).take(i + 1) =~= texts(list@).take(i as int).push(list@[i as int]@));
        }
        out.push(s);
        i = i + 1;
    }
    assert(texts(list@).take(list@.len() as int) =~= texts(list@));
    out
}

/// The contents of an optional string.
pub open spec fn optional(s: Option<String>) -> Option<Seq<char>> {
    match s {
        Some(s) => Some(s@),
        None => None,
    }
}

/// A copy of an optional string.
pub fn copy_optional(s: &Option<String>) -> (r: Option<String>)
    ensures
        optional(r) == optional(*s),
{
    match s {
        Some(s) => Some(s.clone()),
        None => None,
    }
}

/// Whether a character occurs.
pub open spec fn occurs(s: Seq<char>, c: char) -> bool {
    find_of(s, c) < s.len()
}

/// Whether a character occurs.
pub fn has_char(s: &[char], c: char) -> (r: bool)
    ensures
        r == occurs(s@, c),
{
    find(s, c) < s.len()
}

// ---------------------------------------------------------------------------
// UTF-8

/// `std::str::from_utf8`: the text exactly when the bytes are valid UTF-8, and
/// then the same bytes.
#[verifier::external_body]
fn checked_utf8(bytes: &[u8]) -> (r: Option<&str>)
    ensures
        match r {
            Some(s) => vstd::utf8::valid_utf8(bytes@) && vstd::utf8::encode_utf8(s@) == bytes@,
            None => !vstd::utf8::valid_utf8(bytes@),
        },
{
    std::str::from_utf8(bytes).ok()
}

/// The text of a byte sequence, if it is valid UTF-8.
pub fn utf8_text(bytes: &[u8]) -> (r: Option<&str>)
    ensures
        match r {
            Some(s) => vstd::utf8::valid_utf8(bytes@) && s@ == vstd::utf8::decode_utf8(bytes@) && vstd::utf8::encode_utf8(s@) == bytes@,
            None => !vstd::utf8::valid_utf8(bytes@),
        },
{
    let r = checked_utf8(bytes);
    proof {
        if let Some(s) = r {
            vstd::utf8::encode_utf8_decode_utf8(s@);
        }
    }
    r
}

proof fn lemma_scalar_width(c: char)
    ensures
        vstd::utf8::encode_scalar(c as u32).len() == (if c as u32 <= 0x7f {
            1int
        } else if c as u32 <= 0x7ff {
            2
        } else if c as u32 <= 0xffff {
            3
        } else {
            4
        }),
{
}

/// Whether the UTF-8 encoding of `s` has more than `limit` bytes.
pub fn utf8_longer_than(s: &[char], limit: usize) -> (r: bool)
    ensures
        r == (vstd::utf8::encode_utf8(s@).len() > limit),
{
    let mut room: usize = limit;
    let mut i: usize = 0;
    assert(s@.skip(0) =~= s@);
    while i < s.len()
        invariant
            i <= s@.len(),
            room <= limit,
            vstd::utf8::encode_utf8(s@).len() == limit - room + vstd::utf8::encode_utf8(s@.skip(i as int)).len(),
        decreases s@.len() - i,
    {
        let u: u32 = s[i] as u32;
        let width: usize = if u <= 0x7f {
            1
        } else if u <= 0x7ff {
            2
        } else if u <= 0xffff {
            3
        } else {
            4
        };
        proof {
            lemma_scalar_width(s@[i as int]);
            assert(s@.skip(i as int).drop_first() =~= s@.skip(i + 1));
        }
        if width > room {
            return true;
        }
        room = room - width;
        i = i + 1;
    }
    assert(vstd::utf8::encode_utf8(s@.skip(s@.len() as int)).len() == 0);
    false
}

// ---------------------------------------------------------------------------
// Whitespace

/// Unicode `White_Space`.
pub open spec fn is_white(c: char) -> bool {
    ||| 0x9 <= c as u32 <= 0xd
    ||| c as u32 == 0x20
    ||| c as u32 == 0x85
    ||| c as u32 == 0xa0
    ||| c as u32 == 0x1680
    ||| 0x2000 <= c as u32 <= 0x200a
    ||| c as u32 == 0x2028
    ||| c as u32 == 0x2029
    ||| c as u32 == 0x202f
    ||| c as u32 == 0x205f
    ||| c as u32 == 0x3000
}

/// ASCII whitespace: space, tab, line feed, form feed, carriage return.
pub open spec fn is_ascii_white(c: char) -> bool {
    ||| c as u32 == 0x20
    ||| c as u32 == 0x9
    ||| c as u32 == 0xa
    ||| c as u32 == 0xc
    ||| c as u32 == 0xd
}

/// The separator set of a field splitter: Unicode or ASCII-only whitespace.
pub open spec fn is_blank(c: char, ascii: bool) -> bool {
    if ascii {
        is_ascii_white(c)
    } else {
        is_white(c)
    }
}

pub fn blank(c: char, ascii: bool) -> (r: bool)
    ensures
        r == is_blank(c, ascii),
{
    let u: u32 = c as u32;
    if ascii {
        u == 0x20 || u == 0x9 || u == 0xa || u == 0xc || u == 0xd
    } else {
        (0x9 <= u && u <= 0xd) || u == 0x20 || u == 0x85 || u == 0xa0 || u == 0x1680 || (0x2000 <= u
            && u <= 0x200a) || u == 0x2028 || u == 0x2029 || u == 0x202f || u == 0x205f || u
            == 0x3000
    }
}

/// `s` without its leading blanks.
pub open spec fn trim_start_of(s: Seq<char>, ascii: bool) -> Seq<char>
    decreases s.len(),
{
    if s.len() > 0 && is_blank(s[0], ascii) {
        trim_start_of(s.skip(1), ascii)
    } else {
        s
    }
}

/// `s` without its trailing whitespace.
pub open spec fn trim_end_of(s: Seq<char>) -> Seq<char>
    decreases s.len(),
{
    if s.len() > 0 && is_white(s.last()) {
        trim_end_of(s.drop_last())
    } else {
        s
    }
}

/// `s` without leading and trailing whitespace.
pub open spec fn trim_of(s: Seq<char>) -> Seq<char> {
    trim_end_of(trim_start_of(s, false))
}

proof fn lemma_trim_start(s: Seq<char>, n: int, ascii: bool)
    requires
        0 <= n <= s.len(),
        forall|k: int| 0 <= k < n ==> is_blank(#[trigger] s[k], ascii),
        n < s.len() ==> !is_blank(s[n], ascii),
    ensures
        trim_start_of(s, ascii) == s.skip(n),
    decreases n,
{
    if n == 0 {
        assert(s.skip(0) =~= s);
    } else {
        assert(is_blank(s[0], ascii));
        lemma_trim_start(s.skip(1), n - 1, ascii);
        assert(s.skip(1).skip(n - 1) =~= s.skip(n));
    }
}

pub fn trim_start(s: &[char], ascii: bool) -> (r: &[char])
    ensures
        r@ == trim_start_of(s@, ascii),
{
    let mut n: usize = 0;
    while n < s.len() && blank(s[n], ascii)
        invariant
            n <= s@.len(),
            forall|k: int| 0 <= k < n ==> is_blank(#[trigger] s@[k], ascii),
        decreases s@.len() - n,
    {
        n = n + 1;
    }
    proof {
        lemma_trim_start(s@, n as int, ascii);
        assert(s@.subrange(n as int, s@.len() as int) =~= s@.skip(n as int));
    }
    slice_subrange(s, n, s.len())
}

proof fn lemma_trim_end(s: Seq<char>, n: int)
    requires
        0 <= n <= s.len(),
        forall|k: int| n <= k < s.len() ==> is_white(#[trigger] s[k]),
        n > 0 ==> !is_white(s[n - 1]),
    ensures
        trim_end_of(s) == s.take(n),
    decreases s.len() - n,
{
    if n == s.len() {
        assert(s.take(n) =~= s);
    } else {
        assert(is_white(s[s.len() - 1]));
        lemma_trim_end(s.drop_last(), n);
        assert(s.drop_last().take(n) =~= s.take(n));
    }
}

pub fn trim_end(s: &[char]) -> (r: &[char])
    ensures
        r@ == trim_end_of(s@),
{
    let mut n: usize = s.len();
    while n > 0 && blank(s[n - 1], false)
        invariant
            n <= s@.len(),
            forall|k: int| n <= k < s@.len() ==> is_white(#[trigger] s@[k]),
        decreases n,
    {
        n = n - 1;
    }
    proof {
        lemma_trim_end(s@, n as int);
        assert(s@.subrange(0, n as int) =~= s@.take(n as int));
    }
    slice_subrange(s, 0, n)
}

pub fn trim(s: &[char]) -> (r: &[char])
    ensures
        r@ == trim_of(s@),
{
    trim_end(trim_start(s, false))
}

// ---------------------------------------------------------------------------
// Searching and splitting

/// The first position at or after `from` that holds `c`, or the length.
pub open spec fn find_from(s: Seq<char>, c: char, from: int) -> int
    decreases s.len() - from,
{
    if from < 0 || from >= s.len() {
        s.len() as int
    } else if s[from] == c {
        from
    } else {
        find_from(s, c, from + 1)
    }
}

/// The first position that holds `c`, or the length.
pub open spec fn find_of(s: Seq<char>, c: char) -> int {
    find_from(s, c, 0)
}

/// The first position of a character is inside the sequence exactly when the
/// character occurs, and nothing before that position is the character.
pub proof fn lemma_find(s: Seq<char>, c: char, from: int)
    requires
        0 <= from <= s.len(),
    ensures
        from <= find_from(s, c, from) <= s.len(),
        find_from(s, c, from) < s.len() ==> s[find_from(s, c, from)] == c,
        forall|k: int| from <= k < find_from(s, c, from) ==> s[k] != c,
    decreases s.len() - from,
{
    if from < s.len() && s[from] != c {
        lemma_find(s, c, from + 1);
    }
}

pub fn find(s: &[char], c: char) -> (r: usize)
    ensures
        r == find_of(s@, c),
        r <= s@.len(),
        r < s@.len() ==> s@[r as int] == c,
{
    let mut i: usize = 0;
    while i < s.len() && s[i] != c
        invariant
            i <= s@.len(),
            find_from(s@, c, 0) == find_from(s@, c, i as int),
        decreases s@.len() - i,
    {
        i = i + 1;
    }
    i
}

/// `s` without one trailing carriage return.
pub open spec fn strip_cr(s: Seq<char>) -> Seq<char> {
    if s.len() > 0 && s.last() == '\r' {
        s.drop_last()
    } else {
        s
    }
}

/// The lines of `s`: separated by line feeds, each without the carriage
/// return that belongs to its line ending. A final line feed opens no line.
pub open spec fn lines_of(s: Seq<char>) -> Seq<Seq<char>>
    decreases s.len(),
{
    if s.len() == 0 {
        seq![]
    } else {
        let i = find_of(s, '\n');
        if i < 0 || i >= s.len() {
            seq![s]
        } else {
            seq![strip_cr(s.take(i))] + lines_of(s.skip(i + 1))
        }
    }
}

/// The contents of a list of character slices.
pub open spec fn slices(v: Seq<&[char]>) -> Seq<Seq<char>> {
    v.map_values(|x: &[char]| x@)
}

pub fn lines(s: &[char]) -> (r: Vec<&[char]>)
    ensures
        slices(r@) == lines_of(s@),
{
    let mut out: Vec<&[char]> = Vec::new();
    let mut rest: &[char] = s;
    while rest.len() > 0
        invariant
            slices(out@) + lines_of(rest@) == lines_of(s@),
        decreases rest@.len(),
    {
        let i = find(rest, '\n');
        let ghost before = rest@;
        if i >= rest.len() {
            proof {
                assert(slices(out@.push(rest)) =~= slices(out@).push(rest@));
                assert(slices(out@) + seq![rest@] =~= slices(out@).push(rest@));
            }
            out.push(rest);
            rest = slice_subrange(rest, rest.len(), rest.len());
            assert(slices(out@) + lines_of(rest@) =~= slices(out@));
        } else {
            let mut line = slice_subrange(rest, 0, i);
            assert(line@ =~= before.take(i as int));
            if line.len() > 0 && line[line.len() - 1] == '\r' {
                let shorter = slice_subrange(line, 0, line.len() - 1);
                assert(shorter@ =~= line@.drop_last());
                line = shorter;
            }
            proof {
                assert(slices(out@.push(line)) =~= slices(out@).push(line@));
            }
            let ghost collected = slices(out@);
            out.push(line);
            rest = slice_subrange(rest, i + 1, rest.len());
            proof {
                assert(rest@ =~= before.skip(i + 1));
                assert(collected + (seq![line@] + lines_of(rest@)) =~= collected.push(line@)
                    + lines_of(rest@));
            }
        }
    }
    assert(slices(out@) + lines_of(rest@) =~= slices(out@));
    out
}

/// The parts of `s` between the separators; there is always at least one.
pub open spec fn split_of(s: Seq<char>, c: char) -> Seq<Seq<char>>
    decreases s.len(),
{
    let i = find_of(s, c);
    if i < 0 || i >= s.len() {
        seq![s]
    } else {
        seq![s.take(i)] + split_of(s.skip(i + 1), c)
    }
}

/// Split `s` at the separators.
pub fn split(s: &[char], c: char) -> (r: Vec<&[char]>)
    ensures
        slices(r@) == split_of(s@, c),
{
    let mut out: Vec<&[char]> = Vec::new();
    let mut rest: &[char] = s;
    let mut at = find(rest, c);
    assert(slices(out@) + split_of(rest@, c) =~= split_of(s@, c));
    while at < rest.len()
        invariant
            at == find_of(rest@, c),
            at <= rest@.len(),
            slices(out@) + split_of(rest@, c) == split_of(s@, c),
        decreases rest@.len(),
    {
        let ghost before = rest@;
        let part = slice_subrange(rest, 0, at);
        let ghost collected = slices(out@);
        proof {
            assert(part@ =~= before.take(at as int));
            assert(slices(out@.push(part)) =~= collected.push(part@));
        }
        out.push(part);
        rest = slice_subrange(rest, at + 1, rest.len());
        proof {
            assert(rest@ =~= before.skip(at + 1));
            assert(collected + (seq![part@] + split_of(rest@, c)) =~= collected.push(part@)
                + split_of(rest@, c));
        }
        at = find(rest, c);
    }
    proof {
        assert(slices(out@.push(rest)) =~= slices(out@).push(rest@));
        assert(slices(out@) + seq![rest@] =~= slices(out@).push(rest@));
    }
    out.push(rest);
    out
}

/// The first position that holds a blank, or the length.
pub open spec fn blank_from(s: Seq<char>, from: int, ascii: bool) -> int
    decreases s.len() - from,
{
    if from < 0 || from >= s.len() {
        s.len() as int
    } else if is_blank(s[from], ascii) {
        from
    } else {
        blank_from(s, from + 1, ascii)
    }
}

proof fn lemma_trim_start_len(s: Seq<char>, ascii: bool)
    ensures
        trim_start_of(s, ascii).len() <= s.len(),
        trim_start_of(s, ascii).len() > 0 ==> !is_blank(trim_start_of(s, ascii)[0], ascii),
    decreases s.len(),
{
    if s.len() > 0 && is_blank(s[0], ascii) {
        lemma_trim_start_len(s.skip(1), ascii);
    }
}

proof fn lemma_blank_from(s: Seq<char>, from: int, ascii: bool)
    requires
        0 <= from <= s.len(),
    ensures
        from <= blank_from(s, from, ascii) <= s.len(),
        from < s.len() && !is_blank(s[from], ascii) ==> from < blank_from(s, from, ascii),
    decreases s.len() - from,
{
    if from < s.len() && !is_blank(s[from], ascii) {
        lemma_blank_from(s, from + 1, ascii);
    }
}

/// The maximal runs of non-blank characters, in order.
pub open spec fn fields_of(s: Seq<char>, ascii: bool) -> Seq<Seq<char>>
    decreases s.len(),
    via fields_decreases
{
    let t = trim_start_of(s, ascii);
    if t.len() == 0 {
        seq![]
    } else {
        let j = blank_from(t, 0, ascii);
        seq![t.take(j)] + fields_of(t.skip(j), ascii)
    }
}

#[via_fn]
proof fn fields_decreases(s: Seq<char>, ascii: bool) {
    lemma_trim_start_len(s, ascii);
    lemma_blank_from(trim_start_of(s, ascii), 0, ascii);
}

pub fn fields(s: &[char], ascii: bool) -> (r: Vec<&[char]>)
    ensures
        slices(r@) == fields_of(s@, ascii),
{
    let mut out: Vec<&[char]> = Vec::new();
    let mut rest: &[char] = trim_start(s, ascii);
    proof {
        lemma_trim_start_twice(s@, ascii);
        assert(slices(out@) + fields_of(rest@, ascii) =~= fields_of(rest@, ascii));
    }
    while rest.len() > 0
        invariant
            trim_start_of(rest@, ascii) == rest@,
            slices(out@) + fields_of(rest@, ascii) == fields_of(s@, ascii),
        decreases rest@.len(),
    {
        let ghost before = rest@;
        let mut j: usize = 0;
        while j < rest.len() && !blank(rest[j], ascii)
            invariant
                j <= rest@.len(),
                blank_from(rest@, 0, ascii) == blank_from(rest@, j as int, ascii),
            decreases rest@.len() - j,
        {
            j = j + 1;
        }
        proof {
            lemma_trim_start_len(before, ascii);
            lemma_blank_from(before, 0, ascii);
        }
        let field = slice_subrange(rest, 0, j);
        let tail = slice_subrange(rest, j, rest.len());
        proof {
            assert(field@ =~= before.take(j as int));
            assert(tail@ =~= before.skip(j as int));
            assert(slices(out@.push(field)) =~= slices(out@).push(field@));
            lemma_trim_start_twice(tail@, ascii);
            lemma_trim_start_len(tail@, ascii);
            assert(slices(out@) + (seq![field@] + fields_of(tail@, ascii)) =~= slices(out@).push(
                field@,
            ) + fields_of(tail@, ascii));
        }
        out.push(field);
        rest = trim_start(tail, ascii);
    }
    assert(slices(out@) + fields_of(rest@, ascii) =~= slices(out@));
    out
}

proof fn lemma_trim_start_twice(s: Seq<char>, ascii: bool)
    ensures
        trim_start_of(trim_start_of(s, ascii), ascii) == trim_start_of(s, ascii),
        fields_of(trim_start_of(s, ascii), ascii) == fields_of(s, ascii),
{
    lemma_trim_start_len(s, ascii);
}

// ---------------------------------------------------------------------------
// Order

/// Lexicographic order of texts.
pub open spec fn before(a: Seq<char>, b: Seq<char>) -> bool
    decreases a.len(),
{
    if b.len() == 0 {
        false
    } else if a.len() == 0 {
        true
    } else {
        a[0] < b[0] || (a[0] == b[0] && before(a.skip(1), b.skip(1)))
    }
}

/// The order is irreflexive, transitive, and total.
pub proof fn lemma_before(a: Seq<char>, b: Seq<char>, c: Seq<char>)
    ensures
        !before(a, a),
        before(a, b) && before(b, c) ==> before(a, c),
        before(a, b) || before(b, a) || a == b,
        !(before(a, b) && before(b, a)),
    decreases a.len(),
{
    if a.len() > 0 {
        let rest_b = if b.len() > 0 { b.skip(1) } else { b };
        let rest_c = if c.len() > 0 { c.skip(1) } else { c };
        lemma_before(a.skip(1), rest_b, rest_c);
        if b.len() > 0 && a[0] == b[0] && a.skip(1) == b.skip(1) {
            assert(a =~= seq![a[0]] + a.skip(1));
            assert(b =~= seq![b[0]] + b.skip(1));
        }
    } else if b.len() == 0 {
        assert(a =~= b);
    }
}

/// Whether `a` comes before `b`.
pub fn is_before(a: &str, b: &str) -> (r: bool)
    ensures
        r == before(a@, b@),
{
    let x = chars_of(a);
    let y = chars_of(b);
    let mut i: usize = 0;
    proof {
        assert(x@.skip(0) =~= x@);
        assert(y@.skip(0) =~= y@);
    }
    while i < x.len() && i < y.len() && x[i] == y[i]
        invariant
            i <= x@.len(),
            i <= y@.len(),
            x@ == a@,
            y@ == b@,
            before(a@, b@) == before(x@.skip(i as int), y@.skip(i as int)),
        decreases x@.len() - i,
    {
        proof {
            assert(x@.skip(i as int).skip(1) =~= x@.skip(i + 1));
            assert(y@.skip(i as int).skip(1) =~= y@.skip(i + 1));
        }
        i = i + 1;
    }
    if i >= y.len() {
        false
    } else if i >= x.len() {
        true
    } else {
        x[i] < y[i]
    }
}

// ---------------------------------------------------------------------------
// Decimal numbers

pub open spec fn is_digit(c: char) -> bool {
    '0' <= c <= '9'
}

/// The number written by a sequence of decimal digits.
pub open spec fn digits_value(s: Seq<char>) -> nat
    decreases s.len(),
{
    if s.len() == 0 {
        0
    } else {
        digits_value(s.drop_last()) * 10 + (s.last() as int - '0' as int) as nat
    }
}

pub open spec fn all_digits(s: Seq<char>) -> bool {
    s.len() > 0 && forall|k: int| 0 <= k < s.len() ==> is_digit(#[trigger] s[k])
}

/// `s` without one leading plus sign.
pub open spec fn unsigned_body(s: Seq<char>) -> Seq<char> {
    if s.len() > 0 && s[0] == '+' {
        s.skip(1)
    } else {
        s
    }
}

/// An unsigned decimal number of at most `max`: an optional plus sign, then at
/// least one digit and nothing else.
pub open spec fn unsigned_of(s: Seq<char>, max: nat) -> Option<nat> {
    let body = unsigned_body(s);
    if all_digits(body) && digits_value(body) <= max {
        Some(digits_value(body))
    } else {
        None
    }
}

proof fn lemma_digits_grow(s: Seq<char>, n: int)
    requires
        0 <= n <= s.len(),
        forall|k: int| 0 <= k < s.len() ==> is_digit(#[trigger] s[k]),
    ensures
        digits_value(s.take(n)) <= digits_value(s),
    decreases s.len() - n,
{
    if n == s.len() {
        assert(s.take(n) =~= s);
    } else {
        let longer = s.take(n + 1);
        assert(longer.drop_last() =~= s.take(n));
        lemma_digits_grow(s, n + 1);
    }
}

/// Parse an unsigned decimal number of at most `max`.
pub fn parse_unsigned(s: &[char], max: u64) -> (r: Option<u64>)
    ensures
        match r {
            Some(n) => unsigned_of(s@, max as nat) == Some(n as nat),
            None => unsigned_of(s@, max as nat) is None,
        },
{
    let body = if s.len() > 0 && s[0] == '+' {
        slice_subrange(s, 1, s.len())
    } else {
        s
    };
    assert(body@ =~= unsigned_body(s@));
    if body.len() == 0 {
        return None;
    }
    let mut value: u64 = 0;
    let mut i: usize = 0;
    while i < body.len()
        invariant
            i <= body@.len(),
            body@ == unsigned_body(s@),
            body@.len() > 0,
            forall|k: int| 0 <= k < i ==> is_digit(#[trigger] body@[k]),
            value == digits_value(body@.take(i as int)),
            value <= max,
        decreases body@.len() - i,
    {
        let c = body[i];
        if c < '0' || c > '9' {
            assert(!is_digit(body@[i as int]));
            return None;
        }
        let digit: u64 = (c as u32 - '0' as u32) as u64;
        proof {
            assert(body@.take(i + 1).drop_last() =~= body@.take(i as int));
            assert(digits_value(body@.take(i + 1)) == value * 10 + digit);
        }
        if value > (u64::MAX - digit) / 10 || value * 10 + digit > max {
            proof {
                assert(value * 10 + digit > max) by (nonlinear_arith)
                    requires
                        value > (u64::MAX - digit) / 10 || value * 10 + digit > max,
                        digit <= 9,
                        max <= u64::MAX,
                ;
                if all_digits(body@) {
                    lemma_digits_grow(body@, i + 1);
                }
            }
            return None;
        }
        value = value * 10 + digit;
        i = i + 1;
    }
    assert(body@.take(body@.len() as int) =~= body@);
    Some(value)
}

/// The character of one decimal digit.
pub open spec fn digit_char(d: nat) -> char {
    (d + '0' as nat) as char
}

/// The decimal digits of a number, most significant first, without leading
/// zeros.
pub open spec fn decimal(n: nat) -> Seq<char>
    decreases n,
{
    if n < 10 {
        seq![digit_char(n)]
    } else {
        decimal(n / 10).push(digit_char(n % 10))
    }
}

/// Write a number in decimal.
pub fn decimal_text(n: u64) -> (r: String)
    ensures
        r@ == decimal(n as nat),
    decreases n,
{
    let digit: u8 = (n % 10) as u8;
    let c = digit_to_char(digit);
    let mut out = if n < 10 {
        String::new()
    } else {
        decimal_text(n / 10)
    };
    out.push(c);
    out
}

fn digit_to_char(d: u8) -> (c: char)
    requires
        d < 10,
    ensures
        c == digit_char(d as nat),
{
    (d + 48) as char
}

/// Decimal digits are digits, and read back as the number they write.
pub proof fn lemma_decimal_value(n: nat)
    ensures
        all_digits(decimal(n)),
        digits_value(decimal(n)) == n,
        decimal(n).len() > 0,
    decreases n,
{
    if n < 10 {
        assert(decimal(n).drop_last() =~= Seq::<char>::empty());
        assert(digits_value(Seq::<char>::empty()) == 0);
    } else {
        lemma_decimal_value(n / 10);
        assert(decimal(n).drop_last() =~= decimal(n / 10));
    }
}

/// Writing a number and parsing it back gives the number.
pub proof fn decimal_round_trip(n: nat, max: nat)
    requires
        n <= max,
    ensures
        unsigned_of(decimal(n), max) == Some(n),
{
    lemma_decimal_value(n);
    assert(is_digit(decimal(n)[0]));
}

// ---------------------------------------------------------------------------
// Laws

/// Among the ASCII characters, white space is tab, line feed, vertical tab, form
/// feed, carriage return, and space; the ASCII-only set leaves the vertical tab
/// out and holds nothing beyond ASCII.
pub proof fn ascii_white_space(c: char)
    ensures
        c as u32 <= 0x7f ==> (is_white(c) <==> c == '\t' || c == '\n' || c as u32 == 0xb || c as u32
            == 0xc || c == '\r' || c == ' '),
        is_ascii_white(c) <==> c as u32 <= 0x7f && is_white(c) && c as u32 != 0xb,
        is_blank(c, true) == is_ascii_white(c),
        is_blank(c, false) == is_white(c),
{
}

/// Trimming takes off the white space at both ends and nothing else.
pub proof fn trimming_keeps_the_middle(before: Seq<char>, middle: Seq<char>, after: Seq<char>)
    requires
        forall|k: int| 0 <= k < before.len() ==> is_white(#[trigger] before[k]),
        forall|k: int| 0 <= k < after.len() ==> is_white(#[trigger] after[k]),
        middle.len() > 0 ==> !is_white(middle[0]) && !is_white(middle.last()),
    ensures
        trim_of(before + middle + after) == middle,
{
    let s = before + middle + after;
    if middle.len() > 0 {
        lemma_trim_start(s, before.len() as int, false);
        let rest = s.skip(before.len() as int);
        assert(rest =~= middle + after);
        lemma_trim_end(rest, middle.len() as int);
        assert(rest.take(middle.len() as int) =~= middle);
    } else {
        lemma_trim_start(s, s.len() as int, false);
        assert(s.skip(s.len() as int) =~= middle);
    }
}

proof fn lemma_trimmed(s: Seq<char>)
    ensures
        trim_end_of(s).len() <= s.len(),
        trim_end_of(s) == s.take(trim_end_of(s).len() as int),
        trim_end_of(s).len() > 0 ==> !is_white(trim_end_of(s).last()),
    decreases s.len(),
{
    if s.len() > 0 && is_white(s.last()) {
        lemma_trimmed(s.drop_last());
        let n = trim_end_of(s).len() as int;
        assert(s.drop_last().take(n) =~= s.take(n));
    } else {
        assert(s.take(s.len() as int) =~= s);
    }
}

/// A trimmed text neither starts nor ends with white space, and trimming it
/// again changes nothing.
pub proof fn trimmed_texts_have_bare_ends(s: Seq<char>)
    ensures
        trim_of(s).len() > 0 ==> !is_white(trim_of(s)[0]) && !is_white(trim_of(s).last()),
        trim_of(trim_of(s)) == trim_of(s),
{
    let rest = trim_start_of(s, false);
    let t = trim_of(s);
    lemma_trim_start_len(s, false);
    lemma_trimmed(rest);
    if t.len() > 0 {
        assert(t[0] == rest[0]);
    }
    let none = Seq::<char>::empty();
    trimming_keeps_the_middle(none, t, none);
    assert(none + t + none =~= t);
}

proof fn lemma_blank_at(s: Seq<char>, from: int, at: int, ascii: bool)
    requires
        0 <= from <= at <= s.len(),
        forall|k: int| from <= k < at ==> !is_blank(#[trigger] s[k], ascii),
        at < s.len() ==> is_blank(s[at], ascii),
    ensures
        blank_from(s, from, ascii) == at,
    decreases at - from,
{
    if from < at {
        lemma_blank_at(s, from + 1, at, ascii);
    }
}

/// No blank stands before the first blank.
pub proof fn lemma_first_blank(s: Seq<char>, from: int, ascii: bool)
    requires
        0 <= from <= s.len(),
    ensures
        from <= blank_from(s, from, ascii) <= s.len(),
        forall|k: int| from <= k < blank_from(s, from, ascii) ==> !is_blank(#[trigger] s[k], ascii),
        blank_from(s, from, ascii) < s.len() ==> is_blank(s[blank_from(s, from, ascii)], ascii),
    decreases s.len() - from,
{
    if from < s.len() && !is_blank(s[from], ascii) {
        lemma_first_blank(s, from + 1, ascii);
    }
}

/// A text without a blank is one field, and the empty text has none.
pub proof fn a_word_is_one_field(word: Seq<char>, ascii: bool)
    requires
        forall|k: int| 0 <= k < word.len() ==> !is_blank(#[trigger] word[k], ascii),
    ensures
        word.len() > 0 ==> fields_of(word, ascii) == seq![word],
        word.len() == 0 ==> fields_of(word, ascii) == Seq::<Seq<char>>::empty(),
{
    if word.len() > 0 {
        lemma_blank_at(word, 0, word.len() as int, ascii);
        assert(word.take(word.len() as int) =~= word);
        assert(word.skip(word.len() as int) =~= Seq::<char>::empty());
        assert(fields_of(Seq::<char>::empty(), ascii) =~= Seq::<Seq<char>>::empty());
        assert(seq![word] + Seq::<Seq<char>>::empty() =~= seq![word]);
    }
}

proof fn lemma_fields_skip(s: Seq<char>, ascii: bool)
    requires
        s.len() > 0,
        is_blank(s[0], ascii),
    ensures
        fields_of(s, ascii) == fields_of(s.skip(1), ascii),
{
    lemma_trim_start_twice(s, ascii);
    lemma_trim_start_twice(s.skip(1), ascii);
}

/// A blank separates fields: the fields around it are those of both sides.
pub proof fn blanks_separate_fields(left: Seq<char>, c: char, right: Seq<char>, ascii: bool)
    requires
        is_blank(c, ascii),
    ensures
        fields_of(left + seq![c] + right, ascii) == fields_of(left, ascii) + fields_of(
            right,
            ascii,
        ),
    decreases left.len(),
{
    let s = left + seq![c] + right;
    let tail = seq![c] + right;
    let none = Seq::<Seq<char>>::empty();
    assert(tail.skip(1) =~= right);
    lemma_fields_skip(tail, ascii);
    if left.len() == 0 {
        assert(s =~= tail);
        assert(fields_of(left, ascii) =~= none);
        assert(none + fields_of(right, ascii) =~= fields_of(right, ascii));
    } else if is_blank(left[0], ascii) {
        lemma_fields_skip(s, ascii);
        lemma_fields_skip(left, ascii);
        assert(s.skip(1) =~= left.skip(1) + seq![c] + right);
        blanks_separate_fields(left.skip(1), c, right, ascii);
    } else {
        let j = blank_from(left, 0, ascii);
        lemma_first_blank(left, 0, ascii);
        assert forall|k: int| 0 <= k < j implies !is_blank(#[trigger] s[k], ascii) by {
            assert(s[k] == left[k]);
        }
        if j < left.len() {
            assert(s[j] == left[j]);
        } else {
            assert(s[j] == c);
        }
        lemma_blank_at(s, 0, j, ascii);
        assert(s.take(j) =~= left.take(j));
        assert(s.skip(j) =~= left.skip(j) + seq![c] + right);
        blanks_separate_fields(left.skip(j), c, right, ascii);
        let head = seq![left.take(j)];
        assert(head + (fields_of(left.skip(j), ascii) + fields_of(right, ascii)) =~= (head
            + fields_of(left.skip(j), ascii)) + fields_of(right, ascii));
    }
}

/// A text has a field exactly when it has a character that is no blank.
pub proof fn fields_need_a_character(s: Seq<char>, ascii: bool)
    ensures
        fields_of(s, ascii).len() > 0 <==> exists|k: int|
            0 <= k < s.len() && !is_blank(#[trigger] s[k], ascii),
    decreases s.len(),
{
    if s.len() > 0 {
        if is_blank(s[0], ascii) {
            let rest = s.skip(1);
            lemma_fields_skip(s, ascii);
            fields_need_a_character(rest, ascii);
            if exists|k: int| 0 <= k < s.len() && !is_blank(#[trigger] s[k], ascii) {
                let k = choose|k: int| 0 <= k < s.len() && !is_blank(#[trigger] s[k], ascii);
                assert(rest[k - 1] == s[k]);
            }
            if exists|k: int| 0 <= k < rest.len() && !is_blank(#[trigger] rest[k], ascii) {
                let k = choose|k: int| 0 <= k < rest.len() && !is_blank(#[trigger] rest[k], ascii);
                assert(s[k + 1] == rest[k]);
            }
        } else {
            assert(!is_blank(s[0], ascii));
        }
    }
}

proof fn lemma_find_at(s: Seq<char>, c: char, from: int, at: int)
    requires
        0 <= from <= at <= s.len(),
        forall|k: int| from <= k < at ==> #[trigger] s[k] != c,
        at < s.len() ==> s[at] == c,
    ensures
        find_from(s, c, from) == at,
    decreases at - from,
{
    if from < at {
        lemma_find_at(s, c, from + 1, at);
    }
}

/// A character occurs exactly when some position holds it.
pub proof fn occurring_means_some_position(s: Seq<char>, c: char)
    ensures
        occurs(s, c) <==> s.contains(c),
{
    lemma_find(s, c, 0);
    if s.contains(c) {
        let k = choose|k: int| 0 <= k < s.len() && s[k] == c;
        assert(s[k] == c);
    }
}

/// A line ends at a line feed, with or without a carriage return before it.
pub proof fn line_feeds_end_lines(line: Seq<char>, rest: Seq<char>)
    requires
        forall|k: int| 0 <= k < line.len() ==> #[trigger] line[k] != '\n',
        line.len() > 0 ==> line.last() != '\r',
    ensures
        lines_of(line + seq!['\n'] + rest) == seq![line] + lines_of(rest),
        lines_of(line + seq!['\r', '\n'] + rest) == seq![line] + lines_of(rest),
        line.len() > 0 ==> lines_of(line) == seq![line],
        lines_of(Seq::<char>::empty()) == Seq::<Seq<char>>::empty(),
{
    let n = line.len() as int;
    let plain = line + seq!['\n'] + rest;
    lemma_find_at(plain, '\n', 0, n);
    assert(plain.take(n) =~= line);
    assert(plain.skip(n + 1) =~= rest);
    let marked = line + seq!['\r', '\n'] + rest;
    lemma_find_at(marked, '\n', 0, n + 1);
    assert(marked.take(n + 1) =~= line.push('\r'));
    assert(line.push('\r').drop_last() =~= line);
    assert(marked.skip(n + 2) =~= rest);
    lemma_find_at(line, '\n', 0, n);
}

/// Parts with a separator between each two.
pub open spec fn joined(parts: Seq<Seq<char>>, c: char) -> Seq<char>
    decreases parts.len(),
{
    if parts.len() == 0 {
        seq![]
    } else if parts.len() == 1 {
        parts[0]
    } else {
        parts[0] + seq![c] + joined(parts.skip(1), c)
    }
}

/// Splitting takes the separators out and nothing else: no part holds one, and
/// joining the parts gives the text back.
pub proof fn splitting_only_takes_separators(s: Seq<char>, c: char)
    ensures
        split_of(s, c).len() > 0,
        forall|i: int| 0 <= i < split_of(s, c).len() ==> !(#[trigger] split_of(s, c)[i]).contains(c),
        joined(split_of(s, c), c) == s,
    decreases s.len(),
{
    let i = find_of(s, c);
    let parts = split_of(s, c);
    lemma_find(s, c, 0);
    if i < s.len() {
        let rest = s.skip(i + 1);
        splitting_only_takes_separators(rest, c);
        assert(parts.skip(1) =~= split_of(rest, c));
        assert(s =~= s.take(i) + seq![c] + rest);
        assert forall|k: int| 0 <= k < parts.len() implies !(#[trigger] parts[k]).contains(c) by {
            if k > 0 {
                assert(parts[k] == split_of(rest, c)[k - 1]);
            }
        }
    }
}

/// The order is lexicographic: a common start does not count, the first
/// difference decides, and the shorter text comes first.
pub proof fn texts_are_ordered_like_words(start: Seq<char>, a: Seq<char>, b: Seq<char>)
    ensures
        before(start + a, start + b) == before(a, b),
        before(start, start + a) <==> a.len() > 0,
        a.len() > 0 && b.len() > 0 && a[0] != b[0] ==> (before(start + a, start + b) <==> a[0]
            < b[0]),
    decreases start.len(),
{
    if start.len() == 0 {
        assert(start + a =~= a);
        assert(start + b =~= b);
    } else {
        texts_are_ordered_like_words(start.skip(1), a, b);
        assert((start + a).skip(1) =~= start.skip(1) + a);
        assert((start + b).skip(1) =~= start.skip(1) + b);
    }
}

/// A number is read from digits alone, possibly after one plus sign, and only
/// up to the limit; leading zeros do not count.
pub proof fn unsigned_numbers_are_digits(s: Seq<char>, max: nat)
    ensures
        unsigned_of(s, max) is Some ==> forall|k: int|
            1 <= k < s.len() ==> '0' <= #[trigger] s[k] <= '9',
        unsigned_of(s, max) matches Some(n) ==> n <= max,
        unsigned_of(s, max) matches Some(n) ==> unsigned_of(s, n) == Some(n),
        s.len() == 0 ==> unsigned_of(s, max) is None,
        s.len() > 0 && s[0] != '+' ==> unsigned_of(seq!['+'] + s, max) == unsigned_of(s, max),
        s.len() > 0 && s[0] != '+' ==> unsigned_of(seq!['0'] + s, max) == unsigned_of(s, max),
{
    if s.len() > 0 && s[0] != '+' {
        assert((seq!['+'] + s).skip(1) =~= s);
        let zero = seq!['0'] + s;
        lemma_leading_zero(s);
        if all_digits(s) {
            assert forall|k: int| 0 <= k < zero.len() implies is_digit(#[trigger] zero[k]) by {
                if k > 0 {
                    assert(zero[k] == s[k - 1]);
                }
            }
        }
        if all_digits(zero) {
            assert forall|k: int| 0 <= k < s.len() implies is_digit(#[trigger] s[k]) by {
                assert(is_digit(zero[k + 1]));
            }
        }
    }
    if unsigned_of(s, max) is Some {
        let body = unsigned_body(s);
        assert forall|k: int| 1 <= k < s.len() implies '0' <= #[trigger] s[k] <= '9' by {
            if s[0] == '+' {
                assert(is_digit(body[k - 1]));
            } else {
                assert(is_digit(body[k]));
            }
        }
    }
}

proof fn lemma_leading_zero(s: Seq<char>)
    ensures
        digits_value(seq!['0'] + s) == digits_value(s),
    decreases s.len(),
{
    let zero = seq!['0'] + s;
    if s.len() == 0 {
        assert(zero.drop_last() =~= Seq::<char>::empty());
        assert(digits_value(Seq::<char>::empty()) == 0);
    } else {
        assert(zero.drop_last() =~= seq!['0'] + s.drop_last());
        lemma_leading_zero(s.drop_last());
    }
}

/// A separator splits a text into the parts of both sides.
pub proof fn separators_split_parts(left: Seq<char>, c: char, right: Seq<char>)
    ensures
        split_of(left + seq![c] + right, c) == split_of(left, c) + split_of(right, c),
        !left.contains(c) ==> split_of(left, c) == seq![left],
    decreases left.len(),
{
    let s = left + seq![c] + right;
    let i = find_of(left, c);
    lemma_find(left, c, 0);
    assert forall|k: int| 0 <= k < i implies #[trigger] s[k] != c by {
        assert(s[k] == left[k]);
    }
    lemma_find_at(s, c, 0, i);
    assert(s.take(i) =~= left.take(i));
    if i < left.len() {
        assert(left.contains(c));
        let rest = left.skip(i + 1);
        assert(s.skip(i + 1) =~= rest + seq![c] + right);
        separators_split_parts(rest, c, right);
        let head = seq![left.take(i)];
        assert(head + (split_of(rest, c) + split_of(right, c)) =~= (head + split_of(rest, c))
            + split_of(right, c));
    } else {
        assert(left.take(i) =~= left);
        assert(s.skip(i + 1) =~= right);
    }
}

/// A decimal number has no leading zero, and one digit more for each ten.
pub proof fn decimals_are_shortest(n: nat, d: nat)
    requires
        d < 10,
    ensures
        n > 0 ==> decimal(n)[0] != '0',
        n < 10 ==> decimal(n).len() == 1,
        n > 0 ==> decimal(10 * n + d) == decimal(n) + decimal(d),
    decreases n,
{
    if n >= 10 {
        decimals_are_shortest(n / 10, n % 10);
        assert(decimal(n)[0] == decimal(n / 10)[0]) by {
            lemma_decimal_value(n / 10);
        }
    }
    if n > 0 {
        assert((10 * n + d) / 10 == n);
        assert((10 * n + d) % 10 == d);
        assert(decimal(n) + decimal(d) =~= decimal(n).push(digit_char(d)));
    }
}

/// A text starts and ends with what it is put together of.
pub proof fn lemma_ends(start: Seq<char>, end: Seq<char>)
    ensures
        start.is_prefix_of(start + end),
        end.is_suffix_of(start + end),
{
    let s = start + end;
    assert(s.subrange(0, start.len() as int) =~= start);
    assert(s.subrange(s.len() - end.len(), s.len() as int) =~= end);
}

} // verus!
