//! Quoted text, as it appears in diagnostics.

use vstd::prelude::*;

verus! {

/// A character whose quoted form is fixed: printable ASCII, line feed,
/// carriage return, or tab.
pub open spec fn is_plain_char(c: char) -> bool {
    0x20 <= c as u32 <= 0x7e || c == '\n' || c == '\r' || c == '\t'
}

pub open spec fn is_plain(s: Seq<char>) -> bool {
    forall|i: int| 0 <= i < s.len() ==> is_plain_char(#[trigger] s[i])
}

/// One plain character inside double quotes.
pub open spec fn escape(c: char) -> Seq<char> {
    if c == '"' {
        seq!['\\', '"']
    } else if c == '\\' {
        seq!['\\', '\\']
    } else if c == '\n' {
        seq!['\\', 'n']
    } else if c == '\r' {
        seq!['\\', 'r']
    } else if c == '\t' {
        seq!['\\', 't']
    } else {
        seq![c]
    }
}

/// Plain text inside double quotes.
pub open spec fn escaped(s: Seq<char>) -> Seq<char>
    decreases s.len(),
{
    if s.len() == 0 {
        seq![]
    } else {
        escaped(s.drop_last()) + escape(s.last())
    }
}

/// Plain text with its double quotes.
pub open spec fn quoted(s: Seq<char>) -> Seq<char> {
    seq!['"'] + escaped(s) + seq!['"']
}

/// The text that `Debug` formatting gives a string.
pub uninterp spec fn debug_text(s: Seq<char>) -> Seq<char>;

/// `Debug` formatting of `str` (`{:?}`): the text in double quotes, with a
/// backslash before a double quote and a backslash, and `\n`, `\r`, `\t` for
/// the three control characters that have a letter. How other control
/// characters and characters beyond ASCII are written is not stated.
#[verifier::external_body]
pub(crate) fn debug_quoted(s: &str) -> (r: String)
    ensures
        r@ == debug_text(s@),
        is_plain(s@) ==> r@ == quoted(s@),
{
    format!("{s:?}")
}

/// Quoting goes character by character: a quote and a backslash get a backslash
/// before them, the three control characters with a letter are written by it,
/// and every other plain character stands for itself.
pub proof fn only_special_characters_are_quoted(a: Seq<char>, c: char)
    ensures
        escaped(a.push(c)) == escaped(a) + escape(c),
        quoted(a).len() == escaped(a).len() + 2,
        escape(c) == seq![c] <==> c != '"' && c != '\\' && c != '\n' && c != '\r' && c != '\t',
        c == '"' || c == '\\' ==> escape(c) == seq!['\\', c],
        c == '\n' ==> escape(c) == seq!['\\', 'n'],
        c == '\r' ==> escape(c) == seq!['\\', 'r'],
        c == '\t' ==> escape(c) == seq!['\\', 't'],
{
    assert(a.push(c).drop_last() =~= a);
    if c == '"' || c == '\\' || c == '\n' || c == '\r' || c == '\t' {
        assert(escape(c).len() == 2);
        assert(seq![c].len() == 1);
    }
}

} // verus!
