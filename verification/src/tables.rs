//! Flat TOML tables.

use crate::text;
use crate::token;
use vstd::prelude::*;

verus! {

/// A value of a flat table. Values that are neither strings nor integers are
/// only told apart from those that are.
#[derive(Debug)]
pub enum Scalar {
    Text(String),
    Integer(i64),
    Other,
}

/// The contents of a [`Scalar`].
pub enum ScalarView {
    Text(Seq<char>),
    Integer(int),
    Other,
}

impl View for Scalar {
    type V = ScalarView;

    open spec fn view(&self) -> ScalarView {
        match self {
            Scalar::Text(s) => ScalarView::Text(s@),
            Scalar::Integer(n) => ScalarView::Integer(*n as int),
            Scalar::Other => ScalarView::Other,
        }
    }
}

/// The table that a list of entries stands for.
pub open spec fn table_of(entries: Seq<(String, Scalar)>) -> Map<Seq<char>, ScalarView>
    decreases entries.len(),
{
    if entries.len() == 0 {
        Map::empty()
    } else {
        table_of(entries.drop_last()).insert(entries.last().0@, entries.last().1@)
    }
}

/// One character of a basic string. A quotation mark, a backslash and the
/// control characters are escaped; everything else stands for itself.
pub open spec fn escape(c: char) -> Seq<char> {
    if c == '"' {
        seq!['\\', '"']
    } else if c == '\\' {
        seq!['\\', '\\']
    } else if c == '\n' {
        seq!['\\', 'n']
    } else if c == '\r' {
        seq!['\\', 'r']
    } else if c == '\t' {
        seq!['\\', 't']
    } else if (c as u32) < 0x20 || c as u32 == 0x7f {
        seq!['\\', 'u'] + token::hex_text(c as nat, 4)
    } else {
        seq![c]
    }
}

/// Text inside a basic string.
pub open spec fn escaped(s: Seq<char>) -> Seq<char>
    decreases s.len(),
{
    if s.len() == 0 {
        seq![]
    } else {
        escaped(s.drop_last()) + escape(s.last())
    }
}

/// A basic string: text in quotation marks.
pub open spec fn basic_string(s: Seq<char>) -> Seq<char> {
    seq!['"'] + escaped(s) + seq!['"']
}

fn push_escaped(out: &mut String, c: char)
    ensures
        final(out)@ == old(out)@ + escape(c),
{
    let ghost start = out@;
    let letter = match c {
        '"' => Some('"'),
        '\\' => Some('\\'),
        '\n' => Some('n'),
        '\r' => Some('r'),
        '\t' => Some('t'),
        _ => None,
    };
    match letter {
        Some(letter) => {
            out.push('\\');
            out.push(letter);
        },
        None => {
            let code = c as u32;
            if code < 0x20 || code == 0x7f {
                out.push('\\');
                out.push('u');
                let digits = token::hex_string(code as u128, 4);
                out.append(digits.as_str());
            } else {
                out.push(c);
            }
        },
    }
    assert(out@ =~= start + escape(c));
}

/// Write a basic string.
pub fn basic_string_text(s: &str) -> (r: String)
    ensures
        r@ == basic_string(s@),
{
    let chars = text::chars_of(s);
    let mut out = String::new();
    out.push('"');
    let mut i: usize = 0;
    assert(out@ =~= seq!['"'] + escaped(s@.take(0)));
    while i < chars.len()
        invariant
            i <= chars@.len(),
            chars@ == s@,
            out@ == seq!['"'] + escaped(s@.take(i as int)),
        decreases chars@.len() - i,
    {
        proof {
            assert(s@.take(i + 1).drop_last() =~= s@.take(i as int));
            assert(s@.take(i + 1).last() == s@[i as int]);
        }
        push_escaped(&mut out, chars[i]);
        assert(out@ =~= seq!['"'] + escaped(s@.take(i + 1)));
        i = i + 1;
    }
    assert(s@.take(s@.len() as int) =~= s@);
    out.push('"');
    assert(out@ =~= basic_string(s@));
    out
}

/// One line `key = value`.
pub open spec fn line_text(key: Seq<char>, written: Seq<char>) -> Seq<char> {
    key + " = "@ + written + "\n"@
}

/// Write one line `key = value`.
pub fn line(key: &str, written: &str) -> (r: String)
    ensures
        r@ == line_text(key@, written@),
{
    text::cat4(key, " = ", written, "\n")
}

/// One entry of a plain document: a bare key and a string or a non-negative
/// integer, on a line of its own.
pub open spec fn entry_text(key: Seq<char>, value: ScalarView) -> Seq<char> {
    line_text(
        key,
        match value {
            ScalarView::Text(s) => basic_string(s),
            ScalarView::Integer(n) => text::decimal(n as nat),
            ScalarView::Other => seq![],
        },
    )
}

/// A plain document: its entries in order.
pub open spec fn document_text(entries: Seq<(Seq<char>, ScalarView)>) -> Seq<char>
    decreases entries.len(),
{
    if entries.len() == 0 {
        seq![]
    } else {
        document_text(entries.drop_last()) + entry_text(entries.last().0, entries.last().1)
    }
}

/// The table of a plain document.
pub open spec fn document_table(entries: Seq<(Seq<char>, ScalarView)>) -> Map<Seq<char>, ScalarView>
    decreases entries.len(),
{
    if entries.len() == 0 {
        Map::empty()
    } else {
        document_table(entries.drop_last()).insert(entries.last().0, entries.last().1)
    }
}

/// A key of lower-case letters and underscores.
pub open spec fn is_bare_key(key: Seq<char>) -> bool {
    &&& key.len() > 0
    &&& forall|i: int| 0 <= i < key.len() ==> 'a' <= (#[trigger] key[i]) <= 'z' || key[i] == '_'
}

/// A string, or an integer that its decimal digits write.
pub open spec fn is_plain_value(value: ScalarView) -> bool {
    match value {
        ScalarView::Text(_) => true,
        ScalarView::Integer(n) => 0 <= n <= i64::MAX,
        ScalarView::Other => false,
    }
}

/// Bare keys, each once, with plain values.
pub open spec fn is_plain_document(entries: Seq<(Seq<char>, ScalarView)>) -> bool {
    &&& forall|i: int|
        0 <= i < entries.len() ==> is_bare_key((#[trigger] entries[i]).0) && is_plain_value(
            entries[i].1,
        )
    &&& forall|i: int, j: int|
        0 <= i < j < entries.len() ==> (#[trigger] entries[i]).0 != (#[trigger] entries[j]).0
}

/// The table of a TOML document, or the parser's message.
pub uninterp spec fn toml_table(document: Seq<char>) -> Result<Map<Seq<char>, ScalarView>, Seq<char>>;

/// If the document is the text of plain entries, the outcome is their table.
pub open spec fn reads_plain_document(
    document: Seq<char>,
    outcome: Result<Vec<(String, Scalar)>, String>,
) -> bool {
    forall|entries: Seq<(Seq<char>, ScalarView)>|
        is_plain_document(entries) && document == #[trigger] document_text(entries)
            ==> (outcome matches Ok(found) && table_of(found@) == document_table(entries))
}

/// `toml::from_str` into a `toml::Table`, its values reduced to strings and
/// integers. The outcome is a function of the document. A document of lines
/// `key = value`, with distinct bare keys and with basic strings or decimal
/// integers as values, is valid TOML and has exactly those entries: in a basic
/// string every character but a quotation mark, a backslash and the control
/// characters stands for itself, and those are read back from their escapes.
#[verifier::external_body]
pub(crate) fn parse_table(document: &str) -> (r: Result<Vec<(String, Scalar)>, String>)
    ensures
        match r {
            Ok(entries) => toml_table(document@) == Ok::<Map<Seq<char>, ScalarView>, Seq<char>>(
                table_of(entries@),
            ),
            Err(message) => toml_table(document@) == Err::<Map<Seq<char>, ScalarView>, Seq<char>>(
                message@,
            ),
        },
        reads_plain_document(document@, r),
{
    let table = toml::from_str::<toml::Table>(document).map_err(|error| error.to_string())?;
    let scalar = |value: toml::Value| match value {
        toml::Value::String(s) => Scalar::Text(s),
        toml::Value::Integer(n) => Scalar::Integer(n),
        _ => Scalar::Other,
    };
    Ok(table.into_iter().map(|(key, value)| (key, scalar(value))).collect())
}

/// The text and the table of a document grow with its last entry.
pub proof fn lemma_document_push(
    entries: Seq<(Seq<char>, ScalarView)>,
    key: Seq<char>,
    value: ScalarView,
)
    ensures
        document_text(entries.push((key, value))) == document_text(entries) + entry_text(key, value),
        document_table(entries.push((key, value))) == document_table(entries).insert(key, value),
{
    assert(entries.push((key, value)).drop_last() =~= entries);
}

proof fn lemma_table_of(entries: Seq<(String, Scalar)>, key: Seq<char>, n: int)
    requires
        0 <= n <= entries.len(),
        forall|k: int| n <= k < entries.len() ==> (#[trigger] entries[k]).0@ != key,
        n > 0 ==> entries[n - 1].0@ == key,
    ensures
        n > 0 ==> table_of(entries).dom().contains(key) && table_of(entries)[key] == entries[n
            - 1].1@,
        n == 0 ==> !table_of(entries).dom().contains(key),
    decreases entries.len(),
{
    if n < entries.len() {
        lemma_table_of(entries.drop_last(), key, n);
    }
}

/// The value under a key.
pub fn lookup<'a>(entries: &'a Vec<(String, Scalar)>, key: &str) -> (r: Option<&'a Scalar>)
    ensures
        match r {
            Some(value) => table_of(entries@).dom().contains(key@) && table_of(entries@)[key@]
                == value@,
            None => !table_of(entries@).dom().contains(key@),
        },
{
    let mut n: usize = entries.len();
    while n > 0
        invariant
            n <= entries@.len(),
            forall|k: int| n <= k < entries@.len() ==> (#[trigger] entries@[k]).0@ != key@,
        decreases n,
    {
        if text::same_text(entries[n - 1].0.as_str(), key) {
            proof {
                lemma_table_of(entries@, key@, n as int);
            }
            return Some(&entries[n - 1].1);
        }
        n = n - 1;
    }
    proof {
        lemma_table_of(entries@, key@, 0);
    }
    None
}

/// A key is in the table exactly when some entry has it.
pub proof fn lemma_table_keys(entries: Seq<(String, Scalar)>, key: Seq<char>)
    ensures
        table_of(entries).dom().contains(key) <==> exists|i: int|
            0 <= i < entries.len() && (#[trigger] entries[i]).0@ == key,
    decreases entries.len(),
{
    if entries.len() > 0 {
        let init = entries.drop_last();
        lemma_table_keys(init, key);
        if entries.last().0@ == key {
            assert(entries[entries.len() - 1].0@ == key);
        }
        if exists|i: int| 0 <= i < entries.len() && (#[trigger] entries[i]).0@ == key {
            let i = choose|i: int| 0 <= i < entries.len() && (#[trigger] entries[i]).0@ == key;
            if i < entries.len() - 1 {
                assert(init[i].0@ == key);
            }
        }
        if exists|i: int| 0 <= i < init.len() && (#[trigger] init[i]).0@ == key {
            let i = choose|i: int| 0 <= i < init.len() && (#[trigger] init[i]).0@ == key;
            assert(entries[i].0@ == key);
        }
    }
}

/// Escaping goes character by character, and leaves a character alone exactly
/// when it is neither a quote, nor a backslash, nor a control character; what is
/// escaped starts with a backslash, and no control character is left.
pub proof fn only_special_characters_are_escaped(a: Seq<char>, c: char)
    ensures
        escaped(a.push(c)) == escaped(a) + escape(c),
        escaped(Seq::<char>::empty()).len() == 0,
        escape(c) == seq![c] <==> c != '"' && c != '\\' && c as u32 >= 0x20 && c as u32 != 0x7f,
        escape(c) != seq![c] ==> escape(c).len() >= 2 && escape(c)[0] == '\\',
        forall|k: int| 0 <= k < escape(c).len() ==> (#[trigger] escape(c)[k]) as u32 >= 0x20,
{
    assert(a.push(c).drop_last() =~= a);
    token::lemma_hex_text(c as nat, 4);
    if escape(c).len() == 1 {
        assert(escape(c)[0] == c);
    } else {
        assert(escape(c).len() >= 2);
        assert(seq![c].len() == 1);
    }
    assert forall|k: int| 0 <= k < escape(c).len() implies (#[trigger] escape(c)[k]) as u32
        >= 0x20 by {
        if k >= 2 {
            assert(escape(c)[k] == token::hex_text(c as nat, 4)[k - 2]);
            assert(token::is_hex(token::hex_text(c as nat, 4)[k - 2]));
            lemma_hex_is_printable(escape(c)[k]);
        }
    }
}

proof fn lemma_hex_is_printable(c: char)
    requires
        token::is_hex(c),
    ensures
        c as u32 >= 0x20,
{
}

/// A document is its entries, one line each, and its table has each entry under
/// its key.
pub proof fn documents_are_their_lines(
    entries: Seq<(Seq<char>, ScalarView)>,
    key: Seq<char>,
    value: Seq<char>,
    n: nat,
)
    ensures
        document_text(entries.push((key, ScalarView::Text(value)))) == document_text(entries) + key
            + seq![' ', '=', ' ', '"'] + escaped(value) + seq!['"', '\n'],
        document_text(entries.push((key, ScalarView::Integer(n as int)))) == document_text(entries)
            + key + seq![' ', '=', ' '] + text::decimal(n) + seq!['\n'],
        document_table(entries.push((key, ScalarView::Text(value))))[key] == ScalarView::Text(
            value,
        ),
{
    reveal_strlit(" = ");
    reveal_strlit("\n");
    lemma_document_push(entries, key, ScalarView::Text(value));
    lemma_document_push(entries, key, ScalarView::Integer(n as int));
    assert(document_text(entries) + entry_text(key, ScalarView::Text(value)) =~= document_text(
        entries,
    ) + key + seq![' ', '=', ' ', '"'] + escaped(value) + seq!['"', '\n']);
    assert(document_text(entries) + entry_text(key, ScalarView::Integer(n as int))
        =~= document_text(entries) + key + seq![' ', '=', ' '] + text::decimal(n) + seq!['\n']);
}

} // verus!
