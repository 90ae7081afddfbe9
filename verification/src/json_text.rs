//! The text of a JSON document: numbers, quoted strings, arrays, and
//! `"key":value` fields.

use vstd::prelude::*;

use crate::text::{decimal, push_char, push_decimal, push_str};

verus! {

/// The lowercase hexadecimal digit for `d`, which is below sixteen.
pub open spec fn hex_char(d: u8) -> char {
    if d < 10 {
        (48 + d) as char
    } else {
        (97 + (d - 10)) as char
    }
}

/// The JSON escape of one character: the quote, the backslash, line feed,
/// carriage return and tab get their short escapes, every other control
/// character below U+0020 becomes `\u00XX` in lowercase hexadecimal, and
/// every other character, apostrophes and non-ASCII ones included, stands
/// for itself.
pub open spec fn escaped_char(c: char) -> Seq<char> {
    if c == '"' {
        seq!['\\', '"']
    } else if c == '\\' {
        seq!['\\', '\\']
    } else if c == '\n' {
        seq!['\\', 'n']
    } else if c == '\r' {
        seq!['\\', 'r']
    } else if c == '\t' {
        seq!['\\', 't']
    } else if (c as u32) < 32 {
        seq!['\\', 'u', '0', '0', hex_char((c as u32 / 16) as u8), hex_char((c as u32 % 16) as u8)]
    } else {
        seq![c]
    }
}

/// The JSON escape of a string, character by character.
pub open spec fn escaped(s: Seq<char>) -> Seq<char>
    decreases s.len(),
{
    if s.len() == 0 {
        Seq::empty()
    } else {
        escaped(s.drop_last()) + escaped_char(s.last())
    }
}

/// A string as a JSON string literal.
pub open spec fn quoted(s: Seq<char>) -> Seq<char> {
    seq!['"'] + escaped(s) + seq!['"']
}

/// Items joined by `", "`.
pub open spec fn joined(items: Seq<Seq<char>>) -> Seq<char>
    decreases items.len(),
{
    if items.len() == 0 {
        Seq::empty()
    } else if items.len() == 1 {
        items[0]
    } else {
        joined(items.drop_last()) + ", "@ + items.last()
    }
}

/// Items as a JSON array: `[a, b, c]`.
pub open spec fn array(items: Seq<Seq<char>>) -> Seq<char> {
    seq!['['] + joined(items) + seq![']']
}

/// Numbers as their decimal numerals.
pub open spec fn numerals(values: Seq<u32>) -> Seq<Seq<char>> {
    values.map_values(|v: u32| decimal(v as nat))
}

fn hex_digit(d: u8) -> (c: char)
    requires
        d < 16,
    ensures
        c == hex_char(d),
{
    if d < 10 {
        (48u8 + d) as char
    } else {
        (97u8 + (d - 10)) as char
    }
}

/// Appends the JSON escape of one character.
pub fn push_escaped_char(text: &mut String, c: char)
    ensures
        final(text)@ == old(text)@ + escaped_char(c),
{
    if c == '"' {
        push_str(text, "\\\"");
        proof { reveal_strlit("\\\""); }
    } else if c == '\\' {
        push_str(text, "\\\\");
        proof { reveal_strlit("\\\\"); }
    } else if c == '\n' {
        push_str(text, "\\n");
        proof { reveal_strlit("\\n"); }
    } else if c == '\r' {
        push_str(text, "\\r");
        proof { reveal_strlit("\\r"); }
    } else if c == '\t' {
        push_str(text, "\\t");
        proof { reveal_strlit("\\t"); }
    } else if (c as u32) < 32 {
        let code: u32 = c as u32;
        let low: u8 = (code % 16) as u8;
        let high: u8 = (code / 16) as u8;
        push_str(text, "\\u00");
        proof { reveal_strlit("\\u00"); }
        push_char(text, hex_digit(high));
        push_char(text, hex_digit(low));
    } else {
        push_char(text, c);
    }
    assert(final(text)@ =~= old(text)@ + escaped_char(c));
}

/// Appends `s` as a JSON string literal.
pub fn print_str(text: &mut String, s: &str)
    ensures
        final(text)@ == old(text)@ + quoted(s@),
{
    broadcast use vstd::string::axiom_spec_iter;
    push_char(text, '"');
    let ghost start = text@;
    for c in it: s.chars()
        invariant
            it.seq() == s@,
            text@ == start + escaped(s@.take(it.index() as int)),
    {
        let ghost i = it.index();
        push_escaped_char(text, c);
        assert(s@.take(i + 1).drop_last() =~= s@.take(i as int));
        assert(start + escaped(s@.take(i + 1)) =~= start + escaped(s@.take(i as int))
            + escaped_char(s@[i as int]));
    }
    assert(s@.take(s@.len() as int) =~= s@);
    push_char(text, '"');
    assert(final(text)@ =~= old(text)@ + quoted(s@));
}

/// Appends the decimal numeral of `value`.
pub fn print_u32(text: &mut String, value: u32)
    ensures
        final(text)@ == old(text)@ + decimal(value as nat),
{
    push_decimal(text, value as u64);
}

/// Appends `values` as a JSON array of numbers.
pub fn print_u32_list(text: &mut String, values: &[u32])
    ensures
        final(text)@ == old(text)@ + array(numerals(values@)),
{
    push_char(text, '[');
    let ghost start = text@;
    let mut i: usize = 0;
    while i < values.len()
        invariant
            i <= values@.len(),
            text@ == start + joined(numerals(values@.take(i as int))),
        decreases values.len() - i,
    {
        let ghost before = text@;
        if i > 0 {
            push_str(text, ", ");
        }
        print_u32(text, values[i]);
        proof {
            let items = numerals(values@.take(i + 1));
            assert(items.drop_last() =~= numerals(values@.take(i as int)));
            assert(items.last() == decimal(values@[i as int] as nat));
            if i == 0 {
                assert(numerals(values@.take(0)) =~= Seq::<Seq<char>>::empty());
                assert(text@ =~= start + joined(items));
            } else {
                assert(text@ =~= start + joined(items));
            }
        }
        i = i + 1;
    }
    assert(values@.take(i as int) =~= values@);
    push_char(text, ']');
    assert(final(text)@ =~= old(text)@ + array(numerals(values@)));
}

/// The quoted literals of a list of strings.
pub open spec fn quoted_all(strings: Seq<Seq<char>>) -> Seq<Seq<char>> {
    strings.map_values(|s: Seq<char>| quoted(s))
}

/// Appends `strings` as a JSON array of quoted literals.
pub fn print_str_list(text: &mut String, strings: &[String])
    ensures
        final(text)@ == old(text)@ + array(quoted_all(strings@.map_values(|s: String| s@))),
{
    let ghost texts = strings@.map_values(|s: String| s@);
    push_char(text, '[');
    let ghost start = text@;
    let mut i: usize = 0;
    while i < strings.len()
        invariant
            i <= strings@.len(),
            texts == strings@.map_values(|s: String| s@),
            text@ == start + joined(quoted_all(texts.take(i as int))),
        decreases strings.len() - i,
    {
        if i > 0 {
            push_str(text, ", ");
        }
        print_str(text, strings[i].as_str());
        proof {
            let items = quoted_all(texts.take(i + 1));
            assert(items.drop_last() =~= quoted_all(texts.take(i as int)));
            assert(items.last() == quoted(strings@[i as int]@));
            if i == 0 {
                assert(quoted_all(texts.take(0)) =~= Seq::<Seq<char>>::empty());
            }
            assert(text@ =~= start + joined(items));
        }
        i = i + 1;
    }
    assert(texts.take(i as int) =~= texts);
    push_char(text, ']');
    assert(final(text)@ =~= old(text)@ + array(quoted_all(texts)));
}

/// A `"key":value` field.
pub open spec fn field(key: Seq<char>, value: Seq<char>) -> Seq<char> {
    quoted(key) + seq![':'] + value
}

} // verus!
