//! Small pieces of text that the generated code is put together from: numbers
//! in decimal and hexadecimal, string literals, separated lists.

use vstd::prelude::*;
use vstd::string::StrSliceExecFns;
use vstd::string::StringExecFns;

verus! {

/// The character that stands for a digit below sixteen.
pub open spec fn digit_char(d: nat) -> char {
    if d == 0 {
        '0'
    } else if d == 1 {
        '1'
    } else if d == 2 {
        '2'
    } else if d == 3 {
        '3'
    } else if d == 4 {
        '4'
    } else if d == 5 {
        '5'
    } else if d == 6 {
        '6'
    } else if d == 7 {
        '7'
    } else if d == 8 {
        '8'
    } else if d == 9 {
        '9'
    } else if d == 10 {
        'a'
    } else if d == 11 {
        'b'
    } else if d == 12 {
        'c'
    } else if d == 13 {
        'd'
    } else if d == 14 {
        'e'
    } else {
        'f'
    }
}

/// A number written in decimal, without leading zeroes; zero is written as
/// `0`.
pub open spec fn decimal_text(n: nat) -> Seq<char>
    decreases n,
{
    if n < 10 {
        seq![digit_char(n)]
    } else {
        decimal_text(n / 10).push(digit_char(n % 10))
    }
}

/// A number written in lower-case hexadecimal, without leading zeroes.
pub open spec fn hex_text(n: nat) -> Seq<char>
    decreases n,
{
    if n < 16 {
        seq![digit_char(n)]
    } else {
        hex_text(n / 16).push(digit_char(n % 16))
    }
}

/// Characters that a string literal holds as they are: printable ASCII other
/// than the double quote and the backslash.
pub open spec fn is_plain(c: char) -> bool {
    32 <= c as u32 <= 126 && c != '"' && c != '\\'
}

/// A character as it stands inside a string literal: a plain character as it
/// is, the double quote and the backslash behind a backslash, any other as a
/// Unicode escape.
pub open spec fn escaped_char(c: char) -> Seq<char> {
    if is_plain(c) {
        seq![c]
    } else if c == '"' || c == '\\' {
        seq!['\\', c]
    } else {
        seq!['\\', 'u', '{'] + hex_text(c as u32 as nat) + seq!['}']
    }
}

/// The characters of a text, each as it stands inside a string literal.
pub open spec fn escaped_text(text: Seq<char>) -> Seq<char>
    decreases text.len(),
{
    if text.len() == 0 {
        Seq::empty()
    } else {
        escaped_text(text.drop_last()) + escaped_char(text.last())
    }
}

/// A Rust string literal whose value is `text`.
pub open spec fn string_literal_text(text: Seq<char>) -> Seq<char> {
    seq!['"'] + escaped_text(text) + seq!['"']
}

/// The texts that a sequence of strings holds.
pub open spec fn views(parts: Seq<String>) -> Seq<Seq<char>> {
    Seq::new(parts.len(), |i: int| parts[i]@)
}

/// The texts of a sequence with one more string are the texts of the
/// sequence with one more text.
pub proof fn lemma_views_push(parts: Seq<String>, last: String)
    ensures
        views(parts.push(last)) == views(parts).push(last@),
{
    assert(views(parts.push(last)) =~= views(parts).push(last@));
}

/// The parts in order, with `separator` between each two.
pub open spec fn joined_text(parts: Seq<Seq<char>>, separator: Seq<char>) -> Seq<char>
    decreases parts.len(),
{
    if parts.len() == 0 {
        Seq::empty()
    } else if parts.len() == 1 {
        parts[0]
    } else {
        joined_text(parts.drop_last(), separator) + separator + parts.last()
    }
}

/// What `str::to_uppercase` returns for a text.
pub uninterp spec fn uppercase_text(text: Seq<char>) -> Seq<char>;

/// Calls `String::push`, which appends one character to the string.
#[verifier::external_body]
pub(crate) fn push_char(text: &mut String, c: char)
    ensures
        final(text)@ == old(text)@.push(c),
{
    text.push(c)
}

/// Calls `str::to_uppercase`. The result depends on the text alone; which
/// characters Unicode maps to which is not stated.
#[verifier::external_body]
pub(crate) fn to_uppercase(text: &str) -> (upper: String)
    ensures
        upper@ == uppercase_text(text@),
{
    text.to_uppercase()
}

fn digit(d: u32) -> (c: char)
    requires
        d < 16,
    ensures
        c == digit_char(d as nat),
{
    if d == 0 {
        '0'
    } else if d == 1 {
        '1'
    } else if d == 2 {
        '2'
    } else if d == 3 {
        '3'
    } else if d == 4 {
        '4'
    } else if d == 5 {
        '5'
    } else if d == 6 {
        '6'
    } else if d == 7 {
        '7'
    } else if d == 8 {
        '8'
    } else if d == 9 {
        '9'
    } else if d == 10 {
        'a'
    } else if d == 11 {
        'b'
    } else if d == 12 {
        'c'
    } else if d == 13 {
        'd'
    } else if d == 14 {
        'e'
    } else {
        'f'
    }
}

/// Writes a number in decimal.
pub fn decimal(n: u32) -> (text: String)
    ensures
        text@ == decimal_text(n as nat),
    decreases n,
{
    if n < 10 {
        let mut text = String::new();
        push_char(&mut text, digit(n));
        text
    } else {
        let mut text = decimal(n / 10);
        push_char(&mut text, digit(n % 10));
        text
    }
}

/// Writes a number in lower-case hexadecimal.
pub fn hexadecimal(n: u32) -> (text: String)
    ensures
        text@ == hex_text(n as nat),
    decreases n,
{
    if n < 16 {
        let mut text = String::new();
        push_char(&mut text, digit(n));
        text
    } else {
        let mut text = hexadecimal(n / 16);
        push_char(&mut text, digit(n % 16));
        text
    }
}

/// Writes a Rust string literal whose value is `text`.
pub fn string_literal(text: &str) -> (literal: String)
    ensures
        literal@ == string_literal_text(text@),
{
    let mut literal = String::new();
    push_char(&mut literal, '"');
    let len = text.unicode_len();
    let mut index: usize = 0;
    while index < len
        invariant
            len == text@.len(),
            index <= len,
            literal@ == seq!['"'] + escaped_text(text@.take(index as int)),
        decreases len - index,
    {
        let c = text.get_char(index);
        proof {
            let upto = text@.take(index as int + 1);
            assert(upto.drop_last() == text@.take(index as int));
            assert(upto.last() == c);
        }
        let code = c as u32;
        if 32 <= code && code <= 126 && c != '"' && c != '\\' {
            push_char(&mut literal, c);
        } else if c == '"' || c == '\\' {
            push_char(&mut literal, '\\');
            push_char(&mut literal, c);
        } else {
            literal.append("\\u{");
            proof {
                reveal_strlit("\\u{");
                assert("\\u{"@ == seq!['\\', 'u', '{']);
            }
            let digits = hexadecimal(code);
            literal.append(digits.as_str());
            push_char(&mut literal, '}');
        }
        index += 1;
    }
    proof {
        assert(text@.take(len as int) == text@);
    }
    push_char(&mut literal, '"');
    literal
}

/// Joins the parts with `separator` between each two.
pub fn join(parts: &Vec<String>, separator: &str) -> (text: String)
    ensures
        text@ == joined_text(views(parts@), separator@),
{
    let ghost all = views(parts@);
    let mut text = String::new();
    let mut index: usize = 0;
    while index < parts.len()
        invariant
            index <= parts.len(),
            all == views(parts@),
            text@ == joined_text(all.take(index as int), separator@),
        decreases parts.len() - index,
    {
        proof {
            let upto = all.take(index as int + 1);
            assert(upto.drop_last() == all.take(index as int));
            assert(upto.last() == parts@[index as int]@);
            if index > 0 {
                assert(joined_text(upto, separator@) == joined_text(upto.drop_last(), separator@)
                    + separator@ + upto.last());
            } else {
                assert(upto.len() == 1);
                assert(joined_text(upto, separator@) == upto[0]);
            }
        }
        if index > 0 {
            text.append(separator);
        }
        text.append(parts[index].as_str());
        index += 1;
    }
    proof {
        assert(all.take(parts.len() as int) == all);
    }
    text
}

} // verus!
