//! Building the payload text: literal characters, switch markers and
//! decimal byte values appended to a `String`.

use vstd::prelude::*;
use crate::token::{bytes_of, StrChar};

verus! {

/// `String::push` of the standard library appends one character to the end of
/// the string and leaves the rest as it was.
pub assume_specification[ String::push ](s: &mut String, c: char)
    ensures
        final(s)@ == old(s)@.push(c),
;

/// The characters whose code points are the bytes of `bytes`.
pub open spec fn text_of(bytes: Seq<u8>) -> Seq<char> {
    Seq::new(bytes.len(), |i: int| bytes[i] as char)
}

/// A switch marker: `>` and a designator.
pub open spec fn marker(designator: char) -> Seq<char> {
    seq!['>', designator]
}

/// `text` with `insert` put in front of its last `back` characters.
pub open spec fn spliced(text: Seq<char>, back: int, insert: Seq<char>) -> Seq<char> {
    text.subrange(0, text.len() - back) + insert + text.subrange(text.len() - back, text.len() as int)
}

/// The character of the decimal digit `d`.
pub open spec fn digit_char(d: u8) -> char {
    (0x30 + d) as u8 as char
}

/// The decimal digits of `b`, without padding.
pub open spec fn decimal(b: u8) -> Seq<char> {
    if b < 10 {
        seq![digit_char(b)]
    } else if b < 100 {
        seq![digit_char(b / 10), digit_char(b % 10)]
    } else {
        seq![digit_char(b / 100), digit_char(b / 10 % 10), digit_char(b % 10)]
    }
}

/// The decimal digits of `b`, with a leading zero where there would be only one.
pub open spec fn padded_decimal(b: u8) -> Seq<char> {
    if b < 10 {
        seq!['0', digit_char(b)]
    } else {
        decimal(b)
    }
}

/// The decimal values of `bytes`, one after the other with nothing between
/// them, each padded to two digits if `padded`.
pub open spec fn decimals(bytes: Seq<u8>, padded: bool) -> Seq<char>
    decreases bytes.len(),
{
    if bytes.len() == 0 {
        Seq::empty()
    } else {
        decimals(bytes.drop_last(), padded) + if padded {
            padded_decimal(bytes.last())
        } else {
            decimal(bytes.last())
        }
    }
}

/// Appends the characters `text[from..to]`.
pub fn push_chars(s: &mut String, text: &Vec<char>, from: usize, to: usize)
    requires
        from <= to <= text.len(),
    ensures
        final(s)@ == old(s)@ + text@.subrange(from as int, to as int),
{
    let mut i: usize = from;
    while i < to
        invariant
            from <= i <= to <= text.len(),
            s@ == old(s)@ + text@.subrange(from as int, i as int),
        decreases to - i,
    {
        s.push(text[i]);
        i += 1;
        assert(s@ =~= old(s)@ + text@.subrange(from as int, i as int));
    }
    assert(s@ =~= old(s)@ + text@.subrange(from as int, to as int));
}

/// Appends the bytes `bytes[from..to]` as characters.
pub fn push_range(s: &mut String, bytes: &Vec<StrChar>, from: usize, to: usize)
    requires
        from <= to <= bytes.len(),
    ensures
        final(s)@ == old(s)@ + text_of(bytes_of(bytes@)).subrange(from as int, to as int),
{
    let mut i: usize = from;
    while i < to
        invariant
            from <= i <= to <= bytes.len(),
            s@ == old(s)@ + text_of(bytes_of(bytes@)).subrange(from as int, i as int),
        decreases to - i,
    {
        s.push(bytes[i].to_char());
        i += 1;
        assert(s@ =~= old(s)@ + text_of(bytes_of(bytes@)).subrange(from as int, i as int));
    }
    assert(s@ =~= old(s)@ + text_of(bytes_of(bytes@)).subrange(from as int, to as int));
}

/// Appends every byte of `bytes` as a character.
pub fn push_bytes(s: &mut String, bytes: &Vec<StrChar>)
    ensures
        final(s)@ == old(s)@ + text_of(bytes_of(bytes@)),
{
    push_range(s, bytes, 0, bytes.len());
    assert(text_of(bytes_of(bytes@)).subrange(0, bytes.len() as int) =~= text_of(bytes_of(bytes@)));
}

/// Appends the switch marker with the given designator.
pub fn push_marker(s: &mut String, designator: char)
    ensures
        final(s)@ == old(s)@ + marker(designator),
{
    s.push('>');
    s.push(designator);
    assert(s@ =~= old(s)@ + marker(designator));
}

/// Appends a marker with designator `lead` and the bytes as characters, with
/// a second marker put in front of the last `back` characters of that text.
pub fn push_spliced(s: &mut String, lead: char, bytes: &Vec<StrChar>, back: usize, designator: char)
    requires
        back <= 2,
    ensures
        final(s)@ == old(s)@ + spliced(
            marker(lead) + text_of(bytes_of(bytes@)),
            back as int,
            marker(designator),
        ),
{
    let mut text: Vec<char> = Vec::new();
    text.push('>');
    text.push(lead);
    let mut i: usize = 0;
    while i < bytes.len()
        invariant
            i <= bytes.len(),
            text@ == marker(lead) + text_of(bytes_of(bytes@)).subrange(0, i as int),
        decreases bytes.len() - i,
    {
        text.push(bytes[i].to_char());
        i += 1;
        assert(text@ =~= marker(lead) + text_of(bytes_of(bytes@)).subrange(0, i as int));
    }
    assert(text@ =~= marker(lead) + text_of(bytes_of(bytes@)));
    let split: usize = text.len() - back;
    push_chars(s, &text, 0, split);
    push_marker(s, designator);
    push_chars(s, &text, split, text.len());
    assert(s@ =~= old(s)@ + spliced(text@, back as int, marker(designator)));
}

/// The character of a decimal digit.
fn digit(d: u8) -> (c: char)
    requires
        d < 10,
    ensures
        c == digit_char(d),
{
    (0x30 + d) as char
}

/// Appends the decimal value of `b`; with `padded`, a value below ten gets a
/// leading zero.
pub fn push_decimal(s: &mut String, b: u8, padded: bool)
    ensures
        final(s)@ == old(s)@ + if padded {
            padded_decimal(b)
        } else {
            decimal(b)
        },
{
    if b >= 100 {
        s.push(digit(b / 100));
        s.push(digit(b / 10 % 10));
    } else if b >= 10 {
        s.push(digit(b / 10));
    } else if padded {
        s.push('0');
    }
    s.push(digit(b % 10));
    assert(s@ =~= old(s)@ + if padded {
        padded_decimal(b)
    } else {
        decimal(b)
    });
}

/// Appends the decimal values of all of `bytes`.
pub fn push_decimals(s: &mut String, bytes: &Vec<StrChar>, padded: bool)
    ensures
        final(s)@ == old(s)@ + decimals(bytes_of(bytes@), padded),
{
    let mut i: usize = 0;
    while i < bytes.len()
        invariant
            i <= bytes.len(),
            s@ == old(s)@ + decimals(bytes_of(bytes@).subrange(0, i as int), padded),
        decreases bytes.len() - i,
    {
        let ghost before: Seq<u8> = bytes_of(bytes@).subrange(0, i as int);
        push_decimal(s, bytes[i].0, padded);
        i += 1;
        proof {
            let now: Seq<u8> = bytes_of(bytes@).subrange(0, i as int);
            assert(now.drop_last() =~= before);
            assert(now.last() == bytes[i - 1].0);
            assert(s@ =~= old(s)@ + decimals(now, padded));
        }
    }
    assert(bytes_of(bytes@).subrange(0, bytes.len() as int) =~= bytes_of(bytes@));
}

} // verus!
