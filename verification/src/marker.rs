//! The durable marker as text.
//!
//! The marker outlives the process as the content of a small file: the rung
//! in decimal. Reading is lenient about white space around the number and a
//! plus sign before it; anything else reads as no marker, which is always safe.

use vstd::prelude::*;
use crate::text::{
    all_digits, decimal, is_digit, lemma_decimal, number_of, push_decimal, read_number,
    scan_digits, to_chars,
};

verus! {

/// `c` is white space as Unicode defines it.
pub open spec fn is_space(c: char) -> bool {
    let code = c as u32;
    ||| 0x09 <= code <= 0x0D
    ||| code == 0x20
    ||| code == 0x85
    ||| code == 0xA0
    ||| code == 0x1680
    ||| 0x2000 <= code <= 0x200A
    ||| code == 0x2028
    ||| code == 0x2029
    ||| code == 0x202F
    ||| code == 0x205F
    ||| code == 0x3000
}

/// The first position from `start` on that holds no white space, or the
/// length of `s`.
pub open spec fn space_run_end(s: Seq<char>, start: int) -> int
    decreases s.len() - start,
{
    if 0 <= start < s.len() && is_space(s[start]) {
        space_run_end(s, start + 1)
    } else {
        start
    }
}

/// The position after the last character before `end` that is no white
/// space, looking no further back than `floor`.
pub open spec fn space_run_start(s: Seq<char>, floor: int, end: int) -> int
    decreases end - floor,
{
    if floor < end <= s.len() && is_space(s[end - 1]) {
        space_run_start(s, floor, end - 1)
    } else {
        end
    }
}

/// `s` without the white space at its two ends.
pub open spec fn trimmed(s: Seq<char>) -> Seq<char> {
    let from = space_run_end(s, 0);
    let to = space_run_start(s, from, s.len() as int);
    s.subrange(from, to)
}

/// The marker that a text holds: a number up to 255 in decimal digits, with an
/// optional plus sign before it and white space around it.
pub open spec fn marker_of(text: Seq<char>) -> Option<u8> {
    let body = trimmed(text);
    let digits = if body.len() > 0 && body[0] == '+' {
        body.drop_first()
    } else {
        body
    };
    if digits.len() > 0 && all_digits(digits) && number_of(digits) <= 255 {
        Some(number_of(digits) as u8)
    } else {
        None
    }
}

/// The text that holds the marker `rung`.
pub open spec fn marker_text(rung: u8) -> Seq<char> {
    decimal(rung as nat)
}

/// Tells whether `c` is white space.
pub(crate) fn char_is_space(c: char) -> (r: bool)
    ensures
        r == is_space(c),
{
    let code: u32 = c as u32;
    (0x09 <= code && code <= 0x0D) || code == 0x20 || code == 0x85 || code == 0xA0 || code
        == 0x1680 || (0x2000 <= code && code <= 0x200A) || code == 0x2028 || code == 0x2029
        || code == 0x202F || code == 0x205F || code == 0x3000
}

/// Reads the marker from the content of its file.
pub fn parse_marker(text: &str) -> (marker: Option<u8>)
    ensures
        marker == marker_of(text@),
{
    let chars = to_chars(text);
    let mut from: usize = 0;
    while from < chars.len() && char_is_space(chars[from])
        invariant
            from <= chars.len(),
            space_run_end(chars@, 0) == space_run_end(chars@, from as int),
        decreases chars.len() - from,
    {
        from = from + 1;
    }
    let mut to: usize = chars.len();
    while to > from && char_is_space(chars[to - 1])
        invariant
            from <= to <= chars.len(),
            space_run_start(chars@, from as int, chars@.len() as int) == space_run_start(
                chars@,
                from as int,
                to as int,
            ),
        decreases to - from,
    {
        to = to - 1;
    }
    let ghost body = chars@.subrange(from as int, to as int);
    assert(body == trimmed(text@));
    let first: usize = if from < to && chars[from] == '+' {
        from + 1
    } else {
        from
    };
    let ghost digits = chars@.subrange(first as int, to as int);
    proof {
        if first > from {
            assert(body[0] == '+');
            assert(body.drop_first() =~= digits);
        } else {
            assert(body.len() > 0 ==> body[0] == chars@[from as int]);
            assert(body =~= digits);
        }
    }
    let end: usize = scan_digits(&chars, first);
    if first == to || end < to {
        proof {
            if first < to {
                assert(digits[end - first] == chars@[end as int]);
                assert(!is_digit(digits[end - first]));
            }
        }
        return None;
    }
    proof {
        assert forall|i: int| 0 <= i < digits.len() implies is_digit(#[trigger] digits[i]) by {
            assert(digits[i] == chars@.subrange(first as int, end as int)[i]);
        }
    }
    match read_number(&chars, first, to, 255) {
        Some(v) => Some(v as u8),
        None => None,
    }
}

/// Writes the content of the marker's file.
pub fn render_marker(rung: u8) -> (text: String)
    ensures
        text@ == marker_text(rung),
{
    let mut text = String::new();
    push_decimal(&mut text, rung as u64);
    assert(Seq::<char>::empty() + decimal(rung as nat) =~= decimal(rung as nat));
    text
}

/// A marker that was written is read back as itself.
pub proof fn law_marker_survives_storage(rung: u8)
    ensures
        marker_of(marker_text(rung)) == Some(rung),
{
    let s = marker_text(rung);
    lemma_decimal(rung as nat);
    assert(is_digit(s[0]));
    assert(is_digit(s[s.len() - 1]));
    assert(space_run_end(s, 0) == 0);
    assert(space_run_start(s, 0, s.len() as int) == s.len());
    assert(trimmed(s) =~= s);
}

} // verus!
