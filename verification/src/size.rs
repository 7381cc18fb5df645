//! Sizes in bytes, read from and written as short human-readable text.
//!
//! A size is written as a number and a unit: `512B`, `1.5GB`, `20GB`. Units
//! are powers of 1024, and `K`, `KB` and `KiB` all name the same one. Writing
//! keeps two decimal places and truncates; reading truncates to whole bytes.

use vstd::prelude::*;
use vstd::arithmetic::div_mod::{
    lemma_div_denominator, lemma_fundamental_div_mod, lemma_hoist_over_denominator,
};
use vstd::string::StringExecFns;
use crate::text::{
    all_digits, decimal, digit_char, digit_run_end, digit_text, is_digit, lemma_decimal,
    lemma_digit_run_end, lemma_number_of_concat, lemma_pow10_positive, number_of, pow10,
    push_decimal, read_number, scan_digits, to_chars,
};

verus! {

/// Bytes in a kilobyte.
pub const KILOBYTE: u64 = 1024;

/// Bytes in a megabyte.
pub const MEGABYTE: u64 = 1_048_576;

/// Bytes in a gigabyte.
pub const GIGABYTE: u64 = 1_073_741_824;

/// Bytes in a terabyte.
pub const TERABYTE: u64 = 1_099_511_627_776;

/// The units a size is written in.
#[derive(Clone, Copy, Debug, PartialEq, Eq)]
pub enum Unit {
    B,
    KB,
    MB,
    GB,
    TB,
}

impl Unit {
    /// The bytes in one of this unit.
    pub open spec fn factor(self) -> nat {
        match self {
            Unit::B => 1,
            Unit::KB => 1024,
            Unit::MB => 1_048_576,
            Unit::GB => 1_073_741_824,
            Unit::TB => 1_099_511_627_776,
        }
    }

    /// How the unit is written.
    pub open spec fn suffix(self) -> Seq<char> {
        match self {
            Unit::B => seq!['B'],
            Unit::KB => seq!['K', 'B'],
            Unit::MB => seq!['M', 'B'],
            Unit::GB => seq!['G', 'B'],
            Unit::TB => seq!['T', 'B'],
        }
    }

    /// The bytes in one of this unit.
    pub fn bytes(self) -> (f: u64)
        ensures
            f == self.factor(),
            1 <= f <= TERABYTE,
    {
        match self {
            Unit::B => 1,
            Unit::KB => KILOBYTE,
            Unit::MB => MEGABYTE,
            Unit::GB => GIGABYTE,
            Unit::TB => TERABYTE,
        }
    }

    /// The unit in writing.
    pub fn suffix_text(self) -> (s: &'static str)
        ensures
            s@ == self.suffix(),
    {
        proof {
            reveal_strlit("B");
            reveal_strlit("KB");
            reveal_strlit("MB");
            reveal_strlit("GB");
            reveal_strlit("TB");
        }
        let s = match self {
            Unit::B => "B",
            Unit::KB => "KB",
            Unit::MB => "MB",
            Unit::GB => "GB",
            Unit::TB => "TB",
        };
        assert(s@ =~= self.suffix());
        s
    }
}

/// The unit that a one-letter prefix names, in either case.
pub open spec fn unit_of_prefix(c: char) -> Option<Unit> {
    if c == 'k' || c == 'K' {
        Some(Unit::KB)
    } else if c == 'm' || c == 'M' {
        Some(Unit::MB)
    } else if c == 'g' || c == 'G' {
        Some(Unit::GB)
    } else if c == 't' || c == 'T' {
        Some(Unit::TB)
    } else {
        None
    }
}

/// The unit that `s` names. `B` names bytes; a prefix letter alone, followed
/// by `B`, or followed by `iB`, names the unit of that prefix. Case is
/// ignored.
pub open spec fn unit_of(s: Seq<char>) -> Option<Unit> {
    if s.len() == 1 && (s[0] == 'b' || s[0] == 'B') {
        Some(Unit::B)
    } else if s.len() == 1 || (s.len() == 2 && (s[1] == 'b' || s[1] == 'B')) || (s.len() == 3 && (
    s[1] == 'i' || s[1] == 'I') && (s[2] == 'b' || s[2] == 'B')) {
        unit_of_prefix(s[0])
    } else {
        None
    }
}

/// A size in bytes.
#[derive(Clone, Copy, Debug, PartialEq, Eq, PartialOrd, Ord, Hash)]
pub struct SizeValue {
    pub bytes: u64,
}

/// Why a text is no size.
#[derive(Clone, Copy, Debug, PartialEq, Eq)]
pub enum SizeParseError {
    /// The text does not start with a digit.
    MissingNumber,
    /// A decimal point is not followed by a digit.
    MissingFraction,
    /// What follows the number names no unit.
    UnknownUnit,
    /// The size does not fit in 64 bits.
    TooLarge,
}

/// The size that a text writes.
///
/// The text is a run of digits, optionally a point and a second run of
/// digits, and a unit, with nothing before, between or after. Its value is
/// the number times the unit, truncated to whole bytes.
pub open spec fn parsed(s: Seq<char>) -> Result<SizeValue, SizeParseError> {
    let int_end = digit_run_end(s, 0);
    let pointed = int_end < s.len() && s[int_end] == '.';
    let frac_start = if pointed {
        int_end + 1
    } else {
        int_end
    };
    let frac_end = digit_run_end(s, frac_start);
    let places = (frac_end - frac_start) as nat;
    if int_end == 0 {
        Err(SizeParseError::MissingNumber)
    } else if pointed && places == 0 {
        Err(SizeParseError::MissingFraction)
    } else {
        match unit_of(s.subrange(frac_end, s.len() as int)) {
            None => Err(SizeParseError::UnknownUnit),
            Some(unit) => {
                let digits = s.subrange(0, int_end) + s.subrange(frac_start, frac_end);
                let value = (number_of(digits) * unit.factor()) / pow10(places);
                if value > u64::MAX {
                    Err(SizeParseError::TooLarge)
                } else {
                    Ok(SizeValue { bytes: value as u64 })
                }
            },
        }
    }
}

/// The unit a size is written in: the greatest that the size reaches.
pub open spec fn magnitude(bytes: u64) -> Unit {
    if bytes >= TERABYTE {
        Unit::TB
    } else if bytes >= GIGABYTE {
        Unit::GB
    } else if bytes >= MEGABYTE {
        Unit::MB
    } else if bytes >= KILOBYTE {
        Unit::KB
    } else {
        Unit::B
    }
}

/// The hundredths of `unit` in `bytes` beyond the whole units, truncated.
pub open spec fn hundredths(bytes: u64, unit: Unit) -> nat {
    ((bytes as nat % unit.factor()) * 100) / unit.factor()
}

/// How up to 99 hundredths are written: not at all when there are none, as
/// one decimal place when they are whole tenths, as two otherwise.
pub open spec fn fraction_text(h: nat) -> Seq<char> {
    if h == 0 {
        Seq::empty()
    } else if h % 10 == 0 {
        seq!['.', digit_char(h / 10)]
    } else {
        seq!['.', digit_char(h / 10), digit_char(h % 10)]
    }
}

/// How a size is written: the whole units, the hundredths, the unit.
pub open spec fn rendered(bytes: u64) -> Seq<char> {
    let unit = magnitude(bytes);
    decimal(bytes as nat / unit.factor()) + fraction_text(hundredths(bytes, unit)) + unit.suffix()
}

/// A number with a fraction, times a factor, splits into the whole part times
/// the factor and the scaled fraction.
proof fn lemma_scale_split(whole: nat, frac: nat, places: nat, factor: nat)
    ensures
        ((whole * pow10(places) + frac) * factor) / pow10(places) == whole * factor + (frac
            * factor) / pow10(places),
{
    let p = pow10(places);
    lemma_pow10_positive(places);
    assert((whole * p + frac) * factor == frac * factor + (whole * factor) * p)
        by (nonlinear_arith);
    lemma_hoist_over_denominator((frac * factor) as int, (whole * factor) as int, p);
}

/// Scaling a fraction one digit at a time: the fraction `0.d rest` times a
/// factor is a tenth of `d` times the factor plus the scaled `0.rest`, and
/// truncating at each step loses nothing.
proof fn lemma_scale_step(d: nat, rest: nat, places: nat, factor: nat)
    ensures
        ((d * pow10(places) + rest) * factor) / pow10(places + 1) == (d * factor + (rest * factor)
            / pow10(places)) / 10,
{
    let p = pow10(places);
    lemma_pow10_positive(places);
    let x = rest * factor;
    let n = (d * p + rest) * factor;
    assert(n == x + (d * factor) * p) by (nonlinear_arith)
        requires
            n == (d * p + rest) * factor,
            x == rest * factor,
    ;
    lemma_hoist_over_denominator(x as int, (d * factor) as int, p);
    assert(n as int / p as int == d * factor + x as int / p as int);
    lemma_div_denominator(n as int, p as int, 10);
    assert(pow10(places + 1) == 10 * p);
    assert(p * 10 == 10 * p);
}

/// Scales the fraction written by the digits from `start` up to `end` by
/// `factor`, truncating.
fn scale_fraction(chars: &Vec<char>, start: usize, end: usize, factor: u64) -> (part: u64)
    requires
        start <= end <= chars.len(),
        all_digits(chars@.subrange(start as int, end as int)),
        1 <= factor <= TERABYTE,
    ensures
        part == (number_of(chars@.subrange(start as int, end as int)) * (factor as nat)) / pow10(
            (end - start) as nat,
        ),
        part < factor,
{
    let ghost digits = chars@.subrange(start as int, end as int);
    let ghost k = (end - start) as int;
    let mut acc: u64 = 0;
    let mut i: usize = end;
    proof {
        assert(digits.subrange(k, k) =~= Seq::<char>::empty());
        assert(number_of(Seq::<char>::empty()) == 0);
        assert(pow10(0) == 1);
    }
    while i > start
        invariant
            start <= i <= end <= chars.len(),
            digits == chars@.subrange(start as int, end as int),
            k == end - start,
            all_digits(digits),
            1 <= factor <= TERABYTE,
            acc == (number_of(digits.subrange(i - start, k)) * (factor as nat)) / pow10(
                (end - i) as nat,
            ),
            acc < factor,
        decreases i - start,
    {
        i = i - 1;
        let c: char = chars[i];
        assert(c == digits[i - start]);
        assert(is_digit(c));
        let d: u64 = (c as u32 - 48) as u64;
        proof {
            let rest = digits.subrange(i + 1 - start, k);
            let here = digits.subrange(i - start, k);
            assert(here =~= seq![c] + rest);
            
            let one = seq![c];
            assert(one.drop_last() =~= Seq::<char>::empty());
            assert(number_of(one.drop_last()) == 0);
            assert(one.last() == c);
            assert(number_of(one) == d);
            lemma_number_of_concat(one, rest);
            lemma_scale_step(d as nat, number_of(rest), rest.len(), factor as nat);
            assert(d * factor <= 9 * factor) by (nonlinear_arith)
                requires
                    d <= 9,
            ;
        }
        acc = (d * factor + acc) / 10;
    }
    proof {
        assert(digits.subrange(0, k) =~= digits);
    }
    acc
}

/// Tells which unit a prefix letter names.
fn prefix_unit(c: char) -> (unit: Option<Unit>)
    ensures
        unit == unit_of_prefix(c),
{
    if c == 'k' || c == 'K' {
        Some(Unit::KB)
    } else if c == 'm' || c == 'M' {
        Some(Unit::MB)
    } else if c == 'g' || c == 'G' {
        Some(Unit::GB)
    } else if c == 't' || c == 'T' {
        Some(Unit::TB)
    } else {
        None
    }
}

/// Reads the unit that the characters from `start` to the end name.
fn read_unit(chars: &Vec<char>, start: usize) -> (unit: Option<Unit>)
    requires
        start <= chars.len(),
    ensures
        unit == unit_of(chars@.subrange(start as int, chars@.len() as int)),
{
    let ghost s = chars@.subrange(start as int, chars@.len() as int);
    let n: usize = chars.len() - start;
    if n == 0 || n > 3 {
        return None;
    }
    let head: char = chars[start];
    assert(head == s[0]);
    if n == 1 && (head == 'b' || head == 'B') {
        return Some(Unit::B);
    }
    if n >= 2 {
        assert(chars@[start + 1] == s[1]);
    }
    if n == 3 {
        assert(chars@[start + 2] == s[2]);
    }
    let tail_fits: bool = n == 1 || (n == 2 && (chars[start + 1] == 'b' || chars[start + 1] == 'B'))
        || (n == 3 && (chars[start + 1] == 'i' || chars[start + 1] == 'I') && (chars[start + 2]
        == 'b' || chars[start + 2] == 'B'));
    if tail_fits {
        prefix_unit(head)
    } else {
        None
    }
}

/// Finds the unit a size is written in.
pub fn magnitude_of(bytes: u64) -> (unit: Unit)
    ensures
        unit == magnitude(bytes),
        unit != Unit::B ==> unit.factor() <= bytes,
{
    if bytes >= TERABYTE {
        Unit::TB
    } else if bytes >= GIGABYTE {
        Unit::GB
    } else if bytes >= MEGABYTE {
        Unit::MB
    } else if bytes >= KILOBYTE {
        Unit::KB
    } else {
        Unit::B
    }
}

impl SizeValue {
    /// The size of `bytes` bytes.
    pub fn from_bytes(bytes: u64) -> (size: SizeValue)
        ensures
            size.bytes == bytes,
    {
        SizeValue { bytes }
    }

    /// The size of `n` of `unit`.
    pub fn from_parts(n: u64, unit: Unit) -> (size: SizeValue)
        requires
            n * unit.factor() <= u64::MAX,
        ensures
            size.bytes == n * unit.factor(),
    {
        SizeValue { bytes: n * unit.bytes() }
    }

    /// The size in bytes.
    pub fn bytes(&self) -> (bytes: u64)
        ensures
            bytes == self.bytes,
    {
        self.bytes
    }

    /// Tells whether this size is greater than `limit`.
    pub fn exceeds(&self, limit: &SizeValue) -> (over: bool)
        ensures
            over == (self.bytes > limit.bytes),
    {
        self.bytes > limit.bytes
    }

    /// Reads a size from text.
    pub fn parse(text: &str) -> (size: Result<SizeValue, SizeParseError>)
        ensures
            size == parsed(text@),
    {
        let chars = to_chars(text);
        let ghost s = chars@;
        let int_end: usize = scan_digits(&chars, 0);
        if int_end == 0 {
            return Err(SizeParseError::MissingNumber);
        }
        let pointed: bool = int_end < chars.len() && chars[int_end] == '.';
        let frac_start: usize = if pointed {
            int_end + 1
        } else {
            int_end
        };
        let frac_end: usize = scan_digits(&chars, frac_start);
        if pointed && frac_end == frac_start {
            return Err(SizeParseError::MissingFraction);
        }
        let unit: Unit = match read_unit(&chars, frac_end) {
            Some(u) => u,
            None => {
                return Err(SizeParseError::UnknownUnit);
            },
        };
        let factor: u64 = unit.bytes();
        let ghost whole_digits = s.subrange(0, int_end as int);
        let ghost frac_digits = s.subrange(frac_start as int, frac_end as int);
        let ghost places = (frac_end - frac_start) as nat;
        let ghost value = (number_of(whole_digits + frac_digits) * (factor as nat)) / pow10(places);
        proof {
            lemma_number_of_concat(whole_digits, frac_digits);
            lemma_scale_split(
                number_of(whole_digits),
                number_of(frac_digits),
                places,
                factor as nat,
            );
            assert(value == number_of(whole_digits) * (factor as nat) + (number_of(frac_digits) * (
            factor as nat)) / pow10(places));
            assert(number_of(whole_digits) * factor >= number_of(whole_digits))
                by (nonlinear_arith)
                requires
                    factor >= 1,
            ;
        }
        let whole: u64 = match read_number(&chars, 0, int_end, u64::MAX) {
            Some(w) => w,
            None => {
                return Err(SizeParseError::TooLarge);
            },
        };
        let part: u64 = scale_fraction(&chars, frac_start, frac_end, factor);
        assert(whole * factor <= u64::MAX * TERABYTE) by (nonlinear_arith)
            requires
                whole <= u64::MAX,
                factor <= TERABYTE,
        ;
        let total: u128 = whole as u128 * factor as u128 + part as u128;
        if total > u64::MAX as u128 {
            return Err(SizeParseError::TooLarge);
        }
        Ok(SizeValue { bytes: total as u64 })
    }

    /// Writes the size as text.
    pub fn render(&self) -> (text: String)
        ensures
            text@ == rendered(self.bytes),
    {
        let unit: Unit = magnitude_of(self.bytes);
        let factor: u64 = unit.bytes();
        let whole: u64 = self.bytes / factor;
        let rest: u64 = self.bytes % factor;
        assert(rest * 100 < factor * 100) by (nonlinear_arith)
            requires
                rest < factor,
        ;
        let h: u64 = ((rest as u128 * 100) / factor as u128) as u64;
        assert(h < 100) by (nonlinear_arith)
            requires
                h == (rest * 100) / (factor as int),
                rest * 100 < factor * 100,
                factor > 0,
        ;
        let mut text = String::new();
        push_decimal(&mut text, whole);
        if h != 0 {
            proof {
                reveal_strlit(".");
            }
            text.append(".");
            text.append(digit_text((h / 10) as u8));
            if h % 10 != 0 {
                text.append(digit_text((h % 10) as u8));
            }
        }
        text.append(unit.suffix_text());
        proof {
            let w = decimal(whole as nat);
            let f = fraction_text(h as nat);
            assert(Seq::<char>::empty() + w =~= w);
            if h == 0 {
                assert(w + f =~= w);
            } else if h % 10 == 0 {
                assert(w + "."@ + seq![digit_char((h / 10) as nat)] =~= w + f);
            } else {
                assert(w + "."@ + seq![digit_char((h / 10) as nat)] + seq![
                    digit_char((h % 10) as nat),
                ] =~= w + f);
            }
        }
        text
    }
}

/// A number, an optional fraction and a unit set down as a size.
pub open spec fn written(whole: Seq<char>, fraction: Seq<char>, unit: Unit) -> Seq<char> {
    if fraction.len() == 0 {
        whole + unit.suffix()
    } else {
        whole + seq!['.'] + fraction + unit.suffix()
    }
}

/// Reading takes a written size apart where it was put together: the digits
/// before and after the point are read as one number, scaled by the unit and
/// cut to whole bytes.
pub proof fn lemma_parse_written(whole: Seq<char>, fraction: Seq<char>, unit: Unit)
    requires
        whole.len() > 0,
        all_digits(whole),
        all_digits(fraction),
    ensures
        ({
            let value = (number_of(whole + fraction) * unit.factor()) / pow10(fraction.len());
            parsed(written(whole, fraction, unit)) == if value > u64::MAX {
                Err::<SizeValue, SizeParseError>(SizeParseError::TooLarge)
            } else {
                Ok(SizeValue { bytes: value as u64 })
            }
        }),
{
    let s = written(whole, fraction, unit);
    let sx = unit.suffix();
    let n = whole.len() as int;
    let k = fraction.len() as int;
    assert(sx.len() >= 1 && !is_digit(sx[0]) && sx[0] != '.');
    assert(unit_of(sx) == Some(unit));
    assert(forall|i: int| 0 <= i < n ==> s[i] == whole[i]);
    if k == 0 {
        assert(s[n] == sx[0]);
        lemma_digit_run_end(s, 0, n);
        assert(digit_run_end(s, n) == n);
        assert(s.subrange(n, s.len() as int) =~= sx);
        assert(s.subrange(0, n) =~= whole);
        assert(s.subrange(n, n) =~= fraction);
    } else {
        assert(s[n] == '.');
        lemma_digit_run_end(s, 0, n);
        assert(forall|i: int| 0 <= i < k ==> s[n + 1 + i] == fraction[i]);
        assert forall|i: int| n + 1 <= i < n + 1 + k implies is_digit(s[i]) by {
            assert(s[i] == fraction[i - n - 1]);
        }
        assert(s[n + 1 + k] == sx[0]);
        lemma_digit_run_end(s, n + 1, n + 1 + k);
        assert(s.subrange(n + 1 + k, s.len() as int) =~= sx);
        assert(s.subrange(0, n) =~= whole);
        assert(s.subrange(n + 1, n + 1 + k) =~= fraction);
    }
}

/// The digit that a digit's character stands for is that digit.
proof fn lemma_one_digit(d: nat)
    requires
        d < 10,
    ensures
        is_digit(digit_char(d)),
        all_digits(seq![digit_char(d)]),
        number_of(seq![digit_char(d)]) == d,
{
    let one = seq![digit_char(d)];
    assert(one.drop_last() =~= Seq::<char>::empty());
    assert(number_of(one.drop_last()) == 0);
    assert(one.last() == digit_char(d));
}

/// Two digits write ten times the first plus the second.
proof fn lemma_two_digits(a: nat, b: nat)
    requires
        a < 10,
        b < 10,
    ensures
        all_digits(seq![digit_char(a), digit_char(b)]),
        number_of(seq![digit_char(a), digit_char(b)]) == 10 * a + b,
{
    let two = seq![digit_char(a), digit_char(b)];
    lemma_one_digit(a);
    lemma_one_digit(b);
    assert(two.drop_last() =~= seq![digit_char(a)]);
    assert(two.last() == digit_char(b));
}

/// What is read back from a written size: the whole units and the hundredths
/// that were written, each scaled by the unit.
pub open spec fn read_back(bytes: u64) -> nat {
    let unit = magnitude(bytes);
    (bytes as nat / unit.factor()) * unit.factor() + (hundredths(bytes, unit) * unit.factor())
        / 100
}

/// A size that was written is read back in the same unit, no greater than it
/// was, and smaller by less than a hundredth of the unit and one byte. A
/// whole number of units is read back as it was.
pub proof fn law_written_size_reads_back(bytes: u64)
    ensures
        parsed(rendered(bytes)) == Ok::<SizeValue, SizeParseError>(
            SizeValue { bytes: read_back(bytes) as u64 },
        ),
        read_back(bytes) <= bytes,
        (bytes - read_back(bytes)) * 100 < magnitude(bytes).factor() + 100,
        magnitude(read_back(bytes) as u64) == magnitude(bytes),
        bytes as nat % magnitude(bytes).factor() == 0 ==> read_back(bytes) == bytes,
{
    let unit = magnitude(bytes);
    let f = unit.factor();
    let b = bytes as nat;
    let w = b / f;
    let rest = b % f;
    let h = hundredths(bytes, unit);
    let back = read_back(bytes);
    lemma_fundamental_div_mod(b as int, f as int);
    assert(b == f * w + rest);
    assert(f * w == w * f) by (nonlinear_arith);
    assert(0 <= rest < f);
    assert(h == (rest * 100) / f);
    lemma_fundamental_div_mod((rest * 100) as int, f as int);
    assert(f * h <= rest * 100 < f * h + f) by (nonlinear_arith)
        requires
            rest * 100 == f * h + (rest * 100) % f,
            0 <= (rest * 100) % f < f,
    ;
    assert(h < 100) by (nonlinear_arith)
        requires
            f * h <= rest * 100,
            rest < f,
            f > 0,
    ;
    assert(f * h == h * f) by (nonlinear_arith);
    let part = (h * f) / 100;
    lemma_fundamental_div_mod((h * f) as int, 100);
    assert(part * 100 <= h * f < part * 100 + 100);
    assert(part <= rest);
    assert(back == w * f + part);
    assert(back <= b);
    assert((b - back) * 100 < f + 100);
    if rest == 0 {
        assert(h == 0);
        assert(part == 0);
    }
    if unit != Unit::B {
        assert(w >= 1) by (nonlinear_arith)
            requires
                b == f * w + rest,
                rest < f,
                b >= f,
        ;
        assert(w * f >= f) by (nonlinear_arith)
            requires
                w >= 1,
        ;
    } else {
        assert(rest == 0);
        assert(h == 0);
        assert(w * 1 == w);
    }
    lemma_decimal(w);
    let whole = decimal(w);
    if h == 0 {
        let fraction = Seq::<char>::empty();
        assert(fraction_text(h) =~= fraction);
        assert(rendered(bytes) =~= written(whole, fraction, unit));
        lemma_parse_written(whole, fraction, unit);
        assert(whole + fraction =~= whole);
        assert(pow10(0) == 1);
        assert(part == 0);
    } else if h % 10 == 0 {
        let d = h / 10;
        let fraction = seq![digit_char(d)];
        lemma_one_digit(d);
        assert(rendered(bytes) =~= written(whole, fraction, unit));
        lemma_parse_written(whole, fraction, unit);
        lemma_number_of_concat(whole, fraction);
        assert(pow10(1) == 10) by {
            reveal_with_fuel(pow10, 2);
        }
        lemma_scale_split(w, d, 1, f);
        assert(h * f == (d * f) * 10) by (nonlinear_arith)
            requires
                h == d * 10,
        ;
        lemma_div_denominator((h * f) as int, 10, 10);
        assert(((d * f) * 10) / 10 == d * f) by (nonlinear_arith);
        assert(part == (d * f) / 10);
    } else {
        let a = h / 10;
        let c = h % 10;
        let fraction = seq![digit_char(a), digit_char(c)];
        lemma_two_digits(a, c);
        assert(rendered(bytes) =~= written(whole, fraction, unit));
        lemma_parse_written(whole, fraction, unit);
        lemma_number_of_concat(whole, fraction);
        assert(pow10(2) == 100) by {
            reveal_with_fuel(pow10, 3);
        }
        lemma_scale_split(w, h, 2, f);
    }
}

} // verus!
