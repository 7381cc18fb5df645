//! Decimal numbers in text: what a run of digits means and how a number is
//! written.

use vstd::prelude::*;
use vstd::string::StringExecFns;

verus! {

/// `c` is one of the ten ASCII digits.
pub open spec fn is_digit(c: char) -> bool {
    '0' <= c <= '9'
}

/// The digit that `c` stands for.
pub open spec fn digit_value(c: char) -> nat {
    (c as u32 - 48) as nat
}

/// The character of the digit `d`.
pub open spec fn digit_char(d: nat) -> char {
    (48 + d) as char
}

/// Every character of `s` is a digit.
pub open spec fn all_digits(s: Seq<char>) -> bool {
    forall|i: int| 0 <= i < s.len() ==> is_digit(#[trigger] s[i])
}

/// The number that a run of digits writes; leading zeros count for nothing
/// and the empty run writes zero.
pub open spec fn number_of(digits: Seq<char>) -> nat
    decreases digits.len(),
{
    if digits.len() == 0 {
        0
    } else {
        number_of(digits.drop_last()) * 10 + digit_value(digits.last())
    }
}

/// The decimal writing of `n`, without leading zeros.
pub open spec fn decimal(n: nat) -> Seq<char>
    decreases n,
{
    if n < 10 {
        seq![digit_char(n)]
    } else {
        decimal(n / 10).push(digit_char(n % 10))
    }
}

/// Ten to the power `k`.
pub open spec fn pow10(k: nat) -> nat
    decreases k,
{
    if k == 0 {
        1
    } else {
        10 * pow10((k - 1) as nat)
    }
}

/// A power of ten is positive.
pub proof fn lemma_pow10_positive(k: nat)
    ensures
        pow10(k) > 0,
    decreases k,
{
    if k > 0 {
        lemma_pow10_positive((k - 1) as nat);
    }
}

/// Where the run of digits that starts at `start` ends: the first position
/// from `start` on that holds no digit, or the length of `s`.
pub open spec fn digit_run_end(s: Seq<char>, start: int) -> int
    decreases s.len() - start,
{
    if 0 <= start < s.len() && is_digit(s[start]) {
        digit_run_end(s, start + 1)
    } else {
        start
    }
}

/// `digit_run_end` is the one position that ends the run.
pub proof fn lemma_digit_run_end(s: Seq<char>, start: int, end: int)
    requires
        0 <= start <= end <= s.len(),
        forall|i: int| start <= i < end ==> is_digit(s[i]),
        end < s.len() ==> !is_digit(s[end]),
    ensures
        digit_run_end(s, start) == end,
    decreases end - start,
{
    if start < end {
        lemma_digit_run_end(s, start + 1, end);
    }
}

/// The writing of a number consists of digits, has no leading zero unless the
/// number is zero, and writes that number.
pub proof fn lemma_decimal(n: nat)
    ensures
        decimal(n).len() >= 1,
        all_digits(decimal(n)),
        number_of(decimal(n)) == n,
        n > 0 ==> decimal(n)[0] != '0',
    decreases n,
{
    if n < 10 {
        let s = decimal(n);
        assert(s.drop_last() =~= Seq::<char>::empty());
        assert(number_of(s.drop_last()) == 0);
    } else {
        lemma_decimal(n / 10);
        let s = decimal(n);
        assert(s.drop_last() =~= decimal(n / 10));
        assert(s[0] == decimal(n / 10)[0]);
    }
}

/// The number written by two runs of digits set one after the other.
pub proof fn lemma_number_of_concat(a: Seq<char>, b: Seq<char>)
    ensures
        number_of(a + b) == number_of(a) * pow10(b.len()) + number_of(b),
    decreases b.len(),
{
    if b.len() == 0 {
        assert(a + b =~= a);
        assert(number_of(a) * 1 == number_of(a));
    } else {
        let front = b.drop_last();
        let k = front.len();
        assert((a + b).drop_last() =~= a + front);
        assert((a + b).last() == b.last());
        lemma_number_of_concat(a, front);
        assert(pow10(b.len()) == 10 * pow10(k));
        let x = number_of(a);
        let p = pow10(k);
        let y = number_of(front);
        assert((x * p + y) * 10 == x * (10 * p) + y * 10) by (nonlinear_arith);
    }
}

/// The text as a vector of its characters.
pub(crate) fn to_chars(text: &str) -> (chars: Vec<char>)
    ensures
        chars@ == text@,
{
    let mut chars: Vec<char> = Vec::new();
    for c in it: text.chars()
        invariant
            chars@ == it.seq().take(it.index() as int),
    {
        chars.push(c);
    }
    chars
}

/// Tells whether `c` is a digit.
pub(crate) fn char_is_digit(c: char) -> (r: bool)
    ensures
        r == is_digit(c),
{
    c >= '0' && c <= '9'
}

/// The text of one digit.
pub(crate) fn digit_text(d: u8) -> (s: &'static str)
    requires
        d < 10,
    ensures
        s@ == seq![digit_char(d as nat)],
{
    proof {
        reveal_strlit("0");
        reveal_strlit("1");
        reveal_strlit("2");
        reveal_strlit("3");
        reveal_strlit("4");
        reveal_strlit("5");
        reveal_strlit("6");
        reveal_strlit("7");
        reveal_strlit("8");
        reveal_strlit("9");
    }
    let s = match d {
        0 => "0",
        1 => "1",
        2 => "2",
        3 => "3",
        4 => "4",
        5 => "5",
        6 => "6",
        7 => "7",
        8 => "8",
        _ => "9",
    };
    assert(s@ =~= seq![digit_char(d as nat)]);
    s
}

/// Appends the decimal writing of `n` to `out`.
pub(crate) fn push_decimal(out: &mut String, n: u64)
    ensures
        final(out)@ == old(out)@ + decimal(n as nat),
    decreases n,
{
    if n >= 10 {
        push_decimal(out, n / 10);
    }
    let ghost before = out@;
    out.append(digit_text((n % 10) as u8));
    proof {
        let d = digit_char((n % 10) as nat);
        if n >= 10 {
            assert(before + seq![d] =~= old(out)@ + decimal((n / 10) as nat).push(d));
        }
    }
}

/// Finds where the run of digits that starts at `start` ends.
pub(crate) fn scan_digits(chars: &Vec<char>, start: usize) -> (end: usize)
    requires
        start <= chars.len(),
    ensures
        end == digit_run_end(chars@, start as int),
        start <= end <= chars.len(),
        all_digits(chars@.subrange(start as int, end as int)),
        end < chars.len() ==> !is_digit(chars@[end as int]),
{
    let mut end: usize = start;
    while end < chars.len() && char_is_digit(chars[end])
        invariant
            start <= end <= chars.len(),
            forall|i: int| start <= i < end ==> is_digit(chars@[i]),
        decreases chars.len() - end,
    {
        end = end + 1;
    }
    proof {
        lemma_digit_run_end(chars@, start as int, end as int);
    }
    end
}

/// Reads the number that the digits from `start` up to `end` write, or `None`
/// where it is greater than `limit`.
pub(crate) fn read_number(chars: &Vec<char>, start: usize, end: usize, limit: u64) -> (value: Option<u64>)
    requires
        start <= end <= chars.len(),
        all_digits(chars@.subrange(start as int, end as int)),
    ensures
        match value {
            Some(v) => v == number_of(chars@.subrange(start as int, end as int)) && v <= limit,
            None => number_of(chars@.subrange(start as int, end as int)) > limit,
        },
{
    let ghost digits = chars@.subrange(start as int, end as int);
    let mut acc: u64 = 0;
    let mut i: usize = start;
    while i < end
        invariant
            start <= i <= end <= chars.len(),
            digits == chars@.subrange(start as int, end as int),
            all_digits(digits),
            acc == number_of(digits.take(i - start)),
            acc <= limit,
        decreases end - i,
    {
        let c: char = chars[i];
        assert(c == digits[i - start]);
        assert(is_digit(c));
        let d: u64 = (c as u32 - 48) as u64;
        proof {
            assert(digits.take(i + 1 - start).drop_last() =~= digits.take(i - start));
            assert(digits.take(i + 1 - start).last() == c);
            lemma_number_of_prefix(digits, i + 1 - start);
        }
        let next: u128 = acc as u128 * 10 + d as u128;
        if next > limit as u128 {
            return None;
        }
        acc = next as u64;
        i = i + 1;
    }
    proof {
        assert(digits.take(i - start) =~= digits);
    }
    Some(acc)
}

/// The first digits of a run write no greater a number than the whole run.
pub proof fn lemma_number_of_prefix(digits: Seq<char>, n: int)
    requires
        0 <= n <= digits.len(),
    ensures
        number_of(digits.take(n)) <= number_of(digits),
    decreases digits.len() - n,
{
    if n == digits.len() {
        assert(digits.take(n) =~= digits);
    } else {
        lemma_number_of_prefix(digits.drop_last(), n);
        assert(digits.drop_last().take(n) =~= digits.take(n));
    }
}

} // verus!
