//! Decimal numerals: how integers are written and read.

use vstd::prelude::*;
use vstd::string::*;

use crate::text::{chars_of, push_char};

verus! {

/// The character for a digit below ten.
pub open spec fn digit(d: nat) -> char
    recommends
        d < 10,
{
    if d == 0 { '0' } else if d == 1 { '1' } else if d == 2 { '2' } else if d == 3 {
        '3'
    } else if d == 4 { '4' } else if d == 5 { '5' } else if d == 6 { '6' } else if d == 7 {
        '7'
    } else if d == 8 { '8' } else { '9' }
}

/// The digit that a character stands for.
pub open spec fn digit_of(c: char) -> Option<nat> {
    if '0' <= c <= '9' {
        Some((c as u32 - 48) as nat)
    } else {
        None
    }
}

/// The numeral of `n`: no sign, no leading zero.
pub open spec fn dec(n: nat) -> Seq<char>
    decreases n,
{
    if n < 10 {
        seq![digit(n)]
    } else {
        dec(n / 10).push(digit(n % 10))
    }
}

/// The numeral of an integer, with a minus sign where it is negative.
pub open spec fn dec_int(n: int) -> Seq<char> {
    if n < 0 {
        seq!['-'] + dec((-n) as nat)
    } else {
        dec(n as nat)
    }
}

/// Every character of `s` is a digit.
pub open spec fn all_digits(s: Seq<char>) -> bool {
    forall|i: int| 0 <= i < s.len() ==> digit_of(#[trigger] s[i]) is Some
}

/// The value of a run of digits.
pub open spec fn value(s: Seq<char>) -> nat
    decreases s.len(),
{
    if s.len() == 0 {
        0
    } else {
        value(s.drop_last()) * 10 + (digit_of(s.last())->0)
    }
}

/// The natural number that `s` writes: one digit or more and nothing else.
pub open spec fn natural(s: Seq<char>) -> Option<nat> {
    if s.len() > 0 && all_digits(s) {
        Some(value(s))
    } else {
        None
    }
}

/// What follows a leading plus sign.
pub open spec fn unsigned_part(s: Seq<char>) -> Seq<char> {
    if s.len() > 0 && s[0] == '+' {
        s.skip(1)
    } else {
        s
    }
}

/// The integer up to `max` that `s` writes: an optional plus sign, then
/// digits. Leading zeros are allowed.
pub open spec fn unsigned(s: Seq<char>, max: nat) -> Option<nat> {
    match natural(unsigned_part(s)) {
        Some(n) => if n <= max {
            Some(n)
        } else {
            None
        },
        None => None,
    }
}

/// The integer that `s` writes, where it fits 64 bits with a sign: an optional
/// plus or minus sign, then digits.
pub open spec fn signed(s: Seq<char>) -> Option<int> {
    if s.len() > 0 && s[0] == '-' {
        match natural(s.skip(1)) {
            Some(n) => if -n >= i64::MIN {
                Some(-n)
            } else {
                None
            },
            None => None,
        }
    } else {
        match unsigned(s, i64::MAX as nat) {
            Some(n) => Some(n as int),
            None => None,
        }
    }
}

fn digit_char(d: u64) -> (r: char)
    requires
        d < 10,
    ensures
        r == digit(d as nat),
{
    if d == 0 { '0' } else if d == 1 { '1' } else if d == 2 { '2' } else if d == 3 {
        '3'
    } else if d == 4 { '4' } else if d == 5 { '5' } else if d == 6 { '6' } else if d == 7 {
        '7'
    } else if d == 8 { '8' } else { '9' }
}

/// Writes `n` in decimal.
pub fn format_u64(n: u64) -> (r: String)
    ensures
        r@ == dec(n as nat),
    decreases n,
{
    if n < 10 {
        let mut s = String::new();
        push_char(&mut s, digit_char(n));
        assert(s@ =~= dec(n as nat));
        s
    } else {
        let mut s = format_u64(n / 10);
        push_char(&mut s, digit_char(n % 10));
        s
    }
}

/// Writes `n` in decimal, with a minus sign where it is negative.
pub fn format_i64(n: i64) -> (r: String)
    ensures
        r@ == dec_int(n as int),
{
    if n < 0 {
        let m: u64 = if n == i64::MIN {
            9223372036854775808
        } else {
            (-n) as u64
        };
        let mut s = String::new();
        push_char(&mut s, '-');
        let d = format_u64(m);
        s.append(d.as_str());
        assert(s@ =~= seq!['-'] + dec((-n) as nat));
        s
    } else {
        format_u64(n as u64)
    }
}

/// The value of the digits of `v` from `from` on, where it is at most `max`.
fn read_digits(v: &Vec<char>, from: usize, max: u64) -> (r: Option<u64>)
    requires
        from <= v.len(),
    ensures
        match r {
            Some(n) => natural(v@.skip(from as int)) == Some(n as nat) && n <= max,
            None => match natural(v@.skip(from as int)) {
                Some(n) => n > max,
                None => true,
            },
        },
{
    let ghost s = v@.skip(from as int);
    if from == v.len() {
        return None;
    }
    let mut n: u64 = 0;
    let mut over = false;
    let mut i: usize = from;
    assert(s.take(0) =~= Seq::<char>::empty());
    while i < v.len()
        invariant
            from <= i <= v.len(),
            s == v@.skip(from as int),
            all_digits(s.take(i - from)),
            over ==> value(s.take(i - from)) > max,
            !over ==> value(s.take(i - from)) == n && n <= max,
        decreases v.len() - i,
    {
        let c = v[i];
        proof {
            assert(s[i - from] == c);
        }
        if c < '0' || '9' < c {
            assert(digit_of(s[i - from]) is None);
            return None;
        }
        let d: u64 = c as u64 - 48;
        proof {
            assert(s.take(i + 1 - from).drop_last() =~= s.take(i - from));
            assert(s.take(i + 1 - from).last() == c);
            assert(value(s.take(i + 1 - from)) == value(s.take(i - from)) * 10 + d);
            assert forall|j: int| 0 <= j < i + 1 - from implies digit_of(
                #[trigger] s.take(i + 1 - from)[j],
            ) is Some by {
                if j < i - from {
                    assert(s.take(i + 1 - from)[j] == s.take(i - from)[j]);
                }
            }
        }
        if !over {
            if n > (u64::MAX - d) / 10 {
                assert(n * 10 + d > max) by (nonlinear_arith)
                    requires
                        n > (u64::MAX - d) / 10,
                        max <= u64::MAX,
                        0 <= d <= 9,
                ;
                over = true;
            } else {
                assert(n * 10 + d <= u64::MAX) by (nonlinear_arith)
                    requires
                        n <= (u64::MAX - d) / 10,
                        0 <= d <= 9,
                ;
                n = n * 10 + d;
                if n > max {
                    over = true;
                }
            }
        }
        i = i + 1;
    }
    assert(s.take(i - from) =~= s);
    if over {
        None
    } else {
        Some(n)
    }
}

/// Reads an unsigned integer up to `max`, as `str::parse` does for the
/// unsigned types.
pub fn parse_unsigned(s: &str, max: u64) -> (r: Option<u64>)
    ensures
        match r {
            Some(n) => unsigned(s@, max as nat) == Some(n as nat),
            None => unsigned(s@, max as nat) is None,
        },
{
    let v = chars_of(s);
    if v.len() > 0 && v[0] == '+' {
        read_digits(&v, 1, max)
    } else {
        assert(v@.skip(0) =~= v@);
        read_digits(&v, 0, max)
    }
}

/// Reads a 64-bit unsigned integer.
pub fn parse_u64(s: &str) -> (r: Option<u64>)
    ensures
        match r {
            Some(n) => unsigned(s@, u64::MAX as nat) == Some(n as nat),
            None => unsigned(s@, u64::MAX as nat) is None,
        },
{
    parse_unsigned(s, u64::MAX)
}

/// Reads a 64-bit signed integer.
pub fn parse_i64(s: &str) -> (r: Option<i64>)
    ensures
        match r {
            Some(n) => signed(s@) == Some(n as int),
            None => signed(s@) is None,
        },
{
    let v = chars_of(s);
    if v.len() > 0 && v[0] == '-' {
        match read_digits(&v, 1, 9223372036854775808) {
            Some(n) => {
                if n == 9223372036854775808 {
                    Some(i64::MIN)
                } else {
                    Some(-(n as i64))
                }
            },
            None => None,
        }
    } else {
        match parse_unsigned(s, i64::MAX as u64) {
            Some(n) => Some(n as i64),
            None => None,
        }
    }
}

proof fn lemma_digit(d: nat)
    requires
        d < 10,
    ensures
        digit_of(digit(d)) == Some(d),
{
}

/// A numeral reads back as the number it was written for.
pub proof fn law_numeral_reads_back(n: nat)
    ensures
        natural(dec(n)) == Some(n),
        dec(n).len() > 0,
        dec(n)[0] != '+',
        dec(n)[0] != '-',
    decreases n,
{
    if n < 10 {
        lemma_digit(n);
        assert(dec(n).drop_last() =~= Seq::<char>::empty());
        assert(value(dec(n).drop_last()) == 0);
    } else {
        law_numeral_reads_back(n / 10);
        lemma_digit(n % 10);
        let p = dec(n / 10);
        let s = dec(n);
        assert(s.drop_last() =~= p);
        assert(s.last() == digit(n % 10));
        assert(value(s) == (n / 10) * 10 + n % 10);
        assert forall|i: int| 0 <= i < s.len() implies digit_of(#[trigger] s[i]) is Some by {
            if i < p.len() {
                assert(s[i] == p[i]);
            }
        }
        assert(s[0] == p[0]);
    }
}

/// Two numbers with one numeral are one number.
pub proof fn law_numerals_differ(a: nat, b: nat)
    requires
        dec(a) == dec(b),
    ensures
        a == b,
{
    law_numeral_reads_back(a);
    law_numeral_reads_back(b);
}

/// A number is written with its last digit last.
pub proof fn law_a_digit_more_is_ten_times(n: nat, d: nat)
    requires
        n > 0,
        d < 10,
    ensures
        dec(10 * n + d) == dec(n) + dec(d),
        dec(0) == seq!['0'],
        dec(7) == seq!['7'],
{
    assert((10 * n + d) / 10 == n);
    assert((10 * n + d) % 10 == d);
    assert(dec(n).push(digit(d)) =~= dec(n) + dec(d));
}

/// A number reads back within its bounds, with or without a plus, and with a minus as what is
/// below zero; beyond its bounds it is none.
pub proof fn law_signs(n: nat, max: nat)
    ensures
        n <= max ==> unsigned(dec(n), max) == Some(n),
        n <= max ==> unsigned(seq!['+'] + dec(n), max) == Some(n),
        n > max ==> unsigned(dec(n), max) is None,
        n <= i64::MAX ==> signed(dec_int(n as int)) == Some(n as int),
        n > i64::MAX ==> signed(dec(n)) is None,
        0 < n <= 0x8000_0000_0000_0000 ==> signed(dec_int(-n)) == Some(-n),
        n > 0x8000_0000_0000_0000 ==> signed(seq!['-'] + dec(n)) is None,
        unsigned(seq!['-'] + dec(n), max) is None,
{
    law_numeral_reads_back(n);
    assert((seq!['+'] + dec(n)).skip(1) =~= dec(n));
    assert((seq!['-'] + dec(n)).skip(1) =~= dec(n));
    let m = seq!['-'] + dec(n);
    assert(m[0] == '-');
    assert(digit_of(m[0]) is None);
}

/// What holds anything but digits is no number.
pub proof fn law_a_number_is_digits(s: Seq<char>, i: int)
    requires
        0 <= i < s.len(),
        !('0' <= s[i] <= '9'),
    ensures
        natural(s) is None,
        natural(Seq::empty()) is None,
{
    assert(digit_of(s[i]) is None);
}

} // verus!
