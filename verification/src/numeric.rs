//! Decimal numbers with a fraction and an exponent, and exact arithmetic on
//! them.
//!
//! A number is its digits and a power of ten. It is multiplied by an integer
//! and cut to a whole number without rounding in between.

use vstd::arithmetic::div_mod::*;
use vstd::arithmetic::mul::*;
use vstd::prelude::*;
use vstd::string::*;

use crate::decimal::{all_digits, digit_of, natural, value};
use crate::text::{chars_of, split_once};

verus! {

// ---------------------------------------------------------------------------
// The model
// ---------------------------------------------------------------------------

/// A number that a text writes.
pub ghost enum NumberView {
    NotANumber,
    Infinite { negative: bool },
    /// The digits, times ten to the power of `exponent`.
    Finite { negative: bool, digits: Seq<char>, exponent: int },
}

/// A letter in lower case.
pub open spec fn lower(c: char) -> char {
    if c == 'I' { 'i' } else if c == 'N' { 'n' } else if c == 'F' { 'f' } else if c == 'T' {
        't'
    } else if c == 'Y' { 'y' } else if c == 'A' { 'a' } else { c }
}

/// `s` is a word, in any case.
pub open spec fn is_word(s: Seq<char>, word: Seq<char>) -> bool {
    s.map_values(|c: char| lower(c)) == word
}

/// Where the exponent begins: the first `e` of either case, or the end.
pub open spec fn exponent_at(s: Seq<char>, from: int) -> int
    decreases s.len() - from,
{
    if from >= s.len() {
        s.len() as int
    } else if s[from] == 'e' || s[from] == 'E' {
        from
    } else {
        exponent_at(s, from + 1)
    }
}

/// The digits before an exponent, and how many of them stand behind the point.
/// There is a digit on one side of the point at least.
pub open spec fn mantissa(s: Seq<char>) -> Option<(Seq<char>, int)> {
    match split_once(s, '.') {
        Some((a, b)) => if all_digits(a) && all_digits(b) && a.len() + b.len() > 0 {
            Some((a + b, b.len() as int))
        } else {
            None
        },
        None => if all_digits(s) && s.len() > 0 {
            Some((s, 0))
        } else {
            None
        },
    }
}

/// The value of an exponent: an optional sign, then digits.
pub open spec fn exponent_value(s: Seq<char>) -> Option<int> {
    let negative = s.len() > 0 && s[0] == '-';
    let part = if s.len() > 0 && (s[0] == '-' || s[0] == '+') {
        s.skip(1)
    } else {
        s
    };
    match natural(part) {
        Some(n) => Some(
            if negative {
                -(n as int)
            } else {
                n as int
            },
        ),
        None => None,
    }
}

/// The finite number that a text without a sign writes.
pub open spec fn finite_in(s: Seq<char>, negative: bool) -> Option<NumberView> {
    let at = exponent_at(s, 0);
    let exponent = if at < s.len() {
        exponent_value(s.skip(at + 1))
    } else {
        Some(0)
    };
    match (mantissa(s.take(at)), exponent) {
        (Some((digits, behind)), Some(e)) => Some(
            NumberView::Finite { negative, digits, exponent: e - behind },
        ),
        _ => None,
    }
}

/// The number that a text writes: digits with an optional point and an optional
/// exponent, or an infinity, or no number at all; each with an optional sign.
pub open spec fn number_in(s: Seq<char>) -> Option<NumberView> {
    let negative = s.len() > 0 && s[0] == '-';
    let body = if s.len() > 0 && (s[0] == '-' || s[0] == '+') {
        s.skip(1)
    } else {
        s
    };
    if is_word(body, "inf"@) || is_word(body, "infinity"@) {
        Some(NumberView::Infinite { negative })
    } else if is_word(body, "nan"@) {
        Some(NumberView::NotANumber)
    } else {
        finite_in(body, negative)
    }
}

/// The number that a text writes in digits. An infinity is none, and neither is
/// what is not a number.
pub open spec fn decimal_in(s: Seq<char>) -> Option<NumberView> {
    match number_in(s) {
        Some(NumberView::Finite { negative, digits, exponent }) => Some(
            NumberView::Finite { negative, digits, exponent },
        ),
        _ => None,
    }
}

/// Ten to the power of `n`.
pub open spec fn pow10(n: nat) -> nat
    decreases n,
{
    if n == 0 {
        1
    } else {
        10 * pow10((n - 1) as nat)
    }
}

/// The whole part of `m` times ten to the power of `x`, times `by`.
pub open spec fn whole(m: nat, x: int, by: nat) -> nat {
    if x >= 0 {
        m * by * pow10(x as nat)
    } else {
        (m * by) / pow10((-x) as nat)
    }
}

/// `m` times ten to the power of `x`, times `by`, has no fraction.
pub open spec fn is_whole(m: nat, x: int, by: nat) -> bool {
    x >= 0 || (m * by) % pow10((-x) as nat) == 0
}

// ---------------------------------------------------------------------------
// Reading
// ---------------------------------------------------------------------------

/// A number that has been read.
#[derive(Debug)]
pub enum Number {
    NotANumber,
    Infinite { negative: bool },
    Finite { negative: bool, digits: Vec<char>, exponent: Exponent },
}

/// An exponent: exact, or beyond what matters.
#[derive(Clone, Copy, Debug)]
pub enum Exponent {
    Exact(i128),
    /// At least [`FAR`].
    Huge,
    /// At most minus [`FAR`].
    Tiny,
}

/// An exponent from which on the exact value is not kept.
pub const HUGE: i128 = 1000000000000000000000000;

/// An exponent from which on a number is too large, or too small, whatever its
/// digits.
pub const FAR: i128 = 100000000000000000000000;

impl Exponent {
    /// The exponent stands for `x`.
    pub open spec fn stands_for(self, x: int) -> bool {
        match self {
            Exponent::Exact(n) => x == n,
            Exponent::Huge => x >= FAR,
            Exponent::Tiny => x <= -FAR,
        }
    }
}

impl Number {
    /// The digits are digits, and an exact exponent is not far off.
    pub open spec fn valid(self) -> bool {
        match self {
            Number::Finite { negative, digits, exponent } => all_digits(digits@) && (
            exponent matches Exponent::Exact(n) ==> -2 * HUGE <= n <= 2 * HUGE),
            _ => true,
        }
    }

    /// The number that has been read is `r`.
    pub open spec fn is(self, r: NumberView) -> bool {
        match (self, r) {
            (Number::NotANumber, NumberView::NotANumber) => true,
            (Number::Infinite { negative: a }, NumberView::Infinite { negative: b }) => a == b,
            (
                Number::Finite { negative: a, digits, exponent },
                NumberView::Finite { negative: b, digits: d, exponent: x },
            ) => a == b && digits@ == d && exponent.stands_for(x),
            _ => false,
        }
    }
}

fn lower_char(c: char) -> (r: char)
    ensures
        r == lower(c),
{
    if c == 'I' { 'i' } else if c == 'N' { 'n' } else if c == 'F' { 'f' } else if c == 'T' {
        't'
    } else if c == 'Y' { 'y' } else if c == 'A' { 'a' } else { c }
}

fn word_at(cs: &Vec<char>, from: usize, word: &str) -> (r: bool)
    requires
        from <= cs.len(),
    ensures
        r == is_word(cs@.skip(from as int), word@),
{
    let w = chars_of(word);
    let ghost s = cs@.skip(from as int);
    let ghost low = s.map_values(|c: char| lower(c));
    if cs.len() - from != w.len() {
        assert(low.len() != word@.len());
        return false;
    }
    let mut i: usize = 0;
    while i < w.len()
        invariant
            i <= w.len(),
            w@ == word@,
            from + w.len() == cs.len(),
            s == cs@.skip(from as int),
            low == s.map_values(|c: char| lower(c)),
            forall|j: int| 0 <= j < i ==> low[j] == #[trigger] w@[j],
        decreases w.len() - i,
    {
        assert(low[i as int] == lower(cs@[from + i]));
        if lower_char(cs[from + i]) != w[i] {
            assert(low != word@);
            return false;
        }
        i = i + 1;
    }
    assert(low =~= word@);
    true
}

/// The digits of `cs` between two places.
fn digits_between(cs: &Vec<char>, from: usize, to: usize) -> (r: bool)
    requires
        from <= to <= cs.len(),
    ensures
        r == all_digits(cs@.subrange(from as int, to as int)),
{
    let ghost s = cs@.subrange(from as int, to as int);
    let mut i: usize = from;
    while i < to
        invariant
            from <= i <= to <= cs.len(),
            s == cs@.subrange(from as int, to as int),
            forall|j: int| 0 <= j < i - from ==> digit_of(#[trigger] s[j]) is Some,
        decreases to - i,
    {
        let c = cs[i];
        assert(s[i - from] == c);
        if c < '0' || '9' < c {
            assert(digit_of(s[i - from]) is None);
            return false;
        }
        i = i + 1;
    }
    true
}

/// The value of digits, or nothing where it is [`HUGE`] or more.
fn small_value(cs: &Vec<char>, from: usize) -> (r: Option<i128>)
    requires
        from <= cs.len(),
        all_digits(cs@.skip(from as int)),
    ensures
        match r {
            Some(n) => n == value(cs@.skip(from as int)) && 0 <= n < HUGE,
            None => value(cs@.skip(from as int)) >= HUGE,
        },
{
    let ghost s = cs@.skip(from as int);
    let mut n: i128 = 0;
    let mut over = false;
    let mut i: usize = from;
    assert(s.take(0) =~= Seq::<char>::empty());
    while i < cs.len()
        invariant
            from <= i <= cs.len(),
            s == cs@.skip(from as int),
            all_digits(s),
            over ==> value(s.take(i - from)) >= HUGE,
            !over ==> n == value(s.take(i - from)) && 0 <= n < HUGE,
        decreases cs.len() - i,
    {
        let c = cs[i];
        proof {
            assert(s[i - from] == c);
            assert(digit_of(s[i - from]) is Some);
            assert(s.take(i + 1 - from).drop_last() =~= s.take(i - from));
            assert(s.take(i + 1 - from).last() == c);
        }
        let d: i128 = c as i128 - 48;
        if !over {
            n = n * 10 + d;
            if n >= HUGE {
                over = true;
            }
        }
        i = i + 1;
    }
    assert(s.take(i - from) =~= s);
    if over {
        None
    } else {
        Some(n)
    }
}

/// Reads an exponent.
fn read_exponent(cs: &Vec<char>, from: usize) -> (r: Option<Exponent>)
    requires
        from <= cs.len(),
    ensures
        match r {
            Some(e) => {
                let want = exponent_value(cs@.skip(from as int));
                want is Some && match e {
                    Exponent::Exact(n) => want->0 == n && -HUGE < n < HUGE,
                    Exponent::Huge => want->0 >= HUGE,
                    Exponent::Tiny => want->0 <= -HUGE,
                }
            },
            None => exponent_value(cs@.skip(from as int)) is None,
        },
{
    let ghost s = cs@.skip(from as int);
    let n: usize = cs.len();
    let signed = from < n && (cs[from] == '-' || cs[from] == '+');
    let negative = from < n && cs[from] == '-';
    let start: usize = if signed {
        from + 1
    } else {
        from
    };
    let ghost part = cs@.skip(start as int);
    proof {
        if from < n {
            assert(s[0] == cs@[from as int]);
        }
        if signed {
            assert(s.skip(1) =~= part);
        } else {
            assert(s =~= part);
        }
        assert(cs@.subrange(start as int, n as int) =~= part);
    }
    if start == n || !digits_between(cs, start, n) {
        return None;
    }
    Some(
        match small_value(cs, start) {
            Some(v) => Exponent::Exact(
                if negative {
                    -v
                } else {
                    v
                },
            ),
            None => if negative {
                Exponent::Tiny
            } else {
                Exponent::Huge
            },
        },
    )
}

proof fn lemma_first_point(s: Seq<char>, i: int)
    requires
        0 <= i < s.len(),
        s[i] == '.',
        forall|j: int| 0 <= j < i ==> s[j] != '.',
    ensures
        split_once(s, '.') == Some((s.take(i), s.skip(i + 1))),
{
    crate::text::lemma_find_from(s, seq!['.'], 0);
    assert(s.subrange(i, i + 1) =~= seq!['.']);
    assert(crate::text::occurs_at(s, seq!['.'], i));
    let k = crate::text::find_from(s, seq!['.'], 0)->0;
    if k < i {
        assert(s.subrange(k, k + 1)[0] == s[k]);
    }
}

proof fn lemma_no_point(s: Seq<char>)
    requires
        forall|j: int| 0 <= j < s.len() ==> s[j] != '.',
    ensures
        split_once(s, '.') is None,
{
    crate::text::lemma_find_from(s, seq!['.'], 0);
    match crate::text::find_from(s, seq!['.'], 0) {
        Some(k) => {
            assert(s.subrange(k, k + 1)[0] == s[k]);
        },
        None => {},
    }
}

/// Appends the characters of `cs` between two places.
fn append(out: &mut Vec<char>, cs: &Vec<char>, from: usize, to: usize)
    requires
        from <= to <= cs.len(),
    ensures
        final(out)@ == old(out)@ + cs@.subrange(from as int, to as int),
{
    let ghost was = out@;
    let mut i: usize = from;
    assert(out@ =~= was + cs@.subrange(from as int, i as int));
    while i < to
        invariant
            from <= i <= to <= cs.len(),
            out@ == was + cs@.subrange(from as int, i as int),
        decreases to - i,
    {
        out.push(cs[i]);
        i = i + 1;
        assert(out@ =~= was + cs@.subrange(from as int, i as int));
    }
}

/// Reads the digits before an exponent, and counts those behind the point.
fn read_mantissa(cs: &Vec<char>, start: usize, at: usize) -> (r: Option<(Vec<char>, usize)>)
    requires
        start <= at <= cs.len(),
    ensures
        match r {
            Some((d, behind)) => mantissa(cs@.subrange(start as int, at as int)) == Some(
                (d@, behind as int),
            ) && all_digits(d@),
            None => mantissa(cs@.subrange(start as int, at as int)) is None,
        },
{
    let ghost m = cs@.subrange(start as int, at as int);
    let mut point: usize = start;
    while point < at && cs[point] != '.'
        invariant
            start <= point <= at <= cs.len(),
            m == cs@.subrange(start as int, at as int),
            forall|j: int| 0 <= j < point - start ==> #[trigger] m[j] != '.',
        decreases at - point,
    {
        assert(m[point - start] == cs@[point as int]);
        point = point + 1;
    }
    let mut digits: Vec<char> = Vec::new();
    if point == at {
        proof {
            lemma_no_point(m);
        }
        if at == start || !digits_between(cs, start, at) {
            return None;
        }
        append(&mut digits, cs, start, at);
        assert(digits@ =~= m);
        return Some((digits, 0));
    }
    let ghost front = cs@.subrange(start as int, point as int);
    let ghost back = cs@.subrange(point + 1, at as int);
    proof {
        assert(m[point - start] == '.');
        lemma_first_point(m, point - start);
        assert(m.take(point - start) =~= front);
        assert(m.skip(point - start + 1) =~= back);
    }
    if !digits_between(cs, start, point) || !digits_between(cs, point + 1, at) {
        return None;
    }
    let behind: usize = at - (point + 1);
    if behind == 0 && point == start {
        return None;
    }
    append(&mut digits, cs, start, point);
    append(&mut digits, cs, point + 1, at);
    proof {
        assert(digits@ =~= front + back);
        assert forall|j: int| 0 <= j < digits@.len() implies digit_of(
            #[trigger] digits@[j],
        ) is Some by {
            if j < front.len() {
                assert(digits@[j] == front[j]);
            } else {
                assert(digits@[j] == back[j - front.len()]);
            }
        }
    }
    Some((digits, behind))
}

/// Reads a finite number without a sign.
fn read_finite(cs: &Vec<char>, start: usize, negative: bool) -> (r: Option<Number>)
    requires
        start <= cs.len(),
    ensures
        match r {
            Some(n) => n.valid() && finite_in(cs@.skip(start as int), negative) is Some && n.is(
                finite_in(cs@.skip(start as int), negative)->0,
            ),
            None => finite_in(cs@.skip(start as int), negative) is None,
        },
{
    let len: usize = cs.len();
    let ghost body = cs@.skip(start as int);
    let mut at: usize = start;
    while at < len && cs[at] != 'e' && cs[at] != 'E'
        invariant
            start <= at <= len,
            len == cs@.len(),
            body == cs@.skip(start as int),
            exponent_at(body, 0) == exponent_at(body, at - start),
        decreases len - at,
    {
        assert(body[at - start] == cs@[at as int]);
        at = at + 1;
    }
    proof {
        if at < len {
            assert(body[at - start] == cs@[at as int]);
        }
        assert(exponent_at(body, 0) == at - start);
        assert(body.take(at - start) =~= cs@.subrange(start as int, at as int));
    }
    let (digits, behind) = match read_mantissa(cs, start, at) {
        Some(p) => p,
        None => {
            return None;
        },
    };
    let e = if at < len {
        assert(body.skip(at - start + 1) =~= cs@.skip(at + 1));
        match read_exponent(cs, at + 1) {
            Some(e) => e,
            None => {
                return None;
            },
        }
    } else {
        Exponent::Exact(0)
    };
    let exponent = match e {
        Exponent::Exact(n) => Exponent::Exact(n - behind as i128),
        Exponent::Huge => Exponent::Huge,
        Exponent::Tiny => Exponent::Tiny,
    };
    Some(Number::Finite { negative, digits, exponent })
}

/// Reads a number.
pub fn parse_number(text: &str) -> (r: Option<Number>)
    ensures
        match r {
            Some(n) => n.valid() && number_in(text@) is Some && n.is(number_in(text@)->0),
            None => number_in(text@) is None,
        },
{
    let cs = chars_of(text);
    let len: usize = cs.len();
    let signed = len > 0 && (cs[0] == '-' || cs[0] == '+');
    let negative = len > 0 && cs[0] == '-';
    let start: usize = if signed {
        1
    } else {
        0
    };
    assert(!signed ==> cs@.skip(0) =~= text@);
    if word_at(&cs, start, "inf") || word_at(&cs, start, "infinity") {
        return Some(Number::Infinite { negative });
    }
    if word_at(&cs, start, "nan") {
        return Some(Number::NotANumber);
    }
    read_finite(&cs, start, negative)
}

/// Reads a number in digits.
pub fn parse_decimal(text: &str) -> (r: Option<Number>)
    ensures
        match r {
            Some(n) => n.valid() && decimal_in(text@) is Some && n.is(decimal_in(text@)->0),
            None => decimal_in(text@) is None,
        },
{
    match parse_number(text) {
        Some(Number::Finite { negative, digits, exponent }) => Some(
            Number::Finite { negative, digits, exponent },
        ),
        _ => None,
    }
}

// ---------------------------------------------------------------------------
// Multiplying
// ---------------------------------------------------------------------------

proof fn lemma_pow10_positive(n: nat)
    ensures
        pow10(n) > 0,
    decreases n,
{
    if n > 0 {
        lemma_pow10_positive((n - 1) as nat);
    }
}

proof fn lemma_pow10_add(a: nat, b: nat)
    ensures
        pow10(a + b) == pow10(a) * pow10(b),
    decreases a,
{
    if a > 0 {
        lemma_pow10_add((a - 1) as nat, b);
        assert(pow10(a + b) == 10 * pow10((a - 1 + b) as nat));
        lemma_mul_is_associative(10, pow10((a - 1) as nat) as int, pow10(b) as int);
    } else {
        assert(pow10(0) == 1);
        assert(1 * pow10(b) == pow10(b));
    }
}

/// One more digit in front: `a` tens and a carry, for a remainder `b` below.
proof fn lemma_digit_step(p: nat, a: nat, b: nat)
    requires
        p > 0,
    ensures
        (a * p + b) / (p * 10) == (a + b / p) / 10,
        ((a * p + b) % (p * 10) == 0) <==> (b % p == 0 && (a + b / p) % 10 == 0),
{
    let x = (a * p + b) as int;
    let ip = p as int;
    lemma_hoist_over_denominator(b as int, a as int, p);
    assert(x / ip == b as int / ip + a);
    lemma_div_denominator(x, ip, 10);
    lemma_mod_breakdown(x, ip, 10);
    lemma_mul_is_commutative(a as int, ip);
    lemma_mod_multiples_vanish(a as int, b as int, ip);
    assert(x % ip == b as int % ip);
    let q = (x / ip) % 10;
    let r = b as int % ip;
    assert(0 <= r) by {
        lemma_mod_bound(b as int, ip);
    }
    assert(0 <= q);
    assert(ip * q + r == 0 <==> (q == 0 && r == 0)) by (nonlinear_arith)
        requires
            ip > 0,
            q >= 0,
            r >= 0,
    ;
}

/// The value of digits, split: what stands in front is worth a power of ten.
proof fn lemma_value_split(s: Seq<char>, i: int)
    requires
        0 <= i <= s.len(),
    ensures
        value(s) == value(s.take(i)) * pow10((s.len() - i) as nat) + value(s.skip(i)),
    decreases s.len() - i,
{
    if i == s.len() {
        assert(s.take(i) =~= s);
        assert(s.skip(i) =~= Seq::<char>::empty());
        assert(value(s.skip(i)) == 0);
        assert(pow10(0) == 1);
        assert(value(s) * 1 == value(s));
    } else {
        let t = s.drop_last();
        lemma_value_split(t, i);
        assert(t.take(i) =~= s.take(i));
        assert(s.skip(i).drop_last() =~= t.skip(i));
        assert(s.skip(i).last() == s.last());
        let n = (t.len() - i) as nat;
        assert(pow10((s.len() - i) as nat) == 10 * pow10(n));
        let v = value(s.take(i)) as int;
        let w = value(t.skip(i)) as int;
        let p = pow10(n) as int;
        assert((v * p + w) * 10 == v * (10 * p) + w * 10) by (nonlinear_arith);
    }
}

/// A number of up to `n` digits is below ten to the power of `n`.
proof fn lemma_value_bound(s: Seq<char>)
    requires
        all_digits(s),
    ensures
        value(s) < pow10(s.len()),
    decreases s.len(),
{
    if s.len() > 0 {
        let t = s.drop_last();
        assert forall|j: int| 0 <= j < t.len() implies digit_of(#[trigger] t[j]) is Some by {
            assert(t[j] == s[j]);
        }
        lemma_value_bound(t);
        assert(digit_of(s[s.len() - 1]) is Some);
    }
}

/// The value of digits up to the largest integer of the machine.
fn bounded_value(digits: &Vec<char>, to: usize) -> (r: Option<u64>)
    requires
        to <= digits.len(),
        all_digits(digits@),
    ensures
        match r {
            Some(n) => n == value(digits@.take(to as int)),
            None => value(digits@.take(to as int)) > u64::MAX,
        },
{
    let mut n: u64 = 0;
    let mut over = false;
    let mut i: usize = 0;
    assert(digits@.take(0) =~= Seq::<char>::empty());
    while i < to
        invariant
            i <= to <= digits.len(),
            all_digits(digits@),
            over ==> value(digits@.take(i as int)) > u64::MAX,
            !over ==> n == value(digits@.take(i as int)),
        decreases to - i,
    {
        let c = digits[i];
        proof {
            assert(digit_of(digits@[i as int]) is Some);
            assert(digits@.take(i + 1).drop_last() =~= digits@.take(i as int));
            assert(digits@.take(i + 1).last() == c);
        }
        let d: u64 = c as u64 - 48;
        if !over {
            let m: u128 = n as u128 * 10 + d as u128;
            if m > u64::MAX as u128 {
                over = true;
            } else {
                n = m as u64;
            }
        }
        i = i + 1;
    }
    if over {
        None
    } else {
        Some(n)
    }
}

/// The whole part of a fraction `0.digits` times `by`, where the digits from
/// `from` on are the fraction; and whether nothing is left.
fn fraction_times(digits: &Vec<char>, from: usize, by: u64) -> (r: (u64, bool))
    requires
        from <= digits.len(),
        all_digits(digits@),
    ensures
        ({
            let f = value(digits@.skip(from as int));
            let p = pow10((digits@.len() - from) as nat);
            r.0 == (f * by as nat) / p && r.1 == ((f * by as nat) % p == 0)
        }),
{
    let n: usize = digits.len();
    let mut carry: u64 = 0;
    let mut exact = true;
    let mut i: usize = n;
    proof {
        assert(digits@.skip(n as int) =~= Seq::<char>::empty());
        assert(value(digits@.skip(n as int)) == 0);
        assert(pow10(0) == 1);
        assert(0 * by == 0) by (nonlinear_arith);
    }
    while i > from
        invariant
            from <= i <= n,
            n == digits@.len(),
            all_digits(digits@),
            carry as int <= by as int,
            carry == (value(digits@.skip(i as int)) * by as nat) / pow10((n - i) as nat),
            exact == ((value(digits@.skip(i as int)) * by as nat) % pow10((n - i) as nat) == 0),
        decreases i,
    {
        let c = digits[i - 1];
        assert(digit_of(digits@[i - 1]) is Some);
        let d: u64 = c as u64 - 48;
        assert(d * by <= 9 * u64::MAX) by (nonlinear_arith)
            requires
                d <= 9,
                by <= u64::MAX,
        ;
        let x: u128 = d as u128 * by as u128 + carry as u128;
        proof {
            assert(digit_of(digits@[i - 1]) is Some);
            let s = digits@.skip(i - 1);
            lemma_value_split(s, 1);
            assert(s.take(1) =~= seq![c]);
            assert(seq![c].drop_last() =~= Seq::<char>::empty());
            assert(value(seq![c].drop_last()) == 0);
            assert(seq![c].last() == c);
            assert(value(seq![c]) == 0 * 10 + d);
            assert(s.skip(1) =~= digits@.skip(i as int));
            let p = pow10((n - i) as nat);
            let f = value(digits@.skip(i as int));
            lemma_pow10_positive((n - i) as nat);
            assert(value(s) == d * p + f);
            assert((d * p + f) * by == (d * by) * p + f * by) by (nonlinear_arith);
            lemma_digit_step(p, (d * by) as nat, (f * by) as nat);
            assert(pow10((n - (i - 1)) as nat) == 10 * p);
            assert(d * by + carry <= 10 * by) by (nonlinear_arith)
                requires
                    d <= 9,
                    carry <= by,
            ;
            assert(d * by + carry <= 10 * u64::MAX);
        }
        if x % 10 != 0 {
            exact = false;
        }
        carry = (x / 10) as u64;
        i = i - 1;
    }
    (carry, exact)
}

/// Divides by a power of ten; says whether nothing is left.
fn shift_down(n: u64, by: u128) -> (r: (u64, bool))
    ensures
        r.0 == n as nat / pow10(by as nat),
        r.1 == (n as nat % pow10(by as nat) == 0),
{
    let mut m: u64 = n;
    let mut exact = true;
    let mut k: u128 = 0;
    assert(pow10(0) == 1);
    while k < by && m > 0
        invariant
            k <= by,
            m == n as nat / pow10(k as nat),
            exact == (n as nat % pow10(k as nat) == 0),
        decreases by - k,
    {
        proof {
            let p = pow10(k as nat);
            lemma_pow10_positive(k as nat);
            lemma_div_denominator(n as int, p as int, 10);
            lemma_mod_breakdown(n as int, p as int, 10);
            lemma_mod_bound(n as int, p as int);
            let q = (n as int / p as int) % 10;
            let r = n as int % p as int;
            let ip = p as int;
            assert(ip * q + r == 0 <==> (q == 0 && r == 0)) by (nonlinear_arith)
                requires
                    ip > 0,
                    q >= 0,
                    r >= 0,
            ;
            assert(pow10((k + 1) as nat) == 10 * p);
        }
        if m % 10 != 0 {
            exact = false;
        }
        m = m / 10;
        k = k + 1;
    }
    proof {
        if k < by {
            let p = pow10(k as nat);
            let e = pow10((by - k) as nat);
            lemma_pow10_positive(k as nat);
            lemma_pow10_positive((by - k) as nat);
            lemma_pow10_add(k as nat, (by - k) as nat);
            lemma_div_denominator(n as int, p as int, e as int);
            lemma_mod_breakdown(n as int, p as int, e as int);
            assert(0int / (e as int) == 0) by (nonlinear_arith)
                requires
                    e > 0,
            ;
            lemma_small_mod(0, e);
            let ip = p as int;
            assert(ip * 0 == 0) by (nonlinear_arith);
        }
    }
    (m, exact)
}

/// Multiplies by a power of ten, up to the largest integer of the machine.
fn shift_up(n: u64, by: u128) -> (r: Option<u64>)
    ensures
        match r {
            Some(m) => m == n * pow10(by as nat),
            None => n * pow10(by as nat) > u64::MAX,
        },
{
    if n == 0 {
        assert(0 * pow10(by as nat) == 0) by (nonlinear_arith);
        return Some(0);
    }
    let mut m: u64 = n;
    let mut k: u128 = 0;
    assert(pow10(0) == 1);
    assert(n * 1 == n);
    while k < by
        invariant
            k <= by,
            n > 0,
            m == n * pow10(k as nat),
        decreases by - k,
    {
        proof {
            assert(pow10((k + 1) as nat) == 10 * pow10(k as nat));
            let p = pow10(k as nat) as int;
            assert(n * (10 * p) == (n * p) * 10) by (nonlinear_arith);
        }
        let x: u128 = m as u128 * 10;
        if x > u64::MAX as u128 {
            proof {
                lemma_pow10_add((k + 1) as nat, (by - k - 1) as nat);
                lemma_pow10_positive((by - k - 1) as nat);
                let a = pow10((k + 1) as nat) as int;
                let b = pow10((by - k - 1) as nat) as int;
                assert(n * (a * b) >= n * a) by (nonlinear_arith)
                    requires
                        b >= 1,
                        n >= 0,
                        a >= 0,
                ;
            }
            return None;
        }
        m = x as u64;
        k = k + 1;
    }
    Some(m)
}

/// The digits times ten to the power of `x`, times `by`: the whole part, none
/// where it is beyond the largest integer of the machine, and whether nothing is
/// left.
pub fn multiply(digits: &Vec<char>, x: i128, by: u64) -> (r: (Option<u64>, bool))
    requires
        all_digits(digits@),
        -3 * HUGE <= x <= 3 * HUGE,
    ensures
        match r.0 {
            Some(n) => n == whole(value(digits@), x as int, by as nat),
            None => whole(value(digits@), x as int, by as nat) > u64::MAX,
        },
        r.1 == is_whole(value(digits@), x as int, by as nat),
{
    let n: usize = digits.len();
    let ghost m = value(digits@);
    assert(digits@.take(n as int) =~= digits@);
    if by == 0 {
        proof {
            assert(m * 0 == 0) by (nonlinear_arith);
            if x >= 0 {
                assert(0 * pow10(x as nat) == 0) by (nonlinear_arith);
            } else {
                let p = pow10((-x) as nat);
                lemma_pow10_positive((-x) as nat);
                assert(0int / (p as int) == 0) by (nonlinear_arith)
                    requires
                        p > 0,
                ;
                lemma_small_mod(0, p);
            }
        }
        return (Some(0), true);
    }
    if x >= 0 {
        let v = match bounded_value(digits, n) {
            Some(v) => v,
            None => {
                proof {
                    lemma_pow10_positive(x as nat);
                    let q = pow10(x as nat) as int;
                    assert(m * by * q >= m) by (nonlinear_arith)
                        requires
                            by >= 1,
                            q >= 1,
                            m >= 0,
                    ;
                }
                return (None, true);
            },
        };
        let up = match shift_up(v, x as u128) {
            Some(u) => u,
            None => {
                proof {
                    let q = pow10(x as nat) as int;
                    assert(m * by * q >= m * q) by (nonlinear_arith)
                        requires
                            by >= 1,
                            q >= 0,
                            m >= 0,
                    ;
                }
                return (None, true);
            },
        };
        assert(up * by <= 0xffff_ffff_ffff_ffff * 0xffff_ffff_ffff_ffff) by (nonlinear_arith)
            requires
                up <= 0xffff_ffff_ffff_ffff,
                by <= 0xffff_ffff_ffff_ffff,
        ;
        let w: u128 = up as u128 * by as u128;
        proof {
            let q = pow10(x as nat) as int;
            assert(m * by * q == (m * q) * by) by (nonlinear_arith);
        }
        if w > u64::MAX as u128 {
            return (None, true);
        }
        return (Some(w as u64), true);
    }
    let down: u128 = (-x) as u128;
    if down <= n as u128 {
        let cut: usize = n - down as usize;
        let (f, exact) = fraction_times(digits, cut, by);
        proof {
            lemma_value_split(digits@, cut as int);
            let p = pow10(down as nat);
            lemma_pow10_positive(down as nat);
            let i = value(digits@.take(cut as int));
            let fr = value(digits@.skip(cut as int));
            assert(m == i * p + fr);
            assert((i * p + fr) * by == (i * by) * p + fr * by) by (nonlinear_arith);
            lemma_hoist_over_denominator((fr * by) as int, (i * by) as int, p);
            lemma_mul_is_commutative((i * by) as int, p as int);
            lemma_mod_multiples_vanish((i * by) as int, (fr * by) as int, p as int);
            assert(whole(m, x as int, by as nat) == i * by + f);
            assert(is_whole(m, x as int, by as nat) == exact);
        }
        match bounded_value(digits, cut) {
            Some(i) => {
                assert(i * by <= 0xffff_ffff_ffff_ffff * 0xffff_ffff_ffff_ffff) by (nonlinear_arith)
            requires
                i <= 0xffff_ffff_ffff_ffff,
                by <= 0xffff_ffff_ffff_ffff,
        ;
        let w: u128 = i as u128 * by as u128;
                if w + f as u128 > u64::MAX as u128 {
                    (None, exact)
                } else {
                    (Some((w + f as u128) as u64), exact)
                }
            },
            None => {
                proof {
                    let i = value(digits@.take(cut as int));
                    assert(i * by >= i) by (nonlinear_arith)
                        requires
                            by >= 1,
                            i >= 0,
                    ;
                }
                (None, exact)
            },
        }
    } else {
        let (f, exact) = fraction_times(digits, 0, by);
        let rest: u128 = down - n as u128;
        let (w, exact_rest) = shift_down(f, rest);
        proof {
            assert(digits@.skip(0) =~= digits@);
            let p = pow10(n as nat);
            let e = pow10(rest as nat);
            lemma_pow10_positive(n as nat);
            lemma_pow10_positive(rest as nat);
            lemma_pow10_add(n as nat, rest as nat);
            let y = (m * by) as int;
            lemma_div_denominator(y, p as int, e as int);
            lemma_mod_breakdown(y, p as int, e as int);
            lemma_mod_bound(y, p as int);
            lemma_mod_bound(y / p as int, e as int);
            let q = (y / p as int) % (e as int);
            let r = y % p as int;
            let ip = p as int;
            assert(ip * q + r == 0 <==> (q == 0 && r == 0)) by (nonlinear_arith)
                requires
                    ip > 0,
                    q >= 0,
                    r >= 0,
            ;
        }
        (Some(w), exact && exact_rest)
    }
}

// ---------------------------------------------------------------------------
// Whole numbers of the machine
// ---------------------------------------------------------------------------

/// The whole part of a number times ten to the power of `k`, times `by`, as an
/// integer of the machine: nothing below zero, and the largest one above it. What
/// has no digits is nothing.
pub open spec fn capped(r: NumberView, k: int, by: nat) -> nat {
    match r {
        NumberView::NotANumber => 0,
        NumberView::Infinite { .. } => 0,
        NumberView::Finite { negative, digits, exponent } => {
            let w = whole(value(digits), exponent + k, by);
            if negative {
                0
            } else if w > u64::MAX {
                u64::MAX as nat
            } else {
                w
            }
        },
    }
}

proof fn lemma_pow10_grows(a: nat, b: nat)
    requires
        a <= b,
    ensures
        pow10(a) <= pow10(b),
{
    lemma_pow10_add(a, (b - a) as nat);
    lemma_pow10_positive((b - a) as nat);
    lemma_pow10_positive(a);
    let x = pow10(a) as int;
    let y = pow10((b - a) as nat) as int;
    assert(x * y >= x) by (nonlinear_arith)
        requires
            x >= 0,
            y >= 1,
    ;
}

proof fn lemma_pow10_twenty()
    ensures
        pow10(20) == 100000000000000000000,
{
    assert(pow10(0) == 1);
    assert(pow10(1) == 10);
    assert(pow10(2) == 100);
    assert(pow10(3) == 1000);
    assert(pow10(4) == 10000);
    assert(pow10(5) == 100000);
    assert(pow10(6) == 1000000);
    assert(pow10(7) == 10000000);
    assert(pow10(8) == 100000000);
    assert(pow10(9) == 1000000000);
    assert(pow10(10) == 10000000000);
    lemma_pow10_add(10, 10);
}

/// A number with a huge power of ten is too large, unless it is zero.
proof fn lemma_huge(m: nat, x: int, by: nat)
    requires
        x >= 20,
        by >= 1,
    ensures
        m == 0 ==> whole(m, x, by) == 0,
        m > 0 ==> whole(m, x, by) > u64::MAX,
{
    lemma_pow10_twenty();
    lemma_pow10_grows(20, x as nat);
    let p = pow10(x as nat) as int;
    if m == 0 {
        assert(0 * by * p == 0) by (nonlinear_arith);
    } else {
        assert(m * by * p >= p) by (nonlinear_arith)
            requires
                m >= 1,
                by >= 1,
                p >= 0,
        ;
    }
}

/// A number with a tiny power of ten has no whole part.
proof fn lemma_tiny(digits: Seq<char>, x: int, by: nat)
    requires
        all_digits(digits),
        by <= u64::MAX,
        x <= -(digits.len() + 20),
    ensures
        whole(value(digits), x, by) == 0,
{
    lemma_value_bound(digits);
    lemma_pow10_twenty();
    lemma_pow10_add(digits.len(), 20);
    lemma_pow10_grows(digits.len() + 20, (-x) as nat);
    let m = value(digits) as int;
    let l = pow10(digits.len()) as int;
    let b = by as int;
    let t = 100000000000000000000int;
    assert(m * b < l * t) by (nonlinear_arith)
        requires
            0 <= m < l,
            0 <= b < t,
    ;
    let p = pow10((-x) as nat) as int;
    lemma_basic_div(m * b, p);
}

/// The whole part of a number times ten to the power of `k`, times `by`.
pub fn whole_part(n: &Number, k: i128, by: u64) -> (r: u64)
    requires
        n.valid(),
        -100 <= k <= 100,
        by >= 1,
    ensures
        forall|v: NumberView| n.is(v) ==> r == #[trigger] capped(v, k as int, by as nat),
{
    match n {
        Number::NotANumber => 0,
        Number::Infinite { .. } => 0,
        Number::Finite { negative, digits, exponent } => {
            if *negative {
                return 0;
            }
            match exponent {
                Exponent::Exact(e) => match multiply(digits, *e + k, by).0 {
                    Some(w) => w,
                    None => u64::MAX,
                },
                Exponent::Huge => {
                    proof {
                        assert forall|v: NumberView| n.is(v) implies #[trigger] capped(
                            v,
                            k as int,
                            by as nat,
                        ) == (if value(digits@) > 0 {
                            u64::MAX as nat
                        } else {
                            0
                        }) by {
                            lemma_huge(value(digits@), v->exponent + k, by as nat);
                        }
                    }
                    if some_digit(digits) {
                        u64::MAX
                    } else {
                        0
                    }
                },
                Exponent::Tiny => {
                    let len: usize = digits.len();
                    proof {
                        assert(digits@.len() == len);
                        assert forall|v: NumberView| n.is(v) implies #[trigger] capped(
                            v,
                            k as int,
                            by as nat,
                        ) == 0 by {
                            lemma_tiny(digits@, v->exponent + k, by as nat);
                        }
                    }
                    0
                },
            }
        },
    }
}

/// Is any of the digits not zero?
fn some_digit(digits: &Vec<char>) -> (r: bool)
    requires
        all_digits(digits@),
    ensures
        r == (value(digits@) > 0),
{
    let mut i: usize = 0;
    assert(digits@.take(0) =~= Seq::<char>::empty());
    while i < digits.len()
        invariant
            i <= digits.len(),
            all_digits(digits@),
            value(digits@.take(i as int)) == 0,
        decreases digits.len() - i,
    {
        proof {
            assert(digit_of(digits@[i as int]) is Some);
            assert(digits@.take(i + 1).drop_last() =~= digits@.take(i as int));
            assert(digits@.take(i + 1).last() == digits@[i as int]);
        }
        if digits[i] != '0' {
            proof {
                let n = digits@.len();
                lemma_value_split(digits@, i + 1);
                lemma_pow10_positive((n - (i + 1)) as nat);
                let a = value(digits@.take(i + 1)) as int;
                let p = pow10((n - (i + 1)) as nat) as int;
                assert(a > 0);
                assert(a * p > 0) by (nonlinear_arith)
                    requires
                        a > 0,
                        p > 0,
                ;
            }
            return true;
        }
        i = i + 1;
    }
    assert(digits@.take(i as int) =~= digits@);
    false
}

// ---------------------------------------------------------------------------
// Rounding up
// ---------------------------------------------------------------------------

/// An integer within the signed integers of the machine.
pub open spec fn clamped(n: int) -> int {
    if n > i64::MAX {
        i64::MAX as int
    } else if n < i64::MIN {
        i64::MIN as int
    } else {
        n
    }
}

/// A number times ten to the power of `k`, times `by`, rounded up.
pub open spec fn ceiling(r: NumberView, k: int, by: nat) -> int {
    match r {
        NumberView::NotANumber => 0,
        NumberView::Infinite { negative } => if by == 0 {
            0
        } else if negative {
            i64::MIN as int
        } else {
            i64::MAX as int
        },
        NumberView::Finite { negative, digits, exponent } => {
            let w = whole(value(digits), exponent + k, by) as int;
            if negative {
                clamped(-w)
            } else if is_whole(value(digits), exponent + k, by) {
                clamped(w)
            } else {
                clamped(w + 1)
            }
        },
    }
}

proof fn lemma_tiny_rest(digits: Seq<char>, x: int, by: nat)
    requires
        all_digits(digits),
        by <= u64::MAX,
        x <= -(digits.len() + 20),
    ensures
        is_whole(value(digits), x, by) == (value(digits) == 0 || by == 0),
{
    lemma_value_bound(digits);
    lemma_pow10_twenty();
    lemma_pow10_add(digits.len(), 20);
    lemma_pow10_grows(digits.len() + 20, (-x) as nat);
    let m = value(digits) as int;
    let l = pow10(digits.len()) as int;
    let b = by as int;
    let t = 100000000000000000000int;
    assert(m * b < l * t) by (nonlinear_arith)
        requires
            0 <= m < l,
            0 <= b < t,
    ;
    assert(m * b == 0 <==> (m == 0 || b == 0)) by (nonlinear_arith);
    let p = pow10((-x) as nat);
    lemma_small_mod((value(digits) * by) as nat, p);
}

proof fn lemma_nothing_of(m: nat, x: int)
    ensures
        whole(m, x, 0) == 0,
        is_whole(m, x, 0),
{
    assert(m * 0 == 0) by (nonlinear_arith);
    if x >= 0 {
        assert(0 * pow10(x as nat) == 0) by (nonlinear_arith);
    } else {
        let p = pow10((-x) as nat);
        lemma_pow10_positive((-x) as nat);
        assert(0int / (p as int) == 0) by (nonlinear_arith)
            requires
                p > 0,
        ;
        lemma_small_mod(0, p);
    }
}

fn round_up(negative: bool, w: Option<u64>, exact: bool) -> (r: i64)
    ensures
        match w {
            Some(w) => r == clamped(
                if negative {
                    -(w as int)
                } else if exact {
                    w as int
                } else {
                    w + 1
                },
            ),
            None => r == (if negative {
                i64::MIN
            } else {
                i64::MAX
            }),
        },
{
    match w {
        Some(w) => {
            let up: i128 = if negative {
                -(w as i128)
            } else if exact {
                w as i128
            } else {
                w as i128 + 1
            };
            if up > i64::MAX as i128 {
                i64::MAX
            } else if up < i64::MIN as i128 {
                i64::MIN
            } else {
                up as i64
            }
        },
        None => if negative {
            i64::MIN
        } else {
            i64::MAX
        },
    }
}

/// A number times ten to the power of `k`, times `by`, rounded up.
pub fn ceil_part(n: &Number, k: i128, by: u64) -> (r: i64)
    requires
        n.valid(),
        -100 <= k <= 100,
    ensures
        forall|v: NumberView| n.is(v) ==> r == #[trigger] ceiling(v, k as int, by as nat),
{
    match n {
        Number::NotANumber => 0,
        Number::Infinite { negative } => if by == 0 {
            0
        } else if *negative {
            i64::MIN
        } else {
            i64::MAX
        },
        Number::Finite { negative, digits, exponent } => {
            if by == 0 {
                proof {
                    assert forall|v: NumberView| n.is(v) implies 0 == #[trigger] ceiling(
                        v,
                        k as int,
                        by as nat,
                    ) by {
                        lemma_nothing_of(value(digits@), v->exponent + k);
                    }
                }
                return 0;
            }
            match exponent {
                Exponent::Exact(e) => {
                    let (w, exact) = multiply(digits, *e + k, by);
                    round_up(*negative, w, exact)
                },
                Exponent::Huge => {
                    let any = some_digit(digits);
                    proof {
                        assert forall|v: NumberView| n.is(v) implies #[trigger] ceiling(
                            v,
                            k as int,
                            by as nat,
                        ) == (if !any {
                            0
                        } else if *negative {
                            i64::MIN as int
                        } else {
                            i64::MAX as int
                        }) by {
                            lemma_huge(value(digits@), v->exponent + k, by as nat);
                        }
                    }
                    if !any {
                        0
                    } else if *negative {
                        i64::MIN
                    } else {
                        i64::MAX
                    }
                },
                Exponent::Tiny => {
                    let len: usize = digits.len();
                    let any = some_digit(digits);
                    proof {
                        assert(digits@.len() == len);
                        assert forall|v: NumberView| n.is(v) implies #[trigger] ceiling(
                            v,
                            k as int,
                            by as nat,
                        ) == (if any && !*negative {
                            1int
                        } else {
                            0
                        }) by {
                            lemma_tiny(digits@, v->exponent + k, by as nat);
                            lemma_tiny_rest(digits@, v->exponent + k, by as nat);
                        }
                    }
                    if any && !*negative {
                        1
                    } else {
                        0
                    }
                },
            }
        },
    }
}

} // verus!
