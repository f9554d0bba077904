//! Resource quantities: `100m`, `1Gi`, `1.5G`, `1e9`.

use vstd::prelude::*;
use vstd::string::*;

use crate::decimal::{all_digits, dec, digit_of, format_u64, law_numeral_reads_back, value};
use crate::numeric::{capped, decimal_in, exponent_at, parse_decimal, whole_part, NumberView};
use crate::text::{has_suffix, is_white, opt_str, strip_suffix, trim, trimmed_text, without_suffix};

verus! {

/// A number with a unit: ten to the power of `k`, times `by`. What is no number
/// is nothing.
pub open spec fn amount(text: Seq<char>, k: int, by: nat) -> nat {
    match decimal_in(text) {
        Some(r) => capped(r, k, by),
        None => 0,
    }
}

fn read_amount(text: &str, k: i128, by: u64) -> (r: u64)
    requires
        -100 <= k <= 100,
        by >= 1,
    ensures
        r == amount(text@, k as int, by as nat),
{
    match parse_decimal(text) {
        Some(n) => whole_part(&n, k, by),
        None => 0,
    }
}

/// A number before a suffix, where there is one.
pub open spec fn number_before(s: Seq<char>, suffix: Seq<char>) -> Option<Seq<char>> {
    match without_suffix(s, suffix) {
        Some(n) => if decimal_in(n) is Some {
            Some(n)
        } else {
            None
        },
        None => None,
    }
}

/// The bytes of a quantity without white space around it. A binary suffix is
/// looked for first, as `Mi` does not end in a decimal one; a decimal suffix is
/// one where a number stands before it, so that `1e9` has none.
pub open spec fn bytes_of(s: Seq<char>) -> nat {
    if has_suffix(s, "Ki"@) {
        amount(without_suffix(s, "Ki"@)->0, 0, 1024)
    } else if has_suffix(s, "Mi"@) {
        amount(without_suffix(s, "Mi"@)->0, 0, 1048576)
    } else if has_suffix(s, "Gi"@) {
        amount(without_suffix(s, "Gi"@)->0, 0, 1073741824)
    } else if has_suffix(s, "Ti"@) {
        amount(without_suffix(s, "Ti"@)->0, 0, 1099511627776)
    } else if has_suffix(s, "Pi"@) {
        amount(without_suffix(s, "Pi"@)->0, 0, 1125899906842624)
    } else if has_suffix(s, "Ei"@) {
        amount(without_suffix(s, "Ei"@)->0, 0, 1152921504606846976)
    } else if number_before(s, "n"@) is Some {
        amount(number_before(s, "n"@)->0, -9, 1)
    } else if number_before(s, "u"@) is Some {
        amount(number_before(s, "u"@)->0, -6, 1)
    } else if number_before(s, "m"@) is Some {
        amount(number_before(s, "m"@)->0, -3, 1)
    } else if number_before(s, "k"@) is Some {
        amount(number_before(s, "k"@)->0, 3, 1)
    } else if number_before(s, "K"@) is Some {
        amount(number_before(s, "K"@)->0, 3, 1)
    } else if number_before(s, "M"@) is Some {
        amount(number_before(s, "M"@)->0, 6, 1)
    } else if number_before(s, "G"@) is Some {
        amount(number_before(s, "G"@)->0, 9, 1)
    } else if number_before(s, "T"@) is Some {
        amount(number_before(s, "T"@)->0, 12, 1)
    } else if number_before(s, "P"@) is Some {
        amount(number_before(s, "P"@)->0, 15, 1)
    } else if number_before(s, "E"@) is Some {
        amount(number_before(s, "E"@)->0, 18, 1)
    } else {
        amount(s, 0, 1)
    }
}

/// The bytes of a quantity: whole bytes, none for what is not a quantity or is
/// negative, and the largest integer of the machine for what is beyond it.
pub open spec fn quantity_bytes(s: Seq<char>) -> nat {
    if trimmed_text(s).len() == 0 {
        0
    } else {
        bytes_of(trimmed_text(s))
    }
}

fn strip_number<'a>(s: &'a str, suffix: &str) -> (r: Option<&'a str>)
    ensures
        opt_str(r) == number_before(s@, suffix@),
{
    match strip_suffix(s, suffix) {
        Some(n) => if parse_decimal(n).is_some() {
            Some(n)
        } else {
            None
        },
        None => None,
    }
}

/// Reads a quantity as bytes. It takes the binary suffixes (`Ki Mi Gi Ti Pi Ei`),
/// the decimal ones (`n u m k K M G T P E`), plain numbers, fractions and
/// exponents. What it does not understand is 0.
pub fn parse_bytes(s: &str) -> (r: u64)
    ensures
        r == quantity_bytes(s@),
{
    let s = trim(s);
    if s.unicode_len() == 0 {
        return 0;
    }
    if let Some(n) = strip_suffix(s, "Ki") {
        return read_amount(n, 0, 1024);
    }
    if let Some(n) = strip_suffix(s, "Mi") {
        return read_amount(n, 0, 1048576);
    }
    if let Some(n) = strip_suffix(s, "Gi") {
        return read_amount(n, 0, 1073741824);
    }
    if let Some(n) = strip_suffix(s, "Ti") {
        return read_amount(n, 0, 1099511627776);
    }
    if let Some(n) = strip_suffix(s, "Pi") {
        return read_amount(n, 0, 1125899906842624);
    }
    if let Some(n) = strip_suffix(s, "Ei") {
        return read_amount(n, 0, 1152921504606846976);
    }
    if let Some(n) = strip_number(s, "n") {
        return read_amount(n, -9, 1);
    }
    if let Some(n) = strip_number(s, "u") {
        return read_amount(n, -6, 1);
    }
    if let Some(n) = strip_number(s, "m") {
        return read_amount(n, -3, 1);
    }
    if let Some(n) = strip_number(s, "k") {
        return read_amount(n, 3, 1);
    }
    if let Some(n) = strip_number(s, "K") {
        return read_amount(n, 3, 1);
    }
    if let Some(n) = strip_number(s, "M") {
        return read_amount(n, 6, 1);
    }
    if let Some(n) = strip_number(s, "G") {
        return read_amount(n, 9, 1);
    }
    if let Some(n) = strip_number(s, "T") {
        return read_amount(n, 12, 1);
    }
    if let Some(n) = strip_number(s, "P") {
        return read_amount(n, 15, 1);
    }
    if let Some(n) = strip_number(s, "E") {
        return read_amount(n, 18, 1);
    }
    read_amount(s, 0, 1)
}

/// The thousandths of a core that a quantity of CPU is.
pub open spec fn quantity_millis(s: Seq<char>) -> nat {
    let t = trimmed_text(s);
    match without_suffix(t, "m"@) {
        Some(n) => amount(n, 0, 1),
        None => amount(t, 0, 1000),
    }
}

/// Reads a quantity of CPU as thousandths of a core.
pub fn parse_cpu_millis(s: &str) -> (r: u64)
    ensures
        r == quantity_millis(s@),
{
    let s = trim(s);
    match strip_suffix(s, "m") {
        Some(n) => read_amount(n, 0, 1),
        None => read_amount(s, 0, 1000),
    }
}

/// Bytes as a quantity, with the largest binary suffix that divides them.
pub open spec fn bytes_text(bytes: nat) -> Seq<char> {
    if bytes >= 1152921504606846976 && bytes % 1152921504606846976 == 0 {
        dec(bytes / 1152921504606846976) + "Ei"@
    } else if bytes >= 1125899906842624 && bytes % 1125899906842624 == 0 {
        dec(bytes / 1125899906842624) + "Pi"@
    } else if bytes >= 1099511627776 && bytes % 1099511627776 == 0 {
        dec(bytes / 1099511627776) + "Ti"@
    } else if bytes >= 1073741824 && bytes % 1073741824 == 0 {
        dec(bytes / 1073741824) + "Gi"@
    } else if bytes >= 1048576 && bytes % 1048576 == 0 {
        dec(bytes / 1048576) + "Mi"@
    } else if bytes >= 1024 && bytes % 1024 == 0 {
        dec(bytes / 1024) + "Ki"@
    } else {
        dec(bytes)
    }
}

/// Writes bytes as a quantity, with the largest binary suffix that divides them.
pub fn format_bytes(bytes: u64) -> (r: String)
    ensures
        r@ == bytes_text(bytes as nat),
{
    if bytes >= 1152921504606846976 && bytes % 1152921504606846976 == 0 {
        format_u64(bytes / 1152921504606846976).concat("Ei")
    } else if bytes >= 1125899906842624 && bytes % 1125899906842624 == 0 {
        format_u64(bytes / 1125899906842624).concat("Pi")
    } else if bytes >= 1099511627776 && bytes % 1099511627776 == 0 {
        format_u64(bytes / 1099511627776).concat("Ti")
    } else if bytes >= 1073741824 && bytes % 1073741824 == 0 {
        format_u64(bytes / 1073741824).concat("Gi")
    } else if bytes >= 1048576 && bytes % 1048576 == 0 {
        format_u64(bytes / 1048576).concat("Mi")
    } else if bytes >= 1024 && bytes % 1024 == 0 {
        format_u64(bytes / 1024).concat("Ki")
    } else {
        format_u64(bytes)
    }
}

// ---------------------------------------------------------------------------
// What quantities promise
// ---------------------------------------------------------------------------

proof fn lemma_untrimmed(s: Seq<char>)
    requires
        s.len() > 0,
        !is_white(s[0]),
        !is_white(s.last()),
    ensures
        trimmed_text(s) == s,
{
}

proof fn lemma_digits_hold_no(s: Seq<char>, c: char)
    requires
        all_digits(s),
        digit_of(c) is None,
    ensures
        !s.contains(c),
{
    if s.contains(c) {
        let i = s.index_of(c);
        assert(digit_of(s[i]) is Some);
    }
}

proof fn lemma_exponent_at_end(s: Seq<char>, from: int)
    requires
        all_digits(s),
        0 <= from <= s.len(),
    ensures
        exponent_at(s, from) == s.len(),
    decreases s.len() - from,
{
    if from < s.len() {
        assert(digit_of(s[from]) is Some);
        lemma_exponent_at_end(s, from + 1);
    }
}

/// A numeral is the number that it writes.
pub proof fn lemma_numeral_is_number(n: nat)
    ensures
        decimal_in(dec(n)) == Some(
            NumberView::Finite { negative: false, digits: dec(n), exponent: 0 },
        ),
        value(dec(n)) == n,
        all_digits(dec(n)),
        dec(n).len() > 0,
{
    let s = dec(n);
    law_numeral_reads_back(n);
    reveal_strlit("inf");
    reveal_strlit("infinity");
    reveal_strlit("nan");
    assert(digit_of(s[0]) is Some);
    let low = s.map_values(|c: char| crate::numeric::lower(c));
    assert(low[0] == crate::numeric::lower(s[0]));
    assert(low[0] == s[0]);
    assert("inf"@[0] == 'i');
    assert("infinity"@[0] == 'i');
    assert("nan"@[0] == 'n');
    lemma_exponent_at_end(s, 0);
    assert(s.take(s.len() as int) =~= s);
    lemma_digits_hold_no(s, '.');
    crate::text::lemma_find_from(s, seq!['.'], 0);
    match crate::text::find_from(s, seq!['.'], 0) {
        Some(i) => {
            assert(s.subrange(i, i + 1)[0] == s[i]);
            assert(s.contains('.'));
        },
        None => {},
    }
}

proof fn lemma_no_suffix(s: Seq<char>, suffix: Seq<char>)
    requires
        s.len() > 0,
        suffix.len() > 0,
        s.last() != suffix.last(),
    ensures
        !has_suffix(s, suffix),
{
    if has_suffix(s, suffix) {
        assert(s.subrange(s.len() - suffix.len(), s.len() as int).last() == s.last());
    }
}

proof fn lemma_other_suffix(n: Seq<char>, a: Seq<char>, b: Seq<char>)
    requires
        a.len() == 2,
        b.len() == 2,
        a[0] != b[0],
    ensures
        !has_suffix(n + a, b),
{
    let s = n + a;
    if has_suffix(s, b) {
        assert(s.subrange(s.len() - 2, s.len() as int)[0] == a[0]);
    }
}

proof fn lemma_own_suffix(n: Seq<char>, a: Seq<char>)
    ensures
        has_suffix(n + a, a),
        without_suffix(n + a, a) == Some(n),
{
    let s = n + a;
    assert(s.subrange(s.len() - a.len(), s.len() as int) =~= a);
    assert(s.take(s.len() - a.len()) =~= n);
}

/// The unit of a binary suffix.
pub open spec fn binary_unit(suffix: Seq<char>) -> Option<nat> {
    if suffix == "Ki"@ {
        Some(1024)
    } else if suffix == "Mi"@ {
        Some(1048576)
    } else if suffix == "Gi"@ {
        Some(1073741824)
    } else if suffix == "Ti"@ {
        Some(1099511627776)
    } else if suffix == "Pi"@ {
        Some(1125899906842624)
    } else if suffix == "Ei"@ {
        Some(1152921504606846976)
    } else {
        None
    }
}

/// A numeral with a binary suffix reads as their product, or as the largest integer of
/// the machine where that is beyond it.
pub proof fn law_a_binary_suffix_multiplies(n: nat, suffix: Seq<char>)
    requires
        binary_unit(suffix) is Some,
    ensures
        quantity_bytes(dec(n) + suffix) == (if n * binary_unit(suffix)->0 <= u64::MAX {
            n * binary_unit(suffix)->0
        } else {
            u64::MAX as nat
        }),
{
    reveal_strlit("Ki");
    reveal_strlit("Mi");
    reveal_strlit("Gi");
    reveal_strlit("Ti");
    reveal_strlit("Pi");
    reveal_strlit("Ei");
    let unit = binary_unit(suffix)->0;
    lemma_numeral_is_number(n);
    let s = dec(n) + suffix;
    assert(s[0] == dec(n)[0]);
    assert(digit_of(s[0]) is Some);
    assert(s.last() == suffix[1]);
    lemma_untrimmed(s);
    assert(crate::numeric::pow10(0) == 1);
    assert(n * unit * 1 == n * unit) by (nonlinear_arith);
    lemma_own_suffix(dec(n), suffix);
    if suffix != "Ki"@ {
        lemma_other_suffix(dec(n), suffix, "Ki"@);
        if suffix != "Mi"@ {
            lemma_other_suffix(dec(n), suffix, "Mi"@);
            if suffix != "Gi"@ {
                lemma_other_suffix(dec(n), suffix, "Gi"@);
                if suffix != "Ti"@ {
                    lemma_other_suffix(dec(n), suffix, "Ti"@);
                    if suffix != "Pi"@ {
                        lemma_other_suffix(dec(n), suffix, "Pi"@);
                    }
                }
            }
        }
    }
}

proof fn lemma_plain_bytes(b: nat)
    requires
        b <= u64::MAX,
    ensures
        quantity_bytes(dec(b)) == b,
{
    reveal_strlit("Ki");
    reveal_strlit("Mi");
    reveal_strlit("Gi");
    reveal_strlit("Ti");
    reveal_strlit("Pi");
    reveal_strlit("Ei");
    let s = dec(b);
    lemma_numeral_is_number(b);
    assert(digit_of(s[0]) is Some);
    assert(digit_of(s[s.len() - 1]) is Some);
    lemma_untrimmed(s);
    reveal_strlit("n");
    reveal_strlit("u");
    reveal_strlit("m");
    reveal_strlit("k");
    reveal_strlit("K");
    reveal_strlit("M");
    reveal_strlit("G");
    reveal_strlit("T");
    reveal_strlit("P");
    reveal_strlit("E");
    lemma_no_suffix(s, "Ki"@);
    lemma_no_suffix(s, "Mi"@);
    lemma_no_suffix(s, "Gi"@);
    lemma_no_suffix(s, "Ti"@);
    lemma_no_suffix(s, "Pi"@);
    lemma_no_suffix(s, "Ei"@);
    lemma_no_suffix(s, "n"@);
    lemma_no_suffix(s, "u"@);
    lemma_no_suffix(s, "m"@);
    lemma_no_suffix(s, "k"@);
    lemma_no_suffix(s, "K"@);
    lemma_no_suffix(s, "M"@);
    lemma_no_suffix(s, "G"@);
    lemma_no_suffix(s, "T"@);
    lemma_no_suffix(s, "P"@);
    lemma_no_suffix(s, "E"@);
    assert(crate::numeric::pow10(0) == 1);
    assert(b * 1 * 1 == b) by (nonlinear_arith);
}

proof fn lemma_binary_units()
    ensures
        binary_unit("Ki"@) == Some(1024nat),
        binary_unit("Mi"@) == Some(1048576nat),
        binary_unit("Gi"@) == Some(1073741824nat),
        binary_unit("Ti"@) == Some(1099511627776nat),
        binary_unit("Pi"@) == Some(1125899906842624nat),
        binary_unit("Ei"@) == Some(1152921504606846976nat),
{
    reveal_strlit("Ki");
    reveal_strlit("Mi");
    reveal_strlit("Gi");
    reveal_strlit("Ti");
    reveal_strlit("Pi");
    reveal_strlit("Ei");
    assert("Ki"@[0] == 'K');
    assert("Mi"@[0] == 'M');
    assert("Gi"@[0] == 'G');
    assert("Ti"@[0] == 'T');
    assert("Pi"@[0] == 'P');
    assert("Ei"@[0] == 'E');
}

proof fn lemma_whole_units(b: nat, suffix: Seq<char>, unit: nat)
    requires
        binary_unit(suffix) == Some(unit),
        b <= u64::MAX,
        b % unit == 0,
    ensures
        quantity_bytes(dec(b / unit) + suffix) == b,
{
    law_a_binary_suffix_multiplies(b / unit, suffix);
    assert((b / unit) * unit == b) by (nonlinear_arith)
        requires
            unit > 0,
            b % unit == 0,
    ;
}

/// Bytes that have been written as a quantity read back as the same bytes.
pub proof fn law_bytes_round_trip(bytes: u64)
    ensures
        quantity_bytes(bytes_text(bytes as nat)) == bytes,
{
    let b = bytes as nat;
    lemma_binary_units();
    if b >= 1152921504606846976 && b % 1152921504606846976 == 0 {
        lemma_whole_units(b, "Ei"@, 1152921504606846976);
    } else if b >= 1125899906842624 && b % 1125899906842624 == 0 {
        lemma_whole_units(b, "Pi"@, 1125899906842624);
    } else if b >= 1099511627776 && b % 1099511627776 == 0 {
        lemma_whole_units(b, "Ti"@, 1099511627776);
    } else if b >= 1073741824 && b % 1073741824 == 0 {
        lemma_whole_units(b, "Gi"@, 1073741824);
    } else if b >= 1048576 && b % 1048576 == 0 {
        lemma_whole_units(b, "Mi"@, 1048576);
    } else if b >= 1024 && b % 1024 == 0 {
        lemma_whole_units(b, "Ki"@, 1024);
    } else {
        lemma_plain_bytes(b);
    }
}

/// What is not a quantity asks for nothing.
pub proof fn law_nonsense_is_nothing(s: Seq<char>)
    requires
        forall|n: int|
            0 <= n <= trimmed_text(s).len() ==> decimal_in(#[trigger] trimmed_text(s).take(n)) is None,
    ensures
        quantity_bytes(s) == 0,
{
    let t = trimmed_text(s);
    assert(t.take(t.len() as int) =~= t);
}

/// The power of ten of a decimal suffix that multiplies.
pub open spec fn decimal_power(suffix: Seq<char>) -> Option<nat> {
    if suffix == "k"@ || suffix == "K"@ {
        Some(1000)
    } else if suffix == "M"@ {
        Some(1000000)
    } else if suffix == "G"@ {
        Some(1000000000)
    } else if suffix == "T"@ {
        Some(1000000000000)
    } else if suffix == "P"@ {
        Some(1000000000000000)
    } else if suffix == "E"@ {
        Some(1000000000000000000)
    } else {
        None
    }
}

proof fn lemma_powers()
    ensures
        crate::numeric::pow10(0) == 1,
        crate::numeric::pow10(3) == 1000,
        crate::numeric::pow10(6) == 1000000,
        crate::numeric::pow10(9) == 1000000000,
        crate::numeric::pow10(12) == 1000000000000,
        crate::numeric::pow10(15) == 1000000000000000,
        crate::numeric::pow10(18) == 1000000000000000000,
{
    reveal_with_fuel(crate::numeric::pow10, 20);
}

proof fn lemma_no_binary_suffix(s: Seq<char>)
    requires
        s.len() > 0,
        s.last() != 'i',
    ensures
        !has_suffix(s, "Ki"@),
        !has_suffix(s, "Mi"@),
        !has_suffix(s, "Gi"@),
        !has_suffix(s, "Ti"@),
        !has_suffix(s, "Pi"@),
        !has_suffix(s, "Ei"@),
{
    reveal_strlit("Ki");
    reveal_strlit("Mi");
    reveal_strlit("Gi");
    reveal_strlit("Ti");
    reveal_strlit("Pi");
    reveal_strlit("Ei");
    lemma_no_suffix(s, "Ki"@);
    lemma_no_suffix(s, "Mi"@);
    lemma_no_suffix(s, "Gi"@);
    lemma_no_suffix(s, "Ti"@);
    lemma_no_suffix(s, "Pi"@);
    lemma_no_suffix(s, "Ei"@);
}

proof fn lemma_decimal_suffixes()
    ensures
        "n"@ == seq!['n'],
        "u"@ == seq!['u'],
        "m"@ == seq!['m'],
        "k"@ == seq!['k'],
        "K"@ == seq!['K'],
        "M"@ == seq!['M'],
        "G"@ == seq!['G'],
        "T"@ == seq!['T'],
        "P"@ == seq!['P'],
        "E"@ == seq!['E'],
{
    reveal_strlit("n");
    reveal_strlit("u");
    reveal_strlit("m");
    reveal_strlit("k");
    reveal_strlit("K");
    reveal_strlit("M");
    reveal_strlit("G");
    reveal_strlit("T");
    reveal_strlit("P");
    reveal_strlit("E");
    assert("n"@ =~= seq!['n']);
    assert("u"@ =~= seq!['u']);
    assert("m"@ =~= seq!['m']);
    assert("k"@ =~= seq!['k']);
    assert("K"@ =~= seq!['K']);
    assert("M"@ =~= seq!['M']);
    assert("G"@ =~= seq!['G']);
    assert("T"@ =~= seq!['T']);
    assert("P"@ =~= seq!['P']);
    assert("E"@ =~= seq!['E']);
}

proof fn lemma_only_suffix(n: nat, c: char, d: char)
    requires
        c != d,
    ensures
        number_before(dec(n) + seq![c], seq![d]) is None,
{
    lemma_no_suffix(dec(n) + seq![c], seq![d]);
}

/// A numeral with a decimal suffix reads as their product, or as the largest integer of the
/// machine where that is beyond it.
pub proof fn law_a_decimal_suffix_multiplies(n: nat, suffix: Seq<char>)
    requires
        decimal_power(suffix) is Some,
    ensures
        quantity_bytes(dec(n) + suffix) == (if n * decimal_power(suffix)->0 <= u64::MAX {
            n * decimal_power(suffix)->0
        } else {
            u64::MAX as nat
        }),
{
    lemma_decimal_suffixes();
    lemma_powers();
    lemma_numeral_is_number(n);
    let c = suffix[0];
    let s = dec(n) + suffix;
    assert(suffix == seq![c]);
    assert(digit_of(s[0]) is Some);
    assert(s.last() == c);
    lemma_untrimmed(s);
    lemma_no_binary_suffix(s);
    lemma_own_suffix(dec(n), suffix);
    lemma_only_suffix(n, c, 'n');
    lemma_only_suffix(n, c, 'u');
    lemma_only_suffix(n, c, 'm');
    if c != 'k' {
        lemma_only_suffix(n, c, 'k');
    }
    if c != 'K' {
        lemma_only_suffix(n, c, 'K');
    }
    if c != 'M' {
        lemma_only_suffix(n, c, 'M');
    }
    if c != 'G' {
        lemma_only_suffix(n, c, 'G');
    }
    if c != 'T' {
        lemma_only_suffix(n, c, 'T');
    }
    if c != 'P' {
        lemma_only_suffix(n, c, 'P');
    }
    assert(n * 1 == n) by (nonlinear_arith);
}

/// A thousandth of a byte is no byte: `m` reads as the whole bytes.
pub proof fn law_thousandths_are_cut(n: nat)
    requires
        n <= u64::MAX,
    ensures
        quantity_bytes(dec(n) + "m"@) == n / 1000,
{
    lemma_decimal_suffixes();
    lemma_powers();
    lemma_numeral_is_number(n);
    let s = dec(n) + "m"@;
    assert(digit_of(s[0]) is Some);
    assert(s.last() == 'm');
    lemma_untrimmed(s);
    lemma_no_binary_suffix(s);
    lemma_own_suffix(dec(n), "m"@);
    lemma_only_suffix(n, 'm', 'n');
    lemma_only_suffix(n, 'm', 'u');
    assert(n * 1 == n) by (nonlinear_arith);
    assert(n / 1000 <= n);
}

/// CPU is told in cores, or with an `m` in thousandths of a core.
pub proof fn law_cpu_is_told_in_cores(n: nat)
    requires
        n * 1000 <= u64::MAX,
    ensures
        quantity_millis(dec(n)) == n * 1000,
        quantity_millis(dec(n) + "m"@) == n,
{
    lemma_decimal_suffixes();
    lemma_powers();
    lemma_numeral_is_number(n);
    let whole = dec(n);
    assert(digit_of(whole[0]) is Some);
    assert(digit_of(whole[whole.len() - 1]) is Some);
    lemma_untrimmed(whole);
    lemma_no_suffix(whole, "m"@);
    let s = whole + "m"@;
    assert(digit_of(s[0]) is Some);
    assert(s.last() == 'm');
    lemma_untrimmed(s);
    lemma_own_suffix(whole, "m"@);
    assert(n * 1000 * 1 == n * 1000) by (nonlinear_arith);
    assert(n * 1 * 1 == n) by (nonlinear_arith);
}

} // verus!
