//! IPv4 addresses as numbers and as text.

use vstd::arithmetic::div_mod::lemma_fundamental_div_mod_converse;
use vstd::prelude::*;
use vstd::string::*;

use crate::decimal::{
    all_digits, dec, digit_of, format_u64, law_numeral_reads_back, natural, parse_unsigned,
};
use crate::text::{lemma_split_push, lemma_split_whole, split, split_on, texts};

verus! {

/// The byte that a part of an address spells: one to three digits, without
/// leading zeros.
pub open spec fn octet(s: Seq<char>) -> Option<nat> {
    match natural(s) {
        Some(n) => if s.len() <= 3 && n <= 255 && (s.len() == 1 || s[0] != '0') {
            Some(n)
        } else {
            None
        },
        None => None,
    }
}

/// The address of four bytes.
pub open spec fn of_octets(a: nat, b: nat, c: nat, d: nat) -> nat {
    a * 16777216 + b * 65536 + c * 256 + d
}

/// The address that a text spells.
pub open spec fn address(s: Seq<char>) -> Option<nat> {
    let p = split(s, '.');
    if p.len() != 4 {
        None
    } else {
        match (octet(p[0]), octet(p[1]), octet(p[2]), octet(p[3])) {
            (Some(a), Some(b), Some(c), Some(d)) => Some(of_octets(a, b, c, d)),
            _ => None,
        }
    }
}

/// The text of an address.
pub open spec fn address_text(v: nat) -> Seq<char> {
    dec(v / 16777216) + "."@ + dec(v / 65536 % 256) + "."@ + dec(v / 256 % 256) + "."@ + dec(
        v % 256,
    )
}

fn parse_octet(s: &str) -> (r: Option<u32>)
    ensures
        match r {
            Some(n) => octet(s@) == Some(n as nat) && n <= 255,
            None => octet(s@) is None,
        },
{
    let len: usize = s.unicode_len();
    if len == 0 || len > 3 {
        return None;
    }
    if s.get_char(0) == '+' {
        return None;
    }
    if len > 1 && s.get_char(0) == '0' {
        return None;
    }
    match parse_unsigned(s, 255) {
        Some(n) => Some(n as u32),
        None => None,
    }
}

/// Reads an address.
pub fn parse_address(s: &str) -> (r: Option<u32>)
    ensures
        match r {
            Some(v) => address(s@) == Some(v as nat),
            None => address(s@) is None,
        },
{
    let p = split_on(s, '.');
    assert(texts(p@).len() == p@.len());
    if p.len() != 4 {
        return None;
    }
    assert(texts(p@)[0] == p@[0]@ && texts(p@)[1] == p@[1]@);
    assert(texts(p@)[2] == p@[2]@ && texts(p@)[3] == p@[3]@);
    match (
        parse_octet(p[0].as_str()),
        parse_octet(p[1].as_str()),
        parse_octet(p[2].as_str()),
        parse_octet(p[3].as_str()),
    ) {
        (Some(a), Some(b), Some(c), Some(d)) => Some(a * 16777216 + b * 65536 + c * 256 + d),
        _ => None,
    }
}

/// Writes an address.
pub fn format_address(v: u32) -> (r: String)
    ensures
        r@ == address_text(v as nat),
{
    format_u64((v / 16777216) as u64).concat(".").concat(
        format_u64((v / 65536 % 256) as u64).as_str(),
    ).concat(".").concat(format_u64((v / 256 % 256) as u64).as_str()).concat(".").concat(
        format_u64((v % 256) as u64).as_str(),
    )
}

proof fn lemma_octet(n: nat)
    requires
        n <= 255,
    ensures
        octet(dec(n)) == Some(n),
        !dec(n).contains('.'),
{
    law_numeral_reads_back(n);
    reveal_with_fuel(dec, 4);
    assert(dec(n).len() <= 3);
    assert(dec(n).len() == 1 || dec(n)[0] != '0');
    assert(all_digits(dec(n)));
    if dec(n).contains('.') {
        let i = choose|i: int| 0 <= i < dec(n).len() && dec(n)[i] == '.';
        assert(digit_of(dec(n)[i]) is Some);
    }
}

/// An address reads back from its text.
pub proof fn law_address_reads_back(v: nat)
    requires
        v <= u32::MAX,
    ensures
        address(address_text(v)) == Some(v),
{
    let a = v / 16777216;
    let b = v / 65536 % 256;
    let c = v / 256 % 256;
    let d = v % 256;
    assert(a <= 255 && b <= 255 && c <= 255 && d <= 255);
    assert(of_octets(a, b, c, d) == v);
    lemma_octet(a);
    lemma_octet(b);
    lemma_octet(c);
    lemma_octet(d);
    reveal_strlit(".");
    assert("."@ =~= seq!['.']);
    let s1 = dec(a);
    let s2 = s1.push('.') + dec(b);
    let s3 = s2.push('.') + dec(c);
    let s4 = s3.push('.') + dec(d);
    lemma_split_whole(s1, '.');
    lemma_split_push(s1, '.', dec(b));
    lemma_split_push(s2, '.', dec(c));
    lemma_split_push(s3, '.', dec(d));
    assert(address_text(v) =~= s4);
    let p = split(s4, '.');
    assert(p[0] == dec(a) && p[1] == dec(b) && p[2] == dec(c) && p[3] == dec(d));
}

/// Two addresses have two texts.
pub proof fn law_addresses_differ(v: nat, w: nat)
    requires
        v <= u32::MAX,
        w <= u32::MAX,
        address_text(v) == address_text(w),
    ensures
        v == w,
{
    law_address_reads_back(v);
    law_address_reads_back(w);
}

/// An address is written as its four bytes, the highest first.
pub proof fn law_an_address_is_four_bytes(a: nat, b: nat, c: nat, d: nat)
    requires
        a <= 255,
        b <= 255,
        c <= 255,
        d <= 255,
    ensures
        address_text(a * 16777216 + b * 65536 + c * 256 + d) == dec(a) + "."@ + dec(b) + "."@ + dec(
            c,
        ) + "."@ + dec(d),
{
    let v = a * 16777216 + b * 65536 + c * 256 + d;
    let w = a * 65536 + b * 256 + c;
    let x = a * 256 + b;
    lemma_fundamental_div_mod_converse(v as int, 256, w as int, d as int);
    lemma_fundamental_div_mod_converse(w as int, 256, x as int, c as int);
    lemma_fundamental_div_mod_converse(x as int, 256, a as int, b as int);
    lemma_fundamental_div_mod_converse(v as int, 65536, x as int, (c * 256 + d) as int);
    lemma_fundamental_div_mod_converse(v as int, 16777216, a as int, (b * 65536 + c * 256 + d) as int);
}

/// A byte of an address is below two hundred and fifty-six and has no zero in front.
pub proof fn law_what_is_a_byte_of_an_address(n: nat)
    ensures
        n <= 255 ==> octet(dec(n)) == Some(n),
        n > 255 ==> octet(dec(n)) is None,
        octet(seq!['0'] + dec(n)) is None,
{
    law_numeral_reads_back(n);
    if n <= 255 {
        lemma_octet(n);
    }
}

} // verus!
