//! Decoded query parameters.

use vstd::prelude::*;
use vstd::string::*;

use crate::outside::pair_texts;
use crate::text::{opt_str, same};

verus! {

/// The value of the first parameter of a name.
pub open spec fn first_value(pairs: Seq<(Seq<char>, Seq<char>)>, key: Seq<char>) -> Option<Seq<char>>
    decreases pairs.len(),
{
    if pairs.len() == 0 {
        None
    } else if pairs[0].0 == key {
        Some(pairs[0].1)
    } else {
        first_value(pairs.skip(1), key)
    }
}

/// The value of the last parameter of a name.
pub open spec fn last_value(pairs: Seq<(Seq<char>, Seq<char>)>, key: Seq<char>) -> Option<Seq<char>>
    decreases pairs.len(),
{
    if pairs.len() == 0 {
        None
    } else if pairs.last().0 == key {
        Some(pairs.last().1)
    } else {
        last_value(pairs.drop_last(), key)
    }
}

/// The value of the first parameter of a name.
pub fn first_param<'a>(pairs: &'a Vec<(String, String)>, key: &str) -> (r: Option<&'a str>)
    ensures
        opt_str(r) == first_value(pair_texts(pairs@), key@),
{
    let ghost ps = pair_texts(pairs@);
    let mut i: usize = 0;
    assert(ps.skip(0) =~= ps);
    while i < pairs.len()
        invariant
            i <= pairs.len(),
            ps == pair_texts(pairs@),
            first_value(ps, key@) == first_value(ps.skip(i as int), key@),
        decreases pairs.len() - i,
    {
        proof {
            assert(ps.skip(i as int)[0] == ps[i as int]);
            assert(ps.skip(i as int).skip(1) =~= ps.skip(i + 1));
        }
        if same(pairs[i].0.as_str(), key) {
            return Some(pairs[i].1.as_str());
        }
        i = i + 1;
    }
    None
}

/// The value of the last parameter of a name.
pub fn last_param<'a>(pairs: &'a Vec<(String, String)>, key: &str) -> (r: Option<&'a str>)
    ensures
        opt_str(r) == last_value(pair_texts(pairs@), key@),
{
    let ghost ps = pair_texts(pairs@);
    let mut n: usize = pairs.len();
    assert(ps.take(n as int) =~= ps);
    while n > 0
        invariant
            n <= pairs.len(),
            ps == pair_texts(pairs@),
            last_value(ps, key@) == last_value(ps.take(n as int), key@),
        decreases n,
    {
        proof {
            assert(ps.take(n as int).last() == ps[n - 1]);
            assert(ps.take(n as int).drop_last() =~= ps.take(n - 1));
        }
        if same(pairs[n - 1].0.as_str(), key) {
            return Some(pairs[n - 1].1.as_str());
        }
        n = n - 1;
    }
    None
}

/// The first value of a key is that of a pair before which none has the key.
pub proof fn law_the_first_value(pairs: Seq<(Seq<char>, Seq<char>)>, key: Seq<char>)
    ensures
        first_value(pairs, key) is None <==> forall|i: int|
            0 <= i < pairs.len() ==> (#[trigger] pairs[i]).0 != key,
        first_value(pairs, key) is Some ==> exists|i: int|
            0 <= i < pairs.len() && #[trigger] pairs[i] == (key, first_value(pairs, key)->0) && (
            forall|j: int| 0 <= j < i ==> (#[trigger] pairs[j]).0 != key),
    decreases pairs.len(),
{
    if pairs.len() > 0 {
        let rest = pairs.skip(1);
        law_the_first_value(rest, key);
        if pairs[0].0 == key {
            assert(pairs[0] == (key, first_value(pairs, key)->0));
        } else {
            assert(forall|i: int| 0 <= i < rest.len() ==> #[trigger] rest[i] == pairs[i + 1]);
            assert(forall|i: int| 1 <= i < pairs.len() ==> #[trigger] pairs[i] == rest[i - 1]);
            if first_value(rest, key) is Some {
                let i = choose|i: int|
                    0 <= i < rest.len() && #[trigger] rest[i] == (key, first_value(rest, key)->0)
                        && (forall|j: int| 0 <= j < i ==> (#[trigger] rest[j]).0 != key);
                assert(pairs[i + 1] == (key, first_value(pairs, key)->0));
            }
        }
    }
}

/// The last value of a key is that of a pair behind which none has the key.
pub proof fn law_the_last_value(pairs: Seq<(Seq<char>, Seq<char>)>, key: Seq<char>)
    ensures
        last_value(pairs, key) is None <==> forall|i: int|
            0 <= i < pairs.len() ==> (#[trigger] pairs[i]).0 != key,
        last_value(pairs, key) is Some ==> exists|i: int|
            0 <= i < pairs.len() && #[trigger] pairs[i] == (key, last_value(pairs, key)->0) && (
            forall|j: int| i < j < pairs.len() ==> (#[trigger] pairs[j]).0 != key),
    decreases pairs.len(),
{
    if pairs.len() > 0 {
        let rest = pairs.drop_last();
        law_the_last_value(rest, key);
        assert(pairs[pairs.len() - 1] == pairs.last());
        if pairs.last().0 == key {
            assert(pairs[pairs.len() - 1] == (key, last_value(pairs, key)->0));
        } else {
            assert(forall|i: int| 0 <= i < rest.len() ==> #[trigger] rest[i] == pairs[i]);
            assert(forall|i: int| 0 <= i < pairs.len() - 1 ==> #[trigger] pairs[i] == rest[i]);
            if last_value(rest, key) is Some {
                let i = choose|i: int|
                    0 <= i < rest.len() && #[trigger] rest[i] == (key, last_value(rest, key)->0) && (
                    forall|j: int| i < j < rest.len() ==> (#[trigger] rest[j]).0 != key);
                assert(pairs[i] == (key, last_value(pairs, key)->0));
            }
        }
    }
}

} // verus!
