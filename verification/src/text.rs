//! Text: what the rest of the library needs to know of strings.
//!
//! A string is modelled by its characters. Every function here is proved
//! against that model; the only operation taken on trust is `String::push`.

use vstd::prelude::*;
use vstd::string::*;

verus! {

// ---------------------------------------------------------------------------
// The model
// ---------------------------------------------------------------------------

/// `p` stands in `s` at position `i`.
pub open spec fn occurs_at(s: Seq<char>, p: Seq<char>, i: int) -> bool {
    0 <= i && i + p.len() <= s.len() && s.subrange(i, i + p.len()) == p
}

/// `p` stands somewhere in `s`.
pub open spec fn has_sub(s: Seq<char>, p: Seq<char>) -> bool {
    exists|i: int| occurs_at(s, p, i)
}

/// `s` begins with `p`.
pub open spec fn has_prefix(s: Seq<char>, p: Seq<char>) -> bool {
    occurs_at(s, p, 0)
}

/// `s` ends with `p`.
pub open spec fn has_suffix(s: Seq<char>, p: Seq<char>) -> bool {
    occurs_at(s, p, s.len() - p.len())
}

/// `s` without the prefix `p`, where it has one.
pub open spec fn without_prefix(s: Seq<char>, p: Seq<char>) -> Option<Seq<char>> {
    if has_prefix(s, p) {
        Some(s.skip(p.len() as int))
    } else {
        None
    }
}

/// `s` without the suffix `p`, where it has one.
pub open spec fn without_suffix(s: Seq<char>, p: Seq<char>) -> Option<Seq<char>> {
    if has_suffix(s, p) {
        Some(s.take(s.len() - p.len()))
    } else {
        None
    }
}

/// The first position at or after `from` where `p` stands in `s`.
pub open spec fn find_from(s: Seq<char>, p: Seq<char>, from: int) -> Option<int>
    decreases s.len() - from + 1,
{
    if from + p.len() > s.len() {
        None
    } else if occurs_at(s, p, from) {
        Some(from)
    } else {
        find_from(s, p, from + 1)
    }
}

/// The last position at or before `to` where `p` stands in `s`.
pub open spec fn rfind_to(s: Seq<char>, p: Seq<char>, to: int) -> Option<int>
    decreases to + 1,
{
    if to < 0 {
        None
    } else if occurs_at(s, p, to) {
        Some(to)
    } else {
        rfind_to(s, p, to - 1)
    }
}

/// The last position where `p` stands in `s`.
pub open spec fn rfind(s: Seq<char>, p: Seq<char>) -> Option<int> {
    rfind_to(s, p, s.len() - p.len())
}

/// The pieces of `s` between the occurrences of `c`; always at least one.
pub open spec fn split(s: Seq<char>, c: char) -> Seq<Seq<char>>
    decreases s.len(),
{
    if s.len() == 0 {
        seq![Seq::empty()]
    } else {
        let pieces = split(s.drop_last(), c);
        if s.last() == c {
            pieces.push(Seq::empty())
        } else {
            pieces.drop_last().push(pieces.last().push(s.last()))
        }
    }
}

/// The pieces put together again, with `sep` between them.
pub open spec fn join(pieces: Seq<Seq<char>>, sep: Seq<char>) -> Seq<char>
    decreases pieces.len(),
{
    if pieces.len() == 0 {
        Seq::empty()
    } else if pieces.len() == 1 {
        pieces[0]
    } else {
        join(pieces.drop_last(), sep) + sep + pieces.last()
    }
}

/// Both sides of the first `c` in `s`, where there is one.
pub open spec fn split_once(s: Seq<char>, c: char) -> Option<(Seq<char>, Seq<char>)> {
    match find_from(s, seq![c], 0) {
        Some(i) => Some((s.take(i), s.skip(i + 1))),
        None => None,
    }
}

/// The pieces that are not empty.
pub open spec fn nonempty(pieces: Seq<Seq<char>>) -> Seq<Seq<char>>
    decreases pieces.len(),
{
    if pieces.len() == 0 {
        Seq::empty()
    } else {
        let rest = nonempty(pieces.drop_last());
        if pieces.last().len() == 0 {
            rest
        } else {
            rest.push(pieces.last())
        }
    }
}

/// The Unicode `White_Space` property.
pub open spec fn is_white(c: char) -> bool {
    ||| '\u{9}' <= c <= '\u{d}'
    ||| c == ' '
    ||| c == '\u{85}'
    ||| c == '\u{a0}'
    ||| c == '\u{1680}'
    ||| '\u{2000}' <= c <= '\u{200a}'
    ||| c == '\u{2028}'
    ||| c == '\u{2029}'
    ||| c == '\u{202f}'
    ||| c == '\u{205f}'
    ||| c == '\u{3000}'
}

/// `s` without white space at its front.
pub open spec fn trim_front(s: Seq<char>) -> Seq<char>
    decreases s.len(),
{
    if s.len() > 0 && is_white(s[0]) {
        trim_front(s.skip(1))
    } else {
        s
    }
}

/// `s` without white space at its end.
pub open spec fn trim_back(s: Seq<char>) -> Seq<char>
    decreases s.len(),
{
    if s.len() > 0 && is_white(s.last()) {
        trim_back(s.drop_last())
    } else {
        s
    }
}

/// `s` without white space at either end.
pub open spec fn trimmed_text(s: Seq<char>) -> Seq<char> {
    trim_back(trim_front(s))
}

/// `s` without the `c`s at its front.
pub open spec fn drop_front(s: Seq<char>, c: char) -> Seq<char>
    decreases s.len(),
{
    if s.len() > 0 && s[0] == c {
        drop_front(s.skip(1), c)
    } else {
        s
    }
}

/// `s` without the `c`s at its end.
pub open spec fn drop_back(s: Seq<char>, c: char) -> Seq<char>
    decreases s.len(),
{
    if s.len() > 0 && s.last() == c {
        drop_back(s.drop_last(), c)
    } else {
        s
    }
}

/// `a` comes before `b` in the order of their characters.
pub open spec fn before(a: Seq<char>, b: Seq<char>) -> bool
    decreases a.len(),
{
    if b.len() == 0 {
        false
    } else if a.len() == 0 {
        true
    } else if a[0] != b[0] {
        a[0] < b[0]
    } else {
        before(a.skip(1), b.skip(1))
    }
}

/// The strings of `v` as texts.
pub open spec fn texts(v: Seq<String>) -> Seq<Seq<char>> {
    v.map_values(|s: String| s@)
}

/// An optional string as an optional text.
pub open spec fn opt_text(o: Option<String>) -> Option<Seq<char>> {
    match o {
        Some(s) => Some(s@),
        None => None,
    }
}

/// An optional string slice as an optional text.
pub open spec fn opt_str(o: Option<&str>) -> Option<Seq<char>> {
    match o {
        Some(s) => Some(s@),
        None => None,
    }
}

// ---------------------------------------------------------------------------
// Building and comparing
// ---------------------------------------------------------------------------

/// Appends one character with `String::push`.
#[verifier::external_body]
pub(crate) fn push_char(s: &mut String, c: char)
    ensures
        final(s)@ == old(s)@.push(c),
{
    s.push(c)
}

/// The characters of `s`, one by one.
pub fn chars_of(s: &str) -> (r: Vec<char>)
    ensures
        r@ == s@,
{
    let mut out: Vec<char> = Vec::new();
    for c in it: s.chars()
        invariant
            it.seq() == s@,
            out@ == s@.take(it.index() as int),
    {
        proof {
            assert(s@.take(it.index() as int).push(c) =~= s@.take(it.index() + 1));
        }
        out.push(c);
    }
    assert(s@.take(s@.len() as int) =~= s@);
    out
}

/// Are the two texts the same?
pub fn same(a: &str, b: &str) -> (r: bool)
    ensures
        r == (a@ == b@),
{
    let x = chars_of(a);
    let y = chars_of(b);
    if x.len() != y.len() {
        return false;
    }
    let mut i: usize = 0;
    while i < x.len()
        invariant
            i <= x.len(),
            x@ == a@,
            y@ == b@,
            x.len() == y.len(),
            forall|j: int| 0 <= j < i ==> x@[j] == y@[j],
        decreases x.len() - i,
    {
        if x[i] != y[i] {
            return false;
        }
        i = i + 1;
    }
    assert(a@ =~= b@);
    true
}

/// Does `a` come before `b`?
pub fn is_before(a: &str, b: &str) -> (r: bool)
    ensures
        r == before(a@, b@),
{
    let x = chars_of(a);
    let y = chars_of(b);
    let mut i: usize = 0;
    proof {
        assert(x@.skip(0) =~= x@);
        assert(y@.skip(0) =~= y@);
    }
    while i < x.len() && i < y.len() && x[i] == y[i]
        invariant
            i <= x.len(),
            i <= y.len(),
            x@ == a@,
            y@ == b@,
            before(a@, b@) == before(x@.skip(i as int), y@.skip(i as int)),
        decreases x.len() - i,
    {
        proof {
            assert(x@.skip(i as int).skip(1) =~= x@.skip(i + 1));
            assert(y@.skip(i as int).skip(1) =~= y@.skip(i + 1));
        }
        i = i + 1;
    }
    if i >= y.len() {
        false
    } else if i >= x.len() {
        true
    } else {
        x[i] < y[i]
    }
}

// ---------------------------------------------------------------------------
// Searching
// ---------------------------------------------------------------------------

/// Does `p` stand in `v` at `i`?
fn match_at(v: &Vec<char>, p: &Vec<char>, i: usize) -> (r: bool)
    requires
        i <= v.len(),
    ensures
        r == occurs_at(v@, p@, i as int),
{
    if p.len() > v.len() - i {
        return false;
    }
    let mut j: usize = 0;
    while j < p.len()
        invariant
            j <= p.len(),
            i + p.len() <= v.len(),
            forall|k: int| 0 <= k < j ==> v@[i + k] == p@[k],
        decreases p.len() - j,
    {
        if v[i + j] != p[j] {
            proof {
                assert(v@.subrange(i as int, i + p.len())[j as int] == v@[i + j]);
            }
            return false;
        }
        j = j + 1;
    }
    assert(v@.subrange(i as int, i + p.len()) =~= p@);
    true
}

/// `str::starts_with` for a text.
pub fn starts_with(s: &str, p: &str) -> (r: bool)
    ensures
        r == has_prefix(s@, p@),
{
    let v = chars_of(s);
    let q = chars_of(p);
    match_at(&v, &q, 0)
}

/// `str::ends_with` for a text.
pub fn ends_with(s: &str, p: &str) -> (r: bool)
    ensures
        r == has_suffix(s@, p@),
{
    let v = chars_of(s);
    let q = chars_of(p);
    if q.len() > v.len() {
        return false;
    }
    match_at(&v, &q, v.len() - q.len())
}

/// The first place of `p` in `s`, counted in characters.
pub fn find(s: &str, p: &str) -> (r: Option<usize>)
    ensures
        match r {
            Some(i) => find_from(s@, p@, 0) == Some(i as int) && i + p@.len() <= s@.len(),
            None => find_from(s@, p@, 0) is None,
        },
{
    let v = chars_of(s);
    let q = chars_of(p);
    let mut i: usize = 0;
    while i < v.len() && q.len() <= v.len() - i
        invariant
            i <= v.len(),
            v@ == s@,
            q@ == p@,
            find_from(s@, p@, 0) == find_from(s@, p@, i as int),
        decreases v.len() - i,
    {
        if match_at(&v, &q, i) {
            return Some(i);
        }
        i = i + 1;
    }
    if q.len() <= v.len() - i {
        assert(s@.subrange(i as int, i as int) =~= p@);
        Some(i)
    } else {
        None
    }
}

/// `str::contains` for a text.
pub fn contains(s: &str, p: &str) -> (r: bool)
    ensures
        r == has_sub(s@, p@),
{
    proof {
        lemma_find_from(s@, p@, 0);
    }
    match find(s, p) {
        Some(_) => true,
        None => false,
    }
}

/// Where `find_from` stops: at the first occurrence, or past all of them.
pub proof fn lemma_find_from(s: Seq<char>, p: Seq<char>, from: int)
    requires
        0 <= from,
    ensures
        match find_from(s, p, from) {
            Some(i) => from <= i && occurs_at(s, p, i) && forall|j: int|
                from <= j < i ==> !occurs_at(s, p, j),
            None => forall|j: int| from <= j ==> !occurs_at(s, p, j),
        },
    decreases s.len() - from + 1,
{
    if from + p.len() > s.len() {
    } else if occurs_at(s, p, from) {
    } else {
        lemma_find_from(s, p, from + 1);
    }
}

/// The last place of `p` in `s`, counted in characters.
pub fn rfind_text(s: &str, p: &str) -> (r: Option<usize>)
    ensures
        match r {
            Some(i) => rfind(s@, p@) == Some(i as int) && i + p@.len() <= s@.len(),
            None => rfind(s@, p@) is None,
        },
{
    let v = chars_of(s);
    let q = chars_of(p);
    if q.len() > v.len() {
        return None;
    }
    let mut i: usize = v.len() - q.len();
    loop
        invariant
            i + q.len() <= v.len(),
            v@ == s@,
            q@ == p@,
            rfind(s@, p@) == rfind_to(s@, p@, i as int),
        decreases i,
    {
        if match_at(&v, &q, i) {
            return Some(i);
        }
        if i == 0 {
            assert(rfind_to(s@, p@, -1) is None);
            return None;
        }
        i = i - 1;
    }
}

/// `str::strip_prefix` for a text.
pub fn strip_prefix<'a>(s: &'a str, p: &str) -> (r: Option<&'a str>)
    ensures
        opt_str(r) == without_prefix(s@, p@),
{
    if starts_with(s, p) {
        let n: usize = p.unicode_len();
        let m: usize = s.unicode_len();
        let rest = s.substring_char(n, m);
        assert(rest@ =~= s@.skip(n as int));
        Some(rest)
    } else {
        None
    }
}

/// `str::strip_suffix` for a text.
pub fn strip_suffix<'a>(s: &'a str, p: &str) -> (r: Option<&'a str>)
    ensures
        opt_str(r) == without_suffix(s@, p@),
{
    if ends_with(s, p) {
        let n: usize = p.unicode_len();
        let m: usize = s.unicode_len();
        let rest = s.substring_char(0, m - n);
        assert(rest@ =~= s@.take(m - n));
        Some(rest)
    } else {
        None
    }
}

// ---------------------------------------------------------------------------
// Splitting and joining
// ---------------------------------------------------------------------------

/// `str::split` at a character.
pub fn split_on(s: &str, c: char) -> (r: Vec<String>)
    ensures
        texts(r@) == split(s@, c),
        r.len() >= 1,
{
    let v = chars_of(s);
    let mut out: Vec<String> = Vec::new();
    let mut cur = String::new();
    let mut i: usize = 0;
    proof {
        assert(texts(out@).push(cur@) =~= split(v@.take(0), c));
    }
    while i < v.len()
        invariant
            i <= v.len(),
            v@ == s@,
            texts(out@).push(cur@) == split(v@.take(i as int), c),
        decreases v.len() - i,
    {
        proof {
            assert(v@.take(i + 1).drop_last() =~= v@.take(i as int));
            assert(v@.take(i + 1).last() == v@[i as int]);
            assert(texts(out@).push(cur@).drop_last() =~= texts(out@));
        }
        let ghost old_out = texts(out@);
        let ghost old_cur = cur@;
        if v[i] == c {
            out.push(cur);
            cur = String::new();
            assert(texts(out@) =~= old_out.push(old_cur));
            assert(cur@ =~= Seq::<char>::empty());
        } else {
            push_char(&mut cur, v[i]);
        }
        i = i + 1;
    }
    assert(v@.take(i as int) =~= s@);
    let ghost old_out = texts(out@);
    let ghost old_cur = cur@;
    out.push(cur);
    assert(texts(out@) =~= old_out.push(old_cur));
    out
}

/// Leaves out the empty pieces.
pub fn keep_nonempty(pieces: Vec<String>) -> (r: Vec<String>)
    ensures
        texts(r@) == nonempty(texts(pieces@)),
{
    let mut out: Vec<String> = Vec::new();
    let mut i: usize = 0;
    while i < pieces.len()
        invariant
            i <= pieces.len(),
            texts(out@) == nonempty(texts(pieces@).take(i as int)),
        decreases pieces.len() - i,
    {
        proof {
            assert(texts(pieces@).take(i + 1).drop_last() =~= texts(pieces@).take(i as int));
            assert(texts(pieces@).take(i + 1).last() == pieces@[i as int]@);
        }
        let ghost before_push = texts(out@);
        if pieces[i].as_str().unicode_len() > 0 {
            out.push(pieces[i].clone());
            assert(texts(out@) =~= before_push.push(pieces@[i as int]@));
        }
        i = i + 1;
    }
    assert(texts(pieces@).take(i as int) =~= texts(pieces@));
    out
}

/// `slice::join` for texts.
pub fn join_with(pieces: &Vec<String>, sep: &str) -> (r: String)
    ensures
        r@ == join(texts(pieces@), sep@),
{
    let mut out = String::new();
    let mut i: usize = 0;
    while i < pieces.len()
        invariant
            i <= pieces.len(),
            out@ == join(texts(pieces@).take(i as int), sep@),
        decreases pieces.len() - i,
    {
        proof {
            assert(texts(pieces@).take(i + 1).drop_last() =~= texts(pieces@).take(i as int));
            assert(texts(pieces@).take(i + 1).last() == pieces@[i as int]@);
        }
        if i > 0 {
            out.append(sep);
        }
        out.append(pieces[i].as_str());
        proof {
            if i == 0 {
                assert(out@ =~= pieces@[0]@);
            }
        }
        i = i + 1;
    }
    assert(texts(pieces@).take(i as int) =~= texts(pieces@));
    out
}

/// `str::split_once` at a character.
pub fn split_at_first<'a>(s: &'a str, c: char) -> (r: Option<(&'a str, &'a str)>)
    ensures
        match r {
            Some((a, b)) => split_once(s@, c) == Some((a@, b@)),
            None => split_once(s@, c) is None,
        },
{
    let v = chars_of(s);
    let mut i: usize = 0;
    while i < v.len()
        invariant
            i <= v.len(),
            v@ == s@,
            find_from(s@, seq![c], 0) == find_from(s@, seq![c], i as int),
        decreases v.len() - i,
    {
        if v[i] == c {
            assert(s@.subrange(i as int, i + 1) =~= seq![c]);
            let a = s.substring_char(0, i);
            let b = s.substring_char(i + 1, v.len());
            assert(a@ =~= s@.take(i as int));
            assert(b@ =~= s@.skip(i + 1));
            return Some((a, b));
        }
        proof {
            assert(s@.subrange(i as int, i + 1)[0] == v@[i as int]);
        }
        i = i + 1;
    }
    None
}

/// Splitting and joining again gives the text back, and no piece holds the
/// separator.
pub proof fn law_join_of_split(s: Seq<char>, c: char)
    ensures
        join(split(s, c), seq![c]) == s,
        forall|i: int|
            0 <= i < split(s, c).len() ==> !(#[trigger] split(s, c)[i]).contains(c),
        split(s, c).len() >= 1,
    decreases s.len(),
{
    if s.len() == 0 {
        assert(join(split(s, c), seq![c]) =~= s);
    } else {
        let p = split(s.drop_last(), c);
        law_join_of_split(s.drop_last(), c);
        let q = split(s, c);
        if s.last() == c {
            assert(q.drop_last() =~= p);
            assert(join(q, seq![c]) =~= s.drop_last().push(c));
            assert(s.drop_last().push(c) =~= s);
        } else {
            let w = p.last().push(s.last());
            assert(q.drop_last() =~= p.drop_last());
            assert(q.last() == w);
            assert(join(q, seq![c]) =~= join(p, seq![c]).push(s.last()));
            assert(s.drop_last().push(s.last()) =~= s);
            assert forall|i: int| 0 <= i < q.len() implies !(#[trigger] q[i]).contains(c) by {
                if i < q.len() - 1 {
                    assert(q[i] == p[i]);
                } else {
                    assert(!p[p.len() - 1].contains(c));
                    if w.contains(c) {
                        let k = choose|k: int| 0 <= k < w.len() && w[k] == c;
                        assert(k < p.last().len());
                        assert(p.last()[k] == c);
                    }
                }
            }
        }
    }
}

/// What is found from the back lies within the text.
pub proof fn lemma_rfind_to(s: Seq<char>, p: Seq<char>, to: int)
    ensures
        rfind_to(s, p, to) is Some ==> 0 <= rfind_to(s, p, to)->0 && rfind_to(s, p, to)->0
            + p.len() <= s.len(),
        match rfind_to(s, p, to) {
            Some(i) => i <= to && occurs_at(s, p, i) && forall|j: int|
                i < j <= to ==> !occurs_at(s, p, j),
            None => forall|j: int| 0 <= j <= to ==> !occurs_at(s, p, j),
        },
    decreases to + 1,
{
    if to >= 0 {
        lemma_rfind_to(s, p, to - 1);
    }
}

/// A text and a piece behind a separator: the piece is the last one.
pub proof fn lemma_split_push(s: Seq<char>, c: char, piece: Seq<char>)
    requires
        !piece.contains(c),
    ensures
        split(s.push(c) + piece, c) == split(s, c).push(piece),
    decreases piece.len(),
{
    let whole = s.push(c) + piece;
    if piece.len() == 0 {
        assert(whole =~= s.push(c));
        assert(whole.drop_last() =~= s);
        assert(piece =~= Seq::empty());
    } else {
        let short = piece.drop_last();
        assert forall|i: int| 0 <= i < short.len() implies short[i] != c by {
            assert(piece[i] == short[i]);
        }
        lemma_split_push(s, c, short);
        assert(whole.drop_last() =~= s.push(c) + short);
        assert(piece.contains(piece.last()));
        let p = split(s, c).push(short);
        assert(p.drop_last().push(p.last().push(piece.last())) =~= split(s, c).push(piece)) by {
            assert(short.push(piece.last()) =~= piece);
        }
    }
}

/// A text without the separator is one piece.
pub proof fn lemma_split_whole(s: Seq<char>, c: char)
    requires
        !s.contains(c),
    ensures
        split(s, c) == seq![s],
    decreases s.len(),
{
    if s.len() > 0 {
        let short = s.drop_last();
        assert forall|i: int| 0 <= i < short.len() implies short[i] != c by {
            assert(s[i] == short[i]);
        }
        lemma_split_whole(short, c);
        assert(s.contains(s.last()));
        assert(split(s, c) =~= seq![s]) by {
            assert(short.push(s.last()) =~= s);
        }
    } else {
        assert(s =~= Seq::empty());
    }
}

// ---------------------------------------------------------------------------
// Trimming
// ---------------------------------------------------------------------------

/// `char::is_whitespace`.
pub fn white(c: char) -> (r: bool)
    ensures
        r == is_white(c),
{
    ('\u{9}' <= c && c <= '\u{d}') || c == ' ' || c == '\u{85}' || c == '\u{a0}' || c
        == '\u{1680}' || ('\u{2000}' <= c && c <= '\u{200a}') || c == '\u{2028}' || c
        == '\u{2029}' || c == '\u{202f}' || c == '\u{205f}' || c == '\u{3000}'
}

/// `str::trim_end`.
pub fn trim_end<'a>(s: &'a str) -> (r: &'a str)
    ensures
        r@ == trim_back(s@),
{
    let v = chars_of(s);
    let mut n: usize = v.len();
    assert(v@.take(n as int) =~= s@);
    while n > 0 && white(v[n - 1])
        invariant
            n <= v.len(),
            v@ == s@,
            trim_back(s@) == trim_back(v@.take(n as int)),
        decreases n,
    {
        proof {
            assert(v@.take(n as int).drop_last() =~= v@.take(n - 1));
            assert(v@.take(n as int).last() == v@[n - 1]);
        }
        n = n - 1;
    }
    let r = s.substring_char(0, n);
    proof {
        assert(r@ =~= v@.take(n as int));
        if n > 0 {
            assert(v@.take(n as int).last() == v@[n - 1]);
        }
    }
    r
}

/// `str::trim_start`.
pub fn trim_start<'a>(s: &'a str) -> (r: &'a str)
    ensures
        r@ == trim_front(s@),
{
    let v = chars_of(s);
    let mut i: usize = 0;
    assert(v@.skip(0) =~= s@);
    while i < v.len() && white(v[i])
        invariant
            i <= v.len(),
            v@ == s@,
            trim_front(s@) == trim_front(v@.skip(i as int)),
        decreases v.len() - i,
    {
        assert(v@.skip(i as int).skip(1) =~= v@.skip(i + 1));
        i = i + 1;
    }
    let r = s.substring_char(i, v.len());
    assert(r@ =~= v@.skip(i as int));
    r
}

/// `str::trim`.
pub fn trim<'a>(s: &'a str) -> (r: &'a str)
    ensures
        r@ == trimmed_text(s@),
{
    trim_end(trim_start(s))
}

/// `str::trim_start_matches` for a character.
pub fn trim_start_char<'a>(s: &'a str, c: char) -> (r: &'a str)
    ensures
        r@ == drop_front(s@, c),
{
    let v = chars_of(s);
    let mut i: usize = 0;
    assert(v@.skip(0) =~= s@);
    while i < v.len() && v[i] == c
        invariant
            i <= v.len(),
            v@ == s@,
            drop_front(s@, c) == drop_front(v@.skip(i as int), c),
        decreases v.len() - i,
    {
        assert(v@.skip(i as int).skip(1) =~= v@.skip(i + 1));
        i = i + 1;
    }
    let r = s.substring_char(i, v.len());
    assert(r@ =~= v@.skip(i as int));
    r
}

/// `str::trim_end_matches` for a character.
pub fn trim_end_char<'a>(s: &'a str, c: char) -> (r: &'a str)
    ensures
        r@ == drop_back(s@, c),
{
    let v = chars_of(s);
    let mut n: usize = v.len();
    assert(v@.take(n as int) =~= s@);
    while n > 0 && v[n - 1] == c
        invariant
            n <= v.len(),
            v@ == s@,
            drop_back(s@, c) == drop_back(v@.take(n as int), c),
        decreases n,
    {
        proof {
            assert(v@.take(n as int).drop_last() =~= v@.take(n - 1));
            assert(v@.take(n as int).last() == v@[n - 1]);
        }
        n = n - 1;
    }
    let r = s.substring_char(0, n);
    proof {
        assert(r@ =~= v@.take(n as int));
        if n > 0 {
            assert(v@.take(n as int).last() == v@[n - 1]);
        }
    }
    r
}

// ---------------------------------------------------------------------------
// Lists of strings
// ---------------------------------------------------------------------------

/// A copy of a list of strings.
pub fn dup_texts(v: &Vec<String>) -> (r: Vec<String>)
    ensures
        texts(r@) == texts(v@),
        r@.len() == v@.len(),
{
    let mut out: Vec<String> = Vec::new();
    let mut i: usize = 0;
    while i < v.len()
        invariant
            i <= v.len(),
            out@.len() == i,
            forall|j: int| 0 <= j < i ==> (#[trigger] out@[j])@ == v@[j]@,
        decreases v.len() - i,
    {
        out.push(v[i].clone());
        i = i + 1;
    }
    assert(texts(out@) =~= texts(v@));
    out
}

/// Is `s` one of the strings?
pub fn has_text(v: &Vec<String>, s: &str) -> (r: bool)
    ensures
        r == texts(v@).contains(s@),
{
    let mut i: usize = 0;
    while i < v.len()
        invariant
            i <= v.len(),
            forall|j: int| 0 <= j < i ==> #[trigger] texts(v@)[j] != s@,
        decreases v.len() - i,
    {
        if same(v[i].as_str(), s) {
            assert(texts(v@)[i as int] == s@);
            return true;
        }
        i = i + 1;
    }
    false
}

/// A text holds a character where the text of that character stands in it.
pub proof fn lemma_holds_char(s: Seq<char>, c: char)
    ensures
        s.contains(c) <==> has_sub(s, seq![c]),
{
    if s.contains(c) {
        let i = s.index_of(c);
        assert(s.subrange(i, i + 1) =~= seq![c]);
        assert(occurs_at(s, seq![c], i));
    }
    if has_sub(s, seq![c]) {
        let i = choose|i: int| occurs_at(s, seq![c], i);
        assert(s.subrange(i, i + 1)[0] == s[i]);
        assert(seq![c][0] == c);
    }
}

// ---------------------------------------------------------------------------
// Words
// ---------------------------------------------------------------------------

/// A text up to its first white space.
pub open spec fn first_word(s: Seq<char>) -> Seq<char>
    decreases s.len(),
{
    if s.len() == 0 || is_white(s[0]) {
        Seq::empty()
    } else {
        seq![s[0]] + first_word(s.skip(1))
    }
}

/// The words of a text, which white space separates.
pub open spec fn words(s: Seq<char>) -> Seq<Seq<char>>
    decreases s.len(),
{
    let t = trim_front(s);
    if t.len() == 0 || t.len() > s.len() || first_word(t).len() == 0 || first_word(t).len()
        > t.len() {
        Seq::empty()
    } else {
        seq![first_word(t)] + words(t.skip(first_word(t).len() as int))
    }
}

proof fn lemma_first_word(s: Seq<char>)
    ensures
        first_word(s).len() <= s.len(),
        first_word(s) == s.take(first_word(s).len() as int),
    decreases s.len(),
{
    if s.len() == 0 || is_white(s[0]) {
        assert(first_word(s) =~= s.take(0));
    } else {
        lemma_first_word(s.skip(1));
        assert(first_word(s) =~= s.take(first_word(s).len() as int));
    }
}

fn word_len(s: &str) -> (r: usize)
    ensures
        r == first_word(s@).len(),
        r <= s@.len(),
{
    let len: usize = s.unicode_len();
    let mut i: usize = 0;
    assert(s@.skip(0) =~= s@);
    while i < len && !white(s.get_char(i))
        invariant
            i <= len,
            len == s@.len(),
            first_word(s@).len() == i + first_word(s@.skip(i as int)).len(),
        decreases len - i,
    {
        assert(s@.skip(i as int).skip(1) =~= s@.skip(i + 1));
        i = i + 1;
    }
    proof {
        if i < len {
            assert(s@.skip(i as int)[0] == s@[i as int]);
        }
        lemma_first_word(s@);
    }
    i
}

proof fn lemma_trim_front(s: Seq<char>)
    ensures
        trim_front(s).len() <= s.len(),
        trim_front(s).len() > 0 ==> !is_white(trim_front(s)[0]),
    decreases s.len(),
{
    if s.len() > 0 && is_white(s[0]) {
        lemma_trim_front(s.skip(1));
    }
}

/// The words of a text.
pub fn words_of(s: &str) -> (r: Vec<String>)
    ensures
        texts(r@) == words(s@),
{
    let ghost whole = s@;
    let mut out: Vec<String> = Vec::new();
    let mut rest = trim_start(s);
    proof {
        lemma_trim_front(s@);
        assert(texts(out@) =~= Seq::<Seq<char>>::empty());
        lemma_words_trimmed(s@);
        assert(words(whole) =~= texts(out@) + words(rest@));
    }
    while rest.unicode_len() > 0
        invariant
            words(whole) == texts(out@) + words(rest@),
            trim_front(rest@) == rest@,
            rest@.len() > 0 ==> !is_white(rest@[0]),
        decreases rest@.len(),
    {
        let n: usize = word_len(rest);
        let len: usize = rest.unicode_len();
        let ghost was = texts(out@);
        proof {
            lemma_first_word(rest@);
            assert(first_word(rest@).len() > 0);
        }
        let word = rest.substring_char(0, n).to_owned();
        let ghost wv = word@;
        let tail = rest.substring_char(n, len);
        let next = trim_start(tail);
        proof {
            assert(wv =~= first_word(rest@));
            assert(tail@ =~= rest@.skip(n as int));
            lemma_trim_front(tail@);
            lemma_words_trimmed(tail@);
        }
        out.push(word);
        proof {
            assert(texts(out@) =~= was.push(wv));
            assert(words(whole) =~= texts(out@) + words(next@));
        }
        rest = next;
    }
    assert(words(rest@) =~= Seq::<Seq<char>>::empty());
    assert(texts(out@) =~= words(whole));
    out
}

/// White space in front changes no word.
proof fn lemma_words_trimmed(s: Seq<char>)
    ensures
        words(s) == words(trim_front(s)),
        trim_front(trim_front(s)) == trim_front(s),
    decreases s.len(),
{
    lemma_trim_front(s);
    let t = trim_front(s);
    lemma_trim_front(t);
    if t.len() > 0 {
        assert(trim_front(t) == t);
    } else {
        assert(trim_front(t) =~= t);
    }
}

proof fn lemma_found_first(s: Seq<char>, p: Seq<char>, from: int, n: int)
    requires
        0 <= from <= n,
        occurs_at(s, p, n),
        forall|j: int| from <= j < n ==> !occurs_at(s, p, j),
    ensures
        find_from(s, p, from) == Some(n),
    decreases n - from,
{
    if from < n {
        lemma_found_first(s, p, from + 1, n);
    }
}

/// A text is parted at the first separator in it: what is before the separator holds none.
pub proof fn law_parted_at_the_first(a: Seq<char>, c: char, b: Seq<char>)
    requires
        !a.contains(c),
    ensures
        split_once(a + seq![c] + b, c) == Some((a, b)),
        split_once(a, c) is None,
{
    let s = a + seq![c] + b;
    let p = seq![c];
    let n = a.len() as int;
    assert(s.subrange(n, n + 1) =~= p);
    assert forall|j: int| 0 <= j < n implies !occurs_at(s, p, j) by {
        if occurs_at(s, p, j) {
            assert(s.subrange(j, j + 1)[0] == p[0]);
            assert(a[j] == c);
        }
    }
    lemma_found_first(s, p, 0, n);
    assert(s.take(n) =~= a);
    assert(s.skip(n + 1) =~= b);
    lemma_find_from(a, p, 0);
    if split_once(a, c) is Some {
        let i = find_from(a, p, 0)->0;
        assert(a.subrange(i, i + 1)[0] == p[0]);
        assert(a[i] == c);
    }
}

/// A text begins with what it is made of first, and what is behind that is the rest; so with
/// what it ends with.
pub proof fn law_the_ends_of_a_text(a: Seq<char>, b: Seq<char>, c: char)
    ensures
        has_prefix(a + b, a),
        has_suffix(a + b, b),
        has_sub(a + b, a),
        has_sub(a + b, b),
        without_prefix(a + b, a) == Some(b),
        without_suffix(a + b, b) == Some(a),
        !has_prefix(a, a.push(c)),
        a.len() > 0 && a[0] != c ==> without_prefix(a, seq![c]) is None,
{
    let s = a + b;
    assert(s.subrange(0, a.len() as int) =~= a);
    assert(s.subrange(a.len() as int, s.len() as int) =~= b);
    assert(occurs_at(s, a, 0));
    assert(occurs_at(s, b, a.len() as int));
    assert(s.skip(a.len() as int) =~= b);
    assert(s.take(a.len() as int) =~= a);
    if a.len() > 0 && a[0] != c && has_prefix(a, seq![c]) {
        assert(a.subrange(0, 1)[0] == seq![c][0]);
    }
}

/// The pieces of a text hold no separator.
pub proof fn law_pieces_hold_no_separator(s: Seq<char>, c: char, i: int)
    ensures
        split(s, c).len() > 0,
        0 <= i < split(s, c).len() ==> !split(s, c)[i].contains(c),
    decreases s.len(),
{
    if s.len() > 0 {
        let pieces = split(s.drop_last(), c);
        law_pieces_hold_no_separator(s.drop_last(), c, i);
        law_pieces_hold_no_separator(s.drop_last(), c, pieces.len() - 1);
        if s.last() != c {
            let last = pieces.last().push(s.last());
            if last.contains(c) {
                let k = last.index_of(c);
                if k < pieces.last().len() {
                    assert(pieces.last()[k] == c);
                    assert(pieces.last().contains(c));
                }
            }
        }
    }
}

/// The pieces that are left are those that hold something.
pub proof fn law_empty_pieces_are_left_out(pieces: Seq<Seq<char>>)
    ensures
        nonempty(pieces) == pieces.filter(|p: Seq<char>| p.len() > 0),
    decreases pieces.len(),
{
    reveal(Seq::filter);
    if pieces.len() > 0 {
        law_empty_pieces_are_left_out(pieces.drop_last());
    }
}

/// A trimmed text has no white space at its ends, and is else what it was.
pub proof fn law_a_trimmed_text(s: Seq<char>)
    ensures
        ({
            let t = trimmed_text(s);
            &&& t.len() > 0 ==> !is_white(t[0]) && !is_white(t.last())
            &&& exists|i: int, j: int|
                0 <= i <= j <= s.len() && t == #[trigger] s.subrange(i, j) && (forall|k: int|
                    0 <= k < i ==> is_white(#[trigger] s[k])) && (forall|k: int|
                    j <= k < s.len() ==> is_white(#[trigger] s[k]))
        }),
        s.len() > 0 && !is_white(s[0]) && !is_white(s.last()) ==> trimmed_text(s) == s,
{
    lemma_trimmed_front(s);
    let f = trim_front(s);
    let i = choose|i: int|
        0 <= i <= s.len() && f == #[trigger] s.skip(i) && (forall|k: int|
            0 <= k < i ==> is_white(#[trigger] s[k])) && (i < s.len() ==> !is_white(s[i]));
    lemma_trimmed_back(f);
    let n = choose|n: int|
        0 <= n <= f.len() && trim_back(f) == #[trigger] f.take(n) && (forall|k: int|
            n <= k < f.len() ==> is_white(#[trigger] f[k])) && (n > 0 ==> !is_white(f[n - 1]));
    let t = trimmed_text(s);
    assert(t =~= s.subrange(i, i + n));
    assert forall|k: int| i + n <= k < s.len() implies is_white(#[trigger] s[k]) by {
        assert(f[k - i] == s[k]);
    }
    if t.len() > 0 {
        assert(t[0] == s[i]);
        assert(t.last() == f[n - 1]);
    }
    if s.len() > 0 && !is_white(s[0]) && !is_white(s.last()) {
        if i > 0 {
            assert(is_white(s[0]));
        }
        assert(f =~= s);
        if n < f.len() {
            assert(is_white(f[f.len() - 1]));
        }
        assert(t =~= s);
    }
}

proof fn lemma_trimmed_front(s: Seq<char>)
    ensures
        exists|i: int|
            0 <= i <= s.len() && trim_front(s) == #[trigger] s.skip(i) && (forall|k: int|
                0 <= k < i ==> is_white(#[trigger] s[k])) && (i < s.len() ==> !is_white(s[i])),
    decreases s.len(),
{
    if s.len() > 0 && is_white(s[0]) {
        let r = s.skip(1);
        lemma_trimmed_front(r);
        let i = choose|i: int|
            0 <= i <= r.len() && trim_front(r) == #[trigger] r.skip(i) && (forall|k: int|
                0 <= k < i ==> is_white(#[trigger] r[k])) && (i < r.len() ==> !is_white(r[i]));
        assert(s.skip(i + 1) =~= r.skip(i));
        assert forall|k: int| 0 <= k < i + 1 implies is_white(#[trigger] s[k]) by {
            if k > 0 {
                assert(r[k - 1] == s[k]);
            }
        }
        if i < r.len() {
            assert(s[i + 1] == r[i]);
        }
    } else {
        assert(s.skip(0) =~= s);
    }
}

proof fn lemma_trimmed_back(s: Seq<char>)
    ensures
        exists|n: int|
            0 <= n <= s.len() && trim_back(s) == #[trigger] s.take(n) && (forall|k: int|
                n <= k < s.len() ==> is_white(#[trigger] s[k])) && (n > 0 ==> !is_white(s[n - 1])),
    decreases s.len(),
{
    if s.len() > 0 && is_white(s.last()) {
        let r = s.drop_last();
        lemma_trimmed_back(r);
        let n = choose|n: int|
            0 <= n <= r.len() && trim_back(r) == #[trigger] r.take(n) && (forall|k: int|
                n <= k < r.len() ==> is_white(#[trigger] r[k])) && (n > 0 ==> !is_white(r[n - 1]));
        assert(s.take(n) =~= r.take(n));
        assert forall|k: int| n <= k < s.len() implies is_white(#[trigger] s[k]) by {
            if k < r.len() {
                assert(r[k] == s[k]);
            }
        }
        if n > 0 {
            assert(s[n - 1] == r[n - 1]);
        }
    } else {
        assert(s.take(s.len() as int) =~= s);
    }
}

/// A character is dropped from the front, or from the back, as often as it stands there.
pub proof fn law_a_character_is_dropped_at_an_end(s: Seq<char>, c: char)
    ensures
        drop_front(seq![c] + s, c) == drop_front(s, c),
        drop_back(s.push(c), c) == drop_back(s, c),
        s.len() > 0 && s[0] != c ==> drop_front(s, c) == s,
        s.len() > 0 && s.last() != c ==> drop_back(s, c) == s,
        drop_front(Seq::<char>::empty(), c).len() == 0,
        drop_back(Seq::<char>::empty(), c).len() == 0,
{
    assert((seq![c] + s).skip(1) =~= s);
    assert(s.push(c).drop_last() =~= s);
}

/// Texts are in the order of their first characters that differ.
pub proof fn law_the_first_difference_orders(
    a: Seq<char>,
    x: char,
    b: Seq<char>,
    y: char,
    c: Seq<char>,
)
    requires
        x < y,
    ensures
        before(a + seq![x] + b, a + seq![y] + c),
        !before(a + seq![y] + c, a + seq![x] + b),
        before(a, a + seq![x] + b),
        !before(a + seq![x] + b, a),
    decreases a.len(),
{
    let p = a + seq![x] + b;
    let q = a + seq![y] + c;
    if a.len() > 0 {
        let r = a.skip(1);
        law_the_first_difference_orders(r, x, b, y, c);
        assert(p.skip(1) =~= r + seq![x] + b);
        assert(q.skip(1) =~= r + seq![y] + c);
    }
}

/// A word is read up to the white space behind it, and what is behind that is read on.
pub proof fn law_words_are_apart_by_white_space(w: Seq<char>, c: char, rest: Seq<char>)
    requires
        w.len() > 0,
        is_white(c),
        forall|i: int| 0 <= i < w.len() ==> !is_white(#[trigger] w[i]),
    ensures
        words(w + seq![c] + rest) == seq![w] + words(seq![c] + rest),
        words(seq![c] + w) == words(w),
        words(w) == seq![w],
{
    let s = w + seq![c] + rest;
    lemma_word_before(w, seq![c] + rest);
    assert(w + (seq![c] + rest) =~= s);
    assert(trim_front(s) == s);
    assert(s.skip(w.len() as int) =~= seq![c] + rest);
    assert((seq![c] + w).skip(1) =~= w);
    let t = seq![c] + w;
    assert(trim_front(t) == trim_front(w));
    assert(trim_front(w) == w);
    lemma_word_before(w, Seq::empty());
    assert(w + Seq::<char>::empty() =~= w);
    assert(w.skip(w.len() as int) =~= Seq::<char>::empty());
    assert(words(Seq::<char>::empty()) =~= Seq::<Seq<char>>::empty());
    assert(words(w) =~= seq![w]);
    assert(words(t) =~= words(w));
}

proof fn lemma_word_before(w: Seq<char>, rest: Seq<char>)
    requires
        forall|i: int| 0 <= i < w.len() ==> !is_white(#[trigger] w[i]),
        rest.len() == 0 || is_white(rest[0]),
    ensures
        first_word(w + rest) == w,
    decreases w.len(),
{
    let s = w + rest;
    if w.len() == 0 {
        assert(first_word(s) =~= w);
    } else {
        let v = w.skip(1);
        assert forall|i: int| 0 <= i < v.len() implies !is_white(#[trigger] v[i]) by {
            assert(v[i] == w[i + 1]);
        }
        lemma_word_before(v, rest);
        assert(s.skip(1) =~= v + rest);
        assert(!is_white(w[0]));
        assert(seq![w[0]] + v =~= w);
    }
}

proof fn lemma_found_last(s: Seq<char>, p: Seq<char>, n: int, to: int)
    requires
        0 <= n <= to,
        occurs_at(s, p, n),
        forall|j: int| n < j <= to ==> !occurs_at(s, p, j),
    ensures
        rfind_to(s, p, to) == Some(n),
    decreases to - n,
{
    if n < to {
        lemma_found_last(s, p, n, to - 1);
    }
}

/// The last place of a character is the one behind which it does not stand.
pub proof fn law_found_at_the_last(a: Seq<char>, c: char, b: Seq<char>)
    requires
        !b.contains(c),
    ensures
        rfind(a + seq![c] + b, seq![c]) == Some(a.len() as int),
        rfind(b, seq![c]) is None,
{
    let s = a + seq![c] + b;
    let p = seq![c];
    let n = a.len() as int;
    assert(s.subrange(n, n + 1) =~= p);
    assert forall|j: int| n < j <= s.len() - 1 implies !occurs_at(s, p, j) by {
        if occurs_at(s, p, j) {
            assert(s.subrange(j, j + 1)[0] == p[0]);
            assert(b[j - n - 1] == c);
        }
    }
    lemma_found_last(s, p, n, s.len() - 1);
    lemma_rfind_to(b, p, b.len() - 1);
    if rfind(b, p) is Some {
        let i = rfind(b, p)->0;
        assert(b.subrange(i, i + 1)[0] == p[0]);
        assert(b[i] == c);
    }
}

} // verus!
