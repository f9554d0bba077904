//! Places in a document: paths of keys, and JSON pointers (RFC 6901).

use vstd::prelude::*;
use vstd::string::*;

use crate::decimal::{dec, law_numeral_reads_back, law_signs, parse_unsigned, unsigned};
use crate::json::{opt_tree, Json, Tree};
use crate::text::{chars_of, push_char, split, split_on, texts};

verus! {

// ---------------------------------------------------------------------------
// The model
// ---------------------------------------------------------------------------

/// The array index that a path token writes: digits, without a leading zero.
pub open spec fn index_token(token: Seq<char>) -> Option<nat> {
    if token.len() > 0 && (token[0] == '+' || (token[0] == '0' && token.len() != 1)) {
        None
    } else {
        unsigned(token, usize::MAX as nat)
    }
}

/// The member or item of `t` that `token` names.
pub open spec fn step(t: Tree, token: Seq<char>) -> Option<Tree> {
    match t {
        Tree::Object(m) => t.get(token),
        Tree::Array(a) => match index_token(token) {
            Some(i) => if i < a.len() {
                Some(a[i as int])
            } else {
                None
            },
            None => None,
        },
        _ => None,
    }
}

/// What stands in `t` at `path`.
pub open spec fn lookup(t: Tree, path: Seq<Seq<char>>) -> Option<Tree>
    decreases path.len(),
{
    if path.len() == 0 {
        Some(t)
    } else {
        match step(t, path[0]) {
            Some(u) => lookup(u, path.skip(1)),
            None => None,
        }
    }
}

/// A token as it was before it was escaped for a pointer: `~1` stands for a
/// slash and `~0` for a tilde.
pub open spec fn unescaped(s: Seq<char>) -> Seq<char>
    decreases s.len(),
{
    if s.len() == 0 {
        s
    } else if s.len() >= 2 && s[0] == '~' && s[1] == '1' {
        seq!['/'] + unescaped(s.skip(2))
    } else if s.len() >= 2 && s[0] == '~' && s[1] == '0' {
        seq!['~'] + unescaped(s.skip(2))
    } else {
        seq![s[0]] + unescaped(s.skip(1))
    }
}

/// The path that a pointer writes.
pub open spec fn pointer_path(pointer: Seq<char>) -> Option<Seq<Seq<char>>> {
    if pointer.len() == 0 {
        Some(Seq::empty())
    } else if pointer[0] != '/' {
        None
    } else {
        Some(split(pointer, '/').skip(1).map_values(|s: Seq<char>| unescaped(s)))
    }
}

/// What stands in `t` at a pointer.
pub open spec fn at_pointer(t: Tree, pointer: Seq<char>) -> Option<Tree> {
    match pointer_path(pointer) {
        Some(path) => lookup(t, path),
        None => None,
    }
}

/// `t` without the member that `path` leads to through objects.
pub open spec fn without(t: Tree, path: Seq<Seq<char>>) -> Tree
    decreases path.len(),
{
    if path.len() == 0 {
        t
    } else if path.len() == 1 {
        t.unset(path[0])
    } else {
        match t.get(path[0]) {
            Some(u) => t.set(path[0], without(u, path.skip(1))),
            None => t,
        }
    }
}

/// What stands in `t` at a path of members, through objects alone.
pub open spec fn member(t: Tree, path: Seq<Seq<char>>) -> Option<Tree>
    decreases path.len(),
{
    if path.len() == 0 {
        Some(t)
    } else {
        match t.get(path[0]) {
            Some(u) => member(u, path.skip(1)),
            None => None,
        }
    }
}

// ---------------------------------------------------------------------------
// Looking up
// ---------------------------------------------------------------------------

/// The member or item of `v` that `token` names.
pub fn step_to<'a>(v: &'a Json, token: &str) -> (r: Option<&'a Json>)
    ensures
        opt_tree(r) == step(v@, token@),
{
    match v {
        Json::Object(o) => v.get(token),
        Json::Array(a) => {
            let cs = chars_of(token);
            if cs.len() > 0 && (cs[0] == '+' || (cs[0] == '0' && cs.len() != 1)) {
                return None;
            }
            match parse_unsigned(token, usize::MAX as u64) {
                Some(i) => if i < a.len() as u64 {
                    Some(&a[i as usize])
                } else {
                    None
                },
                None => None,
            }
        },
        _ => None,
    }
}

/// What stands in `v` at `path`.
pub fn look_up<'a>(v: &'a Json, path: &Vec<String>) -> (r: Option<&'a Json>)
    ensures
        opt_tree(r) == lookup(v@, texts(path@)),
{
    let mut cur = v;
    let mut i: usize = 0;
    let ghost full = texts(path@);
    assert(full.skip(0) =~= full);
    while i < path.len()
        invariant
            i <= path.len(),
            full == texts(path@),
            lookup(v@, full) == lookup(cur@, full.skip(i as int)),
        decreases path.len() - i,
    {
        proof {
            assert(full.skip(i as int)[0] == path@[i as int]@);
            assert(full.skip(i as int).skip(1) =~= full.skip(i + 1));
        }
        match step_to(cur, path[i].as_str()) {
            Some(u) => {
                cur = u;
            },
            None => {
                return None;
            },
        }
        i = i + 1;
    }
    Some(cur)
}

/// What stands in `v` at a path of members, through objects alone.
pub fn find_member<'a>(v: &'a Json, path: &Vec<String>) -> (r: Option<&'a Json>)
    ensures
        opt_tree(r) == member(v@, texts(path@)),
{
    let mut cur = v;
    let mut i: usize = 0;
    let ghost full = texts(path@);
    assert(full.skip(0) =~= full);
    while i < path.len()
        invariant
            i <= path.len(),
            full == texts(path@),
            member(v@, full) == member(cur@, full.skip(i as int)),
        decreases path.len() - i,
    {
        proof {
            assert(full.skip(i as int)[0] == path@[i as int]@);
            assert(full.skip(i as int).skip(1) =~= full.skip(i + 1));
        }
        match cur.get(path[i].as_str()) {
            Some(u) => {
                cur = u;
            },
            None => {
                return None;
            },
        }
        i = i + 1;
    }
    Some(cur)
}

/// A token without its escapes.
pub fn unescape(s: &str) -> (r: String)
    ensures
        r@ == unescaped(s@),
{
    let v = chars_of(s);
    let mut out = String::new();
    let mut i: usize = 0;
    assert(v@.skip(0) =~= s@);
    assert(out@ + unescaped(v@.skip(0)) =~= unescaped(s@));
    while i < v.len()
        invariant
            i <= v.len(),
            v@ == s@,
            out@ + unescaped(v@.skip(i as int)) == unescaped(s@),
        decreases v.len() - i,
    {
        let ghost rest = v@.skip(i as int);
        let ghost was = out@;
        proof {
            assert(rest[0] == v@[i as int]);
            assert(rest.skip(1) =~= v@.skip(i + 1));
            if i + 1 < v.len() {
                assert(rest[1] == v@[i + 1]);
                assert(rest.skip(2) =~= v@.skip(i + 2));
            }
        }
        if i + 1 < v.len() && v[i] == '~' && v[i + 1] == '1' {
            push_char(&mut out, '/');
            i = i + 2;
            assert(out@ + unescaped(v@.skip(i as int)) =~= was + unescaped(rest));
        } else if i + 1 < v.len() && v[i] == '~' && v[i + 1] == '0' {
            push_char(&mut out, '~');
            i = i + 2;
            assert(out@ + unescaped(v@.skip(i as int)) =~= was + unescaped(rest));
        } else {
            push_char(&mut out, v[i]);
            i = i + 1;
            assert(out@ + unescaped(v@.skip(i as int)) =~= was + unescaped(rest));
        }
    }
    assert(out@ + unescaped(v@.skip(i as int)) =~= out@);
    out
}

/// The path that a pointer writes.
pub fn path_of(pointer: &str) -> (r: Option<Vec<String>>)
    ensures
        match r {
            Some(p) => pointer_path(pointer@) == Some(texts(p@)),
            None => pointer_path(pointer@) is None,
        },
{
    let cs = chars_of(pointer);
    if cs.len() == 0 {
        let p: Vec<String> = Vec::new();
        assert(texts(p@) =~= Seq::<Seq<char>>::empty());
        return Some(p);
    }
    if cs[0] != '/' {
        return None;
    }
    let pieces = split_on(pointer, '/');
    let mut out: Vec<String> = Vec::new();
    let mut i: usize = 1;
    while i < pieces.len()
        invariant
            1 <= i <= pieces.len(),
            out@.len() == i - 1,
            forall|j: int| 0 <= j < i - 1 ==> (#[trigger] out@[j])@ == unescaped(pieces@[j + 1]@),
        decreases pieces.len() - i,
    {
        out.push(unescape(pieces[i].as_str()));
        i = i + 1;
    }
    assert(texts(out@) =~= texts(pieces@).skip(1).map_values(|s: Seq<char>| unescaped(s)));
    Some(out)
}

/// What stands in `v` at a pointer.
pub fn pointer<'a>(v: &'a Json, at: &str) -> (r: Option<&'a Json>)
    ensures
        opt_tree(r) == at_pointer(v@, at@),
{
    match path_of(at) {
        Some(path) => look_up(v, &path),
        None => None,
    }
}

// ---------------------------------------------------------------------------
// Removing
// ---------------------------------------------------------------------------

fn remove_from(v: Json, path: &Vec<String>, from: usize) -> (r: Json)
    requires
        from <= path.len(),
    ensures
        r@ == without(v@, texts(path@).skip(from as int)),
    decreases path.len() - from,
{
    let ghost p = texts(path@).skip(from as int);
    if from == path.len() {
        return v;
    }
    proof {
        assert(p[0] == path@[from as int]@);
        assert(p.skip(1) =~= texts(path@).skip(from + 1));
    }
    let mut v = v;
    let key = path[from].as_str();
    if from + 1 == path.len() {
        v.unset(key);
        return v;
    }
    match v {
        Json::Object(o) => match o.get(key) {
            Some(u) => {
                let inner = remove_from(u.dup(), path, from + 1);
                Json::Object(o.insert(key, inner))
            },
            None => Json::Object(o),
        },
        other => other,
    }
}

/// Removes the member that `path` leads to through objects.
pub fn remove_at(v: &mut Json, path: &Vec<String>)
    ensures
        final(v)@ == without(old(v)@, texts(path@)),
{
    let t = v.take();
    assert(texts(path@).skip(0) =~= texts(path@));
    *v = remove_from(t, path, 0);
}

/// What was removed is gone.
pub proof fn law_removed_is_gone(t: Tree, path: Seq<Seq<char>>)
    requires
        path.len() > 0,
    ensures
        member(without(t, path), path) is None,
    decreases path.len(),
{
    if path.len() == 1 {
        assert(t.unset(path[0]).get(path[0]) is None);
    } else {
        match t.get(path[0]) {
            Some(u) => {
                law_removed_is_gone(u, path.skip(1));
            },
            None => {},
        }
    }
}

/// Removing a member leaves every other member of the document as it was.
pub proof fn law_removal_keeps_the_rest(t: Tree, path: Seq<Seq<char>>, key: Seq<char>)
    requires
        path.len() > 0,
        key != path[0],
    ensures
        without(t, path).get(key) == t.get(key),
{
}

/// A pointer leads on by a token from where it led to: into a member, or to an item by its
/// place.
pub proof fn law_a_pointer_leads_on(t: Tree, path: Seq<Seq<char>>, token: Seq<char>)
    ensures
        lookup(t, Seq::empty()) == Some(t),
        lookup(t, path) is None ==> lookup(t, path.push(token)) is None,
        (lookup(t, path) matches Some(u) ==> u is Object ==> lookup(t, path.push(token)) == u.get(
            token,
        )),
        (lookup(t, path) matches Some(u) ==> !(u is Object) && !(u is Array) ==> lookup(
            t,
            path.push(token),
        ) is None),
        (lookup(t, path) matches Some(u) ==> u is Array && index_token(token) is Some ==> lookup(
            t,
            path.push(token),
        ) == (if index_token(token)->0 < u.items_or_none().len() {
            Some(u.items_or_none()[index_token(token)->0 as int])
        } else {
            None
        })),
    decreases path.len(),
{
    let more = path.push(token);
    if path.len() == 0 {
        assert(more[0] == token);
        assert(more.skip(1) =~= Seq::<Seq<char>>::empty());
        assert(path =~= Seq::<Seq<char>>::empty());
        assert(lookup(t, path) == Some(t));
        match step(t, token) {
            Some(u) => {
                assert(lookup(u, more.skip(1)) == Some(u));
                assert(lookup(t, more) == Some(u));
            },
            None => {
                assert(lookup(t, more) is None);
            },
        }
    } else {
        assert(more[0] == path[0]);
        assert(more.skip(1) =~= path.skip(1).push(token));
        match step(t, path[0]) {
            Some(u) => {
                law_a_pointer_leads_on(u, path.skip(1), token);
                assert(lookup(t, path) == lookup(u, path.skip(1)));
                assert(lookup(t, more) == lookup(u, more.skip(1)));
            },
            None => {},
        }
    }
}

/// A place in a list is a number without a sign and without a zero in front.
pub proof fn law_what_is_a_place(n: nat)
    requires
        n <= usize::MAX,
    ensures
        index_token(dec(n)) == Some(n),
        index_token(seq!['0'] + dec(n)) is None,
        index_token(seq!['+'] + dec(n)) is None,
{
    law_signs(n, usize::MAX as nat);
    law_numeral_reads_back(n);
    lemma_no_zero_in_front(n);
    assert((seq!['0'] + dec(n))[0] == '0');
    assert((seq!['+'] + dec(n))[0] == '+');
}

proof fn lemma_no_zero_in_front(n: nat)
    ensures
        dec(n).len() > 0,
        dec(n)[0] == '0' ==> dec(n).len() == 1,
        n > 0 ==> dec(n)[0] != '0',
    decreases n,
{
    if n >= 10 {
        lemma_no_zero_in_front(n / 10);
        assert(dec(n)[0] == dec(n / 10)[0]);
    }
}

/// The two characters that a pointer cannot hold as they are stand in it escaped, and every
/// other stands for itself.
pub proof fn law_what_is_escaped(s: Seq<char>, c: char)
    requires
        c != '~',
    ensures
        unescaped(seq!['~', '1'] + s) == seq!['/'] + unescaped(s),
        unescaped(seq!['~', '0'] + s) == seq!['~'] + unescaped(s),
        unescaped(seq![c] + s) == seq![c] + unescaped(s),
        unescaped(Seq::<char>::empty()).len() == 0,
{
    assert((seq!['~', '1'] + s).skip(2) =~= s);
    assert((seq!['~', '0'] + s).skip(2) =~= s);
    assert((seq![c] + s).skip(1) =~= s);
    assert((seq![c] + s)[0] == c);
}

/// A pointer is the empty text, or begins with a slash.
pub proof fn law_what_is_a_pointer(t: Tree, pointer: Seq<char>)
    ensures
        at_pointer(t, Seq::empty()) == Some(t),
        pointer.len() > 0 && pointer[0] != '/' ==> at_pointer(t, pointer) is None,
{
}

} // verus!
