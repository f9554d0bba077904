//! Merging one document into another: JSON Merge Patch (RFC 7386) and the
//! strategic merge patch of Kubernetes.

use vstd::prelude::*;
use vstd::string::*;

use crate::json::{dup_all, lemma_trees_push, lists_keys, trees, Json, Object, Tree};
use crate::pointer::member;
use crate::text::{opt_str, same};

verus! {

// ---------------------------------------------------------------------------
// The model
// ---------------------------------------------------------------------------

/// The members that a merge starts from: none unless the target is an object.
pub open spec fn base_members(t: Tree) -> Map<Seq<char>, Tree> {
    match t {
        Tree::Object(m) => m,
        _ => Map::empty(),
    }
}

/// A key is there after a merge if the patch sets it, or if it was there and
/// the patch does not remove it with a null.
pub open spec fn survives(
    base: Map<Seq<char>, Tree>,
    patch: Map<Seq<char>, Tree>,
    key: Seq<char>,
) -> bool {
    if patch.contains_key(key) {
        !(patch[key] is Null)
    } else {
        base.contains_key(key)
    }
}

/// RFC 7386: an object is merged member by member, a null removes a member, and
/// anything else replaces the target.
pub open spec fn merged(target: Tree, patch: Tree) -> Tree
    decreases patch,
{
    match patch {
        Tree::Object(p) => {
            let base = base_members(target);
            Tree::Object(
                Map::new(
                    |k: Seq<char>| survives(base, p, k),
                    |k: Seq<char>|
                        if p.contains_key(k) {
                            merged(Tree::Object(base).at(k), p[k])
                        } else {
                            base[k]
                        },
                ),
            )
        },
        _ => patch,
    }
}

/// The key by which the items of a well-known list are told apart.
pub open spec fn list_key(field: Seq<char>) -> Option<Seq<char>> {
    if field == "conditions"@ {
        Some("type"@)
    } else if field == "containers"@ || field == "initContainers"@ || field
        == "ephemeralContainers"@ || field == "volumes"@ || field == "volumeMounts"@ || field
        == "imagePullSecrets"@ || field == "env"@ || field == "envFrom"@ {
        Some("name"@)
    } else if field == "ports"@ {
        Some("containerPort"@)
    } else if field == "ownerReferences"@ {
        Some("uid"@)
    } else if field == "hostAliases"@ {
        Some("ip"@)
    } else if field == "topologySpreadConstraints"@ {
        Some("topologyKey"@)
    } else {
        None
    }
}

/// The first item whose member `key` equals `value`.
pub open spec fn first_with(items: Seq<Tree>, key: Seq<char>, value: Tree) -> Option<int>
    decreases items.len(),
{
    if items.len() == 0 {
        None
    } else {
        match first_with(items.drop_last(), key, value) {
            Some(i) => Some(i),
            None => match items.last().get(key) {
                Some(v) => if v.alike(value) {
                    Some(items.len() - 1)
                } else {
                    None
                },
                None => None,
            },
        }
    }
}

/// A strategic merge: objects are merged member by member, a null removes a
/// member, a well-known list is merged item by item, and anything else is
/// replaced.
pub open spec fn strategic(target: Tree, patch: Tree) -> Tree
    decreases patch,
{
    match patch {
        Tree::Object(p) => {
            let base = base_members(target);
            Tree::Object(
                Map::new(
                    |k: Seq<char>| survives(base, p, k),
                    |k: Seq<char>|
                        if p.contains_key(k) {
                            match (Tree::Object(base).at(k), p[k]) {
                                (Tree::Array(t), Tree::Array(q)) => match list_key(k) {
                                    Some(by) => Tree::Array(strategic_list(t, q, by)),
                                    None => p[k],
                                },
                                (t, _) => strategic(t, p[k]),
                            }
                        } else {
                            base[k]
                        },
                ),
            )
        },
        _ => patch,
    }
}

/// The items of a patch put into a list one after another: an item whose `key`
/// is already there is merged into the first item that has it, and any other is
/// appended.
pub open spec fn strategic_list(target: Seq<Tree>, patch: Seq<Tree>, key: Seq<char>) -> Seq<Tree>
    decreases patch,
{
    if patch.len() == 0 {
        target
    } else {
        let t = strategic_list(target, patch.drop_last(), key);
        let item = patch.last();
        let found = match item.get(key) {
            Some(v) => first_with(t, key, v),
            None => None,
        };
        match found {
            Some(i) => t.update(i, strategic(t[i], item)),
            None => t.push(item),
        }
    }
}

// ---------------------------------------------------------------------------
// Merging
// ---------------------------------------------------------------------------

/// Merges `patch` into `target` by RFC 7386.
pub fn merge(target: &mut Json, patch: &Json)
    ensures
        final(target)@ == merged(old(target)@, patch@),
{
    let t = target.take();
    *target = merge_into(t, patch);
}

fn merge_into(target: Json, patch: &Json) -> (r: Json)
    ensures
        r@ == merged(target@, patch@),
    decreases patch,
{
    let p = match patch {
        Json::Object(p) => p,
        _ => {
            return patch.dup();
        },
    };
    let ghost base = base_members(target@);
    let mut out = match target {
        Json::Object(o) => o,
        _ => Object::new(),
    };
    let n: usize = p.len();
    let ghost keys = p.keys();
    let ghost pm = p.map();
    let mut i: usize = 0;
    while i < n
        invariant
            i <= n,
            n == keys.len(),
            keys == p.keys(),
            pm == p.map(),
            lists_keys(keys, pm),
            *patch == Json::Object(*p),
            forall|k: Seq<char>| #[trigger] out.map().contains_key(k)
                <==> (if keys.take(i as int).contains(k) { !(pm[k] is Null) } else { base.contains_key(k) }),
            forall|k: Seq<char>| #[trigger]
                out.map().contains_key(k) ==> out.map()[k] == (if keys.take(i as int).contains(k) {
                    merged(Tree::Object(base).at(k), pm[k])
                } else {
                    base[k]
                }),
        decreases n - i,
    {
        let key = p.key(i);
        let v = p.value(i);
        proof {
            assert(decreases_to!(*patch => patch->Object_0));
            assert(decreases_to!(p => v));
            crate::json::lemma_prefix_of_keys(keys, pm, i as int);
        }
        if v.is_null() {
            out = out.remove(key);
        } else {
            let inner = match out.get(key) {
                Some(u) => merge_into(u.dup(), v),
                None => merge_into(Json::Null, v),
            };
            out = out.insert(key, inner);
        }
        i = i + 1;
    }
    proof {
        assert(keys.take(n as int) =~= keys);
        assert forall|k: Seq<char>| #[trigger] keys.contains(k) <==> pm.contains_key(k) by {
            assert(pm.contains_key(k) <==> keys.contains(k));
        }
        assert(out.map() =~= merged(Tree::Object(base), patch@)->Object_0);
        assert(merged(target@, patch@) == merged(Tree::Object(base), patch@));
    }
    Json::Object(out)
}

/// The key by which the items of a well-known list are told apart, so that a
/// patch adds to the list and does not replace it.
pub fn strategic_merge_key(field: &str) -> (r: Option<&'static str>)
    ensures
        opt_str(r) == list_key(field@),
{
    if same(field, "conditions") {
        Some("type")
    } else if same(field, "containers") || same(field, "initContainers") || same(
        field,
        "ephemeralContainers",
    ) || same(field, "volumes") || same(field, "volumeMounts") || same(field, "imagePullSecrets")
        || same(field, "env") || same(field, "envFrom") {
        Some("name")
    } else if same(field, "ports") {
        Some("containerPort")
    } else if same(field, "ownerReferences") {
        Some("uid")
    } else if same(field, "hostAliases") {
        Some("ip")
    } else if same(field, "topologySpreadConstraints") {
        Some("topologyKey")
    } else {
        None
    }
}

/// Merges `patch` into `target` as a strategic merge patch.
pub fn strategic_merge(target: &mut Json, patch: &Json)
    ensures
        final(target)@ == strategic(old(target)@, patch@),
{
    let t = target.take();
    *target = strategic_into(t, patch);
}

fn strategic_into(target: Json, patch: &Json) -> (r: Json)
    ensures
        r@ == strategic(target@, patch@),
    decreases patch,
{
    let p = match patch {
        Json::Object(p) => p,
        _ => {
            return patch.dup();
        },
    };
    let ghost base = base_members(target@);
    let mut out = match target {
        Json::Object(o) => o,
        _ => Object::new(),
    };
    let n: usize = p.len();
    let ghost keys = p.keys();
    let ghost pm = p.map();
    let ghost want = strategic(Tree::Object(base), patch@)->Object_0;
    let mut i: usize = 0;
    while i < n
        invariant
            i <= n,
            n == keys.len(),
            keys == p.keys(),
            pm == p.map(),
            lists_keys(keys, pm),
            *patch == Json::Object(*p),
            want == strategic(Tree::Object(base), patch@)->Object_0,
            forall|k: Seq<char>| #[trigger] out.map().contains_key(k)
                <==> (if keys.take(i as int).contains(k) { !(pm[k] is Null) } else { base.contains_key(k) }),
            forall|k: Seq<char>| #[trigger] out.map().contains_key(k) ==> out.map()[k]
                == (if keys.take(i as int).contains(k) { want[k] } else { base[k] }),
        decreases n - i,
    {
        let key = p.key(i);
        let v = p.value(i);
        proof {
            assert(decreases_to!(*patch => patch->Object_0));
            assert(decreases_to!(p => v));
            crate::json::lemma_prefix_of_keys(keys, pm, i as int);
        }
        if v.is_null() {
            out = out.remove(key);
        } else {
            let inner = match out.get(key) {
                Some(u) => match (u, v) {
                    (Json::Array(t), Json::Array(q)) => match strategic_merge_key(key) {
                        Some(by) => {
                            assert(u@ == Tree::Array(trees(t@)));
                            assert(v@ == Tree::Array(trees(q@)));
                            Json::Array(strategic_merge_list(dup_all(t), q, by))
                        },
                        None => v.dup(),
                    },
                    _ => strategic_into(u.dup(), v),
                },
                None => strategic_into(Json::Null, v),
            };
            assert(inner@ == want[key@]);
            out = out.insert(key, inner);
        }
        i = i + 1;
    }
    proof {
        assert(keys.take(n as int) =~= keys);
        assert forall|k: Seq<char>| #[trigger] keys.contains(k) <==> pm.contains_key(k) by {
            assert(pm.contains_key(k) <==> keys.contains(k));
        }
        assert(out.map() =~= want);
        assert(strategic(target@, patch@) == strategic(Tree::Object(base), patch@));
    }
    Json::Object(out)
}

/// Where the first item stands whose member `key` equals `value`.
fn find_with(items: &Vec<Json>, key: &str, value: &Json) -> (r: Option<usize>)
    ensures
        match r {
            Some(i) => first_with(trees(items@), key@, value@) == Some(i as int) && i
                < items@.len(),
            None => first_with(trees(items@), key@, value@) is None,
        },
{
    let mut i: usize = 0;
    let ghost ts = trees(items@);
    while i < items.len()
        invariant
            i <= items.len(),
            ts == trees(items@),
            first_with(ts.take(i as int), key@, value@) is None,
        decreases items.len() - i,
    {
        proof {
            assert(ts.take(i + 1).drop_last() =~= ts.take(i as int));
            assert(ts.take(i + 1).last() == items@[i as int]@);
        }
        let hit = match items[i].get(key) {
            Some(v) => v.equals(value),
            None => false,
        };
        if hit {
            proof {
                lemma_first_with_extends(ts, i + 1, key@, value@);
                assert(ts.take(ts.len() as int) =~= ts);
            }
            return Some(i);
        }
        i = i + 1;
    }
    assert(ts.take(i as int) =~= ts);
    None
}

proof fn lemma_first_with_extends(items: Seq<Tree>, n: int, key: Seq<char>, value: Tree)
    requires
        0 <= n <= items.len(),
        first_with(items.take(n), key, value) is Some,
    ensures
        first_with(items, key, value) == first_with(items.take(n), key, value),
    decreases items.len() - n,
{
    if n < items.len() {
        assert(items.take(n + 1).drop_last() =~= items.take(n));
        lemma_first_with_extends(items, n + 1, key, value);
    } else {
        assert(items.take(n) =~= items);
    }
}

/// Puts each item of `patch` into `target`: merged into the first item with the
/// same `key`, or appended.
pub fn strategic_merge_list(target: Vec<Json>, patch: &Vec<Json>, key: &str) -> (r: Vec<Json>)
    ensures
        trees(r@) == strategic_list(trees(target@), trees(patch@), key@),
    decreases patch,
{
    let ghost t0 = trees(target@);
    let ghost ps = trees(patch@);
    let mut out = target;
    let mut i: usize = 0;
    assert(ps.take(0) =~= Seq::<Tree>::empty());
    while i < patch.len()
        invariant
            i <= patch.len(),
            ps == trees(patch@),
            trees(out@) == strategic_list(t0, ps.take(i as int), key@),
        decreases patch.len() - i,
    {
        let item = &patch[i];
        proof {
            assert(decreases_to!(*patch => patch[i as int]));
            assert(ps.take(i + 1).drop_last() =~= ps.take(i as int));
            assert(ps.take(i + 1).last() == item@);
        }
        let found: Option<usize> = match item.get(key) {
            Some(v) => find_with(&out, key, v),
            None => None,
        };
        let ghost was = out@;
        match found {
            Some(j) => {
                let m = strategic_into(out[j].dup(), item);
                out.set(j, m);
                assert(trees(out@) =~= trees(was).update(j as int, m@));
            },
            None => {
                let c = item.dup();
                proof {
                    lemma_trees_push(out@, c);
                }
                out.push(c);
            },
        }
        i = i + 1;
    }
    assert(ps.take(i as int) =~= ps);
    out
}

// ---------------------------------------------------------------------------
// What merging promises
// ---------------------------------------------------------------------------

/// A merge sets what it names: where the patch holds something other than an
/// object or null at a path of members, the merged document holds it there.
pub proof fn law_merge_sets(target: Tree, patch: Tree, path: Seq<Seq<char>>)
    requires
        member(patch, path) is Some,
        !(member(patch, path)->0 is Null),
        !(member(patch, path)->0 is Object),
    ensures
        member(merged(target, patch), path) == member(patch, path),
    decreases path.len(),
{
    if path.len() > 0 {
        let p = patch->Object_0;
        let k = path[0];
        assert(p.contains_key(k));
        if p[k] is Null {
            assert(member(p[k], path.skip(1)) is Some);
            if path.len() > 1 {
                assert(p[k].get(path.skip(1)[0]) is None);
            }
        }
        let base = base_members(target);
        law_merge_sets(Tree::Object(base).at(k), p[k], path.skip(1));
    }
}

/// A merge removes what the patch names with a null, at any depth and whether or
/// not the target has it.
pub proof fn law_merge_removes(target: Tree, patch: Tree, path: Seq<Seq<char>>)
    requires
        path.len() > 0,
        member(patch, path) == Some(Tree::Null),
    ensures
        member(merged(target, patch), path) is None,
    decreases path.len(),
{
    let p = patch->Object_0;
    let k = path[0];
    if path.len() == 1 {
        assert(member(p[k], path.skip(1)) == Some(p[k]));
    } else if !(p[k] is Null) {
        law_merge_removes(Tree::Object(base_members(target)).at(k), p[k], path.skip(1));
    }
}

/// A strategic merge removes what the patch names with a null, at any depth of
/// objects and whether or not the target has it.
pub proof fn law_strategic_removes(target: Tree, patch: Tree, path: Seq<Seq<char>>)
    requires
        path.len() > 0,
        member(patch, path) == Some(Tree::Null),
    ensures
        member(strategic(target, patch), path) is None,
    decreases path.len(),
{
    let p = patch->Object_0;
    let k = path[0];
    if path.len() == 1 {
        assert(member(p[k], path.skip(1)) == Some(p[k]));
    } else if !(p[k] is Null) {
        law_strategic_removes(Tree::Object(base_members(target)).at(k), p[k], path.skip(1));
    }
}

/// A patch does not name a path: it has objects along the path as far as it goes,
/// and ends before the path does.
pub open spec fn leaves_alone(patch: Tree, path: Seq<Seq<char>>) -> bool
    decreases path.len(),
{
    path.len() > 0 && patch is Object && match patch.get(path[0]) {
        Some(p) => leaves_alone(p, path.skip(1)),
        None => true,
    }
}

/// A merge leaves alone what the patch does not name, at any depth.
pub proof fn law_merge_keeps(target: Tree, patch: Tree, path: Seq<Seq<char>>)
    requires
        leaves_alone(patch, path),
    ensures
        member(merged(target, patch), path) == member(target, path),
    decreases path.len(),
{
    let k = path[0];
    match patch.get(k) {
        Some(p) => {
            let u = Tree::Object(base_members(target)).at(k);
            law_merge_keeps(u, p, path.skip(1));
        },
        None => {},
    }
}

/// A strategic merge leaves alone what the patch does not name, at any depth.
pub proof fn law_strategic_keeps(target: Tree, patch: Tree, path: Seq<Seq<char>>)
    requires
        leaves_alone(patch, path),
    ensures
        member(strategic(target, patch), path) == member(target, path),
    decreases path.len(),
{
    let k = path[0];
    match patch.get(k) {
        Some(p) => {
            let u = Tree::Object(base_members(target)).at(k);
            law_strategic_keeps(u, p, path.skip(1));
        },
        None => {},
    }
}

/// A strategic merge of a well-known list loses no item: the list only grows,
/// and an item that no patch item names stays as it is.
pub proof fn law_strategic_list_keeps(
    target: Seq<Tree>,
    patch: Seq<Tree>,
    key: Seq<char>,
    i: int,
)
    requires
        0 <= i < target.len(),
        forall|j: int|
            0 <= j < patch.len() ==> match (#[trigger] patch[j]).get(key) {
                Some(v) => match target[i].get(key) {
                    Some(w) => !w.alike(v),
                    None => true,
                },
                None => true,
            },
    ensures
        strategic_list(target, patch, key).len() >= target.len(),
        strategic_list(target, patch, key)[i] == target[i],
    decreases patch.len(),
{
    if patch.len() > 0 {
        let p = patch.drop_last();
        assert forall|j: int| 0 <= j < p.len() implies match (#[trigger] p[j]).get(key) {
            Some(v) => match target[i].get(key) {
                Some(w) => !w.alike(v),
                None => true,
            },
            None => true,
        } by {
            assert(p[j] == patch[j]);
        }
        law_strategic_list_keeps(target, p, key, i);
        let t = strategic_list(target, p, key);
        let item = patch.last();
        assert(item == patch[patch.len() - 1]);
        match item.get(key) {
            Some(v) => {
                lemma_first_with_is_one(t, key, v);
            },
            None => {},
        }
    }
}

proof fn lemma_first_with_is_one(items: Seq<Tree>, key: Seq<char>, value: Tree)
    ensures
        match first_with(items, key, value) {
            Some(i) => 0 <= i < items.len() && items[i].get(key) is Some && items[i].get(
                key,
            )->0.alike(value),
            None => true,
        },
    decreases items.len(),
{
    if items.len() > 0 {
        lemma_first_with_is_one(items.drop_last(), key, value);
    }
}

/// A scalar: a truth value, a number or a text.
pub open spec fn is_scalar(t: Tree) -> bool {
    t is Bool || t is Number || t is String
}

proof fn lemma_scalars_alike(a: Tree, b: Tree, c: Tree)
    requires
        is_scalar(a),
        a.alike(b),
    ensures
        is_scalar(b),
        b.alike(a),
        a.alike(c) == b.alike(c),
        c.alike(a) == c.alike(b),
{
}

/// A strategic merge sets what it names: a scalar of the patch, at any depth of
/// objects, reads back from the result.
pub proof fn law_strategic_sets(target: Tree, patch: Tree, path: Seq<Seq<char>>)
    requires
        member(patch, path) is Some,
        is_scalar(member(patch, path)->0),
    ensures
        member(strategic(target, patch), path) == member(patch, path),
    decreases path.len(),
{
    if path.len() > 0 {
        let p = patch->Object_0;
        let k = path[0];
        assert(p.contains_key(k));
        let u = Tree::Object(base_members(target)).at(k);
        if p[k] is Null || p[k] is Array {
            if path.len() > 1 {
                assert(p[k].get(path.skip(1)[0]) is None);
            }
        }
        law_strategic_sets(u, p[k], path.skip(1));
    }
}

/// The items of a patch are told apart by scalars, where they have the key at all.
pub open spec fn keyed_by_scalars(patch: Seq<Tree>, key: Seq<char>) -> bool {
    forall|j: int|
        0 <= j < patch.len() ==> match (#[trigger] patch[j]).get(key) {
            Some(v) => is_scalar(v),
            None => true,
        }
}

/// An item has a key that is like another.
pub open spec fn has_key_like(item: Tree, key: Seq<char>, v: Tree) -> bool {
    match item.get(key) {
        Some(w) => w.alike(v),
        None => false,
    }
}

proof fn lemma_first_with(items: Seq<Tree>, key: Seq<char>, v: Tree)
    ensures
        match first_with(items, key, v) {
            Some(i) => 0 <= i < items.len() && has_key_like(items[i], key, v) && forall|a: int|
                0 <= a < i ==> !has_key_like(#[trigger] items[a], key, v),
            None => forall|a: int| 0 <= a < items.len() ==> !has_key_like(#[trigger] items[a], key, v),
        },
    decreases items.len(),
{
    if items.len() > 0 {
        let rest = items.drop_last();
        lemma_first_with(rest, key, v);
        assert forall|a: int| 0 <= a < rest.len() implies rest[a] == #[trigger] items[a] by {}
        assert(items.last() == items[items.len() - 1]);
    }
}

proof fn lemma_item_keeps_key(t: Tree, item: Tree, key: Seq<char>)
    requires
        item.get(key) is Some,
        is_scalar(item.get(key)->0),
    ensures
        strategic(t, item).get(key) == item.get(key),
{
    let path = seq![key];
    assert(path.skip(1) =~= Seq::<Seq<char>>::empty());
    assert(member(item.get(key)->0, path.skip(1)) == item.get(key));
    assert(member(item, path) == item.get(key));
    law_strategic_sets(t, item, path);
    let r = strategic(t, item);
    match r.get(key) {
        Some(u) => {
            assert(member(u, path.skip(1)) == Some(u));
        },
        None => {},
    }
}

proof fn lemma_others_before(
    target: Seq<Tree>,
    patch: Seq<Tree>,
    key: Seq<char>,
    i: int,
    v: Tree,
)
    requires
        0 <= i < target.len(),
        is_scalar(v),
        keyed_by_scalars(patch, key),
        has_key_like(target[i], key, v),
        forall|a: int| 0 <= a < i ==> !has_key_like(#[trigger] target[a], key, v),
        forall|j: int| 0 <= j < patch.len() ==> !has_key_like(#[trigger] patch[j], key, v),
    ensures
        strategic_list(target, patch, key).len() >= target.len(),
        strategic_list(target, patch, key)[i] == target[i],
        forall|a: int|
            0 <= a < i ==> !has_key_like(#[trigger] strategic_list(target, patch, key)[a], key, v),
    decreases patch.len(),
{
    if patch.len() > 0 {
        let short = patch.drop_last();
        let item = patch.last();
        assert(item == patch[patch.len() - 1]);
        assert forall|j: int| 0 <= j < short.len() implies !has_key_like(
            #[trigger] short[j],
            key,
            v,
        ) by {
            assert(short[j] == patch[j]);
        }
        assert forall|j: int| 0 <= j < short.len() implies match (#[trigger] short[j]).get(key) {
            Some(w) => is_scalar(w),
            None => true,
        } by {
            assert(short[j] == patch[j]);
        }
        lemma_others_before(target, short, key, i, v);
        let t = strategic_list(target, short, key);
        let r = strategic_list(target, patch, key);
        match item.get(key) {
            Some(w) => {
                lemma_first_with(t, key, w);
                match first_with(t, key, w) {
                    Some(x) => {
                        if x == i {
                            let tk = t[i].get(key)->0;
                            lemma_scalars_alike(w, w, tk);
                            lemma_scalars_alike_both(tk, v, w);
                        }
                        lemma_item_keeps_key(t[x], item, key);
                        assert forall|a: int| 0 <= a < i implies !has_key_like(
                            #[trigger] r[a],
                            key,
                            v,
                        ) by {
                            if a == x {
                                assert(r[a] == strategic(t[x], item));
                            } else {
                                assert(r[a] == t[a]);
                            }
                        }
                    },
                    None => {},
                }
            },
            None => {},
        }
    }
}

proof fn lemma_scalars_alike_both(a: Tree, v: Tree, w: Tree)
    requires
        is_scalar(v),
        is_scalar(w),
        a.alike(v),
        a.alike(w),
    ensures
        w.alike(v),
{
}

proof fn lemma_others_behind(
    target: Seq<Tree>,
    patch: Seq<Tree>,
    key: Seq<char>,
    i: int,
    n: int,
)
    requires
        0 <= n <= patch.len(),
        0 <= i < strategic_list(target, patch.take(n), key).len(),
        forall|j: int|
            n <= j < patch.len() ==> match (#[trigger] patch[j]).get(key) {
                Some(w) => !has_key_like(strategic_list(target, patch.take(n), key)[i], key, w),
                None => true,
            },
    ensures
        strategic_list(target, patch, key).len() > i,
        strategic_list(target, patch, key)[i] == strategic_list(target, patch.take(n), key)[i],
    decreases patch.len() - n,
{
    if n < patch.len() {
        let t = strategic_list(target, patch.take(n), key);
        let u = strategic_list(target, patch.take(n + 1), key);
        let item = patch[n];
        assert(patch.take(n + 1).drop_last() =~= patch.take(n));
        assert(patch.take(n + 1).last() == item);
        match item.get(key) {
            Some(w) => {
                lemma_first_with(t, key, w);
            },
            None => {},
        }
        assert(u.len() > i && u[i] == t[i]);
        lemma_others_behind(target, patch, key, i, n + 1);
    } else {
        assert(patch.take(n) =~= patch);
    }
}

/// An item of a well-known list is merged, not replaced: where one item of the patch
/// has the key of an item, the first in the list that has it, what the patch item
/// does not name stays, and the scalars that it names are set.
pub proof fn law_strategic_list_merges(
    target: Seq<Tree>,
    patch: Seq<Tree>,
    key: Seq<char>,
    i: int,
    j: int,
    path: Seq<Seq<char>>,
)
    requires
        0 <= i < target.len(),
        0 <= j < patch.len(),
        keyed_by_scalars(patch, key),
        patch[j].get(key) is Some,
        has_key_like(target[i], key, patch[j].get(key)->0),
        forall|a: int|
            0 <= a < i ==> !has_key_like(#[trigger] target[a], key, patch[j].get(key)->0),
        forall|k: int|
            0 <= k < patch.len() && k != j ==> !has_key_like(
                #[trigger] patch[k],
                key,
                patch[j].get(key)->0,
            ),
    ensures
        strategic_list(target, patch, key).len() >= target.len(),
        leaves_alone(patch[j], path) ==> member(strategic_list(target, patch, key)[i], path)
            == member(target[i], path),
        member(patch[j], path) is Some && is_scalar(member(patch[j], path)->0) ==> member(
            strategic_list(target, patch, key)[i],
            path,
        ) == member(patch[j], path),
{
    let item = patch[j];
    let v = item.get(key)->0;
    let head = patch.take(j);
    assert forall|k: int| 0 <= k < head.len() implies match (#[trigger] head[k]).get(key) {
        Some(w) => is_scalar(w),
        None => true,
    } by {
        assert(head[k] == patch[k]);
    }
    assert forall|k: int| 0 <= k < head.len() implies !has_key_like(#[trigger] head[k], key, v) by {
        assert(head[k] == patch[k]);
    }
    lemma_others_before(target, head, key, i, v);
    let t = strategic_list(target, head, key);
    lemma_first_with(t, key, v);
    assert(has_key_like(t[i], key, v));
    assert(first_with(t, key, v) == Some(i));
    let upto = patch.take(j + 1);
    assert(upto.drop_last() =~= head);
    assert(upto.last() == item);
    let u = strategic_list(target, upto, key);
    assert(u[i] == strategic(target[i], item));
    lemma_item_keeps_key(target[i], item, key);
    assert forall|k: int| j + 1 <= k < patch.len() implies match (#[trigger] patch[k]).get(key) {
        Some(w) => !has_key_like(u[i], key, w),
        None => true,
    } by {
        match patch[k].get(key) {
            Some(w) => {
                assert(!has_key_like(patch[k], key, v));
                if v.alike(w) {
                    lemma_scalars_alike(v, w, v);
                }
            },
            None => {},
        }
    }
    lemma_others_behind(target, patch, key, i, j + 1);
    lemma_list_grows(target, patch, key);
    if leaves_alone(item, path) {
        law_strategic_keeps(target[i], item, path);
    }
    if member(item, path) is Some && is_scalar(member(item, path)->0) {
        law_strategic_sets(target[i], item, path);
    }
}

proof fn lemma_list_grows(target: Seq<Tree>, patch: Seq<Tree>, key: Seq<char>)
    ensures
        strategic_list(target, patch, key).len() >= target.len(),
    decreases patch.len(),
{
    if patch.len() > 0 {
        lemma_list_grows(target, patch.drop_last(), key);
        let t = strategic_list(target, patch.drop_last(), key);
        match patch.last().get(key) {
            Some(v) => {
                lemma_first_with(t, key, v);
            },
            None => {},
        }
    }
}

/// An item whose key no item of the list has is appended as it is, behind all others.
pub proof fn law_a_new_item_is_appended(
    target: Seq<Tree>,
    item: Tree,
    key: Seq<char>,
)
    requires
        match item.get(key) {
            Some(v) => forall|a: int| 0 <= a < target.len() ==> !has_key_like(#[trigger] target[a], key, v),
            None => true,
        },
    ensures
        strategic_list(target, seq![item], key) == target.push(item),
{
    let one = seq![item];
    assert(one.drop_last() =~= Seq::<Tree>::empty());
    assert(strategic_list(target, one.drop_last(), key) == target);
    match item.get(key) {
        Some(v) => {
            lemma_first_with(target, key, v);
        },
        None => {},
    }
}

/// The lists whose items are told apart by a member, each with that member.
pub open spec fn is_keyed_list(field: Seq<char>, key: Seq<char>) -> bool {
    ||| field == "conditions"@ && key == "type"@
    ||| (field == "containers"@ || field == "initContainers"@ || field == "ephemeralContainers"@
        || field == "volumes"@ || field == "volumeMounts"@ || field == "imagePullSecrets"@
        || field == "env"@ || field == "envFrom"@) && key == "name"@
    ||| field == "ports"@ && key == "containerPort"@
    ||| field == "ownerReferences"@ && key == "uid"@
    ||| field == "hostAliases"@ && key == "ip"@
    ||| field == "topologySpreadConstraints"@ && key == "topologyKey"@
}

proof fn lemma_list_fields_differ()
    ensures
        forall|field: Seq<char>, key: Seq<char>| #[trigger]
            is_keyed_list(field, key) ==> list_key(field) == Some(key),
        forall|field: Seq<char>|
            #![trigger list_key(field)]
            match list_key(field) {
                Some(key) => is_keyed_list(field, key),
                None => true,
            },
{
    reveal_strlit("conditions");
    reveal_strlit("containers");
    reveal_strlit("initContainers");
    reveal_strlit("ephemeralContainers");
    reveal_strlit("volumes");
    reveal_strlit("volumeMounts");
    reveal_strlit("imagePullSecrets");
    reveal_strlit("env");
    reveal_strlit("envFrom");
    reveal_strlit("ports");
    reveal_strlit("ownerReferences");
    reveal_strlit("hostAliases");
    reveal_strlit("topologySpreadConstraints");
    assert("conditions"@[3] == 'd');
    assert("containers"@[3] == 't');
    assert("conditions"@.len() == 10);
    assert("containers"@.len() == 10);
    assert("initContainers"@.len() == 14);
    assert("ephemeralContainers"@.len() == 19);
    assert("volumes"@.len() == 7);
    assert("volumes"@[0] == 'v');
    assert("volumeMounts"@.len() == 12);
    assert("imagePullSecrets"@.len() == 16);
    assert("env"@.len() == 3);
    assert("envFrom"@.len() == 7);
    assert("envFrom"@[0] == 'e');
    assert("ports"@.len() == 5);
    assert("ownerReferences"@.len() == 15);
    assert("hostAliases"@.len() == 11);
    assert("topologySpreadConstraints"@.len() == 25);
}

/// A strategic patch of a well-known list drops nothing that it does not name: an item
/// whose key no item of the patch has stays where it is, as it is.
pub proof fn law_well_known_lists_keep(
    target: Tree,
    patch: Tree,
    field: Seq<char>,
    key: Seq<char>,
    i: int,
)
    requires
        is_keyed_list(field, key),
        target.get(field) is Some,
        target.get(field)->0 is Array,
        patch.get(field) is Some,
        patch.get(field)->0 is Array,
        0 <= i < (target.get(field)->0->Array_0).len(),
        forall|j: int|
            0 <= j < (patch.get(field)->0->Array_0).len() ==> match (
            #[trigger] (patch.get(field)->0->Array_0)[j]).get(key) {
                Some(v) => !has_key_like((target.get(field)->0->Array_0)[i], key, v),
                None => true,
            },
    ensures
        ({
            let list = strategic(target, patch).get(field);
            &&& list is Some && list->0 is Array
            &&& (list->0->Array_0).len() >= (target.get(field)->0->Array_0).len()
            &&& (list->0->Array_0)[i] == (target.get(field)->0->Array_0)[i]
        }),
{
    lemma_list_fields_differ();
    let t = target.get(field)->0->Array_0;
    let q = patch.get(field)->0->Array_0;
    assert(list_key(field) == Some(key));
    assert(strategic(target, patch).get(field) == Some(Tree::Array(strategic_list(t, q, key))));
    assert forall|j: int| 0 <= j < q.len() implies match (#[trigger] q[j]).get(key) {
        Some(v) => match t[i].get(key) {
            Some(w) => !w.alike(v),
            None => true,
        },
        None => true,
    } by {}
    law_strategic_list_keeps(t, q, key, i);
}

/// A strategic patch of a well-known list merges item by item, by the member that tells
/// its items apart.
pub proof fn law_well_known_lists_merge(
    target: Tree,
    patch: Tree,
    field: Seq<char>,
    key: Seq<char>,
    i: int,
    j: int,
    path: Seq<Seq<char>>,
)
    requires
        is_keyed_list(field, key),
        target.get(field) is Some,
        target.get(field)->0 is Array,
        patch.get(field) is Some,
        patch.get(field)->0 is Array,
        ({
            let t = target.get(field)->0->Array_0;
            let q = patch.get(field)->0->Array_0;
            &&& 0 <= i < t.len()
            &&& 0 <= j < q.len()
            &&& keyed_by_scalars(q, key)
            &&& q[j].get(key) is Some
            &&& has_key_like(t[i], key, q[j].get(key)->0)
            &&& forall|a: int| 0 <= a < i ==> !has_key_like(#[trigger] t[a], key, q[j].get(key)->0)
            &&& forall|k: int|
                0 <= k < q.len() && k != j ==> !has_key_like(
                    #[trigger] q[k],
                    key,
                    q[j].get(key)->0,
                )
        }),
    ensures
        ({
            let t = target.get(field)->0->Array_0;
            let q = patch.get(field)->0->Array_0;
            let list = strategic(target, patch).get(field);
            &&& list is Some && list->0 is Array
            &&& (list->0->Array_0).len() >= t.len()
            &&& leaves_alone(q[j], path) ==> member((list->0->Array_0)[i], path) == member(
                t[i],
                path,
            )
            &&& member(q[j], path) is Some && is_scalar(member(q[j], path)->0) ==> member(
                (list->0->Array_0)[i],
                path,
            ) == member(q[j], path)
        }),
{
    lemma_list_fields_differ();
    let t = target.get(field)->0->Array_0;
    let q = patch.get(field)->0->Array_0;
    assert(list_key(field) == Some(key));
    assert(strategic(target, patch).get(field) == Some(Tree::Array(strategic_list(t, q, key))));
    law_strategic_list_merges(t, q, key, i, j, path);
}

/// Every other list is replaced as a whole.
pub proof fn law_other_lists_are_replaced(target: Tree, patch: Tree, field: Seq<char>)
    requires
        forall|key: Seq<char>| !is_keyed_list(field, key),
        patch.get(field) is Some,
        patch.get(field)->0 is Array,
    ensures
        strategic(target, patch).get(field) == patch.get(field),
{
    lemma_list_fields_differ();
    if list_key(field) is Some {
        assert(is_keyed_list(field, list_key(field)->0));
    }
    let u = Tree::Object(base_members(target)).at(field);
    let list = patch.get(field)->0;
    assert(strategic(u, list) == list);
    assert(strategic(target, patch).get(field) == Some(list));
}

} // verus!
