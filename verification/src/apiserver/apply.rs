//! Server-side apply (KEP-555): who owns which field.
//!
//! Each apply records the fields that its manager sets as a FieldsV1 tree in
//! `metadata.managedFields`. A later apply by the same manager replaces that
//! record and prunes what it dropped; an apply that changes a leaf of another
//! manager is a conflict unless it is forced.

use vstd::prelude::*;
use vstd::string::*;

use crate::json::{
    empty_object, key_order, lemma_prefix_of_keys, lemma_trees_push, lists_keys, opt_tree,
    str_tree, trees, Json, Object, Tree,
};
use crate::merge::{law_merge_sets, merge, merged};
use crate::pointer::{find_member, look_up, lookup, member, remove_at, without};
use crate::text::{
    before, has_prefix, join, join_with, same, strip_prefix, texts, without_prefix,
};

verus! {

/// Another `manager` owns `field`.
pub struct Conflict {
    pub field: String,
    pub manager: String,
}

/// What a [`Conflict`] says.
pub ghost struct ConflictView {
    pub field: Seq<char>,
    pub manager: Seq<char>,
}

impl View for Conflict {
    type V = ConflictView;

    open spec fn view(&self) -> ConflictView {
        ConflictView { field: self.field@, manager: self.manager@ }
    }
}

// ---------------------------------------------------------------------------
// The model
// ---------------------------------------------------------------------------

/// The FieldsV1 tree of an intent: an object that is not empty has a member
/// `f:key` for each of its members; everything else is a leaf.
pub open spec fn fields_of(t: Tree) -> Tree
    decreases t,
{
    match t {
        Tree::Object(m) => Tree::Object(
            Map::new(
                |k: Seq<char>| has_prefix(k, "f:"@) && m.contains_key(k.skip("f:"@.len() as int)),
                |k: Seq<char>|
                    {
                        let name = k.skip("f:"@.len() as int);
                        if m.contains_key(name) {
                            fields_of(m[name])
                        } else {
                            Tree::Null
                        }
                    },
            ),
        ),
        _ => empty_object(),
    }
}

/// The name of a field in a FieldsV1 tree.
pub open spec fn field_name(key: Seq<char>) -> Seq<char> {
    match without_prefix(key, "f:"@) {
        Some(name) => name,
        None => key,
    }
}

/// The paths of the leaves of a FieldsV1 tree, in the order of its keys, each
/// behind `prefix`.
pub open spec fn leaf_paths(t: Tree, prefix: Seq<Seq<char>>) -> Seq<Seq<Seq<char>>>
    decreases t, 1nat, 0nat,
{
    match t {
        Tree::Object(m) => if key_order(m).len() > 0 {
            member_paths(t, key_order(m), prefix)
        } else {
            seq![prefix]
        },
        _ => seq![prefix],
    }
}

/// The paths of the leaves under the members `keys`.
pub open spec fn member_paths(
    t: Tree,
    keys: Seq<Seq<char>>,
    prefix: Seq<Seq<char>>,
) -> Seq<Seq<Seq<char>>>
    decreases t, 0nat, keys.len(),
{
    if keys.len() == 0 {
        Seq::empty()
    } else {
        let rest = member_paths(t, keys.drop_last(), prefix);
        match t {
            Tree::Object(m) => if m.contains_key(keys.last()) {
                rest + leaf_paths(m[keys.last()], prefix.push(field_name(keys.last())))
            } else {
                rest
            },
            _ => rest,
        }
    }
}

/// The leaves that an entry of `managedFields` owns.
pub open spec fn owned(entry: Tree) -> Seq<Seq<Seq<char>>> {
    leaf_paths(entry.at("fieldsV1"@), Seq::empty())
}

/// The manager of an entry of `managedFields`.
pub open spec fn manager_of(entry: Tree) -> Seq<char> {
    entry.at("manager"@).text_or_empty()
}

/// The first manager other than `me` that owns `path`.
pub open spec fn other_owner(
    entries: Seq<Tree>,
    me: Seq<char>,
    path: Seq<Seq<char>>,
) -> Option<Seq<char>>
    decreases entries.len(),
{
    if entries.len() == 0 {
        None
    } else {
        match other_owner(entries.drop_last(), me, path) {
            Some(m) => Some(m),
            None => {
                let e = entries.last();
                if manager_of(e) != me && owned(e).contains(path) {
                    Some(manager_of(e))
                } else {
                    None
                }
            },
        }
    }
}

/// The leaves that `me` owned before, by its last entry.
pub open spec fn owned_before(entries: Seq<Tree>, me: Seq<char>) -> Seq<Seq<Seq<char>>>
    decreases entries.len(),
{
    if entries.len() == 0 {
        Seq::empty()
    } else if manager_of(entries.last()) == me {
        owned(entries.last())
    } else {
        owned_before(entries.drop_last(), me)
    }
}

/// The two documents hold the same at a path.
pub open spec fn unchanged(a: Option<Tree>, b: Option<Tree>) -> bool {
    match (a, b) {
        (Some(x), Some(y)) => x.alike(y),
        (None, None) => true,
        _ => false,
    }
}

/// The first of `paths` that another manager owns and that the intent changes.
pub open spec fn first_conflict(
    existing: Tree,
    applied: Tree,
    me: Seq<char>,
    paths: Seq<Seq<Seq<char>>>,
) -> Option<ConflictView>
    decreases paths.len(),
{
    if paths.len() == 0 {
        None
    } else {
        match first_conflict(existing, applied, me, paths.drop_last()) {
            Some(c) => Some(c),
            None => {
                let p = paths.last();
                match other_owner(managed(existing), me, p) {
                    Some(m) => if unchanged(lookup(existing, p), lookup(applied, p)) {
                        None
                    } else {
                        Some(ConflictView { field: join(p, "."@), manager: m })
                    },
                    None => None,
                }
            },
        }
    }
}

/// The entries of `metadata.managedFields`.
pub open spec fn managed(t: Tree) -> Seq<Tree> {
    t.at("metadata"@).at("managedFields"@).items_or_none()
}

/// The document without those of `paths` that are not in `kept`.
pub open spec fn pruned(
    t: Tree,
    paths: Seq<Seq<Seq<char>>>,
    kept: Seq<Seq<Seq<char>>>,
) -> Tree
    decreases paths.len(),
{
    if paths.len() == 0 {
        t
    } else {
        let u = pruned(t, paths.drop_last(), kept);
        if kept.contains(paths.last()) {
            u
        } else {
            without(u, paths.last())
        }
    }
}

/// The entries of other managers.
pub open spec fn entries_of_others(entries: Seq<Tree>, me: Seq<char>) -> Seq<Tree>
    decreases entries.len(),
{
    if entries.len() == 0 {
        Seq::empty()
    } else {
        let rest = entries_of_others(entries.drop_last(), me);
        if entries.last().at("manager"@) == Tree::String(me) {
            rest
        } else {
            rest.push(entries.last())
        }
    }
}

/// The entry that records an apply.
pub open spec fn apply_entry(applied: Tree, me: Seq<char>, now: Seq<char>) -> Tree {
    Tree::Object(
        map![
            "manager"@ => Tree::String(me),
            "operation"@ => str_tree("Apply"),
            "apiVersion"@ => Tree::String(applied.at("apiVersion"@).text_or("v1"@)),
            "time"@ => Tree::String(now),
            "fieldsType"@ => str_tree("FieldsV1"),
            "fieldsV1"@ => fields_of(applied),
        ],
    )
}

/// The document with the manager's entry recorded as the last one.
pub open spec fn recorded(t: Tree, entry: Tree, me: Seq<char>) -> Tree {
    let entries = entries_of_others(managed(t), me).push(entry);
    t.set(
        "metadata"@,
        t.at("metadata"@).as_object().set("managedFields"@, Tree::Array(entries)),
    )
}

/// What an apply leaves: what the manager dropped is pruned, the intent is
/// merged, and the manager's fields are recorded.
pub open spec fn apply_result(existing: Tree, applied: Tree, me: Seq<char>, now: Seq<char>) -> Tree {
    let kept = leaf_paths(fields_of(applied), Seq::empty());
    let base = pruned(existing, owned_before(managed(existing), me), kept);
    recorded(merged(base, applied), apply_entry(applied, me, now), me)
}

/// A leaf keeps what it held: a value stays, and an object stays an object,
/// whatever comes to stand in it. A leaf that held nothing has nothing to keep.
pub open spec fn keeps(before: Option<Tree>, after: Option<Tree>) -> bool {
    match (before, after) {
        (None, _) => true,
        (Some(Tree::Null), _) => true,
        (Some(_), None) => false,
        (Some(Tree::Object(_)), Some(y)) => y is Object,
        (Some(x), Some(y)) => x.alike(y),
    }
}

/// The first of `paths` that does not keep what it held.
pub open spec fn first_lost(
    before: Tree,
    after: Tree,
    paths: Seq<Seq<Seq<char>>>,
) -> Option<Seq<Seq<char>>>
    decreases paths.len(),
{
    if paths.len() == 0 {
        None
    } else {
        match first_lost(before, after, paths.drop_last()) {
            Some(p) => Some(p),
            None => {
                let p = paths.last();
                if keeps(member(before, p), member(after, p)) {
                    None
                } else {
                    Some(p)
                }
            },
        }
    }
}

/// The first leaf of another manager that does not keep what it held.
pub open spec fn first_overwritten(
    before: Tree,
    after: Tree,
    me: Seq<char>,
    entries: Seq<Tree>,
) -> Option<ConflictView>
    decreases entries.len(),
{
    if entries.len() == 0 {
        None
    } else {
        match first_overwritten(before, after, me, entries.drop_last()) {
            Some(c) => Some(c),
            None => {
                let e = entries.last();
                match first_lost(before, after, owned(e)) {
                    Some(p) if manager_of(e) != me => Some(
                        ConflictView { field: join(p, "."@), manager: manager_of(e) },
                    ),
                    _ => None,
                }
            },
        }
    }
}

/// The conflict that an apply without force runs into: a leaf that it sets
/// differently from another manager, or else a leaf of another manager that it
/// overwrites from above or from below.
pub open spec fn apply_conflict(existing: Tree, applied: Tree, me: Seq<char>) -> Option<
    ConflictView,
> {
    match first_conflict(existing, applied, me, leaf_paths(fields_of(applied), Seq::empty())) {
        Some(c) => Some(c),
        None => first_overwritten(existing, merged(existing, applied), me, managed(existing)),
    }
}

/// Paths of strings as paths of texts.
pub open spec fn path_texts(v: Seq<Vec<String>>) -> Seq<Seq<Seq<char>>> {
    v.map_values(|p: Vec<String>| texts(p@))
}

// ---------------------------------------------------------------------------
// FieldsV1
// ---------------------------------------------------------------------------

proof fn lemma_field_key(name: Seq<char>)
    ensures
        has_prefix("f:"@ + name, "f:"@),
        ("f:"@ + name).skip("f:"@.len() as int) == name,
        field_name("f:"@ + name) == name,
{
    let k = "f:"@ + name;
    assert(k.subrange(0, 0 + "f:"@.len() as int) =~= "f:"@);
    assert(k.skip("f:"@.len() as int) =~= name);
}

proof fn lemma_prefixed_key(k: Seq<char>)
    requires
        has_prefix(k, "f:"@),
    ensures
        k == "f:"@ + k.skip("f:"@.len() as int),
{
    assert(k.subrange(0, 0 + "f:"@.len() as int) == "f:"@);
    assert(k =~= "f:"@ + k.skip("f:"@.len() as int));
}

/// The FieldsV1 tree for an applied intent: objects recurse under `f:<key>`;
/// scalars and arrays are leaves.
pub fn fields_v1(applied: &Json) -> (r: Json)
    ensures
        r@ == fields_of(applied@),
    decreases applied,
{
    let o = match applied {
        Json::Object(o) => o,
        _ => {
            return Json::object();
        },
    };
    let mut out = Object::new();
    let n: usize = o.len();
    let ghost keys = o.keys();
    let ghost m = o.map();
    let mut i: usize = 0;
    while i < n
        invariant
            i <= n,
            n == keys.len(),
            keys == o.keys(),
            m == o.map(),
            lists_keys(keys, m),
            *applied == Json::Object(*o),
            forall|k: Seq<char>| #[trigger]
                out.map().contains_key(k) <==> (has_prefix(k, "f:"@) && keys.take(i as int).contains(
                    k.skip("f:"@.len() as int),
                )),
            forall|k: Seq<char>| #[trigger]
                out.map().contains_key(k) ==> out.map()[k] == fields_of(
                    m[k.skip("f:"@.len() as int)],
                ),
        decreases n - i,
    {
        let key = o.key(i);
        let v = o.value(i);
        proof {
            assert(decreases_to!(*applied => applied->Object_0));
            assert(decreases_to!(o => v));
            lemma_prefix_of_keys(keys, m, i as int);
            lemma_field_key(key@);
        }
        let inner = fields_v1(v);
        let name = "f:".to_owned().concat(key);
        out = out.insert(name.as_str(), inner);
        proof {
            assert forall|k: Seq<char>| #[trigger]
                out.map().contains_key(k) <==> (has_prefix(k, "f:"@) && keys.take(i + 1).contains(
                    k.skip("f:"@.len() as int),
                )) by {
                if has_prefix(k, "f:"@) {
                    lemma_prefixed_key(k);
                }
            }
        }
        i = i + 1;
    }
    proof {
        assert(keys.take(n as int) =~= keys);
        assert forall|k: Seq<char>| #[trigger] keys.contains(k) <==> m.contains_key(k) by {
            assert(m.contains_key(k) <==> keys.contains(k));
        }
        assert(out.map() =~= fields_of(applied@)->Object_0);
    }
    Json::Object(out)
}

fn dup_path(p: &Vec<String>) -> (r: Vec<String>)
    ensures
        texts(r@) == texts(p@),
{
    let mut out: Vec<String> = Vec::new();
    let mut i: usize = 0;
    while i < p.len()
        invariant
            i <= p.len(),
            out@.len() == i,
            forall|j: int| 0 <= j < i ==> (#[trigger] out@[j])@ == p@[j]@,
        decreases p.len() - i,
    {
        out.push(p[i].clone());
        i = i + 1;
    }
    assert(texts(out@) =~= texts(p@));
    out
}

proof fn lemma_path_texts_push(s: Seq<Vec<String>>, p: Vec<String>)
    ensures
        path_texts(s.push(p)) == path_texts(s).push(texts(p@)),
{
    assert(path_texts(s.push(p)) =~= path_texts(s).push(texts(p@)));
}

/// Lists the paths of the leaves of a FieldsV1 tree behind `out`.
pub fn leaves(fv1: &Json, prefix: &Vec<String>, out: &mut Vec<Vec<String>>)
    ensures
        path_texts(final(out)@) == path_texts(old(out)@) + leaf_paths(fv1@, texts(prefix@)),
    decreases fv1,
{
    let ghost before_out = path_texts(out@);
    let ghost pre = texts(prefix@);
    let o: &Object = match fv1 {
        Json::Object(o) if o.len() > 0 => o,
        _ => {
            let p = dup_path(prefix);
            proof {
                lemma_path_texts_push(out@, p);
            }
            out.push(p);
            assert(path_texts(out@) =~= before_out + seq![pre]);
            return;
        },
    };
    let n: usize = o.len();
    let ghost keys = o.keys();
    let ghost m = o.map();
    let mut i: usize = 0;
    assert(path_texts(out@) =~= before_out + member_paths(fv1@, keys.take(0), pre));
    while i < n
        invariant
            i <= n,
            n == keys.len(),
            keys == o.keys(),
            keys == key_order(m),
            m == o.map(),
            pre == texts(prefix@),
            lists_keys(keys, m),
            *fv1 == Json::Object(*o),
            path_texts(out@) == before_out + member_paths(fv1@, keys.take(i as int), pre),
        decreases n - i,
    {
        let key = o.key(i);
        let v = o.value(i);
        proof {
            assert(decreases_to!(*fv1 => fv1->Object_0));
            assert(decreases_to!(o => v));
            assert(keys.take(i + 1).drop_last() =~= keys.take(i as int));
            assert(keys.take(i + 1).last() == key@);
        }
        let name = match strip_prefix(key, "f:") {
            Some(n) => n,
            None => key,
        };
        let mut p = dup_path(prefix);
        p.push(name.to_owned());
        proof {
            assert(texts(p@) =~= pre.push(field_name(key@)));
        }
        leaves(v, &p, out);
        proof {
            assert(path_texts(out@) =~= before_out + member_paths(fv1@, keys.take(i + 1), pre));
        }
        i = i + 1;
    }
    assert(keys.take(n as int) =~= keys);
}

/// The paths of the leaves of a FieldsV1 tree.
fn all_leaves(fv1: &Json) -> (r: Vec<Vec<String>>)
    ensures
        path_texts(r@) == leaf_paths(fv1@, Seq::empty()),
{
    let mut out: Vec<Vec<String>> = Vec::new();
    let prefix: Vec<String> = Vec::new();
    assert(texts(prefix@) =~= Seq::<Seq<char>>::empty());
    assert(path_texts(out@) =~= Seq::<Seq<Seq<char>>>::empty());
    leaves(fv1, &prefix, &mut out);
    assert(path_texts(out@) =~= leaf_paths(fv1@, Seq::empty()));
    out
}

fn same_path(a: &Vec<String>, b: &Vec<String>) -> (r: bool)
    ensures
        r == (texts(a@) == texts(b@)),
{
    if a.len() != b.len() {
        assert(texts(a@).len() != texts(b@).len());
        return false;
    }
    let mut i: usize = 0;
    while i < a.len()
        invariant
            i <= a.len(),
            a.len() == b.len(),
            forall|j: int| 0 <= j < i ==> (#[trigger] a@[j])@ == b@[j]@,
        decreases a.len() - i,
    {
        if !same(a[i].as_str(), b[i].as_str()) {
            assert(texts(a@)[i as int] != texts(b@)[i as int]);
            return false;
        }
        i = i + 1;
    }
    assert(texts(a@) =~= texts(b@));
    true
}

fn has_path(paths: &Vec<Vec<String>>, p: &Vec<String>) -> (r: bool)
    ensures
        r == path_texts(paths@).contains(texts(p@)),
{
    let mut i: usize = 0;
    while i < paths.len()
        invariant
            i <= paths.len(),
            forall|j: int| 0 <= j < i ==> #[trigger] path_texts(paths@)[j] != texts(p@),
        decreases paths.len() - i,
    {
        if same_path(&paths[i], p) {
            assert(path_texts(paths@)[i as int] == texts(p@));
            return true;
        }
        i = i + 1;
    }
    false
}

// ---------------------------------------------------------------------------
// Applying
// ---------------------------------------------------------------------------

fn managed_entries(v: &Json) -> (r: Vec<Json>)
    ensures
        trees(r@) == managed(v@),
{
    match v.at("metadata").at("managedFields") {
        Json::Array(a) => crate::json::dup_all(a),
        _ => {
            let e: Vec<Json> = Vec::new();
            assert(trees(e@) =~= Seq::<Tree>::empty());
            e
        },
    }
}

fn find_owner(entries: &Vec<Json>, me: &str, path: &Vec<String>) -> (r: Option<String>)
    ensures
        crate::text::opt_text(r) == other_owner(trees(entries@), me@, texts(path@)),
{
    let ghost ts = trees(entries@);
    let mut i: usize = 0;
    while i < entries.len()
        invariant
            i <= entries.len(),
            ts == trees(entries@),
            other_owner(ts.take(i as int), me@, texts(path@)) is None,
        decreases entries.len() - i,
    {
        let e = &entries[i];
        proof {
            assert(ts.take(i + 1).drop_last() =~= ts.take(i as int));
            assert(ts.take(i + 1).last() == e@);
        }
        let m = e.at("manager").str_or_empty();
        if !same(m, me) {
            let ls = all_leaves(e.at("fieldsV1"));
            if has_path(&ls, path) {
                proof {
                    lemma_owner_extends(ts, i + 1, me@, texts(path@));
                }
                return Some(m.to_owned());
            }
        }
        i = i + 1;
    }
    assert(ts.take(i as int) =~= ts);
    None
}

proof fn lemma_owner_extends(entries: Seq<Tree>, n: int, me: Seq<char>, path: Seq<Seq<char>>)
    requires
        0 <= n <= entries.len(),
        other_owner(entries.take(n), me, path) is Some,
    ensures
        other_owner(entries, me, path) == other_owner(entries.take(n), me, path),
    decreases entries.len() - n,
{
    if n < entries.len() {
        assert(entries.take(n + 1).drop_last() =~= entries.take(n));
        lemma_owner_extends(entries, n + 1, me, path);
    } else {
        assert(entries.take(n) =~= entries);
    }
}

fn own_leaves(entries: &Vec<Json>, me: &str) -> (r: Vec<Vec<String>>)
    ensures
        path_texts(r@) == owned_before(trees(entries@), me@),
{
    let ghost ts = trees(entries@);
    let mut n: usize = entries.len();
    assert(ts.take(n as int) =~= ts);
    while n > 0
        invariant
            n <= entries.len(),
            ts == trees(entries@),
            owned_before(ts, me@) == owned_before(ts.take(n as int), me@),
        decreases n,
    {
        let e = &entries[n - 1];
        proof {
            assert(ts.take(n as int).drop_last() =~= ts.take(n - 1));
            assert(ts.take(n as int).last() == e@);
        }
        if same(e.at("manager").str_or_empty(), me) {
            return all_leaves(e.at("fieldsV1"));
        }
        n = n - 1;
    }
    let none: Vec<Vec<String>> = Vec::new();
    assert(path_texts(none@) =~= Seq::<Seq<Seq<char>>>::empty());
    none
}

fn find_conflict(
    existing: &Json,
    applied: &Json,
    me: &str,
    paths: &Vec<Vec<String>>,
) -> (r: Option<Conflict>)
    ensures
        match r {
            Some(c) => first_conflict(existing@, applied@, me@, path_texts(paths@)) == Some(c@),
            None => first_conflict(existing@, applied@, me@, path_texts(paths@)) is None,
        },
{
    let entries = managed_entries(existing);
    let ghost ps = path_texts(paths@);
    let mut i: usize = 0;
    while i < paths.len()
        invariant
            i <= paths.len(),
            ps == path_texts(paths@),
            trees(entries@) == managed(existing@),
            first_conflict(existing@, applied@, me@, ps.take(i as int)) is None,
        decreases paths.len() - i,
    {
        let p = &paths[i];
        proof {
            assert(ps.take(i + 1).drop_last() =~= ps.take(i as int));
            assert(ps.take(i + 1).last() == texts(p@));
        }
        match find_owner(&entries, me, p) {
            Some(m) => {
                let keep = match (look_up(existing, p), look_up(applied, p)) {
                    (Some(x), Some(y)) => x.equals(y),
                    (None, None) => true,
                    _ => false,
                };
                if !keep {
                    proof {
                        lemma_conflict_extends(existing@, applied@, me@, ps, i + 1);
                    }
                    return Some(Conflict { field: join_with(p, "."), manager: m });
                }
            },
            None => {},
        }
        i = i + 1;
    }
    assert(ps.take(i as int) =~= ps);
    None
}

proof fn lemma_conflict_extends(
    existing: Tree,
    applied: Tree,
    me: Seq<char>,
    paths: Seq<Seq<Seq<char>>>,
    n: int,
)
    requires
        0 <= n <= paths.len(),
        first_conflict(existing, applied, me, paths.take(n)) is Some,
    ensures
        first_conflict(existing, applied, me, paths) == first_conflict(
            existing,
            applied,
            me,
            paths.take(n),
        ),
    decreases paths.len() - n,
{
    if n < paths.len() {
        assert(paths.take(n + 1).drop_last() =~= paths.take(n));
        lemma_conflict_extends(existing, applied, me, paths, n + 1);
    } else {
        assert(paths.take(n) =~= paths);
    }
}

/// Whether a leaf keeps what it held.
fn is_kept(before: Option<&Json>, after: Option<&Json>) -> (r: bool)
    ensures
        r == keeps(opt_tree(before), opt_tree(after)),
{
    match (before, after) {
        (None, _) => true,
        (Some(x), None) => x.is_null(),
        (Some(x), Some(y)) => if x.is_null() {
            true
        } else if x.is_object() {
            y.is_object()
        } else {
            x.equals(y)
        },
    }
}

fn find_lost(before: &Json, after: &Json, paths: &Vec<Vec<String>>) -> (r: Option<String>)
    ensures
        match r {
            Some(f) => match first_lost(before@, after@, path_texts(paths@)) {
                Some(p) => f@ == join(p, "."@),
                None => false,
            },
            None => first_lost(before@, after@, path_texts(paths@)) is None,
        },
{
    let ghost ps = path_texts(paths@);
    let mut i: usize = 0;
    while i < paths.len()
        invariant
            i <= paths.len(),
            ps == path_texts(paths@),
            first_lost(before@, after@, ps.take(i as int)) is None,
        decreases paths.len() - i,
    {
        let p = &paths[i];
        proof {
            assert(ps.take(i + 1).drop_last() =~= ps.take(i as int));
            assert(ps.take(i + 1).last() == texts(p@));
        }
        if !is_kept(find_member(before, p), find_member(after, p)) {
            proof {
                lemma_lost_extends(before@, after@, ps, i + 1);
            }
            return Some(join_with(p, "."));
        }
        i = i + 1;
    }
    assert(ps.take(i as int) =~= ps);
    None
}

proof fn lemma_lost_extends(before: Tree, after: Tree, paths: Seq<Seq<Seq<char>>>, n: int)
    requires
        0 <= n <= paths.len(),
        first_lost(before, after, paths.take(n)) is Some,
    ensures
        first_lost(before, after, paths) == first_lost(before, after, paths.take(n)),
    decreases paths.len() - n,
{
    if n < paths.len() {
        assert(paths.take(n + 1).drop_last() =~= paths.take(n));
        lemma_lost_extends(before, after, paths, n + 1);
    } else {
        assert(paths.take(n) =~= paths);
    }
}

fn find_overwritten(
    before: &Json,
    after: &Json,
    me: &str,
    entries: &Vec<Json>,
) -> (r: Option<Conflict>)
    ensures
        match r {
            Some(c) => first_overwritten(before@, after@, me@, trees(entries@)) == Some(c@),
            None => first_overwritten(before@, after@, me@, trees(entries@)) is None,
        },
{
    let ghost ts = trees(entries@);
    let mut i: usize = 0;
    while i < entries.len()
        invariant
            i <= entries.len(),
            ts == trees(entries@),
            first_overwritten(before@, after@, me@, ts.take(i as int)) is None,
        decreases entries.len() - i,
    {
        let e = &entries[i];
        proof {
            assert(ts.take(i + 1).drop_last() =~= ts.take(i as int));
            assert(ts.take(i + 1).last() == e@);
        }
        let m = e.at("manager").str_or_empty();
        if !same(m, me) {
            let ls = all_leaves(e.at("fieldsV1"));
            match find_lost(before, after, &ls) {
                Some(field) => {
                    proof {
                        lemma_overwritten_extends(before@, after@, me@, ts, i + 1);
                    }
                    return Some(Conflict { field, manager: m.to_owned() });
                },
                None => {},
            }
        }
        i = i + 1;
    }
    assert(ts.take(i as int) =~= ts);
    None
}

proof fn lemma_overwritten_extends(
    before: Tree,
    after: Tree,
    me: Seq<char>,
    entries: Seq<Tree>,
    n: int,
)
    requires
        0 <= n <= entries.len(),
        first_overwritten(before, after, me, entries.take(n)) is Some,
    ensures
        first_overwritten(before, after, me, entries) == first_overwritten(
            before,
            after,
            me,
            entries.take(n),
        ),
    decreases entries.len() - n,
{
    if n < entries.len() {
        assert(entries.take(n + 1).drop_last() =~= entries.take(n));
        lemma_overwritten_extends(before, after, me, entries, n + 1);
    } else {
        assert(entries.take(n) =~= entries);
    }
}

fn prune(v: &mut Json, paths: &Vec<Vec<String>>, kept: &Vec<Vec<String>>)
    ensures
        final(v)@ == pruned(old(v)@, path_texts(paths@), path_texts(kept@)),
{
    let ghost t0 = v@;
    let ghost ps = path_texts(paths@);
    let mut i: usize = 0;
    while i < paths.len()
        invariant
            i <= paths.len(),
            ps == path_texts(paths@),
            v@ == pruned(t0, ps.take(i as int), path_texts(kept@)),
        decreases paths.len() - i,
    {
        proof {
            assert(ps.take(i + 1).drop_last() =~= ps.take(i as int));
            assert(ps.take(i + 1).last() == texts(paths@[i as int]@));
        }
        if !has_path(kept, &paths[i]) {
            remove_at(v, &paths[i]);
        }
        i = i + 1;
    }
    assert(ps.take(i as int) =~= ps);
}

fn others(entries: &Vec<Json>, me: &str) -> (r: Vec<Json>)
    ensures
        trees(r@) == entries_of_others(trees(entries@), me@),
{
    let ghost ts = trees(entries@);
    let mut out: Vec<Json> = Vec::new();
    let mut i: usize = 0;
    assert(trees(out@) =~= Seq::<Tree>::empty());
    while i < entries.len()
        invariant
            i <= entries.len(),
            ts == trees(entries@),
            trees(out@) == entries_of_others(ts.take(i as int), me@),
        decreases entries.len() - i,
    {
        let e = &entries[i];
        proof {
            assert(ts.take(i + 1).drop_last() =~= ts.take(i as int));
            assert(ts.take(i + 1).last() == e@);
        }
        if !e.at("manager").is_text(me) {
            let c = e.dup();
            proof {
                lemma_trees_push(out@, c);
            }
            out.push(c);
        }
        i = i + 1;
    }
    assert(ts.take(i as int) =~= ts);
    out
}

fn record(v: &mut Json, entry: Json, me: &str)
    requires
        old(v)@.settable(),
    ensures
        final(v)@ == recorded(old(v)@, entry@, me@),
{
    let entries = managed_entries(v);
    let mut list = others(&entries, me);
    proof {
        lemma_trees_push(list@, entry);
    }
    list.push(entry);
    let mut meta = v.at("metadata").dup();
    meta.make_object();
    meta.set("managedFields", Json::Array(list));
    v.set("metadata", meta);
}

/// Applies `applied` for `manager` onto `existing`: rejects, unless `force`, a
/// change to a leaf of another manager; prunes the leaves that this manager
/// dropped; merges the intent; and records this manager's fields.
pub fn server_side_apply(
    existing: Json,
    applied: &Json,
    manager: &str,
    now: &str,
    force: bool,
) -> (r: Result<Json, Conflict>)
    requires
        applied@.settable(),
    ensures
        match r {
            Ok(v) => (force || apply_conflict(existing@, applied@, manager@) is None) && v@
                == apply_result(existing@, applied@, manager@, now@),
            Err(c) => !force && apply_conflict(existing@, applied@, manager@) == Some(c@),
        },
{
    let api_version = applied.at("apiVersion").str_or("v1").to_owned();
    let new_fv1 = fields_v1(applied);
    let new_leaves = all_leaves(&new_fv1);
    let entries = managed_entries(&existing);
    if !force {
        match find_conflict(&existing, applied, manager, &new_leaves) {
            Some(c) => {
                return Err(c);
            },
            None => {},
        }
        let mut after = existing.dup();
        merge(&mut after, applied);
        match find_overwritten(&existing, &after, manager, &entries) {
            Some(c) => {
                return Err(c);
            },
            None => {},
        }
    }
    let prev = own_leaves(&entries, manager);
    let mut obj = existing;
    prune(&mut obj, &prev, &new_leaves);
    merge(&mut obj, applied);
    let entry = Json::object().with("manager", Json::text(manager)).with(
        "operation",
        Json::text("Apply"),
    ).with("apiVersion", Json::text(api_version.as_str())).with("time", Json::text(now)).with(
        "fieldsType",
        Json::text("FieldsV1"),
    ).with("fieldsV1", new_fv1);
    record(&mut obj, entry, manager);
    Ok(obj)
}

// ---------------------------------------------------------------------------
// What applying promises
// ---------------------------------------------------------------------------

/// An apply onto an object that records no owners never conflicts: creating an
/// object by apply cannot fail.
pub proof fn law_no_owners_no_conflict(existing: Tree, applied: Tree, me: Seq<char>)
    requires
        managed(existing).len() == 0,
    ensures
        apply_conflict(existing, applied, me) is None,
{
    lemma_no_owners(existing, applied, me, leaf_paths(fields_of(applied), Seq::empty()));
}

proof fn lemma_no_owners(
    existing: Tree,
    applied: Tree,
    me: Seq<char>,
    paths: Seq<Seq<Seq<char>>>,
)
    requires
        managed(existing).len() == 0,
    ensures
        first_conflict(existing, applied, me, paths) is None,
    decreases paths.len(),
{
    if paths.len() > 0 {
        lemma_no_owners(existing, applied, me, paths.drop_last());
        assert(other_owner(managed(existing), me, paths.last()) is None);
    }
}

/// A conflict names a manager other than the one that applies.
pub proof fn law_conflict_is_with_another(existing: Tree, applied: Tree, me: Seq<char>)
    ensures
        match apply_conflict(existing, applied, me) {
            Some(c) => c.manager != me,
            None => true,
        },
{
    lemma_conflict_is_with_another(
        existing,
        applied,
        me,
        leaf_paths(fields_of(applied), Seq::empty()),
    );
    lemma_overwritten_is_anothers(
        existing,
        merged(existing, applied),
        me,
        managed(existing),
    );
}

proof fn lemma_overwritten_is_anothers(
    before: Tree,
    after: Tree,
    me: Seq<char>,
    entries: Seq<Tree>,
)
    ensures
        match first_overwritten(before, after, me, entries) {
            Some(c) => c.manager != me,
            None => true,
        },
    decreases entries.len(),
{
    if entries.len() > 0 {
        lemma_overwritten_is_anothers(before, after, me, entries.drop_last());
    }
}

proof fn lemma_conflict_is_with_another(
    existing: Tree,
    applied: Tree,
    me: Seq<char>,
    paths: Seq<Seq<Seq<char>>>,
)
    ensures
        match first_conflict(existing, applied, me, paths) {
            Some(c) => c.manager != me,
            None => true,
        },
    decreases paths.len(),
{
    if paths.len() > 0 {
        lemma_conflict_is_with_another(existing, applied, me, paths.drop_last());
        lemma_other_owner(managed(existing), me, paths.last());
    }
}

proof fn lemma_other_owner(entries: Seq<Tree>, me: Seq<char>, path: Seq<Seq<char>>)
    ensures
        match other_owner(entries, me, path) {
            Some(m) => m != me,
            None => true,
        },
    decreases entries.len(),
{
    if entries.len() > 0 {
        lemma_other_owner(entries.drop_last(), me, path);
    }
}

/// An apply without force conflicts exactly where it sets a leaf of another
/// manager to something else, or its merge overwrites such a leaf.
pub proof fn law_only_foreign_changes_conflict(existing: Tree, applied: Tree, me: Seq<char>)
    ensures
        apply_conflict(existing, applied, me) is Some <==> {
            ||| exists|i: int|
                0 <= i < leaf_paths(fields_of(applied), Seq::empty()).len() && foreign_change(
                    existing,
                    applied,
                    me,
                    #[trigger] leaf_paths(fields_of(applied), Seq::empty())[i],
                )
            ||| exists|i: int|
                0 <= i < managed(existing).len() && overwrites(
                    existing,
                    merged(existing, applied),
                    me,
                    #[trigger] managed(existing)[i],
                )
        },
{
    lemma_first_conflict(existing, applied, me, leaf_paths(fields_of(applied), Seq::empty()));
    lemma_first_overwritten(existing, merged(existing, applied), me, managed(existing));
}

/// A leaf of an entry of another manager does not keep what it held.
pub open spec fn overwrites(before: Tree, after: Tree, me: Seq<char>, entry: Tree) -> bool {
    manager_of(entry) != me && exists|j: int|
        0 <= j < owned(entry).len() && !keeps(
            member(before, #[trigger] owned(entry)[j]),
            member(after, owned(entry)[j]),
        )
}

proof fn lemma_first_lost(before: Tree, after: Tree, paths: Seq<Seq<Seq<char>>>)
    ensures
        first_lost(before, after, paths) is Some <==> exists|j: int|
            0 <= j < paths.len() && !keeps(
                member(before, #[trigger] paths[j]),
                member(after, paths[j]),
            ),
    decreases paths.len(),
{
    if paths.len() > 0 {
        let rest = paths.drop_last();
        lemma_first_lost(before, after, rest);
        assert(paths.last() == paths[paths.len() - 1]);
        if first_lost(before, after, rest) is Some {
            let j = choose|j: int|
                0 <= j < rest.len() && !keeps(
                    member(before, #[trigger] rest[j]),
                    member(after, rest[j]),
                );
            assert(paths[j] == rest[j]);
        } else {
            assert forall|j: int| 0 <= j < rest.len() implies keeps(
                member(before, #[trigger] paths[j]),
                member(after, paths[j]),
            ) by {
                assert(rest[j] == paths[j]);
            }
        }
    }
}

proof fn lemma_first_overwritten(before: Tree, after: Tree, me: Seq<char>, entries: Seq<Tree>)
    ensures
        first_overwritten(before, after, me, entries) is Some <==> exists|i: int|
            0 <= i < entries.len() && overwrites(before, after, me, #[trigger] entries[i]),
    decreases entries.len(),
{
    if entries.len() > 0 {
        let rest = entries.drop_last();
        lemma_first_overwritten(before, after, me, rest);
        lemma_first_lost(before, after, owned(entries.last()));
        assert(entries.last() == entries[entries.len() - 1]);
        if first_overwritten(before, after, me, rest) is Some {
            let i = choose|i: int|
                0 <= i < rest.len() && overwrites(before, after, me, #[trigger] rest[i]);
            assert(overwrites(before, after, me, entries[i]));
        } else {
            assert forall|i: int| 0 <= i < rest.len() implies !overwrites(
                before,
                after,
                me,
                #[trigger] entries[i],
            ) by {
                assert(rest[i] == entries[i]);
            }
        }
    }
}

/// An intent changes a leaf that another manager owns.
pub open spec fn foreign_change(
    existing: Tree,
    applied: Tree,
    me: Seq<char>,
    path: Seq<Seq<char>>,
) -> bool {
    other_owner(managed(existing), me, path) is Some && !unchanged(
        lookup(existing, path),
        lookup(applied, path),
    )
}

proof fn lemma_first_conflict(
    existing: Tree,
    applied: Tree,
    me: Seq<char>,
    paths: Seq<Seq<Seq<char>>>,
)
    ensures
        first_conflict(existing, applied, me, paths) is Some <==> exists|i: int|
            0 <= i < paths.len() && foreign_change(existing, applied, me, #[trigger] paths[i]),
    decreases paths.len(),
{
    if paths.len() > 0 {
        let rest = paths.drop_last();
        lemma_first_conflict(existing, applied, me, rest);
        if first_conflict(existing, applied, me, rest) is Some {
            let i = choose|i: int|
                0 <= i < rest.len() && foreign_change(existing, applied, me, #[trigger] rest[i]);
            assert(foreign_change(existing, applied, me, paths[i]));
        } else {
            assert(paths.last() == paths[paths.len() - 1]);
            assert forall|i: int| 0 <= i < rest.len() implies !foreign_change(
                existing,
                applied,
                me,
                #[trigger] paths[i],
            ) by {
                assert(rest[i] == paths[i]);
            }
        }
    }
}

/// The record of an apply is the last entry, and the only one under its
/// manager's name.
pub proof fn law_one_record_per_manager(
    existing: Tree,
    applied: Tree,
    me: Seq<char>,
    now: Seq<char>,
)
    ensures
        ({
            let entries = managed(apply_result(existing, applied, me, now));
            &&& entries.len() > 0
            &&& entries.last() == apply_entry(applied, me, now)
            &&& forall|i: int|
                0 <= i < entries.len() - 1 ==> (#[trigger] entries[i]).at("manager"@)
                    != Tree::String(me)
        }),
{
    let kept = leaf_paths(fields_of(applied), Seq::empty());
    let base = pruned(existing, owned_before(managed(existing), me), kept);
    let t = merged(base, applied);
    let o = entries_of_others(managed(t), me);
    lemma_others(managed(t), me);
    let entries = managed(apply_result(existing, applied, me, now));
    assert(entries == o.push(apply_entry(applied, me, now)));
}

proof fn lemma_others(entries: Seq<Tree>, me: Seq<char>)
    ensures
        forall|i: int|
            0 <= i < entries_of_others(entries, me).len() ==> (#[trigger] entries_of_others(
                entries,
                me,
            )[i]).at("manager"@) != Tree::String(me),
    decreases entries.len(),
{
    if entries.len() > 0 {
        lemma_others(entries.drop_last(), me);
    }
}

/// A path to `metadata` itself or into `metadata.managedFields`, where an apply
/// writes its record.
pub open spec fn record_path(path: Seq<Seq<char>>) -> bool {
    path[0] == "metadata"@ && (path.len() == 1 || path[1] == "managedFields"@)
}

proof fn lemma_record_is_apart(t: Tree, entry: Tree, me: Seq<char>, path: Seq<Seq<char>>)
    requires
        t is Object,
        path.len() > 0,
        !record_path(path),
    ensures
        member(recorded(t, entry, me), path) == member(t, path),
{
    let r = recorded(t, entry, me);
    if path[0] == "metadata"@ {
        let rest = path.skip(1);
        let meta = t.at("metadata"@);
        assert(rest.len() > 0 && rest[0] == path[1]);
        assert(r.get("metadata"@)->0.get(rest[0]) == meta.as_object().get(rest[0]));
        if meta is Object {
            assert(member(r.get("metadata"@)->0, rest) == member(meta, rest));
        } else {
            assert(member(meta, rest) is None);
        }
    } else {
        assert(r.get(path[0]) == t.get(path[0]));
    }
}

/// An apply sets what it names: away from its own record, a member of the
/// intent that is neither an object nor null reads back from the result.
pub proof fn law_apply_sets(
    existing: Tree,
    applied: Tree,
    me: Seq<char>,
    now: Seq<char>,
    path: Seq<Seq<char>>,
)
    requires
        path.len() > 0,
        !record_path(path),
        member(applied, path) is Some,
        !(member(applied, path)->0 is Null),
        !(member(applied, path)->0 is Object),
    ensures
        member(apply_result(existing, applied, me, now), path) == member(applied, path),
{
    let kept = leaf_paths(fields_of(applied), Seq::empty());
    let base = pruned(existing, owned_before(managed(existing), me), kept);
    law_merge_sets(base, applied, path);
    lemma_record_is_apart(merged(base, applied), apply_entry(applied, me, now), me, path);
}

proof fn lemma_without_adds_nothing(t: Tree, gone: Seq<Seq<char>>, path: Seq<Seq<char>>)
    requires
        member(t, path) is None,
    ensures
        member(without(t, gone), path) is None,
    decreases path.len(),
{
    if gone.len() > 1 && path[0] == gone[0] {
        match t.get(gone[0]) {
            Some(u) => {
                lemma_without_adds_nothing(u, gone.skip(1), path.skip(1));
            },
            None => {},
        }
    }
}

proof fn lemma_pruned_is_gone(
    t: Tree,
    paths: Seq<Seq<Seq<char>>>,
    kept: Seq<Seq<Seq<char>>>,
    path: Seq<Seq<char>>,
)
    requires
        path.len() > 0,
        paths.contains(path),
        !kept.contains(path),
    ensures
        member(pruned(t, paths, kept), path) is None,
    decreases paths.len(),
{
    let u = pruned(t, paths.drop_last(), kept);
    if paths.last() == path {
        crate::pointer::law_removed_is_gone(u, path);
    } else {
        let i = paths.index_of(path);
        assert(paths.drop_last()[i] == path);
        lemma_pruned_is_gone(t, paths.drop_last(), kept, path);
        lemma_without_adds_nothing(u, paths.last(), path);
    }
}

proof fn lemma_merge_adds_nothing(target: Tree, patch: Tree, path: Seq<Seq<char>>)
    requires
        member(target, path) is None,
        member(patch, path) is None,
    ensures
        member(merged(target, patch), path) is None,
    decreases path.len(),
{
    match patch {
        Tree::Object(p) => {
            let k = path[0];
            let base = crate::merge::base_members(target);
            if p.contains_key(k) && !(p[k] is Null) {
                if path.skip(1).len() == 0 {
                    assert(member(p[k], path.skip(1)) == Some(p[k]));
                }
                let u = Tree::Object(base).at(k);
                if u is Null {
                    assert(u.get(path.skip(1)[0]) is None);
                }
                lemma_merge_adds_nothing(u, p[k], path.skip(1));
            }
        },
        _ => {},
    }
}

/// An apply prunes what it drops: away from its own record, a leaf that the
/// manager owned and that its intent no longer holds is gone from the result.
pub proof fn law_apply_prunes(
    existing: Tree,
    applied: Tree,
    me: Seq<char>,
    now: Seq<char>,
    path: Seq<Seq<char>>,
)
    requires
        applied is Object,
        path.len() > 0,
        !record_path(path),
        owned_before(managed(existing), me).contains(path),
        !leaf_paths(fields_of(applied), Seq::empty()).contains(path),
        member(applied, path) is None,
    ensures
        member(apply_result(existing, applied, me, now), path) is None,
{
    let kept = leaf_paths(fields_of(applied), Seq::empty());
    let before_paths = owned_before(managed(existing), me);
    let base = pruned(existing, before_paths, kept);
    lemma_pruned_is_gone(existing, before_paths, kept, path);
    lemma_merge_adds_nothing(base, applied, path);
    lemma_record_is_apart(merged(base, applied), apply_entry(applied, me, now), me, path);
}

/// The same document, or two objects.
spec fn same_sort(a: Option<Tree>, b: Option<Tree>) -> bool {
    a == b || (a matches Some(x) && b matches Some(y) && x is Object && y is Object)
}

proof fn lemma_removal_elsewhere(t: Tree, gone: Seq<Seq<char>>, path: Seq<Seq<char>>)
    requires
        member(t, path) is Some,
        !gone.is_prefix_of(path),
    ensures
        same_sort(member(t, path), member(without(t, gone), path)),
    decreases path.len(),
{
    if path.len() > 0 && gone.len() > 0 && gone[0] == path[0] {
        if gone.len() == 1 {
            assert(gone =~= path.subrange(0, 1));
        } else {
            let u = t.get(path[0])->0;
            let g = gone.skip(1);
            let p = path.skip(1);
            if g.is_prefix_of(p) {
                assert(gone =~= path.subrange(0, gone.len() as int)) by {
                    assert forall|i: int| 0 <= i < gone.len() implies gone[i] == #[trigger] path[i] by {
                        if i > 0 {
                            assert(g[i - 1] == p.subrange(0, g.len() as int)[i - 1]);
                        }
                    }
                }
            }
            lemma_removal_elsewhere(u, g, p);
        }
    }
}

proof fn lemma_pruning_elsewhere(
    t: Tree,
    paths: Seq<Seq<Seq<char>>>,
    kept: Seq<Seq<Seq<char>>>,
    path: Seq<Seq<char>>,
)
    requires
        member(t, path) is Some,
        forall|i: int|
            0 <= i < paths.len() && !kept.contains(#[trigger] paths[i])
                ==> !paths[i].is_prefix_of(path),
    ensures
        same_sort(member(t, path), member(pruned(t, paths, kept), path)),
    decreases paths.len(),
{
    if paths.len() > 0 {
        let rest = paths.drop_last();
        assert forall|i: int| 0 <= i < rest.len() && !kept.contains(#[trigger] rest[i]) implies
            !rest[i].is_prefix_of(path) by {
            assert(rest[i] == paths[i]);
        }
        lemma_pruning_elsewhere(t, rest, kept, path);
        assert(paths.last() == paths[paths.len() - 1]);
        if !kept.contains(paths.last()) {
            lemma_removal_elsewhere(pruned(t, rest, kept), paths.last(), path);
        }
    }
}

proof fn lemma_merge_by_sort(a: Tree, b: Tree, patch: Tree, path: Seq<Seq<char>>)
    requires
        member(a, path) is Some,
        same_sort(member(a, path), member(b, path)),
    ensures
        same_sort(member(merged(a, patch), path), member(merged(b, patch), path)),
    decreases path.len(),
{
    match patch {
        Tree::Object(p) => {
            if path.len() > 0 {
                let k = path[0];
                if p.contains_key(k) && !(p[k] is Null) {
                    lemma_merge_by_sort(a.get(k)->0, b.get(k)->0, p[k], path.skip(1));
                }
            }
        },
        _ => {},
    }
}

/// What others own is theirs: away from the record, an apply without conflict
/// leaves every leaf of another manager what it held, unless it prunes a leaf
/// of its own at or above it.
pub proof fn law_foreign_leaves_are_kept(
    existing: Tree,
    applied: Tree,
    me: Seq<char>,
    now: Seq<char>,
    entry: Tree,
    path: Seq<Seq<char>>,
)
    requires
        apply_conflict(existing, applied, me) is None,
        managed(existing).contains(entry),
        manager_of(entry) != me,
        owned(entry).contains(path),
        path.len() > 0,
        !record_path(path),
        forall|i: int|
            0 <= i < owned_before(managed(existing), me).len() && !leaf_paths(
                fields_of(applied),
                Seq::empty(),
            ).contains(#[trigger] owned_before(managed(existing), me)[i])
                ==> !owned_before(managed(existing), me)[i].is_prefix_of(path),
    ensures
        keeps(member(existing, path), member(apply_result(existing, applied, me, now), path)),
{
    let kept = leaf_paths(fields_of(applied), Seq::empty());
    let dropped = owned_before(managed(existing), me);
    let base = pruned(existing, dropped, kept);
    let plain = merged(existing, applied);
    let j = owned(entry).index_of(path);
    assert(owned(entry)[j] == path);
    let i = managed(existing).index_of(entry);
    assert(managed(existing)[i] == entry);
    lemma_first_overwritten(existing, plain, me, managed(existing));
    assert(!overwrites(existing, plain, me, managed(existing)[i]));
    assert(keeps(member(existing, path), member(plain, path)));
    if member(existing, path) is Some {
        lemma_pruning_elsewhere(existing, dropped, kept, path);
        lemma_merge_by_sort(existing, base, applied, path);
        if applied is Object {
            lemma_record_is_apart(
                merged(base, applied),
                apply_entry(applied, me, now),
                me,
                path,
            );
        }
    }
}

// ---------------------------------------------------------------------------
// Who owns what
// ---------------------------------------------------------------------------

/// Every object of a document has its keys in a list, as a document has that was read
/// or made.
pub open spec fn has_listed_keys(t: Tree) -> bool
    decreases t,
{
    match t {
        Tree::Object(m) => (exists|keys: Seq<Seq<char>>| lists_keys(keys, m)) && forall|
            k: Seq<char>,
        |
            m.contains_key(k) ==> has_listed_keys(#[trigger] m[k]),
        _ => true,
    }
}

/// What stands at a place of a document is recorded as one field: a scalar, a list, or
/// an object without members.
pub open spec fn is_atomic(v: Tree) -> bool {
    match v {
        Tree::Object(m) => forall|k: Seq<char>| !m.contains_key(k),
        _ => true,
    }
}

proof fn lemma_before_behind(a: Seq<char>, b: Seq<char>)
    ensures
        before("f:"@ + a, "f:"@ + b) == before(a, b),
{
    reveal_strlit("f:");
    let x = "f:"@ + a;
    let y = "f:"@ + b;
    assert(x[0] == y[0]);
    assert(x.skip(1)[0] == y.skip(1)[0]);
    assert(x.skip(1).skip(1) =~= a);
    assert(y.skip(1).skip(1) =~= b);
    assert(x.len() > 0 && y.len() > 0 && x.skip(1).len() > 0 && y.skip(1).len() > 0);
    reveal_with_fuel(before, 3);
}

proof fn lemma_fields_are_listed(t: Tree)
    requires
        t is Object,
        has_listed_keys(t),
    ensures
        fields_of(t) is Object,
        lists_keys(key_order(fields_of(t)->Object_0), fields_of(t)->Object_0),
{
    let m = t->Object_0;
    let fm = fields_of(t)->Object_0;
    let keys = choose|keys: Seq<Seq<char>>| lists_keys(keys, m);
    let named = keys.map_values(|k: Seq<char>| "f:"@ + k);
    assert forall|i: int, j: int| 0 <= i < j < named.len() implies before(
        #[trigger] named[i],
        #[trigger] named[j],
    ) by {
        assert(before(keys[i], keys[j]));
        lemma_before_behind(keys[i], keys[j]);
    }
    assert forall|k: Seq<char>| #[trigger] fm.contains_key(k) <==> named.contains(k) by {
        if fm.contains_key(k) {
            let name = k.skip("f:"@.len() as int);
            lemma_prefixed_key(k);
            assert(m.contains_key(name));
            let i = keys.index_of(name);
            assert(named[i] == k);
        }
        if named.contains(k) {
            let i = named.index_of(k);
            lemma_field_key(keys[i]);
            assert(keys.contains(keys[i]));
            assert(m.contains_key(keys[i]));
        }
    }
    assert(lists_keys(named, fm));
}

proof fn lemma_member_leaves(t: Tree, keys: Seq<Seq<char>>, prefix: Seq<Seq<char>>, k: Seq<char>)
    requires
        t is Object,
        keys.contains(k),
        (t->Object_0).contains_key(k),
    ensures
        forall|p: Seq<Seq<char>>|
            leaf_paths((t->Object_0)[k], prefix.push(field_name(k))).contains(p)
                ==> #[trigger] member_paths(t, keys, prefix).contains(p),
    decreases keys.len(),
{
    let m = t->Object_0;
    let rest = member_paths(t, keys.drop_last(), prefix);
    let all = member_paths(t, keys, prefix);
    let own = leaf_paths(m[k], prefix.push(field_name(k)));
    if keys.last() == k {
        assert(all == rest + own);
        assert forall|p: Seq<Seq<char>>| own.contains(p) implies #[trigger] all.contains(p) by {
            let i = own.index_of(p);
            assert(all[rest.len() + i] == p);
        }
    } else {
        let i = keys.index_of(k);
        assert(keys.drop_last()[i] == k);
        lemma_member_leaves(t, keys.drop_last(), prefix, k);
        assert forall|p: Seq<Seq<char>>| own.contains(p) implies #[trigger] all.contains(p) by {
            assert(rest.contains(p));
            let i = rest.index_of(p);
            assert(all[i] == p);
        }
    }
}

proof fn lemma_atomic_is_leaf(t: Tree, prefix: Seq<Seq<char>>, path: Seq<Seq<char>>)
    requires
        has_listed_keys(t),
        member(t, path) is Some,
        is_atomic(member(t, path)->0),
    ensures
        leaf_paths(fields_of(t), prefix).contains(prefix + path),
    decreases path.len(),
{
    if path.len() == 0 {
        assert(prefix + path =~= prefix);
        let f = fields_of(t);
        match f {
            Tree::Object(fm) => {
                assert forall|k: Seq<char>| !fm.contains_key(k) by {
                    if t is Object {
                        assert(!(t->Object_0).contains_key(k.skip("f:"@.len() as int)));
                    }
                }
                let none = Seq::<Seq<char>>::empty();
                assert(lists_keys(none, fm));
                let keys = key_order(fm);
                assert(lists_keys(keys, fm));
                if keys.len() > 0 {
                    assert(keys.contains(keys[0]));
                    assert(fm.contains_key(keys[0]));
                }
                assert(leaf_paths(f, prefix) == seq![prefix]);
                assert(seq![prefix][0] == prefix);
            },
            _ => {
                assert(seq![prefix][0] == prefix);
            },
        }
    } else {
        let k = path[0];
        let m = t->Object_0;
        let f = fields_of(t);
        let fm = f->Object_0;
        let fk = "f:"@ + k;
        lemma_field_key(k);
        lemma_fields_are_listed(t);
        assert(m.contains_key(k));
        assert(has_listed_keys(m[k]));
        assert(fm.contains_key(fk));
        assert(fm[fk] == fields_of(m[k]));
        lemma_atomic_is_leaf(m[k], prefix.push(k), path.skip(1));
        lemma_member_leaves(f, key_order(fm), prefix, fk);
        assert(key_order(fm).contains(fk));
        assert(prefix.push(k) + path.skip(1) =~= prefix + path);
        assert(member_paths(f, key_order(fm), prefix).contains(prefix + path));
    }
}

/// A path behind a prefix leads to something that is recorded as one field.
spec fn leads_to_atomic(t: Tree, prefix: Seq<Seq<char>>, p: Seq<Seq<char>>) -> bool {
    exists|q: Seq<Seq<char>>|
        p == prefix + q && #[trigger] member(t, q) is Some && is_atomic(member(t, q)->0)
}

proof fn lemma_leaf_is_atomic(t: Tree, prefix: Seq<Seq<char>>, p: Seq<Seq<char>>)
    requires
        has_listed_keys(t),
        leaf_paths(fields_of(t), prefix).contains(p),
    ensures
        leads_to_atomic(t, prefix, p),
    decreases t, 1nat, 0nat,
{
    let f = fields_of(t);
    let none = Seq::<Seq<char>>::empty();
    assert(prefix + none =~= prefix);
    assert(member(t, none) == Some(t));
    match t {
        Tree::Object(m) => {
            let fm = f->Object_0;
            lemma_fields_are_listed(t);
            let keys = key_order(fm);
            if keys.len() > 0 {
                lemma_leaf_is_below(t, keys, prefix, p);
            } else {
                assert forall|k: Seq<char>| !m.contains_key(k) by {
                    if m.contains_key(k) {
                        lemma_field_key(k);
                        assert(fm.contains_key("f:"@ + k));
                        assert(keys.contains("f:"@ + k));
                    }
                }
                assert(leads_to_atomic(t, prefix, p));
            }
        },
        _ => {
            assert(lists_keys(none, Map::<Seq<char>, Tree>::empty()));
            let keys = key_order(Map::<Seq<char>, Tree>::empty());
            if keys.len() > 0 {
                assert(keys.contains(keys[0]));
                assert(Map::<Seq<char>, Tree>::empty().contains_key(keys[0]));
            }
            assert(leads_to_atomic(t, prefix, p));
        },
    }
}

proof fn lemma_leaf_is_below(
    t: Tree,
    keys: Seq<Seq<char>>,
    prefix: Seq<Seq<char>>,
    p: Seq<Seq<char>>,
)
    requires
        t is Object,
        has_listed_keys(t),
        member_paths(fields_of(t), keys, prefix).contains(p),
    ensures
        leads_to_atomic(t, prefix, p),
    decreases t, 0nat, keys.len(),
{
    if keys.len() > 0 {
        let m = t->Object_0;
        let f = fields_of(t);
        let fm = f->Object_0;
        let k = keys.last();
        let rest = member_paths(f, keys.drop_last(), prefix);
        let all = member_paths(f, keys, prefix);
        let i = all.index_of(p);
        if i < rest.len() {
            assert(rest[i] == p);
            lemma_leaf_is_below(t, keys.drop_last(), prefix, p);
        } else {
            let name = k.skip("f:"@.len() as int);
            lemma_prefixed_key(k);
            lemma_field_key(name);
            assert(m.contains_key(name));
            assert(has_listed_keys(m[name]));
            assert(decreases_to!(t => m[name]));
            let own = leaf_paths(fm[k], prefix.push(field_name(k)));
            assert(own[i - rest.len()] == p);
            lemma_leaf_is_atomic(m[name], prefix.push(name), p);
            let q = choose|q: Seq<Seq<char>>|
                p == prefix.push(name) + q && #[trigger] member(m[name], q) is Some && is_atomic(
                    member(m[name], q)->0,
                );
            let whole = seq![name] + q;
            assert(whole.skip(1) =~= q);
            assert(prefix + whole =~= p);
            assert(member(t, whole) == member(m[name], q));
        }
    }
}

/// The fields of an intent are the places at which it holds a scalar, a list or an
/// empty object, and no others: a list is owned as a whole.
pub proof fn law_an_intent_owns_what_it_names(applied: Tree, path: Seq<Seq<char>>)
    requires
        has_listed_keys(applied),
    ensures
        leaf_paths(fields_of(applied), Seq::empty()).contains(path) <==> member(applied, path)
            is Some && is_atomic(member(applied, path)->0),
{
    let none = Seq::<Seq<char>>::empty();
    assert(none + path =~= path);
    if member(applied, path) is Some && is_atomic(member(applied, path)->0) {
        lemma_atomic_is_leaf(applied, none, path);
    }
    if leaf_paths(fields_of(applied), none).contains(path) {
        lemma_leaf_is_atomic(applied, none, path);
        let q = choose|q: Seq<Seq<char>>|
            path == none + q && #[trigger] member(applied, q) is Some && is_atomic(
                member(applied, q)->0,
            );
        assert(none + q =~= q);
    }
}

/// Whoever applies owns what they applied: behind an apply the last entry of
/// `managedFields` is the manager's, and among its leaves is every place at which the
/// intent holds a scalar or a list.
pub proof fn law_an_apply_records_what_it_sets(
    existing: Tree,
    applied: Tree,
    me: Seq<char>,
    now: Seq<char>,
    path: Seq<Seq<char>>,
)
    requires
        has_listed_keys(applied),
        member(applied, path) is Some,
        !(member(applied, path)->0 is Object),
    ensures
        ({
            let entries = managed(apply_result(existing, applied, me, now));
            &&& entries.len() > 0
            &&& entries.last().at("manager"@) == Tree::String(me)
            &&& leaf_paths(entries.last().at("fieldsV1"@), Seq::empty()).contains(path)
        }),
{
    law_one_record_per_manager(existing, applied, me, now);
    law_an_intent_owns_what_it_names(applied, path);
    lemma_entry_keys();
}

proof fn lemma_entry_keys()
    ensures
        "manager"@ != "operation"@,
        "manager"@ != "apiVersion"@,
        "manager"@ != "time"@,
        "manager"@ != "fieldsType"@,
        "manager"@ != "fieldsV1"@,
        "fieldsV1"@ != "operation"@,
        "fieldsV1"@ != "apiVersion"@,
        "fieldsV1"@ != "time"@,
        "fieldsV1"@ != "fieldsType"@,
{
    reveal_strlit("manager");
    reveal_strlit("operation");
    reveal_strlit("apiVersion");
    reveal_strlit("time");
    reveal_strlit("fieldsType");
    reveal_strlit("fieldsV1");
    assert("manager"@.len() == 7);
    assert("operation"@.len() == 9);
    assert("apiVersion"@.len() == 10);
    assert("time"@.len() == 4);
    assert("fieldsType"@.len() == 10);
    assert("fieldsV1"@.len() == 8);
}

proof fn lemma_other_owner_is_found(entries: Seq<Tree>, me: Seq<char>, path: Seq<Seq<char>>, i: int)
    requires
        0 <= i < entries.len(),
        manager_of(entries[i]) != me,
        owned(entries[i]).contains(path),
    ensures
        other_owner(entries, me, path) is Some,
    decreases entries.len(),
{
    if i < entries.len() - 1 {
        assert(entries.drop_last()[i] == entries[i]);
        lemma_other_owner_is_found(entries.drop_last(), me, path, i);
    }
}

proof fn lemma_owner_is_listed(entries: Seq<Tree>, me: Seq<char>, path: Seq<Seq<char>>)
    requires
        other_owner(entries, me, path) is Some,
    ensures
        exists|i: int|
            0 <= i < entries.len() && manager_of(#[trigger] entries[i]) == other_owner(
                entries,
                me,
                path,
            )->0 && manager_of(entries[i]) != me && owned(entries[i]).contains(path),
    decreases entries.len(),
{
    let rest = entries.drop_last();
    if other_owner(rest, me, path) is Some {
        lemma_owner_is_listed(rest, me, path);
        let i = choose|i: int|
            0 <= i < rest.len() && manager_of(#[trigger] rest[i]) == other_owner(
                rest,
                me,
                path,
            )->0 && manager_of(rest[i]) != me && owned(rest[i]).contains(path);
        assert(entries[i] == rest[i]);
    } else {
        assert(entries[entries.len() - 1] == entries.last());
    }
}

proof fn lemma_member_is_lookup(t: Tree, path: Seq<Seq<char>>)
    requires
        member(t, path) is Some,
    ensures
        lookup(t, path) == member(t, path),
    decreases path.len(),
{
    if path.len() > 0 {
        lemma_member_is_lookup(t.get(path[0])->0, path.skip(1));
    }
}

proof fn lemma_conflict_has_owner(
    existing: Tree,
    applied: Tree,
    me: Seq<char>,
    paths: Seq<Seq<Seq<char>>>,
)
    requires
        first_conflict(existing, applied, me, paths) is Some,
    ensures
        exists|i: int|
            0 <= i < managed(existing).len() && manager_of(#[trigger] managed(existing)[i])
                == first_conflict(existing, applied, me, paths)->0.manager && manager_of(
                managed(existing)[i],
            ) != me,
    decreases paths.len(),
{
    if first_conflict(existing, applied, me, paths.drop_last()) is Some {
        lemma_conflict_has_owner(existing, applied, me, paths.drop_last());
    } else {
        lemma_owner_is_listed(managed(existing), me, paths.last());
    }
}

proof fn lemma_overwritten_has_owner(before: Tree, after: Tree, me: Seq<char>, entries: Seq<Tree>)
    requires
        first_overwritten(before, after, me, entries) is Some,
    ensures
        exists|i: int|
            0 <= i < entries.len() && manager_of(#[trigger] entries[i]) == first_overwritten(
                before,
                after,
                me,
                entries,
            )->0.manager && manager_of(entries[i]) != me,
    decreases entries.len(),
{
    let rest = entries.drop_last();
    if first_overwritten(before, after, me, rest) is Some {
        lemma_overwritten_has_owner(before, after, me, rest);
        let i = choose|i: int|
            0 <= i < rest.len() && manager_of(#[trigger] rest[i]) == first_overwritten(
                before,
                after,
                me,
                rest,
            )->0.manager && manager_of(rest[i]) != me;
        assert(entries[i] == rest[i]);
    } else {
        assert(entries[entries.len() - 1] == entries.last());
    }
}

/// A conflict names a manager that the object records, and not the one that applies.
pub proof fn law_a_conflict_names_a_recorded_manager(existing: Tree, applied: Tree, me: Seq<char>)
    requires
        apply_conflict(existing, applied, me) is Some,
    ensures
        apply_conflict(existing, applied, me)->0.manager != me,
        exists|i: int|
            0 <= i < managed(existing).len() && (#[trigger] managed(existing)[i]).at(
                "manager"@,
            ).text_or_empty() == apply_conflict(existing, applied, me)->0.manager,
{
    let paths = leaf_paths(fields_of(applied), Seq::empty());
    if first_conflict(existing, applied, me, paths) is Some {
        lemma_conflict_has_owner(existing, applied, me, paths);
    } else {
        lemma_overwritten_has_owner(existing, merged(existing, applied), me, managed(existing));
    }
}

/// What one manager has set, another does not change without force: where the second
/// intent holds something else at a place at which the first held a scalar or a list,
/// the second apply is a conflict. Where the object records no other manager, the
/// conflict names the first.
pub proof fn law_what_another_set_is_not_changed(
    existing: Tree,
    first: Tree,
    one: Seq<char>,
    now: Seq<char>,
    second: Tree,
    other: Seq<char>,
    path: Seq<Seq<char>>,
)
    requires
        has_listed_keys(first),
        has_listed_keys(second),
        one != other,
        path.len() > 0,
        !record_path(path),
        member(first, path) is Some,
        !(member(first, path)->0 is Object),
        !(member(first, path)->0 is Null),
        member(second, path) is Some,
        !(member(second, path)->0 is Object),
        !(member(first, path)->0).alike(member(second, path)->0),
    ensures
        ({
            let made = apply_result(existing, first, one, now);
            let conflict = apply_conflict(made, second, other);
            &&& conflict is Some
            &&& conflict->0.manager != other
            &&& (forall|i: int|
                0 <= i < managed(made).len() ==> (#[trigger] managed(made)[i]).at(
                    "manager"@,
                ).text_or_empty() == one) ==> conflict->0.manager == one
        }),
{
    let made = apply_result(existing, first, one, now);
    let entries = managed(made);
    law_apply_sets(existing, first, one, now, path);
    law_an_apply_records_what_it_sets(existing, first, one, now, path);
    lemma_member_is_lookup(made, path);
    lemma_member_is_lookup(second, path);
    let paths = leaf_paths(fields_of(second), Seq::empty());
    law_an_intent_owns_what_it_names(second, path);
    let n = entries.len() - 1;
    assert(entries[n] == entries.last());
    lemma_other_owner_is_found(entries, other, path, n);
    let k = paths.index_of(path);
    assert(foreign_change(made, second, other, paths[k]));
    lemma_first_conflict(made, second, other, paths);
    law_a_conflict_names_a_recorded_manager(made, second, other);
}

/// What a manager no longer names is gone: a scalar or a list that it applied and that
/// its next intent leaves out is pruned.
pub proof fn law_what_is_dropped_is_pruned(
    existing: Tree,
    first: Tree,
    second: Tree,
    me: Seq<char>,
    then: Seq<char>,
    now: Seq<char>,
    path: Seq<Seq<char>>,
)
    requires
        has_listed_keys(first),
        has_listed_keys(second),
        second is Object,
        path.len() > 0,
        !record_path(path),
        member(first, path) is Some,
        !(member(first, path)->0 is Object),
        member(second, path) is None,
    ensures
        member(
            apply_result(apply_result(existing, first, me, then), second, me, now),
            path,
        ) is None,
{
    let made = apply_result(existing, first, me, then);
    let entries = managed(made);
    law_an_apply_records_what_it_sets(existing, first, me, then, path);
    law_an_intent_owns_what_it_names(second, path);
    assert(owned_before(entries, me) == owned(entries.last()));
    law_apply_prunes(made, second, me, now, path);
}

/// What a manager applies and applies again, and nobody else changed, is no conflict
/// with anyone: applying what is there changes nothing that others own.
pub proof fn law_agreeing_is_no_conflict(
    existing: Tree,
    applied: Tree,
    me: Seq<char>,
    path: Seq<Seq<char>>,
)
    requires
        member(existing, path) is Some,
        member(applied, path) is Some,
        (member(existing, path)->0).alike(member(applied, path)->0),
    ensures
        !foreign_change(existing, applied, me, path),
{
    lemma_member_is_lookup(existing, path);
    lemma_member_is_lookup(applied, path);
}

/// The record of an apply says who, when, of which version, and that it was one.
pub proof fn law_a_record_says_who_and_when(applied: Tree, me: Seq<char>, now: Seq<char>)
    ensures
        ({
            let e = apply_entry(applied, me, now);
            &&& e.at("manager"@) == Tree::String(me)
            &&& e.at("operation"@) == str_tree("Apply")
            &&& e.at("time"@) == Tree::String(now)
            &&& e.at("fieldsType"@) == str_tree("FieldsV1")
            &&& applied.at("apiVersion"@) is String ==> e.at("apiVersion"@) == applied.at(
                "apiVersion"@,
            )
            &&& !(applied.at("apiVersion"@) is String) ==> e.at("apiVersion"@) == str_tree("v1")
        }),
{
    reveal_strlit("manager");
    reveal_strlit("operation");
    reveal_strlit("apiVersion");
    reveal_strlit("time");
    reveal_strlit("fieldsType");
    reveal_strlit("fieldsV1");
    assert("manager"@.len() == 7);
    assert("operation"@.len() == 9);
    assert("apiVersion"@.len() == 10);
    assert("time"@.len() == 4);
    assert("fieldsType"@.len() == 10);
    assert("fieldsV1"@.len() == 8);
    assert("apiVersion"@[0] == 'a');
    assert("fieldsType"@[0] == 'f');
}

/// The records of the others stay as they are, in their order, before the new one.
pub proof fn law_the_records_of_others_stay(entries: Seq<Tree>, me: Seq<char>)
    ensures
        entries_of_others(entries, me) == entries.filter(
            |e: Tree| e.at("manager"@) != Tree::String(me),
        ),
    decreases entries.len(),
{
    reveal(Seq::filter);
    if entries.len() > 0 {
        law_the_records_of_others_stay(entries.drop_last(), me);
    }
}

/// A place that another manager is recorded for is not set without force, unless what is there
/// is what is set: neither where something else is there, nor where nothing is.
pub proof fn law_a_recorded_place_is_its_managers(
    existing: Tree,
    applied: Tree,
    me: Seq<char>,
    path: Seq<Seq<char>>,
    i: int,
)
    requires
        has_listed_keys(applied),
        0 <= i < managed(existing).len(),
        managed(existing)[i].at("manager"@) is String,
        managed(existing)[i].at("manager"@) != Tree::String(me),
        owned(managed(existing)[i]).contains(path),
        member(applied, path) is Some,
        !(member(applied, path)->0 is Object),
        path.len() > 0,
        lookup(existing, path) is None || !(lookup(existing, path)->0).alike(
            member(applied, path)->0,
        ),
    ensures
        apply_conflict(existing, applied, me) is Some,
{
    let entries = managed(existing);
    lemma_member_is_lookup(applied, path);
    let paths = leaf_paths(fields_of(applied), Seq::empty());
    law_an_intent_owns_what_it_names(applied, path);
    lemma_other_owner_is_found(entries, me, path, i);
    let k = paths.index_of(path);
    assert(foreign_change(existing, applied, me, paths[k]));
    lemma_first_conflict(existing, applied, me, paths);
}

/// What another manager is recorded for is not lost without force either: where a merge takes
/// away or changes what is at such a place, the apply is a conflict.
pub proof fn law_a_recorded_place_is_not_lost(
    existing: Tree,
    applied: Tree,
    me: Seq<char>,
    path: Seq<Seq<char>>,
    i: int,
)
    requires
        0 <= i < managed(existing).len(),
        managed(existing)[i].at("manager"@) is String,
        managed(existing)[i].at("manager"@) != Tree::String(me),
        owned(managed(existing)[i]).contains(path),
        member(existing, path) is Some,
        !(member(existing, path)->0 is Null),
        !(member(existing, path)->0 is Object),
        member(merged(existing, applied), path) is None || !(member(existing, path)->0).alike(
            member(merged(existing, applied), path)->0,
        ),
    ensures
        apply_conflict(existing, applied, me) is Some,
{
    let e = managed(existing)[i];
    let j = owned(e).index_of(path);
    assert(owned(e)[j] == path);
    assert(overwrites(existing, merged(existing, applied), me, managed(existing)[i]));
    law_only_foreign_changes_conflict(existing, applied, me);
}

} // verus!
