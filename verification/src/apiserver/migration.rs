//! The migration of custom resources to the keys of their groups, as a whole.
//!
//! The moves of single objects are decided in [`crate::apiserver::crd`]. Here is
//! what they come to on a store: every object of a definition ends under the key of
//! its group, nothing else changes, and a second migration does nothing.

use vstd::prelude::*;
use vstd::string::*;

use crate::apiserver::crd::{
    first_step, has_resource, law_a_move_loses_nothing, move_of, one_per_resource, same_uid,
    store_after, CrdScope, DefView, MoveView,
};
use crate::apiserver::manifests::group_of;
use crate::apiserver::storage::{cluster_key_of, namespaced_key_of, prefix_of};
use crate::json::Tree;
use crate::text::has_prefix;

verus! {

// ---------------------------------------------------------------------------
// Keys
// ---------------------------------------------------------------------------

/// A definition by whose names keys can be told apart: its group has a dot, its
/// plural has none, and neither has a slash.
pub open spec fn is_sound(d: DefView) -> bool {
    &&& d.group.contains('.')
    &&& !d.group.contains('/')
    &&& !d.plural.contains('.')
    &&& !d.plural.contains('/')
}

/// Two definitions are of one custom resource.
pub open spec fn same_resource(a: DefView, b: DefView) -> bool {
    a.group == b.group && a.plural == b.plural
}

/// No two definitions are of one custom resource, and each is sound.
pub open spec fn are_sound(defs: Seq<DefView>) -> bool {
    &&& forall|i: int| 0 <= i < defs.len() ==> is_sound(#[trigger] defs[i])
    &&& forall|i: int, j: int|
        0 <= i < j < defs.len() ==> !same_resource(#[trigger] defs[i], #[trigger] defs[j])
}

/// The prefix that the objects of a custom resource had.
pub open spec fn old_prefix(d: DefView) -> Seq<char> {
    prefix_of(d.plural)
}

/// The prefix that the objects of a custom resource get.
pub open spec fn new_prefix(d: DefView) -> Seq<char> {
    prefix_of(d.group + "/"@ + d.plural)
}

/// The new key in the place of an old one.
pub open spec fn new_of(d: DefView, key: Seq<char>) -> Seq<char> {
    new_prefix(d) + key.skip(old_prefix(d).len() as int)
}

/// The old key in whose place a new one stands.
pub open spec fn old_of(d: DefView, key: Seq<char>) -> Seq<char> {
    old_prefix(d) + key.skip(new_prefix(d).len() as int)
}

/// What stands in front of the first slash, and what stands behind it.
proof fn lemma_first_slash(a: Seq<char>, x: Seq<char>, b: Seq<char>, y: Seq<char>)
    requires
        !a.contains('/'),
        !b.contains('/'),
        a + "/"@ + x == b + "/"@ + y,
    ensures
        a == b,
        x == y,
{
    reveal_strlit("/");
    let s = a + "/"@ + x;
    let t = b + "/"@ + y;
    assert(s[a.len() as int] == '/');
    assert(t[b.len() as int] == '/');
    if a.len() < b.len() {
        assert(t[a.len() as int] == b[a.len() as int]);
    } else if b.len() < a.len() {
        assert(s[b.len() as int] == a[b.len() as int]);
    } else {
        assert forall|i: int| 0 <= i < a.len() implies a[i] == b[i] by {
            assert(s[i] == a[i] && t[i] == b[i]);
        }
        assert(a =~= b);
        assert(x =~= s.skip(a.len() as int + 1));
        assert(y =~= t.skip(b.len() as int + 1));
    }
}

/// A key with a prefix is the prefix and the rest.
proof fn lemma_behind(key: Seq<char>, prefix: Seq<char>)
    requires
        has_prefix(key, prefix),
    ensures
        key == prefix + key.skip(prefix.len() as int),
        prefix.len() <= key.len(),
{
    assert(key.subrange(0, prefix.len() as int) == prefix);
    assert(key =~= prefix + key.skip(prefix.len() as int));
}

proof fn lemma_has_prefix(prefix: Seq<char>, rest: Seq<char>)
    ensures
        has_prefix(prefix + rest, prefix),
        (prefix + rest).skip(prefix.len() as int) == rest,
{
    assert((prefix + rest).subrange(0, prefix.len() as int) =~= prefix);
    assert((prefix + rest).skip(prefix.len() as int) =~= rest);
}

/// The first segment of a key under a prefix is told by the key.
proof fn lemma_segments(key: Seq<char>, a: Seq<char>, x: Seq<char>, b: Seq<char>, y: Seq<char>)
    requires
        key == "/registry"@ + "/"@ + a + "/"@ + x,
        key == "/registry"@ + "/"@ + b + "/"@ + y,
        !a.contains('/'),
        !b.contains('/'),
    ensures
        a == b,
        x == y,
{
    let front = "/registry"@ + "/"@;
    assert(key.skip(front.len() as int) =~= a + "/"@ + x);
    assert(key.skip(front.len() as int) =~= b + "/"@ + y);
    lemma_first_slash(a, x, b, y);
}

/// An old key and its new key name each other.
proof fn lemma_old_and_new(d: DefView, key: Seq<char>)
    ensures
        has_prefix(key, old_prefix(d)) ==> has_prefix(new_of(d, key), new_prefix(d)) && old_of(
            d,
            new_of(d, key),
        ) == key,
        has_prefix(key, new_prefix(d)) ==> has_prefix(old_of(d, key), old_prefix(d)) && new_of(
            d,
            old_of(d, key),
        ) == key,
{
    if has_prefix(key, old_prefix(d)) {
        lemma_behind(key, old_prefix(d));
        lemma_has_prefix(new_prefix(d), key.skip(old_prefix(d).len() as int));
    }
    if has_prefix(key, new_prefix(d)) {
        lemma_behind(key, new_prefix(d));
        lemma_has_prefix(old_prefix(d), key.skip(new_prefix(d).len() as int));
    }
}

/// A new key of one definition is no old key of another, nor of the same.
proof fn lemma_new_is_not_old(a: DefView, b: DefView, key: Seq<char>)
    requires
        is_sound(a),
        is_sound(b),
        has_prefix(key, new_prefix(a)),
    ensures
        !has_prefix(key, old_prefix(b)),
{
    if has_prefix(key, old_prefix(b)) {
        lemma_behind(key, new_prefix(a));
        lemma_behind(key, old_prefix(b));
        let x = key.skip(new_prefix(a).len() as int);
        let y = key.skip(old_prefix(b).len() as int);
        assert(key =~= "/registry"@ + "/"@ + a.group + "/"@ + (a.plural + "/"@ + x));
        lemma_segments(key, a.group, a.plural + "/"@ + x, b.plural, y);
    }
}

/// A new key tells its definition.
proof fn lemma_new_keys_differ(a: DefView, b: DefView, key: Seq<char>)
    requires
        is_sound(a),
        is_sound(b),
        has_prefix(key, new_prefix(a)),
        has_prefix(key, new_prefix(b)),
    ensures
        same_resource(a, b),
{
    lemma_behind(key, new_prefix(a));
    lemma_behind(key, new_prefix(b));
    let x = key.skip(new_prefix(a).len() as int);
    let y = key.skip(new_prefix(b).len() as int);
    assert(key =~= "/registry"@ + "/"@ + a.group + "/"@ + (a.plural + "/"@ + x));
    assert(key =~= "/registry"@ + "/"@ + b.group + "/"@ + (b.plural + "/"@ + y));
    lemma_segments(key, a.group, a.plural + "/"@ + x, b.group, b.plural + "/"@ + y);
    lemma_first_slash(a.plural, x, b.plural, y);
}

/// An old key tells its plural.
proof fn lemma_old_keys_differ(a: DefView, b: DefView, key: Seq<char>)
    requires
        is_sound(a),
        is_sound(b),
        has_prefix(key, old_prefix(a)),
        has_prefix(key, old_prefix(b)),
    ensures
        a.plural == b.plural,
{
    lemma_behind(key, old_prefix(a));
    lemma_behind(key, old_prefix(b));
    let x = key.skip(old_prefix(a).len() as int);
    let y = key.skip(old_prefix(b).len() as int);
    lemma_segments(key, a.plural, x, b.plural, y);
}

// ---------------------------------------------------------------------------
// Objects and their moves
// ---------------------------------------------------------------------------

/// An object of a definition stands under an old key.
pub open spec fn is_own(d: DefView, store: Map<Seq<char>, Tree>, key: Seq<char>) -> bool {
    &&& store.contains_key(key)
    &&& has_prefix(key, old_prefix(d))
    &&& group_of(store[key].at("apiVersion"@).text_or_empty()) == d.group
}

/// The objects of a definition name the keys that they stand under: each has a name,
/// and a namespace where the definition wants one.
pub open spec fn is_well_kept(d: DefView, store: Map<Seq<char>, Tree>) -> bool {
    forall|key: Seq<char>| #[trigger]
        is_own(d, store, key) ==> move_of(d, store[key]) is To && move_of(
            d,
            store[key],
        )->old_key == key
}

/// An object leaves its old key: its new key is free, or holds the same object.
pub open spec fn leaves(d: DefView, store: Map<Seq<char>, Tree>, key: Seq<char>) -> bool {
    &&& is_own(d, store, key)
    &&& !store.contains_key(new_of(d, key)) || same_uid(store[new_of(d, key)], store[key])
}

/// A new key gets an object.
pub open spec fn arrives(d: DefView, store: Map<Seq<char>, Tree>, key: Seq<char>) -> bool {
    &&& !store.contains_key(key)
    &&& has_prefix(key, new_prefix(d))
    &&& is_own(d, store, old_of(d, key))
}

/// What the moves of the objects under some old keys come to.
spec fn relocated_in(
    d: DefView,
    store: Map<Seq<char>, Tree>,
    done: Set<Seq<char>>,
) -> Map<Seq<char>, Tree> {
    Map::new(
        |k: Seq<char>|
            (store.contains_key(k) && !(done.contains(k) && leaves(d, store, k))) || (arrives(
                d,
                store,
                k,
            ) && done.contains(old_of(d, k))),
        |k: Seq<char>|
            if store.contains_key(k) {
                store[k]
            } else {
                store[old_of(d, k)]
            },
    )
}

/// What the moves of all objects of a definition come to.
pub open spec fn relocated(d: DefView, store: Map<Seq<char>, Tree>) -> Map<Seq<char>, Tree> {
    Map::new(
        |k: Seq<char>| (store.contains_key(k) && !leaves(d, store, k)) || arrives(d, store, k),
        |k: Seq<char>|
            if store.contains_key(k) {
                store[k]
            } else {
                store[old_of(d, k)]
            },
    )
}

/// What a store holds once the objects of a list have been moved, one after the
/// other.
pub open spec fn store_after_all(
    d: DefView,
    listed: Seq<Tree>,
    store: Map<Seq<char>, Tree>,
) -> Map<Seq<char>, Tree>
    decreases listed.len(),
{
    if listed.len() == 0 {
        store
    } else {
        let before = store_after_all(d, listed.drop_last(), store);
        store_after(first_step(d, listed.last()), listed.last(), before)
    }
}

/// The keys of a store under the old prefix of a definition, each once.
pub open spec fn is_listing(
    d: DefView,
    keys: Seq<Seq<char>>,
    store: Map<Seq<char>, Tree>,
) -> bool {
    &&& keys.no_duplicates()
    &&& forall|k: Seq<char>| #[trigger]
        keys.contains(k) <==> store.contains_key(k) && has_prefix(k, old_prefix(d))
}

/// The objects under some keys.
pub open spec fn objects_at(keys: Seq<Seq<char>>, store: Map<Seq<char>, Tree>) -> Seq<Tree> {
    keys.map_values(|k: Seq<char>| store[k])
}

proof fn lemma_new_key(d: DefView, obj: Tree)
    requires
        move_of(d, obj) is To,
    ensures
        move_of(d, obj)->new_key == new_of(d, move_of(d, obj)->old_key),
        has_prefix(move_of(d, obj)->old_key, old_prefix(d)),
{
    let name = obj.at("metadata"@).at("name"@).text()->0;
    let under = d.group + "/"@ + d.plural;
    match d.scope {
        CrdScope::Cluster => {
            lemma_has_prefix(old_prefix(d), name);
            assert(cluster_key_of(d.plural, name) =~= old_prefix(d) + name);
            assert(cluster_key_of(under, name) =~= new_prefix(d) + name);
        },
        CrdScope::Namespaced => {
            let ns = obj.at("metadata"@).at("namespace"@).text()->0;
            let rest = ns + "/"@ + name;
            lemma_has_prefix(old_prefix(d), rest);
            assert(namespaced_key_of(d.plural, ns, name) =~= old_prefix(d) + rest);
            assert(namespaced_key_of(under, ns, name) =~= new_prefix(d) + rest);
        },
    }
}

/// One more object is moved.
proof fn lemma_one_more(
    d: DefView,
    store: Map<Seq<char>, Tree>,
    done: Set<Seq<char>>,
    key: Seq<char>,
)
    requires
        is_sound(d),
        is_well_kept(d, store),
        store.contains_key(key),
        has_prefix(key, old_prefix(d)),
        !done.contains(key),
    ensures
        store_after(first_step(d, store[key]), store[key], relocated_in(d, store, done))
            == relocated_in(d, store, done.insert(key)),
{
    let obj = store[key];
    let cur = relocated_in(d, store, done);
    let want = relocated_in(d, store, done.insert(key));
    let n = new_of(d, key);
    lemma_old_and_new(d, key);
    assert forall|k: Seq<char>| arrives(d, store, k) && old_of(d, k) == key implies k == n by {
        lemma_old_and_new(d, k);
    }
    if !is_own(d, store, key) {
        assert(move_of(d, obj) == MoveView::Leave);
        assert forall|k: Seq<char>| #[trigger] want.contains_key(k) <==> cur.contains_key(k) by {
            if arrives(d, store, k) {
                assert(is_own(d, store, old_of(d, k)));
            }
        }
        assert(want =~= cur);
    } else {
        assert(move_of(d, obj) is To && move_of(d, obj)->old_key == key);
        lemma_new_key(d, obj);
        lemma_new_is_not_old(d, d, n);
        assert(n != key);
        law_a_move_loses_nothing(d, obj, cur);
        assert(!is_own(d, store, n));
        assert(!leaves(d, store, n));
        assert(cur.contains_key(n) <==> store.contains_key(n));
        let after = store_after(first_step(d, obj), obj, cur);
        assert forall|k: Seq<char>| #[trigger] want.contains_key(k) <==> after.contains_key(k) by {
            lemma_old_and_new(d, k);
        }
        assert forall|k: Seq<char>| #[trigger] want.contains_key(k) implies want[k] == after[k] by {
            lemma_old_and_new(d, k);
        }
        assert(want =~= after);
    }
}

proof fn lemma_some_moved(
    d: DefView,
    store: Map<Seq<char>, Tree>,
    keys: Seq<Seq<char>>,
    n: int,
)
    requires
        is_sound(d),
        is_well_kept(d, store),
        is_listing(d, keys, store),
        0 <= n <= keys.len(),
    ensures
        store_after_all(d, objects_at(keys, store).take(n), store) == relocated_in(
            d,
            store,
            keys.take(n).to_set(),
        ),
    decreases n,
{
    let objs = objects_at(keys, store);
    if n == 0 {
        assert(relocated_in(d, store, keys.take(0).to_set()) =~= store);
    } else {
        lemma_some_moved(d, store, keys, n - 1);
        let key = keys[n - 1];
        let done = keys.take(n - 1).to_set();
        assert(keys.contains(key));
        assert(!done.contains(key)) by {
            if keys.take(n - 1).contains(key) {
                let j = keys.take(n - 1).index_of(key);
                assert(keys[j] == keys[n - 1]);
            }
        }
        assert(keys.take(n).to_set() =~= done.insert(key)) by {
            assert forall|k: Seq<char>| #[trigger]
                keys.take(n).to_set().contains(k) <==> done.insert(key).contains(k) by {
                if keys.take(n).contains(k) {
                    let j = keys.take(n).index_of(k);
                    if j < n - 1 {
                        assert(keys.take(n - 1)[j] == k);
                    }
                }
                if keys.take(n - 1).contains(k) {
                    let j = keys.take(n - 1).index_of(k);
                    assert(keys.take(n)[j] == k);
                }
                assert(keys.take(n)[n - 1] == key);
            }
        }
        assert(objs.take(n).drop_last() =~= objs.take(n - 1));
        assert(objs.take(n).last() == store[key]);
        lemma_one_more(d, store, done, key);
    }
}

/// The moves of all objects of a definition, in whatever order they are listed, come
/// to what each of them comes to alone.
pub proof fn law_the_order_of_moves_does_not_matter(
    d: DefView,
    store: Map<Seq<char>, Tree>,
    keys: Seq<Seq<char>>,
)
    requires
        is_sound(d),
        is_well_kept(d, store),
        is_listing(d, keys, store),
    ensures
        store_after_all(d, objects_at(keys, store), store) == relocated(d, store),
{
    let n = keys.len() as int;
    lemma_some_moved(d, store, keys, n);
    assert(objects_at(keys, store).take(n) =~= objects_at(keys, store));
    assert(keys.take(n) =~= keys);
    let done = keys.to_set();
    let r = relocated_in(d, store, done);
    assert forall|k: Seq<char>| is_own(d, store, k) implies #[trigger] done.contains(k) by {
        assert(keys.contains(k));
    }
    assert forall|k: Seq<char>| #[trigger] r.contains_key(k) <==> relocated(
        d,
        store,
    ).contains_key(k) by {
        if arrives(d, store, k) {
            assert(done.contains(old_of(d, k)));
        }
        if leaves(d, store, k) {
            assert(done.contains(k));
        }
    }
    assert(r =~= relocated(d, store));
}

// ---------------------------------------------------------------------------
// All definitions
// ---------------------------------------------------------------------------

/// What the moves of the objects of all definitions come to.
pub open spec fn all_relocated(defs: Seq<DefView>, store: Map<Seq<char>, Tree>) -> Map<
    Seq<char>,
    Tree,
>
    decreases defs.len(),
{
    if defs.len() == 0 {
        store
    } else {
        relocated(defs.last(), all_relocated(defs.drop_last(), store))
    }
}

/// What a store holds after a migration: definition by definition, the objects under
/// the keys that were listed for it have been moved.
pub open spec fn migrated(
    defs: Seq<DefView>,
    listings: Seq<Seq<Seq<char>>>,
    store: Map<Seq<char>, Tree>,
) -> Map<Seq<char>, Tree>
    decreases defs.len(),
{
    if defs.len() == 0 || listings.len() == 0 {
        store
    } else {
        let before = migrated(defs.drop_last(), listings.drop_last(), store);
        store_after_all(defs.last(), objects_at(listings.last(), before), before)
    }
}

/// What was listed for each definition is what stood under its old prefix then.
pub open spec fn are_listings(
    defs: Seq<DefView>,
    listings: Seq<Seq<Seq<char>>>,
    store: Map<Seq<char>, Tree>,
) -> bool
    decreases defs.len(),
{
    &&& defs.len() == listings.len()
    &&& defs.len() > 0 ==> are_listings(defs.drop_last(), listings.drop_last(), store)
        && is_listing(
        defs.last(),
        listings.last(),
        migrated(defs.drop_last(), listings.drop_last(), store),
    )
}

/// The objects of each definition name their keys.
pub open spec fn all_well_kept(defs: Seq<DefView>, store: Map<Seq<char>, Tree>) -> bool {
    forall|i: int| 0 <= i < defs.len() ==> is_well_kept(#[trigger] defs[i], store)
}

/// The moves of one definition bring no other definition an object, and change none.
proof fn lemma_own_is_older(a: DefView, b: DefView, store: Map<Seq<char>, Tree>, key: Seq<char>)
    requires
        is_sound(a),
        is_sound(b),
        is_own(b, relocated(a, store), key),
    ensures
        is_own(b, store, key),
        relocated(a, store)[key] == store[key],
{
    if !store.contains_key(key) {
        assert(arrives(a, store, key));
        lemma_new_is_not_old(a, b, key);
    }
}

/// The moves of one definition do not touch the objects of another, nor their new
/// keys.
proof fn lemma_apart(a: DefView, b: DefView, store: Map<Seq<char>, Tree>, key: Seq<char>)
    requires
        is_sound(a),
        is_sound(b),
        !same_resource(a, b),
    ensures
        is_own(b, relocated(a, store), key) <==> is_own(b, store, key),
        leaves(b, relocated(a, store), key) <==> leaves(b, store, key),
        is_own(b, store, key) ==> {
            &&& relocated(a, store)[key] == store[key]
            &&& relocated(a, store).contains_key(new_of(b, key)) <==> store.contains_key(
                new_of(b, key),
            )
            &&& store.contains_key(new_of(b, key)) ==> relocated(a, store)[new_of(b, key)]
                == store[new_of(b, key)]
        },
{
    let after = relocated(a, store);
    if is_own(b, after, key) {
        lemma_own_is_older(a, b, store, key);
    }
    if is_own(b, store, key) {
        if is_own(a, store, key) {
            lemma_old_keys_differ(a, b, key);
        }
        assert(!leaves(a, store, key));
        assert(after.contains_key(key));
        lemma_old_and_new(b, key);
        let n = new_of(b, key);
        if is_own(a, store, n) {
            lemma_new_is_not_old(b, a, n);
        }
        if arrives(a, store, n) {
            lemma_new_keys_differ(a, b, n);
        }
    }
}

proof fn lemma_stays_well_kept(a: DefView, b: DefView, store: Map<Seq<char>, Tree>)
    requires
        is_sound(a),
        is_sound(b),
        is_well_kept(b, store),
    ensures
        is_well_kept(b, relocated(a, store)),
{
    assert forall|key: Seq<char>| #[trigger] is_own(b, relocated(a, store), key) implies move_of(
        b,
        relocated(a, store)[key],
    ) is To && move_of(b, relocated(a, store)[key])->old_key == key by {
        lemma_own_is_older(a, b, store, key);
    }
}

proof fn lemma_all_stay_well_kept(defs: Seq<DefView>, d: DefView, store: Map<Seq<char>, Tree>)
    requires
        forall|i: int| 0 <= i < defs.len() ==> is_sound(#[trigger] defs[i]),
        is_sound(d),
        is_well_kept(d, store),
    ensures
        is_well_kept(d, all_relocated(defs, store)),
    decreases defs.len(),
{
    if defs.len() > 0 {
        let rest = defs.drop_last();
        assert forall|i: int| 0 <= i < rest.len() implies is_sound(#[trigger] rest[i]) by {
            assert(rest[i] == defs[i]);
        }
        lemma_all_stay_well_kept(rest, d, store);
        assert(defs.last() == defs[defs.len() - 1]);
        lemma_stays_well_kept(defs.last(), d, all_relocated(rest, store));
    }
}

proof fn lemma_rest_is_sound(defs: Seq<DefView>)
    requires
        are_sound(defs),
        defs.len() > 0,
    ensures
        are_sound(defs.drop_last()),
        is_sound(defs.last()),
        forall|i: int|
            0 <= i < defs.len() - 1 ==> !same_resource(#[trigger] defs[i], defs.last()),
{
    let rest = defs.drop_last();
    assert forall|i: int| 0 <= i < rest.len() implies is_sound(#[trigger] rest[i]) by {
        assert(rest[i] == defs[i]);
    }
    assert forall|i: int, j: int| 0 <= i < j < rest.len() implies !same_resource(
        #[trigger] rest[i],
        #[trigger] rest[j],
    ) by {
        assert(rest[i] == defs[i] && rest[j] == defs[j]);
    }
    assert(defs.last() == defs[defs.len() - 1]);
}

/// A migration comes to the moves of all objects, in whatever order they are listed.
proof fn lemma_migrated(
    defs: Seq<DefView>,
    listings: Seq<Seq<Seq<char>>>,
    store: Map<Seq<char>, Tree>,
)
    requires
        are_sound(defs),
        all_well_kept(defs, store),
        are_listings(defs, listings, store),
    ensures
        migrated(defs, listings, store) == all_relocated(defs, store),
    decreases defs.len(),
{
    if defs.len() > 0 {
        let rest = defs.drop_last();
        let before = listings.drop_last();
        lemma_rest_is_sound(defs);
        assert forall|i: int| 0 <= i < rest.len() implies is_well_kept(
            #[trigger] rest[i],
            store,
        ) by {
            assert(rest[i] == defs[i]);
        }
        lemma_migrated(rest, before, store);
        let mid = all_relocated(rest, store);
        assert(is_well_kept(defs[defs.len() - 1], store));
        lemma_all_stay_well_kept(rest, defs.last(), store);
        law_the_order_of_moves_does_not_matter(defs.last(), mid, listings.last());
    }
}

/// What the moves of other definitions leave of an object.
proof fn lemma_untouched(
    defs: Seq<DefView>,
    d: DefView,
    store: Map<Seq<char>, Tree>,
    key: Seq<char>,
)
    requires
        are_sound(defs),
        is_sound(d),
        forall|i: int| 0 <= i < defs.len() ==> !same_resource(#[trigger] defs[i], d),
    ensures
        ({
            let after = all_relocated(defs, store);
            &&& is_own(d, after, key) <==> is_own(d, store, key)
            &&& leaves(d, after, key) <==> leaves(d, store, key)
            &&& is_own(d, store, key) ==> {
                &&& after[key] == store[key]
                &&& after.contains_key(new_of(d, key)) <==> store.contains_key(new_of(d, key))
                &&& store.contains_key(new_of(d, key)) ==> after[new_of(d, key)]
                    == store[new_of(d, key)]
            }
        }),
    decreases defs.len(),
{
    if defs.len() > 0 {
        let rest = defs.drop_last();
        lemma_rest_is_sound(defs);
        assert forall|i: int| 0 <= i < rest.len() implies !same_resource(#[trigger] rest[i], d) by {
            assert(rest[i] == defs[i]);
        }
        lemma_untouched(rest, d, store, key);
        assert(!same_resource(defs[defs.len() - 1], d));
        lemma_apart(defs.last(), d, all_relocated(rest, store), key);
    }
}

/// Where an object of a definition is after a migration: under its new key, and no
/// longer under its old one, unless another object stands under the new key; then
/// both are as they were.
pub open spec fn is_placed(
    d: DefView,
    store: Map<Seq<char>, Tree>,
    after: Map<Seq<char>, Tree>,
    key: Seq<char>,
) -> bool {
    let n = new_of(d, key);
    if !store.contains_key(n) {
        after.contains_key(n) && after[n] == store[key] && !after.contains_key(key)
    } else if same_uid(store[n], store[key]) {
        after.contains_key(n) && after[n] == store[n] && !after.contains_key(key)
    } else {
        after.contains_key(n) && after[n] == store[n] && after.contains_key(key) && after[key]
            == store[key]
    }
}

proof fn lemma_placed(defs: Seq<DefView>, store: Map<Seq<char>, Tree>, i: int, key: Seq<char>)
    requires
        are_sound(defs),
        0 <= i < defs.len(),
        is_own(defs[i], store, key),
    ensures
        is_placed(defs[i], store, all_relocated(defs, store), key),
    decreases defs.len(),
{
    let rest = defs.drop_last();
    let last = defs.len() - 1;
    let mid = all_relocated(rest, store);
    let d = defs.last();
    lemma_rest_is_sound(defs);
    if i == last {
        assert forall|j: int| 0 <= j < rest.len() implies !same_resource(#[trigger] rest[j], d) by {
            assert(rest[j] == defs[j]);
        }
        lemma_untouched(rest, d, store, key);
        lemma_old_and_new(d, key);
        let n = new_of(d, key);
        lemma_new_is_not_old(d, d, n);
        assert(!leaves(d, mid, n));
        assert(!arrives(d, mid, key)) by {
            if arrives(d, mid, key) {
                lemma_new_is_not_old(d, d, key);
            }
        }
    } else {
        let e = defs[i];
        assert(rest[i] == e);
        lemma_placed(rest, store, i, key);
        lemma_old_and_new(e, key);
        let n = new_of(e, key);
        assert(is_sound(e));
        if leaves(d, mid, n) {
            lemma_new_is_not_old(e, d, n);
        }
        if arrives(d, mid, key) {
            lemma_new_is_not_old(d, e, key);
        }
        if leaves(d, mid, key) {
            assert(is_own(e, mid, key));
            lemma_old_keys_differ(d, e, key);
        }
    }
}

/// A migration loses no object: each ends under the key of its group and leaves its
/// old key, unless another object, by its `uid`, stands under the new one; then both
/// stay as they were.
pub proof fn law_a_migration_moves_every_object(
    defs: Seq<DefView>,
    listings: Seq<Seq<Seq<char>>>,
    store: Map<Seq<char>, Tree>,
    i: int,
    key: Seq<char>,
)
    requires
        are_sound(defs),
        all_well_kept(defs, store),
        are_listings(defs, listings, store),
        0 <= i < defs.len(),
        is_own(defs[i], store, key),
    ensures
        is_placed(defs[i], store, migrated(defs, listings, store), key),
        new_of(defs[i], key) == move_of(defs[i], store[key])->new_key,
{
    lemma_migrated(defs, listings, store);
    lemma_placed(defs, store, i, key);
    assert(is_well_kept(defs[i], store));
    lemma_new_key(defs[i], store[key]);
}

/// A key is none that a migration is about: no object of a definition stands under
/// it, or is to.
pub open spec fn is_foreign(
    defs: Seq<DefView>,
    store: Map<Seq<char>, Tree>,
    key: Seq<char>,
) -> bool {
    forall|i: int|
        0 <= i < defs.len() ==> !is_own(#[trigger] defs[i], store, key) && !(has_prefix(
            key,
            new_prefix(defs[i]),
        ) && is_own(defs[i], store, old_of(defs[i], key)))
}

proof fn lemma_foreign(defs: Seq<DefView>, store: Map<Seq<char>, Tree>, key: Seq<char>)
    requires
        are_sound(defs),
        is_foreign(defs, store, key),
    ensures
        all_relocated(defs, store).contains_key(key) <==> store.contains_key(key),
        store.contains_key(key) ==> all_relocated(defs, store)[key] == store[key],
    decreases defs.len(),
{
    if defs.len() > 0 {
        let rest = defs.drop_last();
        let d = defs.last();
        let mid = all_relocated(rest, store);
        lemma_rest_is_sound(defs);
        assert(d == defs[defs.len() - 1]);
        assert forall|i: int| 0 <= i < rest.len() implies !is_own(#[trigger] rest[i], store, key)
            && !(has_prefix(key, new_prefix(rest[i])) && is_own(
            rest[i],
            store,
            old_of(rest[i], key),
        )) by {
            assert(rest[i] == defs[i]);
        }
        lemma_foreign(rest, store, key);
        assert forall|j: int| 0 <= j < rest.len() implies !same_resource(#[trigger] rest[j], d) by {
            assert(rest[j] == defs[j]);
        }
        lemma_untouched(rest, d, store, key);
        lemma_untouched(rest, d, store, old_of(d, key));
        assert(!leaves(d, mid, key));
        assert(!arrives(d, mid, key));
    }
}

/// A migration changes nothing else: built-in objects, and those of other groups,
/// are left where they are.
pub proof fn law_a_migration_leaves_the_rest(
    defs: Seq<DefView>,
    listings: Seq<Seq<Seq<char>>>,
    store: Map<Seq<char>, Tree>,
    key: Seq<char>,
)
    requires
        are_sound(defs),
        all_well_kept(defs, store),
        are_listings(defs, listings, store),
        is_foreign(defs, store, key),
    ensures
        migrated(defs, listings, store).contains_key(key) <==> store.contains_key(key),
        store.contains_key(key) ==> migrated(defs, listings, store)[key] == store[key],
{
    lemma_migrated(defs, listings, store);
    lemma_foreign(defs, store, key);
}

/// No object of a definition is left that could move.
spec fn is_settled(d: DefView, store: Map<Seq<char>, Tree>) -> bool {
    forall|key: Seq<char>| !(#[trigger] leaves(d, store, key))
}

proof fn lemma_settles(d: DefView, store: Map<Seq<char>, Tree>)
    requires
        is_sound(d),
    ensures
        is_settled(d, relocated(d, store)),
{
    let after = relocated(d, store);
    assert forall|key: Seq<char>| !(#[trigger] leaves(d, after, key)) by {
        if is_own(d, after, key) {
            lemma_own_is_older(d, d, store, key);
            lemma_old_and_new(d, key);
            let n = new_of(d, key);
            lemma_new_is_not_old(d, d, n);
            assert(!leaves(d, store, n));
            assert(!arrives(d, store, key));
            assert(!leaves(d, store, key));
        }
    }
}

proof fn lemma_all_settled(defs: Seq<DefView>, store: Map<Seq<char>, Tree>, i: int)
    requires
        are_sound(defs),
        0 <= i < defs.len(),
    ensures
        is_settled(defs[i], all_relocated(defs, store)),
    decreases defs.len(),
{
    let rest = defs.drop_last();
    let mid = all_relocated(rest, store);
    lemma_rest_is_sound(defs);
    if i == defs.len() - 1 {
        lemma_settles(defs.last(), mid);
    } else {
        assert(rest[i] == defs[i]);
        lemma_all_settled(rest, store, i);
        assert(is_sound(defs[i]));
        assert(!same_resource(defs[i], defs.last()));
        assert forall|key: Seq<char>| !(#[trigger] leaves(
            defs[i],
            relocated(defs.last(), mid),
            key,
        )) by {
            lemma_apart(defs.last(), defs[i], mid, key);
        }
    }
}

proof fn lemma_settled_stays(d: DefView, store: Map<Seq<char>, Tree>)
    requires
        is_settled(d, store),
    ensures
        relocated(d, store) == store,
{
    assert forall|key: Seq<char>| !(#[trigger] arrives(d, store, key)) by {
        if arrives(d, store, key) {
            lemma_old_and_new(d, key);
            assert(leaves(d, store, old_of(d, key)));
        }
    }
    assert(relocated(d, store) =~= store);
}

proof fn lemma_nothing_moves(defs: Seq<DefView>, store: Map<Seq<char>, Tree>)
    requires
        forall|i: int| 0 <= i < defs.len() ==> is_settled(#[trigger] defs[i], store),
    ensures
        all_relocated(defs, store) == store,
    decreases defs.len(),
{
    if defs.len() > 0 {
        let rest = defs.drop_last();
        assert forall|i: int| 0 <= i < rest.len() implies is_settled(#[trigger] rest[i], store) by {
            assert(rest[i] == defs[i]);
        }
        lemma_nothing_moves(rest, store);
        assert(is_settled(defs[defs.len() - 1], store));
        lemma_settled_stays(defs.last(), store);
    }
}

/// A migration that is run again changes nothing.
pub proof fn law_a_migration_is_idempotent(
    defs: Seq<DefView>,
    listings: Seq<Seq<Seq<char>>>,
    again: Seq<Seq<Seq<char>>>,
    store: Map<Seq<char>, Tree>,
)
    requires
        are_sound(defs),
        all_well_kept(defs, store),
        are_listings(defs, listings, store),
        are_listings(defs, again, migrated(defs, listings, store)),
    ensures
        migrated(defs, again, migrated(defs, listings, store)) == migrated(defs, listings, store),
{
    lemma_migrated(defs, listings, store);
    let after = all_relocated(defs, store);
    assert forall|i: int| 0 <= i < defs.len() implies is_well_kept(#[trigger] defs[i], after) by {
        lemma_all_stay_well_kept(defs, defs[i], store);
    }
    assert forall|i: int| 0 <= i < defs.len() implies is_settled(#[trigger] defs[i], after) by {
        lemma_all_settled(defs, store, i);
    }
    lemma_migrated(defs, again, after);
    lemma_nothing_moves(defs, after);
}

/// The definitions that a registry lists for a migration are of different custom
/// resources.
pub proof fn law_each_resource_is_listed_once(ds: Seq<DefView>)
    ensures
        forall|i: int, j: int|
            0 <= i < j < one_per_resource(ds).len() ==> !same_resource(
                #[trigger] one_per_resource(ds)[i],
                #[trigger] one_per_resource(ds)[j],
            ),
    decreases ds.len(),
{
    if ds.len() > 0 {
        let rest = one_per_resource(ds.drop_last());
        let all = one_per_resource(ds);
        law_each_resource_is_listed_once(ds.drop_last());
        assert forall|i: int, j: int| 0 <= i < j < all.len() implies !same_resource(
            #[trigger] all[i],
            #[trigger] all[j],
        ) by {
            if j < rest.len() {
                assert(all[i] == rest[i] && all[j] == rest[j]);
            } else {
                assert(all[i] == rest[i]);
                assert(!has_resource(rest, ds.last().group, ds.last().plural));
            }
        }
    }
}

} // verus!
