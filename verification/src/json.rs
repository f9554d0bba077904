//! JSON documents: the objects the API server stores and serves.
//!
//! [`Json`] is the executable document, [`Tree`] its model. An object keeps
//! its members in the order of their keys and holds each key once; its model is
//! the map from keys to members.

use vstd::prelude::*;
use vstd::string::*;

use crate::text::{before, is_before, same, texts};

verus! {

/// What a JSON number says: an integer that is not negative, a negative
/// integer, or the bits of a finite 64-bit floating-point number.
#[derive(Clone, Copy, Debug)]
pub enum Numeral {
    PosInt(u64),
    NegInt(i64),
    Float(u64),
}

/// A JSON number.
#[derive(Clone, Copy, Debug)]
pub struct Number {
    numeral: Numeral,
}

/// A JSON document.
#[derive(Debug)]
pub enum Json {
    Null,
    Bool(bool),
    Number(Number),
    String(String),
    Array(Vec<Json>),
    Object(Object),
}

/// The members of a JSON object, in the order of their keys.
#[derive(Debug)]
pub struct Object {
    entries: Vec<(String, Json)>,
}

/// What a document says.
pub ghost enum Tree {
    Null,
    Bool(bool),
    Number(Numeral),
    String(Seq<char>),
    Array(Seq<Tree>),
    Object(Map<Seq<char>, Tree>),
}

// ---------------------------------------------------------------------------
// The model
// ---------------------------------------------------------------------------

impl Numeral {
    /// The integer, where it fits 64 bits with a sign.
    pub open spec fn integer(self) -> Option<int> {
        match self {
            Numeral::PosInt(n) => if n <= i64::MAX {
                Some(n as int)
            } else {
                None
            },
            Numeral::NegInt(n) => Some(n as int),
            Numeral::Float(_) => None,
        }
    }

    /// The number of an integer.
    pub open spec fn of(n: int) -> Numeral {
        if n < 0 {
            Numeral::NegInt(n as i64)
        } else {
            Numeral::PosInt(n as u64)
        }
    }

    /// Equality of numbers: integers by value, floating-point numbers by
    /// value, for which both zeros are one.
    pub open spec fn alike(self, other: Numeral) -> bool {
        match (self, other) {
            (Numeral::PosInt(a), Numeral::PosInt(b)) => a == b,
            (Numeral::NegInt(a), Numeral::NegInt(b)) => a == b,
            (Numeral::Float(a), Numeral::Float(b)) => a == b || (float_zero(a) && float_zero(b)),
            _ => false,
        }
    }
}

impl Number {
    /// What the number says.
    pub closed spec fn says(self) -> Numeral {
        self.numeral
    }

    #[verifier::type_invariant]
    closed spec fn valid(self) -> bool {
        match self.numeral {
            Numeral::PosInt(_) => true,
            Numeral::NegInt(n) => n < 0,
            Numeral::Float(bits) => float_finite(bits),
        }
    }
}

/// The bits of a number that is neither infinite nor undefined: its exponent
/// is not all ones.
pub open spec fn float_finite(bits: u64) -> bool {
    (bits / 0x10_0000_0000_0000) % 0x800 != 0x7ff
}

/// The bits of a zero, of either sign.
pub open spec fn float_zero(bits: u64) -> bool {
    bits == 0 || bits == 0x8000_0000_0000_0000
}

impl Tree {
    /// The member `key` of an object.
    pub open spec fn get(self, key: Seq<char>) -> Option<Tree> {
        match self {
            Tree::Object(m) => if m.contains_key(key) {
                Some(m[key])
            } else {
                None
            },
            _ => None,
        }
    }

    /// The member `key` of an object; null where there is none.
    pub open spec fn at(self, key: Seq<char>) -> Tree {
        match self.get(key) {
            Some(v) => v,
            None => Tree::Null,
        }
    }

    /// The item `i` of an array; null where there is none.
    pub open spec fn item(self, i: int) -> Tree {
        match self {
            Tree::Array(a) => if 0 <= i < a.len() {
                a[i]
            } else {
                Tree::Null
            },
            _ => Tree::Null,
        }
    }

    /// The text of a string.
    pub open spec fn text(self) -> Option<Seq<char>> {
        match self {
            Tree::String(s) => Some(s),
            _ => None,
        }
    }

    /// The text of a string, or the empty text.
    pub open spec fn text_or_empty(self) -> Seq<char> {
        self.text_or(Seq::empty())
    }

    /// The text of a string, or `other`.
    pub open spec fn text_or(self, other: Seq<char>) -> Seq<char> {
        match self {
            Tree::String(s) => s,
            _ => other,
        }
    }

    /// The text of a string that is not empty.
    pub open spec fn some_text(self) -> Option<Seq<char>> {
        match self {
            Tree::String(s) => if s.len() > 0 {
                Some(s)
            } else {
                None
            },
            _ => None,
        }
    }

    /// The items of an array.
    pub open spec fn items(self) -> Option<Seq<Tree>> {
        match self {
            Tree::Array(a) => Some(a),
            _ => None,
        }
    }

    /// The items of an array; none where it is no array.
    pub open spec fn items_or_none(self) -> Seq<Tree> {
        match self {
            Tree::Array(a) => a,
            _ => Seq::empty(),
        }
    }

    /// The integer of a number.
    pub open spec fn integer(self) -> Option<int> {
        match self {
            Tree::Number(n) => n.integer(),
            _ => None,
        }
    }

    /// The number, where it is an unsigned integer.
    pub open spec fn natural(self) -> Option<u64> {
        match self {
            Tree::Number(Numeral::PosInt(n)) => Some(n),
            _ => None,
        }
    }

    /// The truth value of a boolean.
    pub open spec fn flag(self) -> Option<bool> {
        match self {
            Tree::Bool(b) => Some(b),
            _ => None,
        }
    }

    /// The array with one more item.
    pub open spec fn plus(self, item: Tree) -> Tree {
        Tree::Array(self.items_or_none().push(item))
    }

    /// A member can be set: the document is an object, or null and becomes one.
    pub open spec fn settable(self) -> bool {
        self is Object || self is Null
    }

    /// The document with the member `key` set to `v`.
    pub open spec fn set(self, key: Seq<char>, v: Tree) -> Tree {
        match self {
            Tree::Object(m) => Tree::Object(m.insert(key, v)),
            _ => Tree::Object(Map::empty().insert(key, v)),
        }
    }

    /// The document without the member `key`.
    pub open spec fn unset(self, key: Seq<char>) -> Tree {
        match self {
            Tree::Object(m) => Tree::Object(m.remove(key)),
            _ => self,
        }
    }

    /// The document itself where it is an object, an empty object where not.
    pub open spec fn as_object(self) -> Tree {
        match self {
            Tree::Object(m) => self,
            _ => empty_object(),
        }
    }

    /// Equality of documents, which compares numbers by value.
    pub open spec fn alike(self, other: Tree) -> bool
        decreases self,
    {
        match self {
            Tree::Null => other is Null,
            Tree::Bool(b) => other == Tree::Bool(b),
            Tree::Number(n) => match other {
                Tree::Number(m) => n.alike(m),
                _ => false,
            },
            Tree::String(s) => other == Tree::String(s),
            Tree::Array(a) => match other {
                Tree::Array(b) => a.len() == b.len() && forall|i: int|
                    0 <= i < a.len() ==> (#[trigger] a[i]).alike(b[i]),
                _ => false,
            },
            Tree::Object(m) => match other {
                Tree::Object(n) => m.dom() == n.dom() && forall|k: Seq<char>|
                    m.contains_key(k) ==> (#[trigger] m[k]).alike(n[k]),
                _ => false,
            },
        }
    }
}

/// The object without members.
pub open spec fn empty_object() -> Tree {
    Tree::Object(Map::empty())
}

/// The array without items.
pub open spec fn no_items() -> Tree {
    Tree::Array(Seq::empty())
}

/// A string.
pub open spec fn str_tree(s: &str) -> Tree {
    Tree::String(s@)
}

/// The documents of a sequence of values.
pub open spec fn trees(s: Seq<Json>) -> Seq<Tree>
    decreases s, 0nat,
{
    Seq::new(
        s.len(),
        |i: int|
            if 0 <= i < s.len() {
                s[i].tree()
            } else {
                arbitrary()
            },
    )
}

/// The strings among `items`, in order.
pub open spec fn strings_in(items: Seq<Tree>) -> Seq<Seq<char>>
    decreases items.len(),
{
    if items.len() == 0 {
        Seq::empty()
    } else {
        let rest = strings_in(items.drop_last());
        match items.last() {
            Tree::String(s) => rest.push(s),
            _ => rest,
        }
    }
}

/// Strings as documents.
pub open spec fn string_trees(s: Seq<Seq<char>>) -> Seq<Tree> {
    s.map_values(|t: Seq<char>| Tree::String(t))
}

/// Strings written as documents read back as strings.
pub proof fn lemma_strings_in(s: Seq<Seq<char>>)
    ensures
        strings_in(string_trees(s)) == s,
    decreases s.len(),
{
    if s.len() > 0 {
        assert(string_trees(s).drop_last() =~= string_trees(s.drop_last()));
        lemma_strings_in(s.drop_last());
        assert(s.drop_last().push(s.last()) =~= s);
    } else {
        assert(strings_in(string_trees(s)) =~= s);
    }
}

/// A document is like itself.
pub proof fn lemma_alike_itself(t: Tree)
    ensures
        t.alike(t),
    decreases t,
{
    match t {
        Tree::Array(a) => {
            assert forall|i: int| 0 <= i < a.len() implies (#[trigger] a[i]).alike(a[i]) by {
                lemma_alike_itself(a[i]);
            }
        },
        Tree::Object(m) => {
            assert forall|k: Seq<char>| m.contains_key(k) implies (#[trigger] m[k]).alike(m[k]) by {
                assert(decreases_to!(t => m[k]));
                lemma_alike_itself(m[k]);
            }
        },
        _ => {},
    }
}

/// `keys` are in strict order.
pub open spec fn ordered(keys: Seq<Seq<char>>) -> bool {
    forall|i: int, j: int|
        0 <= i < j < keys.len() ==> before(#[trigger] keys[i], #[trigger] keys[j])
}

/// `keys` are the keys of `m`, each once and in order.
pub open spec fn lists_keys(keys: Seq<Seq<char>>, m: Map<Seq<char>, Tree>) -> bool {
    ordered(keys) && forall|k: Seq<char>| #[trigger] m.contains_key(k) <==> keys.contains(k)
}

/// The keys of `m` in order.
pub open spec fn key_order(m: Map<Seq<char>, Tree>) -> Seq<Seq<char>> {
    choose|keys: Seq<Seq<char>>| lists_keys(keys, m)
}

spec fn zip(keys: Seq<Seq<char>>, vals: Seq<Tree>) -> Map<Seq<char>, Tree> {
    Map::new(|k: Seq<char>| keys.contains(k), |k: Seq<char>| vals[keys.index_of(k)])
}

impl Json {
    /// What the document says.
    pub open spec fn tree(self) -> Tree
        decreases self, 0nat,
    {
        match self {
            Json::Null => Tree::Null,
            Json::Bool(b) => Tree::Bool(b),
            Json::Number(n) => Tree::Number(n.says()),
            Json::String(s) => Tree::String(s@),
            Json::Array(a) => Tree::Array(trees(a@)),
            Json::Object(o) => Tree::Object(o.map()),
        }
    }
}

impl View for Json {
    type V = Tree;

    open spec fn view(&self) -> Tree {
        self.tree()
    }
}

/// An optional document as an optional tree.
pub open spec fn opt_tree(o: Option<&Json>) -> Option<Tree> {
    match o {
        Some(v) => Some(v@),
        None => None,
    }
}

// ---------------------------------------------------------------------------
// The order of texts
// ---------------------------------------------------------------------------

/// No text is before itself.
pub proof fn lemma_before_irreflexive(a: Seq<char>)
    ensures
        !before(a, a),
    decreases a.len(),
{
    if a.len() > 0 {
        lemma_before_irreflexive(a.skip(1));
    }
}

/// The order of texts is transitive.
pub proof fn lemma_before_transitive(a: Seq<char>, b: Seq<char>, c: Seq<char>)
    requires
        before(a, b),
        before(b, c),
    ensures
        before(a, c),
    decreases a.len(),
{
    if a.len() > 0 && b.len() > 0 && c.len() > 0 && a[0] == b[0] && b[0] == c[0] {
        lemma_before_transitive(a.skip(1), b.skip(1), c.skip(1));
    }
}

/// Of two texts one is before the other, unless they are equal.
pub proof fn lemma_before_total(a: Seq<char>, b: Seq<char>)
    ensures
        before(a, b) || a == b || before(b, a),
    decreases a.len(),
{
    if a.len() > 0 && b.len() > 0 {
        if a[0] == b[0] {
            lemma_before_total(a.skip(1), b.skip(1));
            if a.skip(1) == b.skip(1) {
                assert(a =~= seq![a[0]] + a.skip(1));
                assert(b =~= seq![b[0]] + b.skip(1));
            }
        }
    } else if a.len() == 0 && b.len() == 0 {
        assert(a =~= b);
    }
}

proof fn lemma_before_asymmetric(a: Seq<char>, b: Seq<char>)
    requires
        before(a, b),
    ensures
        !before(b, a),
        a != b,
{
    lemma_before_irreflexive(a);
    if before(b, a) {
        lemma_before_transitive(a, b, a);
    }
}

/// Keys in order are distinct.
pub proof fn lemma_ordered_distinct(keys: Seq<Seq<char>>)
    requires
        ordered(keys),
    ensures
        keys.no_duplicates(),
{
    assert forall|i: int, j: int|
        0 <= i < keys.len() && 0 <= j < keys.len() && i != j implies keys[i] != keys[j] by {
        if i < j {
            lemma_before_asymmetric(keys[i], keys[j]);
        } else {
            lemma_before_asymmetric(keys[j], keys[i]);
        }
    }
}

/// There is one way to list a set of keys in order.
proof fn lemma_one_order(a: Seq<Seq<char>>, b: Seq<Seq<char>>)
    requires
        ordered(a),
        ordered(b),
        forall|k: Seq<char>|
            #![trigger a.contains(k)]
            #![trigger b.contains(k)]
            a.contains(k) <==> b.contains(k),
    ensures
        a == b,
    decreases a.len(),
{
    lemma_ordered_distinct(a);
    lemma_ordered_distinct(b);
    if a.len() == 0 {
        if b.len() > 0 {
            assert(b.contains(b[0]));
        }
        assert(a =~= b);
    } else {
        assert(a.contains(a.last()));
        assert(b.contains(a.last()));
        assert(b.contains(b.last()));
        assert(a.contains(b.last()));
        let i = choose|i: int| 0 <= i < b.len() && b[i] == a.last();
        let j = choose|j: int| 0 <= j < a.len() && a[j] == b.last();
        if a.last() != b.last() {
            assert(before(b[i], b[b.len() - 1]));
            assert(before(a[j], a[a.len() - 1]));
            lemma_before_asymmetric(a.last(), b.last());
        }
        let c = a.drop_last();
        let d = b.drop_last();
        assert forall|k: Seq<char>|
            #![trigger c.contains(k)]
            #![trigger d.contains(k)]
            c.contains(k) <==> d.contains(k) by {
            if c.contains(k) {
                let n = choose|n: int| 0 <= n < c.len() && c[n] == k;
                assert(a[n] == k);
                assert(a.contains(k));
                assert(b.contains(k));
                let m = choose|m: int| 0 <= m < b.len() && b[m] == k;
                assert(m < d.len());
                assert(d[m] == k);
            }
            if d.contains(k) {
                let n = choose|n: int| 0 <= n < d.len() && d[n] == k;
                assert(b[n] == k);
                assert(b.contains(k));
                assert(a.contains(k));
                let m = choose|m: int| 0 <= m < a.len() && a[m] == k;
                assert(m < c.len());
                assert(c[m] == k);
            }
        }
        lemma_one_order(c, d);
        assert(a =~= c.push(a.last()));
        assert(b =~= d.push(b.last()));
    }
}

/// One key more of a listing is one key more of the set.
pub proof fn lemma_prefix_of_keys(keys: Seq<Seq<char>>, m: Map<Seq<char>, Tree>, i: int)
    requires
        lists_keys(keys, m),
        0 <= i < keys.len(),
    ensures
        m.contains_key(keys[i]),
        !keys.take(i).contains(keys[i]),
        forall|k: Seq<char>| #[trigger]
            keys.take(i + 1).contains(k) <==> (keys.take(i).contains(k) || k == keys[i]),
{
    lemma_ordered_distinct(keys);
    assert(keys.contains(keys[i]));
    assert(m.contains_key(keys[i]) <==> keys.contains(keys[i]));
    if keys.take(i).contains(keys[i]) {
        let n = keys.take(i).index_of(keys[i]);
        assert(keys[n] == keys[i]);
    }
    assert forall|k: Seq<char>| #[trigger]
        keys.take(i + 1).contains(k) <==> (keys.take(i).contains(k) || k == keys[i]) by {
        if keys.take(i).contains(k) {
            let n = keys.take(i).index_of(k);
            assert(keys.take(i + 1)[n] == k);
        }
        if k == keys[i] {
            assert(keys.take(i + 1)[i] == k);
        }
        if keys.take(i + 1).contains(k) && k != keys[i] {
            let n = keys.take(i + 1).index_of(k);
            assert(n < i);
            assert(keys.take(i)[n] == k);
        }
    }
}

// ---------------------------------------------------------------------------
// Objects
// ---------------------------------------------------------------------------

impl Object {
    /// The keys, in the order in which the members are kept.
    pub closed spec fn keys(self) -> Seq<Seq<char>> {
        Seq::new(self.entries@.len(), |i: int| self.entries@[i].0@)
    }

    closed spec fn values(self) -> Seq<Tree>
        decreases self, 0nat,
    {
        Seq::new(
            self.entries@.len(),
            |i: int|
                if 0 <= i < self.entries@.len() {
                    self.entries@[i].1.tree()
                } else {
                    arbitrary()
                },
        )
    }

    #[verifier::type_invariant]
    closed spec fn in_order(self) -> bool {
        ordered(self.keys())
    }

    /// The members by their keys.
    pub closed spec fn map(self) -> Map<Seq<char>, Tree>
        decreases self, 1nat,
    {
        zip(self.keys(), self.values())
    }

    proof fn lemma_entry(self, i: int)
        requires
            ordered(self.keys()),
            0 <= i < self.entries@.len(),
        ensures
            self.map().contains_key(self.entries@[i].0@),
            self.map()[self.entries@[i].0@] == self.entries@[i].1@,
    {
        lemma_ordered_distinct(self.keys());
        assert(self.keys()[i] == self.entries@[i].0@);
        assert(self.keys().contains(self.entries@[i].0@));
        let j = self.keys().index_of(self.entries@[i].0@);
        assert(self.keys()[j] == self.keys()[i]);
        assert(i == j);
    }

    /// The object without members.
    pub fn new() -> (r: Object)
        ensures
            r.map() == Map::<Seq<char>, Tree>::empty(),
    {
        let r = Object { entries: Vec::new() };
        assert(r.map() =~= Map::<Seq<char>, Tree>::empty());
        r
    }

    /// How many members there are. Their keys are the keys of the map, each
    /// once and in order.
    pub fn len(&self) -> (r: usize)
        ensures
            r == self.keys().len(),
            lists_keys(self.keys(), self.map()),
            self.keys() == key_order(self.map()),
    {
        proof {
            use_type_invariant(self);
            assert(lists_keys(self.keys(), self.map()));
            let a = self.keys();
            let b = key_order(self.map());
            assert forall|k: Seq<char>|
                #![trigger a.contains(k)]
                #![trigger b.contains(k)]
                a.contains(k) <==> b.contains(k) by {
                assert(self.map().contains_key(k) <==> a.contains(k));
                assert(self.map().contains_key(k) <==> b.contains(k));
            }
            lemma_one_order(a, b);
        }
        self.entries.len()
    }

    /// The key of the member `i`.
    pub fn key(&self, i: usize) -> (r: &str)
        requires
            i < self.keys().len(),
        ensures
            r@ == self.keys()[i as int],
            self.map().contains_key(r@),
    {
        proof {
            use_type_invariant(self);
            self.lemma_entry(i as int);
        }
        self.entries[i].0.as_str()
    }

    /// The member `i`.
    pub fn value(&self, i: usize) -> (r: &Json)
        requires
            i < self.keys().len(),
        ensures
            r@ == self.map()[self.keys()[i as int]],
            decreases_to!(self => r),
    {
        proof {
            use_type_invariant(self);
            self.lemma_entry(i as int);
        }
        &self.entries[i].1
    }

    /// The member `key`.
    pub fn get(&self, key: &str) -> (r: Option<&Json>)
        ensures
            match r {
                Some(v) => self.map().contains_key(key@) && self.map()[key@] == v@
                    && decreases_to!(self => v),
                None => !self.map().contains_key(key@),
            },
    {
        proof {
            use_type_invariant(self);
        }
        let mut i: usize = 0;
        while i < self.entries.len()
            invariant
                i <= self.entries@.len(),
                ordered(self.keys()),
                forall|j: int| 0 <= j < i ==> self.keys()[j] != key@,
            decreases self.entries@.len() - i,
        {
            if same(self.entries[i].0.as_str(), key) {
                proof {
                    self.lemma_entry(i as int);
                }
                return Some(&self.entries[i].1);
            }
            i = i + 1;
        }
        None
    }

    /// The object with the member `key` set to `v`.
    pub fn insert(self, key: &str, v: Json) -> (r: Object)
        ensures
            r.map() == self.map().insert(key@, v@),
    {
        proof {
            use_type_invariant(&self);
        }
        let ghost before_map = self.map();
        let ghost keys = self.keys();
        let ghost vals = self.values();
        let mut entries = self.entries;
        let ghost e0 = entries@;
        let mut i: usize = 0;
        while i < entries.len() && is_before(entries[i].0.as_str(), key)
            invariant
                i <= entries@.len(),
                entries@ == e0,
                forall|j: int| 0 <= j < i ==> before(#[trigger] e0[j].0@, key@),
            decreases entries@.len() - i,
        {
            i = i + 1;
        }
        let ghost vt = v@;
        proof {
            assert(keys == Seq::new(e0.len(), |k: int| e0[k].0@));
            lemma_ordered_distinct(keys);
            assert forall|j: int| 0 <= j < i implies #[trigger] keys[j] != key@ && before(keys[j],
                key@) by {
                assert(before(e0[j].0@, key@));
                lemma_before_asymmetric(keys[j], key@);
            }
        }
        if i < entries.len() && same(entries[i].0.as_str(), key) {
            let k = entries[i].0.clone();
            entries.set(i, (k, v));
            let ghost r0 = Object { entries: entries };
            proof {
                assert(r0.keys() =~= keys);
                assert(keys[i as int] == key@);
                assert(r0.values() =~= vals.update(i as int, vt));
                assert forall|k2: Seq<char>| #[trigger] keys.contains(k2)
                    implies (keys.index_of(k2) == i
                    <==> k2 == key@) && 0 <= keys.index_of(k2) < keys.len() by {
                    let n = keys.index_of(k2);
                    assert(keys[n] == k2);
                }
                assert(keys.contains(key@));
                assert(r0.map() =~= before_map.insert(key@, vt));
            }
            Object { entries }
        } else {
            proof {
                if i < e0.len() {
                    assert(keys[i as int] == e0[i as int].0@);
                    lemma_before_total(keys[i as int], key@);
                    assert(before(key@, keys[i as int]));
                }
                assert forall|j: int| i <= j < keys.len() implies before(key@,
                    #[trigger] keys[j]) && keys[j] != key@ by {
                    if j > i {
                        lemma_before_transitive(key@, keys[i as int], keys[j]);
                    }
                    lemma_before_asymmetric(key@, keys[j]);
                }
                assert(!keys.contains(key@));
            }
            entries.insert(i, (key.to_owned(), v));
            let ghost r0 = Object { entries: entries };
            proof {
                assert(r0.keys() =~= keys.insert(i as int, key@));
                assert(r0.values() =~= vals.insert(i as int, vt));
                let nk = r0.keys();
                assert forall|a: int, b: int| 0 <= a < b < nk.len() implies before(#[trigger] nk[a],
                    #[trigger] nk[b]) by {
                    let a1 = if a < i { a } else { a - 1 };
                    let b1 = if b < i { b } else { b - 1 };
                    if a != i { assert(nk[a] == keys[a1]); }
                    if b != i { assert(nk[b] == keys[b1]); }
                }
                lemma_ordered_distinct(nk);
                assert forall|k2: Seq<char>| #[trigger] nk.contains(k2) <==> (keys.contains(k2)
                    || k2 == key@) by {
                    if keys.contains(k2) {
                        let n = keys.index_of(k2);
                        let n1 = if n < i { n } else { n + 1 };
                        assert(nk[n1] == k2);
                    }
                    if k2 == key@ {
                        assert(nk[i as int] == k2);
                    }
                    if nk.contains(k2) && k2 != key@ {
                        let n1 = nk.index_of(k2);
                        let n = if n1 < i { n1 } else { n1 - 1 };
                        assert(keys[n] == k2);
                    }
                }
                assert forall|k2: Seq<char>| #[trigger] nk.contains(k2)
                    implies r0.values()[nk.index_of(k2)]
                    == (if k2 == key@ { vt } else { vals[keys.index_of(k2)] }) by {
                    let n1 = nk.index_of(k2);
                    assert(nk[n1] == k2);
                    if k2 == key@ {
                        assert(nk[i as int] == k2);
                        assert(n1 == i);
                    } else {
                        assert(n1 != i);
                        let n = if n1 < i { n1 } else { n1 - 1 };
                        assert(keys[n] == k2);
                        assert(keys.contains(k2));
                        assert(keys[keys.index_of(k2)] == k2);
                        assert(keys.index_of(k2) == n);
                    }
                }
                assert(r0.map() =~= before_map.insert(key@, vt));
            }
            Object { entries }
        }
    }

    /// The object without the member `key`.
    pub fn remove(self, key: &str) -> (r: Object)
        ensures
            r.map() == self.map().remove(key@),
    {
        proof {
            use_type_invariant(&self);
        }
        let ghost before_map = self.map();
        let ghost keys = self.keys();
        let ghost vals = self.values();
        let mut entries = self.entries;
        let ghost e0 = entries@;
        proof {
            assert(keys == Seq::new(e0.len(), |k: int| e0[k].0@));
            lemma_ordered_distinct(keys);
        }
        let mut i: usize = 0;
        while i < entries.len()
            invariant
                i <= entries@.len(),
                entries@ == e0,
                self.entries@ == e0,
                before_map == self.map(),
                keys == self.keys(),
                vals == self.values(),
                keys == Seq::new(e0.len(), |k: int| e0[k].0@),
                ordered(keys),
                keys.no_duplicates(),
                forall|j: int| 0 <= j < i ==> #[trigger] keys[j] != key@,
            decreases entries@.len() - i,
        {
            if same(entries[i].0.as_str(), key) {
                entries.remove(i);
                let ghost r0 = Object { entries: entries };
                proof {
                    assert(keys[i as int] == key@);
                    assert(r0.keys() =~= keys.remove(i as int));
                    assert(r0.values() =~= vals.remove(i as int));
                    let nk = r0.keys();
                    assert forall|a: int, b: int| 0 <= a < b < nk.len()
                        implies before(#[trigger] nk[a], #[trigger] nk[b]) by {
                        let a1 = if a < i { a } else { a + 1 };
                        let b1 = if b < i { b } else { b + 1 };
                        assert(nk[a] == keys[a1]);
                        assert(nk[b] == keys[b1]);
                    }
                    lemma_ordered_distinct(nk);
                    assert forall|k2: Seq<char>| #[trigger] nk.contains(k2)
                        <==> (keys.contains(k2) && k2 != key@) by {
                        if keys.contains(k2) && k2 != key@ {
                            let n = keys.index_of(k2);
                            let n1 = if n < i { n } else { n - 1 };
                            assert(nk[n1] == k2);
                        }
                        if nk.contains(k2) {
                            let n1 = nk.index_of(k2);
                            let n = if n1 < i { n1 } else { n1 + 1 };
                            assert(keys[n] == k2);
                        }
                    }
                    assert forall|k2: Seq<char>| #[trigger] nk.contains(k2)
                        implies r0.values()[nk.index_of(k2)] == vals[keys.index_of(k2)] by {
                        let n1 = nk.index_of(k2);
                        assert(nk[n1] == k2);
                        let n = if n1 < i { n1 } else { n1 + 1 };
                        assert(keys[n] == k2);
                        assert(keys.contains(k2));
                        assert(keys[keys.index_of(k2)] == k2);
                        assert(keys.index_of(k2) == n);
                    }
                    assert(r0.map() =~= before_map.remove(key@));
                }
                return Object { entries };
            }
            i = i + 1;
        }
        let r = Object { entries };
        proof {
            assert(r.keys() =~= keys);
            assert(r.values() =~= vals);
            assert(!keys.contains(key@));
            assert(r.map() =~= before_map.remove(key@));
        }
        r
    }
}

// ---------------------------------------------------------------------------
// Documents
// ---------------------------------------------------------------------------

/// A value more is a document more.
pub proof fn lemma_trees_push(s: Seq<Json>, v: Json)
    ensures
        trees(s.push(v)) == trees(s).push(v@),
{
    assert(trees(s.push(v)) =~= trees(s).push(v@));
}

/// No values, no documents.
pub proof fn lemma_trees_empty()
    ensures
        trees(Seq::empty()) == Seq::<Tree>::empty(),
{
    assert(trees(Seq::empty()) =~= Seq::<Tree>::empty());
}

impl Number {
    /// What the number says.
    pub fn numeral(&self) -> (r: Numeral)
        ensures
            r == self.says(),
    {
        self.numeral
    }

    fn same_number(&self, other: &Number) -> (r: bool)
        ensures
            r == self.says().alike(other.says()),
    {
        match (self.numeral, other.numeral) {
            (Numeral::PosInt(a), Numeral::PosInt(b)) => a == b,
            (Numeral::NegInt(a), Numeral::NegInt(b)) => a == b,
            (Numeral::Float(a), Numeral::Float(b)) => a == b || ((a == 0 || a
                == 0x8000_0000_0000_0000) && (b == 0 || b == 0x8000_0000_0000_0000)),
            _ => false,
        }
    }
}

impl Json {
    /// A string.
    pub fn text(s: &str) -> (r: Json)
        ensures
            r@ == Tree::String(s@),
    {
        Json::String(s.to_owned())
    }

    /// A boolean.
    pub fn flag(b: bool) -> (r: Json)
        ensures
            r@ == Tree::Bool(b),
    {
        Json::Bool(b)
    }

    /// An integer that is not negative.
    pub fn uint(n: u64) -> (r: Json)
        ensures
            r@ == Tree::Number(Numeral::PosInt(n)),
    {
        Json::Number(Number { numeral: Numeral::PosInt(n) })
    }

    /// An integer.
    pub fn int_value(n: i64) -> (r: Json)
        ensures
            r@ == Tree::Number(Numeral::of(n as int)),
    {
        if n < 0 {
            Json::Number(Number { numeral: Numeral::NegInt(n) })
        } else {
            Json::Number(Number { numeral: Numeral::PosInt(n as u64) })
        }
    }

    /// The floating-point number with these bits, where it is finite.
    pub fn float(bits: u64) -> (r: Option<Json>)
        ensures
            match r {
                Some(v) => float_finite(bits) && v@ == Tree::Number(Numeral::Float(bits)),
                None => !float_finite(bits),
            },
    {
        if (bits / 0x10_0000_0000_0000) % 0x800 != 0x7ff {
            Some(Json::Number(Number { numeral: Numeral::Float(bits) }))
        } else {
            None
        }
    }

    /// The object without members.
    pub fn object() -> (r: Json)
        ensures
            r@ == empty_object(),
    {
        Json::Object(Object::new())
    }

    /// The array without items.
    pub fn list() -> (r: Json)
        ensures
            r@ == no_items(),
    {
        let v: Vec<Json> = Vec::new();
        proof {
            lemma_trees_empty();
            assert(v@ =~= Seq::<Json>::empty());
        }
        Json::Array(v)
    }

    /// An array of strings.
    pub fn text_list(items: &Vec<String>) -> (r: Json)
        ensures
            r@ == Tree::Array(string_trees(crate::text::texts(items@))),
    {
        let mut v: Vec<Json> = Vec::new();
        let mut i: usize = 0;
        while i < items.len()
            invariant
                i <= items.len(),
                v@.len() == i,
                forall|j: int| 0 <= j < i ==> (#[trigger] v@[j])@ == Tree::String(items@[j]@),
            decreases items.len() - i,
        {
            v.push(Json::String(items[i].clone()));
            i = i + 1;
        }
        assert(trees(v@) =~= string_trees(crate::text::texts(items@)));
        Json::Array(v)
    }

    /// The object with one more member.
    pub fn with(self, key: &str, v: Json) -> (r: Json)
        requires
            self@ is Object,
        ensures
            r@ == Tree::Object(self@->Object_0.insert(key@, v@)),
    {
        match self {
            Json::Object(o) => Json::Object(o.insert(key, v)),
            other => other,
        }
    }

    /// The array with one more item.
    pub fn and(self, v: Json) -> (r: Json)
        requires
            self@ is Array,
        ensures
            r@ == self@.plus(v@),
    {
        match self {
            Json::Array(a) => {
                let mut a = a;
                proof {
                    lemma_trees_push(a@, v);
                }
                a.push(v);
                Json::Array(a)
            },
            other => other,
        }
    }

    /// The member `key`.
    pub fn get(&self, key: &str) -> (r: Option<&Json>)
        ensures
            opt_tree(r) == self@.get(key@),
    {
        match self {
            Json::Object(o) => o.get(key),
            _ => None,
        }
    }

    /// The member `key`; null where there is none.
    pub fn at(&self, key: &str) -> (r: &Json)
        ensures
            r@ == self@.at(key@),
    {
        match self.get(key) {
            Some(v) => v,
            None => &Json::Null,
        }
    }

    /// The item `i` of an array; null where there is none.
    pub fn item(&self, i: usize) -> (r: &Json)
        ensures
            r@ == self@.item(i as int),
    {
        match self {
            Json::Array(a) => if i < a.len() {
                &a[i]
            } else {
                &Json::Null
            },
            _ => &Json::Null,
        }
    }

    pub fn is_null(&self) -> (r: bool)
        ensures
            r == (self@ is Null),
    {
        matches!(self, Json::Null)
    }

    pub fn is_object(&self) -> (r: bool)
        ensures
            r == (self@ is Object),
    {
        matches!(self, Json::Object(_))
    }

    pub fn is_array(&self) -> (r: bool)
        ensures
            r == (self@ is Array),
    {
        matches!(self, Json::Array(_))
    }

    pub fn is_string(&self) -> (r: bool)
        ensures
            r == (self@ is String),
    {
        matches!(self, Json::String(_))
    }

    /// The text of a string.
    pub fn as_str(&self) -> (r: Option<&str>)
        ensures
            crate::text::opt_str(r) == self@.text(),
    {
        match self {
            Json::String(s) => Some(s.as_str()),
            _ => None,
        }
    }

    /// The text of a string, or `other`.
    pub fn str_or<'a>(&'a self, other: &'a str) -> (r: &'a str)
        ensures
            r@ == self@.text_or(other@),
    {
        match self {
            Json::String(s) => s.as_str(),
            _ => other,
        }
    }

    /// The text of a string, or the empty text.
    pub fn str_or_empty(&self) -> (r: &str)
        ensures
            r@ == self@.text_or_empty(),
    {
        match self {
            Json::String(s) => s.as_str(),
            _ => {
                proof {
                    reveal_strlit("");
                    assert(""@ =~= Seq::<char>::empty());
                }
                ""
            },
        }
    }

    /// The text of a string that is not empty.
    pub fn some_str(&self) -> (r: Option<&str>)
        ensures
            crate::text::opt_str(r) == self@.some_text(),
    {
        match self {
            Json::String(s) => if s.as_str().unicode_len() > 0 {
                Some(s.as_str())
            } else {
                None
            },
            _ => None,
        }
    }

    /// Is this the string `s`?
    pub fn is_text(&self, s: &str) -> (r: bool)
        ensures
            r == (self@ == Tree::String(s@)),
    {
        match self {
            Json::String(t) => same(t.as_str(), s),
            _ => false,
        }
    }

    /// The items of an array.
    pub fn as_array(&self) -> (r: Option<&Vec<Json>>)
        ensures
            match r {
                Some(a) => self@ == Tree::Array(trees(a@)),
                None => !(self@ is Array),
            },
    {
        match self {
            Json::Array(a) => Some(a),
            _ => None,
        }
    }

    /// The members of an object.
    pub fn as_object(&self) -> (r: Option<&Object>)
        ensures
            match r {
                Some(o) => self@ == Tree::Object(o.map()),
                None => !(self@ is Object),
            },
    {
        match self {
            Json::Object(o) => Some(o),
            _ => None,
        }
    }

    /// The integer of a number that fits.
    pub fn as_i64(&self) -> (r: Option<i64>)
        ensures
            match r {
                Some(n) => self@.integer() == Some(n as int),
                None => self@.integer() is None,
            },
    {
        match self {
            Json::Number(number) => match number.numeral() {
                Numeral::PosInt(n) => if n <= i64::MAX as u64 {
                    Some(n as i64)
                } else {
                    None
                },
                Numeral::NegInt(n) => Some(n),
                Numeral::Float(_) => None,
            },
            _ => None,
        }
    }

    /// The number, where it is an unsigned integer.
    pub fn as_u64(&self) -> (r: Option<u64>)
        ensures
            r == self@.natural(),
    {
        match self {
            Json::Number(number) => match number.numeral() {
                Numeral::PosInt(n) => Some(n),
                _ => None,
            },
            _ => None,
        }
    }

    /// The truth value of a boolean.
    pub fn as_bool(&self) -> (r: Option<bool>)
        ensures
            r == self@.flag(),
    {
        match self {
            Json::Bool(b) => Some(*b),
            _ => None,
        }
    }

    /// Takes the document out and leaves null.
    pub fn take(&mut self) -> (r: Json)
        ensures
            r@ == old(self)@,
            final(self)@ == Tree::Null,
    {
        let mut t = Json::Null;
        core::mem::swap(self, &mut t);
        t
    }

    /// Sets the member `key`; null becomes an object first.
    pub fn set(&mut self, key: &str, v: Json)
        requires
            old(self)@.settable(),
        ensures
            final(self)@ == old(self)@.set(key@, v@),
    {
        let t = self.take();
        *self = match t {
            Json::Object(o) => Json::Object(o.insert(key, v)),
            _ => Json::Object(Object::new().insert(key, v)),
        };
    }

    /// Removes the member `key`.
    pub fn unset(&mut self, key: &str)
        ensures
            final(self)@ == old(self)@.unset(key@),
    {
        let t = self.take();
        *self = match t {
            Json::Object(o) => Json::Object(o.remove(key)),
            other => other,
        };
    }

    /// Makes the document an empty object unless it is an object.
    pub fn make_object(&mut self)
        ensures
            final(self)@ == old(self)@.as_object(),
    {
        if !self.is_object() {
            *self = Json::object();
        }
    }

    /// A copy.
    pub fn dup(&self) -> (r: Json)
        ensures
            r@ == self@,
        decreases self,
    {
        match self {
            Json::Null => Json::Null,
            Json::Bool(b) => Json::Bool(*b),
            Json::Number(n) => Json::Number(*n),
            Json::String(s) => Json::String(s.clone()),
            Json::Array(a) => {
                let mut out: Vec<Json> = Vec::new();
                let mut i: usize = 0;
                while i < a.len()
                    invariant
                        i <= a.len(),
                        *self == Json::Array(*a),
                        out@.len() == i,
                        forall|j: int| 0 <= j < i ==> (#[trigger] out@[j])@ == a@[j]@,
                    decreases a.len() - i,
                {
                    assert(decreases_to!(*self => self->Array_0));
                    assert(decreases_to!(*a => a[i as int]));
                    out.push(a[i].dup());
                    i = i + 1;
                }
                assert(trees(out@) =~= trees(a@));
                Json::Array(out)
            },
            Json::Object(o) => {
                let mut out = Object::new();
                let n: usize = o.len();
                let mut i: usize = 0;
                let ghost keys = o.keys();
                let ghost m = o.map();
                while i < n
                    invariant
                        i <= n,
                        n == keys.len(),
                        keys == o.keys(),
                        m == o.map(),
                        *self == Json::Object(*o),
                        forall|k: Seq<char>| #[trigger] out.map().contains_key(k)
                            <==> keys.take(i as int).contains(k),
                        forall|k: Seq<char>| #[trigger] out.map().contains_key(k)
                            ==> out.map()[k] == m[k],
                    decreases n - i,
                {
                    let k = o.key(i);
                    let v = o.value(i);
                    proof {
                        assert(keys.take(i + 1) =~= keys.take(i as int).push(keys[i as int]));
                        assert forall|k2: Seq<char>| #[trigger] keys.take(i + 1).contains(k2)
                            <==> (keys.take(i as int).contains(k2) || k2 == k@) by {
                            if keys.take(i as int).contains(k2) {
                                let n2 = keys.take(i as int).index_of(k2);
                                assert(keys.take(i + 1)[n2] == k2);
                            }
                            if k2 == k@ {
                                assert(keys.take(i + 1)[i as int] == k2);
                            }
                        }
                    }
                    assert(decreases_to!(*self => self->Object_0));
                    assert(decreases_to!(o => v));
                    let c = v.dup();
                    out = out.insert(k, c);
                    i = i + 1;
                }
                proof {
                    assert(keys.take(n as int) =~= keys);
                    assert forall|k: Seq<char>| #[trigger] m.contains_key(k)
                        <==> out.map().contains_key(k) by {}
                    assert(out.map() =~= m);
                }
                Json::Object(out)
            },
        }
    }

    /// Are the two documents equal?
    pub fn equals(&self, other: &Json) -> (r: bool)
        ensures
            r == self@.alike(other@),
        decreases self,
    {
        match self {
            Json::Null => other.is_null(),
            Json::Bool(a) => match other {
                Json::Bool(b) => *a == *b,
                _ => false,
            },
            Json::Number(a) => match other {
                Json::Number(b) => a.same_number(b),
                _ => false,
            },
            Json::String(a) => other.is_text(a.as_str()),
            Json::Array(a) => {
                let b = match other {
                    Json::Array(b) => b,
                    _ => {
                        return false;
                    },
                };
                if a.len() != b.len() {
                    return false;
                }
                let mut i: usize = 0;
                while i < a.len()
                    invariant
                        i <= a.len(),
                        a.len() == b.len(),
                        *self == Json::Array(*a),
                        *other == Json::Array(*b),
                        forall|j: int| 0 <= j < i ==> (#[trigger] trees(a@)[j]).alike(trees(b@)[j]),
                    decreases a.len() - i,
                {
                    assert(decreases_to!(*self => self->Array_0));
                    assert(decreases_to!(*a => a[i as int]));
                    if !a[i].equals(&b[i]) {
                        assert(!trees(a@)[i as int].alike(trees(b@)[i as int]));
                        return false;
                    }
                    i = i + 1;
                }
                assert(trees(a@).len() == trees(b@).len());
                assert(self@ == Tree::Array(trees(a@)));
                assert(other@ == Tree::Array(trees(b@)));
                true
            },
            Json::Object(a) => {
                let b = match other {
                    Json::Object(b) => b,
                    _ => {
                        return false;
                    },
                };
                let n: usize = a.len();
                let m: usize = b.len();
                let ghost ka = a.keys();
                let ghost kb = b.keys();
                if n != m {
                    proof {
                        if a.map().dom() == b.map().dom() {
                            lemma_same_keys(ka, kb, a.map(), b.map());
                        }
                    }
                    return false;
                }
                let mut i: usize = 0;
                while i < n
                    invariant
                        i <= n,
                        n == m,
                        n == ka.len(),
                        m == kb.len(),
                        ka == a.keys(),
                        kb == b.keys(),
                        lists_keys(ka, a.map()),
                        lists_keys(kb, b.map()),
                        *self == Json::Object(*a),
                        *other == Json::Object(*b),
                        forall|j: int| 0 <= j < i
                            ==> #[trigger] ka[j] == kb[j] && a.map()[ka[j]].alike(b.map()[ka[j]]),
                    decreases n - i,
                {
                    if !same(a.key(i), b.key(i)) {
                        proof {
                            if a.map().dom() == b.map().dom() {
                                lemma_same_keys(ka, kb, a.map(), b.map());
                            }
                        }
                        return false;
                    }
                    let va = a.value(i);
                    let vb = b.value(i);
                    if !va.equals(vb) {
                        assert(ka.contains(ka[i as int]));
                        assert(a.map().contains_key(ka[i as int]));
                        assert(!a.map()[ka[i as int]].alike(b.map()[ka[i as int]]));
                        return false;
                    }
                    i = i + 1;
                }
                proof {
                    assert(ka =~= kb);
                    assert forall|k: Seq<char>| #[trigger] a.map().dom().contains(k)
                        <==> b.map().dom().contains(k) by {
                        assert(a.map().contains_key(k) <==> ka.contains(k));
                        assert(b.map().contains_key(k) <==> kb.contains(k));
                    }
                    assert(a.map().dom() =~= b.map().dom());
                    assert forall|k: Seq<char>| a.map().contains_key(k)
                        implies (#[trigger] a.map()[k]).alike(b.map()[k]) by {
                        assert(ka.contains(k));
                        let j = ka.index_of(k);
                        assert(ka[j] == k);
                    }
                }
                true
            },
        }
    }
}

impl Clone for Json {
    fn clone(&self) -> (r: Json)
        ensures
            r@ == self@,
    {
        self.dup()
    }
}

proof fn lemma_same_keys(
    a: Seq<Seq<char>>,
    b: Seq<Seq<char>>,
    m: Map<Seq<char>, Tree>,
    n: Map<Seq<char>, Tree>,
)
    requires
        lists_keys(a, m),
        lists_keys(b, n),
        m.dom() == n.dom(),
    ensures
        a == b,
{
    assert forall|k: Seq<char>|
        #![trigger a.contains(k)]
        #![trigger b.contains(k)]
        a.contains(k) <==> b.contains(k) by {
        assert(m.contains_key(k) <==> a.contains(k));
        assert(n.contains_key(k) <==> b.contains(k));
        assert(m.dom().contains(k) <==> n.dom().contains(k));
    }
    lemma_one_order(a, b);
}

// ---------------------------------------------------------------------------
// Lists
// ---------------------------------------------------------------------------

/// A copy of every item.
pub fn dup_all(items: &Vec<Json>) -> (r: Vec<Json>)
    ensures
        trees(r@) == trees(items@),
        r@.len() == items@.len(),
{
    let mut out: Vec<Json> = Vec::new();
    let mut i: usize = 0;
    while i < items.len()
        invariant
            i <= items.len(),
            out@.len() == i,
            forall|j: int| 0 <= j < i ==> (#[trigger] out@[j])@ == items@[j]@,
        decreases items.len() - i,
    {
        out.push(items[i].dup());
        i = i + 1;
    }
    assert(trees(out@) =~= trees(items@));
    out
}

/// A copy of the items of an array; none where it is no array.
pub fn items_of(v: &Json) -> (r: Vec<Json>)
    ensures
        trees(r@) == v@.items_or_none(),
        r@.len() == v@.items_or_none().len(),
{
    match v {
        Json::Array(a) => dup_all(a),
        _ => {
            let none: Vec<Json> = Vec::new();
            assert(trees(none@) =~= Seq::<Tree>::empty());
            none
        },
    }
}

/// The strings among the items.
pub fn collect_strings(v: &Json) -> (r: Vec<String>)
    ensures
        texts(r@) == strings_in(v@.items_or_none()),
{
    let mut out: Vec<String> = Vec::new();
    assert(texts(out@) =~= Seq::<Seq<char>>::empty());
    let a = match v {
        Json::Array(a) => a,
        _ => {
            return out;
        },
    };
    let ghost ts = trees(a@);
    let mut i: usize = 0;
    while i < a.len()
        invariant
            i <= a.len(),
            ts == trees(a@),
            texts(out@) == strings_in(ts.take(i as int)),
        decreases a.len() - i,
    {
        proof {
            assert(ts.take(i + 1).drop_last() =~= ts.take(i as int));
            assert(ts.take(i + 1).last() == a@[i as int]@);
        }
        let ghost was = texts(out@);
        match &a[i] {
            Json::String(s) => {
                out.push(s.clone());
                assert(texts(out@) =~= was.push(s@));
            },
            _ => {},
        }
        i = i + 1;
    }
    assert(ts.take(i as int) =~= ts);
    out
}

/// A member that is set is there, and the others are what they were; one that is taken out is
/// not.
pub proof fn law_a_member_is_set(t: Tree, key: Seq<char>, v: Tree, other: Seq<char>)
    requires
        t is Object,
        other != key,
    ensures
        t.set(key, v).get(key) == Some(v),
        t.set(key, v).get(other) == t.get(other),
        t.unset(key).get(key) is None,
        t.unset(key).get(other) == t.get(other),
        t.get(key) == Some(v) ==> t.at(key) == v,
        t.get(key) is None ==> t.at(key) is Null,
{
}

/// What is no object has no member, and is an object of one member once one is set.
pub proof fn law_only_objects_have_members(t: Tree, key: Seq<char>, v: Tree)
    requires
        !(t is Object),
    ensures
        t.get(key) is None,
        t.at(key) is Null,
        t.set(key, v).get(key) == Some(v),
        t.unset(key) == t,
{
}

/// Documents that are alike are of one sort and say the same; two that differ anywhere are not
/// alike.
pub proof fn law_what_is_alike(
    a: Seq<char>,
    b: Seq<char>,
    x: Seq<Tree>,
    y: Seq<Tree>,
    i: int,
    m: Map<Seq<char>, Tree>,
    n: Map<Seq<char>, Tree>,
)
    ensures
        Tree::String(a).alike(Tree::String(b)) <==> a == b,
        !Tree::String(a).alike(Tree::Null),
        !Tree::Null.alike(Tree::Bool(false)),
        x.len() != y.len() ==> !Tree::Array(x).alike(Tree::Array(y)),
        0 <= i < x.len() && i < y.len() && !x[i].alike(y[i]) ==> !Tree::Array(x).alike(
            Tree::Array(y),
        ),
        m.contains_key(a) && !n.contains_key(a) ==> !Tree::Object(m).alike(Tree::Object(n))
            && !Tree::Object(n).alike(Tree::Object(m)),
        m.contains_key(a) && n.contains_key(a) && !m[a].alike(n[a]) ==> !Tree::Object(m).alike(
            Tree::Object(n),
        ),
{
    assert(m.contains_key(a) <==> m.dom().contains(a));
    assert(n.contains_key(a) <==> n.dom().contains(a));
}

/// The texts in a list are its items that are texts, in their order.
pub proof fn law_the_texts_in_a_list(items: Seq<Tree>)
    ensures
        strings_in(items) == items.filter(|t: Tree| t is String).map_values(
            |t: Tree| t->String_0,
        ),
    decreases items.len(),
{
    reveal(Seq::filter);
    let f = |t: Tree| t is String;
    let g = |t: Tree| t->String_0;
    if items.len() > 0 {
        law_the_texts_in_a_list(items.drop_last());
        let rest = items.drop_last().filter(f);
        assert(rest.push(items.last()).map_values(g) =~= rest.map_values(g).push(g(items.last())));
    }
    assert(strings_in(items) =~= items.filter(f).map_values(g));
}

} // verus!
