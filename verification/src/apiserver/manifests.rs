//! Manifests that are applied at startup: files in the order of their names,
//! each a stream of documents, each an object that is to exist.
//!
//! An object that exists is left as it is, unless its manifest asks for the mode
//! `Reconcile`.

use vstd::prelude::*;
use vstd::seq_lib::{to_multiset_build, to_multiset_insert};
use vstd::string::*;

use crate::apiserver::crd::{
    establish_at, established_status, storage_resource, stored_under, CrdRegistry, CrdScope,
    DefView,
};
use crate::apiserver::discovery::{resources_for, row_texts, served_in};
use crate::apiserver::error::{ApiError, ErrorView};
use crate::apiserver::handlers::resource::{complete_metadata, with_metadata};
use crate::apiserver::storage::{cluster_key_of, namespaced_key_of, ResourceStorage};
use crate::json::{
    lemma_before_irreflexive, lemma_before_transitive, lemma_trees_push, opt_tree, str_tree, trees,
    Json, Tree,
};
use crate::outside::{
    document_fault, document_flag_fault, fault_view, fresh_uid, now_text, reached, read_document,
    time_shaped, uid_shaped, yaml_document, yaml_fault, yaml_flag_fault,
};
use crate::text::{
    before, find_from, has_prefix, is_before, lemma_find_from, lemma_rfind_to, occurs_at, opt_str,
    opt_text, rfind, rfind_text, same, split_at_first, split_once, starts_with, texts,
};

verus! {

/// The group of an `apiVersion`; the core group is the empty text.
pub open spec fn group_of(api_version: Seq<char>) -> Seq<char> {
    match split_once(api_version, '/') {
        Some((g, _)) => g,
        None => Seq::empty(),
    }
}

/// The version of an `apiVersion`.
pub open spec fn version_of(api_version: Seq<char>) -> Seq<char> {
    match split_once(api_version, '/') {
        Some((_, v)) => v,
        None => api_version,
    }
}

/// An `apiVersion` as group and version. The core group's name is empty.
pub fn group_version(api_version: &str) -> (r: (String, String))
    ensures
        r.0@ == group_of(api_version@),
        r.1@ == version_of(api_version@),
{
    match split_at_first(api_version, '/') {
        Some((g, v)) => (g.to_owned(), v.to_owned()),
        None => (String::new(), api_version.to_owned()),
    }
}

/// An `apiVersion` names its group and its version; one without a slash is a
/// version of the core group.
pub proof fn law_an_api_version_names_its_group(group: Seq<char>, version: Seq<char>)
    requires
        forall|i: int| 0 <= i < group.len() ==> #[trigger] group[i] != '/',
        forall|i: int| 0 <= i < version.len() ==> #[trigger] version[i] != '/',
    ensures
        group_of(group + seq!['/'] + version) == group,
        version_of(group + seq!['/'] + version) == version,
        group_of(version) == Seq::<char>::empty(),
        version_of(version) == version,
{
    let s = group + seq!['/'] + version;
    let n = group.len() as int;
    lemma_find_from(s, seq!['/'], 0);
    assert(s.subrange(n, n + 1) =~= seq!['/']);
    assert forall|j: int| 0 <= j < n implies !occurs_at(s, seq!['/'], j) by {
        if occurs_at(s, seq!['/'], j) {
            assert(s.subrange(j, j + 1)[0] == group[j]);
        }
    }
    assert(occurs_at(s, seq!['/'], n));
    assert(find_from(s, seq!['/'], 0) == Some(n));
    assert(s.take(n) =~= group);
    assert(s.skip(n + 1) =~= version);
    lemma_find_from(version, seq!['/'], 0);
    if let Some(i) = find_from(version, seq!['/'], 0) {
        assert(version.subrange(i, i + 1)[0] == version[i]);
    }
}

// ---------------------------------------------------------------------------
// Documents
// ---------------------------------------------------------------------------

/// What to do with the document at a place of a stream, given why it is cut off and
/// why it is no boolean.
#[derive(Clone, Copy, Debug, PartialEq, Eq, Structural)]
pub enum Place {
    /// There is none, or what follows it cannot be told.
    Stop,
    /// It is whole, and is read.
    Read,
    /// It is an alias without an anchor and nothing else. It is skipped with its
    /// end.
    Skip,
}

/// What to do with the document at a place of a stream.
pub open spec fn place_of(
    fault: Option<Option<Seq<char>>>,
    flag_fault: Option<Seq<char>>,
) -> Place {
    match fault {
        None => Place::Stop,
        Some(None) => Place::Read,
        Some(Some(_)) => match flag_fault {
            Some(e) => if has_prefix(e, "unknown anchor"@) {
                Place::Skip
            } else {
                Place::Stop
            },
            None => Place::Stop,
        },
    }
}

/// Decides what to do with the document at a place of a stream.
pub fn judge_place(fault: Option<Option<String>>, flag_fault: Option<String>) -> (r: Place)
    ensures
        r == place_of(fault_view(fault), opt_text(flag_fault)),
{
    match fault {
        None => Place::Stop,
        Some(None) => Place::Read,
        Some(Some(_)) => match flag_fault {
            Some(e) => if starts_with(e.as_str(), "unknown anchor") {
                Place::Skip
            } else {
                Place::Stop
            },
            None => Place::Stop,
        },
    }
}

/// The documents of a stream from a place on, at most `places` further: those that
/// can be read and hold something.
pub open spec fn documents_from(text: Seq<char>, n: nat, places: nat) -> Seq<Tree>
    decreases places,
{
    if places == 0 {
        Seq::empty()
    } else {
        match place_of(yaml_fault(text, n), yaml_flag_fault(text, n)) {
            Place::Stop => Seq::empty(),
            Place::Skip => if places == 1 {
                Seq::empty()
            } else {
                documents_from(text, n + 2, (places - 2) as nat)
            },
            Place::Read => kept(yaml_document(text, n)) + documents_from(
                text,
                n + 1,
                (places - 1) as nat,
            ),
        }
    }
}

/// A document that was read and holds something.
pub open spec fn kept(doc: Option<Tree>) -> Seq<Tree> {
    match doc {
        Some(t) => if t is Null {
            Seq::empty()
        } else {
            seq![t]
        },
        None => Seq::empty(),
    }
}

/// Puts a document behind others where it was read and holds something.
pub fn keep_document(docs: &mut Vec<Json>, doc: Option<Json>)
    ensures
        trees(final(docs)@) == trees(old(docs)@) + kept(
            match doc {
                Some(v) => Some(v@),
                None => None,
            },
        ),
{
    let ghost was = trees(docs@);
    match doc {
        Some(v) => {
            if !v.is_null() {
                proof {
                    lemma_trees_push(docs@, v);
                }
                docs.push(v);
                assert(trees(docs@) =~= was + seq![v@]);
            } else {
                assert(trees(docs@) =~= was + Seq::<Tree>::empty());
            }
        },
        None => {
            assert(trees(docs@) =~= was + Seq::<Tree>::empty());
        },
    }
}

/// Splits the contents of a file into documents. Empty ones are dropped, and so are
/// those that cannot be read. One that is cut off in the middle is the last. Every
/// place of a stream but one takes a character at least, so no more are looked at.
pub fn documents(text: &str) -> (r: Vec<Json>)
    ensures
        trees(r@) == documents_from(text@, 0, text@.len() + 1),
{
    let len: usize = text.unicode_len();
    let mut out: Vec<Json> = Vec::new();
    let mut n: usize = 0;
    let ghost whole = documents_from(text@, 0, text@.len() + 1);
    assert(trees(out@) =~= Seq::<Tree>::empty());
    assert(trees(out@) + whole =~= whole);
    loop
        invariant
            len == text@.len(),
            n <= len,
            reached(text@, n as nat),
            whole == documents_from(text@, 0, text@.len() + 1),
            trees(out@) + documents_from(text@, n as nat, (len + 1 - n) as nat) == whole,
        decreases len - n,
    {
        let fault = document_fault(text, n);
        let flag_fault = match &fault {
            Some(Some(_)) => document_flag_fault(text, n),
            _ => None,
        };
        let ghost was = trees(out@);
        assert(was + Seq::<Tree>::empty() =~= was);
        match judge_place(fault, flag_fault) {
            Place::Stop => {
                return out;
            },
            Place::Skip => {
                if len - n <= 1 {
                    assert(documents_from(text@, (n + 2) as nat, 0) == Seq::<Tree>::empty());
                    return out;
                }
                n = n + 2;
            },
            Place::Read => {
                let doc = read_document(text, n);
                keep_document(&mut out, doc);
                proof {
                    let doc = yaml_document(text@, n as nat);
                    let rest = documents_from(text@, (n + 1) as nat, (len - n) as nat);
                    assert(trees(out@) == was + kept(doc));
                    assert((was + kept(doc)) + rest =~= was + (kept(doc) + rest));
                }
                if n == len {
                    assert(trees(out@) + Seq::<Tree>::empty() =~= trees(out@));
                    return out;
                }
                n = n + 1;
            },
        }
    }
}

// ---------------------------------------------------------------------------
// Files
// ---------------------------------------------------------------------------

/// What stands behind the last dot of a file's name, where a name stands before
/// it.
pub open spec fn extension(name: Seq<char>) -> Option<Seq<char>> {
    match rfind(name, "."@) {
        Some(i) => if i > 0 {
            Some(name.skip(i + 1))
        } else {
            None
        },
        None => None,
    }
}

/// A file by the name of a manifest.
pub open spec fn is_manifest(name: Seq<char>) -> bool {
    match extension(name) {
        Some(e) => e == "yaml"@ || e == "yml"@ || e == "json"@,
        None => false,
    }
}

/// The texts are in order.
pub open spec fn in_order(names: Seq<Seq<char>>) -> bool {
    forall|i: int, j: int|
        0 <= i < j < names.len() ==> !before(#[trigger] names[j], #[trigger] names[i])
}

fn named_as_manifest(name: &str) -> (r: bool)
    ensures
        r == is_manifest(name@),
{
    match rfind_text(name, ".") {
        Some(i) => {
            if i == 0 {
                return false;
            }
            proof {
                reveal_strlit(".");
                assert("."@.len() == 1);
                lemma_rfind_to(name@, "."@, name@.len() - 1);
            }
            let len: usize = name.unicode_len();
            let rest = name.substring_char(i + 1, len);
            assert(rest@ =~= name@.skip(i + 1));
            same(rest, "yaml") || same(rest, "yml") || same(rest, "json")
        },
        None => false,
    }
}

/// The names of the manifests among the files of a directory, in the order in
/// which they are applied.
pub fn manifest_files(names: &Vec<String>) -> (r: Vec<String>)
    ensures
        in_order(texts(r@)),
        texts(r@).to_multiset() == texts(names@).filter(|n: Seq<char>| is_manifest(n)).to_multiset(),
{
    let ghost keep = |n: Seq<char>| is_manifest(n);
    let mut out: Vec<String> = Vec::new();
    let ghost all = texts(names@);
    proof {
        assert(texts(out@) =~= Seq::<Seq<char>>::empty());
        assert(all.take(0) =~= Seq::<Seq<char>>::empty());
        reveal(Seq::filter);
        assert(all.take(0).filter(keep) =~= Seq::<Seq<char>>::empty());
    }
    let mut i: usize = 0;
    while i < names.len()
        invariant
            i <= names.len(),
            all == texts(names@),
            keep == (|n: Seq<char>| is_manifest(n)),
            in_order(texts(out@)),
            texts(out@).to_multiset() == all.take(i as int).filter(keep).to_multiset(),
        decreases names.len() - i,
    {
        proof {
            let a = all.take(i + 1);
            assert(a.drop_last() =~= all.take(i as int));
            assert(a.last() == names@[i as int]@);
            reveal(Seq::filter);
            to_multiset_build(all.take(i as int).filter(keep), a.last());
        }
        if named_as_manifest(names[i].as_str()) {
            place(&mut out, names[i].clone());
        }
        i = i + 1;
    }
    assert(all.take(i as int) =~= all);
    out
}

/// Puts a name in its place.
fn place(names: &mut Vec<String>, name: String)
    requires
        in_order(texts(old(names)@)),
    ensures
        in_order(texts(final(names)@)),
        texts(final(names)@).to_multiset() == texts(old(names)@).to_multiset().insert(name@),
{
    let ghost was = texts(names@);
    let ghost x = name@;
    let mut i: usize = 0;
    while i < names.len() && !is_before(name.as_str(), names[i].as_str())
        invariant
            i <= names.len(),
            was == texts(names@),
            names@ == old(names)@,
            x == name@,
            forall|j: int| 0 <= j < i ==> !before(x, #[trigger] was[j]),
        decreases names.len() - i,
    {
        i = i + 1;
    }
    proof {
        if i < was.len() {
            assert(before(x, was[i as int]));
            assert forall|j: int| i <= j < was.len() implies !before(#[trigger] was[j], x) by {
                lemma_not_before(x, was[i as int], was[j]);
            }
        }
        assert forall|j: int| 0 <= j < i implies !before(x, #[trigger] was[j]) by {}
    }
    names.insert(i, name);
    proof {
        let now = texts(names@);
        assert(now =~= was.insert(i as int, x));
        was.to_multiset_ensures();
        to_multiset_insert(was, i as int, x);
        assert forall|a: int, b: int| 0 <= a < b < now.len() implies !before(
            #[trigger] now[b],
            #[trigger] now[a],
        ) by {
            let wa = if a < i { a } else { a - 1 };
            let wb = if b < i { b } else { b - 1 };
            if a == i {
                assert(now[b] == was[wb]);
            } else if b == i {
                assert(now[a] == was[wa]);
            } else {
                assert(now[a] == was[wa] && now[b] == was[wb]);
            }
        }
    }
}

/// Where `x` is before `y` and `z` is not before `y`, `z` is not before `x`.
proof fn lemma_not_before(x: Seq<char>, y: Seq<char>, z: Seq<char>)
    requires
        before(x, y),
        z == y || !before(z, y),
    ensures
        !before(z, x),
{
    if before(z, x) {
        lemma_before_transitive(z, x, y);
    }
    if z == y && before(y, x) {
        lemma_before_transitive(x, y, x);
        lemma_before_irreflexive(x);
    }
}

// ---------------------------------------------------------------------------
// Modes
// ---------------------------------------------------------------------------

/// What to do when the object is already there.
#[derive(Debug, Clone, Copy, PartialEq, Eq, Structural)]
pub enum Mode {
    /// Leave it exactly as it is.
    EnsureExists,
    /// Overwrite it with the manifest.
    Reconcile,
}

/// The mode that a manifest asks for.
pub open spec fn mode_of(obj: Tree) -> Mode {
    let ann = obj.at("metadata"@).at("annotations"@);
    let raw = match ann.at("addonmanager.kubernetes.io/mode"@).text() {
        Some(s) => Some(s),
        None => ann.at("storm.io/manifest-mode"@).text(),
    };
    if raw == Some("Reconcile"@) {
        Mode::Reconcile
    } else {
        Mode::EnsureExists
    }
}

impl Mode {
    /// The mode that a manifest asks for: `EnsureExists` unless it says
    /// `Reconcile`.
    pub fn of(obj: &Json) -> (r: Mode)
        ensures
            r == mode_of(obj@),
    {
        let ann = obj.at("metadata").at("annotations");
        let raw = match ann.at("addonmanager.kubernetes.io/mode").as_str() {
            Some(s) => s,
            None => match ann.at("storm.io/manifest-mode").as_str() {
                Some(s) => s,
                None => {
                    return Mode::EnsureExists;
                },
            },
        };
        if same(raw, "Reconcile") {
            Mode::Reconcile
        } else {
            Mode::EnsureExists
        }
    }
}

// ---------------------------------------------------------------------------
// Where a manifest goes
// ---------------------------------------------------------------------------

/// The first row of a kind.
pub open spec fn row_of_kind(rows: Seq<(Seq<char>, Seq<char>, bool)>, kind: Seq<char>) -> Option<
    (Seq<char>, bool),
>
    decreases rows.len(),
{
    if rows.len() == 0 {
        None
    } else {
        match row_of_kind(rows.drop_last(), kind) {
            Some(r) => Some(r),
            None => if rows.last().1 == kind {
                Some((rows.last().0, rows.last().2))
            } else {
                None
            },
        }
    }
}

proof fn lemma_row_stays(rows: Seq<(Seq<char>, Seq<char>, bool)>, kind: Seq<char>, n: int)
    requires
        0 <= n <= rows.len(),
        row_of_kind(rows.take(n), kind) is Some,
    ensures
        row_of_kind(rows, kind) == row_of_kind(rows.take(n), kind),
    decreases rows.len() - n,
{
    if n < rows.len() {
        assert(rows.take(n + 1).drop_last() =~= rows.take(n));
        lemma_row_stays(rows, kind, n + 1);
    } else {
        assert(rows.take(n) =~= rows);
    }
}

fn built_in(group: &str, version: &str, kind: &str) -> (r: Option<(&'static str, bool)>)
    ensures
        match r {
            Some((plural, namespaced)) => row_of_kind(served_in(group@, version@), kind@) == Some(
                (plural@, namespaced),
            ),
            None => row_of_kind(served_in(group@, version@), kind@) is None,
        },
{
    let rows = resources_for(group, version);
    let ghost rs = served_in(group@, version@);
    let mut i: usize = 0;
    while i < rows.len()
        invariant
            i <= rows.len(),
            rs == row_texts(rows@),
            rs == served_in(group@, version@),
            row_of_kind(rs.take(i as int), kind@) is None,
        decreases rows.len() - i,
    {
        proof {
            assert(rs.take(i + 1).drop_last() =~= rs.take(i as int));
            assert(rs.take(i + 1).last() == rs[i as int]);
        }
        let (plural, k, namespaced) = rows[i];
        if same(k, kind) {
            proof {
                lemma_row_stays(rs, kind@, i + 1);
            }
            return Some((plural, namespaced));
        }
        i = i + 1;
    }
    assert(rs.take(i as int) =~= rs);
    None
}

/// Where the objects of a manifest's kind are stored, and whether they are
/// namespaced. `custom` is what the custom definitions say of the kind: its
/// plural and whether it is namespaced.
pub open spec fn resolved(obj: Tree, custom: Option<(Seq<char>, bool)>) -> Result<
    (Seq<char>, bool),
    Seq<char>,
> {
    let api_version = obj.at("apiVersion"@).text_or_empty();
    let kind = obj.at("kind"@).text_or_empty();
    let group = group_of(api_version);
    if api_version.len() == 0 || kind.len() == 0 {
        Err("manifest has no apiVersion or kind"@)
    } else {
        match row_of_kind(served_in(group, version_of(api_version)), kind) {
            Some(found) => Ok(found),
            None => match custom {
                Some((plural, namespaced)) => Ok((stored_under(group, plural), namespaced)),
                None => Err(api_version + " "@ + kind + " is not served by this apiserver"@),
            },
        }
    }
}

/// A resource as text and flag.
pub open spec fn resource_view(o: Option<(String, bool)>) -> Option<(Seq<char>, bool)> {
    match o {
        Some((plural, namespaced)) => Some((plural@, namespaced)),
        None => None,
    }
}

/// Where the objects of a manifest's kind are stored, given what the custom
/// definitions say of it.
pub fn resolve_with(obj: &Json, custom: Option<(String, bool)>) -> (r: Result<
    (String, bool),
    String,
>)
    ensures
        match r {
            Ok((resource, namespaced)) => resolved(obj@, resource_view(custom)) == Ok::<
                (Seq<char>, bool),
                Seq<char>,
            >((resource@, namespaced)),
            Err(e) => resolved(obj@, resource_view(custom)) == Err::<
                (Seq<char>, bool),
                Seq<char>,
            >(e@),
        },
{
    let api_version = obj.at("apiVersion").str_or_empty();
    let kind = obj.at("kind").str_or_empty();
    if api_version.unicode_len() == 0 || kind.unicode_len() == 0 {
        return Err("manifest has no apiVersion or kind".to_owned());
    }
    let (group, version) = group_version(api_version);
    match built_in(group.as_str(), version.as_str(), kind) {
        Some((plural, namespaced)) => {
            return Ok((plural.to_owned(), namespaced));
        },
        None => {},
    }
    match custom {
        Some((plural, namespaced)) => Ok(
            (storage_resource(group.as_str(), plural.as_str()), namespaced),
        ),
        None => Err(
            api_version.to_owned().concat(" ").concat(kind).concat(
                " is not served by this apiserver",
            ),
        ),
    }
}

/// What some definitions say of a kind.
pub open spec fn kind_answer(
    ds: Seq<DefView>,
    group: Seq<char>,
    version: Seq<char>,
    kind: Seq<char>,
    answer: Option<(Seq<char>, bool)>,
) -> bool {
    match answer {
        Some((plural, namespaced)) => exists|i: int|
            0 <= i < ds.len() && {
                let d = #[trigger] ds[i];
                d.is_for(group, version, plural) && d.kind == kind && namespaced == (d.scope
                    == CrdScope::Namespaced)
            },
        None => forall|i: int|
            0 <= i < ds.len() ==> {
                let d = #[trigger] ds[i];
                !(d.group == group && d.version == version && d.kind == kind)
            },
    }
}

/// A result of [`resolve`]: that of [`resolve_with`] for something that the
/// definitions say.
pub open spec fn resolved_among(
    obj: Tree,
    ds: Seq<DefView>,
    r: Result<(Seq<char>, bool), Seq<char>>,
) -> bool {
    let api_version = obj.at("apiVersion"@).text_or_empty();
    exists|custom: Option<(Seq<char>, bool)>| #[trigger]
        kind_answer(
            ds,
            group_of(api_version),
            version_of(api_version),
            obj.at("kind"@).text_or_empty(),
            custom,
        ) && r == resolved(obj, custom)
}

/// A result as text.
pub open spec fn resolution_view(r: Result<(String, bool), String>) -> Result<
    (Seq<char>, bool),
    Seq<char>,
> {
    match r {
        Ok((resource, namespaced)) => Ok((resource@, namespaced)),
        Err(e) => Err(e@),
    }
}

/// Where the objects of a manifest's kind are stored, and whether they are
/// namespaced: a kind that this server serves itself, else one of a custom
/// definition.
pub fn resolve(obj: &Json, crds: &CrdRegistry) -> (r: Result<(String, bool), String>)
    ensures
        resolved_among(obj@, crds.defs(), resolution_view(r)),
{
    let api_version = obj.at("apiVersion").str_or_empty();
    let kind = obj.at("kind").str_or_empty();
    let (group, version) = group_version(api_version);
    let custom = crds.resource_for_kind(group.as_str(), version.as_str(), kind);
    let ghost answer = resource_view(custom);
    assert(kind_answer(crds.defs(), group@, version@, kind@, answer));
    resolve_with(obj, custom)
}

/// Where a manifest goes.
pub struct Target {
    pub key: String,
    pub name: String,
    pub namespace: Option<String>,
}

/// A [`Target`] as text.
pub ghost struct TargetView {
    pub key: Seq<char>,
    pub name: Seq<char>,
    pub namespace: Option<Seq<char>>,
}

impl View for Target {
    type V = TargetView;

    open spec fn view(&self) -> TargetView {
        TargetView { key: self.key@, name: self.name@, namespace: opt_text(self.namespace) }
    }
}

/// Where an object of a resource goes. One that is namespaced and names no
/// namespace goes to `default`.
pub open spec fn target_of(obj: Tree, resource: Seq<char>, namespaced: bool) -> Result<
    TargetView,
    Seq<char>,
> {
    match obj.at("metadata"@).at("name"@).text() {
        None => Err("manifest has no metadata.name"@),
        Some(name) => {
            let ns = obj.at("metadata"@).at("namespace"@).text_or("default"@);
            if namespaced {
                Ok(
                    TargetView {
                        key: namespaced_key_of(resource, ns, name),
                        name,
                        namespace: Some(ns),
                    },
                )
            } else {
                Ok(TargetView { key: cluster_key_of(resource, name), name, namespace: None })
            }
        },
    }
}

/// Where an object of a resource goes.
pub fn target(obj: &Json, resource: &str, namespaced: bool) -> (r: Result<Target, String>)
    ensures
        match r {
            Ok(t) => target_of(obj@, resource@, namespaced) == Ok::<TargetView, Seq<char>>(t@),
            Err(e) => target_of(obj@, resource@, namespaced) == Err::<TargetView, Seq<char>>(e@),
        },
{
    let meta = obj.at("metadata");
    let name = match meta.at("name").as_str() {
        Some(n) => n,
        None => {
            return Err("manifest has no metadata.name".to_owned());
        },
    };
    let ns = meta.at("namespace").str_or("default");
    if namespaced {
        Ok(
            Target {
                key: ResourceStorage::namespaced_key(resource, ns, name),
                name: name.to_owned(),
                namespace: Some(ns.to_owned()),
            },
        )
    } else {
        Ok(
            Target {
                key: ResourceStorage::cluster_key(resource, name),
                name: name.to_owned(),
                namespace: None,
            },
        )
    }
}

// ---------------------------------------------------------------------------
// What a manifest does
// ---------------------------------------------------------------------------

/// What one manifest document did.
#[derive(Debug, PartialEq)]
pub enum Outcome {
    Created,
    Updated,
    Unchanged,
    /// Could not be applied, and why.
    Failed(String),
}

/// An [`Outcome`] as text.
pub ghost enum OutcomeView {
    Created,
    Updated,
    Unchanged,
    Failed(Seq<char>),
}

impl View for Outcome {
    type V = OutcomeView;

    open spec fn view(&self) -> OutcomeView {
        match self {
            Outcome::Created => OutcomeView::Created,
            Outcome::Updated => OutcomeView::Updated,
            Outcome::Unchanged => OutcomeView::Unchanged,
            Outcome::Failed(e) => OutcomeView::Failed(e@),
        }
    }
}

/// What to do for a manifest.
pub enum Action {
    /// Nothing: the object stays as it is.
    Leave,
    /// Create the object; register it where it is a custom definition.
    Create(Json, bool),
    /// Replace the object; register it where it is a custom definition.
    Replace(Json, bool),
}

/// An [`Action`] over documents.
pub ghost enum ActionView {
    Leave,
    Create(Tree, bool),
    Replace(Tree, bool),
}

impl View for Action {
    type V = ActionView;

    open spec fn view(&self) -> ActionView {
        match self {
            Action::Leave => ActionView::Leave,
            Action::Create(v, register) => ActionView::Create(v@, *register),
            Action::Replace(v, register) => ActionView::Replace(v@, *register),
        }
    }
}

/// The object of a manifest is a custom definition.
pub open spec fn is_crd(obj: Tree) -> bool {
    obj.at("kind"@) == str_tree("CustomResourceDefinition")
}

/// An object with a member of another's metadata in the place of its own.
pub open spec fn with_identity(obj: Tree, current: Tree, field: Seq<char>) -> Tree {
    match current.at("metadata"@).get(field) {
        Some(v) => obj.set("metadata"@, obj.at("metadata"@).set(field, v)),
        None => obj.set("metadata"@, obj.at("metadata"@).unset(field)),
    }
}

/// The object that replaces another: the manifest's, with the identity and the
/// status of the one that is there.
pub open spec fn reconciled(
    obj: Tree,
    current: Tree,
    t: TargetView,
    uid: Seq<char>,
    now: Seq<char>,
) -> Tree {
    let same = with_identity(
        with_identity(obj, current, "uid"@),
        current,
        "creationTimestamp"@,
    );
    let whole = with_metadata(same, t.name, t.namespace, uid, now);
    match current.get("status"@) {
        Some(st) => whole.set("status"@, st),
        None => whole.unset("status"@),
    }
}

/// The object that is created.
pub open spec fn created(obj: Tree, t: TargetView, uid: Seq<char>, now: Seq<char>) -> Tree {
    let whole = with_metadata(obj, t.name, t.namespace, uid, now);
    if is_crd(whole) {
        whole.set("status"@, established_status(whole, now))
    } else {
        whole
    }
}

/// What to do for a manifest, given what is stored in its place.
pub open spec fn action_for(
    obj: Tree,
    t: TargetView,
    existing: Option<Tree>,
    uid: Seq<char>,
    now: Seq<char>,
) -> ActionView {
    match existing {
        None => ActionView::Create(created(obj, t, uid, now), is_crd(obj)),
        Some(current) => match mode_of(obj) {
            Mode::EnsureExists => ActionView::Leave,
            Mode::Reconcile => ActionView::Replace(
                reconciled(obj, current, t, uid, now),
                is_crd(obj),
            ),
        },
    }
}

fn keep_identity(obj: &mut Json, current: &Json, field: &str)
    requires
        old(obj)@ is Object,
        old(obj)@.at("metadata"@) is Object,
    ensures
        final(obj)@ == with_identity(old(obj)@, current@, field@),
        final(obj)@ is Object,
        final(obj)@.at("metadata"@) is Object,
{
    let mut meta = obj.at("metadata").dup();
    match current.at("metadata").get(field) {
        Some(v) => {
            meta.set(field, v.dup());
        },
        None => {
            meta.unset(field);
        },
    }
    obj.set("metadata", meta);
}

fn borrowed(o: &Option<String>) -> (r: Option<&str>)
    ensures
        opt_str(r) == opt_text(*o),
{
    match o {
        Some(s) => Some(s.as_str()),
        None => None,
    }
}

proof fn lemma_kind_stays(
    obj: Tree,
    name: Seq<char>,
    namespace: Option<Seq<char>>,
    uid: Seq<char>,
    now: Seq<char>,
)
    ensures
        with_metadata(obj, name, namespace, uid, now).at("kind"@) == obj.at("kind"@),
{
    reveal_strlit("kind");
    reveal_strlit("metadata");
    assert("kind"@.len() == 4);
    assert("metadata"@.len() == 8);
}

/// Decides what to do for a manifest whose name is known, with this `uid` and
/// time for a new object.
pub fn decide(obj: Json, t: &Target, existing: Option<&Json>, uid: &str, now: &str) -> (r: Action)
    requires
        obj@.at("metadata"@).at("name"@) is String,
    ensures
        r@ == action_for(obj@, t@, opt_tree(existing), uid@, now@),
{
    let ghost o = obj@;
    let mut obj = obj;
    match existing {
        None => {
            complete_metadata(
                &mut obj,
                t.name.as_str(),
                borrowed(&t.namespace),
                uid,
                now,
            );
            proof {
                lemma_kind_stays(o, t@.name, t@.namespace, uid@, now@);
            }
            let register = obj.at("kind").is_text("CustomResourceDefinition");
            if register {
                establish_at(&mut obj, now);
            }
            Action::Create(obj, register)
        },
        Some(current) => {
            match Mode::of(&obj) {
                Mode::EnsureExists => Action::Leave,
                Mode::Reconcile => {
                    let register = obj.at("kind").is_text("CustomResourceDefinition");
                    keep_identity(&mut obj, current, "uid");
                    keep_identity(&mut obj, current, "creationTimestamp");
                    complete_metadata(
                        &mut obj,
                        t.name.as_str(),
                        borrowed(&t.namespace),
                        uid,
                        now,
                    );
                    match current.get("status") {
                        Some(st) => {
                            obj.set("status", st.dup());
                        },
                        None => {
                            obj.unset("status");
                        },
                    }
                    Action::Replace(obj, register)
                },
            }
        },
    }
}

/// What to do for a manifest, with some fresh `uid` and the time.
pub open spec fn action_somehow(
    obj: Tree,
    t: TargetView,
    existing: Option<Tree>,
    action: ActionView,
) -> bool {
    exists|uid: Seq<char>, now: Seq<char>|
        uid_shaped(uid) && time_shaped(now) && action == #[trigger] action_for(
            obj,
            t,
            existing,
            uid,
            now,
        )
}

/// Decides what to do for one manifest document whose place is known and what is
/// stored there.
pub fn apply_one(obj: Json, t: &Target, existing: Option<&Json>) -> (r: Action)
    requires
        obj@.at("metadata"@).at("name"@) is String,
    ensures
        action_somehow(obj@, t@, opt_tree(existing), r@),
{
    let uid = fresh_uid();
    let now = now_text();
    decide(obj, t, existing, uid.as_str(), now.as_str())
}

/// What a create came to: a race that was lost is what was wanted.
pub open spec fn create_outcome(failure: Option<ErrorView>) -> OutcomeView {
    match failure {
        None => OutcomeView::Created,
        Some(e) => if e.reason == "AlreadyExists"@ || e.reason == "Conflict"@ {
            OutcomeView::Unchanged
        } else {
            OutcomeView::Failed(e.message)
        },
    }
}

/// An error as a view.
pub open spec fn opt_error(e: Option<&ApiError>) -> Option<ErrorView> {
    match e {
        Some(e) => Some(e@),
        None => None,
    }
}

/// What a create came to.
pub fn after_create(failure: Option<&ApiError>) -> (r: Outcome)
    ensures
        r@ == create_outcome(opt_error(failure)),
{
    match failure {
        None => Outcome::Created,
        Some(e) => {
            if same(e.reason.as_str(), "AlreadyExists") || same(e.reason.as_str(), "Conflict") {
                Outcome::Unchanged
            } else {
                Outcome::Failed(e.message.clone())
            }
        },
    }
}

/// What a replacement came to.
pub fn after_update(failure: Option<&ApiError>) -> (r: Outcome)
    ensures
        match failure {
            None => r@ == OutcomeView::Updated,
            Some(e) => r@ == OutcomeView::Failed(e@.message),
        },
{
    match failure {
        None => Outcome::Updated,
        Some(e) => Outcome::Failed(e.message.clone()),
    }
}

/// How many documents were created, replaced, left and not applied.
pub struct Tally {
    pub created: u64,
    pub updated: u64,
    pub unchanged: u64,
    pub failed: u64,
}

impl Tally {
    /// Nothing yet.
    pub fn new() -> (r: Tally)
        ensures
            r == (Tally { created: 0, updated: 0, unchanged: 0, failed: 0 }),
    {
        Tally { created: 0, updated: 0, unchanged: 0, failed: 0 }
    }

    /// How many outcomes were counted.
    pub open spec fn total(self) -> int {
        self.created + self.updated + self.unchanged + self.failed
    }

    /// Counts an outcome.
    pub fn count(&mut self, outcome: &Outcome)
        requires
            old(self).total() < u64::MAX,
        ensures
            final(self).total() == old(self).total() + 1,
            final(self).created == old(self).created + (if outcome@ is Created {
                1int
            } else {
                0
            }),
            final(self).updated == old(self).updated + (if outcome@ is Updated {
                1int
            } else {
                0
            }),
            final(self).unchanged == old(self).unchanged + (if outcome@ is Unchanged {
                1int
            } else {
                0
            }),
            final(self).failed == old(self).failed + (if outcome@ is Failed {
                1int
            } else {
                0
            }),
    {
        match outcome {
            Outcome::Created => {
                self.created = self.created + 1;
            },
            Outcome::Updated => {
                self.updated = self.updated + 1;
            },
            Outcome::Unchanged => {
                self.unchanged = self.unchanged + 1;
            },
            Outcome::Failed(_) => {
                self.failed = self.failed + 1;
            },
        }
    }
}

/// An object that exists is not touched unless its manifest says `Reconcile`.
pub proof fn law_an_edit_survives_a_restart(
    obj: Tree,
    t: TargetView,
    current: Tree,
    uid: Seq<char>,
    now: Seq<char>,
)
    requires
        mode_of(obj) == Mode::EnsureExists,
    ensures
        action_for(obj, t, Some(current), uid, now) == ActionView::Leave,
{
}

/// A replacement keeps the identity and the status of the object that is there:
/// its `uid`, its `creationTimestamp` and its `status`.
pub proof fn law_reconcile_keeps_identity(
    obj: Tree,
    current: Tree,
    t: TargetView,
    uid: Seq<char>,
    now: Seq<char>,
)
    requires
        obj.at("metadata"@).at("name"@) is String,
        current.at("metadata"@).at("uid"@).some_text() is Some,
        current.at("metadata"@).at("creationTimestamp"@).some_text() is Some,
    ensures
        ({
            let r = reconciled(obj, current, t, uid, now);
            &&& r.at("metadata"@).at("uid"@) == current.at("metadata"@).at("uid"@)
            &&& r.at("metadata"@).at("creationTimestamp"@) == current.at("metadata"@).at(
                "creationTimestamp"@,
            )
            &&& r.get("status"@) == current.get("status"@)
            &&& r.at("spec"@) == obj.at("spec"@)
        }),
{
    reveal_strlit("uid");
    reveal_strlit("creationTimestamp");
    reveal_strlit("metadata");
    reveal_strlit("status");
    reveal_strlit("name");
    reveal_strlit("namespace");
    reveal_strlit("spec");
    assert("uid"@.len() == 3);
    assert("creationTimestamp"@.len() == 17);
    assert("metadata"@.len() == 8);
    assert("status"@.len() == 6);
    assert("name"@.len() == 4);
    assert("namespace"@.len() == 9);
    assert("spec"@.len() == 4);
}

/// A custom resource of a manifest is stored under its group, where its requests
/// read it.
pub proof fn law_custom_manifests_are_stored_under_their_group(
    obj: Tree,
    plural: Seq<char>,
    namespaced: bool,
)
    requires
        obj.at("apiVersion"@).some_text() is Some,
        obj.at("kind"@).some_text() is Some,
        row_of_kind(
            served_in(
                group_of(obj.at("apiVersion"@).text_or_empty()),
                version_of(obj.at("apiVersion"@).text_or_empty()),
            ),
            obj.at("kind"@).text_or_empty(),
        ) is None,
    ensures
        resolved(obj, Some((plural, namespaced))) == Ok::<(Seq<char>, bool), Seq<char>>(
            (stored_under(group_of(obj.at("apiVersion"@).text_or_empty()), plural), namespaced),
        ),
{
}

/// Only a manifest that asks for it is held against what is there; every other is made once.
/// The word of the addon manager goes before our own.
pub proof fn law_a_manifest_says_how_it_is_kept(obj: Tree)
    ensures
        ({
            let ann = obj.at("metadata"@).at("annotations"@);
            let theirs = ann.at("addonmanager.kubernetes.io/mode"@);
            let ours = ann.at("storm.io/manifest-mode"@);
            &&& theirs is String ==> (mode_of(obj) == Mode::Reconcile <==> theirs == str_tree(
                "Reconcile",
            ))
            &&& !(theirs is String) ==> (mode_of(obj) == Mode::Reconcile <==> ours == str_tree(
                "Reconcile",
            ))
        }),
{
}

/// A file is a manifest by how its name ends.
pub proof fn law_a_manifest_by_its_name(stem: Seq<char>)
    requires
        stem.len() > 0,
    ensures
        is_manifest(stem + ".yaml"@),
        is_manifest(stem + ".yml"@),
        is_manifest(stem + ".json"@),
        !is_manifest(stem + ".txt"@),
        !is_manifest(stem + ".yaml~"@),
{
    reveal_strlit(".yaml");
    reveal_strlit(".yml");
    reveal_strlit(".json");
    reveal_strlit(".txt");
    reveal_strlit(".yaml~");
    reveal_strlit("yaml");
    reveal_strlit("yml");
    reveal_strlit("json");
    reveal_strlit("txt");
    reveal_strlit("yaml~");
    assert(".yaml"@.len() == 5);
    assert(".yml"@.len() == 4);
    assert(".json"@.len() == 5);
    assert(".txt"@.len() == 4);
    assert(".yaml~"@.len() == 6);
    assert("yaml"@.len() == 4);
    assert("yml"@.len() == 3);
    assert("json"@.len() == 4);
    assert("txt"@.len() == 3);
    assert("yaml~"@.len() == 5);
    assert(".yaml"@[1] == 'y');
    assert(".json"@[1] == 'j');
    assert(".yaml"@[0] == '.');
    assert("yaml~"@[0] == 'y');
    assert(".yml"@[1] == 'y');
    assert(".txt"@[1] == 't');
    assert(".yml"@[0] == '.');
    assert("yaml"@[0] == 'y');
    assert("json"@[0] == 'j');
    assert(".json"@[0] == '.');
    assert(".txt"@[0] == '.');
    assert("yml"@[0] == 'y');
    assert("txt"@[0] == 't');
    lemma_extension(stem, "yaml"@);
    lemma_extension(stem, "yml"@);
    lemma_extension(stem, "json"@);
    lemma_extension(stem, "txt"@);
    lemma_extension(stem, "yaml~"@);
    assert(".yaml"@ =~= seq!['.'] + "yaml"@);
    assert(".yml"@ =~= seq!['.'] + "yml"@);
    assert(".json"@ =~= seq!['.'] + "json"@);
    assert(".txt"@ =~= seq!['.'] + "txt"@);
    assert(".yaml~"@ =~= seq!['.'] + "yaml~"@);
}

proof fn lemma_extension(stem: Seq<char>, ext: Seq<char>)
    requires
        stem.len() > 0,
        !ext.contains('.'),
    ensures
        extension(stem + (seq!['.'] + ext)) == Some(ext),
{
    let name = stem + (seq!['.'] + ext);
    reveal_strlit(".");
    assert("."@ =~= seq!['.']);
    assert(name =~= stem + seq!['.'] + ext);
    crate::text::law_found_at_the_last(stem, '.', ext);
    assert(name.skip(stem.len() as int + 1) =~= ext);
}

/// A manifest is for a row of its group and version that is of its kind, else for the custom
/// resource that is; without a version or a kind it is for nothing.
pub proof fn law_a_manifest_is_for_its_kind(obj: Tree, custom: Option<(Seq<char>, bool)>)
    ensures
        !(obj.at("kind"@) is String) ==> resolved(obj, custom) is Err,
        !(obj.at("apiVersion"@) is String) ==> resolved(obj, custom) is Err,
        ({
            let rows = served_in(
                group_of(obj.at("apiVersion"@)->String_0),
                version_of(obj.at("apiVersion"@)->String_0),
            );
            let kind = obj.at("kind"@)->String_0;
            obj.at("apiVersion"@) is String && obj.at("kind"@) is String && (obj.at(
                "apiVersion"@,
            )->String_0).len() > 0 && kind.len() > 0 ==> {
                &&& (exists|i: int| 0 <= i < rows.len() && (#[trigger] rows[i]).1 == kind) ==> (
                resolved(obj, custom) is Ok && exists|i: int|
                    0 <= i < rows.len() && (#[trigger] rows[i]).1 == kind && resolved(obj, custom)
                        == Ok::<(Seq<char>, bool), Seq<char>>((rows[i].0, rows[i].2)))
                &&& !(exists|i: int| 0 <= i < rows.len() && (#[trigger] rows[i]).1 == kind) ==> (
                resolved(obj, custom) is Ok <==> custom is Some)
            }
        }),
{
    lemma_row_of_kind(
        served_in(
            group_of(obj.at("apiVersion"@)->String_0),
            version_of(obj.at("apiVersion"@)->String_0),
        ),
        obj.at("kind"@)->String_0,
    );
}

proof fn lemma_row_of_kind(rows: Seq<(Seq<char>, Seq<char>, bool)>, kind: Seq<char>)
    ensures
        row_of_kind(rows, kind) is Some <==> exists|i: int|
            0 <= i < rows.len() && (#[trigger] rows[i]).1 == kind,
        row_of_kind(rows, kind) is Some ==> exists|i: int|
            0 <= i < rows.len() && (#[trigger] rows[i]).1 == kind && row_of_kind(rows, kind) == Some(
                (rows[i].0, rows[i].2),
            ),
    decreases rows.len(),
{
    if rows.len() > 0 {
        let rest = rows.drop_last();
        lemma_row_of_kind(rest, kind);
        assert(forall|i: int| 0 <= i < rest.len() ==> rest[i] == #[trigger] rows[i]);
        assert(rows[rows.len() - 1] == rows.last());
        if row_of_kind(rest, kind) is Some {
            let i = choose|i: int|
                0 <= i < rest.len() && (#[trigger] rest[i]).1 == kind && row_of_kind(rest, kind)
                    == Some((rest[i].0, rest[i].2));
            assert(rows[i].1 == kind);
        }
    }
}

/// A manifest is stored under its name and, where its kind has namespaces, under the one that
/// it names, else the default one.
pub proof fn law_where_a_manifest_goes(obj: Tree, resource: Seq<char>)
    ensures
        !(obj.at("metadata"@).at("name"@) is String) ==> target_of(obj, resource, true) is Err
            && target_of(obj, resource, false) is Err,
        obj.at("metadata"@).at("name"@) is String ==> {
            let name = obj.at("metadata"@).at("name"@)->String_0;
            let ns = obj.at("metadata"@).at("namespace"@);
            &&& target_of(obj, resource, false) is Ok
            &&& target_of(obj, resource, false)->Ok_0.key == cluster_key_of(resource, name)
            &&& target_of(obj, resource, false)->Ok_0.name == name
            &&& target_of(obj, resource, false)->Ok_0.namespace is None
            &&& ns is String ==> target_of(obj, resource, true) is Ok && target_of(
                obj,
                resource,
                true,
            )->Ok_0.key == namespaced_key_of(resource, ns->String_0, name) && target_of(
                obj,
                resource,
                true,
            )->Ok_0.namespace == Some(ns->String_0)
            &&& !(ns is String) ==> target_of(obj, resource, true) is Ok && target_of(
                obj,
                resource,
                true,
            )->Ok_0.key == namespaced_key_of(resource, "default"@, name)
        },
{
}

/// A manifest that is there is left as it is, or replaced by what it says with the identity and
/// the status that it has; one that is not is made.
pub proof fn law_what_is_done_with_a_manifest(
    obj: Tree,
    t: TargetView,
    current: Tree,
    uid: Seq<char>,
    now: Seq<char>,
    key: Seq<char>,
)
    requires
        obj is Object,
        key != "metadata"@,
        key != "status"@,
    ensures
        action_for(obj, t, None, uid, now) is Create,
        mode_of(obj) == Mode::EnsureExists ==> action_for(obj, t, Some(current), uid, now)
            is Leave,
        mode_of(obj) == Mode::Reconcile ==> action_for(obj, t, Some(current), uid, now) is Replace,
        reconciled(obj, current, t, uid, now).get(key) == obj.get(key),
        reconciled(obj, current, t, uid, now).get("status"@) == current.get("status"@),
        created(obj, t, uid, now).get(key) == obj.get(key),
{
    reveal_strlit("metadata");
    reveal_strlit("status");
    assert("metadata"@.len() == 8);
    assert("status"@.len() == 6);
}

/// What is there already is no failure to make it; everything else is.
pub proof fn law_what_is_there_is_no_failure(e: ErrorView)
    ensures
        create_outcome(None) is Created,
        e.reason == "AlreadyExists"@ || e.reason == "Conflict"@ ==> create_outcome(Some(e))
            is Unchanged,
        e.reason != "AlreadyExists"@ && e.reason != "Conflict"@ ==> create_outcome(Some(e))
            == OutcomeView::Failed(e.message),
{
}

/// Documents are read in order up to the first that cannot be, empty ones left out.
pub proof fn law_documents_are_read_in_order(text: Seq<char>, n: nat, places: nat, doc: Tree)
    requires
        places > 0,
    ensures
        yaml_fault(text, n) is None ==> documents_from(text, n, places).len() == 0,
        yaml_fault(text, n) == Some(None::<Seq<char>>) && yaml_document(text, n) == Some(doc) && !(
        doc is Null) ==> documents_from(text, n, places) == seq![doc] + documents_from(
            text,
            n + 1,
            (places - 1) as nat,
        ),
        yaml_fault(text, n) == Some(None::<Seq<char>>) && yaml_document(text, n) == Some(Tree::Null)
            ==> documents_from(text, n, places) == documents_from(
            text,
            n + 1,
            (places - 1) as nat,
        ),
{
    assert(Seq::<Tree>::empty() + documents_from(text, n + 1, (places - 1) as nat)
        =~= documents_from(text, n + 1, (places - 1) as nat));
}

/// A place that cannot be read ends the reading, unless it is one that only names an anchor that
/// is not there.
pub proof fn law_what_cannot_be_read_ends_the_reading(
    text: Seq<char>,
    n: nat,
    places: nat,
    fault: Seq<char>,
)
    requires
        places > 1,
        yaml_fault(text, n) == Some(Some(fault)),
    ensures
        yaml_flag_fault(text, n) is None ==> documents_from(text, n, places).len() == 0,
        (yaml_flag_fault(text, n) matches Some(e) ==> !has_prefix(e, "unknown anchor"@)
            ==> documents_from(text, n, places).len() == 0),
        (yaml_flag_fault(text, n) matches Some(e) ==> has_prefix(e, "unknown anchor"@)
            ==> documents_from(text, n, places) == documents_from(
            text,
            n + 2,
            (places - 2) as nat,
        )),
{
}

} // verus!
