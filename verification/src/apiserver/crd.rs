//! Custom resources: the registry of definitions, and the rules for writing one.

use vstd::prelude::*;
use vstd::string::*;

use crate::apiserver::error::{
    err_already_exists, err_invalid, err_not_found, ApiError, ErrorView, NOT_FOUND,
};
use crate::apiserver::handlers::kinds::{kind_of, resource_to_kind};
use crate::apiserver::handlers::patch::{apply_patch_body, patch_kind, patched};
use crate::apiserver::manifests::{group_of, group_version};
use crate::apiserver::storage::{cluster_key_of, namespaced_key_of, prefix_of, ResourceStorage};
use crate::json::{
    collect_strings, dup_all, lemma_trees_push, no_items, str_tree, string_trees, strings_in, trees,
    Json, Tree,
};
use crate::outside::{lower_case, lowered, now_text, time_shaped};
use crate::text::{
    contains, dup_texts, has_prefix, lemma_find_from, lemma_holds_char, occurs_at, opt_str, same,
    split_at_first, split_once, texts,
};

verus! {

/// Whether the objects of a custom resource are in namespaces.
#[derive(Clone, Copy, Debug, PartialEq, Eq, Structural)]
pub enum CrdScope {
    Namespaced,
    Cluster,
}

/// One served version of a custom resource.
pub struct CrdDefinition {
    pub group: String,
    pub version: String,
    pub kind: String,
    pub plural: String,
    pub singular: String,
    pub short_names: Vec<String>,
    pub scope: CrdScope,
    /// The `additionalPrinterColumns` of the version, as the definition has
    /// them.
    pub printer_columns: Vec<Json>,
}

/// What a [`CrdDefinition`] says.
pub ghost struct DefView {
    pub group: Seq<char>,
    pub version: Seq<char>,
    pub kind: Seq<char>,
    pub plural: Seq<char>,
    pub singular: Seq<char>,
    pub short_names: Seq<Seq<char>>,
    pub scope: CrdScope,
    pub printer_columns: Seq<Tree>,
}

impl View for CrdDefinition {
    type V = DefView;

    open spec fn view(&self) -> DefView {
        DefView {
            group: self.group@,
            version: self.version@,
            kind: self.kind@,
            plural: self.plural@,
            singular: self.singular@,
            short_names: texts(self.short_names@),
            scope: self.scope,
            printer_columns: trees(self.printer_columns@),
        }
    }
}

impl Clone for CrdDefinition {
    fn clone(&self) -> (r: CrdDefinition)
        ensures
            r@ == self@,
    {
        CrdDefinition {
            group: self.group.clone(),
            version: self.version.clone(),
            kind: self.kind.clone(),
            plural: self.plural.clone(),
            singular: self.singular.clone(),
            short_names: dup_texts(&self.short_names),
            scope: self.scope,
            printer_columns: dup_all(&self.printer_columns),
        }
    }
}

impl DefView {
    /// Under what a definition is found: its group, version and plural.
    pub open spec fn is_for(
        self,
        group: Seq<char>,
        version: Seq<char>,
        plural: Seq<char>,
    ) -> bool {
        self.group == group && self.version == version && self.plural == plural
    }
}

/// What a list of definitions says.
pub open spec fn defs(v: Seq<CrdDefinition>) -> Seq<DefView> {
    v.map_values(|d: CrdDefinition| d@)
}

/// No two definitions are for the same group, version and plural.
pub open spec fn distinct(ds: Seq<DefView>) -> bool {
    forall|i: int, j: int|
        0 <= i < j < ds.len() ==> !(#[trigger] ds[i]).is_for(
            (#[trigger] ds[j]).group,
            ds[j].version,
            ds[j].plural,
        )
}

/// The definition for a group, version and plural.
pub open spec fn found(
    ds: Seq<DefView>,
    group: Seq<char>,
    version: Seq<char>,
    plural: Seq<char>,
) -> Option<DefView>
    decreases ds.len(),
{
    if ds.len() == 0 {
        None
    } else if ds.last().is_for(group, version, plural) {
        Some(ds.last())
    } else {
        found(ds.drop_last(), group, version, plural)
    }
}

// ---------------------------------------------------------------------------
// What a definition document says
// ---------------------------------------------------------------------------

/// The scope of a definition; namespaced unless it says otherwise.
pub open spec fn scope_of(crd: Tree) -> CrdScope {
    if crd.at("spec"@).at("scope"@).text_or("Namespaced"@) == "Cluster"@ {
        CrdScope::Cluster
    } else {
        CrdScope::Namespaced
    }
}

/// The served versions of a definition that have a name, with their printer
/// columns.
pub open spec fn served(versions: Seq<Tree>) -> Seq<(Seq<char>, Seq<Tree>)>
    decreases versions.len(),
{
    if versions.len() == 0 {
        Seq::empty()
    } else {
        let rest = served(versions.drop_last());
        let v = versions.last();
        match v.at("name"@).text() {
            Some(name) => if v.at("served"@).flag() == Some(false) {
                rest
            } else {
                rest.push((name, v.at("additionalPrinterColumns"@).items_or_none()))
            },
            None => rest,
        }
    }
}

/// Some version is not served.
pub open spec fn withholds(versions: Seq<Tree>) -> bool {
    exists|i: int|
        0 <= i < versions.len() && (#[trigger] versions[i]).at("served"@).flag() == Some(false)
}

/// The versions to serve: `v1` where a definition names none. A version that is not
/// served is skipped, and nothing is served in its place.
pub open spec fn versions_to_serve(crd: Tree) -> Seq<(Seq<char>, Seq<Tree>)> {
    let listed = crd.at("spec"@).at("versions"@).items_or_none();
    let vs = served(listed);
    if vs.len() == 0 && !withholds(listed) {
        seq![("v1"@, Seq::empty())]
    } else {
        vs
    }
}

/// The definition of one version of a custom resource.
pub open spec fn definition_of(crd: Tree, version: Seq<char>, columns: Seq<Tree>) -> DefView {
    let names = crd.at("spec"@).at("names"@);
    DefView {
        group: crd.at("spec"@).at("group"@).text_or_empty(),
        version,
        kind: names.at("kind"@).text_or_empty(),
        plural: names.at("plural"@).text_or_empty(),
        singular: names.at("singular"@).text_or_empty(),
        short_names: strings_in(names.at("shortNames"@).items_or_none()),
        scope: scope_of(crd),
        printer_columns: columns,
    }
}

/// A definition can be served: it names a plural, and a group with a dot.
pub open spec fn servable(crd: Tree) -> bool {
    crd.at("spec"@).at("names"@).at("plural"@).text_or_empty().len() > 0 && crd.at("spec"@).at(
        "group"@,
    ).text_or_empty().contains('.')
}

/// The definitions with `d` among them: in the place of one for the same group,
/// version and plural, else at the end.
pub open spec fn put_def(ds: Seq<DefView>, d: DefView) -> Seq<DefView>
    decreases ds.len(),
{
    if ds.len() == 0 {
        seq![d]
    } else if ds.last().is_for(d.group, d.version, d.plural) {
        ds.drop_last().push(d)
    } else {
        put_def(ds.drop_last(), d).push(ds.last())
    }
}

/// As [`put_def`], but a definition that is new comes last.
pub open spec fn with_def(ds: Seq<DefView>, d: DefView) -> Seq<DefView> {
    if found(ds, d.group, d.version, d.plural) is Some {
        put_def(ds, d)
    } else {
        ds.push(d)
    }
}

/// The definitions with those of `versions` among them.
pub open spec fn with_versions(
    ds: Seq<DefView>,
    crd: Tree,
    versions: Seq<(Seq<char>, Seq<Tree>)>,
) -> Seq<DefView>
    decreases versions.len(),
{
    if versions.len() == 0 {
        ds
    } else {
        with_def(
            with_versions(ds, crd, versions.drop_last()),
            definition_of(crd, versions.last().0, versions.last().1),
        )
    }
}

/// The definitions after a definition document has been registered: its served
/// versions are there, and those that it lists as not served are not. A document
/// that cannot be served changes nothing.
pub open spec fn registered(ds: Seq<DefView>, crd: Tree) -> Seq<DefView> {
    if servable(crd) {
        with_versions(still_served(ds, crd), crd, versions_to_serve(crd))
    } else {
        ds
    }
}

/// A list of versions names a version that is not served.
pub open spec fn unserved(versions: Seq<Tree>, name: Seq<char>) -> bool {
    exists|i: int|
        0 <= i < versions.len() && (#[trigger] versions[i]).at("served"@).flag() == Some(false)
            && versions[i].at("name"@).text() == Some(name)
}

/// A definition is one that a document lists as not served.
pub open spec fn is_withdrawn(d: DefView, crd: Tree) -> bool {
    d.group == crd.at("spec"@).at("group"@).text_or_empty() && d.plural == crd.at("spec"@).at(
        "names"@,
    ).at("plural"@).text_or_empty() && unserved(
        crd.at("spec"@).at("versions"@).items_or_none(),
        d.version,
    )
}

/// The definitions without those that a document lists as not served.
pub open spec fn still_served(ds: Seq<DefView>, crd: Tree) -> Seq<DefView>
    decreases ds.len(),
{
    if ds.len() == 0 {
        Seq::empty()
    } else {
        let rest = still_served(ds.drop_last(), crd);
        if is_withdrawn(ds.last(), crd) {
            rest
        } else {
            rest.push(ds.last())
        }
    }
}

/// The definitions without those of one custom resource.
pub open spec fn without_plural(
    ds: Seq<DefView>,
    group: Seq<char>,
    plural: Seq<char>,
) -> Seq<DefView>
    decreases ds.len(),
{
    if ds.len() == 0 {
        Seq::empty()
    } else {
        let rest = without_plural(ds.drop_last(), group, plural);
        if ds.last().group == group && ds.last().plural == plural {
            rest
        } else {
            rest.push(ds.last())
        }
    }
}

/// The definitions after the one named `plural.group` has been unregistered.
pub open spec fn unregistered(ds: Seq<DefView>, name: Seq<char>) -> Seq<DefView> {
    match split_once(name, '.') {
        Some((plural, group)) => without_plural(ds, group, plural),
        None => ds,
    }
}

/// One definition for each group and plural: the first.
pub open spec fn one_per_resource(ds: Seq<DefView>) -> Seq<DefView>
    decreases ds.len(),
{
    if ds.len() == 0 {
        Seq::empty()
    } else {
        let rest = one_per_resource(ds.drop_last());
        if has_resource(rest, ds.last().group, ds.last().plural) {
            rest
        } else {
            rest.push(ds.last())
        }
    }
}

/// One of the definitions is for a group and plural.
pub open spec fn has_resource(ds: Seq<DefView>, group: Seq<char>, plural: Seq<char>) -> bool {
    exists|i: int|
        0 <= i < ds.len() && (#[trigger] ds[i]).group == group && ds[i].plural == plural
}

// ---------------------------------------------------------------------------
// Lemmas on lists of definitions
// ---------------------------------------------------------------------------

proof fn lemma_found(ds: Seq<DefView>, g: Seq<char>, v: Seq<char>, p: Seq<char>)
    ensures
        match found(ds, g, v, p) {
            Some(d) => d.is_for(g, v, p) && exists|i: int| 0 <= i < ds.len() && ds[i] == d,
            None => forall|i: int| 0 <= i < ds.len() ==> !(#[trigger] ds[i]).is_for(g, v, p),
        },
    decreases ds.len(),
{
    if ds.len() > 0 {
        lemma_found(ds.drop_last(), g, v, p);
        if ds.last().is_for(g, v, p) {
            assert(ds[ds.len() - 1] == ds.last());
        } else {
            match found(ds.drop_last(), g, v, p) {
                Some(d) => {
                    let i = choose|i: int| 0 <= i < ds.drop_last().len() && ds.drop_last()[i] == d;
                    assert(ds[i] == d);
                },
                None => {
                    assert forall|i: int| 0 <= i < ds.len() implies !(#[trigger] ds[i]).is_for(
                        g,
                        v,
                        p,
                    ) by {
                        if i < ds.len() - 1 {
                            assert(ds.drop_last()[i] == ds[i]);
                        }
                    }
                },
            }
        }
    }
}

proof fn lemma_found_at(ds: Seq<DefView>, i: int, g: Seq<char>, v: Seq<char>, p: Seq<char>)
    requires
        distinct(ds),
        0 <= i < ds.len(),
        ds[i].is_for(g, v, p),
    ensures
        found(ds, g, v, p) == Some(ds[i]),
{
    lemma_found(ds, g, v, p);
    let d = found(ds, g, v, p)->0;
    let j = choose|j: int| 0 <= j < ds.len() && ds[j] == d;
    if i < j {
        assert(!ds[i].is_for(ds[j].group, ds[j].version, ds[j].plural));
    }
    if j < i {
        assert(!ds[j].is_for(ds[i].group, ds[i].version, ds[i].plural));
    }
}

proof fn lemma_put(ds: Seq<DefView>, i: int, d: DefView)
    requires
        distinct(ds),
        0 <= i < ds.len(),
        ds[i].is_for(d.group, d.version, d.plural),
    ensures
        put_def(ds, d) == ds.update(i, d),
    decreases ds.len(),
{
    let n = ds.len() - 1;
    if i == n {
        assert(put_def(ds, d) =~= ds.update(i, d));
    } else {
        assert(!ds[i].is_for(ds[n].group, ds[n].version, ds[n].plural));
        let r = ds.drop_last();
        assert forall|a: int, b: int| 0 <= a < b < r.len() implies !(#[trigger] r[a]).is_for(
            (#[trigger] r[b]).group,
            r[b].version,
            r[b].plural,
        ) by {
            assert(r[a] == ds[a] && r[b] == ds[b]);
        }
        lemma_put(r, i, d);
        assert(put_def(ds, d) =~= ds.update(i, d));
    }
}

/// Registering a definition keeps the definitions distinct, finds the new one,
/// and leaves every other as it was.
pub proof fn law_a_definition_is_found(
    ds: Seq<DefView>,
    d: DefView,
    g: Seq<char>,
    v: Seq<char>,
    p: Seq<char>,
)
    requires
        distinct(ds),
    ensures
        distinct(with_def(ds, d)),
        found(with_def(ds, d), g, v, p) == (if d.is_for(g, v, p) {
            Some(d)
        } else {
            found(ds, g, v, p)
        }),
{
    let e = with_def(ds, d);
    lemma_found(ds, d.group, d.version, d.plural);
    match found(ds, d.group, d.version, d.plural) {
        Some(old_d) => {
            let i = choose|i: int| 0 <= i < ds.len() && ds[i] == old_d;
            lemma_put(ds, i, d);
            assert forall|a: int, b: int| 0 <= a < b < e.len() implies !(#[trigger] e[a]).is_for(
                (#[trigger] e[b]).group,
                e[b].version,
                e[b].plural,
            ) by {
                assert(!ds[a].is_for(ds[b].group, ds[b].version, ds[b].plural));
            }
            if d.is_for(g, v, p) {
                lemma_found_at(e, i, g, v, p);
            } else {
                lemma_found(ds, g, v, p);
                lemma_found(e, g, v, p);
                match found(ds, g, v, p) {
                    Some(x) => {
                        let k = choose|k: int| 0 <= k < ds.len() && ds[k] == x;
                        assert(k != i);
                        lemma_found_at(e, k, g, v, p);
                    },
                    None => {
                        if found(e, g, v, p) is Some {
                            let x = found(e, g, v, p)->0;
                            let k = choose|k: int| 0 <= k < e.len() && e[k] == x;
                            assert(k != i);
                            assert(!ds[k].is_for(g, v, p));
                        }
                    },
                }
            }
        },
        None => {
            assert(e.drop_last() =~= ds);
            assert forall|a: int, b: int| 0 <= a < b < e.len() implies !(#[trigger] e[a]).is_for(
                (#[trigger] e[b]).group,
                e[b].version,
                e[b].plural,
            ) by {
                if b < ds.len() {
                    assert(!ds[a].is_for(ds[b].group, ds[b].version, ds[b].plural));
                }
            }
        },
    }
}

proof fn lemma_with_versions_distinct(
    ds: Seq<DefView>,
    crd: Tree,
    versions: Seq<(Seq<char>, Seq<Tree>)>,
)
    requires
        distinct(ds),
    ensures
        distinct(with_versions(ds, crd, versions)),
    decreases versions.len(),
{
    if versions.len() > 0 {
        lemma_with_versions_distinct(ds, crd, versions.drop_last());
        let d = definition_of(crd, versions.last().0, versions.last().1);
        law_a_definition_is_found(
            with_versions(ds, crd, versions.drop_last()),
            d,
            d.group,
            d.version,
            d.plural,
        );
    }
}

proof fn lemma_without_plural(ds: Seq<DefView>, group: Seq<char>, plural: Seq<char>)
    ensures
        forall|i: int|
            0 <= i < without_plural(ds, group, plural).len() ==> {
                let d = #[trigger] without_plural(ds, group, plural)[i];
                !(d.group == group && d.plural == plural) && exists|j: int|
                    0 <= j < ds.len() && ds[j] == d
            },
        distinct(ds) ==> distinct(without_plural(ds, group, plural)),
    decreases ds.len(),
{
    if ds.len() > 0 {
        let r = ds.drop_last();
        lemma_without_plural(r, group, plural);
        let w = without_plural(ds, group, plural);
        let wr = without_plural(r, group, plural);
        assert forall|i: int| 0 <= i < w.len() implies {
            let d = #[trigger] w[i];
            !(d.group == group && d.plural == plural) && exists|j: int|
                0 <= j < ds.len() && ds[j] == d
        } by {
            if i < wr.len() {
                let d = wr[i];
                assert(w[i] == d);
                let j = choose|j: int| 0 <= j < r.len() && r[j] == d;
                assert(ds[j] == d);
            } else {
                assert(w[i] == ds.last());
                assert(ds[ds.len() - 1] == ds.last());
            }
        }
        if distinct(ds) {
            assert forall|a: int, b: int| 0 <= a < b < r.len() implies !(#[trigger] r[a]).is_for(
                (#[trigger] r[b]).group,
                r[b].version,
                r[b].plural,
            ) by {
                assert(r[a] == ds[a] && r[b] == ds[b]);
            }
            assert forall|a: int, b: int| 0 <= a < b < w.len() implies !(#[trigger] w[a]).is_for(
                (#[trigger] w[b]).group,
                w[b].version,
                w[b].plural,
            ) by {
                assert(w[a] == wr[a]);
                if b < wr.len() {
                    assert(w[b] == wr[b]);
                } else {
                    let j = choose|j: int| 0 <= j < r.len() && r[j] == wr[a];
                    assert(ds[j] == w[a]);
                    assert(w[b] == ds[ds.len() - 1]);
                    assert(!ds[j].is_for(
                        ds[ds.len() - 1].group,
                        ds[ds.len() - 1].version,
                        ds[ds.len() - 1].plural,
                    ));
                }
            }
        }
    }
}

/// What is unregistered is gone in every version.
pub proof fn law_unregistered_is_gone(
    ds: Seq<DefView>,
    group: Seq<char>,
    plural: Seq<char>,
    version: Seq<char>,
)
    ensures
        found(without_plural(ds, group, plural), group, version, plural) is None,
{
    let w = without_plural(ds, group, plural);
    lemma_without_plural(ds, group, plural);
    lemma_found(w, group, version, plural);
    if found(w, group, version, plural) is Some {
        let d = found(w, group, version, plural)->0;
        let i = choose|i: int| 0 <= i < w.len() && w[i] == d;
        assert(!(w[i].group == group && w[i].plural == plural));
    }
}

proof fn lemma_with_versions_found(
    ds: Seq<DefView>,
    crd: Tree,
    versions: Seq<(Seq<char>, Seq<Tree>)>,
    i: int,
)
    requires
        distinct(ds),
        0 <= i < versions.len(),
    ensures
        ({
            let d = definition_of(crd, versions[i].0, versions[i].1);
            found(with_versions(ds, crd, versions), d.group, d.version, d.plural) is Some
        }),
    decreases versions.len(),
{
    let d = definition_of(crd, versions[i].0, versions[i].1);
    let rest = with_versions(ds, crd, versions.drop_last());
    let l = definition_of(crd, versions.last().0, versions.last().1);
    lemma_with_versions_distinct(ds, crd, versions.drop_last());
    law_a_definition_is_found(rest, l, d.group, d.version, d.plural);
    if i < versions.len() - 1 {
        lemma_with_versions_found(ds, crd, versions.drop_last(), i);
        assert(versions.drop_last()[i] == versions[i]);
    }
}

/// Every served version of a definition can be found once it is registered, and
/// not only the first.
pub proof fn law_every_served_version_is_registered(ds: Seq<DefView>, crd: Tree, i: int)
    requires
        distinct(ds),
        servable(crd),
        0 <= i < versions_to_serve(crd).len(),
    ensures
        ({
            let d = definition_of(crd, versions_to_serve(crd)[i].0, versions_to_serve(crd)[i].1);
            found(registered(ds, crd), d.group, d.version, d.plural) is Some
        }),
{
    lemma_still_served(ds, crd);
    lemma_with_versions_found(still_served(ds, crd), crd, versions_to_serve(crd), i);
}

proof fn lemma_still_served(ds: Seq<DefView>, crd: Tree)
    requires
        distinct(ds),
    ensures
        distinct(still_served(ds, crd)),
        forall|i: int|
            0 <= i < still_served(ds, crd).len() ==> exists|j: int|
                0 <= j < ds.len() && ds[j] == #[trigger] still_served(ds, crd)[i],
    decreases ds.len(),
{
    if ds.len() > 0 {
        let r = ds.drop_last();
        assert forall|a: int, b: int| 0 <= a < b < r.len() implies !(#[trigger] r[a]).is_for(
            (#[trigger] r[b]).group,
            r[b].version,
            r[b].plural,
        ) by {
            assert(r[a] == ds[a] && r[b] == ds[b]);
        }
        lemma_still_served(r, crd);
        let w = still_served(ds, crd);
        let wr = still_served(r, crd);
        assert forall|i: int| 0 <= i < w.len() implies exists|j: int|
            0 <= j < ds.len() && ds[j] == #[trigger] w[i] by {
            if i < wr.len() {
                assert(w[i] == wr[i]);
                let j = choose|j: int| 0 <= j < r.len() && r[j] == wr[i];
                assert(ds[j] == w[i]);
            } else {
                assert(ds[ds.len() - 1] == w[i]);
            }
        }
        assert forall|a: int, b: int| 0 <= a < b < w.len() implies !(#[trigger] w[a]).is_for(
            (#[trigger] w[b]).group,
            w[b].version,
            w[b].plural,
        ) by {
            assert(w[a] == wr[a]);
            if b < wr.len() {
                assert(w[b] == wr[b]);
            } else {
                let j = choose|j: int| 0 <= j < r.len() && r[j] == wr[a];
                assert(ds[j] == w[a]);
                assert(w[b] == ds[ds.len() - 1]);
                assert(!ds[j].is_for(
                    ds[ds.len() - 1].group,
                    ds[ds.len() - 1].version,
                    ds[ds.len() - 1].plural,
                ));
            }
        }
    }
}

proof fn lemma_found_still(
    ds: Seq<DefView>,
    crd: Tree,
    g: Seq<char>,
    v: Seq<char>,
    p: Seq<char>,
)
    ensures
        found(still_served(ds, crd), g, v, p) == (if is_own(crd, g, p) && unserved(
            crd.at("spec"@).at("versions"@).items_or_none(),
            v,
        ) {
            None
        } else {
            found(ds, g, v, p)
        }),
    decreases ds.len(),
{
    if ds.len() > 0 {
        lemma_found_still(ds.drop_last(), crd, g, v, p);
        let rest = still_served(ds.drop_last(), crd);
        assert(rest.push(ds.last()).drop_last() =~= rest);
    }
}

/// A group and a plural are those that a document defines.
pub open spec fn is_own(crd: Tree, g: Seq<char>, p: Seq<char>) -> bool {
    g == crd.at("spec"@).at("group"@).text_or_empty() && p == crd.at("spec"@).at("names"@).at(
        "plural"@,
    ).text_or_empty()
}

proof fn lemma_found_registered(
    ds: Seq<DefView>,
    crd: Tree,
    g: Seq<char>,
    v: Seq<char>,
    p: Seq<char>,
)
    requires
        distinct(ds),
        servable(crd),
    ensures
        distinct(registered(ds, crd)),
        found(registered(ds, crd), g, v, p) == match last_version(
            crd,
            versions_to_serve(crd),
            g,
            v,
            p,
        ) {
            Some(d) => Some(d),
            None => if is_own(crd, g, p) && unserved(
                crd.at("spec"@).at("versions"@).items_or_none(),
                v,
            ) {
                None
            } else {
                found(ds, g, v, p)
            },
        },
{
    let vs = versions_to_serve(crd);
    lemma_still_served(ds, crd);
    lemma_with_versions_distinct(still_served(ds, crd), crd, vs);
    lemma_found_among_versions(still_served(ds, crd), crd, vs, g, v, p);
    lemma_found_still(ds, crd, g, v, p);
}

proof fn lemma_withholds(versions: Seq<Tree>)
    requires
        versions.len() > 0,
    ensures
        withholds(versions) == (withholds(versions.drop_last()) || versions.last().at(
            "served"@,
        ).flag() == Some(false)),
{
    let n = versions.len() - 1;
    assert(versions.last() == versions[n]);
    if withholds(versions.drop_last()) {
        let i = choose|i: int|
            0 <= i < n && (#[trigger] versions.drop_last()[i]).at("served"@).flag() == Some(false);
        assert(versions[i].at("served"@).flag() == Some(false));
    }
    if withholds(versions) {
        let i = choose|i: int|
            0 <= i < versions.len() && (#[trigger] versions[i]).at("served"@).flag() == Some(false);
        if i < n {
            assert(versions.drop_last()[i] == versions[i]);
        }
    }
}

/// A version of a list is served under a name.
pub open spec fn offers(versions: Seq<Tree>, name: Seq<char>) -> bool {
    exists|i: int|
        0 <= i < versions.len() && (#[trigger] versions[i]).at("served"@).flag() != Some(false)
            && versions[i].at("name"@).text() == Some(name)
}

proof fn lemma_served_is_offered(versions: Seq<Tree>, k: int)
    requires
        0 <= k < served(versions).len(),
    ensures
        offers(versions, served(versions)[k].0),
    decreases versions.len(),
{
    let rest = versions.drop_last();
    let v = versions.last();
    assert(v == versions[versions.len() - 1]);
    if k < served(rest).len() {
        lemma_served_is_offered(rest, k);
        let name = served(rest)[k].0;
        let i = choose|i: int|
            0 <= i < rest.len() && (#[trigger] rest[i]).at("served"@).flag() != Some(false)
                && rest[i].at("name"@).text() == Some(name);
        assert(versions[i] == rest[i]);
    }
}

proof fn lemma_last_version(
    crd: Tree,
    versions: Seq<(Seq<char>, Seq<Tree>)>,
    g: Seq<char>,
    v: Seq<char>,
    p: Seq<char>,
)
    ensures
        last_version(crd, versions, g, v, p) is Some ==> exists|k: int|
            0 <= k < versions.len() && (#[trigger] versions[k]).0 == v,
    decreases versions.len(),
{
    if versions.len() > 0 {
        lemma_last_version(crd, versions.drop_last(), g, v, p);
        assert(versions.last() == versions[versions.len() - 1]);
        let rest = versions.drop_last();
        if exists|k: int| 0 <= k < rest.len() && (#[trigger] rest[k]).0 == v {
            let k = choose|k: int| 0 <= k < rest.len() && (#[trigger] rest[k]).0 == v;
            assert(versions[k] == rest[k]);
        }
    }
}

/// A version that is listed as not served is not found, whatever was registered
/// before.
pub proof fn law_an_unserved_version_is_not_found(ds: Seq<DefView>, crd: Tree, v: Seq<char>)
    requires
        distinct(ds),
        servable(crd),
        unserved(crd.at("spec"@).at("versions"@).items_or_none(), v),
        !offers(crd.at("spec"@).at("versions"@).items_or_none(), v),
    ensures
        found(
            registered(ds, crd),
            crd.at("spec"@).at("group"@).text_or_empty(),
            v,
            crd.at("spec"@).at("names"@).at("plural"@).text_or_empty(),
        ) is None,
{
    let g = crd.at("spec"@).at("group"@).text_or_empty();
    let p = crd.at("spec"@).at("names"@).at("plural"@).text_or_empty();
    let listed = crd.at("spec"@).at("versions"@).items_or_none();
    let vs = versions_to_serve(crd);
    assert(withholds(listed));
    assert(vs == served(listed));
    lemma_found_registered(ds, crd, g, v, p);
    lemma_last_version(crd, vs, g, v, p);
    if last_version(crd, vs, g, v, p) is Some {
        let k = choose|k: int| 0 <= k < vs.len() && (#[trigger] vs[k]).0 == v;
        lemma_served_is_offered(listed, k);
    }
}

proof fn lemma_offered_is_served(versions: Seq<Tree>, name: Seq<char>)
    requires
        offers(versions, name),
    ensures
        exists|k: int| 0 <= k < served(versions).len() && (#[trigger] served(versions)[k]).0 == name,
    decreases versions.len(),
{
    let i = choose|i: int|
        0 <= i < versions.len() && (#[trigger] versions[i]).at("served"@).flag() != Some(false)
            && versions[i].at("name"@).text() == Some(name);
    let rest = versions.drop_last();
    let all = served(versions);
    if i < rest.len() {
        assert(rest[i] == versions[i]);
        lemma_offered_is_served(rest, name);
        let k = choose|k: int| 0 <= k < served(rest).len() && (#[trigger] served(rest)[k]).0 == name;
        assert(all[k] == served(rest)[k]);
    } else {
        assert(versions.last() == versions[i]);
        assert(all[all.len() - 1].0 == name);
    }
}

proof fn lemma_version_is_there(
    crd: Tree,
    versions: Seq<(Seq<char>, Seq<Tree>)>,
    v: Seq<char>,
    k: int,
)
    requires
        0 <= k < versions.len(),
        versions[k].0 == v,
    ensures
        last_version(
            crd,
            versions,
            crd.at("spec"@).at("group"@).text_or_empty(),
            v,
            crd.at("spec"@).at("names"@).at("plural"@).text_or_empty(),
        ) is Some,
    decreases versions.len(),
{
    if k < versions.len() - 1 {
        assert(versions.drop_last()[k] == versions[k]);
        lemma_version_is_there(crd, versions.drop_last(), v, k);
    }
}

/// The registry is in step with what was written last: a version that a document
/// lists is found as the document says, or not at all where it says so, whatever was
/// registered before.
pub proof fn law_a_document_decides_what_it_lists(
    ds: Seq<DefView>,
    others: Seq<DefView>,
    crd: Tree,
    v: Seq<char>,
)
    requires
        distinct(ds),
        distinct(others),
        servable(crd),
        offers(crd.at("spec"@).at("versions"@).items_or_none(), v) || unserved(
            crd.at("spec"@).at("versions"@).items_or_none(),
            v,
        ),
    ensures
        ({
            let g = crd.at("spec"@).at("group"@).text_or_empty();
            let p = crd.at("spec"@).at("names"@).at("plural"@).text_or_empty();
            found(registered(ds, crd), g, v, p) == found(registered(others, crd), g, v, p)
        }),
{
    let g = crd.at("spec"@).at("group"@).text_or_empty();
    let p = crd.at("spec"@).at("names"@).at("plural"@).text_or_empty();
    let listed = crd.at("spec"@).at("versions"@).items_or_none();
    lemma_found_registered(ds, crd, g, v, p);
    lemma_found_registered(others, crd, g, v, p);
    if offers(listed, v) {
        lemma_offered_is_served(listed, v);
        let k = choose|k: int| 0 <= k < served(listed).len() && (#[trigger] served(listed)[k]).0 == v;
        assert(versions_to_serve(crd) == served(listed));
        lemma_version_is_there(crd, served(listed), v, k);
    }
}

/// A document says nothing of what it does not list: other versions, and other
/// resources, are found as they were.
pub proof fn law_what_is_not_listed_stays(
    ds: Seq<DefView>,
    crd: Tree,
    g: Seq<char>,
    v: Seq<char>,
    p: Seq<char>,
)
    requires
        distinct(ds),
        servable(crd),
        last_version(crd, versions_to_serve(crd), g, v, p) is None,
        !(is_own(crd, g, p) && unserved(crd.at("spec"@).at("versions"@).items_or_none(), v)),
    ensures
        found(registered(ds, crd), g, v, p) == found(ds, g, v, p),
{
    lemma_found_registered(ds, crd, g, v, p);
}

/// The last of some versions that is for a group, version and plural.
pub open spec fn last_version(
    crd: Tree,
    versions: Seq<(Seq<char>, Seq<Tree>)>,
    g: Seq<char>,
    v: Seq<char>,
    p: Seq<char>,
) -> Option<DefView>
    decreases versions.len(),
{
    if versions.len() == 0 {
        None
    } else {
        let d = definition_of(crd, versions.last().0, versions.last().1);
        if d.is_for(g, v, p) {
            Some(d)
        } else {
            last_version(crd, versions.drop_last(), g, v, p)
        }
    }
}

proof fn lemma_found_among_versions(
    ds: Seq<DefView>,
    crd: Tree,
    versions: Seq<(Seq<char>, Seq<Tree>)>,
    g: Seq<char>,
    v: Seq<char>,
    p: Seq<char>,
)
    requires
        distinct(ds),
    ensures
        found(with_versions(ds, crd, versions), g, v, p) == match last_version(
            crd,
            versions,
            g,
            v,
            p,
        ) {
            Some(d) => Some(d),
            None => found(ds, g, v, p),
        },
    decreases versions.len(),
{
    if versions.len() > 0 {
        lemma_found_among_versions(ds, crd, versions.drop_last(), g, v, p);
        lemma_with_versions_distinct(ds, crd, versions.drop_last());
        let d = definition_of(crd, versions.last().0, versions.last().1);
        law_a_definition_is_found(with_versions(ds, crd, versions.drop_last()), d, g, v, p);
    }
}

/// Registration is idempotent: a definition that is registered again is found as it
/// was, and so is every other.
pub proof fn law_registration_is_idempotent(
    ds: Seq<DefView>,
    crd: Tree,
    g: Seq<char>,
    v: Seq<char>,
    p: Seq<char>,
)
    requires
        distinct(ds),
    ensures
        distinct(registered(ds, crd)),
        found(registered(registered(ds, crd), crd), g, v, p) == found(
            registered(ds, crd),
            g,
            v,
            p,
        ),
{
    if servable(crd) {
        lemma_found_registered(ds, crd, g, v, p);
        lemma_found_registered(registered(ds, crd), crd, g, v, p);
    }
}

// ---------------------------------------------------------------------------
// The registry
// ---------------------------------------------------------------------------

/// The definitions that are served. No two are for the same group, version and
/// plural.
pub struct CrdRegistry {
    entries: Vec<CrdDefinition>,
}

/// Names with columns, as the model has them.
spec fn version_views(v: Seq<(String, Vec<Json>)>) -> Seq<(Seq<char>, Seq<Tree>)> {
    v.map_values(|p: (String, Vec<Json>)| (p.0@, trees(p.1@)))
}

fn columns_of(v: &Json) -> (r: Vec<Json>)
    ensures
        trees(r@) == v@.at("additionalPrinterColumns"@).items_or_none(),
{
    match v.at("additionalPrinterColumns") {
        Json::Array(a) => dup_all(a),
        _ => {
            let none: Vec<Json> = Vec::new();
            assert(trees(none@) =~= Seq::<Tree>::empty());
            none
        },
    }
}

fn lists_unserved(versions: &Json, name: &str) -> (r: bool)
    ensures
        r == unserved(versions@.items_or_none(), name@),
{
    match versions {
        Json::Array(a) => {
            let ghost ts = trees(a@);
            let mut i: usize = 0;
            while i < a.len()
                invariant
                    i <= a.len(),
                    ts == trees(a@),
                    ts == versions@.items_or_none(),
                    forall|j: int|
                        0 <= j < i ==> !((#[trigger] ts[j]).at("served"@).flag() == Some(false)
                            && ts[j].at("name"@).text() == Some(name@)),
                decreases a.len() - i,
            {
                let v = &a[i];
                assert(ts[i as int] == v@);
                let withheld = match v.at("served").as_bool() {
                    Some(b) => !b,
                    None => false,
                };
                if withheld && v.at("name").is_text(name) {
                    return true;
                }
                i = i + 1;
            }
            false
        },
        _ => false,
    }
}

fn served_versions(crd: &Json) -> (r: Vec<(String, Vec<Json>)>)
    ensures
        version_views(r@) == versions_to_serve(crd@),
{
    let mut out: Vec<(String, Vec<Json>)> = Vec::new();
    let mut withheld = false;
    assert(version_views(out@) =~= Seq::<(Seq<char>, Seq<Tree>)>::empty());
    match crd.at("spec").at("versions") {
        Json::Array(a) => {
            let ghost ts = trees(a@);
            let mut i: usize = 0;
            while i < a.len()
                invariant
                    i <= a.len(),
                    ts == trees(a@),
                    version_views(out@) == served(ts.take(i as int)),
                    withheld == withholds(ts.take(i as int)),
                decreases a.len() - i,
            {
                let v = &a[i];
                proof {
                    assert(ts.take(i + 1).drop_last() =~= ts.take(i as int));
                    assert(ts.take(i + 1).last() == v@);
                    lemma_withholds(ts.take(i + 1));
                }
                let offered = match v.at("served").as_bool() {
                    Some(b) => b,
                    None => true,
                };
                if offered {
                    match v.at("name").as_str() {
                        Some(name) => {
                            let cols = columns_of(v);
                            let ghost was = version_views(out@);
                            let ghost item = (name@, trees(cols@));
                            out.push((name.to_owned(), cols));
                            assert(version_views(out@) =~= was.push(item));
                        },
                        None => {},
                    }
                } else {
                    withheld = true;
                }
                i = i + 1;
            }
            assert(ts.take(i as int) =~= ts);
        },
        _ => {},
    }
    assert(version_views(out@).len() == out@.len());
    if out.len() == 0 && !withheld {
        let none: Vec<Json> = Vec::new();
        assert(trees(none@) =~= Seq::<Tree>::empty());
        out.push(("v1".to_owned(), none));
        assert(version_views(out@) =~= seq![("v1"@, Seq::<Tree>::empty())]);
    }
    out
}

impl CrdRegistry {
    /// The definitions, in the order of their registration.
    pub closed spec fn defs(self) -> Seq<DefView> {
        defs(self.entries@)
    }

    #[verifier::type_invariant]
    closed spec fn well_formed(self) -> bool {
        distinct(defs(self.entries@))
    }

    pub fn new() -> (r: CrdRegistry)
        ensures
            r.defs() == Seq::<DefView>::empty(),
    {
        let r = CrdRegistry { entries: Vec::new() };
        assert(r.defs() =~= Seq::<DefView>::empty());
        r
    }

    fn put(self, d: CrdDefinition) -> (r: CrdRegistry)
        ensures
            r.defs() == with_def(self.defs(), d@),
    {
        proof {
            use_type_invariant(&self);
            law_a_definition_is_found(
                self.defs(),
                d@,
                d@.group,
                d@.version,
                d@.plural,
            );
            lemma_found(self.defs(), d@.group, d@.version, d@.plural);
        }
        let ghost ds = self.defs();
        let ghost dv = d@;
        let mut entries = self.entries;
        let mut i: usize = 0;
        while i < entries.len()
            invariant
                i <= entries@.len(),
                ds == defs(entries@),
                ds == self.defs(),
                dv == d@,
                distinct(ds),
                forall|j: int|
                    0 <= j < i ==> !(#[trigger] ds[j]).is_for(dv.group, dv.version, dv.plural),
                distinct(with_def(ds, dv)),
            decreases entries@.len() - i,
        {
            let e = &entries[i];
            if same(e.group.as_str(), d.group.as_str()) && same(
                e.version.as_str(),
                d.version.as_str(),
            ) && same(e.plural.as_str(), d.plural.as_str()) {
                proof {
                    assert(ds[i as int] == e@);
                    lemma_put(ds, i as int, dv);
                    lemma_found_at(ds, i as int, dv.group, dv.version, dv.plural);
                }
                entries.set(i, d);
                assert(defs(entries@) =~= ds.update(i as int, dv));
                return CrdRegistry { entries };
            }
            assert(ds[i as int] == e@);
            i = i + 1;
        }
        proof {
            lemma_found(ds, dv.group, dv.version, dv.plural);
        }
        entries.push(d);
        assert(defs(entries@) =~= ds.push(dv));
        CrdRegistry { entries }
    }

    /// Registers every served version of a definition document, and removes those
    /// that it lists as not served.
    pub fn register(&mut self, crd: &Json)
        ensures
            final(self).defs() == registered(old(self).defs(), crd@),
    {
        let spec = crd.at("spec");
        let names = spec.at("names");
        let group = spec.at("group").str_or_empty();
        let plural = names.at("plural").str_or_empty();
        proof {
            reveal_strlit(".");
            assert("."@ =~= seq!['.']);
            lemma_holds_char(group@, '.');
        }
        if plural.unicode_len() == 0 || !contains(group, ".") {
            return;
        }
        let scope = if same(spec.at("scope").str_or("Namespaced"), "Cluster") {
            CrdScope::Cluster
        } else {
            CrdScope::Namespaced
        };
        let short_names = collect_strings(names.at("shortNames"));
        let versions = served_versions(crd);
        let ghost vs = version_views(versions@);
        let mut reg = CrdRegistry::new();
        core::mem::swap(self, &mut reg);
        reg = reg.without_unserved(crd);
        let ghost ds = reg.defs();
        let mut i: usize = 0;
        assert(vs.take(0) =~= Seq::<(Seq<char>, Seq<Tree>)>::empty());
        while i < versions.len()
            invariant
                i <= versions.len(),
                vs == version_views(versions@),
                group@ == crd@.at("spec"@).at("group"@).text_or_empty(),
                plural@ == names@.at("plural"@).text_or_empty(),
                names@ == crd@.at("spec"@).at("names"@),
                texts(short_names@) == strings_in(names@.at("shortNames"@).items_or_none()),
                scope == scope_of(crd@),
                reg.defs() == with_versions(ds, crd@, vs.take(i as int)),
            decreases versions.len() - i,
        {
            proof {
                assert(vs.take(i + 1).drop_last() =~= vs.take(i as int));
                assert(vs.take(i + 1).last() == vs[i as int]);
            }
            let d = CrdDefinition {
                group: group.to_owned(),
                version: versions[i].0.clone(),
                kind: names.at("kind").str_or_empty().to_owned(),
                plural: plural.to_owned(),
                singular: names.at("singular").str_or_empty().to_owned(),
                short_names: dup_texts(&short_names),
                scope,
                printer_columns: dup_all(&versions[i].1),
            };
            assert(d@ == definition_of(crd@, vs[i as int].0, vs[i as int].1));
            reg = reg.put(d);
            i = i + 1;
        }
        assert(vs.take(i as int) =~= vs);
        *self = reg;
    }

    /// Removes every version of the definition named `plural.group`.
    pub fn unregister(&mut self, crd_name: &str)
        ensures
            final(self).defs() == unregistered(old(self).defs(), crd_name@),
    {
        let (plural, group) = match split_at_first(crd_name, '.') {
            Some(p) => p,
            None => {
                return;
            },
        };
        let mut reg = CrdRegistry::new();
        core::mem::swap(self, &mut reg);
        *self = reg.without(group, plural);
    }

    /// The registry without one custom resource.
    fn without(self, group: &str, plural: &str) -> (r: CrdRegistry)
        ensures
            r.defs() == without_plural(self.defs(), group@, plural@),
    {
        let ghost ds = self.defs();
        proof {
            use_type_invariant(&self);
            lemma_without_plural(ds, group@, plural@);
        }
        let old_entries = self.entries;
        let mut entries: Vec<CrdDefinition> = Vec::new();
        let mut i: usize = 0;
        assert(defs(entries@) =~= without_plural(ds.take(0), group@, plural@));
        while i < old_entries.len()
            invariant
                i <= old_entries.len(),
                ds == defs(old_entries@),
                defs(entries@) == without_plural(ds.take(i as int), group@, plural@),
            decreases old_entries.len() - i,
        {
            let e = &old_entries[i];
            proof {
                assert(ds.take(i + 1).drop_last() =~= ds.take(i as int));
                assert(ds.take(i + 1).last() == e@);
            }
            if !(same(e.group.as_str(), group) && same(e.plural.as_str(), plural)) {
                let c = e.clone();
                let ghost was = defs(entries@);
                let ghost cv = c@;
                entries.push(c);
                assert(defs(entries@) =~= was.push(cv));
            }
            i = i + 1;
        }
        assert(ds.take(i as int) =~= ds);
        CrdRegistry { entries }
    }

    /// The registry without the versions that a document lists as not served.
    fn without_unserved(self, crd: &Json) -> (r: CrdRegistry)
        ensures
            r.defs() == still_served(self.defs(), crd@),
    {
        let ghost ds = self.defs();
        proof {
            use_type_invariant(&self);
            lemma_still_served(ds, crd@);
        }
        let group = crd.at("spec").at("group").str_or_empty();
        let plural = crd.at("spec").at("names").at("plural").str_or_empty();
        let versions = crd.at("spec").at("versions");
        let old_entries = self.entries;
        let mut entries: Vec<CrdDefinition> = Vec::new();
        let mut i: usize = 0;
        assert(defs(entries@) =~= still_served(ds.take(0), crd@));
        while i < old_entries.len()
            invariant
                i <= old_entries.len(),
                ds == defs(old_entries@),
                group@ == crd@.at("spec"@).at("group"@).text_or_empty(),
                plural@ == crd@.at("spec"@).at("names"@).at("plural"@).text_or_empty(),
                versions@ == crd@.at("spec"@).at("versions"@),
                defs(entries@) == still_served(ds.take(i as int), crd@),
            decreases old_entries.len() - i,
        {
            let e = &old_entries[i];
            proof {
                assert(ds.take(i + 1).drop_last() =~= ds.take(i as int));
                assert(ds.take(i + 1).last() == e@);
            }
            let withdrawn = same(e.group.as_str(), group) && same(e.plural.as_str(), plural)
                && lists_unserved(versions, e.version.as_str());
            if !withdrawn {
                let c = e.clone();
                let ghost was = defs(entries@);
                let ghost cv = c@;
                entries.push(c);
                assert(defs(entries@) =~= was.push(cv));
            }
            i = i + 1;
        }
        assert(ds.take(i as int) =~= ds);
        CrdRegistry { entries }
    }

    /// The definition for a group, version and plural.
    pub fn lookup(&self, group: &str, version: &str, resource: &str) -> (r: Option<CrdDefinition>)
        ensures
            match r {
                Some(d) => found(self.defs(), group@, version@, resource@) == Some(d@),
                None => found(self.defs(), group@, version@, resource@) is None,
            },
    {
        proof {
            use_type_invariant(self);
            lemma_found(self.defs(), group@, version@, resource@);
        }
        let mut i: usize = 0;
        while i < self.entries.len()
            invariant
                i <= self.entries@.len(),
                distinct(self.defs()),
                forall|j: int|
                    0 <= j < i ==> !(#[trigger] self.defs()[j]).is_for(
                        group@,
                        version@,
                        resource@,
                    ),
            decreases self.entries@.len() - i,
        {
            let e = &self.entries[i];
            if same(e.group.as_str(), group) && same(e.version.as_str(), version) && same(
                e.plural.as_str(),
                resource,
            ) {
                proof {
                    assert(self.defs()[i as int] == e@);
                    lemma_found_at(self.defs(), i as int, group@, version@, resource@);
                }
                return Some(e.clone());
            }
            assert(self.defs()[i as int] == e@);
            i = i + 1;
        }
        proof {
            lemma_found(self.defs(), group@, version@, resource@);
        }
        None
    }

    /// The plural of a custom kind and whether it is namespaced: those of some
    /// definition of the kind, where there is one.
    pub fn resource_for_kind(&self, group: &str, version: &str, kind: &str) -> (r: Option<
        (String, bool),
    >)
        ensures
            match r {
                Some((plural, namespaced)) => exists|i: int|
                    0 <= i < self.defs().len() && {
                        let d = #[trigger] self.defs()[i];
                        d.is_for(group@, version@, plural@) && d.kind == kind@ && namespaced == (
                        d.scope == CrdScope::Namespaced)
                    },
                None => forall|i: int|
                    0 <= i < self.defs().len() ==> {
                        let d = #[trigger] self.defs()[i];
                        !(d.group == group@ && d.version == version@ && d.kind == kind@)
                    },
            },
    {
        let mut i: usize = 0;
        while i < self.entries.len()
            invariant
                i <= self.entries@.len(),
                forall|j: int|
                    0 <= j < i ==> {
                        let d = #[trigger] self.defs()[j];
                        !(d.group == group@ && d.version == version@ && d.kind == kind@)
                    },
            decreases self.entries@.len() - i,
        {
            let e = &self.entries[i];
            assert(self.defs()[i as int] == e@);
            if same(e.group.as_str(), group) && same(e.version.as_str(), version) && same(
                e.kind.as_str(),
                kind,
            ) {
                let namespaced = e.scope == CrdScope::Namespaced;
                return Some((e.plural.clone(), namespaced));
            }
            i = i + 1;
        }
        None
    }

    /// The printer columns that a version declares.
    pub fn printer_columns(&self, group: &str, version: &str, plural: &str) -> (r: Vec<Json>)
        ensures
            trees(r@) == match found(self.defs(), group@, version@, plural@) {
                Some(d) => d.printer_columns,
                None => Seq::empty(),
            },
    {
        match self.lookup(group, version, plural) {
            Some(d) => d.printer_columns,
            None => {
                let none: Vec<Json> = Vec::new();
                assert(trees(none@) =~= Seq::<Tree>::empty());
                none
            },
        }
    }

    /// One definition for each group and plural, whichever version it came
    /// from.
    pub fn definitions(&self) -> (r: Vec<CrdDefinition>)
        ensures
            defs(r@) == one_per_resource(self.defs()),
    {
        let ghost ds = self.defs();
        let mut out: Vec<CrdDefinition> = Vec::new();
        let mut i: usize = 0;
        assert(defs(out@) =~= one_per_resource(ds.take(0)));
        while i < self.entries.len()
            invariant
                i <= self.entries@.len(),
                ds == self.defs(),
                defs(out@) == one_per_resource(ds.take(i as int)),
            decreases self.entries@.len() - i,
        {
            let e = &self.entries[i];
            proof {
                assert(ds[i as int] == e@);
                assert(ds.take(i + 1).drop_last() =~= ds.take(i as int));
                assert(ds.take(i + 1).last() == e@);
            }
            let mut seen = false;
            let mut j: usize = 0;
            while j < out.len()
                invariant
                    j <= out.len(),
                    seen == (exists|k: int|
                        0 <= k < j && (#[trigger] defs(out@)[k]).group == e@.group
                            && defs(out@)[k].plural == e@.plural),
                decreases out.len() - j,
            {
                let o = &out[j];
                assert(defs(out@)[j as int] == o@);
                if same(o.group.as_str(), e.group.as_str()) && same(
                    o.plural.as_str(),
                    e.plural.as_str(),
                ) {
                    seen = true;
                }
                j = j + 1;
            }
            if !seen {
                let c = e.clone();
                let ghost was = defs(out@);
                let ghost cv = c@;
                out.push(c);
                assert(defs(out@) =~= was.push(cv));
            }
            i = i + 1;
        }
        assert(ds.take(i as int) =~= ds);
        out
    }

    /// The groups that are served, for discovery: each with its versions in
    /// the order of their registration, the first of them preferred.
    pub fn api_groups(&self) -> (r: Vec<Json>)
        ensures
            trees(r@) == group_docs(self.defs(), groups_of(self.defs())),
    {
        let groups = self.group_names();
        let ghost gs = texts(groups@);
        let mut out: Vec<Json> = Vec::new();
        let mut i: usize = 0;
        assert(trees(out@) =~= group_docs(self.defs(), gs.take(0)));
        while i < groups.len()
            invariant
                i <= groups.len(),
                gs == texts(groups@),
                trees(out@) == group_docs(self.defs(), gs.take(i as int)),
            decreases groups.len() - i,
        {
            proof {
                assert(gs.take(i + 1).drop_last() =~= gs.take(i as int));
                assert(gs.take(i + 1).last() == groups@[i as int]@);
            }
            let g = groups[i].as_str();
            let versions = self.version_names(g);
            let doc = group_document(g, &versions);
            proof {
                lemma_trees_push(out@, doc);
            }
            out.push(doc);
            i = i + 1;
        }
        assert(gs.take(i as int) =~= gs);
        out
    }

    fn group_names(&self) -> (r: Vec<String>)
        ensures
            texts(r@) == groups_of(self.defs()),
    {
        let ghost ds = self.defs();
        let mut out: Vec<String> = Vec::new();
        let mut i: usize = 0;
        assert(texts(out@) =~= groups_of(ds.take(0)));
        while i < self.entries.len()
            invariant
                i <= self.entries@.len(),
                ds == self.defs(),
                texts(out@) == groups_of(ds.take(i as int)),
            decreases self.entries@.len() - i,
        {
            let e = &self.entries[i];
            proof {
                assert(ds[i as int] == e@);
                assert(ds.take(i + 1).drop_last() =~= ds.take(i as int));
                assert(ds.take(i + 1).last() == e@);
            }
            if !crate::text::has_text(&out, e.group.as_str()) {
                let ghost was = texts(out@);
                out.push(e.group.clone());
                assert(texts(out@) =~= was.push(e@.group));
            }
            i = i + 1;
        }
        assert(ds.take(i as int) =~= ds);
        out
    }

    fn version_names(&self, group: &str) -> (r: Vec<String>)
        ensures
            texts(r@) == versions_in(self.defs(), group@),
    {
        let ghost ds = self.defs();
        let mut out: Vec<String> = Vec::new();
        let mut i: usize = 0;
        assert(texts(out@) =~= versions_in(ds.take(0), group@));
        while i < self.entries.len()
            invariant
                i <= self.entries@.len(),
                ds == self.defs(),
                texts(out@) == versions_in(ds.take(i as int), group@),
            decreases self.entries@.len() - i,
        {
            let e = &self.entries[i];
            proof {
                assert(ds[i as int] == e@);
                assert(ds.take(i + 1).drop_last() =~= ds.take(i as int));
                assert(ds.take(i + 1).last() == e@);
            }
            if same(e.group.as_str(), group) && !crate::text::has_text(
                &out,
                e.version.as_str(),
            ) {
                let ghost was = texts(out@);
                out.push(e.version.clone());
                assert(texts(out@) =~= was.push(e@.version));
            }
            i = i + 1;
        }
        assert(ds.take(i as int) =~= ds);
        out
    }

    /// The resources of a group and version, for discovery.
    pub fn api_resources(&self, group: &str, version: &str) -> (r: Vec<Json>)
        ensures
            trees(r@) == resource_docs(self.defs(), group@, version@),
    {
        let ghost ds = self.defs();
        let mut out: Vec<Json> = Vec::new();
        let mut i: usize = 0;
        assert(trees(out@) =~= resource_docs(ds.take(0), group@, version@));
        while i < self.entries.len()
            invariant
                i <= self.entries@.len(),
                ds == self.defs(),
                trees(out@) == resource_docs(ds.take(i as int), group@, version@),
            decreases self.entries@.len() - i,
        {
            let e = &self.entries[i];
            proof {
                assert(ds[i as int] == e@);
                assert(ds.take(i + 1).drop_last() =~= ds.take(i as int));
                assert(ds.take(i + 1).last() == e@);
            }
            if same(e.group.as_str(), group) && same(e.version.as_str(), version) {
                let doc = e.resource_document();
                proof {
                    lemma_trees_push(out@, doc);
                }
                out.push(doc);
            }
            i = i + 1;
        }
        assert(ds.take(i as int) =~= ds);
        out
    }
}

/// The groups of the definitions, each once.
pub open spec fn groups_of(ds: Seq<DefView>) -> Seq<Seq<char>>
    decreases ds.len(),
{
    if ds.len() == 0 {
        Seq::empty()
    } else {
        let rest = groups_of(ds.drop_last());
        if rest.contains(ds.last().group) {
            rest
        } else {
            rest.push(ds.last().group)
        }
    }
}

/// The versions of the definitions of a group, each once.
pub open spec fn versions_in(ds: Seq<DefView>, group: Seq<char>) -> Seq<Seq<char>>
    decreases ds.len(),
{
    if ds.len() == 0 {
        Seq::empty()
    } else {
        let rest = versions_in(ds.drop_last(), group);
        if ds.last().group != group || rest.contains(ds.last().version) {
            rest
        } else {
            rest.push(ds.last().version)
        }
    }
}

/// A version of a group, for discovery.
pub open spec fn version_doc(group: Seq<char>, version: Seq<char>) -> Tree {
    Tree::Object(
        map![
            "groupVersion"@ => Tree::String(group + "/"@ + version),
            "version"@ => Tree::String(version),
        ],
    )
}

/// The versions of a group, for discovery.
pub open spec fn version_docs(group: Seq<char>, versions: Seq<Seq<char>>) -> Seq<Tree> {
    versions.map_values(|v: Seq<char>| version_doc(group, v))
}

/// A group, for discovery.
pub open spec fn group_doc(group: Seq<char>, versions: Seq<Seq<char>>) -> Tree {
    Tree::Object(
        map![
            "name"@ => Tree::String(group),
            "versions"@ => Tree::Array(version_docs(group, versions)),
            "preferredVersion"@ => if versions.len() > 0 {
                version_doc(group, versions[0])
            } else {
                Tree::Null
            },
        ],
    )
}

/// Groups, for discovery.
pub open spec fn group_docs(ds: Seq<DefView>, groups: Seq<Seq<char>>) -> Seq<Tree>
    decreases groups.len(),
{
    if groups.len() == 0 {
        Seq::empty()
    } else {
        group_docs(ds, groups.drop_last()).push(
            group_doc(groups.last(), versions_in(ds, groups.last())),
        )
    }
}

fn version_document(group: &str, version: &str) -> (r: Json)
    ensures
        r@ == version_doc(group@, version@),
{
    let gv = group.to_owned().concat("/").concat(version);
    Json::object().with("groupVersion", Json::String(gv)).with("version", Json::text(version))
}

fn group_document(group: &str, versions: &Vec<String>) -> (r: Json)
    ensures
        r@ == group_doc(group@, texts(versions@)),
{
    let mut list: Vec<Json> = Vec::new();
    let mut i: usize = 0;
    while i < versions.len()
        invariant
            i <= versions.len(),
            list@.len() == i,
            forall|j: int|
                0 <= j < i ==> (#[trigger] list@[j])@ == version_doc(group@, versions@[j]@),
        decreases versions.len() - i,
    {
        list.push(version_document(group, versions[i].as_str()));
        i = i + 1;
    }
    assert(trees(list@) =~= version_docs(group@, texts(versions@)));
    let preferred = if versions.len() > 0 {
        version_document(group, versions[0].as_str())
    } else {
        Json::Null
    };
    Json::object().with("name", Json::text(group)).with("versions", Json::Array(list)).with(
        "preferredVersion",
        preferred,
    )
}

/// The verbs of a custom resource.
pub open spec fn crd_verbs() -> Tree {
    no_items().plus(str_tree("create")).plus(str_tree("delete")).plus(str_tree("get")).plus(
        str_tree("list"),
    ).plus(str_tree("patch")).plus(str_tree("update")).plus(str_tree("watch"))
}

/// A custom resource, for discovery.
pub open spec fn resource_doc(d: DefView) -> Tree {
    let doc = Tree::Object(
        map![
            "name"@ => Tree::String(d.plural),
            "singularName"@ => Tree::String(d.singular),
            "namespaced"@ => Tree::Bool(d.scope == CrdScope::Namespaced),
            "kind"@ => Tree::String(d.kind),
            "verbs"@ => crd_verbs(),
        ],
    );
    if d.short_names.len() > 0 {
        doc.set("shortNames"@, Tree::Array(string_trees(d.short_names)))
    } else {
        doc
    }
}

/// The custom resources of a group and version, for discovery.
pub open spec fn resource_docs(ds: Seq<DefView>, group: Seq<char>, version: Seq<char>) -> Seq<Tree>
    decreases ds.len(),
{
    if ds.len() == 0 {
        Seq::empty()
    } else {
        let rest = resource_docs(ds.drop_last(), group, version);
        if ds.last().group == group && ds.last().version == version {
            rest.push(resource_doc(ds.last()))
        } else {
            rest
        }
    }
}

impl CrdDefinition {
    /// The custom resource, for discovery.
    pub fn resource_document(&self) -> (r: Json)
        ensures
            r@ == resource_doc(self@),
    {
        let verbs = Json::list().and(Json::text("create")).and(Json::text("delete")).and(
            Json::text("get"),
        ).and(Json::text("list")).and(Json::text("patch")).and(Json::text("update")).and(
            Json::text("watch"),
        );
        let namespaced = self.scope == CrdScope::Namespaced;
        let mut doc = Json::object().with("name", Json::text(self.plural.as_str())).with(
            "singularName",
            Json::text(self.singular.as_str()),
        ).with("namespaced", Json::flag(namespaced)).with(
            "kind",
            Json::text(self.kind.as_str()),
        ).with("verbs", verbs);
        assert(texts(self.short_names@).len() == self.short_names@.len());
        if self.short_names.len() > 0 {
            doc.set("shortNames", Json::text_list(&self.short_names));
        }
        doc
    }
}

/// The resources of a group and version as a discovery document.
pub fn crd_api_resources(registry: &CrdRegistry, group: &str, version: &str) -> (r: Json)
    ensures
        r@ == Tree::Object(
            map![
                "kind"@ => str_tree("APIResourceList"),
                "groupVersion"@ => Tree::String(group@ + "/"@ + version@),
                "resources"@ => Tree::Array(resource_docs(registry.defs(), group@, version@)),
            ],
        ),
{
    let gv = group.to_owned().concat("/").concat(version);
    Json::object().with("kind", Json::text("APIResourceList")).with(
        "groupVersion",
        Json::String(gv),
    ).with("resources", Json::Array(registry.api_resources(group, version)))
}

// ---------------------------------------------------------------------------
// Writing definitions and custom resources
// ---------------------------------------------------------------------------

/// The kind of a custom resource and of its list: those that its definition
/// declares, else those of a built-in resource of the name.
pub fn crd_kinds(registry: &CrdRegistry, group: &str, version: &str, resource: &str) -> (r: (
    String,
    String,
))
    ensures
        r.0@ == match found(registry.defs(), group@, version@, resource@) {
            Some(d) => d.kind,
            None => kind_of(resource@),
        },
        r.1@ == r.0@ + "List"@,
{
    let kind = match registry.lookup(group, version, resource) {
        Some(d) => d.kind,
        None => resource_to_kind(resource),
    };
    let list = kind.clone().concat("List");
    (kind, list)
}

/// Where the objects of a resource are stored: custom resources under their
/// group, definitions themselves like any built-in resource.
pub open spec fn stored_under(group: Seq<char>, resource: Seq<char>) -> Seq<char> {
    if group == "apiextensions.k8s.io"@ && resource == "customresourcedefinitions"@ {
        resource
    } else {
        group + "/"@ + resource
    }
}

/// Where the objects of a resource are stored.
pub fn storage_resource(group: &str, resource: &str) -> (r: String)
    ensures
        r@ == stored_under(group@, resource@),
{
    if same(group, "apiextensions.k8s.io") && same(resource, "customresourcedefinitions") {
        resource.to_owned()
    } else {
        custom_resource(group, resource)
    }
}

/// Where the objects of a custom resource are stored: under its group.
pub fn custom_resource(group: &str, plural: &str) -> (r: String)
    ensures
        r@ == group@ + "/"@ + plural@,
{
    group.to_owned().concat("/").concat(plural)
}

/// The dot of a group keeps the keys of custom resources from those of built-in
/// ones, whose names have none: no key under a group is under a built-in resource.
pub proof fn law_custom_keys_are_apart(
    group: Seq<char>,
    plural: Seq<char>,
    rest: Seq<char>,
    resource: Seq<char>,
)
    requires
        group.contains('.'),
        !group.contains('/'),
        !resource.contains('.'),
        !resource.contains('/'),
    ensures
        !has_prefix(prefix_of(group + "/"@ + plural) + rest, prefix_of(resource)),
{
    let key = prefix_of(group + "/"@ + plural) + rest;
    let other = prefix_of(resource);
    if has_prefix(key, other) {
        reveal_strlit("/");
        let front = ("/registry"@ + "/"@).len() as int;
        let (g, n) = (group.len() as int, resource.len() as int);
        assert forall|i: int| 0 <= i < other.len() implies key[i] == other[i] by {
            assert(key.subrange(0, other.len() as int)[i] == other[i]);
        }
        assert(other[front + n] == '/');
        assert(key[front + g] == '/');
        if n < g {
            assert(key[front + n] == group[n]);
        } else if g < n {
            assert(other[front + g] == resource[g]);
        } else {
            let i = choose|i: int| 0 <= i < group.len() && group[i] == '.';
            assert(key[front + i] == group[i]);
            assert(other[front + i] == resource[i]);
        }
    }
}

/// The refusal of a group without a dot.
pub open spec fn bad_group(group: Seq<char>) -> ErrorView {
    err_invalid(
        "spec.group: Invalid value: \""@ + group
            + "\": should be a domain with at least one dot"@,
    )
}

/// Checks that a group has a dot, which keeps the keys of custom resources and
/// those of built-in resources apart.
pub fn validate_crd_group(group: &str) -> (r: Result<(), ApiError>)
    ensures
        match r {
            Ok(_) => group@.contains('.'),
            Err(e) => !group@.contains('.') && e@ == bad_group(group@),
        },
{
    proof {
        reveal_strlit(".");
        assert("."@ =~= seq!['.']);
        lemma_holds_char(group@, '.');
    }
    if contains(group, ".") {
        return Ok(());
    }
    let m = "spec.group: Invalid value: \"".to_owned().concat(group).concat(
        "\": should be a domain with at least one dot",
    );
    Err(ApiError::invalid(m.as_str()))
}

/// The group that a write of a definition is judged by: that of the body, else
/// that of the name `plural.group`.
pub open spec fn judged_group(name: Option<Seq<char>>, body: Option<Tree>) -> Seq<char> {
    let in_body = match body {
        Some(b) => b.at("spec"@).at("group"@).text(),
        None => None,
    };
    match in_body {
        Some(g) => g,
        None => match name {
            Some(n) => match split_once(n, '.') {
                Some((_, g)) => g,
                None => n,
            },
            None => Seq::empty(),
        },
    }
}

/// Refuses the write of a definition whose group has no dot.
pub fn check_crd_write(resource: &str, name: Option<&str>, body: Option<&Json>) -> (r: Result<
    (),
    ApiError,
>)
    ensures
        ({
            let group = judged_group(opt_str(name), crate::json::opt_tree(body));
            match r {
                Ok(_) => resource@ != "customresourcedefinitions"@ || group.contains('.'),
                Err(e) => resource@ == "customresourcedefinitions"@ && !group.contains('.') && e@
                    == bad_group(group),
            }
        }),
{
    if !same(resource, "customresourcedefinitions") {
        return Ok(());
    }
    match body {
        Some(b) => match b.at("spec").at("group").as_str() {
            Some(g) => {
                return validate_crd_group(g);
            },
            None => {},
        },
        None => {},
    }
    match name {
        Some(n) => match split_at_first(n, '.') {
            Some((_, g)) => validate_crd_group(g),
            None => validate_crd_group(n),
        },
        None => {
            proof {
                reveal_strlit("");
                assert(""@ =~= Seq::<char>::empty());
            }
            validate_crd_group("")
        },
    }
}

/// Checks that a resource is served: it is the definitions themselves, or it is
/// registered.
pub fn validate_crd(registry: &CrdRegistry, group: &str, version: &str, resource: &str) -> (r:
    Result<(), ApiError>)
    ensures
        ({
            let known = (group@ == "apiextensions.k8s.io"@ && resource@
                == "customresourcedefinitions"@) || found(
                registry.defs(),
                group@,
                version@,
                resource@,
            ) is Some;
            match r {
                Ok(_) => known,
                Err(e) => !known && e@ == err_not_found("resource"@, resource@),
            }
        }),
{
    if same(group, "apiextensions.k8s.io") && same(resource, "customresourcedefinitions") {
        return Ok(());
    }
    if registry.lookup(group, version, resource).is_some() {
        return Ok(());
    }
    Err(ApiError::not_found("resource", resource))
}

// ---------------------------------------------------------------------------
// The status of a definition
// ---------------------------------------------------------------------------

/// The names that are accepted: those that are asked for, with the list kind
/// and the singular filled in.
pub open spec fn accepted_names(names: Tree) -> Tree {
    let kind = names.at("kind"@).text_or_empty();
    let listed = if names.at("listKind"@).text_or_empty().len() == 0 && kind.len() > 0 {
        names.set("listKind"@, Tree::String(kind + "List"@))
    } else {
        names
    };
    if listed.at("singular"@).text_or_empty().len() == 0 && kind.len() > 0 {
        listed.set("singular"@, Tree::String(lower_case(kind)))
    } else {
        listed
    }
}

/// The names of the versions that are stored.
pub open spec fn storage_names(versions: Seq<Tree>) -> Seq<Seq<char>>
    decreases versions.len(),
{
    if versions.len() == 0 {
        Seq::empty()
    } else {
        let rest = storage_names(versions.drop_last());
        let v = versions.last();
        match v.at("name"@).text() {
            Some(n) => if v.at("storage"@).flag() == Some(true) {
                rest.push(n)
            } else {
                rest
            },
            None => rest,
        }
    }
}

/// The names of the versions that are served.
pub open spec fn served_names(versions: Seq<Tree>) -> Seq<Seq<char>>
    decreases versions.len(),
{
    if versions.len() == 0 {
        Seq::empty()
    } else {
        let rest = served_names(versions.drop_last());
        let v = versions.last();
        match v.at("name"@).text() {
            Some(n) => if v.at("served"@).flag() == Some(false) {
                rest
            } else {
                rest.push(n)
            },
            None => rest,
        }
    }
}

/// The stored versions of a definition: those marked for storage, else all that
/// are served.
pub open spec fn stored_versions(versions: Seq<Tree>) -> Seq<Seq<char>> {
    if storage_names(versions).len() > 0 {
        storage_names(versions)
    } else {
        served_names(versions)
    }
}

/// A condition that is true.
pub open spec fn true_condition(
    kind: Seq<char>,
    reason: Seq<char>,
    message: Seq<char>,
    now: Seq<char>,
) -> Tree {
    Tree::Object(
        map![
            "type"@ => Tree::String(kind),
            "status"@ => str_tree("True"),
            "reason"@ => Tree::String(reason),
            "message"@ => Tree::String(message),
            "lastTransitionTime"@ => Tree::String(now),
        ],
    )
}

/// The status of a definition that is served.
pub open spec fn established_status(crd: Tree, now: Seq<char>) -> Tree {
    Tree::Object(
        map![
            "acceptedNames"@ => accepted_names(crd.at("spec"@).at("names"@)),
            "storedVersions"@ => Tree::Array(string_trees(
                stored_versions(crd.at("spec"@).at("versions"@).items_or_none()),
            )),
            "conditions"@ => no_items().plus(
                true_condition("NamesAccepted"@, "NoConflicts"@, "no conflicts found"@, now),
            ).plus(
                true_condition(
                    "Established"@,
                    "InitialNamesAccepted"@,
                    "the initial names have been accepted"@,
                    now,
                ),
            ),
        ],
    )
}

fn condition(kind: &str, reason: &str, message: &str, now: &str) -> (r: Json)
    ensures
        r@ == true_condition(kind@, reason@, message@, now@),
{
    Json::object().with("type", Json::text(kind)).with("status", Json::text("True")).with(
        "reason",
        Json::text(reason),
    ).with("message", Json::text(message)).with("lastTransitionTime", Json::text(now))
}

fn stored_names(v: &Json) -> (r: Vec<String>)
    ensures
        texts(r@) == stored_versions(v@.items_or_none()),
{
    let mut storage: Vec<String> = Vec::new();
    let mut offered: Vec<String> = Vec::new();
    assert(texts(storage@) =~= Seq::<Seq<char>>::empty());
    assert(texts(offered@) =~= Seq::<Seq<char>>::empty());
    match v {
        Json::Array(a) => {
            let ghost ts = trees(a@);
            let mut i: usize = 0;
            while i < a.len()
                invariant
                    i <= a.len(),
                    ts == trees(a@),
                    texts(storage@) == storage_names(ts.take(i as int)),
                    texts(offered@) == served_names(ts.take(i as int)),
                decreases a.len() - i,
            {
                let e = &a[i];
                proof {
                    assert(ts.take(i + 1).drop_last() =~= ts.take(i as int));
                    assert(ts.take(i + 1).last() == e@);
                }
                match e.at("name").as_str() {
                    Some(n) => {
                        let is_offered = match e.at("served").as_bool() {
                            Some(b) => b,
                            None => true,
                        };
                        if is_offered {
                            let ghost was = texts(offered@);
                            offered.push(n.to_owned());
                            assert(texts(offered@) =~= was.push(n@));
                        }
                        let stored = match e.at("storage").as_bool() {
                            Some(b) => b,
                            None => false,
                        };
                        if stored {
                            let ghost was = texts(storage@);
                            storage.push(n.to_owned());
                            assert(texts(storage@) =~= was.push(n@));
                        }
                    },
                    None => {},
                }
                i = i + 1;
            }
            assert(ts.take(i as int) =~= ts);
        },
        _ => {},
    }
    assert(texts(storage@).len() == storage@.len());
    if storage.len() > 0 {
        storage
    } else {
        offered
    }
}

/// Gives a definition the status of one that is served since `now`.
pub fn establish_at(crd: &mut Json, now: &str)
    requires
        old(crd)@.settable(),
    ensures
        final(crd)@ == old(crd)@.set("status"@, established_status(old(crd)@, now@)),
{
    let names = crd.at("spec").at("names");
    let kind = names.at("kind").str_or_empty();
    let mut accepted = names.dup();
    if accepted.at("listKind").str_or_empty().unicode_len() == 0 && kind.unicode_len() > 0 {
        let list = kind.to_owned().concat("List");
        accepted.set("listKind", Json::String(list));
    }
    if accepted.at("singular").str_or_empty().unicode_len() == 0 && kind.unicode_len() > 0 {
        accepted.set("singular", Json::String(lowered(kind)));
    }
    let stored = stored_names(crd.at("spec").at("versions"));
    let conditions = Json::list().and(
        condition("NamesAccepted", "NoConflicts", "no conflicts found", now),
    ).and(
        condition(
            "Established",
            "InitialNamesAccepted",
            "the initial names have been accepted",
            now,
        ),
    );
    let status = Json::object().with("acceptedNames", accepted).with(
        "storedVersions",
        Json::text_list(&stored),
    ).with("conditions", conditions);
    crd.set("status", status);
}

/// A definition has the status of one that is served since some time.
pub open spec fn established_somewhen(before: Tree, after: Tree) -> bool {
    exists|now: Seq<char>|
        time_shaped(now) && after == before.set(
            "status"@,
            #[trigger] established_status(before, now),
        )
}

/// Gives a definition the status of one that is served: its names are accepted
/// and it is established.
pub fn establish_crd_status(crd: &mut Json)
    requires
        old(crd)@.settable(),
    ensures
        established_somewhen(old(crd)@, final(crd)@),
{
    let now = now_text();
    establish_at(crd, now.as_str());
}

/// A condition says that a definition is established.
pub open spec fn says_established(c: Tree) -> bool {
    c.at("type"@) == str_tree("Established") && c.at("status"@) == str_tree("True")
}

/// A definition says that it is established.
pub open spec fn is_established(crd: Tree) -> bool {
    exists|i: int|
        0 <= i < crd.at("status"@).at("conditions"@).items_or_none().len() && says_established(
            #[trigger] crd.at("status"@).at("conditions"@).items_or_none()[i],
        )
}

/// Does a definition say that it is established?
pub fn established(crd: &Json) -> (r: bool)
    ensures
        r == is_established(crd@),
{
    let cs = match crd.at("status").at("conditions") {
        Json::Array(a) => a,
        _ => {
            return false;
        },
    };
    let mut i: usize = 0;
    while i < cs.len()
        invariant
            i <= cs.len(),
            crd@.at("status"@).at("conditions"@) == Tree::Array(trees(cs@)),
            forall|j: int| 0 <= j < i ==> !says_established(#[trigger] trees(cs@)[j]),
        decreases cs.len() - i,
    {
        if cs[i].at("type").is_text("Established") && cs[i].at("status").is_text("True") {
            assert(says_established(
                crd@.at("status"@).at("conditions"@).items_or_none()[i as int],
            ));
            return true;
        }
        i = i + 1;
    }
    false
}

/// What has been established says so.
pub proof fn law_establishing_establishes(crd: Tree, now: Seq<char>)
    ensures
        is_established(crd.set("status"@, established_status(crd, now))),
{
    let c = crd.set("status"@, established_status(crd, now));
    reveal_strlit("type");
    reveal_strlit("status");
    reveal_strlit("reason");
    reveal_strlit("message");
    reveal_strlit("lastTransitionTime");
    reveal_strlit("acceptedNames");
    reveal_strlit("storedVersions");
    reveal_strlit("conditions");
    assert("type"@.len() == 4);
    assert("status"@[0] == 's');
    assert("reason"@[0] == 'r');
    assert("message"@.len() == 7);
    assert("lastTransitionTime"@.len() == 18);
    assert("status"@.len() == 6);
    let cs = c.at("status"@).at("conditions"@).items_or_none();
    assert(says_established(cs[1]));
}

// ---------------------------------------------------------------------------
// Status patches of custom resources
// ---------------------------------------------------------------------------

/// What the patch of a custom resource's status makes of it: the patch is
/// applied to a copy, and only the status of the copy is taken.
pub open spec fn status_of_patched(
    obj: Tree,
    kind: crate::apiserver::handlers::patch::PatchKind,
    body: Seq<u8>,
) -> Result<Tree, ErrorView> {
    match patched(obj, kind, body) {
        Ok(t) => Ok(obj.set("status"@, t.at("status"@))),
        Err(e) => Err(e),
    }
}

/// Patches the status of a custom resource and nothing else.
pub fn patch_cr_status(existing: Json, content_type: &str, body: &[u8]) -> (r: Result<
    Json,
    ApiError,
>)
    requires
        existing@.settable(),
    ensures
        match r {
            Ok(v) => status_of_patched(existing@, patch_kind(content_type@), body@) == Ok::<
                Tree,
                ErrorView,
            >(v@),
            Err(e) => status_of_patched(existing@, patch_kind(content_type@), body@) == Err::<
                Tree,
                ErrorView,
            >(e@),
        },
{
    let mut scratch = existing.dup();
    match apply_patch_body(&mut scratch, content_type, body) {
        Ok(_) => {},
        Err(e) => {
            return Err(e);
        },
    }
    let mut out = existing;
    out.set("status", scratch.at("status").dup());
    Ok(out)
}

// ---------------------------------------------------------------------------
// Moving custom resources to the keys of their group
// ---------------------------------------------------------------------------

/// What becomes of an object under the key of an ungrouped custom resource.
pub enum Move {
    /// It belongs to another group, or has no name.
    Leave,
    /// It should be in a namespace and names none.
    NoNamespace,
    /// It moves.
    To { old_key: String, new_key: String },
}

/// What a [`Move`] says.
pub ghost enum MoveView {
    Leave,
    NoNamespace,
    To { old_key: Seq<char>, new_key: Seq<char> },
}

impl View for Move {
    type V = MoveView;

    open spec fn view(&self) -> MoveView {
        match self {
            Move::Leave => MoveView::Leave,
            Move::NoNamespace => MoveView::NoNamespace,
            Move::To { old_key, new_key } => MoveView::To { old_key: old_key@, new_key: new_key@ },
        }
    }
}

/// Where an object moves: the group in its own `apiVersion` decides, and never
/// the key that it was found under.
pub open spec fn move_of(d: DefView, obj: Tree) -> MoveView {
    let under = d.group + "/"@ + d.plural;
    if group_of(obj.at("apiVersion"@).text_or_empty()) != d.group {
        MoveView::Leave
    } else {
        match (obj.at("metadata"@).at("name"@).text(), d.scope, obj.at("metadata"@).at(
            "namespace"@,
        ).text()) {
            (None, _, _) => MoveView::Leave,
            (Some(name), CrdScope::Cluster, _) => MoveView::To {
                old_key: cluster_key_of(d.plural, name),
                new_key: cluster_key_of(under, name),
            },
            (Some(name), CrdScope::Namespaced, Some(ns)) => MoveView::To {
                old_key: namespaced_key_of(d.plural, ns, name),
                new_key: namespaced_key_of(under, ns, name),
            },
            (Some(_), CrdScope::Namespaced, None) => MoveView::NoNamespace,
        }
    }
}

/// Decides where an object found under the key of an ungrouped custom resource
/// moves.
pub fn legacy_move(def: &CrdDefinition, obj: &Json) -> (r: Move)
    ensures
        r@ == move_of(def@, obj@),
{
    let (group, _) = group_version(obj.at("apiVersion").str_or_empty());
    if !same(group.as_str(), def.group.as_str()) {
        return Move::Leave;
    }
    let meta = obj.at("metadata");
    let name = match meta.at("name").as_str() {
        Some(n) => n,
        None => {
            return Move::Leave;
        },
    };
    let under = custom_resource(def.group.as_str(), def.plural.as_str());
    match def.scope {
        CrdScope::Cluster => Move::To {
            old_key: ResourceStorage::cluster_key(def.plural.as_str(), name),
            new_key: ResourceStorage::cluster_key(under.as_str(), name),
        },
        CrdScope::Namespaced => match meta.at("namespace").as_str() {
            Some(ns) => Move::To {
                old_key: ResourceStorage::namespaced_key(def.plural.as_str(), ns, name),
                new_key: ResourceStorage::namespaced_key(under.as_str(), ns, name),
            },
            None => Move::NoNamespace,
        },
    }
}

/// Why an object stays under its old key.
#[derive(Clone, Copy, Debug, PartialEq, Eq, Structural)]
pub enum Stay {
    /// It belongs to another group, or has no name.
    Foreign,
    /// It should be in a namespace and names none.
    NoNamespace,
    /// Another object stands under the new key.
    Taken,
    /// The new key could not be written.
    Unwritten,
    /// The old key could not be deleted; the object stands under both.
    Undeleted,
}

/// What is to be done next to move an object.
pub enum Moving {
    /// Create the object under the new key.
    Create { old_key: String, new_key: String },
    /// Read what stands under the new key.
    Look { old_key: String, new_key: String },
    /// Delete the old key.
    Delete { old_key: String },
    /// Nothing: it has moved.
    Moved,
    /// Nothing: it stays.
    Stays(Stay),
}

/// What a [`Moving`] says.
pub ghost enum MovingView {
    Create { old_key: Seq<char>, new_key: Seq<char> },
    Look { old_key: Seq<char>, new_key: Seq<char> },
    Delete { old_key: Seq<char> },
    Moved,
    Stays(Stay),
}

impl View for Moving {
    type V = MovingView;

    open spec fn view(&self) -> MovingView {
        match self {
            Moving::Create { old_key, new_key } => MovingView::Create {
                old_key: old_key@,
                new_key: new_key@,
            },
            Moving::Look { old_key, new_key } => MovingView::Look {
                old_key: old_key@,
                new_key: new_key@,
            },
            Moving::Delete { old_key } => MovingView::Delete { old_key: old_key@ },
            Moving::Moved => MovingView::Moved,
            Moving::Stays(why) => MovingView::Stays(*why),
        }
    }
}

/// What came of a step.
pub enum MoveEvent {
    /// The object was created, or why it was not.
    Created(Option<ApiError>),
    /// What stands under the new key, where it could be read.
    Found(Option<Json>),
    /// The old key was deleted, or why it was not.
    Deleted(Option<ApiError>),
}

/// What a [`MoveEvent`] says.
pub ghost enum MoveEventView {
    Created(Option<ErrorView>),
    Found(Option<Tree>),
    Deleted(Option<ErrorView>),
}

impl View for MoveEvent {
    type V = MoveEventView;

    open spec fn view(&self) -> MoveEventView {
        match self {
            MoveEvent::Created(Some(e)) => MoveEventView::Created(Some(e@)),
            MoveEvent::Created(None) => MoveEventView::Created(None),
            MoveEvent::Found(Some(v)) => MoveEventView::Found(Some(v@)),
            MoveEvent::Found(None) => MoveEventView::Found(None),
            MoveEvent::Deleted(Some(e)) => MoveEventView::Deleted(Some(e@)),
            MoveEvent::Deleted(None) => MoveEventView::Deleted(None),
        }
    }
}

/// The first step of a move.
pub open spec fn first_step(d: DefView, obj: Tree) -> MovingView {
    match move_of(d, obj) {
        MoveView::Leave => MovingView::Stays(Stay::Foreign),
        MoveView::NoNamespace => MovingView::Stays(Stay::NoNamespace),
        MoveView::To { old_key, new_key } => MovingView::Create { old_key, new_key },
    }
}

/// Begins to move an object that was found under the key of an ungrouped custom
/// resource.
pub fn begin_move(def: &CrdDefinition, obj: &Json) -> (r: Moving)
    ensures
        r@ == first_step(def@, obj@),
{
    match legacy_move(def, obj) {
        Move::Leave => Moving::Stays(Stay::Foreign),
        Move::NoNamespace => Moving::Stays(Stay::NoNamespace),
        Move::To { old_key, new_key } => Moving::Create { old_key, new_key },
    }
}

/// Two documents are one object: they have one `uid`.
pub open spec fn same_uid(a: Tree, b: Tree) -> bool {
    a.at("metadata"@).at("uid"@).alike(b.at("metadata"@).at("uid"@))
}

/// Are two documents one object?
pub fn same_identity(there: &Json, obj: &Json) -> (r: bool)
    ensures
        r == same_uid(there@, obj@),
{
    there.at("metadata").at("uid").equals(obj.at("metadata").at("uid"))
}

/// The step that follows a step and what came of it. The old key goes once the
/// object stands under the new one; where another object stands there both are
/// left alone. What is not about the step changes nothing.
pub open spec fn next_step(step: MovingView, event: MoveEventView, obj: Tree) -> MovingView {
    match (step, event) {
        (MovingView::Create { old_key, new_key }, MoveEventView::Created(failure)) => match failure {
            None => MovingView::Delete { old_key },
            Some(e) => if e.reason == "AlreadyExists"@ {
                MovingView::Look { old_key, new_key }
            } else {
                MovingView::Stays(Stay::Unwritten)
            },
        },
        (MovingView::Look { old_key, new_key }, MoveEventView::Found(there)) => match there {
            Some(v) => if same_uid(v, obj) {
                MovingView::Delete { old_key }
            } else {
                MovingView::Stays(Stay::Taken)
            },
            None => MovingView::Stays(Stay::Taken),
        },
        (MovingView::Delete { old_key }, MoveEventView::Deleted(failure)) => match failure {
            None => MovingView::Moved,
            Some(e) => if e.status == NOT_FOUND {
                MovingView::Moved
            } else {
                MovingView::Stays(Stay::Undeleted)
            },
        },
        _ => step,
    }
}

/// Decides the step that follows a step and what came of it.
pub fn advance_move(step: Moving, event: MoveEvent, obj: &Json) -> (r: Moving)
    ensures
        r@ == next_step(step@, event@, obj@),
{
    match (step, event) {
        (Moving::Create { old_key, new_key }, MoveEvent::Created(failure)) => match failure {
            None => Moving::Delete { old_key },
            Some(e) => if e.is_already_exists() {
                Moving::Look { old_key, new_key }
            } else {
                Moving::Stays(Stay::Unwritten)
            },
        },
        (Moving::Look { old_key, new_key }, MoveEvent::Found(there)) => match there {
            Some(v) => if same_identity(&v, obj) {
                Moving::Delete { old_key }
            } else {
                Moving::Stays(Stay::Taken)
            },
            None => Moving::Stays(Stay::Taken),
        },
        (Moving::Delete { old_key }, MoveEvent::Deleted(failure)) => match failure {
            None => Moving::Moved,
            Some(e) => if e.status == NOT_FOUND {
                Moving::Moved
            } else {
                Moving::Stays(Stay::Undeleted)
            },
        },
        (step, _) => step,
    }
}

/// An object never moves under the group of another: a built-in resource is
/// left where it is.
pub proof fn law_only_the_own_group_moves(d: DefView, obj: Tree)
    requires
        group_of(obj.at("apiVersion"@).text_or_empty()) != d.group,
    ensures
        first_step(d, obj) == MovingView::Stays(Stay::Foreign),
{
}

/// Whatever others do to the store meanwhile, the old key is deleted only once
/// the object has been written under the new key, or has been seen there.
pub proof fn law_the_old_key_outlives_the_new(step: MovingView, event: MoveEventView, obj: Tree)
    requires
        next_step(step, event, obj) is Delete,
        !(step is Delete),
    ensures
        event == MoveEventView::Created(None) || (event matches MoveEventView::Found(Some(v))
            && same_uid(v, obj)),
{
}

/// How many steps are left.
pub open spec fn steps_left(step: MovingView) -> nat {
    match step {
        MovingView::Create { .. } => 3,
        MovingView::Look { .. } => 2,
        MovingView::Delete { .. } => 1,
        _ => 0,
    }
}

/// What a step comes to on a store that holds objects by their keys, and that
/// nothing else writes to.
pub open spec fn perform_step(step: MovingView, obj: Tree, store: Map<Seq<char>, Tree>) -> (
    MoveEventView,
    Map<Seq<char>, Tree>,
) {
    match step {
        MovingView::Create { old_key, new_key } => if store.contains_key(new_key) {
            (MoveEventView::Created(Some(err_already_exists("resource"@, new_key))), store)
        } else {
            (MoveEventView::Created(None), store.insert(new_key, obj))
        },
        MovingView::Look { old_key, new_key } => if store.contains_key(new_key) {
            (MoveEventView::Found(Some(store[new_key])), store)
        } else {
            (MoveEventView::Found(None), store)
        },
        MovingView::Delete { old_key } => (MoveEventView::Deleted(None), store.remove(old_key)),
        _ => (MoveEventView::Found(None), store),
    }
}

/// What a store holds once a move has ended.
pub open spec fn store_after(step: MovingView, obj: Tree, store: Map<Seq<char>, Tree>) -> Map<
    Seq<char>,
    Tree,
>
    decreases steps_left(step),
{
    if steps_left(step) == 0 {
        store
    } else {
        let (event, after) = perform_step(step, obj, store);
        store_after(next_step(step, event, obj), obj, after)
    }
}

/// A move loses nothing. An object whose new key is free stands there afterwards,
/// and no longer under its old key; one that stands there already, by its `uid`,
/// loses its old copy alone; and where another object stands there, nothing
/// changes.
pub proof fn law_a_move_loses_nothing(d: DefView, obj: Tree, store: Map<Seq<char>, Tree>)
    requires
        move_of(d, obj) is To,
        move_of(d, obj)->old_key != move_of(d, obj)->new_key,
    ensures
        ({
            let (old_key, new_key) = (move_of(d, obj)->old_key, move_of(d, obj)->new_key);
            store_after(first_step(d, obj), obj, store) == if !store.contains_key(new_key) {
                store.insert(new_key, obj).remove(old_key)
            } else if same_uid(store[new_key], obj) {
                store.remove(old_key)
            } else {
                store
            }
        }),
{
    reveal_with_fuel(store_after, 4);
}

/// Moving is idempotent: an object that is still under its old key once it has
/// been tried to move is left there the next time too, and so is all else.
pub proof fn law_a_move_is_idempotent(d: DefView, obj: Tree, store: Map<Seq<char>, Tree>)
    requires
        move_of(d, obj) is To,
        move_of(d, obj)->old_key != move_of(d, obj)->new_key,
    ensures
        ({
            let after = store_after(first_step(d, obj), obj, store);
            after.contains_key(move_of(d, obj)->old_key) ==> store_after(
                first_step(d, obj),
                obj,
                after,
            ) == after
        }),
{
    law_a_move_loses_nothing(d, obj, store);
    law_a_move_loses_nothing(d, obj, store_after(first_step(d, obj), obj, store));
}

/// Definitions of one plural in two groups separate: what moves for the one never
/// stands under a key of the other.
pub proof fn law_groups_separate(a: DefView, b: DefView, x: Tree, y: Tree)
    requires
        a.group != b.group,
        move_of(a, x) is To,
        move_of(b, y) is To,
    ensures
        move_of(a, x)->new_key != move_of(b, y)->new_key,
{
    let (k, l) = (move_of(a, x)->new_key, move_of(b, y)->new_key);
    if k == l {
        lemma_group_has_no_slash(x.at("apiVersion"@).text_or_empty());
        lemma_group_has_no_slash(y.at("apiVersion"@).text_or_empty());
        let front = ("/registry"@ + "/"@).len() as int;
        reveal_strlit("/");
        assert forall|i: int| 0 <= i < a.group.len() implies k[front + i] == a.group[i] by {}
        assert forall|i: int| 0 <= i < b.group.len() implies l[front + i] == b.group[i] by {}
        assert(k[front + a.group.len()] == '/');
        assert(l[front + b.group.len()] == '/');
        if a.group.len() < b.group.len() {
            assert(l[front + a.group.len()] == b.group[a.group.len() as int]);
        } else if b.group.len() < a.group.len() {
            assert(k[front + b.group.len()] == a.group[b.group.len() as int]);
        } else {
            assert(a.group =~= b.group) by {
                assert forall|i: int| 0 <= i < a.group.len() implies a.group[i] == b.group[i] by {
                    assert(k[front + i] == a.group[i]);
                    assert(l[front + i] == b.group[i]);
                }
            }
        }
    }
}

proof fn lemma_group_has_no_slash(api_version: Seq<char>)
    ensures
        !group_of(api_version).contains('/'),
{
    let slash = seq!['/'];
    lemma_find_from(api_version, slash, 0);
    let g = group_of(api_version);
    if g.contains('/') {
        let j = choose|j: int| 0 <= j < g.len() && g[j] == '/';
        assert(api_version.subrange(j, j + 1) =~= slash);
        assert(occurs_at(api_version, slash, j));
    }
}

/// A definition says what its document says.
pub proof fn law_a_definition_is_its_document(crd: Tree, version: Seq<char>, columns: Seq<Tree>)
    ensures
        ({
            let d = definition_of(crd, version, columns);
            let spec = crd.at("spec"@);
            let names = spec.at("names"@);
            &&& d.version == version
            &&& d.printer_columns == columns
            &&& spec.at("group"@) is String ==> Tree::String(d.group) == spec.at("group"@)
            &&& names.at("kind"@) is String ==> Tree::String(d.kind) == names.at("kind"@)
            &&& names.at("plural"@) is String ==> Tree::String(d.plural) == names.at("plural"@)
            &&& names.at("singular"@) is String ==> Tree::String(d.singular) == names.at(
                "singular"@,
            )
            &&& d.scope == CrdScope::Cluster <==> spec.at("scope"@) == str_tree("Cluster")
            &&& servable(crd) <==> d.plural.len() > 0 && d.group.contains('.')
        }),
{
    reveal_strlit("Namespaced");
    reveal_strlit("Cluster");
    assert("Namespaced"@.len() == 10);
    assert("Cluster"@.len() == 7);
}

proof fn lemma_served(versions: Seq<Tree>, name: Seq<char>, columns: Seq<Tree>)
    ensures
        served(versions).contains((name, columns)) <==> exists|i: int|
            0 <= i < versions.len() && (#[trigger] versions[i]).at("name"@) == Tree::String(name)
                && versions[i].at("served"@) != Tree::Bool(false) && versions[i].at(
                "additionalPrinterColumns"@,
            ).items_or_none() == columns,
    decreases versions.len(),
{
    if versions.len() > 0 {
        let rest = versions.drop_last();
        lemma_served(rest, name, columns);
        assert(forall|i: int| 0 <= i < rest.len() ==> rest[i] == #[trigger] versions[i]);
        let v = versions.last();
        assert(v == versions[versions.len() - 1]);
        let all = served(versions);
        let most = served(rest);
        if all.contains((name, columns)) {
            let k = all.index_of((name, columns));
            if k < most.len() {
                assert(most[k] == (name, columns));
                assert(most.contains((name, columns)));
                let i = choose|i: int|
                    0 <= i < rest.len() && (#[trigger] rest[i]).at("name"@) == Tree::String(name)
                        && rest[i].at("served"@) != Tree::Bool(false) && rest[i].at(
                        "additionalPrinterColumns"@,
                    ).items_or_none() == columns;
                assert(versions[i] == rest[i]);
            }
        }
        if exists|i: int|
            0 <= i < versions.len() && (#[trigger] versions[i]).at("name"@) == Tree::String(name)
                && versions[i].at("served"@) != Tree::Bool(false) && versions[i].at(
                "additionalPrinterColumns"@,
            ).items_or_none() == columns {
            let i = choose|i: int|
                0 <= i < versions.len() && (#[trigger] versions[i]).at("name"@) == Tree::String(
                    name,
                ) && versions[i].at("served"@) != Tree::Bool(false) && versions[i].at(
                    "additionalPrinterColumns"@,
                ).items_or_none() == columns;
            if i < rest.len() {
                assert(rest[i] == versions[i]);
                assert(most.contains((name, columns)));
                let k = most.index_of((name, columns));
                assert(all[k] == (name, columns));
            } else {
                assert(all[most.len() as int] == (name, columns));
            }
        }
    }
}

/// The versions that are served are those that the document lists and does not withhold, with
/// their columns; a document that lists none serves the first.
pub proof fn law_what_is_listed_is_served(crd: Tree, name: Seq<char>, columns: Seq<Tree>)
    ensures
        ({
            let listed = crd.at("spec"@).at("versions"@).items_or_none();
            &&& listed.len() == 0 ==> versions_to_serve(crd) == seq![
                ("v1"@, Seq::<Tree>::empty()),
            ]
            &&& (exists|i: int|
                0 <= i < listed.len() && (#[trigger] listed[i]).at("name"@) == Tree::String(name)
                    && listed[i].at("served"@) != Tree::Bool(false) && listed[i].at(
                    "additionalPrinterColumns"@,
                ).items_or_none() == columns) ==> versions_to_serve(crd).contains((name, columns))
            &&& versions_to_serve(crd).contains((name, columns)) && name != "v1"@ ==> exists|i: int|
                0 <= i < listed.len() && (#[trigger] listed[i]).at("name"@) == Tree::String(name)
                    && listed[i].at("served"@) != Tree::Bool(false) && listed[i].at(
                    "additionalPrinterColumns"@,
                ).items_or_none() == columns
            &&& (exists|i: int|
                0 <= i < listed.len() && (#[trigger] listed[i]).at("served"@) == Tree::Bool(false))
                && versions_to_serve(crd).contains((name, columns)) ==> exists|i: int|
                0 <= i < listed.len() && (#[trigger] listed[i]).at("name"@) == Tree::String(name)
                    && listed[i].at("served"@) != Tree::Bool(false)
        }),
{
    let listed = crd.at("spec"@).at("versions"@).items_or_none();
    lemma_served(listed, name, columns);
    if versions_to_serve(crd) != served(listed) {
        assert(!withholds(listed));
        assert forall|i: int| 0 <= i < listed.len() implies (#[trigger] listed[i]).at("served"@)
            != Tree::Bool(false) by {
            if listed[i].at("served"@) == Tree::Bool(false) {
                assert(listed[i].at("served"@).flag() == Some(false));
            }
        }
    }
}

/// What is unregistered is every version of the resource that the name names, and nothing else.
pub proof fn law_unregistering_removes_a_resource(
    ds: Seq<DefView>,
    plural: Seq<char>,
    group: Seq<char>,
)
    requires
        !plural.contains('.'),
    ensures
        unregistered(ds, plural + seq!['.'] + group) == ds.filter(
            |d: DefView| !(d.group == group && d.plural == plural),
        ),
{
    crate::text::law_parted_at_the_first(plural, '.', group);
    lemma_plural_filtered(ds, group, plural);
}

proof fn lemma_plural_filtered(ds: Seq<DefView>, group: Seq<char>, plural: Seq<char>)
    ensures
        without_plural(ds, group, plural) == ds.filter(
            |d: DefView| !(d.group == group && d.plural == plural),
        ),
    decreases ds.len(),
{
    reveal(Seq::filter);
    if ds.len() > 0 {
        lemma_plural_filtered(ds.drop_last(), group, plural);
    }
}

/// Each group is listed once, where something is registered in it.
pub proof fn law_each_group_is_listed_once(ds: Seq<DefView>, group: Seq<char>)
    ensures
        groups_of(ds).contains(group) <==> exists|i: int|
            0 <= i < ds.len() && (#[trigger] ds[i]).group == group,
        groups_of(ds).no_duplicates(),
    decreases ds.len(),
{
    if ds.len() > 0 {
        let short = ds.drop_last();
        law_each_group_is_listed_once(short, group);
        law_each_group_is_listed_once(short, ds.last().group);
        assert(forall|i: int| 0 <= i < short.len() ==> short[i] == #[trigger] ds[i]);
        assert(ds[ds.len() - 1] == ds.last());
        let rest = groups_of(short);
        let all = groups_of(ds);
        if !rest.contains(ds.last().group) {
            assert(all[rest.len() as int] == ds.last().group);
        }
        if rest.contains(group) {
            let k = rest.index_of(group);
            assert(all[k] == group);
            let i = choose|i: int| 0 <= i < short.len() && (#[trigger] short[i]).group == group;
            assert(ds[i].group == group);
        }
        if all.contains(group) && group != ds.last().group {
            let k = all.index_of(group);
            assert(rest[k] == group);
        }
    }
}

/// Each version of a group is listed once, where something is registered in it.
pub proof fn law_each_version_is_listed_once(ds: Seq<DefView>, group: Seq<char>, version: Seq<char>)
    ensures
        versions_in(ds, group).contains(version) <==> exists|i: int|
            0 <= i < ds.len() && (#[trigger] ds[i]).group == group && ds[i].version == version,
        versions_in(ds, group).no_duplicates(),
    decreases ds.len(),
{
    if ds.len() > 0 {
        let short = ds.drop_last();
        law_each_version_is_listed_once(short, group, version);
        law_each_version_is_listed_once(short, group, ds.last().version);
        assert(forall|i: int| 0 <= i < short.len() ==> short[i] == #[trigger] ds[i]);
        assert(ds[ds.len() - 1] == ds.last());
        let rest = versions_in(short, group);
        let all = versions_in(ds, group);
        if ds.last().group == group && !rest.contains(ds.last().version) {
            assert(all[rest.len() as int] == ds.last().version);
        }
        if rest.contains(version) {
            let k = rest.index_of(version);
            assert(all[k] == version);
            let i = choose|i: int|
                0 <= i < short.len() && (#[trigger] short[i]).group == group && short[i].version
                    == version;
            assert(ds[i].group == group);
        }
        if all.contains(version) && !rest.contains(version) {
            let k = all.index_of(version);
            if k < rest.len() {
                assert(rest[k] == version);
            }
            assert(ds.last().version == version);
        }
    }
}

/// A group says its name and its versions, the first of them preferred; a version says its group
/// and its name.
pub proof fn law_a_group_says_its_versions(group: Seq<char>, versions: Seq<Seq<char>>, i: int)
    requires
        0 <= i < versions.len(),
    ensures
        ({
            let doc = group_doc(group, versions);
            let all = doc.at("versions"@).items_or_none();
            &&& doc.at("name"@) == Tree::String(group)
            &&& all.len() == versions.len()
            &&& all[i].at("groupVersion"@) == Tree::String(group + "/"@ + versions[i])
            &&& all[i].at("version"@) == Tree::String(versions[i])
            &&& doc.at("preferredVersion"@) == all[0]
        }),
{
    reveal_strlit("name");
    reveal_strlit("versions");
    reveal_strlit("preferredVersion");
    reveal_strlit("groupVersion");
    reveal_strlit("version");
    assert("name"@.len() == 4);
    assert("versions"@.len() == 8);
    assert("preferredVersion"@.len() == 16);
    assert("groupVersion"@.len() == 12);
    assert("version"@.len() == 7);
}

/// A resource is listed as it is defined.
pub proof fn law_a_resource_is_listed_as_defined(d: DefView)
    ensures
        ({
            let doc = resource_doc(d);
            &&& doc.at("name"@) == Tree::String(d.plural)
            &&& doc.at("singularName"@) == Tree::String(d.singular)
            &&& doc.at("kind"@) == Tree::String(d.kind)
            &&& doc.at("namespaced"@) == Tree::Bool(d.scope == CrdScope::Namespaced)
            &&& d.short_names.len() > 0 ==> doc.at("shortNames"@) == Tree::Array(
                string_trees(d.short_names),
            )
            &&& d.short_names.len() == 0 ==> doc.get("shortNames"@) is None
            &&& doc.at("verbs"@) == Tree::Array(
                seq![
                    str_tree("create"),
                    str_tree("delete"),
                    str_tree("get"),
                    str_tree("list"),
                    str_tree("patch"),
                    str_tree("update"),
                    str_tree("watch"),
                ],
            )
        }),
{
    reveal_strlit("name");
    reveal_strlit("singularName");
    reveal_strlit("namespaced");
    reveal_strlit("kind");
    reveal_strlit("verbs");
    reveal_strlit("shortNames");
    assert("name"@.len() == 4);
    assert("singularName"@.len() == 12);
    assert("namespaced"@.len() == 10);
    assert("kind"@.len() == 4);
    assert("verbs"@.len() == 5);
    assert("shortNames"@.len() == 10);
    assert("name"@[0] == 'n');
    assert("kind"@[0] == 'k');
    assert("namespaced"@[0] == 'n');
    assert("shortNames"@[0] == 's');
    assert(crd_verbs().items_or_none() =~= seq![
        str_tree("create"),
        str_tree("delete"),
        str_tree("get"),
        str_tree("list"),
        str_tree("patch"),
        str_tree("update"),
        str_tree("watch"),
    ]);
}

/// The resources of a version are all that are registered in it, in their order.
pub proof fn law_a_version_lists_its_resources(
    ds: Seq<DefView>,
    group: Seq<char>,
    version: Seq<char>,
)
    ensures
        resource_docs(ds, group, version) == ds.filter(
            |d: DefView| d.group == group && d.version == version,
        ).map_values(|d: DefView| resource_doc(d)),
    decreases ds.len(),
{
    reveal(Seq::filter);
    let f = |d: DefView| d.group == group && d.version == version;
    let g = |d: DefView| resource_doc(d);
    if ds.len() > 0 {
        law_a_version_lists_its_resources(ds.drop_last(), group, version);
        let rest = ds.drop_last().filter(f);
        assert(rest.push(ds.last()).map_values(g) =~= rest.map_values(g).push(g(ds.last())));
    }
    assert(resource_docs(ds, group, version) =~= ds.filter(f).map_values(g));
}

/// Custom objects are stored under their group as well as their resource; the definitions
/// themselves are not.
pub proof fn law_where_custom_objects_are(group: Seq<char>, resource: Seq<char>)
    ensures
        stored_under("apiextensions.k8s.io"@, "customresourcedefinitions"@)
            == "customresourcedefinitions"@,
        group != "apiextensions.k8s.io"@ ==> stored_under(group, resource) == group + "/"@
            + resource,
        resource != "customresourcedefinitions"@ ==> stored_under(group, resource) == group + "/"@
            + resource,
{
}

/// The group that a definition is judged by is the one in its body, else the one in its name.
pub proof fn law_the_group_of_a_definition(body: Tree, plural: Seq<char>, group: Seq<char>)
    requires
        !plural.contains('.'),
    ensures
        body.at("spec"@).at("group"@) is String ==> judged_group(
            Some(plural + seq!['.'] + group),
            Some(body),
        ) == body.at("spec"@).at("group"@)->String_0,
        !(body.at("spec"@).at("group"@) is String) ==> judged_group(
            Some(plural + seq!['.'] + group),
            Some(body),
        ) == group,
        judged_group(Some(plural + seq!['.'] + group), None) == group,
{
    crate::text::law_parted_at_the_first(plural, '.', group);
}

/// The names that are accepted are those that are asked for, with one for the list and a
/// singular made of the kind where there is none.
pub proof fn law_names_are_accepted(names: Tree, key: Seq<char>)
    requires
        names is Object,
        names.at("kind"@) is String,
        (names.at("kind"@)->String_0).len() > 0,
        key != "listKind"@,
        key != "singular"@,
    ensures
        ({
            let r = accepted_names(names);
            let list = names.at("listKind"@);
            let one = names.at("singular"@);
            &&& r.get(key) == names.get(key)
            &&& list is String && (list->String_0).len() > 0 ==> r.at("listKind"@) == list
            &&& !(list is String) || (list->String_0).len() == 0 ==> r.at("listKind"@)
                == Tree::String(names.at("kind"@)->String_0 + "List"@)
            &&& one is String && (one->String_0).len() > 0 ==> r.at("singular"@) == one
            &&& !(one is String) || (one->String_0).len() == 0 ==> r.at("singular"@)
                == Tree::String(lower_case(names.at("kind"@)->String_0))
        }),
{
    reveal_strlit("listKind");
    reveal_strlit("singular");
    reveal_strlit("kind");
    assert("listKind"@.len() == 8);
    assert("singular"@.len() == 8);
    assert("kind"@.len() == 4);
    assert("listKind"@[0] == 'l');
    assert("singular"@[0] == 's');
}

/// The versions that objects are stored in are those that say so.
pub proof fn law_what_is_stored_says_so(versions: Seq<Tree>, name: Seq<char>)
    ensures
        storage_names(versions).contains(name) <==> exists|i: int|
            0 <= i < versions.len() && (#[trigger] versions[i]).at("name"@) == Tree::String(name)
                && versions[i].at("storage"@) == Tree::Bool(true),
        storage_names(versions).len() > 0 ==> stored_versions(versions) == storage_names(versions),
    decreases versions.len(),
{
    if versions.len() > 0 {
        let rest = versions.drop_last();
        law_what_is_stored_says_so(rest, name);
        assert(forall|i: int| 0 <= i < rest.len() ==> rest[i] == #[trigger] versions[i]);
        assert(versions[versions.len() - 1] == versions.last());
        let all = storage_names(versions);
        let most = storage_names(rest);
        if most.contains(name) {
            let k = most.index_of(name);
            assert(all[k] == name);
            let i = choose|i: int|
                0 <= i < rest.len() && (#[trigger] rest[i]).at("name"@) == Tree::String(name)
                    && rest[i].at("storage"@) == Tree::Bool(true);
            assert(versions[i] == rest[i]);
        }
        if all.contains(name) && !most.contains(name) {
            let k = all.index_of(name);
            if k < most.len() {
                assert(most[k] == name);
            }
        }
        if versions.last().at("name"@) == Tree::String(name) && versions.last().at("storage"@)
            == Tree::Bool(true) {
            assert(all[most.len() as int] == name);
        }
    }
}

/// A definition is established where a condition says so.
pub proof fn law_established_is_a_condition(crd: Tree, i: int)
    requires
        0 <= i < crd.at("status"@).at("conditions"@).items_or_none().len(),
        crd.at("status"@).at("conditions"@).items_or_none()[i].at("type"@) == str_tree(
            "Established",
        ),
    ensures
        crd.at("status"@).at("conditions"@).items_or_none()[i].at("status"@) == str_tree("True")
            ==> is_established(crd),
        (forall|k: int|
            0 <= k < crd.at("status"@).at("conditions"@).items_or_none().len() ==> (
            #[trigger] crd.at("status"@).at("conditions"@).items_or_none()[k]).at("status"@)
                != str_tree("True")) ==> !is_established(crd),
{
    let cs = crd.at("status"@).at("conditions"@).items_or_none();
    if cs[i].at("status"@) == str_tree("True") {
        assert(says_established(cs[i]));
    }
}

/// A patch of the status of a custom object changes its status alone.
pub proof fn law_a_custom_status_patch_is_of_the_status(
    obj: Tree,
    kind: crate::apiserver::handlers::patch::PatchKind,
    body: Seq<u8>,
    key: Seq<char>,
)
    requires
        obj is Object,
        key != "status"@,
        patched(obj, kind, body) is Ok,
    ensures
        status_of_patched(obj, kind, body) is Ok,
        status_of_patched(obj, kind, body)->Ok_0.get(key) == obj.get(key),
        status_of_patched(obj, kind, body)->Ok_0.at("status"@) == patched(
            obj,
            kind,
            body,
        )->Ok_0.at("status"@),
{
}

/// An object moves from the key of its resource alone to the one under its group, with its
/// namespace where it has one; without a name or a namespace that it needs it does not.
pub proof fn law_where_an_object_moves(d: DefView, obj: Tree, name: Seq<char>, ns: Seq<char>)
    requires
        obj.at("metadata"@).at("name"@) == Tree::String(name),
        obj.at("apiVersion"@) is String,
        group_of(obj.at("apiVersion"@)->String_0) == d.group,
    ensures
        d.scope == CrdScope::Cluster ==> move_of(d, obj) == (MoveView::To {
            old_key: cluster_key_of(d.plural, name),
            new_key: cluster_key_of(d.group + "/"@ + d.plural, name),
        }),
        d.scope == CrdScope::Namespaced && obj.at("metadata"@).at("namespace"@) == Tree::String(ns)
            ==> move_of(d, obj) == (MoveView::To {
            old_key: namespaced_key_of(d.plural, ns, name),
            new_key: namespaced_key_of(d.group + "/"@ + d.plural, ns, name),
        }),
        d.scope == CrdScope::Namespaced && !(obj.at("metadata"@).at("namespace"@) is String)
            ==> move_of(d, obj) is NoNamespace,
{
}

/// Each resource stands once in the list of resources, however many versions it has, as its
/// first.
pub proof fn law_a_resource_stands_once(ds: Seq<DefView>, group: Seq<char>, plural: Seq<char>)
    ensures
        has_resource(one_per_resource(ds), group, plural) <==> has_resource(ds, group, plural),
        forall|i: int, j: int|
            0 <= i < j < one_per_resource(ds).len() ==> (#[trigger] one_per_resource(ds)[i]).group
                != (#[trigger] one_per_resource(ds)[j]).group || one_per_resource(ds)[i].plural
                != one_per_resource(ds)[j].plural,
        forall|i: int|
            0 <= i < one_per_resource(ds).len() ==> ds.contains(
                #[trigger] one_per_resource(ds)[i],
            ),
    decreases ds.len(),
{
    if ds.len() > 0 {
        let short = ds.drop_last();
        let d = ds.last();
        law_a_resource_stands_once(short, group, plural);
        let rest = one_per_resource(short);
        let all = one_per_resource(ds);
        assert(ds[ds.len() - 1] == d);
        assert(forall|i: int| 0 <= i < short.len() ==> short[i] == #[trigger] ds[i]);
        assert forall|i: int| 0 <= i < all.len() implies ds.contains(#[trigger] all[i]) by {
            if i < rest.len() {
                assert(all[i] == rest[i]);
                assert(short.contains(rest[i]));
                let k = short.index_of(rest[i]);
                assert(ds[k] == rest[i]);
            }
        }
        if has_resource(short, group, plural) {
            let i = choose|i: int|
                0 <= i < short.len() && (#[trigger] short[i]).group == group && short[i].plural
                    == plural;
            assert(ds[i] == short[i]);
        }
        if has_resource(rest, group, plural) {
            let i = choose|i: int|
                0 <= i < rest.len() && (#[trigger] rest[i]).group == group && rest[i].plural
                    == plural;
            assert(all[i] == rest[i]);
        }
        if has_resource(ds, group, plural) && !has_resource(short, group, plural) {
            let i = choose|i: int|
                0 <= i < ds.len() && (#[trigger] ds[i]).group == group && ds[i].plural == plural;
            if i < short.len() {
                assert(short[i] == ds[i]);
            }
            assert(d.group == group && d.plural == plural);
            assert(!has_resource(rest, d.group, d.plural));
            assert(all[rest.len() as int] == d);
        }
        if has_resource(all, group, plural) && !has_resource(rest, group, plural) {
            let i = choose|i: int|
                0 <= i < all.len() && (#[trigger] all[i]).group == group && all[i].plural == plural;
            if i < rest.len() {
                assert(rest[i] == all[i]);
            }
        }
        assert forall|i: int, j: int| 0 <= i < j < all.len() implies (#[trigger] all[i]).group != (
        #[trigger] all[j]).group || all[i].plural != all[j].plural by {
            if j < rest.len() {
                assert(all[i] == rest[i] && all[j] == rest[j]);
            } else {
                assert(all[i] == rest[i]);
                assert(!has_resource(rest, d.group, d.plural));
            }
        }
    }
}

/// Where no version says that it is stored, all are that are served.
pub proof fn law_without_a_stored_version_the_served_are(versions: Seq<Tree>, name: Seq<char>)
    ensures
        served_names(versions).contains(name) <==> exists|i: int|
            0 <= i < versions.len() && (#[trigger] versions[i]).at("name"@) == Tree::String(name)
                && versions[i].at("served"@) != Tree::Bool(false),
        storage_names(versions).len() == 0 ==> stored_versions(versions) == served_names(versions),
    decreases versions.len(),
{
    if versions.len() > 0 {
        let rest = versions.drop_last();
        law_without_a_stored_version_the_served_are(rest, name);
        assert(forall|i: int| 0 <= i < rest.len() ==> rest[i] == #[trigger] versions[i]);
        assert(versions[versions.len() - 1] == versions.last());
        let all = served_names(versions);
        let most = served_names(rest);
        if most.contains(name) {
            let k = most.index_of(name);
            assert(all[k] == name);
            let i = choose|i: int|
                0 <= i < rest.len() && (#[trigger] rest[i]).at("name"@) == Tree::String(name)
                    && rest[i].at("served"@) != Tree::Bool(false);
            assert(versions[i] == rest[i]);
        }
        if all.contains(name) && !most.contains(name) {
            let k = all.index_of(name);
            if k < most.len() {
                assert(most[k] == name);
            }
        }
        if versions.last().at("name"@) == Tree::String(name) && versions.last().at("served"@)
            != Tree::Bool(false) {
            assert(all[most.len() as int] == name);
        }
    }
}

} // verus!
