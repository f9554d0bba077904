//! Deletion: what the options of a DELETE ask, and what becomes of the object.

use vstd::prelude::*;
use vstd::string::*;

use crate::apiserver::builtin_admission::lifecycle;
use crate::apiserver::error::{err_conflict, ApiError, ErrorView};
use crate::apiserver::handlers::resource::{
    finalized, held_namespace, named_revision, opt_nat, revision_of,
};
use crate::json::{empty_object, items_of, lemma_trees_push, str_tree, trees, Json, Numeral, Tree};
use crate::outside::{json_read, parse_json};
use crate::text::{opt_str, opt_text, same};

verus! {

/// What the API server acts on in the DeleteOptions of `meta/v1`.
#[derive(Debug)]
pub struct DeleteOptions {
    pub grace_period_seconds: Option<i64>,
    /// `Foreground`, `Background` or `Orphan`; none is the resource's default.
    pub propagation_policy: Option<String>,
    pub precondition_uid: Option<String>,
    pub precondition_rv: Option<String>,
    pub dry_run: bool,
}

/// What [`DeleteOptions`] say.
pub ghost struct OptionsView {
    pub grace_period_seconds: Option<int>,
    pub propagation_policy: Option<Seq<char>>,
    pub precondition_uid: Option<Seq<char>>,
    pub precondition_rv: Option<Seq<char>>,
    pub dry_run: bool,
}

impl View for DeleteOptions {
    type V = OptionsView;

    open spec fn view(&self) -> OptionsView {
        OptionsView {
            grace_period_seconds: match self.grace_period_seconds {
                Some(n) => Some(n as int),
                None => None,
            },
            propagation_policy: opt_text(self.propagation_policy),
            precondition_uid: opt_text(self.precondition_uid),
            precondition_rv: opt_text(self.precondition_rv),
            dry_run: self.dry_run,
        }
    }
}

/// One of the items is the string `s`.
pub open spec fn lists(items: Seq<Tree>, s: Seq<char>) -> bool {
    items.contains(Tree::String(s))
}

/// The options that a document holds.
pub open spec fn options_in(t: Tree) -> OptionsView {
    OptionsView {
        grace_period_seconds: t.at("gracePeriodSeconds"@).integer(),
        propagation_policy: t.at("propagationPolicy"@).text(),
        precondition_uid: t.at("preconditions"@).at("uid"@).text(),
        precondition_rv: t.at("preconditions"@).at("resourceVersion"@).text(),
        dry_run: lists(t.at("dryRun"@).items_or_none(), "All"@),
    }
}

/// Is one of the items the string `s`?
pub fn list_has(items: &Vec<Json>, s: &str) -> (r: bool)
    ensures
        r == lists(trees(items@), s@),
{
    let mut i: usize = 0;
    while i < items.len()
        invariant
            i <= items.len(),
            forall|j: int| 0 <= j < i ==> #[trigger] trees(items@)[j] != Tree::String(s@),
        decreases items.len() - i,
    {
        if items[i].is_text(s) {
            assert(trees(items@)[i as int] == Tree::String(s@));
            return true;
        }
        i = i + 1;
    }
    false
}

fn owned_text(v: &Json) -> (r: Option<String>)
    ensures
        opt_text(r) == v@.text(),
{
    match v.as_str() {
        Some(s) => Some(s.to_owned()),
        None => None,
    }
}

/// Reads the options from a document.
pub fn delete_options(v: &Json) -> (r: DeleteOptions)
    ensures
        r@ == options_in(v@),
{
    let dry_run = match v.at("dryRun") {
        Json::Array(a) => list_has(a, "All"),
        _ => false,
    };
    DeleteOptions {
        grace_period_seconds: v.at("gracePeriodSeconds").as_i64(),
        propagation_policy: owned_text(v.at("propagationPolicy")),
        precondition_uid: owned_text(v.at("preconditions").at("uid")),
        precondition_rv: owned_text(v.at("preconditions").at("resourceVersion")),
        dry_run,
    }
}

/// The options of a request body. A body that is empty, or no JSON, asks for
/// nothing.
pub fn parse_delete_options(body: &[u8]) -> (r: DeleteOptions)
    ensures
        r@ == options_in(
            match json_read(body@) {
                Ok(t) => t,
                Err(_) => Tree::Null,
            },
        ),
{
    match parse_json(body) {
        Ok(v) => delete_options(&v),
        Err(_) => delete_options(&Json::Null),
    }
}

/// The precondition that an object does not meet.
pub open spec fn failed_precondition(obj: Tree, opts: OptionsView) -> Option<ErrorView> {
    let meta = obj.at("metadata"@);
    if opts.precondition_uid is Some && meta.at("uid"@).text() != opts.precondition_uid {
        Some(
            err_conflict(
                "the UID in the precondition no longer matches the UID of the object"@,
            ),
        )
    } else if opts.precondition_rv is Some && meta.at("resourceVersion"@).text()
        != opts.precondition_rv {
        Some(
            err_conflict(
                "the resourceVersion in the precondition no longer matches the object"@,
            ),
        )
    } else {
        None
    }
}

/// Checks the preconditions of the options against the object.
pub fn check_preconditions(obj: &Json, opts: &DeleteOptions) -> (r: Result<(), ApiError>)
    ensures
        match r {
            Ok(_) => failed_precondition(obj@, opts@) is None,
            Err(e) => failed_precondition(obj@, opts@) == Some(e@),
        },
{
    let meta = obj.at("metadata");
    match &opts.precondition_uid {
        Some(uid) => if !meta.at("uid").is_text(uid.as_str()) {
            return Err(
                ApiError::conflict(
                    "the UID in the precondition no longer matches the UID of the object",
                ),
            );
        },
        None => {},
    }
    match &opts.precondition_rv {
        Some(rv) => if !meta.at("resourceVersion").is_text(rv.as_str()) {
            return Err(
                ApiError::conflict(
                    "the resourceVersion in the precondition no longer matches the object",
                ),
            );
        },
        None => {},
    }
    Ok(())
}

/// The finalizers with `name` among them.
pub open spec fn with_finalizer(finalizers: Seq<Tree>, name: Seq<char>) -> Seq<Tree> {
    if lists(finalizers, name) {
        finalizers
    } else {
        finalizers.push(Tree::String(name))
    }
}

/// Adds a finalizer unless it is there.
pub fn ensure_finalizer(finalizers: &mut Vec<Json>, name: &str)
    ensures
        trees(final(finalizers)@) == with_finalizer(trees(old(finalizers)@), name@),
{
    if !list_has(finalizers, name) {
        let v = Json::text(name);
        proof {
            lemma_trees_push(finalizers@, v);
        }
        finalizers.push(v);
    }
}

/// The answer to a deletion that is complete.
pub open spec fn success_status(
    name: Seq<char>,
    namespace: Option<Seq<char>>,
    kind: Seq<char>,
) -> Tree {
    let details = Tree::Object(map!["name"@ => Tree::String(name), "kind"@ => Tree::String(kind)]);
    Tree::Object(
        map![
            "apiVersion"@ => str_tree("v1"),
            "kind"@ => str_tree("Status"),
            "metadata"@ => empty_object(),
            "status"@ => str_tree("Success"),
            "details"@ => match namespace {
                Some(ns) => details.set("namespace"@, Tree::String(ns)),
                None => details,
            },
        ],
    )
}

/// The answer to a deletion that is complete.
pub fn delete_success(name: &str, namespace: Option<&str>, kind: &str) -> (r: Json)
    ensures
        r@ == success_status(name@, opt_str(namespace), kind@),
{
    let mut details = Json::object().with("name", Json::text(name)).with("kind", Json::text(kind));
    match namespace {
        Some(ns) => {
            details.set("namespace", Json::text(ns));
        },
        None => {},
    }
    Json::object().with("apiVersion", Json::text("v1")).with("kind", Json::text("Status")).with(
        "metadata",
        Json::object(),
    ).with("status", Json::text("Success")).with("details", details)
}

// ---------------------------------------------------------------------------
// Deleting
// ---------------------------------------------------------------------------

/// What a deletion does to the store, and what it answers.
pub enum DeleteAction {
    /// Nothing is stored: the answer.
    Answer(Json),
    /// The object is written, marked for deletion, on condition of a revision,
    /// and is the answer.
    Mark(Json, Option<u64>),
    /// The object is removed; `release` says that it is a Service whose address
    /// is to be given back first.
    Remove { release: bool, answer: Json },
}

/// What a [`DeleteAction`] says.
pub ghost enum ActionView {
    Answer(Tree),
    Mark(Tree, Option<nat>),
    Remove { release: bool, answer: Tree },
}

impl View for DeleteAction {
    type V = ActionView;

    open spec fn view(&self) -> ActionView {
        match self {
            DeleteAction::Answer(v) => ActionView::Answer(v@),
            DeleteAction::Mark(v, rev) => ActionView::Mark(v@, opt_nat(*rev)),
            DeleteAction::Remove { release, answer } => ActionView::Remove {
                release: *release,
                answer: answer@,
            },
        }
    }
}

/// The finalizers that an object must outlive: those that it has, and the one
/// that the propagation policy implies.
pub open spec fn pending_finalizers(obj: Tree, opts: OptionsView) -> Seq<Tree> {
    let has = obj.at("metadata"@).at("finalizers"@).items_or_none();
    if opts.propagation_policy == Some("Foreground"@) {
        with_finalizer(has, "foregroundDeletion"@)
    } else if opts.propagation_policy == Some("Orphan"@) {
        with_finalizer(has, "orphan"@)
    } else {
        has
    }
}

/// The object as it is marked for deletion: the time of the first mark stays.
pub open spec fn marked(obj: Tree, opts: OptionsView, now: Seq<char>) -> Tree {
    let meta = obj.at("metadata"@);
    let timed = if meta.at("deletionTimestamp"@) is Null {
        meta.set("deletionTimestamp"@, Tree::String(now))
    } else {
        meta
    };
    let graced = match opts.grace_period_seconds {
        Some(g) => timed.set("deletionGracePeriodSeconds"@, Tree::Number(Numeral::of(g))),
        None => timed,
    };
    obj.set(
        "metadata"@,
        graced.set("finalizers"@, Tree::Array(pending_finalizers(obj, opts))),
    )
}

/// What a deletion does: with finalizers pending the object is marked, without
/// any it goes; a dry run does nothing.
pub open spec fn deletion(
    obj: Tree,
    opts: OptionsView,
    name: Seq<char>,
    namespace: Option<Seq<char>>,
    kind: Seq<char>,
    now: Seq<char>,
) -> Result<ActionView, ErrorView> {
    let pending = pending_finalizers(obj, opts).len() > 0;
    match failed_precondition(obj, opts) {
        Some(e) => Err(e),
        None => Ok(
            if opts.dry_run {
                if pending {
                    ActionView::Answer(obj)
                } else {
                    ActionView::Answer(success_status(name, namespace, kind))
                }
            } else if pending {
                ActionView::Mark(marked(obj, opts, now), named_revision(obj))
            } else {
                ActionView::Remove {
                    release: kind == "services"@,
                    answer: success_status(name, namespace, kind),
                }
            },
        ),
    }
}

proof fn lemma_mark_keeps_the_revision(obj: Tree, opts: OptionsView, now: Seq<char>)
    requires
        obj.settable(),
        obj.at("metadata"@).settable(),
    ensures
        named_revision(marked(obj, opts, now)) == named_revision(obj),
{
    reveal_strlit("resourceVersion");
    reveal_strlit("deletionTimestamp");
    reveal_strlit("deletionGracePeriodSeconds");
    reveal_strlit("finalizers");
    assert("resourceVersion"@.len() == 15);
    assert("deletionTimestamp"@.len() == 17);
    assert("deletionGracePeriodSeconds"@.len() == 26);
    assert("finalizers"@.len() == 10);
}

/// Decides what the deletion of an object does.
pub fn perform_delete(
    obj: Json,
    opts: &DeleteOptions,
    name: &str,
    namespace: Option<&str>,
    kind: &str,
    now: &str,
) -> (r: Result<DeleteAction, ApiError>)
    requires
        !opts.dry_run && pending_finalizers(obj@, opts@).len() > 0 ==> obj@.settable() && obj@.at(
            "metadata"@,
        ).settable(),
    ensures
        match r {
            Ok(a) => deletion(obj@, opts@, name@, opt_str(namespace), kind@, now@) == Ok::<
                ActionView,
                ErrorView,
            >(a@),
            Err(e) => deletion(obj@, opts@, name@, opt_str(namespace), kind@, now@) == Err::<
                ActionView,
                ErrorView,
            >(e@),
        },
{
    match check_preconditions(&obj, opts) {
        Ok(_) => {},
        Err(e) => {
            return Err(e);
        },
    }
    let mut finalizers = items_of(obj.at("metadata").at("finalizers"));
    match &opts.propagation_policy {
        Some(p) => {
            if same(p.as_str(), "Foreground") {
                ensure_finalizer(&mut finalizers, "foregroundDeletion");
            } else if same(p.as_str(), "Orphan") {
                ensure_finalizer(&mut finalizers, "orphan");
            }
        },
        None => {},
    }
    assert(trees(finalizers@) == pending_finalizers(obj@, opts@));
    assert(trees(finalizers@).len() == finalizers@.len());
    let pending = finalizers.len() > 0;
    if opts.dry_run {
        return Ok(
            if pending {
                DeleteAction::Answer(obj)
            } else {
                DeleteAction::Answer(delete_success(name, namespace, kind))
            },
        );
    }
    if pending {
        proof {
            lemma_mark_keeps_the_revision(obj@, opts@, now@);
        }
        let mut meta = obj.at("metadata").dup();
        if meta.at("deletionTimestamp").is_null() {
            meta.set("deletionTimestamp", Json::text(now));
        }
        match opts.grace_period_seconds {
            Some(g) => {
                meta.set("deletionGracePeriodSeconds", Json::int_value(g));
            },
            None => {},
        }
        meta.set("finalizers", Json::Array(finalizers));
        let mut out = obj;
        out.set("metadata", meta);
        let rev = revision_of(&out);
        return Ok(DeleteAction::Mark(out, rev));
    }
    Ok(
        DeleteAction::Remove {
            release: same(kind, "services"),
            answer: delete_success(name, namespace, kind),
        },
    )
}

/// An object with a finalizer is not removed.
pub proof fn law_finalizers_hold_the_object(
    obj: Tree,
    opts: OptionsView,
    name: Seq<char>,
    namespace: Option<Seq<char>>,
    kind: Seq<char>,
    now: Seq<char>,
)
    requires
        obj.at("metadata"@).at("finalizers"@).items_or_none().len() > 0,
    ensures
        !(deletion(obj, opts, name, namespace, kind, now) matches Ok(ActionView::Remove { .. })),
{
}

/// The write that empties the finalizers of an object that was marked is its
/// deletion, and no write that leaves one is. A namespace is held by its own
/// finalizers besides.
pub proof fn law_the_last_finalizer_is_the_delete(
    obj: Tree,
    opts: OptionsView,
    now: Seq<char>,
    left: Seq<Tree>,
)
    requires
        obj.settable(),
        obj.at("metadata"@).settable(),
        obj.at("metadata"@).at("deletionTimestamp"@) is Null || obj.at("metadata"@).at(
            "deletionTimestamp"@,
        ) is String,
    ensures
        ({
            let held = marked(obj, opts, now);
            let meta = held.at("metadata"@).set("finalizers"@, Tree::Array(left));
            finalized(held.set("metadata"@, meta)) <==> left.len() == 0 && !held_namespace(obj)
        }),
{
    reveal_strlit("deletionTimestamp");
    reveal_strlit("deletionGracePeriodSeconds");
    reveal_strlit("finalizers");
    assert("deletionTimestamp"@.len() == 17);
    assert("deletionGracePeriodSeconds"@.len() == 26);
    assert("finalizers"@.len() == 10);
    lemma_sections_differ();
    reveal_strlit("kind");
    reveal_strlit("apiVersion");
    assert("kind"@.len() == 4);
    assert("apiVersion"@.len() == 10);
}

/// A dry run stores nothing.
pub proof fn law_a_dry_run_stores_nothing(
    obj: Tree,
    opts: OptionsView,
    name: Seq<char>,
    namespace: Option<Seq<char>>,
    kind: Seq<char>,
    now: Seq<char>,
)
    requires
        opts.dry_run,
    ensures
        match deletion(obj, opts, name, namespace, kind, now) {
            Ok(a) => a is Answer,
            Err(_) => true,
        },
{
}

// ---------------------------------------------------------------------------
// Namespaces
// ---------------------------------------------------------------------------

/// A namespace as it is marked for termination: a deletion time, the phase
/// `Terminating`, and the `kubernetes` finalizer.
pub open spec fn terminating(ns: Tree, now: Seq<char>) -> Tree {
    let spec = ns.at("spec"@);
    let timed = ns.set(
        "metadata"@,
        ns.at("metadata"@).as_object().set("deletionTimestamp"@, Tree::String(now)),
    );
    let phased = timed.set(
        "status"@,
        ns.at("status"@).as_object().set("phase"@, str_tree("Terminating")),
    );
    phased.set(
        "spec"@,
        spec.as_object().set(
            "finalizers"@,
            Tree::Array(with_finalizer(spec.at("finalizers"@).items_or_none(), "kubernetes"@)),
        ),
    )
}

/// What the deletion of a namespace does: it is marked, and removed once it is
/// terminating and has no finalizers.
pub open spec fn namespace_deletion(obj: Tree, opts: OptionsView, now: Seq<char>) -> Result<
    ActionView,
    ErrorView,
> {
    match failed_precondition(obj, opts) {
        Some(e) => Err(e),
        None => Ok(
            if opts.dry_run {
                ActionView::Answer(obj)
            } else if obj.at("metadata"@).at("deletionTimestamp"@) is String && obj.at(
                "spec"@,
            ).at("finalizers"@).items_or_none().len() == 0 {
                ActionView::Remove { release: false, answer: obj }
            } else {
                ActionView::Mark(terminating(obj, now), named_revision(terminating(obj, now)))
            },
        ),
    }
}

proof fn lemma_sections_differ()
    ensures
        "metadata"@ != "status"@,
        "metadata"@ != "spec"@,
        "status"@ != "spec"@,
{
    reveal_strlit("metadata");
    reveal_strlit("status");
    reveal_strlit("spec");
    assert("metadata"@.len() == 8);
    assert("status"@.len() == 6);
    assert("spec"@.len() == 4);
}

/// Decides what the deletion of a namespace does.
pub fn terminate_namespace(obj: Json, opts: &DeleteOptions, now: &str) -> (r: Result<
    DeleteAction,
    ApiError,
>)
    requires
        obj@.settable(),
    ensures
        match r {
            Ok(a) => namespace_deletion(obj@, opts@, now@) == Ok::<ActionView, ErrorView>(a@),
            Err(e) => namespace_deletion(obj@, opts@, now@) == Err::<ActionView, ErrorView>(e@),
        },
{
    match check_preconditions(&obj, opts) {
        Ok(_) => {},
        Err(e) => {
            return Err(e);
        },
    }
    if opts.dry_run {
        return Ok(DeleteAction::Answer(obj));
    }
    let mut finalizers = items_of(obj.at("spec").at("finalizers"));
    let empty = finalizers.len() == 0;
    if obj.at("metadata").at("deletionTimestamp").is_string() && empty {
        return Ok(DeleteAction::Remove { release: false, answer: obj });
    }
    proof {
        lemma_sections_differ();
    }
    let mut meta = obj.at("metadata").dup();
    meta.make_object();
    meta.set("deletionTimestamp", Json::text(now));
    let mut status = obj.at("status").dup();
    status.make_object();
    status.set("phase", Json::text("Terminating"));
    ensure_finalizer(&mut finalizers, "kubernetes");
    let mut spec = obj.at("spec").dup();
    spec.make_object();
    spec.set("finalizers", Json::Array(finalizers));
    let mut ns = obj;
    ns.set("metadata", meta);
    ns.set("status", status);
    ns.set("spec", spec);
    let rev = revision_of(&ns);
    Ok(DeleteAction::Mark(ns, rev))
}

/// A namespace with the finalizers that its controller submits.
pub open spec fn with_finalizers(ns: Tree, body: Tree) -> Tree {
    ns.set(
        "spec"@,
        ns.at("spec"@).as_object().set(
            "finalizers"@,
            Tree::Array(body.at("spec"@).at("finalizers"@).items_or_none()),
        ),
    )
}

/// What finalizing a namespace does: the submitted finalizers are written, and
/// where none are left of a namespace that is being deleted, it is removed.
pub open spec fn finalization(obj: Tree, body: Tree) -> ActionView {
    let ns = with_finalizers(obj, body);
    if body.at("spec"@).at("finalizers"@).items_or_none().len() == 0 && ns.at("metadata"@).at(
        "deletionTimestamp"@,
    ) is String {
        ActionView::Remove { release: false, answer: ns }
    } else {
        ActionView::Mark(ns, named_revision(ns))
    }
}

/// Applies the finalizers that the namespace controller submits.
pub fn finalize_namespace(obj: Json, body: &Json) -> (r: DeleteAction)
    requires
        obj@.settable(),
    ensures
        r@ == finalization(obj@, body@),
{
    let submitted = items_of(body.at("spec").at("finalizers"));
    let empty = submitted.len() == 0;
    let mut spec = obj.at("spec").dup();
    spec.make_object();
    spec.set("finalizers", Json::Array(submitted));
    let mut ns = obj;
    ns.set("spec", spec);
    if empty && ns.at("metadata").at("deletionTimestamp").is_string() {
        return DeleteAction::Remove { release: false, answer: ns };
    }
    let rev = revision_of(&ns);
    DeleteAction::Mark(ns, rev)
}

/// A namespace ends: its deletion marks it, finalizing it without finalizers
/// removes it.
pub proof fn law_a_namespace_ends(ns: Tree, opts: OptionsView, now: Seq<char>, body: Tree)
    requires
        ns.settable(),
        failed_precondition(ns, opts) is None,
        !opts.dry_run,
        body.at("spec"@).at("finalizers"@).items_or_none().len() == 0,
    ensures
        match namespace_deletion(ns, opts, now) {
            Ok(ActionView::Mark(marked_ns, _)) => finalization(marked_ns, body) is Remove,
            Ok(a) => a is Remove,
            Err(_) => false,
        },
{
    lemma_sections_differ();
    let t = terminating(ns, now);
    assert(t.at("metadata"@).at("deletionTimestamp"@) == Tree::String(now));
    assert(with_finalizers(t, body).at("metadata"@) == t.at("metadata"@));
}

/// A namespace that is terminating says so, and outlives its contents: it
/// carries the `kubernetes` finalizer, admission lets nothing new in, and no write
/// but `/finalize` removes it.
pub proof fn law_a_terminating_namespace_is_held(ns: Tree, now: Seq<char>, name: Seq<char>)
    requires
        ns.settable(),
    ensures
        terminating(ns, now).at("status"@).at("phase"@) == str_tree("Terminating"),
        lists(terminating(ns, now).at("spec"@).at("finalizers"@).items_or_none(), "kubernetes"@),
        lifecycle(name, Some(terminating(ns, now))) is Err,
        ns.at("apiVersion"@) == str_tree("v1") && ns.at("kind"@) == str_tree("Namespace")
            ==> !finalized(terminating(ns, now)),
{
    lemma_sections_differ();
    reveal_strlit("kind");
    reveal_strlit("apiVersion");
    reveal_strlit("spec");
    reveal_strlit("metadata");
    reveal_strlit("status");
    assert("metadata"@.len() == 8);
    assert("status"@.len() == 6);
    assert("spec"@.len() == 4);
    assert("kind"@.len() == 4);
    assert("kind"@[0] == 'k');
    assert("spec"@[0] == 's');
    assert("apiVersion"@.len() == 10);
    let has = ns.at("spec"@).at("finalizers"@).items_or_none();
    let with = with_finalizer(has, "kubernetes"@);
    if !lists(has, "kubernetes"@) {
        assert(with[has.len() as int] == Tree::String("kubernetes"@));
    }
    let t = terminating(ns, now);
    assert(lists(with, "kubernetes"@));
    assert(t.at("spec"@).at("finalizers"@).items_or_none() == with);
    assert(with.len() > 0);
    assert(t.at("kind"@) == ns.at("kind"@));
    assert(t.at("apiVersion"@) == ns.at("apiVersion"@));
}

/// The options of a delete are what its body says.
pub proof fn law_options_are_what_the_body_says(t: Tree)
    ensures
        options_in(t).dry_run <==> t.at("dryRun"@).items_or_none().contains(str_tree("All")),
        t.at("propagationPolicy"@) is String ==> options_in(t).propagation_policy == Some(
            t.at("propagationPolicy"@)->String_0,
        ),
        t.at("propagationPolicy"@) is Null ==> options_in(t).propagation_policy is None,
        t.at("preconditions"@).at("uid"@) is String ==> options_in(t).precondition_uid == Some(
            t.at("preconditions"@).at("uid"@)->String_0,
        ),
        t.at("preconditions"@).at("resourceVersion"@) is String ==> options_in(t).precondition_rv
            == Some(t.at("preconditions"@).at("resourceVersion"@)->String_0),
        t.at("preconditions"@) is Null ==> options_in(t).precondition_uid is None && options_in(
            t,
        ).precondition_rv is None,
        forall|n: int|
            t.at("gracePeriodSeconds"@).integer() == Some(n) ==> options_in(
                t,
            ).grace_period_seconds == Some(n),
{
}

/// A delete on a condition deletes that object alone: of another identity or another
/// version it is a conflict, and nothing is done.
pub proof fn law_a_precondition_guards_a_delete(
    obj: Tree,
    opts: OptionsView,
    name: Seq<char>,
    namespace: Option<Seq<char>>,
    kind: Seq<char>,
    now: Seq<char>,
)
    ensures
        opts.precondition_uid is Some && obj.at("metadata"@).at("uid"@) != Tree::String(
            opts.precondition_uid->0,
        ) ==> deletion(obj, opts, name, namespace, kind, now) is Err && deletion(
            obj,
            opts,
            name,
            namespace,
            kind,
            now,
        )->Err_0.status == 409,
        opts.precondition_rv is Some && obj.at("metadata"@).at("resourceVersion"@) != Tree::String(
            opts.precondition_rv->0,
        ) ==> deletion(obj, opts, name, namespace, kind, now) is Err && deletion(
            obj,
            opts,
            name,
            namespace,
            kind,
            now,
        )->Err_0.status == 409,
        (opts.precondition_uid is None || obj.at("metadata"@).at("uid"@) == Tree::String(
            opts.precondition_uid->0,
        )) && (opts.precondition_rv is None || obj.at("metadata"@).at("resourceVersion"@)
            == Tree::String(opts.precondition_rv->0)) ==> deletion(
            obj,
            opts,
            name,
            namespace,
            kind,
            now,
        ) is Ok,
{
}

/// A delete removes an object that nothing holds, and the address of a Service is given
/// back with it. Where dependents are to go first, or to be left, the object is marked and
/// held by the finalizer for that, beside those that it has.
pub proof fn law_a_delete_removes_or_marks(
    obj: Tree,
    opts: OptionsView,
    name: Seq<char>,
    namespace: Option<Seq<char>>,
    kind: Seq<char>,
    now: Seq<char>,
    finalizer: Tree,
)
    requires
        obj.settable(),
        obj.at("metadata"@).settable(),
        !opts.dry_run,
        opts.precondition_uid is None,
        opts.precondition_rv is None,
    ensures
        obj.at("metadata"@).at("finalizers"@).items_or_none().len() == 0
            && opts.propagation_policy != Some("Foreground"@) && opts.propagation_policy != Some(
            "Orphan"@,
        ) ==> (deletion(obj, opts, name, namespace, kind, now) matches Ok(ActionView::Remove {
            release,
            answer,
        }) && (release <==> kind == "services"@)),
        opts.propagation_policy == Some("Foreground"@) || opts.propagation_policy == Some(
            "Orphan"@,
        ) || obj.at("metadata"@).at("finalizers"@).items_or_none().len() > 0 ==> (deletion(
            obj,
            opts,
            name,
            namespace,
            kind,
            now,
        ) matches Ok(ActionView::Mark(m, _)) && {
            let has = obj.at("metadata"@).at("finalizers"@).items_or_none();
            let holds = m.at("metadata"@).at("finalizers"@).items_or_none();
            &&& has.contains(finalizer) ==> holds.contains(finalizer)
            &&& opts.propagation_policy == Some("Foreground"@) ==> holds.contains(
                str_tree("foregroundDeletion"),
            )
            &&& opts.propagation_policy == Some("Orphan"@) ==> holds.contains(str_tree("orphan"))
            &&& !(obj.at("metadata"@).at("deletionTimestamp"@) is Null) ==> m.at("metadata"@).at(
                "deletionTimestamp"@,
            ) == obj.at("metadata"@).at("deletionTimestamp"@)
            &&& obj.at("metadata"@).at("deletionTimestamp"@) is Null ==> m.at("metadata"@).at(
                "deletionTimestamp"@,
            ) == Tree::String(now)
            &&& m.at("spec"@) == obj.at("spec"@)
        }),
{
    reveal_strlit("metadata");
    reveal_strlit("spec");
    reveal_strlit("finalizers");
    reveal_strlit("deletionTimestamp");
    reveal_strlit("deletionGracePeriodSeconds");
    reveal_strlit("Foreground");
    reveal_strlit("Orphan");
    assert("metadata"@.len() == 8);
    assert("spec"@.len() == 4);
    assert("finalizers"@.len() == 10);
    assert("deletionTimestamp"@.len() == 17);
    assert("deletionGracePeriodSeconds"@.len() == 26);
    assert("Foreground"@.len() == 10);
    assert("Orphan"@.len() == 6);
    assert("finalizers"@[0] == 'f');
    assert("Foreground"@[0] == 'F');
    let has = obj.at("metadata"@).at("finalizers"@).items_or_none();
    lemma_finalizer_added(has, "foregroundDeletion"@, finalizer);
    lemma_finalizer_added(has, "orphan"@, finalizer);
}

proof fn lemma_finalizer_added(has: Seq<Tree>, name: Seq<char>, finalizer: Tree)
    ensures
        with_finalizer(has, name).contains(Tree::String(name)),
        with_finalizer(has, name).len() > 0,
        has.contains(finalizer) ==> with_finalizer(has, name).contains(finalizer),
        with_finalizer(has, name).contains(finalizer) ==> has.contains(finalizer) || finalizer
            == Tree::String(name),
{
    let all = with_finalizer(has, name);
    if !lists(has, name) {
        assert(all[has.len() as int] == Tree::String(name));
    } else {
        let i = has.index_of(Tree::String(name));
        assert(has[i] == Tree::String(name));
    }
    if has.contains(finalizer) {
        let i = has.index_of(finalizer);
        assert(all[i] == finalizer);
    }
    if all.contains(finalizer) && finalizer != Tree::String(name) {
        let i = all.index_of(finalizer);
        assert(has[i] == finalizer);
    }
}

/// A namespace is given up by the finalizers that are handed in: it stays as long as one is
/// left, and holds exactly those.
pub proof fn law_a_namespace_holds_what_is_handed_in(obj: Tree, body: Tree)
    requires
        obj.settable(),
    ensures
        body.at("spec"@).at("finalizers"@).items_or_none().len() > 0 ==> (finalization(obj, body)
            matches ActionView::Mark(m, _) && m.at("spec"@).at("finalizers"@).items_or_none()
            == body.at("spec"@).at("finalizers"@).items_or_none() && m.at("metadata"@) == obj.at(
            "metadata"@,
        )),
        !(obj.at("metadata"@).at("deletionTimestamp"@) is String) ==> finalization(obj, body) is Mark,
{
    lemma_sections_differ();
}

/// A namespace that is deleted is marked, is terminating, and is held by the finalizer that
/// empties it; one that has been emptied goes.
pub proof fn law_a_namespace_is_emptied_first(
    obj: Tree,
    opts: OptionsView,
    now: Seq<char>,
    finalizer: Tree,
)
    requires
        obj is Object,
        opts.precondition_uid is None,
        opts.precondition_rv is None,
    ensures
        ({
            let r = namespace_deletion(obj, opts, now);
            let had = obj.at("spec"@).at("finalizers"@).items_or_none();
            let gone = obj.at("metadata"@).at("deletionTimestamp"@) is String && had.len() == 0;
            &&& r is Ok
            &&& opts.dry_run ==> r->Ok_0 == ActionView::Answer(obj)
            &&& !opts.dry_run && gone ==> r->Ok_0 is Remove
            &&& !opts.dry_run && !gone ==> (r->Ok_0 matches ActionView::Mark(m, _) && {
                let has = m.at("spec"@).at("finalizers"@).items_or_none();
                &&& m.at("status"@).at("phase"@) == str_tree("Terminating")
                &&& m.at("metadata"@).at("deletionTimestamp"@) == Tree::String(now)
                &&& has.contains(str_tree("kubernetes"))
                &&& had.contains(finalizer) ==> has.contains(finalizer)
            })
        }),
{
    lemma_sections_differ();
    lemma_finalizer_added(
        obj.at("spec"@).at("finalizers"@).items_or_none(),
        "kubernetes"@,
        finalizer,
    );
}

/// A dry run says what would be done and does nothing of it; a delete is answered with what was
/// deleted, and a mark is written only over the version that was read.
pub proof fn law_a_delete_is_answered(
    obj: Tree,
    opts: OptionsView,
    name: Seq<char>,
    namespace: Option<Seq<char>>,
    kind: Seq<char>,
    now: Seq<char>,
)
    requires
        opts.precondition_uid is None,
        opts.precondition_rv is None,
    ensures
        opts.dry_run ==> deletion(obj, opts, name, namespace, kind, now) is Ok && deletion(
            obj,
            opts,
            name,
            namespace,
            kind,
            now,
        )->Ok_0 is Answer,
        ({
            let s = success_status(name, namespace, kind);
            &&& s.at("kind"@) == str_tree("Status")
            &&& s.at("status"@) == str_tree("Success")
            &&& s.at("details"@).at("name"@) == Tree::String(name)
            &&& s.at("details"@).at("kind"@) == Tree::String(kind)
            &&& namespace is Some ==> s.at("details"@).at("namespace"@) == Tree::String(
                namespace->0,
            )
        }),
        (deletion(obj, opts, name, namespace, kind, now) matches Ok(ActionView::Mark(_, rev)) ==> rev
            == named_revision(obj)),
        opts.grace_period_seconds is Some && obj.settable() && obj.at("metadata"@).settable()
            ==> marked(obj, opts, now).at("metadata"@).at("deletionGracePeriodSeconds"@)
            == Tree::Number(Numeral::of(opts.grace_period_seconds->0)),
{
    reveal_strlit("apiVersion");
    reveal_strlit("kind");
    reveal_strlit("metadata");
    reveal_strlit("status");
    reveal_strlit("details");
    reveal_strlit("name");
    reveal_strlit("namespace");
    reveal_strlit("finalizers");
    reveal_strlit("deletionTimestamp");
    reveal_strlit("deletionGracePeriodSeconds");
    assert("apiVersion"@.len() == 10);
    assert("kind"@.len() == 4);
    assert("metadata"@.len() == 8);
    assert("status"@.len() == 6);
    assert("details"@.len() == 7);
    assert("name"@.len() == 4);
    assert("namespace"@.len() == 9);
    assert("finalizers"@.len() == 10);
    assert("deletionTimestamp"@.len() == 17);
    assert("deletionGracePeriodSeconds"@.len() == 26);
    assert("apiVersion"@[0] == 'a');
    assert("finalizers"@[0] == 'f');
    assert("kind"@[0] == 'k');
    assert("name"@[0] == 'n');
}

} // verus!
