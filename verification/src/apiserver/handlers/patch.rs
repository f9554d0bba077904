//! PATCH: reading a patch by its content type, applying it, and storing the
//! result against concurrent writers.

use vstd::prelude::*;
use vstd::string::*;

use crate::apimachinery::meta::law_revision_round_trip;
use crate::apiserver::apply::{apply_conflict, apply_result, server_side_apply, ConflictView};
use crate::apiserver::error::{err_conflict, err_invalid, ApiError, ErrorView, NOT_FOUND};
use crate::apiserver::handlers::resource::{
    finalized, keep_server_fields, named_revision, opt_nat, persist_or_finalize,
    with_server_fields, Persist,
};
use crate::apiserver::storage::at_revision;
use crate::decimal::dec;
use crate::json::{
    empty_object, key_order, lemma_trees_push, opt_tree, str_tree, trees, Json, Object, Tree,
};
use crate::merge::{merge, merged, strategic, strategic_merge};
use crate::outside::{
    apply_operations, form_pairs, json_read, lossy_text, pair_texts, parse_json, patch_result,
    parse_yaml, query_pairs, random_number, text_of_bytes, yaml_read, PatchFailure,
    PatchFailureView,
};
use crate::pointer::{at_pointer, pointer};
use crate::text::{
    law_found_at_the_last, lemma_split_push, lemma_split_whole, opt_str, opt_text, rfind,
    rfind_text, same, split, split_on, texts, trim, trimmed_text,
};

verus! {

// ---------------------------------------------------------------------------
// Content types
// ---------------------------------------------------------------------------

/// The kinds of patch.
#[derive(Clone, Copy, Debug, PartialEq, Eq, Structural)]
pub enum PatchKind {
    /// RFC 6902: a list of operations.
    JsonPatch,
    /// Server-side apply.
    Apply,
    /// A strategic merge patch.
    Strategic,
    /// RFC 7386; also what is not recognized.
    Merge,
}

/// The media type of a content type, without its parameters.
pub open spec fn media_type(content_type: Seq<char>) -> Seq<char> {
    trimmed_text(split(content_type, ';')[0])
}

/// The kind of patch that a content type names.
pub open spec fn patch_kind(content_type: Seq<char>) -> PatchKind {
    let m = media_type(content_type);
    if m == "application/json-patch+json"@ {
        PatchKind::JsonPatch
    } else if m == "application/apply-patch+yaml"@ {
        PatchKind::Apply
    } else if m == "application/strategic-merge-patch+json"@ {
        PatchKind::Strategic
    } else {
        PatchKind::Merge
    }
}

/// The kind of patch that a content type names.
pub fn kind_of_patch(content_type: &str) -> (r: PatchKind)
    ensures
        r == patch_kind(content_type@),
{
    let pieces = split_on(content_type, ';');
    assert(texts(pieces@)[0] == pieces@[0]@);
    let m = trim(pieces[0].as_str());
    if same(m, "application/json-patch+json") {
        PatchKind::JsonPatch
    } else if same(m, "application/apply-patch+yaml") {
        PatchKind::Apply
    } else if same(m, "application/strategic-merge-patch+json") {
        PatchKind::Strategic
    } else {
        PatchKind::Merge
    }
}

// ---------------------------------------------------------------------------
// JSON Patch, as leniently as kube-apiserver takes it
// ---------------------------------------------------------------------------

/// The operation, the path and the value of a patch operation.
pub open spec fn op_name(op: Tree) -> Option<Seq<char>> {
    op.at("op"@).text()
}

/// A value that stands for nothing: absent, null, or empty.
pub open spec fn nothing(v: Option<Tree>) -> bool {
    match v {
        None => true,
        Some(Tree::Null) => true,
        Some(Tree::Array(a)) => a.len() == 0,
        Some(Tree::Object(m)) => key_order(m).len() == 0,
        _ => false,
    }
}

/// A test that holds because nothing is expected at a path where nothing is.
pub open spec fn vacuous_test(target: Tree, op: Tree) -> bool {
    &&& op_name(op) == Some("test"@)
    &&& nothing(op.get("value"@))
    &&& op.at("path"@).text() is Some
    &&& at_pointer(target, op.at("path"@).text()->0) is None
}

/// The operations that do not hold vacuously.
pub open spec fn kept_ops(target: Tree, ops: Seq<Tree>) -> Seq<Tree>
    decreases ops.len(),
{
    if ops.len() == 0 {
        Seq::empty()
    } else {
        let rest = kept_ops(target, ops.drop_last());
        if vacuous_test(target, ops.last()) {
            rest
        } else {
            rest.push(ops.last())
        }
    }
}

/// The pointer to the place that holds what a pointer leads to; empty for the
/// document itself.
pub open spec fn parent_pointer(path: Seq<char>) -> Seq<char> {
    match rfind(path, "/"@) {
        Some(i) => path.take(i),
        None => Seq::empty(),
    }
}

/// A `replace` of a member that is absent from a place that is there is an
/// `add`.
pub open spec fn eased_op(target: Tree, op: Tree) -> Tree {
    match op.at("path"@).text() {
        Some(path) => if op_name(op) == Some("replace"@) && at_pointer(target, path) is None && (
        parent_pointer(path).len() == 0 || at_pointer(target, parent_pointer(path)) is Some) {
            op.set("op"@, str_tree("add"))
        } else {
            op
        },
        None => op,
    }
}

/// The operations as they are applied: without the tests that hold because
/// nothing is there, and with `replace` eased to `add`.
pub open spec fn normalized(target: Tree, ops: Tree) -> Tree {
    match ops {
        Tree::Array(a) => Tree::Array(
            kept_ops(target, a).map_values(|op: Tree| eased_op(target, op)),
        ),
        _ => ops,
    }
}

fn is_nothing(v: Option<&Json>) -> (r: bool)
    ensures
        r == nothing(opt_tree(v)),
{
    let v = match v {
        Some(v) => v,
        None => {
            return true;
        },
    };
    match v {
        Json::Null => true,
        Json::Array(a) => {
            assert(trees(a@).len() == a@.len());
            a.len() == 0
        },
        Json::Object(o) => {
            let n: usize = o.len();
            n == 0
        },
        _ => false,
    }
}

fn holds_vacuously(target: &Json, op: &Json) -> (r: bool)
    ensures
        r == vacuous_test(target@, op@),
{
    if !op.at("op").is_text("test") {
        return false;
    }
    if !is_nothing(op.get("value")) {
        return false;
    }
    match op.at("path").as_str() {
        Some(p) => pointer(target, p).is_none(),
        None => false,
    }
}

fn ease(target: &Json, op: &Json) -> (r: Json)
    ensures
        r@ == eased_op(target@, op@),
{
    let mut out = op.dup();
    if !op.at("op").is_text("replace") {
        return out;
    }
    let path = match op.at("path").as_str() {
        Some(p) => p,
        None => {
            return out;
        },
    };
    if pointer(target, path).is_some() {
        return out;
    }
    let parent_there = match rfind_text(path, "/") {
        Some(i) => {
            let parent = path.substring_char(0, i);
            assert(parent@ =~= path@.take(i as int));
            i == 0 || pointer(target, parent).is_some()
        },
        None => true,
    };
    if parent_there {
        out.set("op", Json::text("add"));
    }
    out
}

/// Reads a list of operations as leniently as kube-apiserver does: a `test`
/// for nothing holds where nothing is, and a `replace` of an absent member of
/// something present adds it.
pub fn normalize_json_patch(target: &Json, ops: &mut Json)
    ensures
        final(ops)@ == normalized(target@, old(ops)@),
{
    let out: Vec<Json> = match ops {
        Json::Array(a) => {
            let ghost ts = trees(a@);
            let mut out: Vec<Json> = Vec::new();
            let mut i: usize = 0;
            let ghost f = |op: Tree| eased_op(target@, op);
            assert(trees(out@) =~= kept_ops(target@, ts.take(0)).map_values(f));
            while i < a.len()
                invariant
                    i <= a.len(),
                    ts == trees(a@),
                    f == (|op: Tree| eased_op(target@, op)),
                    trees(out@) == kept_ops(target@, ts.take(i as int)).map_values(f),
                decreases a.len() - i,
            {
                let op = &a[i];
                proof {
                    assert(ts.take(i + 1).drop_last() =~= ts.take(i as int));
                    assert(ts.take(i + 1).last() == op@);
                }
                if !holds_vacuously(target, op) {
                    let e = ease(target, op);
                    let ghost was = kept_ops(target@, ts.take(i as int));
                    proof {
                        lemma_trees_push(out@, e);
                        assert(was.push(op@).map_values(f) =~= was.map_values(f).push(e@));
                    }
                    out.push(e);
                }
                i = i + 1;
            }
            assert(ts.take(i as int) =~= ts);
            out
        },
        _ => {
            return;
        },
    };
    *ops = Json::Array(out);
}

// ---------------------------------------------------------------------------
// Applying a patch body
// ---------------------------------------------------------------------------

/// The first `n` characters of a text.
pub open spec fn at_most(s: Seq<char>, n: nat) -> Seq<char> {
    if s.len() <= n {
        s
    } else {
        s.take(n as int)
    }
}

/// How many characters of a patch an error quotes.
pub const QUOTED: usize = 400;

/// What the operations of RFC 6902 in `body` make of `target`; `quote` says
/// whether an error quotes the patch.
pub open spec fn operated(target: Tree, body: Seq<u8>, quote: bool) -> Result<Tree, ErrorView> {
    match json_read(body) {
        Err(e) => Err(err_invalid("invalid JSON Patch: "@ + e)),
        Ok(ops) => match patch_result(target, normalized(target, ops)) {
            Ok(t) => Ok(t),
            Err(PatchFailureView::Malformed(e)) => Err(err_invalid("invalid JSON Patch: "@ + e)),
            Err(PatchFailureView::Failed(e)) => Err(
                err_invalid(
                    if quote {
                        "JSON Patch could not be applied: "@ + e + " — patch was: "@ + at_most(
                            lossy_text(body),
                            QUOTED as nat,
                        )
                    } else {
                        "JSON Patch could not be applied: "@ + e
                    },
                ),
            ),
        },
    }
}

/// What a patch body of this kind makes of `target`.
pub open spec fn patched(target: Tree, kind: PatchKind, body: Seq<u8>) -> Result<Tree, ErrorView> {
    match kind {
        PatchKind::JsonPatch => operated(target, body, true),
        PatchKind::Apply => match yaml_read(body) {
            Ok(p) => Ok(merged(target, p)),
            Err(e) => Err(err_invalid("invalid apply patch: "@ + e)),
        },
        PatchKind::Strategic => match json_read(body) {
            Ok(p) => Ok(strategic(target, p)),
            Err(e) => Err(err_invalid("invalid strategic merge patch: "@ + e)),
        },
        PatchKind::Merge => match json_read(body) {
            Ok(p) => Ok(merged(target, p)),
            Err(e) => Err(err_invalid("invalid merge patch: "@ + e)),
        },
    }
}

/// A document after an attempt to change it: changed, or as it was and an
/// error.
pub open spec fn attempted(
    want: Result<Tree, ErrorView>,
    before: Tree,
    after: Tree,
    r: Result<(), ApiError>,
) -> bool {
    match r {
        Ok(_) => want == Ok::<Tree, ErrorView>(after),
        Err(e) => want == Err::<Tree, ErrorView>(e@) && after == before,
    }
}

fn invalid(what: &str, e: &str) -> (r: ApiError)
    ensures
        r@ == err_invalid(what@ + e@),
{
    let m = what.to_owned().concat(e);
    ApiError::invalid(m.as_str())
}

fn operate(target: &mut Json, body: &[u8], quote: bool) -> (r: Result<(), ApiError>)
    ensures
        attempted(operated(old(target)@, body@, quote), old(target)@, final(target)@, r),
{
    let mut ops = match parse_json(body) {
        Ok(v) => v,
        Err(e) => {
            return Err(invalid("invalid JSON Patch: ", e.as_str()));
        },
    };
    normalize_json_patch(target, &mut ops);
    match apply_operations(target, &ops) {
        Ok(v) => {
            *target = v;
            Ok(())
        },
        Err(PatchFailure::Malformed(e)) => Err(invalid("invalid JSON Patch: ", e.as_str())),
        Err(PatchFailure::Failed(e)) => {
            let m = "JSON Patch could not be applied: ".to_owned().concat(e.as_str());
            if !quote {
                return Err(ApiError::invalid(m.as_str()));
            }
            let text = text_of_bytes(body);
            let s = text.as_str();
            let m = m.concat(" — patch was: ");
            let m = if s.unicode_len() <= QUOTED {
                m.concat(s)
            } else {
                let cut = s.substring_char(0, QUOTED);
                assert(cut@ =~= s@.take(QUOTED as int));
                m.concat(cut)
            };
            Err(ApiError::invalid(m.as_str()))
        },
    }
}

/// Applies a patch body to `target` by its content type. A patch that fails
/// leaves `target` as it was.
pub fn apply_patch_body(target: &mut Json, content_type: &str, body: &[u8]) -> (r: Result<
    (),
    ApiError,
>)
    ensures
        attempted(
            patched(old(target)@, patch_kind(content_type@), body@),
            old(target)@,
            final(target)@,
            r,
        ),
{
    match kind_of_patch(content_type) {
        PatchKind::JsonPatch => operate(target, body, true),
        PatchKind::Apply => match parse_yaml(body) {
            Ok(p) => {
                merge(target, &p);
                Ok(())
            },
            Err(e) => Err(invalid("invalid apply patch: ", e.as_str())),
        },
        PatchKind::Strategic => match parse_json(body) {
            Ok(p) => {
                strategic_merge(target, &p);
                Ok(())
            },
            Err(e) => Err(invalid("invalid strategic merge patch: ", e.as_str())),
        },
        PatchKind::Merge => match parse_json(body) {
            Ok(p) => {
                merge(target, &p);
                Ok(())
            },
            Err(e) => Err(invalid("invalid merge patch: ", e.as_str())),
        },
    }
}

/// What the patch of a `/status` subresource makes of an object: nothing but
/// its status is merged. A list of operations is applied to the whole object.
pub open spec fn status_patched(obj: Tree, kind: PatchKind, body: Seq<u8>) -> Result<
    Tree,
    ErrorView,
> {
    match kind {
        PatchKind::JsonPatch => operated(obj, body, false),
        _ => match json_read(body) {
            Err(e) => Err(err_invalid("invalid patch: "@ + e)),
            Ok(p) => Ok(
                match p.get("status"@) {
                    Some(sp) => obj.set(
                        "status"@,
                        if kind == PatchKind::Strategic {
                            strategic(obj.at("status"@), sp)
                        } else {
                            merged(obj.at("status"@), sp)
                        },
                    ),
                    None => obj,
                },
            ),
        },
    }
}

/// Applies the patch of a `/status` subresource: a strategic merge merges the
/// well-known lists, a merge patch follows RFC 7386, and a JSON Patch is a list
/// of operations.
pub fn apply_status_patch(existing: &mut Json, content_type: &str, body: &[u8]) -> (r: Result<
    (),
    ApiError,
>)
    requires
        old(existing)@.settable(),
    ensures
        attempted(
            status_patched(old(existing)@, patch_kind(content_type@), body@),
            old(existing)@,
            final(existing)@,
            r,
        ),
{
    let kind = kind_of_patch(content_type);
    if kind == PatchKind::JsonPatch {
        return operate(existing, body, false);
    }
    let patch = match parse_json(body) {
        Ok(p) => p,
        Err(e) => {
            return Err(invalid("invalid patch: ", e.as_str()));
        },
    };
    match patch.get("status") {
        Some(sp) => {
            let mut status = existing.at("status").dup();
            if kind == PatchKind::Strategic {
                strategic_merge(&mut status, sp);
            } else {
                merge(&mut status, sp);
            }
            existing.set("status", status);
        },
        None => {},
    }
    Ok(())
}

/// A merge patch of the status leaves everything but the status alone.
pub proof fn law_a_status_patch_changes_status_alone(
    obj: Tree,
    kind: PatchKind,
    body: Seq<u8>,
    key: Seq<char>,
)
    requires
        obj is Object,
        kind != PatchKind::JsonPatch,
        key != "status"@,
    ensures
        match status_patched(obj, kind, body) {
            Ok(t) => t.get(key) == obj.get(key),
            Err(_) => true,
        },
{
}

/// A test for nothing at a path where nothing is never fails a patch: it is not
/// applied at all.
pub proof fn law_a_vacuous_test_is_dropped(target: Tree, before: Seq<Tree>, op: Tree)
    requires
        vacuous_test(target, op),
    ensures
        normalized(target, Tree::Array(before.push(op))) == normalized(
            target,
            Tree::Array(before),
        ),
{
    assert(before.push(op).drop_last() =~= before);
}

// ---------------------------------------------------------------------------
// Preconditions
// ---------------------------------------------------------------------------

/// The `resourceVersion` that a patch names, which makes it conditional. A list
/// of operations states its conditions as tests.
pub open spec fn precondition_of(kind: PatchKind, body: Seq<u8>) -> Option<Seq<char>> {
    match kind {
        PatchKind::JsonPatch => None,
        PatchKind::Apply => match yaml_read(body) {
            Ok(t) => t.at("metadata"@).at("resourceVersion"@).some_text(),
            Err(_) => None,
        },
        _ => match json_read(body) {
            Ok(t) => t.at("metadata"@).at("resourceVersion"@).some_text(),
            Err(_) => None,
        },
    }
}

fn named_version(v: &Json) -> (r: Option<String>)
    ensures
        opt_text(r) == v@.at("metadata"@).at("resourceVersion"@).some_text(),
{
    match v.at("metadata").at("resourceVersion").some_str() {
        Some(s) => Some(s.to_owned()),
        None => None,
    }
}

/// The `resourceVersion` that a patch body names, if it names one.
pub fn patch_precondition(content_type: &str, body: &[u8]) -> (r: Option<String>)
    ensures
        opt_text(r) == precondition_of(patch_kind(content_type@), body@),
{
    match kind_of_patch(content_type) {
        PatchKind::JsonPatch => None,
        PatchKind::Apply => match parse_yaml(body) {
            Ok(v) => named_version(&v),
            Err(_) => None,
        },
        _ => match parse_json(body) {
            Ok(v) => named_version(&v),
            Err(_) => None,
        },
    }
}

/// The `resourceVersion` that the body of a status PUT names.
pub fn status_precondition(body: &Json) -> (r: Option<String>)
    ensures
        opt_text(r) == body@.at("metadata"@).at("resourceVersion"@).some_text(),
{
    named_version(body)
}

/// What a status PUT makes of the stored object: its status, and nothing else.
pub open spec fn status_replaced(existing: Tree, body: Tree) -> Tree {
    match body.get("status"@) {
        Some(s) => existing.set("status"@, s),
        None => existing,
    }
}

/// Puts the body's status onto the stored object.
pub fn replace_status(existing: Json, body: &Json) -> (r: Json)
    requires
        existing@.settable(),
    ensures
        r@ == status_replaced(existing@, body@),
{
    let mut out = existing;
    match body.get("status") {
        Some(s) => {
            out.set("status", s.dup());
        },
        None => {},
    }
    out
}

// ---------------------------------------------------------------------------
// Updating against concurrent writers
// ---------------------------------------------------------------------------

/// How long a patch is applied again after another writer came first, in
/// milliseconds.
pub const PATCH_RETRY_BUDGET_MS: u64 = 30000;

/// The version of an object that has been read.
pub open spec fn version_of(obj: Tree) -> Seq<char> {
    obj.at("metadata"@).at("resourceVersion"@).text_or_empty()
}

/// The refusal of an update of a version that is no longer current.
pub open spec fn stale(obj: Tree) -> ErrorView {
    err_conflict(
        "Operation cannot be fulfilled on \""@ + obj.at("metadata"@).at("name"@).text_or_empty()
            + "\": the object has been modified; please apply your changes to the latest version and try again"@,
    )
}

/// Checks the precondition of an update against what has been read.
pub fn check_version(fresh: &Json, precondition: Option<&str>) -> (r: Result<(), ApiError>)
    ensures
        match r {
            Ok(_) => precondition is None || precondition->0@ == version_of(fresh@),
            Err(e) => precondition is Some && precondition->0@ != version_of(fresh@) && e@
                == stale(fresh@),
        },
{
    match precondition {
        Some(want) => {
            let meta = fresh.at("metadata");
            if !same(want, meta.at("resourceVersion").str_or_empty()) {
                let m = "Operation cannot be fulfilled on \"".to_owned().concat(
                    meta.at("name").str_or_empty(),
                ).concat(
                    "\": the object has been modified; please apply your changes to the latest version and try again",
                );
                return Err(ApiError::conflict(m.as_str()));
            }
            Ok(())
        },
        None => Ok(()),
    }
}

/// The identity of an object that has been read, as far as an update keeps it.
pub open spec fn identity_doc(fresh: Tree) -> Tree {
    let meta = fresh.at("metadata"@);
    Tree::Object(
        map![
            "metadata"@ => Tree::Object(map![
                "uid"@ => meta.at("uid"@),
                "creationTimestamp"@ => meta.at("creationTimestamp"@),
            ]),
        ],
    )
}

/// What is stored for an update of `fresh` to `obj`: the identity is that of
/// `fresh`, and so is the version that the write is conditional on.
pub open spec fn sealed(fresh: Tree, obj: Tree) -> Result<Tree, ErrorView> {
    if !(obj.at("metadata"@) is Object) {
        Err(err_invalid("metadata must be an object"@))
    } else {
        let meta = fresh.at("metadata"@);
        let kept = with_server_fields(
            obj,
            identity_doc(fresh),
            meta.at("name"@).text_or_empty(),
            meta.at("namespace"@).text(),
        );
        Ok(
            kept.set(
                "metadata"@,
                kept.at("metadata"@).set("resourceVersion"@, Tree::String(version_of(fresh))),
            ),
        )
    }
}

/// Fixes what an update must not change: a patch cannot rename the object or
/// rewrite what the server owns, and the write is conditional on what was read.
pub fn seal_update(fresh: &Json, obj: Json) -> (r: Result<Json, ApiError>)
    ensures
        match r {
            Ok(v) => sealed(fresh@, obj@) == Ok::<Tree, ErrorView>(v@),
            Err(e) => sealed(fresh@, obj@) == Err::<Tree, ErrorView>(e@),
        },
{
    if !obj.at("metadata").is_object() {
        return Err(ApiError::invalid("metadata must be an object"));
    }
    let was = fresh.at("metadata");
    let stored_meta = Json::object().with("uid", was.at("uid").dup()).with(
        "creationTimestamp",
        was.at("creationTimestamp").dup(),
    );
    let stored = Json::object().with("metadata", stored_meta);
    let mut out = obj;
    keep_server_fields(
        &mut out,
        &stored,
        was.at("name").str_or_empty(),
        was.at("namespace").as_str(),
    );
    let mut meta = out.at("metadata").dup();
    meta.set("resourceVersion", Json::text(was.at("resourceVersion").str_or_empty()));
    out.set("metadata", meta);
    Ok(out)
}

/// An update keeps the version that it is conditional on.
pub proof fn law_an_update_is_conditional_on_its_read(fresh: Tree, obj: Tree)
    ensures
        match sealed(fresh, obj) {
            Ok(t) => version_of(t) == version_of(fresh) && t.at("metadata"@).at("name"@)
                == Tree::String(fresh.at("metadata"@).at("name"@).text_or_empty()),
            Err(_) => true,
        },
{
    reveal_strlit("resourceVersion");
    reveal_strlit("name");
    reveal_strlit("namespace");
    reveal_strlit("uid");
    reveal_strlit("creationTimestamp");
    assert("resourceVersion"@.len() == 15);
    assert("name"@.len() == 4);
    assert("namespace"@.len() == 9);
    assert("uid"@.len() == 3);
    assert("creationTimestamp"@.len() == 17);
}

/// What an update does with an object that it has read.
pub enum Round {
    /// It persists what it made of the object.
    Write { obj: Json, how: Persist },
    /// It ends.
    Fail(ApiError),
}

/// What a [`Round`] says: whether the object is deleted, and on condition of which
/// revision.
pub ghost enum RoundView {
    Write { obj: Tree, delete: bool, prev: Option<nat> },
    Fail(ErrorView),
}

impl View for Round {
    type V = RoundView;

    open spec fn view(&self) -> RoundView {
        match self {
            Round::Write { obj, how } => RoundView::Write {
                obj: obj@,
                delete: how is Delete,
                prev: opt_nat(
                    match how {
                        Persist::Delete(prev) => *prev,
                        Persist::Update(prev) => *prev,
                    },
                ),
            },
            Round::Fail(e) => RoundView::Fail(e@),
        }
    }
}

/// What an update does with an object that it has read, where it was made into
/// something, or could not be: a version that is not the one asked for ends it,
/// and so does a change that fails.
pub open spec fn round_of(
    fresh: Tree,
    precondition: Option<Seq<char>>,
    changed: Result<Tree, ErrorView>,
) -> RoundView {
    if precondition is Some && precondition->0 != version_of(fresh) {
        RoundView::Fail(stale(fresh))
    } else {
        match changed {
            Ok(obj) => match sealed(fresh, obj) {
                Ok(t) => RoundView::Write {
                    obj: t,
                    delete: finalized(t),
                    prev: named_revision(t),
                },
                Err(e) => RoundView::Fail(e),
            },
            Err(e) => RoundView::Fail(e),
        }
    }
}

/// A result as a view.
pub open spec fn change_view(r: Result<Json, ApiError>) -> Result<Tree, ErrorView> {
    match r {
        Ok(v) => Ok(v@),
        Err(e) => Err(e@),
    }
}

/// Decides what an update does with an object that it has read, given what was
/// made of it.
pub fn update_round(
    fresh: &Json,
    precondition: Option<&str>,
    changed: Result<Json, ApiError>,
) -> (r: Round)
    ensures
        r@ == round_of(fresh@, opt_str(precondition), change_view(changed)),
{
    match check_version(fresh, precondition) {
        Ok(_) => {},
        Err(e) => {
            return Round::Fail(e);
        },
    }
    match changed {
        Ok(obj) => match seal_update(fresh, obj) {
            Ok(obj) => {
                let how = persist_or_finalize(&obj);
                Round::Write { obj, how }
            },
            Err(e) => Round::Fail(e),
        },
        Err(e) => Round::Fail(e),
    }
}

/// A write that failed is tried again: another writer came first, and the budget
/// is not spent.
pub open spec fn tried_again(e: ErrorView, elapsed_ms: u64) -> bool {
    e.reason == "Conflict"@ && elapsed_ms < PATCH_RETRY_BUDGET_MS
}

/// An update that lost against another writer is tried again within the budget;
/// nothing else is.
pub fn retries(e: &ApiError, elapsed_ms: u64) -> (r: bool)
    ensures
        r == tried_again(e@, elapsed_ms),
{
    e.is_conflict() && elapsed_ms < PATCH_RETRY_BUDGET_MS
}

/// An update without a precondition never conflicts while the budget lasts:
/// whatever has been written meanwhile, what it makes of the object is written or
/// tried again.
pub proof fn law_an_unconditional_update_does_not_conflict(
    fresh: Tree,
    obj: Tree,
    failure: ErrorView,
    elapsed_ms: u64,
)
    requires
        obj.at("metadata"@) is Object,
    ensures
        round_of(fresh, None, Ok(obj)) is Write,
        failure.reason == "Conflict"@ && elapsed_ms < PATCH_RETRY_BUDGET_MS ==> tried_again(
            failure,
            elapsed_ms,
        ),
{
}

/// An update with a precondition writes only the version that it names, and fails
/// with a conflict on every other.
pub proof fn law_a_precondition_is_kept(
    fresh: Tree,
    want: Seq<char>,
    changed: Result<Tree, ErrorView>,
)
    ensures
        round_of(fresh, Some(want), changed) is Write ==> version_of(fresh) == want,
        version_of(fresh) != want ==> round_of(fresh, Some(want), changed) == RoundView::Fail(
            stale(fresh),
        ),
{
}

/// No write is lost: what an update made of the object that it read is written on
/// condition of the revision of that read. A store that compares and swaps takes
/// it exactly where it still holds what was read, and so it is never written over
/// a change that it did not see.
pub proof fn law_no_write_is_lost(
    read: (Tree, u64),
    held: (Tree, u64),
    precondition: Option<Seq<char>>,
    changed: Result<Tree, ErrorView>,
)
    requires
        read.1 == held.1 ==> read.0 == held.0,
        round_of(at_revision(read.0, read.1 as nat), precondition, changed) is Write,
    ensures
        round_of(at_revision(read.0, read.1 as nat), precondition, changed)->prev == Some(
            read.1 as nat,
        ),
        round_of(at_revision(read.0, read.1 as nat), precondition, changed)->prev == Some(
            held.1 as nat,
        ) <==> read == held,
{
    let fresh = at_revision(read.0, read.1 as nat);
    law_an_update_is_conditional_on_its_read(fresh, changed->Ok_0);
    let t = sealed(fresh, changed->Ok_0)->Ok_0;
    assert(version_of(fresh) == dec(read.1 as nat));
    assert(t.at("metadata"@).at("resourceVersion"@) == Tree::String(version_of(fresh)));
    law_revision_round_trip(read.1);
}

/// The window of the pause before a retry, in milliseconds: it doubles from 10
/// up to 200.
pub open spec fn retry_window(attempt: u32) -> u64 {
    if attempt <= 1 {
        10
    } else if attempt == 2 {
        20
    } else if attempt == 3 {
        40
    } else if attempt == 4 {
        80
    } else if attempt == 5 {
        160
    } else {
        200
    }
}

/// The window of the pause before a retry, in milliseconds.
pub fn retry_window_ms(attempt: u32) -> (r: u64)
    ensures
        r == retry_window(attempt),
{
    let n: u32 = if attempt < 1 {
        1
    } else if attempt > 6 {
        6
    } else {
        attempt
    };
    let mut w: u64 = 10;
    let mut i: u32 = 1;
    while i < n
        invariant
            1 <= i <= n <= 6,
            i <= 5 ==> w == retry_window(i),
            i == 6 ==> w == 320,
        decreases n - i,
    {
        w = w * 2;
        i = i + 1;
    }
    if w > 200 {
        200
    } else {
        w
    }
}

/// The pause before a retry, in milliseconds, that a random number comes to.
pub fn pause_within(attempt: u32, drawn: u64) -> (r: u64)
    ensures
        r == drawn % retry_window(attempt),
        r < retry_window(attempt),
{
    drawn % retry_window_ms(attempt)
}

/// The pause before a retry, in milliseconds: random within the window, so that
/// two writers do not run in step.
pub fn patch_retry_pause(attempt: u32) -> (r: u64)
    ensures
        r < retry_window(attempt),
        exists|drawn: u64| r == #[trigger] (drawn % retry_window(attempt)),
{
    let drawn: u64 = random_number();
    pause_within(attempt, drawn)
}

// ---------------------------------------------------------------------------
// PATCH of a stored object
// ---------------------------------------------------------------------------

/// The manager and the force flag of a query: the last of each counts, and a
/// manager that is not named is `apply`.
pub open spec fn manager_in(pairs: Seq<(Seq<char>, Seq<char>)>) -> Seq<char>
    decreases pairs.len(),
{
    if pairs.len() == 0 {
        Seq::empty()
    } else if pairs.last().0 == "fieldManager"@ {
        pairs.last().1
    } else {
        manager_in(pairs.drop_last())
    }
}

/// The force flag of a query: the last counts.
pub open spec fn force_in(pairs: Seq<(Seq<char>, Seq<char>)>) -> bool
    decreases pairs.len(),
{
    if pairs.len() == 0 {
        false
    } else if pairs.last().0 == "force"@ {
        pairs.last().1 == "true"@ || pairs.last().1 == "1"@
    } else {
        force_in(pairs.drop_last())
    }
}

/// The field manager and the force flag of decoded query parameters.
pub fn apply_params_of(pairs: &Vec<(String, String)>) -> (r: (String, bool))
    ensures
        ({
            let m = manager_in(pair_texts(pairs@));
            r.0@ == (if m.len() == 0 {
                "apply"@
            } else {
                m
            })
        }),
        r.1 == force_in(pair_texts(pairs@)),
{
    let ghost ps = pair_texts(pairs@);
    let mut manager = String::new();
    let mut force = false;
    let mut i: usize = 0;
    proof {
        reveal_strlit("fieldManager");
        reveal_strlit("force");
        assert("fieldManager"@.len() != "force"@.len());
    }
    while i < pairs.len()
        invariant
            i <= pairs.len(),
            ps == pair_texts(pairs@),
            "fieldManager"@ != "force"@,
            manager@ == manager_in(ps.take(i as int)),
            force == force_in(ps.take(i as int)),
        decreases pairs.len() - i,
    {
        let k = pairs[i].0.as_str();
        let v = pairs[i].1.as_str();
        proof {
            assert(ps.take(i + 1).drop_last() =~= ps.take(i as int));
            assert(ps.take(i + 1).last() == ps[i as int]);
        }
        if same(k, "fieldManager") {
            manager = v.to_owned();
        } else if same(k, "force") {
            force = same(v, "true") || same(v, "1");
        }
        i = i + 1;
    }
    assert(ps.take(i as int) =~= ps);
    if manager.as_str().unicode_len() == 0 {
        manager = "apply".to_owned();
    }
    (manager, force)
}

/// The field manager and the force flag of a query string.
pub fn apply_params(query: &str) -> (r: (String, bool))
    ensures
        ({
            let m = manager_in(form_pairs(query@));
            r.0@ == (if m.len() == 0 {
                "apply"@
            } else {
                m
            })
        }),
        r.1 == force_in(form_pairs(query@)),
{
    let pairs = query_pairs(query);
    apply_params_of(&pairs)
}

/// The refusal of an apply that runs into another manager.
pub open spec fn apply_refusal(c: ConflictView) -> ErrorView {
    err_conflict(
        "Apply failed with 1 conflict: field \""@ + c.field + "\" is managed by \""@ + c.manager
            + "\" (set fieldManager force to override)"@,
    )
}

/// What an intent makes of a stored object.
pub open spec fn applied_onto(
    existing: Tree,
    intent: Tree,
    manager: Seq<char>,
    now: Seq<char>,
    force: bool,
) -> Result<Tree, ErrorView> {
    match (force, apply_conflict(existing, intent, manager)) {
        (false, Some(c)) => Err(apply_refusal(c)),
        _ => Ok(apply_result(existing, intent, manager, now)),
    }
}

/// Applies an intent onto a stored object.
pub fn apply_intent(
    existing: Json,
    intent: &Json,
    manager: &str,
    now: &str,
    force: bool,
) -> (r: Result<Json, ApiError>)
    requires
        intent@.settable(),
    ensures
        match r {
            Ok(v) => applied_onto(existing@, intent@, manager@, now@, force) == Ok::<
                Tree,
                ErrorView,
            >(v@),
            Err(e) => applied_onto(existing@, intent@, manager@, now@, force) == Err::<
                Tree,
                ErrorView,
            >(e@),
        },
{
    match server_side_apply(existing, intent, manager, now, force) {
        Ok(v) => Ok(v),
        Err(c) => {
            let m = "Apply failed with 1 conflict: field \"".to_owned().concat(
                c.field.as_str(),
            ).concat("\" is managed by \"").concat(c.manager.as_str()).concat(
                "\" (set fieldManager force to override)",
            );
            Err(ApiError::conflict(m.as_str()))
        },
    }
}

/// What a PATCH makes of the stored object: an apply tracks who owns what, and
/// every other patch is applied as it is.
pub open spec fn mutated(
    existing: Tree,
    kind: PatchKind,
    body: Seq<u8>,
    manager: Seq<char>,
    now: Seq<char>,
    force: bool,
) -> Result<Tree, ErrorView> {
    match kind {
        PatchKind::Apply => match yaml_read(body) {
            Ok(intent) => applied_onto(existing, intent, manager, now, force),
            Err(e) => Err(err_invalid("invalid apply patch: "@ + e)),
        },
        _ => patched(existing, kind, body),
    }
}

/// Makes of the stored object what a PATCH asks. None where the body of an
/// apply is a document that is neither an object nor null.
pub fn mutate_stored(
    existing: Json,
    content_type: &str,
    body: &[u8],
    manager: &str,
    now: &str,
    force: bool,
) -> (r: Option<Result<Json, ApiError>>)
    ensures
        ({
            let kind = patch_kind(content_type@);
            let want = mutated(existing@, kind, body@, manager@, now@, force);
            let odd = kind == PatchKind::Apply && match yaml_read(body@) {
                Ok(t) => !t.settable(),
                Err(_) => false,
            };
            match r {
                Some(Ok(v)) => !odd && want == Ok::<Tree, ErrorView>(v@),
                Some(Err(e)) => !odd && want == Err::<Tree, ErrorView>(e@),
                None => odd,
            }
        }),
{
    if kind_of_patch(content_type) == PatchKind::Apply {
        match parse_yaml(body) {
            Ok(intent) => {
                if !intent.is_object() && !intent.is_null() {
                    return None;
                }
                Some(apply_intent(existing, &intent, manager, now, force))
            },
            Err(e) => Some(Err(invalid("invalid apply patch: ", e.as_str()))),
        }
    } else {
        let mut obj = existing;
        match apply_patch_body(&mut obj, content_type, body) {
            Ok(_) => Some(Ok(obj)),
            Err(e) => Some(Err(e)),
        }
    }
}

/// The object that an apply creates where there is none: the intent, with the
/// requester as the owner of all of it.
pub fn create_by_apply(intent: &Json, manager: &str, now: &str) -> (r: Json)
    requires
        intent@.settable(),
    ensures
        r@ == apply_result(empty_object(), intent@, manager@, now@),
{
    match server_side_apply(Json::object(), intent, manager, now, true) {
        Ok(v) => v,
        Err(_) => Json::object(),
    }
}

/// How often an apply that found nothing, and then something when it created,
/// starts over.
pub const MAX_UPSERTS: u32 = 3;

/// What a PATCH does once the attempt to patch has ended.
#[derive(Clone, Copy, Debug, PartialEq, Eq, Structural)]
pub enum AfterPatch {
    /// The answer is final.
    Done,
    /// There is no object, and an apply creates it.
    Create,
}

/// An apply to an object that is not there creates it; every other failure, and
/// every success, is final.
pub fn after_patch(content_type: &str, failure: Option<&ApiError>) -> (r: AfterPatch)
    ensures
        r == (if patch_kind(content_type@) == PatchKind::Apply && failure is Some
            && failure->0@.status == NOT_FOUND {
            AfterPatch::Create
        } else {
            AfterPatch::Done
        }),
{
    match failure {
        Some(e) => if kind_of_patch(content_type) == PatchKind::Apply && e.status == NOT_FOUND {
            AfterPatch::Create
        } else {
            AfterPatch::Done
        },
        None => AfterPatch::Done,
    }
}

/// An apply that lost the race to create an object is applied to what the other
/// writer created, a few times.
pub fn applies_again(e: &ApiError, attempt: u32) -> (r: bool)
    ensures
        r == (e@.reason == "AlreadyExists"@ && attempt < MAX_UPSERTS),
{
    e.is_already_exists() && attempt < MAX_UPSERTS
}

/// What a content type names before its parameters is the kind of the patch; what is not
/// known is a merge patch.
pub proof fn law_the_media_type_is_the_kind(content_type: Seq<char>)
    ensures
        media_type(content_type) == "application/json-patch+json"@ <==> patch_kind(content_type)
            == PatchKind::JsonPatch,
        media_type(content_type) == "application/apply-patch+yaml"@ <==> patch_kind(content_type)
            == PatchKind::Apply,
        media_type(content_type) == "application/strategic-merge-patch+json"@ <==> patch_kind(
            content_type,
        ) == PatchKind::Strategic,
{
    reveal_strlit("application/json-patch+json");
    reveal_strlit("application/apply-patch+yaml");
    reveal_strlit("application/strategic-merge-patch+json");
    assert("application/json-patch+json"@.len() == 27);
    assert("application/apply-patch+yaml"@.len() == 28);
    assert("application/strategic-merge-patch+json"@.len() == 38);
}

/// The parameters of a content type say nothing of the kind of a patch.
pub proof fn law_parameters_do_not_matter(media: Seq<char>, parameters: Seq<char>)
    requires
        !media.contains(';'),
    ensures
        media_type(media) == trimmed_text(media),
        media_type(media + seq![';'] + parameters) == trimmed_text(media),
        patch_kind(media + seq![';'] + parameters) == patch_kind(media),
{
    lemma_split_whole(media, ';');
    lemma_first_piece(media, parameters);
}

proof fn lemma_first_piece(media: Seq<char>, rest: Seq<char>)
    requires
        !media.contains(';'),
    ensures
        split(media + seq![';'] + rest, ';').len() > 1,
        split(media + seq![';'] + rest, ';')[0] == media,
    decreases rest.len(),
{
    let s = media + seq![';'] + rest;
    if rest.len() == 0 {
        assert(s =~= media.push(';') + Seq::<char>::empty());
        lemma_split_whole(media, ';');
        lemma_split_push(media, ';', Seq::empty());
    } else {
        lemma_first_piece(media, rest.drop_last());
        assert(s.drop_last() =~= media + seq![';'] + rest.drop_last());
        assert(s.last() == rest.last());
    }
}

/// The operations of a patch stay in their order, but for those that test that nothing is
/// at a path where nothing is.
pub proof fn law_only_tests_for_nothing_are_dropped(target: Tree, ops: Seq<Tree>)
    ensures
        kept_ops(target, ops) == ops.filter(
            |op: Tree|
                {
                    ||| op.at("op"@) != str_tree("test")
                    ||| !nothing(op.get("value"@))
                    ||| !(op.at("path"@) is String)
                    ||| at_pointer(target, op.at("path"@)->String_0) is Some
                },
        ),
    decreases ops.len(),
{
    reveal(Seq::filter);
    if ops.len() > 0 {
        law_only_tests_for_nothing_are_dropped(target, ops.drop_last());
    }
}

/// A value is nothing where it is left out, null, or empty.
pub proof fn law_what_is_nothing(v: Tree)
    ensures
        nothing(None),
        nothing(Some(Tree::Null)),
        nothing(Some(Tree::Array(Seq::empty()))),
        v is String || v is Number || v is Bool ==> !nothing(Some(v)),
        v.items_or_none().len() > 0 ==> !nothing(Some(v)),
{
}

/// Replacing what is not there adds it, where it has a place to stand; what is there is
/// replaced, and no other operation is touched.
pub proof fn law_replacing_what_is_not_there_adds_it(target: Tree, op: Tree, key: Seq<char>)
    requires
        op is Object,
        op.at("path"@) is String,
        key != "op"@,
    ensures
        eased_op(target, op).get(key) == op.get(key),
        op.at("op"@) != str_tree("replace") ==> eased_op(target, op) == op,
        at_pointer(target, op.at("path"@)->String_0) is Some ==> eased_op(target, op) == op,
        op.at("op"@) == str_tree("replace") && at_pointer(target, op.at("path"@)->String_0) is None
            && at_pointer(target, parent_pointer(op.at("path"@)->String_0)) is Some ==> eased_op(
            target,
            op,
        ).at("op"@) == str_tree("add"),
{
}

/// Each kind of patch does what its name says, and what cannot be read is refused with 422.
pub proof fn law_a_patch_is_applied_by_its_kind(target: Tree, body: Seq<u8>, p: Tree)
    ensures
        json_read(body) == Ok::<Tree, Seq<char>>(p) ==> patched(target, PatchKind::Strategic, body)
            == Ok::<Tree, ErrorView>(strategic(target, p)),
        json_read(body) == Ok::<Tree, Seq<char>>(p) ==> patched(target, PatchKind::Merge, body)
            == Ok::<Tree, ErrorView>(merged(target, p)),
        yaml_read(body) == Ok::<Tree, Seq<char>>(p) ==> patched(target, PatchKind::Apply, body)
            == Ok::<Tree, ErrorView>(merged(target, p)),
        forall|kind: PatchKind|
            json_read(body) is Err && kind != PatchKind::Apply ==> (#[trigger] patched(
                target,
                kind,
                body,
            )) is Err && patched(target, kind, body)->Err_0.status == 422,
        yaml_read(body) is Err ==> patched(target, PatchKind::Apply, body) is Err && patched(
            target,
            PatchKind::Apply,
            body,
        )->Err_0.status == 422,
{
}

/// A patch of the status is one of the status that is there, by the part of the patch that
/// speaks of it; without such a part nothing changes.
pub proof fn law_a_status_patch_is_of_the_status(obj: Tree, body: Seq<u8>, p: Tree)
    requires
        obj is Object,
        json_read(body) == Ok::<Tree, Seq<char>>(p),
    ensures
        p.get("status"@) is Some ==> status_patched(obj, PatchKind::Merge, body) is Ok
            && status_patched(obj, PatchKind::Merge, body)->Ok_0.at("status"@) == merged(
            obj.at("status"@),
            p.at("status"@),
        ),
        p.get("status"@) is Some ==> status_patched(obj, PatchKind::Strategic, body) is Ok
            && status_patched(obj, PatchKind::Strategic, body)->Ok_0.at("status"@) == strategic(
            obj.at("status"@),
            p.at("status"@),
        ),
        p.get("status"@) is None ==> status_patched(obj, PatchKind::Merge, body) == Ok::<
            Tree,
            ErrorView,
        >(obj),
        p.get("status"@) is None ==> status_patched(obj, PatchKind::Strategic, body) == Ok::<
            Tree,
            ErrorView,
        >(obj),
{
}

/// A replaced status is that of the body; nothing else is.
pub proof fn law_a_status_is_replaced_alone(existing: Tree, body: Tree, key: Seq<char>)
    requires
        existing is Object,
        key != "status"@,
    ensures
        body.get("status"@) is Some ==> status_replaced(existing, body).get("status"@) == body.get(
            "status"@,
        ),
        body.get("status"@) is None ==> status_replaced(existing, body) == existing,
        status_replaced(existing, body).get(key) == existing.get(key),
{
}

/// A patch that names a version is for that version; one that names none, or an empty one,
/// is for any.
pub proof fn law_a_patch_is_for_the_version_it_names(body: Seq<u8>, p: Tree)
    requires
        json_read(body) == Ok::<Tree, Seq<char>>(p),
    ensures
        ({
            let v = p.at("metadata"@).at("resourceVersion"@);
            &&& v is String && (v->String_0).len() > 0 ==> precondition_of(PatchKind::Merge, body)
                == Some(v->String_0) && precondition_of(PatchKind::Strategic, body) == Some(
                v->String_0,
            )
            &&& !(v is String) || (v->String_0).len() == 0 ==> precondition_of(
                PatchKind::Merge,
                body,
            ) is None && precondition_of(PatchKind::Strategic, body) is None
        }),
        precondition_of(PatchKind::JsonPatch, body) is None,
{
}

/// What a patch makes of an object keeps the identity and the age of the one that was read,
/// and everything else that the patch says.
pub proof fn law_a_patch_keeps_the_identity(
    fresh: Tree,
    obj: Tree,
    key: Seq<char>,
    field: Seq<char>,
)
    requires
        obj is Object,
        obj.at("metadata"@) is Object,
        key != "metadata"@,
        field != "resourceVersion"@,
        field != "name"@,
        field != "namespace"@,
        field != "uid"@,
        field != "creationTimestamp"@,
    ensures
        sealed(fresh, obj) is Ok,
        ({
            let t = sealed(fresh, obj)->Ok_0;
            let had = fresh.at("metadata"@);
            let has = t.at("metadata"@);
            &&& t.get(key) == obj.get(key)
            &&& has.get(field) == obj.at("metadata"@).get(field)
            &&& had.at("uid"@) is String && (had.at("uid"@)->String_0).len() > 0 ==> has.at("uid"@)
                == had.at("uid"@)
            &&& had.at("creationTimestamp"@) is String && (had.at(
                "creationTimestamp"@,
            )->String_0).len() > 0 ==> has.at("creationTimestamp"@) == had.at("creationTimestamp"@)
            &&& had.at("namespace"@) is String ==> has.at("namespace"@) == had.at("namespace"@)
        }),
{
    reveal_strlit("metadata");
    reveal_strlit("resourceVersion");
    reveal_strlit("name");
    reveal_strlit("namespace");
    reveal_strlit("uid");
    reveal_strlit("creationTimestamp");
    assert("metadata"@.len() == 8);
    assert("resourceVersion"@.len() == 15);
    assert("name"@.len() == 4);
    assert("namespace"@.len() == 9);
    assert("uid"@.len() == 3);
    assert("creationTimestamp"@.len() == 17);
}

/// A write of a patch deletes exactly the object that it leaves without a finalizer, once
/// that has been marked.
pub proof fn law_a_patch_can_finish_a_delete(
    fresh: Tree,
    precondition: Option<Seq<char>>,
    changed: Result<Tree, ErrorView>,
)
    requires
        round_of(fresh, precondition, changed) is Write,
    ensures
        ({
            let r = round_of(fresh, precondition, changed);
            let meta = r->obj.at("metadata"@);
            &&& r->delete ==> meta.at("deletionTimestamp"@) is String && meta.at(
                "finalizers"@,
            ).items_or_none().len() == 0
            &&& meta.at("deletionTimestamp"@) is String && meta.at(
                "finalizers"@,
            ).items_or_none().len() == 0 && r->obj.at("kind"@) != str_tree("Namespace") ==> r->delete
        }),
{
}

/// A patch is tried again on a conflict alone, for half a minute.
pub proof fn law_only_conflicts_are_tried_again(e: ErrorView, elapsed_ms: u64)
    ensures
        tried_again(e, elapsed_ms) ==> e.reason == "Conflict"@,
        tried_again(e, elapsed_ms) ==> elapsed_ms < 30000,
        e.reason == "Conflict"@ && elapsed_ms < 30000 ==> tried_again(e, elapsed_ms),
{
}

/// The window in which a patch waits doubles from try to try, up to its bound.
pub proof fn law_the_wait_doubles(attempt: u32)
    requires
        attempt < u32::MAX,
    ensures
        attempt >= 1 && 2 * retry_window(attempt) <= 200 ==> retry_window((attempt + 1) as u32) == 2
            * retry_window(attempt),
        attempt >= 1 && 2 * retry_window(attempt) > 200 ==> retry_window((attempt + 1) as u32) == 200,
        retry_window(0) == retry_window(1),
        10 <= retry_window(attempt) <= 200,
{
}

/// The manager of an apply is the last that the query names, and it is forced where the
/// query last says so.
pub proof fn law_the_last_parameter_counts(
    pairs: Seq<(Seq<char>, Seq<char>)>,
    key: Seq<char>,
    value: Seq<char>,
)
    ensures
        manager_in(pairs.push(("fieldManager"@, value))) == value,
        key != "fieldManager"@ ==> manager_in(pairs.push((key, value))) == manager_in(pairs),
        force_in(pairs.push(("force"@, value))) <==> value == "true"@ || value == "1"@,
        key != "force"@ ==> force_in(pairs.push((key, value))) == force_in(pairs),
        manager_in(Seq::empty()).len() == 0,
        !force_in(Seq::empty()),
{
    assert(pairs.push((key, value)).drop_last() =~= pairs);
    assert(pairs.push(("fieldManager"@, value)).drop_last() =~= pairs);
    assert(pairs.push(("force"@, value)).drop_last() =~= pairs);
}

/// An apply that is forced is never refused; one that is not is refused exactly where
/// another manager has set what it would change, with 409.
pub proof fn law_force_is_never_refused(
    existing: Tree,
    intent: Tree,
    manager: Seq<char>,
    now: Seq<char>,
)
    ensures
        applied_onto(existing, intent, manager, now, true) is Ok,
        applied_onto(existing, intent, manager, now, false) is Err <==> apply_conflict(
            existing,
            intent,
            manager,
        ) is Some,
        applied_onto(existing, intent, manager, now, false) is Err ==> applied_onto(
            existing,
            intent,
            manager,
            now,
            false,
        )->Err_0.status == 409,
        applied_onto(existing, intent, manager, now, false) is Ok ==> applied_onto(
            existing,
            intent,
            manager,
            now,
            false,
        ) == applied_onto(existing, intent, manager, now, true),
{
}

/// Only an apply asks who manages a field: every other patch is applied whoever sends it.
pub proof fn law_managers_matter_to_an_apply_alone(
    existing: Tree,
    kind: PatchKind,
    body: Seq<u8>,
    manager: Seq<char>,
    now: Seq<char>,
    force: bool,
    intent: Tree,
)
    ensures
        kind != PatchKind::Apply ==> mutated(existing, kind, body, manager, now, force) == patched(
            existing,
            kind,
            body,
        ),
        yaml_read(body) == Ok::<Tree, Seq<char>>(intent) && force ==> mutated(
            existing,
            PatchKind::Apply,
            body,
            manager,
            now,
            force,
        ) == Ok::<Tree, ErrorView>(apply_result(existing, intent, manager, now)),
{
}

/// What a path is below of is the path without its last step; a member of the whole document
/// always has a place to stand.
pub proof fn law_where_a_path_stands(target: Tree, op: Tree, above: Seq<char>, step: Seq<char>)
    requires
        !step.contains('/'),
        op is Object,
        op.at("op"@) == str_tree("replace"),
        op.at("path"@) == Tree::String(seq!['/'] + step),
        at_pointer(target, seq!['/'] + step) is None,
    ensures
        parent_pointer(above + seq!['/'] + step) == above,
        eased_op(target, op).at("op"@) == str_tree("add"),
{
    reveal_strlit("/");
    assert("/"@ =~= seq!['/']);
    law_found_at_the_last(above, '/', step);
    assert((above + seq!['/'] + step).take(above.len() as int) =~= above);
    let none = Seq::<char>::empty();
    law_found_at_the_last(none, '/', step);
    assert(none + seq!['/'] + step =~= seq!['/'] + step);
    assert((seq!['/'] + step).take(0).len() == 0);
}

} // verus!
