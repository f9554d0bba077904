//! Objects of any resource: what a create, a replacement and a deletion do.

use vstd::prelude::*;
use vstd::string::*;

use crate::apiserver::error::{err_bad_request, err_conflict, err_invalid, ApiError, ErrorView};
use crate::decimal::{dec, format_u64, parse_u64, unsigned};
use crate::json::{empty_object, str_tree, trees, Json, Object, Tree};
use crate::outside::{fresh_uid, now_text, time_shaped, uid_shaped};
use crate::text::{opt_str, same};

verus! {

// ---------------------------------------------------------------------------
// Metadata
// ---------------------------------------------------------------------------

impl Tree {
    /// The object with the member `key` where it has none.
    pub open spec fn or_set(self, key: Seq<char>, v: Tree) -> Tree {
        match self.get(key) {
            Some(_) => self,
            None => self.set(key, v),
        }
    }

    /// The object with the text `v` as member `key` unless a text that is not
    /// empty stands there.
    pub open spec fn or_text(self, key: Seq<char>, v: Seq<char>) -> Tree {
        match self.at(key).some_text() {
            Some(_) => self,
            None => self.set(key, Tree::String(v)),
        }
    }

    /// The `metadata`.
    pub open spec fn meta(self) -> Tree {
        self.at("metadata"@)
    }
}

/// The metadata that a new object gets: name and namespace where it names none,
/// `uid` and `creationTimestamp` where they are absent, null or empty.
pub open spec fn completed(
    meta: Tree,
    name: Seq<char>,
    namespace: Option<Seq<char>>,
    uid: Seq<char>,
    now: Seq<char>,
) -> Tree {
    let named = meta.as_object().or_set("name"@, Tree::String(name));
    let placed = match namespace {
        Some(ns) => named.or_set("namespace"@, Tree::String(ns)),
        None => named,
    };
    placed.or_text("uid"@, uid).or_text("creationTimestamp"@, now)
}

/// The object with the metadata that a new object gets. What is no object stays
/// as it is.
pub open spec fn with_metadata(
    obj: Tree,
    name: Seq<char>,
    namespace: Option<Seq<char>>,
    uid: Seq<char>,
    now: Seq<char>,
) -> Tree {
    match obj {
        Tree::Object(m) => obj.set("metadata"@, completed(obj.meta(), name, namespace, uid, now)),
        _ => obj,
    }
}

fn set_if_absent(v: &mut Json, key: &str, text: &str)
    requires
        old(v)@ is Object,
    ensures
        final(v)@ == old(v)@.or_set(key@, Tree::String(text@)),
        final(v)@ is Object,
{
    if v.get(key).is_none() {
        v.set(key, Json::text(text));
    }
}

fn set_if_unset(v: &mut Json, key: &str, text: &str)
    requires
        old(v)@ is Object,
    ensures
        final(v)@ == old(v)@.or_text(key@, text@),
        final(v)@ is Object,
{
    if v.at(key).some_str().is_none() {
        v.set(key, Json::text(text));
    }
}

/// Completes the metadata of a new object with this `uid` and time.
pub fn complete_metadata(
    obj: &mut Json,
    name: &str,
    namespace: Option<&str>,
    uid: &str,
    now: &str,
)
    ensures
        final(obj)@ == with_metadata(old(obj)@, name@, opt_str(namespace), uid@, now@),
{
    if !obj.is_object() {
        return;
    }
    let mut meta = obj.at("metadata").dup();
    meta.make_object();
    set_if_absent(&mut meta, "name", name);
    match namespace {
        Some(ns) => {
            set_if_absent(&mut meta, "namespace", ns);
        },
        None => {},
    }
    set_if_unset(&mut meta, "uid", uid);
    set_if_unset(&mut meta, "creationTimestamp", now);
    obj.set("metadata", meta);
}

/// An object has its metadata completed with some `uid` and some time.
pub open spec fn completed_somehow(
    before: Tree,
    after: Tree,
    name: Seq<char>,
    namespace: Option<Seq<char>>,
) -> bool {
    exists|uid: Seq<char>, now: Seq<char>|
        uid_shaped(uid) && time_shaped(now) && after == #[trigger] with_metadata(
            before,
            name,
            namespace,
            uid,
            now,
        )
}

/// Completes the metadata of a new object with a fresh `uid` and the time.
pub fn ensure_metadata(obj: &mut Json, name: &str, namespace: Option<&str>)
    ensures
        completed_somehow(old(obj)@, final(obj)@, name@, opt_str(namespace)),
{
    let uid = fresh_uid();
    let now = now_text();
    complete_metadata(obj, name, namespace, uid.as_str(), now.as_str());
}

/// [`ensure_metadata`], for other modules.
pub fn ensure_metadata_pub(obj: &mut Json, name: &str, namespace: Option<&str>)
    ensures
        completed_somehow(old(obj)@, final(obj)@, name@, opt_str(namespace)),
{
    ensure_metadata(obj, name, namespace)
}

/// The metadata of an object that has been completed is whole: it has a `uid`
/// and a time that are not empty, whatever the client sent.
pub proof fn law_server_fields_are_assigned(
    obj: Tree,
    name: Seq<char>,
    namespace: Option<Seq<char>>,
    uid: Seq<char>,
    now: Seq<char>,
)
    requires
        obj is Object,
        uid.len() > 0,
        now.len() > 0,
    ensures
        ({
            let meta = with_metadata(obj, name, namespace, uid, now).meta();
            &&& meta.at("uid"@).some_text() is Some
            &&& meta.at("creationTimestamp"@).some_text() is Some
            &&& meta.get("name"@) is Some
            &&& namespace is Some ==> meta.get("namespace"@) is Some
        }),
{
    lemma_metadata_keys();
}

/// Completing the metadata of an object that has been completed changes
/// nothing.
pub proof fn law_completion_is_final(
    obj: Tree,
    name: Seq<char>,
    namespace: Option<Seq<char>>,
    uid: Seq<char>,
    now: Seq<char>,
    uid2: Seq<char>,
    now2: Seq<char>,
)
    requires
        uid.len() > 0,
        now.len() > 0,
    ensures
        with_metadata(
            with_metadata(obj, name, namespace, uid, now),
            name,
            namespace,
            uid2,
            now2,
        ) == with_metadata(obj, name, namespace, uid, now),
{
    match obj {
        Tree::Object(m) => {
            law_server_fields_are_assigned(obj, name, namespace, uid, now);
            let once = with_metadata(obj, name, namespace, uid, now);
            let meta = once.meta();
            lemma_metadata_keys();
            assert(completed(meta, name, namespace, uid2, now2) == meta);
            assert(once->Object_0.insert("metadata"@, meta) =~= once->Object_0);
        },
        _ => {},
    }
}

proof fn lemma_metadata_keys()
    ensures
        "name"@ != "namespace"@,
        "name"@ != "uid"@,
        "name"@ != "creationTimestamp"@,
        "namespace"@ != "uid"@,
        "namespace"@ != "creationTimestamp"@,
        "uid"@ != "creationTimestamp"@,
{
    reveal_strlit("name");
    reveal_strlit("namespace");
    reveal_strlit("uid");
    reveal_strlit("creationTimestamp");
    assert("name"@.len() == 4);
    assert("namespace"@.len() == 9);
    assert("uid"@.len() == 3);
    assert("creationTimestamp"@.len() == 17);
}

/// The stored member carried over, where it is there and not null.
pub open spec fn carried(meta: Tree, stored_meta: Tree, key: Seq<char>) -> Tree {
    match stored_meta.get(key) {
        Some(v) => if v is Null {
            meta
        } else {
            meta.set(key, v)
        },
        None => meta,
    }
}

/// The metadata of a replacement: name and namespace are those of the URL,
/// `uid` and `creationTimestamp` those that are stored.
pub open spec fn kept_metadata(
    meta: Tree,
    stored_meta: Tree,
    name: Seq<char>,
    namespace: Option<Seq<char>>,
) -> Tree {
    let named = meta.as_object().set("name"@, Tree::String(name));
    let placed = match namespace {
        Some(ns) => named.set("namespace"@, Tree::String(ns)),
        None => named,
    };
    carried(carried(placed, stored_meta, "uid"@), stored_meta, "creationTimestamp"@)
}

/// The replacement with the fields that the server owns.
pub open spec fn with_server_fields(
    obj: Tree,
    stored: Tree,
    name: Seq<char>,
    namespace: Option<Seq<char>>,
) -> Tree {
    obj.set("metadata"@, kept_metadata(obj.meta(), stored.meta(), name, namespace))
}

fn carry(meta: &mut Json, stored_meta: &Json, key: &str)
    requires
        old(meta)@ is Object,
    ensures
        final(meta)@ == carried(old(meta)@, stored_meta@, key@),
        final(meta)@ is Object,
{
    match stored_meta.get(key) {
        Some(v) => {
            if !v.is_null() {
                meta.set(key, v.dup());
            }
        },
        None => {},
    }
}

/// Carries the fields that the server owns from the stored object into its
/// replacement.
pub fn keep_server_fields(obj: &mut Json, stored: &Json, name: &str, namespace: Option<&str>)
    requires
        old(obj)@.settable(),
    ensures
        final(obj)@ == with_server_fields(old(obj)@, stored@, name@, opt_str(namespace)),
{
    let mut meta = obj.at("metadata").dup();
    meta.make_object();
    meta.set("name", Json::text(name));
    match namespace {
        Some(ns) => {
            meta.set("namespace", Json::text(ns));
        },
        None => {},
    }
    carry(&mut meta, stored.at("metadata"), "uid");
    carry(&mut meta, stored.at("metadata"), "creationTimestamp");
    obj.set("metadata", meta);
}

/// A replacement cannot rename an object, nor rewrite its `uid` or its
/// `creationTimestamp`.
pub proof fn law_server_fields_are_kept(
    obj: Tree,
    stored: Tree,
    name: Seq<char>,
    namespace: Option<Seq<char>>,
)
    ensures
        ({
            let meta = with_server_fields(obj, stored, name, namespace).meta();
            let was = stored.meta();
            &&& meta.at("name"@) == Tree::String(name)
            &&& namespace is Some ==> meta.at("namespace"@) == Tree::String(namespace->0)
            &&& !(was.at("uid"@) is Null) ==> meta.at("uid"@) == was.at("uid"@)
            &&& !(was.at("creationTimestamp"@) is Null) ==> meta.at("creationTimestamp"@)
                == was.at("creationTimestamp"@)
        }),
{
    lemma_metadata_keys();
}

// ---------------------------------------------------------------------------
// Replacing an object
// ---------------------------------------------------------------------------

/// What a PUT stores in the place of `existing`, or why it does not.
pub open spec fn replacement(
    existing: Tree,
    name: Seq<char>,
    namespace: Option<Seq<char>>,
    body: Tree,
) -> Result<Tree, ErrorView> {
    let meta = body.meta();
    let stored_uid = existing.meta().at("uid"@);
    if !(body is Object) {
        Err(err_invalid("the body of a PUT must be an object"@))
    } else if meta.at("name"@).some_text() is Some && meta.at("name"@).some_text()->0 != name {
        Err(
            err_bad_request(
                "the name of the object ("@ + meta.at("name"@).some_text()->0
                    + ") does not match the name on the URL ("@ + name + ")"@,
            ),
        )
    } else if meta.at("namespace"@).some_text() is Some && namespace is Some && meta.at(
        "namespace"@,
    ).some_text() != namespace {
        Err(
            err_bad_request(
                "the namespace of the object ("@ + meta.at("namespace"@).some_text()->0
                    + ") does not match the namespace on the URL ("@ + namespace->0 + ")"@,
            ),
        )
    } else if meta.at("uid"@).some_text() is Some && meta.at("uid"@).some_text()
        != stored_uid.text() {
        Err(
            err_conflict(
                "Precondition failed: UID in precondition: "@ + stored_uid.text_or_empty()
                    + ", UID in object meta: "@ + meta.at("uid"@).some_text()->0,
            ),
        )
    } else {
        Ok(with_server_fields(body, existing, name, namespace))
    }
}

/// Decides what a PUT stores in the place of the object that is there.
pub fn replace_object(existing: &Json, name: &str, namespace: Option<&str>, body: Json) -> (r:
    Result<Json, ApiError>)
    ensures
        match r {
            Ok(v) => replacement(existing@, name@, opt_str(namespace), body@) == Ok::<
                Tree,
                ErrorView,
            >(v@),
            Err(e) => replacement(existing@, name@, opt_str(namespace), body@) == Err::<
                Tree,
                ErrorView,
            >(e@),
        },
{
    if !body.is_object() {
        return Err(ApiError::invalid("the body of a PUT must be an object"));
    }
    let meta = body.at("metadata");
    match meta.at("name").some_str() {
        Some(n) => if !same(n, name) {
            let m = "the name of the object (".to_owned().concat(n).concat(
                ") does not match the name on the URL (",
            ).concat(name).concat(")");
            return Err(ApiError::bad_request(m.as_str()));
        },
        None => {},
    }
    match (meta.at("namespace").some_str(), namespace) {
        (Some(ns), Some(want)) => if !same(ns, want) {
            let m = "the namespace of the object (".to_owned().concat(ns).concat(
                ") does not match the namespace on the URL (",
            ).concat(want).concat(")");
            return Err(ApiError::bad_request(m.as_str()));
        },
        _ => {},
    }
    let stored_uid = existing.at("metadata").at("uid");
    match meta.at("uid").some_str() {
        Some(u) => if !stored_uid.is_text(u) {
            let m = "Precondition failed: UID in precondition: ".to_owned().concat(
                stored_uid.str_or_empty(),
            ).concat(", UID in object meta: ").concat(u);
            return Err(ApiError::conflict(m.as_str()));
        },
        None => {},
    }
    let mut obj = body;
    keep_server_fields(&mut obj, existing, name, namespace);
    Ok(obj)
}

/// The revision that an object names as its `resourceVersion`.
pub open spec fn named_revision(obj: Tree) -> Option<nat> {
    match obj.meta().at("resourceVersion"@).text() {
        Some(s) => unsigned(s, u64::MAX as nat),
        None => None,
    }
}

/// A revision as a number.
pub open spec fn opt_nat(o: Option<u64>) -> Option<nat> {
    match o {
        Some(n) => Some(n as nat),
        None => None,
    }
}

/// The revision that an object names as its `resourceVersion`.
pub fn revision_of(obj: &Json) -> (r: Option<u64>)
    ensures
        opt_nat(r) == named_revision(obj@),
{
    match obj.at("metadata").at("resourceVersion").as_str() {
        Some(s) => parse_u64(s),
        None => None,
    }
}

/// A namespace has finalizers in its `spec`, which hold it until `/finalize` clears
/// them.
pub open spec fn held_namespace(obj: Tree) -> bool {
    obj.at("apiVersion"@) == str_tree("v1") && obj.at("kind"@) == str_tree("Namespace") && obj.at(
        "spec"@,
    ).at("finalizers"@).items_or_none().len() > 0
}

/// The write that empties the finalizers of an object that is being deleted is
/// its deletion.
pub open spec fn finalized(obj: Tree) -> bool {
    obj.meta().at("deletionTimestamp"@) is String && obj.meta().at(
        "finalizers"@,
    ).items_or_none().len() == 0 && !held_namespace(obj)
}

/// How an updated object is persisted.
#[derive(Clone, Copy, Debug)]
pub enum Persist {
    /// It is removed, on condition of this revision.
    Delete(Option<u64>),
    /// It is written, on condition of this revision.
    Update(Option<u64>),
}

fn has_items(v: &Json) -> (r: bool)
    ensures
        r == (v@.items_or_none().len() > 0),
{
    match v {
        Json::Array(a) => {
            assert(trees(a@).len() == a@.len());
            a.len() > 0
        },
        _ => false,
    }
}

/// Decides whether an updated object is written, or removed because its last
/// finalizer is gone.
pub fn persist_or_finalize(obj: &Json) -> (r: Persist)
    ensures
        match r {
            Persist::Delete(rev) => finalized(obj@) && opt_nat(rev) == named_revision(obj@),
            Persist::Update(rev) => !finalized(obj@) && opt_nat(rev) == named_revision(obj@),
        },
{
    let meta = obj.at("metadata");
    let terminating = meta.at("deletionTimestamp").is_string();
    let is_namespace = obj.at("apiVersion").is_text("v1") && obj.at("kind").is_text("Namespace");
    let left = has_items(meta.at("finalizers")) || (is_namespace && has_items(
        obj.at("spec").at("finalizers"),
    ));
    let rev = revision_of(obj);
    if terminating && !left {
        Persist::Delete(rev)
    } else {
        Persist::Update(rev)
    }
}

// ---------------------------------------------------------------------------
// Lists
// ---------------------------------------------------------------------------

/// The document of a list.
pub open spec fn list_tree(
    api_version: Seq<char>,
    kind: Seq<char>,
    revision: nat,
    items: Seq<Tree>,
    token: Option<Seq<char>>,
) -> Tree {
    let meta = Tree::Object(map!["resourceVersion"@ => Tree::String(dec(revision))]);
    Tree::Object(
        map![
            "apiVersion"@ => Tree::String(api_version),
            "kind"@ => Tree::String(kind),
            "metadata"@ => match token {
                Some(t) => meta.set("continue"@, Tree::String(t)),
                None => meta,
            },
            "items"@ => Tree::Array(items),
        ],
    )
}

/// The document of a list, with a `continue` token where there is more.
pub fn list_document(
    api_version: &str,
    kind: &str,
    revision: u64,
    items: Vec<Json>,
    token: Option<&str>,
) -> (r: Json)
    ensures
        r@ == list_tree(api_version@, kind@, revision as nat, trees(items@), opt_str(token)),
{
    let mut meta = Json::object().with("resourceVersion", Json::String(format_u64(revision)));
    match token {
        Some(t) => {
            meta.set("continue", Json::text(t));
        },
        None => {},
    }
    Json::object().with("apiVersion", Json::text(api_version)).with("kind", Json::text(kind)).with(
        "metadata",
        meta,
    ).with("items", Json::Array(items))
}

/// An object as `PartialObjectMetadata`: its metadata alone.
pub open spec fn partial_metadata(obj: Tree) -> Tree {
    Tree::Object(
        map![
            "apiVersion"@ => str_tree("meta.k8s.io/v1"),
            "kind"@ => str_tree("PartialObjectMetadata"),
            "metadata"@ => match obj.get("metadata"@) {
                Some(m) => m,
                None => empty_object(),
            },
        ],
    )
}

/// Reduces an object to its metadata.
pub fn to_partial_object_metadata(obj: &Json) -> (r: Json)
    ensures
        r@ == partial_metadata(obj@),
{
    let meta = match obj.get("metadata") {
        Some(m) => m.dup(),
        None => Json::object(),
    };
    Json::object().with("apiVersion", Json::text("meta.k8s.io/v1")).with(
        "kind",
        Json::text("PartialObjectMetadata"),
    ).with("metadata", meta)
}

/// A list as `PartialObjectMetadataList`.
pub open spec fn partial_list(list: Tree) -> Tree {
    let reduced = match list.get("items"@) {
        Some(Tree::Array(a)) => list.set(
            "items"@,
            Tree::Array(a.map_values(|t: Tree| partial_metadata(t))),
        ),
        _ => list,
    };
    reduced.set("apiVersion"@, str_tree("meta.k8s.io/v1")).set(
        "kind"@,
        str_tree("PartialObjectMetadataList"),
    )
}

fn reduce_all(items: &Vec<Json>) -> (r: Vec<Json>)
    ensures
        trees(r@) == trees(items@).map_values(|t: Tree| partial_metadata(t)),
{
    let mut out: Vec<Json> = Vec::new();
    let mut i: usize = 0;
    while i < items.len()
        invariant
            i <= items.len(),
            out@.len() == i,
            forall|j: int| 0 <= j < i ==> (#[trigger] out@[j])@ == partial_metadata(items@[j]@),
        decreases items.len() - i,
    {
        out.push(to_partial_object_metadata(&items[i]));
        i = i + 1;
    }
    assert(trees(out@) =~= trees(items@).map_values(|t: Tree| partial_metadata(t)));
    out
}

/// Reduces a list to metadata where the client asked for metadata only.
pub fn project_list(list: Json, metadata_only: bool) -> (r: Json)
    requires
        metadata_only ==> list@.settable(),
    ensures
        r@ == (if metadata_only {
            partial_list(list@)
        } else {
            list@
        }),
{
    if !metadata_only {
        return list;
    }
    let mut out = list;
    let reduced: Option<Vec<Json>> = match out.get("items") {
        Some(Json::Array(a)) => Some(reduce_all(a)),
        _ => None,
    };
    match reduced {
        Some(items) => {
            out.set("items", Json::Array(items));
        },
        None => {},
    }
    out.set("apiVersion", Json::text("meta.k8s.io/v1"));
    out.set("kind", Json::text("PartialObjectMetadataList"));
    out
}

/// The answer to a LIST: the document of the list, reduced to metadata where the
/// client asked for metadata only.
pub fn list_answer(
    api_version: &str,
    kind: &str,
    revision: u64,
    items: Vec<Json>,
    token: Option<&str>,
    metadata_only: bool,
) -> (r: Json)
    ensures
        ({
            let list = list_tree(
                api_version@,
                kind@,
                revision as nat,
                trees(items@),
                opt_str(token),
            );
            r@ == (if metadata_only {
                partial_list(list)
            } else {
                list
            })
        }),
{
    project_list(list_document(api_version, kind, revision, items, token), metadata_only)
}

/// The object that a POST creates and its name, with its metadata completed. A
/// body without a name is refused.
pub fn new_object(body: Json, namespace: Option<&str>) -> (r: Result<(String, Json), ApiError>)
    ensures
        match body@.meta().at("name"@).text() {
            Some(name) => r is Ok && r->Ok_0.0@ == name && completed_somehow(
                body@,
                r->Ok_0.1@,
                name,
                opt_str(namespace),
            ),
            None => r is Err && r->Err_0@ == err_invalid("metadata.name is required"@),
        },
{
    let name = match body.at("metadata").at("name").as_str() {
        Some(n) => n.to_owned(),
        None => {
            return Err(ApiError::invalid("metadata.name is required"));
        },
    };
    let mut obj = body;
    ensure_metadata(&mut obj, name.as_str(), namespace);
    Ok((name, obj))
}

/// What a client says of an object's identity stays when it is created; what it leaves out
/// is filled in.
pub proof fn law_what_is_given_stays(
    obj: Tree,
    name: Seq<char>,
    namespace: Option<Seq<char>>,
    uid: Seq<char>,
    now: Seq<char>,
    key: Seq<char>,
    field: Seq<char>,
)
    requires
        obj is Object,
        key != "metadata"@,
        field != "name"@,
        field != "namespace"@,
        field != "uid"@,
        field != "creationTimestamp"@,
    ensures
        ({
            let r = with_metadata(obj, name, namespace, uid, now);
            let had = obj.at("metadata"@).as_object();
            let has = r.at("metadata"@);
            &&& r.get(key) == obj.get(key)
            &&& has.get(field) == had.get(field)
            &&& had.get("name"@) is Some ==> has.get("name"@) == had.get("name"@)
            &&& had.get("name"@) is None ==> has.at("name"@) == Tree::String(name)
            &&& had.get("namespace"@) is Some ==> has.get("namespace"@) == had.get("namespace"@)
            &&& had.get("namespace"@) is None && namespace is Some ==> has.at("namespace"@)
                == Tree::String(namespace->0)
            &&& had.get("namespace"@) is None && namespace is None ==> has.get("namespace"@) is None
            &&& had.at("uid"@) is String && (had.at("uid"@)->String_0).len() > 0 ==> has.at("uid"@)
                == had.at("uid"@)
            &&& !(had.at("uid"@) is String) || (had.at("uid"@)->String_0).len() == 0 ==> has.at(
                "uid"@,
            ) == Tree::String(uid)
            &&& !(had.at("creationTimestamp"@) is String) || (had.at(
                "creationTimestamp"@,
            )->String_0).len() == 0 ==> has.at("creationTimestamp"@) == Tree::String(now)
        }),
{
    lemma_metadata_keys();
}

/// A PUT replaces what the body says and nothing that the server owns. A body for another
/// name or namespace is refused with 400, one for another identity with 409; every other
/// object is taken.
pub proof fn law_a_put_is_for_its_object(
    existing: Tree,
    name: Seq<char>,
    namespace: Option<Seq<char>>,
    body: Tree,
    key: Seq<char>,
)
    requires
        body is Object,
        key != "metadata"@,
    ensures
        ({
            let meta = body.at("metadata"@);
            let r = replacement(existing, name, namespace, body);
            let other_name = meta.at("name"@) is String && (meta.at("name"@)->String_0).len() > 0
                && meta.at("name"@)->String_0 != name;
            let other_place = meta.at("namespace"@) is String && (meta.at(
                "namespace"@,
            )->String_0).len() > 0 && namespace is Some && meta.at("namespace"@)->String_0
                != namespace->0;
            let other_object = meta.at("uid"@) is String && (meta.at("uid"@)->String_0).len() > 0
                && meta.at("uid"@) != existing.at("metadata"@).at("uid"@);
            &&& other_name ==> r is Err && r->Err_0.status == 400
            &&& !other_name && other_place ==> r is Err && r->Err_0.status == 400
            &&& !other_name && !other_place && other_object ==> r is Err && r->Err_0.status == 409
            &&& !other_name && !other_place && !other_object ==> r is Ok && (r->Ok_0).get(key)
                == body.get(key)
        }),
{
}

/// An object goes with the write that leaves it no finalizer, once it has been marked, and
/// with no other write.
pub proof fn law_what_is_held_stays(obj: Tree)
    ensures
        obj.at("metadata"@).at("finalizers"@).items_or_none().len() > 0 ==> !finalized(obj),
        !(obj.at("metadata"@).at("deletionTimestamp"@) is String) ==> !finalized(obj),
        obj.at("metadata"@).at("deletionTimestamp"@) is String && obj.at("metadata"@).at(
            "finalizers"@,
        ).items_or_none().len() == 0 && obj.at("kind"@) != str_tree("Namespace") ==> finalized(obj),
{
}

/// A list says its kind, the revision that it reflects and, where there is more, how to go
/// on; its items are those that it was given, in their order.
pub proof fn law_a_list_says_what_it_holds(
    api_version: Seq<char>,
    kind: Seq<char>,
    revision: nat,
    items: Seq<Tree>,
    token: Option<Seq<char>>,
)
    ensures
        ({
            let l = list_tree(api_version, kind, revision, items, token);
            &&& l.at("apiVersion"@) == Tree::String(api_version)
            &&& l.at("kind"@) == Tree::String(kind)
            &&& l.at("items"@) == Tree::Array(items)
            &&& l.at("metadata"@).at("resourceVersion"@) == Tree::String(dec(revision))
            &&& token is Some ==> l.at("metadata"@).at("continue"@) == Tree::String(token->0)
            &&& token is None ==> l.at("metadata"@).get("continue"@) is None
        }),
{
    reveal_strlit("apiVersion");
    reveal_strlit("kind");
    reveal_strlit("metadata");
    reveal_strlit("items");
    reveal_strlit("resourceVersion");
    reveal_strlit("continue");
    assert("apiVersion"@.len() == 10);
    assert("kind"@.len() == 4);
    assert("metadata"@.len() == 8);
    assert("items"@.len() == 5);
    assert("resourceVersion"@.len() == 15);
    assert("continue"@.len() == 8);
    assert("metadata"@[0] == 'm');
    assert("continue"@[0] == 'c');
}

/// The metadata of an object is all that is left of it where a client asks for no more, and
/// a list is reduced item by item.
pub proof fn law_metadata_alone(obj: Tree, list: Tree, key: Seq<char>, i: int)
    requires
        obj.get("metadata"@) is Some,
        key != "apiVersion"@,
        key != "kind"@,
        key != "metadata"@,
        list is Object,
        list.at("items"@) is Array,
        0 <= i < (list.at("items"@)->Array_0).len(),
    ensures
        partial_metadata(obj).get("metadata"@) == obj.get("metadata"@),
        partial_metadata(obj).at("kind"@) == str_tree("PartialObjectMetadata"),
        partial_metadata(obj).at("apiVersion"@) == str_tree("meta.k8s.io/v1"),
        partial_metadata(obj).get(key) is None,
        partial_list(list).at("metadata"@) == list.at("metadata"@),
        partial_list(list).at("items"@).items_or_none().len() == (list.at(
            "items"@,
        )->Array_0).len(),
        partial_list(list).at("items"@).items_or_none()[i] == partial_metadata(
            (list.at("items"@)->Array_0)[i],
        ),
{
    reveal_strlit("apiVersion");
    reveal_strlit("kind");
    reveal_strlit("metadata");
    reveal_strlit("items");
    assert("apiVersion"@.len() == 10);
    assert("kind"@.len() == 4);
    assert("metadata"@.len() == 8);
    assert("items"@.len() == 5);
}

/// A namespace is held by what it says of itself as well: it goes once both lists are empty.
pub proof fn law_a_namespace_is_held_by_its_own_list(obj: Tree)
    requires
        obj.at("apiVersion"@) == str_tree("v1"),
        obj.at("kind"@) == str_tree("Namespace"),
        obj.at("metadata"@).at("deletionTimestamp"@) is String,
        obj.at("metadata"@).at("finalizers"@).items_or_none().len() == 0,
    ensures
        finalized(obj) <==> obj.at("spec"@).at("finalizers"@).items_or_none().len() == 0,
{
}

} // verus!
