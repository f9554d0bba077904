//! Objects in the store: their keys, and what is written and read.
//!
//! The `resourceVersion` of an object is the revision of the store and nothing
//! else: it is never written, and set on every read.

use vstd::prelude::*;
use vstd::string::*;
use vstd::utf8::*;

use crate::apimachinery::error::Error;
use crate::apiserver::error::{
    client_error, err_already_exists, err_internal, err_not_found, from_error, ApiError, ErrorView,
};
use crate::decimal::{dec, format_u64};
use crate::json::{lemma_trees_push, trees, Json, Tree};
use crate::outside::{json_read, json_text, parse_json, readable, reads_as, write_json, MAX_DEPTH};

verus! {

/// The keys of the store.
pub struct ResourceStorage;

/// The key of a cluster-scoped object.
pub open spec fn cluster_key_of(resource: Seq<char>, name: Seq<char>) -> Seq<char> {
    "/registry"@ + "/"@ + resource + "/"@ + name
}

/// The key of a namespaced object.
pub open spec fn namespaced_key_of(
    resource: Seq<char>,
    namespace: Seq<char>,
    name: Seq<char>,
) -> Seq<char> {
    "/registry"@ + "/"@ + resource + "/"@ + namespace + "/"@ + name
}

/// The prefix of all objects of a resource.
pub open spec fn prefix_of(resource: Seq<char>) -> Seq<char> {
    "/registry"@ + "/"@ + resource + "/"@
}

/// The prefix of the objects of a resource in a namespace.
pub open spec fn namespace_prefix_of(resource: Seq<char>, namespace: Seq<char>) -> Seq<char> {
    "/registry"@ + "/"@ + resource + "/"@ + namespace + "/"@
}

impl ResourceStorage {
    /// The key of a cluster-scoped object.
    pub fn cluster_key(resource: &str, name: &str) -> (r: String)
        ensures
            r@ == cluster_key_of(resource@, name@),
    {
        "/registry".to_owned().concat("/").concat(resource).concat("/").concat(name)
    }

    /// The key of a namespaced object.
    pub fn namespaced_key(resource: &str, namespace: &str, name: &str) -> (r: String)
        ensures
            r@ == namespaced_key_of(resource@, namespace@, name@),
    {
        "/registry".to_owned().concat("/").concat(resource).concat("/").concat(namespace).concat(
            "/",
        ).concat(name)
    }

    /// The prefix of all objects of a cluster-scoped resource.
    pub fn cluster_prefix(resource: &str) -> (r: String)
        ensures
            r@ == prefix_of(resource@),
    {
        "/registry".to_owned().concat("/").concat(resource).concat("/")
    }

    /// The prefix of the objects of a resource in one namespace.
    pub fn namespace_prefix(resource: &str, namespace: &str) -> (r: String)
        ensures
            r@ == namespace_prefix_of(resource@, namespace@),
    {
        "/registry".to_owned().concat("/").concat(resource).concat("/").concat(namespace).concat(
            "/",
        )
    }

    /// The prefix of the objects of a resource in all namespaces.
    pub fn all_namespaces_prefix(resource: &str) -> (r: String)
        ensures
            r@ == prefix_of(resource@),
    {
        ResourceStorage::cluster_prefix(resource)
    }
}

/// Every key of a resource stands under the resource's prefix, and a namespaced
/// one under the prefix of its namespace too.
pub proof fn law_keys_stand_under_their_prefix(
    resource: Seq<char>,
    namespace: Seq<char>,
    name: Seq<char>,
)
    ensures
        cluster_key_of(resource, name) == prefix_of(resource) + name,
        namespaced_key_of(resource, namespace, name) == namespace_prefix_of(resource, namespace)
            + name,
        namespace_prefix_of(resource, namespace) == prefix_of(resource) + namespace + "/"@,
{
}

// ---------------------------------------------------------------------------
// The resourceVersion
// ---------------------------------------------------------------------------

/// The object with its `resourceVersion` set to the revision `rev`.
pub open spec fn at_revision(obj: Tree, rev: nat) -> Tree {
    obj.set(
        "metadata"@,
        obj.at("metadata"@).as_object().set("resourceVersion"@, Tree::String(dec(rev))),
    )
}

/// The object as it is stored: without a `resourceVersion`.
pub open spec fn stored_form(obj: Tree) -> Tree {
    match obj.get("metadata"@) {
        Some(Tree::Object(m)) => obj.set(
            "metadata"@,
            Tree::Object(m.remove("resourceVersion"@)),
        ),
        _ => obj,
    }
}

/// Sets `metadata.resourceVersion` to the revision that the object reflects.
pub fn inject_resource_version(obj: &mut Json, rev: u64)
    requires
        old(obj)@.settable(),
    ensures
        final(obj)@ == at_revision(old(obj)@, rev as nat),
{
    let mut meta = obj.at("metadata").dup();
    meta.make_object();
    meta.set("resourceVersion", Json::String(format_u64(rev)));
    obj.set("metadata", meta);
}

/// Removes `metadata.resourceVersion`, so that it is never stored.
pub fn strip_resource_version(obj: &mut Json)
    ensures
        final(obj)@ == stored_form(old(obj)@),
{
    let meta: Json = match obj.get("metadata") {
        Some(Json::Object(m)) => {
            let mut meta = obj.at("metadata").dup();
            meta.unset("resourceVersion");
            meta
        },
        _ => {
            return;
        },
    };
    obj.set("metadata", meta);
}

/// The revision of a read does not depend on what was baked into the object.
pub proof fn law_stored_revision_is_ignored(obj: Tree, rev: nat)
    requires
        obj.settable(),
    ensures
        at_revision(stored_form(obj), rev) == at_revision(obj, rev),
{
    match obj.get("metadata"@) {
        Some(Tree::Object(m)) => {
            let r = "resourceVersion"@;
            assert(m.remove(r).insert(r, Tree::String(dec(rev))) =~= m.insert(
                r,
                Tree::String(dec(rev)),
            ));
            let o = obj->Object_0;
            let a = Tree::Object(m.remove(r));
            let b = at_revision(obj, rev).at("metadata"@);
            assert(o.insert("metadata"@, a).insert("metadata"@, b) =~= o.insert("metadata"@, b));
        },
        _ => {},
    }
}

/// What is stored names no revision.
pub proof fn law_nothing_stored_names_a_revision(obj: Tree)
    ensures
        stored_form(obj).at("metadata"@).get("resourceVersion"@) is None,
{
}

// ---------------------------------------------------------------------------
// Reading and writing
// ---------------------------------------------------------------------------

/// What a read of the store gives a client.
pub open spec fn read_result(key: Seq<char>, found: Option<(Result<Tree, Seq<char>>, u64)>) -> Result<
    Tree,
    ErrorView,
> {
    match found {
        Some((Ok(t), rev)) => Ok(at_revision(t, rev as nat)),
        Some((Err(e), _)) => Err(err_internal(e)),
        None => Err(err_not_found("resource"@, key)),
    }
}

/// What a client gets for the document found under `key`.
pub fn read_document(key: &str, found: Option<(Result<Json, String>, u64)>) -> (r: Result<
    Json,
    ApiError,
>)
    requires
        match found {
            Some((Ok(v), _)) => v@.settable(),
            _ => true,
        },
    ensures
        ({
            let want = read_result(
                key@,
                match found {
                    Some((Ok(v), rev)) => Some((Ok(v@), rev)),
                    Some((Err(e), rev)) => Some((Err(e@), rev)),
                    None => None,
                },
            );
            match r {
                Ok(v) => want == Ok::<Tree, ErrorView>(v@),
                Err(e) => want == Err::<Tree, ErrorView>(e@),
            }
        }),
{
    match found {
        Some((Ok(v), rev)) => {
            let mut obj = v;
            inject_resource_version(&mut obj, rev);
            Ok(obj)
        },
        Some((Err(e), _)) => Err(ApiError::internal(e.as_str())),
        None => Err(ApiError::not_found("resource", key)),
    }
}

/// Reads an object from the bytes stored under `key`, with the revision that
/// wrote them. None where they hold a document that is no object.
pub fn read_object(key: &str, found: Option<(&[u8], u64)>) -> (r: Option<Result<Json, ApiError>>)
    ensures
        ({
            let doc = match found {
                Some((bytes, rev)) => Some((json_read(bytes@), rev)),
                None => None,
            };
            let whole = match doc {
                Some((Ok(t), _)) => t.settable(),
                _ => true,
            };
            match r {
                Some(Ok(v)) => whole && read_result(key@, doc) == Ok::<Tree, ErrorView>(v@),
                Some(Err(e)) => whole && read_result(key@, doc) == Err::<Tree, ErrorView>(e@),
                None => !whole,
            }
        }),
{
    match found {
        Some((bytes, rev)) => {
            let doc = parse_json(bytes);
            match &doc {
                Ok(v) => if !v.is_object() && !v.is_null() {
                    return None;
                },
                Err(_) => {},
            }
            Some(read_document(key, Some((doc, rev))))
        },
        None => Some(read_document(key, None)),
    }
}

/// The documents of a list, read one by one; the first that cannot be read is
/// an error.
pub open spec fn read_all(raw: Seq<Seq<u8>>) -> Result<Seq<Tree>, ErrorView>
    decreases raw.len(),
{
    if raw.len() == 0 {
        Ok(Seq::empty())
    } else {
        match read_all(raw.drop_last()) {
            Ok(ts) => match json_read(raw.last()) {
                Ok(t) => Ok(ts.push(t)),
                Err(e) => Err(err_internal(e)),
            },
            Err(e) => Err(e),
        }
    }
}

/// The bytes of a list of byte strings.
pub open spec fn all_bytes(raw: Seq<Vec<u8>>) -> Seq<Seq<u8>> {
    raw.map_values(|b: Vec<u8>| b@)
}

proof fn lemma_read_all_fails(raw: Seq<Seq<u8>>, n: int)
    requires
        0 <= n <= raw.len(),
        read_all(raw.take(n)) is Err,
    ensures
        read_all(raw) == read_all(raw.take(n)),
    decreases raw.len() - n,
{
    if n < raw.len() {
        assert(raw.take(n + 1).drop_last() =~= raw.take(n));
        lemma_read_all_fails(raw, n + 1);
    } else {
        assert(raw.take(n) =~= raw);
    }
}

/// Reads the objects of a list.
pub fn read_list(raw: &Vec<Vec<u8>>) -> (r: Result<Vec<Json>, ApiError>)
    ensures
        match r {
            Ok(v) => read_all(all_bytes(raw@)) == Ok::<Seq<Tree>, ErrorView>(trees(v@)),
            Err(e) => read_all(all_bytes(raw@)) == Err::<Seq<Tree>, ErrorView>(e@),
        },
{
    let ghost bs = all_bytes(raw@);
    let mut out: Vec<Json> = Vec::new();
    let mut i: usize = 0;
    assert(trees(out@) =~= Seq::<Tree>::empty());
    while i < raw.len()
        invariant
            i <= raw.len(),
            bs == all_bytes(raw@),
            read_all(bs.take(i as int)) == Ok::<Seq<Tree>, ErrorView>(trees(out@)),
        decreases raw.len() - i,
    {
        proof {
            assert(bs.take(i + 1).drop_last() =~= bs.take(i as int));
            assert(bs.take(i + 1).last() == raw@[i as int]@);
        }
        match parse_json(raw[i].as_slice()) {
            Ok(v) => {
                proof {
                    lemma_trees_push(out@, v);
                }
                out.push(v);
            },
            Err(e) => {
                proof {
                    lemma_read_all_fails(bs, i + 1);
                }
                return Err(ApiError::internal(e.as_str()));
            },
        }
        i = i + 1;
    }
    assert(bs.take(i as int) =~= bs);
    Ok(out)
}

/// The text that is stored for an object.
pub fn write_object(obj: &Json) -> (r: String)
    ensures
        r@ == json_text(stored_form(obj@)),
        readable(stored_form(obj@), MAX_DEPTH as nat) ==> reads_as(
            encode_utf8(r@),
            stored_form(obj@),
        ),
{
    let mut stored = obj.dup();
    strip_resource_version(&mut stored);
    write_json(&stored)
}

/// What a client gets for a create: the object at its revision, or 409 where
/// the key was already there.
pub open spec fn create_result(obj: Tree, put: Result<u64, Error>) -> Result<Tree, ErrorView> {
    match put {
        Ok(rev) => Ok(at_revision(stored_form(obj), rev as nat)),
        Err(Error::Conflict) => Err(
            err_already_exists(
                obj.at("kind"@).text_or("resource"@),
                obj.at("metadata"@).at("name"@).text_or("unknown"@),
            ),
        ),
        Err(e) => Err(client_error(e)),
    }
}

/// Turns the store's answer to a create, which is a write on condition that the
/// key is absent, into the client's.
pub fn finish_create(obj: Json, put: Result<u64, Error>) -> (r: Result<Json, ApiError>)
    requires
        obj@.settable(),
    ensures
        match r {
            Ok(v) => create_result(obj@, put) == Ok::<Tree, ErrorView>(v@),
            Err(e) => create_result(obj@, put) == Err::<Tree, ErrorView>(e@),
        },
{
    match put {
        Ok(rev) => {
            let mut stored = obj;
            strip_resource_version(&mut stored);
            inject_resource_version(&mut stored, rev);
            Ok(stored)
        },
        Err(Error::Conflict) => Err(
            ApiError::already_exists(
                obj.at("kind").str_or("resource"),
                obj.at("metadata").at("name").str_or("unknown"),
            ),
        ),
        Err(e) => Err(from_error(&e)),
    }
}

/// What a client gets for an update.
pub open spec fn update_result(obj: Tree, put: Result<u64, Error>) -> Result<Tree, ErrorView> {
    match put {
        Ok(rev) => Ok(at_revision(stored_form(obj), rev as nat)),
        Err(e) => Err(client_error(e)),
    }
}

/// Turns the store's answer to an update into the client's.
pub fn finish_update(obj: Json, put: Result<u64, Error>) -> (r: Result<Json, ApiError>)
    requires
        obj@.settable(),
    ensures
        match r {
            Ok(v) => update_result(obj@, put) == Ok::<Tree, ErrorView>(v@),
            Err(e) => update_result(obj@, put) == Err::<Tree, ErrorView>(e@),
        },
{
    match put {
        Ok(rev) => {
            let mut stored = obj;
            strip_resource_version(&mut stored);
            inject_resource_version(&mut stored, rev);
            Ok(stored)
        },
        Err(e) => Err(from_error(&e)),
    }
}

/// A read gives back what was written: the object, at the revision that wrote
/// it, is what the create and the update answered.
pub proof fn law_read_gives_back_the_write(key: Seq<char>, obj: Tree, rev: u64)
    requires
        obj.settable(),
    ensures
        read_result(key, Some((Ok(stored_form(obj)), rev))) == create_result(obj, Ok(rev)),
        read_result(key, Some((Ok(stored_form(obj)), rev))) == update_result(obj, Ok(rev)),
        read_result(key, Some((Ok(stored_form(obj)), rev))) == Ok::<Tree, ErrorView>(
            at_revision(obj, rev as nat),
        ),
{
    law_stored_revision_is_ignored(obj, rev as nat);
}

/// The revision of an object is that of the store, and nothing else of it is touched.
pub proof fn law_a_revision_is_set_alone(obj: Tree, rev: nat, key: Seq<char>, field: Seq<char>)
    requires
        obj is Object,
        key != "metadata"@,
        field != "resourceVersion"@,
    ensures
        at_revision(obj, rev).at("metadata"@).at("resourceVersion"@) == Tree::String(dec(rev)),
        at_revision(obj, rev).get(key) == obj.get(key),
        at_revision(obj, rev).at("metadata"@).get(field) == obj.at("metadata"@).get(field),
        stored_form(obj).get(key) == obj.get(key),
        stored_form(obj).at("metadata"@).get(field) == obj.at("metadata"@).get(field),
        stored_form(obj).at("metadata"@).get("resourceVersion"@) is None,
{
}

/// What the store answers is what the client hears: a key that is there is a conflict of
/// names on a create and of versions on an update, one that is not is not found, and an
/// object that was written comes back with the revision of the write.
pub proof fn law_the_store_decides(obj: Tree, key: Seq<char>, rev: u64)
    requires
        obj is Object,
    ensures
        create_result(obj, Err(Error::Conflict)) is Err,
        create_result(obj, Err(Error::Conflict))->Err_0.status == 409,
        create_result(obj, Err(Error::Conflict))->Err_0.reason == "AlreadyExists"@,
        update_result(obj, Err(Error::Conflict)) is Err,
        update_result(obj, Err(Error::Conflict))->Err_0.status == 409,
        update_result(obj, Err(Error::Conflict))->Err_0.reason == "Conflict"@,
        read_result(key, None) is Err,
        read_result(key, None)->Err_0.status == 404,
        read_result(key, None)->Err_0.reason == "NotFound"@,
        create_result(obj, Ok(rev)) is Ok,
        create_result(obj, Ok(rev))->Ok_0.at("metadata"@).at("resourceVersion"@) == Tree::String(
            dec(rev as nat),
        ),
        update_result(obj, Ok(rev)) is Ok,
        update_result(obj, Ok(rev))->Ok_0.at("metadata"@).at("resourceVersion"@) == Tree::String(
            dec(rev as nat),
        ),
        update_result(obj, Ok(rev))->Ok_0.at("spec"@) == obj.at("spec"@),
        create_result(obj, Ok(rev))->Ok_0.at("spec"@) == obj.at("spec"@),
{
    reveal_strlit("metadata");
    reveal_strlit("spec");
    assert("metadata"@.len() == 8);
    assert("spec"@.len() == 4);
}

/// Every object of a list is there, in its place.
pub proof fn law_a_list_is_all_its_objects(raw: Seq<Seq<u8>>, i: int)
    requires
        read_all(raw) is Ok,
        0 <= i < raw.len(),
    ensures
        (read_all(raw)->Ok_0).len() == raw.len(),
        json_read(raw[i]) == Ok::<Tree, Seq<char>>((read_all(raw)->Ok_0)[i]),
    decreases raw.len(),
{
    let before = raw.drop_last();
    assert(raw.last() == raw[raw.len() - 1]);
    assert(read_all(before) is Ok);
    if before.len() > 0 {
        let k = if i < before.len() { i } else { 0 };
        law_a_list_is_all_its_objects(before, k);
        assert(before[k] == raw[k]);
    } else {
        assert(read_all(before)->Ok_0 =~= Seq::empty());
    }
    assert(read_all(raw)->Ok_0 == (read_all(before)->Ok_0).push(json_read(raw.last())->Ok_0));
}

/// The keys of two objects differ where their resource, their namespace or their name does.
pub proof fn law_keys_are_apart(
    resource: Seq<char>,
    namespace: Seq<char>,
    name: Seq<char>,
    resource2: Seq<char>,
    namespace2: Seq<char>,
    name2: Seq<char>,
)
    requires
        !resource.contains('/'),
        !namespace.contains('/'),
        !name.contains('/'),
        !resource2.contains('/'),
        !namespace2.contains('/'),
        !name2.contains('/'),
        namespaced_key_of(resource, namespace, name) == namespaced_key_of(
            resource2,
            namespace2,
            name2,
        ),
    ensures
        resource == resource2,
        namespace == namespace2,
        name == name2,
{
    lemma_key_pieces(resource, namespace, name);
    lemma_key_pieces(resource2, namespace2, name2);
    let s = crate::text::split(namespaced_key_of(resource, namespace, name), '/');
    let t = crate::text::split(namespaced_key_of(resource2, namespace2, name2), '/');
    assert(s[2] == resource && s[3] == namespace && s[4] == name);
    assert(t[2] == resource2 && t[3] == namespace2 && t[4] == name2);
}

proof fn lemma_key_pieces(resource: Seq<char>, namespace: Seq<char>, name: Seq<char>)
    requires
        !resource.contains('/'),
        !namespace.contains('/'),
        !name.contains('/'),
    ensures
        crate::text::split(namespaced_key_of(resource, namespace, name), '/') == seq![
            Seq::<char>::empty(),
            "registry"@,
            resource,
            namespace,
            name,
        ],
{
    reveal_strlit("/");
    reveal_strlit("/registry");
    reveal_strlit("registry");
    assert("/"@ =~= seq!['/']);
    let none = Seq::<char>::empty();
    let a = none.push('/') + "registry"@;
    assert(a =~= "/registry"@);
    let b = a.push('/') + resource;
    let c = b.push('/') + namespace;
    let d = c.push('/') + name;
    assert(d =~= namespaced_key_of(resource, namespace, name));
    crate::text::lemma_split_whole(none, '/');
    assert(!"registry"@.contains('/'));
    crate::text::lemma_split_push(none, '/', "registry"@);
    crate::text::lemma_split_push(a, '/', resource);
    crate::text::lemma_split_push(b, '/', namespace);
    crate::text::lemma_split_push(c, '/', name);
    assert(crate::text::split(d, '/') =~= seq![none, "registry"@, resource, namespace, name]);
}

} // verus!
