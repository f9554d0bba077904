//! Negotiation of the protobuf format: which bodies are read and written in it.

use vstd::prelude::*;
use vstd::string::*;

use crate::apimachinery::protobuf::{
    asks_protobuf, decode_to_json, decoded, encode_from_json, encodes, envelope_name, message_for,
    wants_protobuf, CONTENT_TYPE,
};
use crate::apiserver::error::UNSUPPORTED_MEDIA_TYPE;
use crate::apiserver::handlers::kinds::{kind_of, resource_to_kind};
use crate::apiserver::paths::{path_resource, resource_of_path};
use crate::json::{empty_object, str_tree, Json, Numeral, Tree};
use crate::outside::{json_read, parse_json, pool_schemas};
use crate::text::{contains, has_prefix, has_sub, same, starts_with};

verus! {

/// The largest body that is transcoded, in bytes.
pub const MAX_BODY: usize = 16777216;

/// The `apiVersion` and the kind that a path implies.
pub open spec fn gvk_of(path: Seq<char>) -> (Seq<char>, Seq<char>) {
    match resource_of_path(path) {
        Some((version, resource)) => (version, kind_of(resource)),
        None => (""@, ""@),
    }
}

/// The `apiVersion` and the kind that a path implies, for a body whose envelope
/// names none. Empty texts where the path names no resource.
pub fn path_gvk(path: &str) -> (r: (String, String))
    ensures
        (r.0@, r.1@) == gvk_of(path@),
{
    match path_resource(path) {
        Some((version, resource)) => (version, resource_to_kind(resource.as_str())),
        None => ("".to_owned(), "".to_owned()),
    }
}

/// What is done with a request.
pub struct Plan {
    /// Its body is in the protobuf format.
    pub decode: bool,
    /// The client takes an answer in the protobuf format.
    pub encode: bool,
    /// The type of the body, where its envelope names none.
    pub api_version: String,
    pub kind: String,
}

/// The type of a body where its envelope names none: a deletion carries its
/// options, any other request an object of the path's resource.
pub open spec fn hint_of(method: Seq<char>, path: Seq<char>) -> (Seq<char>, Seq<char>) {
    if method == "DELETE"@ {
        ("v1"@, "DeleteOptions"@)
    } else {
        gvk_of(path)
    }
}

/// What is done with a request.
pub fn plan(method: &str, path: &str, content_type: &str, accept: &str) -> (r: Plan)
    ensures
        r.decode == (method@ != "GET"@ && method@ != "HEAD"@ && asks_protobuf(content_type@)),
        r.encode == has_sub(accept@, CONTENT_TYPE@),
        (r.api_version@, r.kind@) == hint_of(method@, path@),
{
    let (api_version, kind) = if same(method, "DELETE") {
        ("v1".to_owned(), "DeleteOptions".to_owned())
    } else {
        path_gvk(path)
    };
    Plan {
        decode: !same(method, "GET") && !same(method, "HEAD") && wants_protobuf(content_type),
        encode: contains(accept, CONTENT_TYPE),
        api_version,
        kind,
    }
}

/// The answer to a request that fails here.
pub open spec fn failure_status(code: u16, message: Seq<char>) -> Tree {
    Tree::Object(
        map![
            "kind"@ => str_tree("Status"),
            "apiVersion"@ => str_tree("v1"),
            "metadata"@ => empty_object(),
            "status"@ => str_tree("Failure"),
            "message"@ => Tree::String(message),
            "code"@ => Tree::Number(Numeral::PosInt(code as u64)),
        ],
    )
}

/// The answer to a request that fails here.
pub fn status_response(code: u16, message: &str) -> (r: Json)
    ensures
        r@ == failure_status(code, message@),
{
    Json::object().with("kind", Json::text("Status")).with("apiVersion", Json::text("v1")).with(
        "metadata",
        Json::object(),
    ).with("status", Json::text("Failure")).with("message", Json::text(message)).with(
        "code",
        Json::uint(code as u64),
    )
}

/// The body of a request in JSON: none where it is empty, and an answer where it
/// cannot be read.
pub fn decode_request(
    pool: &prost_reflect::DescriptorPool,
    body: &[u8],
    plan: &Plan,
) -> (r: Result<Option<Json>, (u16, Json)>)
    ensures
        ({
            let want = decoded(*pool, body@, plan.api_version@, plan.kind@);
            match r {
                Ok(None) => body@.len() == 0,
                Ok(Some(v)) => body@.len() > 0 && want == Ok::<Tree, Seq<char>>(v@),
                Err(e) => body@.len() > 0 && want is Err && e.0 == UNSUPPORTED_MEDIA_TYPE && e.1@
                    == failure_status(
                    UNSUPPORTED_MEDIA_TYPE,
                    "cannot decode protobuf request: "@ + want->Err_0,
                ),
            }
        }),
{
    if body.len() == 0 {
        return Ok(None);
    }
    match decode_to_json(pool, body, plan.api_version.as_str(), plan.kind.as_str()) {
        Ok(v) => Ok(Some(v)),
        Err(e) => {
            let m = "cannot decode protobuf request: ".to_owned().concat(e.as_str());
            Err((UNSUPPORTED_MEDIA_TYPE, status_response(UNSUPPORTED_MEDIA_TYPE, m.as_str())))
        },
    }
}

/// An answer of a content type can be transcoded: JSON, and no watch.
pub open spec fn can_transcode(content_type: Seq<char>) -> bool {
    has_prefix(content_type, "application/json"@) && !has_sub(content_type, "stream=watch"@)
}

/// Can an answer of a content type be transcoded? The body of a watch never ends, so
/// it is not to be collected for that.
pub fn is_transcodable(content_type: &str) -> (r: bool)
    ensures
        r == can_transcode(content_type@),
{
    starts_with(content_type, "application/json") && !contains(content_type, "stream=watch")
}

/// The answer to a request in the protobuf format; none where it stays as it is:
/// a watch, what is no JSON, and what the pool has no message for.
pub fn encode_response(
    pool: &prost_reflect::DescriptorPool,
    content_type: &str,
    body: &[u8],
) -> (r: Option<Vec<u8>>)
    ensures
        match r {
            Some(pb) => can_transcode(content_type@) && json_read(body@) is Ok && ({
                let v = json_read(body@)->Ok_0;
                let name = message_for(
                    pool_schemas(*pool),
                    v.at("apiVersion"@).text_or_empty(),
                    v.at("kind"@).text_or_empty(),
                );
                name is Some && encodes(
                    *pool,
                    v,
                    v.at("apiVersion"@).text_or_empty(),
                    v.at("kind"@).text_or_empty(),
                    name->0,
                    pb@,
                )
            }),
            None => !can_transcode(content_type@) || json_read(body@) is Err || message_for(
                pool_schemas(*pool),
                json_read(body@)->Ok_0.at("apiVersion"@).text_or_empty(),
                json_read(body@)->Ok_0.at("kind"@).text_or_empty(),
            ) is None || !pool_schemas(*pool).contains_key(envelope_name()),
        },
{
    if !is_transcodable(content_type) {
        return None;
    }
    let v = match parse_json(body) {
        Ok(v) => v,
        Err(_) => {
            return None;
        },
    };
    let api_version = v.at("apiVersion").str_or_empty();
    let kind = v.at("kind").str_or_empty();
    match encode_from_json(pool, &v, api_version, kind) {
        Ok(pb) => Some(pb),
        Err(_) => None,
    }
}

/// The body of a delete is its options whatever the path names; every other is of the kind that
/// the path names.
pub proof fn law_a_body_is_of_the_kind_of_its_path(method: Seq<char>, path: Seq<char>)
    ensures
        hint_of("DELETE"@, path) == ("v1"@, "DeleteOptions"@),
        method != "DELETE"@ && resource_of_path(path) is Some ==> hint_of(method, path) == (
            (resource_of_path(path)->0).0,
            kind_of((resource_of_path(path)->0).1),
        ),
        method != "DELETE"@ && resource_of_path(path) is None ==> hint_of(method, path).0.len() == 0
            && hint_of(method, path).1.len() == 0,
{
    reveal_strlit("");
}

/// A document is put in other words, a stream of them is not.
pub proof fn law_streams_are_left_as_they_are(rest: Seq<char>)
    ensures
        !has_sub("application/json"@ + rest, "stream=watch"@) <==> can_transcode(
            "application/json"@ + rest,
        ),
{
    assert(("application/json"@ + rest).subrange(0, "application/json"@.len() as int)
        =~= "application/json"@);
}

} // verus!
