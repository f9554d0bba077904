//! The calls into other crates, and what is believed of them.
//!
//! Each function here makes one call whose result the library does not
//! compute itself. Where the result is a function of the arguments it has a
//! name, and the contracts of the callers speak of that name.

use prost::bytes::Buf;
use prost_reflect::Kind as WireKind;
use prost_reflect::Value as WireValue;
use serde_json::Value as SerdeValue;
use vstd::prelude::*;
use vstd::string::*;
use vstd::utf8::*;

use crate::apimachinery::protobuf::{
    is_full_name, pb_pairs, plain_message, Field, FieldKind, Pb, PbTree, Schema, SchemaView, Shape,
    WIRE_DEPTH,
};
use crate::apimachinery::watch::opt_bytes;
use crate::json::{Json, Number, Numeral, Tree};
use crate::text::{has_prefix, opt_text, texts};

verus! {

// ---------------------------------------------------------------------------
// Documents of serde_json
// ---------------------------------------------------------------------------

/// A document as `serde_json` holds it.
#[verifier::external_type_specification]
#[verifier::external_body]
pub struct ExSerdeValue(serde_json::Value);

/// What a document of `serde_json` says.
pub uninterp spec fn serde_tree(v: serde_json::Value) -> Tree;

/// Takes a document over from `serde_json::Value`, member by member. A number
/// is an unsigned integer where `as_u64` has one, else a signed one where
/// `as_i64` has one, else the bits of `as_f64`.
#[verifier::external_body]
pub(crate) fn from_serde(v: serde_json::Value) -> (r: Json)
    ensures
        r@ == serde_tree(v),
{
    match v {
        SerdeValue::Null => Json::Null,
        SerdeValue::Bool(b) => Json::Bool(b),
        SerdeValue::Number(n) => match (n.as_u64(), n.as_i64()) {
            (Some(u), _) => Json::uint(u),
            (_, Some(i)) => Json::int_value(i),
            _ => Json::float(n.as_f64().unwrap_or_default().to_bits()).unwrap_or(Json::Null),
        },
        SerdeValue::String(s) => Json::String(s),
        SerdeValue::Array(a) => Json::Array(a.into_iter().map(from_serde).collect()),
        SerdeValue::Object(m) => m.into_iter().fold(Json::object(), |o, (k, v)| o.with(&k,
            from_serde(v))),
    }
}

/// Hands a number over to `serde_json::Value`.
#[verifier::external_body]
fn number_to_serde(n: &Number) -> (r: serde_json::Value)
    ensures
        serde_tree(r) == Tree::Number(n.says()),
{
    match n.numeral() {
        Numeral::PosInt(n) => SerdeValue::from(n),
        Numeral::NegInt(n) => SerdeValue::from(n),
        Numeral::Float(b) => SerdeValue::from((&b.to_be_bytes()[..]).get_f64()),
    }
}

/// Hands a document over to `serde_json::Value`, member by member.
#[verifier::external_body]
pub(crate) fn to_serde(j: &Json) -> (r: serde_json::Value)
    ensures
        serde_tree(r) == j@,
{
    match j {
        Json::Null => SerdeValue::Null,
        Json::Bool(b) => SerdeValue::Bool(*b),
        Json::Number(n) => number_to_serde(n),
        Json::String(s) => SerdeValue::String(s.clone()),
        Json::Array(a) => SerdeValue::Array(a.iter().map(to_serde).collect()),
        Json::Object(o) => SerdeValue::Object(
            (0..o.len()).map(|i| (o.key(i).to_string(), to_serde(o.value(i)))).collect()),
    }
}

/// What `serde_json` reads in some bytes: a document, or the text of its error.
pub uninterp spec fn json_read(bytes: Seq<u8>) -> Result<Tree, Seq<char>>;

/// Reads a document with `serde_json::from_slice`.
#[verifier::external_body]
fn serde_from_slice(bytes: &[u8]) -> (r: Result<serde_json::Value, String>)
    ensures
        match r {
            Ok(v) => json_read(bytes@) == Ok::<Tree, Seq<char>>(serde_tree(v)),
            Err(e) => json_read(bytes@) == Err::<Tree, Seq<char>>(e@),
        },
{
    serde_json::from_slice(bytes).map_err(|e| e.to_string())
}

/// Reads a JSON document.
pub fn parse_json(bytes: &[u8]) -> (r: Result<Json, String>)
    ensures
        match r {
            Ok(v) => json_read(bytes@) == Ok::<Tree, Seq<char>>(v@),
            Err(e) => json_read(bytes@) == Err::<Tree, Seq<char>>(e@),
        },
{
    match serde_from_slice(bytes) {
        Ok(v) => Ok(from_serde(v)),
        Err(e) => Err(e),
    }
}

/// The compact text that `serde_json` writes for a document.
pub uninterp spec fn json_text(t: Tree) -> Seq<char>;

/// The key by which `serde_json` marks text that it takes over unread.
pub const RAW_KEY: &'static str = "$serde_json::private::RawValue";

/// A document that reads back as it was written: it holds no floating-point
/// number and no [`RAW_KEY`], and is nested at most `depth` levels.
pub open spec fn readable(t: Tree, depth: nat) -> bool
    decreases t,
{
    match t {
        Tree::Number(n) => !(n is Float),
        Tree::Array(a) => depth > 0 && forall|i: int|
            0 <= i < a.len() ==> readable(#[trigger] a[i], (depth - 1) as nat),
        Tree::Object(m) => depth > 0 && !m.contains_key(RAW_KEY@) && forall|k: Seq<char>|
            m.contains_key(k) ==> readable(#[trigger] m[k], (depth - 1) as nat),
        _ => true,
    }
}

/// `serde_json` reads the document `t` in some bytes.
pub open spec fn reads_as(bytes: Seq<u8>, t: Tree) -> bool {
    json_read(bytes) == Ok::<Tree, Seq<char>>(t)
}

/// The deepest nesting that `serde_json` reads.
pub const MAX_DEPTH: usize = 127;

/// Writes a document with `serde_json::to_string`. `serde_json::from_slice`
/// reads the text back as the same document; this is claimed of documents
/// without floating-point numbers and without the [`RAW_KEY`], within the depth to
/// which it reads.
#[verifier::external_body]
fn serde_to_string(v: &serde_json::Value) -> (r: String)
    ensures
        r@ == json_text(serde_tree(*v)),
        readable(serde_tree(*v), MAX_DEPTH as nat) ==> reads_as(encode_utf8(r@), serde_tree(*v)),
{
    serde_json::to_string(v).unwrap_or_default()
}

/// Writes a document as compact JSON.
pub fn write_json(j: &Json) -> (r: String)
    ensures
        r@ == json_text(j@),
        readable(j@, MAX_DEPTH as nat) ==> reads_as(encode_utf8(r@), j@),
{
    let v = to_serde(j);
    serde_to_string(&v)
}

// ---------------------------------------------------------------------------
// YAML
// ---------------------------------------------------------------------------

/// What `serde_yaml` reads in some bytes as one JSON document: the document,
/// or the text of its error.
pub uninterp spec fn yaml_read(bytes: Seq<u8>) -> Result<Tree, Seq<char>>;

/// Reads one document with `serde_yaml::from_slice`.
#[verifier::external_body]
fn yaml_from_slice(bytes: &[u8]) -> (r: Result<serde_json::Value, String>)
    ensures
        match r {
            Ok(v) => yaml_read(bytes@) == Ok::<Tree, Seq<char>>(serde_tree(v)),
            Err(e) => yaml_read(bytes@) == Err::<Tree, Seq<char>>(e@),
        },
{
    serde_yaml::from_slice(bytes).map_err(|e| e.to_string())
}

/// Reads one YAML document.
pub fn parse_yaml(bytes: &[u8]) -> (r: Result<Json, String>)
    ensures
        match r {
            Ok(v) => yaml_read(bytes@) == Ok::<Tree, Seq<char>>(v@),
            Err(e) => yaml_read(bytes@) == Err::<Tree, Seq<char>>(e@),
        },
{
    match yaml_from_slice(bytes) {
        Ok(v) => Ok(from_serde(v)),
        Err(e) => Err(e),
    }
}

/// Whether a YAML stream has a document at a place and, where it has, why that
/// document is cut off: an error of syntax, or an alias without an anchor. None
/// inside where it is whole.
pub uninterp spec fn yaml_fault(text: Seq<char>, n: nat) -> Option<Option<Seq<char>>>;

/// Why the document at a place of a YAML stream is no boolean. For one that is cut
/// off before it has begun this is why it is cut off.
pub uninterp spec fn yaml_flag_fault(text: Seq<char>, n: nat) -> Option<Seq<char>>;

/// The document at a place of a YAML stream; none where it cannot be read, or JSON
/// cannot hold it.
pub uninterp spec fn yaml_document(text: Seq<char>, n: nat) -> Option<Tree>;

/// The document at a place is nothing but an alias without an anchor.
pub open spec fn bare_alias(text: Seq<char>, n: nat) -> bool {
    yaml_fault(text, n) matches Some(Some(_)) && match yaml_flag_fault(text, n) {
        Some(e) => has_prefix(e, "unknown anchor"@),
        None => false,
    }
}

/// The stream is read up to a place, and there a document begins or the stream ends:
/// every document before it is whole, or is a bare alias, behind which its own end
/// takes a place too.
pub open spec fn reached(text: Seq<char>, n: nat) -> bool {
    forall|m: nat| m < n ==> #[trigger] yaml_fault(text, m) == Some(None::<Seq<char>>) || bare_alias(
        text,
        m,
    ) || (m > 0 && bare_alias(text, (m - 1) as nat))
}

/// A verdict on a document as text.
pub open spec fn fault_view(r: Option<Option<String>>) -> Option<Option<Seq<char>>> {
    match r {
        Some(Some(e)) => Some(Some(e@)),
        Some(None) => Some(None),
        None => None,
    }
}

/// Looks at the document at a place with `serde::de::IgnoredAny`, which reads every
/// event of it from `serde_yaml::Deserializer::from_str` and keeps none. Where a
/// document is cut off within a collection, the rest of it would be taken for the
/// next one, and `serde_yaml` panics on the end of that collection: such a place is
/// not gone behind.
#[verifier::external_body]
pub(crate) fn document_fault(text: &str, n: usize) -> (r: Option<Option<String>>)
    requires
        reached(text@, n as nat),
    ensures
        fault_view(r) == yaml_fault(text@, n as nat),
{
    serde_yaml::Deserializer::from_str(text).nth(n).map(|doc| {
        let read = <serde::de::IgnoredAny as serde::Deserialize>::deserialize(doc);
        read.err().map(|e| e.to_string())
    })
}

/// Reads the document at a place as a boolean with `serde_yaml::Deserializer`. Of a
/// collection or a text the error says what was found instead; of a document that
/// has no events it is the one that cut the document off.
#[verifier::external_body]
pub(crate) fn document_flag_fault(text: &str, n: usize) -> (r: Option<String>)
    requires
        reached(text@, n as nat),
    ensures
        opt_text(r) == yaml_flag_fault(text@, n as nat),
{
    let doc = serde_yaml::Deserializer::from_str(text).nth(n)?;
    <bool as serde::Deserialize>::deserialize(doc).err().map(|e| e.to_string())
}

/// Reads the document at a place with `serde_yaml::Deserializer::from_str` as a
/// `serde_yaml::Value`, which `serde_json::to_value` turns into JSON.
#[verifier::external_body]
pub(crate) fn read_document(text: &str, n: usize) -> (r: Option<Json>)
    requires
        reached(text@, n as nat),
    ensures
        match r {
            Some(v) => yaml_document(text@, n as nat) == Some(v@),
            None => yaml_document(text@, n as nat) is None,
        },
{
    let doc = serde_yaml::Deserializer::from_str(text).nth(n)?;
    let read = <serde_yaml::Value as serde::Deserialize>::deserialize(doc);
    read.ok().and_then(|v| serde_json::to_value(v).ok()).map(from_serde)
}

// ---------------------------------------------------------------------------
// JSON Patch
// ---------------------------------------------------------------------------

/// Why a JSON Patch was not applied.
pub enum PatchFailure {
    /// The document is no list of operations.
    Malformed(String),
    /// An operation failed.
    Failed(String),
}

/// A [`PatchFailure`] as text.
pub ghost enum PatchFailureView {
    Malformed(Seq<char>),
    Failed(Seq<char>),
}

impl View for PatchFailure {
    type V = PatchFailureView;

    open spec fn view(&self) -> PatchFailureView {
        match self {
            PatchFailure::Malformed(s) => PatchFailureView::Malformed(s@),
            PatchFailure::Failed(s) => PatchFailureView::Failed(s@),
        }
    }
}

/// A list of operations of RFC 6902.
#[verifier::external_type_specification]
#[verifier::external_body]
pub struct ExPatch(json_patch::Patch);

/// One of the operations.
#[verifier::external_type_specification]
#[verifier::external_body]
pub struct ExPatchOperation(json_patch::PatchOperation);

/// The document that a list of operations was read from.
pub uninterp spec fn patch_source(patch: json_patch::Patch) -> Tree;

/// Why a document is no list of operations; none where it is one.
pub uninterp spec fn patch_error(ops: Tree) -> Option<Seq<char>>;

/// Reads a list of operations with `serde_json::from_value`.
#[verifier::external_body]
fn read_operations(ops: &Json) -> (r: Result<json_patch::Patch, String>)
    ensures
        match r {
            Ok(p) => patch_error(ops@) is None && patch_source(p) == ops@,
            Err(e) => patch_error(ops@) == Some(e@),
        },
{
    serde_json::from_value(to_serde(ops)).map_err(|e| e.to_string())
}

/// What the operations that `ops` lists make of `doc`, or the text of the error.
pub uninterp spec fn json_patched(doc: Tree, ops: Tree) -> Result<Tree, Seq<char>>;

/// Applies a list of operations to a copy of a document with
/// `json_patch::patch_unsafe`, which does not undo those before one that fails.
#[verifier::external_body]
fn run_operations(doc: &Json, patch: &json_patch::Patch) -> (r: Result<Json, String>)
    ensures
        match r {
            Ok(v) => json_patched(doc@, patch_source(*patch)) == Ok::<Tree, Seq<char>>(v@),
            Err(e) => json_patched(doc@, patch_source(*patch)) == Err::<Tree, Seq<char>>(e@),
        },
{
    let mut target = to_serde(doc);
    json_patch::patch_unsafe(&mut target, patch).map_err(|e| e.to_string())?;
    Ok(from_serde(target))
}

/// What a document makes of another, where it lists operations of RFC 6902.
pub open spec fn patch_result(doc: Tree, ops: Tree) -> Result<Tree, PatchFailureView> {
    match patch_error(ops) {
        Some(e) => Err(PatchFailureView::Malformed(e)),
        None => match json_patched(doc, ops) {
            Ok(t) => Ok(t),
            Err(e) => Err(PatchFailureView::Failed(e)),
        },
    }
}

/// Applies the operations of RFC 6902 that a document lists.
pub fn apply_operations(doc: &Json, ops: &Json) -> (r: Result<Json, PatchFailure>)
    ensures
        match r {
            Ok(v) => patch_result(doc@, ops@) == Ok::<Tree, PatchFailureView>(v@),
            Err(e) => patch_result(doc@, ops@) == Err::<Tree, PatchFailureView>(e@),
        },
{
    match read_operations(ops) {
        Ok(patch) => match run_operations(doc, &patch) {
            Ok(v) => Ok(v),
            Err(e) => Err(PatchFailure::Failed(e)),
        },
        Err(e) => Err(PatchFailure::Malformed(e)),
    }
}

// ---------------------------------------------------------------------------
// Query strings
// ---------------------------------------------------------------------------

/// The keys and values of a query string, decoded, in order.
pub uninterp spec fn form_pairs(query: Seq<char>) -> Seq<(Seq<char>, Seq<char>)>;

/// Pairs of strings as pairs of texts.
pub open spec fn pair_texts(s: Seq<(String, String)>) -> Seq<(Seq<char>, Seq<char>)> {
    s.map_values(|p: (String, String)| (p.0@, p.1@))
}

/// Reads a query string with `form_urlencoded::parse`.
#[verifier::external_body]
pub(crate) fn query_pairs(query: &str) -> (r: Vec<(String, String)>)
    ensures
        pair_texts(r@) == form_pairs(query@),
{
    form_urlencoded::parse(query.as_bytes())
        .map(|(k, v)| (k.into_owned(), v.into_owned()))
        .collect()
}

/// `text` as it is written in a query string.
pub uninterp spec fn form_encoded(text: Seq<char>) -> Seq<char>;

/// Encodes a text for a query string with `form_urlencoded::byte_serialize`.
#[verifier::external_body]
pub(crate) fn query_encode(text: &str) -> (r: String)
    ensures
        r@ == form_encoded(text@),
{
    form_urlencoded::byte_serialize(text.as_bytes()).collect()
}

// ---------------------------------------------------------------------------
// Base64
// ---------------------------------------------------------------------------

/// Bytes in the standard alphabet of base64, with padding.
pub uninterp spec fn base64_text(bytes: Seq<u8>) -> Seq<char>;

/// Writes bytes with `base64::engine::general_purpose::STANDARD`, which reads them
/// back.
#[verifier::external_body]
pub(crate) fn write_base64(bytes: &[u8]) -> (r: String)
    ensures
        r@ == base64_text(bytes@),
        base64_bytes(r@) == Some(bytes@),
{
    base64::Engine::encode(&base64::engine::general_purpose::STANDARD, bytes)
}

/// The bytes that a text in base64 holds; none where it is none.
pub uninterp spec fn base64_bytes(text: Seq<char>) -> Option<Seq<u8>>;

/// Reads bytes with `base64::engine::general_purpose::STANDARD`.
#[verifier::external_body]
pub(crate) fn read_base64(text: &str) -> (r: Option<Vec<u8>>)
    ensures
        opt_bytes(r) == base64_bytes(text@),
{
    base64::Engine::decode(&base64::engine::general_purpose::STANDARD, text).ok()
}

// ---------------------------------------------------------------------------
// Headers
// ---------------------------------------------------------------------------

/// A character that may stand in the name of a header.
pub open spec fn token_char(c: char) -> bool {
    ||| '0' <= c <= '9'
    ||| 'A' <= c <= 'Z'
    ||| 'a' <= c <= 'z'
    ||| "!#$%&'*+-.^_`|~"@.contains(c)
}

/// The name of a header in its canonical form, which is lower case; none where
/// the text is no name.
pub open spec fn header_name(text: Seq<char>) -> Option<Seq<char>> {
    if 0 < text.len() <= 65535 && forall|i: int| 0 <= i < text.len() ==> token_char(
        #[trigger] text[i],
    ) {
        Some(text.map_values(|c: char| ascii_lower(c)))
    } else {
        None
    }
}

/// Reads the name of a header with `axum::http::HeaderName::from_str`. It takes
/// the characters of a token, 65535 at most, and lowers them.
#[verifier::external_body]
pub(crate) fn read_header_name(text: &str) -> (r: Option<String>)
    ensures
        opt_text(r) == header_name(text@),
{
    text.parse::<axum::http::HeaderName>().ok().map(|n| n.as_str().to_owned())
}

/// A text that can be the value of a header: no control character but the tab.
pub open spec fn header_value(text: Seq<char>) -> bool {
    forall|i: int|
        0 <= i < text.len() ==> (#[trigger] text[i]) == '\t' || (text[i] >= ' ' && text[i]
            != '\x7f')
}

/// Whether `axum::http::HeaderValue::from_str` takes a text. It takes the bytes
/// from 32 on, except 127, and the tab.
#[verifier::external_body]
pub(crate) fn is_header_value(text: &str) -> (r: bool)
    ensures
        r == header_value(text@),
{
    axum::http::HeaderValue::from_str(text).is_ok()
}

/// A text is the name of a server, as TLS has it: a DNS name or an address.
pub uninterp spec fn server_name(text: Seq<char>) -> bool;

/// Whether `rustls::pki_types::ServerName::try_from` takes a text.
#[verifier::external_body]
pub(crate) fn is_server_name(text: &str) -> (r: bool)
    ensures
        r == server_name(text@),
{
    rustls::pki_types::ServerName::try_from(text).is_ok()
}

// ---------------------------------------------------------------------------
// Bytes as text
// ---------------------------------------------------------------------------

/// `bytes` read as UTF-8, with U+FFFD where they are not.
pub uninterp spec fn lossy_text(bytes: Seq<u8>) -> Seq<char>;

/// Reads bytes as text with `String::from_utf8_lossy`. What is UTF-8 is read as it
/// is.
#[verifier::external_body]
pub(crate) fn text_of_bytes(bytes: &[u8]) -> (r: String)
    ensures
        r@ == lossy_text(bytes@),
        valid_utf8(bytes@) ==> r@ == decode_utf8(bytes@),
{
    String::from_utf8_lossy(bytes).into_owned()
}

/// Reads bytes as text with `std::str::from_utf8`.
#[verifier::external_body]
pub(crate) fn utf8_text(bytes: &[u8]) -> (r: Option<&str>)
    ensures
        match r {
            Some(s) => valid_utf8(bytes@) && s@ == decode_utf8(bytes@),
            None => !valid_utf8(bytes@),
        },
{
    std::str::from_utf8(bytes).ok()
}

/// `text` between quotation marks, with its special characters escaped.
pub uninterp spec fn quoted_text(text: Seq<char>) -> Seq<char>;

/// Quotes a text as `{:?}` does.
#[verifier::external_body]
pub(crate) fn quoted(text: &str) -> (r: String)
    ensures
        r@ == quoted_text(text@),
{
    format!("{text:?}")
}

/// `c` in lower case, for an ASCII character.
pub open spec fn ascii_lower(c: char) -> char {
    if 'A' <= c <= 'Z' {
        (c as u8 + 32) as u8 as char
    } else {
        c
    }
}

/// `text` in lower case.
pub uninterp spec fn lower_case(text: Seq<char>) -> Seq<char>;

/// Lower case by `str::to_lowercase`. An ASCII text is lowered character by
/// character.
#[verifier::external_body]
pub(crate) fn lowered(text: &str) -> (r: String)
    ensures
        r@ == lower_case(text@),
        is_ascii_chars(text@) ==> r@ == text@.map_values(|c: char| ascii_lower(c)),
{
    text.to_lowercase()
}

// ---------------------------------------------------------------------------
// Time and identity
// ---------------------------------------------------------------------------

/// A point in time: seconds and nanoseconds since 1970-01-01T00:00:00Z.
#[derive(Clone, Copy, Debug)]
pub struct Moment {
    pub secs: i64,
    pub nanos: u32,
}

/// The time, from `chrono::Utc::now`. Its nanoseconds run on into a leap second.
#[verifier::external_body]
pub(crate) fn now_moment() -> (r: Moment)
    ensures
        r.nanos < 2000000000,
{
    let now = chrono::Utc::now();
    Moment { secs: now.timestamp(), nanos: now.timestamp_subsec_nanos() }
}

/// A text of the form `%Y-%m-%dT%H:%M:%SZ`: a year of four characters or more, and
/// behind it five fields of two, between the literal characters of the form.
pub open spec fn time_shaped(s: Seq<char>) -> bool {
    &&& s.len() >= 20
    &&& s[s.len() - 16] == '-'
    &&& s[s.len() - 13] == '-'
    &&& s[s.len() - 10] == 'T'
    &&& s[s.len() - 7] == ':'
    &&& s[s.len() - 4] == ':'
    &&& s[s.len() - 1] == 'Z'
}

/// The time, from `chrono::Utc::now`, written as `%Y-%m-%dT%H:%M:%SZ`. What it is
/// rests on the clock; the form does not.
#[verifier::external_body]
pub(crate) fn now_text() -> (r: String)
    ensures
        time_shaped(r@),
{
    chrono::Utc::now().format("%Y-%m-%dT%H:%M:%SZ").to_string()
}

/// A point in time, seconds and nanoseconds since 1970-01-01T00:00:00Z, written
/// to the second; none where it is no date.
pub uninterp spec fn second_text(secs: int, nanos: int) -> Option<Seq<char>>;

/// Writes a time with `chrono`, as `%Y-%m-%dT%H:%M:%SZ`. What is a date is written in
/// that form, and every whole second of the years from 0 to 9999 is one.
#[verifier::external_body]
pub(crate) fn write_seconds(secs: i64, nanos: u32) -> (r: Option<String>)
    ensures
        opt_text(r) == second_text(secs as int, nanos as int),
        match r {
            Some(t) => time_shaped(t@),
            None => nanos > 0 || secs < -62167219200 || secs > 253402300799,
        },
{
    let at = chrono::DateTime::from_timestamp(secs, nanos)?;
    Some(at.format("%Y-%m-%dT%H:%M:%SZ").to_string())
}

/// A point in time written to the microsecond; none where it is no date.
pub uninterp spec fn micro_text(secs: int, nanos: int) -> Option<Seq<char>>;

/// Writes a time with `chrono`, as `%Y-%m-%dT%H:%M:%S%.6fZ`.
#[verifier::external_body]
pub(crate) fn write_micros(secs: i64, nanos: u32) -> (r: Option<String>)
    ensures
        opt_text(r) == micro_text(secs as int, nanos as int),
{
    let at = chrono::DateTime::from_timestamp(secs, nanos)?;
    Some(at.format("%Y-%m-%dT%H:%M:%S%.6fZ").to_string())
}

/// The seconds and nanoseconds of an RFC 3339 time; none where the text is none.
pub uninterp spec fn rfc3339(text: Seq<char>) -> Option<(i64, u32)>;

/// Reads a time with `chrono::DateTime::parse_from_rfc3339`. Its year has four
/// digits, its offset is less than a day, and its nanoseconds run on into a leap
/// second. A text of fewer than 19 bytes is too short to be one.
#[verifier::external_body]
pub(crate) fn read_rfc3339(text: &str) -> (r: Option<(i64, u32)>)
    ensures
        r == rfc3339(text@),
        match r {
            Some((secs, nanos)) => -62167305600 <= secs <= 253402387200 && nanos < 2000000000
                && encode_utf8(text@).len() >= 19,
            None => true,
        },
{
    let at = chrono::DateTime::parse_from_rfc3339(text).ok()?;
    Some((at.timestamp(), at.timestamp_subsec_nanos()))
}

/// The hyphenated form of a random identity: groups of 8, 4, 4, 4 and 12 lower-case
/// hexadecimal digits, of version 4 and the variant of RFC 4122.
pub open spec fn uid_shaped(s: Seq<char>) -> bool {
    &&& s.len() == 36
    &&& s[14] == '4'
    &&& s[19] == '8' || s[19] == '9' || s[19] == 'a' || s[19] == 'b'
    &&& forall|i: int|
        0 <= i < 36 ==> if i == 8 || i == 13 || i == 18 || i == 23 {
            (#[trigger] s[i]) == '-'
        } else {
            '0' <= s[i] <= '9' || 'a' <= s[i] <= 'f'
        }
}

/// A random identity from `uuid::Uuid::new_v4`, in its hyphenated form. Which one
/// it is rests on chance.
#[verifier::external_body]
pub(crate) fn fresh_uid() -> (r: String)
    ensures
        uid_shaped(r@),
{
    uuid::Uuid::new_v4().to_string()
}

/// A random number from `uuid::Uuid::new_v4`.
#[verifier::external_body]
pub(crate) fn random_number() -> u64 {
    uuid::Uuid::new_v4().as_u128() as u64
}

// ---------------------------------------------------------------------------
// Certificates and tokens
// ---------------------------------------------------------------------------

/// What the subject of a certificate says: its first common name, where that
/// is a string, and its organizations, each where it is a string.
pub uninterp spec fn certificate_subject(der: Seq<u8>) -> Option<
    (Option<Seq<char>>, Seq<Option<Seq<char>>>),
>;

/// Optional strings as optional texts.
pub open spec fn optional_texts(s: Seq<Option<String>>) -> Seq<Option<Seq<char>>> {
    s.map_values(|o: Option<String>| match o { Some(v) => Some(v@), None => None })
}

/// Reads the subject of a certificate with `x509_parser`: the first of
/// `iter_common_name` and all of `iter_organization`, each by `as_str`.
#[verifier::external_body]
pub(crate) fn read_subject(der: &[u8]) -> (r: Option<(Option<String>, Vec<Option<String>>)>)
    ensures
        match r {
            Some((cn, orgs)) => certificate_subject(der@) == Some(
                (crate::text::opt_text(cn), optional_texts(orgs@)),
            ),
            None => certificate_subject(der@) is None,
        },
{
    let (_, cert) = x509_parser::parse_x509_certificate(der).ok()?;
    let subject = cert.subject();
    let cn = subject.iter_common_name().next().and_then(|a| a.as_str().ok().map(str::to_string));
    let orgs = subject.iter_organization().map(|a| a.as_str().ok().map(str::to_string)).collect();
    Some((cn, orgs))
}

/// A key that signs tokens.
#[verifier::external_type_specification]
#[verifier::external_body]
pub struct ExEncodingKey(jsonwebtoken::EncodingKey);

/// A key that verifies tokens.
#[verifier::external_type_specification]
#[verifier::external_body]
pub struct ExDecodingKey(jsonwebtoken::DecodingKey);

/// What a key was made from: a shared secret, or a PEM.
pub ghost enum KeyMaterial {
    Secret(Seq<char>),
    Pem(Seq<u8>),
}

/// How tokens are signed: with a shared secret by HS256, or with a pair of RSA
/// keys by RS256.
#[derive(Debug, Clone, Copy, PartialEq, Eq, Structural)]
pub enum Signing {
    Hmac,
    Rsa,
}

/// What a key that signs was made from.
pub uninterp spec fn signer_material(key: jsonwebtoken::EncodingKey) -> KeyMaterial;

/// What a key that verifies was made from.
pub uninterp spec fn verifier_material(key: jsonwebtoken::DecodingKey) -> KeyMaterial;

/// The signing half of a shared secret: `EncodingKey::from_secret`.
#[verifier::external_body]
pub(crate) fn secret_signer(secret: &str) -> (r: jsonwebtoken::EncodingKey)
    ensures
        signer_material(r) == KeyMaterial::Secret(secret@),
{
    jsonwebtoken::EncodingKey::from_secret(secret.as_bytes())
}

/// The verifying half of a shared secret: `DecodingKey::from_secret`.
#[verifier::external_body]
pub(crate) fn secret_verifier(secret: &str) -> (r: jsonwebtoken::DecodingKey)
    ensures
        verifier_material(r) == KeyMaterial::Secret(secret@),
{
    jsonwebtoken::DecodingKey::from_secret(secret.as_bytes())
}

/// Why a PEM holds no RSA private key; none where it does.
pub uninterp spec fn private_key_error(pem: Seq<u8>) -> Option<Seq<char>>;

/// Reads an RSA private key: `EncodingKey::from_rsa_pem`. The error is its
/// text.
#[verifier::external_body]
pub(crate) fn rsa_signer(pem: &[u8]) -> (r: Result<jsonwebtoken::EncodingKey, String>)
    ensures
        match r {
            Ok(k) => private_key_error(pem@) is None && signer_material(k) == KeyMaterial::Pem(
                pem@,
            ),
            Err(e) => private_key_error(pem@) == Some(e@),
        },
{
    jsonwebtoken::EncodingKey::from_rsa_pem(pem).map_err(|e| e.to_string())
}

/// Why a PEM holds no RSA public key; none where it does.
pub uninterp spec fn public_key_error(pem: Seq<u8>) -> Option<Seq<char>>;

/// Reads an RSA public key: `DecodingKey::from_rsa_pem`. The error is its
/// text.
#[verifier::external_body]
pub(crate) fn rsa_verifier(pem: &[u8]) -> (r: Result<jsonwebtoken::DecodingKey, String>)
    ensures
        match r {
            Ok(k) => public_key_error(pem@) is None && verifier_material(k) == KeyMaterial::Pem(
                pem@,
            ),
            Err(e) => public_key_error(pem@) == Some(e@),
        },
{
    jsonwebtoken::DecodingKey::from_rsa_pem(pem).map_err(|e| e.to_string())
}

/// The signature of a token verifies with a key made from some material.
pub uninterp spec fn signature_holds(signing: Signing, material: KeyMaterial, token: Seq<char>) -> bool;

/// What the claims of a token say, as `jsonwebtoken` reads them.
pub uninterp spec fn token_claims(token: Seq<char>) -> Tree;

/// The token that `jsonwebtoken` makes of claims with a key of some material; none
/// where it does not sign with it.
pub uninterp spec fn signed_token(
    signing: Signing,
    material: KeyMaterial,
    claims: Tree,
) -> Option<Seq<char>>;

/// Signs claims with `jsonwebtoken::encode`, by HS256 or by RS256, both of which give
/// one signature for one message and key. The token holds the claims, and
/// `jsonwebtoken` reads them back as they were; this is claimed of claims that
/// `serde_json` reads back. A shared secret signs every document by HS256, and its
/// signature verifies with the same secret. A key does not sign by the algorithm of
/// the other kind of key. Nothing is claimed of which public key verifies what a
/// private key signs, nor of which private keys sign.
#[verifier::external_body]
pub(crate) fn sign_claims(
    signing: Signing,
    claims: &serde_json::Value,
    key: &jsonwebtoken::EncodingKey,
) -> (r: Option<String>)
    ensures
        opt_text(r) == signed_token(signing, signer_material(*key), serde_tree(*claims)),
        match r {
            Some(t) => (signing == Signing::Hmac <==> signer_material(*key) is Secret) && (readable(
                serde_tree(*claims),
                MAX_DEPTH as nat,
            ) ==> token_claims(t@) == serde_tree(*claims)),
            None => true,
        },
        signing == Signing::Hmac && signer_material(*key) is Secret ==> r is Some
            && signature_holds(signing, signer_material(*key), r->0@),
{
    let algorithm = match signing {
        Signing::Hmac => jsonwebtoken::Algorithm::HS256,
        Signing::Rsa => jsonwebtoken::Algorithm::RS256,
    };
    jsonwebtoken::encode(&jsonwebtoken::Header::new(algorithm), claims, key).ok()
}

/// Claims name an audience: a string, or a list of strings.
pub open spec fn names_audience(claims: Tree) -> bool {
    match claims.at("aud"@) {
        Tree::String(_) => true,
        Tree::Array(a) => forall|i: int| 0 <= i < a.len() ==> (#[trigger] a[i]) is String,
        _ => false,
    }
}

/// Verifies a token with `jsonwebtoken::decode` under the default
/// `Validation` of the algorithm, and hands out its claims. What passes is signed
/// with the key; where the claims are an object, it names a numeric `exp` and no
/// audience. Whether a token with a good signature passes rests on
/// the time.
#[verifier::external_body]
pub(crate) fn verify_token(
    token: &str,
    signing: Signing,
    key: &jsonwebtoken::DecodingKey,
) -> (r: Option<serde_json::Value>)
    ensures
        match r {
            Some(v) => signature_holds(signing, verifier_material(*key), token@) && serde_tree(v)
                == token_claims(token@) && (serde_tree(v) is Object ==> serde_tree(v).at(
                "exp"@,
            ) is Number && !names_audience(serde_tree(v))),
            None => true,
        },
{
    let mut validation = jsonwebtoken::Validation::new(match signing {
        Signing::Hmac => jsonwebtoken::Algorithm::HS256,
        Signing::Rsa => jsonwebtoken::Algorithm::RS256,
    });
    validation.validate_exp = true;
    jsonwebtoken::decode::<serde_json::Value>(token, key, &validation).ok().map(|t| t.claims)
}

// ---------------------------------------------------------------------------
// Certificates
// ---------------------------------------------------------------------------

/// The second at which the first certificate of a PEM expires; none where it is
/// no certificate.
pub uninterp spec fn certificate_expiry(pem: Seq<u8>) -> Option<int>;

/// Reads the end of a certificate's validity with `x509_parser`.
#[verifier::external_body]
pub(crate) fn read_expiry(pem: &[u8]) -> (r: Option<i64>)
    ensures
        match r {
            Some(t) => certificate_expiry(pem@) == Some(t as int),
            None => certificate_expiry(pem@) is None,
        },
{
    let (_, block) = x509_parser::pem::parse_x509_pem(pem).ok()?;
    let (_, cert) = x509_parser::parse_x509_certificate(&block.contents).ok()?;
    Some(cert.validity().not_after.timestamp())
}

/// What a self-signed certificate was made of.
pub ghost struct CertificateView {
    /// The common name of its subject.
    pub common_name: Seq<char>,
    /// The names that it is for.
    pub names: Seq<Seq<char>>,
    /// Whether it is an authority.
    pub authority: bool,
    /// The first second of its validity.
    pub from: int,
    /// The last second of its validity.
    pub to: int,
    /// Its private key, as PEM.
    pub key: Seq<char>,
}

/// What the certificate that `rcgen` wrote as a PEM was made of.
pub uninterp spec fn certificate_contents(pem: Seq<char>) -> CertificateView;

/// `pem` expires at a second.
pub open spec fn expires_at(pem: Seq<char>, to: int) -> bool {
    certificate_expiry(encode_utf8(pem)) == Some(to)
}

/// Makes a self-signed certificate for some names with `rcgen`, and a fresh key:
/// `CertificateParams::self_signed` with the names, the common name and the span
/// that it is given, within the years that it can write, from 0 to 9999. The
/// certificate says the end of that span, as `x509_parser` reads it.
#[verifier::external_body]
pub(crate) fn new_server_certificate(cn: &str, names: &Vec<String>, from: i64, to: i64) -> (r: Result<
    (String, String),
    String,
>)
    requires
        -62167219200 <= from <= to <= 253402300799,
    ensures
        match r {
            Ok(made) => expires_at(made.0@, to as int) && certificate_contents(made.0@) == (
            CertificateView {
                common_name: cn@,
                names: texts(names@),
                authority: false,
                from: from as int,
                to: to as int,
                key: made.1@,
            }),
            Err(e) => true,
        },
{
    let key = rcgen::KeyPair::generate().map_err(|e| e.to_string())?;
    let mut params = rcgen::CertificateParams::new(names.to_vec()).map_err(|e| e.to_string())?;
    params.distinguished_name.push(rcgen::DnType::CommonName, cn);
    let from = chrono::DateTime::from_timestamp(from, 0).unwrap_or_default();
    let to = chrono::DateTime::from_timestamp(to, 0).unwrap_or_default();
    params.not_before = std::time::SystemTime::from(from).into();
    params.not_after = std::time::SystemTime::from(to).into();
    let cert = params.self_signed(&key).map_err(|e| e.to_string())?;
    Ok((cert.pem(), key.serialize_pem()))
}

/// Makes a self-signed authority with `rcgen`, and a fresh key:
/// `CertificateParams::self_signed` with the common name and the span that it is
/// given, within the years that it can write, from 0 to 9999. The certificate says
/// the end of that span, as `x509_parser` reads it.
#[verifier::external_body]
pub(crate) fn new_authority_certificate(cn: &str, from: i64, to: i64) -> (r: Result<
    (String, String),
    String,
>)
    requires
        -62167219200 <= from <= to <= 253402300799,
    ensures
        match r {
            Ok(made) => expires_at(made.0@, to as int) && certificate_contents(made.0@) == (
            CertificateView {
                common_name: cn@,
                names: Seq::empty(),
                authority: true,
                from: from as int,
                to: to as int,
                key: made.1@,
            }),
            Err(e) => true,
        },
{
    let key = rcgen::KeyPair::generate().map_err(|e| e.to_string())?;
    let mut params = rcgen::CertificateParams::default();
    params.is_ca = rcgen::IsCa::Ca(rcgen::BasicConstraints::Unconstrained);
    params.distinguished_name.push(rcgen::DnType::CommonName, cn);
    let from = chrono::DateTime::from_timestamp(from, 0).unwrap_or_default();
    let to = chrono::DateTime::from_timestamp(to, 0).unwrap_or_default();
    params.not_before = std::time::SystemTime::from(from).into();
    params.not_after = std::time::SystemTime::from(to).into();
    let cert = params.self_signed(&key).map_err(|e| e.to_string())?;
    Ok((cert.pem(), key.serialize_pem()))
}

/// Rows of bytes.
pub open spec fn byte_rows(v: Seq<Vec<u8>>) -> Seq<Seq<u8>> {
    v.map_values(|b: Vec<u8>| b@)
}

/// The sections of a PEM that are certificates, in order: each as DER, or the text
/// of its error.
pub uninterp spec fn pem_certificates(pem: Seq<u8>) -> Seq<Result<Seq<u8>, Seq<char>>>;

/// Sections as bytes and text.
pub open spec fn section_views(v: Seq<Result<Vec<u8>, String>>) -> Seq<
    Result<Seq<u8>, Seq<char>>,
> {
    v.map_values(
        |c: Result<Vec<u8>, String>|
            match c {
                Ok(der) => Ok(der@),
                Err(e) => Err(e@),
            },
    )
}

/// Reads the certificates of a PEM with `rustls_pemfile::certs`, which goes on
/// behind a section that it cannot read.
#[verifier::external_body]
pub(crate) fn read_certificates(pem: &[u8]) -> (r: Vec<Result<Vec<u8>, String>>)
    ensures
        section_views(r@) == pem_certificates(pem@),
{
    let mut reader = pem;
    rustls_pemfile::certs(&mut reader)
        .map(|c| c.map(|der| der.to_vec()).map_err(|e| e.to_string()))
        .collect()
}

/// A private key as DER, in one of three forms.
pub enum PrivateKey {
    Pkcs1(Vec<u8>),
    Sec1(Vec<u8>),
    Pkcs8(Vec<u8>),
}

/// A [`PrivateKey`] as bytes.
pub ghost enum PrivateKeyView {
    Pkcs1(Seq<u8>),
    Sec1(Seq<u8>),
    Pkcs8(Seq<u8>),
}

impl View for PrivateKey {
    type V = PrivateKeyView;

    open spec fn view(&self) -> PrivateKeyView {
        match self {
            PrivateKey::Pkcs1(b) => PrivateKeyView::Pkcs1(b@),
            PrivateKey::Sec1(b) => PrivateKeyView::Sec1(b@),
            PrivateKey::Pkcs8(b) => PrivateKeyView::Pkcs8(b@),
        }
    }
}

/// The first private key of a PEM, or the text of the error.
pub uninterp spec fn pem_private_key(pem: Seq<u8>) -> Result<Option<PrivateKeyView>, Seq<char>>;

/// A result as a view.
pub open spec fn private_key_view(r: Result<Option<PrivateKey>, String>) -> Result<
    Option<PrivateKeyView>,
    Seq<char>,
> {
    match r {
        Ok(Some(k)) => Ok(Some(k@)),
        Ok(None) => Ok(None),
        Err(e) => Err(e@),
    }
}

/// Reads the first private key of a PEM with `rustls_pemfile::private_key`.
#[verifier::external_body]
pub(crate) fn read_private_key(pem: &[u8]) -> (r: Result<Option<PrivateKey>, String>)
    ensures
        private_key_view(r) == pem_private_key(pem@),
{
    let mut reader = pem;
    match rustls_pemfile::private_key(&mut reader) {
        Ok(Some(rustls::pki_types::PrivateKeyDer::Pkcs1(k))) => {
            Ok(Some(PrivateKey::Pkcs1(k.secret_pkcs1_der().to_vec())))
        },
        Ok(Some(rustls::pki_types::PrivateKeyDer::Sec1(k))) => {
            Ok(Some(PrivateKey::Sec1(k.secret_sec1_der().to_vec())))
        },
        Ok(Some(k)) => Ok(Some(PrivateKey::Pkcs8(k.secret_der().to_vec()))),
        Ok(None) => Ok(None),
        Err(e) => Err(e.to_string()),
    }
}

/// Why a private key cannot sign for a server; none where it can.
pub uninterp spec fn signing_key_error(key: PrivateKeyView) -> Option<Seq<char>>;

/// Tries a private key with `rustls::crypto::ring::sign::any_supported_type`, which
/// reads it as RSA, ECDSA or EdDSA. The error is its `Display` text. What an ECDSA
/// key is seeded with besides does not enter the verdict.
#[verifier::external_body]
pub(crate) fn check_signing_key(key: &PrivateKey) -> (r: Option<String>)
    ensures
        opt_text(r) == signing_key_error(key@),
{
    let der = match key {
        PrivateKey::Pkcs1(d) => rustls::pki_types::PrivateKeyDer::Pkcs1(d.as_slice().into()),
        PrivateKey::Sec1(d) => rustls::pki_types::PrivateKeyDer::Sec1(d.as_slice().into()),
        PrivateKey::Pkcs8(d) => rustls::pki_types::PrivateKeyDer::Pkcs8(d.as_slice().into()),
    };
    rustls::crypto::ring::sign::any_supported_type(&der).err().map(|e| e.to_string())
}

/// The certificates that client certificates are verified against.
#[verifier::external_type_specification]
#[verifier::external_body]
pub struct ExRootCertStore(rustls::RootCertStore);

/// A trust anchor: what a certificate is trusted by.
pub ghost struct AnchorView {
    pub subject: Seq<u8>,
    pub public_key: Seq<u8>,
    pub name_constraints: Option<Seq<u8>>,
}

/// The trust anchors of a store, in the order in which they were added.
pub uninterp spec fn store_anchors(store: rustls::RootCertStore) -> Seq<AnchorView>;

/// The trust anchor that a certificate is, or the text of the error.
pub uninterp spec fn trust_anchor(der: Seq<u8>) -> Result<AnchorView, Seq<char>>;

/// A store without anchors: `rustls::RootCertStore::empty`.
#[verifier::external_body]
pub(crate) fn no_roots() -> (r: rustls::RootCertStore)
    ensures
        store_anchors(r) == Seq::<AnchorView>::empty(),
{
    rustls::RootCertStore::empty()
}

/// Adds a certificate to a store with `rustls::RootCertStore::add`: its anchor comes
/// last. One that is no anchor leaves the store as it is, and the error is the
/// `Display` text.
#[verifier::external_body]
pub(crate) fn add_root(store: &mut rustls::RootCertStore, der: &Vec<u8>) -> (r: Result<(), String>)
    ensures
        match r {
            Ok(_) => trust_anchor(der@) is Ok && store_anchors(*final(store)) == store_anchors(
                *old(store),
            ).push(trust_anchor(der@)->Ok_0),
            Err(e) => trust_anchor(der@) == Err::<AnchorView, Seq<char>>(e@) && store_anchors(
                *final(store),
            ) == store_anchors(*old(store)),
        },
{
    store.add(der.as_slice().into()).map_err(|e| e.to_string())
}

/// Tries to build a verifier of client certificates over a store with
/// `rustls::server::WebPkiClientVerifier`, which fails for a store without anchors
/// and for no other. The error is its `Display` text.
#[verifier::external_body]
pub(crate) fn check_roots(store: &rustls::RootCertStore) -> (r: Option<String>)
    ensures
        match r {
            Some(e) => store_anchors(*store).len() == 0 && e@
                == "no root trust anchors were provided"@,
            None => store_anchors(*store).len() > 0,
        },
{
    let provider = std::sync::Arc::new(rustls::crypto::ring::default_provider());
    let roots = std::sync::Arc::new(store.clone());
    rustls::server::WebPkiClientVerifier::builder_with_provider(roots, provider)
        .allow_unauthenticated()
        .build()
        .err()
        .map(|e| e.to_string())
}

// ---------------------------------------------------------------------------
// Protobuf
// ---------------------------------------------------------------------------

/// A pool of the descriptors of messages.
#[verifier::external_type_specification]
#[verifier::external_body]
pub struct ExDescriptorPool(prost_reflect::DescriptorPool);

/// The descriptor of a field.
#[verifier::external_type_specification]
#[verifier::external_body]
pub struct ExFieldDescriptor(prost_reflect::FieldDescriptor);

/// The type of a field in its descriptor.
#[verifier::external_type_specification]
#[verifier::external_body]
pub struct ExFieldKind(prost_reflect::Kind);

/// A message that is read by its descriptor.
#[verifier::external_type_specification]
#[verifier::external_body]
pub struct ExDynamicMessage(prost_reflect::DynamicMessage);

/// A value in such a message.
#[verifier::external_type_specification]
#[verifier::external_body]
pub struct ExFieldValue(prost_reflect::Value);

/// The key of an entry of a map in such a message.
#[verifier::external_type_specification]
#[verifier::external_body]
pub struct ExMapKey(prost_reflect::MapKey);

/// The messages of a pool, by their full names, which a dot may stand before.
pub uninterp spec fn pool_schemas(pool: prost_reflect::DescriptorPool) -> Map<
    Seq<char>,
    SchemaView,
>;

/// The type of a field, taken over from `prost_reflect::Kind`. Numbers of one
/// size and sign are of one type, however they are written.
#[verifier::external_body]
fn take_kind(k: prost_reflect::Kind) -> FieldKind {
    match k {
        WireKind::Message(m) => FieldKind::Message(m.full_name().to_owned()),
        WireKind::Bool => FieldKind::Bool,
        WireKind::Int32 | WireKind::Sint32 | WireKind::Sfixed32 => FieldKind::Int32,
        WireKind::Int64 | WireKind::Sint64 | WireKind::Sfixed64 => FieldKind::Int64,
        WireKind::Uint32 | WireKind::Fixed32 => FieldKind::Uint32,
        WireKind::Uint64 | WireKind::Fixed64 => FieldKind::Uint64,
        WireKind::Float => FieldKind::Single,
        WireKind::Double => FieldKind::Double,
        WireKind::String => FieldKind::Text,
        WireKind::Bytes => FieldKind::Bytes,
        WireKind::Enum(e) => {
            FieldKind::Enum(e.values().map(|v| (v.name().to_owned(), v.number())).collect())
        },
    }
}

/// A field, taken over from `prost_reflect::FieldDescriptor`. The type of a map is
/// that of its values.
#[verifier::external_body]
fn take_field(f: &prost_reflect::FieldDescriptor) -> Field {
    let (shape, kind, text_keys) = match f.kind() {
        WireKind::Message(m) if f.is_map() => {
            let texts = matches!(m.map_entry_key_field().kind(), WireKind::String);
            (Shape::Entries, m.map_entry_value_field().kind(), texts)
        },
        k if f.is_list() => (Shape::List, k, false),
        k => (Shape::One, k, false),
    };
    let (presence, oneof) = (f.supports_presence(), f.containing_oneof().is_some());
    let (name, json_name) = (f.name().to_owned(), f.json_name().to_owned());
    Field { name, json_name, shape, kind: take_kind(kind), presence, oneof, text_keys }
}

/// Looks a message up with `DescriptorPool::get_message_by_name`. Its fields come
/// in the order of their numbers, with distinct JSON names.
#[verifier::external_body]
pub(crate) fn find_schema(pool: &prost_reflect::DescriptorPool, name: &str) -> (r: Option<Schema>)
    ensures
        match r {
            Some(s) => pool_schemas(*pool).contains_key(name@) && pool_schemas(*pool)[name@] == s@,
            None => !pool_schemas(*pool).contains_key(name@),
        },
{
    let desc = pool.get_message_by_name(name)?;
    let fields = desc.fields().map(|f| take_field(&f)).collect();
    Some(Schema { name: desc.full_name().to_owned(), fields })
}

/// The key of an entry of a map, as text.
#[verifier::external_body]
fn take_key(k: &prost_reflect::MapKey) -> String {
    match k {
        prost_reflect::MapKey::String(s) => s.clone(),
        prost_reflect::MapKey::Bool(b) => b.to_string(),
        prost_reflect::MapKey::I32(n) => n.to_string(),
        prost_reflect::MapKey::I64(n) => n.to_string(),
        prost_reflect::MapKey::U32(n) => n.to_string(),
        prost_reflect::MapKey::U64(n) => n.to_string(),
    }
}

/// A value, taken over from `prost_reflect::Value`. The entries of a map come in
/// any order.
#[verifier::external_body]
fn take_value(v: &prost_reflect::Value) -> Pb {
    match v {
        WireValue::Bool(b) => Pb::Bool(*b),
        WireValue::I32(n) => Pb::I32(*n),
        WireValue::I64(n) => Pb::I64(*n),
        WireValue::U32(n) => Pb::U32(*n),
        WireValue::U64(n) => Pb::U64(*n),
        WireValue::F32(n) => Pb::Single(from_serde(SerdeValue::from(*n))),
        WireValue::F64(n) => Pb::Double(from_serde(SerdeValue::from(*n))),
        WireValue::String(s) => Pb::Text(s.clone()),
        WireValue::Bytes(b) => Pb::Bytes(b.to_vec()),
        WireValue::EnumNumber(n) => Pb::Enum(*n),
        _ => take_nested(v),
    }
}

/// A message, a list or a map, taken over from `prost_reflect::Value`.
#[verifier::external_body]
fn take_nested(v: &prost_reflect::Value) -> Pb {
    match v {
        WireValue::Message(m) => take_message(m),
        WireValue::List(items) => Pb::List(items.iter().map(take_value).collect()),
        WireValue::Map(m) => take_entries(m),
        _ => Pb::List(Vec::new()),
    }
}

/// The entries of a map, in any order.
#[verifier::external_body]
fn take_entries(m: &std::collections::HashMap<prost_reflect::MapKey, prost_reflect::Value>) -> Pb {
    Pb::Entries(m.iter().map(|(k, v)| (take_key(k), take_value(v))).collect())
}

/// A message, taken over from `prost_reflect::DynamicMessage`: the fields that
/// `fields` hands out, which are those that are set, in the order of their
/// numbers.
#[verifier::external_body]
fn take_message(m: &prost_reflect::DynamicMessage) -> Pb {
    let desc = prost_reflect::ReflectMessage::descriptor(m);
    let fields = m.fields().map(|(f, v)| (f.json_name().to_owned(), take_value(v))).collect();
    Pb::Message(desc.full_name().to_owned(), fields)
}

/// What a message of a pool holds in some bytes, or the text of the error.
pub uninterp spec fn wire_read(
    pool: prost_reflect::DescriptorPool,
    name: Seq<char>,
    raw: Seq<u8>,
) -> Result<PbTree, Seq<char>>;

/// A result as a view.
pub open spec fn message_view(r: Result<Pb, String>) -> Result<PbTree, Seq<char>> {
    match r {
        Ok(m) => Ok(m.tree()),
        Err(e) => Err(e@),
    }
}

/// Reads a message of a pool with `prost_reflect::DynamicMessage::decode`.
#[verifier::external_body]
pub(crate) fn read_message(pool: &prost_reflect::DescriptorPool, name: &str, raw: &[u8]) -> (r: Result<
    Pb,
    String,
>)
    requires
        pool_schemas(*pool).contains_key(name@),
        is_full_name(name@),
    ensures
        message_view(r) == wire_read(*pool, name@, raw@),
        match r {
            Ok(m) => m is Message && m->Message_0@ == name@,
            Err(_) => true,
        },
{
    let desc = pool.get_message_by_name(name).ok_or_else(String::new)?;
    let m = prost_reflect::DynamicMessage::decode(desc, raw).map_err(|e| e.to_string())?;
    Ok(take_message(&m))
}

/// Hands a value over to `prost_reflect::Value`; none where it holds a message
/// that the pool does not.
#[verifier::external_body]
fn give_value(pool: &prost_reflect::DescriptorPool, v: &Pb) -> Option<prost_reflect::Value> {
    match v {
        Pb::Bool(b) => Some(WireValue::Bool(*b)),
        Pb::I32(n) => Some(WireValue::I32(*n)),
        Pb::I64(n) => Some(WireValue::I64(*n)),
        Pb::U32(n) => Some(WireValue::U32(*n)),
        Pb::U64(n) => Some(WireValue::U64(*n)),
        Pb::Text(s) => Some(WireValue::String(s.clone())),
        Pb::Bytes(b) => Some(WireValue::Bytes(b.clone().into())),
        Pb::Enum(n) => Some(WireValue::EnumNumber(*n)),
        _ => give_nested(pool, v),
    }
}

/// Hands a floating-point number, a message, a list or a map over to
/// `prost_reflect::Value`.
#[verifier::external_body]
fn give_nested(pool: &prost_reflect::DescriptorPool, v: &Pb) -> Option<prost_reflect::Value> {
    match v {
        Pb::Single(j) => serde_json::from_value(to_serde(j)).ok().map(WireValue::F32),
        Pb::Double(j) => to_serde(j).as_f64().map(WireValue::F64),
        Pb::Message(n, fs) => give_message(pool, n, fs).map(WireValue::Message),
        Pb::List(a) => {
            a.iter().map(|v| give_value(pool, v)).collect::<Option<_>>().map(WireValue::List)
        },
        Pb::Entries(e) => give_entries(pool, e),
        _ => None,
    }
}

/// Hands the entries of a map over to `prost_reflect::Value`.
#[verifier::external_body]
fn give_entries(pool: &prost_reflect::DescriptorPool, e: &Vec<(String, Pb)>) -> Option<
    prost_reflect::Value,
> {
    let entries = e.iter().map(|(k, v)| {
        Some((prost_reflect::MapKey::String(k.clone()), give_value(pool, v)?))
    });
    entries.collect::<Option<_>>().map(WireValue::Map)
}

/// Hands a message over to `prost_reflect::DynamicMessage`; none where the pool
/// does not hold it.
#[verifier::external_body]
fn give_message(pool: &prost_reflect::DescriptorPool, name: &str, fields: &Vec<(String, Pb)>) -> Option<
    prost_reflect::DynamicMessage,
> {
    let desc = pool.get_message_by_name(name)?;
    let mut out = prost_reflect::DynamicMessage::new(desc.clone());
    for (k, v) in fields {
        let _ = out.try_set_field(&desc.get_field_by_json_name(k)?, give_value(pool, v)?);
    }
    Some(out)
}

/// What the fields of a message of a pool read back as once they are written;
/// none where what is written cannot be read.
pub uninterp spec fn wire_echo(
    pool: prost_reflect::DescriptorPool,
    name: Seq<char>,
    fields: Seq<(Seq<char>, PbTree)>,
) -> Option<PbTree>;

/// Writes a message of a pool with `encode_to_vec` of
/// `prost_reflect::DynamicMessage`. The bytes may differ from call to call, as the
/// entries of a map are written in any order; what they read back as does not.
/// That it is what was written is claimed of messages without floating-point
/// numbers, whose fields are told from absent ones.
#[verifier::external_body]
pub(crate) fn write_message(
    pool: &prost_reflect::DescriptorPool,
    name: &str,
    fields: &Vec<(String, Pb)>,
) -> (r: Vec<u8>)
    requires
        pool_schemas(*pool).contains_key(name@),
        is_full_name(name@),
    ensures
        wire_echo(*pool, name@, pb_pairs(fields@)) == wire_read(*pool, name@, r@).ok(),
        plain_message(pool_schemas(*pool), name@, pb_pairs(fields@), WIRE_DEPTH as nat)
            ==> wire_holds(*pool, name@, pb_pairs(fields@), r@),
{
    let m = give_message(pool, name, fields);
    m.map(|m| prost_reflect::prost::Message::encode_to_vec(&m)).unwrap_or_default()
}

/// Some bytes hold a message with some fields.
pub open spec fn wire_holds(
    pool: prost_reflect::DescriptorPool,
    name: Seq<char>,
    fields: Seq<(Seq<char>, PbTree)>,
    raw: Seq<u8>,
) -> bool {
    wire_read(pool, name, raw) == Ok::<PbTree, Seq<char>>(PbTree::Message(name, fields))
}

// ---------------------------------------------------------------------------
// Clocks
// ---------------------------------------------------------------------------

/// A point on the clock of the process.
#[verifier::external_type_specification]
#[verifier::external_body]
pub struct ExInstant(std::time::Instant);

/// The point where the clock stands, from `std::time::Instant::now`.
#[verifier::external_body]
pub(crate) fn now_instant() -> std::time::Instant {
    std::time::Instant::now()
}

/// The nanoseconds since a point, from `std::time::Instant::elapsed`.
#[verifier::external_body]
pub(crate) fn nanos_since(then: &std::time::Instant) -> u128 {
    then.elapsed().as_nanos()
}

} // verus!
