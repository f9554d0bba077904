//! The protobuf wire format of Kubernetes.
//!
//! A body is the magic `k8s\0` and an envelope, which holds the type of an object
//! and the object itself, both as protobuf. The fields of an object are those of
//! its message in a pool of descriptors; `apiVersion` and `kind` stand in the
//! envelope alone.

use vstd::prelude::*;
use vstd::slice::slice_subrange;
use vstd::string::*;
use vstd::utf8::encode_utf8;

use crate::decimal::{parse_i64, signed};
use crate::json::{
    lemma_before_irreflexive, lists_keys, trees, Json, Numeral, Object, Tree,
};
use crate::outside::{
    base64_bytes, base64_text, find_schema, json_read, json_text, micro_text,
    parse_json, pool_schemas, quoted, quoted_text, read_base64, read_message, read_rfc3339,
    reads_as, rfc3339, second_text, wire_echo, wire_holds, wire_read, write_base64, write_json,
    write_message, write_micros, write_seconds,
};
use crate::text::{
    before, is_before, law_join_of_split, lemma_rfind_to, opt_str, opt_text, rfind, rfind_text,
    same, split, split_on, texts, trim, trimmed_text,
};

verus! {

/// The media type.
pub const CONTENT_TYPE: &'static str = "application/vnd.kubernetes.protobuf";

// ---------------------------------------------------------------------------
// Schemas
// ---------------------------------------------------------------------------

/// The type of a field.
pub enum FieldKind {
    Message(String),
    Bool,
    Int32,
    Int64,
    Uint32,
    Uint64,
    Single,
    Double,
    Text,
    Bytes,
    /// The names of the values, with their numbers.
    Enum(Vec<(String, i32)>),
}

/// How often a field stands.
#[derive(Debug, Clone, Copy, PartialEq, Eq, Structural)]
pub enum Shape {
    One,
    List,
    /// A map from texts; the type is that of the values.
    Entries,
}

/// A field of a message.
pub struct Field {
    pub name: String,
    pub json_name: String,
    pub shape: Shape,
    pub kind: FieldKind,
    /// An absent field differs from one with the default value.
    pub presence: bool,
    /// The field shares its place with others.
    pub oneof: bool,
    /// The keys of a map are texts.
    pub text_keys: bool,
}

/// A message: its name, and its fields in the order of their numbers.
pub struct Schema {
    pub name: String,
    pub fields: Vec<Field>,
}

/// What a [`FieldKind`] says.
pub ghost enum KindView {
    Message(Seq<char>),
    Bool,
    Int32,
    Int64,
    Uint32,
    Uint64,
    Single,
    Double,
    Text,
    Bytes,
    Enum(Seq<(Seq<char>, i32)>),
}

/// What a [`Field`] says.
pub ghost struct FieldView {
    pub name: Seq<char>,
    pub json_name: Seq<char>,
    pub shape: Shape,
    pub kind: KindView,
    pub presence: bool,
    pub oneof: bool,
    pub text_keys: bool,
}

/// What a [`Schema`] says.
pub ghost struct SchemaView {
    pub name: Seq<char>,
    pub fields: Seq<FieldView>,
}

/// The values of an enum as texts and numbers.
pub open spec fn enum_values(v: Seq<(String, i32)>) -> Seq<(Seq<char>, i32)> {
    v.map_values(|p: (String, i32)| (p.0@, p.1))
}

impl View for FieldKind {
    type V = KindView;

    open spec fn view(&self) -> KindView {
        match self {
            FieldKind::Message(n) => KindView::Message(n@),
            FieldKind::Bool => KindView::Bool,
            FieldKind::Int32 => KindView::Int32,
            FieldKind::Int64 => KindView::Int64,
            FieldKind::Uint32 => KindView::Uint32,
            FieldKind::Uint64 => KindView::Uint64,
            FieldKind::Single => KindView::Single,
            FieldKind::Double => KindView::Double,
            FieldKind::Text => KindView::Text,
            FieldKind::Bytes => KindView::Bytes,
            FieldKind::Enum(v) => KindView::Enum(enum_values(v@)),
        }
    }
}

impl View for Field {
    type V = FieldView;

    open spec fn view(&self) -> FieldView {
        FieldView {
            name: self.name@,
            json_name: self.json_name@,
            shape: self.shape,
            kind: self.kind@,
            presence: self.presence,
            oneof: self.oneof,
            text_keys: self.text_keys,
        }
    }
}

/// Fields as views.
pub open spec fn field_views(v: Seq<Field>) -> Seq<FieldView> {
    v.map_values(|f: Field| f@)
}

impl View for Schema {
    type V = SchemaView;

    open spec fn view(&self) -> SchemaView {
        SchemaView { name: self.name@, fields: field_views(self.fields@) }
    }
}

// ---------------------------------------------------------------------------
// Messages
// ---------------------------------------------------------------------------

/// A value of a field. A floating-point number is the JSON number that it is, or
/// null where JSON has none.
pub enum Pb {
    Bool(bool),
    I32(i32),
    I64(i64),
    U32(u32),
    U64(u64),
    Single(Json),
    Double(Json),
    Text(String),
    Bytes(Vec<u8>),
    Enum(i32),
    /// The name of a message and its fields that are set, by their JSON names.
    Message(String, Vec<(String, Pb)>),
    List(Vec<Pb>),
    /// The entries of a map, in any order.
    Entries(Vec<(String, Pb)>),
}

/// What a [`Pb`] says.
pub ghost enum PbTree {
    Bool(bool),
    I32(i32),
    I64(i64),
    U32(u32),
    U64(u64),
    Single(Tree),
    Double(Tree),
    Text(Seq<char>),
    Bytes(Seq<u8>),
    Enum(i32),
    Message(Seq<char>, Seq<(Seq<char>, PbTree)>),
    List(Seq<PbTree>),
    Entries(Map<Seq<char>, PbTree>),
}

impl Pb {
    /// What the value says.
    pub open spec fn tree(self) -> PbTree
        decreases self, 0nat,
    {
        match self {
            Pb::Bool(b) => PbTree::Bool(b),
            Pb::I32(n) => PbTree::I32(n),
            Pb::I64(n) => PbTree::I64(n),
            Pb::U32(n) => PbTree::U32(n),
            Pb::U64(n) => PbTree::U64(n),
            Pb::Single(j) => PbTree::Single(j@),
            Pb::Double(j) => PbTree::Double(j@),
            Pb::Text(s) => PbTree::Text(s@),
            Pb::Bytes(b) => PbTree::Bytes(b@),
            Pb::Enum(n) => PbTree::Enum(n),
            Pb::Message(name, fields) => PbTree::Message(name@, pb_pairs(fields@)),
            Pb::List(items) => PbTree::List(pb_trees(items@)),
            Pb::Entries(entries) => PbTree::Entries(entry_map(pb_pairs(entries@))),
        }
    }
}

/// What some values say.
pub open spec fn pb_trees(s: Seq<Pb>) -> Seq<PbTree>
    decreases s, 0nat,
{
    Seq::new(
        s.len(),
        |i: int|
            if 0 <= i < s.len() {
                s[i].tree()
            } else {
                arbitrary()
            },
    )
}

/// What some keys and values say.
pub open spec fn pb_pairs(s: Seq<(String, Pb)>) -> Seq<(Seq<char>, PbTree)>
    decreases s, 0nat,
{
    Seq::new(
        s.len(),
        |i: int|
            if 0 <= i < s.len() {
                (s[i].0@, s[i].1.tree())
            } else {
                arbitrary()
            },
    )
}

/// The entries of a map that are listed in any order; the last of a key counts.
pub open spec fn entry_map(pairs: Seq<(Seq<char>, PbTree)>) -> Map<Seq<char>, PbTree>
    decreases pairs.len(),
{
    if pairs.len() == 0 {
        Map::empty()
    } else {
        entry_map(pairs.drop_last()).insert(pairs.last().0, pairs.last().1)
    }
}

/// A map has no entry.
pub open spec fn no_entries(m: Map<Seq<char>, PbTree>) -> bool {
    forall|k: Seq<char>| !(#[trigger] m.contains_key(k))
}

/// Entries that are all of a map make up a part of it, with all the listed keys.
proof fn lemma_entry_map(pairs: Seq<(Seq<char>, PbTree)>, want: Map<Seq<char>, PbTree>)
    requires
        forall|j: int|
            0 <= j < pairs.len() ==> want.contains_key((#[trigger] pairs[j]).0)
                && want[pairs[j].0] == pairs[j].1,
    ensures
        forall|k: Seq<char>| #[trigger]
            entry_map(pairs).contains_key(k) ==> want.contains_key(k) && entry_map(pairs)[k]
                == want[k],
        forall|j: int|
            0 <= j < pairs.len() ==> entry_map(pairs).contains_key((#[trigger] pairs[j]).0),
    decreases pairs.len(),
{
    if pairs.len() > 0 {
        let rest = pairs.drop_last();
        assert(pairs.last() == pairs[pairs.len() - 1]);
        assert forall|j: int| 0 <= j < rest.len() implies want.contains_key((#[trigger] rest[j]).0)
            && want[rest[j].0] == rest[j].1 by {
            assert(rest[j] == pairs[j]);
        }
        lemma_entry_map(rest, want);
        let last = pairs.last();
        assert(entry_map(pairs) == entry_map(rest).insert(last.0, last.1));
        assert forall|k: Seq<char>| #[trigger] entry_map(pairs).contains_key(
            k,
        ) implies want.contains_key(k) && entry_map(pairs)[k] == want[k] by {
            if k != last.0 {
                assert(entry_map(rest).contains_key(k));
            }
        }
        assert forall|j: int| 0 <= j < pairs.len() implies entry_map(pairs).contains_key(
            (#[trigger] pairs[j]).0,
        ) by {
            if j < rest.len() {
                assert(rest[j] == pairs[j]);
            }
        }
    }
}

proof fn lemma_no_entries(pairs: Seq<(Seq<char>, PbTree)>)
    ensures
        no_entries(entry_map(pairs)) <==> pairs.len() == 0,
{
    if pairs.len() > 0 {
        assert(entry_map(pairs).contains_key(pairs.last().0));
    }
}

/// Where the last field of a name stands; -1 where there is none.
pub open spec fn field_index(fields: Seq<(Seq<char>, PbTree)>, key: Seq<char>) -> int
    decreases fields.len(),
{
    if fields.len() == 0 {
        -1
    } else if fields.last().0 == key {
        fields.len() - 1
    } else {
        field_index(fields.drop_last(), key)
    }
}

/// The value of a field; the last of a name counts.
pub open spec fn field_value(fields: Seq<(Seq<char>, PbTree)>, key: Seq<char>) -> Option<PbTree> {
    let i = field_index(fields, key);
    if 0 <= i < fields.len() {
        Some(fields[i].1)
    } else {
        None
    }
}

fn find_field(fields: &Vec<(String, Pb)>, key: &str) -> (r: Option<usize>)
    ensures
        match r {
            Some(i) => i < fields@.len() && field_index(pb_pairs(fields@), key@) == i,
            None => field_index(pb_pairs(fields@), key@) == -1,
        },
{
    let ghost ps = pb_pairs(fields@);
    let mut n: usize = fields.len();
    assert(ps.take(n as int) =~= ps);
    while n > 0
        invariant
            n <= fields.len(),
            ps == pb_pairs(fields@),
            field_index(ps, key@) == field_index(ps.take(n as int), key@),
        decreases n,
    {
        proof {
            assert(ps.take(n as int).last() == ps[n - 1]);
            assert(ps.take(n as int).drop_last() =~= ps.take(n - 1));
        }
        if same(fields[n - 1].0.as_str(), key) {
            return Some(n - 1);
        }
        n = n - 1;
    }
    None
}

// ---------------------------------------------------------------------------
// Numbers
// ---------------------------------------------------------------------------

/// The low 32 bits of a number.
pub open spec fn low_bits(n: int) -> int {
    n % 0x1_0000_0000
}

/// A number cut to 32 bits, with its sign.
pub open spec fn narrow(n: int) -> int {
    if low_bits(n) < 0x8000_0000 {
        low_bits(n)
    } else {
        low_bits(n) - 0x1_0000_0000
    }
}

/// An unsigned number of 64 bits, read as a signed one.
pub open spec fn signed_bits(n: int) -> int {
    if n < 0x8000_0000_0000_0000 {
        n
    } else {
        n - 0x1_0000_0000_0000_0000
    }
}

fn low32(n: i64) -> (r: u32)
    ensures
        r == low_bits(n as int),
{
    if n >= 0 {
        ((n as u64) % 0x1_0000_0000) as u32
    } else {
        let m: u64 = (-(n + 1)) as u64;
        let k: u64 = m % 0x1_0000_0000;
        assert(low_bits(n as int) == 0xffff_ffff - k) by {
            let a = m as int;
            assert(n == -1 - a);
            assert(a == (a / 0x1_0000_0000) * 0x1_0000_0000 + a % 0x1_0000_0000);
            let q = a / 0x1_0000_0000;
            assert(n == (-1 - q) * 0x1_0000_0000 + (0xffff_ffff - k)) by (nonlinear_arith)
                requires
                    n == -1 - a,
                    a == q * 0x1_0000_0000 + k,
            ;
            assert(n % 0x1_0000_0000 == 0xffff_ffff - k) by (nonlinear_arith)
                requires
                    n == (-1 - q) * 0x1_0000_0000 + (0xffff_ffff - k),
                    0 <= k < 0x1_0000_0000,
            ;
        }
        (0xffff_ffff - k) as u32
    }
}

fn narrow32(n: i64) -> (r: i32)
    ensures
        r == narrow(n as int),
{
    let low: u32 = low32(n);
    if low < 0x8000_0000 {
        low as i32
    } else {
        (low as i64 - 0x1_0000_0000) as i32
    }
}

fn as_signed(n: u64) -> (r: i64)
    ensures
        r == signed_bits(n as int),
{
    if n < 0x8000_0000_0000_0000 {
        n as i64
    } else {
        -((0xffff_ffff_ffff_ffff - n) as i64) - 1
    }
}

// ---------------------------------------------------------------------------
// Messages that are no objects in JSON
// ---------------------------------------------------------------------------

/// A message that JSON writes in a way of its own.
#[derive(Debug, Clone, Copy, PartialEq, Eq, Structural)]
pub enum Special {
    /// A time, to the second.
    Time,
    /// A time, to the microsecond.
    MicroTime,
    Quantity,
    IntOrString,
    /// A JSON document as bytes.
    Raw,
    /// A schema, or whether anything is allowed.
    PropsOrBool,
    /// A schema, or a list of them.
    PropsOrArray,
    /// A schema, or a list of names.
    PropsOrStringArray,
    /// Any other message.
    Plain,
}

/// How JSON writes a message.
pub open spec fn special_of(name: Seq<char>) -> Special {
    if name == "k8s.io.apimachinery.pkg.apis.meta.v1.Time"@ {
        Special::Time
    } else if name == "k8s.io.apimachinery.pkg.apis.meta.v1.MicroTime"@ {
        Special::MicroTime
    } else if name == "k8s.io.apimachinery.pkg.api.resource.Quantity"@ {
        Special::Quantity
    } else if name == "k8s.io.apimachinery.pkg.util.intstr.IntOrString"@ {
        Special::IntOrString
    } else if name == "k8s.io.apimachinery.pkg.runtime.RawExtension"@ || name
        == "k8s.io.apiextensions_apiserver.pkg.apis.apiextensions.v1.JSON"@ {
        Special::Raw
    } else if name
        == "k8s.io.apiextensions_apiserver.pkg.apis.apiextensions.v1.JSONSchemaPropsOrBool"@ {
        Special::PropsOrBool
    } else if name
        == "k8s.io.apiextensions_apiserver.pkg.apis.apiextensions.v1.JSONSchemaPropsOrArray"@ {
        Special::PropsOrArray
    } else if name
        == "k8s.io.apiextensions_apiserver.pkg.apis.apiextensions.v1.JSONSchemaPropsOrStringArray"@ {
        Special::PropsOrStringArray
    } else {
        Special::Plain
    }
}

fn special(name: &str) -> (r: Special)
    ensures
        r == special_of(name@),
{
    if same(name, "k8s.io.apimachinery.pkg.apis.meta.v1.Time") {
        Special::Time
    } else if same(name, "k8s.io.apimachinery.pkg.apis.meta.v1.MicroTime") {
        Special::MicroTime
    } else if same(name, "k8s.io.apimachinery.pkg.api.resource.Quantity") {
        Special::Quantity
    } else if same(name, "k8s.io.apimachinery.pkg.util.intstr.IntOrString") {
        Special::IntOrString
    } else if same(name, "k8s.io.apimachinery.pkg.runtime.RawExtension") || same(
        name,
        "k8s.io.apiextensions_apiserver.pkg.apis.apiextensions.v1.JSON",
    ) {
        Special::Raw
    } else if same(
        name,
        "k8s.io.apiextensions_apiserver.pkg.apis.apiextensions.v1.JSONSchemaPropsOrBool",
    ) {
        Special::PropsOrBool
    } else if same(
        name,
        "k8s.io.apiextensions_apiserver.pkg.apis.apiextensions.v1.JSONSchemaPropsOrArray",
    ) {
        Special::PropsOrArray
    } else if same(
        name,
        "k8s.io.apiextensions_apiserver.pkg.apis.apiextensions.v1.JSONSchemaPropsOrStringArray",
    ) {
        Special::PropsOrStringArray
    } else {
        Special::Plain
    }
}

// ---------------------------------------------------------------------------
// From messages to JSON
// ---------------------------------------------------------------------------

/// The number in a field; 0 where it holds none.
pub open spec fn int_field(fields: Seq<(Seq<char>, PbTree)>, key: Seq<char>) -> int {
    match field_value(fields, key) {
        Some(PbTree::I64(n)) => n as int,
        Some(PbTree::I32(n)) => n as int,
        Some(PbTree::U64(n)) => signed_bits(n as int),
        Some(PbTree::U32(n)) => n as int,
        _ => 0,
    }
}

/// The text in a field; empty where it holds none.
pub open spec fn str_field(fields: Seq<(Seq<char>, PbTree)>, key: Seq<char>) -> Seq<char> {
    match field_value(fields, key) {
        Some(PbTree::Text(s)) => s,
        _ => Seq::empty(),
    }
}

/// A time as JSON: null for the start of 1970, and for what is no time.
pub open spec fn time_json(fields: Seq<(Seq<char>, PbTree)>, micro: bool) -> Tree {
    let secs = int_field(fields, "seconds"@);
    let nanos = low_bits(int_field(fields, "nanos"@));
    if secs == 0 && nanos == 0 {
        Tree::Null
    } else {
        match if micro {
            micro_text(secs, nanos)
        } else {
            second_text(secs, nanos)
        } {
            Some(s) => Tree::String(s),
            None => Tree::Null,
        }
    }
}

/// A number or a text as JSON.
pub open spec fn int_or_string_json(fields: Seq<(Seq<char>, PbTree)>) -> Tree {
    if int_field(fields, "type"@) == 0 {
        Tree::Number(Numeral::of(int_field(fields, "intVal"@)))
    } else {
        Tree::String(str_field(fields, "strVal"@))
    }
}

/// The document in the bytes of a field; null where they are none.
pub open spec fn raw_json(fields: Seq<(Seq<char>, PbTree)>) -> Tree {
    let bytes = match field_value(fields, "raw"@) {
        Some(PbTree::Bytes(b)) => b,
        _ => Seq::empty(),
    };
    match json_read(bytes) {
        Ok(t) => t,
        Err(_) => Tree::Null,
    }
}

/// A value that JSON leaves out.
pub open spec fn is_blank(v: PbTree) -> bool {
    match v {
        PbTree::List(items) => items.len() == 0,
        PbTree::Entries(entries) => no_entries(entries),
        _ => false,
    }
}

/// A message as JSON.
pub open spec fn message_json(name: Seq<char>, fields: Seq<(Seq<char>, PbTree)>) -> Tree
    decreases fields, 2nat,
{
    match special_of(name) {
        Special::Time => time_json(fields, false),
        Special::MicroTime => time_json(fields, true),
        Special::Quantity => Tree::String(str_field(fields, "string"@)),
        Special::IntOrString => int_or_string_json(fields),
        Special::Raw => raw_json(fields),
        Special::PropsOrBool => match schema_json(fields) {
            Some(t) => t,
            None => Tree::Bool(field_value(fields, "allows"@) == Some(PbTree::Bool(true))),
        },
        Special::PropsOrArray => {
            let items = list_json(fields, "jSONSchemas"@);
            if items.len() > 0 {
                Tree::Array(items)
            } else {
                match schema_json(fields) {
                    Some(t) => t,
                    None => Tree::Null,
                }
            }
        },
        Special::PropsOrStringArray => {
            let items = list_json(fields, "property"@);
            if items.len() > 0 {
                Tree::Array(items)
            } else {
                match schema_json(fields) {
                    Some(t) => t,
                    None => Tree::Null,
                }
            }
        },
        Special::Plain => Tree::Object(fields_json(fields)),
    }
}

/// The message in the field `schema` as JSON.
pub open spec fn schema_json(fields: Seq<(Seq<char>, PbTree)>) -> Option<Tree>
    decreases fields, 1nat,
{
    let i = field_index(fields, "schema"@);
    if 0 <= i < fields.len() {
        match fields[i].1 {
            PbTree::Message(n, fs) => Some(message_json(n, fs)),
            _ => None,
        }
    } else {
        None
    }
}

/// The list in a field as JSON.
pub open spec fn list_json(fields: Seq<(Seq<char>, PbTree)>, key: Seq<char>) -> Seq<Tree>
    decreases fields, 1nat,
{
    let i = field_index(fields, key);
    if 0 <= i < fields.len() {
        match fields[i].1 {
            PbTree::List(items) => items_json(items),
            _ => Seq::empty(),
        }
    } else {
        Seq::empty()
    }
}

/// The fields of a message as the members of an object.
pub open spec fn fields_json(fields: Seq<(Seq<char>, PbTree)>) -> Map<Seq<char>, Tree>
    decreases fields, 1nat,
{
    if fields.len() == 0 {
        Map::empty()
    } else {
        let rest = fields_json(fields.drop_last());
        let f = fields[fields.len() - 1];
        if is_blank(f.1) {
            rest
        } else {
            rest.insert(f.0, value_json(f.1))
        }
    }
}

/// The value of a field as JSON.
pub open spec fn value_json(v: PbTree) -> Tree
    decreases v, 2nat,
{
    match v {
        PbTree::List(items) => Tree::Array(items_json(items)),
        PbTree::Entries(_) => Tree::Object(entries_json(v)),
        _ => item_json(v),
    }
}

/// The items of a list as JSON.
pub open spec fn items_json(items: Seq<PbTree>) -> Seq<Tree>
    decreases items, 0nat,
{
    Seq::new(
        items.len(),
        |i: int|
            if 0 <= i < items.len() {
                item_json(items[i])
            } else {
                arbitrary()
            },
    )
}

/// The entries of a map as the members of an object.
pub open spec fn entries_json(v: PbTree) -> Map<Seq<char>, Tree>
    decreases v, 1nat,
{
    match v {
        PbTree::Entries(entries) => Map::new(
            |k: Seq<char>| entries.contains_key(k),
            |k: Seq<char>|
                if entries.contains_key(k) {
                    item_json(entries[k])
                } else {
                    arbitrary()
                },
        ),
        _ => Map::empty(),
    }
}

/// An item of a list, or the value of an entry, as JSON. There are no lists of
/// lists.
pub open spec fn item_json(v: PbTree) -> Tree
    decreases v, 1nat,
{
    match v {
        PbTree::Bool(b) => Tree::Bool(b),
        PbTree::I32(n) => Tree::Number(Numeral::of(n as int)),
        PbTree::I64(n) => Tree::Number(Numeral::of(n as int)),
        PbTree::U32(n) => Tree::Number(Numeral::of(n as int)),
        PbTree::U64(n) => Tree::Number(Numeral::of(n as int)),
        PbTree::Single(t) => t,
        PbTree::Double(t) => t,
        PbTree::Text(s) => Tree::String(s),
        PbTree::Bytes(b) => Tree::String(base64_text(b)),
        PbTree::Enum(n) => Tree::Number(Numeral::of(n as int)),
        PbTree::Message(n, fs) => message_json(n, fs),
        PbTree::List(_) => Tree::Null,
        PbTree::Entries(_) => Tree::Null,
    }
}

fn read_int(fields: &Vec<(String, Pb)>, key: &str) -> (r: i64)
    ensures
        r == int_field(pb_pairs(fields@), key@),
{
    match find_field(fields, key) {
        Some(i) => match &fields[i].1 {
            Pb::I64(n) => *n,
            Pb::I32(n) => *n as i64,
            Pb::U64(n) => as_signed(*n),
            Pb::U32(n) => *n as i64,
            _ => 0,
        },
        None => 0,
    }
}

fn read_text(fields: &Vec<(String, Pb)>, key: &str) -> (r: String)
    ensures
        r@ == str_field(pb_pairs(fields@), key@),
{
    match find_field(fields, key) {
        Some(i) => match &fields[i].1 {
            Pb::Text(s) => s.clone(),
            _ => String::new(),
        },
        None => String::new(),
    }
}

fn time_to_json(fields: &Vec<(String, Pb)>, micro: bool) -> (r: Json)
    ensures
        r@ == time_json(pb_pairs(fields@), micro),
{
    let secs: i64 = read_int(fields, "seconds");
    let nanos: u32 = low32(read_int(fields, "nanos"));
    if secs == 0 && nanos == 0 {
        return Json::Null;
    }
    let text = if micro {
        write_micros(secs, nanos)
    } else {
        write_seconds(secs, nanos)
    };
    match text {
        Some(s) => Json::String(s),
        None => Json::Null,
    }
}

fn int_or_string_to_json(fields: &Vec<(String, Pb)>) -> (r: Json)
    ensures
        r@ == int_or_string_json(pb_pairs(fields@)),
{
    if read_int(fields, "type") == 0 {
        Json::int_value(read_int(fields, "intVal"))
    } else {
        Json::String(read_text(fields, "strVal"))
    }
}

fn raw_extension_to_json(fields: &Vec<(String, Pb)>) -> (r: Json)
    ensures
        r@ == raw_json(pb_pairs(fields@)),
{
    let none: Vec<u8> = Vec::new();
    assert(none@ =~= Seq::<u8>::empty());
    let bytes: &Vec<u8> = match find_field(fields, "raw") {
        Some(i) => match &fields[i].1 {
            Pb::Bytes(b) => b,
            _ => &none,
        },
        None => &none,
    };
    match parse_json(bytes.as_slice()) {
        Ok(v) => v,
        Err(_) => Json::Null,
    }
}

/// A message as JSON: a special one in its own way, any other as the object of
/// its fields that are set.
pub fn message_to_json(name: &str, fields: &Vec<(String, Pb)>) -> (r: Json)
    ensures
        r@ == message_json(name@, pb_pairs(fields@)),
    decreases fields, 2nat,
{
    match special(name) {
        Special::Time => time_to_json(fields, false),
        Special::MicroTime => time_to_json(fields, true),
        Special::Quantity => Json::String(read_text(fields, "string")),
        Special::IntOrString => int_or_string_to_json(fields),
        Special::Raw => raw_extension_to_json(fields),
        Special::PropsOrBool => match schema_to_json(fields) {
            Some(v) => v,
            None => {
                let allows = match find_field(fields, "allows") {
                    Some(i) => match &fields[i].1 {
                        Pb::Bool(b) => *b,
                        _ => false,
                    },
                    None => false,
                };
                Json::flag(allows)
            },
        },
        Special::PropsOrArray => {
            let items = list_to_json(fields, "jSONSchemas");
            assert(trees(items@).len() == items@.len());
            if items.len() > 0 {
                Json::Array(items)
            } else {
                match schema_to_json(fields) {
                    Some(v) => v,
                    None => Json::Null,
                }
            }
        },
        Special::PropsOrStringArray => {
            let items = list_to_json(fields, "property");
            assert(trees(items@).len() == items@.len());
            if items.len() > 0 {
                Json::Array(items)
            } else {
                match schema_to_json(fields) {
                    Some(v) => v,
                    None => Json::Null,
                }
            }
        },
        Special::Plain => Json::Object(fields_to_json(fields)),
    }
}

fn schema_to_json(fields: &Vec<(String, Pb)>) -> (r: Option<Json>)
    ensures
        match r {
            Some(v) => schema_json(pb_pairs(fields@)) == Some(v@),
            None => schema_json(pb_pairs(fields@)) is None,
        },
    decreases fields, 1nat,
{
    match find_field(fields, "schema") {
        Some(i) => {
            assert(decreases_to!(*fields => fields[i as int]));
            match &fields[i].1 {
                Pb::Message(n, fs) => Some(message_to_json(n.as_str(), fs)),
                _ => None,
            }
        },
        None => None,
    }
}

fn list_to_json(fields: &Vec<(String, Pb)>, key: &str) -> (r: Vec<Json>)
    ensures
        trees(r@) == list_json(pb_pairs(fields@), key@),
    decreases fields, 1nat,
{
    let none: Vec<Json> = Vec::new();
    assert(trees(none@) =~= Seq::<Tree>::empty());
    match find_field(fields, key) {
        Some(i) => {
            assert(decreases_to!(*fields => fields[i as int]));
            match &fields[i].1 {
                Pb::List(items) => items_to_json(items),
                _ => none,
            }
        },
        None => none,
    }
}

fn fields_to_json(fields: &Vec<(String, Pb)>) -> (r: Object)
    ensures
        r.map() == fields_json(pb_pairs(fields@)),
    decreases fields, 1nat,
{
    let mut out = Object::new();
    let ghost ps = pb_pairs(fields@);
    let mut i: usize = 0;
    assert(ps.take(0) =~= Seq::<(Seq<char>, PbTree)>::empty());
    while i < fields.len()
        invariant
            i <= fields.len(),
            ps == pb_pairs(fields@),
            out.map() == fields_json(ps.take(i as int)),
        decreases fields.len() - i,
    {
        proof {
            assert(ps.take(i + 1).drop_last() =~= ps.take(i as int));
            assert(ps.take(i + 1)[i as int] == ps[i as int]);
            assert(decreases_to!(*fields => fields[i as int]));
        }
        let v = &fields[i].1;
        if !blank(v) {
            let j = value_to_json(v);
            out = out.insert(fields[i].0.as_str(), j);
        }
        i = i + 1;
    }
    assert(ps.take(i as int) =~= ps);
    out
}

fn blank(v: &Pb) -> (r: bool)
    ensures
        r == is_blank(v.tree()),
{
    match v {
        Pb::List(items) => items.len() == 0,
        Pb::Entries(entries) => {
            proof {
                lemma_no_entries(pb_pairs(entries@));
            }
            entries.len() == 0
        },
        _ => false,
    }
}

fn value_to_json(v: &Pb) -> (r: Json)
    ensures
        r@ == value_json(v.tree()),
    decreases v, 2nat,
{
    match v {
        Pb::List(items) => Json::Array(items_to_json(items)),
        Pb::Entries(entries) => Json::Object(entries_to_json(entries)),
        _ => item_to_json(v),
    }
}

fn items_to_json(items: &Vec<Pb>) -> (r: Vec<Json>)
    ensures
        trees(r@) == items_json(pb_trees(items@)),
    decreases items, 0nat,
{
    let mut out: Vec<Json> = Vec::new();
    let mut i: usize = 0;
    while i < items.len()
        invariant
            i <= items.len(),
            out@.len() == i,
            forall|j: int| 0 <= j < i ==> (#[trigger] out@[j])@ == item_json(items@[j].tree()),
        decreases items.len() - i,
    {
        assert(decreases_to!(*items => items[i as int]));
        let v = item_to_json(&items[i]);
        out.push(v);
        i = i + 1;
    }
    assert(trees(out@) =~= items_json(pb_trees(items@)));
    out
}

fn entries_to_json(entries: &Vec<(String, Pb)>) -> (r: Object)
    ensures
        r.map() == entries_json(PbTree::Entries(entry_map(pb_pairs(entries@)))),
    decreases entries, 1nat,
{
    let mut out = Object::new();
    let ghost ps = pb_pairs(entries@);
    let mut i: usize = 0;
    assert(out.map() =~= entries_json(PbTree::Entries(entry_map(ps.take(0)))));
    while i < entries.len()
        invariant
            i <= entries.len(),
            ps == pb_pairs(entries@),
            out.map() == entries_json(PbTree::Entries(entry_map(ps.take(i as int)))),
        decreases entries.len() - i,
    {
        proof {
            assert(ps.take(i + 1).drop_last() =~= ps.take(i as int));
            assert(ps.take(i + 1)[i as int] == ps[i as int]);
            assert(decreases_to!(*entries => entries[i as int]));
        }
        let j = item_to_json(&entries[i].1);
        let ghost was = out.map();
        out = out.insert(entries[i].0.as_str(), j);
        proof {
            let e = ps[i as int];
            assert(ps.take(i + 1).last() == e);
            assert(was.insert(e.0, item_json(e.1)) =~= entries_json(
                PbTree::Entries(entry_map(ps.take(i as int)).insert(e.0, e.1)),
            ));
        }
        i = i + 1;
    }
    assert(ps.take(i as int) =~= ps);
    out
}

fn item_to_json(v: &Pb) -> (r: Json)
    ensures
        r@ == item_json(v.tree()),
    decreases v, 1nat,
{
    match v {
        Pb::Bool(b) => Json::flag(*b),
        Pb::I32(n) => Json::int_value(*n as i64),
        Pb::I64(n) => Json::int_value(*n),
        Pb::U32(n) => Json::uint(*n as u64),
        Pb::U64(n) => Json::uint(*n),
        Pb::Single(j) => j.dup(),
        Pb::Double(j) => j.dup(),
        Pb::Text(s) => Json::text(s.as_str()),
        Pb::Bytes(b) => Json::String(write_base64(b.as_slice())),
        Pb::Enum(n) => Json::int_value(*n as i64),
        Pb::Message(n, fs) => message_to_json(n.as_str(), fs),
        Pb::List(_) => Json::Null,
        Pb::Entries(_) => Json::Null,
    }
}

// ---------------------------------------------------------------------------
// From JSON to messages
// ---------------------------------------------------------------------------

/// Where the first field of a JSON name stands; -1 where there is none.
pub open spec fn json_index(fields: Seq<FieldView>, key: Seq<char>) -> int
    decreases fields.len(),
{
    if fields.len() == 0 {
        -1
    } else {
        let i = json_index(fields.drop_last(), key);
        if i >= 0 {
            i
        } else if fields.last().json_name == key {
            fields.len() - 1
        } else {
            -1
        }
    }
}

/// Where the first field of a name stands; -1 where there is none.
pub open spec fn name_index(fields: Seq<FieldView>, key: Seq<char>) -> int
    decreases fields.len(),
{
    if fields.len() == 0 {
        -1
    } else {
        let i = name_index(fields.drop_last(), key);
        if i >= 0 {
            i
        } else if fields.last().name == key {
            fields.len() - 1
        } else {
            -1
        }
    }
}

/// The field that a member of an object stands for: that of its JSON name, else
/// that of its name.
pub open spec fn field_for(fields: Seq<FieldView>, key: Seq<char>) -> int {
    let i = json_index(fields, key);
    if i >= 0 {
        i
    } else {
        name_index(fields, key)
    }
}

/// A value can stand in a field of a shape.
pub open spec fn fits_shape(shape: Shape, v: Tree) -> bool {
    match shape {
        Shape::One => true,
        Shape::List => v is Array,
        Shape::Entries => v is Object,
    }
}

/// A member of an object sets a field.
pub open spec fn sets(
    fields: Seq<FieldView>,
    m: Map<Seq<char>, Tree>,
    i: int,
    key: Seq<char>,
) -> bool {
    &&& m.contains_key(key)
    &&& !(m[key] is Null)
    &&& field_for(fields, key) == i
    &&& fits_shape(fields[i].shape, m[key])
}

/// The member of an object that sets a field: where two do, the later one.
pub open spec fn source(fields: Seq<FieldView>, m: Map<Seq<char>, Tree>, i: int) -> Option<
    Seq<char>,
> {
    let a = fields[i].json_name;
    let b = fields[i].name;
    if sets(fields, m, i, b) && (!sets(fields, m, i, a) || before(a, b)) {
        Some(b)
    } else if sets(fields, m, i, a) {
        Some(a)
    } else {
        None
    }
}

/// A message that is a schema or something else.
pub open spec fn is_union(name: Seq<char>) -> bool {
    special_of(name) == Special::PropsOrBool || special_of(name) == Special::PropsOrArray
        || special_of(name) == Special::PropsOrStringArray
}

/// The fields of a message in a pool; none where the pool does not hold it.
pub open spec fn fields_of(ss: Map<Seq<char>, SchemaView>, name: Seq<char>) -> Seq<FieldView> {
    if ss.contains_key(name) {
        ss[name].fields
    } else {
        Seq::empty()
    }
}

/// Fields with one more set, where the message has it.
pub open spec fn with_named(
    fields: Seq<FieldView>,
    set: Seq<(Seq<char>, PbTree)>,
    key: Seq<char>,
    v: PbTree,
) -> Seq<(Seq<char>, PbTree)> {
    let i = name_index(fields, key);
    if 0 <= i < fields.len() {
        set.push((fields[i].json_name, v))
    } else {
        set
    }
}

/// A time from JSON.
pub open spec fn time_fields(fields: Seq<FieldView>, json: Tree) -> Seq<(Seq<char>, PbTree)> {
    match json {
        Tree::String(s) => match rfc3339(s) {
            Some((secs, nanos)) => with_named(
                fields,
                with_named(fields, Seq::empty(), "seconds"@, PbTree::I64(secs)),
                "nanos"@,
                PbTree::I32(narrow(nanos as int) as i32),
            ),
            None => Seq::empty(),
        },
        _ => Seq::empty(),
    }
}

/// The text of a quantity from JSON.
pub open spec fn quantity_text(json: Tree) -> Seq<char> {
    match json {
        Tree::String(s) => s,
        Tree::Number(_) => json_text(json),
        _ => Seq::empty(),
    }
}

/// The number that a document is, cut to 32 bits; 0 where it is none.
pub open spec fn int32_in(json: Tree) -> int {
    match json.integer() {
        Some(n) => narrow(n),
        None => 0,
    }
}

/// The number that a document is, or that its text writes; 0 where there is none.
pub open spec fn int64_in(json: Tree) -> int {
    match json.integer() {
        Some(n) => n,
        None => match json.text() {
            Some(s) => match signed(s) {
                Some(n) => n,
                None => 0,
            },
            None => 0,
        },
    }
}

/// The unsigned number that a document is; 0 where it is none.
pub open spec fn uint64_in(json: Tree) -> u64 {
    match json.natural() {
        Some(n) => n,
        None => 0,
    }
}

/// The number that a document is; 0 where it is none.
pub open spec fn number_in_json(json: Tree) -> Tree {
    if json is Number {
        json
    } else {
        Tree::Number(Numeral::PosInt(0))
    }
}

/// The bytes that a text writes in base64; none where it does not.
pub open spec fn bytes_in(json: Tree) -> Seq<u8> {
    match json.text() {
        Some(s) => match base64_bytes(s) {
            Some(b) => b,
            None => Seq::empty(),
        },
        None => Seq::empty(),
    }
}

/// The number of a value of an enum.
pub open spec fn enum_number(values: Seq<(Seq<char>, i32)>, name: Seq<char>) -> Option<i32>
    decreases values.len(),
{
    if values.len() == 0 {
        None
    } else if values[0].0 == name {
        Some(values[0].1)
    } else {
        enum_number(values.skip(1), name)
    }
}

/// The value of an enum: by its name, else by its number.
pub open spec fn enum_in(values: Seq<(Seq<char>, i32)>, json: Tree) -> i32 {
    match json.text() {
        Some(s) => match enum_number(values, s) {
            Some(n) => n,
            None => 0,
        },
        None => int32_in(json) as i32,
    }
}

/// A number or a text from JSON.
pub open spec fn int_or_string_fields(fields: Seq<FieldView>, json: Tree) -> Seq<
    (Seq<char>, PbTree),
> {
    match json {
        Tree::Number(_) => with_named(
            fields,
            with_named(fields, Seq::empty(), "type"@, PbTree::I64(0)),
            "intVal"@,
            PbTree::I32(int32_in(json) as i32),
        ),
        Tree::String(s) => with_named(
            fields,
            with_named(fields, Seq::empty(), "type"@, PbTree::I64(1)),
            "strVal"@,
            PbTree::Text(s),
        ),
        _ => Seq::empty(),
    }
}

/// The fields of a message from JSON. A member that the message has no field for
/// is left out.
pub open spec fn message_of(
    ss: Map<Seq<char>, SchemaView>,
    json: Tree,
    name: Seq<char>,
) -> Seq<(Seq<char>, PbTree)>
    decreases
            json,
            (if is_union(name) {
                4nat
            } else {
                3nat
            }),
            0nat,
{
    let fields = fields_of(ss, name);
    match special_of(name) {
        Special::Time => time_fields(fields, json),
        Special::MicroTime => time_fields(fields, json),
        Special::Quantity => with_named(
            fields,
            Seq::empty(),
            "string"@,
            PbTree::Text(quantity_text(json)),
        ),
        Special::IntOrString => int_or_string_fields(fields, json),
        Special::Raw => with_named(
            fields,
            Seq::empty(),
            "raw"@,
            PbTree::Bytes(encode_utf8(json_text(json))),
        ),
        Special::PropsOrBool => match json {
            Tree::Bool(b) => with_named(fields, Seq::empty(), "allows"@, PbTree::Bool(b)),
            _ => schema_of(ss, fields, json),
        },
        Special::PropsOrArray => match json {
            Tree::Array(items) => {
                let i = name_index(fields, "jSONSchemas"@);
                if 0 <= i < fields.len() {
                    Seq::empty().push(
                        (fields[i].json_name, PbTree::List(list_of(ss, fields[i].kind, items))),
                    )
                } else {
                    Seq::empty()
                }
            },
            _ => schema_of(ss, fields, json),
        },
        Special::PropsOrStringArray => match json {
            Tree::Array(items) => with_named(
                fields,
                Seq::empty(),
                "property"@,
                PbTree::List(items.map_values(|t: Tree| PbTree::Text(t.text_or_empty()))),
            ),
            _ => schema_of(ss, fields, json),
        },
        Special::Plain => match json {
            Tree::Object(m) => set_fields(ss, json, fields, fields.len()),
            _ => Seq::empty(),
        },
    }
}

/// The field `schema` from JSON. A schema is itself no schema or something else.
pub open spec fn schema_of(
    ss: Map<Seq<char>, SchemaView>,
    fields: Seq<FieldView>,
    json: Tree,
) -> Seq<(Seq<char>, PbTree)>
    decreases json, 3nat, 1nat,
{
    let i = name_index(fields, "schema"@);
    if 0 <= i < fields.len() {
        match fields[i].kind {
            KindView::Message(n) => Seq::empty().push(
                (
                    fields[i].json_name,
                    PbTree::Message(
                        n,
                        if is_union(n) {
                            Seq::empty()
                        } else {
                            message_of(ss, json, n)
                        },
                    ),
                ),
            ),
            _ => Seq::empty(),
        }
    } else {
        Seq::empty()
    }
}

/// The first fields of a message from the members of an object.
pub open spec fn set_fields(
    ss: Map<Seq<char>, SchemaView>,
    json: Tree,
    fields: Seq<FieldView>,
    n: nat,
) -> Seq<(Seq<char>, PbTree)>
    decreases json, 2nat, n,
{
    match json {
        Tree::Object(m) => if n == 0 || n > fields.len() {
            Seq::empty()
        } else {
            let rest = set_fields(ss, json, fields, (n - 1) as nat);
            match source(fields, m, n - 1) {
                Some(k) => if m.contains_key(k) {
                    rest.push((fields[n - 1].json_name, field_of(ss, fields[n - 1], m[k])))
                } else {
                    rest
                },
                None => rest,
            }
        },
        _ => Seq::empty(),
    }
}

/// The value of a field from JSON.
pub open spec fn field_of(ss: Map<Seq<char>, SchemaView>, f: FieldView, v: Tree) -> PbTree
    decreases v, 6nat, 0nat,
{
    match f.shape {
        Shape::One => item_of(ss, f.kind, v),
        Shape::List => match v {
            Tree::Array(items) => PbTree::List(list_of(ss, f.kind, items)),
            _ => PbTree::List(Seq::empty()),
        },
        Shape::Entries => match v {
            Tree::Object(m) => PbTree::Entries(entries_of(ss, f.kind, v)),
            _ => PbTree::Entries(Map::empty()),
        },
    }
}

/// The entries of a map from the members of an object.
pub open spec fn entries_of(ss: Map<Seq<char>, SchemaView>, kind: KindView, v: Tree) -> Map<
    Seq<char>,
    PbTree,
>
    decreases v, 5nat, 1nat,
{
    match v {
        Tree::Object(m) => Map::new(
            |k: Seq<char>| m.contains_key(k),
            |k: Seq<char>|
                if m.contains_key(k) {
                    item_of(ss, kind, m[k])
                } else {
                    arbitrary()
                },
        ),
        _ => Map::empty(),
    }
}

/// The items of a list from JSON.
pub open spec fn list_of(ss: Map<Seq<char>, SchemaView>, kind: KindView, items: Seq<Tree>) -> Seq<
    PbTree,
>
    decreases items, 0nat, 0nat,
{
    Seq::new(
        items.len(),
        |i: int|
            if 0 <= i < items.len() {
                item_of(ss, kind, items[i])
            } else {
                arbitrary()
            },
    )
}

/// A value of a type from JSON.
pub open spec fn item_of(ss: Map<Seq<char>, SchemaView>, kind: KindView, v: Tree) -> PbTree
    decreases v, 5nat, 0nat,
{
    match kind {
        KindView::Message(n) => PbTree::Message(n, message_of(ss, v, n)),
        KindView::Bool => PbTree::Bool(v.flag() == Some(true)),
        KindView::Int32 => PbTree::I32(int32_in(v) as i32),
        KindView::Int64 => PbTree::I64(int64_in(v) as i64),
        KindView::Uint32 => PbTree::U32(low_bits(uint64_in(v) as int) as u32),
        KindView::Uint64 => PbTree::U64(uint64_in(v)),
        KindView::Single => PbTree::Single(number_in_json(v)),
        KindView::Double => PbTree::Double(number_in_json(v)),
        KindView::Text => PbTree::Text(v.text_or_empty()),
        KindView::Bytes => PbTree::Bytes(bytes_in(v)),
        KindView::Enum(values) => PbTree::Enum(enum_in(values, v)),
    }
}

fn position_by_json(fields: &Vec<Field>, key: &str) -> (r: Option<usize>)
    ensures
        match r {
            Some(i) => i < fields@.len() && json_index(field_views(fields@), key@) == i,
            None => json_index(field_views(fields@), key@) == -1,
        },
{
    let ghost fs = field_views(fields@);
    let mut i: usize = 0;
    while i < fields.len()
        invariant
            i <= fields.len(),
            fs == field_views(fields@),
            json_index(fs.take(i as int), key@) == -1,
        decreases fields.len() - i,
    {
        proof {
            assert(fs.take(i + 1).drop_last() =~= fs.take(i as int));
            assert(fs.take(i + 1).last() == fs[i as int]);
        }
        if same(fields[i].json_name.as_str(), key) {
            proof {
                lemma_json_index(fs, key@, i + 1);
            }
            return Some(i);
        }
        i = i + 1;
    }
    assert(fs.take(i as int) =~= fs);
    None
}

proof fn lemma_json_index(fields: Seq<FieldView>, key: Seq<char>, n: int)
    requires
        0 <= n <= fields.len(),
        json_index(fields.take(n), key) >= 0,
    ensures
        json_index(fields, key) == json_index(fields.take(n), key),
    decreases fields.len() - n,
{
    if n < fields.len() {
        assert(fields.take(n + 1).drop_last() =~= fields.take(n));
        lemma_json_index(fields, key, n + 1);
    } else {
        assert(fields.take(n) =~= fields);
    }
}

fn position_by_name(fields: &Vec<Field>, key: &str) -> (r: Option<usize>)
    ensures
        match r {
            Some(i) => i < fields@.len() && name_index(field_views(fields@), key@) == i,
            None => name_index(field_views(fields@), key@) == -1,
        },
{
    let ghost fs = field_views(fields@);
    let mut i: usize = 0;
    while i < fields.len()
        invariant
            i <= fields.len(),
            fs == field_views(fields@),
            name_index(fs.take(i as int), key@) == -1,
        decreases fields.len() - i,
    {
        proof {
            assert(fs.take(i + 1).drop_last() =~= fs.take(i as int));
            assert(fs.take(i + 1).last() == fs[i as int]);
        }
        if same(fields[i].name.as_str(), key) {
            proof {
                lemma_name_index(fs, key@, i + 1);
            }
            return Some(i);
        }
        i = i + 1;
    }
    assert(fs.take(i as int) =~= fs);
    None
}

proof fn lemma_name_index(fields: Seq<FieldView>, key: Seq<char>, n: int)
    requires
        0 <= n <= fields.len(),
        name_index(fields.take(n), key) >= 0,
    ensures
        name_index(fields, key) == name_index(fields.take(n), key),
    decreases fields.len() - n,
{
    if n < fields.len() {
        assert(fields.take(n + 1).drop_last() =~= fields.take(n));
        lemma_name_index(fields, key, n + 1);
    } else {
        assert(fields.take(n) =~= fields);
    }
}

fn position_for(fields: &Vec<Field>, key: &str) -> (r: Option<usize>)
    ensures
        match r {
            Some(i) => i < fields@.len() && field_for(field_views(fields@), key@) == i,
            None => field_for(field_views(fields@), key@) == -1,
        },
{
    match position_by_json(fields, key) {
        Some(i) => Some(i),
        None => position_by_name(fields, key),
    }
}

fn member_sets(fields: &Vec<Field>, o: &Object, i: usize, key: &str) -> (r: bool)
    requires
        i < fields@.len(),
    ensures
        r == sets(field_views(fields@), o.map(), i as int, key@),
{
    let v = match o.get(key) {
        Some(v) => v,
        None => {
            return false;
        },
    };
    if v.is_null() {
        return false;
    }
    let fits = match fields[i].shape {
        Shape::One => true,
        Shape::List => v.is_array(),
        Shape::Entries => v.is_object(),
    };
    match position_for(fields, key) {
        Some(j) => j == i && fits,
        None => false,
    }
}

fn set_named(fields: &Vec<Field>, out: &mut Vec<(String, Pb)>, key: &str, v: Pb)
    ensures
        pb_pairs(final(out)@) == with_named(
            field_views(fields@),
            pb_pairs(old(out)@),
            key@,
            v.tree(),
        ),
{
    let ghost was = pb_pairs(out@);
    let ghost vt = v.tree();
    match position_by_name(fields, key) {
        Some(i) => {
            let name = fields[i].json_name.clone();
            let ghost nv = name@;
            out.push((name, v));
            assert(pb_pairs(out@) =~= was.push((nv, vt)));
        },
        None => {},
    }
}

fn json_to_time(fields: &Vec<Field>, json: &Json) -> (r: Vec<(String, Pb)>)
    ensures
        pb_pairs(r@) == time_fields(field_views(fields@), json@),
{
    let mut out: Vec<(String, Pb)> = Vec::new();
    assert(pb_pairs(out@) =~= Seq::<(Seq<char>, PbTree)>::empty());
    match json.as_str() {
        Some(s) => match read_rfc3339(s) {
            Some((secs, nanos)) => {
                set_named(fields, &mut out, "seconds", Pb::I64(secs));
                set_named(fields, &mut out, "nanos", Pb::I32(narrow32(nanos as i64)));
            },
            None => {},
        },
        None => {},
    }
    out
}

fn read_int32(json: &Json) -> (r: i32)
    ensures
        r == int32_in(json@),
{
    match json.as_i64() {
        Some(n) => narrow32(n),
        None => 0,
    }
}

fn json_as_i64(json: &Json) -> (r: i64)
    ensures
        r == int64_in(json@),
{
    match json.as_i64() {
        Some(n) => n,
        None => match json.as_str() {
            Some(s) => match parse_i64(s) {
                Some(n) => n,
                None => 0,
            },
            None => 0,
        },
    }
}

fn read_uint64(json: &Json) -> (r: u64)
    ensures
        r == uint64_in(json@),
{
    match json.as_u64() {
        Some(n) => n,
        None => 0,
    }
}

fn read_number(json: &Json) -> (r: Json)
    ensures
        r@ == number_in_json(json@),
{
    match json {
        Json::Number(_) => json.dup(),
        _ => Json::uint(0),
    }
}

fn read_bytes(json: &Json) -> (r: Vec<u8>)
    ensures
        r@ == bytes_in(json@),
{
    let none: Vec<u8> = Vec::new();
    assert(none@ =~= Seq::<u8>::empty());
    match json.as_str() {
        Some(s) => match read_base64(s) {
            Some(b) => b,
            None => none,
        },
        None => none,
    }
}

fn read_enum(values: &Vec<(String, i32)>, json: &Json) -> (r: i32)
    ensures
        r == enum_in(enum_values(values@), json@),
{
    let s = match json.as_str() {
        Some(s) => s,
        None => {
            return read_int32(json);
        },
    };
    let ghost vs = enum_values(values@);
    let mut i: usize = 0;
    assert(vs.skip(0) =~= vs);
    while i < values.len()
        invariant
            i <= values.len(),
            vs == enum_values(values@),
            json@ == Tree::String(s@),
            enum_number(vs, s@) == enum_number(vs.skip(i as int), s@),
        decreases values.len() - i,
    {
        proof {
            assert(vs.skip(i as int)[0] == vs[i as int]);
            assert(vs.skip(i as int).skip(1) =~= vs.skip(i + 1));
        }
        if same(values[i].0.as_str(), s) {
            return values[i].1;
        }
        i = i + 1;
    }
    0
}

fn json_to_int_or_string(fields: &Vec<Field>, json: &Json) -> (r: Vec<(String, Pb)>)
    ensures
        pb_pairs(r@) == int_or_string_fields(field_views(fields@), json@),
{
    let mut out: Vec<(String, Pb)> = Vec::new();
    assert(pb_pairs(out@) =~= Seq::<(Seq<char>, PbTree)>::empty());
    match json {
        Json::Number(_) => {
            set_named(fields, &mut out, "type", Pb::I64(0));
            set_named(fields, &mut out, "intVal", Pb::I32(read_int32(json)));
        },
        Json::String(s) => {
            set_named(fields, &mut out, "type", Pb::I64(1));
            set_named(fields, &mut out, "strVal", Pb::Text(s.clone()));
        },
        _ => {},
    }
    out
}

fn text_items(items: &Vec<Json>) -> (r: Vec<Pb>)
    ensures
        pb_trees(r@) == trees(items@).map_values(|t: Tree| PbTree::Text(t.text_or_empty())),
{
    let mut out: Vec<Pb> = Vec::new();
    let mut i: usize = 0;
    while i < items.len()
        invariant
            i <= items.len(),
            out@.len() == i,
            forall|j: int|
                0 <= j < i ==> (#[trigger] out@[j]).tree() == PbTree::Text(
                    items@[j]@.text_or_empty(),
                ),
        decreases items.len() - i,
    {
        out.push(Pb::Text(items[i].str_or_empty().to_owned()));
        i = i + 1;
    }
    assert(pb_trees(out@) =~= trees(items@).map_values(
        |t: Tree| PbTree::Text(t.text_or_empty()),
    ));
    out
}

fn schema_fields(pool: &prost_reflect::DescriptorPool, name: &str) -> (r: Vec<Field>)
    ensures
        field_views(r@) == fields_of(pool_schemas(*pool), name@),
{
    match find_schema(pool, name) {
        Some(s) => s.fields,
        None => {
            let none: Vec<Field> = Vec::new();
            assert(field_views(none@) =~= Seq::<FieldView>::empty());
            none
        },
    }
}

/// The fields of a message from JSON: a special one in its own way, any other
/// from the members of an object. A member that the message has no field for is
/// left out.
pub fn json_to_message(pool: &prost_reflect::DescriptorPool, json: &Json, name: &str) -> (r: Vec<
    (String, Pb),
>)
    ensures
        pb_pairs(r@) == message_of(pool_schemas(*pool), json@, name@),
    decreases
            json,
            (if is_union(name@) {
                4nat
            } else {
                3nat
            }),
            0nat,
{
    let fields = schema_fields(pool, name);
    let mut out: Vec<(String, Pb)> = Vec::new();
    assert(pb_pairs(out@) =~= Seq::<(Seq<char>, PbTree)>::empty());
    match special(name) {
        Special::Time => json_to_time(&fields, json),
        Special::MicroTime => json_to_time(&fields, json),
        Special::Quantity => {
            let text = match json {
                Json::String(s) => s.clone(),
                Json::Number(_) => write_json(json),
                _ => String::new(),
            };
            set_named(&fields, &mut out, "string", Pb::Text(text));
            out
        },
        Special::IntOrString => json_to_int_or_string(&fields, json),
        Special::Raw => {
            let text = write_json(json);
            let bytes = vstd::slice::slice_to_vec(text.as_str().as_bytes());
            set_named(&fields, &mut out, "raw", Pb::Bytes(bytes));
            out
        },
        Special::PropsOrBool => match json {
            Json::Bool(b) => {
                set_named(&fields, &mut out, "allows", Pb::Bool(*b));
                out
            },
            _ => json_to_schema(pool, &fields, json),
        },
        Special::PropsOrArray => match json {
            Json::Array(items) => {
                match position_by_name(&fields, "jSONSchemas") {
                    Some(i) => {
                        assert(decreases_to!(*json => json->Array_0));
                        let list = json_to_list(pool, &fields[i].kind, items);
                        let key = fields[i].json_name.clone();
                        let ghost kv = key@;
                        let ghost lv = pb_trees(list@);
                        out.push((key, Pb::List(list)));
                        assert(pb_pairs(out@) =~= Seq::empty().push((kv, PbTree::List(lv))));
                    },
                    None => {},
                }
                out
            },
            _ => json_to_schema(pool, &fields, json),
        },
        Special::PropsOrStringArray => match json {
            Json::Array(items) => {
                set_named(&fields, &mut out, "property", Pb::List(text_items(items)));
                out
            },
            _ => json_to_schema(pool, &fields, json),
        },
        Special::Plain => match json {
            Json::Object(o) => json_to_fields(pool, &fields, json, o),
            _ => out,
        },
    }
}

fn json_to_schema(
    pool: &prost_reflect::DescriptorPool,
    fields: &Vec<Field>,
    json: &Json,
) -> (r: Vec<(String, Pb)>)
    ensures
        pb_pairs(r@) == schema_of(pool_schemas(*pool), field_views(fields@), json@),
    decreases json, 3nat, 1nat,
{
    let mut out: Vec<(String, Pb)> = Vec::new();
    assert(pb_pairs(out@) =~= Seq::<(Seq<char>, PbTree)>::empty());
    match position_by_name(fields, "schema") {
        Some(i) => match &fields[i].kind {
            FieldKind::Message(n) => {
                let union = match special(n.as_str()) {
                    Special::PropsOrBool => true,
                    Special::PropsOrArray => true,
                    Special::PropsOrStringArray => true,
                    _ => false,
                };
                let inner: Vec<(String, Pb)> = if union {
                    let none: Vec<(String, Pb)> = Vec::new();
                    assert(pb_pairs(none@) =~= Seq::<(Seq<char>, PbTree)>::empty());
                    none
                } else {
                    json_to_message(pool, json, n.as_str())
                };
                let key = fields[i].json_name.clone();
                let ghost kv = key@;
                let ghost iv = pb_pairs(inner@);
                out.push((key, Pb::Message(n.clone(), inner)));
                assert(pb_pairs(out@) =~= Seq::empty().push((kv, PbTree::Message(n@, iv))));
            },
            _ => {},
        },
        None => {},
    }
    out
}

fn json_to_fields(
    pool: &prost_reflect::DescriptorPool,
    fields: &Vec<Field>,
    json: &Json,
    o: &Object,
) -> (r: Vec<(String, Pb)>)
    requires
        *json == Json::Object(*o),
    ensures
        pb_pairs(r@) == set_fields(
            pool_schemas(*pool),
            json@,
            field_views(fields@),
            fields@.len(),
        ),
    decreases json, 2nat, 0nat,
{
    let ghost ss = pool_schemas(*pool);
    let ghost fs = field_views(fields@);
    let mut out: Vec<(String, Pb)> = Vec::new();
    assert(pb_pairs(out@) =~= Seq::<(Seq<char>, PbTree)>::empty());
    let mut i: usize = 0;
    while i < fields.len()
        invariant
            i <= fields.len(),
            ss == pool_schemas(*pool),
            fs == field_views(fields@),
            *json == Json::Object(*o),
            pb_pairs(out@) == set_fields(ss, json@, fs, i as nat),
        decreases fields.len() - i,
    {
        let a = fields[i].json_name.as_str();
        let b = fields[i].name.as_str();
        let by_json = member_sets(fields, o, i, a);
        let by_name = member_sets(fields, o, i, b);
        let key = if by_name && (!by_json || is_before(a, b)) {
            Some(b)
        } else if by_json {
            Some(a)
        } else {
            None
        };
        assert(opt_str(key) == source(fs, o.map(), i as int));
        let ghost was = pb_pairs(out@);
        match key {
            Some(k) => match o.get(k) {
                Some(v) => {
                    proof {
                        assert(decreases_to!(*json => json->Object_0));
                        assert(decreases_to!(o => v));
                    }
                    let value = json_to_field(pool, &fields[i], v);
                    let ghost vt = value.tree();
                    let name = fields[i].json_name.clone();
                    let ghost nv = name@;
                    out.push((name, value));
                    assert(pb_pairs(out@) =~= was.push((nv, vt)));
                },
                None => {},
            },
            None => {},
        }
        i = i + 1;
    }
    out
}

fn json_to_field(pool: &prost_reflect::DescriptorPool, f: &Field, v: &Json) -> (r: Pb)
    ensures
        r.tree() == field_of(pool_schemas(*pool), f@, v@),
    decreases v, 6nat, 0nat,
{
    match f.shape {
        Shape::One => json_to_pb_value(pool, &f.kind, v),
        Shape::List => match v {
            Json::Array(items) => {
                assert(decreases_to!(*v => v->Array_0));
                Pb::List(json_to_list(pool, &f.kind, items))
            },
            _ => {
                let none: Vec<Pb> = Vec::new();
                assert(pb_trees(none@) =~= Seq::<PbTree>::empty());
                Pb::List(none)
            },
        },
        Shape::Entries => match v {
            Json::Object(o) => {
                Pb::Entries(json_to_entries(pool, &f.kind, v, o))
            },
            _ => {
                let none: Vec<(String, Pb)> = Vec::new();
                assert(entry_map(pb_pairs(none@)) =~= Map::<Seq<char>, PbTree>::empty());
                Pb::Entries(none)
            },
        },
    }
}

fn json_to_entries(
    pool: &prost_reflect::DescriptorPool,
    kind: &FieldKind,
    json: &Json,
    o: &Object,
) -> (r: Vec<(String, Pb)>)
    requires
        *json == Json::Object(*o),
    ensures
        entry_map(pb_pairs(r@)) == entries_of(pool_schemas(*pool), kind@, json@),
    decreases json, 5nat, 1nat,
{
    let ghost ss = pool_schemas(*pool);
    let ghost m = o.map();
    let n: usize = o.len();
    let ghost keys = o.keys();
    let mut out: Vec<(String, Pb)> = Vec::new();
    let mut i: usize = 0;
    while i < n
        invariant
            i <= n,
            n == keys.len(),
            keys == o.keys(),
            m == o.map(),
            lists_keys(keys, m),
            *json == Json::Object(*o),
            ss == pool_schemas(*pool),
            out@.len() == i,
            forall|j: int|
                0 <= j < i ==> (#[trigger] out@[j]).0@ == keys[j] && m.contains_key(keys[j])
                    && out@[j].1.tree() == item_of(ss, kind@, m[keys[j]]),
        decreases n - i,
    {
        let k = o.key(i);
        let v = o.value(i);
        proof {
            assert(decreases_to!(*json => json->Object_0));
            assert(decreases_to!(o => v));
        }
        let item = json_to_pb_value(pool, kind, v);
        out.push((k.to_owned(), item));
        i = i + 1;
    }
    proof {
        let ps = pb_pairs(out@);
        let want = entries_of(ss, kind@, json@);
        assert forall|j: int| 0 <= j < ps.len() implies want.contains_key((#[trigger] ps[j]).0)
            && want[ps[j].0] == ps[j].1 by {
            assert(out@[j].0@ == keys[j]);
        }
        lemma_entry_map(ps, want);
        assert forall|k: Seq<char>| #[trigger] want.contains_key(k) implies entry_map(
            ps,
        ).contains_key(k) by {
            let j = keys.index_of(k);
            assert(keys[j] == k && out@[j].0@ == keys[j]);
            assert(ps[j].0 == k);
        }
        assert(entry_map(ps) =~= want);
    }
    out
}

fn json_to_list(pool: &prost_reflect::DescriptorPool, kind: &FieldKind, items: &Vec<Json>) -> (r: Vec<
    Pb,
>)
    ensures
        pb_trees(r@) == list_of(pool_schemas(*pool), kind@, trees(items@)),
    decreases items, 0nat, 0nat,
{
    let ghost ss = pool_schemas(*pool);
    let mut out: Vec<Pb> = Vec::new();
    let mut i: usize = 0;
    while i < items.len()
        invariant
            i <= items.len(),
            ss == pool_schemas(*pool),
            out@.len() == i,
            forall|j: int|
                0 <= j < i ==> (#[trigger] out@[j]).tree() == item_of(ss, kind@, items@[j]@),
        decreases items.len() - i,
    {
        assert(decreases_to!(*items => items[i as int]));
        let v = json_to_pb_value(pool, kind, &items[i]);
        out.push(v);
        i = i + 1;
    }
    assert(pb_trees(out@) =~= list_of(ss, kind@, trees(items@)));
    out
}

fn json_to_pb_value(pool: &prost_reflect::DescriptorPool, kind: &FieldKind, v: &Json) -> (r: Pb)
    ensures
        r.tree() == item_of(pool_schemas(*pool), kind@, v@),
    decreases v, 5nat, 0nat,
{
    match kind {
        FieldKind::Message(n) => {
            let fs = json_to_message(pool, v, n.as_str());
            Pb::Message(n.clone(), fs)
        },
        FieldKind::Bool => Pb::Bool(
            match v.as_bool() {
                Some(b) => b,
                None => false,
            },
        ),
        FieldKind::Int32 => Pb::I32(read_int32(v)),
        FieldKind::Int64 => Pb::I64(json_as_i64(v)),
        FieldKind::Uint32 => Pb::U32((read_uint64(v) % 0x1_0000_0000) as u32),
        FieldKind::Uint64 => Pb::U64(read_uint64(v)),
        FieldKind::Single => Pb::Single(read_number(v)),
        FieldKind::Double => Pb::Double(read_number(v)),
        FieldKind::Text => Pb::Text(v.str_or_empty().to_owned()),
        FieldKind::Bytes => Pb::Bytes(read_bytes(v)),
        FieldKind::Enum(values) => Pb::Enum(read_enum(values, v)),
    }
}

// ---------------------------------------------------------------------------
// What survives the wire
// ---------------------------------------------------------------------------

/// How deep the messages are that survive the wire.
pub const WIRE_DEPTH: usize = 40;

/// A value of a type without floating-point numbers.
pub open spec fn plain_item(
    ss: Map<Seq<char>, SchemaView>,
    kind: KindView,
    v: PbTree,
    depth: nat,
) -> bool
    decreases depth, 1nat,
{
    match (kind, v) {
        (KindView::Bool, PbTree::Bool(_)) => true,
        (KindView::Int32, PbTree::I32(_)) => true,
        (KindView::Int64, PbTree::I64(_)) => true,
        (KindView::Uint32, PbTree::U32(_)) => true,
        (KindView::Uint64, PbTree::U64(_)) => true,
        (KindView::Text, PbTree::Text(_)) => true,
        (KindView::Bytes, PbTree::Bytes(_)) => true,
        (KindView::Enum(_), PbTree::Enum(_)) => true,
        (KindView::Message(n), PbTree::Message(k, fs)) => n == k && depth > 0 && plain_message(
            ss,
            n,
            fs,
            (depth - 1) as nat,
        ),
        _ => false,
    }
}

/// A value of a field that is told from an absent one, and shares its place with
/// no other.
pub open spec fn plain_field(
    ss: Map<Seq<char>, SchemaView>,
    f: FieldView,
    v: PbTree,
    depth: nat,
) -> bool
    decreases depth, 2nat,
{
    !f.oneof && match (f.shape, v) {
        (Shape::One, _) => f.presence && plain_item(ss, f.kind, v, depth),
        (Shape::List, PbTree::List(items)) => items.len() > 0 && forall|i: int|
            0 <= i < items.len() ==> plain_item(ss, f.kind, #[trigger] items[i], depth),
        (Shape::Entries, PbTree::Entries(entries)) => f.text_keys && !no_entries(entries)
            && forall|k: Seq<char>|
            entries.contains_key(k) ==> plain_item(ss, f.kind, #[trigger] entries[k], depth),
        _ => false,
    }
}

/// A message whose fields are those of the pool, each once and in order.
pub open spec fn plain_message(
    ss: Map<Seq<char>, SchemaView>,
    name: Seq<char>,
    fields: Seq<(Seq<char>, PbTree)>,
    depth: nat,
) -> bool
    decreases depth, 3nat,
{
    &&& ss.contains_key(name)
    &&& forall|i: int|
        0 <= i < fields.len() ==> 0 <= json_index(ss[name].fields, (#[trigger] fields[i]).0)
            && plain_field(
            ss,
            ss[name].fields[json_index(ss[name].fields, fields[i].0)],
            fields[i].1,
            depth,
        )
    &&& forall|i: int, j: int|
        0 <= i < j < fields.len() ==> json_index(ss[name].fields, (#[trigger] fields[i]).0)
            < json_index(ss[name].fields, (#[trigger] fields[j]).0)
}

// ---------------------------------------------------------------------------
// Bodies
// ---------------------------------------------------------------------------

/// The magic in front of every body.
pub open spec fn magic() -> Seq<u8> {
    seq![0x6b, 0x38, 0x73, 0x00]
}

/// A body begins with the magic.
pub open spec fn has_magic(body: Seq<u8>) -> bool {
    body.len() >= 4 && body.take(4) == magic()
}

/// Whether a body is in the protobuf format.
pub fn is_protobuf(body: &[u8]) -> (r: bool)
    ensures
        r == has_magic(body@),
{
    let r = body.len() >= 4 && body[0] == 0x6b && body[1] == 0x38 && body[2] == 0x73 && body[3]
        == 0x00;
    proof {
        if r {
            assert(body@.take(4) =~= magic());
        } else if body@.len() >= 4 {
            assert(body@.take(4)[0] == body@[0] && body@.take(4)[1] == body@[1]);
            assert(body@.take(4)[2] == body@[2] && body@.take(4)[3] == body@[3]);
        }
    }
    r
}

/// A content type asks for the protobuf format, whatever its parameters.
pub open spec fn asks_protobuf(content_type: Seq<char>) -> bool {
    trimmed_text(split(content_type, ';')[0]) == CONTENT_TYPE@
}

/// Whether a content type asks for the protobuf format.
pub fn wants_protobuf(content_type: &str) -> (r: bool)
    ensures
        r == asks_protobuf(content_type@),
{
    let parts = split_on(content_type, ';');
    proof {
        law_join_of_split(content_type@, ';');
        assert(texts(parts@).len() == parts@.len());
        assert(texts(parts@)[0] == parts@[0]@);
    }
    same(trim(parts[0].as_str()), CONTENT_TYPE)
}

/// The package of the messages of a group and version.
pub open spec fn package_of(group: Seq<char>, version: Seq<char>) -> Option<Seq<char>> {
    if version == "v2"@ {
        if group == "autoscaling"@ {
            Some("k8s.io.api.autoscaling.v2"@)
        } else {
            None
        }
    } else if version != "v1"@ {
        None
    } else if group == ""@ {
        Some("k8s.io.api.core.v1"@)
    } else if group == "coordination.k8s.io"@ {
        Some("k8s.io.api.coordination.v1"@)
    } else if group == "apps"@ {
        Some("k8s.io.api.apps.v1"@)
    } else if group == "batch"@ {
        Some("k8s.io.api.batch.v1"@)
    } else if group == "discovery.k8s.io"@ {
        Some("k8s.io.api.discovery.v1"@)
    } else if group == "storage.k8s.io"@ {
        Some("k8s.io.api.storage.v1"@)
    } else if group == "rbac.authorization.k8s.io"@ {
        Some("k8s.io.api.rbac.v1"@)
    } else if group == "networking.k8s.io"@ {
        Some("k8s.io.api.networking.v1"@)
    } else if group == "policy"@ {
        Some("k8s.io.api.policy.v1"@)
    } else if group == "scheduling.k8s.io"@ {
        Some("k8s.io.api.scheduling.v1"@)
    } else if group == "admissionregistration.k8s.io"@ {
        Some("k8s.io.api.admissionregistration.v1"@)
    } else if group == "certificates.k8s.io"@ {
        Some("k8s.io.api.certificates.v1"@)
    } else if group == "apiextensions.k8s.io"@ {
        Some("k8s.io.apiextensions_apiserver.pkg.apis.apiextensions.v1"@)
    } else {
        None
    }
}

fn package(group: &str, version: &str) -> (r: Option<&'static str>)
    ensures
        opt_str(r) == package_of(group@, version@),
{
    if same(version, "v2") {
        if same(group, "autoscaling") {
            Some("k8s.io.api.autoscaling.v2")
        } else {
            None
        }
    } else if !same(version, "v1") {
        None
    } else if same(group, "") {
        Some("k8s.io.api.core.v1")
    } else if same(group, "coordination.k8s.io") {
        Some("k8s.io.api.coordination.v1")
    } else if same(group, "apps") {
        Some("k8s.io.api.apps.v1")
    } else if same(group, "batch") {
        Some("k8s.io.api.batch.v1")
    } else if same(group, "discovery.k8s.io") {
        Some("k8s.io.api.discovery.v1")
    } else if same(group, "storage.k8s.io") {
        Some("k8s.io.api.storage.v1")
    } else if same(group, "rbac.authorization.k8s.io") {
        Some("k8s.io.api.rbac.v1")
    } else if same(group, "networking.k8s.io") {
        Some("k8s.io.api.networking.v1")
    } else if same(group, "policy") {
        Some("k8s.io.api.policy.v1")
    } else if same(group, "scheduling.k8s.io") {
        Some("k8s.io.api.scheduling.v1")
    } else if same(group, "admissionregistration.k8s.io") {
        Some("k8s.io.api.admissionregistration.v1")
    } else if same(group, "certificates.k8s.io") {
        Some("k8s.io.api.certificates.v1")
    } else if same(group, "apiextensions.k8s.io") {
        Some("k8s.io.apiextensions_apiserver.pkg.apis.apiextensions.v1")
    } else {
        None
    }
}

/// A full name begins with no dot.
pub open spec fn is_full_name(name: Seq<char>) -> bool {
    name.len() > 0 && name[0] != '.'
}

proof fn lemma_package(group: Seq<char>, version: Seq<char>)
    ensures
        package_of(group, version) is Some ==> is_full_name(package_of(group, version)->0),
{
    reveal_strlit("k8s.io.api.admissionregistration.v1");
    assert("k8s.io.api.admissionregistration.v1"@[0] == 'k');
    reveal_strlit("k8s.io.api.apps.v1");
    assert("k8s.io.api.apps.v1"@[0] == 'k');
    reveal_strlit("k8s.io.api.autoscaling.v2");
    assert("k8s.io.api.autoscaling.v2"@[0] == 'k');
    reveal_strlit("k8s.io.api.batch.v1");
    assert("k8s.io.api.batch.v1"@[0] == 'k');
    reveal_strlit("k8s.io.api.certificates.v1");
    assert("k8s.io.api.certificates.v1"@[0] == 'k');
    reveal_strlit("k8s.io.api.coordination.v1");
    assert("k8s.io.api.coordination.v1"@[0] == 'k');
    reveal_strlit("k8s.io.api.core.v1");
    assert("k8s.io.api.core.v1"@[0] == 'k');
    reveal_strlit("k8s.io.api.discovery.v1");
    assert("k8s.io.api.discovery.v1"@[0] == 'k');
    reveal_strlit("k8s.io.api.networking.v1");
    assert("k8s.io.api.networking.v1"@[0] == 'k');
    reveal_strlit("k8s.io.api.policy.v1");
    assert("k8s.io.api.policy.v1"@[0] == 'k');
    reveal_strlit("k8s.io.api.rbac.v1");
    assert("k8s.io.api.rbac.v1"@[0] == 'k');
    reveal_strlit("k8s.io.api.scheduling.v1");
    assert("k8s.io.api.scheduling.v1"@[0] == 'k');
    reveal_strlit("k8s.io.api.storage.v1");
    assert("k8s.io.api.storage.v1"@[0] == 'k');
    reveal_strlit("k8s.io.apiextensions_apiserver.pkg.apis.apiextensions.v1");
    assert("k8s.io.apiextensions_apiserver.pkg.apis.apiextensions.v1"@[0] == 'k');
}

/// The message of a kind, where the pool holds it.
pub open spec fn message_for(
    ss: Map<Seq<char>, SchemaView>,
    api_version: Seq<char>,
    kind: Seq<char>,
) -> Option<Seq<char>> {
    let (group, version) = match rfind(api_version, "/"@) {
        Some(i) => (api_version.take(i), api_version.skip(i + 1)),
        None => (""@, api_version),
    };
    match package_of(group, version) {
        Some(p) => if ss.contains_key(p + "."@ + kind) {
            Some(p + "."@ + kind)
        } else {
            None
        },
        None => None,
    }
}

/// The name of the message of a kind, where the pool holds it.
pub fn message_name(pool: &prost_reflect::DescriptorPool, api_version: &str, kind: &str) -> (r: Option<
    String,
>)
    ensures
        opt_text(r) == message_for(pool_schemas(*pool), api_version@, kind@),
        r is Some ==> is_full_name(r->0@),
{
    let len: usize = api_version.unicode_len();
    let (group, version) = match rfind_text(api_version, "/") {
        Some(i) => {
            proof {
                reveal_strlit("/");
                assert("/"@.len() == 1);
                lemma_rfind_to(api_version@, "/"@, api_version@.len() - 1);
            }
            let g = api_version.substring_char(0, i);
            let v = api_version.substring_char(i + 1, len);
            assert(g@ =~= api_version@.take(i as int));
            assert(v@ =~= api_version@.skip(i + 1));
            (g, v)
        },
        None => ("", api_version),
    };
    match package(group, version) {
        Some(p) => {
            let name = p.to_owned().concat(".").concat(kind);
            proof {
                lemma_package(group@, version@);
                assert(name@[0] == p@[0]);
            }
            match find_schema(pool, name.as_str()) {
                Some(_) => Some(name),
                None => None,
            }
        },
        None => None,
    }
}

/// Whether a kind has a message in the pool.
pub fn supports(pool: &prost_reflect::DescriptorPool, api_version: &str, kind: &str) -> (r: bool)
    ensures
        r == message_for(pool_schemas(*pool), api_version@, kind@) is Some,
{
    message_name(pool, api_version, kind).is_some()
}

/// The message of the envelope.
pub open spec fn envelope_name() -> Seq<char> {
    "k8s.io.apimachinery.pkg.runtime.Unknown"@
}

/// The fields of the envelope of an object.
pub open spec fn envelope(api_version: Seq<char>, kind: Seq<char>, raw: Seq<u8>) -> Seq<
    (Seq<char>, PbTree),
> {
    Seq::empty().push(
        (
            "typeMeta"@,
            PbTree::Message(
                "k8s.io.apimachinery.pkg.runtime.TypeMeta"@,
                Seq::empty().push(("apiVersion"@, PbTree::Text(api_version))).push(
                    ("kind"@, PbTree::Text(kind)),
                ),
            ),
        ),
    ).push(("raw"@, PbTree::Bytes(raw)))
}

/// The type of an object in the fields of its envelope: empty texts where it has
/// none.
pub open spec fn type_meta(fields: Seq<(Seq<char>, PbTree)>) -> (Seq<char>, Seq<char>) {
    match field_value(fields, "typeMeta"@) {
        Some(PbTree::Message(_, fs)) => (str_field(fs, "apiVersion"@), str_field(fs, "kind"@)),
        _ => (Seq::empty(), Seq::empty()),
    }
}

/// The object in the fields of its envelope.
pub open spec fn raw_bytes(fields: Seq<(Seq<char>, PbTree)>) -> Seq<u8> {
    match field_value(fields, "raw"@) {
        Some(PbTree::Bytes(b)) => b,
        _ => Seq::empty(),
    }
}

/// A text, or another where it is empty.
pub open spec fn or_hint(s: Seq<char>, hint: Seq<char>) -> Seq<char> {
    if s.len() == 0 {
        hint
    } else {
        s
    }
}

/// An object with a type.
pub open spec fn with_type(json: Tree, api_version: Seq<char>, kind: Seq<char>) -> Tree {
    match json {
        Tree::Object(m) => {
            let a = if api_version.len() == 0 {
                json
            } else {
                json.set("apiVersion"@, Tree::String(api_version))
            };
            if kind.len() == 0 {
                a
            } else {
                a.set("kind"@, Tree::String(kind))
            }
        },
        _ => json,
    }
}

/// The object in the fields of an envelope, or why there is none.
pub open spec fn object_in(
    pool: prost_reflect::DescriptorPool,
    fields: Seq<(Seq<char>, PbTree)>,
    hint_api_version: Seq<char>,
    hint_kind: Seq<char>,
) -> Result<Tree, Seq<char>> {
    let (a, k) = type_meta(fields);
    let api_version = or_hint(a, hint_api_version);
    let kind = or_hint(k, hint_kind);
    match message_for(pool_schemas(pool), api_version, kind) {
        None => Err(
            "no protobuf schema for "@ + quoted_text(api_version) + " "@ + quoted_text(kind),
        ),
        Some(name) => match wire_read(pool, name, raw_bytes(fields)) {
            Ok(PbTree::Message(n, fs)) => Ok(with_type(message_json(n, fs), api_version, kind)),
            Ok(_) => Ok(Tree::Null),
            Err(e) => Err("decoding "@ + name + ": "@ + e),
        },
    }
}

/// The object in a body, or why there is none.
pub open spec fn decoded(
    pool: prost_reflect::DescriptorPool,
    body: Seq<u8>,
    hint_api_version: Seq<char>,
    hint_kind: Seq<char>,
) -> Result<Tree, Seq<char>> {
    if !has_magic(body) {
        Err("body is not k8s protobuf (missing magic)"@)
    } else if !pool_schemas(pool).contains_key(envelope_name()) {
        Err("descriptor missing: "@ + envelope_name())
    } else {
        match wire_read(pool, envelope_name(), body.skip(4)) {
            Ok(PbTree::Message(_, fields)) => object_in(pool, fields, hint_api_version, hint_kind),
            Ok(_) => Ok(Tree::Null),
            Err(e) => Err("bad Unknown envelope: "@ + e),
        }
    }
}

/// A result as a view.
pub open spec fn json_result(r: Result<Json, String>) -> Result<Tree, Seq<char>> {
    match r {
        Ok(v) => Ok(v@),
        Err(e) => Err(e@),
    }
}

fn open_envelope(
    pool: &prost_reflect::DescriptorPool,
    fields: &Vec<(String, Pb)>,
    hint_api_version: &str,
    hint_kind: &str,
) -> (r: Result<Json, String>)
    ensures
        json_result(r) == object_in(
            *pool,
            pb_pairs(fields@),
            hint_api_version@,
            hint_kind@,
        ),
{
    let (a, k) = match find_field(fields, "typeMeta") {
        Some(i) => match &fields[i].1 {
            Pb::Message(_, fs) => (read_text(fs, "apiVersion"), read_text(fs, "kind")),
            _ => (String::new(), String::new()),
        },
        None => (String::new(), String::new()),
    };
    let api_version = if a.as_str().unicode_len() == 0 {
        hint_api_version
    } else {
        a.as_str()
    };
    let kind = if k.as_str().unicode_len() == 0 {
        hint_kind
    } else {
        k.as_str()
    };
    let name = match message_name(pool, api_version, kind) {
        Some(n) => n,
        None => {
            let m = "no protobuf schema for ".to_owned().concat(
                quoted(api_version).as_str(),
            ).concat(" ").concat(quoted(kind).as_str());
            return Err(m);
        },
    };
    let none: Vec<u8> = Vec::new();
    assert(none@ =~= Seq::<u8>::empty());
    let raw: &Vec<u8> = match find_field(fields, "raw") {
        Some(i) => match &fields[i].1 {
            Pb::Bytes(b) => b,
            _ => &none,
        },
        None => &none,
    };
    match read_message(pool, name.as_str(), raw.as_slice()) {
        Ok(m) => match &m {
            Pb::Message(n, fs) => {
                let mut json = message_to_json(n.as_str(), fs);
                if json.is_object() {
                    if api_version.unicode_len() > 0 {
                        json.set("apiVersion", Json::text(api_version));
                    }
                    if kind.unicode_len() > 0 {
                        json.set("kind", Json::text(kind));
                    }
                }
                Ok(json)
            },
            _ => Ok(Json::Null),
        },
        Err(e) => Err(
            "decoding ".to_owned().concat(name.as_str()).concat(": ").concat(e.as_str()),
        ),
    }
}

/// Reads the object in a body. The hints are the type that the request's path
/// implies, for an envelope that names none.
pub fn decode_to_json(
    pool: &prost_reflect::DescriptorPool,
    body: &[u8],
    hint_api_version: &str,
    hint_kind: &str,
) -> (r: Result<Json, String>)
    ensures
        json_result(r) == decoded(*pool, body@, hint_api_version@, hint_kind@),
{
    if !is_protobuf(body) {
        return Err("body is not k8s protobuf (missing magic)".to_owned());
    }
    proof {
        reveal_strlit("k8s.io.apimachinery.pkg.runtime.Unknown");
        assert("k8s.io.apimachinery.pkg.runtime.Unknown"@[0] == 'k');
    }
    if find_schema(pool, "k8s.io.apimachinery.pkg.runtime.Unknown").is_none() {
        return Err(
            "descriptor missing: ".to_owned().concat("k8s.io.apimachinery.pkg.runtime.Unknown"),
        );
    }
    let rest = slice_subrange(body, 4, body.len());
    assert(rest@ =~= body@.skip(4));
    match read_message(pool, "k8s.io.apimachinery.pkg.runtime.Unknown", rest) {
        Ok(m) => match &m {
            Pb::Message(_, fields) => open_envelope(pool, fields, hint_api_version, hint_kind),
            _ => Ok(Json::Null),
        },
        Err(e) => Err("bad Unknown envelope: ".to_owned().concat(e.as_str())),
    }
}

/// An object without its type, which stands in the envelope.
pub open spec fn without_type(json: Tree) -> Tree {
    json.unset("apiVersion"@).unset("kind"@)
}

fn strip_type(json: &Json) -> (r: Json)
    ensures
        r@ == without_type(json@),
{
    let mut out = json.dup();
    out.unset("apiVersion");
    out.unset("kind");
    out
}

/// Some bytes are what some fields were written as: they read back as the fields
/// do.
pub open spec fn wire_writes(
    pool: prost_reflect::DescriptorPool,
    name: Seq<char>,
    fields: Seq<(Seq<char>, PbTree)>,
    raw: Seq<u8>,
) -> bool {
    &&& wire_echo(pool, name, fields) == wire_read(pool, name, raw).ok()
    &&& plain_message(pool_schemas(pool), name, fields, WIRE_DEPTH as nat) ==> wire_holds(
        pool,
        name,
        fields,
        raw,
    )
}

/// A body holds an object: the magic, then an envelope with the type and the
/// object's message.
pub open spec fn body_of(
    pool: prost_reflect::DescriptorPool,
    json: Tree,
    api_version: Seq<char>,
    kind: Seq<char>,
    name: Seq<char>,
    raw: Seq<u8>,
    body: Seq<u8>,
) -> bool {
    let ss = pool_schemas(pool);
    let env = envelope(api_version, kind, raw);
    let fields = message_of(ss, without_type(json), name);
    &&& has_magic(body)
    &&& wire_writes(pool, name, fields, raw)
    &&& wire_writes(pool, envelope_name(), env, body.skip(4))
}

/// A body holds an object in some bytes.
pub open spec fn encodes(
    pool: prost_reflect::DescriptorPool,
    json: Tree,
    api_version: Seq<char>,
    kind: Seq<char>,
    name: Seq<char>,
    body: Seq<u8>,
) -> bool {
    exists|raw: Seq<u8>| #[trigger] body_of(pool, json, api_version, kind, name, raw, body)
}

fn make_envelope(api_version: &str, kind: &str, raw: Vec<u8>) -> (r: Vec<(String, Pb)>)
    ensures
        pb_pairs(r@) == envelope(api_version@, kind@, raw@),
{
    let ghost rv = raw@;
    let mut meta: Vec<(String, Pb)> = Vec::new();
    meta.push(("apiVersion".to_owned(), Pb::Text(api_version.to_owned())));
    meta.push(("kind".to_owned(), Pb::Text(kind.to_owned())));
    let ghost mv = pb_pairs(meta@);
    assert(mv =~= Seq::empty().push(("apiVersion"@, PbTree::Text(api_version@))).push(
        ("kind"@, PbTree::Text(kind@)),
    ));
    let mut out: Vec<(String, Pb)> = Vec::new();
    out.push(
        (
            "typeMeta".to_owned(),
            Pb::Message("k8s.io.apimachinery.pkg.runtime.TypeMeta".to_owned(), meta),
        ),
    );
    out.push(("raw".to_owned(), Pb::Bytes(raw)));
    assert(pb_pairs(out@) =~= envelope(api_version@, kind@, rv));
    out
}

/// Writes an object of a type as a body.
pub fn encode_from_json(
    pool: &prost_reflect::DescriptorPool,
    json: &Json,
    api_version: &str,
    kind: &str,
) -> (r: Result<Vec<u8>, String>)
    ensures
        ({
            let name = message_for(pool_schemas(*pool), api_version@, kind@);
            let known = pool_schemas(*pool).contains_key(envelope_name());
            match r {
                Ok(body) => name is Some && known && encodes(
                    *pool,
                    json@,
                    api_version@,
                    kind@,
                    name->0,
                    body@,
                ),
                Err(e) => if name is None {
                    e@ == "no protobuf schema for "@ + api_version@ + " "@ + kind@
                } else {
                    !known && e@ == "descriptor missing: "@ + envelope_name()
                },
            }
        }),
{
    let name = match message_name(pool, api_version, kind) {
        Some(n) => n,
        None => {
            return Err(
                "no protobuf schema for ".to_owned().concat(api_version).concat(" ").concat(kind),
            );
        },
    };
    proof {
        reveal_strlit("k8s.io.apimachinery.pkg.runtime.Unknown");
        assert("k8s.io.apimachinery.pkg.runtime.Unknown"@[0] == 'k');
    }
    if find_schema(pool, "k8s.io.apimachinery.pkg.runtime.Unknown").is_none() {
        return Err(
            "descriptor missing: ".to_owned().concat("k8s.io.apimachinery.pkg.runtime.Unknown"),
        );
    }
    let bare = strip_type(json);
    let fields = json_to_message(pool, &bare, name.as_str());
    let raw = write_message(pool, name.as_str(), &fields);
    let ghost rv = raw@;
    let env = make_envelope(api_version, kind, raw);
    let mut rest = write_message(pool, "k8s.io.apimachinery.pkg.runtime.Unknown", &env);
    let ghost tail = rest@;
    let mut body: Vec<u8> = Vec::new();
    body.push(0x6b);
    body.push(0x38);
    body.push(0x73);
    body.push(0x00);
    body.append(&mut rest);
    proof {
        assert(body@.take(4) =~= magic());
        assert(body@.skip(4) =~= tail);
        assert(body_of(*pool, json@, api_version@, kind@, name@, rv, body@));
    }
    Ok(body)
}

// ---------------------------------------------------------------------------
// What survives
// ---------------------------------------------------------------------------

/// A message has a field of a name, and the name is its JSON name.
pub open spec fn has_field(fields: Seq<FieldView>, key: Seq<char>) -> bool {
    let i = name_index(fields, key);
    0 <= i < fields.len() && fields[i].json_name == key
}

/// A document is an integer from a range.
pub open spec fn integer_within(v: Tree, low: int, high: int) -> bool {
    match v.integer() {
        Some(n) => low <= n <= high && v == Tree::Number(Numeral::of(n)),
        None => false,
    }
}

/// A document is a value of a type, written as this library writes it.
pub open spec fn faithful_item(ss: Map<Seq<char>, SchemaView>, kind: KindView, v: Tree) -> bool
    decreases v, 5nat,
{
    match kind {
        KindView::Message(n) => faithful(ss, v, n),
        KindView::Bool => v is Bool,
        KindView::Int32 => integer_within(v, -0x8000_0000, 0x7fff_ffff),
        KindView::Int64 => integer_within(v, i64::MIN as int, i64::MAX as int),
        KindView::Uint32 => match v.natural() {
            Some(n) => n <= 0xffff_ffff,
            None => false,
        },
        KindView::Uint64 => v.natural() is Some,
        KindView::Single => v is Number,
        KindView::Double => v is Number,
        KindView::Text => v is String,
        KindView::Bytes => match v {
            Tree::String(s) => match base64_bytes(s) {
                Some(b) => base64_text(b) == s,
                None => false,
            },
            _ => false,
        },
        KindView::Enum(_) => integer_within(v, -0x8000_0000, 0x7fff_ffff),
    }
}

/// A document is the value of a field, written as this library writes it, and not
/// empty.
pub open spec fn faithful_field(ss: Map<Seq<char>, SchemaView>, f: FieldView, v: Tree) -> bool
    decreases v, 6nat,
{
    match f.shape {
        Shape::One => faithful_item(ss, f.kind, v),
        Shape::List => match v {
            Tree::Array(items) => items.len() > 0 && forall|i: int|
                0 <= i < items.len() ==> faithful_item(ss, f.kind, #[trigger] items[i]),
            _ => false,
        },
        Shape::Entries => match v {
            Tree::Object(m) => (exists|k: Seq<char>| #[trigger] m.contains_key(k)) && forall|
                k: Seq<char>,
            |
                m.contains_key(k) ==> faithful_item(ss, f.kind, #[trigger] m[k]),
            _ => false,
        },
    }
}

/// A document holds a time that is written as this library writes it.
pub open spec fn faithful_time(fields: Seq<FieldView>, json: Tree, micro: bool) -> bool {
    &&& has_field(fields, "seconds"@)
    &&& has_field(fields, "nanos"@)
    &&& match json {
        Tree::String(s) => match rfc3339(s) {
            Some((secs, nanos)) => nanos <= 0x7fff_ffff && !(secs == 0 && nanos == 0) && (
            if micro {
                micro_text(secs as int, nanos as int)
            } else {
                second_text(secs as int, nanos as int)
            }) == Some(s),
            None => false,
        },
        _ => false,
    }
}

/// A document is a schema, in the place of something else.
pub open spec fn faithful_schema(
    ss: Map<Seq<char>, SchemaView>,
    fields: Seq<FieldView>,
    json: Tree,
) -> bool
    decreases json, 3nat,
{
    has_field(fields, "schema"@) && match fields[name_index(fields, "schema"@)].kind {
        KindView::Message(n) => special_of(n) == Special::Plain && faithful(ss, json, n),
        _ => false,
    }
}

/// A document is a message, with members that the message has fields for, written
/// as this library writes them.
pub open spec fn faithful(ss: Map<Seq<char>, SchemaView>, json: Tree, name: Seq<char>) -> bool
    decreases
            json,
            (if special_of(name) == Special::Plain {
                2nat
            } else {
                4nat
            }),
{
    let fields = fields_of(ss, name);
    match special_of(name) {
        Special::Time => faithful_time(fields, json, false),
        Special::MicroTime => faithful_time(fields, json, true),
        Special::Quantity => has_field(fields, "string"@) && json is String,
        Special::IntOrString => has_field(fields, "type"@) && has_field(fields, "intVal"@)
            && has_field(fields, "strVal"@) && (json is String || integer_within(
            json,
            -0x8000_0000,
            0x7fff_ffff,
        )),
        Special::Raw => has_field(fields, "raw"@) && reads_as(
            encode_utf8(json_text(json)),
            json,
        ),
        Special::PropsOrBool => if json is Bool {
            has_field(fields, "allows"@)
        } else {
            faithful_schema(ss, fields, json)
        },
        Special::PropsOrArray => match json {
            Tree::Array(items) => has_field(fields, "jSONSchemas"@) && items.len() > 0 && forall|
                i: int,
            |
                0 <= i < items.len() ==> faithful_item(
                    ss,
                    fields[name_index(fields, "jSONSchemas"@)].kind,
                    #[trigger] items[i],
                ),
            _ => faithful_schema(ss, fields, json),
        },
        Special::PropsOrStringArray => match json {
            Tree::Array(items) => has_field(fields, "property"@) && items.len() > 0 && forall|
                i: int,
            |
                0 <= i < items.len() ==> #[trigger] items[i] is String,
            _ => faithful_schema(ss, fields, json),
        },
        Special::Plain => match json {
            Tree::Object(m) => forall|k: Seq<char>|
                m.contains_key(k) ==> !(m[k] is Null) && 0 <= json_index(fields, k)
                    && faithful_field(ss, fields[json_index(fields, k)], #[trigger] m[k]),
            _ => false,
        },
    }
}

proof fn lemma_json_index_is(fields: Seq<FieldView>, key: Seq<char>)
    ensures
        ({
            let i = json_index(fields, key);
            i < fields.len() && (i >= 0 ==> fields[i].json_name == key) && (forall|j: int|
                0 <= j < fields.len() && (i < 0 || j < i) ==> (#[trigger] fields[j]).json_name
                    != key) && i >= -1
        }),
    decreases fields.len(),
{
    if fields.len() > 0 {
        let short = fields.drop_last();
        lemma_json_index_is(short, key);
        let i = json_index(fields, key);
        assert forall|j: int| 0 <= j < fields.len() && (i < 0 || j < i) implies (
        #[trigger] fields[j]).json_name != key by {
            if j < short.len() {
                assert(short[j] == fields[j]);
            }
        }
        if json_index(short, key) >= 0 {
            assert(short[json_index(short, key)] == fields[json_index(short, key)]);
        }
    }
}

proof fn lemma_narrow(n: int)
    requires
        -0x8000_0000 <= n <= 0x7fff_ffff,
    ensures
        narrow(n) == n,
{
    if n >= 0 {
        assert(n % 0x1_0000_0000 == n);
    } else {
        assert(n % 0x1_0000_0000 == n + 0x1_0000_0000) by (nonlinear_arith)
            requires
                -0x8000_0000 <= n < 0,
        ;
    }
}

/// A document that is a value of a type survives the way into a message and back.
pub proof fn law_item_survives(ss: Map<Seq<char>, SchemaView>, kind: KindView, v: Tree)
    requires
        faithful_item(ss, kind, v),
    ensures
        item_json(item_of(ss, kind, v)) == v,
    decreases v, 5nat, 0nat,
{
    match kind {
        KindView::Message(n) => {
            law_message_survives(ss, v, n);
        },
        KindView::Int32 => {
            lemma_narrow(v.integer()->0);
        },
        KindView::Enum(_) => {
            lemma_narrow(v.integer()->0);
        },
        KindView::Uint32 => {
            let n = v.natural()->0;
            assert(low_bits(n as int) == n);
        },
        _ => {},
    }
}

proof fn lemma_items_survive(ss: Map<Seq<char>, SchemaView>, kind: KindView, items: Seq<Tree>)
    requires
        forall|i: int| 0 <= i < items.len() ==> faithful_item(ss, kind, #[trigger] items[i]),
    ensures
        items_json(list_of(ss, kind, items)) == items,
    decreases items, 0nat, 0nat,
{
    let r = items_json(list_of(ss, kind, items));
    assert forall|i: int| 0 <= i < items.len() implies r[i] == items[i] by {
        law_item_survives(ss, kind, items[i]);
    }
    assert(r =~= items);
}

proof fn lemma_entries_survive(ss: Map<Seq<char>, SchemaView>, kind: KindView, v: Tree)
    requires
        v is Object,
        forall|k: Seq<char>|
            v->Object_0.contains_key(k) ==> faithful_item(ss, kind, #[trigger] v->Object_0[k]),
    ensures
        entries_json(PbTree::Entries(entries_of(ss, kind, v))) == v->Object_0,
    decreases v, 5nat, 1nat,
{
    let m = v->Object_0;
    let r = entries_json(PbTree::Entries(entries_of(ss, kind, v)));
    assert forall|k: Seq<char>| #[trigger] m.contains_key(k) implies r[k] == m[k] by {
        law_item_survives(ss, kind, m[k]);
    }
    assert(r =~= m);
}

proof fn lemma_field_survives(ss: Map<Seq<char>, SchemaView>, f: FieldView, v: Tree)
    requires
        faithful_field(ss, f, v),
    ensures
        !is_blank(field_of(ss, f, v)),
        value_json(field_of(ss, f, v)) == v,
    decreases v, 6nat, 0nat,
{
    match f.shape {
        Shape::One => {
            law_item_survives(ss, f.kind, v);
        },
        Shape::List => {
            lemma_items_survive(ss, f.kind, v->Array_0);
        },
        Shape::Entries => {
            lemma_entries_survive(ss, f.kind, v);
            let k = choose|k: Seq<char>| #[trigger] v->Object_0.contains_key(k);
            assert(entries_of(ss, f.kind, v).contains_key(k));
        },
    }
}

/// The members of an object whose fields are among the first ones.
spec fn members_within(
    m: Map<Seq<char>, Tree>,
    fields: Seq<FieldView>,
    n: int,
) -> Map<Seq<char>, Tree> {
    m.restrict(Set::new(|k: Seq<char>| json_index(fields, k) < n))
}

proof fn lemma_fields_survive(
    ss: Map<Seq<char>, SchemaView>,
    json: Tree,
    fields: Seq<FieldView>,
    n: nat,
)
    requires
        json is Object,
        n <= fields.len(),
        forall|k: Seq<char>|
            json->Object_0.contains_key(k) ==> !(json->Object_0[k] is Null) && 0 <= json_index(
                fields,
                k,
            ) && faithful_field(
                ss,
                fields[json_index(fields, k)],
                #[trigger] json->Object_0[k],
            ),
    ensures
        fields_json(set_fields(ss, json, fields, n)) == members_within(
            json->Object_0,
            fields,
            n as int,
        ),
    decreases json, 1nat, n,
{
    let m = json->Object_0;
    let r = fields_json(set_fields(ss, json, fields, n));
    if n == 0 {
        assert forall|k: Seq<char>| #[trigger] m.contains_key(k) implies json_index(fields, k)
            >= 0 by {
            let x = m[k];
        }
        assert(r =~= members_within(m, fields, 0));
    } else {
        let i = n - 1;
        lemma_fields_survive(ss, json, fields, i as nat);
        let f = fields[i];
        let a = f.json_name;
        let b = f.name;
        let rest = set_fields(ss, json, fields, i as nat);
        lemma_json_index_is(fields, a);
        lemma_json_index_is(fields, b);
        if m.contains_key(b) {
            let x = m[b];
            assert(json_index(fields, b) >= 0);
            if sets(fields, m, i, b) {
                assert(fields[i].json_name == b);
            }
        }
        if m.contains_key(a) && json_index(fields, a) == i {
            let x = m[a];
            assert(faithful_field(ss, f, x));
            assert(fits_shape(f.shape, x));
            assert(sets(fields, m, i, a));
            if a == b {
                lemma_before_irreflexive(a);
            }
            assert(source(fields, m, i) == Some(a));
            lemma_field_survives(ss, f, x);
            let now = set_fields(ss, json, fields, n);
            assert(now == rest.push((a, field_of(ss, f, x))));
            assert(now.drop_last() =~= rest);
            assert forall|k: Seq<char>| m.contains_key(k) && #[trigger] json_index(fields, k)
                == i implies k == a by {
                lemma_json_index_is(fields, k);
            }
            assert(r =~= members_within(m, fields, n as int));
        } else {
            assert(!sets(fields, m, i, a)) by {
                if m.contains_key(a) {
                    assert(json_index(fields, a) >= 0);
                }
            }
            assert(source(fields, m, i) is None);
            assert forall|k: Seq<char>| m.contains_key(k) implies #[trigger] json_index(fields, k)
                != i by {
                lemma_json_index_is(fields, k);
            }
            assert(r =~= members_within(m, fields, n as int));
        }
    }
}

/// A document that is a message survives the way into the message and back: what
/// is read from what was written is the document.
pub proof fn law_message_survives(ss: Map<Seq<char>, SchemaView>, json: Tree, name: Seq<char>)
    requires
        faithful(ss, json, name),
    ensures
        message_json(name, message_of(ss, json, name)) == json,
    decreases
            json,
            (if special_of(name) == Special::Plain {
                2nat
            } else {
                4nat
            }),
            0nat,
{
    let fields = fields_of(ss, name);
    let out = message_of(ss, json, name);
    lemma_field_names_differ();
    reveal_with_fuel(field_index, 4);
    match special_of(name) {
        Special::Time => {
            lemma_time_survives(fields, json, false);
        },
        Special::MicroTime => {
            lemma_time_survives(fields, json, true);
        },
        Special::Quantity => {
            assert(out.len() == 1);
        },
        Special::IntOrString => {
            assert(out.len() == 2);
            assert(out.drop_last().last() == out[0]);
            if json is Number {
                lemma_narrow(json.integer()->0);
            }
        },
        Special::Raw => {
            assert(out.len() == 1);
        },
        Special::PropsOrBool => {
            if json is Bool {
                assert(out.len() == 1);
            } else {
                lemma_schema_survives(ss, fields, json);
            }
        },
        Special::PropsOrArray => {
            if json is Array {
                assert(out.len() == 1);
                lemma_items_survive(
                    ss,
                    fields[name_index(fields, "jSONSchemas"@)].kind,
                    json->Array_0,
                );
            } else {
                lemma_schema_survives(ss, fields, json);
            }
        },
        Special::PropsOrStringArray => {
            if json is Array {
                let items = json->Array_0;
                assert(out.len() == 1);
                let list = items.map_values(|t: Tree| PbTree::Text(t.text_or_empty()));
                assert(items_json(list) =~= items) by {
                    assert forall|i: int| 0 <= i < items.len() implies #[trigger] items_json(list)[i]
                        == items[i] by {
                        assert(items[i] is String);
                    }
                }
            } else {
                lemma_schema_survives(ss, fields, json);
            }
        },
        Special::Plain => {
            let m = json->Object_0;
            lemma_fields_survive(ss, json, fields, fields.len());
            assert forall|k: Seq<char>| #[trigger] m.contains_key(k) implies json_index(fields, k)
                < fields.len() by {
                lemma_json_index_is(fields, k);
            }
            assert(members_within(m, fields, fields.len() as int) =~= m);
        },
    }
}

proof fn lemma_field_names_differ()
    ensures
        "seconds"@ != "nanos"@,
        "type"@ != "intVal"@,
        "type"@ != "strVal"@,
        "intVal"@ != "strVal"@,
        "allows"@ != "schema"@,
        "jSONSchemas"@ != "schema"@,
        "property"@ != "schema"@,
{
    reveal_strlit("seconds");
    reveal_strlit("nanos");
    reveal_strlit("type");
    reveal_strlit("intVal");
    reveal_strlit("strVal");
    reveal_strlit("allows");
    reveal_strlit("schema");
    reveal_strlit("jSONSchemas");
    reveal_strlit("property");
    assert("seconds"@.len() == 7);
    assert("nanos"@.len() == 5);
    assert("type"@.len() == 4);
    assert("intVal"@.len() == 6);
    assert("strVal"@.len() == 6);
    assert("intVal"@[0] != "strVal"@[0]);
    assert("allows"@.len() == 6);
    assert("schema"@.len() == 6);
    assert("allows"@[0] != "schema"@[0]);
    assert("jSONSchemas"@.len() == 11);
    assert("property"@.len() == 8);
}

proof fn lemma_time_survives(fields: Seq<FieldView>, json: Tree, micro: bool)
    requires
        faithful_time(fields, json, micro),
    ensures
        time_json(time_fields(fields, json), micro) == json,
{
    lemma_field_names_differ();
    reveal_with_fuel(field_index, 3);
    let s = json->String_0;
    let (secs, nanos) = rfc3339(s)->0;
    let out = time_fields(fields, json);
    lemma_narrow(nanos as int);
    assert(out.len() == 2);
    assert(out[0] == ("seconds"@, PbTree::I64(secs)));
    assert(out[1] == ("nanos"@, PbTree::I32(nanos as i32)));
    assert(out.drop_last().last() == out[0]);
    assert(field_index(out, "nanos"@) == 1);
    assert(field_index(out, "seconds"@) == 0);
    assert(low_bits(nanos as int) == nanos);
}

proof fn lemma_schema_survives(
    ss: Map<Seq<char>, SchemaView>,
    fields: Seq<FieldView>,
    json: Tree,
)
    requires
        faithful_schema(ss, fields, json),
    ensures
        ({
            let out = schema_of(ss, fields, json);
            &&& schema_json(out) == Some(json)
            &&& field_value(out, "allows"@) is None
            &&& list_json(out, "jSONSchemas"@).len() == 0
            &&& list_json(out, "property"@).len() == 0
        }),
    decreases json, 3nat, 0nat,
{
    lemma_field_names_differ();
    reveal_with_fuel(field_index, 3);
    let n = fields[name_index(fields, "schema"@)].kind->Message_0;
    law_message_survives(ss, json, n);
    let out = schema_of(ss, fields, json);
    assert(out.len() == 1);
    assert(out[0].0 == "schema"@);
    assert(field_index(out, "schema"@) == 0);
    assert(field_index(out, "allows"@) == -1);
    assert(field_index(out, "jSONSchemas"@) == -1);
    assert(field_index(out, "property"@) == -1);
}

/// An object survives the way into a body and back, with its type: the body that
/// was written for it is read as the object. This is so for an object that is a
/// message of the pool, where its message and the envelope survive the wire.
pub proof fn law_objects_survive(
    pool: prost_reflect::DescriptorPool,
    json: Tree,
    api_version: Seq<char>,
    kind: Seq<char>,
    name: Seq<char>,
    body: Seq<u8>,
    hint_api_version: Seq<char>,
    hint_kind: Seq<char>,
)
    requires
        encodes(pool, json, api_version, kind, name, body),
        message_for(pool_schemas(pool), api_version, kind) == Some(name),
        pool_schemas(pool).contains_key(envelope_name()),
        api_version.len() > 0,
        kind.len() > 0,
        json.get("apiVersion"@) == Some(Tree::String(api_version)),
        json.get("kind"@) == Some(Tree::String(kind)),
        faithful(pool_schemas(pool), without_type(json), name),
        plain_message(
            pool_schemas(pool),
            name,
            message_of(pool_schemas(pool), without_type(json), name),
            WIRE_DEPTH as nat,
        ),
        forall|raw: Seq<u8>| #[trigger]
            plain_message(
                pool_schemas(pool),
                envelope_name(),
                envelope(api_version, kind, raw),
                WIRE_DEPTH as nat,
            ),
    ensures
        decoded(pool, body, hint_api_version, hint_kind) == Ok::<Tree, Seq<char>>(json),
{
    let ss = pool_schemas(pool);
    let raw = choose|raw: Seq<u8>| #[trigger]
        body_of(pool, json, api_version, kind, name, raw, body);
    let env = envelope(api_version, kind, raw);
    assert(plain_message(ss, envelope_name(), env, WIRE_DEPTH as nat));
    assert(wire_holds(pool, envelope_name(), env, body.skip(4)));
    reveal_strlit("typeMeta");
    reveal_strlit("raw");
    reveal_strlit("apiVersion");
    reveal_strlit("kind");
    assert("typeMeta"@.len() == 8);
    assert("raw"@.len() == 3);
    assert("apiVersion"@.len() == 10);
    assert("kind"@.len() == 4);
    reveal_with_fuel(field_index, 4);
    assert(env.len() == 2);
    assert(env.drop_last().last() == env[0]);
    assert(field_index(env, "raw"@) == 1);
    assert(field_index(env, "typeMeta"@) == 0);
    let meta = Seq::empty().push(("apiVersion"@, PbTree::Text(api_version))).push(
        ("kind"@, PbTree::Text(kind)),
    );
    assert(env[0].1 == PbTree::Message("k8s.io.apimachinery.pkg.runtime.TypeMeta"@, meta));
    assert(meta.drop_last().last() == meta[0]);
    assert(field_index(meta, "kind"@) == 1);
    assert(field_index(meta, "apiVersion"@) == 0);
    assert(type_meta(env) == (api_version, kind));
    assert(raw_bytes(env) == raw);
    let bare = without_type(json);
    law_message_survives(ss, bare, name);
    let m = json->Object_0;
    assert(m.remove("apiVersion"@).remove("kind"@).insert("apiVersion"@, m["apiVersion"@]).insert(
        "kind"@,
        m["kind"@],
    ) =~= m);
    assert(with_type(bare, api_version, kind) == json);
}

/// A member that a message has no field for does not count: the message is the
/// same without it.
pub proof fn law_unknown_members_are_ignored(
    ss: Map<Seq<char>, SchemaView>,
    m: Map<Seq<char>, Tree>,
    name: Seq<char>,
    key: Seq<char>,
)
    requires
        special_of(name) == Special::Plain,
        field_for(fields_of(ss, name), key) == -1,
    ensures
        message_of(ss, Tree::Object(m), name) == message_of(ss, Tree::Object(m.remove(key)), name),
{
    lemma_unknown_member(ss, m, fields_of(ss, name), fields_of(ss, name).len(), key);
}

proof fn lemma_unknown_member(
    ss: Map<Seq<char>, SchemaView>,
    m: Map<Seq<char>, Tree>,
    fields: Seq<FieldView>,
    n: nat,
    key: Seq<char>,
)
    requires
        field_for(fields, key) == -1,
        n <= fields.len(),
    ensures
        set_fields(ss, Tree::Object(m), fields, n) == set_fields(
            ss,
            Tree::Object(m.remove(key)),
            fields,
            n,
        ),
    decreases n,
{
    if n > 0 {
        lemma_unknown_member(ss, m, fields, (n - 1) as nat, key);
        let i = n - 1;
        assert(!sets(fields, m, i, key));
        let a = fields[i].json_name;
        let b = fields[i].name;
        assert(sets(fields, m, i, a) == sets(fields, m.remove(key), i, a));
        assert(sets(fields, m, i, b) == sets(fields, m.remove(key), i, b));
    }
}

/// What a value is in a document: a truth is a truth, a number a number, a text a text, and
/// bytes are their base64.
pub proof fn law_values_are_told_as_they_are(
    b: bool,
    i: i32,
    l: i64,
    u: u64,
    s: Seq<char>,
    bytes: Seq<u8>,
)
    ensures
        item_json(PbTree::Bool(b)) == Tree::Bool(b),
        i >= 0 ==> item_json(PbTree::I32(i)) == Tree::Number(Numeral::PosInt(i as u64)),
        i < 0 ==> item_json(PbTree::I32(i)) == Tree::Number(Numeral::NegInt(i as i64)),
        l >= 0 ==> item_json(PbTree::I64(l)) == Tree::Number(Numeral::PosInt(l as u64)),
        l < 0 ==> item_json(PbTree::I64(l)) == Tree::Number(Numeral::NegInt(l)),
        item_json(PbTree::U64(u)) == Tree::Number(Numeral::PosInt(u)),
        item_json(PbTree::Text(s)) == Tree::String(s),
        item_json(PbTree::Bytes(bytes)) == Tree::String(base64_text(bytes)),
        item_json(PbTree::Enum(i)) == item_json(PbTree::I32(i)),
{
}

/// What is not of its field's type is read as nothing of that type, but for a number of 64 bits
/// that is written as a text.
pub proof fn law_what_does_not_fit_is_nothing(
    ss: Map<Seq<char>, SchemaView>,
    v: Tree,
    s: Seq<char>,
    n: int,
)
    requires
        i64::MIN <= n <= i64::MAX,
        signed(s) == Some(n),
    ensures
        !(v is Bool) ==> item_of(ss, KindView::Bool, v) == PbTree::Bool(false),
        !(v is Number) ==> item_of(ss, KindView::Int32, v) == PbTree::I32(0),
        !(v is Number) && !(v is String) ==> item_of(ss, KindView::Int64, v) == PbTree::I64(0),
        !(v is Number) ==> item_of(ss, KindView::Uint64, v) == PbTree::U64(0),
        !(v is Number) ==> item_of(ss, KindView::Uint32, v) == PbTree::U32(0),
        !(v is String) ==> item_of(ss, KindView::Text, v) == PbTree::Text(Seq::empty()),
        !(v is String) ==> item_of(ss, KindView::Bytes, v) == PbTree::Bytes(Seq::empty()),
        item_of(ss, KindView::Int64, Tree::String(s)) == PbTree::I64(n as i64),
        item_of(ss, KindView::Text, Tree::String(s)) == PbTree::Text(s),
{
}

/// A name of an enumeration is the first number that it stands for.
pub proof fn law_a_name_is_its_number(
    ss: Map<Seq<char>, SchemaView>,
    values: Seq<(Seq<char>, i32)>,
    i: int,
)
    requires
        0 <= i < values.len(),
        forall|k: int| 0 <= k < i ==> (#[trigger] values[k]).0 != values[i].0,
    ensures
        item_of(ss, KindView::Enum(values), Tree::String(values[i].0)) == PbTree::Enum(values[i].1),
{
    lemma_enum_number(values, i);
}

proof fn lemma_enum_number(values: Seq<(Seq<char>, i32)>, i: int)
    requires
        0 <= i < values.len(),
        forall|k: int| 0 <= k < i ==> (#[trigger] values[k]).0 != values[i].0,
    ensures
        enum_number(values, values[i].0) == Some(values[i].1),
    decreases values.len(),
{
    if i > 0 {
        assert(values[0].0 != values[i].0);
        let rest = values.skip(1);
        assert(rest[i - 1] == values[i]);
        assert forall|k: int| 0 <= k < i - 1 implies (#[trigger] rest[k]).0 != rest[i - 1].0 by {
            assert(rest[k] == values[k + 1]);
        }
        lemma_enum_number(rest, i - 1);
    }
}

/// A plain message is an object of its fields: each that is set is there under its name, lists
/// and maps that are empty are not, and what is not set is not.
pub proof fn law_a_message_is_its_fields(
    fields: Seq<(Seq<char>, PbTree)>,
    key: Seq<char>,
    v: PbTree,
    other: Seq<char>,
)
    requires
        other != key,
    ensures
        fields_json(Seq::empty()) == Map::<Seq<char>, Tree>::empty(),
        fields_json(fields.push((key, v))).contains_key(other) == fields_json(fields).contains_key(
            other,
        ),
        fields_json(fields).contains_key(other) ==> fields_json(fields.push((key, v)))[other]
            == fields_json(fields)[other],
        v == PbTree::List(Seq::empty()) ==> fields_json(fields.push((key, v))) == fields_json(
            fields,
        ),
        v == PbTree::Entries(Map::empty()) ==> fields_json(fields.push((key, v))) == fields_json(
            fields,
        ),
        !(v is List) && !(v is Entries) ==> fields_json(fields.push((key, v))).contains_key(key)
            && fields_json(fields.push((key, v)))[key] == item_json(v),
        (v matches PbTree::List(items) ==> items.len() > 0 ==> fields_json(
            fields.push((key, v)),
        ).contains_key(key) && fields_json(fields.push((key, v)))[key].items_or_none().len()
            == items.len()),
{
    assert(fields.push((key, v)).drop_last() =~= fields);
    if v == PbTree::Entries(Map::empty()) {
        assert(is_blank(v));
    }
    if !is_blank(v) {
        assert(fields_json(fields.push((key, v))) == fields_json(fields).insert(key, value_json(v)));
    }
    if !(v is List) && !(v is Entries) {
        assert(value_json(v) == item_json(v));
    }
    if v is List {
        assert(value_json(v) == Tree::Array(items_json(v->List_0)));
        assert(items_json(v->List_0).len() == (v->List_0).len());
    }
}

/// A list is told item by item, a map entry by entry.
pub proof fn law_collections_are_told_item_by_item(
    items: Seq<PbTree>,
    i: int,
    m: Map<Seq<char>, PbTree>,
    key: Seq<char>,
)
    requires
        0 <= i < items.len(),
        m.contains_key(key),
    ensures
        value_json(PbTree::List(items)).items_or_none().len() == items.len(),
        value_json(PbTree::List(items)).items_or_none()[i] == item_json(items[i]),
        value_json(PbTree::Entries(m)).get(key) == Some(item_json(m[key])),
{
}

/// A time is the moment that it names, and null where it names none.
pub proof fn law_a_time_is_a_moment(fields: Seq<(Seq<char>, PbTree)>, secs: i64, nanos: i32)
    requires
        field_value(fields, "seconds"@) == Some(PbTree::I64(secs)),
        field_value(fields, "nanos"@) == Some(PbTree::I32(nanos)),
        nanos >= 0,
    ensures
        ({
            let t = message_json("k8s.io.apimachinery.pkg.apis.meta.v1.Time"@, fields);
            &&& secs == 0 && nanos == 0 ==> t is Null
            &&& (secs != 0 || nanos != 0) && second_text(secs as int, nanos as int) is Some ==> t
                == Tree::String(second_text(secs as int, nanos as int)->0)
        }),
{
}

/// A number or a text is whichever its type says.
pub proof fn law_a_number_or_a_text(fields: Seq<(Seq<char>, PbTree)>, n: i32, s: Seq<char>)
    requires
        field_value(fields, "intVal"@) == Some(PbTree::I32(n)),
        field_value(fields, "strVal"@) == Some(PbTree::Text(s)),
    ensures
        field_value(fields, "type"@) == Some(PbTree::I64(0)) || field_value(fields, "type"@) is None
            ==> int_or_string_json(fields) == Tree::Number(Numeral::of(n as int)),
        field_value(fields, "type"@) == Some(PbTree::I64(1)) ==> int_or_string_json(fields)
            == Tree::String(s),
{
}

/// The envelope holds the type of the object and its bytes, and what it holds is read from it.
pub proof fn law_an_envelope_holds_what_is_put_in(
    api_version: Seq<char>,
    kind: Seq<char>,
    raw: Seq<u8>,
)
    ensures
        type_meta(envelope(api_version, kind, raw)) == (api_version, kind),
        raw_bytes(envelope(api_version, kind, raw)) == raw,
{
    reveal_strlit("typeMeta");
    reveal_strlit("raw");
    reveal_strlit("apiVersion");
    reveal_strlit("kind");
    assert("typeMeta"@.len() == 8);
    assert("raw"@.len() == 3);
    assert("apiVersion"@.len() == 10);
    assert("kind"@.len() == 4);
    let env = envelope(api_version, kind, raw);
    let none = Seq::<(Seq<char>, PbTree)>::empty();
    assert(env.last().0 == "raw"@);
    assert(env[1].1 == PbTree::Bytes(raw));
    assert(field_index(env, "raw"@) == 1);
    let first = env.drop_last();
    assert(first.last().0 == "typeMeta"@);
    assert(field_index(first, "typeMeta"@) == 0);
    assert(field_index(env, "typeMeta"@) == 0);
    let fs = none.push(("apiVersion"@, PbTree::Text(api_version))).push(
        ("kind"@, PbTree::Text(kind)),
    );
    assert(fs.last().0 == "kind"@);
    assert(field_index(fs, "kind"@) == 1);
    assert(fs.drop_last().last().0 == "apiVersion"@);
    assert(field_index(fs.drop_last(), "apiVersion"@) == 0);
    assert(field_index(fs, "apiVersion"@) == 0);
}

/// A body begins with the four bytes that say what it is.
pub proof fn law_the_first_bytes_say_what_it_is(body: Seq<u8>)
    ensures
        has_magic(seq![0x6bu8, 0x38, 0x73, 0x00] + body),
        has_magic(body) ==> body.len() >= 4 && body[0] == 0x6b && body[1] == 0x38 && body[2] == 0x73
            && body[3] == 0,
{
    assert((seq![0x6bu8, 0x38, 0x73, 0x00] + body).take(4) =~= magic());
    if has_magic(body) {
        assert(body.take(4)[0] == magic()[0]);
        assert(body.take(4)[1] == magic()[1]);
        assert(body.take(4)[2] == magic()[2]);
        assert(body.take(4)[3] == magic()[3]);
    }
}

/// An object that is read has the type that its envelope says, else the one that its path does.
pub proof fn law_an_object_has_its_type(
    json: Tree,
    a: Seq<char>,
    k: Seq<char>,
    hint: Seq<char>,
    key: Seq<char>,
)
    requires
        json is Object,
        a.len() > 0,
        k.len() > 0,
        key != "apiVersion"@,
        key != "kind"@,
    ensures
        with_type(json, a, k).at("apiVersion"@) == Tree::String(a),
        with_type(json, a, k).at("kind"@) == Tree::String(k),
        with_type(json, a, k).get(key) == json.get(key),
        without_type(json).get("apiVersion"@) is None,
        without_type(json).get("kind"@) is None,
        without_type(json).get(key) == json.get(key),
        or_hint(a, hint) == a,
        or_hint(Seq::empty(), hint) == hint,
{
    reveal_strlit("apiVersion");
    reveal_strlit("kind");
    assert("apiVersion"@.len() == 10);
    assert("kind"@.len() == 4);
}

/// The message of a kind is the one of its name in the package of its group.
pub proof fn law_the_message_of_a_kind(ss: Map<Seq<char>, SchemaView>, kind: Seq<char>)
    ensures
        ss.contains_key("k8s.io.api.core.v1"@ + "."@ + kind) ==> message_for(ss, "v1"@, kind)
            == Some("k8s.io.api.core.v1"@ + "."@ + kind),
        package_of("apps"@, "v1"@) == Some("k8s.io.api.apps.v1"@),
        package_of("batch"@, "v1"@) == Some("k8s.io.api.batch.v1"@),
        package_of("autoscaling"@, "v2"@) == Some("k8s.io.api.autoscaling.v2"@),
        forall|group: Seq<char>|
            group != "autoscaling"@ ==> (#[trigger] package_of(group, "v2"@)) is None,
        forall|version: Seq<char>|
            version != "v1"@ && version != "v2"@ ==> (#[trigger] package_of(""@, version)) is None,
{
    reveal_strlit("");
    reveal_strlit("v1");
    reveal_strlit("v2");
    reveal_strlit("apps");
    reveal_strlit("batch");
    reveal_strlit("coordination.k8s.io");
    reveal_strlit("discovery.k8s.io");
    reveal_strlit("/");
    assert(""@.len() == 0);
    assert("v1"@.len() == 2);
    assert("v2"@.len() == 2);
    assert("apps"@.len() == 4);
    assert("batch"@.len() == 5);
    assert("coordination.k8s.io"@.len() == 19);
    assert("discovery.k8s.io"@.len() == 16);
    assert("/"@.len() == 1);
    assert("v1"@[1] == '1');
    assert("v2"@[1] == '2');
    lemma_rfind_to("v1"@, "/"@, 1);
    assert("v1"@[0] == 'v');
    if rfind("v1"@, "/"@) is Some {
        let i = rfind("v1"@, "/"@)->0;
        assert("v1"@.subrange(i, i + 1)[0] == "/"@[0]);
    }
}

/// A field is set by either of its names; where a document has both, by the one that comes last
/// in the order of its members.
pub proof fn law_a_field_is_set_by_either_name(
    fields: Seq<FieldView>,
    m: Map<Seq<char>, Tree>,
    i: int,
)
    requires
        0 <= i < fields.len(),
        fields[i].shape == Shape::One,
        field_for(fields, fields[i].json_name) == i,
        field_for(fields, fields[i].name) == i,
    ensures
        ({
            let a = fields[i].json_name;
            let b = fields[i].name;
            let has_a = m.contains_key(a) && !(m[a] is Null);
            let has_b = m.contains_key(b) && !(m[b] is Null);
            &&& !has_a && !has_b ==> source(fields, m, i) is None
            &&& has_a && !has_b ==> source(fields, m, i) == Some(a)
            &&& !has_a && has_b ==> source(fields, m, i) == Some(b)
            &&& has_a && has_b && before(a, b) ==> source(fields, m, i) == Some(b)
            &&& has_a && has_b && before(b, a) ==> source(fields, m, i) == Some(a)
        }),
{
    let a = fields[i].json_name;
    let b = fields[i].name;
    if before(a, b) && before(b, a) {
        crate::json::lemma_before_transitive(a, b, a);
        lemma_before_irreflexive(a);
    }
}

} // verus!
