//! Watching: the lines of a watch stream.
//!
//! A watch is a stream of JSON objects, one to a line, each with a `type` and an
//! `object`. With `sendInitialEvents` the stream begins with what is there, as
//! ADDED events, and a bookmark that says so.

use vstd::prelude::*;
use vstd::string::*;

use crate::apimachinery::watch::WatchEvent;
use crate::apiserver::events::{core_to_events, events_form};
use crate::apiserver::handlers::project::{namespace_to_project, project_of};
use crate::apiserver::handlers::resource::{partial_metadata, to_partial_object_metadata};
use crate::apiserver::storage::{cluster_key_of, namespaced_key_of};
use crate::decimal::{dec, format_u64, parse_unsigned, unsigned};
use crate::json::{empty_object, str_tree, Json, Tree};
use crate::outside::{
    form_pairs, json_read, json_text, pair_texts, parse_json, query_pairs, write_json,
};
use crate::text::{
    contains, drop_front, has_sub, lemma_holds_char, lemma_split_push, lemma_split_whole, opt_text,
    same, split, split_on, texts, trim_start_char,
};

verus! {

/// Does an `Accept` header ask for metadata only?
pub fn wants_partial_metadata(accept: &str) -> (r: bool)
    ensures
        r == has_sub(accept@, "as=PartialObjectMetadata"@),
{
    contains(accept, "as=PartialObjectMetadata")
}

// ---------------------------------------------------------------------------
// Parameters
// ---------------------------------------------------------------------------

/// The parameters of a LIST or WATCH.
#[derive(Debug)]
pub struct WatchParams {
    pub watch: bool,
    pub resource_version: Option<u64>,
    pub limit: Option<usize>,
    pub continue_token: Option<String>,
    pub label_selector: Option<String>,
    pub field_selector: Option<String>,
    /// The client accepts bookmarks.
    pub allow_watch_bookmarks: bool,
    /// The client wants what is there before what changes.
    pub send_initial_events: bool,
}

/// What [`WatchParams`] say.
pub ghost struct ParamsView {
    pub watch: bool,
    pub resource_version: Option<nat>,
    pub limit: Option<nat>,
    pub continue_token: Option<Seq<char>>,
    pub label_selector: Option<Seq<char>>,
    pub field_selector: Option<Seq<char>>,
    pub allow_watch_bookmarks: bool,
    pub send_initial_events: bool,
}

impl View for WatchParams {
    type V = ParamsView;

    open spec fn view(&self) -> ParamsView {
        ParamsView {
            watch: self.watch,
            resource_version: match self.resource_version {
                Some(n) => Some(n as nat),
                None => None,
            },
            limit: match self.limit {
                Some(n) => Some(n as nat),
                None => None,
            },
            continue_token: opt_text(self.continue_token),
            label_selector: opt_text(self.label_selector),
            field_selector: opt_text(self.field_selector),
            allow_watch_bookmarks: self.allow_watch_bookmarks,
            send_initial_events: self.send_initial_events,
        }
    }
}

/// The parameters of an empty query.
pub open spec fn no_params() -> ParamsView {
    ParamsView {
        watch: false,
        resource_version: None,
        limit: None,
        continue_token: None,
        label_selector: None,
        field_selector: None,
        allow_watch_bookmarks: false,
        send_initial_events: false,
    }
}

/// A flag that is on.
pub open spec fn is_on(v: Seq<char>) -> bool {
    v == "true"@ || v == "1"@
}

/// A text that replaces another unless it is empty.
pub open spec fn or_kept(v: Seq<char>, kept: Option<Seq<char>>) -> Option<Seq<char>> {
    if v.len() > 0 {
        Some(v)
    } else {
        kept
    }
}

/// The parameters with one more pair of the query. The last pair of a key counts;
/// a token or a selector that is empty counts as absent.
pub open spec fn with_param(p: ParamsView, key: Seq<char>, v: Seq<char>) -> ParamsView {
    if key == "watch"@ {
        ParamsView { watch: is_on(v), ..p }
    } else if key == "allowWatchBookmarks"@ {
        ParamsView { allow_watch_bookmarks: is_on(v), ..p }
    } else if key == "sendInitialEvents"@ {
        ParamsView { send_initial_events: is_on(v), ..p }
    } else if key == "resourceVersion"@ {
        ParamsView { resource_version: unsigned(v, u64::MAX as nat), ..p }
    } else if key == "limit"@ {
        ParamsView { limit: unsigned(v, usize::MAX as nat), ..p }
    } else if key == "continue"@ {
        ParamsView { continue_token: or_kept(v, p.continue_token), ..p }
    } else if key == "labelSelector"@ {
        ParamsView { label_selector: or_kept(v, p.label_selector), ..p }
    } else if key == "fieldSelector"@ {
        ParamsView { field_selector: or_kept(v, p.field_selector), ..p }
    } else {
        p
    }
}

/// The parameters of decoded pairs.
pub open spec fn params_of(pairs: Seq<(Seq<char>, Seq<char>)>) -> ParamsView
    decreases pairs.len(),
{
    if pairs.len() == 0 {
        no_params()
    } else {
        with_param(params_of(pairs.drop_last()), pairs.last().0, pairs.last().1)
    }
}

fn on(v: &str) -> (r: bool)
    ensures
        r == is_on(v@),
{
    same(v, "true") || same(v, "1")
}

impl WatchParams {
    /// The parameters of decoded pairs.
    pub fn from_pairs(pairs: &Vec<(String, String)>) -> (r: WatchParams)
        ensures
            r@ == params_of(pair_texts(pairs@)),
    {
        let mut params = WatchParams {
            watch: false,
            resource_version: None,
            limit: None,
            continue_token: None,
            label_selector: None,
            field_selector: None,
            allow_watch_bookmarks: false,
            send_initial_events: false,
        };
        let ghost ps = pair_texts(pairs@);
        let mut i: usize = 0;
        while i < pairs.len()
            invariant
                i <= pairs.len(),
                ps == pair_texts(pairs@),
                params@ == params_of(ps.take(i as int)),
            decreases pairs.len() - i,
        {
            proof {
                assert(ps.take(i + 1).drop_last() =~= ps.take(i as int));
                assert(ps.take(i + 1).last() == ps[i as int]);
            }
            let key = pairs[i].0.as_str();
            let val = pairs[i].1.as_str();
            let some = val.unicode_len() > 0;
            if same(key, "watch") {
                params.watch = on(val);
            } else if same(key, "allowWatchBookmarks") {
                params.allow_watch_bookmarks = on(val);
            } else if same(key, "sendInitialEvents") {
                params.send_initial_events = on(val);
            } else if same(key, "resourceVersion") {
                params.resource_version = parse_unsigned(val, u64::MAX);
            } else if same(key, "limit") {
                params.limit = match parse_unsigned(val, usize::MAX as u64) {
                    Some(n) => Some(n as usize),
                    None => None,
                };
            } else if same(key, "continue") {
                if some {
                    params.continue_token = Some(val.to_owned());
                }
            } else if same(key, "labelSelector") {
                if some {
                    params.label_selector = Some(val.to_owned());
                }
            } else if same(key, "fieldSelector") {
                if some {
                    params.field_selector = Some(val.to_owned());
                }
            }
            i = i + 1;
        }
        assert(ps.take(i as int) =~= ps);
        params
    }

    /// The parameters of a query string.
    pub fn from_query(query: &str) -> (r: WatchParams)
        ensures
            r@ == params_of(form_pairs(query@)),
    {
        let pairs = query_pairs(query);
        WatchParams::from_pairs(&pairs)
    }

    /// The revision that a watch starts after; none where the stream begins
    /// with what is there, and starts after the revision of that list.
    pub fn start_revision(&self) -> (r: Option<u64>)
        ensures
            r == (if self.send_initial_events {
                None
            } else {
                Some(
                    match self.resource_version {
                        Some(n) => n,
                        None => 0u64,
                    },
                )
            }),
    {
        if self.send_initial_events {
            None
        } else {
            match self.resource_version {
                Some(n) => Some(n),
                None => Some(0),
            }
        }
    }

    /// How many objects a page of a list holds.
    pub fn page_size(&self) -> (r: usize)
        ensures
            r == match self.limit {
                Some(n) => n,
                None => 500usize,
            },
    {
        match self.limit {
            Some(n) => n,
            None => 500,
        }
    }
}

// ---------------------------------------------------------------------------
// Lines
// ---------------------------------------------------------------------------

/// How the stored form of an object is turned into the form that is watched.
#[derive(Clone, Copy, Debug, PartialEq, Eq, Structural)]
pub enum Transform {
    /// It is watched as it is stored.
    Same,
    /// A core event is watched as one of `events.k8s.io/v1`.
    CoreToEvents,
    /// A namespace is watched as a project.
    NamespaceToProject,
}

/// An object in the form that is watched.
pub open spec fn transformed(t: Transform, obj: Tree) -> Tree {
    match t {
        Transform::Same => obj,
        Transform::CoreToEvents => events_form(obj),
        Transform::NamespaceToProject => project_of(obj),
    }
}

fn transform(t: Transform, obj: Json) -> (r: Json)
    ensures
        r@ == transformed(t, obj@),
{
    match t {
        Transform::Same => obj,
        Transform::CoreToEvents => core_to_events(obj),
        Transform::NamespaceToProject => namespace_to_project(&obj),
    }
}

/// A line of the stream.
pub open spec fn line_of(event_type: Seq<char>, object: Tree) -> Seq<char> {
    json_text(
        Tree::Object(map!["type"@ => Tree::String(event_type), "object"@ => object]),
    ) + "\n"@
}

/// Writes a line of the stream.
pub fn render_line(event_type: &str, object: Json) -> (r: String)
    ensures
        r@ == line_of(event_type@, object@),
{
    let doc = Json::object().with("type", Json::text(event_type)).with("object", object);
    write_json(&doc).concat("\n")
}

/// The segments of a key without the group that a custom resource is stored under,
/// which is told from a resource by its dot.
pub open spec fn below_group(parts: Seq<Seq<char>>) -> Seq<Seq<char>> {
    if parts.len() >= 4 && parts[1].contains('.') {
        parts.remove(1)
    } else {
        parts
    }
}

/// The namespace and the name in a key of the store: the namespace of a key with
/// four segments or more is its third.
pub open spec fn key_parts(key: Seq<char>) -> (Option<Seq<char>>, Seq<char>) {
    let parts = below_group(split(drop_front(key, '/'), '/'));
    if parts.len() >= 4 {
        (Some(parts[2]), parts.last())
    } else {
        (None, parts.last())
    }
}

/// Splits a key of the store into namespace and name.
pub fn split_key(key: &str) -> (r: (Option<String>, String))
    ensures
        (opt_text(r.0), r.1@) == key_parts(key@),
{
    let parts = split_on(trim_start_char(key, '/'), '/');
    let n: usize = parts.len();
    let ghost ts = texts(parts@);
    assert(ts.len() == parts@.len());
    assert(ts.last() == parts@[n - 1]@);
    let mut at: usize = 2;
    if n >= 4 {
        assert(ts[1] == parts@[1]@);
        proof {
            reveal_strlit(".");
            assert("."@ =~= seq!['.']);
            lemma_holds_char(ts[1], '.');
        }
        if contains(parts[1].as_str(), ".") {
            at = 3;
        }
    }
    if n >= at + 2 {
        assert(ts[at as int] == parts@[at as int]@);
        (Some(parts[at].clone()), parts[n - 1].clone())
    } else {
        (None, parts[n - 1].clone())
    }
}

/// The object at a revision, where it has metadata to say so.
pub open spec fn stamped(obj: Tree, revision: nat) -> Tree {
    match obj.at("metadata"@) {
        Tree::Object(m) => obj.set(
            "metadata"@,
            Tree::Object(m.insert("resourceVersion"@, Tree::String(dec(revision)))),
        ),
        _ => obj,
    }
}

/// Sets the `resourceVersion` of an object that has metadata.
pub fn stamp(obj: &mut Json, revision: u64)
    ensures
        final(obj)@ == stamped(old(obj)@, revision as nat),
{
    if !obj.at("metadata").is_object() {
        return;
    }
    let mut meta = obj.at("metadata").dup();
    meta.set("resourceVersion", Json::String(format_u64(revision)));
    obj.set("metadata", meta);
}

/// The object of a change, at its revision. Bytes that are no JSON are an empty
/// object.
pub open spec fn changed_object(bytes: Seq<u8>, revision: nat) -> Tree {
    stamped(
        match json_read(bytes) {
            Ok(t) => t,
            Err(_) => empty_object(),
        },
        revision,
    )
}

fn read_changed(bytes: &[u8], revision: u64) -> (r: Json)
    ensures
        r@ == changed_object(bytes@, revision as nat),
{
    let mut obj = match parse_json(bytes) {
        Ok(v) => v,
        Err(_) => Json::object(),
    };
    stamp(&mut obj, revision);
    obj
}

/// The object that selectors are matched against for an event: that of a change,
/// or the one before a deletion where it is known.
pub open spec fn event_tree(event: WatchEvent) -> Option<Tree> {
    match event {
        WatchEvent::Added { key, value, revision } => Some(
            changed_object(value@, revision as nat),
        ),
        WatchEvent::Modified { key, value, revision } => Some(
            changed_object(value@, revision as nat),
        ),
        WatchEvent::Deleted { key, revision, prev_value } => match prev_value {
            Some(v) => Some(changed_object(v@, revision as nat)),
            None => None,
        },
        WatchEvent::Bookmark { revision } => None,
    }
}

/// The object that selectors are matched against for an event.
pub fn event_object(event: &WatchEvent) -> (r: Option<Json>)
    ensures
        match r {
            Some(v) => event_tree(*event) == Some(v@),
            None => event_tree(*event) is None,
        },
{
    match event {
        WatchEvent::Added { value, revision, .. } => Some(
            read_changed(value.as_slice(), *revision),
        ),
        WatchEvent::Modified { value, revision, .. } => Some(
            read_changed(value.as_slice(), *revision),
        ),
        WatchEvent::Deleted { revision, prev_value, .. } => match prev_value {
            Some(v) => Some(read_changed(v.as_slice(), *revision)),
            None => None,
        },
        WatchEvent::Bookmark { .. } => None,
    }
}

/// The object in the form that is sent: transformed, and reduced to its metadata
/// where that is asked.
pub open spec fn sent_form(obj: Tree, metadata_only: bool, t: Transform) -> Tree {
    if metadata_only {
        partial_metadata(transformed(t, obj))
    } else {
        transformed(t, obj)
    }
}

/// The object with a kind where it names none: a client cannot decode an object
/// without one.
pub open spec fn typed(obj: Tree, api_version: Seq<char>, kind: Seq<char>) -> Tree {
    if obj.at("kind"@) is String {
        obj
    } else {
        obj.set("apiVersion"@, Tree::String(api_version)).set("kind"@, Tree::String(kind))
    }
}

fn give_type(obj: &mut Json, api_version: &str, kind: &str)
    requires
        old(obj)@.settable(),
    ensures
        final(obj)@ == typed(old(obj)@, api_version@, kind@),
{
    if !obj.at("kind").is_string() {
        obj.set("apiVersion", Json::text(api_version));
        obj.set("kind", Json::text(kind));
    }
}

/// The type of an event in the stream.
pub open spec fn event_type(event: WatchEvent) -> Seq<char> {
    match event {
        WatchEvent::Added { key, value, revision } => "ADDED"@,
        WatchEvent::Modified { key, value, revision } => "MODIFIED"@,
        WatchEvent::Deleted { key, revision, prev_value } => "DELETED"@,
        WatchEvent::Bookmark { revision } => "BOOKMARK"@,
    }
}

fn type_of_event(event: &WatchEvent) -> (r: &'static str)
    ensures
        r@ == event_type(*event),
{
    match event {
        WatchEvent::Added { .. } => "ADDED",
        WatchEvent::Modified { .. } => "MODIFIED",
        WatchEvent::Deleted { .. } => "DELETED",
        WatchEvent::Bookmark { .. } => "BOOKMARK",
    }
}

/// What is sent of an object that went away and that nothing holds: its name.
pub open spec fn tombstone(
    key: Seq<char>,
    revision: nat,
    api_version: Seq<char>,
    kind: Seq<char>,
) -> Tree {
    let (namespace, name) = key_parts(key);
    let meta = Tree::Object(
        map!["name"@ => Tree::String(name), "resourceVersion"@ => Tree::String(dec(revision))],
    );
    Tree::Object(
        map![
            "apiVersion"@ => Tree::String(api_version),
            "kind"@ => Tree::String(kind),
            "metadata"@ => match namespace {
                Some(ns) => meta.set("namespace"@, Tree::String(ns)),
                None => meta,
            },
        ],
    )
}

fn render_tombstone(key: &str, revision: u64, api_version: &str, kind: &str) -> (r: String)
    ensures
        r@ == line_of("DELETED"@, tombstone(key@, revision as nat, api_version@, kind@)),
{
    let (namespace, name) = split_key(key);
    let mut meta = Json::object().with("name", Json::String(name)).with(
        "resourceVersion",
        Json::String(format_u64(revision)),
    );
    match namespace {
        Some(ns) => {
            meta.set("namespace", Json::String(ns));
        },
        None => {},
    }
    let doc = Json::object().with("apiVersion", Json::text(api_version)).with(
        "kind",
        Json::text(kind),
    ).with("metadata", meta);
    render_line("DELETED", doc)
}

/// A bookmark; at the end of the initial events it says so.
pub open spec fn bookmark(
    revision: nat,
    initial_end: bool,
    api_version: Seq<char>,
    kind: Seq<char>,
) -> Tree {
    let meta = Tree::Object(map!["resourceVersion"@ => Tree::String(dec(revision))]);
    Tree::Object(
        map![
            "apiVersion"@ => Tree::String(api_version),
            "kind"@ => Tree::String(kind),
            "metadata"@ => if initial_end {
                meta.set(
                    "annotations"@,
                    Tree::Object(map!["k8s.io/initial-events-end"@ => str_tree("true")]),
                )
            } else {
                meta
            },
        ],
    )
}

/// Writes a bookmark.
pub fn render_bookmark(revision: u64, initial_end: bool, api_version: &str, kind: &str) -> (r: String)
    ensures
        r@ == line_of("BOOKMARK"@, bookmark(revision as nat, initial_end, api_version@, kind@)),
{
    let mut meta = Json::object().with("resourceVersion", Json::String(format_u64(revision)));
    if initial_end {
        meta.set(
            "annotations",
            Json::object().with("k8s.io/initial-events-end", Json::text("true")),
        );
    }
    let doc = Json::object().with("apiVersion", Json::text(api_version)).with(
        "kind",
        Json::text(kind),
    ).with("metadata", meta);
    render_line("BOOKMARK", doc)
}

/// The line of an object in an event.
pub fn render_object(
    event_type: &str,
    obj: Json,
    api_version: &str,
    kind: &str,
    metadata_only: bool,
    form: Transform,
) -> (r: String)
    requires
        sent_form(obj@, metadata_only, form).settable(),
    ensures
        r@ == line_of(
            event_type@,
            typed(sent_form(obj@, metadata_only, form), api_version@, kind@),
        ),
{
    let whole = transform(form, obj);
    let mut sent = if metadata_only {
        to_partial_object_metadata(&whole)
    } else {
        whole
    };
    give_type(&mut sent, api_version, kind);
    render_line(event_type, sent)
}

/// The line of an event: none where selectors leave its object out. A deletion
/// of an object that nothing holds is always told.
pub open spec fn event_line(
    event: WatchEvent,
    selected: bool,
    api_version: Seq<char>,
    kind: Seq<char>,
    metadata_only: bool,
    form: Transform,
) -> Option<Seq<char>> {
    match event_tree(event) {
        Some(obj) => if selected {
            Some(
                line_of(
                    event_type(event),
                    typed(sent_form(obj, metadata_only, form), api_version, kind),
                ),
            )
        } else {
            None
        },
        None => match event {
            WatchEvent::Bookmark { revision } => Some(
                line_of("BOOKMARK"@, bookmark(revision as nat, false, api_version, kind)),
            ),
            WatchEvent::Deleted { key, revision, prev_value } => Some(
                line_of("DELETED"@, tombstone(key@, revision as nat, api_version, kind)),
            ),
            _ => None,
        },
    }
}

/// An event cannot be rendered: what is stored is no object, so that it cannot
/// be given a kind.
pub open spec fn odd_event(event: WatchEvent, selected: bool, metadata_only: bool,
    form: Transform) -> bool {
    selected && match event_tree(event) {
        Some(obj) => !sent_form(obj, metadata_only, form).settable(),
        None => false,
    }
}

/// What became of an event.
pub enum Rendered {
    /// Selectors leave it out.
    Filtered,
    /// The line.
    Line(String),
    /// What is stored is no object.
    Odd,
}

/// Writes the line of an event, given whether selectors match its
/// [`event_object`].
pub fn render_event(
    event: &WatchEvent,
    selected: bool,
    api_version: &str,
    kind: &str,
    metadata_only: bool,
    form: Transform,
) -> (r: Rendered)
    ensures
        ({
            let want = event_line(*event, selected, api_version@, kind@, metadata_only, form);
            match r {
                Rendered::Filtered => want is None,
                Rendered::Line(l) => want == Some(l@) && !odd_event(
                    *event,
                    selected,
                    metadata_only,
                    form,
                ),
                Rendered::Odd => odd_event(*event, selected, metadata_only, form),
            }
        }),
{
    match event_object(event) {
        Some(obj) => {
            if !selected {
                return Rendered::Filtered;
            }
            let whole = transform(form, obj.dup());
            if !metadata_only && !whole.is_object() && !whole.is_null() {
                return Rendered::Odd;
            }
            Rendered::Line(
                render_object(type_of_event(event), obj, api_version, kind, metadata_only, form),
            )
        },
        None => match event {
            WatchEvent::Bookmark { revision } => Rendered::Line(
                render_bookmark(*revision, false, api_version, kind),
            ),
            WatchEvent::Deleted { key, revision, .. } => Rendered::Line(
                render_tombstone(key.as_str(), *revision, api_version, kind),
            ),
            _ => Rendered::Filtered,
        },
    }
}

/// An object of the initial list as selectors see it: with a kind, and with the
/// revision of the list where it names none.
pub open spec fn initial_form(
    obj: Tree,
    api_version: Seq<char>,
    kind: Seq<char>,
    list_rev: nat,
) -> Tree {
    let named = typed(obj, api_version, kind);
    if named.at("metadata"@).at("resourceVersion"@).some_text() is Some {
        named
    } else {
        stamped(named, list_rev)
    }
}

/// An object of the initial list as selectors see it.
pub fn initial_object(obj: &Json, api_version: &str, kind: &str, list_rev: u64) -> (r: Json)
    requires
        obj@.settable(),
    ensures
        r@ == initial_form(obj@, api_version@, kind@, list_rev as nat),
{
    let mut out = obj.dup();
    give_type(&mut out, api_version, kind);
    if out.at("metadata").at("resourceVersion").some_str().is_none() {
        stamp(&mut out, list_rev);
    }
    out
}

/// The line of an object of the initial list, which selectors have let through.
pub fn render_initial_added(obj: Json, metadata_only: bool, form: Transform) -> (r: String)
    ensures
        r@ == line_of("ADDED"@, sent_form(obj@, metadata_only, form)),
{
    let whole = transform(form, obj);
    let sent = if metadata_only {
        to_partial_object_metadata(&whole)
    } else {
        whole
    };
    render_line("ADDED", sent)
}

// ---------------------------------------------------------------------------
// The session
// ---------------------------------------------------------------------------

/// How often an idle watch sends a bookmark, in seconds.
pub const BOOKMARK_INTERVAL_SECS: u64 = 45;

/// The state of a watch: what it advertises, and how far it has come.
pub struct WatchSession {
    pub api_version: String,
    pub kind: String,
    pub allow_bookmarks: bool,
    pub metadata_only: bool,
    pub form: Transform,
    /// The revision of the last event.
    pub last_rev: u64,
}

impl WatchSession {
    /// A watch of objects of a kind. With metadata only, the kind is that of
    /// metadata.
    pub fn new(
        api_version: &str,
        kind: &str,
        allow_bookmarks: bool,
        metadata_only: bool,
        form: Transform,
    ) -> (r: WatchSession)
        ensures
            r.api_version@ == (if metadata_only {
                "meta.k8s.io/v1"@
            } else {
                api_version@
            }),
            r.kind@ == (if metadata_only {
                "PartialObjectMetadata"@
            } else {
                kind@
            }),
            r.allow_bookmarks == allow_bookmarks,
            r.metadata_only == metadata_only,
            r.form == form,
            r.last_rev == 0,
    {
        let (api_version, kind): (&str, &str) = if metadata_only {
            ("meta.k8s.io/v1", "PartialObjectMetadata")
        } else {
            (api_version, kind)
        };
        WatchSession {
            api_version: api_version.to_owned(),
            kind: kind.to_owned(),
            allow_bookmarks,
            metadata_only,
            form,
            last_rev: 0,
        }
    }

    /// Ends the initial events: the bookmark without which an informer never
    /// reports that it has synced.
    pub fn end_initial(&mut self, list_rev: u64) -> (r: String)
        ensures
            r@ == line_of(
                "BOOKMARK"@,
                bookmark(list_rev as nat, true, old(self).api_version@, old(self).kind@),
            ),
            *final(self) == (WatchSession { last_rev: list_rev, ..*old(self) }),
    {
        let line = render_bookmark(
            list_rev,
            true,
            self.api_version.as_str(),
            self.kind.as_str(),
        );
        self.last_rev = list_rev;
        line
    }

    /// Takes an event of the store, given whether selectors match its object.
    pub fn take_event(&mut self, event: &WatchEvent, selected: bool) -> (r: Rendered)
        ensures
            *final(self) == (WatchSession { last_rev: event.revision_spec(), ..*old(self) }),
            ({
                let want = event_line(
                    *event,
                    selected,
                    old(self).api_version@,
                    old(self).kind@,
                    old(self).metadata_only,
                    old(self).form,
                );
                let odd = odd_event(*event, selected, old(self).metadata_only, old(self).form);
                match r {
                    Rendered::Filtered => want is None,
                    Rendered::Line(l) => want == Some(l@) && !odd,
                    Rendered::Odd => odd,
                }
            }),
    {
        self.last_rev = event.revision();
        render_event(
            event,
            selected,
            self.api_version.as_str(),
            self.kind.as_str(),
            self.metadata_only,
            self.form,
        )
    }

    /// What an idle watch sends: a bookmark at the revision it has come to, where
    /// the client accepts bookmarks.
    pub fn idle(&self) -> (r: Option<String>)
        ensures
            opt_text(r) == (if self.allow_bookmarks {
                Some(
                    line_of(
                        "BOOKMARK"@,
                        bookmark(self.last_rev as nat, false, self.api_version@, self.kind@),
                    ),
                )
            } else {
                None
            }),
    {
        if self.allow_bookmarks {
            Some(
                render_bookmark(
                    self.last_rev,
                    false,
                    self.api_version.as_str(),
                    self.kind.as_str(),
                ),
            )
        } else {
            None
        }
    }
}

/// Every line of a watch names a kind: what is sent of a change has one.
pub proof fn law_every_object_has_a_kind(obj: Tree, api_version: Seq<char>, kind: Seq<char>)
    requires
        obj.settable(),
    ensures
        typed(obj, api_version, kind).at("kind"@) is String,
{
}

/// A bookmark at the end of the initial events says so, and no other does.
pub proof fn law_only_the_end_is_annotated(
    revision: nat,
    initial_end: bool,
    api_version: Seq<char>,
    kind: Seq<char>,
)
    ensures
        (bookmark(revision, initial_end, api_version, kind).at("metadata"@).at("annotations"@).at(
            "k8s.io/initial-events-end"@,
        ) == str_tree("true")) == initial_end,
{
    reveal_strlit("resourceVersion");
    reveal_strlit("annotations");
    assert("resourceVersion"@.len() == 15);
    assert("annotations"@.len() == 11);
}

proof fn lemma_key_segments(key: Seq<char>, rest: Seq<char>)
    requires
        key == "/registry"@ + "/"@ + rest,
    ensures
        drop_front(key, '/') == "registry"@.push('/') + rest,
        split("registry"@, '/') == seq!["registry"@],
{
    reveal_strlit("/registry");
    reveal_strlit("registry");
    reveal_strlit("/");
    assert("/registry"@.len() == 9);
    assert(key[0] == '/');
    let behind = key.skip(1);
    assert(behind =~= "registry"@.push('/') + rest) by {
        assert("/registry"@.skip(1) =~= "registry"@);
        assert("/"@ =~= seq!['/']);
    }
    assert(behind[0] == 'r');
    assert(drop_front(behind, '/') == behind);
    assert(!"registry"@.contains('/'));
    lemma_split_whole("registry"@, '/');
}

/// A key names its object: of a namespaced object its namespace and its name, of
/// any other its name.
pub proof fn law_a_key_names_its_object(
    resource: Seq<char>,
    namespace: Seq<char>,
    name: Seq<char>,
)
    requires
        !resource.contains('/'),
        !resource.contains('.'),
        !namespace.contains('/'),
        !name.contains('/'),
    ensures
        key_parts(namespaced_key_of(resource, namespace, name)) == (Some(namespace), name),
        key_parts(cluster_key_of(resource, name)) == (None::<Seq<char>>, name),
{
    reveal_strlit("/");
    assert("/"@ =~= seq!['/']);
    let top = "registry"@;
    let at = top.push('/') + resource;
    let within = at.push('/') + namespace;
    let inner = resource + "/"@ + namespace + "/"@ + name;
    let outer = resource + "/"@ + name;
    assert(namespaced_key_of(resource, namespace, name) =~= "/registry"@ + "/"@ + inner);
    assert(cluster_key_of(resource, name) =~= "/registry"@ + "/"@ + outer);
    lemma_key_segments(namespaced_key_of(resource, namespace, name), inner);
    lemma_key_segments(cluster_key_of(resource, name), outer);
    assert(top.push('/') + inner =~= within.push('/') + name);
    assert(top.push('/') + outer =~= at.push('/') + name);
    lemma_split_push(top, '/', resource);
    lemma_split_push(at, '/', namespace);
    lemma_split_push(at, '/', name);
    lemma_split_push(within, '/', name);
}

/// The key of a custom resource, which is stored under its group, names its object
/// too.
pub proof fn law_a_custom_key_names_its_object(
    group: Seq<char>,
    plural: Seq<char>,
    namespace: Seq<char>,
    name: Seq<char>,
)
    requires
        group.contains('.'),
        !group.contains('/'),
        !plural.contains('/'),
        !namespace.contains('/'),
        !name.contains('/'),
    ensures
        key_parts(namespaced_key_of(group + "/"@ + plural, namespace, name)) == (
            Some(namespace),
            name,
        ),
        key_parts(cluster_key_of(group + "/"@ + plural, name)) == (None::<Seq<char>>, name),
{
    reveal_strlit("/");
    assert("/"@ =~= seq!['/']);
    let top = "registry"@;
    let above = top.push('/') + group;
    let at = above.push('/') + plural;
    let within = at.push('/') + namespace;
    let resource = group + "/"@ + plural;
    let inner = resource + "/"@ + namespace + "/"@ + name;
    let outer = resource + "/"@ + name;
    assert(namespaced_key_of(resource, namespace, name) =~= "/registry"@ + "/"@ + inner);
    assert(cluster_key_of(resource, name) =~= "/registry"@ + "/"@ + outer);
    lemma_key_segments(namespaced_key_of(resource, namespace, name), inner);
    lemma_key_segments(cluster_key_of(resource, name), outer);
    assert(top.push('/') + inner =~= within.push('/') + name);
    assert(top.push('/') + outer =~= at.push('/') + name);
    lemma_split_push(top, '/', group);
    lemma_split_push(above, '/', plural);
    lemma_split_push(at, '/', namespace);
    lemma_split_push(at, '/', name);
    lemma_split_push(within, '/', name);
}

/// Each parameter sets what it names and nothing else, and a later one goes before an
/// earlier.
pub proof fn law_each_parameter_sets_its_own(
    pairs: Seq<(Seq<char>, Seq<char>)>,
    v: Seq<char>,
    other: Seq<char>,
)
    requires
        other != "watch"@,
        other != "allowWatchBookmarks"@,
        other != "sendInitialEvents"@,
        other != "resourceVersion"@,
        other != "limit"@,
        other != "continue"@,
        other != "labelSelector"@,
        other != "fieldSelector"@,
    ensures
        ({
            let p = params_of(pairs);
            &&& params_of(pairs.push((other, v))) == p
            &&& params_of(pairs.push(("watch"@, v))) == (ParamsView {
                watch: v == "true"@ || v == "1"@,
                ..p
            })
            &&& params_of(pairs.push(("allowWatchBookmarks"@, v))) == (ParamsView {
                allow_watch_bookmarks: v == "true"@ || v == "1"@,
                ..p
            })
            &&& params_of(pairs.push(("sendInitialEvents"@, v))) == (ParamsView {
                send_initial_events: v == "true"@ || v == "1"@,
                ..p
            })
            &&& params_of(pairs.push(("resourceVersion"@, v))) == (ParamsView {
                resource_version: unsigned(v, u64::MAX as nat),
                ..p
            })
            &&& params_of(pairs.push(("limit"@, v))) == (ParamsView {
                limit: unsigned(v, usize::MAX as nat),
                ..p
            })
            &&& v.len() > 0 ==> params_of(pairs.push(("continue"@, v))) == (ParamsView {
                continue_token: Some(v),
                ..p
            })
            &&& v.len() > 0 ==> params_of(pairs.push(("labelSelector"@, v))) == (ParamsView {
                label_selector: Some(v),
                ..p
            })
            &&& v.len() > 0 ==> params_of(pairs.push(("fieldSelector"@, v))) == (ParamsView {
                field_selector: Some(v),
                ..p
            })
            &&& v.len() == 0 ==> params_of(pairs.push(("continue"@, v))) == p && params_of(
                pairs.push(("labelSelector"@, v)),
            ) == p && params_of(pairs.push(("fieldSelector"@, v))) == p
        }),
        params_of(Seq::empty()).label_selector is None,
        params_of(Seq::empty()).field_selector is None,
        params_of(Seq::empty()).limit is None,
        params_of(Seq::empty()).continue_token is None,
        params_of(Seq::empty()).resource_version is None,
        !params_of(Seq::empty()).watch,
        !params_of(Seq::empty()).send_initial_events,
{
    reveal_strlit("watch");
    reveal_strlit("allowWatchBookmarks");
    reveal_strlit("sendInitialEvents");
    reveal_strlit("resourceVersion");
    reveal_strlit("limit");
    reveal_strlit("continue");
    reveal_strlit("labelSelector");
    reveal_strlit("fieldSelector");
    assert("watch"@.len() == 5);
    assert("allowWatchBookmarks"@.len() == 19);
    assert("sendInitialEvents"@.len() == 17);
    assert("resourceVersion"@.len() == 15);
    assert("limit"@.len() == 5);
    assert("continue"@.len() == 8);
    assert("labelSelector"@.len() == 13);
    assert("fieldSelector"@.len() == 13);
    assert("watch"@[0] == 'w');
    assert("limit"@[0] == 'l');
    assert("labelSelector"@[0] == 'l');
    assert("fieldSelector"@[0] == 'f');
    assert(pairs.push(("watch"@, v)).drop_last() =~= pairs);
    assert(pairs.push(("allowWatchBookmarks"@, v)).drop_last() =~= pairs);
    assert(pairs.push(("sendInitialEvents"@, v)).drop_last() =~= pairs);
    assert(pairs.push(("resourceVersion"@, v)).drop_last() =~= pairs);
    assert(pairs.push(("limit"@, v)).drop_last() =~= pairs);
    assert(pairs.push(("continue"@, v)).drop_last() =~= pairs);
    assert(pairs.push(("labelSelector"@, v)).drop_last() =~= pairs);
    assert(pairs.push(("fieldSelector"@, v)).drop_last() =~= pairs);
    assert(pairs.push((other, v)).drop_last() =~= pairs);
}

/// What was written goes out as it is, with the revision of the write; what was deleted goes
/// out as it last was, with the revision of the delete.
pub proof fn law_an_event_carries_its_object(
    k: String,
    v: Vec<u8>,
    revision: u64,
    obj: Tree,
    key: Seq<char>,
    field: Seq<char>,
)
    requires
        json_read(v@) == Ok::<Tree, Seq<char>>(obj),
        obj.at("metadata"@) is Object,
        key != "metadata"@,
        field != "resourceVersion"@,
    ensures
        forall|e: WatchEvent|
            e == (WatchEvent::Added { key: k, value: v, revision }) || e == (WatchEvent::Modified {
                key: k,
                value: v,
                revision,
            }) || e == (WatchEvent::Deleted { key: k, revision, prev_value: Some(v) }) ==> {
                let t = #[trigger] event_tree(e);
                &&& t is Some
                &&& (t->0).get(key) == obj.get(key)
                &&& (t->0).at("metadata"@).get(field) == obj.at("metadata"@).get(field)
                &&& (t->0).at("metadata"@).at("resourceVersion"@) == Tree::String(
                    dec(revision as nat),
                )
            },
        event_type(WatchEvent::Added { key: k, value: v, revision }) == "ADDED"@,
        event_type(WatchEvent::Modified { key: k, value: v, revision }) == "MODIFIED"@,
        event_type(WatchEvent::Deleted { key: k, revision, prev_value: Some(v) }) == "DELETED"@,
{
}

/// What is not selected is not sent; what is, is, unless nothing is known of it.
pub proof fn law_only_what_is_selected_is_sent(
    event: WatchEvent,
    api_version: Seq<char>,
    kind: Seq<char>,
    metadata_only: bool,
    form: Transform,
)
    ensures
        event is Added || event is Modified ==> event_line(
            event,
            false,
            api_version,
            kind,
            metadata_only,
            form,
        ) is None && event_line(event, true, api_version, kind, metadata_only, form) is Some,
        event is Bookmark ==> event_line(event, true, api_version, kind, metadata_only, form)
            == event_line(event, false, api_version, kind, metadata_only, form) && event_line(
            event,
            true,
            api_version,
            kind,
            metadata_only,
            form,
        ) is Some,
        (event matches WatchEvent::Deleted { key, revision, prev_value } && prev_value is Some)
            ==> event_line(event, false, api_version, kind, metadata_only, form) is None,
        event is Deleted ==> event_line(event, true, api_version, kind, metadata_only, form) is Some,
{
}

/// The object of a delete that is not known any more says what it was, by its key.
pub proof fn law_a_tombstone_names_what_it_was(
    key: Seq<char>,
    revision: nat,
    api_version: Seq<char>,
    kind: Seq<char>,
)
    ensures
        ({
            let t = tombstone(key, revision, api_version, kind);
            &&& t.at("apiVersion"@) == Tree::String(api_version)
            &&& t.at("kind"@) == Tree::String(kind)
            &&& t.at("metadata"@).at("name"@) == Tree::String(key_parts(key).1)
            &&& t.at("metadata"@).at("resourceVersion"@) == Tree::String(dec(revision))
            &&& key_parts(key).0 is Some ==> t.at("metadata"@).at("namespace"@) == Tree::String(
                key_parts(key).0->0,
            )
            &&& key_parts(key).0 is None ==> t.at("metadata"@).get("namespace"@) is None
        }),
        ({
            let b = bookmark(revision, false, api_version, kind);
            &&& b.at("apiVersion"@) == Tree::String(api_version)
            &&& b.at("kind"@) == Tree::String(kind)
            &&& b.at("metadata"@).at("resourceVersion"@) == Tree::String(dec(revision))
        }),
        ({
            let b = bookmark(revision, true, api_version, kind);
            &&& b.at("kind"@) == Tree::String(kind)
            &&& b.at("metadata"@).at("resourceVersion"@) == Tree::String(dec(revision))
            &&& b.at("metadata"@).at("annotations"@).at("k8s.io/initial-events-end"@) == str_tree(
                "true",
            )
        }),
{
    reveal_strlit("apiVersion");
    reveal_strlit("kind");
    reveal_strlit("metadata");
    reveal_strlit("name");
    reveal_strlit("namespace");
    reveal_strlit("resourceVersion");
    reveal_strlit("annotations");
    assert("apiVersion"@.len() == 10);
    assert("kind"@.len() == 4);
    assert("metadata"@.len() == 8);
    assert("name"@.len() == 4);
    assert("namespace"@.len() == 9);
    assert("resourceVersion"@.len() == 15);
    assert("annotations"@.len() == 11);
    assert("kind"@[0] == 'k');
    assert("name"@[0] == 'n');
}

/// What is there when a watch begins keeps the version that it has, and has that of the list
/// where it has none.
pub proof fn law_what_is_there_keeps_its_version(
    obj: Tree,
    api_version: Seq<char>,
    kind: Seq<char>,
    list_rev: nat,
    key: Seq<char>,
)
    requires
        obj is Object,
        obj.at("metadata"@) is Object,
        key != "metadata"@,
        key != "kind"@,
        key != "apiVersion"@,
    ensures
        ({
            let r = initial_form(obj, api_version, kind, list_rev);
            let v = obj.at("metadata"@).at("resourceVersion"@);
            &&& r.get(key) == obj.get(key)
            &&& v is String && (v->String_0).len() > 0 ==> r.at("metadata"@) == obj.at("metadata"@)
            &&& !(v is String) || (v->String_0).len() == 0 ==> r.at("metadata"@).at(
                "resourceVersion"@,
            ) == Tree::String(dec(list_rev))
            &&& obj.at("kind"@) is String ==> r.at("kind"@) == obj.at("kind"@) && r.at(
                "apiVersion"@,
            ) == obj.at("apiVersion"@)
            &&& !(obj.at("kind"@) is String) ==> r.at("kind"@) == Tree::String(kind) && r.at(
                "apiVersion"@,
            ) == Tree::String(api_version)
        }),
{
    reveal_strlit("apiVersion");
    reveal_strlit("kind");
    reveal_strlit("metadata");
    assert("apiVersion"@.len() == 10);
    assert("kind"@.len() == 4);
    assert("metadata"@.len() == 8);
}

/// What is sent is the object in the form that is asked for, and its metadata alone where no
/// more is asked for.
pub proof fn law_what_is_sent_has_the_form_asked_for(obj: Tree, t: Transform)
    ensures
        sent_form(obj, false, Transform::Same) == obj,
        sent_form(obj, true, Transform::Same) == partial_metadata(obj),
        sent_form(obj, false, Transform::CoreToEvents) == events_form(obj),
        sent_form(obj, true, Transform::CoreToEvents) == partial_metadata(events_form(obj)),
        sent_form(obj, false, Transform::NamespaceToProject) == project_of(obj),
        sent_form(obj, true, Transform::NamespaceToProject) == partial_metadata(project_of(obj)),
{
}

} // verus!
