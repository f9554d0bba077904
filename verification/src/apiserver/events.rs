//! Events: `events.k8s.io/v1` over stored events of the core group.

use vstd::prelude::*;
use vstd::string::*;

use crate::apiserver::discovery::{
    collection_verbs, list_of, resource_list, row, served_row, verbs_collection,
};
use crate::apiserver::error::{err_invalid, ApiError};
use crate::apiserver::handlers::resource::{list_document, list_tree};
use crate::json::{empty_object, no_items, str_tree, trees, Json, Object, Tree};
use crate::text::opt_str;

verus! {

pub const GV: &'static str = "events.k8s.io/v1";

pub const RESOURCE: &'static str = "events";

/// The members with `from` moved to `to`, where it is there.
pub open spec fn renamed(m: Map<Seq<char>, Tree>, from: Seq<char>, to: Seq<char>) -> Map<
    Seq<char>,
    Tree,
> {
    if m.contains_key(from) {
        m.remove(from).insert(to, m[from])
    } else {
        m
    }
}

/// The members with `from` taken away, and put at `to` where nothing is.
pub open spec fn offered(m: Map<Seq<char>, Tree>, from: Seq<char>, to: Seq<char>) -> Map<
    Seq<char>,
    Tree,
> {
    if m.contains_key(from) {
        let rest = m.remove(from);
        if rest.contains_key(to) {
            rest
        } else {
            rest.insert(to, m[from])
        }
    } else {
        m
    }
}

/// The members with `key` set to `v`, where there is a `v`.
pub open spec fn with_some(m: Map<Seq<char>, Tree>, key: Seq<char>, v: Option<Tree>) -> Map<
    Seq<char>,
    Tree,
> {
    match v {
        Some(t) => m.insert(key, t),
        None => m,
    }
}

/// A member of an optional document.
pub open spec fn member_of(v: Option<Tree>, key: Seq<char>) -> Option<Tree> {
    match v {
        Some(t) => t.get(key),
        None => None,
    }
}

/// A member that a map holds.
pub open spec fn held(m: Map<Seq<char>, Tree>, key: Seq<char>) -> Option<Tree> {
    if m.contains_key(key) {
        Some(m[key])
    } else {
        None
    }
}

/// The members with the controller that reports the event: the one that is
/// named, else the reporting component, else the source's component.
pub open spec fn with_controller(m: Map<Seq<char>, Tree>, source: Option<Tree>) -> Map<
    Seq<char>,
    Tree,
> {
    if m.contains_key("reportingController"@) {
        m
    } else {
        let rest = m.remove("reportingComponent"@);
        match held(m, "reportingComponent"@) {
            Some(c) => if c is Null {
                with_some(rest, "reportingController"@, member_of(source, "component"@))
            } else {
                rest.insert("reportingController"@, c)
            },
            None => with_some(rest, "reportingController"@, member_of(source, "component"@)),
        }
    }
}

/// The members with the instance that reports the event: the one that is named,
/// else the source's host.
pub open spec fn with_instance(m: Map<Seq<char>, Tree>, source: Option<Tree>) -> Map<
    Seq<char>,
    Tree,
> {
    if m.contains_key("reportingInstance"@) {
        m
    } else {
        with_some(m, "reportingInstance"@, member_of(source, "host"@))
    }
}

/// The members of an event of `events.k8s.io/v1`, for those of a core event.
pub open spec fn events_members(m: Map<Seq<char>, Tree>) -> Map<Seq<char>, Tree> {
    let named = m.insert("apiVersion"@, Tree::String(GV@)).insert("kind"@, str_tree("Event"));
    let told = renamed(renamed(named, "involvedObject"@, "regarding"@), "message"@, "note"@);
    let source = held(told, "source"@);
    let reported = with_instance(with_controller(told.remove("source"@), source), source);
    let sourced = with_some(reported, "deprecatedSource"@, source);
    renamed(
        renamed(
            renamed(sourced, "firstTimestamp"@, "deprecatedFirstTimestamp"@),
            "lastTimestamp"@,
            "deprecatedLastTimestamp"@,
        ),
        "count"@,
        "deprecatedCount"@,
    )
}

/// A core event as one of `events.k8s.io/v1`. What is no object stays as it is.
pub open spec fn events_form(e: Tree) -> Tree {
    match e {
        Tree::Object(m) => Tree::Object(events_members(m)),
        _ => e,
    }
}

/// The source of a core event, from the controller and the instance that report
/// it.
pub open spec fn synthesized(controller: Option<Tree>, instance: Option<Tree>) -> Map<
    Seq<char>,
    Tree,
> {
    with_some(
        with_some(Map::<Seq<char>, Tree>::empty(), "component"@, controller),
        "host"@,
        instance,
    )
}

/// The members with a source: the one kept from a core event, else one made of
/// the controller and the instance.
pub open spec fn with_source(m: Map<Seq<char>, Tree>, controller: Option<Tree>) -> Map<
    Seq<char>,
    Tree,
> {
    if m.contains_key("deprecatedSource"@) {
        renamed(m, "deprecatedSource"@, "source"@)
    } else {
        let instance = held(m, "reportingInstance"@);
        if controller is Some || instance is Some {
            m.insert("source"@, Tree::Object(synthesized(controller, instance)))
        } else {
            m
        }
    }
}

/// The members with the count and the time of a series folded in.
pub open spec fn with_series(m: Map<Seq<char>, Tree>) -> Map<Seq<char>, Tree> {
    let series = held(m, "series"@);
    let counted = with_some(m, "count"@, member_of(series, "count"@));
    if counted.contains_key("lastTimestamp"@) {
        counted
    } else {
        with_some(counted, "lastTimestamp"@, member_of(series, "lastObservedTime"@))
    }
}

/// The members of a core event, for those of an event of `events.k8s.io/v1`.
pub open spec fn core_members(m: Map<Seq<char>, Tree>) -> Map<Seq<char>, Tree> {
    let named = m.insert("apiVersion"@, str_tree("v1")).insert("kind"@, str_tree("Event"));
    let told = renamed(renamed(named, "regarding"@, "involvedObject"@), "note"@, "message"@);
    let controller = held(told, "reportingController"@);
    let reported = with_some(
        told.remove("reportingController"@),
        "reportingComponent"@,
        controller,
    );
    let sourced = with_source(reported, controller);
    with_series(
        offered(
            offered(
                offered(sourced, "deprecatedFirstTimestamp"@, "firstTimestamp"@),
                "deprecatedLastTimestamp"@,
                "lastTimestamp"@,
            ),
            "deprecatedCount"@,
            "count"@,
        ),
    )
}

/// An event of `events.k8s.io/v1` as a core event.
pub open spec fn core_form(e: Tree) -> Tree {
    match e {
        Tree::Object(m) => Tree::Object(core_members(m)),
        _ => e,
    }
}

fn take_member(o: Object, key: &str) -> (r: (Object, Option<Json>))
    ensures
        r.0.map() == o.map().remove(key@),
        match r.1 {
            Some(v) => held(o.map(), key@) == Some(v@),
            None => held(o.map(), key@) is None,
        },
{
    let v = match o.get(key) {
        Some(v) => Some(v.dup()),
        None => None,
    };
    (o.remove(key), v)
}

fn rename(o: Object, from: &str, to: &str) -> (r: Object)
    ensures
        r.map() == renamed(o.map(), from@, to@),
{
    let ghost m = o.map();
    let (rest, v) = take_member(o, from);
    match v {
        Some(v) => rest.insert(to, v),
        None => {
            assert(m.remove(from@) =~= m);
            rest
        },
    }
}

fn offer(o: Object, from: &str, to: &str) -> (r: Object)
    ensures
        r.map() == offered(o.map(), from@, to@),
{
    let ghost m = o.map();
    let (rest, v) = take_member(o, from);
    match v {
        Some(v) => if rest.get(to).is_some() {
            rest
        } else {
            rest.insert(to, v)
        },
        None => {
            assert(m.remove(from@) =~= m);
            rest
        },
    }
}

fn put_some(o: Object, key: &str, v: Option<Json>) -> (r: Object)
    ensures
        r.map() == with_some(
            o.map(),
            key@,
            match v {
                Some(t) => Some(t@),
                None => None,
            },
        ),
{
    match v {
        Some(t) => o.insert(key, t),
        None => o,
    }
}

fn member_copy(v: &Option<Json>, key: &str) -> (r: Option<Json>)
    ensures
        match r {
            Some(t) => *v is Some && (*v)->0@.get(key@) == Some(t@),
            None => *v is None || (*v)->0@.get(key@) is None,
        },
{
    match v {
        Some(t) => match t.get(key) {
            Some(u) => Some(u.dup()),
            None => None,
        },
        None => None,
    }
}

fn dup_some(v: &Option<Json>) -> (r: Option<Json>)
    ensures
        match r {
            Some(t) => *v is Some && (*v)->0@ == t@,
            None => *v is None,
        },
{
    match v {
        Some(t) => Some(t.dup()),
        None => None,
    }
}

/// An optional document as an optional tree.
spec fn some_tree(v: Option<Json>) -> Option<Tree> {
    match v {
        Some(t) => Some(t@),
        None => None,
    }
}

fn add_controller(o: Object, source: &Option<Json>) -> (r: Object)
    ensures
        r.map() == with_controller(o.map(), some_tree(*source)),
{
    if o.get("reportingController").is_some() {
        return o;
    }
    let (rest, component) = take_member(o, "reportingComponent");
    match component {
        Some(c) => {
            if !c.is_null() {
                return rest.insert("reportingController", c);
            }
        },
        None => {},
    }
    put_some(rest, "reportingController", member_copy(source, "component"))
}

fn add_instance(o: Object, source: &Option<Json>) -> (r: Object)
    ensures
        r.map() == with_instance(o.map(), some_tree(*source)),
{
    if o.get("reportingInstance").is_some() {
        return o;
    }
    put_some(o, "reportingInstance", member_copy(source, "host"))
}

/// Turns a stored core event into one of `events.k8s.io/v1`.
pub fn core_to_events(e: Json) -> (r: Json)
    ensures
        r@ == events_form(e@),
{
    let o = match e {
        Json::Object(o) => o,
        other => {
            return other;
        },
    };
    let named = o.insert("apiVersion", Json::text(GV)).insert("kind", Json::text("Event"));
    let told = rename(rename(named, "involvedObject", "regarding"), "message", "note");
    let (rest, source) = take_member(told, "source");
    let reported = add_instance(add_controller(rest, &source), &source);
    let sourced = put_some(reported, "deprecatedSource", source);
    let first = rename(sourced, "firstTimestamp", "deprecatedFirstTimestamp");
    let last = rename(first, "lastTimestamp", "deprecatedLastTimestamp");
    Json::Object(rename(last, "count", "deprecatedCount"))
}

fn add_source(o: Object, controller: &Option<Json>) -> (r: Object)
    ensures
        r.map() == with_source(o.map(), some_tree(*controller)),
{
    if o.get("deprecatedSource").is_some() {
        return rename(o, "deprecatedSource", "source");
    }
    let instance = match o.get("reportingInstance") {
        Some(v) => Some(v.dup()),
        None => None,
    };
    if controller.is_none() && instance.is_none() {
        return o;
    }
    let src = put_some(
        put_some(Object::new(), "component", dup_some(controller)),
        "host",
        instance,
    );
    o.insert("source", Json::Object(src))
}

fn fold_series(o: Object) -> (r: Object)
    ensures
        r.map() == with_series(o.map()),
{
    let series = match o.get("series") {
        Some(v) => Some(v.dup()),
        None => None,
    };
    let counted = put_some(o, "count", member_copy(&series, "count"));
    if counted.get("lastTimestamp").is_some() {
        return counted;
    }
    put_some(counted, "lastTimestamp", member_copy(&series, "lastObservedTime"))
}

/// Turns an event of `events.k8s.io/v1` into the core event that is stored.
pub fn events_to_core(e: Json) -> (r: Json)
    ensures
        r@ == core_form(e@),
{
    let o = match e {
        Json::Object(o) => o,
        other => {
            return other;
        },
    };
    let named = o.insert("apiVersion", Json::text("v1")).insert("kind", Json::text("Event"));
    let told = rename(rename(named, "regarding", "involvedObject"), "note", "message");
    let (rest, controller) = take_member(told, "reportingController");
    let reported = put_some(rest, "reportingComponent", dup_some(&controller));
    let sourced = add_source(reported, &controller);
    let first = offer(sourced, "deprecatedFirstTimestamp", "firstTimestamp");
    let last = offer(first, "deprecatedLastTimestamp", "lastTimestamp");
    let counted = offer(last, "deprecatedCount", "count");
    Json::Object(fold_series(counted))
}

/// The list of events of `events.k8s.io/v1`, for stored core events.
pub fn event_list(items: &Vec<Json>, revision: u64, token: Option<&str>) -> (r: Json)
    ensures
        r@ == list_tree(
            GV@,
            "EventList"@,
            revision as nat,
            trees(items@).map_values(|e: Tree| events_form(e)),
            opt_str(token),
        ),
{
    let mut out: Vec<Json> = Vec::new();
    let mut i: usize = 0;
    while i < items.len()
        invariant
            i <= items.len(),
            out@.len() == i,
            forall|j: int| 0 <= j < i ==> (#[trigger] out@[j])@ == events_form(items@[j]@),
        decreases items.len() - i,
    {
        out.push(core_to_events(items[i].dup()));
        i = i + 1;
    }
    assert(trees(out@) =~= trees(items@).map_values(|e: Tree| events_form(e)));
    list_document(GV, "EventList", revision, out, token)
}

/// The name under which a core event is created: its name, else its
/// `generateName`.
pub open spec fn creation_name(core: Tree) -> Option<Seq<char>> {
    match core.at("metadata"@).at("name"@).text() {
        Some(n) => Some(n),
        None => core.at("metadata"@).at("generateName"@).text(),
    }
}

/// The name under which a core event is created.
pub fn event_name(core: &Json) -> (r: Result<String, ApiError>)
    ensures
        match r {
            Ok(n) => creation_name(core@) == Some(n@),
            Err(e) => creation_name(core@) is None && e@ == err_invalid(
                "metadata.name is required"@,
            ),
        },
{
    let meta = core.at("metadata");
    match meta.at("name").as_str() {
        Some(n) => Ok(n.to_owned()),
        None => match meta.at("generateName").as_str() {
            Some(n) => Ok(n.to_owned()),
            None => Err(ApiError::invalid("metadata.name is required")),
        },
    }
}

/// The answer to the deletion of an event.
pub fn event_deleted(namespace: &str, name: &str) -> (r: Json)
    ensures
        r@ == Tree::Object(
            map![
                "apiVersion"@ => str_tree("v1"),
                "kind"@ => str_tree("Status"),
                "metadata"@ => empty_object(),
                "status"@ => str_tree("Success"),
                "details"@ => Tree::Object(map![
                    "name"@ => Tree::String(name@),
                    "namespace"@ => Tree::String(namespace@),
                    "kind"@ => Tree::String(RESOURCE@),
                    "group"@ => str_tree("events.k8s.io"),
                ]),
            ],
        ),
{
    let details = Json::object().with("name", Json::text(name)).with(
        "namespace",
        Json::text(namespace),
    ).with("kind", Json::text(RESOURCE)).with("group", Json::text("events.k8s.io"));
    Json::object().with("apiVersion", Json::text("v1")).with("kind", Json::text("Status")).with(
        "metadata",
        Json::object(),
    ).with("status", Json::text("Success")).with("details", details)
}

/// The discovery document of `events.k8s.io/v1`.
pub fn discovery() -> (r: Json)
    ensures
        r@ == list_of(
            GV@,
            no_items().plus(
                served_row("events"@, "event"@, true, "Event"@, collection_verbs()).set(
                    "shortNames"@,
                    no_items().plus(str_tree("ev")),
                ),
            ),
        ).set("apiVersion"@, str_tree("v1")),
{
    let rows = Json::list().and(
        row("events", "event", true, "Event", verbs_collection()).with(
            "shortNames",
            Json::list().and(Json::text("ev")),
        ),
    );
    resource_list(GV, rows).with("apiVersion", Json::text("v1"))
}

// ---------------------------------------------------------------------------
// What the two forms promise of each other
// ---------------------------------------------------------------------------

/// The fields that only the form of `events.k8s.io/v1` has.
pub open spec fn events_only(key: Seq<char>) -> bool {
    key == "regarding"@ || key == "note"@ || key == "reportingController"@ || key
        == "deprecatedSource"@ || key == "deprecatedFirstTimestamp"@ || key
        == "deprecatedLastTimestamp"@ || key == "deprecatedCount"@
}

/// The fields of a core event that the way between the forms reads and keeps.
spec fn consulted(key: Seq<char>) -> bool {
    key == "reportingComponent"@ || key == "reportingInstance"@ || key == "series"@
}

/// The fields that both forms have under names of their own.
pub open spec fn told_twice(key: Seq<char>) -> bool {
    key == "involvedObject"@ || key == "message"@ || key == "source"@ || key
        == "firstTimestamp"@ || key == "lastTimestamp"@ || key == "count"@
}

proof fn lemma_event_keys()
    ensures
        forall|k: Seq<char>| #[trigger] events_only(k) ==> !told_twice(k) && k != "apiVersion"@ && k
            != "kind"@,
        forall|k: Seq<char>| #[trigger] told_twice(k) ==> k != "apiVersion"@ && k != "kind"@,
        forall|k: Seq<char>| #[trigger] consulted(k) ==> !told_twice(k) && !events_only(k) && k
            != "apiVersion"@ && k != "kind"@,
        "apiVersion"@ != "kind"@,
        "series"@ != "regarding"@,
        "series"@ != "note"@,
        "series"@ != "reportingController"@,
        "series"@ != "reportingComponent"@,
        "series"@ != "reportingInstance"@,
        "series"@ != "deprecatedSource"@,
        "series"@ != "deprecatedFirstTimestamp"@,
        "series"@ != "deprecatedLastTimestamp"@,
        "series"@ != "deprecatedCount"@,
        "regarding"@ != "note"@,
        "regarding"@ != "reportingController"@,
        "regarding"@ != "reportingComponent"@,
        "regarding"@ != "reportingInstance"@,
        "regarding"@ != "deprecatedSource"@,
        "regarding"@ != "deprecatedFirstTimestamp"@,
        "regarding"@ != "deprecatedLastTimestamp"@,
        "regarding"@ != "deprecatedCount"@,
        "note"@ != "reportingController"@,
        "note"@ != "reportingComponent"@,
        "note"@ != "reportingInstance"@,
        "note"@ != "deprecatedSource"@,
        "note"@ != "deprecatedFirstTimestamp"@,
        "note"@ != "deprecatedLastTimestamp"@,
        "note"@ != "deprecatedCount"@,
        "reportingController"@ != "reportingComponent"@,
        "reportingController"@ != "reportingInstance"@,
        "reportingController"@ != "deprecatedSource"@,
        "reportingController"@ != "deprecatedFirstTimestamp"@,
        "reportingController"@ != "deprecatedLastTimestamp"@,
        "reportingController"@ != "deprecatedCount"@,
        "reportingComponent"@ != "reportingInstance"@,
        "reportingComponent"@ != "deprecatedSource"@,
        "reportingComponent"@ != "deprecatedFirstTimestamp"@,
        "reportingComponent"@ != "deprecatedLastTimestamp"@,
        "reportingComponent"@ != "deprecatedCount"@,
        "reportingInstance"@ != "deprecatedSource"@,
        "reportingInstance"@ != "deprecatedFirstTimestamp"@,
        "reportingInstance"@ != "deprecatedLastTimestamp"@,
        "reportingInstance"@ != "deprecatedCount"@,
        "deprecatedSource"@ != "deprecatedFirstTimestamp"@,
        "deprecatedSource"@ != "deprecatedLastTimestamp"@,
        "deprecatedSource"@ != "deprecatedCount"@,
        "deprecatedFirstTimestamp"@ != "deprecatedLastTimestamp"@,
        "deprecatedFirstTimestamp"@ != "deprecatedCount"@,
        "deprecatedLastTimestamp"@ != "deprecatedCount"@,
        "involvedObject"@ != "message"@,
        "involvedObject"@ != "source"@,
        "involvedObject"@ != "firstTimestamp"@,
        "involvedObject"@ != "lastTimestamp"@,
        "involvedObject"@ != "count"@,
        "message"@ != "source"@,
        "message"@ != "firstTimestamp"@,
        "message"@ != "lastTimestamp"@,
        "message"@ != "count"@,
        "source"@ != "firstTimestamp"@,
        "source"@ != "lastTimestamp"@,
        "source"@ != "count"@,
        "firstTimestamp"@ != "lastTimestamp"@,
        "firstTimestamp"@ != "count"@,
        "lastTimestamp"@ != "count"@,
{
    reveal_strlit("regarding");
    reveal_strlit("note");
    reveal_strlit("reportingController");
    reveal_strlit("reportingComponent");
    reveal_strlit("reportingInstance");
    reveal_strlit("deprecatedSource");
    reveal_strlit("deprecatedFirstTimestamp");
    reveal_strlit("deprecatedLastTimestamp");
    reveal_strlit("deprecatedCount");
    reveal_strlit("series");
    reveal_strlit("involvedObject");
    reveal_strlit("message");
    reveal_strlit("source");
    reveal_strlit("firstTimestamp");
    reveal_strlit("lastTimestamp");
    reveal_strlit("count");
    reveal_strlit("apiVersion");
    reveal_strlit("kind");
    assert("regarding"@.len() == 9);
    assert("note"@.len() == 4);
    assert("note"@[0] == 'n');
    assert("reportingController"@.len() == 19);
    assert("reportingComponent"@.len() == 18);
    assert("reportingInstance"@.len() == 17);
    assert("deprecatedSource"@.len() == 16);
    assert("deprecatedFirstTimestamp"@.len() == 24);
    assert("deprecatedLastTimestamp"@.len() == 23);
    assert("deprecatedCount"@.len() == 15);
    assert("series"@.len() == 6);
    assert("series"@[1] == 'e');
    assert("involvedObject"@.len() == 14);
    assert("involvedObject"@[0] == 'i');
    assert("message"@.len() == 7);
    assert("source"@.len() == 6);
    assert("source"@[1] == 'o');
    assert("firstTimestamp"@.len() == 14);
    assert("firstTimestamp"@[0] == 'f');
    assert("lastTimestamp"@.len() == 13);
    assert("count"@.len() == 5);
    assert("apiVersion"@.len() == 10);
    assert("kind"@.len() == 4);
    assert("kind"@[0] == 'k');
}

/// The count of a series does not differ from the count that an event has.
pub open spec fn counted_alike(m: Map<Seq<char>, Tree>, count: Seq<char>) -> bool {
    match member_of(held(m, "series"@), "count"@) {
        Some(n) => held(m, count) == Some(n),
        None => true,
    }
}

/// A core event survives the way to `events.k8s.io/v1` and back: an event
/// without fields that only the other form has keeps all its fields, and is of
/// the core group again. A null component is taken from the source, and the count
/// of a series takes the place of one that differs.
pub proof fn law_a_core_event_round_trips(m: Map<Seq<char>, Tree>, key: Seq<char>)
    requires
        forall|k: Seq<char>| #[trigger] m.contains_key(k) ==> !events_only(k),
        m.contains_key(key),
        key != "apiVersion"@,
        key != "kind"@,
        key == "reportingComponent"@ ==> !(m[key] is Null),
        key == "count"@ ==> counted_alike(m, key),
    ensures
        held(core_members(events_members(m)), key) == Some(m[key]),
        held(core_members(events_members(m)), "apiVersion"@) == Some(str_tree("v1")),
        held(core_members(events_members(m)), "kind"@) == Some(str_tree("Event")),
{
    lemma_event_keys();
    assert(consulted("reportingComponent"@));
    assert(consulted("reportingInstance"@));
    assert(consulted("series"@));
    assert(!events_only(key));
    assert(events_only("regarding"@));
    assert(!m.contains_key("regarding"@));
    assert(events_only("note"@));
    assert(!m.contains_key("note"@));
    assert(events_only("reportingController"@));
    assert(!m.contains_key("reportingController"@));
    assert(events_only("deprecatedSource"@));
    assert(!m.contains_key("deprecatedSource"@));
    assert(events_only("deprecatedFirstTimestamp"@));
    assert(!m.contains_key("deprecatedFirstTimestamp"@));
    assert(events_only("deprecatedLastTimestamp"@));
    assert(!m.contains_key("deprecatedLastTimestamp"@));
    assert(events_only("deprecatedCount"@));
    assert(!m.contains_key("deprecatedCount"@));
    assert(told_twice("involvedObject"@));
    assert(told_twice("message"@));
    assert(told_twice("source"@));
    assert(told_twice("firstTimestamp"@));
    assert(told_twice("lastTimestamp"@));
    assert(told_twice("count"@));
    let ev = events_members(m);
    assert(held(ev, "regarding"@) == held(m, "involvedObject"@));
    assert(held(ev, "note"@) == held(m, "message"@));
    assert(held(ev, "deprecatedSource"@) == held(m, "source"@));
    assert(held(ev, "deprecatedFirstTimestamp"@) == held(m, "firstTimestamp"@));
    assert(held(ev, "deprecatedLastTimestamp"@) == held(m, "lastTimestamp"@));
    assert(held(ev, "deprecatedCount"@) == held(m, "count"@));
    assert(held(ev, "series"@) == held(m, "series"@));
    assert(!told_twice(key) && key != "reportingComponent"@ ==> held(ev, key) == held(m, key));
    assert(!ev.contains_key("involvedObject"@));
    assert(!ev.contains_key("message"@));
    assert(!ev.contains_key("source"@));
    assert(!ev.contains_key("firstTimestamp"@));
    assert(!ev.contains_key("lastTimestamp"@));
    assert(!ev.contains_key("count"@));
}

/// An event of `events.k8s.io/v1` survives being stored as a core event: an event
/// without fields that only the core form has reads back with all its fields. A
/// null controller is taken from a source that is kept, and the count of a series
/// takes the place of one that differs.
pub proof fn law_an_event_reads_back(m: Map<Seq<char>, Tree>, key: Seq<char>)
    requires
        forall|k: Seq<char>| #[trigger] m.contains_key(k) ==> !told_twice(k) && k
            != "reportingComponent"@,
        m.contains_key(key),
        key != "apiVersion"@,
        key != "kind"@,
        key == "reportingController"@ ==> !(m[key] is Null) || !m.contains_key(
            "deprecatedSource"@,
        ),
        key == "deprecatedCount"@ ==> counted_alike(m, key),
    ensures
        held(events_members(core_members(m)), key) == Some(m[key]),
        held(events_members(core_members(m)), "apiVersion"@) == Some(Tree::String(GV@)),
        held(events_members(core_members(m)), "kind"@) == Some(str_tree("Event")),
{
    lemma_event_keys();
    assert(consulted("reportingComponent"@));
    assert(consulted("reportingInstance"@));
    assert(consulted("series"@));
    assert(events_only("regarding"@));
    assert(events_only("note"@));
    assert(events_only("reportingController"@));
    assert(events_only("deprecatedSource"@));
    assert(events_only("deprecatedFirstTimestamp"@));
    assert(events_only("deprecatedLastTimestamp"@));
    assert(events_only("deprecatedCount"@));
    assert(told_twice("involvedObject"@));
    assert(told_twice("message"@));
    assert(told_twice("source"@));
    assert(told_twice("firstTimestamp"@));
    assert(told_twice("lastTimestamp"@));
    assert(told_twice("count"@));
    assert(!m.contains_key("involvedObject"@));
    assert(!m.contains_key("message"@));
    assert(!m.contains_key("source"@));
    assert(!m.contains_key("firstTimestamp"@));
    assert(!m.contains_key("lastTimestamp"@));
    assert(!m.contains_key("count"@));
    assert(!m.contains_key("reportingComponent"@));
    reveal_strlit("component");
    reveal_strlit("host");
    assert("component"@.len() == 9);
    assert("host"@.len() == 4);
    let core = core_members(m);
    assert(held(core, "involvedObject"@) == held(m, "regarding"@));
    assert(held(core, "message"@) == held(m, "note"@));
    assert(held(core, "reportingComponent"@) == held(m, "reportingController"@));
    assert(held(core, "firstTimestamp"@) == held(m, "deprecatedFirstTimestamp"@));
    assert(m.contains_key("deprecatedLastTimestamp"@) ==> held(core, "lastTimestamp"@) == held(
        m,
        "deprecatedLastTimestamp"@,
    ));
    assert(m.contains_key("deprecatedSource"@) ==> held(core, "source"@) == held(
        m,
        "deprecatedSource"@,
    ));
    assert(held(core, "reportingInstance"@) == held(m, "reportingInstance"@));
    assert(held(core, "series"@) == held(m, "series"@));
    assert(!core.contains_key("regarding"@));
    assert(!core.contains_key("note"@));
    assert(!core.contains_key("reportingController"@));
    assert(!core.contains_key("deprecatedSource"@));
    assert(!core.contains_key("deprecatedFirstTimestamp"@));
    assert(!core.contains_key("deprecatedLastTimestamp"@));
    assert(!core.contains_key("deprecatedCount"@));
    assert(!events_only(key) ==> held(core, key) == held(m, key));
}

/// An event of the core group says the same in the other, under the names that it has there.
pub proof fn law_an_event_is_told_in_other_words(e: Tree, key: Seq<char>)
    requires
        e is Object,
        !events_only(key),
        !told_twice(key),
        key != "apiVersion"@,
        key != "kind"@,
        key != "reportingComponent"@,
        key != "reportingInstance"@,
    ensures
        ({
            let r = events_form(e);
            &&& r.at("apiVersion"@) == str_tree("events.k8s.io/v1")
            &&& r.at("kind"@) == str_tree("Event")
            &&& r.get(key) == e.get(key)
            &&& e.get("involvedObject"@) is Some ==> r.get("regarding"@) == e.get("involvedObject"@)
            &&& r.get("involvedObject"@) is None
            &&& e.get("message"@) is Some ==> r.get("note"@) == e.get("message"@)
            &&& r.get("message"@) is None
            &&& e.get("source"@) is Some ==> r.get("deprecatedSource"@) == e.get("source"@)
            &&& r.get("source"@) is None
            &&& e.get("firstTimestamp"@) is Some ==> r.get("deprecatedFirstTimestamp"@) == e.get("firstTimestamp"@)
            &&& r.get("firstTimestamp"@) is None
            &&& e.get("lastTimestamp"@) is Some ==> r.get("deprecatedLastTimestamp"@) == e.get("lastTimestamp"@)
            &&& r.get("lastTimestamp"@) is None
            &&& e.get("count"@) is Some ==> r.get("deprecatedCount"@) == e.get("count"@)
            &&& r.get("count"@) is None
            &&& e.get("reportingController"@) is Some ==> r.get("reportingController"@) == e.get(
                "reportingController"@,
            )
            &&& e.get("reportingController"@) is None && !(e.at("reportingComponent"@) is Null)
                ==> r.get("reportingController"@) == e.get("reportingComponent"@)
            &&& e.get("reportingController"@) is None && e.at("reportingComponent"@) is Null
                && e.at("source"@).get("component"@) is Some ==> r.get("reportingController"@)
                == e.at("source"@).get("component"@)
            &&& e.get("reportingInstance"@) is Some ==> r.get("reportingInstance"@) == e.get(
                "reportingInstance"@,
            )
            &&& e.get("reportingInstance"@) is None && e.at("source"@).get("host"@) is Some
                ==> r.get("reportingInstance"@) == e.at("source"@).get("host"@)
        }),
{
    reveal_strlit("apiVersion");
    reveal_strlit("kind");
    reveal_strlit("regarding");
    reveal_strlit("note");
    reveal_strlit("reportingController");
    reveal_strlit("deprecatedSource");
    reveal_strlit("deprecatedFirstTimestamp");
    reveal_strlit("deprecatedLastTimestamp");
    reveal_strlit("deprecatedCount");
    reveal_strlit("reportingComponent");
    reveal_strlit("reportingInstance");
    reveal_strlit("series");
    reveal_strlit("involvedObject");
    reveal_strlit("message");
    reveal_strlit("source");
    reveal_strlit("firstTimestamp");
    reveal_strlit("lastTimestamp");
    reveal_strlit("count");
    assert("apiVersion"@.len() == 10);
    assert("kind"@.len() == 4);
    assert("regarding"@.len() == 9);
    assert("note"@.len() == 4);
    assert("reportingController"@.len() == 19);
    assert("deprecatedSource"@.len() == 16);
    assert("deprecatedFirstTimestamp"@.len() == 24);
    assert("deprecatedLastTimestamp"@.len() == 23);
    assert("deprecatedCount"@.len() == 15);
    assert("reportingComponent"@.len() == 18);
    assert("reportingInstance"@.len() == 17);
    assert("series"@.len() == 6);
    assert("involvedObject"@.len() == 14);
    assert("message"@.len() == 7);
    assert("source"@.len() == 6);
    assert("firstTimestamp"@.len() == 14);
    assert("lastTimestamp"@.len() == 13);
    assert("count"@.len() == 5);
    assert("kind"@[0] == 'k');
    assert("note"@[0] == 'n');
    assert("series"@[1] == 'e');
    assert("source"@[1] == 'o');
    assert("involvedObject"@[0] == 'i');
    assert("firstTimestamp"@[0] == 'f');
}

/// An event of the other group says the same in the core, under the names that it has there;
/// what the core has a name for goes before what is kept for it.
pub proof fn law_an_event_is_told_in_core_words(e: Tree, key: Seq<char>)
    requires
        e is Object,
        !events_only(key),
        !told_twice(key),
        key != "apiVersion"@,
        key != "kind"@,
        key != "reportingComponent"@,
    ensures
        ({
            let r = core_form(e);
            &&& r.at("apiVersion"@) == str_tree("v1")
            &&& r.at("kind"@) == str_tree("Event")
            &&& r.get(key) == e.get(key)
            &&& e.get("regarding"@) is Some ==> r.get("involvedObject"@) == e.get("regarding"@)
            &&& e.get("note"@) is Some ==> r.get("message"@) == e.get("note"@)
            &&& e.get("deprecatedSource"@) is Some ==> r.get("source"@) == e.get(
                "deprecatedSource"@,
            )
            &&& e.get("reportingController"@) is Some ==> r.get("reportingComponent"@) == e.get(
                "reportingController"@,
            )
            &&& e.get("deprecatedSource"@) is None && e.get("reportingController"@) is Some
                ==> r.at("source"@).get("component"@) == e.get("reportingController"@)
            &&& e.get("deprecatedSource"@) is None && e.get("reportingInstance"@) is Some ==> r.at(
                "source"@,
            ).get("host"@) == e.get("reportingInstance"@)
            &&& e.at("series"@).get("count"@) is Some ==> r.get("count"@) == e.at("series"@).get(
                "count"@,
            )
            &&& e.at("series"@).get("count"@) is None && e.get("count"@) is Some ==> r.get("count"@)
                == e.get("count"@)
            &&& e.at("series"@).get("count"@) is None && e.get("count"@) is None && e.get(
                "deprecatedCount"@,
            ) is Some ==> r.get("count"@) == e.get("deprecatedCount"@)
            &&& e.get("lastTimestamp"@) is Some ==> r.get("lastTimestamp"@) == e.get(
                "lastTimestamp"@,
            )
            &&& e.get("lastTimestamp"@) is None && e.get("deprecatedLastTimestamp"@) is Some
                ==> r.get("lastTimestamp"@) == e.get("deprecatedLastTimestamp"@)
            &&& e.get("lastTimestamp"@) is None && e.get("deprecatedLastTimestamp"@) is None
                && e.at("series"@).get("lastObservedTime"@) is Some ==> r.get("lastTimestamp"@)
                == e.at("series"@).get("lastObservedTime"@)
            &&& e.get("firstTimestamp"@) is Some ==> r.get("firstTimestamp"@) == e.get(
                "firstTimestamp"@,
            )
            &&& e.get("firstTimestamp"@) is None && e.get("deprecatedFirstTimestamp"@) is Some
                ==> r.get("firstTimestamp"@) == e.get("deprecatedFirstTimestamp"@)
        }),
{
    reveal_strlit("apiVersion");
    reveal_strlit("kind");
    reveal_strlit("regarding");
    reveal_strlit("note");
    reveal_strlit("reportingController");
    reveal_strlit("deprecatedSource");
    reveal_strlit("deprecatedFirstTimestamp");
    reveal_strlit("deprecatedLastTimestamp");
    reveal_strlit("deprecatedCount");
    reveal_strlit("reportingComponent");
    reveal_strlit("reportingInstance");
    reveal_strlit("series");
    reveal_strlit("involvedObject");
    reveal_strlit("message");
    reveal_strlit("source");
    reveal_strlit("firstTimestamp");
    reveal_strlit("lastTimestamp");
    reveal_strlit("count");
    assert("apiVersion"@.len() == 10);
    assert("kind"@.len() == 4);
    assert("regarding"@.len() == 9);
    assert("note"@.len() == 4);
    assert("reportingController"@.len() == 19);
    assert("deprecatedSource"@.len() == 16);
    assert("deprecatedFirstTimestamp"@.len() == 24);
    assert("deprecatedLastTimestamp"@.len() == 23);
    assert("deprecatedCount"@.len() == 15);
    assert("reportingComponent"@.len() == 18);
    assert("reportingInstance"@.len() == 17);
    assert("series"@.len() == 6);
    assert("involvedObject"@.len() == 14);
    assert("message"@.len() == 7);
    assert("source"@.len() == 6);
    assert("firstTimestamp"@.len() == 14);
    assert("lastTimestamp"@.len() == 13);
    assert("count"@.len() == 5);
    assert("kind"@[0] == 'k');
    assert("note"@[0] == 'n');
    assert("series"@[1] == 'e');
    assert("source"@[1] == 'o');
    assert("involvedObject"@[0] == 'i');
    assert("firstTimestamp"@[0] == 'f');
    reveal_strlit("component");
    reveal_strlit("host");
    assert("component"@.len() == 9);
    assert("host"@.len() == 4);
}

/// An event is made under the name that it has, else under one that begins as it asks.
pub proof fn law_the_name_of_an_event(core: Tree)
    ensures
        core.at("metadata"@).at("name"@) is String ==> creation_name(core) == Some(
            core.at("metadata"@).at("name"@)->String_0,
        ),
        !(core.at("metadata"@).at("name"@) is String) && core.at("metadata"@).at(
            "generateName"@,
        ) is String ==> creation_name(core) == Some(
            core.at("metadata"@).at("generateName"@)->String_0,
        ),
        !(core.at("metadata"@).at("name"@) is String) && !(core.at("metadata"@).at(
            "generateName"@,
        ) is String) ==> creation_name(core) is None,
{
}

} // verus!
