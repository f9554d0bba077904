//! Tables: what `kubectl get` and `oc get` print.
//!
//! A client that asks for `as=Table` is sent columns and rows, so that the
//! server and not the client decides what is shown of a resource.

use vstd::arithmetic::div_mod::{lemma_mod_mod, lemma_mod_multiples_vanish};
use vstd::prelude::*;
use vstd::string::*;
use vstd::utf8::encode_utf8;

use crate::decimal::{dec, dec_int, format_i64, format_u64, parse_unsigned, unsigned};
use crate::json::{
    dup_all, empty_object, key_order, lemma_trees_push, no_items, opt_tree, str_tree, trees, Json,
    Numeral, Tree,
};
use crate::outside::{now_moment, read_rfc3339, rfc3339, Moment};
use crate::text::{
    contains, drop_back, drop_front, find, find_from, has_sub, join, join_with, keep_nonempty,
    nonempty, opt_str, same, split, split_on, strip_prefix, texts, trim_end_char, trim_start_char,
    without_prefix,
};

verus! {

/// Does an `Accept` header ask for a table?
pub fn wants_table(accept: Option<&str>) -> (r: bool)
    ensures
        r == match accept {
            Some(a) => has_sub(a@, "as=Table"@),
            None => false,
        },
{
    match accept {
        Some(a) => contains(a, "as=Table"),
        None => false,
    }
}

// ---------------------------------------------------------------------------
// Columns and cells
// ---------------------------------------------------------------------------

/// The definition of a column.
pub open spec fn column(
    name: Seq<char>,
    kind: Seq<char>,
    priority: int,
    description: Seq<char>,
) -> Tree {
    Tree::Object(
        map![
            "name"@ => Tree::String(name),
            "type"@ => Tree::String(kind),
            "format"@ => str_tree(""),
            "description"@ => Tree::String(description),
            "priority"@ => Tree::Number(Numeral::of(priority)),
        ],
    )
}

/// The definition of a column.
pub fn col(name: &str, kind: &str, priority: i64, desc: &str) -> (r: Json)
    ensures
        r@ == column(name@, kind@, priority as int, desc@),
{
    Json::object().with("name", Json::text(name)).with("type", Json::text(kind)).with(
        "format",
        Json::text(""),
    ).with("description", Json::text(desc)).with("priority", Json::int_value(priority))
}

/// A column of text that is always shown.
pub open spec fn text_column(name: Seq<char>, description: Seq<char>) -> Tree {
    column(name, "string"@, 0, description)
}

fn text_col(name: &str, desc: &str) -> (r: Json)
    ensures
        r@ == text_column(name@, desc@),
{
    col(name, "string", 0, desc)
}

/// A time span as kubectl prints an age: seconds below a minute, minutes below
/// an hour, hours below a day, then days.
pub open spec fn span(secs: int) -> Seq<char> {
    if secs < 60 {
        dec_int(secs) + "s"@
    } else if secs < 3600 {
        dec_int(secs / 60) + "m"@
    } else if secs < 86400 {
        dec_int(secs / 3600) + "h"@
    } else {
        dec_int(secs / 86400) + "d"@
    }
}

/// A moment is a date: its year has at most six digits, and its nanoseconds run on
/// only in the last second of a minute.
pub open spec fn is_date(now: Moment) -> bool {
    &&& -8334601228800 <= now.secs <= 8210266876799
    &&& now.nanos < 1000000000 || (now.nanos < 2000000000 && now.secs as int % 60 == 59)
}

/// The second that a leap second adds to a span: the one that `then` stands in,
/// where the time of the day is past it, or takes back the one that `now` stands in.
pub open spec fn leap_between(then: (i64, u32), now: Moment) -> int {
    let (a, b) = (then.0 as int % 86400, now.secs as int % 86400);
    if b > a && then.1 >= 1000000000 {
        1
    } else if b < a && now.nanos >= 1000000000 {
        -1
    } else {
        0
    }
}

/// The whole seconds from one point in time to another; a part of a second does not
/// count, on either side of zero.
pub open spec fn whole_seconds(then: (i64, u32), now: Moment) -> int {
    let nanos = (now.secs - then.0 + leap_between(then, now)) * 1000000000 + now.nanos - then.1;
    if nanos >= 0 {
        nanos / 1000000000
    } else {
        -((-nanos) / 1000000000)
    }
}

/// How many bytes an RFC 3339 time has at least, up to its seconds.
pub const TIME_BYTES: usize = 19;

/// The whole seconds from an RFC 3339 time to a moment; none where the text is no
/// such time, as one that is too short, or the moment no date.
pub open spec fn seconds_since(then: Seq<char>, now: Moment) -> Option<int> {
    if encode_utf8(then).len() < TIME_BYTES {
        None
    } else {
        match rfc3339(then) {
            Some(at) => if is_date(now) {
                Some(whole_seconds(at, now))
            } else {
                None
            },
            None => None,
        }
    }
}

/// The second of its day in which a second stands, for one that is a date.
fn second_of_day(secs: i64) -> (r: i64)
    requires
        -8334601228800 <= secs <= 8210266876799,
    ensures
        r == secs as int % 86400,
{
    assert((secs + 8640000000000int) % 86400 == secs as int % 86400) by {
        lemma_mod_multiples_vanish(100000000, secs as int, 86400);
    }
    (secs + 8640000000000) % 86400
}

/// Counts the whole seconds from an RFC 3339 time to a moment.
pub fn elapsed_seconds(then: &str, now: Moment) -> (r: Option<i64>)
    ensures
        match r {
            Some(n) => seconds_since(then@, now) == Some(n as int),
            None => seconds_since(then@, now) is None,
        },
{
    let at = match read_rfc3339(then) {
        Some(at) => at,
        None => {
            return None;
        },
    };
    if now.secs < -8334601228800 || now.secs > 8210266876799 || now.nanos >= 2000000000 {
        return None;
    }
    let b = second_of_day(now.secs);
    assert(b as int % 60 == now.secs as int % 60) by {
        lemma_mod_mod(now.secs as int, 60, 1440);
    }
    if now.nanos >= 1000000000 && b % 60 != 59 {
        return None;
    }
    let a = second_of_day(at.0);
    let leap: i128 = if b > a && at.1 >= 1000000000 {
        1
    } else if b < a && now.nanos >= 1000000000 {
        -1
    } else {
        0
    };
    let nanos: i128 = (now.secs as i128 - at.0 as i128 + leap) * 1000000000 + now.nanos as i128
        - at.1 as i128;
    if nanos >= 0 {
        Some((nanos / 1000000000) as i64)
    } else {
        Some(-(((-nanos) / 1000000000) as i64))
    }
}

/// The age of an object at `now`; a creation in the future is no age.
pub open spec fn age_of(obj: Tree, now: Moment) -> Seq<char> {
    match seconds_since(obj.at("metadata"@).at("creationTimestamp"@).text_or_empty(), now) {
        Some(secs) => span(
            if secs < 0 {
                0
            } else {
                secs
            },
        ),
        None => "<unknown>"@,
    }
}

/// A time span as kubectl prints an age.
pub fn print_span(secs: i64) -> (r: String)
    requires
        secs >= 0,
    ensures
        r@ == span(secs as int),
{
    if secs < 60 {
        format_i64(secs).concat("s")
    } else if secs < 3600 {
        format_i64(secs / 60).concat("m")
    } else if secs < 86400 {
        format_i64(secs / 3600).concat("h")
    } else {
        format_i64(secs / 86400).concat("d")
    }
}

/// The age of an object at `now`.
pub fn age(obj: &Json, now: Moment) -> (r: String)
    ensures
        r@ == age_of(obj@, now),
{
    let ts = obj.at("metadata").at("creationTimestamp").str_or_empty();
    match elapsed_seconds(ts, now) {
        Some(secs) => print_span(
            if secs < 0 {
                0
            } else {
                secs
            },
        ),
        None => "<unknown>".to_owned(),
    }
}

/// The name of an object.
pub open spec fn name_of(obj: Tree) -> Seq<char> {
    obj.at("metadata"@).at("name"@).text_or_empty()
}

fn name_cell(obj: &Json) -> (r: Json)
    ensures
        r@ == Tree::String(name_of(obj@)),
{
    Json::text(obj.at("metadata").at("name").str_or_empty())
}

fn age_cell(obj: &Json, now: Moment) -> (r: Json)
    ensures
        r@ == Tree::String(age_of(obj@, now)),
{
    Json::String(age(obj, now))
}

/// An access mode as kubectl abbreviates it.
pub open spec fn abbreviated(mode: Seq<char>) -> Seq<char> {
    if mode == "ReadWriteOnce"@ {
        "RWO"@
    } else if mode == "ReadOnlyMany"@ {
        "ROX"@
    } else if mode == "ReadWriteMany"@ {
        "RWX"@
    } else if mode == "ReadWriteOncePod"@ {
        "RWOP"@
    } else {
        mode
    }
}

/// Access modes as kubectl abbreviates them.
pub open spec fn mode_list(modes: Tree) -> Seq<char> {
    join(
        modes.items_or_none().map_values(|m: Tree| abbreviated(m.text_or_empty())),
        ","@,
    )
}

fn abbreviate<'a>(mode: &'a str) -> (r: &'a str)
    ensures
        r@ == abbreviated(mode@),
{
    if same(mode, "ReadWriteOnce") {
        "RWO"
    } else if same(mode, "ReadOnlyMany") {
        "ROX"
    } else if same(mode, "ReadWriteMany") {
        "RWX"
    } else if same(mode, "ReadWriteOncePod") {
        "RWOP"
    } else {
        mode
    }
}

/// Access modes as kubectl abbreviates them: RWO, ROX, RWX, RWOP.
pub fn modes(v: &Json) -> (r: String)
    ensures
        r@ == mode_list(v@),
{
    let mut out: Vec<String> = Vec::new();
    match v {
        Json::Array(a) => {
            let mut i: usize = 0;
            while i < a.len()
                invariant
                    i <= a.len(),
                    out@.len() == i,
                    forall|j: int|
                        0 <= j < i ==> (#[trigger] out@[j])@ == abbreviated(
                            a@[j]@.text_or_empty(),
                        ),
                decreases a.len() - i,
            {
                out.push(abbreviate(a[i].str_or_empty()).to_owned());
                i = i + 1;
            }
            assert(texts(out@) =~= v@.items_or_none().map_values(
                |m: Tree| abbreviated(m.text_or_empty()),
            ));
        },
        _ => {
            assert(texts(out@) =~= v@.items_or_none().map_values(
                |m: Tree| abbreviated(m.text_or_empty()),
            ));
        },
    }
    join_with(&out, ",")
}

// ---------------------------------------------------------------------------
// The resources with columns of their own
// ---------------------------------------------------------------------------

/// How the objects of a resource are printed.
#[derive(Clone, Copy, Debug, PartialEq, Eq, Structural)]
pub enum Printer {
    Claims,
    Volumes,
    Pods,
    Nodes,
    Namespaces,
    /// Name and age.
    Plain,
}

/// How the objects of a resource are printed.
pub open spec fn printer_of(resource: Seq<char>) -> Printer {
    if resource == "persistentvolumeclaims"@ {
        Printer::Claims
    } else if resource == "persistentvolumes"@ {
        Printer::Volumes
    } else if resource == "pods"@ {
        Printer::Pods
    } else if resource == "nodes"@ {
        Printer::Nodes
    } else if resource == "namespaces"@ {
        Printer::Namespaces
    } else {
        Printer::Plain
    }
}

/// How the objects of a resource are printed.
pub fn printer(resource: &str) -> (r: Printer)
    ensures
        r == printer_of(resource@),
{
    if same(resource, "persistentvolumeclaims") {
        Printer::Claims
    } else if same(resource, "persistentvolumes") {
        Printer::Volumes
    } else if same(resource, "pods") {
        Printer::Pods
    } else if same(resource, "nodes") {
        Printer::Nodes
    } else if same(resource, "namespaces") {
        Printer::Namespaces
    } else {
        Printer::Plain
    }
}

/// The columns of a printer.
pub open spec fn columns_of(p: Printer) -> Tree {
    let age = text_column("Age"@, "Time since creation"@);
    match p {
        Printer::Claims => no_items().plus(text_column("Name"@, "Name of the claim"@)).plus(
            text_column("Status"@, "Bound, Pending or Lost"@),
        ).plus(text_column("Volume"@, "The PersistentVolume it is bound to"@)).plus(
            text_column("Capacity"@, "Capacity of the bound volume"@),
        ).plus(text_column("Access Modes"@, "How the volume may be mounted"@)).plus(
            text_column("Storageclass"@, "The StorageClass that provisioned it"@),
        ).plus(age),
        Printer::Volumes => no_items().plus(text_column("Name"@, "Name of the volume"@)).plus(
            text_column("Capacity"@, "Its capacity"@),
        ).plus(text_column("Access Modes"@, "How it may be mounted"@)).plus(
            text_column("Reclaim Policy"@, "What happens when its claim goes"@),
        ).plus(text_column("Status"@, "Available, Bound, Released or Failed"@)).plus(
            text_column("Claim"@, "The claim it is bound to"@),
        ).plus(text_column("Storageclass"@, "The StorageClass it came from"@)).plus(age),
        Printer::Pods => no_items().plus(text_column("Name"@, "Name of the pod"@)).plus(
            text_column("Ready"@, "Containers ready over total"@),
        ).plus(text_column("Status"@, "Pod phase"@)).plus(
            text_column("Restarts"@, "Total container restarts"@),
        ).plus(age).plus(column("IP"@, "string"@, 1, "Pod IP"@)).plus(
            column("Node"@, "string"@, 1, "Node it is on"@),
        ),
        Printer::Nodes => no_items().plus(text_column("Name"@, "Name of the node"@)).plus(
            text_column("Status"@, "Ready, NotReady or unknown"@),
        ).plus(text_column("Roles"@, "Roles from node-role labels"@)).plus(age).plus(
            text_column("Version"@, "Kubelet version"@),
        ),
        Printer::Namespaces => no_items().plus(
            text_column("Name"@, "Name of the namespace"@),
        ).plus(text_column("Status"@, "Active or Terminating"@)).plus(age),
        Printer::Plain => no_items().plus(text_column("Name"@, "Name of the object"@)).plus(age),
    }
}

/// The columns of a printer.
pub fn columns(p: Printer) -> (r: Json)
    ensures
        r@ == columns_of(p),
{
    let age = text_col("Age", "Time since creation");
    match p {
        Printer::Claims => Json::list().and(text_col("Name", "Name of the claim")).and(
            text_col("Status", "Bound, Pending or Lost"),
        ).and(text_col("Volume", "The PersistentVolume it is bound to")).and(
            text_col("Capacity", "Capacity of the bound volume"),
        ).and(text_col("Access Modes", "How the volume may be mounted")).and(
            text_col("Storageclass", "The StorageClass that provisioned it"),
        ).and(age),
        Printer::Volumes => Json::list().and(text_col("Name", "Name of the volume")).and(
            text_col("Capacity", "Its capacity"),
        ).and(text_col("Access Modes", "How it may be mounted")).and(
            text_col("Reclaim Policy", "What happens when its claim goes"),
        ).and(text_col("Status", "Available, Bound, Released or Failed")).and(
            text_col("Claim", "The claim it is bound to"),
        ).and(text_col("Storageclass", "The StorageClass it came from")).and(age),
        Printer::Pods => Json::list().and(text_col("Name", "Name of the pod")).and(
            text_col("Ready", "Containers ready over total"),
        ).and(text_col("Status", "Pod phase")).and(
            text_col("Restarts", "Total container restarts"),
        ).and(age).and(col("IP", "string", 1, "Pod IP")).and(
            col("Node", "string", 1, "Node it is on"),
        ),
        Printer::Nodes => Json::list().and(text_col("Name", "Name of the node")).and(
            text_col("Status", "Ready, NotReady or unknown"),
        ).and(text_col("Roles", "Roles from node-role labels")).and(age).and(
            text_col("Version", "Kubelet version"),
        ),
        Printer::Namespaces => Json::list().and(
            text_col("Name", "Name of the namespace"),
        ).and(text_col("Status", "Active or Terminating")).and(age),
        Printer::Plain => Json::list().and(text_col("Name", "Name of the object")).and(age),
    }
}

/// The claim that a volume is bound to.
pub open spec fn claim_of(obj: Tree) -> Seq<char> {
    let claim = obj.at("spec"@).at("claimRef"@);
    match (claim.at("namespace"@).text(), claim.at("name"@).text()) {
        (Some(ns), Some(n)) => ns + "/"@ + n,
        _ => Seq::empty(),
    }
}

fn claim_text(obj: &Json) -> (r: String)
    ensures
        r@ == claim_of(obj@),
{
    let claim = obj.at("spec").at("claimRef");
    match (claim.at("namespace").as_str(), claim.at("name").as_str()) {
        (Some(ns), Some(n)) => ns.to_owned().concat("/").concat(n),
        _ => String::new(),
    }
}

/// How many containers are ready.
pub open spec fn ready_count(statuses: Seq<Tree>) -> nat
    decreases statuses.len(),
{
    if statuses.len() == 0 {
        0
    } else {
        ready_count(statuses.drop_last()) + (if statuses.last().at("ready"@).flag() == Some(true) {
            1nat
        } else {
            0nat
        })
    }
}

/// The restarts of one container.
pub open spec fn restarts_of(status: Tree) -> int {
    match status.at("restartCount"@).integer() {
        Some(n) => n,
        None => 0,
    }
}

/// The restarts of all containers.
pub open spec fn restart_sum(statuses: Seq<Tree>) -> int
    decreases statuses.len(),
{
    if statuses.len() == 0 {
        0
    } else {
        restart_sum(statuses.drop_last()) + restarts_of(statuses.last())
    }
}

/// The restarts can be added up one after another.
pub open spec fn restarts_fit(statuses: Seq<Tree>) -> bool {
    forall|n: int|
        0 <= n <= statuses.len() ==> i64::MIN <= #[trigger] restart_sum(statuses.take(n))
            <= i64::MAX
}

/// The statuses of a pod's containers.
pub open spec fn container_statuses(obj: Tree) -> Seq<Tree> {
    obj.at("status"@).at("containerStatuses"@).items_or_none()
}

/// How many containers a pod has.
pub open spec fn container_count(obj: Tree) -> nat {
    match obj.at("spec"@).at("containers"@).items() {
        Some(c) => c.len(),
        None => container_statuses(obj).len(),
    }
}

/// The ready count and the restarts, once they are known to fit.
fn container_numbers(statuses: &Vec<Json>) -> (r: (u64, i64))
    requires
        restarts_fit(trees(statuses@)),
    ensures
        r.0 == ready_count(trees(statuses@)),
        r.1 == restart_sum(trees(statuses@)),
{
    let ghost ts = trees(statuses@);
    let mut ready: u64 = 0;
    let mut restarts: i64 = 0;
    let mut i: usize = 0;
    while i < statuses.len()
        invariant
            i <= statuses.len(),
            ts == trees(statuses@),
            restarts_fit(ts),
            ready <= i,
            ready == ready_count(ts.take(i as int)),
            restarts == restart_sum(ts.take(i as int)),
        decreases statuses.len() - i,
    {
        let s = &statuses[i];
        proof {
            assert(ts.take(i + 1).drop_last() =~= ts.take(i as int));
            assert(ts.take(i + 1).last() == s@);
            assert(i64::MIN <= restart_sum(ts.take(i + 1)) <= i64::MAX);
        }
        let is_ready = match s.at("ready").as_bool() {
            Some(b) => b,
            None => false,
        };
        if is_ready {
            ready = ready + 1;
        }
        let n: i64 = match s.at("restartCount").as_i64() {
            Some(n) => n,
            None => 0,
        };
        restarts = restarts + n;
        i = i + 1;
    }
    assert(ts.take(i as int) =~= ts);
    (ready, restarts)
}

/// The status of a node: that of its first `Ready` condition.
pub open spec fn node_status(conditions: Seq<Tree>) -> Seq<char>
    decreases conditions.len(),
{
    if conditions.len() == 0 {
        "Unknown"@
    } else if conditions[0].at("type"@) == str_tree("Ready") {
        if conditions[0].at("status"@) == str_tree("True") {
            "Ready"@
        } else {
            "NotReady"@
        }
    } else {
        node_status(conditions.skip(1))
    }
}

fn node_status_text(v: &Json) -> (r: &'static str)
    ensures
        r@ == node_status(v@.items_or_none()),
{
    let cs = match v {
        Json::Array(a) => a,
        _ => {
            return "Unknown";
        },
    };
    let ghost ts = trees(cs@);
    let mut i: usize = 0;
    assert(ts.skip(0) =~= ts);
    while i < cs.len()
        invariant
            i <= cs.len(),
            ts == trees(cs@),
            ts == v@.items_or_none(),
            node_status(ts) == node_status(ts.skip(i as int)),
        decreases cs.len() - i,
    {
        proof {
            assert(ts.skip(i as int)[0] == cs@[i as int]@);
            assert(ts.skip(i as int).skip(1) =~= ts.skip(i + 1));
        }
        if cs[i].at("type").is_text("Ready") {
            if cs[i].at("status").is_text("True") {
                return "Ready";
            } else {
                return "NotReady";
            }
        }
        i = i + 1;
    }
    "Unknown"
}

/// The roles that label keys name.
pub open spec fn roles_in(keys: Seq<Seq<char>>) -> Seq<Seq<char>>
    decreases keys.len(),
{
    if keys.len() == 0 {
        Seq::empty()
    } else {
        let rest = roles_in(keys.drop_last());
        match without_prefix(keys.last(), "node-role.kubernetes.io/"@) {
            Some(role) => rest.push(role),
            None => rest,
        }
    }
}

/// The roles of a node, in the order of their labels.
pub open spec fn node_roles(labels: Tree) -> Seq<char> {
    let roles = match labels {
        Tree::Object(m) => roles_in(key_order(m)),
        _ => Seq::empty(),
    };
    if roles.len() == 0 {
        "<none>"@
    } else {
        join(roles, ","@)
    }
}

fn node_roles_text(labels: &Json) -> (r: String)
    ensures
        r@ == node_roles(labels@),
{
    let o = match labels {
        Json::Object(o) => o,
        _ => {
            return "<none>".to_owned();
        },
    };
    let n: usize = o.len();
    let ghost keys = o.keys();
    let mut roles: Vec<String> = Vec::new();
    let mut i: usize = 0;
    assert(texts(roles@) =~= roles_in(keys.take(0)));
    while i < n
        invariant
            i <= n,
            n == keys.len(),
            keys == o.keys(),
            texts(roles@) == roles_in(keys.take(i as int)),
        decreases n - i,
    {
        let k = o.key(i);
        proof {
            assert(keys.take(i + 1).drop_last() =~= keys.take(i as int));
            assert(keys.take(i + 1).last() == k@);
        }
        match strip_prefix(k, "node-role.kubernetes.io/") {
            Some(role) => {
                let ghost was = texts(roles@);
                roles.push(role.to_owned());
                assert(texts(roles@) =~= was.push(role@));
            },
            None => {},
        }
        i = i + 1;
    }
    assert(keys.take(n as int) =~= keys);
    assert(texts(roles@).len() == roles@.len());
    if roles.len() == 0 {
        "<none>".to_owned()
    } else {
        join_with(&roles, ",")
    }
}

/// The row of an object.
pub open spec fn cells_of(p: Printer, obj: Tree, now: Moment) -> Tree {
    let name = Tree::String(name_of(obj));
    let age = Tree::String(age_of(obj, now));
    let spec = obj.at("spec"@);
    let status = obj.at("status"@);
    match p {
        Printer::Claims => no_items().plus(name).plus(
            Tree::String(status.at("phase"@).text_or("Pending"@)),
        ).plus(Tree::String(spec.at("volumeName"@).text_or_empty())).plus(
            Tree::String(status.at("capacity"@).at("storage"@).text_or_empty()),
        ).plus(Tree::String(mode_list(spec.at("accessModes"@)))).plus(
            Tree::String(spec.at("storageClassName"@).text_or_empty()),
        ).plus(age),
        Printer::Volumes => no_items().plus(name).plus(
            Tree::String(spec.at("capacity"@).at("storage"@).text_or_empty()),
        ).plus(Tree::String(mode_list(spec.at("accessModes"@)))).plus(
            Tree::String(spec.at("persistentVolumeReclaimPolicy"@).text_or("Retain"@)),
        ).plus(Tree::String(status.at("phase"@).text_or("Available"@))).plus(
            Tree::String(claim_of(obj)),
        ).plus(Tree::String(spec.at("storageClassName"@).text_or_empty())).plus(age),
        Printer::Pods => no_items().plus(name).plus(
            Tree::String(
                dec(ready_count(container_statuses(obj))) + "/"@ + dec(container_count(obj)),
            ),
        ).plus(Tree::String(status.at("phase"@).text_or_empty())).plus(
            Tree::String(dec_int(restart_sum(container_statuses(obj)))),
        ).plus(age).plus(Tree::String(status.at("podIP"@).text_or("<none>"@))).plus(
            Tree::String(spec.at("nodeName"@).text_or("<none>"@)),
        ),
        Printer::Nodes => no_items().plus(name).plus(
            Tree::String(node_status(status.at("conditions"@).items_or_none())),
        ).plus(Tree::String(node_roles(obj.at("metadata"@).at("labels"@)))).plus(age).plus(
            Tree::String(status.at("nodeInfo"@).at("kubeletVersion"@).text_or_empty()),
        ),
        Printer::Namespaces => no_items().plus(name).plus(
            Tree::String(status.at("phase"@).text_or("Active"@)),
        ).plus(age),
        Printer::Plain => no_items().plus(name).plus(age),
    }
}

/// The cells of an object can be printed: the restarts of a pod add up.
pub open spec fn printable(p: Printer, obj: Tree) -> bool {
    p == Printer::Pods ==> restarts_fit(container_statuses(obj))
}

fn pod_cells(obj: &Json, now: Moment) -> (r: Json)
    requires
        printable(Printer::Pods, obj@),
    ensures
        r@ == cells_of(Printer::Pods, obj@, now),
{
    let statuses: Vec<Json> = match obj.at("status").at("containerStatuses") {
        Json::Array(a) => dup_all(a),
        _ => {
            let none: Vec<Json> = Vec::new();
            assert(trees(none@) =~= Seq::<Tree>::empty());
            none
        },
    };
    assert(trees(statuses@).len() == statuses@.len());
    let (ready, restarts) = container_numbers(&statuses);
    let total: u64 = match obj.at("spec").at("containers") {
        Json::Array(a) => {
            assert(trees(a@).len() == a@.len());
            a.len() as u64
        },
        _ => statuses.len() as u64,
    };
    let of_total = format_u64(total);
    let ready_text = format_u64(ready).concat("/").concat(of_total.as_str());
    Json::list().and(name_cell(obj)).and(Json::String(ready_text)).and(
        Json::text(obj.at("status").at("phase").str_or_empty()),
    ).and(Json::String(format_i64(restarts))).and(age_cell(obj, now)).and(
        Json::text(obj.at("status").at("podIP").str_or("<none>")),
    ).and(Json::text(obj.at("spec").at("nodeName").str_or("<none>")))
}

/// The row of an object.
pub fn cells(p: Printer, obj: &Json, now: Moment) -> (r: Json)
    requires
        printable(p, obj@),
    ensures
        r@ == cells_of(p, obj@, now),
{
    let spec = obj.at("spec");
    let status = obj.at("status");
    match p {
        Printer::Claims => Json::list().and(name_cell(obj)).and(
            Json::text(status.at("phase").str_or("Pending")),
        ).and(Json::text(spec.at("volumeName").str_or_empty())).and(
            Json::text(status.at("capacity").at("storage").str_or_empty()),
        ).and(Json::String(modes(spec.at("accessModes")))).and(
            Json::text(spec.at("storageClassName").str_or_empty()),
        ).and(age_cell(obj, now)),
        Printer::Volumes => Json::list().and(name_cell(obj)).and(
            Json::text(spec.at("capacity").at("storage").str_or_empty()),
        ).and(Json::String(modes(spec.at("accessModes")))).and(
            Json::text(spec.at("persistentVolumeReclaimPolicy").str_or("Retain")),
        ).and(Json::text(status.at("phase").str_or("Available"))).and(
            Json::String(claim_text(obj)),
        ).and(Json::text(spec.at("storageClassName").str_or_empty())).and(age_cell(obj, now)),
        Printer::Pods => pod_cells(obj, now),
        Printer::Nodes => Json::list().and(name_cell(obj)).and(
            Json::text(node_status_text(status.at("conditions"))),
        ).and(Json::String(node_roles_text(obj.at("metadata").at("labels")))).and(
            age_cell(obj, now),
        ).and(Json::text(status.at("nodeInfo").at("kubeletVersion").str_or_empty())),
        Printer::Namespaces => Json::list().and(name_cell(obj)).and(
            Json::text(status.at("phase").str_or("Active")),
        ).and(age_cell(obj, now)),
        Printer::Plain => Json::list().and(name_cell(obj)).and(age_cell(obj, now)),
    }
}

// ---------------------------------------------------------------------------
// Paths of printer columns
// ---------------------------------------------------------------------------

/// What the indices of a path segment lead to, as `0]` behind a bracket.
pub open spec fn indexed(t: Tree, pieces: Seq<Seq<char>>) -> Option<Tree>
    decreases pieces.len(),
{
    if pieces.len() == 0 {
        Some(t)
    } else {
        match indexed(t, pieces.drop_last()) {
            Some(Tree::Array(a)) => match unsigned(
                drop_back(pieces.last(), ']'),
                usize::MAX as nat,
            ) {
                Some(n) => if n < a.len() {
                    Some(a[n as int])
                } else {
                    None
                },
                None => None,
            },
            _ => None,
        }
    }
}

/// What one segment of a path leads to: a field, then indices.
pub open spec fn segment_of(t: Tree, seg: Seq<char>) -> Option<Tree> {
    let (field, rest) = match find_from(seg, "["@, 0) {
        Some(i) => (seg.take(i), seg.skip(i)),
        None => (seg, Seq::empty()),
    };
    let held = if field.len() > 0 {
        t.get(field)
    } else {
        Some(t)
    };
    match held {
        Some(u) => indexed(u, nonempty(split(rest, '['))),
        None => None,
    }
}

/// What the segments of a path lead to.
pub open spec fn along(t: Tree, segments: Seq<Seq<char>>) -> Option<Tree>
    decreases segments.len(),
{
    if segments.len() == 0 {
        Some(t)
    } else {
        match along(t, segments.drop_last()) {
            Some(u) => if segments.last().len() == 0 {
                Some(u)
            } else {
                segment_of(u, segments.last())
            },
            None => None,
        }
    }
}

/// What the path of a printer column leads to: dotted fields and indices.
pub open spec fn at_path(t: Tree, path: Seq<char>) -> Option<Tree> {
    along(t, split(drop_front(path, '.'), '.'))
}

proof fn lemma_indexed_stops(t: Tree, pieces: Seq<Seq<char>>, n: int)
    requires
        0 <= n <= pieces.len(),
        indexed(t, pieces.take(n)) is None,
    ensures
        indexed(t, pieces) is None,
    decreases pieces.len() - n,
{
    if n < pieces.len() {
        assert(pieces.take(n + 1).drop_last() =~= pieces.take(n));
        lemma_indexed_stops(t, pieces, n + 1);
    } else {
        assert(pieces.take(n) =~= pieces);
    }
}

proof fn lemma_along_stops(t: Tree, segments: Seq<Seq<char>>, n: int)
    requires
        0 <= n <= segments.len(),
        along(t, segments.take(n)) is None,
    ensures
        along(t, segments) is None,
    decreases segments.len() - n,
{
    if n < segments.len() {
        assert(segments.take(n + 1).drop_last() =~= segments.take(n));
        lemma_along_stops(t, segments, n + 1);
    } else {
        assert(segments.take(n) =~= segments);
    }
}

fn index_into<'a>(v: &'a Json, pieces: &Vec<String>) -> (r: Option<&'a Json>)
    ensures
        opt_tree(r) == indexed(v@, texts(pieces@)),
{
    let ghost ps = texts(pieces@);
    let mut cur = v;
    let mut i: usize = 0;
    assert(ps.take(0) =~= Seq::<Seq<char>>::empty());
    while i < pieces.len()
        invariant
            i <= pieces.len(),
            ps == texts(pieces@),
            indexed(v@, ps.take(i as int)) == Some(cur@),
        decreases pieces.len() - i,
    {
        proof {
            assert(ps.take(i + 1).drop_last() =~= ps.take(i as int));
            assert(ps.take(i + 1).last() == pieces@[i as int]@);
        }
        let step: Option<&'a Json> = match cur {
            Json::Array(a) => {
                assert(trees(a@).len() == a@.len());
                match parse_unsigned(trim_end_char(pieces[i].as_str(), ']'), usize::MAX as u64) {
                    Some(n) => if n < a.len() as u64 {
                        Some(&a[n as usize])
                    } else {
                        None
                    },
                    None => None,
                }
            },
            _ => None,
        };
        assert(opt_tree(step) == indexed(v@, ps.take(i + 1)));
        match step {
            Some(u) => {
                cur = u;
            },
            None => {
                proof {
                    lemma_indexed_stops(v@, ps, i + 1);
                }
                return None;
            },
        }
        i = i + 1;
    }
    assert(ps.take(i as int) =~= ps);
    Some(cur)
}

fn follow_segment<'a>(v: &'a Json, seg: &str) -> (r: Option<&'a Json>)
    ensures
        opt_tree(r) == segment_of(v@, seg@),
{
    let n: usize = seg.unicode_len();
    let (field, rest): (&str, &str) = match find(seg, "[") {
        Some(i) => {
            let f = seg.substring_char(0, i);
            let r = seg.substring_char(i, n);
            assert(f@ =~= seg@.take(i as int));
            assert(r@ =~= seg@.skip(i as int));
            (f, r)
        },
        None => {
            proof {
                reveal_strlit("");
                assert(""@ =~= Seq::<char>::empty());
            }
            (seg, "")
        },
    };
    let held = if field.unicode_len() > 0 {
        v.get(field)
    } else {
        Some(v)
    };
    match held {
        Some(u) => {
            let pieces = keep_nonempty(split_on(rest, '['));
            index_into(u, &pieces)
        },
        None => None,
    }
}

/// Follows the path of a printer column: a leading dot, dotted field names, and
/// numeric indices. A path that leads nowhere is none.
pub fn json_path<'a>(obj: &'a Json, path: &str) -> (r: Option<&'a Json>)
    ensures
        opt_tree(r) == at_path(obj@, path@),
{
    let segments = split_on(trim_start_char(path, '.'), '.');
    let ghost ss = texts(segments@);
    let mut cur = obj;
    let mut i: usize = 0;
    assert(ss.take(0) =~= Seq::<Seq<char>>::empty());
    while i < segments.len()
        invariant
            i <= segments.len(),
            ss == texts(segments@),
            ss == split(drop_front(path@, '.'), '.'),
            along(obj@, ss.take(i as int)) == Some(cur@),
        decreases segments.len() - i,
    {
        proof {
            assert(ss.take(i + 1).drop_last() =~= ss.take(i as int));
            assert(ss.take(i + 1).last() == segments@[i as int]@);
        }
        if segments[i].as_str().unicode_len() > 0 {
            match follow_segment(cur, segments[i].as_str()) {
                Some(u) => {
                    cur = u;
                },
                None => {
                    proof {
                        lemma_along_stops(obj@, ss, i + 1);
                    }
                    return None;
                },
            }
        }
        i = i + 1;
    }
    assert(ss.take(i as int) =~= ss);
    Some(cur)
}

// ---------------------------------------------------------------------------
// Tables of custom resources
// ---------------------------------------------------------------------------

/// The path of a declared column, where the column has a name and a path.
pub open spec fn column_path(c: Tree) -> Option<Seq<char>> {
    match (c.at("name"@).text(), c.at("jsonPath"@).text(), c.at("JSONPath"@).text()) {
        (Some(_), Some(p), _) => Some(p),
        (Some(_), None, Some(p)) => Some(p),
        _ => None,
    }
}

/// The columns that a definition declares and that can be printed.
pub open spec fn usable(columns: Seq<Tree>) -> Seq<Tree>
    decreases columns.len(),
{
    if columns.len() == 0 {
        Seq::empty()
    } else {
        let rest = usable(columns.drop_last());
        if column_path(columns.last()) is Some {
            rest.push(columns.last())
        } else {
            rest
        }
    }
}

/// A declared column as a column of a table.
pub open spec fn declared_column(c: Tree) -> Tree {
    column(
        c.at("name"@).text_or_empty(),
        c.at("type"@).text_or("string"@),
        match c.at("priority"@).integer() {
            Some(p) => p,
            None => 0,
        },
        c.at("description"@).text_or_empty(),
    )
}

/// The columns of a custom resource: the name, what its definition declares, and
/// the age.
pub open spec fn crd_columns(columns: Seq<Tree>) -> Seq<Tree> {
    (seq![text_column("Name"@, "Name of the object"@)] + usable(columns).map_values(
        |c: Tree| declared_column(c),
    )).push(text_column("Age"@, "Time since creation"@))
}

/// The cell of a declared column: what its path leads to, or an empty text.
pub open spec fn declared_cell(obj: Tree, c: Tree) -> Tree {
    match at_path(obj, column_path(c)->0) {
        Some(v) => v,
        None => str_tree(""),
    }
}

/// The row of a custom resource.
pub open spec fn crd_cells(obj: Tree, columns: Seq<Tree>, now: Moment) -> Seq<Tree> {
    (seq![Tree::String(name_of(obj))] + usable(columns).map_values(
        |c: Tree| declared_cell(obj, c),
    )).push(Tree::String(age_of(obj, now)))
}

/// A row of a table: its cells, and the whole object.
pub open spec fn row_tree(cells: Tree, obj: Tree) -> Tree {
    Tree::Object(map!["cells"@ => cells, "object"@ => obj])
}

/// The objects of a list; a single object is a list of one.
pub open spec fn objects_of(body: Tree) -> Seq<Tree> {
    match body.at("items"@) {
        Tree::Array(a) => a,
        _ => seq![body],
    }
}

/// A table.
pub open spec fn table_tree(metadata: Tree, columns: Tree, rows: Seq<Tree>) -> Tree {
    Tree::Object(
        map![
            "kind"@ => str_tree("Table"),
            "apiVersion"@ => str_tree("meta.k8s.io/v1"),
            "metadata"@ => metadata,
            "columnDefinitions"@ => columns,
            "rows"@ => Tree::Array(rows),
        ],
    )
}

/// The table of a list of custom resources, by the columns of their definition.
pub open spec fn crd_table(body: Tree, columns: Seq<Tree>, now: Moment) -> Tree {
    table_tree(
        match body.get("metadata"@) {
            Some(m) => m,
            None => empty_object(),
        },
        Tree::Array(crd_columns(columns)),
        objects_of(body).map_values(
            |o: Tree| row_tree(Tree::Array(crd_cells(o, columns, now)), o),
        ),
    )
}

fn table(metadata: Json, columns: Json, rows: Vec<Json>) -> (r: Json)
    ensures
        r@ == table_tree(metadata@, columns@, trees(rows@)),
{
    Json::object().with("kind", Json::text("Table")).with(
        "apiVersion",
        Json::text("meta.k8s.io/v1"),
    ).with("metadata", metadata).with("columnDefinitions", columns).with(
        "rows",
        Json::Array(rows),
    )
}

fn row(cells: Json, obj: &Json) -> (r: Json)
    ensures
        r@ == row_tree(cells@, obj@),
{
    Json::object().with("cells", cells).with("object", obj.dup())
}

fn objects(body: &Json) -> (r: Vec<Json>)
    ensures
        trees(r@) == objects_of(body@),
        r@.len() == objects_of(body@).len(),
{
    match body.at("items") {
        Json::Array(a) => dup_all(a),
        _ => {
            let mut one: Vec<Json> = Vec::new();
            one.push(body.dup());
            assert(trees(one@) =~= seq![body@]);
            one
        },
    }
}

fn path_of_column<'a>(c: &'a Json) -> (r: Option<&'a str>)
    ensures
        opt_str(r) == column_path(c@),
{
    if c.at("name").as_str().is_none() {
        return None;
    }
    match c.at("jsonPath").as_str() {
        Some(p) => Some(p),
        None => c.at("JSONPath").as_str(),
    }
}

fn usable_columns(columns: &Vec<Json>) -> (r: Vec<Json>)
    ensures
        trees(r@) == usable(trees(columns@)),
{
    let ghost ts = trees(columns@);
    let mut out: Vec<Json> = Vec::new();
    let mut i: usize = 0;
    assert(trees(out@) =~= usable(ts.take(0)));
    while i < columns.len()
        invariant
            i <= columns.len(),
            ts == trees(columns@),
            trees(out@) == usable(ts.take(i as int)),
        decreases columns.len() - i,
    {
        let c = &columns[i];
        proof {
            assert(ts.take(i + 1).drop_last() =~= ts.take(i as int));
            assert(ts.take(i + 1).last() == c@);
        }
        if path_of_column(c).is_some() {
            let d = c.dup();
            proof {
                lemma_trees_push(out@, d);
            }
            out.push(d);
        }
        i = i + 1;
    }
    assert(ts.take(i as int) =~= ts);
    out
}

proof fn lemma_usable_have_paths(columns: Seq<Tree>)
    ensures
        forall|i: int|
            0 <= i < usable(columns).len() ==> column_path(#[trigger] usable(columns)[i]) is Some,
    decreases columns.len(),
{
    if columns.len() > 0 {
        lemma_usable_have_paths(columns.drop_last());
    }
}

/// The columns of a custom resource, by its definition.
pub fn crd_printer(columns: &Vec<Json>) -> (r: Vec<Json>)
    ensures
        trees(r@) == crd_columns(trees(columns@)),
{
    let cols = usable_columns(columns);
    let ghost us = usable(trees(columns@));
    let mut out: Vec<Json> = Vec::new();
    out.push(text_col("Name", "Name of the object"));
    let mut i: usize = 0;
    while i < cols.len()
        invariant
            i <= cols.len(),
            us == trees(cols@),
            out@.len() == i + 1,
            out@[0]@ == text_column("Name"@, "Name of the object"@),
            forall|j: int| 1 <= j < i + 1 ==> (#[trigger] out@[j])@ == declared_column(us[j - 1]),
        decreases cols.len() - i,
    {
        let c = &cols[i];
        let priority: i64 = match c.at("priority").as_i64() {
            Some(p) => p,
            None => 0,
        };
        out.push(
            col(
                c.at("name").str_or_empty(),
                c.at("type").str_or("string"),
                priority,
                c.at("description").str_or_empty(),
            ),
        );
        assert(us[i as int] == c@);
        i = i + 1;
    }
    out.push(text_col("Age", "Time since creation"));
    assert(trees(out@) =~= crd_columns(trees(columns@)));
    out
}

fn crd_row(obj: &Json, cols: &Vec<Json>, now: Moment, Ghost(columns): Ghost<Seq<Tree>>) -> (r: Json)
    requires
        trees(cols@) == usable(columns),
    ensures
        r@ == row_tree(Tree::Array(crd_cells(obj@, columns, now)), obj@),
{
    let ghost us = usable(columns);
    proof {
        lemma_usable_have_paths(columns);
    }
    let mut out: Vec<Json> = Vec::new();
    out.push(name_cell(obj));
    let mut i: usize = 0;
    while i < cols.len()
        invariant
            i <= cols.len(),
            us == trees(cols@),
            forall|k: int| 0 <= k < us.len() ==> column_path(#[trigger] us[k]) is Some,
            out@.len() == i + 1,
            out@[0]@ == Tree::String(name_of(obj@)),
            forall|j: int|
                1 <= j < i + 1 ==> (#[trigger] out@[j])@ == declared_cell(obj@, us[j - 1]),
        decreases cols.len() - i,
    {
        assert(us[i as int] == cols@[i as int]@);
        let cell = match path_of_column(&cols[i]) {
            Some(p) => match json_path(obj, p) {
                Some(v) => v.dup(),
                None => Json::text(""),
            },
            None => Json::text(""),
        };
        out.push(cell);
        i = i + 1;
    }
    out.push(age_cell(obj, now));
    assert(trees(out@) =~= crd_cells(obj@, columns, now));
    row(Json::Array(out), obj)
}

/// The table of a list of custom resources at `now`.
pub fn to_table_crd_at(body: &Json, columns: &Vec<Json>, now: Moment) -> (r: Json)
    ensures
        r@ == crd_table(body@, trees(columns@), now),
{
    let ghost declared = trees(columns@);
    let cols = usable_columns(columns);
    let items = objects(body);
    let mut rows: Vec<Json> = Vec::new();
    let mut i: usize = 0;
    while i < items.len()
        invariant
            i <= items.len(),
            trees(cols@) == usable(declared),
            rows@.len() == i,
            forall|j: int|
                0 <= j < i ==> (#[trigger] rows@[j])@ == row_tree(
                    Tree::Array(crd_cells(items@[j]@, declared, now)),
                    items@[j]@,
                ),
        decreases items.len() - i,
    {
        rows.push(crd_row(&items[i], &cols, now, Ghost(declared)));
        i = i + 1;
    }
    assert(trees(rows@) =~= objects_of(body@).map_values(
        |o: Tree| row_tree(Tree::Array(crd_cells(o, declared, now)), o),
    ));
    let metadata = match body.get("metadata") {
        Some(m) => m.dup(),
        None => Json::object(),
    };
    table(metadata, Json::Array(crd_printer(columns)), rows)
}

/// A table is the table of a list of custom resources at some time.
pub open spec fn crd_table_somewhen(r: Tree, body: Tree, columns: Seq<Tree>) -> bool {
    exists|now: Moment| r == #[trigger] crd_table(body, columns, now)
}

/// The table of a list of custom resources, by the columns that their
/// definition declares.
pub fn to_table_crd(body: &Json, columns: &Vec<Json>) -> (r: Json)
    ensures
        crd_table_somewhen(r@, body@, trees(columns@)),
{
    let now = now_moment();
    to_table_crd_at(body, columns, now)
}

// ---------------------------------------------------------------------------
// Tables of built-in resources
// ---------------------------------------------------------------------------

/// The table of a list at `now`.
pub open spec fn resource_table(resource: Seq<char>, body: Tree, now: Moment) -> Tree {
    let p = printer_of(resource);
    table_tree(
        Tree::Object(
            map![
                "resourceVersion"@ => Tree::String(
                    body.at("metadata"@).at("resourceVersion"@).text_or_empty(),
                ),
            ],
        ),
        columns_of(p),
        objects_of(body).map_values(|o: Tree| row_tree(cells_of(p, o, now), o)),
    )
}

/// Every object of a list can be printed.
pub open spec fn all_printable(resource: Seq<char>, body: Tree) -> bool {
    forall|i: int|
        0 <= i < objects_of(body).len() ==> printable(
            printer_of(resource),
            #[trigger] objects_of(body)[i],
        )
}

/// The table of a list, or of a single object, at `now`.
pub fn to_table_at(resource: &str, body: &Json, now: Moment) -> (r: Json)
    requires
        all_printable(resource@, body@),
    ensures
        r@ == resource_table(resource@, body@, now),
{
    let p = printer(resource);
    let items = objects(body);
    let ghost os = objects_of(body@);
    let mut rows: Vec<Json> = Vec::new();
    let mut i: usize = 0;
    while i < items.len()
        invariant
            i <= items.len(),
            p == printer_of(resource@),
            os == objects_of(body@),
            os == trees(items@),
            all_printable(resource@, body@),
            rows@.len() == i,
            forall|j: int|
                0 <= j < i ==> (#[trigger] rows@[j])@ == row_tree(
                    cells_of(p, items@[j]@, now),
                    items@[j]@,
                ),
        decreases items.len() - i,
    {
        assert(os[i as int] == items@[i as int]@);
        let c = cells(p, &items[i], now);
        rows.push(row(c, &items[i]));
        i = i + 1;
    }
    assert(trees(rows@) =~= os.map_values(|o: Tree| row_tree(cells_of(p, o, now), o)));
    let metadata = Json::object().with(
        "resourceVersion",
        Json::text(body.at("metadata").at("resourceVersion").str_or_empty()),
    );
    table(metadata, columns(p), rows)
}

/// A table is the table of a list at some time.
pub open spec fn table_somewhen(r: Tree, resource: Seq<char>, body: Tree) -> bool {
    exists|now: Moment| r == #[trigger] resource_table(resource, body, now)
}

/// The table of a list, or of a single object.
pub fn to_table(resource: &str, body: &Json) -> (r: Json)
    requires
        all_printable(resource@, body@),
    ensures
        table_somewhen(r@, resource@, body@),
{
    let now = now_moment();
    to_table_at(resource, body, now)
}

fn restarts_add_up(statuses: &Vec<Json>) -> (r: bool)
    ensures
        r == restarts_fit(trees(statuses@)),
{
    let ghost ts = trees(statuses@);
    let mut sum: i64 = 0;
    let mut i: usize = 0;
    assert(ts.take(0) =~= Seq::<Tree>::empty());
    while i < statuses.len()
        invariant
            i <= statuses.len(),
            ts == trees(statuses@),
            sum == restart_sum(ts.take(i as int)),
            forall|n: int|
                0 <= n <= i ==> i64::MIN <= #[trigger] restart_sum(ts.take(n)) <= i64::MAX,
        decreases statuses.len() - i,
    {
        let s = &statuses[i];
        proof {
            assert(ts.take(i + 1).drop_last() =~= ts.take(i as int));
            assert(ts.take(i + 1).last() == s@);
        }
        let n: i64 = match s.at("restartCount").as_i64() {
            Some(n) => n,
            None => 0,
        };
        match sum.checked_add(n) {
            Some(m) => {
                sum = m;
            },
            None => {
                assert(!(i64::MIN <= restart_sum(ts.take(i + 1)) <= i64::MAX));
                return false;
            },
        }
        i = i + 1;
    }
    true
}

/// Can every object of a list be printed? Only pods whose restarts do not add
/// up to an integer of the machine cannot.
pub fn can_print(resource: &str, body: &Json) -> (r: bool)
    ensures
        r == all_printable(resource@, body@),
{
    if printer(resource) != Printer::Pods {
        return true;
    }
    let items = objects(body);
    let ghost os = objects_of(body@);
    let mut i: usize = 0;
    while i < items.len()
        invariant
            i <= items.len(),
            printer_of(resource@) == Printer::Pods,
            os == objects_of(body@),
            os == trees(items@),
            forall|j: int| 0 <= j < i ==> printable(Printer::Pods, #[trigger] os[j]),
        decreases items.len() - i,
    {
        assert(os[i as int] == items@[i as int]@);
        match items[i].at("status").at("containerStatuses") {
            Json::Array(a) => {
                if !restarts_add_up(a) {
                    assert(!printable(Printer::Pods, objects_of(body@)[i as int]));
                    return false;
                }
            },
            _ => {
                assert(container_statuses(os[i as int]) =~= Seq::<Tree>::empty());
                assert forall|n: int| 0 <= n <= 0 implies i64::MIN <= #[trigger] restart_sum(
                    Seq::<Tree>::empty().take(n),
                ) <= i64::MAX by {
                    assert(Seq::<Tree>::empty().take(n) =~= Seq::<Tree>::empty());
                }
            },
        }
        i = i + 1;
    }
    true
}

// ---------------------------------------------------------------------------
// What tables promise
// ---------------------------------------------------------------------------

/// A table has a row for each object, and the whole object rides in its row.
pub proof fn law_the_object_rides_along(resource: Seq<char>, body: Tree, now: Moment, i: int)
    requires
        0 <= i < objects_of(body).len(),
    ensures
        ({
            let rows = resource_table(resource, body, now).at("rows"@).items_or_none();
            rows.len() == objects_of(body).len() && rows[i].at("object"@) == objects_of(body)[i]
        }),
{
    lemma_table_keys();
}

/// The table of a custom resource has a row for each object, and the whole
/// object rides in its row.
pub proof fn law_the_custom_object_rides_along(
    body: Tree,
    columns: Seq<Tree>,
    now: Moment,
    i: int,
)
    requires
        0 <= i < objects_of(body).len(),
    ensures
        ({
            let rows = crd_table(body, columns, now).at("rows"@).items_or_none();
            rows.len() == objects_of(body).len() && rows[i].at("object"@) == objects_of(body)[i]
        }),
{
    lemma_table_keys();
}

proof fn lemma_table_keys()
    ensures
        "rows"@ != "cells"@,
        "object"@ != "cells"@,
{
    reveal_strlit("rows");
    reveal_strlit("cells");
    reveal_strlit("object");
    assert("rows"@.len() == 4);
    assert("cells"@.len() == 5);
    assert("object"@.len() == 6);
}

/// A row has a cell for each column.
pub proof fn law_a_cell_for_each_column(p: Printer, obj: Tree, now: Moment)
    ensures
        cells_of(p, obj, now).items_or_none().len() == columns_of(p).items_or_none().len(),
{
}

/// An object that says nothing of when it was created has no age: the cell says so.
pub proof fn law_without_a_time_the_age_is_unknown(obj: Tree, now: Moment)
    requires
        obj.at("metadata"@).at("creationTimestamp"@).text_or_empty().len() == 0,
    ensures
        age_of(obj, now) == "<unknown>"@,
{
    let then = obj.at("metadata"@).at("creationTimestamp"@).text_or_empty();
    assert(then =~= Seq::<char>::empty());
    assert(encode_utf8(then).len() == 0);
}

/// A row of a custom resource has a cell for each column.
pub proof fn law_a_custom_cell_for_each_column(obj: Tree, columns: Seq<Tree>, now: Moment)
    ensures
        crd_cells(obj, columns, now).len() == crd_columns(columns).len(),
{
}

/// The statuses of the containers that say that they are ready.
pub open spec fn ready_statuses(statuses: Seq<Tree>) -> Seq<Tree> {
    statuses.filter(|s: Tree| s.at("ready"@) == Tree::Bool(true))
}

proof fn lemma_ready_count(statuses: Seq<Tree>)
    ensures
        ready_count(statuses) == ready_statuses(statuses).len(),
        ready_count(statuses) <= statuses.len(),
    decreases statuses.len(),
{
    reveal(Seq::filter);
    if statuses.len() > 0 {
        lemma_ready_count(statuses.drop_last());
    }
}

/// The Ready cell of a pod counts the containers whose status says `ready: true`, out of
/// all its containers: none where every status says false, all where every one says true.
pub proof fn law_a_ready_container_says_so(obj: Tree, now: Moment)
    ensures
        ({
            let statuses = obj.at("status"@).at("containerStatuses"@).items_or_none();
            let total = match obj.at("spec"@).at("containers"@) {
                Tree::Array(c) => c.len(),
                _ => statuses.len(),
            };
            let row = cells_of(Printer::Pods, obj, now).items_or_none();
            &&& row[1] == Tree::String(
                dec(ready_statuses(statuses).len()) + "/"@ + dec(total),
            )
            &&& (forall|i: int|
                0 <= i < statuses.len() ==> (#[trigger] statuses[i]).at("ready"@) == Tree::Bool(
                    false,
                )) ==> row[1] == Tree::String(dec(0) + "/"@ + dec(total))
            &&& (forall|i: int|
                0 <= i < statuses.len() ==> (#[trigger] statuses[i]).at("ready"@) == Tree::Bool(
                    true,
                )) ==> row[1] == Tree::String(dec(statuses.len()) + "/"@ + dec(total))
        }),
{
    let statuses = obj.at("status"@).at("containerStatuses"@).items_or_none();
    lemma_ready_count(statuses);
    lemma_all_or_none_ready(statuses);
}

proof fn lemma_all_or_none_ready(statuses: Seq<Tree>)
    ensures
        (forall|i: int|
            0 <= i < statuses.len() ==> (#[trigger] statuses[i]).at("ready"@) == Tree::Bool(false))
            ==> ready_count(statuses) == 0,
        (forall|i: int|
            0 <= i < statuses.len() ==> (#[trigger] statuses[i]).at("ready"@) == Tree::Bool(true))
            ==> ready_count(statuses) == statuses.len(),
    decreases statuses.len(),
{
    if statuses.len() > 0 {
        let rest = statuses.drop_last();
        lemma_all_or_none_ready(rest);
        assert forall|i: int| 0 <= i < rest.len() implies rest[i] == #[trigger] statuses[i] by {}
        assert(statuses.last() == statuses[statuses.len() - 1]);
        if forall|i: int|
            0 <= i < statuses.len() ==> (#[trigger] statuses[i]).at("ready"@) == Tree::Bool(false) {
            assert forall|i: int| 0 <= i < rest.len() implies (#[trigger] rest[i]).at("ready"@)
                == Tree::Bool(false) by {
                assert(statuses[i].at("ready"@) == Tree::Bool(false));
            }
        }
        if forall|i: int|
            0 <= i < statuses.len() ==> (#[trigger] statuses[i]).at("ready"@) == Tree::Bool(true) {
            assert forall|i: int| 0 <= i < rest.len() implies (#[trigger] rest[i]).at("ready"@)
                == Tree::Bool(true) by {
                assert(statuses[i].at("ready"@) == Tree::Bool(true));
            }
        }
    }
}

/// The restarts of a pod are those of all its containers: of one more container there are
/// as many more as it says, and none where it says nothing.
pub proof fn law_restarts_add_up(statuses: Seq<Tree>, status: Tree, n: int)
    ensures
        restart_sum(Seq::<Tree>::empty()) == 0,
        status.at("restartCount"@).integer() == Some(n) ==> restart_sum(statuses.push(status))
            == restart_sum(statuses) + n,
        status.at("restartCount"@).integer() is None ==> restart_sum(statuses.push(status))
            == restart_sum(statuses),
{
    assert(statuses.push(status).drop_last() =~= statuses);
}

/// An age is told in its largest unit, and what is left of it is dropped.
pub proof fn law_an_age_in_its_largest_unit(n: int, rest: int)
    ensures
        n < 60 ==> span(n) == dec_int(n) + "s"@,
        1 <= n < 60 && 0 <= rest < 60 ==> span(60 * n + rest) == dec_int(n) + "m"@,
        1 <= n < 24 && 0 <= rest < 3600 ==> span(3600 * n + rest) == dec_int(n) + "h"@,
        1 <= n && 0 <= rest < 86400 ==> span(86400 * n + rest) == dec_int(n) + "d"@,
{
    if 1 <= n && 0 <= rest < 86400 {
        vstd::arithmetic::div_mod::lemma_fundamental_div_mod_converse(
            86400 * n + rest,
            86400,
            n,
            rest,
        );
    }
    if 1 <= n && 0 <= rest < 3600 {
        vstd::arithmetic::div_mod::lemma_fundamental_div_mod_converse(
            3600 * n + rest,
            3600,
            n,
            rest,
        );
    }
    if 1 <= n && 0 <= rest < 60 {
        vstd::arithmetic::div_mod::lemma_fundamental_div_mod_converse(60 * n + rest, 60, n, rest);
    }
}

/// The age of an object is the time since it was made, and none where that is still to come.
pub proof fn law_an_age_is_the_time_since(obj: Tree, then: Seq<char>, at: (i64, u32), now: Moment)
    requires
        obj.at("metadata"@).at("creationTimestamp"@) == Tree::String(then),
        encode_utf8(then).len() >= 19,
        rfc3339(then) == Some(at),
        at.1 < 1000000000,
        now.nanos < 1000000000,
        -8334601228800 <= now.secs <= 8210266876799,
    ensures
        at.1 <= now.nanos && at.0 <= now.secs ==> age_of(obj, now) == span(now.secs - at.0),
        at.1 > now.nanos && at.0 < now.secs ==> age_of(obj, now) == span(now.secs - at.0 - 1),
        at.0 > now.secs ==> age_of(obj, now) == span(0),
{
    let nanos = (now.secs - at.0) * 1000000000 + now.nanos - at.1;
    if at.1 <= now.nanos && at.0 <= now.secs {
        vstd::arithmetic::div_mod::lemma_fundamental_div_mod_converse(
            nanos,
            1000000000,
            now.secs - at.0,
            now.nanos - at.1,
        );
    } else if at.1 > now.nanos && at.0 < now.secs {
        vstd::arithmetic::div_mod::lemma_fundamental_div_mod_converse(
            nanos,
            1000000000,
            now.secs - at.0 - 1,
            1000000000 + now.nanos - at.1,
        );
    } else if at.0 > now.secs {
        assert(nanos < 0);
        vstd::arithmetic::div_mod::lemma_div_pos_is_pos(-nanos, 1000000000);
    }
}

/// A mode has its short name.
pub proof fn law_modes_have_short_names(mode: Seq<char>)
    ensures
        abbreviated("ReadWriteOnce"@) == "RWO"@,
        abbreviated("ReadOnlyMany"@) == "ROX"@,
        abbreviated("ReadWriteMany"@) == "RWX"@,
        abbreviated("ReadWriteOncePod"@) == "RWOP"@,
        mode != "ReadWriteOnce"@ && mode != "ReadOnlyMany"@ && mode != "ReadWriteMany"@ && mode
            != "ReadWriteOncePod"@ ==> abbreviated(mode) == mode,
{
    reveal_strlit("ReadWriteOnce");
    reveal_strlit("ReadOnlyMany");
    reveal_strlit("ReadWriteMany");
    reveal_strlit("ReadWriteOncePod");
    assert("ReadWriteOnce"@.len() == 13);
    assert("ReadOnlyMany"@.len() == 12);
    assert("ReadWriteMany"@.len() == 13);
    assert("ReadWriteOncePod"@.len() == 16);
    assert("ReadWriteOnce"@[9] == 'O');
    assert("ReadWriteMany"@[9] == 'M');
}

/// The columns of a pod: how many of its containers are ready, of how many, where it stands, how
/// often it began anew, and, for who asks for more, where it is.
pub proof fn law_what_is_told_of_a_pod(obj: Tree, now: Moment)
    ensures
        printer_of("pods"@) == Printer::Pods,
        ({
            let cs = columns_of(Printer::Pods).items_or_none();
            let c = cells_of(Printer::Pods, obj, now).items_or_none();
            let name = obj.at("metadata"@).at("name"@);
            let phase = obj.at("status"@).at("phase"@);
            let ip = obj.at("status"@).at("podIP"@);
            let node = obj.at("spec"@).at("nodeName"@);
            let statuses = obj.at("status"@).at("containerStatuses"@).items_or_none();
            &&& cs.len() == 7
            &&& c.len() == 7
            &&& cs[0].at("name"@) == str_tree("Name")
            &&& name is String ==> c[0] == name
            &&& cs[1].at("name"@) == str_tree("Ready")
            &&& obj.at("spec"@).at("containers"@) is Array ==> c[1] == Tree::String(
                dec(statuses.filter(|s: Tree| s.at("ready"@) == Tree::Bool(true)).len()) + "/"@ + dec(
                    (obj.at("spec"@).at("containers"@)->Array_0).len(),
                ),
            )
            &&& cs[2].at("name"@) == str_tree("Status")
            &&& phase is String ==> c[2] == phase
            &&& cs[3].at("name"@) == str_tree("Restarts")
            &&& c[3] == Tree::String(dec_int(restart_sum(statuses)))
            &&& cs[4].at("name"@) == str_tree("Age")
            &&& c[4] == Tree::String(age_of(obj, now))
            &&& cs[5].at("name"@) == str_tree("IP")
            &&& cs[5].at("priority"@) == Tree::Number(Numeral::PosInt(1))
            &&& ip is String ==> c[5] == ip
            &&& !(ip is String) ==> c[5] == str_tree("<none>")
            &&& cs[6].at("name"@) == str_tree("Node")
            &&& node is String ==> c[6] == node
            &&& !(node is String) ==> c[6] == str_tree("<none>")
        }),
{
    reveal_strlit("persistentvolumeclaims");
    reveal_strlit("persistentvolumes");
    reveal_strlit("pods");
    assert("persistentvolumeclaims"@.len() == 22);
    assert("persistentvolumes"@.len() == 17);
    assert("pods"@.len() == 4);
    reveal_strlit("name");
    reveal_strlit("type");
    reveal_strlit("format");
    reveal_strlit("description");
    reveal_strlit("priority");
    assert("name"@.len() == 4);
    assert("type"@.len() == 4);
    assert("format"@.len() == 6);
    assert("description"@.len() == 11);
    assert("priority"@.len() == 8);
    assert("name"@[0] == 'n');
    assert("type"@[0] == 't');
    law_a_ready_container_says_so(obj, now);
}

/// The columns of a claim and of a volume.
pub proof fn law_what_is_told_of_storage(obj: Tree, now: Moment)
    ensures
        printer_of("persistentvolumeclaims"@) == Printer::Claims,
        printer_of("persistentvolumes"@) == Printer::Volumes,
        ({
            let cs = columns_of(Printer::Claims).items_or_none();
            let c = cells_of(Printer::Claims, obj, now).items_or_none();
            let phase = obj.at("status"@).at("phase"@);
            &&& cs.len() == 7
            &&& c.len() == 7
            &&& cs[1].at("name"@) == str_tree("Status")
            &&& phase is String ==> c[1] == phase
            &&& !(phase is String) ==> c[1] == str_tree("Pending")
            &&& cs[2].at("name"@) == str_tree("Volume")
            &&& obj.at("spec"@).at("volumeName"@) is String ==> c[2] == obj.at("spec"@).at(
                "volumeName"@,
            )
            &&& cs[3].at("name"@) == str_tree("Capacity")
            &&& obj.at("status"@).at("capacity"@).at("storage"@) is String ==> c[3] == obj.at(
                "status"@,
            ).at("capacity"@).at("storage"@)
            &&& cs[4].at("name"@) == str_tree("Access Modes")
            &&& c[4] == Tree::String(mode_list(obj.at("spec"@).at("accessModes"@)))
            &&& cs[5].at("name"@) == str_tree("Storageclass")
            &&& obj.at("spec"@).at("storageClassName"@) is String ==> c[5] == obj.at("spec"@).at(
                "storageClassName"@,
            )
            &&& cs[6].at("name"@) == str_tree("Age")
            &&& c[6] == Tree::String(age_of(obj, now))
        }),
        ({
            let cs = columns_of(Printer::Volumes).items_or_none();
            let c = cells_of(Printer::Volumes, obj, now).items_or_none();
            let phase = obj.at("status"@).at("phase"@);
            let policy = obj.at("spec"@).at("persistentVolumeReclaimPolicy"@);
            let claim = obj.at("spec"@).at("claimRef"@);
            &&& cs.len() == 8
            &&& c.len() == 8
            &&& cs[1].at("name"@) == str_tree("Capacity")
            &&& obj.at("spec"@).at("capacity"@).at("storage"@) is String ==> c[1] == obj.at(
                "spec"@,
            ).at("capacity"@).at("storage"@)
            &&& cs[2].at("name"@) == str_tree("Access Modes")
            &&& c[2] == Tree::String(mode_list(obj.at("spec"@).at("accessModes"@)))
            &&& cs[3].at("name"@) == str_tree("Reclaim Policy")
            &&& policy is String ==> c[3] == policy
            &&& !(policy is String) ==> c[3] == str_tree("Retain")
            &&& cs[4].at("name"@) == str_tree("Status")
            &&& phase is String ==> c[4] == phase
            &&& !(phase is String) ==> c[4] == str_tree("Available")
            &&& cs[5].at("name"@) == str_tree("Claim")
            &&& claim.at("namespace"@) is String && claim.at("name"@) is String ==> c[5]
                == Tree::String(
                claim.at("namespace"@)->String_0 + "/"@ + claim.at("name"@)->String_0,
            )
            &&& claim is Null ==> c[5] == Tree::String(Seq::empty())
            &&& cs[6].at("name"@) == str_tree("Storageclass")
            &&& obj.at("spec"@).at("storageClassName"@) is String ==> c[6] == obj.at("spec"@).at(
                "storageClassName"@,
            )
            &&& cs[7].at("name"@) == str_tree("Age")
        }),
{
    reveal_strlit("persistentvolumeclaims");
    reveal_strlit("persistentvolumes");
    reveal_strlit("pods");
    assert("persistentvolumeclaims"@.len() == 22);
    assert("persistentvolumes"@.len() == 17);
    assert("pods"@.len() == 4);
    reveal_strlit("name");
    reveal_strlit("type");
    reveal_strlit("format");
    reveal_strlit("description");
    reveal_strlit("priority");
    assert("name"@.len() == 4);
    assert("type"@.len() == 4);
    assert("format"@.len() == 6);
    assert("description"@.len() == 11);
    assert("priority"@.len() == 8);
    assert("name"@[0] == 'n');
    assert("type"@[0] == 't');
}

/// The columns of a node and of a namespace.
pub proof fn law_what_is_told_of_a_node(obj: Tree, now: Moment)
    ensures
        printer_of("nodes"@) == Printer::Nodes,
        printer_of("namespaces"@) == Printer::Namespaces,
        ({
            let cs = columns_of(Printer::Nodes).items_or_none();
            let c = cells_of(Printer::Nodes, obj, now).items_or_none();
            let version = obj.at("status"@).at("nodeInfo"@).at("kubeletVersion"@);
            &&& cs.len() == 5
            &&& c.len() == 5
            &&& cs[1].at("name"@) == str_tree("Status")
            &&& c[1] == Tree::String(
                node_status(obj.at("status"@).at("conditions"@).items_or_none()),
            )
            &&& cs[2].at("name"@) == str_tree("Roles")
            &&& c[2] == Tree::String(node_roles(obj.at("metadata"@).at("labels"@)))
            &&& cs[3].at("name"@) == str_tree("Age")
            &&& c[3] == Tree::String(age_of(obj, now))
            &&& cs[4].at("name"@) == str_tree("Version")
            &&& version is String ==> c[4] == version
        }),
        ({
            let cs = columns_of(Printer::Namespaces).items_or_none();
            let c = cells_of(Printer::Namespaces, obj, now).items_or_none();
            let phase = obj.at("status"@).at("phase"@);
            &&& cs[1].at("name"@) == str_tree("Status")
            &&& phase is String ==> c[1] == phase
            &&& !(phase is String) ==> c[1] == str_tree("Active")
            &&& cs[2].at("name"@) == str_tree("Age")
            &&& c[2] == Tree::String(age_of(obj, now))
        }),
{
    reveal_strlit("persistentvolumeclaims");
    reveal_strlit("persistentvolumes");
    reveal_strlit("pods");
    reveal_strlit("nodes");
    reveal_strlit("namespaces");
    assert("persistentvolumeclaims"@.len() == 22);
    assert("persistentvolumes"@.len() == 17);
    assert("pods"@.len() == 4);
    assert("nodes"@.len() == 5);
    assert("namespaces"@.len() == 10);
    reveal_strlit("name");
    reveal_strlit("type");
    reveal_strlit("format");
    reveal_strlit("description");
    reveal_strlit("priority");
    assert("name"@.len() == 4);
    assert("type"@.len() == 4);
    assert("format"@.len() == 6);
    assert("description"@.len() == 11);
    assert("priority"@.len() == 8);
    assert("name"@[0] == 'n');
    assert("type"@[0] == 't');
}

/// A node is ready where its own condition for that says so, the first one, and unknown where it
/// has none.
pub proof fn law_a_ready_node_says_so(conditions: Seq<Tree>, i: int)
    requires
        0 <= i < conditions.len(),
        forall|k: int|
            0 <= k < i ==> (#[trigger] conditions[k]).at("type"@) != str_tree("Ready"),
    ensures
        conditions[i].at("type"@) == str_tree("Ready") ==> (node_status(conditions) == "Ready"@
            <==> conditions[i].at("status"@) == str_tree("True")),
        conditions[i].at("type"@) == str_tree("Ready") && conditions[i].at("status"@) != str_tree(
            "True",
        ) ==> node_status(conditions) == "NotReady"@,
        i == conditions.len() - 1 && conditions[i].at("type"@) != str_tree("Ready") ==> node_status(
            conditions,
        ) == "Unknown"@,
        node_status(Seq::empty()) == "Unknown"@,
    decreases conditions.len(),
{
    reveal_strlit("Ready");
    reveal_strlit("NotReady");
    reveal_strlit("Unknown");
    assert("Ready"@.len() == 5);
    assert("NotReady"@.len() == 8);
    assert("Unknown"@.len() == 7);
    if i > 0 {
        let rest = conditions.skip(1);
        assert(conditions[0].at("type"@) != str_tree("Ready"));
        assert forall|k: int| 0 <= k < i - 1 implies (#[trigger] rest[k]).at("type"@) != str_tree(
            "Ready",
        ) by {
            assert(rest[k] == conditions[k + 1]);
        }
        law_a_ready_node_says_so(rest, i - 1);
        assert(rest[i - 1] == conditions[i]);
    } else if conditions.len() == 1 {
        assert(conditions.skip(1).len() == 0);
        assert(node_status(conditions.skip(1)) == "Unknown"@);
    }
}

/// A role of a node is a label with the prefix for that.
pub proof fn law_a_role_is_a_label(keys: Seq<Seq<char>>, role: Seq<char>)
    ensures
        keys.contains("node-role.kubernetes.io/"@ + role) ==> roles_in(keys).contains(role),
        roles_in(keys).contains(role) ==> keys.contains("node-role.kubernetes.io/"@ + role),
    decreases keys.len(),
{
    let p = "node-role.kubernetes.io/"@;
    let label = p + role;
    if keys.len() > 0 {
        let rest = keys.drop_last();
        law_a_role_is_a_label(rest, role);
        let most = roles_in(rest);
        let all = roles_in(keys);
        let k = keys.last();
        assert(k == keys[keys.len() - 1]);
        assert(label.subrange(0, p.len() as int) =~= p);
        assert(label.skip(p.len() as int) =~= role);
        if keys.contains(label) {
            let i = keys.index_of(label);
            if i < rest.len() {
                assert(rest[i] == label);
                let n = most.index_of(role);
                assert(all[n] == role);
            } else {
                assert(all[most.len() as int] == role);
            }
        }
        if all.contains(role) {
            let n = all.index_of(role);
            if n < most.len() {
                assert(most[n] == role);
                let i = rest.index_of(label);
                assert(keys[i] == label);
            } else {
                assert(without_prefix(k, p) == Some(role));
                assert(k =~= label);
            }
        }
    }
}

/// A column of a custom resource is shown where it has a name and a path, and its cell is what
/// is at the path.
pub proof fn law_a_custom_column(c: Tree, columns: Seq<Tree>, obj: Tree)
    ensures
        c.at("name"@) is String && c.at("jsonPath"@) is String ==> column_path(c) == Some(
            c.at("jsonPath"@)->String_0,
        ),
        c.at("name"@) is String && !(c.at("jsonPath"@) is String) && c.at("JSONPath"@) is String
            ==> column_path(c) == Some(c.at("JSONPath"@)->String_0),
        !(c.at("name"@) is String) ==> column_path(c) is None,
        !(c.at("jsonPath"@) is String) && !(c.at("JSONPath"@) is String) ==> column_path(c) is None,
        usable(columns) == columns.filter(|x: Tree| column_path(x) is Some),
        c.at("name"@) is String ==> declared_column(c).at("name"@) == c.at("name"@),
        c.at("type"@) is String ==> declared_column(c).at("type"@) == c.at("type"@),
        !(c.at("type"@) is String) ==> declared_column(c).at("type"@) == str_tree("string"),
        c.at("description"@) is String ==> declared_column(c).at("description"@) == c.at(
            "description"@,
        ),
        forall|n: int|
            c.at("priority"@).integer() == Some(n) ==> declared_column(c).at("priority"@)
                == Tree::Number(#[trigger] Numeral::of(n)),
        column_path(c) is Some && at_path(obj, column_path(c)->0) is Some ==> declared_cell(obj, c)
            == at_path(obj, column_path(c)->0)->0,
        column_path(c) is Some && at_path(obj, column_path(c)->0) is None ==> declared_cell(obj, c)
            == str_tree(""),
{
    reveal_strlit("name");
    reveal_strlit("type");
    reveal_strlit("format");
    reveal_strlit("description");
    reveal_strlit("priority");
    assert("name"@.len() == 4);
    assert("type"@.len() == 4);
    assert("format"@.len() == 6);
    assert("description"@.len() == 11);
    assert("priority"@.len() == 8);
    assert("name"@[0] == 'n');
    assert("type"@[0] == 't');
    lemma_usable(columns);
}

proof fn lemma_usable(columns: Seq<Tree>)
    ensures
        usable(columns) == columns.filter(|x: Tree| column_path(x) is Some),
    decreases columns.len(),
{
    reveal(Seq::filter);
    if columns.len() > 0 {
        lemma_usable(columns.drop_last());
    }
}

/// A path of names leads from member to member.
pub proof fn law_a_path_leads_from_member_to_member(t: Tree, path: Seq<char>, name: Seq<char>)
    requires
        name.len() > 0,
        !name.contains('.'),
        !name.contains('['),
        drop_front(path, '.') == path,
        drop_front(path.push('.') + name, '.') == path.push('.') + name,
        at_path(t, path) is Some,
    ensures
        at_path(t, path.push('.') + name) == at_path(t, path)->0.get(name),
{
    crate::text::lemma_split_push(path, '.', name);
    let segs = split(path, '.');
    assert(segs.push(name).drop_last() =~= segs);
    reveal_strlit("[");
    assert("["@ =~= seq!['[']);
    crate::text::lemma_find_from(name, "["@, 0);
    if find_from(name, "["@, 0) is Some {
        let i = find_from(name, "["@, 0)->0;
        assert(name.subrange(i, i + 1)[0] == '[');
        assert(name[i] == '[');
    }
    let none = Seq::<char>::empty();
    crate::text::lemma_split_whole(none, '[');
    let one = seq![none];
    assert(one.drop_last() =~= Seq::empty());
    assert(nonempty(one.drop_last()) =~= Seq::empty());
    assert(nonempty(one) =~= Seq::empty());
}

/// A table says that it is one, has the version of what it shows, and a row for each object,
/// with that object.
pub proof fn law_a_table_has_a_row_for_each_object(
    resource: Seq<char>,
    body: Tree,
    now: Moment,
    i: int,
)
    requires
        body.at("items"@) is Array,
        0 <= i < (body.at("items"@)->Array_0).len(),
    ensures
        ({
            let t = resource_table(resource, body, now);
            let rows = t.at("rows"@).items_or_none();
            let v = body.at("metadata"@).at("resourceVersion"@);
            &&& t.at("kind"@) == str_tree("Table")
            &&& t.at("apiVersion"@) == str_tree("meta.k8s.io/v1")
            &&& v is String ==> t.at("metadata"@).at("resourceVersion"@) == v
            &&& rows.len() == (body.at("items"@)->Array_0).len()
            &&& rows[i].at("object"@) == (body.at("items"@)->Array_0)[i]
            &&& rows[i].at("cells"@) == cells_of(
                printer_of(resource),
                (body.at("items"@)->Array_0)[i],
                now,
            )
            &&& t.at("columnDefinitions"@) == columns_of(printer_of(resource))
        }),
{
    reveal_strlit("kind");
    reveal_strlit("apiVersion");
    reveal_strlit("metadata");
    reveal_strlit("columnDefinitions");
    reveal_strlit("rows");
    reveal_strlit("cells");
    reveal_strlit("object");
    assert("kind"@.len() == 4);
    assert("apiVersion"@.len() == 10);
    assert("metadata"@.len() == 8);
    assert("columnDefinitions"@.len() == 17);
    assert("rows"@.len() == 4);
    assert("cells"@.len() == 5);
    assert("object"@.len() == 6);
    assert("kind"@[0] == 'k');
    assert("rows"@[0] == 'r');
}

/// A body that is no list is one row.
pub proof fn law_one_object_is_one_row(body: Tree)
    requires
        !(body.at("items"@) is Array),
    ensures
        objects_of(body) == seq![body],
{
}

/// A step with a place in it leads to the item at that place, of the member that it names.
pub proof fn law_a_place_leads_to_its_item(t: Tree, name: Seq<char>, n: nat)
    requires
        name.len() > 0,
        !name.contains('['),
        t.at(name) is Array,
        n <= usize::MAX,
    ensures
        n < t.at(name).items_or_none().len() ==> segment_of(
            t,
            name + seq!['['] + dec(n).push(']'),
        ) == Some(t.at(name).items_or_none()[n as int]),
        n >= t.at(name).items_or_none().len() ==> segment_of(
            t,
            name + seq!['['] + dec(n).push(']'),
        ) is None,
{
    let place = dec(n).push(']');
    let seg = name + seq!['['] + place;
    reveal_strlit("[");
    assert("["@ =~= seq!['[']);
    crate::decimal::law_numeral_reads_back(n);
    crate::decimal::law_signs(n, usize::MAX as nat);
    crate::text::law_parted_at_the_first(name, '[', place);
    let i = find_from(seg, seq!['['], 0)->0;
    assert(find_from(seg, seq!['['], 0) is Some);
    crate::text::lemma_find_from(seg, seq!['['], 0);
    assert(seg.take(i) == name);
    assert(i == name.len()) by {
        assert(seg.take(i).len() == i);
    }
    let rest = seg.skip(i);
    assert(rest =~= Seq::<char>::empty().push('[') + place);
    assert(!place.contains('[')) by {
        if place.contains('[') {
            let k = place.index_of('[');
            if k < dec(n).len() {
                assert(crate::decimal::digit_of(dec(n)[k]) is Some);
            }
        }
    }
    crate::text::lemma_split_whole(Seq::<char>::empty(), '[');
    crate::text::lemma_split_push(Seq::<char>::empty(), '[', place);
    let pieces = split(rest, '[');
    assert(pieces =~= seq![Seq::<char>::empty(), place]);
    let first = pieces.drop_last();
    assert(first =~= seq![Seq::<char>::empty()]);
    assert(first.drop_last() =~= Seq::<Seq<char>>::empty());
    assert(nonempty(first.drop_last()) =~= Seq::<Seq<char>>::empty());
    assert(nonempty(first) =~= Seq::<Seq<char>>::empty());
    assert(nonempty(pieces) =~= seq![place]);
    let one = seq![place];
    assert(one.drop_last() =~= Seq::<Seq<char>>::empty());
    assert(indexed(t.at(name), one.drop_last()) == Some(t.at(name)));
    crate::text::law_a_character_is_dropped_at_an_end(dec(n), ']');
    assert(crate::decimal::digit_of(dec(n)[dec(n).len() - 1]) is Some);
    assert(drop_back(place, ']') == dec(n));
}

/// A leap second counts where it lies between two times of day: a moment in one is, for what is
/// later in the day, like the moment in the second before it, and for what is not, like the one
/// in the second behind it; and so for the moment that is counted to.
pub proof fn law_a_leap_second_counts_between_times_of_day(then: (i64, u32), now: Moment)
    requires
        then.0 < i64::MAX,
        now.secs < i64::MAX,
        then.1 < 2000000000,
        now.nanos < 2000000000,
    ensures
        then.1 >= 1000000000 && now.nanos < 1000000000 && now.secs as int % 86400 > then.0 as int
            % 86400 ==> whole_seconds(then, now) == whole_seconds(
            (then.0, (then.1 - 1000000000) as u32),
            now,
        ),
        then.1 >= 1000000000 && now.nanos < 1000000000 && now.secs as int % 86400 <= then.0 as int
            % 86400 ==> whole_seconds(then, now) == whole_seconds(
            ((then.0 + 1) as i64, (then.1 - 1000000000) as u32),
            now,
        ),
        then.1 < 1000000000 && now.nanos >= 1000000000 && now.secs as int % 86400 < then.0 as int
            % 86400 ==> whole_seconds(then, now) == whole_seconds(
            then,
            (Moment { nanos: (now.nanos - 1000000000) as u32, ..now }),
        ),
        then.1 < 1000000000 && now.nanos >= 1000000000 && now.secs as int % 86400 >= then.0 as int
            % 86400 ==> whole_seconds(then, now) == whole_seconds(
            then,
            (Moment { secs: (now.secs + 1) as i64, nanos: (now.nanos - 1000000000) as u32 }),
        ),
{
}

} // verus!
