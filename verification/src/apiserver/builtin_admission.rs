//! Admission: the rules that every create passes.

use vstd::prelude::*;
use vstd::string::*;

use crate::apiserver::error::{err_forbidden, err_invalid, ApiError, ErrorView};
use crate::apiserver::handlers::delete::{ensure_finalizer, list_has, lists, with_finalizer};
use crate::json::{
    collect_strings, dup_all, items_of, lemma_alike_itself, lemma_trees_push, no_items, opt_tree,
    str_tree, strings_in, trees, Json, Numeral, Tree,
};
use crate::outside::{quoted, quoted_text};
use crate::text::{has_text, join, join_with, opt_str, same, texts};

verus! {

// ---------------------------------------------------------------------------
// Namespaces
// ---------------------------------------------------------------------------

/// A namespace is being deleted.
pub open spec fn ending(ns: Tree) -> bool {
    ns.at("metadata"@).at("deletionTimestamp"@) is String
}

/// A namespace with what it is given on create: the phase `Active` and the
/// `kubernetes` finalizer. One that is being deleted keeps what it has.
pub open spec fn with_namespace_defaults(ns: Tree) -> Tree {
    let phased = if ending(ns) {
        ns
    } else {
        ns.set("status"@, Tree::Object(map!["phase"@ => str_tree("Active")]))
    };
    let has = ns.at("spec"@).at("finalizers"@).items_or_none();
    phased.set(
        "spec"@,
        ns.at("spec"@).as_object().set(
            "finalizers"@,
            Tree::Array(
                if ending(ns) {
                    has
                } else {
                    with_finalizer(has, "kubernetes"@)
                },
            ),
        ),
    )
}

/// The status and the finalizers of two namespaces are equal.
pub open spec fn same_defaults(a: Tree, b: Tree) -> bool {
    a.at("status"@).alike(b.at("status"@)) && a.at("spec"@).at("finalizers"@).alike(
        b.at("spec"@).at("finalizers"@),
    )
}

proof fn lemma_parts_differ()
    ensures
        "status"@ != "spec"@,
        "metadata"@ != "spec"@,
        "metadata"@ != "status"@,
{
    reveal_strlit("status");
    reveal_strlit("spec");
    reveal_strlit("metadata");
    assert("status"@.len() == 6);
    assert("spec"@.len() == 4);
    assert("metadata"@.len() == 8);
}

/// Gives a namespace what it has from its creation on. Says whether anything
/// changed.
pub fn namespace_defaults(obj: &mut Json) -> (r: bool)
    requires
        old(obj)@.settable(),
    ensures
        final(obj)@ == with_namespace_defaults(old(obj)@),
        r == !same_defaults(with_namespace_defaults(old(obj)@), old(obj)@),
{
    proof {
        lemma_parts_differ();
    }
    let status_before = obj.at("status").dup();
    let finalizers_before = obj.at("spec").at("finalizers").dup();
    let terminating = obj.at("metadata").at("deletionTimestamp").is_string();
    let mut spec = obj.at("spec").dup();
    let mut finalizers = items_of(spec.at("finalizers"));
    spec.make_object();
    if !terminating {
        obj.set("status", Json::object().with("phase", Json::text("Active")));
        ensure_finalizer(&mut finalizers, "kubernetes");
    }
    spec.set("finalizers", Json::Array(finalizers));
    obj.set("spec", spec);
    !(obj.at("status").equals(&status_before) && obj.at("spec").at("finalizers").equals(
        &finalizers_before,
    ))
}

/// A namespace that has its defaults is not changed again, and reported so.
pub proof fn law_namespace_defaults_are_final(ns: Tree)
    requires
        ns.settable(),
    ensures
        with_namespace_defaults(with_namespace_defaults(ns)) == with_namespace_defaults(ns),
        same_defaults(
            with_namespace_defaults(with_namespace_defaults(ns)),
            with_namespace_defaults(ns),
        ),
{
    lemma_alike_itself(with_namespace_defaults(ns).at("status"@));
    lemma_alike_itself(with_namespace_defaults(ns).at("spec"@).at("finalizers"@));
    lemma_parts_differ();
    let once = with_namespace_defaults(ns);
    let has = ns.at("spec"@).at("finalizers"@).items_or_none();
    let with = with_finalizer(has, "kubernetes"@);
    if !lists(has, "kubernetes"@) {
        assert(with[has.len() as int] == Tree::String("kubernetes"@));
    }
    assert(lists(with, "kubernetes"@));
    assert(once.at("metadata"@) == ns.at("metadata"@));
    let fs = once.at("spec"@).at("finalizers"@);
    let m = once->Object_0;
    let spec = once.at("spec"@)->Object_0;
    assert(spec.insert("finalizers"@, fs) =~= spec);
    assert(m.insert("spec"@, once.at("spec"@)) =~= m);
    if !ending(ns) {
        assert(m.insert("status"@, once.at("status"@)) =~= m);
        assert(m.insert("status"@, once.at("status"@)).insert("spec"@, once.at("spec"@)) =~= m);
    }
}

/// A namespace that is being deleted is not revived: its status and its
/// finalizers stay.
pub proof fn law_an_ending_namespace_is_not_revived(ns: Tree)
    requires
        ns is Object,
        ending(ns),
    ensures
        with_namespace_defaults(ns).get("status"@) == ns.get("status"@),
        with_namespace_defaults(ns).at("spec"@).at("finalizers"@).items_or_none() == ns.at(
            "spec"@,
        ).at("finalizers"@).items_or_none(),
{
    lemma_parts_differ();
}

/// The namespace that a create goes into, or why it may not.
pub open spec fn lifecycle(ns: Seq<char>, found: Option<Tree>) -> Result<Tree, ErrorView> {
    match found {
        Some(t) => if ending(t) || t.at("status"@).at("phase"@) == str_tree("Terminating") {
            Err(
                err_forbidden(
                    "unable to create new content in namespace "@ + ns
                        + " because it is being terminated"@,
                ),
            )
        } else {
            Ok(t)
        },
        None => Err(err_forbidden("namespace "@ + ns + " not found"@)),
    }
}

/// Refuses a create in a namespace that is missing or being terminated.
pub fn namespace_lifecycle(ns: &str, found: Option<Json>) -> (r: Result<Json, ApiError>)
    ensures
        ({
            let want = lifecycle(
                ns@,
                match found {
                    Some(v) => Some(v@),
                    None => None,
                },
            );
            match r {
                Ok(v) => want == Ok::<Tree, ErrorView>(v@),
                Err(e) => want == Err::<Tree, ErrorView>(e@),
            }
        }),
{
    match found {
        Some(v) => {
            if v.at("metadata").at("deletionTimestamp").is_string() || v.at("status").at(
                "phase",
            ).is_text("Terminating") {
                let m = "unable to create new content in namespace ".to_owned().concat(ns).concat(
                    " because it is being terminated",
                );
                return Err(ApiError::forbidden(m.as_str()));
            }
            Ok(v)
        },
        None => {
            let m = "namespace ".to_owned().concat(ns).concat(" not found");
            Err(ApiError::forbidden(m.as_str()))
        },
    }
}

// ---------------------------------------------------------------------------
// Claims and schedules
// ---------------------------------------------------------------------------

/// The refusal of a claim that asks for exclusivity and sharing at once.
pub open spec fn mixed_modes(modes: Seq<Seq<char>>) -> Option<ErrorView> {
    if modes.contains("ReadWriteOncePod"@) && modes.len() > 1 {
        Some(
            err_invalid(
                "spec.accessModes: ReadWriteOncePod may not be combined with other modes (got ["@
                    + join(modes, ", "@) + "])"@,
            ),
        )
    } else {
        None
    }
}

/// Refuses `ReadWriteOncePod` together with any other access mode.
pub fn access_modes(obj: &Json) -> (r: Result<(), ApiError>)
    ensures
        ({
            let want = mixed_modes(
                strings_in(obj@.at("spec"@).at("accessModes"@).items_or_none()),
            );
            match r {
                Ok(_) => want is None,
                Err(e) => want == Some(e@),
            }
        }),
{
    let modes = collect_strings(obj.at("spec").at("accessModes"));
    assert(texts(modes@).len() == modes@.len());
    if has_text(&modes, "ReadWriteOncePod") && modes.len() > 1 {
        let list = join_with(&modes, ", ");
        let m = "spec.accessModes: ReadWriteOncePod may not be combined with other modes (got ["
            .to_owned().concat(list.as_str()).concat("])");
        return Err(ApiError::invalid(m.as_str()));
    }
    Ok(())
}

/// The refusal of a schedule: it is missing, or it never fires.
pub open spec fn bad_schedule(obj: Tree, verdict: Option<Seq<char>>) -> Option<ErrorView> {
    match obj.at("spec"@).at("schedule"@).text() {
        None => Some(err_invalid("spec.schedule is required"@)),
        Some(s) => match verdict {
            Some(e) => Some(
                err_invalid(
                    "spec.schedule "@ + quoted_text(s) + " will never fire: "@ + e,
                ),
            ),
            None => None,
        },
    }
}

/// Refuses a CronJob whose schedule is missing or can never fire. `verdict` says
/// why the schedule never fires, where it does not.
pub fn cronjob_schedule(obj: &Json, verdict: Option<&str>) -> (r: Result<(), ApiError>)
    ensures
        match r {
            Ok(_) => bad_schedule(obj@, opt_str(verdict)) is None,
            Err(e) => bad_schedule(obj@, opt_str(verdict)) == Some(e@),
        },
{
    let schedule = match obj.at("spec").at("schedule").as_str() {
        Some(s) => s,
        None => {
            return Err(ApiError::invalid("spec.schedule is required"));
        },
    };
    match verdict {
        Some(e) => {
            let q = quoted(schedule);
            let m = "spec.schedule ".to_owned().concat(q.as_str()).concat(
                " will never fire: ",
            ).concat(e);
            Err(ApiError::invalid(m.as_str()))
        },
        None => Ok(()),
    }
}

// ---------------------------------------------------------------------------
// Pod security
// ---------------------------------------------------------------------------

/// A level of pod security that checks nothing.
pub open spec fn unchecked(level: Seq<char>) -> bool {
    level.len() == 0 || level == "privileged"@
}

/// The refusal of what a level does not allow.
pub open spec fn not_allowed(level: Seq<char>, what: Seq<char>) -> ErrorView {
    err_forbidden("pod security \""@ + level + "\": "@ + what)
}

/// What the namespaces of the host and its paths cost a pod.
pub open spec fn host_fault(level: Seq<char>, spec: Tree) -> Option<ErrorView> {
    if spec.at("hostNetwork"@).flag() == Some(true) {
        Some(not_allowed(level, "hostNetwork is not allowed"@))
    } else if spec.at("hostPID"@).flag() == Some(true) {
        Some(not_allowed(level, "hostPID is not allowed"@))
    } else if spec.at("hostIPC"@).flag() == Some(true) {
        Some(not_allowed(level, "hostIPC is not allowed"@))
    } else if mounts_host(spec.at("volumes"@).items_or_none()) {
        Some(not_allowed(level, "hostPath volumes are not allowed"@))
    } else {
        None
    }
}

/// One of the volumes is a path of the host.
pub open spec fn mounts_host(volumes: Seq<Tree>) -> bool {
    exists|i: int| 0 <= i < volumes.len() && !((#[trigger] volumes[i]).at("hostPath"@) is Null)
}

/// What a container does that a level does not allow.
pub open spec fn container_fault(level: Seq<char>, c: Tree) -> Option<ErrorView> {
    let sc = c.at("securityContext"@);
    if sc.at("privileged"@).flag() == Some(true) {
        Some(not_allowed(level, "privileged containers are not allowed"@))
    } else if level == "restricted"@ && sc.at("allowPrivilegeEscalation"@).flag() != Some(false) {
        Some(not_allowed("restricted"@, "allowPrivilegeEscalation must be false"@))
    } else if level == "restricted"@ && !lists(
        sc.at("capabilities"@).at("drop"@).items_or_none(),
        "ALL"@,
    ) {
        Some(not_allowed("restricted"@, "containers must drop ALL capabilities"@))
    } else {
        None
    }
}

/// What the first container does that a level does not allow.
pub open spec fn first_fault(level: Seq<char>, cs: Seq<Tree>) -> Option<ErrorView>
    decreases cs.len(),
{
    if cs.len() == 0 {
        None
    } else {
        match first_fault(level, cs.drop_last()) {
            Some(e) => Some(e),
            None => container_fault(level, cs.last()),
        }
    }
}

/// A security context says that it does not run as root.
pub open spec fn non_root(t: Tree) -> bool {
    t.at("securityContext"@).at("runAsNonRoot"@).flag() == Some(true)
}

/// Every container says that it does not run as root.
pub open spec fn all_non_root(cs: Seq<Tree>) -> bool {
    forall|i: int| 0 <= i < cs.len() ==> non_root(#[trigger] cs[i])
}

/// The containers of a pod and its init containers.
pub open spec fn all_containers(spec: Tree) -> Seq<Tree> {
    spec.at("containers"@).items_or_none() + spec.at("initContainers"@).items_or_none()
}

/// What a pod does that a level does not allow.
pub open spec fn security_fault(level: Seq<char>, obj: Tree) -> Option<ErrorView> {
    let spec = obj.at("spec"@);
    if unchecked(level) {
        None
    } else if host_fault(level, spec) is Some {
        host_fault(level, spec)
    } else if first_fault(level, all_containers(spec)) is Some {
        first_fault(level, all_containers(spec))
    } else if level == "restricted"@ && !non_root(spec) && !all_non_root(all_containers(spec)) {
        Some(not_allowed("restricted"@, "runAsNonRoot must be true"@))
    } else {
        None
    }
}

fn refuse(level: &str, what: &str) -> (r: ApiError)
    ensures
        r@ == not_allowed(level@, what@),
{
    let m = "pod security \"".to_owned().concat(level).concat("\": ").concat(what);
    ApiError::forbidden(m.as_str())
}

fn is_set(v: &Json) -> (r: bool)
    ensures
        r == (v@.flag() == Some(true)),
{
    match v.as_bool() {
        Some(b) => b,
        None => false,
    }
}

fn any_host_path(v: &Json) -> (r: bool)
    ensures
        r == mounts_host(v@.items_or_none()),
{
    let a = match v {
        Json::Array(a) => a,
        _ => {
            return false;
        },
    };
    let mut i: usize = 0;
    while i < a.len()
        invariant
            i <= a.len(),
            v@.items_or_none() == trees(a@),
            forall|j: int| 0 <= j < i ==> (#[trigger] trees(a@)[j]).at("hostPath"@) is Null,
        decreases a.len() - i,
    {
        if !a[i].at("hostPath").is_null() {
            assert(!(v@.items_or_none()[i as int].at("hostPath"@) is Null));
            return true;
        }
        i = i + 1;
    }
    false
}

fn check_container(level: &str, c: &Json) -> (r: Option<ApiError>)
    ensures
        match r {
            Some(e) => container_fault(level@, c@) == Some(e@),
            None => container_fault(level@, c@) is None,
        },
{
    let sc = c.at("securityContext");
    if is_set(sc.at("privileged")) {
        return Some(refuse(level, "privileged containers are not allowed"));
    }
    if same(level, "restricted") {
        let closed = match sc.at("allowPrivilegeEscalation").as_bool() {
            Some(b) => !b,
            None => false,
        };
        if !closed {
            return Some(refuse("restricted", "allowPrivilegeEscalation must be false"));
        }
        let drops = match sc.at("capabilities").at("drop") {
            Json::Array(a) => list_has(a, "ALL"),
            _ => false,
        };
        if !drops {
            return Some(refuse("restricted", "containers must drop ALL capabilities"));
        }
    }
    None
}

proof fn lemma_first_fault_stays(level: Seq<char>, cs: Seq<Tree>, n: int)
    requires
        0 <= n <= cs.len(),
        first_fault(level, cs.take(n)) is Some,
    ensures
        first_fault(level, cs) == first_fault(level, cs.take(n)),
    decreases cs.len() - n,
{
    if n < cs.len() {
        assert(cs.take(n + 1).drop_last() =~= cs.take(n));
        lemma_first_fault_stays(level, cs, n + 1);
    } else {
        assert(cs.take(n) =~= cs);
    }
}

fn containers_of(spec: &Json) -> (r: Vec<Json>)
    ensures
        trees(r@) == all_containers(spec@),
{
    let mut cs = items_of(spec.at("containers"));
    let mut init = items_of(spec.at("initContainers"));
    let ghost a = trees(cs@);
    let ghost b = trees(init@);
    cs.append(&mut init);
    assert(trees(cs@) =~= a + b);
    cs
}

/// Checks a pod against the level that its namespace enforces.
pub fn pod_security(level: &str, obj: &Json) -> (r: Result<(), ApiError>)
    ensures
        match r {
            Ok(_) => security_fault(level@, obj@) is None,
            Err(e) => security_fault(level@, obj@) == Some(e@),
        },
{
    if level.unicode_len() == 0 || same(level, "privileged") {
        return Ok(());
    }
    let spec = obj.at("spec");
    if is_set(spec.at("hostNetwork")) {
        return Err(refuse(level, "hostNetwork is not allowed"));
    }
    if is_set(spec.at("hostPID")) {
        return Err(refuse(level, "hostPID is not allowed"));
    }
    if is_set(spec.at("hostIPC")) {
        return Err(refuse(level, "hostIPC is not allowed"));
    }
    if any_host_path(spec.at("volumes")) {
        return Err(refuse(level, "hostPath volumes are not allowed"));
    }
    let cs = containers_of(spec);
    let ghost ts = all_containers(spec@);
    let mut rooted = false;
    let mut i: usize = 0;
    while i < cs.len()
        invariant
            i <= cs.len(),
            ts == trees(cs@),
            ts == all_containers(spec@),
            spec@ == obj@.at("spec"@),
            !unchecked(level@),
            host_fault(level@, spec@) is None,
            first_fault(level@, ts.take(i as int)) is None,
            rooted == !(forall|j: int| 0 <= j < i ==> non_root(#[trigger] ts[j])),
        decreases cs.len() - i,
    {
        let c = &cs[i];
        proof {
            assert(ts[i as int] == c@);
            assert(ts.take(i + 1).drop_last() =~= ts.take(i as int));
            assert(ts.take(i + 1).last() == c@);
        }
        match check_container(level, c) {
            Some(e) => {
                proof {
                    lemma_first_fault_stays(level@, ts, i + 1);
                }
                return Err(e);
            },
            None => {},
        }
        if !is_set(c.at("securityContext").at("runAsNonRoot")) {
            rooted = true;
        }
        i = i + 1;
    }
    assert(ts.take(i as int) =~= ts);
    if same(level, "restricted") && !is_set(spec.at("securityContext").at("runAsNonRoot"))
        && rooted {
        return Err(refuse("restricted", "runAsNonRoot must be true"));
    }
    Ok(())
}

/// What baseline refuses, restricted refuses: a pod that passes as restricted
/// passes as baseline.
pub proof fn law_restricted_is_stricter(obj: Tree)
    requires
        security_fault("restricted"@, obj) is None,
    ensures
        security_fault("baseline"@, obj) is None,
{
    reveal_strlit("restricted");
    reveal_strlit("baseline");
    reveal_strlit("privileged");
    assert("restricted"@.len() == 10);
    assert("restricted"@[0] == 'r');
    assert("privileged"@[0] == 'p');
    assert("baseline"@.len() == 8);
    assert("privileged"@.len() == 10);
    let cs = all_containers(obj.at("spec"@));
    lemma_restricted_is_stricter(cs);
}

proof fn lemma_restricted_is_stricter(cs: Seq<Tree>)
    requires
        first_fault("restricted"@, cs) is None,
        "baseline"@ != "restricted"@,
    ensures
        first_fault("baseline"@, cs) is None,
    decreases cs.len(),
{
    if cs.len() > 0 {
        lemma_restricted_is_stricter(cs.drop_last());
    }
}

// ---------------------------------------------------------------------------
// Pods
// ---------------------------------------------------------------------------

/// A pod with a ServiceAccount: the one it names, else `default`, and the same
/// under the name that is deprecated.
pub open spec fn with_service_account(obj: Tree) -> Tree {
    match obj.at("spec"@) {
        Tree::Object(m) => {
            let named = obj.at("spec"@).or_text("serviceAccountName"@, "default"@);
            obj.set("spec"@, named.set("serviceAccount"@, named.at("serviceAccountName"@)))
        },
        _ => obj,
    }
}

/// Gives a pod the ServiceAccount `default` unless it names one.
pub fn service_account_default(obj: &mut Json)
    ensures
        final(obj)@ == with_service_account(old(obj)@),
{
    if !obj.at("spec").is_object() {
        return;
    }
    let mut spec = obj.at("spec").dup();
    if spec.at("serviceAccountName").some_str().is_none() {
        spec.set("serviceAccountName", Json::text("default"));
    }
    let name = spec.at("serviceAccountName").dup();
    spec.set("serviceAccount", name);
    obj.set("spec", spec);
}

/// The toleration that a pod is given for a taint of its node.
pub open spec fn default_toleration(key: Seq<char>) -> Tree {
    Tree::Object(
        map![
            "key"@ => Tree::String(key),
            "operator"@ => str_tree("Exists"),
            "effect"@ => str_tree("NoExecute"),
            "tolerationSeconds"@ => Tree::Number(Numeral::PosInt(300)),
        ],
    )
}

/// A toleration names a key, and the effect `NoExecute` or none, which is every
/// effect.
pub open spec fn outlasts(toleration: Tree, key: Seq<char>) -> bool {
    toleration.at("key"@) == Tree::String(key) && match toleration.at("effect"@).some_text() {
        Some(effect) => effect == "NoExecute"@,
        None => true,
    }
}

/// One of the tolerations keeps a pod on a node with the taint `key`.
pub open spec fn tolerates_key(tolerations: Seq<Tree>, key: Seq<char>) -> bool {
    exists|i: int| 0 <= i < tolerations.len() && outlasts(#[trigger] tolerations[i], key)
}

/// The tolerations with the default one for a key.
pub open spec fn with_toleration(tolerations: Seq<Tree>, key: Seq<char>) -> Seq<Tree> {
    if tolerates_key(tolerations, key) {
        tolerations
    } else {
        tolerations.push(default_toleration(key))
    }
}

/// A pod with the tolerations that give its node five minutes.
pub open spec fn with_default_tolerations(obj: Tree) -> Tree {
    match obj.at("spec"@) {
        Tree::Object(m) => match obj.at("spec"@).or_set("tolerations"@, no_items()).at(
            "tolerations"@,
        ) {
            Tree::Array(a) => obj.set(
                "spec"@,
                obj.at("spec"@).set(
                    "tolerations"@,
                    Tree::Array(
                        with_toleration(
                            with_toleration(a, "node.kubernetes.io/not-ready"@),
                            "node.kubernetes.io/unreachable"@,
                        ),
                    ),
                ),
            ),
            _ => obj,
        },
        _ => obj,
    }
}

fn add_toleration(tolerations: &mut Vec<Json>, key: &str)
    ensures
        trees(final(tolerations)@) == with_toleration(trees(old(tolerations)@), key@),
{
    let mut i: usize = 0;
    while i < tolerations.len()
        invariant
            i <= tolerations.len(),
            tolerations@ == old(tolerations)@,
            forall|j: int| 0 <= j < i ==> !outlasts(#[trigger] trees(tolerations@)[j], key@),
        decreases tolerations.len() - i,
    {
        let t = &tolerations[i];
        let lasting = match t.at("effect").some_str() {
            Some(effect) => same(effect, "NoExecute"),
            None => true,
        };
        assert(trees(tolerations@)[i as int] == t@);
        if t.at("key").is_text(key) && lasting {
            return;
        }
        i = i + 1;
    }
    let t = Json::object().with("key", Json::text(key)).with(
        "operator",
        Json::text("Exists"),
    ).with("effect", Json::text("NoExecute")).with("tolerationSeconds", Json::uint(300));
    proof {
        lemma_trees_push(tolerations@, t);
    }
    tolerations.push(t);
}

/// Adds the tolerations for a node that is not ready or not reachable, for 300
/// seconds, to a pod that lacks them.
pub fn default_toleration_seconds(obj: &mut Json)
    ensures
        final(obj)@ == with_default_tolerations(old(obj)@),
{
    if !obj.at("spec").is_object() {
        return;
    }
    let mut spec = obj.at("spec").dup();
    let mut tolerations: Vec<Json> = match spec.get("tolerations") {
        Some(Json::Array(a)) => dup_all(a),
        Some(_) => {
            return;
        },
        None => {
            let none: Vec<Json> = Vec::new();
            assert(trees(none@) =~= Seq::<Tree>::empty());
            none
        },
    };
    add_toleration(&mut tolerations, "node.kubernetes.io/not-ready");
    add_toleration(&mut tolerations, "node.kubernetes.io/unreachable");
    spec.set("tolerations", Json::Array(tolerations));
    obj.set("spec", spec);
}

/// The PriorityClass that a pod without a priority names.
pub open spec fn class_named(obj: Tree) -> Option<Seq<char>> {
    if obj.at("spec"@).at("priority"@) is Null {
        obj.at("spec"@).at("priorityClassName"@).some_text()
    } else {
        None
    }
}

/// The PriorityClass to read for a pod.
pub fn priority_class(obj: &Json) -> (r: Option<&str>)
    ensures
        opt_str(r) == class_named(obj@),
{
    let spec = obj.at("spec");
    if !spec.at("priority").is_null() {
        return None;
    }
    spec.at("priorityClassName").some_str()
}

/// A pod with the priority of its class, where it names a class that has one.
pub open spec fn with_priority(obj: Tree, class: Option<Tree>) -> Tree {
    match (class_named(obj), class) {
        (Some(_), Some(c)) => match c.at("value"@).integer() {
            Some(v) => obj.set(
                "spec"@,
                obj.at("spec"@).set("priority"@, Tree::Number(Numeral::of(v))),
            ),
            None => obj,
        },
        _ => obj,
    }
}

/// Gives a pod the priority of its class.
pub fn priority_from_class(obj: &mut Json, class: Option<&Json>)
    ensures
        final(obj)@ == with_priority(old(obj)@, opt_tree(class)),
{
    if priority_class(obj).is_none() {
        return;
    }
    match class {
        Some(c) => match c.at("value").as_i64() {
            Some(v) => {
                let mut spec = obj.at("spec").dup();
                spec.set("priority", Json::int_value(v));
                obj.set("spec", spec);
            },
            None => {},
        },
        None => {},
    }
}

// ---------------------------------------------------------------------------
// Services
// ---------------------------------------------------------------------------

/// A port with its defaults: TCP, and a target port equal to the port.
pub open spec fn defaulted_port(p: Tree) -> Tree {
    let spoken = if p.at("protocol"@) is String {
        p
    } else {
        p.set("protocol"@, str_tree("TCP"))
    };
    match (spoken.at("targetPort"@), spoken.at("port"@).integer()) {
        (Tree::Null, Some(n)) => spoken.set("targetPort"@, Tree::Number(Numeral::of(n))),
        _ => spoken,
    }
}

/// A Service with the defaults of its ports. One without ports has null for
/// them.
pub open spec fn with_port_defaults(obj: Tree) -> Tree {
    let ports = match obj.at("spec"@).get("ports"@) {
        Some(Tree::Array(a)) => Tree::Array(a.map_values(|p: Tree| defaulted_port(p))),
        Some(other) => other,
        None => Tree::Null,
    };
    obj.set("spec"@, obj.at("spec"@).set("ports"@, ports))
}

/// Every port of a Service is an object, or null.
pub open spec fn ports_settable(obj: Tree) -> bool {
    forall|i: int|
        0 <= i < obj.at("spec"@).at("ports"@).items_or_none().len() ==> (
        #[trigger] obj.at("spec"@).at("ports"@).items_or_none()[i]).settable()
}

/// Gives the ports of a Service the protocol TCP, without which a port matches no
/// endpoint, and a target port.
pub fn default_service_ports(obj: &mut Json)
    requires
        old(obj)@.settable(),
        old(obj)@.at("spec"@).settable(),
        ports_settable(old(obj)@),
    ensures
        final(obj)@ == with_port_defaults(old(obj)@),
{
    let ghost o = obj@;
    let mut spec = obj.at("spec").dup();
    let ports: Json = match spec.get("ports") {
        Some(Json::Array(a)) => {
            let mut out: Vec<Json> = Vec::new();
            let mut i: usize = 0;
            while i < a.len()
                invariant
                    i <= a.len(),
                    o.at("spec"@).at("ports"@) == Tree::Array(trees(a@)),
                    ports_settable(o),
                    out@.len() == i,
                    forall|j: int| 0 <= j < i ==> (#[trigger] out@[j])@ == defaulted_port(a@[j]@),
                decreases a.len() - i,
            {
                let mut p = a[i].dup();
                assert(o.at("spec"@).at("ports"@).items_or_none()[i as int] == a@[i as int]@);
                if !p.at("protocol").is_string() {
                    p.set("protocol", Json::text("TCP"));
                }
                if p.at("targetPort").is_null() {
                    match p.at("port").as_i64() {
                        Some(n) => {
                            p.set("targetPort", Json::int_value(n));
                        },
                        None => {},
                    }
                }
                out.push(p);
                i = i + 1;
            }
            assert(trees(out@) =~= trees(a@).map_values(|p: Tree| defaulted_port(p)));
            Json::Array(out)
        },
        Some(other) => other.dup(),
        None => Json::Null,
    };
    spec.set("ports", ports);
    obj.set("spec", spec);
}

/// Every port of a Service has a protocol once it has its defaults.
pub proof fn law_every_port_has_a_protocol(p: Tree)
    ensures
        defaulted_port(p).at("protocol"@) is String,
{
    reveal_strlit("protocol");
    reveal_strlit("targetPort");
    assert("protocol"@.len() == 8);
    assert("targetPort"@.len() == 10);
}

// ---------------------------------------------------------------------------
// The chain
// ---------------------------------------------------------------------------

/// A create after admission. The namespace is that of [`namespace_lifecycle`];
/// the address of a Service is allocated apart.
pub open spec fn admitted(
    resource: Seq<char>,
    namespace: Option<Tree>,
    obj: Tree,
    class: Option<Tree>,
    schedule: Option<Seq<char>>,
) -> Result<Tree, ErrorView> {
    if resource == "namespaces"@ {
        Ok(with_namespace_defaults(obj))
    } else if resource == "services"@ {
        Ok(with_port_defaults(obj))
    } else if resource == "pods"@ {
        let pod = with_priority(with_default_tolerations(with_service_account(obj)), class);
        match namespace {
            Some(ns) => {
                let level = ns.at("metadata"@).at("labels"@).at(
                    "pod-security.kubernetes.io/enforce"@,
                ).text_or_empty();
                match security_fault(level, pod) {
                    Some(e) => Err(e),
                    None => Ok(pod),
                }
            },
            None => Ok(pod),
        }
    } else if resource == "cronjobs"@ {
        match bad_schedule(obj, schedule) {
            Some(e) => Err(e),
            None => Ok(obj),
        }
    } else if resource == "persistentvolumeclaims"@ {
        match mixed_modes(strings_in(obj.at("spec"@).at("accessModes"@).items_or_none())) {
            Some(e) => Err(e),
            None => Ok(obj),
        }
    } else {
        Ok(obj)
    }
}

/// Admission reads the parts of an object that it changes.
pub open spec fn admissible(resource: Seq<char>, obj: Tree) -> bool {
    &&& resource == "namespaces"@ ==> obj.settable()
    &&& resource == "services"@ ==> obj.settable() && obj.at("spec"@).settable()
        && ports_settable(obj)
}

/// Runs the rules for a create that need nothing of the store but what is handed
/// in: the namespace, the PriorityClass of a pod, and why the schedule of a
/// CronJob never fires.
pub fn admit_create(
    resource: &str,
    namespace: Option<&Json>,
    obj: &Json,
    class: Option<&Json>,
    schedule: Option<&str>,
) -> (r: Result<Json, ApiError>)
    requires
        admissible(resource@, obj@),
    ensures
        ({
            let want = admitted(
                resource@,
                opt_tree(namespace),
                obj@,
                opt_tree(class),
                opt_str(schedule),
            );
            match r {
                Ok(v) => want == Ok::<Tree, ErrorView>(v@),
                Err(e) => want == Err::<Tree, ErrorView>(e@),
            }
        }),
{
    let mut out = obj.dup();
    if same(resource, "namespaces") {
        namespace_defaults(&mut out);
        return Ok(out);
    }
    if same(resource, "services") {
        default_service_ports(&mut out);
        return Ok(out);
    }
    if same(resource, "pods") {
        service_account_default(&mut out);
        default_toleration_seconds(&mut out);
        priority_from_class(&mut out, class);
        match namespace {
            Some(ns) => {
                let level = ns.at("metadata").at("labels").at(
                    "pod-security.kubernetes.io/enforce",
                ).str_or_empty();
                match pod_security(level, &out) {
                    Ok(_) => {},
                    Err(e) => {
                        return Err(e);
                    },
                }
            },
            None => {},
        }
        return Ok(out);
    }
    if same(resource, "cronjobs") {
        match cronjob_schedule(obj, schedule) {
            Ok(_) => {},
            Err(e) => {
                return Err(e);
            },
        }
        return Ok(out);
    }
    if same(resource, "persistentvolumeclaims") {
        match access_modes(obj) {
            Ok(_) => {},
            Err(e) => {
                return Err(e);
            },
        }
    }
    Ok(out)
}

/// A namespace that is made is active and held by the finalizer that empties it, beside those
/// that it has; nothing else of it is touched.
pub proof fn law_a_new_namespace_is_held(ns: Tree, key: Seq<char>, finalizer: Tree)
    requires
        ns is Object,
        !(ns.at("metadata"@).at("deletionTimestamp"@) is String),
        key != "spec"@,
        key != "status"@,
    ensures
        ({
            let r = with_namespace_defaults(ns);
            let had = ns.at("spec"@).at("finalizers"@).items_or_none();
            let has = r.at("spec"@).at("finalizers"@).items_or_none();
            &&& r.get(key) == ns.get(key)
            &&& r.at("status"@).at("phase"@) == str_tree("Active")
            &&& has.contains(str_tree("kubernetes"))
            &&& had.contains(finalizer) ==> has.contains(finalizer)
            &&& has.contains(finalizer) ==> had.contains(finalizer) || finalizer == str_tree(
                "kubernetes",
            )
        }),
{
    lemma_parts_differ();
    let has = ns.at("spec"@).at("finalizers"@).items_or_none();
    let with = with_finalizer(has, "kubernetes"@);
    if !lists(has, "kubernetes"@) {
        assert(with[has.len() as int] == Tree::String("kubernetes"@));
    }
    if has.contains(finalizer) {
        let i = has.index_of(finalizer);
        assert(with[i] == finalizer);
    }
    if with.contains(finalizer) && finalizer != str_tree("kubernetes") {
        let i = with.index_of(finalizer);
        assert(has[i] == finalizer);
    }
}

/// Nothing is made in a namespace that is not there or is going, by its mark or by its phase;
/// in every other it is.
pub proof fn law_nothing_is_made_in_a_namespace_that_goes(ns: Seq<char>, t: Tree)
    ensures
        lifecycle(ns, None) is Err && lifecycle(ns, None)->Err_0.status == 403,
        t.at("metadata"@).at("deletionTimestamp"@) is String ==> lifecycle(ns, Some(t)) is Err
            && lifecycle(ns, Some(t))->Err_0.status == 403,
        t.at("status"@).at("phase"@) == str_tree("Terminating") ==> lifecycle(ns, Some(t)) is Err
            && lifecycle(ns, Some(t))->Err_0.status == 403,
        !(t.at("metadata"@).at("deletionTimestamp"@) is String) && t.at("status"@).at("phase"@)
            != str_tree("Terminating") ==> lifecycle(ns, Some(t)) == Ok::<Tree, ErrorView>(t),
{
}

/// A volume for one pod alone is for nothing else.
pub proof fn law_one_pod_alone_is_alone(modes: Seq<Seq<char>>, mode: Seq<char>)
    ensures
        mixed_modes(modes.push(mode).push("ReadWriteOncePod"@)) is Some,
        mixed_modes(modes.push("ReadWriteOncePod"@).push(mode)) is Some,
        mixed_modes(seq![mode]) is None,
        mixed_modes(Seq::empty()) is None,
        !modes.contains("ReadWriteOncePod"@) ==> mixed_modes(modes) is None,
        mixed_modes(modes) is Some ==> mixed_modes(modes)->0.status == 422,
{
    let a = modes.push(mode).push("ReadWriteOncePod"@);
    let b = modes.push("ReadWriteOncePod"@).push(mode);
    assert(a[a.len() - 1] == "ReadWriteOncePod"@);
    assert(b[b.len() - 2] == "ReadWriteOncePod"@);
}

/// A schedule has to be there, and one that never fires is refused.
pub proof fn law_a_schedule_fires(obj: Tree, verdict: Option<Seq<char>>)
    ensures
        !(obj.at("spec"@).at("schedule"@) is String) ==> bad_schedule(obj, verdict) is Some,
        obj.at("spec"@).at("schedule"@) is String ==> (bad_schedule(obj, verdict) is Some
            <==> verdict is Some),
        bad_schedule(obj, verdict) is Some ==> bad_schedule(obj, verdict)->0.status == 422,
{
}

proof fn lemma_a_faulty_container(level: Seq<char>, cs: Seq<Tree>)
    ensures
        first_fault(level, cs) is None <==> forall|i: int|
            0 <= i < cs.len() ==> container_fault(level, #[trigger] cs[i]) is None,
        first_fault(level, cs) is Some ==> first_fault(level, cs)->0.status == 403,
    decreases cs.len(),
{
    if cs.len() > 0 {
        let rest = cs.drop_last();
        lemma_a_faulty_container(level, rest);
        if first_fault(level, cs) is None {
            assert forall|i: int| 0 <= i < cs.len() implies container_fault(
                level,
                #[trigger] cs[i],
            ) is None by {
                if i < rest.len() {
                    assert(rest[i] == cs[i]);
                }
            }
        }
        if forall|i: int|
            0 <= i < cs.len() ==> container_fault(level, #[trigger] cs[i]) is None {
            assert forall|i: int| 0 <= i < rest.len() implies container_fault(
                level,
                #[trigger] rest[i],
            ) is None by {
                assert(rest[i] == cs[i]);
            }
            assert(container_fault(level, cs[cs.len() - 1]) is None);
        }
    }
}

/// A container takes no more than its pod's level leaves it: at every level that is checked it
/// is not privileged, and at the strictest it cannot become so and drops what it could do.
pub open spec fn contained(level: Seq<char>, c: Tree) -> bool {
    let sc = c.at("securityContext"@);
    &&& sc.at("privileged"@) != Tree::Bool(true)
    &&& level == "restricted"@ ==> sc.at("allowPrivilegeEscalation"@) == Tree::Bool(false)
    &&& level == "restricted"@ ==> sc.at("capabilities"@).at("drop"@).items_or_none().contains(
        str_tree("ALL"),
    )
}

/// What a level asks of a pod: nothing where it is not set or is `privileged`; else that the
/// pod shares nothing of its host and that every container, those that run first among them,
/// is contained; and, where it is the strictest, that the pod or every container says that it
/// does not run as root.
pub proof fn law_what_a_level_asks(level: Seq<char>, obj: Tree)
    ensures
        ({
            let spec = obj.at("spec"@);
            let all = spec.at("containers"@).items_or_none();
            let first = spec.at("initContainers"@).items_or_none();
            let volumes = spec.at("volumes"@).items_or_none();
            let apart = {
                &&& spec.at("hostNetwork"@) != Tree::Bool(true)
                &&& spec.at("hostPID"@) != Tree::Bool(true)
                &&& spec.at("hostIPC"@) != Tree::Bool(true)
                &&& forall|i: int|
                    0 <= i < volumes.len() ==> (#[trigger] volumes[i]).at("hostPath"@) is Null
            };
            let held = {
                &&& forall|i: int| 0 <= i < all.len() ==> contained(level, #[trigger] all[i])
                &&& forall|i: int| 0 <= i < first.len() ==> contained(level, #[trigger] first[i])
            };
            let rootless = spec.at("securityContext"@).at("runAsNonRoot"@) == Tree::Bool(true) || {
                &&& forall|i: int|
                    0 <= i < all.len() ==> (#[trigger] all[i]).at("securityContext"@).at(
                        "runAsNonRoot"@,
                    ) == Tree::Bool(true)
                &&& forall|i: int|
                    0 <= i < first.len() ==> (#[trigger] first[i]).at("securityContext"@).at(
                        "runAsNonRoot"@,
                    ) == Tree::Bool(true)
            };
            &&& level.len() == 0 || level == "privileged"@ ==> security_fault(level, obj) is None
            &&& level.len() > 0 && level != "privileged"@ && level != "restricted"@ ==> (
            security_fault(level, obj) is None <==> apart && held)
            &&& level == "restricted"@ ==> (security_fault(level, obj) is None <==> apart && held
                && rootless)
            &&& security_fault(level, obj) is Some ==> security_fault(level, obj)->0.status == 403
        }),
{
    reveal_strlit("privileged");
    reveal_strlit("restricted");
    assert("privileged"@.len() == 10);
    assert("restricted"@.len() == 10);
    assert("privileged"@[0] == 'p');
    assert("restricted"@[0] == 'r');
    let spec = obj.at("spec"@);
    let all = spec.at("containers"@).items_or_none();
    let first = spec.at("initContainers"@).items_or_none();
    let cs = all_containers(spec);
    lemma_a_faulty_container(level, cs);
    assert(forall|i: int| 0 <= i < all.len() ==> cs[i] == #[trigger] all[i]);
    assert(forall|i: int| 0 <= i < first.len() ==> cs[i + all.len()] == #[trigger] first[i]);
    assert forall|c: Tree| contained(level, c) <==> #[trigger] container_fault(level, c) is None by {
    }
    assert(first_fault(level, cs) is None <==> (forall|i: int|
        0 <= i < all.len() ==> contained(level, #[trigger] all[i])) && (forall|i: int|
        0 <= i < first.len() ==> contained(level, #[trigger] first[i]))) by {
        if first_fault(level, cs) is None {
            assert forall|i: int| 0 <= i < all.len() implies contained(
                level,
                #[trigger] all[i],
            ) by {
                assert(container_fault(level, cs[i]) is None);
            }
            assert forall|i: int| 0 <= i < first.len() implies contained(
                level,
                #[trigger] first[i],
            ) by {
                assert(container_fault(level, cs[i + all.len()]) is None);
            }
        } else {
            let k = choose|i: int|
                0 <= i < cs.len() && container_fault(level, #[trigger] cs[i]) is Some;
            if k < all.len() {
                assert(cs[k] == all[k]);
                assert(!contained(level, all[k]));
            } else {
                assert(cs[k] == first[k - all.len()]);
                assert(!contained(level, first[k - all.len()]));
            }
        }
    }
    assert(all_non_root(cs) <==> (forall|i: int|
        0 <= i < all.len() ==> non_root(#[trigger] all[i])) && (forall|i: int|
        0 <= i < first.len() ==> non_root(#[trigger] first[i]))) by {
        if all_non_root(cs) {
            assert forall|i: int| 0 <= i < all.len() implies non_root(#[trigger] all[i]) by {
                assert(non_root(cs[i]));
            }
            assert forall|i: int| 0 <= i < first.len() implies non_root(#[trigger] first[i]) by {
                assert(non_root(cs[i + all.len()]));
            }
        } else {
            let k = choose|i: int| 0 <= i < cs.len() && !non_root(#[trigger] cs[i]);
            if k < all.len() {
                assert(!non_root(all[k]));
            } else {
                assert(!non_root(first[k - all.len()]));
            }
        }
    }
}

/// A pod runs as the account that it names, else as its namespace's own, and says so under
/// both names.
pub proof fn law_a_pod_runs_as_an_account(obj: Tree, field: Seq<char>, key: Seq<char>)
    requires
        obj.at("spec"@) is Object,
        field != "serviceAccountName"@,
        field != "serviceAccount"@,
        key != "spec"@,
    ensures
        ({
            let r = with_service_account(obj);
            let named = obj.at("spec"@).at("serviceAccountName"@);
            &&& r.get(key) == obj.get(key)
            &&& r.at("spec"@).get(field) == obj.at("spec"@).get(field)
            &&& named is String && (named->String_0).len() > 0 ==> r.at("spec"@).at(
                "serviceAccountName"@,
            ) == named
            &&& !(named is String) || (named->String_0).len() == 0 ==> r.at("spec"@).at(
                "serviceAccountName"@,
            ) == str_tree("default")
            &&& r.at("spec"@).at("serviceAccount"@) == r.at("spec"@).at("serviceAccountName"@)
        }),
{
    reveal_strlit("serviceAccountName");
    reveal_strlit("serviceAccount");
    assert("serviceAccountName"@.len() == 18);
    assert("serviceAccount"@.len() == 14);
}

/// A pod keeps the tolerations that it has, and bears a node that is not ready or out of reach
/// for five minutes where it does not say otherwise.
pub proof fn law_a_pod_bears_a_lost_node_for_a_while(obj: Tree, i: int)
    requires
        obj.at("spec"@) is Object,
        obj.at("spec"@).get("tolerations"@) is None || obj.at("spec"@).at("tolerations"@) is Array,
    ensures
        ({
            let had = obj.at("spec"@).at("tolerations"@).items_or_none();
            let has = with_default_tolerations(obj).at("spec"@).at("tolerations"@).items_or_none();
            &&& has.len() >= had.len()
            &&& 0 <= i < had.len() ==> has[i] == had[i]
            &&& had.len() <= i < has.len() ==> {
                &&& has[i].at("operator"@) == str_tree("Exists")
                &&& has[i].at("effect"@) == str_tree("NoExecute")
                &&& has[i].at("tolerationSeconds"@) == Tree::Number(Numeral::PosInt(300))
                &&& has[i].at("key"@) == str_tree("node.kubernetes.io/not-ready") || has[i].at(
                    "key"@,
                ) == str_tree("node.kubernetes.io/unreachable")
            }
            &&& exists|k: int|
                0 <= k < has.len() && (#[trigger] has[k]).at("key"@) == str_tree(
                    "node.kubernetes.io/not-ready",
                )
            &&& exists|k: int|
                0 <= k < has.len() && (#[trigger] has[k]).at("key"@) == str_tree(
                    "node.kubernetes.io/unreachable",
                )
        }),
{
    reveal_strlit("key");
    reveal_strlit("operator");
    reveal_strlit("effect");
    reveal_strlit("tolerationSeconds");
    assert("key"@.len() == 3);
    assert("operator"@.len() == 8);
    assert("effect"@.len() == 6);
    assert("tolerationSeconds"@.len() == 17);
    let had = obj.at("spec"@).at("tolerations"@).items_or_none();
    let one = with_toleration(had, "node.kubernetes.io/not-ready"@);
    let two = with_toleration(one, "node.kubernetes.io/unreachable"@);
    let has = with_default_tolerations(obj).at("spec"@).at("tolerations"@).items_or_none();
    assert(has == two) by {
        if obj.at("spec"@).get("tolerations"@) is None {
            assert(had =~= Seq::empty());
        }
    }
    lemma_bears(had, "node.kubernetes.io/not-ready"@);
    lemma_bears(one, "node.kubernetes.io/unreachable"@);
    let k = choose|k: int|
        0 <= k < one.len() && (#[trigger] one[k]).at("key"@) == str_tree(
            "node.kubernetes.io/not-ready",
        );
    assert(two[k] == one[k]);
}

proof fn lemma_bears(tolerations: Seq<Tree>, key: Seq<char>)
    ensures
        ({
            let with = with_toleration(tolerations, key);
            &&& with.len() >= tolerations.len()
            &&& forall|i: int| 0 <= i < tolerations.len() ==> with[i] == tolerations[i]
            &&& exists|k: int|
                0 <= k < with.len() && (#[trigger] with[k]).at("key"@) == Tree::String(key)
        }),
{
    reveal_strlit("key");
    reveal_strlit("operator");
    reveal_strlit("effect");
    reveal_strlit("tolerationSeconds");
    assert("key"@.len() == 3);
    assert("operator"@.len() == 8);
    assert("effect"@.len() == 6);
    assert("tolerationSeconds"@.len() == 17);
    let with = with_toleration(tolerations, key);
    if tolerates_key(tolerations, key) {
        let k = choose|k: int|
            0 <= k < tolerations.len() && outlasts(#[trigger] tolerations[k], key);
        assert(with[k].at("key"@) == Tree::String(key));
    } else {
        assert(with[tolerations.len() as int].at("key"@) == Tree::String(key));
    }
}

/// The value of a pod's class is its priority, unless the pod has one.
pub proof fn law_a_class_is_a_priority(obj: Tree, class: Tree, n: int, field: Seq<char>)
    requires
        obj.at("spec"@) is Object,
        class.at("value"@).integer() == Some(n),
        field != "priority"@,
    ensures
        !(obj.at("spec"@).at("priority"@) is Null) ==> with_priority(obj, Some(class)) == obj,
        !(obj.at("spec"@).at("priorityClassName"@) is String) ==> with_priority(obj, Some(class))
            == obj,
        obj.at("spec"@).at("priority"@) is Null && obj.at("spec"@).at("priorityClassName"@) is String
            && (obj.at("spec"@).at("priorityClassName"@)->String_0).len() > 0 ==> with_priority(
            obj,
            Some(class),
        ).at("spec"@).at("priority"@) == Tree::Number(Numeral::of(n)) && class_named(obj) == Some(
            obj.at("spec"@).at("priorityClassName"@)->String_0,
        ),
        with_priority(obj, Some(class)).at("spec"@).get(field) == obj.at("spec"@).get(field),
        with_priority(obj, None) == obj,
{
}

/// A port of a Service that names no protocol is TCP, and one that names no target is its own;
/// what it names stays.
pub proof fn law_a_port_keeps_what_it_names(p: Tree, n: int, field: Seq<char>)
    requires
        p is Object,
        p.at("port"@).integer() == Some(n),
        field != "protocol"@,
        field != "targetPort"@,
    ensures
        defaulted_port(p).get(field) == p.get(field),
        p.at("protocol"@) is String ==> defaulted_port(p).at("protocol"@) == p.at("protocol"@),
        !(p.at("protocol"@) is String) ==> defaulted_port(p).at("protocol"@) == str_tree("TCP"),
        !(p.at("targetPort"@) is Null) ==> defaulted_port(p).at("targetPort"@) == p.at(
            "targetPort"@,
        ),
        p.at("targetPort"@) is Null ==> defaulted_port(p).at("targetPort"@) == Tree::Number(
            Numeral::of(n),
        ),
{
    reveal_strlit("protocol");
    reveal_strlit("targetPort");
    reveal_strlit("port");
    assert("protocol"@.len() == 8);
    assert("targetPort"@.len() == 10);
    assert("port"@.len() == 4);
}

/// Admission asks of an object what its resource calls for, and leaves the others as they are;
/// a pod is held to the level of its own namespace.
pub proof fn law_admission_is_by_resource(
    resource: Seq<char>,
    namespace: Option<Tree>,
    obj: Tree,
    class: Option<Tree>,
    schedule: Option<Seq<char>>,
)
    ensures
        ({
            let r = admitted(resource, namespace, obj, class, schedule);
            let level = namespace->0.at("metadata"@).at("labels"@).at(
                "pod-security.kubernetes.io/enforce"@,
            );
            let pod = with_priority(with_default_tolerations(with_service_account(obj)), class);
            &&& resource != "namespaces"@ && resource != "services"@ && resource != "pods"@
                && resource != "cronjobs"@ && resource != "persistentvolumeclaims"@ ==> r == Ok::<
                Tree,
                ErrorView,
            >(obj)
            &&& resource == "namespaces"@ ==> r == Ok::<Tree, ErrorView>(
                with_namespace_defaults(obj),
            )
            &&& resource == "services"@ ==> r == Ok::<Tree, ErrorView>(with_port_defaults(obj))
            &&& resource == "pods"@ && namespace is Some && level is String ==> (r is Err
                <==> security_fault(level->String_0, pod) is Some)
            &&& resource == "pods"@ && namespace is Some && !(level is String) ==> r is Ok
            &&& resource == "pods"@ && r is Ok ==> r->Ok_0 == pod
            &&& resource == "cronjobs"@ ==> (r is Err <==> !(obj.at("spec"@).at("schedule"@)
                is String) || schedule is Some)
            &&& resource == "cronjobs"@ && r is Ok ==> r->Ok_0 == obj
            &&& resource == "persistentvolumeclaims"@ && r is Ok ==> r->Ok_0 == obj
        }),
{
    reveal_strlit("namespaces");
    reveal_strlit("services");
    reveal_strlit("pods");
    reveal_strlit("cronjobs");
    reveal_strlit("persistentvolumeclaims");
    assert("namespaces"@.len() == 10);
    assert("services"@.len() == 8);
    assert("pods"@.len() == 4);
    assert("cronjobs"@.len() == 8);
    assert("persistentvolumeclaims"@.len() == 22);
    assert("services"@[0] == 's');
    assert("cronjobs"@[0] == 'c');
}

/// A pod that says how it bears a lost node, for every effect or for being put out, is left to
/// it; one that says so for another effect alone is not.
pub proof fn law_what_a_pod_says_of_a_lost_node_counts(
    tolerations: Seq<Tree>,
    key: Seq<char>,
    i: int,
)
    requires
        0 <= i < tolerations.len(),
    ensures
        ({
            let t = tolerations[i];
            let effect = t.at("effect"@);
            &&& t.at("key"@) == Tree::String(key) && (!(effect is String) || (
            effect->String_0).len() == 0 || effect == str_tree("NoExecute")) ==> with_toleration(
                tolerations,
                key,
            ) == tolerations
        }),
        (forall|k: int|
            0 <= k < tolerations.len() ==> (#[trigger] tolerations[k]).at("key"@) != Tree::String(
                key,
            ) || (tolerations[k].at("effect"@) is String && (tolerations[k].at(
                "effect"@,
            )->String_0).len() > 0 && tolerations[k].at("effect"@) != str_tree("NoExecute")))
            ==> with_toleration(tolerations, key) == tolerations.push(default_toleration(key)),
{
    let t = tolerations[i];
    let effect = t.at("effect"@);
    if t.at("key"@) == Tree::String(key) && (!(effect is String) || (effect->String_0).len() == 0
        || effect == str_tree("NoExecute")) {
        assert(outlasts(tolerations[i], key));
    }
}

} // verus!
