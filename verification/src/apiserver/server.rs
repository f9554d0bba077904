//! What a server stores when it starts: its namespaces, its roles and itself as
//! the `kubernetes` Service.

use vstd::prelude::*;
use vstd::string::*;

use crate::apiserver::auth::{anonymous, UserView};
use crate::apiserver::builtin_admission::{ending, with_namespace_defaults};
use crate::apiserver::handlers::delete::lists;
use crate::apiserver::rbac_engine::{
    binds, law_a_rule_allows_what_it_lists, rule_allows, RequestView,
};
use crate::apiserver::storage::{cluster_key_of, namespaced_key_of, ResourceStorage};
use crate::ipv4::{address, address_text, format_address, parse_address};
use crate::json::{
    dup_all, empty_object, items_of, lemma_before_irreflexive, lemma_before_total,
    lemma_before_transitive, lemma_trees_push, no_items, opt_tree, str_tree, trees, Json,
    Numeral, Tree,
};
use crate::outside::{fresh_uid, now_text, time_shaped, uid_shaped};
use crate::text::{before, is_before, opt_text, split_at_first, split_once, texts};

verus! {

// ---------------------------------------------------------------------------
// Stamps
// ---------------------------------------------------------------------------

/// An object with a `uid` and a time of creation.
pub open spec fn stamped(obj: Tree, uid: Seq<char>, now: Seq<char>) -> Tree {
    obj.set(
        "metadata"@,
        obj.at("metadata"@).set("uid"@, Tree::String(uid)).set(
            "creationTimestamp"@,
            Tree::String(now),
        ),
    )
}

/// An object has some `uid` and some time of creation.
pub open spec fn stamped_somehow(obj: Tree, r: Tree) -> bool {
    exists|uid: Seq<char>, now: Seq<char>|
        uid_shaped(uid) && time_shaped(now) && r == #[trigger] stamped(obj, uid, now)
}

fn stamp(obj: Json) -> (r: Json)
    requires
        obj@ is Object,
        obj@.at("metadata"@) is Object,
    ensures
        stamped_somehow(obj@, r@),
{
    let ghost o = obj@;
    let mut out = obj;
    let uid = fresh_uid();
    let now = now_text();
    let mut meta = out.at("metadata").dup();
    meta.set("uid", Json::text(uid.as_str()));
    meta.set("creationTimestamp", Json::text(now.as_str()));
    out.set("metadata", meta);
    assert(out@ == stamped(o, uid@, now@));
    out
}

// ---------------------------------------------------------------------------
// Namespaces
// ---------------------------------------------------------------------------

/// A namespace of the server's own.
pub open spec fn own_namespace(name: Seq<char>) -> Tree {
    Tree::Object(
        map![
            "apiVersion"@ => str_tree("v1"),
            "kind"@ => str_tree("Namespace"),
            "metadata"@ => Tree::Object(map!["name"@ => Tree::String(name)]),
            "spec"@ => Tree::Object(map!["finalizers"@ => no_items().plus(str_tree("kubernetes"))]),
            "status"@ => Tree::Object(map!["phase"@ => str_tree("Active")]),
        ],
    )
}

/// A namespace that is created at startup where it does not exist.
pub fn bootstrap_namespace(name: &str) -> (r: (String, Json))
    ensures
        r.0@ == cluster_key_of("namespaces"@, name@),
        stamped_somehow(own_namespace(name@), r.1@),
{
    let meta = Json::object().with("name", Json::text(name));
    let spec = Json::object().with("finalizers", Json::list().and(Json::text("kubernetes")));
    let status = Json::object().with("phase", Json::text("Active"));
    let ns = Json::object().with("apiVersion", Json::text("v1")).with(
        "kind",
        Json::text("Namespace"),
    ).with("metadata", meta).with("spec", spec).with("status", status);
    proof {
        reveal_strlit("metadata");
        reveal_strlit("spec");
        reveal_strlit("status");
        assert("metadata"@.len() == 8);
        assert("spec"@.len() == 4);
        assert("status"@.len() == 6);
        assert(ns@ == own_namespace(name@));
    }
    (ResourceStorage::cluster_key("namespaces", name), stamp(ns))
}

/// The namespaces that are created at startup.
pub fn own_namespaces() -> (r: Vec<&'static str>)
    ensures
        r@.len() == 4,
        r@[0]@ == "default"@,
        r@[1]@ == "kube-system"@,
        r@[2]@ == "kube-public"@,
        r@[3]@ == "kube-node-lease"@,
{
    let mut out: Vec<&'static str> = Vec::new();
    out.push("default");
    out.push("kube-system");
    out.push("kube-public");
    out.push("kube-node-lease");
    out
}

/// The common name of the certificate that a server makes for itself.
pub const SERVER_NAME: &'static str = "kube-apiserver";

/// The DNS names of the certificate that a server makes for itself.
pub fn server_names() -> (r: Vec<String>)
    ensures
        texts(r@) == seq![
            "kubernetes"@,
            "kubernetes.default"@,
            "kubernetes.default.svc"@,
            "kubernetes.default.svc.cluster.local"@,
            "localhost"@,
        ],
{
    let mut out: Vec<String> = Vec::new();
    out.push("kubernetes".to_owned());
    out.push("kubernetes.default".to_owned());
    out.push("kubernetes.default.svc".to_owned());
    out.push("kubernetes.default.svc.cluster.local".to_owned());
    out.push("localhost".to_owned());
    assert(texts(out@) =~= seq![
        "kubernetes"@,
        "kubernetes.default"@,
        "kubernetes.default.svc"@,
        "kubernetes.default.svc.cluster.local"@,
        "localhost"@,
    ]);
    out
}

/// A namespace of the server's own has what a namespace gets on create.
pub proof fn law_own_namespaces_have_their_defaults(name: Seq<char>)
    ensures
        with_namespace_defaults(own_namespace(name)) == own_namespace(name),
{
    reveal_strlit("apiVersion");
    reveal_strlit("kind");
    reveal_strlit("metadata");
    reveal_strlit("spec");
    reveal_strlit("status");
    reveal_strlit("name");
    reveal_strlit("deletionTimestamp");
    assert("apiVersion"@.len() == 10);
    assert("kind"@.len() == 4);
    assert("kind"@[0] != "spec"@[0]);
    assert("metadata"@.len() == 8);
    assert("spec"@.len() == 4);
    assert("status"@.len() == 6);
    assert("name"@.len() == 4);
    assert("deletionTimestamp"@.len() == 17);
    let ns = own_namespace(name);
    let spec = ns.at("spec"@);
    let has = spec.at("finalizers"@).items_or_none();
    assert(has[0] == Tree::String("kubernetes"@));
    assert(lists(has, "kubernetes"@));
    assert(spec.set("finalizers"@, Tree::Array(has)) =~= spec) by {
        assert(spec->Object_0.insert("finalizers"@, Tree::Array(has)) =~= spec->Object_0);
    }
    let m = ns->Object_0;
    assert(m.insert("status"@, m["status"@]).insert("spec"@, m["spec"@]) =~= m);
    assert(!ending(ns));
    assert(m["status"@] == Tree::Object(map!["phase"@ => str_tree("Active")]));
}

// ---------------------------------------------------------------------------
// Roles
// ---------------------------------------------------------------------------

/// A ClusterRole with one rule.
pub open spec fn cluster_role(name: Seq<char>, rule: Tree) -> Tree {
    Tree::Object(
        map![
            "apiVersion"@ => str_tree("rbac.authorization.k8s.io/v1"),
            "kind"@ => str_tree("ClusterRole"),
            "metadata"@ => Tree::Object(map!["name"@ => Tree::String(name)]),
            "rules"@ => no_items().plus(rule),
        ],
    )
}

/// A ClusterRoleBinding of a role to one subject.
pub open spec fn cluster_binding(
    name: Seq<char>,
    role: Seq<char>,
    kind: Seq<char>,
    subject: Seq<char>,
) -> Tree {
    Tree::Object(
        map![
            "apiVersion"@ => str_tree("rbac.authorization.k8s.io/v1"),
            "kind"@ => str_tree("ClusterRoleBinding"),
            "metadata"@ => Tree::Object(map!["name"@ => Tree::String(name)]),
            "roleRef"@ => Tree::Object(
                map![
                    "apiGroup"@ => str_tree("rbac.authorization.k8s.io"),
                    "kind"@ => str_tree("ClusterRole"),
                    "name"@ => Tree::String(role),
                ],
            ),
            "subjects"@ => no_items().plus(
                Tree::Object(
                    map![
                        "kind"@ => Tree::String(kind),
                        "name"@ => Tree::String(subject),
                        "apiGroup"@ => str_tree("rbac.authorization.k8s.io"),
                    ],
                ),
            ),
        ],
    )
}

/// The rule that allows everything.
pub open spec fn rule_for_all() -> Tree {
    Tree::Object(
        map![
            "apiGroups"@ => no_items().plus(str_tree("*")),
            "resources"@ => no_items().plus(str_tree("*")),
            "verbs"@ => no_items().plus(str_tree("*")),
        ],
    )
}

/// The rule that allows a node to ask for a certificate.
pub open spec fn rule_for_joining() -> Tree {
    Tree::Object(
        map![
            "apiGroups"@ => no_items().plus(str_tree("certificates.k8s.io")),
            "resources"@ => no_items().plus(str_tree("certificatesigningrequests")),
            "verbs"@ => no_items().plus(str_tree("create")).plus(str_tree("get")).plus(
                str_tree("list"),
            ).plus(str_tree("watch")),
        ],
    )
}

/// The rule that allows to read what the server serves.
pub open spec fn rule_for_discovery() -> Tree {
    Tree::Object(
        map![
            "nonResourceURLs"@ => no_items().plus(str_tree("/api")).plus(str_tree("/apis")).plus(
                str_tree("/api/*"),
            ).plus(str_tree("/apis/*")).plus(str_tree("/healthz")).plus(str_tree("/version")),
            "verbs"@ => no_items().plus(str_tree("get")),
        ],
    )
}

/// A role and the key it is stored under.
pub open spec fn keyed_role(name: Seq<char>, rule: Tree) -> (Seq<char>, Tree) {
    (cluster_key_of("clusterroles"@, name), cluster_role(name, rule))
}

/// A binding and the key it is stored under.
pub open spec fn keyed_binding(
    name: Seq<char>,
    role: Seq<char>,
    kind: Seq<char>,
    subject: Seq<char>,
) -> (Seq<char>, Tree) {
    (cluster_key_of("clusterrolebindings"@, name), cluster_binding(name, role, kind, subject))
}

/// The roles and bindings that every server starts with.
pub open spec fn standing_roles() -> Seq<(Seq<char>, Tree)> {
    Seq::empty().push(keyed_role("cluster-admin"@, rule_for_all())).push(
        keyed_binding("system:masters"@, "cluster-admin"@, "Group"@, "system:masters"@),
    ).push(
        keyed_binding(
            "system:kube-controller-manager"@,
            "cluster-admin"@,
            "User"@,
            "system:kube-controller-manager"@,
        ),
    ).push(
        keyed_binding(
            "system:kube-scheduler"@,
            "cluster-admin"@,
            "User"@,
            "system:kube-scheduler"@,
        ),
    ).push(keyed_role("system:node-bootstrapper"@, rule_for_joining())).push(
        keyed_binding(
            "system:node-bootstrapper"@,
            "system:node-bootstrapper"@,
            "Group"@,
            "system:bootstrappers"@,
        ),
    ).push(
        keyed_binding("system:nodes"@, "cluster-admin"@, "Group"@, "system:nodes"@),
    ).push(keyed_role("system:discovery"@, rule_for_discovery())).push(
        keyed_binding(
            "system:anonymous-discovery"@,
            "system:discovery"@,
            "User"@,
            "system:anonymous"@,
        ),
    )
}

/// The roles and bindings that a server starts with. That requests without
/// credentials may do everything takes both flags.
pub open spec fn bootstrap_roles(anonymous_auth: bool, dev_anonymous_admin: bool) -> Seq<
    (Seq<char>, Tree),
> {
    if anonymous_auth && dev_anonymous_admin {
        standing_roles().push(
            keyed_binding(
                "system:anonymous-admin"@,
                "cluster-admin"@,
                "User"@,
                "system:anonymous"@,
            ),
        )
    } else {
        standing_roles()
    }
}

/// Objects and their keys, stamped.
pub open spec fn stamped_all(want: Seq<(Seq<char>, Tree)>, r: Seq<(String, Json)>) -> bool {
    want.len() == r.len() && forall|i: int|
        0 <= i < r.len() ==> (#[trigger] r[i]).0@ == want[i].0 && stamped_somehow(
            want[i].1,
            r[i].1@,
        )
}

fn named(name: &str) -> (r: Json)
    ensures
        r@ == Tree::Object(map!["name"@ => Tree::String(name@)]),
{
    Json::object().with("name", Json::text(name))
}

fn make_role(name: &str, rule: Json) -> (r: Json)
    ensures
        r@ == cluster_role(name@, rule@),
{
    Json::object().with("apiVersion", Json::text("rbac.authorization.k8s.io/v1")).with(
        "kind",
        Json::text("ClusterRole"),
    ).with("metadata", named(name)).with("rules", Json::list().and(rule))
}

fn make_binding(name: &str, role: &str, kind: &str, subject: &str) -> (r: Json)
    ensures
        r@ == cluster_binding(name@, role@, kind@, subject@),
{
    let role_ref = Json::object().with("apiGroup", Json::text("rbac.authorization.k8s.io")).with(
        "kind",
        Json::text("ClusterRole"),
    ).with("name", Json::text(role));
    let subjects = Json::list().and(
        Json::object().with("kind", Json::text(kind)).with("name", Json::text(subject)).with(
            "apiGroup",
            Json::text("rbac.authorization.k8s.io"),
        ),
    );
    Json::object().with("apiVersion", Json::text("rbac.authorization.k8s.io/v1")).with(
        "kind",
        Json::text("ClusterRoleBinding"),
    ).with("metadata", named(name)).with("roleRef", role_ref).with("subjects", subjects)
}

fn all_rule() -> (r: Json)
    ensures
        r@ == rule_for_all(),
{
    Json::object().with("apiGroups", Json::list().and(Json::text("*"))).with(
        "resources",
        Json::list().and(Json::text("*")),
    ).with("verbs", Json::list().and(Json::text("*")))
}

fn joining_rule() -> (r: Json)
    ensures
        r@ == rule_for_joining(),
{
    let verbs = Json::list().and(Json::text("create")).and(Json::text("get")).and(
        Json::text("list"),
    ).and(Json::text("watch"));
    Json::object().with("apiGroups", Json::list().and(Json::text("certificates.k8s.io"))).with(
        "resources",
        Json::list().and(Json::text("certificatesigningrequests")),
    ).with("verbs", verbs)
}

fn discovery_rule() -> (r: Json)
    ensures
        r@ == rule_for_discovery(),
{
    let urls = Json::list().and(Json::text("/api")).and(Json::text("/apis")).and(
        Json::text("/api/*"),
    ).and(Json::text("/apis/*")).and(Json::text("/healthz")).and(Json::text("/version"));
    Json::object().with("nonResourceURLs", urls).with(
        "verbs",
        Json::list().and(Json::text("get")),
    )
}

proof fn lemma_role_has_metadata(name: Seq<char>, rule: Tree)
    ensures
        cluster_role(name, rule).at("metadata"@) is Object,
{
    reveal_strlit("metadata");
    reveal_strlit("rules");
    assert("metadata"@.len() == 8);
    assert("rules"@.len() == 5);
}

proof fn lemma_binding_has_metadata(
    name: Seq<char>,
    role: Seq<char>,
    kind: Seq<char>,
    subject: Seq<char>,
)
    ensures
        cluster_binding(name, role, kind, subject).at("metadata"@) is Object,
{
    reveal_strlit("metadata");
    reveal_strlit("roleRef");
    reveal_strlit("subjects");
    assert("metadata"@.len() == 8);
    assert("roleRef"@.len() == 7);
    assert("subjects"@.len() == 8);
    assert("metadata"@[0] != "subjects"@[0]);
}

fn add_role(out: &mut Vec<(String, Json)>, name: &str, rule: Json, Ghost(want): Ghost<
    Seq<(Seq<char>, Tree)>,
>)
    requires
        stamped_all(want, old(out)@),
    ensures
        stamped_all(want.push(keyed_role(name@, rule@)), final(out)@),
{
    proof {
        lemma_role_has_metadata(name@, rule@);
    }
    let obj = stamp(make_role(name, rule));
    out.push((ResourceStorage::cluster_key("clusterroles", name), obj));
}

fn add_binding(
    out: &mut Vec<(String, Json)>,
    name: &str,
    role: &str,
    kind: &str,
    subject: &str,
    Ghost(want): Ghost<Seq<(Seq<char>, Tree)>>,
)
    requires
        stamped_all(want, old(out)@),
    ensures
        stamped_all(want.push(keyed_binding(name@, role@, kind@, subject@)), final(out)@),
{
    proof {
        lemma_binding_has_metadata(name@, role@, kind@, subject@);
    }
    let obj = stamp(make_binding(name, role, kind, subject));
    out.push((ResourceStorage::cluster_key("clusterrolebindings", name), obj));
}

/// The roles and bindings that a server creates at startup, each with its key.
pub fn bootstrap_rbac(anonymous_auth: bool, dev_anonymous_admin: bool) -> (r: Vec<(String, Json)>)
    ensures
        stamped_all(bootstrap_roles(anonymous_auth, dev_anonymous_admin), r@),
{
    let mut out: Vec<(String, Json)> = Vec::new();
    let ghost w0 = Seq::<(Seq<char>, Tree)>::empty();
    add_role(&mut out, "cluster-admin", all_rule(), Ghost(w0));
    let ghost w1 = w0.push(keyed_role("cluster-admin"@, rule_for_all()));
    add_binding(
        &mut out,
        "system:masters",
        "cluster-admin",
        "Group",
        "system:masters",
        Ghost(w1),
    );
    let ghost w2 = w1.push(
        keyed_binding("system:masters"@, "cluster-admin"@, "Group"@, "system:masters"@),
    );
    add_binding(
        &mut out,
        "system:kube-controller-manager",
        "cluster-admin",
        "User",
        "system:kube-controller-manager",
        Ghost(w2),
    );
    let ghost w3 = w2.push(
        keyed_binding(
            "system:kube-controller-manager"@,
            "cluster-admin"@,
            "User"@,
            "system:kube-controller-manager"@,
        ),
    );
    add_binding(
        &mut out,
        "system:kube-scheduler",
        "cluster-admin",
        "User",
        "system:kube-scheduler",
        Ghost(w3),
    );
    let ghost w4 = w3.push(
        keyed_binding(
            "system:kube-scheduler"@,
            "cluster-admin"@,
            "User"@,
            "system:kube-scheduler"@,
        ),
    );
    add_role(&mut out, "system:node-bootstrapper", joining_rule(), Ghost(w4));
    let ghost w5 = w4.push(keyed_role("system:node-bootstrapper"@, rule_for_joining()));
    add_binding(
        &mut out,
        "system:node-bootstrapper",
        "system:node-bootstrapper",
        "Group",
        "system:bootstrappers",
        Ghost(w5),
    );
    let ghost w6 = w5.push(
        keyed_binding(
            "system:node-bootstrapper"@,
            "system:node-bootstrapper"@,
            "Group"@,
            "system:bootstrappers"@,
        ),
    );
    add_binding(&mut out, "system:nodes", "cluster-admin", "Group", "system:nodes", Ghost(w6));
    let ghost w7 = w6.push(
        keyed_binding("system:nodes"@, "cluster-admin"@, "Group"@, "system:nodes"@),
    );
    add_role(&mut out, "system:discovery", discovery_rule(), Ghost(w7));
    let ghost w8 = w7.push(keyed_role("system:discovery"@, rule_for_discovery()));
    add_binding(
        &mut out,
        "system:anonymous-discovery",
        "system:discovery",
        "User",
        "system:anonymous",
        Ghost(w8),
    );
    if anonymous_auth && dev_anonymous_admin {
        add_binding(
            &mut out,
            "system:anonymous-admin",
            "cluster-admin",
            "User",
            "system:anonymous",
            Ghost(standing_roles()),
        );
    }
    out
}

/// A binding gives somebody the role of the administrator.
pub open spec fn gives_admin(obj: Tree) -> bool {
    obj.at("kind"@) == str_tree("ClusterRoleBinding") && obj.at("roleRef"@).at("name"@) == str_tree(
        "cluster-admin",
    )
}

proof fn lemma_binding_parts(
    name: Seq<char>,
    role: Seq<char>,
    kind: Seq<char>,
    subject: Seq<char>,
    user: UserView,
)
    ensures
        cluster_binding(name, role, kind, subject).at("roleRef"@).at("name"@) == Tree::String(role),
        kind == "User"@ ==> (binds(cluster_binding(name, role, kind, subject), user) <==> subject
            == user.username),
        kind == "Group"@ ==> (binds(cluster_binding(name, role, kind, subject), user)
            <==> user.groups.contains(subject)),
{
    let b = cluster_binding(name, role, kind, subject);
    reveal_strlit("apiVersion");
    reveal_strlit("apiGroup");
    reveal_strlit("kind");
    reveal_strlit("name");
    reveal_strlit("roleRef");
    reveal_strlit("subjects");
    reveal_strlit("metadata");
    reveal_strlit("User");
    reveal_strlit("Group");
    assert("apiGroup"@.len() == 8);
    assert("apiVersion"@.len() == 10);
    assert("kind"@.len() == 4);
    assert("name"@.len() == 4);
    assert("kind"@[0] != "name"@[0]);
    assert("roleRef"@.len() == 7);
    assert("subjects"@.len() == 8);
    assert("User"@.len() == 4);
    assert("Group"@.len() == 5);
    let s = b.at("subjects"@).items_or_none();
    assert(s.len() == 1);
    assert(s[0].at("kind"@) == Tree::String(kind));
    assert(s[0].at("name"@) == Tree::String(subject));
}

/// A server gives requests without credentials no standing access: unless both
/// flags are set, no binding that it starts with makes them administrator.
pub proof fn law_anonymous_is_not_admin(anonymous_auth: bool, dev_anonymous_admin: bool, i: int)
    requires
        !(anonymous_auth && dev_anonymous_admin),
        0 <= i < bootstrap_roles(anonymous_auth, dev_anonymous_admin).len(),
        gives_admin(bootstrap_roles(anonymous_auth, dev_anonymous_admin)[i].1),
    ensures
        !binds(bootstrap_roles(anonymous_auth, dev_anonymous_admin)[i].1, anonymous()),
{
    let user = anonymous();
    reveal_strlit("cluster-admin");
    reveal_strlit("system:discovery");
    reveal_strlit("system:masters");
    reveal_strlit("system:nodes");
    reveal_strlit("system:anonymous");
    reveal_strlit("system:unauthenticated");
    reveal_strlit("system:kube-controller-manager");
    reveal_strlit("system:kube-scheduler");
    reveal_strlit("system:node-bootstrapper");
    reveal_strlit("ClusterRole");
    reveal_strlit("ClusterRoleBinding");
    reveal_strlit("kind");
    reveal_strlit("rules");
    reveal_strlit("metadata");
    reveal_strlit("apiVersion");
    assert("kind"@.len() == 4);
    assert("rules"@.len() == 5);
    assert("metadata"@.len() == 8);
    assert("apiVersion"@.len() == 10);
    assert("ClusterRole"@.len() == 11);
    assert("ClusterRoleBinding"@.len() == 18);
    assert("cluster-admin"@.len() == 13);
    assert("system:discovery"@.len() == 16);
    assert("system:node-bootstrapper"@.len() == 24);
    assert("system:anonymous"@.len() == 16);
    assert("system:kube-controller-manager"@.len() == 30);
    assert("system:kube-scheduler"@.len() == 21);
    assert("system:unauthenticated"@.len() == 22);
    assert("system:masters"@.len() == 14);
    assert("system:nodes"@.len() == 12);
    lemma_binding_parts("system:masters"@, "cluster-admin"@, "Group"@, "system:masters"@, user);
    lemma_binding_parts(
        "system:kube-controller-manager"@,
        "cluster-admin"@,
        "User"@,
        "system:kube-controller-manager"@,
        user,
    );
    lemma_binding_parts(
        "system:kube-scheduler"@,
        "cluster-admin"@,
        "User"@,
        "system:kube-scheduler"@,
        user,
    );
    lemma_binding_parts(
        "system:node-bootstrapper"@,
        "system:node-bootstrapper"@,
        "Group"@,
        "system:bootstrappers"@,
        user,
    );
    lemma_binding_parts("system:nodes"@, "cluster-admin"@, "Group"@, "system:nodes"@, user);
    lemma_binding_parts(
        "system:anonymous-discovery"@,
        "system:discovery"@,
        "User"@,
        "system:anonymous"@,
        user,
    );
    let all = standing_roles();
    assert(all.len() == 9);
    assert(all[0] == keyed_role("cluster-admin"@, rule_for_all()));
    assert(all[4] == keyed_role("system:node-bootstrapper"@, rule_for_joining()));
    assert(all[7] == keyed_role("system:discovery"@, rule_for_discovery()));
    assert(!user.groups.contains("system:masters"@)) by {
        assert(user.groups[0] == "system:unauthenticated"@);
    }
    assert(!user.groups.contains("system:nodes"@)) by {
        assert(user.groups[0] == "system:unauthenticated"@);
    }
}

// ---------------------------------------------------------------------------
// The `kubernetes` Service
// ---------------------------------------------------------------------------

/// The first address of a range of Services.
pub open spec fn first_address(cidr: Seq<char>) -> Option<Seq<char>> {
    match split_once(cidr, '/') {
        Some((a, _)) => match address(a) {
            Some(base) => if base + 1 <= u32::MAX {
                Some(address_text(base + 1))
            } else {
                None
            },
            None => None,
        },
        None => None,
    }
}

/// The first address of a range of Services, which is that of the `kubernetes`
/// Service: `10.96.0.1` of `10.96.0.0/12`.
pub fn first_service_ip(cidr: &str) -> (r: Option<String>)
    ensures
        opt_text(r) == first_address(cidr@),
{
    match split_at_first(cidr, '/') {
        Some((a, _)) => match parse_address(a) {
            Some(base) => {
                if base < 4294967295 {
                    Some(format_address(base + 1))
                } else {
                    None
                }
            },
            None => None,
        },
        None => None,
    }
}

/// The `kubernetes` Service, which has no selector.
pub open spec fn kubernetes_service(cluster_ip: Seq<char>, port: u16) -> Tree {
    Tree::Object(
        map![
            "apiVersion"@ => str_tree("v1"),
            "kind"@ => str_tree("Service"),
            "metadata"@ => Tree::Object(
                map![
                    "name"@ => str_tree("kubernetes"),
                    "namespace"@ => str_tree("default"),
                    "labels"@ => Tree::Object(
                        map![
                            "component"@ => str_tree("apiserver"),
                            "provider"@ => str_tree("kubernetes"),
                        ],
                    ),
                ],
            ),
            "spec"@ => Tree::Object(
                map![
                    "clusterIP"@ => Tree::String(cluster_ip),
                    "clusterIPs"@ => no_items().plus(Tree::String(cluster_ip)),
                    "type"@ => str_tree("ClusterIP"),
                    "sessionAffinity"@ => str_tree("None"),
                    "ipFamilies"@ => no_items().plus(str_tree("IPv4")),
                    "ports"@ => no_items().plus(
                        Tree::Object(
                            map![
                                "name"@ => str_tree("https"),
                                "protocol"@ => str_tree("TCP"),
                                "port"@ => Tree::Number(Numeral::PosInt(443)),
                                "targetPort"@ => Tree::Number(Numeral::PosInt(port as u64)),
                            ],
                        ),
                    ),
                ],
            ),
            "status"@ => Tree::Object(map!["loadBalancer"@ => empty_object()]),
        ],
    )
}

/// The `kubernetes` Service and its key, for a store that has none.
pub fn service_object(cluster_ip: &str, port: u16) -> (r: (String, Json))
    ensures
        r.0@ == namespaced_key_of("services"@, "default"@, "kubernetes"@),
        stamped_somehow(kubernetes_service(cluster_ip@, port), r.1@),
{
    let labels = Json::object().with("component", Json::text("apiserver")).with(
        "provider",
        Json::text("kubernetes"),
    );
    let meta = Json::object().with("name", Json::text("kubernetes")).with(
        "namespace",
        Json::text("default"),
    ).with("labels", labels);
    let https = Json::object().with("name", Json::text("https")).with(
        "protocol",
        Json::text("TCP"),
    ).with("port", Json::uint(443)).with("targetPort", Json::uint(port as u64));
    let spec = Json::object().with("clusterIP", Json::text(cluster_ip)).with(
        "clusterIPs",
        Json::list().and(Json::text(cluster_ip)),
    ).with("type", Json::text("ClusterIP")).with("sessionAffinity", Json::text("None")).with(
        "ipFamilies",
        Json::list().and(Json::text("IPv4")),
    ).with("ports", Json::list().and(https));
    let status = Json::object().with("loadBalancer", Json::object());
    let svc = Json::object().with("apiVersion", Json::text("v1")).with(
        "kind",
        Json::text("Service"),
    ).with("metadata", meta).with("spec", spec).with("status", status);
    proof {
        reveal_strlit("metadata");
        reveal_strlit("spec");
        reveal_strlit("status");
        assert("metadata"@.len() == 8);
        assert("spec"@.len() == 4);
        assert("status"@.len() == 6);
        assert(svc@ == kubernetes_service(cluster_ip@, port));
    }
    (ResourceStorage::namespaced_key("services", "default", "kubernetes"), stamp(svc))
}

/// The address of an entry, by which entries are ordered.
pub open spec fn entry_ip(a: Tree) -> Seq<char> {
    a.at("ip"@).text_or_empty()
}

/// Entries in order with one more behind those that are not greater.
pub open spec fn with_entry(entries: Seq<Tree>, a: Tree) -> Seq<Tree>
    decreases entries.len(),
{
    if entries.len() == 0 || !before(entry_ip(a), entry_ip(entries.last())) {
        entries.push(a)
    } else {
        with_entry(entries.drop_last(), a).push(entries.last())
    }
}

/// Entries in the order of their addresses; those of one address keep theirs.
pub open spec fn by_address(entries: Seq<Tree>) -> Seq<Tree>
    decreases entries.len(),
{
    if entries.len() == 0 {
        Seq::empty()
    } else {
        with_entry(by_address(entries.drop_last()), entries.last())
    }
}

/// One of the entries has an address.
pub open spec fn lists_address(entries: Seq<Tree>, ip: Seq<char>) -> bool {
    exists|i: int|
        0 <= i < entries.len() && (#[trigger] entries[i]).at("ip"@) == Tree::String(ip)
}

/// The addresses in the stored endpoints.
pub open spec fn stored_addresses(endpoints: Option<Tree>) -> Seq<Tree> {
    match endpoints {
        Some(e) => e.at("subsets"@).item(0).at("addresses"@).items_or_none(),
        None => Seq::empty(),
    }
}

/// An entry for an address.
pub open spec fn entry_for(ip: Seq<char>) -> Tree {
    Tree::Object(map!["ip"@ => Tree::String(ip)])
}

/// The entries with one for a server; none where it is listed.
pub open spec fn registration(endpoints: Option<Tree>, ip: Seq<char>) -> Option<Seq<Tree>> {
    let entries = stored_addresses(endpoints);
    if lists_address(entries, ip) {
        None
    } else {
        Some(by_address(entries.push(entry_for(ip))))
    }
}

fn has_address(entries: &Vec<Json>, ip: &str) -> (r: bool)
    ensures
        r == lists_address(trees(entries@), ip@),
{
    let mut i: usize = 0;
    while i < entries.len()
        invariant
            i <= entries.len(),
            forall|j: int|
                0 <= j < i ==> (#[trigger] trees(entries@)[j]).at("ip"@) != Tree::String(ip@),
        decreases entries.len() - i,
    {
        if entries[i].at("ip").is_text(ip) {
            assert(trees(entries@)[i as int].at("ip"@) == Tree::String(ip@));
            return true;
        }
        i = i + 1;
    }
    false
}

fn place_entry(entries: &mut Vec<Json>, a: Json)
    ensures
        trees(final(entries)@) == with_entry(trees(old(entries)@), a@),
{
    let ghost all = trees(entries@);
    let ghost av = a@;
    let mut n: usize = entries.len();
    proof {
        assert(all.take(n as int) =~= all);
        assert(with_entry(all, av) =~= with_entry(all.take(n as int), av) + all.skip(n as int));
    }
    while n > 0 && is_before(a.at("ip").str_or_empty(), entries[n - 1].at("ip").str_or_empty())
        invariant
            n <= entries.len(),
            entries@ == old(entries)@,
            all == trees(entries@),
            av == a@,
            with_entry(all, av) == with_entry(all.take(n as int), av) + all.skip(n as int),
        decreases n,
    {
        proof {
            let t = all.take(n as int);
            assert(t.last() == entries@[n - 1]@);
            assert(t.drop_last() =~= all.take(n - 1));
            assert(all.skip(n - 1) =~= seq![t.last()] + all.skip(n as int));
            assert(with_entry(all, av) =~= with_entry(all.take(n - 1), av) + all.skip(n - 1));
        }
        n = n - 1;
    }
    proof {
        let t = all.take(n as int);
        if n > 0 {
            assert(t.last() == entries@[n - 1]@);
        }
        assert(with_entry(t, av) == t.push(av));
    }
    entries.insert(n, a);
    assert(trees(entries@) =~= all.take(n as int).push(av) + all.skip(n as int));
}

fn sort_entries(entries: Vec<Json>) -> (r: Vec<Json>)
    ensures
        trees(r@) == by_address(trees(entries@)),
{
    let mut out: Vec<Json> = Vec::new();
    let ghost ts = trees(entries@);
    assert(trees(out@) =~= Seq::<Tree>::empty());
    let mut i: usize = 0;
    while i < entries.len()
        invariant
            i <= entries.len(),
            ts == trees(entries@),
            trees(out@) == by_address(ts.take(i as int)),
        decreases entries.len() - i,
    {
        proof {
            assert(ts.take(i + 1).drop_last() =~= ts.take(i as int));
            assert(ts.take(i + 1).last() == entries@[i as int]@);
        }
        place_entry(&mut out, entries[i].dup());
        i = i + 1;
    }
    assert(ts.take(i as int) =~= ts);
    out
}

/// The entries with one for this server, for stored endpoints that do not list
/// it.
pub fn register_address(endpoints: Option<&Json>, advertise: &str) -> (r: Option<Vec<Json>>)
    ensures
        match r {
            Some(v) => registration(opt_tree(endpoints), advertise@) == Some(trees(v@)),
            None => registration(opt_tree(endpoints), advertise@) is None,
        },
{
    let mut entries: Vec<Json> = match endpoints {
        Some(e) => items_of(e.at("subsets").item(0).at("addresses")),
        None => {
            let none: Vec<Json> = Vec::new();
            assert(trees(none@) =~= Seq::<Tree>::empty());
            none
        },
    };
    if has_address(&entries, advertise) {
        return None;
    }
    let entry = Json::object().with("ip", Json::text(advertise));
    proof {
        lemma_trees_push(entries@, entry);
    }
    entries.push(entry);
    Some(sort_entries(entries))
}

/// The port of the server in its endpoints.
pub open spec fn https_port(port: u16) -> Tree {
    Tree::Object(
        map![
            "name"@ => str_tree("https"),
            "port"@ => Tree::Number(Numeral::PosInt(port as u64)),
            "protocol"@ => str_tree("TCP"),
        ],
    )
}

/// The endpoints of the `kubernetes` Service.
pub open spec fn kubernetes_endpoints(entries: Seq<Tree>, port: u16) -> Tree {
    Tree::Object(
        map![
            "apiVersion"@ => str_tree("v1"),
            "kind"@ => str_tree("Endpoints"),
            "metadata"@ => Tree::Object(
                map![
                    "name"@ => str_tree("kubernetes"),
                    "namespace"@ => str_tree("default"),
                ],
            ),
            "subsets"@ => no_items().plus(
                Tree::Object(
                    map![
                        "addresses"@ => Tree::Array(entries),
                        "ports"@ => no_items().plus(https_port(port)),
                    ],
                ),
            ),
        ],
    )
}

fn make_port(port: u16) -> (r: Json)
    ensures
        r@ == https_port(port),
{
    Json::object().with("name", Json::text("https")).with("port", Json::uint(port as u64)).with(
        "protocol",
        Json::text("TCP"),
    )
}

/// The endpoints of the `kubernetes` Service.
pub fn endpoints_object(entries: &Vec<Json>, port: u16) -> (r: (String, Json))
    ensures
        r.0@ == namespaced_key_of("endpoints"@, "default"@, "kubernetes"@),
        r.1@ == kubernetes_endpoints(trees(entries@), port),
{
    let meta = Json::object().with("name", Json::text("kubernetes")).with(
        "namespace",
        Json::text("default"),
    );
    let subset = Json::object().with("addresses", Json::Array(dup_all(entries))).with(
        "ports",
        Json::list().and(make_port(port)),
    );
    let obj = Json::object().with("apiVersion", Json::text("v1")).with(
        "kind",
        Json::text("Endpoints"),
    ).with("metadata", meta).with("subsets", Json::list().and(subset));
    (ResourceStorage::namespaced_key("endpoints", "default", "kubernetes"), obj)
}

/// An entry of the endpoints as an endpoint of a slice.
pub open spec fn slice_entry(a: Tree) -> Tree {
    Tree::Object(
        map![
            "addresses"@ => no_items().plus(Tree::String(entry_ip(a))),
            "conditions"@ => Tree::Object(map!["ready"@ => Tree::Bool(true)]),
        ],
    )
}

/// The slice that mirrors the endpoints.
pub open spec fn kubernetes_slice(entries: Seq<Tree>, port: u16) -> Tree {
    Tree::Object(
        map![
            "apiVersion"@ => str_tree("discovery.k8s.io/v1"),
            "kind"@ => str_tree("EndpointSlice"),
            "metadata"@ => Tree::Object(
                map![
                    "name"@ => str_tree("kubernetes"),
                    "namespace"@ => str_tree("default"),
                    "labels"@ => Tree::Object(
                        map!["kubernetes.io/service-name"@ => str_tree("kubernetes")],
                    ),
                ],
            ),
            "addressType"@ => str_tree("IPv4"),
            "endpoints"@ => Tree::Array(entries.map_values(|a: Tree| slice_entry(a))),
            "ports"@ => no_items().plus(https_port(port)),
        ],
    )
}

fn slice_entries(entries: &Vec<Json>) -> (r: Vec<Json>)
    ensures
        trees(r@) == trees(entries@).map_values(|a: Tree| slice_entry(a)),
{
    let mut out: Vec<Json> = Vec::new();
    let mut i: usize = 0;
    while i < entries.len()
        invariant
            i <= entries.len(),
            out@.len() == i,
            forall|j: int| 0 <= j < i ==> (#[trigger] out@[j])@ == slice_entry(entries@[j]@),
        decreases entries.len() - i,
    {
        let ip = entries[i].at("ip").str_or_empty();
        let e = Json::object().with("addresses", Json::list().and(Json::text(ip))).with(
            "conditions",
            Json::object().with("ready", Json::flag(true)),
        );
        out.push(e);
        i = i + 1;
    }
    assert(trees(out@) =~= trees(entries@).map_values(|a: Tree| slice_entry(a)));
    out
}

/// The slice that mirrors the endpoints.
pub fn slice_object(entries: &Vec<Json>, port: u16) -> (r: (String, Json))
    ensures
        r.0@ == namespaced_key_of("endpointslices"@, "default"@, "kubernetes"@),
        r.1@ == kubernetes_slice(trees(entries@), port),
{
    let meta = Json::object().with("name", Json::text("kubernetes")).with(
        "namespace",
        Json::text("default"),
    ).with(
        "labels",
        Json::object().with("kubernetes.io/service-name", Json::text("kubernetes")),
    );
    let obj = Json::object().with("apiVersion", Json::text("discovery.k8s.io/v1")).with(
        "kind",
        Json::text("EndpointSlice"),
    ).with("metadata", meta).with("addressType", Json::text("IPv4")).with(
        "endpoints",
        Json::Array(slice_entries(entries)),
    ).with("ports", Json::list().and(make_port(port)));
    (ResourceStorage::namespaced_key("endpointslices", "default", "kubernetes"), obj)
}

/// Putting an entry in its place adds that entry and no other.
proof fn lemma_with_entry(entries: Seq<Tree>, a: Tree)
    ensures
        with_entry(entries, a).len() == entries.len() + 1,
        forall|x: Tree| #[trigger]
            with_entry(entries, a).contains(x) <==> entries.contains(x) || x == a,
    decreases entries.len(),
{
    let r = with_entry(entries, a);
    if entries.len() == 0 || !before(entry_ip(a), entry_ip(entries.last())) {
        assert forall|x: Tree| #[trigger] r.contains(x) <==> entries.contains(x) || x == a by {
            if entries.contains(x) {
                let i = entries.index_of(x);
                assert(r[i] == x);
            }
            assert(r[entries.len() as int] == a);
        }
    } else {
        let short = entries.drop_last();
        lemma_with_entry(short, a);
        let inner = with_entry(short, a);
        assert forall|x: Tree| #[trigger] r.contains(x) <==> entries.contains(x) || x == a by {
            assert(inner.contains(x) <==> short.contains(x) || x == a);
            if inner.contains(x) {
                let i = inner.index_of(x);
                assert(r[i] == x);
            }
            assert(r[inner.len() as int] == entries.last());
            if short.contains(x) {
                let i = short.index_of(x);
                assert(entries[i] == x);
            }
            if entries.contains(x) {
                let i = entries.index_of(x);
                if i < short.len() {
                    assert(short[i] == x);
                }
            }
            if r.contains(x) {
                let i = r.index_of(x);
                if i < inner.len() {
                    assert(inner[i] == x);
                }
            }
        }
    }
}

proof fn lemma_by_address(entries: Seq<Tree>)
    ensures
        by_address(entries).len() == entries.len(),
        forall|x: Tree| #[trigger] by_address(entries).contains(x) <==> entries.contains(x),
    decreases entries.len(),
{
    if entries.len() > 0 {
        let short = entries.drop_last();
        lemma_by_address(short);
        lemma_with_entry(by_address(short), entries.last());
        assert forall|x: Tree| #[trigger] by_address(entries).contains(x) <==> entries.contains(
            x,
        ) by {
            assert(by_address(short).contains(x) <==> short.contains(x));
            if short.contains(x) {
                let i = short.index_of(x);
                assert(entries[i] == x);
            }
            if entries.contains(x) {
                let i = entries.index_of(x);
                if i < short.len() {
                    assert(short[i] == x);
                }
            }
            assert(entries[entries.len() - 1] == entries.last());
        }
    }
}

/// A server registers once: when it has written its endpoints, it finds itself
/// listed, and so does every server that was listed before.
pub proof fn law_registration_is_final(endpoints: Option<Tree>, ip: Seq<char>, port: u16)
    requires
        registration(endpoints, ip) is Some,
    ensures
        registration(
            Some(kubernetes_endpoints(registration(endpoints, ip)->0, port)),
            ip,
        ) is None,
        forall|other: Seq<char>|
            lists_address(stored_addresses(endpoints), other) ==> #[trigger] lists_address(
                registration(endpoints, ip)->0,
                other,
            ),
{
    let old_entries = stored_addresses(endpoints);
    let added = old_entries.push(entry_for(ip));
    let entries = by_address(added);
    lemma_by_address(added);
    let doc = kubernetes_endpoints(entries, port);
    reveal_strlit("subsets");
    reveal_strlit("metadata");
    reveal_strlit("addresses");
    reveal_strlit("ports");
    assert("subsets"@.len() == 7);
    assert("metadata"@.len() == 8);
    assert("addresses"@.len() == 9);
    assert("ports"@.len() == 5);
    assert(stored_addresses(Some(doc)) == entries);
    assert(added[old_entries.len() as int] == entry_for(ip));
    assert(added.contains(entry_for(ip)));
    assert(entries.contains(entry_for(ip)));
    let k = entries.index_of(entry_for(ip));
    assert(entries[k].at("ip"@) == Tree::String(ip));
    assert forall|other: Seq<char>| lists_address(old_entries, other) implies #[trigger] lists_address(
        entries,
        other,
    ) by {
        let i = choose|i: int|
            0 <= i < old_entries.len() && (#[trigger] old_entries[i]).at("ip"@) == Tree::String(
                other,
            );
        assert(added[i] == old_entries[i]);
        assert(added.contains(old_entries[i]));
        assert(entries.contains(old_entries[i]));
        let j = entries.index_of(old_entries[i]);
        assert(entries[j].at("ip"@) == Tree::String(other));
    }
}

/// What a server makes has an identity and an age, and is else what was asked for.
pub proof fn law_a_stamp_is_all_that_is_added(
    obj: Tree,
    uid: Seq<char>,
    now: Seq<char>,
    key: Seq<char>,
    field: Seq<char>,
)
    requires
        obj is Object,
        obj.at("metadata"@) is Object,
        key != "metadata"@,
        field != "uid"@,
        field != "creationTimestamp"@,
    ensures
        stamped(obj, uid, now).get(key) == obj.get(key),
        stamped(obj, uid, now).at("metadata"@).get(field) == obj.at("metadata"@).get(field),
        stamped(obj, uid, now).at("metadata"@).at("uid"@) == Tree::String(uid),
        stamped(obj, uid, now).at("metadata"@).at("creationTimestamp"@) == Tree::String(now),
{
    reveal_strlit("uid");
    reveal_strlit("creationTimestamp");
    assert("uid"@.len() == 3);
    assert("creationTimestamp"@.len() == 17);
}

/// A binding binds the subject that it names to the role that it names.
pub proof fn law_a_binding_says_whom_and_what(
    name: Seq<char>,
    role: Seq<char>,
    kind: Seq<char>,
    subject: Seq<char>,
)
    ensures
        ({
            let b = cluster_binding(name, role, kind, subject);
            &&& b.at("kind"@) == str_tree("ClusterRoleBinding")
            &&& b.at("metadata"@).at("name"@) == Tree::String(name)
            &&& b.at("roleRef"@).at("kind"@) == str_tree("ClusterRole")
            &&& b.at("roleRef"@).at("name"@) == Tree::String(role)
            &&& b.at("subjects"@).items_or_none().len() == 1
            &&& b.at("subjects"@).items_or_none()[0].at("kind"@) == Tree::String(kind)
            &&& b.at("subjects"@).items_or_none()[0].at("name"@) == Tree::String(subject)
        }),
{
    reveal_strlit("apiVersion");
    reveal_strlit("kind");
    reveal_strlit("metadata");
    reveal_strlit("roleRef");
    reveal_strlit("subjects");
    reveal_strlit("name");
    reveal_strlit("apiGroup");
    assert("apiVersion"@.len() == 10);
    assert("kind"@.len() == 4);
    assert("metadata"@.len() == 8);
    assert("roleRef"@.len() == 7);
    assert("subjects"@.len() == 8);
    assert("name"@.len() == 4);
    assert("apiGroup"@.len() == 8);
    assert("kind"@[0] == 'k');
    assert("name"@[0] == 'n');
    assert("metadata"@[0] == 'm');
    assert("subjects"@[0] == 's');
    assert("apiGroup"@[0] == 'a');
}

/// The first role is for everything: there is no request that it does not allow.
pub proof fn law_an_admin_may_do_anything(req: RequestView)
    ensures
        rule_allows(rule_for_all(), req),
{
    reveal_strlit("apiGroups");
    reveal_strlit("resources");
    reveal_strlit("verbs");
    assert("apiGroups"@.len() == 9);
    assert("resources"@.len() == 9);
    assert("verbs"@.len() == 5);
    assert("apiGroups"@[0] == 'a');
    assert("resources"@[0] == 'r');
    reveal_strlit("resourceNames");
    assert("resourceNames"@.len() == 13);
    assert(rule_for_all().at("resourceNames"@) is Null);
    assert(rule_for_all().at("apiGroups"@).items_or_none()[0] == Tree::String("*"@));
    assert(rule_for_all().at("resources"@).items_or_none()[0] == Tree::String("*"@));
    assert(rule_for_all().at("verbs"@).items_or_none()[0] == Tree::String("*"@));
}

/// Who joins may ask for a certificate and look at what became of it, and may do nothing else.
pub proof fn law_who_joins_may_ask_for_a_certificate(req: RequestView)
    requires
        rule_allows(rule_for_joining(), req),
    ensures
        req.api_group == "certificates.k8s.io"@,
        req.verb == "create"@ || req.verb == "get"@ || req.verb == "list"@ || req.verb == "watch"@,
{
    reveal_strlit("apiGroups");
    reveal_strlit("resources");
    reveal_strlit("verbs");
    reveal_strlit("*");
    reveal_strlit("certificates.k8s.io");
    reveal_strlit("create");
    reveal_strlit("get");
    reveal_strlit("list");
    reveal_strlit("watch");
    assert("apiGroups"@.len() == 9);
    assert("resources"@.len() == 9);
    assert("verbs"@.len() == 5);
    assert("*"@.len() == 1);
    assert("certificates.k8s.io"@.len() == 19);
    assert("create"@.len() == 6);
    assert("get"@.len() == 3);
    assert("list"@.len() == 4);
    assert("watch"@.len() == 5);
    assert("apiGroups"@[0] == 'a');
    assert("resources"@[0] == 'r');
    assert("verbs"@[0] == 'v');
    assert("watch"@[0] == 'w');
    let rule = rule_for_joining();
    let gs = rule.at("apiGroups"@).items_or_none();
    let vs = rule.at("verbs"@).items_or_none();
    assert(gs.len() == 1);
    assert(vs.len() == 4);
    law_a_rule_allows_what_it_lists(rule, req);
}

/// The address of the first Service of a range is the one behind its first.
pub proof fn law_the_first_service_address(ip: Seq<char>, prefix: Seq<char>, base: nat)
    requires
        !ip.contains('/'),
        address(ip) == Some(base),
        base < u32::MAX,
    ensures
        first_address(ip + seq!['/'] + prefix) == Some(address_text(base + 1)),
        first_address(ip) is None,
{
    crate::text::law_parted_at_the_first(ip, '/', prefix);
}

/// The Service of the server is reached at its own address and port.
pub proof fn law_the_service_of_the_server(cluster_ip: Seq<char>, port: u16)
    ensures
        ({
            let s = kubernetes_service(cluster_ip, port);
            let p = s.at("spec"@).at("ports"@).items_or_none();
            &&& s.at("kind"@) == str_tree("Service")
            &&& s.at("metadata"@).at("name"@) == str_tree("kubernetes")
            &&& s.at("metadata"@).at("namespace"@) == str_tree("default")
            &&& s.at("spec"@).at("clusterIP"@) == Tree::String(cluster_ip)
            &&& s.at("spec"@).at("clusterIPs"@).items_or_none() == seq![Tree::String(cluster_ip)]
            &&& p.len() == 1
            &&& p[0].at("port"@) == Tree::Number(Numeral::PosInt(443))
            &&& p[0].at("targetPort"@) == Tree::Number(Numeral::PosInt(port as u64))
        }),
{
    reveal_strlit("apiVersion");
    reveal_strlit("kind");
    reveal_strlit("metadata");
    reveal_strlit("spec");
    reveal_strlit("status");
    reveal_strlit("name");
    reveal_strlit("namespace");
    reveal_strlit("labels");
    reveal_strlit("clusterIP");
    reveal_strlit("clusterIPs");
    reveal_strlit("type");
    reveal_strlit("sessionAffinity");
    reveal_strlit("ipFamilies");
    reveal_strlit("ports");
    reveal_strlit("protocol");
    reveal_strlit("port");
    reveal_strlit("targetPort");
    assert("apiVersion"@.len() == 10);
    assert("kind"@.len() == 4);
    assert("metadata"@.len() == 8);
    assert("spec"@.len() == 4);
    assert("status"@.len() == 6);
    assert("name"@.len() == 4);
    assert("namespace"@.len() == 9);
    assert("labels"@.len() == 6);
    assert("clusterIP"@.len() == 9);
    assert("clusterIPs"@.len() == 10);
    assert("type"@.len() == 4);
    assert("sessionAffinity"@.len() == 15);
    assert("ipFamilies"@.len() == 10);
    assert("ports"@.len() == 5);
    assert("protocol"@.len() == 8);
    assert("port"@.len() == 4);
    assert("targetPort"@.len() == 10);
    assert("apiVersion"@[0] == 'a');
    assert("clusterIPs"@[0] == 'c');
    assert("ipFamilies"@[0] == 'i');
    assert("targetPort"@[0] == 't');
    assert("kind"@[0] == 'k');
    assert("spec"@[0] == 's');
    assert("name"@[0] == 'n');
    assert("type"@[0] == 't');
    assert("port"@[0] == 'p');
    assert("metadata"@[0] == 'm');
    assert("protocol"@[0] == 'p');
    assert("status"@[0] == 's');
    assert("labels"@[0] == 'l');
    assert("namespace"@[0] == 'n');
    assert("clusterIP"@[0] == 'c');
    assert(no_items().plus(Tree::String(cluster_ip)).items_or_none() =~= seq![
        Tree::String(cluster_ip),
    ]);
}

/// A server registers its address beside those that are there, once.
pub proof fn law_a_server_registers_once(endpoints: Option<Tree>, ip: Seq<char>, entry: Tree)
    ensures
        registration(endpoints, ip) is None <==> exists|i: int|
            0 <= i < stored_addresses(endpoints).len() && (#[trigger] stored_addresses(
                endpoints,
            )[i]).at("ip"@) == Tree::String(ip),
        registration(endpoints, ip) is Some ==> {
            let all = registration(endpoints, ip)->0;
            &&& all.len() == stored_addresses(endpoints).len() + 1
            &&& all.contains(entry_for(ip))
            &&& stored_addresses(endpoints).contains(entry) ==> all.contains(entry)
            &&& all.contains(entry) ==> stored_addresses(endpoints).contains(entry) || entry
                == entry_for(ip)
        },
{
    let had = stored_addresses(endpoints);
    let added = had.push(entry_for(ip));
    lemma_by_address(added);
    assert(added[had.len() as int] == entry_for(ip));
    if had.contains(entry) {
        let i = had.index_of(entry);
        assert(added[i] == entry);
    }
    if added.contains(entry) && entry != entry_for(ip) {
        let i = added.index_of(entry);
        assert(had[i] == entry);
    }
}

/// The addresses are listed in their order.
pub proof fn law_addresses_are_in_order(entries: Seq<Tree>)
    ensures
        in_address_order(by_address(entries)),
    decreases entries.len(),
{
    if entries.len() > 0 {
        law_addresses_are_in_order(entries.drop_last());
        lemma_entry_in_order(by_address(entries.drop_last()), entries.last());
    }
}

/// No entry comes before one with a lower address.
pub open spec fn in_address_order(entries: Seq<Tree>) -> bool {
    forall|i: int, j: int|
        0 <= i < j < entries.len() ==> !before(
            (#[trigger] entries[j]).at("ip"@).text_or_empty(),
            (#[trigger] entries[i]).at("ip"@).text_or_empty(),
        )
}

proof fn lemma_entry_in_order(entries: Seq<Tree>, a: Tree)
    requires
        in_address_order(entries),
    ensures
        in_address_order(with_entry(entries, a)),
    decreases entries.len(),
{
    let all = with_entry(entries, a);
    lemma_with_entry(entries, a);
    if entries.len() == 0 || !before(entry_ip(a), entry_ip(entries.last())) {
        assert forall|i: int, j: int| 0 <= i < j < all.len() implies !before(
            (#[trigger] all[j]).at("ip"@).text_or_empty(),
            (#[trigger] all[i]).at("ip"@).text_or_empty(),
        ) by {
            if j == entries.len() {
                let last = entries.len() - 1;
                lemma_not_before_either(entry_ip(entries[i]), entry_ip(entries[last]), entry_ip(a));
                if i < last {
                    assert(!before(entry_ip(entries[last]), entry_ip(entries[i])));
                } else {
                    lemma_before_irreflexive(entry_ip(entries[i]));
                }
            }
        }
    } else {
        let rest = entries.drop_last();
        assert forall|i: int, j: int| 0 <= i < j < rest.len() implies !before(
            (#[trigger] rest[j]).at("ip"@).text_or_empty(),
            (#[trigger] rest[i]).at("ip"@).text_or_empty(),
        ) by {
            assert(rest[i] == entries[i] && rest[j] == entries[j]);
        }
        lemma_entry_in_order(rest, a);
        let most = with_entry(rest, a);
        lemma_with_entry(rest, a);
        assert forall|i: int, j: int| 0 <= i < j < all.len() implies !before(
            (#[trigger] all[j]).at("ip"@).text_or_empty(),
            (#[trigger] all[i]).at("ip"@).text_or_empty(),
        ) by {
            if j == most.len() {
                assert(all[i] == most[i]);
                assert(most.contains(most[i]));
                if most[i] == a {
                    if before(entry_ip(entries.last()), entry_ip(a)) {
                        lemma_before_transitive(
                            entry_ip(a),
                            entry_ip(entries.last()),
                            entry_ip(a),
                        );
                        lemma_before_irreflexive(entry_ip(a));
                    }
                } else {
                    assert(rest.contains(most[i]));
                    let k = rest.index_of(most[i]);
                    assert(entries[k] == most[i]);
                    assert(entries[entries.len() - 1] == entries.last());
                    assert(!before(entry_ip(entries[entries.len() - 1]), entry_ip(entries[k])));
                }
            } else {
                assert(all[i] == most[i] && all[j] == most[j]);
            }
        }
    }
}

proof fn lemma_not_before_either(a: Seq<char>, b: Seq<char>, c: Seq<char>)
    ensures
        !before(b, a) && !before(c, b) ==> !before(c, a),
{
    if !before(b, a) && !before(c, b) && before(c, a) {
        lemma_before_total(a, b);
        if a == b {
        } else {
            lemma_before_transitive(c, a, b);
        }
    }
}

/// The server's endpoints and their slice say the same addresses and the same port.
pub proof fn law_endpoints_and_slice_agree(entries: Seq<Tree>, port: u16, i: int)
    requires
        0 <= i < entries.len(),
        entries[i].at("ip"@) is String,
    ensures
        ({
            let e = kubernetes_endpoints(entries, port).at("subsets"@).items_or_none();
            let s = kubernetes_slice(entries, port);
            &&& e.len() == 1
            &&& e[0].at("addresses"@) == Tree::Array(entries)
            &&& e[0].at("ports"@) == s.at("ports"@)
            &&& s.at("ports"@).items_or_none().len() == 1
            &&& s.at("ports"@).items_or_none()[0].at("port"@) == Tree::Number(
                Numeral::PosInt(port as u64),
            )
            &&& s.at("endpoints"@).items_or_none().len() == entries.len()
            &&& s.at("endpoints"@).items_or_none()[i].at("addresses"@).items_or_none() == seq![
                entries[i].at("ip"@),
            ]
            &&& s.at("endpoints"@).items_or_none()[i].at("conditions"@).at("ready"@) == Tree::Bool(
                true,
            )
        }),
{
    reveal_strlit("apiVersion");
    reveal_strlit("kind");
    reveal_strlit("metadata");
    reveal_strlit("subsets");
    reveal_strlit("addresses");
    reveal_strlit("ports");
    reveal_strlit("name");
    reveal_strlit("port");
    reveal_strlit("protocol");
    reveal_strlit("addressType");
    reveal_strlit("endpoints");
    reveal_strlit("conditions");
    assert("apiVersion"@.len() == 10);
    assert("kind"@.len() == 4);
    assert("metadata"@.len() == 8);
    assert("subsets"@.len() == 7);
    assert("addresses"@.len() == 9);
    assert("ports"@.len() == 5);
    assert("name"@.len() == 4);
    assert("port"@.len() == 4);
    assert("protocol"@.len() == 8);
    assert("addressType"@.len() == 11);
    assert("endpoints"@.len() == 9);
    assert("conditions"@.len() == 10);
    assert("apiVersion"@[0] == 'a');
    assert("conditions"@[0] == 'c');
    assert("kind"@[0] == 'k');
    assert("name"@[0] == 'n');
    assert("port"@[0] == 'p');
    assert("metadata"@[0] == 'm');
    assert("protocol"@[0] == 'p');
    assert("addresses"@[0] == 'a');
    assert("endpoints"@[0] == 'e');
    assert(no_items().plus(entries[i].at("ip"@)).items_or_none() =~= seq![entries[i].at("ip"@)]);
}

/// Who is an admin from the start: the masters, the nodes, and the two components that act for
/// the cluster, and nobody else.
pub proof fn law_who_is_an_admin_from_the_start(i: int)
    requires
        0 <= i < standing_roles().len(),
    ensures
        ({
            let b = standing_roles()[i].1;
            let s = b.at("subjects"@).items_or_none()[0];
            b.at("roleRef"@).at("name"@) == str_tree("cluster-admin") ==> {
                &&& b.at("subjects"@).items_or_none().len() == 1
                &&& s.at("kind"@) == str_tree("Group") ==> s.at("name"@) == str_tree(
                    "system:masters",
                ) || s.at("name"@) == str_tree("system:nodes")
                &&& s.at("kind"@) == str_tree("User") ==> s.at("name"@) == str_tree(
                    "system:kube-controller-manager",
                ) || s.at("name"@) == str_tree("system:kube-scheduler")
                &&& s.at("kind"@) == str_tree("Group") || s.at("kind"@) == str_tree("User")
            }
        }),
        standing_roles()[1].1.at("roleRef"@).at("name"@) == str_tree("cluster-admin"),
        standing_roles()[1].1.at("subjects"@).items_or_none()[0].at("kind"@) == str_tree("Group"),
        standing_roles()[1].1.at("subjects"@).items_or_none()[0].at("name"@) == str_tree(
            "system:masters",
        ),
{
    reveal_strlit("Group");
    reveal_strlit("User");
    reveal_strlit("cluster-admin");
    reveal_strlit("system:node-bootstrapper");
    reveal_strlit("system:discovery");
    reveal_strlit("roleRef");
    reveal_strlit("rules");
    reveal_strlit("kind");
    reveal_strlit("metadata");
    reveal_strlit("apiVersion");
    assert("Group"@.len() == 5);
    assert("User"@.len() == 4);
    assert("cluster-admin"@.len() == 13);
    assert("system:node-bootstrapper"@.len() == 24);
    assert("system:discovery"@.len() == 16);
    assert("roleRef"@.len() == 7);
    assert("rules"@.len() == 5);
    assert("kind"@.len() == 4);
    assert("metadata"@.len() == 8);
    assert("apiVersion"@.len() == 10);
    assert("Group"@[0] == 'G');
    assert("rules"@[0] == 'r');
    assert("User"@[0] == 'U');
    assert("kind"@[0] == 'k');
    law_a_binding_says_whom_and_what(
        "system:masters"@,
        "cluster-admin"@,
        "Group"@,
        "system:masters"@,
    );
    law_a_binding_says_whom_and_what(
        "system:kube-controller-manager"@,
        "cluster-admin"@,
        "User"@,
        "system:kube-controller-manager"@,
    );
    law_a_binding_says_whom_and_what(
        "system:kube-scheduler"@,
        "cluster-admin"@,
        "User"@,
        "system:kube-scheduler"@,
    );
    law_a_binding_says_whom_and_what(
        "system:node-bootstrapper"@,
        "system:node-bootstrapper"@,
        "Group"@,
        "system:bootstrappers"@,
    );
    law_a_binding_says_whom_and_what(
        "system:nodes"@,
        "cluster-admin"@,
        "Group"@,
        "system:nodes"@,
    );
    law_a_binding_says_whom_and_what(
        "system:anonymous-discovery"@,
        "system:discovery"@,
        "User"@,
        "system:anonymous"@,
    );
    let all = standing_roles();
    assert(all.len() == 9);
    assert(all[0] == keyed_role("cluster-admin"@, rule_for_all()));
    assert(all[4] == keyed_role("system:node-bootstrapper"@, rule_for_joining()));
    assert(all[7] == keyed_role("system:discovery"@, rule_for_discovery()));
}

/// Who is nobody in particular is an admin only where both the server lets such in and the
/// switch for that is set.
pub proof fn law_the_switch_alone_adds_an_admin(anonymous_auth: bool, dev_anonymous_admin: bool)
    ensures
        bootstrap_roles(true, true).len() == standing_roles().len() + 1,
        bootstrap_roles(true, true).drop_last() == standing_roles(),
        bootstrap_roles(true, true).last().1.at("roleRef"@).at("name"@) == str_tree(
            "cluster-admin",
        ),
        bootstrap_roles(true, true).last().1.at("subjects"@).items_or_none()[0].at("name"@)
            == str_tree("system:anonymous"),
        !anonymous_auth || !dev_anonymous_admin ==> bootstrap_roles(
            anonymous_auth,
            dev_anonymous_admin,
        ) == standing_roles(),
{
    law_a_binding_says_whom_and_what(
        "system:anonymous-admin"@,
        "cluster-admin"@,
        "User"@,
        "system:anonymous"@,
    );
    assert(bootstrap_roles(true, true).drop_last() =~= standing_roles());
}

} // verus!
