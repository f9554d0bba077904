//! RBAC: whether a user may do what a request asks.
//!
//! A request is allowed by a rule of a role that a binding gives to the user.
//! Bindings and roles are read by the caller; the decision is made here.

use vstd::prelude::*;
use vstd::string::*;

use crate::apiserver::auth::{UserInfo, UserView};
use crate::apiserver::error::{err_forbidden, ApiError, ErrorView};
use crate::apiserver::storage::{cluster_key_of, namespaced_key_of, ResourceStorage};
use crate::json::{str_tree, trees, Json, Tree};
use crate::text::{
    drop_front, ends_with, has_prefix, has_suffix, has_text, lemma_split_push, lemma_split_whole,
    opt_str, opt_text, same, split, split_on, starts_with, strip_prefix, texts, trim_start_char, without_prefix,
};

verus! {

/// What a request asks to do.
#[derive(Debug)]
pub struct AuthorizationRequest {
    pub verb: String,
    pub resource: String,
    /// The subresource, as `exec` in `pods/exec`. To RBAC `pods` and `pods/exec`
    /// are different resources.
    pub subresource: Option<String>,
    pub api_group: String,
    pub namespace: Option<String>,
    pub name: Option<String>,
}

/// What an [`AuthorizationRequest`] says.
pub ghost struct RequestView {
    pub verb: Seq<char>,
    pub resource: Seq<char>,
    pub subresource: Option<Seq<char>>,
    pub api_group: Seq<char>,
    pub namespace: Option<Seq<char>>,
    pub name: Option<Seq<char>>,
}

impl View for AuthorizationRequest {
    type V = RequestView;

    open spec fn view(&self) -> RequestView {
        RequestView {
            verb: self.verb@,
            resource: self.resource@,
            subresource: opt_text(self.subresource),
            api_group: self.api_group@,
            namespace: opt_text(self.namespace),
            name: opt_text(self.name),
        }
    }
}

// ---------------------------------------------------------------------------
// Rules
// ---------------------------------------------------------------------------

impl RequestView {
    /// The resource as a rule names it: `resource/subresource` for a
    /// subresource.
    pub open spec fn target(self) -> Seq<char> {
        match self.subresource {
            Some(sub) => self.resource + "/"@ + sub,
            None => self.resource,
        }
    }
}

/// An entry of a rule that stands for itself or, as `*`, for everything.
pub open spec fn entry_covers(entry: Tree, want: Seq<char>) -> bool {
    entry.text_or_empty() == "*"@ || entry.text_or_empty() == want
}

/// An entry of a rule's resources: `*` is everything, and `pods/*` every
/// subresource of pods.
pub open spec fn resource_covers(entry: Tree, target: Seq<char>) -> bool {
    let r = entry.text_or_empty();
    ||| r == "*"@
    ||| r == target
    ||| has_suffix(r, "/*"@) && has_prefix(target, r.take(r.len() - 1))
}

/// One of the entries covers `want`.
pub open spec fn some_covers(entries: Seq<Tree>, want: Seq<char>) -> bool {
    exists|i: int| 0 <= i < entries.len() && entry_covers(#[trigger] entries[i], want)
}

/// One of the entries covers the target.
pub open spec fn some_resource_covers(entries: Seq<Tree>, target: Seq<char>) -> bool {
    exists|i: int| 0 <= i < entries.len() && resource_covers(#[trigger] entries[i], target)
}

/// One of the entries is the string `name`.
pub open spec fn lists_name(entries: Seq<Tree>, name: Seq<char>) -> bool {
    exists|i: int| 0 <= i < entries.len() && #[trigger] entries[i] == Tree::String(name)
}

/// A rule allows a request: it lists the group, the resource and the verb, and
/// the name where it lists names at all. Without a list of verbs it does not
/// tell verbs apart; without a list of groups or of resources it allows
/// nothing.
pub open spec fn rule_allows(rule: Tree, req: RequestView) -> bool {
    &&& some_covers(rule.at("apiGroups"@).items_or_none(), req.api_group)
    &&& some_resource_covers(rule.at("resources"@).items_or_none(), req.target())
    &&& rule.at("verbs"@) is Array ==> some_covers(rule.at("verbs"@)->Array_0, req.verb)
    &&& match (rule.at("resourceNames"@), req.name) {
        (Tree::Array(names), Some(name)) => names.len() == 0 || lists_name(names, name),
        _ => true,
    }
}

/// A role allows a request by one of its rules.
pub open spec fn role_allows(role: Tree, req: RequestView) -> bool {
    exists|i: int|
        0 <= i < role.at("rules"@).items_or_none().len() && rule_allows(
            #[trigger] role.at("rules"@).items_or_none()[i],
            req,
        )
}

fn any_covers(entries: &Vec<Json>, want: &str) -> (r: bool)
    ensures
        r == some_covers(trees(entries@), want@),
{
    let mut i: usize = 0;
    while i < entries.len()
        invariant
            i <= entries.len(),
            forall|j: int| 0 <= j < i ==> !entry_covers(#[trigger] trees(entries@)[j], want@),
        decreases entries.len() - i,
    {
        let e = entries[i].str_or_empty();
        if same(e, "*") || same(e, want) {
            assert(entry_covers(trees(entries@)[i as int], want@));
            return true;
        }
        i = i + 1;
    }
    false
}

fn any_resource_covers(entries: &Vec<Json>, target: &str) -> (r: bool)
    ensures
        r == some_resource_covers(trees(entries@), target@),
{
    let mut i: usize = 0;
    while i < entries.len()
        invariant
            i <= entries.len(),
            forall|j: int| 0 <= j < i ==> !resource_covers(#[trigger] trees(entries@)[j], target@),
        decreases entries.len() - i,
    {
        let e = entries[i].str_or_empty();
        let hit = if same(e, "*") || same(e, target) {
            true
        } else if ends_with(e, "/*") {
            let n: usize = e.unicode_len();
            proof {
                reveal_strlit("/*");
            }
            let stem = e.substring_char(0, n - 1);
            assert(stem@ =~= e@.take(n - 1));
            starts_with(target, stem)
        } else {
            false
        };
        if hit {
            assert(resource_covers(trees(entries@)[i as int], target@));
            return true;
        }
        i = i + 1;
    }
    false
}

fn any_is(entries: &Vec<Json>, name: &str) -> (r: bool)
    ensures
        r == lists_name(trees(entries@), name@),
{
    let mut i: usize = 0;
    while i < entries.len()
        invariant
            i <= entries.len(),
            forall|j: int| 0 <= j < i ==> #[trigger] trees(entries@)[j] != Tree::String(name@),
        decreases entries.len() - i,
    {
        if entries[i].is_text(name) {
            assert(trees(entries@)[i as int] == Tree::String(name@));
            return true;
        }
        i = i + 1;
    }
    false
}

/// Does one rule match the request?
pub fn rule_matches(rule: &Json, req: &AuthorizationRequest) -> (r: bool)
    ensures
        r == rule_allows(rule@, req@),
{
    match rule.at("apiGroups") {
        Json::Array(groups) => if !any_covers(groups, req.api_group.as_str()) {
            return false;
        },
        _ => {
            return false;
        },
    }
    let target = match &req.subresource {
        Some(sub) => req.resource.clone().concat("/").concat(sub.as_str()),
        None => req.resource.clone(),
    };
    match rule.at("resources") {
        Json::Array(resources) => if !any_resource_covers(resources, target.as_str()) {
            return false;
        },
        _ => {
            return false;
        },
    }
    match rule.at("verbs") {
        Json::Array(verbs) => if !any_covers(verbs, req.verb.as_str()) {
            return false;
        },
        _ => {},
    }
    match (rule.at("resourceNames"), &req.name) {
        (Json::Array(names), Some(name)) => {
            assert(trees(names@).len() == names@.len());
            names.len() == 0 || any_is(names, name.as_str())
        },
        _ => true,
    }
}

/// Does any rule of a role permit the request?
pub fn rules_permit(role: &Json, req: &AuthorizationRequest) -> (r: bool)
    ensures
        r == role_allows(role@, req@),
{
    let rules = match role.at("rules") {
        Json::Array(rules) => rules,
        _ => {
            return false;
        },
    };
    let mut i: usize = 0;
    while i < rules.len()
        invariant
            i <= rules.len(),
            role@.at("rules"@) == Tree::Array(trees(rules@)),
            forall|j: int| 0 <= j < i ==> !rule_allows(#[trigger] trees(rules@)[j], req@),
        decreases rules.len() - i,
    {
        if rule_matches(&rules[i], req) {
            assert(rule_allows(role@.at("rules"@).items_or_none()[i as int], req@));
            return true;
        }
        i = i + 1;
    }
    false
}

/// A rule without groups or without resources, as one for URLs that are no
/// resources, allows no request for a resource.
pub proof fn law_absent_lists_grant_nothing(rule: Tree, req: RequestView)
    requires
        rule.at("apiGroups"@).items_or_none().len() == 0 || rule.at(
            "resources"@,
        ).items_or_none().len() == 0,
    ensures
        !rule_allows(rule, req),
{
}

/// A rule for a resource does not allow its subresources: where no entry is `*`
/// or holds a slash, nothing behind a slash is allowed.
pub proof fn law_a_resource_is_not_its_subresource(rule: Tree, req: RequestView)
    requires
        req.subresource is Some,
        forall|i: int|
            0 <= i < rule.at("resources"@).items_or_none().len() ==> {
                let r = (#[trigger] rule.at("resources"@).items_or_none()[i]).text_or_empty();
                r != "*"@ && !r.contains('/')
            },
    ensures
        !rule_allows(rule, req),
{
    let rs = rule.at("resources"@).items_or_none();
    assert forall|i: int| 0 <= i < rs.len() implies !resource_covers(
        #[trigger] rs[i],
        req.target(),
    ) by {
        let r = rs[i].text_or_empty();
        reveal_strlit("/");
        reveal_strlit("/*");
        assert(req.target()[req.resource.len() as int] == '/');
        if r == req.target() {
            assert(r.contains('/'));
        }
        if has_suffix(r, "/*"@) {
            assert(r.subrange(r.len() - 2, r.len() as int)[0] == r[r.len() - 2]);
            assert(r.contains('/'));
        }
    }
}

/// A rule with a star in each list and no names allows everything.
pub proof fn law_stars_grant_everything(rule: Tree, req: RequestView)
    requires
        rule.at("apiGroups"@) == Tree::Array(seq![Tree::String("*"@)]),
        rule.at("resources"@) == Tree::Array(seq![Tree::String("*"@)]),
        rule.at("verbs"@) == Tree::Array(seq![Tree::String("*"@)]),
        rule.at("resourceNames"@) is Null,
    ensures
        rule_allows(rule, req),
{
    let s = seq![Tree::String("*"@)];
    assert(entry_covers(s[0], req.api_group));
    assert(resource_covers(s[0], req.target()));
    assert(entry_covers(s[0], req.verb));
}

// ---------------------------------------------------------------------------
// Bindings
// ---------------------------------------------------------------------------

/// A subject of a binding is the user, one of its groups, or the
/// ServiceAccount that it is.
pub open spec fn subject_is(subject: Tree, user: UserView) -> bool {
    let kind = subject.at("kind"@).text_or_empty();
    let name = subject.at("name"@).text_or_empty();
    if kind == "User"@ {
        name == user.username
    } else if kind == "Group"@ {
        user.groups.contains(name)
    } else if kind == "ServiceAccount"@ {
        user.username == crate::apiserver::auth::sa_username(
            subject.at("namespace"@).text_or("default"@),
            name,
        )
    } else {
        false
    }
}

/// A binding names the user.
pub open spec fn binds(binding: Tree, user: UserView) -> bool {
    exists|i: int|
        0 <= i < binding.at("subjects"@).items_or_none().len() && subject_is(
            #[trigger] binding.at("subjects"@).items_or_none()[i],
            user,
        )
}

fn subject_matches(subject: &Json, user: &UserInfo) -> (r: bool)
    ensures
        r == subject_is(subject@, user@),
{
    let kind = subject.at("kind").str_or_empty();
    let name = subject.at("name").str_or_empty();
    if same(kind, "User") {
        same(name, user.username.as_str())
    } else if same(kind, "Group") {
        has_text(&user.groups, name)
    } else if same(kind, "ServiceAccount") {
        let ns = subject.at("namespace").str_or("default");
        let sa = crate::apiserver::auth::serviceaccount_username(ns, name);
        same(sa.as_str(), user.username.as_str())
    } else {
        false
    }
}

/// Does any subject of a binding match the user?
pub fn subjects_match(binding: &Json, user: &UserInfo) -> (r: bool)
    ensures
        r == binds(binding@, user@),
{
    let subjects = match binding.at("subjects") {
        Json::Array(s) => s,
        _ => {
            return false;
        },
    };
    let mut i: usize = 0;
    while i < subjects.len()
        invariant
            i <= subjects.len(),
            binding@.at("subjects"@) == Tree::Array(trees(subjects@)),
            forall|j: int| 0 <= j < i ==> !subject_is(#[trigger] trees(subjects@)[j], user@),
        decreases subjects.len() - i,
    {
        if subject_matches(&subjects[i], user) {
            assert(subject_is(binding@.at("subjects"@).items_or_none()[i as int], user@));
            return true;
        }
        i = i + 1;
    }
    false
}

/// The key of the role that a binding refers to: a ClusterRole, or in a
/// namespace a Role of that namespace.
pub open spec fn role_key_of(binding: Tree, namespace: Option<Seq<char>>) -> Option<Seq<char>> {
    let kind = binding.at("roleRef"@).at("kind"@).text_or_empty();
    let name = binding.at("roleRef"@).at("name"@).text_or_empty();
    if kind == "ClusterRole"@ {
        Some(cluster_key_of("clusterroles"@, name))
    } else {
        match namespace {
            Some(ns) => if kind == "Role"@ {
                Some(namespaced_key_of("roles"@, ns, name))
            } else {
                None
            },
            None => None,
        }
    }
}

/// The key of the role to read for a binding, where the binding names the user
/// at all. `namespace` is that of a RoleBinding, none for a ClusterRoleBinding.
pub fn role_to_read(binding: &Json, user: &UserInfo, namespace: Option<&str>) -> (r: Option<String>)
    ensures
        opt_text(r) == (if binds(binding@, user@) {
            role_key_of(binding@, opt_str(namespace))
        } else {
            None
        }),
{
    if !subjects_match(binding, user) {
        return None;
    }
    let kind = binding.at("roleRef").at("kind").str_or_empty();
    let name = binding.at("roleRef").at("name").str_or_empty();
    if same(kind, "ClusterRole") {
        return Some(ResourceStorage::cluster_key("clusterroles", name));
    }
    match namespace {
        Some(ns) => if same(kind, "Role") {
            Some(ResourceStorage::namespaced_key("roles", ns, name))
        } else {
            None
        },
        None => None,
    }
}

/// A binding together with the role that was read for it: none where
/// [`role_to_read`] has no key, or where the role is not there.
pub struct Grant {
    pub binding: Json,
    pub role: Option<Json>,
}

/// What a [`Grant`] says.
pub ghost struct GrantView {
    pub binding: Tree,
    pub role: Option<Tree>,
}

impl View for Grant {
    type V = GrantView;

    open spec fn view(&self) -> GrantView {
        GrantView {
            binding: self.binding@,
            role: match self.role {
                Some(r) => Some(r@),
                None => None,
            },
        }
    }
}

/// What a list of grants says.
pub open spec fn grants(v: Seq<Grant>) -> Seq<GrantView> {
    v.map_values(|g: Grant| g@)
}

/// A binding gives the user a role that allows the request.
pub open spec fn grant_allows(
    g: GrantView,
    user: UserView,
    req: RequestView,
    namespace: Option<Seq<char>>,
) -> bool {
    binds(g.binding, user) && role_key_of(g.binding, namespace) is Some && g.role is Some
        && role_allows(g.role->0, req)
}

/// One of the bindings gives the user a role that allows the request.
pub open spec fn some_grant_allows(
    gs: Seq<GrantView>,
    user: UserView,
    req: RequestView,
    namespace: Option<Seq<char>>,
) -> bool {
    exists|i: int| 0 <= i < gs.len() && grant_allows(#[trigger] gs[i], user, req, namespace)
}

/// The user may do everything: it is in `system:masters`, or it is anonymous on
/// a development rig that says so.
pub open spec fn stands_above_rules(user: UserView, dev_anonymous_admin: bool) -> bool {
    user.groups.contains("system:masters"@) || (dev_anonymous_admin && user.username
        == "system:anonymous"@)
}

/// The request is allowed.
pub open spec fn allowed(
    user: UserView,
    req: RequestView,
    dev_anonymous_admin: bool,
    cluster: Seq<GrantView>,
    namespaced: Seq<GrantView>,
) -> bool {
    ||| stands_above_rules(user, dev_anonymous_admin)
    ||| some_grant_allows(cluster, user, req, None)
    ||| req.namespace is Some && some_grant_allows(namespaced, user, req, req.namespace)
}

fn any_grant_permits(
    gs: &Vec<Grant>,
    user: &UserInfo,
    req: &AuthorizationRequest,
    namespace: Option<&str>,
) -> (r: bool)
    ensures
        r == some_grant_allows(grants(gs@), user@, req@, opt_str(namespace)),
{
    let mut i: usize = 0;
    while i < gs.len()
        invariant
            i <= gs.len(),
            forall|j: int|
                0 <= j < i ==> !grant_allows(
                    #[trigger] grants(gs@)[j],
                    user@,
                    req@,
                    opt_str(namespace),
                ),
        decreases gs.len() - i,
    {
        let g = &gs[i];
        let hit = match (role_to_read(&g.binding, user, namespace), &g.role) {
            (Some(_), Some(role)) => rules_permit(role, req),
            _ => false,
        };
        if hit {
            assert(grant_allows(grants(gs@)[i as int], user@, req@, opt_str(namespace)));
            return true;
        }
        i = i + 1;
    }
    false
}

/// Decides requests.
#[derive(Clone, Copy, Debug)]
pub struct RbacEngine {
    /// Development rigs only: `system:anonymous` may do everything. Held here
    /// and not looked up, so that the decision does not hang on a stored
    /// object.
    pub dev_anonymous_admin: bool,
}

impl RbacEngine {
    pub fn new() -> (r: RbacEngine)
        ensures
            !r.dev_anonymous_admin,
    {
        RbacEngine { dev_anonymous_admin: false }
    }

    /// Lets `system:anonymous` do everything.
    pub fn with_anonymous_admin(self, on: bool) -> (r: RbacEngine)
        ensures
            r.dev_anonymous_admin == on,
    {
        RbacEngine { dev_anonymous_admin: on }
    }

    /// May the user do everything, whatever is bound?
    pub fn unrestricted(&self, user: &UserInfo) -> (r: bool)
        ensures
            r == stands_above_rules(user@, self.dev_anonymous_admin),
    {
        has_text(&user.groups, "system:masters") || (self.dev_anonymous_admin && same(
            user.username.as_str(),
            "system:anonymous",
        ))
    }

    /// Is the user authorized for the request, given the ClusterRoleBindings
    /// and the RoleBindings of the request's namespace? A list that could not be
    /// read is handed in empty.
    pub fn authorize(
        &self,
        user: &UserInfo,
        req: &AuthorizationRequest,
        cluster: &Vec<Grant>,
        namespaced: &Vec<Grant>,
    ) -> (r: bool)
        ensures
            r == allowed(
                user@,
                req@,
                self.dev_anonymous_admin,
                grants(cluster@),
                grants(namespaced@),
            ),
    {
        if self.unrestricted(user) {
            return true;
        }
        if any_grant_permits(cluster, user, req, None) {
            return true;
        }
        match &req.namespace {
            Some(ns) => any_grant_permits(namespaced, user, req, Some(ns.as_str())),
            None => false,
        }
    }
}

/// Without a binding that names the user, nothing is allowed that the user is
/// not allowed anyway.
pub proof fn law_nothing_without_a_binding(
    user: UserView,
    req: RequestView,
    dev_anonymous_admin: bool,
    cluster: Seq<GrantView>,
    namespaced: Seq<GrantView>,
)
    requires
        !stands_above_rules(user, dev_anonymous_admin),
        forall|i: int| 0 <= i < cluster.len() ==> !binds((#[trigger] cluster[i]).binding, user),
        forall|i: int|
            0 <= i < namespaced.len() ==> !binds((#[trigger] namespaced[i]).binding, user),
    ensures
        !allowed(user, req, dev_anonymous_admin, cluster, namespaced),
{
}

/// A binding more never takes anything away.
pub proof fn law_a_binding_only_adds(
    user: UserView,
    req: RequestView,
    dev_anonymous_admin: bool,
    cluster: Seq<GrantView>,
    namespaced: Seq<GrantView>,
    more: GrantView,
)
    requires
        allowed(user, req, dev_anonymous_admin, cluster, namespaced),
    ensures
        allowed(user, req, dev_anonymous_admin, cluster.push(more), namespaced),
        allowed(user, req, dev_anonymous_admin, cluster, namespaced.push(more)),
{
    if some_grant_allows(cluster, user, req, None) {
        let i = choose|i: int|
            0 <= i < cluster.len() && grant_allows(#[trigger] cluster[i], user, req, None);
        assert(grant_allows(cluster.push(more)[i], user, req, None));
    }
    if some_grant_allows(namespaced, user, req, req.namespace) {
        let i = choose|i: int|
            0 <= i < namespaced.len() && grant_allows(
                #[trigger] namespaced[i],
                user,
                req,
                req.namespace,
            );
        assert(grant_allows(namespaced.push(more)[i], user, req, req.namespace));
    }
}

// ---------------------------------------------------------------------------
// Paths
// ---------------------------------------------------------------------------

/// What the path of a request names.
pub ghost struct PathView {
    pub api_group: Seq<char>,
    pub resource: Seq<char>,
    pub namespace: Option<Seq<char>>,
    pub name: Option<Seq<char>>,
    pub subresource: Option<Seq<char>>,
}

/// `resource[/name[/subresource]]`, which names a cluster-scoped object.
pub open spec fn cluster_path(group: Seq<char>, t: Seq<Seq<char>>) -> PathView {
    PathView {
        api_group: group,
        resource: t[0],
        namespace: None,
        name: if t.len() > 1 {
            Some(t[1])
        } else {
            None
        },
        subresource: if t.len() > 2 {
            Some(t[2])
        } else {
            None
        },
    }
}

/// `namespaces/ns/resource[/name[/subresource]]`.
pub open spec fn namespaced_path(group: Seq<char>, t: Seq<Seq<char>>) -> PathView {
    PathView {
        api_group: group,
        resource: t[2],
        namespace: Some(t[1]),
        name: if t.len() > 3 {
            Some(t[3])
        } else {
            None
        },
        subresource: if t.len() > 4 {
            Some(t[4])
        } else {
            None
        },
    }
}

/// What stands behind `/api/v1/`. Three segments behind `namespaces` name the
/// objects of a namespace, but for `status` and `finalize`, which are the
/// subresources of the namespace itself.
pub open spec fn core_path(t: Seq<Seq<char>>) -> Option<PathView> {
    if t.len() == 0 || t.len() > 5 {
        None
    } else if t.len() <= 2 {
        Some(cluster_path(Seq::empty(), t))
    } else if t[0] == "namespaces"@ && !(t.len() == 3 && (t[2] == "status"@ || t[2]
        == "finalize"@)) {
        Some(namespaced_path(Seq::empty(), t))
    } else if t.len() == 3 {
        Some(cluster_path(Seq::empty(), t))
    } else {
        None
    }
}

/// What stands behind `/apis/group/version/`. Three segments or more that begin with
/// `namespaces` name the objects of a namespace; a project is authorized in the
/// namespace that it is.
pub open spec fn group_path(group: Seq<char>, t: Seq<Seq<char>>) -> Option<PathView> {
    if t.len() == 0 || t.len() > 5 {
        None
    } else if t.len() == 2 && group == "project.openshift.io"@ && t[0] == "projects"@ {
        Some(PathView { namespace: Some(t[1]), ..cluster_path(group, t) })
    } else if t.len() >= 3 && t[0] == "namespaces"@ {
        Some(namespaced_path(group, t))
    } else if t.len() <= 3 {
        Some(cluster_path(group, t))
    } else {
        None
    }
}

/// What the segments of a path name.
pub open spec fn path_parts(s: Seq<Seq<char>>) -> Option<PathView> {
    if s.len() >= 3 && s[0] == "api"@ && s[1] == "v1"@ {
        core_path(s.skip(2))
    } else if s.len() >= 4 && s[0] == "apis"@ {
        group_path(s[1], s.skip(3))
    } else {
        None
    }
}

/// A request for the objects of a namespace is authorized in that namespace, in the
/// core group and in every other; but for the subresources of the namespace itself.
pub proof fn law_a_namespace_is_asked_in_itself(s: Seq<Seq<char>>, n: int)
    requires
        s.len() > 3,
        (s[0] == "api"@ && s[1] == "v1"@ && n == 2) || (s[0] == "apis"@ && n == 3),
        n + 3 <= s.len() <= n + 5,
        s[n] == "namespaces"@,
        n == 2 && s.len() == 5 ==> s[4] != "status"@ && s[4] != "finalize"@,
    ensures
        path_parts(s) is Some,
        path_parts(s)->0.namespace == Some(s[n + 1]),
        path_parts(s)->0.resource == s[n + 2],
{
    reveal_strlit("api");
    reveal_strlit("apis");
    assert("api"@.len() != "apis"@.len());
}

/// The parts of a path: group, resource, namespace, name, subresource.
pub struct PathParts {
    pub api_group: String,
    pub resource: String,
    pub namespace: Option<String>,
    pub name: Option<String>,
    pub subresource: Option<String>,
}

impl View for PathParts {
    type V = PathView;

    open spec fn view(&self) -> PathView {
        PathView {
            api_group: self.api_group@,
            resource: self.resource@,
            namespace: opt_text(self.namespace),
            name: opt_text(self.name),
            subresource: opt_text(self.subresource),
        }
    }
}

fn segment(s: &Vec<String>, i: usize) -> (r: Option<String>)
    ensures
        opt_text(r) == (if i < s@.len() {
            Some(texts(s@)[i as int])
        } else {
            None
        }),
{
    if i < s.len() {
        Some(s[i].clone())
    } else {
        None
    }
}

fn cluster_parts(group: &str, s: &Vec<String>, from: usize) -> (r: PathParts)
    requires
        from < s@.len(),
        s@.len() < 1000,
    ensures
        r@ == cluster_path(group@, texts(s@).skip(from as int)),
{
    PathParts {
        api_group: group.to_owned(),
        resource: s[from].clone(),
        namespace: None,
        name: segment(s, from + 1),
        subresource: segment(s, from + 2),
    }
}

fn namespaced_parts(group: &str, s: &Vec<String>, from: usize) -> (r: PathParts)
    requires
        from + 2 < s@.len(),
        s@.len() < 1000,
    ensures
        r@ == namespaced_path(group@, texts(s@).skip(from as int)),
{
    PathParts {
        api_group: group.to_owned(),
        resource: s[from + 2].clone(),
        namespace: Some(s[from + 1].clone()),
        name: segment(s, from + 3),
        subresource: segment(s, from + 4),
    }
}

/// Reads the segments of a path.
pub fn parse_path_segments(segments: &Vec<String>) -> (r: Option<PathParts>)
    ensures
        match r {
            Some(p) => path_parts(texts(segments@)) == Some(p@),
            None => path_parts(texts(segments@)) is None,
        },
{
    let s = segments;
    let n: usize = s.len();
    if n >= 3 && same(s[0].as_str(), "api") && same(s[1].as_str(), "v1") {
        proof {
            reveal_strlit("");
            assert(""@ =~= Seq::<char>::empty());
        }
        if n > 7 {
            return None;
        }
        if n <= 4 {
            return Some(cluster_parts("", s, 2));
        }
        if same(s[2].as_str(), "namespaces") && !(n == 5 && (same(s[4].as_str(), "status") || same(
            s[4].as_str(),
            "finalize",
        ))) {
            return Some(namespaced_parts("", s, 2));
        }
        if n == 5 {
            return Some(cluster_parts("", s, 2));
        }
        return None;
    }
    if n >= 4 && same(s[0].as_str(), "apis") {
        let group = s[1].as_str();
        if n > 8 {
            return None;
        }
        if n == 5 && same(group, "project.openshift.io") && same(s[3].as_str(), "projects") {
            let p = cluster_parts(group, s, 3);
            return Some(
                PathParts {
                    api_group: p.api_group,
                    resource: p.resource,
                    namespace: Some(s[4].clone()),
                    name: p.name,
                    subresource: p.subresource,
                },
            );
        }
        if n >= 6 && same(s[3].as_str(), "namespaces") {
            return Some(namespaced_parts(group, s, 3));
        }
        if n <= 6 {
            return Some(cluster_parts(group, s, 3));
        }
        return None;
    }
    None
}

/// The verb of a request: a GET with a name is `get`, without one `list`.
pub open spec fn verb_of(method: Seq<char>, named: bool) -> Option<Seq<char>> {
    if method == "GET"@ {
        if named {
            Some("get"@)
        } else {
            Some("list"@)
        }
    } else if method == "POST"@ {
        Some("create"@)
    } else if method == "PUT"@ {
        Some("update"@)
    } else if method == "PATCH"@ {
        Some("patch"@)
    } else if method == "DELETE"@ {
        Some("delete"@)
    } else {
        None
    }
}

/// The segments of a path.
pub open spec fn segments_of(path: Seq<char>) -> Seq<Seq<char>> {
    split(drop_front(path, '/'), '/')
}

/// What a request asks to do, by its path and method.
pub open spec fn asked(path: Seq<char>, method: Seq<char>) -> Option<RequestView> {
    match path_parts(segments_of(path)) {
        Some(p) => match verb_of(method, p.name is Some) {
            Some(verb) => Some(
                RequestView {
                    verb,
                    resource: p.resource,
                    subresource: p.subresource,
                    api_group: p.api_group,
                    namespace: p.namespace,
                    name: p.name,
                },
            ),
            None => None,
        },
        None => None,
    }
}

/// Reads what a request asks to do from its path and method.
pub fn parse_authorization_request(path: &str, method: &str) -> (r: Option<AuthorizationRequest>)
    ensures
        match r {
            Some(q) => asked(path@, method@) == Some(q@),
            None => asked(path@, method@) is None,
        },
{
    let segments = split_on(trim_start_char(path, '/'), '/');
    let p = match parse_path_segments(&segments) {
        Some(p) => p,
        None => {
            return None;
        },
    };
    let verb: &str = if same(method, "GET") {
        if p.name.is_some() {
            "get"
        } else {
            "list"
        }
    } else if same(method, "POST") {
        "create"
    } else if same(method, "PUT") {
        "update"
    } else if same(method, "PATCH") {
        "patch"
    } else if same(method, "DELETE") {
        "delete"
    } else {
        return None;
    };
    Some(
        AuthorizationRequest {
            verb: verb.to_owned(),
            resource: p.resource,
            subresource: p.subresource,
            api_group: p.api_group,
            namespace: p.namespace,
            name: p.name,
        },
    )
}

/// The paths that anyone may read: health, version, and the roots of the API.
pub open spec fn open_path(path: Seq<char>) -> bool {
    path == "/healthz"@ || path == "/livez"@ || path == "/readyz"@ || path == "/version"@ || path
        == "/api"@ || path == "/apis"@
}

/// The paths of API discovery, which name a group and a version and no resource.
pub open spec fn discovery_path(path: Seq<char>) -> bool {
    path == "/api/v1"@ || match without_prefix(path, "/apis/"@) {
        Some(rest) => {
            let s = split(rest, '/');
            s.len() == 2 && s[0].len() > 0 && s[1].len() > 0
        },
        None => false,
    }
}

/// Is this a path of API discovery?
pub fn is_discovery_path(path: &str) -> (r: bool)
    ensures
        r == discovery_path(path@),
{
    if same(path, "/api/v1") {
        return true;
    }
    match strip_prefix(path, "/apis/") {
        Some(rest) => {
            let s = split_on(rest, '/');
            let ghost want = split(rest@, '/');
            assert(want.len() == s@.len());
            if s.len() == 2 {
                assert(want[0] == s@[0]@ && want[1] == s@[1]@);
                s[0].as_str().unicode_len() > 0 && s[1].as_str().unicode_len() > 0
            } else {
                false
            }
        },
        None => false,
    }
}

// ---------------------------------------------------------------------------
// In front of the handlers
// ---------------------------------------------------------------------------

/// What is to be done with a request before it reaches a handler.
pub enum Gate {
    /// Nothing is asked that needs a decision.
    Pass,
    /// The path is under the API and cannot be understood.
    Refuse(ApiError),
    /// The engine decides.
    Ask(AuthorizationRequest),
}

/// What a [`Gate`] says.
pub ghost enum GateView {
    Pass,
    Refuse(ErrorView),
    Ask(RequestView),
}

impl View for Gate {
    type V = GateView;

    open spec fn view(&self) -> GateView {
        match self {
            Gate::Pass => GateView::Pass,
            Gate::Refuse(e) => GateView::Refuse(e@),
            Gate::Ask(q) => GateView::Ask(q@),
        }
    }
}

/// What is to be done with a request: a path under the API that cannot be
/// understood is refused and not waved through.
pub open spec fn gate_of(path: Seq<char>, method: Seq<char>, username: Seq<char>) -> GateView {
    if open_path(path) || (discovery_path(path) && method == "GET"@) {
        GateView::Pass
    } else {
        match asked(path, method) {
            Some(q) => GateView::Ask(q),
            None => if has_prefix(path, "/api/"@) || has_prefix(path, "/apis/"@) {
                GateView::Refuse(
                    err_forbidden(
                        username + " cannot be authorized for "@ + path
                            + ": unrecognized API path"@,
                    ),
                )
            } else {
                GateView::Pass
            },
        }
    }
}

/// Decides what is to be done with a request before it reaches a handler.
pub fn gate(path: &str, method: &str, user: &UserInfo) -> (r: Gate)
    ensures
        r@ == gate_of(path@, method@, user@.username),
{
    if same(path, "/healthz") || same(path, "/livez") || same(path, "/readyz") || same(
        path,
        "/version",
    ) || same(path, "/api") || same(path, "/apis") {
        return Gate::Pass;
    }
    if is_discovery_path(path) && same(method, "GET") {
        return Gate::Pass;
    }
    match parse_authorization_request(path, method) {
        Some(q) => Gate::Ask(q),
        None => if starts_with(path, "/api/") || starts_with(path, "/apis/") {
            let m = user.username.clone().concat(" cannot be authorized for ").concat(path).concat(
                ": unrecognized API path",
            );
            Gate::Refuse(ApiError::forbidden(m.as_str()))
        } else {
            Gate::Pass
        },
    }
}

/// The refusal of a request that the engine does not allow.
pub open spec fn refusal(username: Seq<char>, req: RequestView) -> ErrorView {
    err_forbidden(
        username + " is not allowed to "@ + req.verb + " "@ + req.target()
            + " in the namespace \""@ + (match req.namespace {
            Some(ns) => ns,
            None => Seq::empty(),
        }) + "\""@,
    )
}

/// The refusal of a request that the engine does not allow.
pub fn deny(user: &UserInfo, req: &AuthorizationRequest) -> (r: ApiError)
    ensures
        r@ == refusal(user@.username, req@),
{
    let target = match &req.subresource {
        Some(sub) => req.resource.clone().concat("/").concat(sub.as_str()),
        None => req.resource.clone(),
    };
    let ns: &str = match &req.namespace {
        Some(ns) => ns.as_str(),
        None => "",
    };
    proof {
        reveal_strlit("");
        assert(""@ =~= Seq::<char>::empty());
    }
    let m = user.username.clone().concat(" is not allowed to ").concat(req.verb.as_str()).concat(
        " ",
    ).concat(target.as_str()).concat(" in the namespace \"").concat(ns).concat("\"");
    ApiError::forbidden(m.as_str())
}

/// No request for a path under the API passes without a decision, but for
/// discovery.
pub proof fn law_the_api_is_gated(path: Seq<char>, method: Seq<char>, username: Seq<char>)
    requires
        has_prefix(path, "/api/"@) || has_prefix(path, "/apis/"@),
        !open_path(path),
        !(discovery_path(path) && method == "GET"@),
    ensures
        !(gate_of(path, method, username) is Pass),
{
}

/// A rule for named objects allows those alone: where it lists names, a request for an
/// object of another name is not allowed.
pub proof fn law_listed_names_limit_a_rule(rule: Tree, req: RequestView)
    requires
        rule.at("resourceNames"@) is Array,
        (rule.at("resourceNames"@)->Array_0).len() > 0,
        req.name is Some,
        forall|i: int|
            0 <= i < (rule.at("resourceNames"@)->Array_0).len() ==> #[trigger] (rule.at(
                "resourceNames"@,
            )->Array_0)[i] != Tree::String(req.name->0),
    ensures
        !rule_allows(rule, req),
{
}

/// A rule allows nothing that it does not list: no group but one of its own, no verb
/// but one of its own. `*` is every one.
pub proof fn law_a_rule_allows_what_it_lists(rule: Tree, req: RequestView)
    requires
        rule_allows(rule, req),
    ensures
        exists|i: int|
            0 <= i < rule.at("apiGroups"@).items_or_none().len() && ((
            #[trigger] rule.at("apiGroups"@).items_or_none()[i]).text_or_empty() == "*"@
                || rule.at("apiGroups"@).items_or_none()[i].text_or_empty() == req.api_group),
        rule.at("verbs"@) is Array ==> exists|i: int|
            0 <= i < rule.at("verbs"@).items_or_none().len() && ((
            #[trigger] rule.at("verbs"@).items_or_none()[i]).text_or_empty() == "*"@ || rule.at(
                "verbs"@,
            ).items_or_none()[i].text_or_empty() == req.verb),
        rule.at("resources"@).items_or_none().len() > 0,
{
    let gs = rule.at("apiGroups"@).items_or_none();
    let i = choose|i: int| 0 <= i < gs.len() && entry_covers(#[trigger] gs[i], req.api_group);
    assert(entry_covers(gs[i], req.api_group));
    if rule.at("verbs"@) is Array {
        let vs = rule.at("verbs"@)->Array_0;
        let j = choose|j: int| 0 <= j < vs.len() && entry_covers(#[trigger] vs[j], req.verb);
        assert(entry_covers(vs[j], req.verb));
        assert(rule.at("verbs"@).items_or_none()[j] == vs[j]);
    }
    let rs = rule.at("resources"@).items_or_none();
    let k = choose|k: int| 0 <= k < rs.len() && resource_covers(#[trigger] rs[k], req.target());
    assert(0 <= k < rs.len());
}

/// What a rule lists it allows: a request whose group, resource and verb stand in its
/// lists, for an object of a rule that lists no names, or lists that name.
pub proof fn law_what_a_rule_lists_is_allowed(rule: Tree, req: RequestView, g: int, r: int, v: int)
    requires
        0 <= g < rule.at("apiGroups"@).items_or_none().len(),
        rule.at("apiGroups"@).items_or_none()[g] == Tree::String(req.api_group),
        0 <= r < rule.at("resources"@).items_or_none().len(),
        rule.at("resources"@).items_or_none()[r] == (match req.subresource {
            Some(sub) => Tree::String(req.resource + "/"@ + sub),
            None => Tree::String(req.resource),
        }),
        0 <= v < rule.at("verbs"@).items_or_none().len(),
        rule.at("verbs"@).items_or_none()[v] == Tree::String(req.verb),
        match (rule.at("resourceNames"@), req.name) {
            (Tree::Array(names), Some(name)) => names.len() == 0 || names.contains(
                Tree::String(name),
            ),
            _ => true,
        },
    ensures
        rule_allows(rule, req),
{
    assert(entry_covers(rule.at("apiGroups"@).items_or_none()[g], req.api_group));
    assert(resource_covers(rule.at("resources"@).items_or_none()[r], req.target()));
    assert(entry_covers(rule.at("verbs"@)->Array_0[v], req.verb));
    match (rule.at("resourceNames"@), req.name) {
        (Tree::Array(names), Some(name)) => {
            if names.len() > 0 {
                let i = names.index_of(Tree::String(name));
                assert(names[i] == Tree::String(name));
            }
        },
        _ => {},
    }
}

/// A resource that is listed plainly is that resource: of another one nothing is
/// allowed, where no entry is `*` or ends in `/*`.
pub proof fn law_a_rule_is_for_its_resources(rule: Tree, req: RequestView)
    requires
        forall|i: int|
            0 <= i < rule.at("resources"@).items_or_none().len() ==> {
                let r = (#[trigger] rule.at("resources"@).items_or_none()[i]).text_or_empty();
                &&& r != "*"@
                &&& !has_suffix(r, "/*"@)
                &&& r != (match req.subresource {
                    Some(sub) => req.resource + "/"@ + sub,
                    None => req.resource,
                })
            },
    ensures
        !rule_allows(rule, req),
{
    let rs = rule.at("resources"@).items_or_none();
    assert forall|i: int| 0 <= i < rs.len() implies !resource_covers(
        #[trigger] rs[i],
        req.target(),
    ) by {}
}

/// `pods/*` is for every subresource of pods, and not for pods.
pub proof fn law_a_star_behind_a_resource_is_its_subresources(resource: Seq<char>, sub: Seq<char>)
    requires
        !resource.contains('/'),
        resource.len() > 0,
        resource != "*"@,
    ensures
        resource_covers(Tree::String(resource + "/*"@), resource + "/"@ + sub),
        !resource_covers(Tree::String(resource + "/*"@), resource),
{
    reveal_strlit("/*");
    reveal_strlit("/");
    reveal_strlit("*");
    let r = resource + "/*"@;
    let t = resource + "/"@ + sub;
    assert("/*"@.len() == 2);
    assert(r.subrange(r.len() - 2, r.len() as int) =~= "/*"@);
    assert(r.take(r.len() - 1) =~= resource + "/"@);
    assert(t.subrange(0, (resource.len() + 1) as int) =~= resource + "/"@);
    assert(r[resource.len() as int] == '/');
    assert(r.len() > 1);
}

/// A role allows what one of its rules allows, and nothing else.
pub proof fn law_a_role_is_its_rules(role: Tree, req: RequestView)
    ensures
        role_allows(role, req) <==> exists|i: int|
            0 <= i < role.at("rules"@).items_or_none().len() && rule_allows(
                #[trigger] role.at("rules"@).items_or_none()[i],
                req,
            ),
{
}

/// A subject is whom it names: a user by the name, a group by membership, a
/// ServiceAccount by its namespace and name. No other kind of subject is anyone.
pub proof fn law_a_subject_is_whom_it_names(subject: Tree, user: UserView)
    ensures
        subject.at("kind"@) == str_tree("User") && subject.at("name"@) is String ==> (subject_is(
            subject,
            user,
        ) <==> subject.at("name"@) == Tree::String(user.username)),
        subject.at("kind"@) == str_tree("Group") && subject.at("name"@) is String ==> (subject_is(
            subject,
            user,
        ) <==> exists|i: int|
            0 <= i < user.groups.len() && Tree::String(#[trigger] user.groups[i]) == subject.at(
                "name"@,
            )),
        subject.at("kind"@) == str_tree("ServiceAccount") && subject.at("name"@) is String
            && subject.at("namespace"@) is String ==> (subject_is(subject, user) <==> user.username
            == "system:serviceaccount:"@ + (subject.at("namespace"@)->String_0) + ":"@ + (
        subject.at("name"@)->String_0)),
        subject.at("kind"@) != str_tree("User") && subject.at("kind"@) != str_tree("Group")
            && subject.at("kind"@) != str_tree("ServiceAccount") ==> !subject_is(subject, user),
{
    reveal_strlit("User");
    reveal_strlit("Group");
    reveal_strlit("ServiceAccount");
    assert("User"@.len() == 4);
    assert("Group"@.len() == 5);
    assert("ServiceAccount"@.len() == 14);
    if subject.at("name"@) is String {
        let n = subject.at("name"@)->String_0;
        if user.groups.contains(n) {
            let i = user.groups.index_of(n);
            assert(user.groups[i] == n);
        }
    }
}

/// Nobody is bound by a binding without subjects, and everyone is whom one of its
/// subjects names.
pub proof fn law_a_binding_is_for_its_subjects(binding: Tree, user: UserView)
    ensures
        binding.at("subjects"@).items_or_none().len() == 0 ==> !binds(binding, user),
        binds(binding, user) ==> exists|i: int|
            0 <= i < binding.at("subjects"@).items_or_none().len() && subject_is(
                #[trigger] binding.at("subjects"@).items_or_none()[i],
                user,
            ),
        forall|i: int|
            0 <= i < binding.at("subjects"@).items_or_none().len() && subject_is(
                #[trigger] binding.at("subjects"@).items_or_none()[i],
                user,
            ) ==> binds(binding, user),
{
}

/// The verb of a request is what its method asks for: a GET lists where no name is
/// given, and gets where one is.
pub proof fn law_the_method_is_the_verb(path: Seq<char>, method: Seq<char>)
    requires
        asked(path, method) is Some,
    ensures
        method == "GET"@ && asked(path, method)->0.name is Some ==> asked(path, method)->0.verb
            == "get"@,
        method == "GET"@ && asked(path, method)->0.name is None ==> asked(path, method)->0.verb
            == "list"@,
        method == "POST"@ ==> asked(path, method)->0.verb == "create"@,
        method == "PUT"@ ==> asked(path, method)->0.verb == "update"@,
        method == "PATCH"@ ==> asked(path, method)->0.verb == "patch"@,
        method == "DELETE"@ ==> asked(path, method)->0.verb == "delete"@,
{
    reveal_strlit("GET");
    reveal_strlit("POST");
    reveal_strlit("PUT");
    reveal_strlit("PATCH");
    reveal_strlit("DELETE");
    assert("GET"@.len() == 3);
    assert("GET"@[0] == 'G');
    assert("PUT"@.len() == 3);
    assert("PUT"@[0] == 'P');
    assert("POST"@.len() == 4);
    assert("PATCH"@.len() == 5);
    assert("DELETE"@.len() == 6);
}

/// A binding leads to the role that it names: one of the cluster from anywhere, one of a
/// namespace from that namespace alone.
pub proof fn law_a_binding_leads_to_its_role(binding: Tree, ns: Seq<char>, name: Seq<char>)
    requires
        binding.at("roleRef"@).at("name"@) == Tree::String(name),
    ensures
        ({
            let kind = binding.at("roleRef"@).at("kind"@);
            &&& kind == str_tree("ClusterRole") ==> role_key_of(binding, None) == Some(
                cluster_key_of("clusterroles"@, name),
            ) && role_key_of(binding, Some(ns)) == Some(cluster_key_of("clusterroles"@, name))
            &&& kind == str_tree("Role") ==> role_key_of(binding, None) is None && role_key_of(
                binding,
                Some(ns),
            ) == Some(namespaced_key_of("roles"@, ns, name))
            &&& kind != str_tree("ClusterRole") && kind != str_tree("Role") ==> role_key_of(
                binding,
                None,
            ) is None && role_key_of(binding, Some(ns)) is None
        }),
{
    reveal_strlit("ClusterRole");
    reveal_strlit("Role");
    assert("ClusterRole"@.len() == 11);
    assert("Role"@.len() == 4);
}

/// Who may do what: the masters anything; everybody else what a role allows that a binding of
/// the cluster, or one of the namespace that is asked in, binds them to.
pub proof fn law_who_may_do_what(
    user: UserView,
    req: RequestView,
    cluster: Seq<GrantView>,
    namespaced: Seq<GrantView>,
)
    ensures
        user.groups.contains("system:masters"@) ==> allowed(user, req, false, cluster, namespaced),
        !user.groups.contains("system:masters"@) ==> (allowed(user, req, false, cluster, namespaced)
            <==> {
            ||| exists|i: int|
                0 <= i < cluster.len() && binds((#[trigger] cluster[i]).binding, user)
                    && role_key_of(cluster[i].binding, None) is Some && cluster[i].role is Some
                    && role_allows(cluster[i].role->0, req)
            ||| req.namespace is Some && exists|i: int|
                0 <= i < namespaced.len() && binds((#[trigger] namespaced[i]).binding, user)
                    && role_key_of(namespaced[i].binding, req.namespace) is Some
                    && namespaced[i].role is Some && role_allows(namespaced[i].role->0, req)
        }),
        user.username != "system:anonymous"@ ==> (allowed(user, req, true, cluster, namespaced)
            <==> allowed(user, req, false, cluster, namespaced)),
{
    if some_grant_allows(cluster, user, req, None) {
        let i = choose|i: int|
            0 <= i < cluster.len() && grant_allows(#[trigger] cluster[i], user, req, None);
        assert(binds(cluster[i].binding, user));
    }
    if some_grant_allows(namespaced, user, req, req.namespace) {
        let i = choose|i: int|
            0 <= i < namespaced.len() && grant_allows(
                #[trigger] namespaced[i],
                user,
                req,
                req.namespace,
            );
        assert(binds(namespaced[i].binding, user));
    }
    if exists|i: int|
        0 <= i < cluster.len() && binds((#[trigger] cluster[i]).binding, user) && role_key_of(
            cluster[i].binding,
            None,
        ) is Some && cluster[i].role is Some && role_allows(cluster[i].role->0, req) {
        let i = choose|i: int|
            0 <= i < cluster.len() && binds((#[trigger] cluster[i]).binding, user) && role_key_of(
                cluster[i].binding,
                None,
            ) is Some && cluster[i].role is Some && role_allows(cluster[i].role->0, req);
        assert(grant_allows(cluster[i], user, req, None));
    }
    if req.namespace is Some && exists|i: int|
        0 <= i < namespaced.len() && binds((#[trigger] namespaced[i]).binding, user) && role_key_of(
            namespaced[i].binding,
            req.namespace,
        ) is Some && namespaced[i].role is Some && role_allows(namespaced[i].role->0, req) {
        let i = choose|i: int|
            0 <= i < namespaced.len() && binds((#[trigger] namespaced[i]).binding, user)
                && role_key_of(namespaced[i].binding, req.namespace) is Some && namespaced[i].role
                is Some && role_allows(namespaced[i].role->0, req);
        assert(grant_allows(namespaced[i], user, req, req.namespace));
    }
}

/// A path is read from left to right: its group, its namespace where it has one, its resource,
/// the name of the object and the part of it.
pub proof fn law_a_path_is_read_from_left_to_right(
    group: Seq<char>,
    version: Seq<char>,
    ns: Seq<char>,
    r: Seq<char>,
    name: Seq<char>,
    sub: Seq<char>,
)
    requires
        r != "namespaces"@,
        r != "projects"@,
        r != "status"@,
        r != "finalize"@,
    ensures
        path_parts(seq!["api"@, "v1"@, r, name]) == Some(
            PathView {
                api_group: Seq::empty(),
                resource: r,
                namespace: None,
                name: Some(name),
                subresource: None,
            },
        ),
        path_parts(seq!["api"@, "v1"@, "namespaces"@, ns, r]) == Some(
            PathView {
                api_group: Seq::empty(),
                resource: r,
                namespace: Some(ns),
                name: None,
                subresource: None,
            },
        ),
        path_parts(seq!["api"@, "v1"@, "namespaces"@, ns, r, name, sub]) == Some(
            PathView {
                api_group: Seq::empty(),
                resource: r,
                namespace: Some(ns),
                name: Some(name),
                subresource: Some(sub),
            },
        ),
        path_parts(seq!["apis"@, group, version, r, name, sub]) == Some(
            PathView {
                api_group: group,
                resource: r,
                namespace: None,
                name: Some(name),
                subresource: Some(sub),
            },
        ),
        path_parts(seq!["apis"@, group, version, "namespaces"@, ns, r, name]) == Some(
            PathView {
                api_group: group,
                resource: r,
                namespace: Some(ns),
                name: Some(name),
                subresource: None,
            },
        ),
{
    reveal_strlit("api");
    reveal_strlit("apis");
    assert("api"@.len() == 3);
    assert("apis"@.len() == 4);
    assert(seq!["api"@, "v1"@, r, name].skip(2) =~= seq![r, name]);
    assert(seq!["api"@, "v1"@, "namespaces"@, ns, r].skip(2) =~= seq!["namespaces"@, ns, r]);
    assert(seq!["api"@, "v1"@, "namespaces"@, ns, r, name, sub].skip(2) =~= seq![
        "namespaces"@,
        ns,
        r,
        name,
        sub,
    ]);
    assert(seq!["apis"@, group, version, r, name, sub].skip(3) =~= seq![r, name, sub]);
    assert(seq!["apis"@, group, version, "namespaces"@, ns, r, name].skip(3) =~= seq![
        "namespaces"@,
        ns,
        r,
        name,
    ]);
}

/// What a request asks is what its path and its method say.
pub proof fn law_a_request_asks_what_its_path_says(path: Seq<char>, method: Seq<char>)
    requires
        path_parts(segments_of(path)) is Some,
    ensures
        ({
            let p = path_parts(segments_of(path))->0;
            let q = asked(path, method);
            &&& q is Some <==> method == "GET"@ || method == "POST"@ || method == "PUT"@ || method
                == "PATCH"@ || method == "DELETE"@
            &&& q is Some ==> q->0.resource == p.resource && q->0.api_group == p.api_group
                && q->0.namespace == p.namespace && q->0.name == p.name && q->0.subresource
                == p.subresource
            &&& method == "DELETE"@ ==> q->0.verb == "delete"@
            &&& method == "GET"@ ==> q->0.verb == (if p.name is Some {
                "get"@
            } else {
                "list"@
            })
        }),
{
    reveal_strlit("GET");
    reveal_strlit("POST");
    reveal_strlit("PUT");
    reveal_strlit("PATCH");
    reveal_strlit("DELETE");
    assert("GET"@.len() == 3);
    assert("POST"@.len() == 4);
    assert("PUT"@.len() == 3);
    assert("PATCH"@.len() == 5);
    assert("DELETE"@.len() == 6);
    assert("GET"@[0] == 'G');
    assert("PUT"@[0] == 'P');
}

/// What passes without being asked about: the health of the server, what it serves, and what is
/// not of the API. Of the API what cannot be read is refused, and the rest is asked about.
pub proof fn law_what_passes_the_gate(path: Seq<char>, method: Seq<char>, username: Seq<char>)
    ensures
        path == "/healthz"@ || path == "/livez"@ || path == "/readyz"@ || path == "/version"@ || path
            == "/api"@ || path == "/apis"@ ==> gate_of(path, method, username) is Pass,
        gate_of(path, method, username) is Ask ==> gate_of(path, method, username)->Ask_0 == asked(
            path,
            method,
        )->0 && asked(path, method) is Some,
        gate_of(path, method, username) is Refuse ==> gate_of(
            path,
            method,
            username,
        )->Refuse_0.status == 403,
        (has_prefix(path, "/api/"@) || has_prefix(path, "/apis/"@)) && method != "GET"@ && gate_of(
            path,
            method,
            username,
        ) is Pass ==> path == "/healthz"@ || path == "/livez"@ || path == "/readyz"@ || path
            == "/version"@ || path == "/api"@ || path == "/apis"@,
        asked(path, method) is Some && method != "GET"@ && !open_path(path) ==> gate_of(
            path,
            method,
            username,
        ) is Ask,
{
}

/// Who may not is told so with 403.
pub proof fn law_a_refusal_is_forbidden(username: Seq<char>, req: RequestView)
    ensures
        refusal(username, req).status == 403,
        refusal(username, req).reason == "Forbidden"@,
{
}

/// A project is asked for in itself, as the namespace that it is.
pub proof fn law_a_project_is_asked_for_in_itself(version: Seq<char>, name: Seq<char>)
    ensures
        path_parts(seq!["apis"@, "project.openshift.io"@, version, "projects"@, name]) == Some(
            PathView {
                api_group: "project.openshift.io"@,
                resource: "projects"@,
                namespace: Some(name),
                name: Some(name),
                subresource: None,
            },
        ),
{
    reveal_strlit("api");
    reveal_strlit("apis");
    assert("api"@.len() == 3);
    assert("apis"@.len() == 4);
    assert(seq!["apis"@, "project.openshift.io"@, version, "projects"@, name].skip(3) =~= seq![
        "projects"@,
        name,
    ]);
}

/// What may be read of the API without being asked about is what is served: the core version,
/// and a version of a group, and nothing below either.
pub proof fn law_what_is_served_may_be_read(
    group: Seq<char>,
    version: Seq<char>,
    below: Seq<char>,
)
    requires
        group.len() > 0,
        version.len() > 0,
        !group.contains('/'),
        !version.contains('/'),
        !below.contains('/'),
    ensures
        discovery_path("/api/v1"@),
        discovery_path("/apis/"@ + (group + seq!['/'] + version)),
        !discovery_path("/apis/"@ + (group + seq!['/'] + version + seq!['/'] + below)),
        !discovery_path("/apis/"@ + group),
{
    let one = group.push('/') + version;
    let two = one.push('/') + below;
    assert(group + seq!['/'] + version =~= one);
    assert(one + seq!['/'] + below =~= two);
    lemma_split_whole(group, '/');
    lemma_split_push(group, '/', version);
    lemma_split_push(one, '/', below);
    assert(split(one, '/') =~= seq![group, version]);
    assert(split(two, '/').len() == 3);
    lemma_behind_apis(one);
    lemma_behind_apis(two);
    lemma_behind_apis(group);
}

proof fn lemma_behind_apis(rest: Seq<char>)
    ensures
        without_prefix("/apis/"@ + rest, "/apis/"@) == Some(rest),
        "/apis/"@ + rest != "/api/v1"@,
{
    let p = "/apis/"@;
    let s = p + rest;
    assert(s.subrange(0, p.len() as int) =~= p);
    assert(s.skip(p.len() as int) =~= rest);
    reveal_strlit("/api/v1");
    reveal_strlit("/apis/");
    assert(s[4] == 's');
    assert("/api/v1"@[4] == '/');
}

} // verus!
