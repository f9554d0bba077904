//! Projects: a Project is a Namespace, seen by its members.
//!
//! Nothing is stored as a Project. What it adds is ownership: whoever requests
//! one is bound to the `admin` role in it, and a list shows each user the
//! projects they are a member of.

use vstd::prelude::*;
use vstd::string::*;

use crate::apiserver::auth::{UserInfo, UserView};
use crate::apiserver::error::{
    api_error, err_already_exists, err_conflict, err_forbidden, err_internal, err_invalid,
    err_not_found, ApiError, ErrorView, UNPROCESSABLE_ENTITY,
};
use crate::apiserver::rbac_engine::{
    binds, role_allows, rule_allows, subjects_match, AuthorizationRequest, RequestView,
};
use crate::json::{
    empty_object, key_order, lemma_trees_empty, lemma_trees_push, lists_keys, no_items, str_tree,
    trees, Json, Tree,
};
use crate::text::{
    chars_of, has_prefix, opt_str, same, split_at_first, split_once, starts_with, strip_prefix,
    without_prefix,
};

verus! {

pub const API_VERSION: &'static str = "project.openshift.io/v1";

/// Who asked for the project. It is set by the server and never taken from a
/// body.
pub const REQUESTER: &'static str = "openshift.io/requester";

pub const DISPLAY_NAME: &'static str = "openshift.io/display-name";

pub const DESCRIPTION: &'static str = "openshift.io/description";

/// The RoleBinding that a request makes.
pub const ADMIN_BINDING: &'static str = "admin";

/// A namespace as a project.
pub open spec fn project_of(ns: Tree) -> Tree {
    Tree::Object(
        map![
            "apiVersion"@ => Tree::String(API_VERSION@),
            "kind"@ => str_tree("Project"),
            "metadata"@ => ns.at("metadata"@).unset("namespace"@),
            "spec"@ => Tree::Object(map!["finalizers"@ => ns.at("spec"@).at("finalizers"@)]),
            "status"@ => ns.at("status"@),
        ],
    )
}

/// A namespace as the project of the same name.
pub fn namespace_to_project(ns: &Json) -> (r: Json)
    ensures
        r@ == project_of(ns@),
{
    let mut meta = ns.at("metadata").dup();
    meta.unset("namespace");
    Json::object().with("apiVersion", Json::text(API_VERSION)).with(
        "kind",
        Json::text("Project"),
    ).with("metadata", meta).with(
        "spec",
        Json::object().with("finalizers", ns.at("spec").at("finalizers").dup()),
    ).with("status", ns.at("status").dup())
}

/// A text that is not empty.
pub open spec fn filled(o: Option<Seq<char>>) -> bool {
    o is Some && o->0.len() > 0
}

/// The annotations of the namespace of a project: those of the body without a
/// requester, then the names, then the requester.
pub open spec fn project_annotations(
    annotations: Tree,
    display_name: Option<Seq<char>>,
    description: Option<Seq<char>>,
    requester: Option<Seq<char>>,
) -> Tree {
    let kept = annotations.as_object().unset(REQUESTER@);
    let named = if filled(display_name) {
        kept.set(DISPLAY_NAME@, Tree::String(display_name->0))
    } else {
        kept
    };
    let described = if filled(description) {
        named.set(DESCRIPTION@, Tree::String(description->0))
    } else {
        named
    };
    match requester {
        Some(r) => described.set(REQUESTER@, Tree::String(r)),
        None => described,
    }
}

/// An object has members.
pub open spec fn has_members(t: Tree) -> bool {
    match t {
        Tree::Object(m) => key_order(m).len() > 0,
        _ => false,
    }
}

/// The namespace that a project's body describes: its name, labels and
/// annotations, and nothing else.
pub open spec fn namespace_for(
    name: Seq<char>,
    labels: Tree,
    annotations: Tree,
    display_name: Option<Seq<char>>,
    description: Option<Seq<char>>,
    requester: Option<Seq<char>>,
) -> Tree {
    let ann = project_annotations(annotations, display_name, description, requester);
    let bare = Tree::Object(map!["name"@ => Tree::String(name)]);
    let labelled = if has_members(labels) {
        bare.set("labels"@, labels)
    } else {
        bare
    };
    Tree::Object(
        map![
            "apiVersion"@ => str_tree("v1"),
            "kind"@ => str_tree("Namespace"),
            "metadata"@ => if has_members(ann) {
                labelled.set("annotations"@, ann)
            } else {
                labelled
            },
            "spec"@ => empty_object(),
        ],
    )
}

fn any_members(v: &Json) -> (r: bool)
    ensures
        r == has_members(v@),
{
    match v {
        Json::Object(o) => o.len() > 0,
        _ => false,
    }
}

/// The namespace that a project's body describes.
pub fn project_namespace(
    name: &str,
    labels: &Json,
    annotations: &Json,
    display_name: Option<&str>,
    description: Option<&str>,
    requester: Option<&str>,
) -> (r: Json)
    ensures
        r@ == namespace_for(
            name@,
            labels@,
            annotations@,
            opt_str(display_name),
            opt_str(description),
            opt_str(requester),
        ),
{
    let mut ann = annotations.dup();
    ann.make_object();
    ann.unset(REQUESTER);
    match display_name {
        Some(d) => {
            if d.unicode_len() > 0 {
                ann.set(DISPLAY_NAME, Json::text(d));
            }
        },
        None => {},
    }
    match description {
        Some(d) => {
            if d.unicode_len() > 0 {
                ann.set(DESCRIPTION, Json::text(d));
            }
        },
        None => {},
    }
    match requester {
        Some(r) => {
            ann.set(REQUESTER, Json::text(r));
        },
        None => {},
    }
    let mut meta = Json::object().with("name", Json::text(name));
    if any_members(labels) {
        meta.set("labels", labels.dup());
    }
    if any_members(&ann) {
        meta.set("annotations", ann);
    }
    Json::object().with("apiVersion", Json::text("v1")).with(
        "kind",
        Json::text("Namespace"),
    ).with("metadata", meta).with("spec", Json::object())
}

/// A request cannot name its own requester: whatever the body's annotations say,
/// the requester is the one that the server sets, or none.
pub proof fn law_the_requester_is_the_servers(
    annotations: Tree,
    display_name: Option<Seq<char>>,
    description: Option<Seq<char>>,
    requester: Option<Seq<char>>,
)
    ensures
        project_annotations(annotations, display_name, description, requester).get(REQUESTER@)
            == match requester {
            Some(r) => Some(Tree::String(r)),
            None => None,
        },
{
    lemma_annotation_keys();
}

proof fn lemma_annotation_keys()
    ensures
        REQUESTER@ != DISPLAY_NAME@,
        REQUESTER@ != DESCRIPTION@,
        DISPLAY_NAME@ != DESCRIPTION@,
{
    reveal_strlit("openshift.io/requester");
    reveal_strlit("openshift.io/display-name");
    reveal_strlit("openshift.io/description");
    assert(REQUESTER@[13] == 'r');
    assert(DISPLAY_NAME@[13] == 'd');
    assert(DESCRIPTION@[13] == 'd');
    assert(DISPLAY_NAME@[14] == 'i');
    assert(DESCRIPTION@[14] == 'e');
}

// ---------------------------------------------------------------------------
// Ownership
// ---------------------------------------------------------------------------

/// The subject of the binding that makes a user the admin of a project: a
/// ServiceAccount as such, anyone else as a user.
pub open spec fn admin_subject(username: Seq<char>) -> Tree {
    let account = match without_prefix(username, "system:serviceaccount:"@) {
        Some(rest) => split_once(rest, ':'),
        None => None,
    };
    match account {
        Some((ns, name)) => Tree::Object(
            map![
                "kind"@ => str_tree("ServiceAccount"),
                "name"@ => Tree::String(name),
                "namespace"@ => Tree::String(ns),
            ],
        ),
        None => Tree::Object(
            map![
                "kind"@ => str_tree("User"),
                "apiGroup"@ => str_tree("rbac.authorization.k8s.io"),
                "name"@ => Tree::String(username),
            ],
        ),
    }
}

/// The reference to a ClusterRole.
pub open spec fn role_ref(name: Seq<char>) -> Tree {
    Tree::Object(
        map![
            "apiGroup"@ => str_tree("rbac.authorization.k8s.io"),
            "kind"@ => str_tree("ClusterRole"),
            "name"@ => Tree::String(name),
        ],
    )
}

/// The binding that makes a user the admin of a namespace.
pub open spec fn admin_binding_tree(namespace: Seq<char>, username: Seq<char>) -> Tree {
    Tree::Object(
        map![
            "apiVersion"@ => str_tree("rbac.authorization.k8s.io/v1"),
            "kind"@ => str_tree("RoleBinding"),
            "metadata"@ => Tree::Object(map![
                "name"@ => Tree::String(ADMIN_BINDING@),
                "namespace"@ => Tree::String(namespace),
            ]),
            "roleRef"@ => role_ref("admin"@),
            "subjects"@ => no_items().plus(admin_subject(username)),
        ],
    )
}

/// A reference to a ClusterRole.
pub fn reference(name: &str) -> (r: Json)
    ensures
        r@ == role_ref(name@),
{
    Json::object().with("apiGroup", Json::text("rbac.authorization.k8s.io")).with(
        "kind",
        Json::text("ClusterRole"),
    ).with("name", Json::text(name))
}

/// The binding that makes a user the admin of a namespace.
pub fn admin_binding(namespace: &str, user: &UserInfo) -> (r: Json)
    ensures
        r@ == admin_binding_tree(namespace@, user@.username),
{
    let username = user.username.as_str();
    let account = match strip_prefix(username, "system:serviceaccount:") {
        Some(rest) => split_at_first(rest, ':'),
        None => None,
    };
    let subject = match account {
        Some((ns, name)) => Json::object().with("kind", Json::text("ServiceAccount")).with(
            "name",
            Json::text(name),
        ).with("namespace", Json::text(ns)),
        None => Json::object().with("kind", Json::text("User")).with(
            "apiGroup",
            Json::text("rbac.authorization.k8s.io"),
        ).with("name", Json::text(username)),
    };
    let meta = Json::object().with("name", Json::text(ADMIN_BINDING)).with(
        "namespace",
        Json::text(namespace),
    );
    Json::object().with("apiVersion", Json::text("rbac.authorization.k8s.io/v1")).with(
        "kind",
        Json::text("RoleBinding"),
    ).with("metadata", meta).with("roleRef", reference("admin")).with(
        "subjects",
        Json::list().and(subject),
    )
}

/// The binding of a project names whoever requested it.
pub proof fn law_the_requester_is_bound(namespace: Seq<char>, user: UserView)
    ensures
        binds(admin_binding_tree(namespace, user.username), user),
{
    let b = admin_binding_tree(namespace, user.username);
    let p = "system:serviceaccount:"@;
    reveal_strlit("apiVersion");
    reveal_strlit("kind");
    reveal_strlit("metadata");
    reveal_strlit("roleRef");
    reveal_strlit("subjects");
    reveal_strlit("name");
    reveal_strlit("namespace");
    reveal_strlit("apiGroup");
    assert("kind"@[0] == 'k');
    assert("name"@[0] == 'n');
    assert("name"@.len() == 4);
    assert("namespace"@.len() == 9);
    assert("apiGroup"@[0] == 'a');
    assert("apiGroup"@.len() == 8);
    assert("metadata"@[0] == 'm');
    assert("subjects"@[0] == 's');
    let s = admin_subject(user.username);
    assert(b.at("subjects"@).items_or_none()[0] == s);
    reveal_strlit("User");
    reveal_strlit("Group");
    reveal_strlit("ServiceAccount");
    assert("User"@.len() == 4);
    assert("Group"@.len() == 5);
    assert("ServiceAccount"@.len() == 14);
    match without_prefix(user.username, p) {
        Some(rest) => {
            match split_once(rest, ':') {
                Some((ns, name)) => {
                    crate::text::lemma_find_from(rest, seq![':'], 0);
                    let i = crate::text::find_from(rest, seq![':'], 0)->0;
                    reveal_strlit(":");
                    assert(":"@ =~= seq![':']);
                    assert(rest.subrange(i, i + 1) == seq![':']);
                    assert(rest =~= ns + ":"@ + name);
                    assert(user.username.subrange(0, p.len() as int) == p);
                    assert(user.username =~= p + rest);
                    assert(user.username =~= crate::apiserver::auth::sa_username(ns, name));
                },
                None => {},
            }
        },
        None => {},
    }
    assert(crate::apiserver::rbac_engine::subject_is(b.at("subjects"@).items_or_none()[0], user));
}

// ---------------------------------------------------------------------------
// Names
// ---------------------------------------------------------------------------

/// A character of a DNS label.
pub open spec fn label_char(c: char) -> bool {
    ('a' <= c <= 'z') || ('0' <= c <= '9') || c == '-'
}

/// A DNS label by RFC 1123: lower-case letters, digits and dashes, at most 63,
/// with no dash at either end.
pub open spec fn is_label(name: Seq<char>) -> bool {
    &&& 0 < name.len() <= 63
    &&& forall|i: int| 0 <= i < name.len() ==> label_char(#[trigger] name[i])
    &&& name[0] != '-'
    &&& name.last() != '-'
}

/// The refusal of a name that is no DNS label.
pub open spec fn bad_name(name: Seq<char>) -> ErrorView {
    api_error(
        UNPROCESSABLE_ENTITY,
        "Invalid"@,
        "Project \""@ + name
            + "\" is invalid: metadata.name: must be a lowercase RFC 1123 label (a-z, 0-9 and '-', starting and ending alphanumeric, at most 63 characters)"@,
    )
}

/// Checks that the name of a namespace is a DNS label.
pub fn validate_name(name: &str) -> (r: Result<(), ApiError>)
    ensures
        match r {
            Ok(_) => is_label(name@),
            Err(e) => !is_label(name@) && e@ == bad_name(name@),
        },
{
    let cs = chars_of(name);
    let n: usize = cs.len();
    let mut ok = n > 0 && n <= 63 && cs[0] != '-' && cs[n - 1] != '-';
    let mut i: usize = 0;
    while i < n
        invariant
            i <= n,
            n == cs@.len(),
            cs@ == name@,
            ok == (0 < n && n <= 63 && cs@[0] != '-' && cs@.last() != '-' && forall|j: int|
                0 <= j < i ==> label_char(#[trigger] cs@[j])),
        decreases n - i,
    {
        let c = cs[i];
        if !(('a' <= c && c <= 'z') || ('0' <= c && c <= '9') || c == '-') {
            ok = false;
        }
        i = i + 1;
    }
    if ok {
        return Ok(());
    }
    let m = "Project \"".to_owned().concat(name).concat(
        "\" is invalid: metadata.name: must be a lowercase RFC 1123 label (a-z, 0-9 and '-', starting and ending alphanumeric, at most 63 characters)",
    );
    Err(ApiError::new(UNPROCESSABLE_ENTITY, "Invalid", m.as_str()))
}

/// A name that the system keeps for itself.
pub open spec fn reserved(name: Seq<char>) -> bool {
    name == "default"@ || name == "openshift"@ || has_prefix(name, "kube-"@) || has_prefix(
        name,
        "openshift-"@,
    )
}

/// Is this a name that a user may not request?
pub fn is_reserved(name: &str) -> (r: bool)
    ensures
        r == reserved(name@),
{
    same(name, "default") || same(name, "openshift") || starts_with(name, "kube-") || starts_with(
        name,
        "openshift-",
    )
}

// ---------------------------------------------------------------------------
// Requests
// ---------------------------------------------------------------------------

/// What a request for a project creates: the namespace, with the user as its
/// requester.
pub open spec fn requested(body: Tree, username: Seq<char>) -> Result<
    (Seq<char>, Tree),
    ErrorView,
> {
    match body.at("metadata"@).at("name"@).text() {
        None => Err(err_invalid("metadata.name is required"@)),
        Some(name) => if reserved(name) {
            Err(
                err_forbidden(
                    "cannot request a project with the name \""@ + name
                        + "\": names starting kube- or openshift-, and default, are reserved for the system"@,
                ),
            )
        } else {
            Ok(
                (
                    name,
                    namespace_for(
                        name,
                        body.at("metadata"@).at("labels"@),
                        body.at("metadata"@).at("annotations"@),
                        body.at("displayName"@).text(),
                        body.at("description"@).text(),
                        Some(username),
                    ),
                ),
            )
        },
    }
}

/// Decides what a request for a project creates.
pub fn project_request(body: &Json, user: &UserInfo) -> (r: Result<(String, Json), ApiError>)
    ensures
        match r {
            Ok((name, ns)) => requested(body@, user@.username) == Ok::<
                (Seq<char>, Tree),
                ErrorView,
            >((name@, ns@)),
            Err(e) => requested(body@, user@.username) == Err::<(Seq<char>, Tree), ErrorView>(e@),
        },
{
    let meta = body.at("metadata");
    let name = match meta.at("name").as_str() {
        Some(n) => n,
        None => {
            return Err(ApiError::invalid("metadata.name is required"));
        },
    };
    if is_reserved(name) {
        let m = "cannot request a project with the name \"".to_owned().concat(name).concat(
            "\": names starting kube- or openshift-, and default, are reserved for the system",
        );
        return Err(ApiError::forbidden(m.as_str()));
    }
    let ns = project_namespace(
        name,
        meta.at("labels"),
        meta.at("annotations"),
        body.at("displayName").as_str(),
        body.at("description").as_str(),
        Some(user.username.as_str()),
    );
    Ok((name.to_owned(), ns))
}

/// What the direct creation of a project creates: the namespace, without a
/// requester.
pub fn project_creation(body: &Json) -> (r: Result<(String, Json), ApiError>)
    ensures
        match (body@.at("metadata"@).at("name"@).text(), r) {
            (Some(n), Ok((name, ns))) => name@ == n && ns@ == namespace_for(
                n,
                body@.at("metadata"@).at("labels"@),
                body@.at("metadata"@).at("annotations"@),
                None,
                None,
                None,
            ),
            (None, Err(e)) => e@ == err_invalid("metadata.name is required"@),
            _ => false,
        },
{
    let meta = body.at("metadata");
    let name = match meta.at("name").as_str() {
        Some(n) => n,
        None => {
            return Err(ApiError::invalid("metadata.name is required"));
        },
    };
    let ns = project_namespace(
        name,
        meta.at("labels"),
        meta.at("annotations"),
        None,
        None,
        None,
    );
    Ok((name.to_owned(), ns))
}

/// The error of a creation, in terms of the project.
pub fn creation_error(e: ApiError, name: &str) -> (r: ApiError)
    ensures
        r@ == (if e@.reason == "AlreadyExists"@ {
            err_already_exists("projects.project.openshift.io"@, name@)
        } else {
            e@
        }),
{
    if e.is_already_exists() {
        ApiError::already_exists("projects.project.openshift.io", name)
    } else {
        e
    }
}

/// The error of a read, in terms of the project.
pub fn read_error(e: ApiError, name: &str) -> (r: ApiError)
    ensures
        r@ == (if e@.reason == "NotFound"@ {
            err_not_found("projects.project.openshift.io"@, name@)
        } else {
            e@
        }),
{
    if same(e.reason.as_str(), "NotFound") {
        ApiError::not_found("projects.project.openshift.io", name)
    } else {
        e
    }
}

/// What becomes of a request once its binding has been written or not: a binding
/// that is already there is fine, and any other failure takes the namespace back.
pub fn binding_failure(name: &str, failure: Option<&ApiError>) -> (r: Option<ApiError>)
    ensures
        match failure {
            Some(e) => if e@.reason == "AlreadyExists"@ {
                r is None
            } else {
                r is Some && r->0@ == err_internal(
                    "project \""@ + name@
                        + "\" could not be given its admin binding, and was removed: "@
                        + e@.message,
                )
            },
            None => r is None,
        },
{
    match failure {
        Some(e) => if e.is_already_exists() {
            None
        } else {
            let m = "project \"".to_owned().concat(name).concat(
                "\" could not be given its admin binding, and was removed: ",
            ).concat(e.message.as_str());
            Some(ApiError::internal(m.as_str()))
        },
        None => None,
    }
}

// ---------------------------------------------------------------------------
// Updates
// ---------------------------------------------------------------------------

/// An annotation as an update leaves it: the text of the project, or nothing.
pub open spec fn annotated(ann: Tree, key: Seq<char>, want: Option<Seq<char>>) -> Tree {
    match want {
        Some(v) => ann.set(key, Tree::String(v)),
        None => ann.unset(key),
    }
}

/// The namespace with the display name and the description of its project.
pub open spec fn project_updated(ns: Tree, project: Tree) -> Tree {
    let want = project.at("metadata"@).at("annotations"@);
    let ann = ns.at("metadata"@).at("annotations"@).as_object();
    ns.set(
        "metadata"@,
        ns.at("metadata"@).set(
            "annotations"@,
            annotated(
                annotated(ann, DISPLAY_NAME@, want.at(DISPLAY_NAME@).some_text()),
                DESCRIPTION@,
                want.at(DESCRIPTION@).some_text(),
            ),
        ),
    )
}

fn annotate(ann: &mut Json, key: &str, want: Option<&str>)
    requires
        old(ann)@ is Object,
    ensures
        final(ann)@ == annotated(old(ann)@, key@, opt_str(want)),
        final(ann)@ is Object,
{
    match want {
        Some(v) => {
            ann.set(key, Json::text(v));
        },
        None => {
            ann.unset(key);
        },
    }
}

/// Carries the display name and the description of a project onto its
/// namespace.
pub fn apply_project_update(ns: &mut Json, project: &Json)
    requires
        old(ns)@.settable(),
        old(ns)@.at("metadata"@).settable(),
    ensures
        final(ns)@ == project_updated(old(ns)@, project@),
{
    let want = project.at("metadata").at("annotations");
    let mut ann = ns.at("metadata").at("annotations").dup();
    ann.make_object();
    annotate(&mut ann, DISPLAY_NAME, want.at(DISPLAY_NAME).some_str());
    annotate(&mut ann, DESCRIPTION, want.at(DESCRIPTION).some_str());
    let mut meta = ns.at("metadata").dup();
    meta.set("annotations", ann);
    ns.set("metadata", meta);
}

/// An update of a project changes its names and nothing else: every other
/// annotation, and all metadata beside, stays as it was.
pub proof fn law_an_update_changes_only_names(ns: Tree, project: Tree, key: Seq<char>)
    requires
        ns is Object,
    ensures
        key != DISPLAY_NAME@ && key != DESCRIPTION@ ==> project_updated(ns, project).at(
            "metadata"@,
        ).at("annotations"@).get(key) == ns.at("metadata"@).at("annotations"@).as_object().get(
            key,
        ),
        key != "annotations"@ ==> project_updated(ns, project).at("metadata"@).get(key) == ns.at(
            "metadata"@,
        ).as_object().get(key),
        key != "metadata"@ ==> project_updated(ns, project).get(key) == ns.get(key),
{
    lemma_annotation_keys();
}

/// Checks that an update is of the version that is stored, where it names one.
pub fn check_update(ns: &Json, body: &Json, name: &str) -> (r: Result<(), ApiError>)
    ensures
        ({
            let want = body@.at("metadata"@).at("resourceVersion"@).some_text();
            let stale = want is Some && ns@.at("metadata"@).at("resourceVersion"@).text() != want;
            match r {
                Ok(_) => !stale,
                Err(e) => stale && e@ == err_conflict(
                    "Operation cannot be fulfilled on projects.project.openshift.io \""@ + name@
                        + "\": the object has been modified; please apply your changes to the latest version and try again"@,
                ),
            }
        }),
{
    match body.at("metadata").at("resourceVersion").some_str() {
        Some(rv) => {
            if !ns.at("metadata").at("resourceVersion").is_text(rv) {
                let m = "Operation cannot be fulfilled on projects.project.openshift.io \""
                    .to_owned().concat(name).concat(
                    "\": the object has been modified; please apply your changes to the latest version and try again",
                );
                return Err(ApiError::conflict(m.as_str()));
            }
            Ok(())
        },
        None => Ok(()),
    }
}

// ---------------------------------------------------------------------------
// Lists
// ---------------------------------------------------------------------------

/// The request whose permission shows a user every project: to list namespaces
/// in the whole cluster.
pub fn sees_all_request() -> (r: AuthorizationRequest)
    ensures
        r@ == (RequestView {
            verb: "list"@,
            resource: "namespaces"@,
            subresource: None,
            api_group: Seq::empty(),
            namespace: None,
            name: None,
        }),
{
    AuthorizationRequest {
        verb: "list".to_owned(),
        resource: "namespaces".to_owned(),
        subresource: None,
        api_group: String::new(),
        namespace: None,
        name: None,
    }
}

/// A user is a member of a namespace: some RoleBinding in it names them.
pub open spec fn member_by(bindings: Seq<Tree>, user: UserView) -> bool {
    exists|i: int| 0 <= i < bindings.len() && binds(#[trigger] bindings[i], user)
}

/// Is the user named by any of the RoleBindings of a namespace?
pub fn is_member(bindings: &Vec<Json>, user: &UserInfo) -> (r: bool)
    ensures
        r == member_by(trees(bindings@), user@),
{
    let mut i: usize = 0;
    while i < bindings.len()
        invariant
            i <= bindings.len(),
            forall|j: int| 0 <= j < i ==> !binds(#[trigger] trees(bindings@)[j], user@),
        decreases bindings.len() - i,
    {
        if subjects_match(&bindings[i], user) {
            assert(binds(trees(bindings@)[i as int], user@));
            return true;
        }
        i = i + 1;
    }
    false
}

/// A namespace together with the RoleBindings in it; none where they could not
/// be read.
pub struct Candidate {
    pub namespace: Json,
    pub bindings: Option<Vec<Json>>,
}

/// A namespace is shown to a user who sees all, or who is a member. One whose
/// bindings could not be read is left out.
pub open spec fn shown(c: Candidate, user: UserView, all: bool) -> bool {
    all || match c.bindings {
        Some(b) => member_by(trees(b@), user),
        None => false,
    }
}

/// The projects that a user is shown.
pub open spec fn projects_for(cs: Seq<Candidate>, user: UserView, all: bool) -> Seq<Tree>
    decreases cs.len(),
{
    if cs.len() == 0 {
        Seq::empty()
    } else {
        let rest = projects_for(cs.drop_last(), user, all);
        if shown(cs.last(), user, all) {
            rest.push(project_of(cs.last().namespace@))
        } else {
            rest
        }
    }
}

/// The projects that a user is shown.
pub fn visible_projects(candidates: &Vec<Candidate>, user: &UserInfo, all: bool) -> (r: Vec<Json>)
    ensures
        trees(r@) == projects_for(candidates@, user@, all),
{
    let mut out: Vec<Json> = Vec::new();
    let mut i: usize = 0;
    assert(trees(out@) =~= projects_for(candidates@.take(0), user@, all));
    while i < candidates.len()
        invariant
            i <= candidates.len(),
            trees(out@) == projects_for(candidates@.take(i as int), user@, all),
        decreases candidates.len() - i,
    {
        let c = &candidates[i];
        proof {
            assert(candidates@.take(i + 1).drop_last() =~= candidates@.take(i as int));
            assert(candidates@.take(i + 1).last() == *c);
        }
        let show = all || match &c.bindings {
            Some(b) => is_member(b, user),
            None => false,
        };
        if show {
            let p = namespace_to_project(&c.namespace);
            proof {
                lemma_trees_push(out@, p);
            }
            out.push(p);
        }
        i = i + 1;
    }
    assert(candidates@.take(i as int) =~= candidates@);
    out
}

/// A user who does not see all is shown no project that no binding makes them a
/// member of.
pub proof fn law_only_members_see_a_project(cs: Seq<Candidate>, user: UserView)
    requires
        forall|i: int| 0 <= i < cs.len() ==> !shown(#[trigger] cs[i], user, false),
    ensures
        projects_for(cs, user, false).len() == 0,
    decreases cs.len(),
{
    if cs.len() > 0 {
        let r = cs.drop_last();
        assert forall|i: int| 0 <= i < r.len() implies !shown(#[trigger] r[i], user, false) by {
            assert(r[i] == cs[i]);
        }
        law_only_members_see_a_project(r, user);
        assert(cs.last() == cs[cs.len() - 1]);
    }
}

/// The refusal of a watch to a user who does not see every project.
pub fn watch_refusal(user: &UserInfo) -> (r: ApiError)
    ensures
        r@ == err_forbidden(
            user@.username
                + " may not watch projects: watching is limited to users who may list every namespace; list projects instead"@,
        ),
{
    let m = user.username.clone().concat(
        " may not watch projects: watching is limited to users who may list every namespace; list projects instead",
    );
    ApiError::forbidden(m.as_str())
}

/// The success that answers a question without a result.
pub fn success() -> (r: Json)
    ensures
        r@ == Tree::Object(
            map![
                "apiVersion"@ => str_tree("v1"),
                "kind"@ => str_tree("Status"),
                "metadata"@ => empty_object(),
                "status"@ => str_tree("Success"),
            ],
        ),
{
    Json::object().with("apiVersion", Json::text("v1")).with("kind", Json::text("Status")).with(
        "metadata",
        Json::object(),
    ).with("status", Json::text("Success"))
}

/// The answer to the deletion of a project.
pub fn deleted(name: &str) -> (r: Json)
    ensures
        r@ == Tree::Object(
            map![
                "apiVersion"@ => str_tree("v1"),
                "kind"@ => str_tree("Status"),
                "metadata"@ => empty_object(),
                "status"@ => str_tree("Success"),
                "details"@ => Tree::Object(map![
                    "name"@ => Tree::String(name@),
                    "group"@ => str_tree("project.openshift.io"),
                    "kind"@ => str_tree("projects"),
                ]),
            ],
        ),
{
    let details = Json::object().with("name", Json::text(name)).with(
        "group",
        Json::text("project.openshift.io"),
    ).with("kind", Json::text("projects"));
    success().with("details", details)
}

// ---------------------------------------------------------------------------
// Roles
// ---------------------------------------------------------------------------

/// The verbs that read.
pub open spec fn read_verbs() -> Tree {
    no_items().plus(str_tree("get")).plus(str_tree("list")).plus(str_tree("watch"))
}

fn verbs_read() -> (r: Json)
    ensures
        r@ == read_verbs(),
{
    Json::list().and(Json::text("get")).and(Json::text("list")).and(Json::text("watch"))
}

/// The verbs that write.
pub open spec fn write_verbs() -> Tree {
    no_items().plus(str_tree("create")).plus(str_tree("delete")).plus(
        str_tree("deletecollection"),
    ).plus(str_tree("patch")).plus(str_tree("update"))
}

fn verbs_write() -> (r: Json)
    ensures
        r@ == write_verbs(),
{
    Json::list().and(Json::text("create")).and(Json::text("delete")).and(
        Json::text("deletecollection"),
    ).and(Json::text("patch")).and(Json::text("update"))
}

/// The verbs that read and write.
pub open spec fn every_verb() -> Tree {
    read_verbs().plus(str_tree("create")).plus(str_tree("delete")).plus(
        str_tree("deletecollection"),
    ).plus(str_tree("patch")).plus(str_tree("update"))
}

fn verbs_every() -> (r: Json)
    ensures
        r@ == every_verb(),
{
    verbs_read().and(Json::text("create")).and(Json::text("delete")).and(
        Json::text("deletecollection"),
    ).and(Json::text("patch")).and(Json::text("update"))
}

/// A rule for the resources of one group.
pub open spec fn rule_tree(group: Seq<char>, resources: Tree, verbs: Tree) -> Tree {
    Tree::Object(
        map![
            "apiGroups"@ => no_items().plus(Tree::String(group)),
            "resources"@ => resources,
            "verbs"@ => verbs,
        ],
    )
}

fn rule(group: &str, resources: Json, verbs: Json) -> (r: Json)
    ensures
        r@ == rule_tree(group@, resources@, verbs@),
{
    Json::object().with("apiGroups", Json::list().and(Json::text(group))).with(
        "resources",
        resources,
    ).with("verbs", verbs)
}

/// A ClusterRole with a description.
pub open spec fn cluster_role_tree(name: Seq<char>, description: Seq<char>, rules: Tree) -> Tree {
    Tree::Object(
        map![
            "apiVersion"@ => str_tree("rbac.authorization.k8s.io/v1"),
            "kind"@ => str_tree("ClusterRole"),
            "metadata"@ => Tree::Object(map![
                "name"@ => Tree::String(name),
                "annotations"@ => Tree::Object(map![
                    "openshift.io/description"@ => Tree::String(description),
                ]),
            ]),
            "rules"@ => rules,
        ],
    )
}

fn cluster_role(name: &str, description: &str, rules: Json) -> (r: Json)
    ensures
        r@ == cluster_role_tree(name@, description@, rules@),
{
    let annotations = Json::object().with("openshift.io/description", Json::text(description));
    let meta = Json::object().with("name", Json::text(name)).with("annotations", annotations);
    Json::object().with("apiVersion", Json::text("rbac.authorization.k8s.io/v1")).with(
        "kind",
        Json::text("ClusterRole"),
    ).with("metadata", meta).with("rules", rules)
}

fn append_doc(out: &mut Vec<Json>, v: Json)
    ensures
        trees(final(out)@) == trees(old(out)@).push(v@),
{
    proof {
        lemma_trees_push(out@, v);
    }
    out.push(v);
}

/// What a viewer of a project may do: read everything but its secrets.
pub open spec fn view_rules_tree() -> Tree {
    no_items().plus(
        rule_tree(""@, no_items().plus(str_tree("pods")).plus(str_tree("services"))
            .plus(str_tree("endpoints")).plus(str_tree("configmaps"))
            .plus(str_tree("persistentvolumeclaims")).plus(str_tree("replicationcontrollers"))
            .plus(str_tree("replicationcontrollers/scale")).plus(str_tree("serviceaccounts")),
            read_verbs()),
    ).plus(
        rule_tree("apps"@, no_items().plus(str_tree("deployments"))
            .plus(str_tree("deployments/scale")).plus(str_tree("replicasets"))
            .plus(str_tree("replicasets/scale")).plus(str_tree("statefulsets"))
            .plus(str_tree("statefulsets/scale")).plus(str_tree("daemonsets")), read_verbs()),
    ).plus(
        rule_tree("batch"@, no_items().plus(str_tree("jobs")).plus(str_tree("cronjobs")), read_verbs()),
    ).plus(
        rule_tree("autoscaling"@, no_items().plus(str_tree("horizontalpodautoscalers")), read_verbs()),
    ).plus(
        rule_tree("policy"@, no_items().plus(str_tree("poddisruptionbudgets")), read_verbs()),
    ).plus(
        rule_tree("networking.k8s.io"@, no_items().plus(str_tree("ingresses"))
            .plus(str_tree("networkpolicies")), read_verbs()),
    ).plus(
        rule_tree("gateway.networking.k8s.io"@, no_items().plus(str_tree("gateways"))
            .plus(str_tree("httproutes")), read_verbs()),
    ).plus(
        rule_tree("route.openshift.io"@, no_items().plus(str_tree("routes")), read_verbs()),
    ).plus(
        rule_tree("kubevirt.io"@, no_items().plus(str_tree("virtualmachines"))
            .plus(str_tree("virtualmachineinstances")), read_verbs()),
    ).plus(
        rule_tree("snapshot.storage.k8s.io"@, no_items().plus(str_tree("volumesnapshots")),
            read_verbs()),
    ).plus(
        rule_tree(""@, no_items().plus(str_tree("pods/log")).plus(str_tree("pods/status"))
            .plus(str_tree("services/status")).plus(str_tree("persistentvolumeclaims/status"))
            .plus(str_tree("replicationcontrollers/status")).plus(str_tree("events"))
            .plus(str_tree("limitranges")).plus(str_tree("resourcequotas"))
            .plus(str_tree("resourcequotas/status")).plus(str_tree("bindings"))
            .plus(str_tree("namespaces")).plus(str_tree("namespaces/status")), read_verbs()),
    ).plus(
        rule_tree("apps"@, no_items().plus(str_tree("deployments/status"))
            .plus(str_tree("replicasets/status")).plus(str_tree("statefulsets/status"))
            .plus(str_tree("daemonsets/status")).plus(str_tree("controllerrevisions")), read_verbs()),
    ).plus(
        rule_tree("batch"@, no_items().plus(str_tree("jobs/status"))
            .plus(str_tree("cronjobs/status")), read_verbs()),
    ).plus(
        rule_tree("autoscaling"@, no_items().plus(str_tree("horizontalpodautoscalers/status")),
            read_verbs()),
    ).plus(
        rule_tree("policy"@, no_items().plus(str_tree("poddisruptionbudgets/status")), read_verbs()),
    ).plus(
        rule_tree("networking.k8s.io"@, no_items().plus(str_tree("ingresses/status")), read_verbs()),
    ).plus(
        rule_tree("discovery.k8s.io"@, no_items().plus(str_tree("endpointslices")), read_verbs()),
    ).plus(
        rule_tree("events.k8s.io"@, no_items().plus(str_tree("events")), read_verbs()),
    ).plus(
        rule_tree("gateway.networking.k8s.io"@, no_items().plus(str_tree("gateways/status"))
            .plus(str_tree("httproutes/status")), read_verbs()),
    ).plus(
        rule_tree("route.openshift.io"@, no_items().plus(str_tree("routes/status")), read_verbs()),
    ).plus(
        rule_tree("project.openshift.io"@, no_items().plus(str_tree("projects")), no_items()
            .plus(str_tree("get"))),
    )
}

/// What a viewer of a project may do: read everything but its secrets.
pub fn view_rules() -> (r: Json)
    ensures
        r@ == view_rules_tree(),
        r@ is Array,
{
    Json::list().and(
        rule("", Json::list().and(Json::text("pods")).and(Json::text("services"))
            .and(Json::text("endpoints")).and(Json::text("configmaps"))
            .and(Json::text("persistentvolumeclaims")).and(Json::text("replicationcontrollers"))
            .and(Json::text("replicationcontrollers/scale")).and(Json::text("serviceaccounts")),
            verbs_read()),
    ).and(
        rule("apps", Json::list().and(Json::text("deployments"))
            .and(Json::text("deployments/scale")).and(Json::text("replicasets"))
            .and(Json::text("replicasets/scale")).and(Json::text("statefulsets"))
            .and(Json::text("statefulsets/scale")).and(Json::text("daemonsets")), verbs_read()),
    ).and(
        rule("batch", Json::list().and(Json::text("jobs")).and(Json::text("cronjobs")), verbs_read()),
    ).and(
        rule("autoscaling", Json::list().and(Json::text("horizontalpodautoscalers")), verbs_read()),
    ).and(
        rule("policy", Json::list().and(Json::text("poddisruptionbudgets")), verbs_read()),
    ).and(
        rule("networking.k8s.io", Json::list().and(Json::text("ingresses"))
            .and(Json::text("networkpolicies")), verbs_read()),
    ).and(
        rule("gateway.networking.k8s.io", Json::list().and(Json::text("gateways"))
            .and(Json::text("httproutes")), verbs_read()),
    ).and(
        rule("route.openshift.io", Json::list().and(Json::text("routes")), verbs_read()),
    ).and(
        rule("kubevirt.io", Json::list().and(Json::text("virtualmachines"))
            .and(Json::text("virtualmachineinstances")), verbs_read()),
    ).and(
        rule("snapshot.storage.k8s.io", Json::list().and(Json::text("volumesnapshots")), verbs_read()),
    ).and(
        rule("", Json::list().and(Json::text("pods/log")).and(Json::text("pods/status"))
            .and(Json::text("services/status")).and(Json::text("persistentvolumeclaims/status"))
            .and(Json::text("replicationcontrollers/status")).and(Json::text("events"))
            .and(Json::text("limitranges")).and(Json::text("resourcequotas"))
            .and(Json::text("resourcequotas/status")).and(Json::text("bindings"))
            .and(Json::text("namespaces")).and(Json::text("namespaces/status")), verbs_read()),
    ).and(
        rule("apps", Json::list().and(Json::text("deployments/status"))
            .and(Json::text("replicasets/status")).and(Json::text("statefulsets/status"))
            .and(Json::text("daemonsets/status")).and(Json::text("controllerrevisions")), verbs_read()),
    ).and(
        rule("batch", Json::list().and(Json::text("jobs/status"))
            .and(Json::text("cronjobs/status")), verbs_read()),
    ).and(
        rule("autoscaling", Json::list().and(Json::text("horizontalpodautoscalers/status")),
            verbs_read()),
    ).and(
        rule("policy", Json::list().and(Json::text("poddisruptionbudgets/status")), verbs_read()),
    ).and(
        rule("networking.k8s.io", Json::list().and(Json::text("ingresses/status")), verbs_read()),
    ).and(
        rule("discovery.k8s.io", Json::list().and(Json::text("endpointslices")), verbs_read()),
    ).and(
        rule("events.k8s.io", Json::list().and(Json::text("events")), verbs_read()),
    ).and(
        rule("gateway.networking.k8s.io", Json::list().and(Json::text("gateways/status"))
            .and(Json::text("httproutes/status")), verbs_read()),
    ).and(
        rule("route.openshift.io", Json::list().and(Json::text("routes/status")), verbs_read()),
    ).and(
        rule("project.openshift.io", Json::list().and(Json::text("projects")), Json::list()
            .and(Json::text("get"))),
    )
}

/// What an editor of a project may do: what a viewer may, and change its
/// workloads, read its secrets and enter its pods.
pub open spec fn edit_rules_tree() -> Tree {
    view_rules_tree().plus(
        rule_tree(""@, no_items().plus(str_tree("pods")).plus(str_tree("services"))
            .plus(str_tree("endpoints")).plus(str_tree("configmaps"))
            .plus(str_tree("persistentvolumeclaims")).plus(str_tree("replicationcontrollers"))
            .plus(str_tree("replicationcontrollers/scale")).plus(str_tree("serviceaccounts")),
            write_verbs()),
    ).plus(
        rule_tree("apps"@, no_items().plus(str_tree("deployments"))
            .plus(str_tree("deployments/scale")).plus(str_tree("replicasets"))
            .plus(str_tree("replicasets/scale")).plus(str_tree("statefulsets"))
            .plus(str_tree("statefulsets/scale")).plus(str_tree("daemonsets")), write_verbs()),
    ).plus(
        rule_tree("batch"@, no_items().plus(str_tree("jobs")).plus(str_tree("cronjobs")),
            write_verbs()),
    ).plus(
        rule_tree("autoscaling"@, no_items().plus(str_tree("horizontalpodautoscalers")), write_verbs()),
    ).plus(
        rule_tree("policy"@, no_items().plus(str_tree("poddisruptionbudgets")), write_verbs()),
    ).plus(
        rule_tree("networking.k8s.io"@, no_items().plus(str_tree("ingresses"))
            .plus(str_tree("networkpolicies")), write_verbs()),
    ).plus(
        rule_tree("gateway.networking.k8s.io"@, no_items().plus(str_tree("gateways"))
            .plus(str_tree("httproutes")), write_verbs()),
    ).plus(
        rule_tree("route.openshift.io"@, no_items().plus(str_tree("routes")), write_verbs()),
    ).plus(
        rule_tree("kubevirt.io"@, no_items().plus(str_tree("virtualmachines"))
            .plus(str_tree("virtualmachineinstances")), write_verbs()),
    ).plus(
        rule_tree("snapshot.storage.k8s.io"@, no_items().plus(str_tree("volumesnapshots")),
            write_verbs()),
    ).plus(
        rule_tree(""@, no_items().plus(str_tree("secrets")), every_verb()),
    ).plus(
        rule_tree(""@, no_items().plus(str_tree("pods/exec")).plus(str_tree("pods/attach"))
            .plus(str_tree("pods/portforward")), no_items().plus(str_tree("get"))
            .plus(str_tree("create"))),
    ).plus(
        rule_tree(""@, no_items().plus(str_tree("pods/eviction")), no_items().plus(str_tree("create"))),
    ).plus(
        rule_tree("subresources.kubevirt.io"@, no_items().plus(str_tree("virtualmachines/start"))
            .plus(str_tree("virtualmachines/stop")).plus(str_tree("virtualmachines/restart")),
            no_items().plus(str_tree("update"))),
    ).plus(
        rule_tree("subresources.kubevirt.io"@, no_items()
            .plus(str_tree("virtualmachineinstances/console"))
            .plus(str_tree("virtualmachineinstances/vnc")), no_items().plus(str_tree("get"))),
    )
}

/// What an editor of a project may do: what a viewer may, and change its
/// workloads, read its secrets and enter its pods.
pub fn edit_rules() -> (r: Json)
    ensures
        r@ == edit_rules_tree(),
        r@ is Array,
{
    view_rules().and(
        rule("", Json::list().and(Json::text("pods")).and(Json::text("services"))
            .and(Json::text("endpoints")).and(Json::text("configmaps"))
            .and(Json::text("persistentvolumeclaims")).and(Json::text("replicationcontrollers"))
            .and(Json::text("replicationcontrollers/scale")).and(Json::text("serviceaccounts")),
            verbs_write()),
    ).and(
        rule("apps", Json::list().and(Json::text("deployments"))
            .and(Json::text("deployments/scale")).and(Json::text("replicasets"))
            .and(Json::text("replicasets/scale")).and(Json::text("statefulsets"))
            .and(Json::text("statefulsets/scale")).and(Json::text("daemonsets")), verbs_write()),
    ).and(
        rule("batch", Json::list().and(Json::text("jobs")).and(Json::text("cronjobs")), verbs_write()),
    ).and(
        rule("autoscaling", Json::list().and(Json::text("horizontalpodautoscalers")), verbs_write()),
    ).and(
        rule("policy", Json::list().and(Json::text("poddisruptionbudgets")), verbs_write()),
    ).and(
        rule("networking.k8s.io", Json::list().and(Json::text("ingresses"))
            .and(Json::text("networkpolicies")), verbs_write()),
    ).and(
        rule("gateway.networking.k8s.io", Json::list().and(Json::text("gateways"))
            .and(Json::text("httproutes")), verbs_write()),
    ).and(
        rule("route.openshift.io", Json::list().and(Json::text("routes")), verbs_write()),
    ).and(
        rule("kubevirt.io", Json::list().and(Json::text("virtualmachines"))
            .and(Json::text("virtualmachineinstances")), verbs_write()),
    ).and(
        rule("snapshot.storage.k8s.io", Json::list().and(Json::text("volumesnapshots")), verbs_write()),
    ).and(
        rule("", Json::list().and(Json::text("secrets")), verbs_every()),
    ).and(
        rule("", Json::list().and(Json::text("pods/exec")).and(Json::text("pods/attach"))
            .and(Json::text("pods/portforward")), Json::list().and(Json::text("get"))
            .and(Json::text("create"))),
    ).and(
        rule("", Json::list().and(Json::text("pods/eviction")), Json::list().and(Json::text("create"))),
    ).and(
        rule("subresources.kubevirt.io", Json::list().and(Json::text("virtualmachines/start"))
            .and(Json::text("virtualmachines/stop")).and(Json::text("virtualmachines/restart")),
            Json::list().and(Json::text("update"))),
    ).and(
        rule("subresources.kubevirt.io", Json::list()
            .and(Json::text("virtualmachineinstances/console"))
            .and(Json::text("virtualmachineinstances/vnc")), Json::list().and(Json::text("get"))),
    )
}

/// What the owner of a project may do: what an editor may, and share and delete
/// the project.
pub open spec fn admin_rules_tree() -> Tree {
    edit_rules_tree().plus(
        rule_tree("rbac.authorization.k8s.io"@, no_items().plus(str_tree("roles"))
            .plus(str_tree("rolebindings")), every_verb()),
    ).plus(
        rule_tree("authorization.k8s.io"@, no_items().plus(str_tree("localsubjectaccessreviews")),
            no_items().plus(str_tree("create"))),
    ).plus(
        rule_tree("project.openshift.io"@, no_items().plus(str_tree("projects")), no_items()
            .plus(str_tree("delete")).plus(str_tree("update"))),
    )
}

/// What the owner of a project may do: what an editor may, and share and delete
/// the project.
pub fn admin_rules() -> (r: Json)
    ensures
        r@ == admin_rules_tree(),
        r@ is Array,
{
    edit_rules().and(
        rule("rbac.authorization.k8s.io", Json::list().and(Json::text("roles"))
            .and(Json::text("rolebindings")), verbs_every()),
    ).and(
        rule("authorization.k8s.io", Json::list().and(Json::text("localsubjectaccessreviews")),
            Json::list().and(Json::text("create"))),
    ).and(
        rule("project.openshift.io", Json::list().and(Json::text("projects")), Json::list()
            .and(Json::text("delete")).and(Json::text("update"))),
    )
}

/// What anyone who has authenticated may do: list their own projects, and ask
/// whether they may request one.
pub open spec fn basic_user_rules_tree() -> Tree {
    no_items().plus(
        rule_tree("project.openshift.io"@, no_items().plus(str_tree("projects")), no_items()
            .plus(str_tree("list")).plus(str_tree("watch"))),
    ).plus(
        rule_tree("project.openshift.io"@, no_items().plus(str_tree("projectrequests")), no_items()
            .plus(str_tree("list"))),
    )
}

/// What anyone who has authenticated may do: list their own projects, and ask
/// whether they may request one.
pub fn basic_user_rules() -> (r: Json)
    ensures
        r@ == basic_user_rules_tree(),
        r@ is Array,
{
    Json::list().and(
        rule("project.openshift.io", Json::list().and(Json::text("projects")), Json::list()
            .and(Json::text("list")).and(Json::text("watch"))),
    ).and(
        rule("project.openshift.io", Json::list().and(Json::text("projectrequests")), Json::list()
            .and(Json::text("list"))),
    )
}

/// What lets a user request a project.
pub open spec fn self_provisioner_rules_tree() -> Tree {
    no_items().plus(
        rule_tree("project.openshift.io"@, no_items().plus(str_tree("projectrequests")), no_items()
            .plus(str_tree("create"))),
    )
}

/// What lets a user request a project.
pub fn self_provisioner_rules() -> (r: Json)
    ensures
        r@ == self_provisioner_rules_tree(),
        r@ is Array,
{
    Json::list().and(
        rule("project.openshift.io", Json::list().and(Json::text("projectrequests")), Json::list()
            .and(Json::text("create"))),
    )
}

/// The ClusterRoles that projects are built on.
pub open spec fn project_roles() -> Seq<Tree> {
    Seq::empty().push(
        cluster_role_tree(
            "admin"@,
            "A project's owner: everything in edit, plus sharing the project and deleting it."@,
            admin_rules_tree(),
        ),
    ).push(
        cluster_role_tree(
            "edit"@,
            "Create, change and delete the workloads in a project; read its secrets."@,
            edit_rules_tree(),
        ),
    ).push(
        cluster_role_tree(
            "view"@,
            "Read everything in a project except its secrets."@,
            view_rules_tree(),
        ),
    ).push(
        cluster_role_tree(
            "basic-user"@,
            "List one's own projects (the server filters) and ask whether one may request one."@,
            basic_user_rules_tree(),
        ),
    ).push(
        cluster_role_tree(
            "self-provisioner"@,
            "Request a new project, becoming its admin."@,
            self_provisioner_rules_tree(),
        ),
    )
}

/// The ClusterRoles that projects are built on, written at every boot. `admin`,
/// `edit` and `view` are bound in each project and never for the whole cluster.
pub fn bootstrap_cluster_roles() -> (r: Vec<Json>)
    ensures
        trees(r@) == project_roles(),
{
    let mut out: Vec<Json> = Vec::new();
    proof {
        lemma_trees_empty();
        assert(out@ =~= Seq::<Json>::empty());
    }
    append_doc(
        &mut out,
        cluster_role(
            "admin",
            "A project's owner: everything in edit, plus sharing the project and deleting it.",
            admin_rules(),
        ),
    );
    append_doc(
        &mut out,
        cluster_role(
            "edit",
            "Create, change and delete the workloads in a project; read its secrets.",
            edit_rules(),
        ),
    );
    append_doc(
        &mut out,
        cluster_role(
            "view",
            "Read everything in a project except its secrets.",
            view_rules(),
        ),
    );
    append_doc(
        &mut out,
        cluster_role(
            "basic-user",
            "List one's own projects (the server filters) and ask whether one may request one.",
            basic_user_rules(),
        ),
    );
    append_doc(
        &mut out,
        cluster_role(
            "self-provisioner",
            "Request a new project, becoming its admin.",
            self_provisioner_rules(),
        ),
    );
    out
}


/// A role that gives every user who has authenticated a ClusterRole.
pub open spec fn everyone_binding(name: Seq<char>, role: Seq<char>) -> Tree {
    Tree::Object(
        map![
            "apiVersion"@ => str_tree("rbac.authorization.k8s.io/v1"),
            "kind"@ => str_tree("ClusterRoleBinding"),
            "metadata"@ => Tree::Object(map!["name"@ => Tree::String(name)]),
            "roleRef"@ => role_ref(role),
            "subjects"@ => no_items().plus(Tree::Object(map![
                "kind"@ => str_tree("Group"),
                "apiGroup"@ => str_tree("rbac.authorization.k8s.io"),
                "name"@ => str_tree("system:authenticated"),
            ])),
        ],
    )
}

fn bind_everyone(name: &str, role: &str) -> (r: Json)
    ensures
        r@ == everyone_binding(name@, role@),
{
    let subject = Json::object().with("kind", Json::text("Group")).with(
        "apiGroup",
        Json::text("rbac.authorization.k8s.io"),
    ).with("name", Json::text("system:authenticated"));
    Json::object().with("apiVersion", Json::text("rbac.authorization.k8s.io/v1")).with(
        "kind",
        Json::text("ClusterRoleBinding"),
    ).with("metadata", Json::object().with("name", Json::text(name))).with(
        "roleRef",
        reference(role),
    ).with("subjects", Json::list().and(subject))
}

/// The bindings that let every user who has authenticated list their projects
/// and request one. They are created once and never written again.
pub fn bootstrap_cluster_role_bindings() -> (r: Vec<Json>)
    ensures
        trees(r@) == Seq::empty().push(everyone_binding("basic-users"@, "basic-user"@)).push(
            everyone_binding("self-provisioners"@, "self-provisioner"@),
        ),
{
    let mut out: Vec<Json> = Vec::new();
    proof {
        lemma_trees_empty();
        assert(out@ =~= Seq::<Json>::empty());
    }
    append_doc(&mut out, bind_everyone("basic-users", "basic-user"));
    append_doc(&mut out, bind_everyone("self-provisioners", "self-provisioner"));
    out
}

/// The roles of a project nest: what a viewer may, an editor may, and what an
/// editor may, the owner may.
pub proof fn law_the_project_roles_nest(req: RequestView)
    ensures
        role_allows(Tree::Object(map!["rules"@ => view_rules_tree()]), req) ==> role_allows(
            Tree::Object(map!["rules"@ => edit_rules_tree()]),
            req,
        ),
        role_allows(Tree::Object(map!["rules"@ => edit_rules_tree()]), req) ==> role_allows(
            Tree::Object(map!["rules"@ => admin_rules_tree()]),
            req,
        ),
{
    let view = Tree::Object(map!["rules"@ => view_rules_tree()]);
    let edit = Tree::Object(map!["rules"@ => edit_rules_tree()]);
    let admin = Tree::Object(map!["rules"@ => admin_rules_tree()]);
    if role_allows(view, req) {
        let rs = view.at("rules"@).items_or_none();
        let i = choose|i: int| 0 <= i < rs.len() && rule_allows(#[trigger] rs[i], req);
        assert(rule_allows(edit.at("rules"@).items_or_none()[i], req));
    }
    if role_allows(edit, req) {
        let rs = edit.at("rules"@).items_or_none();
        let i = choose|i: int| 0 <= i < rs.len() && rule_allows(#[trigger] rs[i], req);
        assert(rule_allows(admin.at("rules"@).items_or_none()[i], req));
    }
}

/// A project is its namespace under another name: it has the metadata, the finalizers and the
/// status of it.
pub proof fn law_a_project_is_its_namespace(ns: Tree, field: Seq<char>)
    requires
        field != "namespace"@,
    ensures
        ({
            let p = project_of(ns);
            &&& p.at("kind"@) == str_tree("Project")
            &&& p.at("apiVersion"@) == str_tree("project.openshift.io/v1")
            &&& p.at("metadata"@).get(field) == ns.at("metadata"@).get(field)
            &&& p.at("metadata"@).get("namespace"@) is None
            &&& p.at("spec"@).at("finalizers"@) == ns.at("spec"@).at("finalizers"@)
            &&& p.at("status"@) == ns.at("status"@)
        }),
{
    reveal_strlit("apiVersion");
    reveal_strlit("kind");
    reveal_strlit("metadata");
    reveal_strlit("spec");
    reveal_strlit("status");
    assert("apiVersion"@.len() == 10);
    assert("kind"@.len() == 4);
    assert("metadata"@.len() == 8);
    assert("spec"@.len() == 4);
    assert("status"@.len() == 6);
    assert("kind"@[0] == 'k');
    assert("spec"@[0] == 's');
}

/// The namespace of a project has its name and its labels, and its names for people as
/// annotations beside those that it was given.
pub proof fn law_a_namespace_for_a_project(
    name: Seq<char>,
    labels: Tree,
    annotations: Tree,
    display_name: Seq<char>,
    description: Seq<char>,
    user: Seq<char>,
    key: Seq<char>,
)
    requires
        display_name.len() > 0,
        description.len() > 0,
        annotations is Object,
        key != "openshift.io/display-name"@,
        key != "openshift.io/description"@,
        key != "openshift.io/requester"@,
    ensures
        ({
            let ann = project_annotations(
                annotations,
                Some(display_name),
                Some(description),
                Some(user),
            );
            let bare = project_annotations(annotations, None, None, Some(user));
            &&& ann.at("openshift.io/display-name"@) == Tree::String(display_name)
            &&& ann.at("openshift.io/description"@) == Tree::String(description)
            &&& ann.at("openshift.io/requester"@) == Tree::String(user)
            &&& ann.get(key) == annotations.get(key)
            &&& bare.get("openshift.io/display-name"@) == annotations.get(
                "openshift.io/display-name"@,
            )
            &&& bare.get("openshift.io/description"@) == annotations.get(
                "openshift.io/description"@,
            )
        }),
        ({
            let ns = namespace_for(
                name,
                labels,
                annotations,
                Some(display_name),
                Some(description),
                Some(user),
            );
            &&& ns.at("kind"@) == str_tree("Namespace")
            &&& ns.at("apiVersion"@) == str_tree("v1")
            &&& ns.at("metadata"@).at("name"@) == Tree::String(name)
            &&& has_members(labels) ==> ns.at("metadata"@).at("labels"@) == labels
            &&& !has_members(labels) ==> ns.at("metadata"@).get("labels"@) is None
        }),
{
    lemma_annotation_keys();
    reveal_strlit("apiVersion");
    reveal_strlit("kind");
    reveal_strlit("metadata");
    reveal_strlit("spec");
    reveal_strlit("name");
    reveal_strlit("labels");
    reveal_strlit("annotations");
    assert("apiVersion"@.len() == 10);
    assert("kind"@.len() == 4);
    assert("metadata"@.len() == 8);
    assert("spec"@.len() == 4);
    assert("name"@.len() == 4);
    assert("labels"@.len() == 6);
    assert("annotations"@.len() == 11);
    assert("kind"@[0] == 'k');
    assert("spec"@[0] == 's');
    assert("name"@[0] == 'n');
}

/// Who asked for a project is bound to be its admin, in it and nowhere else.
pub proof fn law_the_binding_of_a_project(namespace: Seq<char>, username: Seq<char>)
    ensures
        ({
            let b = admin_binding_tree(namespace, username);
            &&& b.at("kind"@) == str_tree("RoleBinding")
            &&& b.at("metadata"@).at("namespace"@) == Tree::String(namespace)
            &&& b.at("roleRef"@).at("kind"@) == str_tree("ClusterRole")
            &&& b.at("roleRef"@).at("name"@) == str_tree("admin")
            &&& b.at("subjects"@).items_or_none().len() == 1
        }),
{
    reveal_strlit("apiVersion");
    reveal_strlit("kind");
    reveal_strlit("metadata");
    reveal_strlit("roleRef");
    reveal_strlit("subjects");
    reveal_strlit("name");
    reveal_strlit("namespace");
    reveal_strlit("apiGroup");
    assert("apiVersion"@.len() == 10);
    assert("kind"@.len() == 4);
    assert("metadata"@.len() == 8);
    assert("roleRef"@.len() == 7);
    assert("subjects"@.len() == 8);
    assert("name"@.len() == 4);
    assert("namespace"@.len() == 9);
    assert("apiGroup"@.len() == 8);
    assert("kind"@[0] == 'k');
    assert("name"@[0] == 'n');
    assert("metadata"@[0] == 'm');
    assert("subjects"@[0] == 's');
    assert("apiGroup"@[0] == 'a');
}

/// A name for a project is short, of small letters, digits and dashes, and has no dash at
/// either end.
pub proof fn law_what_can_be_a_name(name: Seq<char>, i: int)
    requires
        0 <= i < name.len(),
    ensures
        is_label(name) ==> name.len() <= 63,
        is_label(name) ==> name[i] == '-' || ('a' <= name[i] <= 'z') || ('0' <= name[i] <= '9'),
        is_label(name) ==> name[0] != '-' && name[name.len() - 1] != '-',
        name.len() <= 63 && name[0] != '-' && name[name.len() - 1] != '-' && (forall|k: int|
            0 <= k < name.len() ==> (#[trigger] name[k]) == '-' || ('a' <= name[k] <= 'z') || (
            '0' <= name[k] <= '9')) ==> is_label(name),
{
}

/// Nobody asks for a name of the system's; who asks for another has a namespace of it, and is
/// its requester whatever the request says.
pub proof fn law_a_request_for_a_project(body: Tree, username: Seq<char>, rest: Seq<char>)
    ensures
        reserved("kube-"@ + rest),
        reserved("openshift-"@ + rest),
        reserved("default"@),
        reserved("openshift"@),
        !(body.at("metadata"@).at("name"@) is String) ==> requested(body, username) is Err
            && requested(body, username)->Err_0.status == 422,
        body.at("metadata"@).at("name"@) is String && reserved(
            body.at("metadata"@).at("name"@)->String_0,
        ) ==> requested(body, username) is Err && requested(body, username)->Err_0.status == 403,
        body.at("metadata"@).at("name"@) is String && !reserved(
            body.at("metadata"@).at("name"@)->String_0,
        ) ==> requested(body, username) is Ok && Tree::String(requested(body, username)->Ok_0.0)
            == body.at("metadata"@).at("name"@) && requested(body, username)->Ok_0.1.at(
            "metadata"@,
        ).at("name"@) == body.at("metadata"@).at("name"@),
        ({
            let ann = project_annotations(
                body.at("metadata"@).at("annotations"@),
                body.at("displayName"@).text(),
                body.at("description"@).text(),
                Some(username),
            )->Object_0;
            requested(body, username) is Ok && lists_keys(key_order(ann), ann) ==> requested(
                body,
                username,
            )->Ok_0.1.at("metadata"@).at("annotations"@).at("openshift.io/requester"@)
                == Tree::String(username)
        }),
{
    assert(("kube-"@ + rest).subrange(0, "kube-"@.len() as int) =~= "kube-"@);
    assert(("openshift-"@ + rest).subrange(0, "openshift-"@.len() as int) =~= "openshift-"@);
    if body.at("metadata"@).at("name"@) is String && !reserved(
        body.at("metadata"@).at("name"@)->String_0,
    ) {
        let ann = project_annotations(
            body.at("metadata"@).at("annotations"@),
            body.at("displayName"@).text(),
            body.at("description"@).text(),
            Some(username),
        );
        law_the_requester_is_the_servers(
            body.at("metadata"@).at("annotations"@),
            body.at("displayName"@).text(),
            body.at("description"@).text(),
            Some(username),
        );
        if lists_keys(key_order(ann->Object_0), ann->Object_0) {
            assert((ann->Object_0).contains_key(REQUESTER@));
            assert(key_order(ann->Object_0).contains(REQUESTER@));
        }
        reveal_strlit("apiVersion");
        reveal_strlit("kind");
        reveal_strlit("metadata");
        reveal_strlit("spec");
        reveal_strlit("name");
        reveal_strlit("labels");
        reveal_strlit("annotations");
        assert("apiVersion"@.len() == 10);
        assert("kind"@.len() == 4);
        assert("metadata"@.len() == 8);
        assert("spec"@.len() == 4);
        assert("name"@.len() == 4);
        assert("labels"@.len() == 6);
        assert("annotations"@.len() == 11);
        assert("kind"@[0] == 'k');
        assert("spec"@[0] == 's');
        assert("name"@[0] == 'n');
    }
}

/// What a project is called for people is what the last update says, and no more where it says
/// nothing.
pub proof fn law_an_update_names_a_project(ns: Tree, project: Tree)
    requires
        ns is Object,
    ensures
        ({
            let want = project.at("metadata"@).at("annotations"@);
            let has = project_updated(ns, project).at("metadata"@).at("annotations"@);
            let name = want.at("openshift.io/display-name"@);
            let text = want.at("openshift.io/description"@);
            &&& name is String && (name->String_0).len() > 0 ==> has.at(
                "openshift.io/display-name"@,
            ) == name
            &&& !(name is String) || (name->String_0).len() == 0 ==> has.get(
                "openshift.io/display-name"@,
            ) is None
            &&& text is String && (text->String_0).len() > 0 ==> has.at("openshift.io/description"@)
                == text
            &&& !(text is String) || (text->String_0).len() == 0 ==> has.get(
                "openshift.io/description"@,
            ) is None
        }),
{
    lemma_annotation_keys();
}

/// The projects that are shown are those of the namespaces in which the user is bound, in their
/// order; to who may see all, all are.
pub proof fn law_members_see_their_projects(cs: Seq<Candidate>, user: UserView, all: bool)
    ensures
        projects_for(cs, user, all) == cs.filter(
            |c: Candidate|
                all || (c.bindings is Some && exists|i: int|
                    0 <= i < trees(c.bindings->0@).len() && binds(
                        #[trigger] trees(c.bindings->0@)[i],
                        user,
                    )),
        ).map_values(|c: Candidate| project_of(c.namespace@)),
    decreases cs.len(),
{
    reveal(Seq::filter);
    let f = |c: Candidate|
        all || (c.bindings is Some && exists|i: int|
            0 <= i < trees(c.bindings->0@).len() && binds(
                #[trigger] trees(c.bindings->0@)[i],
                user,
            ));
    let g = |c: Candidate| project_of(c.namespace@);
    if cs.len() > 0 {
        law_members_see_their_projects(cs.drop_last(), user, all);
        let rest = cs.drop_last().filter(f);
        assert(shown(cs.last(), user, all) == f(cs.last()));
        assert(rest.push(cs.last()).map_values(g) =~= rest.map_values(g).push(g(cs.last())));
    }
    assert(projects_for(cs, user, all) =~= cs.filter(f).map_values(g));
}

/// Who may view a project may read in it and do nothing else, and sees no secret.
pub proof fn law_a_viewer_reads_no_secret(i: int, verb: Tree, resource: Tree)
    requires
        0 <= i < view_rules_tree().items_or_none().len(),
    ensures
        ({
            let rule = view_rules_tree().items_or_none()[i];
            &&& rule.at("verbs"@).items_or_none().contains(verb) ==> verb == str_tree("get") || verb
                == str_tree("list") || verb == str_tree("watch")
            &&& rule.at("resources"@).items_or_none().contains(resource) ==> resource != str_tree(
                "secrets",
            ) && resource != str_tree("*")
        }),
{
    reveal_strlit("apiGroups");
    reveal_strlit("resources");
    reveal_strlit("verbs");
    assert("apiGroups"@.len() == 9);
    assert("resources"@.len() == 9);
    assert("verbs"@.len() == 5);
    assert("apiGroups"@[0] == 'a');
    assert("resources"@[0] == 'r');
    reveal_strlit("pods");
    reveal_strlit("services");
    reveal_strlit("endpoints");
    reveal_strlit("configmaps");
    reveal_strlit("persistentvolumeclaims");
    reveal_strlit("replicationcontrollers");
    reveal_strlit("replicationcontrollers/scale");
    reveal_strlit("serviceaccounts");
    reveal_strlit("deployments");
    reveal_strlit("deployments/scale");
    reveal_strlit("replicasets");
    reveal_strlit("replicasets/scale");
    reveal_strlit("statefulsets");
    reveal_strlit("statefulsets/scale");
    reveal_strlit("daemonsets");
    reveal_strlit("jobs");
    reveal_strlit("cronjobs");
    reveal_strlit("horizontalpodautoscalers");
    reveal_strlit("poddisruptionbudgets");
    reveal_strlit("ingresses");
    reveal_strlit("networkpolicies");
    reveal_strlit("gateways");
    reveal_strlit("httproutes");
    reveal_strlit("routes");
    reveal_strlit("virtualmachines");
    reveal_strlit("virtualmachineinstances");
    reveal_strlit("volumesnapshots");
    reveal_strlit("pods/log");
    reveal_strlit("pods/status");
    reveal_strlit("services/status");
    reveal_strlit("persistentvolumeclaims/status");
    reveal_strlit("replicationcontrollers/status");
    reveal_strlit("events");
    reveal_strlit("limitranges");
    reveal_strlit("resourcequotas");
    reveal_strlit("resourcequotas/status");
    reveal_strlit("bindings");
    reveal_strlit("namespaces");
    reveal_strlit("namespaces/status");
    reveal_strlit("deployments/status");
    reveal_strlit("replicasets/status");
    reveal_strlit("statefulsets/status");
    reveal_strlit("daemonsets/status");
    reveal_strlit("controllerrevisions");
    reveal_strlit("jobs/status");
    reveal_strlit("cronjobs/status");
    reveal_strlit("horizontalpodautoscalers/status");
    reveal_strlit("poddisruptionbudgets/status");
    reveal_strlit("ingresses/status");
    reveal_strlit("endpointslices");
    reveal_strlit("gateways/status");
    reveal_strlit("httproutes/status");
    reveal_strlit("routes/status");
    reveal_strlit("projects");
    reveal_strlit("secrets");
    reveal_strlit("*");
    assert("secrets"@.len() == 7);
    assert("*"@.len() == 1);
    let none = no_items().items_or_none();
    let rule = view_rules_tree().items_or_none()[i];
    let vs = rule.at("verbs"@).items_or_none();
    assert(vs == read_verbs().items_or_none() || vs == no_items().plus(
        str_tree("get"),
    ).items_or_none());
    assert(view_rules_tree().items_or_none().len() == 21);
    if i == 0 {
        assert("pods"@.len() == 4);
        assert("services"@.len() == 8);
        assert("endpoints"@.len() == 9);
        assert("configmaps"@.len() == 10);
        assert("persistentvolumeclaims"@.len() == 22);
        assert("replicationcontrollers"@.len() == 22);
        assert("replicationcontrollers/scale"@.len() == 28);
        assert("serviceaccounts"@.len() == 15);
        assert(rule.at("resources"@).items_or_none().len() == 8);
    }
    if i == 1 {
        assert("deployments"@.len() == 11);
        assert("deployments/scale"@.len() == 17);
        assert("replicasets"@.len() == 11);
        assert("replicasets/scale"@.len() == 17);
        assert("statefulsets"@.len() == 12);
        assert("statefulsets/scale"@.len() == 18);
        assert("daemonsets"@.len() == 10);
        assert(rule.at("resources"@).items_or_none().len() == 7);
    }
    if i == 2 {
        assert("jobs"@.len() == 4);
        assert("cronjobs"@.len() == 8);
        assert(rule.at("resources"@).items_or_none().len() == 2);
    }
    if i == 3 {
        assert("horizontalpodautoscalers"@.len() == 24);
        assert(rule.at("resources"@).items_or_none().len() == 1);
    }
    if i == 4 {
        assert("poddisruptionbudgets"@.len() == 20);
        assert(rule.at("resources"@).items_or_none().len() == 1);
    }
    if i == 5 {
        assert("ingresses"@.len() == 9);
        assert("networkpolicies"@.len() == 15);
        assert(rule.at("resources"@).items_or_none().len() == 2);
    }
    if i == 6 {
        assert("gateways"@.len() == 8);
        assert("httproutes"@.len() == 10);
        assert(rule.at("resources"@).items_or_none().len() == 2);
    }
    if i == 7 {
        assert("routes"@.len() == 6);
        assert(rule.at("resources"@).items_or_none().len() == 1);
    }
    if i == 8 {
        assert("virtualmachines"@.len() == 15);
        assert("virtualmachineinstances"@.len() == 23);
        assert(rule.at("resources"@).items_or_none().len() == 2);
    }
    if i == 9 {
        assert("volumesnapshots"@.len() == 15);
        assert(rule.at("resources"@).items_or_none().len() == 1);
    }
    if i == 10 {
        assert("pods/log"@.len() == 8);
        assert("pods/status"@.len() == 11);
        assert("services/status"@.len() == 15);
        assert("persistentvolumeclaims/status"@.len() == 29);
        assert("replicationcontrollers/status"@.len() == 29);
        assert("events"@.len() == 6);
        assert("limitranges"@.len() == 11);
        assert("resourcequotas"@.len() == 14);
        assert("resourcequotas/status"@.len() == 21);
        assert("bindings"@.len() == 8);
        assert("namespaces"@.len() == 10);
        assert("namespaces/status"@.len() == 17);
        assert(rule.at("resources"@).items_or_none().len() == 12);
    }
    if i == 11 {
        assert("deployments/status"@.len() == 18);
        assert("replicasets/status"@.len() == 18);
        assert("statefulsets/status"@.len() == 19);
        assert("daemonsets/status"@.len() == 17);
        assert("controllerrevisions"@.len() == 19);
        assert(rule.at("resources"@).items_or_none().len() == 5);
    }
    if i == 12 {
        assert("jobs/status"@.len() == 11);
        assert("cronjobs/status"@.len() == 15);
        assert(rule.at("resources"@).items_or_none().len() == 2);
    }
    if i == 13 {
        assert("horizontalpodautoscalers/status"@.len() == 31);
        assert(rule.at("resources"@).items_or_none().len() == 1);
    }
    if i == 14 {
        assert("poddisruptionbudgets/status"@.len() == 27);
        assert(rule.at("resources"@).items_or_none().len() == 1);
    }
    if i == 15 {
        assert("ingresses/status"@.len() == 16);
        assert(rule.at("resources"@).items_or_none().len() == 1);
    }
    if i == 16 {
        assert("endpointslices"@.len() == 14);
        assert(rule.at("resources"@).items_or_none().len() == 1);
    }
    if i == 17 {
        assert("events"@.len() == 6);
        assert(rule.at("resources"@).items_or_none().len() == 1);
    }
    if i == 18 {
        assert("gateways/status"@.len() == 15);
        assert("httproutes/status"@.len() == 17);
        assert(rule.at("resources"@).items_or_none().len() == 2);
    }
    if i == 19 {
        assert("routes/status"@.len() == 13);
        assert(rule.at("resources"@).items_or_none().len() == 1);
    }
    if i == 20 {
        assert("projects"@.len() == 8);
        assert(rule.at("resources"@).items_or_none().len() == 1);
    }
}

} // verus!
