//! Reviews of access: what an identity may do, asked without doing it.

use vstd::prelude::*;
use vstd::string::*;

use crate::apiserver::auth::{UserInfo, UserView};
use crate::apiserver::error::{err_bad_request, ApiError};
use crate::apiserver::rbac_engine::{AuthorizationRequest, RequestView};
use crate::json::{collect_strings, str_tree, strings_in, trees, Json, Tree};
use crate::text::{opt_str, opt_text, same};

verus! {

/// The text under a key, empty where there is none.
pub fn str_at(v: &Json, key: &str) -> (r: String)
    ensures
        r@ == v@.at(key@).text_or_empty(),
{
    v.at(key).str_or_empty().to_owned()
}

/// The text under a key; an empty one is none.
pub fn opt_str_at(v: &Json, key: &str) -> (r: Option<String>)
    ensures
        opt_text(r) == v@.at(key@).some_text(),
{
    match v.at(key).some_str() {
        Some(s) => Some(s.to_owned()),
        None => None,
    }
}

/// The identity that a review asks about.
pub fn subject_of(spec: &Json) -> (r: UserInfo)
    ensures
        r@ == (UserView {
            username: spec@.at("user"@).text_or_empty(),
            groups: strings_in(spec@.at("groups"@).items_or_none()),
        }),
{
    UserInfo { username: str_at(spec, "user"), groups: collect_strings(spec.at("groups")) }
}

/// What a review asks.
pub enum Question {
    /// May the identity make this request?
    Resource(AuthorizationRequest),
    /// May the identity use a verb on a path?
    NonResource(String, String),
    /// The review asks nothing.
    Nothing,
}

/// A [`Question`] as text.
pub ghost enum QuestionView {
    Resource(RequestView),
    NonResource(Seq<char>, Seq<char>),
    Nothing,
}

impl View for Question {
    type V = QuestionView;

    open spec fn view(&self) -> QuestionView {
        match self {
            Question::Resource(r) => QuestionView::Resource(r@),
            Question::NonResource(path, verb) => QuestionView::NonResource(path@, verb@),
            Question::Nothing => QuestionView::Nothing,
        }
    }
}

/// What the spec of a review asks. A namespace of the request's path overrides
/// the one in the spec.
pub open spec fn asked(spec: Tree, namespace: Option<Seq<char>>) -> QuestionView {
    let r = spec.at("resourceAttributes"@);
    let n = spec.at("nonResourceAttributes"@);
    if !(r is Null) {
        QuestionView::Resource(
            RequestView {
                verb: r.at("verb"@).text_or_empty(),
                resource: r.at("resource"@).text_or_empty(),
                subresource: r.at("subresource"@).some_text(),
                api_group: r.at("group"@).text_or_empty(),
                namespace: match namespace {
                    Some(ns) => Some(ns),
                    None => r.at("namespace"@).some_text(),
                },
                name: r.at("name"@).some_text(),
            },
        )
    } else if !(n is Null) {
        QuestionView::NonResource(n.at("path"@).text_or_empty(), n.at("verb"@).text_or_empty())
    } else {
        QuestionView::Nothing
    }
}

/// What the spec of a review asks.
pub fn question(spec: &Json, namespace: Option<&str>) -> (r: Question)
    ensures
        r@ == asked(spec@, opt_str(namespace)),
{
    let attrs = spec.at("resourceAttributes");
    if !attrs.is_null() {
        let ns = match namespace {
            Some(ns) => Some(ns.to_owned()),
            None => opt_str_at(attrs, "namespace"),
        };
        return Question::Resource(
            AuthorizationRequest {
                verb: str_at(attrs, "verb"),
                resource: str_at(attrs, "resource"),
                subresource: opt_str_at(attrs, "subresource"),
                api_group: str_at(attrs, "group"),
                namespace: ns,
                name: opt_str_at(attrs, "name"),
            },
        );
    }
    let attrs = spec.at("nonResourceAttributes");
    if !attrs.is_null() {
        return Question::NonResource(str_at(attrs, "path"), str_at(attrs, "verb"));
    }
    Question::Nothing
}

/// The status of a review that was decided.
pub open spec fn decided(allowed: bool, reason: Seq<char>) -> Tree {
    Tree::Object(
        map![
            "allowed"@ => Tree::Bool(allowed),
            "denied"@ => Tree::Bool(!allowed),
            "reason"@ => Tree::String(reason),
        ],
    )
}

/// The status of a review that asks nothing.
pub open spec fn undecided() -> Tree {
    Tree::Object(
        map![
            "allowed"@ => Tree::Bool(false),
            "evaluationError"@ => str_tree(
                "spec must set resourceAttributes or nonResourceAttributes",
            ),
        ],
    )
}

/// The status of a review, given the decision and its reason where there was a
/// question.
pub fn decide(decision: Option<(bool, &str)>) -> (r: Json)
    ensures
        match decision {
            Some((allowed, reason)) => r@ == decided(allowed, reason@),
            None => r@ == undecided(),
        },
{
    match decision {
        Some((allowed, reason)) => Json::object().with("allowed", Json::flag(allowed)).with(
            "denied",
            Json::flag(!allowed),
        ).with("reason", Json::text(reason)),
        None => Json::object().with("allowed", Json::flag(false)).with(
            "evaluationError",
            Json::text("spec must set resourceAttributes or nonResourceAttributes"),
        ),
    }
}

/// The answer to a review of a kind. The spec is echoed.
pub open spec fn review_of(kind: Seq<char>, spec: Tree, status: Tree) -> Tree {
    Tree::Object(
        map![
            "kind"@ => Tree::String(kind),
            "apiVersion"@ => str_tree("authorization.k8s.io/v1"),
            "metadata"@ => Tree::Object(map!["creationTimestamp"@ => Tree::Null]),
            "spec"@ => spec,
            "status"@ => status,
        ],
    )
}

/// The answer to a review of a kind.
pub fn review(kind: &str, spec: &Json, status: Json) -> (r: Json)
    ensures
        r@ == review_of(kind@, spec@, status@),
{
    Json::object().with("kind", Json::text(kind)).with(
        "apiVersion",
        Json::text("authorization.k8s.io/v1"),
    ).with("metadata", Json::object().with("creationTimestamp", Json::Null)).with(
        "spec",
        spec.dup(),
    ).with("status", status)
}

/// Refuses a review that asks about one namespace through another's path.
pub fn check_namespace(spec: &Json, namespace: &str) -> (r: Result<(), ApiError>)
    ensures
        ({
            let asked = spec@.at("resourceAttributes"@).at("namespace"@).text_or_empty();
            match r {
                Ok(_) => asked.len() == 0 || asked == namespace@,
                Err(e) => asked.len() != 0 && asked != namespace@ && e@ == err_bad_request(
                    "spec.resourceAttributes.namespace ("@ + asked
                        + ") must match the request namespace ("@ + namespace@ + ")"@,
                ),
            }
        }),
{
    let asked = spec.at("resourceAttributes").at("namespace").str_or_empty();
    if asked.unicode_len() != 0 && !same(asked, namespace) {
        let m = "spec.resourceAttributes.namespace (".to_owned().concat(asked).concat(
            ") must match the request namespace (",
        ).concat(namespace).concat(")");
        return Err(ApiError::bad_request(m.as_str()));
    }
    Ok(())
}

/// The status of a review of the rules of an identity.
pub open spec fn rules_status(resource: Seq<Tree>, other: Seq<Tree>, incomplete: bool) -> Tree {
    Tree::Object(
        map![
            "resourceRules"@ => Tree::Array(resource),
            "nonResourceRules"@ => Tree::Array(other),
            "incomplete"@ => Tree::Bool(incomplete),
        ],
    )
}

/// The answer to a review of the rules of an identity.
pub fn rules_review(
    body: &Json,
    resource: Vec<Json>,
    other: Vec<Json>,
    incomplete: bool,
) -> (r: Json)
    ensures
        r@ == review_of(
            "SelfSubjectRulesReview"@,
            body@.at("spec"@),
            rules_status(trees(resource@), trees(other@), incomplete),
        ),
{
    let status = Json::object().with("resourceRules", Json::Array(resource)).with(
        "nonResourceRules",
        Json::Array(other),
    ).with("incomplete", Json::flag(incomplete));
    review("SelfSubjectRulesReview", body.at("spec"), status)
}

/// A review through the path of a namespace asks about that namespace, whatever
/// its spec says.
pub proof fn law_the_path_decides_the_namespace(spec: Tree, namespace: Seq<char>)
    ensures
        match asked(spec, Some(namespace)) {
            QuestionView::Resource(r) => r.namespace == Some(namespace),
            _ => true,
        },
{
}

/// A review asks of the resource that it names, else of the path, else of nothing.
pub proof fn law_a_review_asks_what_it_says(spec: Tree, namespace: Option<Seq<char>>)
    ensures
        ({
            let r = spec.at("resourceAttributes"@);
            let n = spec.at("nonResourceAttributes"@);
            let q = asked(spec, namespace);
            &&& r is Null && n is Null <==> q is Nothing
            &&& !(r is Null) <==> q is Resource
            &&& r.at("verb"@) is String && !(r is Null) ==> Tree::String(q->Resource_0.verb) == r.at(
                "verb"@,
            )
            &&& r.at("resource"@) is String && !(r is Null) ==> Tree::String(
                q->Resource_0.resource,
            ) == r.at("resource"@)
            &&& r.at("group"@) is String && !(r is Null) ==> Tree::String(q->Resource_0.api_group)
                == r.at("group"@)
            &&& r.at("group"@) is Null && !(r is Null) ==> q->Resource_0.api_group.len() == 0
            &&& r.at("subresource"@) is String && (r.at("subresource"@)->String_0).len() > 0 && !(
            r is Null) ==> q->Resource_0.subresource == Some(r.at("subresource"@)->String_0)
            &&& r.at("subresource"@) is Null && !(r is Null) ==> q->Resource_0.subresource is None
            &&& r.at("name"@) is String && (r.at("name"@)->String_0).len() > 0 && !(r is Null)
                ==> q->Resource_0.name == Some(r.at("name"@)->String_0)
            &&& r.at("name"@) is Null && !(r is Null) ==> q->Resource_0.name is None
            &&& r is Null && n.at("path"@) is String ==> Tree::String(q->NonResource_0) == n.at(
                "path"@,
            )
            &&& r is Null && n.at("verb"@) is String ==> Tree::String(q->NonResource_1) == n.at(
                "verb"@,
            )
        }),
{
}

/// A decision allows or denies, and says why; a review that asks nothing allows nothing.
pub proof fn law_a_decision_is_one_or_the_other(
    kind: Seq<char>,
    spec: Tree,
    allowed: bool,
    reason: Seq<char>,
)
    ensures
        ({
            let r = review_of(kind, spec, decided(allowed, reason));
            &&& r.at("kind"@) == Tree::String(kind)
            &&& r.at("apiVersion"@) == str_tree("authorization.k8s.io/v1")
            &&& r.at("spec"@) == spec
            &&& r.at("status"@).at("allowed"@) == Tree::Bool(allowed)
            &&& r.at("status"@).at("denied"@) == Tree::Bool(!allowed)
            &&& r.at("status"@).at("reason"@) == Tree::String(reason)
        }),
        undecided().at("allowed"@) == Tree::Bool(false),
{
    reveal_strlit("kind");
    reveal_strlit("apiVersion");
    reveal_strlit("metadata");
    reveal_strlit("spec");
    reveal_strlit("status");
    reveal_strlit("allowed");
    reveal_strlit("denied");
    reveal_strlit("reason");
    reveal_strlit("evaluationError");
    assert("kind"@.len() == 4);
    assert("apiVersion"@.len() == 10);
    assert("metadata"@.len() == 8);
    assert("spec"@.len() == 4);
    assert("status"@.len() == 6);
    assert("allowed"@.len() == 7);
    assert("denied"@.len() == 6);
    assert("reason"@.len() == 6);
    assert("evaluationError"@.len() == 15);
    assert("kind"@[0] == 'k');
    assert("spec"@[0] == 's');
    assert("status"@[0] == 's');
    assert("denied"@[0] == 'd');
    assert("reason"@[0] == 'r');
}

/// A review of all rules lists those of resources and those of paths apart.
pub proof fn law_rules_are_listed_apart(resource: Seq<Tree>, other: Seq<Tree>, incomplete: bool)
    ensures
        rules_status(resource, other, incomplete).at("resourceRules"@) == Tree::Array(resource),
        rules_status(resource, other, incomplete).at("nonResourceRules"@) == Tree::Array(other),
        rules_status(resource, other, incomplete).at("incomplete"@) == Tree::Bool(incomplete),
{
    reveal_strlit("resourceRules");
    reveal_strlit("nonResourceRules");
    reveal_strlit("incomplete");
    assert("resourceRules"@.len() == 13);
    assert("nonResourceRules"@.len() == 16);
    assert("incomplete"@.len() == 10);
}

} // verus!
