//! Tokens of ServiceAccounts, and the review of a token.

use vstd::prelude::*;
use vstd::string::*;

use crate::apimachinery::certs::LAST_SECOND;
use crate::apiserver::auth::{
    claims_for, claims_tree, claims_view, sa_groups, sa_username, serviceaccount_groups,
    serviceaccount_username, Claims, ClaimsView, SigningKeys,
};
use crate::apiserver::error::{err_internal, ApiError};
use crate::json::{empty_object, str_tree, string_trees, Json, Tree};
use crate::outside::{
    now_moment, second_text, signature_holds, time_shaped, token_claims, verifier_material,
    write_seconds,
};

verus! {

/// How long a token of a ServiceAccount lasts, in seconds: as long as every token.
pub const TOKEN_TTL_SECS: i64 = 86400;

/// The answer to a request for a token.
pub open spec fn token_answer(
    namespace: Seq<char>,
    name: Seq<char>,
    token: Seq<char>,
    expires: Seq<char>,
) -> Tree {
    Tree::Object(
        map![
            "kind"@ => str_tree("TokenRequest"),
            "apiVersion"@ => str_tree("authentication.k8s.io/v1"),
            "metadata"@ => Tree::Object(
                map![
                    "name"@ => Tree::String(name),
                    "namespace"@ => Tree::String(namespace),
                    "creationTimestamp"@ => Tree::Null,
                ],
            ),
            "status"@ => Tree::Object(
                map![
                    "token"@ => Tree::String(token),
                    "expirationTimestamp"@ => Tree::String(expires),
                ],
            ),
        ],
    )
}

/// The answer to a request for a token that was signed.
pub fn token_document(namespace: &str, name: &str, token: &str, expires: &str) -> (r: Json)
    ensures
        r@ == token_answer(namespace@, name@, token@, expires@),
{
    let meta = Json::object().with("name", Json::text(name)).with(
        "namespace",
        Json::text(namespace),
    ).with("creationTimestamp", Json::Null);
    let status = Json::object().with("token", Json::text(token)).with(
        "expirationTimestamp",
        Json::text(expires),
    );
    Json::object().with("kind", Json::text("TokenRequest")).with(
        "apiVersion",
        Json::text("authentication.k8s.io/v1"),
    ).with("metadata", meta).with("status", status)
}

/// Answers a request for a token, given what came of signing it.
pub fn issued(namespace: &str, name: &str, token: Option<String>, expires: &str) -> (r: Result<
    Json,
    ApiError,
>)
    ensures
        match (token, r) {
            (Some(t), Ok(v)) => v@ == token_answer(namespace@, name@, t@, expires@),
            (None, Err(e)) => e@ == err_internal("failed to sign ServiceAccount token"@),
            _ => false,
        },
{
    match token {
        Some(token) => Ok(token_document(namespace, name, token.as_str(), expires)),
        None => Err(ApiError::internal("failed to sign ServiceAccount token")),
    }
}

/// The token that is signed for a ServiceAccount at a time; none where the keys do
/// not sign.
pub open spec fn serviceaccount_token(
    keys: &SigningKeys,
    namespace: Seq<char>,
    name: Seq<char>,
    now: u64,
) -> Option<Seq<char>> {
    keys.token_at(sa_username(namespace, name), sa_groups(namespace), now)
}

/// The time at which a token expires that is signed at a time, as text.
pub open spec fn expiry_text(now: u64) -> Option<Seq<char>> {
    second_text(now + TOKEN_TTL_SECS, 0)
}

/// The time that a token says it expires at is the one that the answer says.
pub proof fn law_the_answer_says_when_the_token_expires(
    username: Seq<char>,
    groups: Seq<Seq<char>>,
    now: u64,
)
    requires
        now <= u64::MAX - TOKEN_TTL_SECS,
    ensures
        expiry_text(now) == second_text(claims_for(username, groups, now).exp as int, 0),
{
}

/// Signs a token for a ServiceAccount that exists at a time: its subject is
/// `system:serviceaccount:<namespace>:<name>`, its groups are those of the
/// ServiceAccounts of the namespace. It fails where the keys do not sign, and where
/// the time of expiry is no date.
pub fn serviceaccount_token_at(
    keys: &SigningKeys,
    namespace: &str,
    name: &str,
    now: u64,
) -> (r: Result<Json, ApiError>)
    requires
        now <= i64::MAX - TOKEN_TTL_SECS,
    ensures
        match r {
            Ok(v) => answers_with_token_at(keys, v@, namespace@, name@, now),
            Err(e) => (serviceaccount_token(keys, namespace@, name@, now) is None || expiry_text(
                now,
            ) is None) && e@ == err_internal("failed to sign ServiceAccount token"@) && (
            keys.shares_secret() ==> now + TOKEN_TTL_SECS > LAST_SECOND),
        },
{
    let sub = serviceaccount_username(namespace, name);
    let groups = serviceaccount_groups(namespace);
    let token = keys.create_token_at(sub.as_str(), &groups, now);
    match write_seconds(now as i64 + TOKEN_TTL_SECS, 0) {
        Some(expires) => issued(namespace, name, token, expires.as_str()),
        None => issued(namespace, name, None, ""),
    }
}

/// Signs a token for a ServiceAccount that exists, at the time that the clock says.
pub fn create_serviceaccount_token(keys: &SigningKeys, namespace: &str, name: &str) -> (r: Result<
    Json,
    ApiError,
>)
    ensures
        match r {
            Ok(v) => answers_with_token(keys, v@, namespace@, name@),
            Err(e) => e@ == err_internal("failed to sign ServiceAccount token"@),
        },
{
    let secs: i64 = now_moment().secs;
    if secs < 0 || secs > i64::MAX - TOKEN_TTL_SECS {
        return issued(namespace, name, None, "");
    }
    serviceaccount_token_at(keys, namespace, name, secs as u64)
}

/// An answer holds the token that is signed for a ServiceAccount at some time, and
/// when it expires. A shared secret verifies what it signed.
pub open spec fn answers_with_token(
    keys: &SigningKeys,
    r: Tree,
    namespace: Seq<char>,
    name: Seq<char>,
) -> bool {
    exists|now: u64|
        answers_with_token_at(keys, r, namespace, name, now)
}

/// An answer holds the token that is signed for a ServiceAccount at a time, and when
/// it expires.
pub open spec fn answers_with_token_at(
    keys: &SigningKeys,
    r: Tree,
    namespace: Seq<char>,
    name: Seq<char>,
    now: u64,
) -> bool {
    match (serviceaccount_token(keys, namespace, name, now), expiry_text(now)) {
        (Some(token), Some(expires)) => {
            &&& r == token_answer(namespace, name, token, expires)
            &&& time_shaped(expires)
            &&& token_claims(token) == claims_tree(
                claims_for(sa_username(namespace, name), sa_groups(namespace), now),
            )
            &&& keys.shares_secret() ==> signature_holds(
                keys.signing,
                verifier_material(keys.decoding),
                token,
            )
        },
        _ => false,
    }
}

/// The verdict on a token: whom it authenticates, or that it is not valid. The
/// groups of a ServiceAccount follow from its name, whatever the token claims.
pub open spec fn review_status(claims: Option<ClaimsView>, audiences: Tree) -> Tree {
    match claims {
        Some(c) => Tree::Object(
            map![
                "authenticated"@ => Tree::Bool(true),
                "user"@ => Tree::Object(
                    map![
                        "username"@ => Tree::String(c.identity().username),
                        "groups"@ => Tree::Array(string_trees(c.identity().groups)),
                    ],
                ),
                "audiences"@ => audiences,
            ],
        ),
        None => Tree::Object(
            map![
                "authenticated"@ => Tree::Bool(false),
                "error"@ => str_tree("token is invalid or expired"),
            ],
        ),
    }
}

/// The answer to a review. The token is not echoed.
pub open spec fn review_answer(body: Tree, claims: Option<ClaimsView>) -> Tree {
    let audiences = body.at("spec"@).at("audiences"@);
    Tree::Object(
        map![
            "apiVersion"@ => str_tree("authentication.k8s.io/v1"),
            "kind"@ => str_tree("TokenReview"),
            "metadata"@ => empty_object(),
            "spec"@ => Tree::Object(map!["audiences"@ => audiences]),
            "status"@ => review_status(claims, audiences),
        ],
    )
}

/// Answers a review, given what the token was found to say. A token that is not
/// valid is no error: the review succeeded.
pub fn token_review(body: &Json, claims: Option<Claims>) -> (r: Json)
    ensures
        r@ == review_answer(body@, claims_view(claims)),
{
    let audiences = body.at("spec").at("audiences");
    let status = match &claims {
        Some(c) => {
            let (username, groups) = c.identity();
            let user = Json::object().with("username", Json::text(username.as_str())).with(
                "groups",
                Json::text_list(&groups),
            );
            Json::object().with("authenticated", Json::flag(true)).with("user", user).with(
                "audiences",
                audiences.dup(),
            )
        },
        None => Json::object().with("authenticated", Json::flag(false)).with(
            "error",
            Json::text("token is invalid or expired"),
        ),
    };
    Json::object().with("apiVersion", Json::text("authentication.k8s.io/v1")).with(
        "kind",
        Json::text("TokenReview"),
    ).with("metadata", Json::object()).with(
        "spec",
        Json::object().with("audiences", audiences.dup()),
    ).with("status", status)
}

/// An answer to a review: that the token is not valid, or what it says, where the
/// keys vouch for it.
pub open spec fn reviewed(keys: &SigningKeys, body: Tree, r: Tree) -> bool {
    let token = body.at("spec"@).at("token"@).text_or_empty();
    r == review_answer(body, None) || exists|c: ClaimsView|
        r == #[trigger] review_answer(body, Some(c)) && keys.vouches(token, c)
}

/// Answers whether a token is valid, and who it is for.
pub fn create_token_review(keys: &SigningKeys, body: &Json) -> (r: Json)
    ensures
        reviewed(keys, body@, r@),
{
    let token = body.at("spec").at("token").str_or_empty();
    let claims = keys.validate_token(token);
    token_review(body, claims)
}

/// A token that is vouched for is of the user that it names, in that user's groups, and one
/// that is not is of nobody; what was asked for is answered with what was asked.
pub proof fn law_a_review_says_who_it_is(body: Tree, c: ClaimsView)
    ensures
        ({
            let r = review_answer(body, Some(c));
            &&& r.at("kind"@) == str_tree("TokenReview")
            &&& r.at("apiVersion"@) == str_tree("authentication.k8s.io/v1")
            &&& r.at("spec"@).at("audiences"@) == body.at("spec"@).at("audiences"@)
            &&& r.at("spec"@).get("token"@) is None
            &&& r.at("status"@).at("authenticated"@) == Tree::Bool(true)
            &&& r.at("status"@).at("user"@).at("username"@) == Tree::String(c.sub)
            &&& r.at("status"@).at("user"@).at("groups"@) == Tree::Array(
                string_trees(c.identity().groups),
            )
            &&& r.at("status"@).at("audiences"@) == body.at("spec"@).at("audiences"@)
        }),
        ({
            let r = review_answer(body, None);
            &&& r.at("status"@).at("authenticated"@) == Tree::Bool(false)
            &&& r.at("status"@).get("user"@) is None
        }),
{
    reveal_strlit("kind");
    reveal_strlit("apiVersion");
    reveal_strlit("spec");
    reveal_strlit("status");
    reveal_strlit("metadata");
    reveal_strlit("audiences");
    reveal_strlit("authenticated");
    reveal_strlit("user");
    reveal_strlit("username");
    reveal_strlit("groups");
    reveal_strlit("error");
    reveal_strlit("token");
    assert("kind"@.len() == 4);
    assert("apiVersion"@.len() == 10);
    assert("spec"@.len() == 4);
    assert("status"@.len() == 6);
    assert("metadata"@.len() == 8);
    assert("audiences"@.len() == 9);
    assert("authenticated"@.len() == 13);
    assert("user"@.len() == 4);
    assert("username"@.len() == 8);
    assert("groups"@.len() == 6);
    assert("error"@.len() == 5);
    assert("token"@.len() == 5);
    assert("kind"@[0] == 'k');
    assert("spec"@[0] == 's');
    assert("user"@[0] == 'u');
    assert("status"@[0] == 's');
    assert("groups"@[0] == 'g');
    assert("metadata"@[0] == 'm');
    assert("username"@[0] == 'u');
    assert("error"@[0] == 'e');
    assert("token"@[0] == 't');
}

/// The answer to a request for a token holds the token, for the ServiceAccount that it was
/// asked for.
pub proof fn law_the_answer_holds_the_token(
    namespace: Seq<char>,
    name: Seq<char>,
    token: Seq<char>,
    expires: Seq<char>,
)
    ensures
        ({
            let r = token_answer(namespace, name, token, expires);
            &&& r.at("kind"@) == str_tree("TokenRequest")
            &&& r.at("status"@).at("token"@) == Tree::String(token)
            &&& r.at("status"@).at("expirationTimestamp"@) == Tree::String(expires)
            &&& r.at("metadata"@).at("name"@) == Tree::String(name)
            &&& r.at("metadata"@).at("namespace"@) == Tree::String(namespace)
        }),
{
    reveal_strlit("kind");
    reveal_strlit("apiVersion");
    reveal_strlit("metadata");
    reveal_strlit("status");
    reveal_strlit("token");
    reveal_strlit("expirationTimestamp");
    reveal_strlit("name");
    reveal_strlit("namespace");
    reveal_strlit("creationTimestamp");
    assert("kind"@.len() == 4);
    assert("apiVersion"@.len() == 10);
    assert("metadata"@.len() == 8);
    assert("status"@.len() == 6);
    assert("token"@.len() == 5);
    assert("expirationTimestamp"@.len() == 19);
    assert("name"@.len() == 4);
    assert("namespace"@.len() == 9);
    assert("creationTimestamp"@.len() == 17);
    assert("kind"@[0] == 'k');
    assert("name"@[0] == 'n');
}

} // verus!
