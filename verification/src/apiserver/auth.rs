//! Authentication: who makes a request.
//!
//! The first that matches wins: an x509 client certificate, a bearer token, and
//! `system:anonymous` where that is allowed.

use vstd::prelude::*;
use vstd::string::*;

use crate::apiserver::error::UNAUTHORIZED;
use crate::json::{lemma_strings_in, string_trees, strings_in, trees, Json, Number, Numeral, Tree};
use crate::outside::{
    certificate_subject, fresh_uid, from_serde, names_audience, now_moment, optional_texts,
    private_key_error, public_key_error, read_subject, readable, rsa_signer, rsa_verifier,
    secret_signer, secret_verifier, sign_claims, signature_holds, signed_token, signer_material,
    to_serde, token_claims, uid_shaped, verifier_material, verify_token, KeyMaterial, MAX_DEPTH,
    RAW_KEY, Signing,
};
use crate::text::{
    contains, dup_texts, find_from, has_prefix, has_text, lemma_find_from, lemma_holds_char, occurs_at, opt_str,
    opt_text, split_at_first, split_once, strip_prefix, texts, without_prefix,
};

verus! {

/// How long a token lives, in seconds.
pub const TOKEN_LIFETIME: u64 = 86400;

/// An identity: a user and its groups.
#[derive(Debug)]
pub struct UserInfo {
    pub username: String,
    pub groups: Vec<String>,
}

/// What a [`UserInfo`] says.
pub ghost struct UserView {
    pub username: Seq<char>,
    pub groups: Seq<Seq<char>>,
}

impl View for UserInfo {
    type V = UserView;

    open spec fn view(&self) -> UserView {
        UserView { username: self.username@, groups: texts(self.groups@) }
    }
}

impl Clone for UserInfo {
    fn clone(&self) -> (r: UserInfo)
        ensures
            r@ == self@,
    {
        UserInfo { username: self.username.clone(), groups: dup_texts(&self.groups) }
    }
}

/// The identity of a client certificate: its common name is the user, each
/// organization a group.
#[derive(Debug)]
pub struct X509Identity {
    pub username: String,
    pub groups: Vec<String>,
}

impl View for X509Identity {
    type V = UserView;

    open spec fn view(&self) -> UserView {
        UserView { username: self.username@, groups: texts(self.groups@) }
    }
}

impl Clone for X509Identity {
    fn clone(&self) -> (r: X509Identity)
        ensures
            r@ == self@,
    {
        X509Identity { username: self.username.clone(), groups: dup_texts(&self.groups) }
    }
}

/// Whether a request without credentials is `system:anonymous`.
#[derive(Clone, Copy, Debug)]
pub struct AnonymousAuth(pub bool);

// ---------------------------------------------------------------------------
// Certificates
// ---------------------------------------------------------------------------

/// Those that are there, in order.
pub open spec fn present(s: Seq<Option<Seq<char>>>) -> Seq<Seq<char>>
    decreases s.len(),
{
    if s.len() == 0 {
        Seq::empty()
    } else {
        let rest = present(s.drop_last());
        match s.last() {
            Some(t) => rest.push(t),
            None => rest,
        }
    }
}

/// The identity that a subject names: none without a common name.
pub open spec fn subject_identity(
    common_name: Option<Seq<char>>,
    organizations: Seq<Option<Seq<char>>>,
) -> Option<UserView> {
    match common_name {
        Some(cn) => Some(UserView { username: cn, groups: present(organizations) }),
        None => None,
    }
}

/// The identity that a subject names.
pub fn identity_of_subject(common_name: Option<String>, organizations: Vec<Option<String>>) -> (r:
    Option<X509Identity>)
    ensures
        match r {
            Some(id) => subject_identity(opt_text(common_name), optional_texts(organizations@))
                == Some(id@),
            None => subject_identity(opt_text(common_name), optional_texts(organizations@)) is None,
        },
{
    let username = match common_name {
        Some(cn) => cn,
        None => {
            return None;
        },
    };
    let ghost ts = optional_texts(organizations@);
    let mut groups: Vec<String> = Vec::new();
    let mut i: usize = 0;
    assert(texts(groups@) =~= Seq::<Seq<char>>::empty());
    while i < organizations.len()
        invariant
            i <= organizations.len(),
            ts == optional_texts(organizations@),
            texts(groups@) == present(ts.take(i as int)),
        decreases organizations.len() - i,
    {
        proof {
            assert(ts.take(i + 1).drop_last() =~= ts.take(i as int));
            assert(ts.take(i + 1).last() == ts[i as int]);
        }
        let ghost was = texts(groups@);
        match &organizations[i] {
            Some(s) => {
                groups.push(s.clone());
                assert(texts(groups@) =~= was.push(s@));
            },
            None => {},
        }
        i = i + 1;
    }
    assert(ts.take(i as int) =~= ts);
    Some(X509Identity { username, groups })
}

/// The identity of a client certificate in DER: none where it cannot be read or
/// has no common name.
pub fn x509_identity_from_der(der: &[u8]) -> (r: Option<X509Identity>)
    ensures
        match (certificate_subject(der@), r) {
            (Some((cn, orgs)), Some(id)) => subject_identity(cn, orgs) == Some(id@),
            (Some((cn, orgs)), None) => subject_identity(cn, orgs) is None,
            (None, _) => r is None,
        },
{
    match read_subject(der) {
        Some((cn, orgs)) => identity_of_subject(cn, orgs),
        None => None,
    }
}

// ---------------------------------------------------------------------------
// Tokens
// ---------------------------------------------------------------------------

/// The claims of a token. A token only has to carry `sub` and `exp`.
#[derive(Debug)]
pub struct Claims {
    pub sub: String,
    pub groups: Vec<String>,
    pub iat: u64,
    pub exp: u64,
}

/// What [`Claims`] say.
pub ghost struct ClaimsView {
    pub sub: Seq<char>,
    pub groups: Seq<Seq<char>>,
    pub iat: u64,
    pub exp: u64,
}

impl View for Claims {
    type V = ClaimsView;

    open spec fn view(&self) -> ClaimsView {
        ClaimsView {
            sub: self.sub@,
            groups: texts(self.groups@),
            iat: self.iat,
            exp: self.exp,
        }
    }
}

/// The namespace of a `system:serviceaccount:<ns>:<name>` username; none where
/// the username is no well-formed ServiceAccount.
pub open spec fn sa_namespace(username: Seq<char>) -> Option<Seq<char>> {
    match without_prefix(username, "system:serviceaccount:"@) {
        Some(rest) => match split_once(rest, ':') {
            Some((ns, name)) => if ns.len() > 0 && name.len() > 0 && !name.contains(':') {
                Some(ns)
            } else {
                None
            },
            None => None,
        },
        None => None,
    }
}

/// The username of a ServiceAccount.
pub open spec fn sa_username(ns: Seq<char>, name: Seq<char>) -> Seq<char> {
    "system:serviceaccount:"@ + ns + ":"@ + name
}

/// The groups of a ServiceAccount, which follow from its namespace.
pub open spec fn sa_groups(ns: Seq<char>) -> Seq<Seq<char>> {
    seq!["system:serviceaccounts"@, "system:serviceaccounts:"@ + ns]
}

impl ClaimsView {
    /// The identity that the token authenticates: the groups of a
    /// ServiceAccount follow from its name and are not read from the token.
    pub open spec fn identity(self) -> UserView {
        UserView {
            username: self.sub,
            groups: match sa_namespace(self.sub) {
                Some(ns) => sa_groups(ns),
                None => self.groups,
            },
        }
    }
}

/// The namespace of a ServiceAccount's username.
pub fn serviceaccount_namespace(username: &str) -> (r: Option<&str>)
    ensures
        opt_str(r) == sa_namespace(username@),
{
    let rest = match strip_prefix(username, "system:serviceaccount:") {
        Some(rest) => rest,
        None => {
            return None;
        },
    };
    match split_at_first(rest, ':') {
        Some((ns, name)) => {
            proof {
                reveal_strlit(":");
                assert(":"@ =~= seq![':']);
                lemma_holds_char(name@, ':');
            }
            if ns.unicode_len() > 0 && name.unicode_len() > 0 && !contains(name, ":") {
                Some(ns)
            } else {
                None
            }
        },
        None => None,
    }
}

/// The groups of a ServiceAccount in `ns`.
pub fn serviceaccount_groups(ns: &str) -> (r: Vec<String>)
    ensures
        texts(r@) == sa_groups(ns@),
{
    let mut groups: Vec<String> = Vec::new();
    groups.push("system:serviceaccounts".to_owned());
    groups.push("system:serviceaccounts:".to_owned().concat(ns));
    assert(texts(groups@) =~= sa_groups(ns@));
    groups
}

/// The username of a ServiceAccount.
pub fn serviceaccount_username(ns: &str, name: &str) -> (r: String)
    ensures
        r@ == sa_username(ns@, name@),
{
    "system:serviceaccount:".to_owned().concat(ns).concat(":").concat(name)
}

/// The list of strings that a member must be; the empty list where it is
/// absent.
pub open spec fn string_list(t: Option<Tree>) -> Option<Seq<Seq<char>>> {
    match t {
        None => Some(Seq::empty()),
        Some(Tree::Array(a)) => if forall|i: int| 0 <= i < a.len() ==> #[trigger] a[i] is String {
            Some(strings_in(a))
        } else {
            None
        },
        Some(_) => None,
    }
}

/// The unsigned integer that a member is.
pub open spec fn unsigned_member(t: Tree) -> Option<u64> {
    match t {
        Tree::Number(Numeral::PosInt(n)) => Some(n),
        _ => None,
    }
}

/// The claims that a document holds: `sub` and `exp` must be there, `groups`
/// and `iat` may be.
pub open spec fn claims_in(t: Tree) -> Option<ClaimsView> {
    let iat = match t.get("iat"@) {
        None => Some(0u64),
        Some(v) => unsigned_member(v),
    };
    match (t.at("sub"@).text(), string_list(t.get("groups"@)), iat, unsigned_member(t.at("exp"@))) {
        (Some(sub), Some(groups), Some(iat), Some(exp)) => Some(
            ClaimsView { sub, groups, iat, exp },
        ),
        _ => None,
    }
}

/// The document of claims.
pub open spec fn claims_tree(c: ClaimsView) -> Tree {
    Tree::Object(
        map![
            "sub"@ => Tree::String(c.sub),
            "groups"@ => Tree::Array(string_trees(c.groups)),
            "iat"@ => Tree::Number(Numeral::PosInt(c.iat)),
            "exp"@ => Tree::Number(Numeral::PosInt(c.exp)),
        ],
    )
}

/// The strings of an array of strings.
pub fn read_strings(v: &Json) -> (r: Option<Vec<String>>)
    ensures
        match r {
            Some(s) => string_list(Some(v@)) == Some(texts(s@)),
            None => string_list(Some(v@)) is None,
        },
{
    let a = match v {
        Json::Array(a) => a,
        _ => {
            return None;
        },
    };
    let ghost ts = trees(a@);
    let mut out: Vec<String> = Vec::new();
    let mut i: usize = 0;
    assert(texts(out@) =~= Seq::<Seq<char>>::empty());
    while i < a.len()
        invariant
            i <= a.len(),
            ts == trees(a@),
            v@ == Tree::Array(ts),
            forall|j: int| 0 <= j < i ==> #[trigger] ts[j] is String,
            texts(out@) == strings_in(ts.take(i as int)),
        decreases a.len() - i,
    {
        proof {
            assert(ts.take(i + 1).drop_last() =~= ts.take(i as int));
            assert(ts.take(i + 1).last() == ts[i as int]);
        }
        let ghost was = texts(out@);
        match &a[i] {
            Json::String(s) => {
                out.push(s.clone());
                assert(texts(out@) =~= was.push(s@));
            },
            _ => {
                assert(!(ts[i as int] is String));
                return None;
            },
        }
        i = i + 1;
    }
    assert(ts.take(i as int) =~= ts);
    Some(out)
}

fn read_unsigned(v: &Json) -> (r: Option<u64>)
    ensures
        r == unsigned_member(v@),
{
    match v {
        Json::Number(n) => match n.numeral() {
            Numeral::PosInt(n) => Some(n),
            _ => None,
        },
        _ => None,
    }
}

impl Claims {
    /// The user and the groups that the token authenticates.
    pub fn identity(&self) -> (r: (String, Vec<String>))
        ensures
            (UserView { username: r.0@, groups: texts(r.1@) }) == self@.identity(),
    {
        let groups = match serviceaccount_namespace(self.sub.as_str()) {
            Some(ns) => serviceaccount_groups(ns),
            None => dup_texts(&self.groups),
        };
        (self.sub.clone(), groups)
    }

    /// The claims that a document holds.
    pub fn from_json(v: &Json) -> (r: Option<Claims>)
        ensures
            match r {
                Some(c) => claims_in(v@) == Some(c@),
                None => claims_in(v@) is None,
            },
    {
        let sub = match v.at("sub").as_str() {
            Some(s) => s.to_owned(),
            None => {
                return None;
            },
        };
        let groups: Vec<String> = match v.get("groups") {
            Some(g) => match read_strings(g) {
                Some(s) => s,
                None => {
                    return None;
                },
            },
            None => {
                let none: Vec<String> = Vec::new();
                assert(texts(none@) =~= Seq::<Seq<char>>::empty());
                none
            },
        };
        let iat: u64 = match v.get("iat") {
            Some(n) => match read_unsigned(n) {
                Some(n) => n,
                None => {
                    return None;
                },
            },
            None => 0,
        };
        let exp: u64 = match read_unsigned(v.at("exp")) {
            Some(n) => n,
            None => {
                return None;
            },
        };
        Some(Claims { sub, groups, iat, exp })
    }

    /// The document of the claims.
    pub fn to_json(&self) -> (r: Json)
        ensures
            r@ == claims_tree(self@),
    {
        Json::object().with("sub", Json::text(self.sub.as_str())).with(
            "groups",
            Json::text_list(&self.groups),
        ).with("iat", Json::uint(self.iat)).with("exp", Json::uint(self.exp))
    }

    /// The claims of a token that is made at `now` for a user.
    pub fn for_user(username: &str, groups: &Vec<String>, now: u64) -> (r: Claims)
        requires
            now <= u64::MAX - TOKEN_LIFETIME,
        ensures
            r@ == claims_for(username@, texts(groups@), now),
    {
        Claims {
            sub: username.to_owned(),
            groups: dup_texts(groups),
            iat: now,
            exp: now + TOKEN_LIFETIME,
        }
    }
}

/// The keys that sign tokens and verify them.
pub struct SigningKeys {
    pub encoding: jsonwebtoken::EncodingKey,
    pub decoding: jsonwebtoken::DecodingKey,
    pub signing: Signing,
}

impl SigningKeys {
    /// The keys are two halves of one secret.
    pub open spec fn shares_secret(&self) -> bool {
        &&& self.signing == Signing::Hmac
        &&& signer_material(self.encoding) is Secret
        &&& verifier_material(self.decoding) == signer_material(self.encoding)
    }

    /// The keys are those of two PEMs.
    pub open spec fn is_pair(&self, private_pem: Seq<u8>, public_pem: Seq<u8>) -> bool {
        &&& self.signing == Signing::Rsa
        &&& signer_material(self.encoding) == KeyMaterial::Pem(private_pem)
        &&& verifier_material(self.decoding) == KeyMaterial::Pem(public_pem)
    }

    /// The two halves of a secret.
    pub fn from_secret(secret: &str) -> (r: SigningKeys)
        ensures
            r.shares_secret(),
            signer_material(r.encoding) == KeyMaterial::Secret(secret@),
    {
        SigningKeys {
            encoding: secret_signer(secret),
            decoding: secret_verifier(secret),
            signing: Signing::Hmac,
        }
    }

    /// A key of this process alone, which no other replica accepts and which
    /// does not outlive a restart: the halves of a random identity.
    pub fn generate() -> (r: SigningKeys)
        ensures
            r.shares_secret(),
            exists|s: Seq<char>| #[trigger]
                uid_shaped(s) && signer_material(r.encoding) == KeyMaterial::Secret(s),
    {
        let secret = fresh_uid();
        SigningKeys::from_secret(secret.as_str())
    }

    /// The RSA keypair of the cluster's ServiceAccounts.
    pub fn from_rsa_pem(private_pem: &[u8], public_pem: &[u8]) -> (r: Result<SigningKeys, String>)
        ensures
            match r {
                Ok(k) => private_key_error(private_pem@) is None && public_key_error(
                    public_pem@,
                ) is None && k.is_pair(private_pem@, public_pem@),
                Err(e) => match private_key_error(private_pem@) {
                    Some(m) => e@ == m,
                    None => public_key_error(public_pem@) == Some(e@),
                },
            },
    {
        let encoding = match rsa_signer(private_pem) {
            Ok(k) => k,
            Err(e) => {
                return Err(e);
            },
        };
        let decoding = match rsa_verifier(public_pem) {
            Ok(k) => k,
            Err(e) => {
                return Err(e);
            },
        };
        Ok(SigningKeys { encoding, decoding, signing: Signing::Rsa })
    }

    /// The token that these keys sign for a user at a time; none where they do not
    /// sign.
    pub open spec fn token_at(
        &self,
        username: Seq<char>,
        groups: Seq<Seq<char>>,
        now: u64,
    ) -> Option<Seq<char>> {
        signed_token(
            self.signing,
            signer_material(self.encoding),
            claims_tree(claims_for(username, groups, now)),
        )
    }

    /// Signs a token for a user at a time, for the [`TOKEN_LIFETIME`] from then on.
    /// A shared secret signs, and what it signs it verifies. Whether a private key
    /// signs rests on the key.
    pub fn create_token_at(&self, username: &str, groups: &Vec<String>, now: u64) -> (r: Option<
        String,
    >)
        requires
            now <= u64::MAX - TOKEN_LIFETIME,
        ensures
            opt_text(r) == self.token_at(username@, texts(groups@), now),
            match r {
                Some(t) => token_claims(t@) == claims_tree(
                    claims_for(username@, texts(groups@), now),
                ) && (self.shares_secret() ==> signature_holds(
                    self.signing,
                    verifier_material(self.decoding),
                    t@,
                )),
                None => !self.shares_secret(),
            },
    {
        let made = Claims::for_user(username, groups, now);
        let claims = made.to_json();
        let v = to_serde(&claims);
        let token = sign_claims(self.signing, &v, &self.encoding);
        proof {
            lemma_claims_readable(made@);
            assert(made@ == claims_for(username@, texts(groups@), now));
        }
        token
    }

    /// Signs a token for a user, for the [`TOKEN_LIFETIME`] from now on. There is
    /// none where the key does not sign, or the clock stands before 1970.
    pub fn create_token(&self, username: &str, groups: &Vec<String>) -> (r: Option<String>)
        ensures
            match r {
                Some(t) => token_for(t@, username@, texts(groups@)) && (exists|now: u64|
                    now <= u64::MAX - TOKEN_LIFETIME && #[trigger] self.token_at(
                        username@,
                        texts(groups@),
                        now,
                    ) == Some(t@)) && (self.shares_secret() ==> signature_holds(
                    self.signing,
                    verifier_material(self.decoding),
                    t@,
                )),
                None => true,
            },
    {
        let secs: i64 = now_moment().secs;
        if secs < 0 {
            return None;
        }
        self.create_token_at(username, groups, secs as u64)
    }

    /// A token is signed for these keys, and its claims are some: they name a time
    /// of expiry and no audience.
    pub open spec fn vouches(&self, token: Seq<char>, c: ClaimsView) -> bool {
        &&& signature_holds(self.signing, verifier_material(self.decoding), token)
        &&& claims_in(token_claims(token)) == Some(c)
        &&& token_claims(token).at("exp"@) is Number
        &&& !names_audience(token_claims(token))
    }

    /// The claims of a token that verifies: it is signed by this key, has not
    /// expired, and names no audience. Which tokens pass is decided by the key
    /// and the clock.
    pub fn validate_token(&self, token: &str) -> (r: Option<Claims>)
        ensures
            match r {
                Some(c) => self.vouches(token@, c@),
                None => true,
            },
    {
        match verify_token(token, self.signing, &self.decoding) {
            Some(v) => {
                let doc = from_serde(v);
                Claims::from_json(&doc)
            },
            None => None,
        }
    }
}

proof fn lemma_claims_readable(c: ClaimsView)
    ensures
        readable(claims_tree(c), MAX_DEPTH as nat),
{
    let t = claims_tree(c);
    let m = t->Object_0;
    let g = string_trees(c.groups);
    assert forall|i: int| 0 <= i < g.len() implies readable(#[trigger] g[i], 125) by {
        assert(g[i] == Tree::String(c.groups[i]));
    }
    assert(readable(Tree::Array(g), 126));
    assert forall|k: Seq<char>| m.contains_key(k) implies readable(#[trigger] m[k], 126) by {
        assert(m[k] == Tree::String(c.sub) || m[k] == Tree::Array(g) || m[k] is Number);
    }
    reveal_strlit("$serde_json::private::RawValue");
    reveal_strlit("sub");
    reveal_strlit("groups");
    reveal_strlit("iat");
    reveal_strlit("exp");
    assert(RAW_KEY@.len() > 6);
}

/// The claims of a token that is made at `now` for a user.
pub open spec fn claims_for(username: Seq<char>, groups: Seq<Seq<char>>, now: u64) -> ClaimsView {
    ClaimsView { sub: username, groups, iat: now, exp: (now + TOKEN_LIFETIME) as u64 }
}

/// A token holds the claims of a user, made at some time.
pub open spec fn token_for(token: Seq<char>, username: Seq<char>, groups: Seq<Seq<char>>) -> bool {
    exists|now: u64|
        now <= u64::MAX - TOKEN_LIFETIME && token_claims(token) == #[trigger] claims_tree(
            claims_for(username, groups, now),
        )
}

/// A token that was made for a user says so to whoever verifies it: who it is
/// for, in which groups, and that it lasts for the [`TOKEN_LIFETIME`].
pub proof fn law_a_token_names_its_user(
    token: Seq<char>,
    username: Seq<char>,
    groups: Seq<Seq<char>>,
)
    requires
        token_for(token, username, groups),
    ensures
        claims_in(token_claims(token)) is Some,
        claims_in(token_claims(token))->0.sub == username,
        claims_in(token_claims(token))->0.groups == groups,
        claims_in(token_claims(token))->0.exp == claims_in(token_claims(token))->0.iat
            + TOKEN_LIFETIME,
{
    let now = choose|now: u64|
        now <= u64::MAX - TOKEN_LIFETIME && token_claims(token) == #[trigger] claims_tree(
            claims_for(username, groups, now),
        );
    law_claims_round_trip(claims_for(username, groups, now));
}

/// Every replica that loads the same pair of keys signs the same tokens and vouches
/// for the same tokens, before a restart and behind it.
pub proof fn law_replicas_agree(
    one: SigningKeys,
    other: SigningKeys,
    private_pem: Seq<u8>,
    public_pem: Seq<u8>,
    username: Seq<char>,
    groups: Seq<Seq<char>>,
    now: u64,
    token: Seq<char>,
    c: ClaimsView,
)
    requires
        one.is_pair(private_pem, public_pem),
        other.is_pair(private_pem, public_pem),
    ensures
        one.token_at(username, groups, now) == other.token_at(username, groups, now),
        one.vouches(token, c) == other.vouches(token, c),
{
}

/// Claims survive the way into a document and back.
pub proof fn law_claims_round_trip(c: ClaimsView)
    ensures
        claims_in(claims_tree(c)) == Some(c),
{
    let t = claims_tree(c);
    lemma_distinct_claims();
    assert(t.get("sub"@) == Some(Tree::String(c.sub)));
    let g = string_trees(c.groups);
    assert(t.get("groups"@) == Some(Tree::Array(g)));
    lemma_strings_in(c.groups);
    assert forall|i: int| 0 <= i < g.len() implies #[trigger] g[i] is String by {}
}

proof fn lemma_distinct_claims()
    ensures
        "sub"@ != "groups"@,
        "sub"@ != "iat"@,
        "sub"@ != "exp"@,
        "groups"@ != "iat"@,
        "groups"@ != "exp"@,
        "iat"@ != "exp"@,
{
    reveal_strlit("sub");
    reveal_strlit("groups");
    reveal_strlit("iat");
    reveal_strlit("exp");
    assert("sub"@[0] != "iat"@[0]);
    assert("sub"@[0] != "exp"@[0]);
    assert("iat"@[0] != "exp"@[0]);
}

/// A ServiceAccount's token carries the ServiceAccount's standing and no more:
/// the groups that the token claims do not matter.
pub proof fn law_serviceaccount_groups_are_not_claimed(c: ClaimsView, other: ClaimsView)
    requires
        c.sub == other.sub,
        sa_namespace(c.sub) is Some,
    ensures
        c.identity() == other.identity(),
{
}

/// The username of a ServiceAccount names its namespace.
pub proof fn law_serviceaccount_username(ns: Seq<char>, name: Seq<char>)
    requires
        ns.len() > 0,
        name.len() > 0,
        !ns.contains(':'),
        !name.contains(':'),
    ensures
        sa_namespace(sa_username(ns, name)) == Some(ns),
{
    let p = "system:serviceaccount:"@;
    reveal_strlit(":");
    assert(":"@ =~= seq![':']);
    let rest = ns + seq![':'] + name;
    let u = sa_username(ns, name);
    assert(u =~= p + rest);
    assert(u.subrange(0, 0 + p.len() as int) =~= p);
    assert(u.skip(p.len() as int) =~= rest);
    lemma_find_from(rest, seq![':'], 0);
    assert(rest.subrange(ns.len() as int, ns.len() as int + 1) =~= seq![':']);
    assert(occurs_at(rest, seq![':'], ns.len() as int));
    let i = find_from(rest, seq![':'], 0)->0;
    if i < ns.len() {
        assert(rest.subrange(i, i + 1)[0] == ns[i]);
        assert(ns.contains(':'));
    }
    assert(i == ns.len());
    assert(rest.take(i) =~= ns);
    assert(rest.skip(i + 1) =~= name);
}

// ---------------------------------------------------------------------------
// Authentication
// ---------------------------------------------------------------------------

/// The groups of an identity that has authenticated: those it has, and
/// `system:authenticated`.
pub open spec fn authenticated_groups(groups: Seq<Seq<char>>) -> Seq<Seq<char>> {
    if groups.contains("system:authenticated"@) {
        groups
    } else {
        groups.push("system:authenticated"@)
    }
}

/// Adds `system:authenticated` unless it is there.
pub fn with_authenticated(groups: Vec<String>) -> (r: Vec<String>)
    ensures
        texts(r@) == authenticated_groups(texts(groups@)),
{
    if has_text(&groups, "system:authenticated") {
        return groups;
    }
    let ghost was = texts(groups@);
    let mut out = groups;
    out.push("system:authenticated".to_owned());
    assert(texts(out@) =~= was.push("system:authenticated"@));
    out
}

/// The identity of a request without credentials.
pub open spec fn anonymous() -> UserView {
    UserView { username: "system:anonymous"@, groups: seq!["system:unauthenticated"@] }
}

/// The identity of a request without credentials.
pub fn anonymous_user() -> (r: UserInfo)
    ensures
        r@ == anonymous(),
{
    let mut groups: Vec<String> = Vec::new();
    groups.push("system:unauthenticated".to_owned());
    assert(texts(groups@) =~= seq!["system:unauthenticated"@]);
    UserInfo { username: "system:anonymous".to_owned(), groups }
}

/// The identity of a request: its certificate's, else its token's, else
/// anonymous where that is allowed. Nothing said means allowed.
pub open spec fn request_identity(
    certificate: Option<UserView>,
    token: Option<ClaimsView>,
    anonymous_auth: Option<bool>,
) -> Option<UserView> {
    match (certificate, token) {
        (Some(id), _) => Some(
            UserView { username: id.username, groups: authenticated_groups(id.groups) },
        ),
        (None, Some(c)) => Some(
            UserView {
                username: c.sub,
                groups: authenticated_groups(c.identity().groups),
            },
        ),
        (None, None) => if anonymous_auth == Some(false) {
            None
        } else {
            Some(anonymous())
        },
    }
}

/// What a certificate's identity says, where there is one.
pub open spec fn opt_identity(o: Option<&X509Identity>) -> Option<UserView> {
    match o {
        Some(id) => Some(id@),
        None => None,
    }
}

/// What is said of anonymous requests, where something is.
pub open spec fn opt_allowed(o: Option<AnonymousAuth>) -> Option<bool> {
    match o {
        Some(a) => Some(a.0),
        None => None,
    }
}

/// The answer for an identity, or for none: the identity, or 401.
pub open spec fn answers(r: Result<UserInfo, u16>, who: Option<UserView>) -> bool {
    match r {
        Ok(u) => who == Some(u@),
        Err(status) => who is None && status == UNAUTHORIZED,
    }
}

/// Decides who makes a request, once its token has been verified. The error is
/// the status of the refusal.
pub fn resolve_identity(
    certificate: Option<&X509Identity>,
    token: Option<&Claims>,
    anonymous_auth: Option<AnonymousAuth>,
) -> (r: Result<UserInfo, u16>)
    ensures
        answers(
            r,
            request_identity(
                opt_identity(certificate),
                match token {
                    Some(c) => Some(c@),
                    None => None,
                },
                opt_allowed(anonymous_auth),
            ),
        ),
{
    match certificate {
        Some(id) => {
            return Ok(
                UserInfo {
                    username: id.username.clone(),
                    groups: with_authenticated(dup_texts(&id.groups)),
                },
            );
        },
        None => {},
    }
    match token {
        Some(c) => {
            let (username, groups) = c.identity();
            return Ok(UserInfo { username, groups: with_authenticated(groups) });
        },
        None => {},
    }
    match anonymous_auth {
        Some(AnonymousAuth(false)) => Err(UNAUTHORIZED),
        _ => Ok(anonymous_user()),
    }
}

/// The token of an `Authorization` header.
pub fn bearer_token(header: &str) -> (r: Option<&str>)
    ensures
        opt_str(r) == without_prefix(header@, "Bearer "@),
{
    strip_prefix(header, "Bearer ")
}

/// What the claims of a token say, where it has verified.
pub open spec fn claims_view(o: Option<Claims>) -> Option<ClaimsView> {
    match o {
        Some(c) => Some(c@),
        None => None,
    }
}

/// Claims can only come of a header that holds a token which the keys vouch for.
pub open spec fn offered(
    claims: Option<ClaimsView>,
    header: Option<Seq<char>>,
    keys: Option<&SigningKeys>,
) -> bool {
    match claims {
        Some(c) => keys is Some && header is Some && match without_prefix(header->0, "Bearer "@) {
            Some(token) => keys->0.vouches(token, c),
            None => false,
        },
        None => true,
    }
}

/// Decides who makes a request. A certificate takes precedence over a token;
/// without a certificate the token of the `Authorization` header is verified.
/// Whether it verifies is up to the keys and the clock; whatever they say, the
/// outcome is that of [`resolve_identity`] for it.
pub fn authenticate(
    certificate: Option<&X509Identity>,
    authorization: Option<&str>,
    keys: Option<&SigningKeys>,
    anonymous_auth: Option<AnonymousAuth>,
) -> (r: Result<UserInfo, u16>)
    ensures
        exists|token: Option<ClaimsView>| #[trigger]
            offered(token, opt_str(authorization), keys) && answers(
                r,
                request_identity(opt_identity(certificate), token, opt_allowed(anonymous_auth)),
            ),
{
    let token = match (authorization, keys) {
        (Some(header), Some(keys)) => match bearer_token(header) {
            Some(token) => keys.validate_token(token),
            None => None,
        },
        _ => None,
    };
    let ghost view = claims_view(token);
    assert(offered(view, opt_str(authorization), keys));
    match &token {
        Some(c) => resolve_identity(certificate, Some(c), anonymous_auth),
        None => resolve_identity(certificate, None, anonymous_auth),
    }
}

/// Whoever presents a certificate or a valid token is in
/// `system:authenticated`.
pub proof fn law_the_authenticated_are_marked(
    certificate: Option<UserView>,
    token: Option<ClaimsView>,
    anonymous_auth: Option<bool>,
)
    requires
        certificate is Some || token is Some,
    ensures
        request_identity(certificate, token, anonymous_auth) is Some,
        request_identity(certificate, token, anonymous_auth)->0.groups.contains(
            "system:authenticated"@,
        ),
{
    let g = match certificate {
        Some(id) => id.groups,
        None => token->0.identity().groups,
    };
    if !g.contains("system:authenticated"@) {
        assert(authenticated_groups(g)[g.len() as int] == "system:authenticated"@);
    }
}

/// With anonymous requests off, only credentials make an identity.
pub proof fn law_no_credentials_no_identity(
    certificate: Option<UserView>,
    token: Option<ClaimsView>,
)
    ensures
        request_identity(certificate, token, Some(false)) is Some <==> (certificate is Some
            || token is Some),
{
}

proof fn lemma_present(s: Seq<Option<Seq<char>>>)
    ensures
        present(s).len() <= s.len(),
        forall|t: Seq<char>| #[trigger] present(s).contains(t) <==> s.contains(Some(t)),
    decreases s.len(),
{
    if s.len() > 0 {
        let rest = s.drop_last();
        lemma_present(rest);
        assert forall|t: Seq<char>| #[trigger] present(s).contains(t) <==> s.contains(Some(t)) by {
            let p = present(rest);
            if rest.contains(Some(t)) {
                let i = rest.index_of(Some(t));
                assert(s[i] == Some(t));
            }
            if s.last() == Some(t) {
                assert(s[s.len() - 1] == Some(t));
                assert(present(s)[p.len() as int] == t);
            }
            if p.contains(t) {
                let i = p.index_of(t);
                assert(present(s)[i] == t);
            }
            if s.contains(Some(t)) && s.last() != Some(t) {
                let i = s.index_of(Some(t));
                assert(rest[i] == Some(t));
            }
            if present(s).contains(t) && s.last() != Some(t) {
                let i = present(s).index_of(t);
                if s.last() is Some {
                    assert(i < p.len());
                    assert(p[i] == t);
                }
            }
        }
    }
}

/// A certificate is its common name, with its organizations for groups: nobody without a
/// common name, in a group exactly where an organization names it.
pub proof fn law_a_certificate_names_its_user(
    common_name: Option<Seq<char>>,
    organizations: Seq<Option<Seq<char>>>,
    group: Seq<char>,
)
    ensures
        common_name is None ==> subject_identity(common_name, organizations) is None,
        common_name is Some ==> subject_identity(common_name, organizations) is Some
            && subject_identity(common_name, organizations)->0.username == common_name->0 && (
        subject_identity(common_name, organizations)->0.groups.contains(group)
            <==> organizations.contains(Some(group))),
{
    lemma_present(organizations);
}

/// Who asks is the first credential that holds: the certificate whatever the token says,
/// then the subject of the token, then nobody in particular, where that is allowed. A
/// group is one of the credential's, or the one of all who have one.
pub proof fn law_the_first_credential_decides(
    certificate: Option<UserView>,
    token: Option<ClaimsView>,
    anonymous_auth: Option<bool>,
    group: Seq<char>,
)
    ensures
        certificate is Some ==> ({
            let who = request_identity(certificate, token, anonymous_auth);
            &&& who is Some
            &&& who->0.username == certificate->0.username
            &&& who->0.groups.contains(group) <==> certificate->0.groups.contains(group) || group
                == "system:authenticated"@
        }),
        certificate is None && token is Some ==> ({
            let who = request_identity(certificate, token, anonymous_auth);
            &&& who is Some
            &&& who->0.username == token->0.sub
            &&& who->0.groups.contains(group) <==> token->0.identity().groups.contains(group)
                || group == "system:authenticated"@
        }),
        certificate is None && token is None ==> ({
            let who = request_identity(certificate, token, anonymous_auth);
            &&& anonymous_auth == Some(false) ==> who is None
            &&& anonymous_auth != Some(false) ==> who is Some && who->0.username
                == "system:anonymous"@ && who->0.groups == seq!["system:unauthenticated"@]
        }),
{
    match (certificate, token) {
        (Some(id), _) => {
            lemma_authenticated(id.groups, group);
        },
        (None, Some(c)) => {
            lemma_authenticated(c.identity().groups, group);
        },
        _ => {},
    }
}

proof fn lemma_authenticated(groups: Seq<Seq<char>>, group: Seq<char>)
    ensures
        authenticated_groups(groups).contains(group) <==> groups.contains(group) || group
            == "system:authenticated"@,
{
    let all = authenticated_groups(groups);
    if !groups.contains("system:authenticated"@) {
        assert(all[groups.len() as int] == "system:authenticated"@);
        if groups.contains(group) {
            let i = groups.index_of(group);
            assert(all[i] == group);
        }
        if all.contains(group) && group != "system:authenticated"@ {
            let i = all.index_of(group);
            assert(groups[i] == group);
        }
    }
}

/// A token of a ServiceAccount stands for the ServiceAccounts of its namespace and for
/// nothing else that it claims; every other token stands for what it claims.
pub proof fn law_a_token_stands_for_its_subject(
    ns: Seq<char>,
    name: Seq<char>,
    groups: Seq<Seq<char>>,
    iat: u64,
    exp: u64,
    user: Seq<char>,
)
    requires
        ns.len() > 0,
        name.len() > 0,
        !ns.contains(':'),
        !name.contains(':'),
        !has_prefix(user, "system:serviceaccount:"@),
    ensures
        (ClaimsView {
            sub: "system:serviceaccount:"@ + ns + ":"@ + name,
            groups,
            iat,
            exp,
        }).identity() == (UserView {
            username: "system:serviceaccount:"@ + ns + ":"@ + name,
            groups: seq!["system:serviceaccounts"@, "system:serviceaccounts:"@ + ns],
        }),
        (ClaimsView { sub: user, groups, iat, exp }).identity() == (UserView {
            username: user,
            groups,
        }),
{
    law_serviceaccount_username(ns, name);
}

/// Claims are read as they are written: the subject is a text, the expiry a number that is
/// not negative, and neither may be left out; groups that are left out are none.
pub proof fn law_claims_are_read_as_written(t: Tree)
    ensures
        claims_in(t) is Some ==> {
            let c = claims_in(t)->0;
            &&& t.at("sub"@) == Tree::String(c.sub)
            &&& t.at("exp"@) == Tree::Number(Numeral::PosInt(c.exp))
            &&& t.get("groups"@) is None ==> c.groups.len() == 0
            &&& forall|g: Seq<char>|
                #[trigger] c.groups.contains(g) ==> t.at("groups"@).items_or_none().contains(
                    Tree::String(g),
                )
        },
        !(t.at("sub"@) is String) ==> claims_in(t) is None,
        !(t.at("exp"@) is Number) ==> claims_in(t) is None,
{
    if claims_in(t) is Some {
        let a = t.at("groups"@).items_or_none();
        lemma_strings_are_items(a);
    }
}

proof fn lemma_strings_are_items(a: Seq<Tree>)
    ensures
        forall|g: Seq<char>|
            #[trigger] strings_in(a).contains(g) ==> a.contains(Tree::String(g)),
    decreases a.len(),
{
    if a.len() > 0 {
        let rest = a.drop_last();
        lemma_strings_are_items(rest);
        assert forall|g: Seq<char>| #[trigger] strings_in(a).contains(g) implies a.contains(
            Tree::String(g),
        ) by {
            let all = strings_in(a);
            let before = strings_in(rest);
            let i = all.index_of(g);
            if i < before.len() {
                assert(before[i] == g);
                assert(before.contains(g));
                assert(rest.contains(Tree::String(g)));
                let k = rest.index_of(Tree::String(g));
                assert(a[k] == Tree::String(g));
            } else {
                assert(a[a.len() - 1] == Tree::String(g));
            }
        }
    }
}

/// A token is not vouched for that names an audience, that says no expiry, or that another
/// key signed.
pub proof fn law_what_is_not_vouched_for(keys: SigningKeys, token: Seq<char>, c: ClaimsView)
    requires
        ({
            ||| token_claims(token).at("aud"@) is String
            ||| token_claims(token).at("aud"@) is Array && forall|i: int|
                0 <= i < (token_claims(token).at("aud"@)->Array_0).len() ==> (#[trigger] (
                token_claims(token).at("aud"@)->Array_0)[i]) is String
            ||| !(token_claims(token).at("exp"@) is Number)
            ||| !signature_holds(keys.signing, verifier_material(keys.decoding), token)
        }),
    ensures
        !keys.vouches(token, c),
{
}

/// A token lasts for a day from when it was made.
pub proof fn law_a_token_lasts_a_day(username: Seq<char>, groups: Seq<Seq<char>>, now: u64)
    requires
        now <= u64::MAX - 86400,
    ensures
        claims_for(username, groups, now).iat == now,
        claims_for(username, groups, now).exp == now + 86400,
        claims_for(username, groups, now).sub == username,
        claims_for(username, groups, now).groups == groups,
{
}

/// A subject and an expiry are all that claims need: what was left out of the rest is nothing,
/// and what was not is read as it is.
pub proof fn law_claims_need_a_subject_and_an_expiry(t: Tree, sub: Seq<char>, exp: u64)
    requires
        t.at("sub"@) == Tree::String(sub),
        t.at("exp"@) == Tree::Number(Numeral::PosInt(exp)),
    ensures
        t.get("iat"@) is None && t.get("groups"@) is None ==> claims_in(t) == Some(
            ClaimsView { sub, groups: Seq::empty(), iat: 0, exp },
        ),
        (t.get("iat"@) matches Some(Tree::Number(Numeral::PosInt(iat))) ==> t.get("groups"@) is None
            ==> claims_in(t) == Some(ClaimsView { sub, groups: Seq::empty(), iat, exp })),
        (t.get("groups"@) matches Some(Tree::Array(a)) ==> t.get("iat"@) is None && (forall|i: int|
            0 <= i < a.len() ==> #[trigger] a[i] is String) ==> claims_in(t) == Some(
            ClaimsView { sub, groups: strings_in(a), iat: 0, exp },
        )),
        !(t.get("groups"@) is None) && !(t.at("groups"@) is Array) ==> claims_in(t) is None,
{
}

} // verus!
