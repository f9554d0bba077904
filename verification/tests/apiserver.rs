use base64::Engine;
use rustkube::apimachinery::error::Error;
use rustkube::apimachinery::watch::WatchEvent;
use rustkube::apiserver::apply::server_side_apply;
use rustkube::apiserver::auth::{
    authenticate, bearer_token, identity_of_subject, resolve_identity, serviceaccount_groups,
    serviceaccount_namespace, with_authenticated, x509_identity_from_der, AnonymousAuth, Claims,
    SigningKeys, UserInfo, X509Identity,
};
use rustkube::apiserver::builtin_admission::{
    access_modes, admit_create, cronjob_schedule, default_service_ports, namespace_defaults,
    namespace_lifecycle, pod_security,
};
use rustkube::apiserver::config::{ApiServerConfig, Serving, TokenKeys};
use rustkube::apiserver::crd::{
    check_crd_write, crd_kinds, establish_crd_status, established,
    legacy_move, same_identity,
    storage_resource, validate_crd, CrdRegistry, Move,
};
use rustkube::apiserver::discovery::{
    api_groups_dynamic, api_v1_resources, openapi_v3_group, operation, parse_openapi_path,
    resources_for,
};
use rustkube::apiserver::error::{
    condense, from_error, ApiError, BAD_REQUEST, CONFLICT, FORBIDDEN, GONE,
    INTERNAL_SERVER_ERROR, MAX_CAUSE, NOT_FOUND, SERVICE_UNAVAILABLE, UNAUTHORIZED,
    UNPROCESSABLE_ENTITY,
};
use rustkube::apiserver::events::{core_to_events, event_name, events_to_core};
use rustkube::apiserver::eviction::{
    check_eviction, disruptions_allowed, evicted, intstr_to_count, is_ready, selector_matches,
};
use rustkube::apiserver::handlers::token::{
    create_serviceaccount_token, serviceaccount_token_at,
};
use rustkube::apiserver::manifests::{
    after_create, after_update, apply_one, decide, documents, group_version, manifest_files,
    resolve, target, Action, Mode, Outcome, Tally, Target,
};
use rustkube::apiserver::rbac_engine::{
    deny, gate, is_discovery_path, parse_authorization_request, role_to_read, rule_matches,
    rules_permit, AuthorizationRequest, Gate, Grant, RbacEngine,
};
use rustkube::apiserver::routes::{build_router, resource_label, Endpoint};
use rustkube::apiserver::server::{
    bootstrap_namespace, bootstrap_rbac, endpoints_object, first_service_ip, own_namespaces,
    register_address, service_object, slice_object,
};
use rustkube::apiserver::service_ip::{
    allocate, allocate_next, claim_for, duplicates, key, parse_cidr, reconcile, release, Step,
};
use rustkube::apiserver::storage::{
    finish_create, finish_update, inject_resource_version, read_list, read_object,
    strip_resource_version, write_object, ResourceStorage,
};
use rustkube::apiserver::table::{
    age, can_print, json_path, to_table, to_table_at, to_table_crd, wants_table,
};
use rustkube::apimachinery::certs::generate_server_cert;
use rustkube::apiserver::tls::{
    certified_key, client_roots, refuse_root, server_config, use_key, use_material, CertWatch,
};
use rustkube::apiserver::watch::{
    render_bookmark, render_event, split_key, wants_partial_metadata, Rendered, Transform,
    WatchParams, WatchSession,
};
use rustkube::apiserver::watch_cache::{
    add_page, admits, check_round, is_behind, Freshness, PrefixCache, RING_CAPACITY,
};
use rustkube::apiserver::handlers::resource::to_partial_object_metadata;
use rustkube::ipv4::format_address;
use rustkube::json::Json;
use rustkube::outside::{parse_json, Moment};
use rustkube::sorted::SortedMap;

fn json(text: &str) -> Json {
    match parse_json(text.as_bytes()) {
        Ok(v) => v,
        Err(e) => panic!("{e}: {text}"),
    }
}

fn failed<T>(r: Result<T, ApiError>) -> ApiError {
    match r {
        Ok(_) => panic!("should have failed"),
        Err(e) => e,
    }
}

fn fine<T>(r: Result<T, ApiError>) -> T {
    match r {
        Ok(v) => v,
        Err(e) => panic!("{}", e.message),
    }
}

// Server-side apply

fn applied(existing: Json, intent: &str, manager: &str, force: bool) -> Option<Json> {
    server_side_apply(existing, &json(intent), manager, "T", force).ok()
}

#[test]
fn records_managed_fields_and_prunes() {
    let intent = r#"{
        "apiVersion": "v1", "kind": "ConfigMap",
        "metadata": {"name": "cm"}, "data": {"a": "1", "b": "2"}
    }"#;
    let obj = applied(json("{}"), intent, "op", true).unwrap();
    let mf = obj.at("metadata").at("managedFields").as_array().unwrap();
    assert_eq!(mf.len(), 1);
    assert!(mf[0].at("manager").is_text("op"));
    assert!(mf[0].at("operation").is_text("Apply"));
    assert!(mf[0].at("fieldsV1").at("f:data").at("f:a").equals(&json("{}")));

    // Re-apply dropping data.b: it must be pruned, for the manager owns it no more.
    let again = r#"{
        "apiVersion": "v1", "kind": "ConfigMap",
        "metadata": {"name": "cm"}, "data": {"a": "1"}
    }"#;
    let obj2 = applied(obj, again, "op", true).unwrap();
    assert!(obj2.at("data").at("a").is_text("1"));
    assert!(obj2.at("data").get("b").is_none(), "dropped field pruned");
}

#[test]
fn conflict_on_foreign_field_unless_forced() {
    let first = r#"{"apiVersion":"v1","metadata":{"name":"x"},"data":{"k":"1"}}"#;
    let a = applied(json("{}"), first, "mgr-a", true).unwrap();
    // mgr-b changing data.k that mgr-a owns: a conflict without force.
    let intent = r#"{"apiVersion":"v1","metadata":{"name":"x"},"data":{"k":"2"}}"#;
    assert!(applied(a.dup(), intent, "mgr-b", false).is_none());
    // With force it succeeds.
    assert!(applied(a, intent, "mgr-b", true).is_some());
}

#[test]
fn a_key_with_a_slash_is_a_field_too() {
    let first = r#"{"metadata":{"name":"x","labels":{"a/b":"1"}}}"#;
    let a = applied(json("{}"), first, "mgr-a", true).unwrap();
    let intent = json(r#"{"metadata":{"name":"x","labels":{"a/b":"2"}}}"#);
    let conflict = match server_side_apply(a, &intent, "mgr-b", "T", false) {
        Ok(_) => panic!("mgr-a owns the label"),
        Err(c) => c,
    };
    assert_eq!(conflict.manager, "mgr-a");
    assert!(conflict.field.ends_with("a/b"), "{}", conflict.field);
}

// Authentication

fn in_ten_years() -> u64 {
    chrono::Utc::now().timestamp() as u64 + 10 * 365 * 86_400
}

// The numbers of an RSA key that is good for nothing but these tests, from the high
// words down. The public exponent is 65537.

const MODULUS: [u64; 32] = [
    0x9bd87edef17d9cd6, 0x6d0bfbbd8de2ad79, 0x35df979cd0428189, 0x1843f9f99505604d,
    0xd7e095fd5c81e928, 0xf37ea7e487338fa0, 0x023ffd141b64d217, 0xf4a6f9b31588fe10,
    0xe03579501fdb1bf6, 0x428735aad2f04d64, 0x194f516b409c2bb4, 0x8d57a403739414e4,
    0x8c004cf59432c8a3, 0x56fe612326d1b235, 0x659435043772388e, 0xcc96e78e65baec15,
    0x246e3890474b593b, 0x88c598119a3c34bf, 0x926162bcc29c0ac4, 0x49edf346b5f779b2,
    0xaf2a10a3362c0ba6, 0xf858cc015a79eaa2, 0x587255685abcf901, 0x7be5f514b8cc0fa5,
    0xd3e38b8735c77852, 0x3cef7e1b46788ec5, 0x64ed8085234c2e20, 0x1bbd2ecc1b4c69f3,
    0xe4c7dd973efe15af, 0xe950d7740311260f, 0x44979879de999316, 0xc67c0ccd7f1c8a7d,
];

const PRIVATE_EXPONENT: [u64; 32] = [
    0x090523a40c0e77a7, 0x3cd783e209961ef1, 0x3edf7ff073be0303, 0xa8290db7ac3036a3,
    0x3ac5451922ce0d6c, 0x8684aefb534ca0d9, 0xa3825d9d037ae1e2, 0xc0bbc6045f50e1ac,
    0xf60a7cf3836c7f4b, 0xfbb76f5bec3fe6a8, 0x23ae361458407c67, 0xc3add8bb2f1383e4,
    0x0dd5af494acdbcfe, 0xcb385cef4268c256, 0x4483555036ff5596, 0x5a46ba59ebb9c113,
    0xdf0f5d99cc62eeb5, 0x3b398d998a78d3bf, 0x8eeb2a7c90cb14a9, 0xd5ad420daa2d82a0,
    0xaf71e6ef29f1c1fd, 0x78956ad84a0dfb4d, 0x9804349388c5805a, 0x822cb0a730f739b0,
    0xc3fd298019c5299e, 0x7e6910223578277f, 0x4bdd8101fa379beb, 0xa387d1bf566f79df,
    0xe7ba6083e2389c03, 0x97023b6d3a6c0054, 0x557e9999057dbe44, 0x51c4b012168570f7,
];

const PRIMES: [u64; 32] = [
    0xcce0344554ed3e26, 0xa767daceeacc65f0, 0xf93569f305ba926d, 0xbb7f779c13513cd3,
    0x6a9e3589785b8df0, 0x93abeea6d2512998, 0xd60becf67c449e92, 0xbb19bf700a458dff,
    0xdda72ae3abe3cc3c, 0x6d72f88e8319a7da, 0x781114b77d9afdcf, 0x52a6db7196a42eed,
    0xe3d15e5c909dfa36, 0xa458985c1cef7a4c, 0x44e975f24c386f7e, 0x26d53223917b20bb,
    0xc2bc2b3eec558cfb, 0x656f8bc2fa816b47, 0x50a66d5c6b521a29, 0x6d8065b70f741e04,
    0x1f9f9db3f0fa1a5a, 0x21372ad4476b0fa5, 0x7aacbcc1d2297e87, 0x1a9175c72093d8fd,
    0xef1639578f84aa51, 0xe59ba48b06237ac1, 0xe3b506e28527fec5, 0xc847b879f7a3795e,
    0x9984077656616570, 0xb81ba913d6588e92, 0x7f296051cc86cacc, 0x431f6f7e6fa5ca27,
];

const REDUCED_EXPONENTS: [u64; 32] = [
    0x6e3b9c2449c3b493, 0x1bb3b77969c03c81, 0x61b529a286cc9208, 0xd4bf8addc14f0e89,
    0x3a6e91a3bbcc971c, 0x80781bda4a833cfc, 0x6cfed1aaf5c5fe04, 0x39036b8b9f1b3982,
    0x1802e002cbf3af6a, 0x3c0186573796d047, 0xae1e92a4ffc22b1a, 0x28007b462ca57e52,
    0xa5277bbc165bc9cb, 0x28b63a9425457cea, 0x1891fcd237cc8dc0, 0xb4a8356809d8d40d,
    0x9a6b5e9bb20b1115, 0xd55503ee24797619, 0x8221c73cef3996d7, 0x5d26e101adf6754a,
    0xedccc3e089e9b9f5, 0xd8bb07727803b4cf, 0x931ce13d8d2b2c53, 0x7444feb15deaffba,
    0x35da58b44f717322, 0x284228d3b9956ee5, 0xcb6ca4be01bb3a73, 0x9a230d6d626b3676,
    0x46a404cad92ab8a7, 0x0ec79866cba543c1, 0x75a6d8e3649d4ab9, 0x794cb73bfacaec27,
];

const COEFFICIENT: [u64; 16] = [
    0x11ee859ce6b0a4e2, 0x96671bf1e34eff70, 0xba3c994d0519aaea, 0x72117f2e03dd1454,
    0x0392510765b31f3d, 0xc173eb706b0a14d9, 0xb3ecb6b4578feb18, 0xd47f93312b2eca9e,
    0x93a47dd7fba3804b, 0xb009f911b0842f81, 0x39b6763aa9e25c9c, 0xad84397ba0d40872,
    0xa2e1b3a181c12eb9, 0xebb74929660e91b0, 0x31c2101dc58c5044, 0xada0361df3617f7c,
];

/// A DER element.
fn element(tag: u8, contents: &[u8]) -> Vec<u8> {
    let n = contents.len();
    let mut out = match n {
        0..=127 => vec![tag, n as u8],
        128..=255 => vec![tag, 0x81, n as u8],
        _ => vec![tag, 0x82, (n >> 8) as u8, n as u8],
    };
    out.extend_from_slice(contents);
    out
}

/// A DER integer that is not negative.
fn integer(words: &[u64]) -> Vec<u8> {
    let bytes: Vec<u8> = words.iter().flat_map(|w| w.to_be_bytes()).collect();
    let first = bytes.iter().position(|b| *b != 0).unwrap_or(bytes.len() - 1);
    let mut digits = bytes[first..].to_vec();
    if digits[0] >= 0x80 {
        digits.insert(0, 0);
    }
    element(2, &digits)
}

fn pem(label: &str, der: &[u8]) -> Vec<u8> {
    let body = base64::engine::general_purpose::STANDARD.encode(der);
    let mut out = format!("-----BEGIN {label}-----\n");
    for line in body.as_bytes().chunks(64) {
        out.push_str(std::str::from_utf8(line).unwrap());
        out.push('\n');
    }
    out.push_str(&format!("-----END {label}-----\n"));
    out.into_bytes()
}

fn private_pem() -> Vec<u8> {
    let parts = [
        integer(&[0]),
        integer(&MODULUS),
        integer(&[65537]),
        integer(&PRIVATE_EXPONENT),
        integer(&PRIMES[..16]),
        integer(&PRIMES[16..]),
        integer(&REDUCED_EXPONENTS[..16]),
        integer(&REDUCED_EXPONENTS[16..]),
        integer(&COEFFICIENT),
    ];
    pem("RSA PRIVATE KEY", &element(0x30, &parts.concat()))
}

fn public_pem() -> Vec<u8> {
    let key = element(0x30, &[integer(&MODULUS), integer(&[65537])].concat());
    // rsaEncryption, without parameters.
    let oid = [0x2a, 0x86, 0x48, 0x86, 0xf7, 0x0d, 0x01, 0x01, 0x01];
    let algorithm = element(0x30, &[element(6, &oid), element(5, &[])].concat());
    let bits = element(3, &[vec![0], key].concat());
    pem("PUBLIC KEY", &element(0x30, &[algorithm, bits].concat()))
}

fn test_keys() -> SigningKeys {
    match SigningKeys::from_rsa_pem(&private_pem(), &public_pem()) {
        Ok(keys) => keys,
        Err(e) => panic!("{e}"),
    }
}

/// Signs a payload as a minter outside the server does: whatever claims it
/// chooses, RS256, nothing added.
fn sign(payload: &str) -> String {
    let claims: serde_json::Value = serde_json::from_str(payload).unwrap();
    let key = jsonwebtoken::EncodingKey::from_rsa_pem(&private_pem()).unwrap();
    let header = jsonwebtoken::Header::new(jsonwebtoken::Algorithm::RS256);
    jsonwebtoken::encode(&header, &claims, &key).unwrap()
}

#[test]
fn a_node_admin_token_signed_outside_the_apiserver_authenticates() {
    // Long-lived, and no `groups`: a ServiceAccount's groups are not the
    // minter's to choose.
    let keys = test_keys();
    let token = sign(
        &format!(
            r#"{{"sub": "system:serviceaccount:kube-system:node-admin", "iat": {}, "exp": {}}}"#,
            chrono::Utc::now().timestamp(),
            in_ten_years()
        ),
    );
    let claims = keys.validate_token(&token).expect("token rejected");
    let (username, groups) = claims.identity();
    assert_eq!(username, "system:serviceaccount:kube-system:node-admin");
    assert_eq!(groups, ["system:serviceaccounts", "system:serviceaccounts:kube-system"]);
}

#[test]
fn a_serviceaccount_token_cannot_claim_groups() {
    let keys = test_keys();
    let token = sign(
        &format!(
            r#"{{"sub": "system:serviceaccount:default:app", "groups": ["system:masters"], "exp": {}}}"#,
            in_ten_years()
        ),
    );
    let (_, groups) = keys.validate_token(&token).unwrap().identity();
    assert!(!groups.iter().any(|g| g == "system:masters"), "{groups:?}");
    assert_eq!(groups, ["system:serviceaccounts", "system:serviceaccounts:default"]);
}

#[test]
fn a_user_token_keeps_its_groups() {
    let keys = test_keys();
    let token = sign(
        &format!(
            r#"{{"sub": "system:node:node-a", "groups": ["system:nodes"], "iat": 1, "exp": {}}}"#,
            in_ten_years()
        ),
    );
    let (username, groups) = keys.validate_token(&token).unwrap().identity();
    assert_eq!(username, "system:node:node-a");
    assert_eq!(groups, ["system:nodes"]);
}

#[test]
fn a_token_without_an_expiry_is_refused() {
    let keys = test_keys();
    let token = sign(r#"{"sub": "system:serviceaccount:kube-system:node-admin"}"#);
    assert!(keys.validate_token(&token).is_none());
}

#[test]
fn a_token_naming_an_audience_is_refused() {
    let keys = test_keys();
    let token = sign(
        &format!(
            r#"{{"sub": "system:serviceaccount:kube-system:node-admin",
                 "aud": ["https://kubernetes.default.svc"], "exp": {}}}"#,
            in_ten_years()
        ),
    );
    assert!(keys.validate_token(&token).is_none());
}

#[test]
fn a_token_signed_with_another_key_is_refused() {
    let token = sign(
        &format!(
            r#"{{"sub": "system:serviceaccount:kube-system:node-admin", "exp": {}}}"#,
            in_ten_years()
        ),
    );
    assert!(SigningKeys::generate().validate_token(&token).is_none());
}

#[test]
fn only_a_well_formed_serviceaccount_name_is_one() {
    assert_eq!(
        serviceaccount_namespace("system:serviceaccount:kube-system:x"),
        Some("kube-system")
    );
    assert_eq!(serviceaccount_namespace("system:serviceaccount:kube-system"), None);
    assert_eq!(serviceaccount_namespace("system:serviceaccount::x"), None);
    assert_eq!(serviceaccount_namespace("system:serviceaccount:ns:"), None);
    assert_eq!(serviceaccount_namespace("system:serviceaccount:ns:a:b"), None);
    assert_eq!(serviceaccount_namespace("system:node:node-a"), None);
}

#[test]
fn a_token_that_is_made_names_its_user_for_a_day() {
    let keys = SigningKeys::generate();
    let token = keys.create_token("alice", &vec!["dev".to_string()]).unwrap();
    let claims = keys.validate_token(&token).unwrap();
    assert_eq!(claims.sub, "alice");
    assert_eq!(claims.groups, ["dev"]);
    assert_eq!(claims.exp - claims.iat, 86_400);
    assert!(keys.validate_token("not.a.token").is_none());
}

#[test]
fn keys_that_are_no_pem_are_refused() {
    assert!(SigningKeys::from_rsa_pem(b"no key", b"no key").is_err());
    assert!(SigningKeys::from_rsa_pem(&private_pem(), b"no key").is_err());
    assert!(SigningKeys::from_rsa_pem(b"no key", &public_pem()).is_err());
}

#[test]
fn a_token_of_one_replica_is_one_of_every_replica() {
    let (one, other) = (test_keys(), test_keys());
    let groups = vec!["dev".to_string()];
    let token = one.create_token("alice", &groups).unwrap();
    let claims = other.validate_token(&token).unwrap();
    assert_eq!((claims.sub.as_str(), claims.groups), ("alice", groups.clone()));
    let header = jsonwebtoken::decode_header(&token).unwrap();
    assert_eq!(header.alg, jsonwebtoken::Algorithm::RS256);
    // One time and one key give one token.
    let at = one.create_token_at("alice", &groups, 1_700_000_000);
    assert_eq!(at, other.create_token_at("alice", &groups, 1_700_000_000));
    assert_ne!(at, other.create_token_at("alice", &groups, 1_700_000_001));
    assert!(SigningKeys::generate().validate_token(&token).is_none());
}

#[test]
fn halves_of_one_secret_agree() {
    let (one, other) = (SigningKeys::from_secret("a"), SigningKeys::from_secret("a"));
    let token = one.create_token("alice", &vec![]).unwrap();
    assert!(other.validate_token(&token).is_some());
    assert!(SigningKeys::from_secret("b").validate_token(&token).is_none());
    assert!(SigningKeys::generate().validate_token(&token).is_none());
}

#[test]
fn an_audience_is_refused_in_either_form() {
    for aud in [r#""x""#, r#"["x"]"#, r#"["x", "y"]"#, "[]"] {
        let token = sign(&format!(r#"{{"sub": "a", "aud": {aud}, "exp": {}}}"#, in_ten_years()));
        assert!(test_keys().validate_token(&token).is_none(), "{aud}");
    }
    let token = sign(&format!(r#"{{"sub": "a", "exp": {}}}"#, in_ten_years()));
    assert!(test_keys().validate_token(&token).is_some());
}

#[test]
fn a_token_answer_says_when_its_token_expires() {
    let keys = test_keys();
    let v = serviceaccount_token_at(&keys, "ns", "app", 1_700_000_000).ok().unwrap();
    assert!(v.at("status").at("expirationTimestamp").is_text("2023-11-15T22:13:20Z"));
    let groups = serviceaccount_groups("ns");
    let token = keys.create_token_at("system:serviceaccount:ns:app", &groups, 1_700_000_000);
    assert_eq!(v.at("status").at("token").as_str(), token.as_deref());
    let late = serviceaccount_token_at(&keys, "ns", "app", 9_000_000_000_000_000);
    assert_eq!(late.err().unwrap().message, "failed to sign ServiceAccount token");
    let v = create_serviceaccount_token(&keys, "ns", "app").ok().unwrap();
    let claims = keys.validate_token(v.at("status").at("token").str_or_empty()).unwrap();
    let expires = v.at("status").at("expirationTimestamp").str_or_empty();
    let at = chrono::DateTime::parse_from_rfc3339(expires).unwrap().timestamp();
    assert_eq!(at as u64, claims.exp);
}

#[test]
fn a_request_is_its_certificate_then_its_token_then_anonymous() {
    let cert = X509Identity { username: "kubelet".to_string(), groups: vec!["nodes".to_string()] };
    let who = resolve_identity(Some(&cert), None, None).unwrap();
    assert_eq!(who.username, "kubelet");
    assert_eq!(who.groups, ["nodes", "system:authenticated"]);
    let claims = Claims {
        sub: "alice".to_string(),
        groups: vec!["system:authenticated".to_string()],
        iat: 0,
        exp: 1,
    };
    let who = resolve_identity(None, Some(&claims), None).unwrap();
    assert_eq!(who.groups, ["system:authenticated"], "once is enough");
    let who = resolve_identity(None, None, None).unwrap();
    assert_eq!(who.username, "system:anonymous");
    assert_eq!(resolve_identity(None, None, Some(AnonymousAuth(false))).err(), Some(401));
    assert_eq!(with_authenticated(vec![]), ["system:authenticated"]);
}

#[test]
fn a_bad_token_is_no_credential() {
    let keys = SigningKeys::generate();
    assert_eq!(bearer_token("Bearer abc"), Some("abc"));
    assert_eq!(bearer_token("Basic abc"), None);
    let open = authenticate(None, Some("Bearer nonsense"), Some(&keys), Some(AnonymousAuth(true)));
    assert_eq!(open.unwrap().username, "system:anonymous");
    let shut = authenticate(None, Some("Bearer nonsense"), Some(&keys), Some(AnonymousAuth(false)));
    assert_eq!(shut.err(), Some(401));
    let token = keys.create_token("alice", &vec![]).unwrap();
    let header = format!("Bearer {token}");
    let who = authenticate(None, Some(&header), Some(&keys), None).unwrap();
    assert_eq!(who.username, "alice");
}

#[test]
fn a_certificate_names_its_user_and_groups() {
    let id = identity_of_subject(
        Some("alice".to_string()),
        vec![Some("dev".to_string()), None, Some("ops".to_string())],
    )
    .unwrap();
    assert_eq!(id.username, "alice");
    assert_eq!(id.groups, ["dev", "ops"]);
    assert!(identity_of_subject(None, vec![]).is_none());
    assert!(x509_identity_from_der(b"no certificate").is_none());

    let mut params = rcgen::CertificateParams::new(Vec::<String>::new()).unwrap();
    params.distinguished_name = rcgen::DistinguishedName::new();
    params.distinguished_name.push(rcgen::DnType::CommonName, "bob");
    params.distinguished_name.push(rcgen::DnType::OrganizationName, "dev");
    let key = rcgen::KeyPair::generate().unwrap();
    let cert = params.self_signed(&key).unwrap();
    let id = x509_identity_from_der(cert.der()).unwrap();
    assert_eq!(id.username, "bob");
    assert_eq!(id.groups, ["dev"]);
}

// Admission

#[test]
fn read_write_once_pod_may_not_be_combined() {
    let both = json(r#"{"spec": {"accessModes": ["ReadWriteOncePod", "ReadWriteOnce"]}}"#);
    let e = failed(access_modes(&both));
    assert_eq!(e.status, UNPROCESSABLE_ENTITY);
    assert!(e.message.contains("ReadWriteOncePod"), "{}", e.message);

    // Alone is the whole point of the mode.
    assert!(access_modes(&json(r#"{"spec": {"accessModes": ["ReadWriteOncePod"]}}"#)).is_ok());
    // Everything else combines as it always could.
    let rest = json(r#"{"spec": {"accessModes": ["ReadWriteOnce", "ReadOnlyMany"]}}"#);
    assert!(access_modes(&rest).is_ok());
    // A claim naming no modes is somebody else's error, not this one's.
    assert!(access_modes(&json(r#"{"spec": {}}"#)).is_ok());
}

fn first_port(svc: &str) -> Json {
    let mut svc = json(svc);
    default_service_ports(&mut svc);
    svc.at("spec").at("ports").item(0).dup()
}

#[test]
fn a_port_with_no_protocol_gets_tcp() {
    let p = first_port(r#"{"spec": {"ports": [{"port": 8080}]}}"#);
    assert!(p.at("protocol").is_text("TCP"));
    assert_eq!(p.at("targetPort").as_i64(), Some(8080));

    let udp = first_port(r#"{"spec": {"ports": [{"port": 53, "protocol": "UDP"}]}}"#);
    assert!(udp.at("protocol").is_text("UDP"));

    let tp = first_port(r#"{"spec": {"ports": [{"port": 80, "targetPort": 8080}]}}"#);
    assert_eq!(tp.at("targetPort").as_i64(), Some(8080));
}

#[test]
fn a_namespace_created_through_the_api_is_active_with_the_kubernetes_finalizer() {
    let mut ns = json(r#"{"metadata": {"name": "anything"}}"#);
    assert!(namespace_defaults(&mut ns));
    assert!(ns.at("status").equals(&json(r#"{"phase": "Active"}"#)));
    assert!(ns.at("spec").at("finalizers").equals(&json(r#"["kubernetes"]"#)));
}

#[test]
fn client_status_is_replaced_and_client_finalizers_are_kept() {
    let mut ns = json(
        r#"{
            "metadata": {"name": "x"},
            "spec": {"finalizers": ["example.com/hold"]},
            "status": {"phase": "Terminating"}
        }"#,
    );
    namespace_defaults(&mut ns);
    assert!(ns.at("status").equals(&json(r#"{"phase": "Active"}"#)));
    let want = json(r#"["example.com/hold", "kubernetes"]"#);
    assert!(ns.at("spec").at("finalizers").equals(&want));
}

#[test]
fn a_defaulted_namespace_is_unchanged_the_second_time() {
    let mut ns = json(r#"{"metadata": {"name": "x"}}"#);
    namespace_defaults(&mut ns);
    assert!(!namespace_defaults(&mut ns), "the backfill must be idempotent");
}

#[test]
fn a_terminating_namespace_is_not_revived() {
    let mut ns = json(
        r#"{
            "metadata": {"name": "x", "deletionTimestamp": "2026-09-23T00:00:00Z"},
            "spec": {"finalizers": []},
            "status": {"phase": "Terminating"}
        }"#,
    );
    assert!(!namespace_defaults(&mut ns));
    assert!(ns.at("status").at("phase").is_text("Terminating"));
    assert!(ns.at("spec").at("finalizers").equals(&json("[]")));
}

#[test]
fn a_namespace_that_is_missing_or_ending_takes_no_content() {
    assert_eq!(failed(namespace_lifecycle("x", None)).message, "namespace x not found");
    let ending = json(r#"{"status": {"phase": "Terminating"}}"#);
    let e = failed(namespace_lifecycle("x", Some(ending)));
    assert_eq!(e.status, FORBIDDEN);
    assert_eq!(
        e.message,
        "unable to create new content in namespace x because it is being terminated"
    );
    assert!(namespace_lifecycle("x", Some(json("{}"))).is_ok());
}

#[test]
fn a_schedule_that_never_fires_is_refused() {
    let job = json(r#"{"spec": {"schedule": "0 0 30 2 *"}}"#);
    assert!(cronjob_schedule(&job, None).is_ok());
    assert_eq!(
        failed(cronjob_schedule(&job, Some("no such day"))).message,
        "spec.schedule \"0 0 30 2 *\" will never fire: no such day"
    );
    assert_eq!(
        failed(cronjob_schedule(&json("{}"), None)).message,
        "spec.schedule is required"
    );
}

#[test]
fn pod_security_refuses_what_its_level_forbids() {
    let open = json(r#"{"spec": {"hostNetwork": true}}"#);
    assert!(pod_security("", &open).is_ok());
    assert!(pod_security("privileged", &open).is_ok());
    assert_eq!(
        failed(pod_security("baseline", &open)).message,
        "pod security \"baseline\": hostNetwork is not allowed"
    );
    let host = json(r#"{"spec": {"volumes": [{"hostPath": {"path": "/"}}]}}"#);
    assert!(failed(pod_security("baseline", &host)).message.contains("hostPath volumes"));
    let plain = json(r#"{"spec": {"containers": [{"name": "a"}]}}"#);
    assert!(pod_security("baseline", &plain).is_ok());
    let e = failed(pod_security("restricted", &plain));
    assert!(e.message.contains("allowPrivilegeEscalation must be false"));
    let good = json(
        r#"{"spec": {"securityContext": {"runAsNonRoot": true}, "containers": [{"securityContext":
            {"allowPrivilegeEscalation": false, "capabilities": {"drop": ["ALL"]}}}]}}"#,
    );
    assert!(pod_security("restricted", &good).is_ok());
    let root = json(
        r#"{"spec": {"containers": [{"securityContext":
            {"allowPrivilegeEscalation": false, "capabilities": {"drop": ["ALL"]}}}]}}"#,
    );
    assert!(failed(pod_security("restricted", &root)).message.contains("runAsNonRoot"));
}

#[test]
fn a_pod_is_given_its_account_its_tolerations_and_its_priority() {
    let pod = json(r#"{"spec": {"priorityClassName": "high"}}"#);
    let class = json(r#"{"value": 1000}"#);
    let ns = json("{}");
    let out = fine(admit_create("pods", Some(&ns), &pod, Some(&class), None));
    let spec = out.at("spec");
    assert!(spec.at("serviceAccountName").is_text("default"));
    assert!(spec.at("serviceAccount").is_text("default"));
    assert_eq!(spec.at("priority").as_i64(), Some(1000));
    let tolerations = spec.at("tolerations").as_array().unwrap();
    assert_eq!(tolerations.len(), 2);
    assert_eq!(tolerations[0].at("tolerationSeconds").as_i64(), Some(300));
    // A second time changes nothing.
    let again = fine(admit_create("pods", Some(&ns), &out, Some(&class), None));
    assert!(again.equals(&out));

    let strict = json(
        r#"{"metadata": {"labels": {"pod-security.kubernetes.io/enforce": "restricted"}}}"#,
    );
    let bare = json(r#"{"spec": {"containers": [{}]}}"#);
    assert_eq!(failed(admit_create("pods", Some(&strict), &bare, None, None)).status, FORBIDDEN);
}

// Custom resources

#[test]
fn establishes_names_conditions_and_stored_versions() {
    let mut crd = json(
        r#"{
            "apiVersion": "apiextensions.k8s.io/v1", "kind": "CustomResourceDefinition",
            "metadata": {"name": "widgets.demo.io"},
            "spec": {
                "group": "demo.io", "scope": "Namespaced",
                "names": {"plural": "widgets", "kind": "Widget"},
                "versions": [
                    {"name": "v1", "served": true, "storage": false},
                    {"name": "v2", "served": true, "storage": true}
                ]
            }
        }"#,
    );
    assert!(!established(&crd));
    establish_crd_status(&mut crd);
    assert!(established(&crd));
    let s = crd.at("status");
    // acceptedNames copied, with defaults filled.
    assert!(s.at("acceptedNames").at("kind").is_text("Widget"));
    assert!(s.at("acceptedNames").at("plural").is_text("widgets"));
    assert!(s.at("acceptedNames").at("listKind").is_text("WidgetList"));
    assert!(s.at("acceptedNames").at("singular").is_text("widget"));
    // The stored version is the one with storage: true.
    assert!(s.at("storedVersions").equals(&json(r#"["v2"]"#)));
    // Both conditions True.
    let conds = s.at("conditions").as_array().unwrap();
    assert!(conds
        .iter()
        .any(|c| c.at("type").is_text("NamesAccepted") && c.at("status").is_text("True")));
    assert!(conds
        .iter()
        .any(|c| c.at("type").is_text("Established") && c.at("status").is_text("True")));
}

#[test]
fn all_served_versions_register() {
    let mut reg = CrdRegistry::new();
    reg.register(&json(
        r#"{"spec": {"group": "cilium.io", "scope": "Namespaced",
            "names": {"plural": "ciliumendpoints", "kind": "CiliumEndpoint"},
            "versions": [
                {"name": "v2", "served": true, "additionalPrinterColumns": [
                    {"name": "Endpoint", "type": "integer", "jsonPath": ".status.id"}]},
                {"name": "v2alpha1", "served": true},
                {"name": "v1", "served": false}
            ]}}"#,
    ));
    assert!(!reg.api_resources("cilium.io", "v2").is_empty(), "v2 missing");
    assert!(
        !reg.api_resources("cilium.io", "v2alpha1").is_empty(),
        "v2alpha1 missing: only the first version registered"
    );
    // served: false is storage-only and is not offered over the API.
    assert!(reg.api_resources("cilium.io", "v1").is_empty(), "v1 is not served");

    // Columns travel with the version that declared them.
    let cols = reg.printer_columns("cilium.io", "v2", "ciliumendpoints");
    assert_eq!(cols.len(), 1);
    assert!(cols[0].at("name").is_text("Endpoint"));
    assert!(reg.printer_columns("cilium.io", "v2alpha1", "ciliumendpoints").is_empty());
    assert_eq!(
        crd_kinds(&reg, "cilium.io", "v2", "ciliumendpoints"),
        ("CiliumEndpoint".to_string(), "CiliumEndpointList".to_string())
    );
    assert!(validate_crd(&reg, "cilium.io", "v2", "ciliumendpoints").is_ok());
    assert_eq!(failed(validate_crd(&reg, "cilium.io", "v2", "nope")).status, NOT_FOUND);
    reg.unregister("ciliumendpoints.cilium.io");
    assert!(reg.api_resources("cilium.io", "v2").is_empty());
}

#[test]
fn storage_resource_qualifies_custom_resources_only() {
    assert_eq!(storage_resource("storm.io", "cloudimages"), "storm.io/cloudimages");
    assert_eq!(
        storage_resource("apiextensions.k8s.io", "customresourcedefinitions"),
        "customresourcedefinitions"
    );
}

fn widget_crd(group: &str) -> Json {
    json(&format!(
        r#"{{"spec": {{"group": "{group}", "scope": "Cluster",
            "names": {{"plural": "widgets", "kind": "Widget"}},
            "versions": [{{"name": "v1", "served": true}}]}}}}"#
    ))
}

#[test]
fn a_group_without_a_dot_is_refused() {
    let crds = "customresourcedefinitions";
    assert!(check_crd_write(crds, None, Some(&widget_crd("pods"))).is_err());
    assert!(check_crd_write(crds, None, Some(&widget_crd("demo.io"))).is_ok());
    // PATCH is judged by the name, `{plural}.{group}`.
    assert!(check_crd_write(crds, Some("widgets.pods"), None).is_err());
    assert!(check_crd_write(crds, Some("widgets"), None).is_err());
    assert!(check_crd_write(crds, Some("widgets.demo.io"), None).is_ok());
    // Only CRD writes are checked.
    assert!(check_crd_write("widgets", Some("anything"), None).is_ok());

    let mut reg = CrdRegistry::new();
    reg.register(&widget_crd("pods"));
    assert!(reg.lookup("pods", "v1", "widgets").is_none());
}

#[test]
fn definitions_are_one_per_group_and_plural() {
    let mut reg = CrdRegistry::new();
    for group in ["metal3.io", "metal.storm.io"] {
        reg.register(&json(&format!(
            r#"{{"spec": {{"group": "{group}", "scope": "Namespaced",
                "names": {{"plural": "baremetalhosts", "kind": "BareMetalHost"}},
                "versions": [{{"name": "v1alpha1", "served": true}}, {{"name": "v1", "served": true}}]}}}}"#
        )));
    }
    let mut got: Vec<String> =
        reg.definitions().into_iter().map(|d| format!("{}.{}", d.plural, d.group)).collect();
    got.sort();
    assert_eq!(got, ["baremetalhosts.metal.storm.io", "baremetalhosts.metal3.io"]);
}

#[test]
fn a_custom_resource_moves_by_the_group_in_its_own_version() {
    let mut reg = CrdRegistry::new();
    reg.register(&json(
        r#"{"spec": {"group": "demo.io", "scope": "Namespaced",
            "names": {"plural": "events", "kind": "Thing"},
            "versions": [{"name": "v1", "served": true}]}}"#,
    ));
    let def = reg.lookup("demo.io", "v1", "events").unwrap();
    let own = json(
        r#"{"apiVersion": "demo.io/v1", "metadata": {"name": "a", "namespace": "n", "uid": "u"}}"#,
    );
    match legacy_move(&def, &own) {
        Move::To { old_key, new_key } => {
            assert_eq!(old_key, "/registry/events/n/a");
            assert_eq!(new_key, "/registry/demo.io/events/n/a");
        }
        _ => panic!("the object moves to its group"),
    }
    // A built-in of the same plural stays.
    let core = json(r#"{"apiVersion": "v1", "metadata": {"name": "a", "namespace": "n"}}"#);
    assert!(!matches!(legacy_move(&def, &core), Move::To { .. }));
    assert!(same_identity(&own, &own));
    assert!(!same_identity(&own, &core));
}

// Discovery

#[test]
fn parses_core_and_group_paths() {
    assert_eq!(
        parse_openapi_path("api/v1"),
        Some((String::new(), "v1".into(), "/api/v1".into()))
    );
    assert_eq!(
        parse_openapi_path("apis/apps/v1"),
        Some(("apps".into(), "v1".into(), "/apis/apps/v1".into()))
    );
    // Leading/trailing slashes are tolerated; nonsense is not.
    assert!(parse_openapi_path("/api/v1/").is_some());
    assert!(parse_openapi_path("openapi/v3").is_none());
    assert!(parse_openapi_path("").is_none());
}

#[test]
fn operations_carry_gvk_and_field_validation() {
    let gvk = json(r#"{"group": "", "version": "v1", "kind": "Namespace"}"#);
    let op = operation(&gvk);
    assert!(op.at("x-kubernetes-group-version-kind").equals(&gvk));
    let params = op.at("parameters").as_array().unwrap();
    assert!(params
        .iter()
        .any(|p| p.at("name").is_text("fieldValidation") && p.at("in").is_text("query")));
}

#[test]
fn core_group_covers_namespaced_and_cluster_scoped() {
    let core = resources_for("", "v1");
    assert!(core.contains(&("namespaces", "Namespace", false)));
    assert!(core.contains(&("configmaps", "ConfigMap", true)));
    // Groups that are served resolve; ones that are not stay empty.
    assert!(!resources_for("apps", "v1").is_empty());
    assert!(!resources_for("storage.k8s.io", "v1").is_empty());
    assert!(resources_for("nope.example.com", "v1").is_empty());
}

#[test]
fn custom_groups_are_listed_beside_the_built_in_ones() {
    let mut reg = CrdRegistry::new();
    reg.register(&widget_crd("demo.io"));
    let groups = api_groups_dynamic(&reg);
    let names: Vec<&str> =
        groups.at("groups").as_array().unwrap().iter().map(|g| g.at("name").str_or_empty()).collect();
    assert!(names.contains(&"apps"));
    assert!(names.contains(&"demo.io"));
    let v1 = api_v1_resources();
    let pods = v1.at("resources").as_array().unwrap();
    assert!(pods.iter().any(|r| r.at("name").is_text("pods")));
    assert!(openapi_v3_group("apis/apps/v1").at("paths").is_object());
}

// Errors

const REAL: &str = "linearizable read barrier: when Write Snapshot(Some(SnapshotSignature \
    { last_log_id: Some(LogId { leader_id: LeaderId { term: 1, node_id: 7759039249187390974 }, \
    index: 65036 }), last_membership_log_id: Some(LogId { leader_id: LeaderId { term: 0, \
    node_id: 0 }, index: 0 }), snapshot_id: \"snap-1\" })), verb: Write, source: \
    std::io::error::Error: No space left on device (os error 28), backtrace: None";

#[test]
fn an_unavailable_datastore_is_503_not_500() {
    let err = from_error(&Error::Unavailable(REAL.to_string()));
    assert_eq!(err.status, SERVICE_UNAVAILABLE);
    assert_eq!(err.reason, "ServiceUnavailable");
    assert_eq!(err.retry_after(), Some(1));
}

#[test]
fn the_client_gets_the_fault_not_the_backend_s_internals() {
    let err = from_error(&Error::Unavailable(REAL.to_string()));
    assert!(err.message.starts_with("datastore unavailable: "));
    // The actionable end of the chain survives...
    assert!(err.message.contains("No space left on device"), "{}", err.message);
    // ...and the structure of the store does not.
    assert!(!err.message.contains("SnapshotSignature"), "{}", err.message);
    assert!(!err.message.contains("backtrace"), "{}", err.message);
    assert!(err.message.chars().count() <= MAX_CAUSE + 32, "{}", err.message);
}

#[test]
fn a_cause_with_no_chain_is_left_alone() {
    assert_eq!(condense("no space left on device"), "no space left on device");
    // A long one with nothing to unwrap is truncated rather than dropped.
    let long = "x".repeat(400);
    let out = condense(&long);
    assert!(out.chars().count() <= MAX_CAUSE + 1, "{}", out.chars().count());
    assert!(out.ends_with('…'));
}

#[test]
fn a_real_store_error_is_still_the_apiserver_s_problem() {
    let err = from_error(&Error::Store("bad frame".to_string()));
    assert_eq!(err.status, INTERNAL_SERVER_ERROR);
    assert_eq!(err.reason, "InternalError");
}

#[test]
fn every_error_has_its_status() {
    assert_eq!(from_error(&Error::Conflict).status, CONFLICT);
    assert_eq!(from_error(&Error::Gone(7)).status, GONE);
    assert_eq!(ApiError::not_found("pods", "x").message, "pods \"x\" not found");
    assert_eq!(ApiError::unauthorized("no").status, UNAUTHORIZED);
    assert_eq!(ApiError::bad_request("no").status, BAD_REQUEST);
    let body = ApiError::forbidden("no").response_body();
    assert_eq!(body.at("code").as_i64(), Some(403));
    assert!(body.at("reason").is_text("Forbidden"));
}

// Events

#[test]
fn round_trips_core_and_events_fields() {
    let core = json(
        r#"{
            "apiVersion": "v1", "kind": "Event",
            "metadata": {"name": "e1", "namespace": "default"},
            "involvedObject": {"kind": "Pod", "name": "p1"},
            "message": "started", "reason": "Started", "type": "Normal",
            "source": {"component": "kubelet", "host": "node1"},
            "count": 3, "firstTimestamp": "t0", "lastTimestamp": "t2",
            "eventTime": "t0"
        }"#,
    );
    let ev = core_to_events(core);
    assert!(ev.at("apiVersion").is_text("events.k8s.io/v1"));
    assert!(ev.at("regarding").at("name").is_text("p1"));
    assert!(ev.at("note").is_text("started"));
    assert!(ev.at("reportingController").is_text("kubelet"));
    assert!(ev.at("reportingInstance").is_text("node1"));
    assert_eq!(ev.at("deprecatedCount").as_i64(), Some(3));
    assert!(ev.get("involvedObject").is_none() && ev.get("message").is_none());

    // events.k8s.io/v1, as a client would send it, to core.
    let sent = json(
        r#"{
            "apiVersion": "events.k8s.io/v1", "kind": "Event",
            "metadata": {"name": "e2"},
            "regarding": {"kind": "Pod", "name": "p2"}, "note": "hi",
            "reportingController": "op", "reportingInstance": "op-0",
            "reason": "R", "type": "Normal", "eventTime": "t0",
            "series": {"count": 5, "lastObservedTime": "t5"}
        }"#,
    );
    assert_eq!(fine(event_name(&sent)), "e2");
    let c = events_to_core(sent);
    assert!(c.at("apiVersion").is_text("v1"));
    assert!(c.at("involvedObject").at("name").is_text("p2"));
    assert!(c.at("message").is_text("hi"));
    assert!(c.at("source").at("component").is_text("op"));
    assert_eq!(c.at("count").as_i64(), Some(5), "series.count folded into core count");
    assert!(c.at("lastTimestamp").is_text("t5"));
}

// Eviction

#[test]
fn selector_matches_semantics() {
    let sel = json(r#"{"matchLabels": {"app": "web"}}"#);
    assert!(selector_matches(&sel, &json(r#"{"app": "web", "x": "y"}"#)));
    assert!(!selector_matches(&sel, &json(r#"{"app": "db"}"#)));
    assert!(!selector_matches(&sel, &json("null")));
    // Empty selector matches everything.
    assert!(selector_matches(&json("{}"), &json(r#"{"app": "web"}"#)));
}

#[test]
fn intstr_absolute_and_percent() {
    assert_eq!(intstr_to_count(&json("2"), 10), Some(2));
    assert_eq!(intstr_to_count(&json("\"3\""), 10), Some(3));
    assert_eq!(intstr_to_count(&json("\"50%\""), 10), Some(5));
    // Rounded up, for minAvailable.
    assert_eq!(intstr_to_count(&json("\"25%\""), 10), Some(3));
    assert_eq!(intstr_to_count(&json("null"), 10), None);
}

#[test]
fn a_budget_that_would_be_broken_blocks_the_eviction() {
    let ready = r#"{"metadata": {"labels": {"app": "web"}},
        "status": {"conditions": [{"type": "Ready", "status": "True"}]}}"#;
    let pods = vec![json(ready), json(ready)];
    assert!(is_ready(&pods[0]));
    let pdb = |min: &str| {
        json(&format!(
            r#"{{"metadata": {{"name": "b"}}, "spec": {{"minAvailable": {min},
                "selector": {{"matchLabels": {{"app": "web"}}}}}}}}"#
        ))
    };
    assert_eq!(disruptions_allowed(&pdb("1"), &pods), 1);
    assert!(check_eviction("default", &pods[0], &vec![pdb("1")], &pods).is_none());
    let refusal = check_eviction("default", &pods[0], &vec![pdb("1"), pdb("2")], &pods).unwrap();
    assert_eq!(refusal.at("code").as_i64(), Some(429));
    assert!(evicted("default", "p").at("kind").is_text("Eviction"));
}

// Manifests

#[test]
fn a_multi_document_file_is_split_and_empties_dropped() {
    let text = "\
apiVersion: v1
kind: Namespace
metadata:
  name: a
---
# just a comment
---
apiVersion: apps/v1
kind: DaemonSet
metadata:
  name: b
---
";
    let docs = documents(text);
    assert_eq!(docs.len(), 2);
    assert!(docs[0].at("kind").is_text("Namespace"));
    assert!(docs[1].at("kind").is_text("DaemonSet"));
}

#[test]
fn json_is_one_document() {
    let docs = documents(r#"{"apiVersion":"v1","kind":"Namespace","metadata":{"name":"a"}}"#);
    assert_eq!(docs.len(), 1);
    assert!(docs[0].at("metadata").at("name").is_text("a"));
}

#[test]
fn the_core_group_is_the_empty_string() {
    assert_eq!(group_version("v1"), (String::new(), "v1".to_string()));
    assert_eq!(group_version("apps/v1"), ("apps".to_string(), "v1".to_string()));
    assert_eq!(
        group_version("cilium.io/v2alpha1"),
        ("cilium.io".to_string(), "v2alpha1".to_string())
    );
}

#[test]
fn ensure_exists_is_the_default_and_reconcile_is_opt_in() {
    assert_eq!(Mode::of(&json(r#"{"metadata": {}}"#)), Mode::EnsureExists);
    let with = |key: &str, value: &str| {
        json(&format!(r#"{{"metadata": {{"annotations": {{"{key}": "{value}"}}}}}}"#))
    };
    assert_eq!(
        Mode::of(&with("addonmanager.kubernetes.io/mode", "Reconcile")),
        Mode::Reconcile
    );
    assert_eq!(Mode::of(&with("storm.io/manifest-mode", "Reconcile")), Mode::Reconcile);
    // An unrecognised value is the safe one, not an error.
    assert_eq!(
        Mode::of(&with("addonmanager.kubernetes.io/mode", "Nonsense")),
        Mode::EnsureExists
    );
}

#[test]
fn files_are_applied_in_filename_order() {
    let names: Vec<String> = ["20-b.yaml", "10-a.yaml", "notes.txt", "30-c.json"]
        .iter()
        .map(|n| n.to_string())
        .collect();
    assert_eq!(manifest_files(&names), ["10-a.yaml", "20-b.yaml", "30-c.json"]);
    let odd: Vec<String> = [".yaml", "a.b.yml", "yaml"].iter().map(|n| n.to_string()).collect();
    assert_eq!(manifest_files(&odd), ["a.b.yml"]);
}

#[test]
fn a_missing_directory_is_empty_not_an_error() {
    assert!(manifest_files(&Vec::new()).is_empty());
}

#[test]
fn a_manifest_resolves_to_what_is_served() {
    let mut reg = CrdRegistry::new();
    let pod = json(r#"{"apiVersion": "v1", "kind": "Pod", "metadata": {"name": "p"}}"#);
    let (resource, namespaced) = resolve(&pod, &reg).unwrap();
    assert_eq!((resource.as_str(), namespaced), ("pods", true));
    let t = target(&pod, &resource, namespaced).ok().unwrap();
    assert_eq!(t.key, "/registry/pods/default/p");

    let widget =
        json(r#"{"apiVersion": "demo.io/v1", "kind": "Widget", "metadata": {"name": "w"}}"#);
    assert_eq!(
        resolve(&widget, &reg).unwrap_err(),
        "demo.io/v1 Widget is not served by this apiserver"
    );
    reg.register(&widget_crd("demo.io"));
    let (resource, namespaced) = resolve(&widget, &reg).unwrap();
    assert_eq!((resource.as_str(), namespaced), ("demo.io/widgets", false));
    assert_eq!(
        target(&widget, &resource, namespaced).ok().unwrap().key,
        "/registry/demo.io/widgets/w"
    );
    assert_eq!(
        resolve(&json("{}"), &reg).unwrap_err(),
        "manifest has no apiVersion or kind"
    );
    assert_eq!(
        target(&json("{}"), "pods", true).err().unwrap(),
        "manifest has no metadata.name"
    );
}

fn place() -> Target {
    Target {
        key: "/registry/configmaps/default/c".to_string(),
        name: "c".to_string(),
        namespace: Some("default".to_string()),
    }
}

#[test]
fn a_manifest_creates_leaves_or_reconciles() {
    let plain = r#"{"kind": "ConfigMap", "metadata": {"name": "c"}, "data": {"a": "2"}}"#;
    match apply_one(json(plain), &place(), None) {
        Action::Create(obj, register) => {
            assert!(!register);
            assert!(obj.at("metadata").at("namespace").is_text("default"));
            assert!(obj.at("metadata").at("uid").some_str().is_some());
        }
        _ => panic!("what is absent is created"),
    }
    let current = json(
        r#"{"metadata": {"name": "c", "uid": "u1", "creationTimestamp": "T0"},
            "data": {"a": "1"}, "status": {"x": 1}}"#,
    );
    assert!(matches!(decide(json(plain), &place(), Some(&current), "u", "T"), Action::Leave));
    let forced = r#"{"kind": "ConfigMap", "metadata": {"name": "c", "annotations":
        {"addonmanager.kubernetes.io/mode": "Reconcile"}}, "data": {"a": "2"}}"#;
    match decide(json(forced), &place(), Some(&current), "u", "T") {
        Action::Replace(obj, register) => {
            assert!(!register);
            assert!(obj.at("metadata").at("uid").is_text("u1"));
            assert!(obj.at("metadata").at("creationTimestamp").is_text("T0"));
            assert!(obj.at("data").at("a").is_text("2"));
            assert_eq!(obj.at("status").at("x").as_i64(), Some(1));
        }
        _ => panic!("the manifest wins"),
    }
    let crd = json(r#"{"kind": "CustomResourceDefinition", "metadata": {"name": "c"}}"#);
    match decide(crd, &place(), None, "u", "T") {
        Action::Create(obj, register) => {
            assert!(register);
            assert!(established(&obj));
        }
        _ => panic!("a definition is created"),
    }
    let newer = json(
        r#"{"kind": "CustomResourceDefinition", "status": {"mine": true},
            "metadata": {"name": "c", "uid": "mine", "annotations":
                {"addonmanager.kubernetes.io/mode": "Reconcile"}}}"#,
    );
    let bare = json(r#"{"metadata": {"name": "c"}}"#);
    match decide(newer, &place(), Some(&bare), "u", "T") {
        Action::Replace(obj, register) => {
            assert!(register, "a definition is registered as it lands");
            assert!(obj.get("status").is_none(), "a status does not come from a manifest");
            assert!(obj.at("metadata").at("uid").is_text("u"), "nor does an identity");
        }
        _ => panic!("a definition is replaced"),
    }
}

#[test]
fn outcomes_are_counted() {
    let mut tally = Tally::new();
    tally.count(&after_create(None));
    tally.count(&after_create(Some(&ApiError::already_exists("x", "y"))));
    tally.count(&after_create(Some(&ApiError::internal("disk"))));
    tally.count(&after_update(None));
    assert_eq!(after_update(Some(&ApiError::internal("disk"))), Outcome::Failed("disk".into()));
    assert_eq!(
        (tally.created, tally.updated, tally.unchanged, tally.failed),
        (1, 1, 1, 1)
    );
}

// Roles

fn req(verb: &str, resource: &str, subresource: Option<&str>) -> AuthorizationRequest {
    AuthorizationRequest {
        verb: verb.to_string(),
        resource: resource.to_string(),
        subresource: subresource.map(str::to_string),
        api_group: "".to_string(),
        namespace: Some("default".to_string()),
        name: Some("p1".to_string()),
    }
}

#[test]
fn a_non_resource_rule_grants_no_resource() {
    let role = json(
        r#"{"rules": [{
            "nonResourceURLs": ["/api", "/apis", "/api/*", "/apis/*", "/healthz", "/version"],
            "verbs": ["get"]
        }]}"#,
    );
    for resource in ["secrets", "pods", "nodes"] {
        let r = AuthorizationRequest {
            verb: "get".to_string(),
            resource: resource.to_string(),
            subresource: None,
            api_group: "".to_string(),
            namespace: Some("kube-system".to_string()),
            name: None,
        };
        assert!(!rules_permit(&role, &r), "{resource} was granted by a non-resource rule");
    }
}

#[test]
fn an_empty_resource_list_grants_nothing() {
    // Absent and empty are the same thing, and neither is a wildcard.
    let role = json(r#"{"rules": [{"apiGroups": ["*"], "resources": [], "verbs": ["*"]}]}"#);
    assert!(!rules_permit(&role, &req("get", "pods", None)));
    let role = json(r#"{"rules": [{"resources": ["*"], "verbs": ["*"]}]}"#);
    assert!(!rules_permit(&role, &req("get", "pods", None)));
}

#[test]
fn an_explicit_wildcard_still_grants_everything() {
    let role = json(r#"{"rules": [{"apiGroups": ["*"], "resources": ["*"], "verbs": ["*"]}]}"#);
    assert!(rules_permit(&role, &req("get", "secrets", None)));
    assert!(rules_permit(&role, &req("create", "pods", Some("exec"))));
}

#[test]
fn a_rule_for_pods_does_not_grant_exec() {
    let rule = json(r#"{"apiGroups": [""], "resources": ["pods"], "verbs": ["*"]}"#);
    assert!(rule_matches(&rule, &req("get", "pods", None)));
    assert!(!rule_matches(&rule, &req("create", "pods", Some("exec"))));
}

#[test]
fn a_rule_naming_the_subresource_grants_it() {
    let rule = json(r#"{"apiGroups": [""], "resources": ["pods/exec"], "verbs": ["create"]}"#);
    assert!(rule_matches(&rule, &req("create", "pods", Some("exec"))));
    assert!(!rule_matches(&rule, &req("create", "pods", Some("attach"))));
    assert!(!rule_matches(&rule, &req("get", "pods", None)));
}

#[test]
fn wildcards_still_grant_everything() {
    let rule = json(r#"{"apiGroups": ["*"], "resources": ["*"], "verbs": ["*"]}"#);
    assert!(rule_matches(&rule, &req("create", "pods", Some("exec"))));
    let subs = json(r#"{"apiGroups": [""], "resources": ["pods/*"], "verbs": ["*"]}"#);
    assert!(rule_matches(&subs, &req("create", "pods", Some("exec"))));
    assert!(rule_matches(&subs, &req("get", "pods", Some("log"))));
    assert!(
        !rule_matches(&subs, &req("delete", "pods", None)),
        "pods/* is every subresource of pods, not pods itself"
    );
}

#[test]
fn subresource_paths_are_parsed_rather_than_falling_off_the_end() {
    let exec = parse_authorization_request(
        "/api/v1/namespaces/kube-system/pods/cilium-abc/exec",
        "POST",
    )
    .expect("exec path must parse");
    assert_eq!(exec.resource, "pods");
    assert_eq!(exec.subresource.as_deref(), Some("exec"));
    assert_eq!(exec.verb, "create");
    assert_eq!(exec.namespace.as_deref(), Some("kube-system"));

    let status = parse_authorization_request("/api/v1/nodes/node-a/status", "PUT")
        .expect("cluster-scoped subresource must parse");
    assert_eq!(status.resource, "nodes");
    assert_eq!(status.subresource.as_deref(), Some("status"));
    assert_eq!(status.verb, "update");

    let crd = parse_authorization_request(
        "/apis/cilium.io/v2/namespaces/default/ciliumnetworkpolicies/p/status",
        "PATCH",
    )
    .expect("grouped namespaced subresource must parse");
    assert_eq!(crd.api_group, "cilium.io");
    assert_eq!(crd.resource, "ciliumnetworkpolicies");
    assert_eq!(crd.subresource.as_deref(), Some("status"));
}

#[test]
fn a_websocket_exec_is_a_get_on_the_same_subresource() {
    let ws =
        parse_authorization_request("/api/v1/namespaces/default/pods/p1/exec", "GET").unwrap();
    assert_eq!(ws.subresource.as_deref(), Some("exec"));
    assert_eq!(ws.verb, "get");
}

#[test]
fn a_namespace_subresource_is_not_a_resource_list() {
    let fin =
        parse_authorization_request("/api/v1/namespaces/kube-system/finalize", "PUT").unwrap();
    assert_eq!(fin.resource, "namespaces");
    assert_eq!(fin.subresource.as_deref(), Some("finalize"));
    assert_eq!(fin.name.as_deref(), Some("kube-system"));

    let pods = parse_authorization_request("/api/v1/namespaces/kube-system/pods", "GET").unwrap();
    assert_eq!(pods.resource, "pods");
    assert_eq!(pods.subresource, None);
    assert_eq!(pods.namespace.as_deref(), Some("kube-system"));
}

fn person(name: &str, groups: &[&str]) -> UserInfo {
    UserInfo {
        username: name.to_string(),
        groups: groups.iter().map(|g| g.to_string()).collect(),
    }
}

#[test]
fn a_binding_grants_what_its_role_permits() {
    let engine = RbacEngine::new();
    let alice = person("alice", &["dev"]);
    let binding = json(
        r#"{"metadata": {"namespace": "default"}, "roleRef": {"kind": "ClusterRole", "name": "view"},
            "subjects": [{"kind": "Group", "name": "dev"}]}"#,
    );
    let role =
        json(r#"{"rules": [{"apiGroups": [""], "resources": ["pods"], "verbs": ["get"]}]}"#);
    assert_eq!(
        role_to_read(&binding, &alice, None).as_deref(),
        Some("/registry/clusterroles/view")
    );
    let grants = vec![Grant { binding, role: Some(role) }];
    assert!(engine.authorize(&alice, &req("get", "pods", None), &grants, &vec![]));
    assert!(!engine.authorize(&alice, &req("delete", "pods", None), &grants, &vec![]));
    assert!(!engine.authorize(&person("bob", &[]), &req("get", "pods", None), &grants, &vec![]));
    assert_eq!(deny(&alice, &req("delete", "pods", None)).status, FORBIDDEN);
}

#[test]
fn discovery_passes_and_a_path_that_is_none_does_not() {
    let alice = person("alice", &[]);
    assert!(is_discovery_path("/api/v1"));
    for path in ["/apis/apps/v1", "/apis/networking.k8s.io/v1", "/apis/demo.io/v1alpha1"] {
        assert!(is_discovery_path(path), "{path}");
    }
    for path in ["/apis/apps", "/apis/apps/", "/apis//v1", "/apis/apps/v1/pods", "/api/v1/pods"] {
        assert!(!is_discovery_path(path), "{path}");
    }
    assert!(matches!(gate("/healthz", "GET", &alice), Gate::Pass));
    assert!(matches!(
        gate("/api/v1/namespaces/default/pods", "GET", &alice),
        Gate::Ask(_)
    ));
    assert!(matches!(gate("/apis/a/b/c/d/e/f/g/h/i", "GET", &alice), Gate::Refuse(_)));
}

// Startup

#[test]
fn service_cidr_yields_dot_one() {
    assert_eq!(first_service_ip("10.96.0.0/12"), Some("10.96.0.1".to_string()));
    assert_eq!(first_service_ip("172.20.0.0/16"), Some("172.20.0.1".to_string()));
    assert!(first_service_ip("not-a-cidr").is_none());
    assert!(first_service_ip("10.96.0.0").is_none());
}

#[test]
fn a_server_stores_its_namespaces_and_roles() {
    assert_eq!(own_namespaces(), ["default", "kube-system", "kube-public", "kube-node-lease"]);
    let (key, ns) = bootstrap_namespace("default");
    assert_eq!(key, "/registry/namespaces/default");
    assert_eq!(ns.at("metadata").at("uid").str_or_empty().len(), 36);
    let mut again = ns.dup();
    assert!(!namespace_defaults(&mut again), "it has its defaults");

    let names = |anonymous, admin| -> Vec<String> {
        bootstrap_rbac(anonymous, admin).into_iter().map(|(k, _)| k).collect()
    };
    assert_eq!(names(true, false).len(), 9);
    assert_eq!(names(false, true), names(true, false));
    let last = names(true, true).pop().unwrap();
    assert_eq!(last, "/registry/clusterrolebindings/system:anonymous-admin");
}

#[test]
fn a_server_registers_itself_once() {
    let (key, svc) = service_object("10.96.0.1", 6443);
    assert_eq!(key, "/registry/services/default/kubernetes");
    assert!(svc.at("spec").at("clusterIP").is_text("10.96.0.1"));
    let first = register_address(None, "10.0.0.7").unwrap();
    let (_, endpoints) = endpoints_object(&first, 6443);
    assert!(register_address(Some(&endpoints), "10.0.0.7").is_none());
    let both = register_address(Some(&endpoints), "10.0.0.5").unwrap();
    let ips: Vec<&str> = both.iter().map(|a| a.at("ip").str_or_empty()).collect();
    assert_eq!(ips, ["10.0.0.5", "10.0.0.7"]);
    let (_, slice) = slice_object(&both, 6443);
    let second = slice.at("endpoints").item(1);
    assert!(second.at("addresses").equals(&json(r#"["10.0.0.7"]"#)));
    assert_eq!(slice.at("ports").item(0).at("port").as_i64(), Some(6443));
}

#[test]
fn plain_http_must_be_asked_for() {
    let mut c = ApiServerConfig::default();
    assert!(matches!(c.serving(), Serving::Refused(_)));
    assert!(c.check_datastore().is_err());
    assert!(!c.datastore_tls());
    assert_eq!(c.advertise(), None);
    assert_eq!(c.listen_addr(), "0.0.0.0:6443");
    assert_eq!(c.kubernetes_ip(), "10.96.0.1");
    assert!(matches!(c.token_keys(), TokenKeys::Ephemeral));
    c.insecure = true;
    assert!(matches!(c.serving(), Serving::Plain));
    c.tls_auto = true;
    assert!(matches!(c.serving(), Serving::SelfSigned));
    c.tls_cert = Some("c".to_string());
    c.tls_key = Some("k".to_string());
    assert!(matches!(c.serving(), Serving::Files(_, _)));
    c.bind_addr = "10.0.0.5".to_string();
    assert_eq!(c.advertise().as_deref(), Some("10.0.0.5"));
    c.advertise_address = Some("10.0.0.9".to_string());
    assert_eq!(c.advertise().as_deref(), Some("10.0.0.9"));
    c.service_account_signing_key = Some("a".to_string());
    assert!(matches!(c.token_keys(), TokenKeys::Ephemeral));
    c.service_account_key = Some("b".to_string());
    assert!(matches!(c.token_keys(), TokenKeys::Files(_, _)));
}

#[test]
fn no_path_is_routed_twice() {
    let routes = build_router();
    let mut paths: Vec<&str> = routes.iter().map(|r| r.0).collect();
    assert_eq!(paths.len(), 109);
    paths.sort();
    paths.dedup();
    assert_eq!(paths.len(), 109);
    assert!(routes.contains(&("/api/v1/{resource}", Endpoint::ClusterCollection)));
}

#[test]
fn labels_leave_names_out() {
    assert_eq!(resource_label("/api/v1/namespaces/x/pods/y"), "pods");
    assert_eq!(resource_label("/apis/apps/v1/deployments"), "deployments");
    assert_eq!(resource_label("/openapi/v3"), "openapi");
    assert_eq!(resource_label("/apis"), "discovery");
    assert_eq!(resource_label("/readyz"), "health");
    assert_eq!(resource_label("/nonsense"), "other");
}

// Addresses of Services

#[test]
fn duplicate_detection_finds_a_shared_address() {
    let svcs: Vec<Json> = [
        r#"{"metadata":{"namespace":"default","name":"a"},"spec":{"clusterIP":"10.96.0.1"}}"#,
        r#"{"metadata":{"namespace":"kube-system","name":"b"},"spec":{"clusterIP":"10.96.0.1"}}"#,
        r#"{"metadata":{"namespace":"default","name":"c"},"spec":{"clusterIP":"10.96.0.9"}}"#,
        // Headless services share "None" and are not duplicates.
        r#"{"metadata":{"namespace":"default","name":"d"},"spec":{"clusterIP":"None"}}"#,
        r#"{"metadata":{"namespace":"default","name":"e"},"spec":{"clusterIP":"None"}}"#,
    ]
    .iter()
    .map(|t| json(t))
    .collect();
    let dups = duplicates(&svcs);
    assert_eq!(dups.len(), 1, "exactly one address is shared");
    assert_eq!(dups[0].0, "10.96.0.1");
    assert_eq!(dups[0].1, vec!["default/a", "kube-system/b"]);
    let claims = reconcile(&svcs);
    assert_eq!(claims.len(), 3);
    assert_eq!(claims[2].key, key("10.96.0.9"));
    assert!(claims[2].record.equals(&json(
        r#"{"ip": "10.96.0.9", "namespace": "default", "name": "c"}"#
    )));
}

#[test]
fn a_cidr_parses_into_a_base_and_a_prefix() {
    let (base, prefix) = parse_cidr("10.96.0.0/12").unwrap();
    assert_eq!(format_address(base), "10.96.0.0");
    assert_eq!(prefix, 12);
    assert!(parse_cidr("10.96.0.0").is_none());
    assert!(parse_cidr("nonsense/12").is_none());
}

#[test]
fn one_address_is_one_key() {
    assert_eq!(key("10.96.0.2"), "/registry/serviceipallocations/10.96.0.2");
    assert_ne!(key("10.96.0.2"), key("10.96.0.3"));
}

/// Runs the steps for a Service against the addresses that are held.
fn settle(cidr: &str, svc: &Json, held: &[&str]) -> Step {
    let mut step = allocate(cidr, svc);
    loop {
        let won = match &step {
            Step::Fixed(ip) => !held.contains(&ip.as_str()),
            Step::Try(_, ip) => !held.contains(&ip.as_str()),
            _ => return step,
        };
        step = allocate_next(cidr, svc, step, won);
    }
}

#[test]
fn a_service_gets_the_lowest_free_address() {
    let svc = json(r#"{"metadata": {"name": "a"}, "spec": {}}"#);
    match settle("10.0.0.0/29", &svc, &["10.0.0.1", "10.0.0.2"]) {
        Step::Done(s) => {
            assert!(s.at("spec").at("clusterIP").is_text("10.0.0.3"));
            assert!(s.at("spec").at("clusterIPs").equals(&json(r#"["10.0.0.3"]"#)));
            assert!(s.at("spec").at("type").is_text("ClusterIP"));
            assert_eq!(release(&s).as_deref(), Some("/registry/serviceipallocations/10.0.0.3"));
            assert_eq!(claim_for(&s).unwrap().key, key("10.0.0.3"));
        }
        _ => panic!("there are free addresses"),
    }
    // The network address and the last one are not handed out.
    match settle("10.0.0.0/30", &svc, &["10.0.0.1", "10.0.0.2"]) {
        Step::Refused(e) => assert_eq!(e.message, "no ClusterIP available in 10.0.0.0/30"),
        _ => panic!("the range is full"),
    }
}

#[test]
fn an_address_that_is_asked_for_is_claimed_or_refused() {
    let fixed = json(r#"{"spec": {"clusterIP": "10.0.0.9"}}"#);
    assert!(matches!(settle("10.0.0.0/29", &fixed, &[]), Step::Done(_)));
    match settle("10.0.0.0/29", &fixed, &["10.0.0.9"]) {
        Step::Refused(e) => assert_eq!(e.message, "ClusterIP 10.0.0.9 is already allocated"),
        _ => panic!("the address is held"),
    }
    let headless = json(r#"{"spec": {"clusterIP": "None"}}"#);
    match allocate("10.0.0.0/29", &headless) {
        Step::Done(s) => assert!(s.at("spec").at("clusterIPs").equals(&json(r#"["None"]"#))),
        _ => panic!("a headless Service has no address"),
    }
    assert_eq!(release(&headless), None);
    let external = json(r#"{"spec": {"type": "ExternalName"}}"#);
    match allocate("10.0.0.0/29", &external) {
        Step::Done(s) => assert!(s.equals(&external)),
        _ => panic!("an ExternalName has no address"),
    }
}

// Storage

#[test]
fn inject_overwrites_stale_resource_version() {
    let mut obj = json(r#"{"metadata": { "name": "x", "resourceVersion": "100" }}"#);
    inject_resource_version(&mut obj, 237_900);
    assert!(obj.at("metadata").at("resourceVersion").is_text("237900"));
}

#[test]
fn strip_removes_resource_version_for_storage() {
    let mut obj =
        json(r#"{"metadata": { "name": "x", "resourceVersion": "237871", "uid": "u" }}"#);
    strip_resource_version(&mut obj);
    assert!(obj.at("metadata").get("resourceVersion").is_none());
    // Other metadata is preserved.
    assert!(obj.at("metadata").at("uid").is_text("u"));
}

#[test]
fn inject_tolerates_missing_metadata() {
    let mut obj = json(r#"{ "kind": "Lease" }"#);
    inject_resource_version(&mut obj, 5);
    assert!(obj.at("metadata").at("resourceVersion").is_text("5"));
}

#[test]
fn what_is_written_is_read_with_its_revision() {
    let obj = json(r#"{"metadata": {"name": "x", "resourceVersion": "1"}, "a": [1, "b", null]}"#);
    let bytes = write_object(&obj).into_bytes();
    let read = fine(read_object("/registry/pods/default/x", Some((&bytes, 7))).unwrap());
    assert!(read.equals(&json(
        r#"{"metadata": {"name": "x", "resourceVersion": "7"}, "a": [1, "b", null]}"#
    )));
    let missing = read_object("/registry/pods/default/x", None).unwrap();
    assert_eq!(failed(missing).status, NOT_FOUND);
    let broken = read_object("/registry/pods/default/x", Some((b"{", 7))).unwrap();
    assert_eq!(failed(broken).status, INTERNAL_SERVER_ERROR);
    assert_eq!(fine(read_list(&vec![bytes])).len(), 1);
    assert_eq!(
        failed(finish_create(obj.dup(), Err(Error::Conflict))).status,
        CONFLICT
    );
    let done = fine(finish_update(obj, Ok(9)));
    assert!(done.at("metadata").at("resourceVersion").is_text("9"));
    assert_eq!(ResourceStorage::namespace_prefix("pods", "a"), "/registry/pods/a/");
}

// Tables

fn cells<'a>(t: &'a Json) -> &'a Json {
    t.at("rows").item(0).at("cells")
}

#[test]
fn a_claim_with_no_status_prints_pending_not_a_blank() {
    let list = json(
        r#"{"items":[{"metadata":{"name":"data","creationTimestamp":"2026-08-28T17:15:20Z"},
                      "spec":{"accessModes":["ReadWriteOnce"]}}]}"#,
    );
    let t = to_table("persistentvolumeclaims", &list);
    assert!(cells(&t).item(0).is_text("data"));
    assert!(cells(&t).item(1).is_text("Pending"));
    assert!(cells(&t).item(4).is_text("RWO"), "access modes are abbreviated");
}

#[test]
fn a_bound_claim_shows_its_volume_and_capacity() {
    let list = json(
        r#"{"items":[{
            "metadata":{"name":"data","creationTimestamp":"2026-08-28T17:15:20Z"},
            "spec":{"accessModes":["ReadWriteOnce"],"volumeName":"pv-1","storageClassName":"storm"},
            "status":{"phase":"Bound","capacity":{"storage":"16Mi"}}}]}"#,
    );
    let t = to_table("persistentvolumeclaims", &list);
    let c = cells(&t);
    assert!(c.item(1).is_text("Bound"));
    assert!(c.item(2).is_text("pv-1"));
    assert!(c.item(3).is_text("16Mi"));
    assert!(c.item(5).is_text("storm"));
}

#[test]
fn the_whole_object_rides_along() {
    let list = json(r#"{"items":[{"metadata":{"name":"x"},"spec":{"nodeName":"n1"}}]}"#);
    let t = to_table("pods", &list);
    assert!(t.at("rows").item(0).at("object").at("spec").at("nodeName").is_text("n1"));
}

#[test]
fn a_resource_with_no_printer_still_prints_name_and_age() {
    let list = json(r#"{"items":[{"metadata":{"name":"thing"}}]}"#);
    let t = to_table("widgets", &list);
    assert_eq!(t.at("columnDefinitions").as_array().unwrap().len(), 2);
    assert!(cells(&t).item(0).is_text("thing"));
}

#[test]
fn a_single_object_is_a_table_of_one_row() {
    let one = json(r#"{"metadata":{"name":"solo"}}"#);
    assert!(can_print("namespaces", &one));
    let t = to_table("namespaces", &one);
    assert_eq!(t.at("rows").as_array().unwrap().len(), 1);
    assert!(cells(&t).item(0).is_text("solo"));
}

#[test]
fn printer_column_paths_resolve_fields_and_indices() {
    let o = json(
        r#"{
            "spec": { "replicas": 3, "name": "web" },
            "status": { "conditions": [{ "type": "Ready", "status": "True" }] }
        }"#,
    );
    assert_eq!(json_path(&o, ".spec.replicas").unwrap().as_i64(), Some(3));
    assert_eq!(json_path(&o, ".spec.name").unwrap().as_str(), Some("web"));
    assert_eq!(
        json_path(&o, ".status.conditions[0].type").unwrap().as_str(),
        Some("Ready")
    );
    assert!(json_path(&o, ".status.conditions[1].type").is_none());
    assert!(json_path(&o, ".spec.missing").is_none());
}

fn column_names(t: &Json) -> Vec<String> {
    t.at("columnDefinitions")
        .as_array()
        .unwrap()
        .iter()
        .map(|c| c.at("name").as_str().unwrap().to_string())
        .collect()
}

#[test]
fn a_crd_prints_the_columns_it_declares() {
    let columns = vec![
        json(r#"{"name": "Endpoint", "type": "string", "jsonPath": ".status.id"}"#),
        json(r#"{"name": "Ready", "type": "string", "jsonPath": ".status.conditions[0].status"}"#),
    ];
    let list = json(
        r#"{"items": [{
            "metadata": {"name": "cep-1"},
            "status": {"id": 42, "conditions": [{"status": "True"}]}
        }]}"#,
    );
    let t = to_table_crd(&list, &columns);
    assert_eq!(column_names(&t), ["Name", "Endpoint", "Ready", "Age"]);
    assert!(cells(&t).item(0).is_text("cep-1"));
    // A number stays a number.
    assert_eq!(cells(&t).item(1).as_i64(), Some(42));
    assert!(cells(&t).item(2).is_text("True"));
    // The whole object rides along, as every Table row must.
    assert!(t.at("rows").item(0).at("object").at("metadata").at("name").is_text("cep-1"));
}

#[test]
fn a_crd_without_columns_still_prints_name_and_age() {
    let list = json(r#"{"items": [{"metadata": {"name": "x"}}]}"#);
    assert_eq!(column_names(&to_table_crd(&list, &vec![])), ["Name", "Age"]);
}

#[test]
fn a_single_custom_resource_is_one_row() {
    let one = json(r#"{"metadata": {"name": "only"}, "spec": {"n": 1}}"#);
    let cols = vec![json(r#"{"name": "N", "type": "integer", "jsonPath": ".spec.n"}"#)];
    let t = to_table_crd(&one, &cols);
    assert_eq!(t.at("rows").as_array().unwrap().len(), 1);
    assert_eq!(cells(&t).item(1).as_i64(), Some(1));
}

#[test]
fn an_age_is_the_time_since_the_creation() {
    let now = Moment { secs: 1_767_225_600 + 3 * 86_400, nanos: 0 };
    let obj = json(r#"{"metadata": {"name": "x", "creationTimestamp": "2026-01-01T00:00:00Z"}}"#);
    assert_eq!(age(&obj, now), "3d");
    let t = to_table_at("configmaps", &obj, now);
    let last = cells(&t).as_array().unwrap().len() - 1;
    assert!(cells(&t).item(last).is_text("3d"));
    assert_eq!(age(&json("{}"), now), "<unknown>");
    assert!(wants_table(Some("application/json;as=Table;v=v1;g=meta.k8s.io")));
    assert!(!wants_table(Some("application/json")));
    assert!(!wants_table(None));
}

// Certificates that are served

#[test]
fn a_certificate_is_replaced_when_its_files_change_and_can_be_used() {
    let made = |name: &str| {
        match generate_server_cert(name, &vec![name.to_string()]) {
            Ok(c) => (c.cert_pem.into_bytes(), c.key_pem.into_bytes()),
            Err(_) => panic!("no certificate"),
        }
    };
    let (cert, key) = made("a");
    let mut watch = CertWatch::new(cert.clone(), key.clone());
    assert!(!watch.changed(Some(&cert), Some(&key)));
    assert!(!watch.changed(None, Some(&key)), "half a rotation is none");
    let (new_cert, new_key) = made("b");
    assert!(watch.changed(Some(&new_cert), Some(&new_key)));
    // What cannot be used is not served.
    assert_eq!(
        watch.reload(b"".to_vec(), new_key.clone()).err().unwrap(),
        "no certificates found in TLS cert PEM"
    );
    assert!(!watch.changed(Some(&cert), Some(&key)));
    assert!(watch.reload(new_cert.clone(), new_key.clone()).is_ok());
    assert!(!watch.changed(Some(&new_cert), Some(&new_key)));
    let material = certified_key(&new_cert, &new_key).ok().unwrap();
    assert_eq!(material.certs.len(), 1);
    assert_eq!(
        certified_key(&new_cert, b"").err().unwrap(),
        "no private key found in TLS key PEM"
    );
    assert_eq!(client_roots(&new_cert).unwrap().len(), 1);
}

/// A PEM of one section whose bytes mean nothing.
fn section(label: &str) -> Vec<u8> {
    format!("-----BEGIN {label}-----\nAAAA\n-----END {label}-----\n").into_bytes()
}

#[test]
fn a_key_that_cannot_sign_is_not_served() {
    let made = match generate_server_cert("a", &vec!["a".to_string()]) {
        Ok(c) => (c.cert_pem.into_bytes(), c.key_pem.into_bytes()),
        Err(_) => panic!("no certificate"),
    };
    let mut watch = CertWatch::new(made.0.clone(), made.1.clone());
    for label in ["PRIVATE KEY", "RSA PRIVATE KEY", "EC PRIVATE KEY"] {
        let key = section(label);
        let e = certified_key(&made.0, &key).err().unwrap();
        assert!(e.starts_with("unusable private key: "), "{label}: {e}");
        assert!(e.contains("failed to parse private key as RSA, ECDSA, or EdDSA"), "{e}");
        assert_eq!(watch.reload(made.0.clone(), key.clone()).err(), Some(e));
        // What is served stays, and the files are tried again.
        assert!(watch.changed(Some(&made.0), Some(&key)));
        assert!(!watch.changed(Some(&made.0), Some(&made.1)));
    }
    let m = certified_key(&made.0, &made.1).ok().unwrap();
    assert!(use_key(m, None).is_ok());
    let m = certified_key(&made.0, &made.1).ok().unwrap();
    assert_eq!(
        use_key(m, Some("no".to_string())).err(),
        Some("unusable private key: no".to_string())
    );
    let halves = vec![Ok(vec![1]), Err("a".to_string()), Err("b".to_string())];
    assert_eq!(
        use_material(halves, Ok(None)).err(),
        Some("parsing server cert: a".to_string())
    );
}

#[test]
fn a_client_ca_holds_trust_anchors() {
    let made = match generate_server_cert("a", &vec!["a".to_string()]) {
        Ok(c) => (c.cert_pem.into_bytes(), c.key_pem.into_bytes()),
        Err(_) => panic!("no certificate"),
    };
    let bad = section("CERTIFICATE");
    let broken = b"-----BEGIN CERTIFICATE-----\nAAAA\n".to_vec();
    let refused = |ca: Vec<Vec<u8>>| client_roots(&ca.concat()).err().unwrap();
    assert_eq!(client_roots(&[made.0.clone(), made.0.clone()].concat()).unwrap().len(), 2);
    assert!(refused(vec![made.0.clone(), bad.clone()]).starts_with("add client CA: "));
    assert!(refused(vec![made.0.clone(), broken.clone()]).starts_with("client CA: "));
    // The first section that fails decides.
    assert!(refused(vec![bad.clone(), broken.clone()]).starts_with("add client CA: "));
    assert_eq!(
        refused(vec![]),
        "client verifier: no root trust anchors were provided"
    );
    assert_eq!(refuse_root(&Ok(vec![]), None), None);
    assert_eq!(
        refuse_root(&Ok(vec![]), Some("x".to_string())),
        Some("add client CA: x".to_string())
    );
    assert_eq!(
        refuse_root(&Err("y".to_string()), None),
        Some("client CA: y".to_string())
    );
    // The client CA is judged before the key.
    let weak = section("PRIVATE KEY");
    let e = server_config(&made.0, &weak, Some(&bad)).err().unwrap();
    assert!(e.starts_with("add client CA: "), "{e}");
    let e = server_config(&made.0, &weak, Some(&made.0)).err().unwrap();
    assert!(e.starts_with("unusable private key: "), "{e}");
    let e = server_config(&made.0, b"", Some(&bad)).err().unwrap();
    assert_eq!(e, "no private key found in TLS key PEM");
    let s = server_config(&made.0, &made.1, Some(&made.0)).ok().unwrap();
    assert_eq!(s.roots.unwrap().len(), 1);
    assert_eq!(s.material.certs.len(), 1);
    assert!(server_config(&made.0, &made.1, None).ok().unwrap().roots.is_none());
}

// Watches

#[test]
fn continue_token_is_percent_decoded() {
    let q = "limit=500&continue=%2Fregistry%2Fnamespaces%2Fsoak-1495";
    let p = WatchParams::from_query(q);
    assert_eq!(p.limit, Some(500));
    assert_eq!(p.continue_token.as_deref(), Some("/registry/namespaces/soak-1495"));
}

#[test]
fn selectors_and_watch_flags_decode() {
    let q =
        "watch=true&labelSelector=app%3Dnginx%2Ctier%3Dweb&fieldSelector=metadata.name%3Dfoo";
    let p = WatchParams::from_query(q);
    assert!(p.watch);
    assert_eq!(p.label_selector.as_deref(), Some("app=nginx,tier=web"));
    assert_eq!(p.field_selector.as_deref(), Some("metadata.name=foo"));
}

#[test]
fn empty_and_missing_values_stay_none() {
    let p = WatchParams::from_query("continue=&labelSelector=");
    assert!(p.continue_token.is_none());
    assert!(p.label_selector.is_none());
    let p = WatchParams::from_query("");
    assert!(!p.watch);
    assert!(p.limit.is_none());
    // Bookmark flags default off.
    assert!(!p.allow_watch_bookmarks);
    assert!(!p.send_initial_events);
}

#[test]
fn watchlist_flags_parse() {
    let q = "watch=true&allowWatchBookmarks=true&sendInitialEvents=true&resourceVersion=";
    let p = WatchParams::from_query(q);
    assert!(p.watch);
    assert!(p.allow_watch_bookmarks);
    assert!(p.send_initial_events);
}

#[test]
fn partial_object_metadata_projection() {
    assert!(wants_partial_metadata(
        "application/json;as=PartialObjectMetadata;g=meta.k8s.io;v=v1"
    ));
    assert!(!wants_partial_metadata("application/json"));
    let full = json(
        r#"{
            "apiVersion": "apiextensions.k8s.io/v1", "kind": "CustomResourceDefinition",
            "metadata": {"name": "ciliumidentities.cilium.io", "resourceVersion": "42"},
            "spec": {"group": "cilium.io"}, "status": {"conditions": []}
        }"#,
    );
    let p = to_partial_object_metadata(&full);
    assert!(p.at("apiVersion").is_text("meta.k8s.io/v1"));
    assert!(p.at("kind").is_text("PartialObjectMetadata"));
    assert!(p.at("metadata").at("name").is_text("ciliumidentities.cilium.io"));
    assert!(p.at("metadata").at("resourceVersion").is_text("42"));
    assert!(p.get("spec").is_none() && p.get("status").is_none(), "spec/status dropped");
}

#[test]
fn initial_events_end_bookmark_is_annotated() {
    let line = render_bookmark(4242, true, "cilium.io/v2", "CiliumIdentity");
    let v = json(line.trim_end());
    assert!(v.at("type").is_text("BOOKMARK"));
    assert!(v.at("object").at("kind").is_text("CiliumIdentity"));
    assert!(v.at("object").at("metadata").at("resourceVersion").is_text("4242"));
    let annotations = v.at("object").at("metadata").at("annotations");
    assert!(annotations.at("k8s.io/initial-events-end").is_text("true"));
    // A plain heartbeat bookmark carries no initial-events-end annotation.
    let hb = render_bookmark(5, false, "v1", "Pod");
    let hv = json(hb.trim_end());
    assert!(hv.at("object").at("metadata").at("annotations").is_null());
}

fn added(name: &str, revision: u64) -> WatchEvent {
    WatchEvent::Added {
        key: format!("/registry/pods/default/{name}"),
        value: format!(r#"{{"metadata":{{"name":"{name}"}}}}"#).into_bytes(),
        revision,
    }
}

fn line(r: Rendered) -> Json {
    match r {
        Rendered::Line(s) => json(s.trim_end()),
        _ => panic!("an event is a line"),
    }
}

#[test]
fn an_event_carries_its_object_and_its_revision() {
    let v = line(render_event(&added("a", 7), true, "v1", "Pod", false, Transform::Same));
    assert!(v.at("type").is_text("ADDED"));
    assert!(v.at("object").at("metadata").at("resourceVersion").is_text("7"));
    let gone = WatchEvent::Deleted {
        key: "/registry/pods/default/a".to_string(),
        revision: 8,
        prev_value: Some(br#"{"metadata":{"name":"a"},"spec":{"x":1}}"#.to_vec()),
    };
    let v = line(render_event(&gone, true, "v1", "Pod", false, Transform::Same));
    assert!(v.at("type").is_text("DELETED"));
    assert_eq!(v.at("object").at("spec").at("x").as_i64(), Some(1));
    assert_eq!(
        split_key("/registry/pods/default/a"),
        (Some("default".to_string()), "a".to_string())
    );
    assert_eq!(split_key("/registry/nodes/a.b"), (None, "a.b".to_string()));
    // A custom resource is stored under its group.
    assert_eq!(
        split_key("/registry/demo.io/widgets/default/a"),
        (Some("default".to_string()), "a".to_string())
    );
    assert_eq!(split_key("/registry/demo.io/widgets/a"), (None, "a".to_string()));
}

#[test]
fn a_watch_tells_the_revision_it_has_reached() {
    let mut s = WatchSession::new("v1", "Pod", true, false, Transform::Same);
    let v = json(s.idle().unwrap().trim_end());
    assert!(v.at("object").at("metadata").at("resourceVersion").is_text("0"));
    line(s.take_event(&added("a", 7), true));
    let v = json(s.idle().unwrap().trim_end());
    assert!(v.at("object").at("metadata").at("resourceVersion").is_text("7"));
    let end = s.end_initial(9);
    assert!(end.contains("initial-events-end"));
    let mut quiet = WatchSession::new("v1", "Pod", false, false, Transform::Same);
    line(quiet.take_event(&added("a", 7), true));
    assert!(quiet.idle().is_none(), "the client did not ask for bookmarks");
}

fn snapshot(keys: &[&str]) -> SortedMap<Vec<u8>> {
    let mut map = SortedMap::new();
    let items = keys.iter().map(|k| (k.to_string(), k.as_bytes().to_vec())).collect();
    add_page(&mut map, items);
    map
}

#[test]
fn pages_follow_each_other() {
    let cache = PrefixCache::new(snapshot(&["/c", "/a", "/b"]), 5);
    let (items, next, rev) = cache.list(2, None);
    assert_eq!(items, vec![b"/a".to_vec(), b"/b".to_vec()]);
    assert_eq!(next.as_deref(), Some("/b"));
    assert_eq!(rev, 5);
    let (items, next, _) = cache.list(2, next.as_deref());
    assert_eq!(items, vec![b"/c".to_vec()]);
    assert_eq!(next, None);
    assert_eq!(cache.list(0, None).0.len(), 3);
}

#[test]
fn the_copy_follows_the_events_and_deletions_carry_the_object() {
    let mut cache = PrefixCache::new(snapshot(&["/registry/pods/default/old"]), 5);
    let (seq, _) = cache.pump(added("a", 6));
    assert_eq!(seq, 1);
    let (seq, gone) = cache.pump(WatchEvent::Deleted {
        key: "/registry/pods/default/old".to_string(),
        revision: 7,
        prev_value: None,
    });
    assert_eq!(seq, 2);
    match gone {
        WatchEvent::Deleted { prev_value, .. } => {
            assert_eq!(prev_value, Some(b"/registry/pods/default/old".to_vec()));
        }
        _ => panic!("a deletion stays one"),
    }
    let (items, _, rev) = cache.list(0, None);
    assert_eq!((items.len(), rev), (1, 7));
    assert!(is_behind(&cache, 8));
    assert!(!is_behind(&cache, 7));
    cache.reseed(snapshot(&[]), 9);
    assert_eq!(cache.list(0, None).2, 9);
}

#[test]
fn a_watcher_gets_every_event_once() {
    let mut cache = PrefixCache::new(snapshot(&[]), 5);
    for rev in 6..10 {
        cache.pump(added("a", rev));
    }
    assert!(cache.backlog(4).is_none(), "from before the cache");
    let backlog = cache.backlog(7).unwrap();
    let revs: Vec<u64> = backlog.iter().map(|(_, e)| e.revision()).collect();
    assert_eq!(revs, [8, 9]);
    let last = backlog.last().unwrap().0;
    // The overlap is not sent again; what comes later is.
    assert!(!admits(last, 7, 4, &added("a", 9)));
    assert!(admits(last, 7, 5, &added("a", 10)));
    assert!(!admits(0, 7, 1, &added("a", 6)));
}

#[test]
fn the_ring_forgets_its_oldest_event() {
    let mut cache = PrefixCache::new(snapshot(&[]), 0);
    for rev in 1..(RING_CAPACITY as u64 + 3) {
        cache.pump(added("a", rev));
    }
    // The first two events are gone: who wants them watches the store.
    assert!(cache.backlog(0).is_none());
    assert!(cache.backlog(1).is_none());
    let backlog = cache.backlog(2).unwrap();
    assert_eq!(backlog.len(), RING_CAPACITY);
    assert_eq!(backlog[0].1.revision(), 3);
}

#[test]
fn a_watch_that_shows_nothing_is_held_against_the_store() {
    assert_eq!(check_round(false, 0), Freshness::Stop);
    assert_eq!(check_round(true, 29), Freshness::Wait);
    assert_eq!(check_round(true, 30), Freshness::Probe);
}
