use rustkube::apimachinery::certs::{
    ca_at, cert_not_after_unix, server_cert_at, CA_VALIDITY_DAYS, LEAF_VALIDITY_DAYS,
};
use rustkube::apimachinery::quantity::{parse_bytes, parse_cpu_millis};
use rustkube::apimachinery::startup::is_complete_pem;
use rustkube::apimachinery::taint::{pod_tolerates, verdict_for, Verdict};
use rustkube::apiserver::auth::Claims;
use rustkube::apiserver::builtin_admission::{default_toleration_seconds, namespace_lifecycle};
use rustkube::apiserver::crd::{
    advance_move, begin_move, establish_at, CrdRegistry, MoveEvent, Moving, Stay,
};
use rustkube::apiserver::discovery::resources_for;
use rustkube::apiserver::error::ApiError;
use rustkube::apiserver::events::{core_to_events, events_to_core};
use rustkube::apiserver::handlers::kinds::{
    resource_to_api_version, resource_to_kind, resource_to_list_kind,
};
use rustkube::apiserver::handlers::patch::apply_patch_body;
use rustkube::apiserver::handlers::token::{issued, token_review};
use rustkube::apiserver::manifests::{documents, group_version};
use rustkube::apiserver::paths::path_resource;
use rustkube::apiserver::protobuf_mw::path_gvk;
use rustkube::apiserver::routes::resource_label;
use rustkube::apiserver::server::server_names;
use rustkube::apiserver::service_ip::{allocate, allocate_next, Step};
use rustkube::apiserver::storage::ResourceStorage;
use rustkube::apiserver::table::{age, elapsed_seconds};
use rustkube::apiserver::watch_cache::PrefixCache;
use rustkube::json::Json;
use rustkube::merge::strategic_merge;
use rustkube::outside::{parse_json, write_json, Moment};
use rustkube::sorted::SortedMap;
use std::cell::Cell;
use std::collections::{BTreeMap, BTreeSet};

fn json(text: &str) -> Json {
    match parse_json(text.as_bytes()) {
        Ok(v) => v,
        Err(e) => panic!("{e}: {text}"),
    }
}

// Quantities and files

#[test]
fn a_binary_suffix_multiplies() {
    let units = [("Ki", 1u64 << 10), ("Mi", 1 << 20), ("Gi", 1 << 30), ("Ti", 1 << 40),
        ("Pi", 1 << 50), ("Ei", 1 << 60)];
    for (suffix, unit) in units {
        assert_eq!(parse_bytes(&format!("3{suffix}")), 3 * unit);
        assert_eq!(parse_bytes(&format!("99999999999999999999{suffix}")), u64::MAX);
    }
}


#[test]
fn a_quantity_is_written_in_digits() {
    for text in ["inf", "-inf", "+Inf", "infinity", "nan", "NaN", "infKi", "nanm", "infinityM"] {
        assert_eq!(parse_bytes(text), 0, "{text}");
        assert_eq!(parse_cpu_millis(text), 0, "{text}");
    }
    assert_eq!(parse_bytes("1e30"), u64::MAX);
    assert_eq!(parse_bytes("1.5Gi"), 1610612736);
}

#[test]
fn every_begin_has_its_own_end() {
    let begin = "-----BEGIN CERTIFICATE-----\n";
    let end = "-----END CERTIFICATE-----\n";
    let whole = |parts: &[&str]| is_complete_pem(parts.concat().as_bytes());
    assert!(whole(&[begin, "MIIB\n", end]));
    assert!(whole(&[begin, end, begin, end]));
    assert!(whole(&[end, begin, end]));
    assert!(!whole(&[end, begin, "MIIB\n"]));
    assert!(!whole(&[begin, begin, end, end]));
    assert!(!whole(&[begin, end, begin]));
    assert!(!whole(&[end]));
}

// Taints

#[test]
fn the_order_of_tolerations_does_not_matter() {
    let taint = json(r#"{"key": "k", "effect": "NoExecute"}"#);
    let tolerates = |list: &[&str]| {
        let pod = json(&format!(r#"{{"spec": {{"tolerations": [{}]}}}}"#, list.join(",")));
        pod_tolerates(&pod, &taint)
    };
    let short = r#"{"key": "k", "operator": "Exists", "tolerationSeconds": 10}"#;
    let long = r#"{"key": "k", "operator": "Exists", "tolerationSeconds": 30}"#;
    let ever = r#"{"operator": "Exists"}"#;
    let other = r#"{"key": "x", "operator": "Exists"}"#;
    assert_eq!(tolerates(&[]), None);
    assert_eq!(tolerates(&[other]), None);
    assert_eq!(tolerates(&[short, long, other]), Some(Some(30)));
    assert_eq!(tolerates(&[other, long, short, long]), Some(Some(30)));
    assert_eq!(tolerates(&[short, ever, long]), Some(None));
    assert_eq!(tolerates(&[ever, long, short]), Some(None));
}

#[test]
fn only_the_age_that_matters_is_asked_for() {
    let pod = json(
        r#"{"spec": {"tolerations": [
            {"key": "a", "operator": "Exists"},
            {"key": "b", "operator": "Exists", "tolerationSeconds": 30}]}}"#,
    );
    let taints = [
        json(r#"{"key": "x", "effect": "NoSchedule"}"#),
        json(r#"{"key": "a", "effect": "NoExecute"}"#),
        json(r#"{"key": "b", "effect": "NoExecute"}"#),
    ];
    let asked = Cell::new(0);
    let verdict = verdict_for(&pod, &taints, |t| {
        assert!(t.at("key").is_text("b"));
        asked.set(asked.get() + 1);
        10
    });
    assert_eq!(verdict, Verdict::EvictIn(20, "b".into()));
    assert_eq!(asked.get(), 1);
}

// Definitions

fn widget(versions: &str) -> Json {
    json(&format!(
        r#"{{"spec": {{"group": "demo.io", "scope": "Namespaced",
            "names": {{"plural": "widgets", "kind": "Widget"}}, "versions": {versions}}}}}"#
    ))
}

#[test]
fn a_version_that_is_not_served_is_not_found() {
    let mut reg = CrdRegistry::new();
    reg.register(&widget(r#"[{"name": "v1", "served": false}]"#));
    assert!(reg.lookup("demo.io", "v1", "widgets").is_none());
    assert!(reg.api_resources("demo.io", "v1").is_empty());
    reg.register(&widget(r#"[{"name": "v2", "served": true}, {"name": "v1", "served": false}]"#));
    assert!(reg.lookup("demo.io", "v2", "widgets").is_some());
    assert!(reg.lookup("demo.io", "v1", "widgets").is_none());

    let mut reg = CrdRegistry::new();
    reg.register(&widget("[]"));
    assert!(reg.lookup("demo.io", "v1", "widgets").is_some());
    let mut reg = CrdRegistry::new();
    reg.register(&widget(r#"[{"served": true}]"#));
    assert!(reg.lookup("demo.io", "v1", "widgets").is_some());
}

// Tokens

#[test]
fn a_review_reports_the_standing_of_the_account() {
    let body = json(r#"{"spec": {"token": "t"}}"#);
    let claims = |sub: &str| Claims {
        sub: sub.into(),
        groups: vec!["system:masters".into()],
        iat: 0,
        exp: 1,
    };
    let review = token_review(&body, Some(claims("system:serviceaccount:default:app")));
    assert!(review.at("status").equals(&json(
        r#"{"authenticated": true, "audiences": null,
            "user": {"username": "system:serviceaccount:default:app",
                     "groups": ["system:serviceaccounts", "system:serviceaccounts:default"]}}"#
    )));
    let review = token_review(&body, Some(claims("jane")));
    assert!(review.at("status").at("user").at("groups").equals(&json(r#"["system:masters"]"#)));
}

#[test]
fn what_was_not_signed_is_no_answer() {
    let doc = issued("n", "a", Some("t".into()), "2026-01-01T00:00:00Z").unwrap();
    assert!(doc.equals(&json(
        r#"{"kind": "TokenRequest", "apiVersion": "authentication.k8s.io/v1",
            "metadata": {"name": "a", "namespace": "n", "creationTimestamp": null},
            "status": {"token": "t", "expirationTimestamp": "2026-01-01T00:00:00Z"}}"#
    )));
    match issued("n", "a", None, "") {
        Err(e) => {
            assert_eq!(e.status, 500);
            assert_eq!(e.message, "failed to sign ServiceAccount token");
        }
        Ok(_) => panic!("an answer without a token"),
    }
}

// Paths

#[test]
fn a_path_names_its_resource() {
    let named = |path: &str| path_resource(path).map(|(v, r)| format!("{v} {r}"));
    assert_eq!(named("/api/v1/pods").unwrap(), "v1 pods");
    assert_eq!(named("/api/v1/namespaces/n/pods/web/log").unwrap(), "v1 pods");
    assert_eq!(named("/api/v1/namespaces").unwrap(), "v1 namespaces");
    assert_eq!(named("/api/v1/namespaces/n").unwrap(), "v1 namespaces");
    assert_eq!(named("/api/v1/namespaces/n/finalize").unwrap(), "v1 namespaces");
    assert_eq!(named("/apis/demo.io/v1/namespaces/n/status").unwrap(), "demo.io/v1 status");
    assert_eq!(named("/apis/demo.io/v1/widgets/pods").unwrap(), "demo.io/v1 widgets");
    for path in ["/", "/api", "/api/v1", "/apis", "/apis/demo.io", "/apis/demo.io/v1", "/healthz"] {
        assert_eq!(named(path), None, "{path}");
    }
}

#[test]
fn the_path_of_the_namespaces_implies_their_kind() {
    let namespace = ("v1".to_string(), "Namespace".to_string());
    assert_eq!(path_gvk("/api/v1/namespaces"), namespace);
    assert_eq!(path_gvk("/api/v1/namespaces/n"), namespace);
    assert_eq!(path_gvk("/api/v1/namespaces/n/status"), namespace);
    assert_eq!(path_gvk("/api/v1"), (String::new(), String::new()));
}

#[test]
fn a_label_is_the_resource_that_is_acted_on() {
    assert_eq!(resource_label("/api/v1/namespaces/default/pods/web"), "pods");
    assert_eq!(resource_label("/api/v1/namespaces/pods/secrets/nodes"), "secrets");
    assert_eq!(resource_label("/api/v1/namespaces"), "namespaces");
    assert_eq!(resource_label("/api/v1/namespaces/pods"), "namespaces");
    assert_eq!(resource_label("/apis/demo.io/v1/widgets/pods"), "discovery");
    assert_eq!(resource_label("/api/v1/namespaces/default/widgets"), "other");
}

// Documents

#[test]
fn a_stream_ends_at_an_error_of_syntax() {
    let read = |text: &str| documents(text).iter().map(write_json).collect::<Vec<_>>();
    assert_eq!(read("a: 1\n---\n---\nb: 2\n"), [r#"{"a":1}"#, r#"{"b":2}"#]);
    assert_eq!(read("a: 1\n---\n{\n---\nb: 2\n"), [r#"{"a":1}"#]);
    assert_eq!(read("a: 1\n---\nb: *nowhere\n---\nc: 3\n"), [r#"{"a":1}"#]);
    assert_eq!(read("a: 1\na: 2\n---\nb: 2\n"), [r#"{"b":2}"#]);
    // An alias that is a document by itself is skipped.
    assert_eq!(read("*nowhere\n---\nb: 2\n"), [r#"{"b":2}"#]);
    assert_eq!(read("a: 1\n---\n*x\n---\n*y\n---\nb: 2\n"), [r#"{"a":1}"#, r#"{"b":2}"#]);
    assert!(read("*x").is_empty());
    assert_eq!(read("unknown anchor\n---\nb: 2\n"), [r#""unknown anchor""#, r#"{"b":2}"#]);
    assert!(read("{").is_empty());
    assert!(read("").is_empty());
}

#[test]
fn operations_that_fail_change_nothing() {
    let mut doc = json(r#"{"a": {"b": 1}}"#);
    let ops = br#"[{"op": "move", "from": "/a/b", "path": "/a"},
                   {"op": "test", "path": "/a", "value": 2}]"#;
    let e = apply_patch_body(&mut doc, "application/json-patch+json", ops).unwrap_err();
    assert_eq!(e.status, 422);
    assert!(e.message.contains("value did not match"), "{}", e.message);
    assert!(doc.equals(&json(r#"{"a": {"b": 1}}"#)));
    let e = apply_patch_body(&mut doc, "application/json-patch+json", br#"{"op": "x"}"#)
        .unwrap_err();
    assert!(e.message.starts_with("invalid JSON Patch: "), "{}", e.message);
}

#[test]
fn what_is_written_is_read_back() {
    for text in [r#"{"a":[1,-2,null,true,"x"],"b":{"c":{}}}"#, "18446744073709551615", r#""""#] {
        let doc = json(text);
        assert_eq!(write_json(&doc), text);
        assert!(json(&write_json(&doc)).equals(&doc));
    }
}

// Times

#[test]
fn seconds_are_counted_towards_zero() {
    let since = |then: &str, secs: i64, nanos: u32| elapsed_seconds(then, Moment { secs, nanos });
    assert_eq!(since("1970-01-01T00:00:10Z", 20, 0), Some(10));
    assert_eq!(since("1970-01-01T00:00:10.5Z", 20, 0), Some(9));
    assert_eq!(since("1970-01-01T00:00:10.5Z", 9, 0), Some(-1));
    assert_eq!(since("1970-01-01T01:00:00+01:00", 0, 999_999_999), Some(0));
    assert_eq!(since("1969-12-31T23:59:59Z", 1, 0), Some(2));
    assert_eq!(since("nonsense", 0, 0), None);
    assert_eq!(since("1970-01-01T00:00:00Z", i64::MAX, 0), None);
    assert_eq!(since("1970-01-01T00:00:00Z", 60, 1_500_000_000), None);
    let days = |then: &str, now: &str, n: u32| {
        let at = chrono::DateTime::parse_from_rfc3339(now).unwrap();
        let then_at = chrono::DateTime::parse_from_rfc3339(then).unwrap();
        let moment = Moment { secs: at.timestamp(), nanos: at.timestamp_subsec_nanos() + n };
        assert_eq!(elapsed_seconds(then, moment), Some((at - then_at).num_seconds()), "{then} {now}");
    };
    days("2016-12-31T23:59:60Z", "2017-01-01T00:00:00Z", 0);
    days("2016-12-31T10:59:60Z", "2017-01-01T11:00:00Z", 0);
    days("2016-12-31T12:00:00Z", "2016-12-31T23:59:60.7Z", 0);
    days("2017-01-02T12:00:00Z", "2016-12-31T10:59:60.7Z", 0);
    days("0000-01-01T00:00:00+23:59", "9999-12-31T23:59:59-23:59", 0);
}

// What is served and what is written

#[test]
fn objects_are_what_discovery_serves() {
    let mut served = 0;
    for group in ["", "apps", "batch", "discovery.k8s.io", "coordination.k8s.io", "storage.k8s.io",
        "rbac.authorization.k8s.io", "certificates.k8s.io", "apiextensions.k8s.io"]
    {
        for (plural, kind, _) in resources_for(group, "v1") {
            assert_eq!(resource_to_kind(plural), kind);
            assert_eq!(resource_to_list_kind(plural), format!("{kind}List"));
            assert_eq!(
                group_version(resource_to_api_version(plural)),
                (group.to_string(), "v1".to_string())
            );
            served += 1;
        }
    }
    assert_eq!(served, 30);
}

// Pages

#[test]
fn the_pages_are_the_copy() {
    let mut copy = SortedMap::new();
    for k in ["/e", "/a", "/c", "/b", "/d"] {
        copy.insert(k, k.as_bytes().to_vec());
    }
    let cache = PrefixCache::new(copy, 7);
    for (limit, sizes) in [(1, vec![1; 5]), (2, vec![2, 2, 1]), (5, vec![5]), (9, vec![5]), (0, vec![5])] {
        let mut all = Vec::new();
        let mut pages = Vec::new();
        let mut token: Option<String> = None;
        loop {
            let (items, next, rev) = cache.list(limit, token.as_deref());
            assert_eq!(rev, 7);
            if let Some(t) = &next {
                assert_eq!(t.as_bytes(), items.last().unwrap());
            }
            pages.push(items.len());
            all.extend(items);
            token = next;
            if token.is_none() {
                break;
            }
        }
        assert_eq!(pages, sizes);
        assert_eq!(all.concat(), b"/a/b/c/d/e");
    }
}

// Addresses

#[test]
fn services_that_claim_side_by_side_get_two_addresses() {
    let cidr = "10.0.0.0/29";
    let svc = |n: usize| json(&format!(r#"{{"metadata": {{"name": "s{n}"}}, "spec": {{}}}}"#));
    let svcs: Vec<Json> = (0..8).map(svc).collect();
    let mut steps: Vec<Option<Step>> = svcs.iter().map(|s| Some(allocate(cidr, s))).collect();
    let mut claimed: BTreeSet<String> = BTreeSet::new();
    let mut given = Vec::new();
    let mut refused = 0;
    // Each Service claims in turn, so that all of them race for each address.
    while steps.iter().any(Option::is_some) {
        for (svc, slot) in svcs.iter().zip(steps.iter_mut()) {
            *slot = match slot.take() {
                Some(Step::Done(v)) => {
                    given.push(v);
                    None
                }
                Some(Step::Refused(e)) => {
                    assert_eq!(e.status, 422);
                    assert_eq!(e.message, "no ClusterIP available in 10.0.0.0/29");
                    refused += 1;
                    None
                }
                Some(step) => {
                    let won = match &step {
                        Step::Fixed(ip) | Step::Try(_, ip) => claimed.insert(ip.clone()),
                        _ => unreachable!(),
                    };
                    Some(allocate_next(cidr, svc, step, won))
                }
                None => None,
            };
        }
    }
    let mut ips: Vec<&str> = given.iter().map(|v| v.at("spec").at("clusterIP").str_or_empty()).collect();
    ips.sort();
    assert_eq!(ips, ["10.0.0.1", "10.0.0.2", "10.0.0.3", "10.0.0.4", "10.0.0.5", "10.0.0.6"]);
    assert_eq!(refused, 2);
    for v in &given {
        let spec = v.at("spec");
        assert!(spec.at("type").is_text("ClusterIP"));
        assert!(spec.at("clusterIPs").item(0).equals(spec.at("clusterIP")));
    }
}

// Migration

fn object(api_version: &str, namespace: &str, name: &str, uid: &str) -> Json {
    json(&format!(
        r#"{{"apiVersion": "{api_version}",
            "metadata": {{"name": "{name}", "namespace": "{namespace}", "uid": "{uid}"}}}}"#
    ))
}

/// Moves what the definitions of a registry are about, and says what was left.
fn migrate(reg: &CrdRegistry, store: &mut BTreeMap<String, Json>) -> Vec<Stay> {
    let mut left = Vec::new();
    for def in reg.definitions() {
        let prefix = ResourceStorage::cluster_prefix(&def.plural);
        let listed: Vec<Json> = store
            .iter()
            .filter(|(k, _)| k.starts_with(&prefix))
            .map(|(_, v)| v.dup())
            .collect();
        for obj in listed {
            let mut step = begin_move(&def, &obj);
            loop {
                let event = match &step {
                    Moving::Create { new_key, .. } if store.contains_key(new_key) => {
                        MoveEvent::Created(Some(ApiError::already_exists("resource", new_key)))
                    }
                    Moving::Create { new_key, .. } => {
                        store.insert(new_key.clone(), obj.dup());
                        MoveEvent::Created(None)
                    }
                    Moving::Look { new_key, .. } => {
                        MoveEvent::Found(store.get(new_key).map(Json::dup))
                    }
                    Moving::Delete { old_key } => {
                        store.remove(old_key);
                        MoveEvent::Deleted(None)
                    }
                    Moving::Moved => break,
                    Moving::Stays(why) => {
                        left.push(*why);
                        break;
                    }
                };
                step = advance_move(step, event, &obj);
            }
        }
    }
    left
}

#[test]
fn a_migration_moves_what_is_its_own_and_nothing_else() {
    let mut reg = CrdRegistry::new();
    for group in ["demo.io", "other.io"] {
        reg.register(&json(&format!(
            r#"{{"spec": {{"group": "{group}", "scope": "Namespaced",
                "names": {{"plural": "events", "kind": "Event"}},
                "versions": [{{"name": "v1"}}, {{"name": "v2"}}]}}}}"#
        )));
    }
    let mut store: BTreeMap<String, Json> = BTreeMap::new();
    let mut put = |key: &str, obj: Json| {
        store.insert(key.to_string(), obj);
    };
    put("/registry/events/n/a", object("demo.io/v1", "n", "a", "1"));
    put("/registry/events/n/b", object("other.io/v2", "n", "b", "2"));
    put("/registry/events/n/c", object("v1", "n", "c", "3"));
    put("/registry/events/n/d", object("demo.io/v1", "n", "d", "4"));
    put("/registry/demo.io/events/n/d", object("demo.io/v1", "n", "d", "5"));
    put("/registry/events/n/e", object("demo.io/v1", "n", "e", "6"));
    put("/registry/demo.io/events/n/e", object("demo.io/v1", "n", "e", "6"));
    put("/registry/pods/n/p", object("v1", "n", "p", "7"));
    let before = store.len();
    migrate(&reg, &mut store);
    let held: Vec<(&str, &str)> = store
        .iter()
        .map(|(k, v)| (k.as_str(), v.at("metadata").at("uid").str_or_empty()))
        .collect();
    let want = [
        ("/registry/demo.io/events/n/a", "1"),
        ("/registry/demo.io/events/n/d", "5"),
        ("/registry/demo.io/events/n/e", "6"),
        ("/registry/events/n/c", "3"),
        ("/registry/events/n/d", "4"),
        ("/registry/other.io/events/n/b", "2"),
        ("/registry/pods/n/p", "7"),
    ];
    assert_eq!(held, want);
    assert_eq!(store.len(), before - 1, "the stale copy alone is gone");
    let left = migrate(&reg, &mut store);
    assert_eq!(left.iter().filter(|s| **s == Stay::Taken).count(), 1);
    let again: Vec<&str> = store.keys().map(String::as_str).collect();
    assert_eq!(again, want.map(|w| w.0));
}

// What is written last holds

#[test]
fn the_registry_follows_the_last_write() {
    let widget = |versions: &str| {
        json(&format!(
            r#"{{"spec": {{"group": "demo.io", "scope": "Namespaced", "versions": {versions},
                "names": {{"plural": "widgets", "kind": "Widget"}}}}}}"#
        ))
    };
    let mut reg = CrdRegistry::new();
    reg.register(&json(
        r#"{"spec": {"group": "other.io", "versions": [{"name": "v1"}],
            "names": {"plural": "widgets", "kind": "Widget"}}}"#,
    ));
    reg.register(&widget(r#"[{"name": "v1"}, {"name": "v2"}]"#));
    assert!(reg.lookup("demo.io", "v1", "widgets").is_some());
    // A version that is listed as not served goes; one that is not listed stays.
    reg.register(&widget(r#"[{"name": "v1", "served": false}, {"name": "v3"}]"#));
    assert!(reg.lookup("demo.io", "v1", "widgets").is_none());
    assert!(reg.lookup("demo.io", "v2", "widgets").is_some());
    assert!(reg.lookup("demo.io", "v3", "widgets").is_some());
    assert!(reg.lookup("other.io", "v1", "widgets").is_some());
}

#[test]
fn only_a_served_version_counts_as_stored() {
    let mut crd = json(
        r#"{"spec": {"group": "demo.io", "names": {"plural": "widgets", "kind": "Widget"},
            "versions": [{"name": "v1", "served": false}, {"name": "v2"}, {"name": "v3"}]}}"#,
    );
    establish_at(&mut crd, "T");
    let stored = crd.at("status").at("storedVersions");
    assert!(stored.equals(&json(r#"["v2", "v3"]"#)));
}

#[test]
fn a_null_in_a_strategic_patch_leaves_nothing() {
    let mut obj = json(r#"{"spec": {"a": {"x": 1, "y": 2}, "b": 3}}"#);
    strategic_merge(
        &mut obj,
        &json(r#"{"spec": {"a": {"x": null}, "b": {"z": null}, "c": {"d": {"e": null, "f": 1}}}}"#),
    );
    assert!(obj.equals(&json(r#"{"spec": {"a": {"y": 2}, "b": {}, "c": {"d": {"f": 1}}}}"#)));
}

// Certificates

#[test]
fn a_certificate_can_be_made_at_any_time_of_the_calendar() {
    // The first seconds of 1970, before 1970, before 1950, and behind 2050.
    for now in [0, 10, -100_000, -1_000_000_000, 3_000_000_000] {
        let leaf = match server_cert_at("a", &vec!["a".to_string()], now) {
            Ok(c) => c,
            Err(_) => panic!("no certificate at {now}"),
        };
        let end = now + LEAF_VALIDITY_DAYS * 86_400;
        assert_eq!(cert_not_after_unix(leaf.cert_pem.as_bytes()), Some(end));
        let ca = match ca_at("a", now) {
            Ok(c) => c,
            Err(_) => panic!("no authority at {now}"),
        };
        let end = now + CA_VALIDITY_DAYS * 86_400;
        assert_eq!(cert_not_after_unix(ca.cert_pem.as_bytes()), Some(end));
    }
}

#[test]
fn a_server_names_itself_as_its_clients_do() {
    assert_eq!(
        server_names(),
        [
            "kubernetes",
            "kubernetes.default",
            "kubernetes.default.svc",
            "kubernetes.default.svc.cluster.local",
            "localhost"
        ]
    );
}

// Admission

#[test]
fn a_namespace_that_is_being_deleted_takes_nothing_in() {
    let marked = json(
        r#"{"metadata": {"name": "x", "deletionTimestamp": "2020-01-01T00:00:00Z"},
            "status": {"phase": "Active"}}"#,
    );
    match namespace_lifecycle("x", Some(marked)) {
        Err(e) => assert_eq!(
            e.message,
            "unable to create new content in namespace x because it is being terminated"
        ),
        Ok(_) => panic!("the namespace is on its way out"),
    }
}

#[test]
fn a_pod_that_tolerates_only_the_scheduling_gets_its_five_minutes() {
    let mut pod = json(
        r#"{"spec": {"tolerations": [
            {"key": "node.kubernetes.io/not-ready", "effect": "NoSchedule"},
            {"key": "node.kubernetes.io/unreachable", "operator": "Exists"}]}}"#,
    );
    default_toleration_seconds(&mut pod);
    let tolerations = pod.at("spec").at("tolerations").as_array().unwrap();
    assert_eq!(tolerations.len(), 3);
    assert!(tolerations[2].equals(&json(
        r#"{"key": "node.kubernetes.io/not-ready", "operator": "Exists",
            "effect": "NoExecute", "tolerationSeconds": 300}"#
    )));
}

// Events

#[test]
fn an_event_reads_back_as_it_was_written() {
    let written = json(
        r#"{"apiVersion": "events.k8s.io/v1", "kind": "Event", "metadata": {"name": "e"},
            "regarding": {"kind": "Pod"}, "note": "started", "reason": "Started",
            "reportingController": "kubelet", "reportingInstance": "node-a",
            "series": {"count": 3, "lastObservedTime": "T2"}, "deprecatedCount": 3,
            "deprecatedFirstTimestamp": "T0", "deprecatedLastTimestamp": "T1"}"#,
    );
    let read = core_to_events(events_to_core(written.dup()));
    for key in [
        "apiVersion",
        "kind",
        "metadata",
        "regarding",
        "note",
        "reason",
        "reportingController",
        "reportingInstance",
        "series",
        "deprecatedCount",
        "deprecatedFirstTimestamp",
        "deprecatedLastTimestamp",
    ] {
        assert!(read.at(key).equals(written.at(key)), "{key}");
    }
    let core = json(
        r#"{"apiVersion": "v1", "kind": "Event", "involvedObject": {"kind": "Pod"},
            "message": "started", "reportingComponent": "kubelet", "reportingInstance": "node-a",
            "source": {"component": "other"}, "count": 2, "lastTimestamp": "T1"}"#,
    );
    assert!(events_to_core(core_to_events(core.dup())).equals(&core));
}

// Ages

#[test]
fn an_object_without_a_time_has_no_age() {
    let now = Moment { secs: 1_700_000_000, nanos: 0 };
    for text in ["{}", r#"{"metadata": {}}"#, r#"{"metadata": {"creationTimestamp": null}}"#] {
        assert_eq!(age(&json(text), now), "<unknown>");
    }
    let made = json(r#"{"metadata": {"creationTimestamp": "2023-11-14T22:13:10Z"}}"#);
    assert_eq!(age(&made, now), "10s");
}
