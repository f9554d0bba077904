use rustkube::apiserver::auth::{SigningKeys, UserInfo};
use rustkube::apiserver::crd::{custom_resource, CrdRegistry};
use rustkube::apiserver::error::{
    ApiError, BAD_REQUEST, CONFLICT, INTERNAL_SERVER_ERROR, NOT_FOUND, UNPROCESSABLE_ENTITY,
};
use rustkube::apiserver::handlers::authorization::{
    check_namespace, decide, opt_str_at, question, review, rules_review, str_at, subject_of,
    Question,
};
use rustkube::apiserver::handlers::delete::{
    check_preconditions, finalize_namespace, parse_delete_options, perform_delete,
    terminate_namespace, DeleteAction,
};
use rustkube::apiserver::handlers::kinds::{
    resource_to_api_version, resource_to_kind, resource_to_list_kind,
};
use rustkube::apiserver::handlers::kubevirt::{
    door, node_of, ok, set_running, vm_restart, vm_restarted,
};
use rustkube::apiserver::handlers::logs::{
    log_request, log_url, node_address, pick_container, pod_logs,
};
use rustkube::apiserver::handlers::patch::{
    after_patch, applies_again, apply_params, apply_patch_body, apply_status_patch,
    check_version, mutate_stored, patch_precondition, patch_retry_pause, replace_status, retries,
    seal_update, status_precondition, AfterPatch,
};
use rustkube::apiserver::handlers::project::{
    admin_binding, apply_project_update, bootstrap_cluster_role_bindings,
    bootstrap_cluster_roles, check_update, is_member, is_reserved, namespace_to_project,
    project_creation, project_namespace, project_request, validate_name, visible_projects,
    Candidate, ADMIN_BINDING, API_VERSION, DESCRIPTION, DISPLAY_NAME, REQUESTER,
};
use rustkube::apiserver::handlers::resource::{
    ensure_metadata, list_document, persist_or_finalize, project_list, replace_object,
    revision_of, to_partial_object_metadata, Persist,
};
use rustkube::apiserver::handlers::streaming::{
    body_length, find_head_end, head_step, is_upgraded, parse_head, pod_attach, pod_exec,
    name_or_loopback, pod_portforward, portforward_query, refusal_status, refusal_text,
    response_headers, stream_query, tls_name, upgrade_head, wants_more, MAX_HEAD,
};
use rustkube::apiserver::handlers::token::{create_serviceaccount_token, create_token_review};
use rustkube::apiserver::rbac_engine::{rule_matches, subjects_match, AuthorizationRequest};
use rustkube::apiserver::storage::{
    inject_resource_version, read_object, write_object, ResourceStorage,
};
use rustkube::apiserver::test_store::MemStore;
use rustkube::json::Json;
use rustkube::merge::strategic_merge;
use rustkube::outside::parse_json;

fn json(text: &str) -> Json {
    match parse_json(text.as_bytes()) {
        Ok(v) => v,
        Err(e) => panic!("{e}: {text}"),
    }
}

fn failed<T>(r: Result<T, ApiError>) -> ApiError {
    match r {
        Ok(_) => panic!("should have failed"),
        Err(e) => e,
    }
}

fn fine<T>(r: Result<T, ApiError>) -> T {
    match r {
        Ok(v) => v,
        Err(e) => panic!("{}", e.message),
    }
}

// Patches

const MERGE: &str = "application/merge-patch+json";
const STRATEGIC: &str = "application/strategic-merge-patch+json";
const JSON_PATCH: &str = "application/json-patch+json";

#[test]
fn merge_patch_updates_and_deletes_fields() {
    // RFC 7386: null removes a key, objects merge recursively.
    let mut obj = json(r#"{"spec":{"replicas":1,"paused":true},"status":{"phase":"A"}}"#);
    fine(apply_patch_body(&mut obj, MERGE, br#"{"spec":{"replicas":3,"paused":null}}"#));
    assert_eq!(obj.at("spec").at("replicas").as_i64(), Some(3));
    assert!(obj.at("spec").get("paused").is_none(), "null must delete the key");
    assert!(obj.at("status").at("phase").is_text("A"), "untouched fields survive");
}

fn condition<'a>(status: &'a Json, kind: &str) -> &'a Json {
    let conditions = status.at("conditions").as_array().unwrap();
    conditions.iter().find(|c| c.at("type").is_text(kind)).unwrap()
}

#[test]
fn strategic_merge_conditions_by_type() {
    let mut status = json(
        r#"{"conditions": [
            {"type": "Ready", "status": "True"},
            {"type": "MemoryPressure", "status": "False"}
        ]}"#,
    );
    let patch = json(
        r#"{"conditions": [
            {"type": "NetworkUnavailable", "status": "False", "reason": "CiliumIsUp"},
            {"type": "Ready", "status": "True", "reason": "KubeletReady"}
        ]}"#,
    );
    strategic_merge(&mut status, &patch);
    assert_eq!(
        status.at("conditions").as_array().unwrap().len(),
        3,
        "Ready, MemoryPressure preserved + NetworkUnavailable added"
    );
    assert!(condition(&status, "MemoryPressure").at("status").is_text("False"));
    assert!(condition(&status, "NetworkUnavailable").at("reason").is_text("CiliumIsUp"));
    // The Ready entry is merged in place, not duplicated.
    assert!(condition(&status, "Ready").at("reason").is_text("KubeletReady"));
}

#[test]
fn json_patch_test_empty_list_on_absent_path_also_holds() {
    for guard in ["[]", "null", "{}"] {
        let mut node = json(r#"{"spec": {"podCIDR": "10.244.0.0/24"}}"#);
        let body = format!(
            r#"[{{"op":"test","path":"/spec/taints","value":{guard}}},
                {{"op":"add","path":"/spec/taints","value":[{{"key":"node.cilium.io/agent-not-ready","effect":"NoSchedule"}}]}}]"#
        );
        if let Err(e) = apply_patch_body(&mut node, JSON_PATCH, body.as_bytes()) {
            panic!("guard {guard} should hold: {}", e.message);
        }
        let first = node.at("spec").at("taints").item(0);
        assert!(first.at("key").is_text("node.cilium.io/agent-not-ready"));
    }

    // A non-empty test value against an absent path must still fail.
    let mut n = json(r#"{"spec": {}}"#);
    assert!(apply_patch_body(
        &mut n,
        JSON_PATCH,
        br#"[{"op":"test","path":"/spec/taints","value":[{"key":"x"}]}]"#,
    )
    .is_err());
}

#[test]
fn json_patch_replace_on_an_absent_member_adds_it() {
    let mut node = json(r#"{"spec": {}}"#);
    fine(apply_patch_body(
        &mut node,
        JSON_PATCH,
        br#"[{"op":"replace","path":"/spec/taints","value":[{"key":"k"}]}]"#,
    ));
    assert!(node.at("spec").at("taints").item(0).at("key").is_text("k"));

    // But not when the parent is missing too.
    let mut empty = json("{}");
    assert!(apply_patch_body(
        &mut empty,
        JSON_PATCH,
        br#"[{"op":"replace","path":"/spec/taints","value":[]}]"#,
    )
    .is_err());
}

#[test]
fn a_rejected_patch_says_what_the_patch_was() {
    let mut obj = json(r#"{"spec": {"taints": [{"key": "real"}]}}"#);
    let err = failed(apply_patch_body(
        &mut obj,
        JSON_PATCH,
        br#"[{"op":"test","path":"/spec/taints","value":[{"key":"other"}]}]"#,
    ));
    assert!(err.message.contains("patch was:"), "{}", err.message);
    assert!(err.message.contains("/spec/taints"), "{}", err.message);
}

#[test]
fn json_patch_test_null_on_absent_path_holds() {
    let mut node = json(r#"{"spec": {"podCIDR": "10.244.0.0/24"}}"#);
    fine(apply_patch_body(
        &mut node,
        JSON_PATCH,
        br#"[{"op":"test","path":"/spec/taints","value":null},
             {"op":"add","path":"/spec/taints","value":[{"key":"node.cilium.io/agent-not-ready","effect":"NoSchedule"}]}]"#,
    ));
    let first = node.at("spec").at("taints").item(0);
    assert!(first.at("key").is_text("node.cilium.io/agent-not-ready"));

    // A `test null` against a path that is there and not null must still fail.
    let mut n2 = json(r#"{"spec": {"taints": [{"key": "x"}]}}"#);
    assert!(apply_patch_body(
        &mut n2,
        JSON_PATCH,
        br#"[{"op":"test","path":"/spec/taints","value":null}]"#,
    )
    .is_err());
}

#[test]
fn json_patch_rfc6902_applies_ops() {
    let mut obj = json(r#"{"spec":{"replicas":1}}"#);
    fine(apply_patch_body(
        &mut obj,
        JSON_PATCH,
        br#"[{"op":"replace","path":"/spec/replicas","value":5}]"#,
    ));
    assert_eq!(obj.at("spec").at("replicas").as_i64(), Some(5));
}

#[test]
fn content_type_params_and_default_are_handled() {
    // A charset must not break dispatch; an absent type defaults to merge.
    let mut obj = json(r#"{"a":1}"#);
    fine(apply_patch_body(
        &mut obj,
        "application/merge-patch+json; charset=utf-8",
        br#"{"a":2}"#,
    ));
    assert_eq!(obj.at("a").as_i64(), Some(2));
    fine(apply_patch_body(&mut obj, "", br#"{"a":3}"#));
    assert_eq!(obj.at("a").as_i64(), Some(3));
}

#[test]
fn malformed_patch_is_an_error_not_a_panic() {
    let mut obj = json(r#"{"a":1}"#);
    assert!(apply_patch_body(&mut obj, MERGE, b"not json").is_err());
    assert!(apply_patch_body(&mut obj, JSON_PATCH, b"{}").is_err());
    assert!(obj.equals(&json(r#"{"a":1}"#)));
}

#[test]
fn a_status_patch_with_null_removes_a_field() {
    let mut obj = json(r#"{"spec":{"x":1},"status":{"phase":"A","reason":"r"}}"#);
    fine(apply_status_patch(&mut obj, MERGE, br#"{"spec":{"x":2},"status":{"reason":null}}"#));
    assert!(obj.equals(&json(r#"{"spec":{"x":1},"status":{"phase":"A"}}"#)));
}

#[test]
fn a_merge_patch_without_a_resource_version_is_unconditional() {
    assert_eq!(patch_precondition(MERGE, br#"{"metadata":{"labels":{"t":"v"}}}"#), None);
    assert_eq!(patch_precondition(MERGE, br#"{"status":{"x":1}}"#), None);
}

#[test]
fn a_resource_version_in_the_body_is_the_precondition() {
    let body = br#"{"metadata":{"resourceVersion":"42"},"spec":{"online":true}}"#;
    assert_eq!(patch_precondition(MERGE, body).as_deref(), Some("42"));
    assert_eq!(
        patch_precondition("application/strategic-merge-patch+json; charset=utf-8", body)
            .as_deref(),
        Some("42")
    );
}

#[test]
fn server_side_apply_reads_its_yaml_body() {
    let body =
        b"apiVersion: v1\nkind: ConfigMap\nmetadata:\n  name: x\n  resourceVersion: \"7\"\n";
    assert_eq!(patch_precondition("application/apply-patch+yaml", body).as_deref(), Some("7"));
    let body = b"apiVersion: v1\nkind: ConfigMap\nmetadata:\n  name: x\n";
    assert_eq!(patch_precondition("application/apply-patch+yaml", body), None);
}

#[test]
fn a_json_patch_states_its_conditions_as_tests() {
    let body = br#"[{"op":"test","path":"/metadata/resourceVersion","value":"3"}]"#;
    assert_eq!(patch_precondition(JSON_PATCH, body), None);
}

#[test]
fn retry_pauses_stay_inside_a_doubling_window_capped_at_200ms() {
    for (attempt, window) in
        [(1, 10), (2, 20), (3, 40), (4, 80), (5, 160), (6, 200), (40, 200)]
    {
        for _ in 0..200 {
            assert!(patch_retry_pause(attempt) < window, "attempt {attempt}");
        }
    }
}

#[test]
fn an_empty_resource_version_is_no_precondition() {
    assert_eq!(patch_precondition(MERGE, br#"{"metadata":{"resourceVersion":""}}"#), None);
}

#[test]
fn apply_parameters_come_from_the_query() {
    assert_eq!(
        apply_params("fieldManager=a%20b&force=true"),
        ("a b".to_string(), true)
    );
    assert_eq!(apply_params("force=0"), ("apply".to_string(), false));
}

#[test]
fn only_a_conflict_is_tried_again_and_not_for_ever() {
    let conflict = ApiError::conflict("moved on");
    assert!(retries(&conflict, 0));
    assert!(!retries(&conflict, 30_001));
    assert!(!retries(&ApiError::internal("x"), 0));
}

#[test]
fn an_apply_of_what_is_missing_creates_it() {
    let missing = ApiError::not_found("configmaps", "x");
    assert!(matches!(
        after_patch("application/apply-patch+yaml", Some(&missing)),
        AfterPatch::Create
    ));
    assert!(!matches!(after_patch(MERGE, Some(&missing)), AfterPatch::Create));
    assert!(applies_again(&ApiError::already_exists("configmaps", "x"), 0));
    assert!(!applies_again(&ApiError::internal("x"), 0));
}

#[test]
fn a_patch_that_is_applied_records_its_manager() {
    let body = b"apiVersion: v1\nkind: ConfigMap\nmetadata:\n  name: x\ndata:\n  a: b\n";
    let made = mutate_stored(
        json(r#"{"metadata":{"name":"x","uid":"u1"}}"#),
        "application/apply-patch+yaml",
        body,
        "me",
        "T",
        false,
    );
    let obj = fine(made.unwrap());
    assert!(obj.at("data").at("a").is_text("b"));
    assert!(obj.at("metadata").at("managedFields").item(0).at("manager").is_text("me"));
}

// Deletion

#[test]
fn delete_options_parse_and_preconditions() {
    let opts = parse_delete_options(
        br#"{"gracePeriodSeconds":30,"propagationPolicy":"Foreground",
             "preconditions":{"uid":"abc","resourceVersion":"42"},"dryRun":["All"]}"#,
    );
    assert_eq!(opts.grace_period_seconds, Some(30));
    assert_eq!(opts.propagation_policy.as_deref(), Some("Foreground"));
    assert!(opts.dry_run);

    let obj = json(r#"{"metadata": {"uid": "abc", "resourceVersion": "42"}}"#);
    assert!(check_preconditions(&obj, &opts).is_ok());
    // A uid mismatch is a Conflict.
    let bad = parse_delete_options(br#"{"preconditions":{"uid":"WRONG"}}"#);
    assert_eq!(failed(check_preconditions(&obj, &bad)).status, CONFLICT);
    // Empty body: defaults, and no preconditions.
    let empty = parse_delete_options(b"");
    assert!(empty.propagation_policy.is_none() && !empty.dry_run);
    assert!(check_preconditions(&obj, &empty).is_ok());
}

#[test]
fn a_deletion_waits_for_finalizers() {
    let opts = parse_delete_options(b"");
    let held = json(r#"{"metadata": {"name": "x", "finalizers": ["a/b"]}}"#);
    let action = fine(perform_delete(held, &opts, "x", None, "Node", "T"));
    match action {
        DeleteAction::Mark(obj, _) => {
            assert!(obj.at("metadata").at("deletionTimestamp").is_text("T"));
        }
        _ => panic!("an object with finalizers is marked, not removed"),
    }
    let free = json(r#"{"metadata": {"name": "x"}}"#);
    assert!(matches!(
        fine(perform_delete(free, &opts, "x", None, "Node", "T")),
        DeleteAction::Remove { .. }
    ));
}

#[test]
fn a_namespace_ends_through_its_finalizer() {
    let opts = parse_delete_options(b"");
    let ns = json(r#"{"metadata": {"name": "x"}, "spec": {"finalizers": ["kubernetes"]}}"#);
    match fine(terminate_namespace(ns, &opts, "T")) {
        DeleteAction::Mark(obj, _) => {
            assert!(obj.at("status").at("phase").is_text("Terminating"));
            let done = finalize_namespace(obj, &json(r#"{"spec": {"finalizers": []}}"#));
            assert!(matches!(done, DeleteAction::Remove { .. }));
        }
        _ => panic!("a namespace is terminated before it goes"),
    }
}

// Objects

#[test]
fn a_zero_valued_uid_and_timestamp_are_assigned() {
    let mut v = json(
        r#"{"metadata": {"name": "web", "uid": "", "creationTimestamp": null,
                         "generation": 0, "selfLink": ""}}"#,
    );
    ensure_metadata(&mut v, "web", Some("demo"));
    assert!(!v.at("metadata").at("uid").as_str().unwrap().is_empty());
    assert!(!v.at("metadata").at("creationTimestamp").as_str().unwrap().is_empty());

    // A uid that the server gave is kept.
    let mut v = json(
        r#"{"metadata": {"name": "web", "uid": "u1",
                         "creationTimestamp": "2026-01-01T00:00:00Z"}}"#,
    );
    ensure_metadata(&mut v, "web", None);
    assert!(v.at("metadata").at("uid").is_text("u1"));
    assert!(v.at("metadata").at("creationTimestamp").is_text("2026-01-01T00:00:00Z"));
}

#[test]
fn ensure_metadata_never_panics_on_bad_shapes() {
    // Top-level body not an object (array / scalar / null).
    for text in ["[1, 2, 3]", "\"nope\"", "42", "null"] {
        let mut v = json(text);
        ensure_metadata(&mut v, "x", Some("default"));
        assert!(v.equals(&json(text)));
    }
    // metadata present but not an object: coerced, then populated.
    let mut v = json(r#"{"metadata": "not-an-object", "status": {"phase": "Failed"}}"#);
    ensure_metadata(&mut v, "pod1", Some("default"));
    assert!(v.at("metadata").at("name").is_text("pod1"));
    assert!(v.at("metadata").at("namespace").is_text("default"));

    // metadata as an array: coerced to an object.
    let mut v = json(r#"{"metadata": []}"#);
    ensure_metadata(&mut v, "pod2", None);
    assert!(v.at("metadata").is_object());
    assert!(v.at("metadata").at("name").is_text("pod2"));
}

#[test]
fn kubelet_pod_status_put_shape_is_safe() {
    let mut pod = json(
        r#"{
            "apiVersion": "v1",
            "kind": "Pod",
            "metadata": {"name": "test", "namespace": "default"},
            "spec": {"nodeName": "rknode1"},
            "status": {
                "phase": "Failed",
                "conditions": [{"type": "Ready", "status": "False"}],
                "containerStatuses": [{
                    "name": "c", "ready": false, "restartCount": 0,
                    "state": {"terminated": {"exitCode": 1, "reason": "Error"}}
                }]
            }
        }"#,
    );
    ensure_metadata(&mut pod, "test", Some("default"));
    assert!(pod.at("status").at("phase").is_text("Failed"));
}

#[test]
fn csi_and_group_resources_map_to_proper_kinds() {
    assert_eq!(resource_to_list_kind("storageclasses"), "StorageClassList");
    assert_eq!(resource_to_list_kind("csidrivers"), "CSIDriverList");
    assert_eq!(resource_to_list_kind("csinodes"), "CSINodeList");
    assert_eq!(resource_to_list_kind("volumeattachments"), "VolumeAttachmentList");
    assert_eq!(resource_to_list_kind("csistoragecapacities"), "CSIStorageCapacityList");
    assert_eq!(resource_to_list_kind("endpointslices"), "EndpointSliceList");
    assert_eq!(resource_to_kind("nodes"), "Node");
    assert_eq!(resource_to_api_version("deployments"), "apps/v1");
    assert_eq!(resource_to_api_version("pods"), "v1");
}

#[test]
fn a_list_says_its_revision_and_its_token() {
    let list = list_document("v1", "PodList", 7, vec![json(r#"{"a":1}"#)], Some("next"));
    assert!(list.at("metadata").at("resourceVersion").is_text("7"));
    assert!(list.at("metadata").at("continue").is_text("next"));
    let metadata = project_list(list, true);
    assert!(metadata.at("kind").is_text("PartialObjectMetadataList"));
    let one = to_partial_object_metadata(&json(r#"{"metadata":{"name":"x"},"spec":{}}"#));
    assert!(one.get("spec").is_none());
}

#[test]
fn an_object_without_finalizers_that_is_ending_is_removed() {
    let gone = json(r#"{"metadata":{"deletionTimestamp":"T","finalizers":[]}}"#);
    assert!(matches!(persist_or_finalize(&gone), Persist::Delete(_)));
    let kept = json(r#"{"metadata":{"deletionTimestamp":"T","finalizers":["x"]}}"#);
    assert!(!matches!(persist_or_finalize(&kept), Persist::Delete(_)));
    // A namespace is held by the finalizers of its `spec`, a custom object is not.
    let held = r#"{"apiVersion":"v1","kind":"Namespace","metadata":{"deletionTimestamp":"T"},
        "spec":{"finalizers":["kubernetes"]}}"#;
    assert!(matches!(persist_or_finalize(&json(held)), Persist::Update(_)));
    let cleared = held.replace(r#"["kubernetes"]"#, "[]");
    assert!(matches!(persist_or_finalize(&json(&cleared)), Persist::Delete(_)));
    let custom = held.replace(r#""v1""#, r#""demo.io/v1""#);
    assert!(matches!(persist_or_finalize(&json(&custom)), Persist::Delete(_)));
}

// A store, and the writes that depend on a revision

fn create(store: &mut MemStore, key: &str, obj: &str) -> Json {
    let obj = json(obj);
    let rev = store.put(key, write_object(&obj).into_bytes(), Some(0)).unwrap();
    let mut stored = obj;
    inject_resource_version(&mut stored, rev);
    stored
}

fn get(store: &MemStore, key: &str) -> Result<Json, ApiError> {
    match store.get(key) {
        Some((bytes, rev)) => read_object(key, Some((&bytes, rev))).unwrap(),
        None => read_object(key, None).unwrap(),
    }
}

fn update(store: &mut MemStore, key: &str, obj: Json) -> Result<Json, ApiError> {
    let rev = revision_of(&obj);
    match store.put(key, write_object(&obj).into_bytes(), rev) {
        Ok(rev) => {
            let mut out = obj;
            inject_resource_version(&mut out, rev);
            Ok(out)
        }
        Err(_) => Err(ApiError::conflict("resource version mismatch")),
    }
}

fn put_status(store: &mut MemStore, key: &str, body: &Json) -> Result<Json, ApiError> {
    let fresh = get(store, key)?;
    check_version(&fresh, status_precondition(body).as_deref())?;
    let changed = replace_status(fresh.dup(), body);
    update(store, key, seal_update(&fresh, changed)?)
}

fn status_body(rv: Option<&str>, phase: &str) -> Json {
    // A status PUT carries the whole object; nothing but status may land.
    let mut meta = Json::object();
    if let Some(rv) = rv {
        meta = meta.with("resourceVersion", Json::text(rv));
    }
    Json::object()
        .with("metadata", meta)
        .with("spec", json(r#"{ "x": 999 }"#))
        .with("status", Json::object().with("phase", Json::text(phase)))
}

fn phase(store: &MemStore, key: &str) -> String {
    fine(get(store, key)).at("status").at("phase").str_or_empty().to_string()
}

/// One status writer is one version behind another; then the one that is
/// current; then one that names no version at all.
fn scenario(key: &str) {
    let mut store = MemStore::new();
    let v1 = create(
        &mut store,
        key,
        r#"{ "metadata": { "name": "o" }, "spec": { "x": 1 }, "status": { "phase": "A" } }"#,
    );
    let rv1 = v1.at("metadata").at("resourceVersion").as_str().unwrap().to_string();

    // Another writer moves the status on.
    let other = replace_status(v1, &json(r#"{"status": {"phase": "B"}}"#));
    let v2 = fine(update(&mut store, key, other));
    let rv2 = v2.at("metadata").at("resourceVersion").as_str().unwrap().to_string();

    // Stale: 409, and the newer status survives.
    let err = failed(put_status(&mut store, key, &status_body(Some(&rv1), "stale")));
    assert_eq!(err.status, CONFLICT, "{key}: {}", err.message);
    assert_eq!(phase(&store, key), "B", "{key}: the stale write landed");

    // Current: written, and only status.
    fine(put_status(&mut store, key, &status_body(Some(&rv2), "C")));
    assert_eq!(phase(&store, key), "C", "{key}");
    let stored = fine(get(&store, key));
    assert_eq!(stored.at("spec").at("x").as_i64(), Some(1), "{key}: a status PUT changed spec");

    // No resourceVersion, or an empty one: unconditional.
    fine(put_status(&mut store, key, &status_body(None, "D")));
    fine(put_status(&mut store, key, &status_body(Some(""), "E")));
    assert_eq!(phase(&store, key), "E", "{key}");
}

#[test]
fn core_cluster_scoped() {
    scenario(&ResourceStorage::cluster_key("nodes", "o"));
}

#[test]
fn core_namespaced() {
    scenario(&ResourceStorage::namespaced_key("pods", "default", "o"));
}

fn register(plural: &str, scope: &str) -> CrdRegistry {
    let mut registry = CrdRegistry::new();
    let text = format!(
        r#"{{"spec": {{"group": "demo.io", "scope": "{scope}",
            "names": {{"plural": "{plural}", "kind": "Thing"}},
            "versions": [{{"name": "v1", "served": true, "storage": true}}]}}}}"#
    );
    registry.register(&json(&text));
    registry
}

#[test]
fn custom_resource_namespaced() {
    assert!(register("widgets", "Namespaced").lookup("demo.io", "v1", "widgets").is_some());
    let resource = custom_resource("demo.io", "widgets");
    scenario(&ResourceStorage::namespaced_key(&resource, "default", "o"));
}

#[test]
fn custom_resource_cluster_scoped() {
    assert!(register("gadgets", "Cluster").lookup("demo.io", "v1", "gadgets").is_some());
    let resource = custom_resource("demo.io", "gadgets");
    scenario(&ResourceStorage::cluster_key(&resource, "o"));
}

fn put_object(store: &mut MemStore, key: &str, name: &str, body: Json) -> Result<Json, ApiError> {
    let existing = get(store, key)?;
    let obj = replace_object(&existing, name, Some("default"), body)?;
    update(store, key, obj)
}

#[test]
fn put_keeps_server_fields_and_does_not_create() {
    let mut store = MemStore::new();
    let key = ResourceStorage::namespaced_key("configmaps", "default", "c1");
    let stored = create(
        &mut store,
        &key,
        r#"{"metadata": {"name": "c1", "namespace": "default", "uid": "u1",
                         "creationTimestamp": "2026-01-01T00:00:00Z"},
            "data": {"a": "1"}}"#,
    );
    let rv = stored.at("metadata").at("resourceVersion").as_str().unwrap().to_string();

    // Zero-valued server fields, as a protobuf body decodes: kept.
    let body = json(&format!(
        r#"{{"metadata": {{"name": "c1", "uid": "", "creationTimestamp": null,
                           "resourceVersion": "{rv}"}}, "data": {{"a": "2"}}}}"#
    ));
    let out = fine(put_object(&mut store, &key, "c1", body));
    assert!(out.at("metadata").at("uid").is_text("u1"));
    assert!(out.at("metadata").at("creationTimestamp").is_text("2026-01-01T00:00:00Z"));
    assert!(out.at("data").at("a").is_text("2"));

    let rename = json(r#"{"metadata": {"name": "other"}, "data": {}}"#);
    assert_eq!(failed(put_object(&mut store, &key, "c1", rename)).status, BAD_REQUEST);

    let other_uid = json(r#"{"metadata": {"name": "c1", "uid": "u2"}, "data": {}}"#);
    assert_eq!(failed(put_object(&mut store, &key, "c1", other_uid)).status, CONFLICT);

    let missing = ResourceStorage::namespaced_key("configmaps", "default", "nope");
    let body = json(r#"{"metadata": {"name": "nope"}}"#);
    assert_eq!(failed(put_object(&mut store, &missing, "nope", body)).status, NOT_FOUND);

    let text = failed(put_object(&mut store, &key, "c1", json("[]")));
    assert_eq!(text.status, UNPROCESSABLE_ENTITY);
}

#[test]
fn a_patch_cannot_remove_the_creation_timestamp() {
    let mut store = MemStore::new();
    let key = ResourceStorage::namespaced_key("configmaps", "default", "c1");
    create(
        &mut store,
        &key,
        r#"{"metadata": {"name": "c1", "namespace": "default", "uid": "u1",
                         "creationTimestamp": "2026-01-01T00:00:00Z"}}"#,
    );
    let body = br#"{"metadata":{"creationTimestamp":null,"labels":{"x":"y"}}}"#;
    let fresh = fine(get(&store, &key));
    let mut changed = fresh.dup();
    fine(apply_patch_body(&mut changed, STRATEGIC, body));
    let out = fine(update(&mut store, &key, fine(seal_update(&fresh, changed))));
    assert!(out.at("metadata").at("creationTimestamp").is_text("2026-01-01T00:00:00Z"));
    assert!(out.at("metadata").at("uid").is_text("u1"));
    assert!(out.at("metadata").at("labels").at("x").is_text("y"));
}

#[test]
fn a_write_that_depends_on_a_revision_fails_when_the_key_moved_on() {
    let mut store = MemStore::new();
    assert_eq!(store.put("k", vec![1], Some(0)).unwrap(), 1);
    assert!(store.put("k", vec![2], Some(0)).is_err());
    assert_eq!(store.put("k", vec![2], Some(1)).unwrap(), 2);
    assert!(store.delete("k", Some(1)).is_err());
    assert!(store.delete("other", Some(1)).is_err());
    assert_eq!(store.get("k"), Some((vec![2], 2)));
    assert_eq!(store.delete("k", Some(2)).unwrap(), 3);
    assert_eq!(store.get("k"), None);
}

// Reviews of access

#[test]
fn the_subject_is_the_one_asked_about_not_the_caller() {
    let who = subject_of(&json(r#"{"user": "alice", "groups": ["dev", "ops"]}"#));
    assert_eq!(who.username, "alice");
    assert_eq!(who.groups, vec!["dev".to_string(), "ops".to_string()]);
}

#[test]
fn a_review_about_groups_alone_is_an_identity_too() {
    let who = subject_of(&json(r#"{"groups": ["ops"]}"#));
    assert_eq!(who.username, "");
    assert_eq!(who.groups, vec!["ops".to_string()]);
    let none = subject_of(&json("{}"));
    assert_eq!(none.username, "");
    assert!(none.groups.is_empty());
}

#[test]
fn attributes_are_read_the_way_upstream_writes_them() {
    let attrs = json(
        r#"{
            "namespace": "team-a", "verb": "list", "group": "apps",
            "resource": "deployments", "subresource": "", "name": ""
        }"#,
    );
    assert_eq!(str_at(&attrs, "group"), "apps");
    assert_eq!(str_at(&attrs, "resource"), "deployments");
    // Empty is absent, not a resource named "".
    assert_eq!(opt_str_at(&attrs, "subresource"), None);
    assert_eq!(opt_str_at(&attrs, "name"), None);
    assert_eq!(opt_str_at(&attrs, "namespace").as_deref(), Some("team-a"));
}

#[test]
fn a_review_asks_one_question() {
    let spec = json(r#"{"resourceAttributes": {"verb": "get", "resource": "pods", "namespace": "a"}}"#);
    match question(&spec, Some("b")) {
        Question::Resource(r) => assert_eq!(r.namespace.as_deref(), Some("b")),
        _ => panic!("a question about a resource"),
    }
    let spec = json(r#"{"nonResourceAttributes": {"path": "/healthz", "verb": "get"}}"#);
    match question(&spec, None) {
        Question::NonResource(path, verb) => assert_eq!((path.as_str(), verb.as_str()), ("/healthz", "get")),
        _ => panic!("a question about a path"),
    }
    assert!(matches!(question(&json("{}"), None), Question::Nothing));
    assert!(decide(None).at("evaluationError").is_string());
    let status = decide(Some((true, "bound")));
    assert!(status.equals(&json(r#"{"allowed": true, "denied": false, "reason": "bound"}"#)));
    let answer = review("SubjectAccessReview", &spec, status);
    assert!(answer.at("spec").equals(&spec));
}

#[test]
fn a_review_through_another_namespace_is_refused() {
    let spec = json(r#"{"resourceAttributes": {"namespace": "a"}}"#);
    assert!(check_namespace(&spec, "a").is_ok());
    let err = failed(check_namespace(&spec, "b"));
    assert_eq!(err.status, BAD_REQUEST);
    assert_eq!(
        err.message,
        "spec.resourceAttributes.namespace (a) must match the request namespace (b)"
    );
    assert!(check_namespace(&json("{}"), "b").is_ok());
    let rules = rules_review(&json(r#"{"spec": {"namespace": "a"}}"#), vec![], vec![], false);
    assert!(rules.at("kind").is_text("SelfSubjectRulesReview"));
    assert_eq!(rules.at("status").at("incomplete").as_bool(), Some(false));
}

// Virtual machines

#[test]
fn the_node_comes_from_status_first() {
    let vmi = json(r#"{"spec": {"nodeName": "n1"}, "status": {"nodeName": "n2"}}"#);
    assert_eq!(node_of(&vmi).as_deref(), Some("n2"));
}

#[test]
fn a_placed_but_unstarted_vmi_still_resolves() {
    let vmi = json(r#"{"spec": {"nodeName": "n1"}, "status": {}}"#);
    assert_eq!(node_of(&vmi).as_deref(), Some("n1"));
}

#[test]
fn a_vmi_on_no_node_resolves_to_nothing() {
    assert_eq!(node_of(&json(r#"{"status": {"nodeName": ""}}"#)), None);
    assert_eq!(node_of(&json("{}")), None);
}

#[test]
fn a_console_is_at_the_node_of_its_machine() {
    let vmi = json(r#"{"status": {"nodeName": "n2"}}"#);
    let (node, path) = fine(door(Some(&vmi), "default", "vm", "serial"));
    assert_eq!((node.as_str(), path.as_str()), ("n2", "/vmConsole/default/vm/serial"));
    assert_eq!(failed(door(None, "default", "vm", "vnc")).status, NOT_FOUND);
    let err = failed(door(Some(&json("{}")), "default", "vm", "vnc"));
    assert_eq!(
        err.message,
        "VirtualMachineInstance default/vm is not running on a node yet"
    );
}

#[test]
fn start_and_stop_overrule_the_strategy() {
    let mut vm = json(r#"{"spec": {"runStrategy": "Halted"}}"#);
    set_running(&mut vm, true);
    assert!(vm.equals(&json(r#"{"spec": {"running": true}}"#)));
    assert_eq!(
        fine(vm_restart(Some(&vm), "default", "vm")),
        "/registry/virtualmachineinstances/default/vm"
    );
    set_running(&mut vm, false);
    assert_eq!(failed(vm_restart(Some(&vm), "default", "vm")).status, CONFLICT);
    assert_eq!(failed(vm_restart(None, "default", "vm")).status, NOT_FOUND);
}

#[test]
fn a_restart_of_what_is_gone_succeeds() {
    let gone = Some(ApiError::not_found("virtualmachineinstances", "vm"));
    let answer = fine(vm_restarted(gone, "default", "vm"));
    assert!(answer.equals(&ok("default", "vm", "restart")));
    assert!(answer.at("message").is_text("restart requested for VirtualMachine default/vm"));
    let broken = Some(ApiError::internal("no"));
    assert_eq!(failed(vm_restarted(broken, "default", "vm")).status, INTERNAL_SERVER_ERROR);
}

// Logs

#[test]
fn an_init_or_ephemeral_container_is_a_valid_name() {
    let pod = json(
        r#"{"spec": {
            "containers": [{"name": "app"}],
            "initContainers": [{"name": "setup"}, {"name": "sidecar"}],
            "ephemeralContainers": [{"name": "debugger"}]}}"#,
    );
    assert_eq!(fine(pick_container(&pod, Some("setup"), "p")), "setup");
    assert_eq!(fine(pick_container(&pod, Some("sidecar"), "p")), "sidecar");
    assert_eq!(fine(pick_container(&pod, Some("debugger"), "p")), "debugger");
    // The default is still the one real container.
    assert_eq!(fine(pick_container(&pod, None, "p")), "app");
}

#[test]
fn an_unknown_container_lists_every_choice() {
    let pod = json(
        r#"{"spec": {"containers": [{"name": "app"}], "initContainers": [{"name": "setup"}]}}"#,
    );
    let err = failed(pick_container(&pod, Some("nope"), "p"));
    assert_eq!(err.status, BAD_REQUEST);
    assert!(err.message.contains("app"), "{}", err.message);
    assert!(err.message.contains("setup"), "{}", err.message);
}

#[test]
fn logs_the_container_is_required_when_there_is_more_than_one() {
    let pod = json(r#"{"spec": {"containers": [{"name": "a"}, {"name": "b"}]}}"#);
    let err = failed(pick_container(&pod, None, "p"));
    assert_eq!(err.status, BAD_REQUEST);
    assert!(err.message.contains("a, b"), "{}", err.message);
}

#[test]
fn internal_ip_is_preferred_over_hostname() {
    let node = json(
        r#"{"status":{"addresses":[
            {"type":"Hostname","address":"n1"},
            {"type":"InternalIP","address":"10.0.0.5"}]}}"#,
    );
    assert_eq!(node_address(&node).as_deref(), Some("10.0.0.5"));
    let host = json(r#"{"status":{"addresses":[{"type":"Hostname","address":"n1"}]}}"#);
    assert_eq!(node_address(&host).as_deref(), Some("n1"));
    assert_eq!(node_address(&json("{}")), None);
}

#[test]
fn a_log_is_asked_of_the_kubelet_with_the_clients_options() {
    let pod = json(r#"{"spec": {"nodeName": "n1", "containers": [{"name": "a"}]}}"#);
    let (container, node) = fine(pod_logs(Some(&pod), "default", "p", ""));
    assert_eq!((container.as_str(), node.as_str()), ("a", "n1"));
    let host = json(r#"{"status":{"addresses":[{"type":"InternalIP","address":"10.0.0.5"}]}}"#);
    let query = "follow=true&tailLines=5&container=a";
    let (url, follow) =
        fine(log_request(Some(&host), "n1", "default", "p", "a", query));
    assert!(follow);
    assert_eq!(
        url,
        "https://10.0.0.5:10250/containerLogs/default/p/a?tailLines=5&follow=true"
    );
    assert_eq!(
        log_url("h", "ns", "p", "c", &vec![]),
        "https://h:10250/containerLogs/ns/p/c"
    );
    assert_eq!(failed(pod_logs(None, "default", "p", "")).status, NOT_FOUND);
    let unplaced = json(r#"{"spec": {"containers": [{"name": "a"}]}}"#);
    assert_eq!(
        failed(pod_logs(Some(&unplaced), "default", "p", "")).message,
        "pod default/p is not assigned to a node yet"
    );
    assert_eq!(
        failed(log_request(None, "n1", "default", "p", "a", "")).message,
        "no usable address for node n1"
    );
}

// Streams

#[test]
fn exec_options_are_translated_to_the_kubelets_spelling() {
    let q = "container=web&command=ls&command=-l&stdin=true&stdout=true&stderr=true&tty=true";
    // Order is preserved, which matters: the command is argv.
    assert_eq!(stream_query(q, true), "command=ls&command=-l&input=1&output=1&error=1&tty=1");
}

#[test]
fn options_that_are_off_are_not_forwarded() {
    assert_eq!(stream_query("stdin=false&stdout=true", true), "output=1");
}

#[test]
fn attach_carries_no_command() {
    assert_eq!(
        stream_query("command=sh&stdout=true", false),
        "output=1",
        "attach has no command; forwarding one would be a different call"
    );
}

#[test]
fn a_command_with_spaces_survives() {
    let got = stream_query("command=sh&command=-c&command=echo hi", true);
    assert_eq!(got, "command=sh&command=-c&command=echo+hi");
}

#[test]
fn ports_become_repeated_port_parameters() {
    assert_eq!(portforward_query("ports=8080"), "port=8080");
    assert_eq!(portforward_query("ports=8080,9090"), "port=8080&port=9090");
    assert_eq!(portforward_query("port=443&ports=80"), "port=443&port=80");
}

fn stream_container(pod: &Json, query: &str) -> Result<String, ApiError> {
    rustkube::apiserver::handlers::streaming::pick_container(pod, query, "p")
}

#[test]
fn streaming_the_container_is_required_when_there_is_more_than_one() {
    let pod = json(r#"{"spec": {"containers": [{"name": "a"}, {"name": "b"}]}}"#);
    let err = failed(stream_container(&pod, ""));
    assert_eq!(err.status, BAD_REQUEST);
    assert!(err.message.contains("choose one of: [a, b]"), "{}", err.message);

    assert_eq!(fine(stream_container(&pod, "container=b")), "b");
    assert!(stream_container(&pod, "container=zz").is_err());
}

#[test]
fn a_single_container_needs_no_naming() {
    let pod = json(r#"{"spec": {"containers": [{"name": "only"}]}}"#);
    assert_eq!(fine(stream_container(&pod, "")), "only");
}

#[test]
fn an_ephemeral_debug_container_is_a_valid_target() {
    let pod = json(
        r#"{"spec": {
            "containers": [{"name": "app"}],
            "ephemeralContainers": [{"name": "debugger"}]}}"#,
    );
    assert_eq!(fine(stream_container(&pod, "container=debugger")), "debugger");
}

fn header<'a>(headers: &'a [(String, String)], name: &str) -> Option<&'a str> {
    headers.iter().find(|(k, _)| k == name).map(|(_, v)| v.as_str())
}

#[test]
fn response_heads_are_parsed_including_the_websocket_accept() {
    let head = b"HTTP/1.1 101 Switching Protocols\r\nUpgrade: websocket\r\n\
                 Connection: Upgrade\r\nSec-WebSocket-Accept: abc=\r\n\r\n";
    let end = find_head_end(head).unwrap();
    assert_eq!(end, head.len());
    let (status, headers) = parse_head(&head[..end]).unwrap();
    assert_eq!(status, 101);
    assert!(is_upgraded(status));
    assert_eq!(header(&headers, "upgrade"), Some("websocket"));
    assert_eq!(header(&headers, "sec-websocket-accept"), Some("abc="));
}

#[test]
fn bytes_after_the_head_are_kept() {
    let buf =
        b"HTTP/1.1 101 Switching Protocols\r\nUpgrade: SPDY/3.1\r\n\r\n\x00\x01first-frame";
    let end = find_head_end(buf).unwrap();
    assert_eq!(&buf[end..], b"\x00\x01first-frame");
}

#[test]
fn a_refusal_is_recognised_by_its_status() {
    let head = b"HTTP/1.1 404 Not Found\r\nContent-Length: 21\r\n\r\ncontainer not found\r\n";
    let end = find_head_end(head).unwrap();
    let (status, headers) = parse_head(&head[..end]).unwrap();
    assert_eq!(status, 404);
    assert_eq!(header(&headers, "content-length"), Some("21"));
    assert_eq!(body_length(&headers), Some(21));
    assert!(response_headers(&headers).is_empty());
    assert_eq!(refusal_status(status), 404);
    assert_eq!(refusal_status(42), 502);
}

#[test]
fn a_head_that_says_nothing_is_an_error() {
    let err = parse_head(b"nonsense\r\n\r\n").unwrap_err();
    assert_eq!(err, "unparseable status line from kubelet: nonsense");
    assert_eq!(head_step(b"HTTP/1.1 200").unwrap(), None);
    let long = vec![b'x'; MAX_HEAD + 1];
    assert_eq!(head_step(&long).unwrap_err(), "kubelet response head exceeded 65536 bytes");
    // A header that is none is left out, and the last of a name counts.
    let (_, headers) =
        parse_head(b"HTTP/1.1 200 OK\r\nbad name: x\r\nA: 1\r\nno colon\r\na: 2\r\nb: \x01\r\n\r\n")
            .unwrap();
    assert_eq!(headers, vec![("a".to_string(), "2".to_string())]);
}

#[test]
fn a_body_is_read_to_its_length_or_a_bound() {
    assert!(wants_more(Some(10), 9));
    assert!(!wants_more(Some(10), 10));
    assert!(wants_more(None, MAX_HEAD - 1));
    assert!(!wants_more(None, MAX_HEAD));
}

#[test]
fn the_clients_negotiation_is_handed_on() {
    let pod = json(r#"{"spec": {"nodeName": "n1", "containers": [{"name": "a"}]}}"#);
    let s = fine(pod_exec(Some(&pod), "default", "p", "command=ls&stdout=1"));
    assert_eq!(
        (s.node.as_str(), s.path.as_str(), s.query.as_str()),
        ("n1", "/exec/default/p/a", "command=ls&output=1")
    );
    let a = fine(pod_attach(Some(&pod), "default", "p", "command=ls&stdout=1"));
    assert_eq!((a.path.as_str(), a.query.as_str()), ("/attach/default/p/a", "output=1"));
    let f = fine(pod_portforward(Some(&pod), "default", "p", "ports=80"));
    assert_eq!((f.path.as_str(), f.query.as_str()), ("/portForward/default/p", "port=80"));
    let headers = vec![
        ("host".to_string(), "x".to_string()),
        ("upgrade".to_string(), "websocket".to_string()),
    ];
    assert_eq!(
        upgrade_head("POST", "10.0.0.5", &s.path, &s.query, "tok", &headers),
        "POST /exec/default/p/a?command=ls&output=1 HTTP/1.1\r\nHost: 10.0.0.5:10250\r\n\
         Authorization: Bearer tok\r\nContent-Length: 0\r\nupgrade: websocket\r\n\r\n"
    );
}

// Tokens

#[test]
fn a_serviceaccount_token_is_reviewed_as_its_serviceaccount() {
    let keys = SigningKeys::generate();
    let answer = fine(create_serviceaccount_token(&keys, "ci", "builder"));
    assert!(answer.at("kind").is_text("TokenRequest"));
    let token = answer.at("status").at("token").as_str().unwrap();
    let body = Json::object().with(
        "spec",
        Json::object().with("token", Json::text(token)).with("audiences", json(r#"["a"]"#)),
    );
    let review = create_token_review(&keys, &body);
    let status = review.at("status");
    assert_eq!(status.at("authenticated").as_bool(), Some(true));
    assert!(status.at("user").at("username").is_text("system:serviceaccount:ci:builder"));
    assert!(status
        .at("user")
        .at("groups")
        .equals(&json(r#"["system:serviceaccounts", "system:serviceaccounts:ci"]"#)));
    // The token is not echoed.
    assert!(review.at("spec").get("token").is_none());

    // Another key does not know it, and that is no error.
    let other = create_token_review(&SigningKeys::generate(), &body);
    assert_eq!(other.at("status").at("authenticated").as_bool(), Some(false));
    assert!(other.at("status").at("error").is_text("token is invalid or expired"));
}

// Projects

fn user(name: &str) -> UserInfo {
    UserInfo { username: name.to_string(), groups: vec!["system:authenticated".to_string()] }
}

#[test]
fn a_project_is_its_namespace() {
    let ns = json(
        r#"{
            "apiVersion": "v1", "kind": "Namespace",
            "metadata": {
                "name": "demo", "uid": "u1", "resourceVersion": "7",
                "annotations": { "openshift.io/requester": "alice", "openshift.io/display-name": "Demo" }
            },
            "spec": { "finalizers": ["kubernetes"] },
            "status": { "phase": "Active" }
        }"#,
    );
    let p = namespace_to_project(&ns);
    assert!(p.at("apiVersion").is_text(API_VERSION));
    assert!(p.at("kind").is_text("Project"));
    assert!(p.at("metadata").at("name").is_text("demo"));
    assert!(p.at("metadata").at("uid").is_text("u1"));
    assert!(p.at("metadata").at("resourceVersion").is_text("7"));
    assert!(p.at("metadata").at("annotations").at(REQUESTER).is_text("alice"));
    assert!(p.at("spec").at("finalizers").equals(&json(r#"["kubernetes"]"#)));
    assert!(p.at("status").at("phase").is_text("Active"));
}

#[test]
fn a_request_cannot_name_its_own_requester() {
    let ns = project_namespace(
        "demo",
        &json(r#"{ "team": "a" }"#),
        &json(r#"{ "openshift.io/requester": "mallory", "x": "y" }"#),
        Some("Demo"),
        Some("a project"),
        Some("alice"),
    );
    let ann = ns.at("metadata").at("annotations");
    assert!(ann.at(REQUESTER).is_text("alice"));
    assert!(ann.at(DISPLAY_NAME).is_text("Demo"));
    assert!(ann.at(DESCRIPTION).is_text("a project"));
    assert!(ann.at("x").is_text("y"));
    assert!(ns.at("metadata").at("labels").at("team").is_text("a"));

    // A directly created Project names no requester, whatever it says.
    let ns = project_namespace(
        "demo",
        &Json::Null,
        &json(r#"{ "openshift.io/requester": "m" }"#),
        None,
        None,
        None,
    );
    assert!(ns.at("metadata").at("annotations").is_null());
}

#[test]
fn the_requester_is_bound_admin_and_matches_as_themselves() {
    let alice = user("alice");
    let b = admin_binding("demo", &alice);
    assert!(b.at("metadata").at("name").is_text(ADMIN_BINDING));
    assert!(b.at("metadata").at("namespace").is_text("demo"));
    assert!(b.at("roleRef").at("kind").is_text("ClusterRole"));
    assert!(b.at("roleRef").at("name").is_text("admin"));
    assert!(subjects_match(&b, &alice));
    assert!(!subjects_match(&b, &user("bob")));

    let sa = user("system:serviceaccount:ci:builder");
    let b = admin_binding("demo", &sa);
    let subject = b.at("subjects").item(0);
    assert!(subject.at("kind").is_text("ServiceAccount"));
    assert!(subject.at("namespace").is_text("ci"));
    assert!(subject.at("name").is_text("builder"));
    assert!(subjects_match(&b, &sa));
}

#[test]
fn system_names_cannot_be_requested() {
    for r in ["default", "openshift", "kube-system", "kube-anything", "openshift-infra"] {
        assert!(is_reserved(r), "{r}");
    }
    for ok in ["demo", "kubefoo", "my-kube-app", "openshifty"] {
        assert!(!is_reserved(ok), "{ok}");
    }
}

#[test]
fn project_names_are_dns_labels() {
    for ok in ["demo", "a", "team-1", &"a".repeat(63)] {
        assert!(validate_name(ok).is_ok(), "{ok}");
    }
    for bad in ["", "Demo", "-demo", "demo-", "de.mo", "de_mo", &"a".repeat(64)] {
        assert!(validate_name(bad).is_err(), "{bad}");
    }
}

#[test]
fn a_project_update_changes_only_its_names() {
    let mut ns = json(
        r#"{
            "metadata": {
                "name": "demo",
                "labels": { "pod-security.kubernetes.io/enforce": "restricted" },
                "annotations": { "openshift.io/requester": "alice", "openshift.io/description": "old", "keep": "me" }
            }
        }"#,
    );
    let body = json(
        r#"{
            "metadata": {
                "labels": { "pod-security.kubernetes.io/enforce": "privileged" },
                "annotations": { "openshift.io/requester": "mallory", "openshift.io/display-name": "Demo", "keep": "changed" }
            }
        }"#,
    );
    apply_project_update(&mut ns, &body);
    let m = ns.at("metadata");
    assert!(m.at("labels").at("pod-security.kubernetes.io/enforce").is_text("restricted"));
    assert!(m.at("annotations").at(REQUESTER).is_text("alice"));
    assert!(m.at("annotations").at("keep").is_text("me"));
    assert!(m.at("annotations").at(DISPLAY_NAME).is_text("Demo"));
    assert!(
        m.at("annotations").at(DESCRIPTION).is_null(),
        "an omitted description is cleared"
    );
}

fn allows(role: &str, verb: &str, group: &str, resource: &str, sub: Option<&str>) -> bool {
    let roles = bootstrap_cluster_roles();
    let r = roles
        .iter()
        .find(|r| r.at("metadata").at("name").is_text(role))
        .expect("role exists");
    let req = AuthorizationRequest {
        verb: verb.to_string(),
        resource: resource.to_string(),
        subresource: sub.map(str::to_string),
        api_group: group.to_string(),
        namespace: Some("demo".to_string()),
        name: None,
    };
    r.at("rules").as_array().unwrap().iter().any(|rule| rule_matches(rule, &req))
}

#[test]
fn the_project_roles_nest() {
    // view reads, but not secrets, and cannot write or exec.
    assert!(allows("view", "list", "", "pods", None));
    assert!(allows("view", "get", "", "pods", Some("log")));
    assert!(allows("view", "get", "", "namespaces", None));
    assert!(allows("view", "get", "project.openshift.io", "projects", None));
    assert!(!allows("view", "get", "", "secrets", None));
    assert!(!allows("view", "create", "", "pods", None));
    assert!(!allows("view", "create", "", "pods", Some("exec")));

    // edit writes workloads and reads secrets, but cannot share the project.
    assert!(allows("edit", "create", "apps", "deployments", None));
    assert!(allows("edit", "get", "", "secrets", None));
    assert!(allows("edit", "create", "", "pods", Some("exec")));
    assert!(allows(
        "edit",
        "update",
        "subresources.kubevirt.io",
        "virtualmachines",
        Some("start")
    ));
    assert!(!allows("edit", "create", "rbac.authorization.k8s.io", "rolebindings", None));
    assert!(!allows("edit", "delete", "project.openshift.io", "projects", None));

    // admin shares and deletes the project, and still cannot write the
    // Namespace object, whose labels hold the pod-security level.
    assert!(allows("admin", "create", "rbac.authorization.k8s.io", "rolebindings", None));
    assert!(allows("admin", "delete", "project.openshift.io", "projects", None));
    assert!(!allows("admin", "update", "", "namespaces", None));
    assert!(!allows("admin", "delete", "", "namespaces", None));

    // Everyone: list own projects and request one; nothing else.
    assert!(allows("basic-user", "list", "project.openshift.io", "projects", None));
    assert!(!allows("basic-user", "get", "project.openshift.io", "projects", None));
    assert!(allows(
        "self-provisioner",
        "create",
        "project.openshift.io",
        "projectrequests",
        None
    ));
}

#[test]
fn self_provisioning_is_granted_to_the_authenticated() {
    let bindings = bootstrap_cluster_role_bindings();
    let sp = bindings
        .iter()
        .find(|b| b.at("metadata").at("name").is_text("self-provisioners"))
        .expect("self-provisioners");
    assert!(sp.at("roleRef").at("name").is_text("self-provisioner"));
    assert!(subjects_match(sp, &user("anyone")));
    let nobody = UserInfo { username: "system:anonymous".to_string(), groups: vec![] };
    assert!(!subjects_match(sp, &nobody));
}

#[test]
fn a_project_that_is_requested_is_a_namespace_of_its_requester() {
    let body = json(r#"{"metadata": {"name": "demo"}, "displayName": "Demo"}"#);
    let (name, ns) = fine(project_request(&body, &user("alice")));
    assert_eq!(name, "demo");
    assert!(ns.at("metadata").at("annotations").at(REQUESTER).is_text("alice"));
    let bad = json(r#"{"metadata": {"name": "kube-x"}}"#);
    assert!(project_request(&bad, &user("alice")).is_err());
    let (direct, _) = fine(project_creation(&json(r#"{"metadata": {"name": "kube-x"}}"#)));
    assert_eq!(direct, "kube-x");
}

#[test]
fn a_project_is_listed_for_its_members() {
    let alice = user("alice");
    let ns = json(r#"{"metadata": {"name": "demo"}}"#);
    let bindings = vec![admin_binding("demo", &alice)];
    assert!(is_member(&bindings, &alice));
    let all = vec![Candidate { namespace: ns.dup(), bindings: Some(bindings) }];
    assert_eq!(visible_projects(&all, &alice, false).len(), 1);
    assert_eq!(visible_projects(&all, &user("bob"), false).len(), 0);
    assert_eq!(visible_projects(&all, &user("bob"), true).len(), 1);
    let stale = json(r#"{"metadata": {"resourceVersion": "3"}}"#);
    assert_eq!(failed(check_update(&ns, &stale, "demo")).status, CONFLICT);
    assert!(check_update(&ns, &json("{}"), "demo").is_ok());
}

#[test]
fn a_host_that_is_no_name_is_asked_for_as_loopback() {
    assert_eq!(tls_name("node-a.example"), "node-a.example");
    assert_eq!(tls_name("10.0.0.7"), "10.0.0.7");
    assert_eq!(tls_name("::1"), "::1");
    assert_eq!(tls_name(""), "127.0.0.1");
    assert_eq!(tls_name("not a host"), "127.0.0.1");
    assert_eq!(name_or_loopback("x", true), "x");
    assert_eq!(name_or_loopback("x", false), "127.0.0.1");
    assert_eq!(refusal_text(b"no \xff"), "no \u{fffd}");
}
