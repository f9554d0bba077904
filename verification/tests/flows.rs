use rustkube::apiserver::apply::server_side_apply;
use rustkube::apiserver::auth::{SigningKeys, UserInfo};
use rustkube::apiserver::crd::{
    advance_move, begin_move, crd_api_resources, patch_cr_status, CrdDefinition, CrdRegistry,
    MoveEvent, Moving, Stay,
};
use rustkube::apiserver::error::ApiError;
use rustkube::apiserver::events::{discovery, event_deleted, event_list};
use rustkube::apiserver::handlers::delete::{delete_options, perform_delete, DeleteAction};
use rustkube::apiserver::handlers::patch::{
    after_patch, applies_again, create_by_apply, patch_retry_pause, pause_within, retries,
    update_round,
    AfterPatch, Round,
};
use rustkube::apiserver::handlers::project::{binding_failure, creation_error, read_error};
use rustkube::apiserver::handlers::resource::{
    ensure_metadata, list_answer, new_object, persist_or_finalize, Persist,
};
use rustkube::apiserver::rbac_engine::RbacEngine;
use rustkube::apiserver::watch::{initial_object, WatchParams};
use rustkube::json::Json;
use rustkube::outside::{parse_json, write_json};
use std::collections::BTreeMap;

fn json(text: &str) -> Json {
    match parse_json(text.as_bytes()) {
        Ok(v) => v,
        Err(e) => panic!("{e}: {text}"),
    }
}

fn is(v: &Json, text: &str) -> bool {
    let same = v.equals(&json(text));
    if !same {
        println!("{}", write_json(v));
    }
    same
}

// Moving custom resources

fn definition(group: &str) -> CrdDefinition {
    let mut reg = CrdRegistry::new();
    reg.register(&json(&format!(
        r#"{{"spec": {{"group": "{group}", "scope": "Namespaced",
            "names": {{"plural": "events", "kind": "Thing"}},
            "versions": [{{"name": "v1", "served": true}}]}}}}"#
    )));
    reg.lookup(group, "v1", "events").unwrap()
}

fn object(group: &str, uid: &str) -> Json {
    json(&format!(
        r#"{{"apiVersion": "{group}/v1",
            "metadata": {{"name": "a", "namespace": "n", "uid": "{uid}"}}}}"#
    ))
}

const OLD: &str = "/registry/events/n/a";
const NEW: &str = "/registry/demo.io/events/n/a";

/// Moves the object on a store of objects; why it stays, where it does.
fn run(store: &mut BTreeMap<String, Json>, obj: &Json) -> Option<Stay> {
    let mut step = begin_move(&definition("demo.io"), obj);
    loop {
        let event = match &step {
            Moving::Create { new_key, .. } => {
                if store.contains_key(new_key) {
                    MoveEvent::Created(Some(ApiError::already_exists("resource", new_key)))
                } else {
                    store.insert(new_key.clone(), obj.dup());
                    MoveEvent::Created(None)
                }
            }
            Moving::Look { new_key, .. } => MoveEvent::Found(store.get(new_key).map(Json::dup)),
            Moving::Delete { old_key } => {
                store.remove(old_key);
                MoveEvent::Deleted(None)
            }
            Moving::Moved => return None,
            Moving::Stays(why) => return Some(*why),
        };
        step = advance_move(step, event, obj);
    }
}

#[test]
fn a_move_loses_nothing_and_is_idempotent() {
    let obj = object("demo.io", "u");
    let mut store = BTreeMap::from([(OLD.to_string(), obj.dup())]);
    assert_eq!(run(&mut store, &obj), None);
    assert_eq!(store.keys().collect::<Vec<_>>(), [NEW]);
    assert!(store[NEW].equals(&obj));

    // A boot that died between the two steps left both.
    store.insert(OLD.to_string(), obj.dup());
    assert_eq!(run(&mut store, &obj), None);
    assert_eq!(store.keys().collect::<Vec<_>>(), [NEW]);

    // Another object under the new key: both are left, each time.
    let other = object("demo.io", "v");
    store.insert(OLD.to_string(), other.dup());
    for _ in 0..2 {
        assert_eq!(run(&mut store, &other), Some(Stay::Taken));
        assert!(store[NEW].equals(&obj));
        assert!(store[OLD].equals(&other));
    }
}

#[test]
fn what_is_of_another_group_is_left() {
    let obj = object("other.io", "u");
    let mut store = BTreeMap::from([(OLD.to_string(), obj.dup())]);
    assert_eq!(run(&mut store, &obj), Some(Stay::Foreign));
    let nowhere = json(r#"{"apiVersion": "demo.io/v1", "metadata": {"name": "a"}}"#);
    assert_eq!(run(&mut store, &nowhere), Some(Stay::NoNamespace));
    assert_eq!(store.len(), 1);
}

#[test]
fn a_move_that_cannot_be_written_or_deleted_says_so() {
    let obj = object("demo.io", "u");
    let step = begin_move(&definition("demo.io"), &obj);
    let failed = MoveEvent::Created(Some(ApiError::internal("disk")));
    assert!(matches!(advance_move(step, failed, &obj), Moving::Stays(Stay::Unwritten)));

    let step = begin_move(&definition("demo.io"), &obj);
    let step = advance_move(step, MoveEvent::Created(None), &obj);
    assert!(matches!(&step, Moving::Delete { old_key } if old_key == OLD));
    let gone = MoveEvent::Deleted(Some(ApiError::not_found("resource", OLD)));
    assert!(matches!(advance_move(step, gone, &obj), Moving::Moved));

    let step = Moving::Delete { old_key: OLD.to_string() };
    let failed = MoveEvent::Deleted(Some(ApiError::internal("disk")));
    assert!(matches!(advance_move(step, failed, &obj), Moving::Stays(Stay::Undeleted)));
}

// Updates

#[test]
fn an_update_is_written_on_condition_of_its_read() {
    let fresh = json(
        r#"{"metadata": {"name": "a", "uid": "u", "resourceVersion": "7"}, "spec": 1}"#,
    );
    let changed = json(
        r#"{"metadata": {"name": "b", "uid": "x", "resourceVersion": "99"}, "spec": 2}"#,
    );
    match update_round(&fresh, None, Ok(changed.dup())) {
        Round::Write { obj, how } => {
            assert!(matches!(how, Persist::Update(Some(7))));
            assert!(is(
                &obj,
                r#"{"metadata": {"name": "a", "uid": "u", "resourceVersion": "7"}, "spec": 2}"#,
            ));
        }
        Round::Fail(e) => panic!("{}", e.message),
    }
    assert!(matches!(
        update_round(&fresh, Some("7"), Ok(changed.dup())),
        Round::Write { .. }
    ));
    match update_round(&fresh, Some("6"), Ok(changed)) {
        Round::Fail(e) => {
            assert_eq!((e.status, e.reason.as_str()), (409, "Conflict"));
            assert_eq!(
                e.message,
                "Operation cannot be fulfilled on \"a\": the object has been modified; please \
                 apply your changes to the latest version and try again"
            );
        }
        Round::Write { .. } => panic!("a stale version was written"),
    }
    match update_round(&fresh, None, Err(ApiError::invalid("no"))) {
        Round::Fail(e) => assert_eq!(e.message, "no"),
        Round::Write { .. } => panic!("a change that failed was written"),
    }
    match update_round(&fresh, None, Ok(json(r#"{"metadata": 3}"#))) {
        Round::Fail(e) => assert_eq!(e.message, "metadata must be an object"),
        Round::Write { .. } => panic!("an object without metadata was written"),
    }
}

#[test]
fn only_a_lost_race_is_run_again() {
    assert!(retries(&ApiError::conflict("x"), 0));
    assert!(retries(&ApiError::conflict("x"), 29_999));
    assert!(!retries(&ApiError::conflict("x"), 30_000));
    assert!(!retries(&ApiError::already_exists("x", "y"), 0));
    assert!(!retries(&ApiError::invalid("x"), 0));
    for attempt in 0..10 {
        assert!(patch_retry_pause(attempt) < 200);
    }
    assert!(patch_retry_pause(0) < 10 && patch_retry_pause(1) < 10);
    assert_eq!(pause_within(1, 12_345), 5);
    assert_eq!(pause_within(4, 12_345), 25);
    assert_eq!(pause_within(9, 12_345), 145);
    // The draw counts: pauses differ.
    let drawn: Vec<u64> = (0..64).map(|_| patch_retry_pause(9)).collect();
    assert!(drawn.iter().any(|p| *p != drawn[0]));

    let apply = "application/apply-patch+yaml";
    let missing = ApiError::not_found("x", "y");
    assert_eq!(after_patch(apply, Some(&missing)), AfterPatch::Create);
    assert_eq!(after_patch("application/merge-patch+json", Some(&missing)), AfterPatch::Done);
    assert_eq!(after_patch(apply, Some(&ApiError::invalid("x"))), AfterPatch::Done);
    assert_eq!(after_patch(apply, None), AfterPatch::Done);
    assert!(applies_again(&ApiError::already_exists("x", "y"), 2));
    assert!(!applies_again(&ApiError::already_exists("x", "y"), 3));
    assert!(!applies_again(&ApiError::conflict("x"), 0));
}

#[test]
fn the_write_that_empties_the_finalizers_is_the_delete() {
    let obj = json(r#"{"metadata": {"name": "a", "finalizers": ["f"], "resourceVersion": "3"}}"#);
    let opts = delete_options(&json("{}"));
    let marked = match perform_delete(obj, &opts, "a", None, "pods", "2020-01-01T00:00:00Z") {
        Ok(DeleteAction::Mark(m, Some(3))) => m,
        _ => panic!("the object is held by its finalizer"),
    };
    assert!(matches!(persist_or_finalize(&marked), Persist::Update(Some(3))));
    let mut meta = marked.at("metadata").dup();
    meta.set("finalizers", Json::list());
    let mut emptied = marked;
    emptied.set("metadata", meta);
    assert!(matches!(persist_or_finalize(&emptied), Persist::Delete(Some(3))));
}

#[test]
fn a_leaf_of_another_manager_conflicts_only_when_it_changes() {
    let first = json(r#"{"apiVersion": "v1", "spec": {"a/b": 1, "c": 2}}"#);
    let made = create_by_apply(&first, "one", "2020-01-01T00:00:00Z");
    let same = json(r#"{"spec": {"a/b": 1}}"#);
    assert!(server_side_apply(made.dup(), &same, "two", "t", false).is_ok());
    let other = json(r#"{"spec": {"a/b": 5}}"#);
    match server_side_apply(made.dup(), &other, "two", "t", false) {
        Err(c) => assert_eq!((c.field.as_str(), c.manager.as_str()), ("spec.a/b", "one")),
        Ok(_) => panic!("the change of another's leaf was taken"),
    }
    assert!(server_side_apply(made, &other, "two", "t", true).is_ok());
}

#[test]
fn a_leaf_of_another_manager_is_not_overwritten_from_above_or_below() {
    let first = json(r#"{"spec": {"a": {"b": 1}, "c": "text", "d": {}, "e": 4}}"#);
    let made = create_by_apply(&first, "one", "2020-01-01T00:00:00Z");
    let refused = |intent: &str, field: &str| match server_side_apply(
        made.dup(),
        &json(intent),
        "two",
        "t",
        false,
    ) {
        Err(c) => assert_eq!((c.field.as_str(), c.manager.as_str()), (field, "one")),
        Ok(_) => panic!("{field} was overwritten"),
    };
    refused(r#"{"spec": {"a": "gone"}}"#, "spec.a.b");
    refused(r#"{"spec": {"a": null}}"#, "spec.a.b");
    refused(r#"{"spec": {"a": [1]}}"#, "spec.a.b");
    refused(r#"{"spec": null}"#, "spec.a.b");
    refused(r#"{"spec": {"c": {"under": 1}}}"#, "spec.c");
    // Beside the leaf, and into an object that is owned as a whole, there is room.
    for intent in [
        r#"{"spec": {"a": {"x": 2}}}"#,
        r#"{"spec": {"a": {}}}"#,
        r#"{"spec": {"d": {"x": 2}}}"#,
        r#"{"spec": {"f": null}}"#,
    ] {
        let next = match server_side_apply(made.dup(), &json(intent), "two", "t", false) {
            Ok(v) => v,
            Err(c) => panic!("{intent} was refused for {}", c.field),
        };
        assert!(next.at("spec").at("a").at("b").equals(&json("1")));
        assert!(next.at("spec").at("c").is_text("text"));
        assert!(next.at("spec").at("e").equals(&json("4")));
    }
    // With force it goes through.
    let forced = json(r#"{"spec": {"a": "gone"}}"#);
    match server_side_apply(made, &forced, "two", "t", true) {
        Ok(v) => assert!(v.at("spec").at("a").is_text("gone")),
        Err(c) => panic!("force was refused for {}", c.field),
    }
}

#[test]
fn an_apply_to_nothing_creates() {
    let made = create_by_apply(&json(r#"{"apiVersion": "v1", "data": {"k": "v"}}"#), "me", "t");
    assert!(is(
        &made,
        r#"{"apiVersion": "v1", "data": {"k": "v"}, "metadata": {"managedFields": [
            {"manager": "me", "operation": "Apply", "apiVersion": "v1", "time": "t",
             "fieldsType": "FieldsV1",
             "fieldsV1": {"f:apiVersion": {}, "f:data": {"f:k": {}}}}]}}"#,
    ));
}

// New objects and lists

#[test]
fn a_new_object_has_a_name_and_an_identity() {
    let body = json(r#"{"metadata": {"name": "a"}, "spec": {}}"#);
    let (name, obj) = match new_object(body, Some("ns")) {
        Ok(made) => made,
        Err(e) => panic!("{}", e.message),
    };
    let meta = obj.at("metadata");
    assert_eq!(name, "a");
    assert!(meta.at("namespace").is_text("ns"));
    let uid = meta.at("uid").str_or_empty();
    assert_eq!(uid.len(), 36);
    assert_eq!(uid.char_indices().filter(|(_, c)| *c == '-').map(|(i, _)| i).collect::<Vec<_>>(), [8, 13, 18, 23]);
    assert_eq!(uid.chars().nth(14), Some('4'));
    let time = meta.at("creationTimestamp").str_or_empty();
    assert!(time.len() >= 20 && time.ends_with('Z') && time.contains('T'));

    match new_object(json(r#"{"metadata": {}}"#), None) {
        Err(e) => assert_eq!((e.status, e.message.as_str()), (422, "metadata.name is required")),
        Ok(_) => panic!("an object without a name was taken"),
    }
    let mut again = obj.dup();
    ensure_metadata(&mut again, "other", None);
    assert!(again.equals(&obj));
}

#[test]
fn a_list_names_its_version_and_what_is_left() {
    let items = || vec![json(r#"{"metadata": {"name": "a"}, "spec": 1}"#)];
    assert!(is(
        &list_answer("v1", "PodList", 9, items(), Some("t"), false),
        r#"{"apiVersion": "v1", "kind": "PodList",
            "metadata": {"resourceVersion": "9", "continue": "t"},
            "items": [{"metadata": {"name": "a"}, "spec": 1}]}"#,
    ));
    let partial = list_answer("v1", "PodList", 9, items(), None, true);
    assert!(partial.at("kind").is_text("PartialObjectMetadataList"));
    assert!(partial.at("items").item(0).at("kind").is_text("PartialObjectMetadata"));
    assert!(partial.at("items").item(0).at("spec").is_null());
}

#[test]
fn a_watch_starts_where_it_is_told() {
    let p = WatchParams::from_query("watch=true&resourceVersion=17&limit=3");
    assert_eq!((p.start_revision(), p.page_size()), (Some(17), 3));
    let p = WatchParams::from_query("watch=true");
    assert_eq!((p.start_revision(), p.page_size()), (Some(0), 500));
    let p = WatchParams::from_query("watch=true&sendInitialEvents=true&resourceVersion=17");
    assert_eq!(p.start_revision(), None);

    let obj = initial_object(&json(r#"{"metadata": {"name": "a"}}"#), "v1", "Pod", 5);
    assert!(obj.at("apiVersion").is_text("v1") && obj.at("kind").is_text("Pod"));
    assert!(obj.at("metadata").at("resourceVersion").is_text("5"));
    let own = json(r#"{"kind": "X", "metadata": {"resourceVersion": "3"}}"#);
    let obj = initial_object(&own, "v1", "Pod", 5);
    assert!(obj.at("kind").is_text("X"));
    assert!(obj.at("metadata").at("resourceVersion").is_text("3"));
}

// Custom resources and events

#[test]
fn a_registered_definition_is_discovered() {
    let mut reg = CrdRegistry::new();
    let crd = json(
        r#"{"spec": {"group": "demo.io", "scope": "Cluster",
            "names": {"plural": "things", "singular": "thing", "kind": "Thing",
                      "shortNames": ["th"]},
            "versions": [{"name": "v1", "served": true}]}}"#,
    );
    reg.register(&crd);
    let once = crd_api_resources(&reg, "demo.io", "v1");
    assert!(once.at("kind").is_text("APIResourceList"));
    assert!(once.at("groupVersion").is_text("demo.io/v1"));
    let r = once.at("resources").item(0);
    assert!(r.at("name").is_text("things") && r.at("kind").is_text("Thing"));
    assert_eq!(r.at("namespaced").as_bool(), Some(false));
    reg.register(&crd);
    assert!(crd_api_resources(&reg, "demo.io", "v1").equals(&once));
}

#[test]
fn a_status_patch_of_a_custom_resource_leaves_the_rest() {
    let existing = || json(r#"{"spec": {"a": 1}, "status": {"x": 1}}"#);
    let body = br#"{"spec": {"a": 2}, "status": {"y": 2}}"#;
    match patch_cr_status(existing(), "application/merge-patch+json", body) {
        Ok(v) => assert!(is(&v, r#"{"spec": {"a": 1}, "status": {"x": 1, "y": 2}}"#)),
        Err(e) => panic!("{}", e.message),
    }
    assert!(patch_cr_status(existing(), "application/merge-patch+json", b"{").is_err());
}

#[test]
fn events_are_listed_and_deleted_in_their_own_group() {
    let list = event_list(&vec![json(r#"{"message": "hi"}"#)], 4, Some("t"));
    assert!(list.at("apiVersion").is_text("events.k8s.io/v1"));
    assert!(list.at("kind").is_text("EventList"));
    assert!(list.at("metadata").at("resourceVersion").is_text("4"));
    assert!(list.at("metadata").at("continue").is_text("t"));
    assert!(list.at("items").item(0).at("note").is_text("hi"));
    assert!(is(
        &event_deleted("n", "e"),
        r#"{"apiVersion": "v1", "kind": "Status", "metadata": {}, "status": "Success",
            "details": {"name": "e", "namespace": "n", "kind": "events",
                        "group": "events.k8s.io"}}"#,
    ));
    assert!(discovery().at("groupVersion").is_text("events.k8s.io/v1"));
}

// Projects, tokens and the engine

#[test]
fn a_project_is_named_in_its_errors() {
    let taken = creation_error(ApiError::already_exists("namespaces", "p"), "p");
    assert_eq!(taken.message, "projects.project.openshift.io \"p\" already exists");
    assert_eq!(creation_error(ApiError::invalid("x"), "p").message, "x");
    let missing = read_error(ApiError::not_found("resource", "k"), "p");
    assert_eq!(missing.message, "projects.project.openshift.io \"p\" not found");
    assert_eq!(read_error(ApiError::invalid("x"), "p").message, "x");

    assert!(binding_failure("p", None).is_none());
    assert!(binding_failure("p", Some(&ApiError::already_exists("x", "y"))).is_none());
    assert_eq!(
        binding_failure("p", Some(&ApiError::internal("disk"))).map(|e| e.message),
        Some(
            "project \"p\" could not be given its admin binding, and was removed: disk".to_string()
        )
    );
}

#[test]
fn a_token_lasts_a_day_from_the_time_it_is_made_at() {
    let keys = SigningKeys::generate();
    let groups = vec!["g".to_string()];
    // Long over: it is signed, and does not pass.
    let old = keys.create_token_at("alice", &groups, 1_000).unwrap();
    assert!(keys.validate_token(&old).is_none());
    // Made far from now, it is good until a day after.
    let late = 4_000_000_000;
    let token = keys.create_token_at("alice", &groups, late).unwrap();
    let claims = keys.validate_token(&token).unwrap();
    assert_eq!((claims.sub.as_str(), claims.iat, claims.exp), ("alice", late, late + 86_400));
    assert_eq!(claims.groups, groups);
    // Another process does not take it.
    assert!(SigningKeys::generate().validate_token(&token).is_none());
}

#[test]
fn anonymous_is_admin_only_where_it_is_asked_for() {
    let anonymous = UserInfo {
        username: "system:anonymous".to_string(),
        groups: vec!["system:unauthenticated".to_string()],
    };
    assert!(!RbacEngine::new().unrestricted(&anonymous));
    assert!(RbacEngine::new().with_anonymous_admin(true).unrestricted(&anonymous));
    let alice = UserInfo { username: "alice".to_string(), groups: Vec::new() };
    assert!(!RbacEngine::new().with_anonymous_admin(true).unrestricted(&alice));
}
