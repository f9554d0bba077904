use rustkube::apiserver::auth::UserInfo;
use rustkube::apiserver::builtin_admission::{
    default_toleration_seconds, priority_class, priority_from_class, service_account_default,
};
use rustkube::apiserver::crd::{validate_crd_group, CrdRegistry};
use rustkube::apiserver::discovery::{openapi_v2, openapi_v3, version};
use rustkube::apiserver::handlers::patch::normalize_json_patch;
use rustkube::apiserver::handlers::project::{
    bootstrap_cluster_role_bindings, bootstrap_cluster_roles, sees_all_request, success,
    watch_refusal,
};
use rustkube::apiserver::handlers::resource::keep_server_fields;
use rustkube::apiserver::rbac_engine::parse_path_segments;
use rustkube::apiserver::server::{bootstrap_namespace, bootstrap_rbac, service_object};
use rustkube::apiserver::storage::ResourceStorage;
use rustkube::apiserver::table::to_table;
use rustkube::apiserver::watch::{render_initial_added, Transform};
use rustkube::json::Json;
use rustkube::outside::{parse_json, write_json};

fn json(text: &str) -> Json {
    match parse_json(text.as_bytes()) {
        Ok(v) => v,
        Err(e) => panic!("{e}: {text}"),
    }
}

fn same(v: &Json, text: &str) {
    assert!(v.equals(&json(text)), "{}", write_json(v));
}

/// An object without what differs from one run to the next.
fn unstamped(obj: &Json) -> Json {
    let mut meta = obj.at("metadata").dup();
    assert_eq!(meta.at("uid").str_or_empty().len(), 36);
    assert!(meta.at("creationTimestamp").str_or_empty().ends_with('Z'));
    meta.unset("uid");
    meta.unset("creationTimestamp");
    let mut out = obj.dup();
    out.set("metadata", meta);
    out
}

#[test]
fn the_roles_and_bindings_of_a_new_cluster() {
    let made = bootstrap_rbac(true, true);
    let want = [
        (
            "/registry/clusterroles/cluster-admin",
            r#"{"apiVersion": "rbac.authorization.k8s.io/v1", "kind": "ClusterRole", "metadata": {"name": "cluster-admin"}, "rules": [{"apiGroups": ["*"], "resources": ["*"], "verbs": ["*"]}]}"#,
        ),
        (
            "/registry/clusterrolebindings/system:masters",
            r#"{"apiVersion": "rbac.authorization.k8s.io/v1", "kind": "ClusterRoleBinding", "metadata": {"name": "system:masters"}, "roleRef": {"apiGroup": "rbac.authorization.k8s.io", "kind": "ClusterRole", "name": "cluster-admin"}, "subjects": [{"kind": "Group", "name": "system:masters", "apiGroup": "rbac.authorization.k8s.io"}]}"#,
        ),
        (
            "/registry/clusterrolebindings/system:kube-controller-manager",
            r#"{"apiVersion": "rbac.authorization.k8s.io/v1", "kind": "ClusterRoleBinding", "metadata": {"name": "system:kube-controller-manager"}, "roleRef": {"apiGroup": "rbac.authorization.k8s.io", "kind": "ClusterRole", "name": "cluster-admin"}, "subjects": [{"kind": "User", "name": "system:kube-controller-manager", "apiGroup": "rbac.authorization.k8s.io"}]}"#,
        ),
        (
            "/registry/clusterrolebindings/system:kube-scheduler",
            r#"{"apiVersion": "rbac.authorization.k8s.io/v1", "kind": "ClusterRoleBinding", "metadata": {"name": "system:kube-scheduler"}, "roleRef": {"apiGroup": "rbac.authorization.k8s.io", "kind": "ClusterRole", "name": "cluster-admin"}, "subjects": [{"kind": "User", "name": "system:kube-scheduler", "apiGroup": "rbac.authorization.k8s.io"}]}"#,
        ),
        (
            "/registry/clusterroles/system:node-bootstrapper",
            r#"{"apiVersion": "rbac.authorization.k8s.io/v1", "kind": "ClusterRole", "metadata": {"name": "system:node-bootstrapper"}, "rules": [{"apiGroups": ["certificates.k8s.io"], "resources": ["certificatesigningrequests"], "verbs": ["create", "get", "list", "watch"]}]}"#,
        ),
        (
            "/registry/clusterrolebindings/system:node-bootstrapper",
            r#"{"apiVersion": "rbac.authorization.k8s.io/v1", "kind": "ClusterRoleBinding", "metadata": {"name": "system:node-bootstrapper"}, "roleRef": {"apiGroup": "rbac.authorization.k8s.io", "kind": "ClusterRole", "name": "system:node-bootstrapper"}, "subjects": [{"kind": "Group", "name": "system:bootstrappers", "apiGroup": "rbac.authorization.k8s.io"}]}"#,
        ),
        (
            "/registry/clusterrolebindings/system:nodes",
            r#"{"apiVersion": "rbac.authorization.k8s.io/v1", "kind": "ClusterRoleBinding", "metadata": {"name": "system:nodes"}, "roleRef": {"apiGroup": "rbac.authorization.k8s.io", "kind": "ClusterRole", "name": "cluster-admin"}, "subjects": [{"kind": "Group", "name": "system:nodes", "apiGroup": "rbac.authorization.k8s.io"}]}"#,
        ),
        (
            "/registry/clusterroles/system:discovery",
            r#"{"apiVersion": "rbac.authorization.k8s.io/v1", "kind": "ClusterRole", "metadata": {"name": "system:discovery"}, "rules": [{"nonResourceURLs": ["/api", "/apis", "/api/*", "/apis/*", "/healthz", "/version"], "verbs": ["get"]}]}"#,
        ),
        (
            "/registry/clusterrolebindings/system:anonymous-discovery",
            r#"{"apiVersion": "rbac.authorization.k8s.io/v1", "kind": "ClusterRoleBinding", "metadata": {"name": "system:anonymous-discovery"}, "roleRef": {"apiGroup": "rbac.authorization.k8s.io", "kind": "ClusterRole", "name": "system:discovery"}, "subjects": [{"kind": "User", "name": "system:anonymous", "apiGroup": "rbac.authorization.k8s.io"}]}"#,
        ),
        (
            "/registry/clusterrolebindings/system:anonymous-admin",
            r#"{"apiVersion": "rbac.authorization.k8s.io/v1", "kind": "ClusterRoleBinding", "metadata": {"name": "system:anonymous-admin"}, "roleRef": {"apiGroup": "rbac.authorization.k8s.io", "kind": "ClusterRole", "name": "cluster-admin"}, "subjects": [{"kind": "User", "name": "system:anonymous", "apiGroup": "rbac.authorization.k8s.io"}]}"#,
        ),
    ];
    assert_eq!(made.len(), want.len());
    for ((key, obj), (want_key, text)) in made.iter().zip(want) {
        assert_eq!(key, want_key);
        same(&unstamped(obj), text);
    }
}

#[test]
fn the_objects_that_a_server_starts_with() {
    let (key, ns) = bootstrap_namespace("kube-system");
    assert_eq!(key, "/registry/namespaces/kube-system");
    same(
        &unstamped(&ns),
        r#"{"apiVersion": "v1", "kind": "Namespace", "metadata": {"name": "kube-system"},
            "spec": {"finalizers": ["kubernetes"]}, "status": {"phase": "Active"}}"#,
    );
    let (_, svc) = service_object("10.96.0.1", 6443);
    same(
        &unstamped(&svc),
        r#"{"apiVersion": "v1", "kind": "Service",
            "metadata": {"name": "kubernetes", "namespace": "default",
                         "labels": {"component": "apiserver", "provider": "kubernetes"}},
            "spec": {"clusterIP": "10.96.0.1", "clusterIPs": ["10.96.0.1"], "type": "ClusterIP",
                     "sessionAffinity": "None", "ipFamilies": ["IPv4"],
                     "ports": [{"name": "https", "protocol": "TCP", "port": 443,
                                "targetPort": 6443}]},
            "status": {"loadBalancer": {}}}"#,
    );
}

#[test]
fn a_pod_gets_an_account_and_tolerations() {
    let mut pod = json(r#"{"spec": {"serviceAccountName": ""}}"#);
    service_account_default(&mut pod);
    same(&pod, r#"{"spec": {"serviceAccountName": "default", "serviceAccount": "default"}}"#);
    let mut pod = json(r#"{"spec": {"serviceAccountName": "me"}}"#);
    service_account_default(&mut pod);
    same(&pod, r#"{"spec": {"serviceAccountName": "me", "serviceAccount": "me"}}"#);
    let mut none = json("{}");
    service_account_default(&mut none);
    same(&none, "{}");

    let mut pod = json(
        r#"{"spec": {"tolerations": [{"key": "node.kubernetes.io/not-ready"}]}}"#,
    );
    default_toleration_seconds(&mut pod);
    same(
        &pod,
        r#"{"spec": {"tolerations": [
            {"key": "node.kubernetes.io/not-ready"},
            {"key": "node.kubernetes.io/unreachable", "operator": "Exists",
             "effect": "NoExecute", "tolerationSeconds": 300}]}}"#,
    );
    let mut odd = json(r#"{"spec": {"tolerations": 3}}"#);
    default_toleration_seconds(&mut odd);
    same(&odd, r#"{"spec": {"tolerations": 3}}"#);
}

#[test]
fn a_pod_takes_the_priority_of_its_class() {
    let pod = || json(r#"{"spec": {"priorityClassName": "high"}}"#);
    assert_eq!(priority_class(&pod()), Some("high"));
    let class = json(r#"{"value": 1000}"#);
    let mut p = pod();
    priority_from_class(&mut p, Some(&class));
    assert_eq!(p.at("spec").at("priority").as_i64(), Some(1000));
    let mut p = pod();
    priority_from_class(&mut p, None);
    assert!(p.equals(&pod()));
    let set = json(r#"{"spec": {"priorityClassName": "high", "priority": 5}}"#);
    assert_eq!(priority_class(&set), None);
    assert_eq!(priority_class(&json(r#"{"spec": {"priorityClassName": ""}}"#)), None);
}

#[test]
fn kinds_and_groups_of_custom_resources() {
    let mut reg = CrdRegistry::new();
    reg.register(&json(
        r#"{"spec": {"group": "demo.io", "scope": "Cluster",
            "names": {"plural": "things", "kind": "Thing"},
            "versions": [{"name": "v1"}, {"name": "v2"}, {"name": "v3", "served": false}]}}"#,
    ));
    assert_eq!(reg.resource_for_kind("demo.io", "v2", "Thing"), Some(("things".into(), false)));
    assert_eq!(reg.resource_for_kind("demo.io", "v3", "Thing"), None);
    assert_eq!(reg.resource_for_kind("demo.io", "v1", "Other"), None);
    let groups = reg.api_groups();
    assert_eq!(groups.len(), 1);
    assert!(groups[0].at("name").is_text("demo.io"));
    let versions = groups[0].at("versions");
    assert_eq!(versions.as_array().map(|a| a.len()), Some(2));
    assert!(groups[0].at("preferredVersion").equals(versions.item(0)));

    assert!(validate_crd_group("demo.io").is_ok());
    match validate_crd_group("demo") {
        Err(e) => assert_eq!(
            e.message,
            "spec.group: Invalid value: \"demo\": should be a domain with at least one dot"
        ),
        Ok(_) => panic!("a group without a dot was taken"),
    }
}

#[test]
fn schemas_and_version_name_the_server() {
    let v = version("linux/x86_64");
    assert!(v.at("major").is_text("1") && v.at("minor").is_text("36"));
    assert!(v.at("platform").is_text("linux/x86_64"));
    assert!(v.at("gitVersion").str_or_empty().starts_with("v1.36.0-rustkube+"));
    let two = openapi_v2();
    assert!(two.at("swagger").is_text("2.0"));
    assert!(two.at("info").at("version").equals(v.at("gitVersion")));
    same(two.at("paths"), "{}");
    same(
        &openapi_v3(),
        r#"{"paths": {
            "api/v1": {"serverRelativeURL": "/openapi/v3/api/v1"},
            "apis/apps/v1": {"serverRelativeURL": "/openapi/v3/apis/apps/v1"},
            "apis/batch/v1": {"serverRelativeURL": "/openapi/v3/apis/batch/v1"},
            "apis/discovery.k8s.io/v1":
                {"serverRelativeURL": "/openapi/v3/apis/discovery.k8s.io/v1"},
            "apis/storage.k8s.io/v1":
                {"serverRelativeURL": "/openapi/v3/apis/storage.k8s.io/v1"},
            "apis/rbac.authorization.k8s.io/v1":
                {"serverRelativeURL": "/openapi/v3/apis/rbac.authorization.k8s.io/v1"},
            "apis/coordination.k8s.io/v1":
                {"serverRelativeURL": "/openapi/v3/apis/coordination.k8s.io/v1"},
            "apis/certificates.k8s.io/v1":
                {"serverRelativeURL": "/openapi/v3/apis/certificates.k8s.io/v1"},
            "apis/apiextensions.k8s.io/v1":
                {"serverRelativeURL": "/openapi/v3/apis/apiextensions.k8s.io/v1"}}}"#,
    );
}

#[test]
fn operations_are_read_leniently() {
    let target = json(r#"{"spec": {"a": 1}}"#);
    let mut ops = json(
        r#"[{"op": "test", "path": "/spec/taints", "value": null},
            {"op": "test", "path": "/spec/taints", "value": []},
            {"op": "test", "path": "/spec/taints", "value": {}},
            {"op": "test", "path": "/spec/taints", "value": 3},
            {"op": "test", "path": "/spec/a", "value": null},
            {"op": "replace", "path": "/spec/taints", "value": []},
            {"op": "replace", "path": "/spec/a", "value": 2},
            {"op": "replace", "path": "/status/x", "value": 2},
            {"op": "replace", "path": "/status", "value": 2}]"#,
    );
    normalize_json_patch(&target, &mut ops);
    same(
        &ops,
        r#"[{"op": "test", "path": "/spec/taints", "value": 3},
            {"op": "test", "path": "/spec/a", "value": null},
            {"op": "add", "path": "/spec/taints", "value": []},
            {"op": "replace", "path": "/spec/a", "value": 2},
            {"op": "replace", "path": "/status/x", "value": 2},
            {"op": "add", "path": "/status", "value": 2}]"#,
    );
    let mut odd = json(r#"{"op": "test"}"#);
    normalize_json_patch(&target, &mut odd);
    same(&odd, r#"{"op": "test"}"#);
}

#[test]
fn the_server_keeps_its_fields() {
    let stored = json(r#"{"metadata": {"uid": "u", "creationTimestamp": null}}"#);
    let mut obj = json(r#"{"metadata": {"uid": "x", "creationTimestamp": "t", "name": "z"}}"#);
    keep_server_fields(&mut obj, &stored, "a", Some("n"));
    same(
        &obj,
        r#"{"metadata": {"uid": "u", "creationTimestamp": "t", "name": "a", "namespace": "n"}}"#,
    );
    let mut bare = json(r#"{"metadata": 3}"#);
    keep_server_fields(&mut bare, &stored, "a", None);
    same(&bare, r#"{"metadata": {"uid": "u", "name": "a"}}"#);
}

#[test]
fn paths_name_what_is_asked() {
    let parts = |path: &str| {
        let segments: Vec<String> = path.split('/').map(str::to_string).collect();
        parse_path_segments(&segments).map(|p| {
            (p.api_group, p.resource, p.namespace, p.name, p.subresource)
        })
    };
    let text = |s: &str| Some(s.to_string());
    assert_eq!(parts("api/v1/pods"), Some(("".into(), "pods".into(), None, None, None)));
    assert_eq!(
        parts("api/v1/namespaces/n/pods/p/log"),
        Some(("".into(), "pods".into(), text("n"), text("p"), text("log")))
    );
    assert_eq!(
        parts("apis/apps/v1/namespaces/n/deployments/d"),
        Some(("apps".into(), "deployments".into(), text("n"), text("d"), None))
    );
    assert_eq!(
        parts("apis/apps/v1/namespaces/n/deployments"),
        Some(("apps".into(), "deployments".into(), text("n"), None, None))
    );
    assert_eq!(
        parts("apis/storage.k8s.io/v1/storageclasses/s/status"),
        Some(("storage.k8s.io".into(), "storageclasses".into(), None, text("s"), text("status")))
    );
    assert_eq!(
        parts("apis/storage.k8s.io/v1/storageclasses/s"),
        Some(("storage.k8s.io".into(), "storageclasses".into(), None, text("s"), None))
    );
    for path in ["api/v1", "apis/apps/v1", "api/v2/pods", "metrics", "api/v1/a/b/c/d"] {
        assert_eq!(parts(path), None, "{path}");
    }
}

#[test]
fn a_first_event_is_an_addition() {
    let obj = json(r#"{"kind": "Pod", "apiVersion": "v1", "metadata": {"name": "a"}}"#);
    let line = render_initial_added(obj, false, Transform::Same);
    assert!(line.ends_with('\n'));
    same(
        &json(&line),
        r#"{"type": "ADDED",
            "object": {"kind": "Pod", "apiVersion": "v1", "metadata": {"name": "a"}}}"#,
    );
}

#[test]
fn keys_and_prefixes() {
    assert_eq!(ResourceStorage::cluster_prefix("nodes"), "/registry/nodes/");
    assert_eq!(ResourceStorage::all_namespaces_prefix("pods"), "/registry/pods/");
    assert_eq!(ResourceStorage::namespace_prefix("pods", "n"), "/registry/pods/n/");
}

#[test]
fn whoever_lists_namespaces_watches_projects() {
    let q = sees_all_request();
    assert_eq!((q.verb.as_str(), q.resource.as_str()), ("list", "namespaces"));
    assert_eq!((q.api_group.as_str(), q.namespace, q.name), ("", None, None));
    let user = UserInfo { username: "alice".to_string(), groups: Vec::new() };
    let e = watch_refusal(&user);
    assert_eq!(e.status, 403);
    assert_eq!(
        e.message,
        "alice may not watch projects: watching is limited to users who may list every \
         namespace; list projects instead"
    );
    same(
        &success(),
        r#"{"apiVersion": "v1", "kind": "Status", "metadata": {}, "status": "Success"}"#,
    );
}

/// Lists in a row, as one.
fn joined(texts: &[&str]) -> Json {
    let mut out = Json::list();
    for text in texts {
        let list = json(text);
        for rule in list.as_array().unwrap() {
            out = out.and(rule.dup());
        }
    }
    out
}

#[test]
fn the_roles_that_projects_are_shared_with() {
    let view = r#"[
            {"apiGroups": [""], "resources": ["pods", "services", "endpoints", "configmaps", "persistentvolumeclaims", "replicationcontrollers", "replicationcontrollers/scale", "serviceaccounts"], "verbs": ["get", "list", "watch"]},
            {"apiGroups": ["apps"], "resources": ["deployments", "deployments/scale", "replicasets", "replicasets/scale", "statefulsets", "statefulsets/scale", "daemonsets"], "verbs": ["get", "list", "watch"]},
            {"apiGroups": ["batch"], "resources": ["jobs", "cronjobs"], "verbs": ["get", "list", "watch"]},
            {"apiGroups": ["autoscaling"], "resources": ["horizontalpodautoscalers"], "verbs": ["get", "list", "watch"]},
            {"apiGroups": ["policy"], "resources": ["poddisruptionbudgets"], "verbs": ["get", "list", "watch"]},
            {"apiGroups": ["networking.k8s.io"], "resources": ["ingresses", "networkpolicies"], "verbs": ["get", "list", "watch"]},
            {"apiGroups": ["gateway.networking.k8s.io"], "resources": ["gateways", "httproutes"], "verbs": ["get", "list", "watch"]},
            {"apiGroups": ["route.openshift.io"], "resources": ["routes"], "verbs": ["get", "list", "watch"]},
            {"apiGroups": ["kubevirt.io"], "resources": ["virtualmachines", "virtualmachineinstances"], "verbs": ["get", "list", "watch"]},
            {"apiGroups": ["snapshot.storage.k8s.io"], "resources": ["volumesnapshots"], "verbs": ["get", "list", "watch"]},
            {"apiGroups": [""], "resources": ["pods/log", "pods/status", "services/status", "persistentvolumeclaims/status", "replicationcontrollers/status", "events", "limitranges", "resourcequotas", "resourcequotas/status", "bindings", "namespaces", "namespaces/status"], "verbs": ["get", "list", "watch"]},
            {"apiGroups": ["apps"], "resources": ["deployments/status", "replicasets/status", "statefulsets/status", "daemonsets/status", "controllerrevisions"], "verbs": ["get", "list", "watch"]},
            {"apiGroups": ["batch"], "resources": ["jobs/status", "cronjobs/status"], "verbs": ["get", "list", "watch"]},
            {"apiGroups": ["autoscaling"], "resources": ["horizontalpodautoscalers/status"], "verbs": ["get", "list", "watch"]},
            {"apiGroups": ["policy"], "resources": ["poddisruptionbudgets/status"], "verbs": ["get", "list", "watch"]},
            {"apiGroups": ["networking.k8s.io"], "resources": ["ingresses/status"], "verbs": ["get", "list", "watch"]},
            {"apiGroups": ["discovery.k8s.io"], "resources": ["endpointslices"], "verbs": ["get", "list", "watch"]},
            {"apiGroups": ["events.k8s.io"], "resources": ["events"], "verbs": ["get", "list", "watch"]},
            {"apiGroups": ["gateway.networking.k8s.io"], "resources": ["gateways/status", "httproutes/status"], "verbs": ["get", "list", "watch"]},
            {"apiGroups": ["route.openshift.io"], "resources": ["routes/status"], "verbs": ["get", "list", "watch"]},
            {"apiGroups": ["project.openshift.io"], "resources": ["projects"], "verbs": ["get"]}
        ]"#;
    let edit = r#"[
            {"apiGroups": [""], "resources": ["pods", "services", "endpoints", "configmaps", "persistentvolumeclaims", "replicationcontrollers", "replicationcontrollers/scale", "serviceaccounts"], "verbs": ["create", "delete", "deletecollection", "patch", "update"]},
            {"apiGroups": ["apps"], "resources": ["deployments", "deployments/scale", "replicasets", "replicasets/scale", "statefulsets", "statefulsets/scale", "daemonsets"], "verbs": ["create", "delete", "deletecollection", "patch", "update"]},
            {"apiGroups": ["batch"], "resources": ["jobs", "cronjobs"], "verbs": ["create", "delete", "deletecollection", "patch", "update"]},
            {"apiGroups": ["autoscaling"], "resources": ["horizontalpodautoscalers"], "verbs": ["create", "delete", "deletecollection", "patch", "update"]},
            {"apiGroups": ["policy"], "resources": ["poddisruptionbudgets"], "verbs": ["create", "delete", "deletecollection", "patch", "update"]},
            {"apiGroups": ["networking.k8s.io"], "resources": ["ingresses", "networkpolicies"], "verbs": ["create", "delete", "deletecollection", "patch", "update"]},
            {"apiGroups": ["gateway.networking.k8s.io"], "resources": ["gateways", "httproutes"], "verbs": ["create", "delete", "deletecollection", "patch", "update"]},
            {"apiGroups": ["route.openshift.io"], "resources": ["routes"], "verbs": ["create", "delete", "deletecollection", "patch", "update"]},
            {"apiGroups": ["kubevirt.io"], "resources": ["virtualmachines", "virtualmachineinstances"], "verbs": ["create", "delete", "deletecollection", "patch", "update"]},
            {"apiGroups": ["snapshot.storage.k8s.io"], "resources": ["volumesnapshots"], "verbs": ["create", "delete", "deletecollection", "patch", "update"]},
            {"apiGroups": [""], "resources": ["secrets"], "verbs": ["get", "list", "watch", "create", "delete", "deletecollection", "patch", "update"]},
            {"apiGroups": [""], "resources": ["pods/exec", "pods/attach", "pods/portforward"], "verbs": ["get", "create"]},
            {"apiGroups": [""], "resources": ["pods/eviction"], "verbs": ["create"]},
            {"apiGroups": ["subresources.kubevirt.io"], "resources": ["virtualmachines/start", "virtualmachines/stop", "virtualmachines/restart"], "verbs": ["update"]},
            {"apiGroups": ["subresources.kubevirt.io"], "resources": ["virtualmachineinstances/console", "virtualmachineinstances/vnc"], "verbs": ["get"]}
        ]"#;
    let admin = r#"[
            {"apiGroups": ["rbac.authorization.k8s.io"], "resources": ["roles", "rolebindings"], "verbs": ["get", "list", "watch", "create", "delete", "deletecollection", "patch", "update"]},
            {"apiGroups": ["authorization.k8s.io"], "resources": ["localsubjectaccessreviews"], "verbs": ["create"]},
            {"apiGroups": ["project.openshift.io"], "resources": ["projects"], "verbs": ["delete", "update"]}
        ]"#;
    let basic = r#"[
            {"apiGroups": ["project.openshift.io"], "resources": ["projects"], "verbs": ["list", "watch"]},
            {"apiGroups": ["project.openshift.io"], "resources": ["projectrequests"], "verbs": ["list"]}
        ]"#;
    let provision = r#"[
            {"apiGroups": ["project.openshift.io"], "resources": ["projectrequests"], "verbs": ["create"]}
        ]"#;
    let want = [
        ("admin", joined(&[view, edit, admin])),
        ("edit", joined(&[view, edit])),
        ("view", joined(&[view])),
        ("basic-user", joined(&[basic])),
        ("self-provisioner", joined(&[provision])),
    ];
    let roles = bootstrap_cluster_roles();
    assert_eq!(roles.len(), want.len());
    for (role, (name, rules)) in roles.iter().zip(want) {
        assert!(role.at("metadata").at("name").is_text(name));
        assert!(role.at("kind").is_text("ClusterRole"));
        assert!(role.at("rules").equals(&rules), "{}", write_json(role));
    }
    let notes: Vec<&str> = roles
        .iter()
        .map(|r| r.at("metadata").at("annotations").at("openshift.io/description").str_or_empty())
        .collect();
    assert_eq!(
        notes,
        [
            "A project's owner: everything in edit, plus sharing the project and deleting it.",
            "Create, change and delete the workloads in a project; read its secrets.",
            "Read everything in a project except its secrets.",
            "List one's own projects (the server filters) and ask whether one may request one.",
            "Request a new project, becoming its admin.",
        ]
    );

    let bindings = bootstrap_cluster_role_bindings();
    assert_eq!(bindings.len(), 2);
    same(
        &bindings[1],
        r#"{"apiVersion": "rbac.authorization.k8s.io/v1", "kind": "ClusterRoleBinding",
            "metadata": {"name": "self-provisioners"},
            "roleRef": {"apiGroup": "rbac.authorization.k8s.io", "kind": "ClusterRole",
                        "name": "self-provisioner"},
            "subjects": [{"kind": "Group", "apiGroup": "rbac.authorization.k8s.io",
                          "name": "system:authenticated"}]}"#,
    );
    assert!(bindings[0].at("metadata").at("name").is_text("basic-users"));
    assert!(bindings[0].at("roleRef").at("name").is_text("basic-user"));
}

fn columns(resource: &str, want: &[(&str, i64, &str)]) {
    let table = to_table(resource, &json(r#"{"items": []}"#));
    assert!(table.at("kind").is_text("Table"));
    assert!(table.at("apiVersion").is_text("meta.k8s.io/v1"));
    same(table.at("rows"), "[]");
    let got = table.at("columnDefinitions");
    assert_eq!(got.as_array().map(|a| a.len()), Some(want.len()), "{resource}");
    for (i, (name, priority, description)) in want.iter().enumerate() {
        let c = got.item(i);
        assert!(c.at("name").is_text(name), "{resource} {name}");
        assert!(c.at("type").is_text("string"), "{resource} {name}");
        assert_eq!(c.at("priority").as_i64(), Some(*priority), "{resource} {name}");
        assert!(c.at("description").is_text(description), "{resource} {name}");
    }
}

#[test]
fn the_columns_of_each_printer() {
    columns(
        "persistentvolumeclaims",
        &[
            ("Name", 0, "Name of the claim"),
            ("Status", 0, "Bound, Pending or Lost"),
            ("Volume", 0, "The PersistentVolume it is bound to"),
            ("Capacity", 0, "Capacity of the bound volume"),
            ("Access Modes", 0, "How the volume may be mounted"),
            ("Storageclass", 0, "The StorageClass that provisioned it"),
            ("Age", 0, "Time since creation"),
        ],
    );
    columns(
        "persistentvolumes",
        &[
            ("Name", 0, "Name of the volume"),
            ("Capacity", 0, "Its capacity"),
            ("Access Modes", 0, "How it may be mounted"),
            ("Reclaim Policy", 0, "What happens when its claim goes"),
            ("Status", 0, "Available, Bound, Released or Failed"),
            ("Claim", 0, "The claim it is bound to"),
            ("Storageclass", 0, "The StorageClass it came from"),
            ("Age", 0, "Time since creation"),
        ],
    );
    columns(
        "pods",
        &[
            ("Name", 0, "Name of the pod"),
            ("Ready", 0, "Containers ready over total"),
            ("Status", 0, "Pod phase"),
            ("Restarts", 0, "Total container restarts"),
            ("Age", 0, "Time since creation"),
            ("IP", 1, "Pod IP"),
            ("Node", 1, "Node it is on"),
        ],
    );
    columns(
        "nodes",
        &[
            ("Name", 0, "Name of the node"),
            ("Status", 0, "Ready, NotReady or unknown"),
            ("Roles", 0, "Roles from node-role labels"),
            ("Age", 0, "Time since creation"),
            ("Version", 0, "Kubelet version"),
        ],
    );
    columns(
        "namespaces",
        &[
            ("Name", 0, "Name of the namespace"),
            ("Status", 0, "Active or Terminating"),
            ("Age", 0, "Time since creation"),
        ],
    );
    columns("widgets", &[("Name", 0, "Name of the object"), ("Age", 0, "Time since creation")]);
}
