//! Discovery: the documents by which clients learn what is served.

use vstd::prelude::*;
use vstd::string::*;

use crate::apimachinery::VERSION;
use crate::apiserver::crd::{group_docs, groups_of, version_doc, CrdRegistry};
use crate::apiserver::handlers::kinds::{api_version_of, kind_of};
use crate::apiserver::manifests::{group_of, law_an_api_version_names_its_group, version_of};
use crate::json::{empty_object, no_items, str_tree, trees, Json, Tree};
use crate::text::{
    drop_back, drop_front, lemma_split_push, lemma_split_whole, same, split, split_on, texts,
    trim_end_char, trim_start_char,
};

verus! {

// ---------------------------------------------------------------------------
// Version and health
// ---------------------------------------------------------------------------

/// The version of the API that is served, with the version of this program.
pub open spec fn git_version() -> Seq<char> {
    "v1.36.0-rustkube+"@ + VERSION@
}

fn git_version_text() -> (r: String)
    ensures
        r@ == git_version(),
{
    "v1.36.0-rustkube+".to_owned().concat(VERSION)
}

/// The document of `/version` on a platform.
pub fn version(platform: &str) -> (r: Json)
    ensures
        r@ == Tree::Object(
            map![
                "major"@ => str_tree("1"),
                "minor"@ => str_tree("36"),
                "gitVersion"@ => Tree::String(git_version()),
                "gitCommit"@ => str_tree(""),
                "gitTreeState"@ => str_tree("clean"),
                "buildDate"@ => str_tree("2026-03-17T00:00:00Z"),
                "goVersion"@ => str_tree("rustc/1.93.0"),
                "compiler"@ => str_tree("rustc"),
                "platform"@ => Tree::String(platform@),
            ],
        ),
{
    Json::object().with("major", Json::text("1")).with("minor", Json::text("36")).with(
        "gitVersion",
        Json::String(git_version_text()),
    ).with("gitCommit", Json::text("")).with("gitTreeState", Json::text("clean")).with(
        "buildDate",
        Json::text("2026-03-17T00:00:00Z"),
    ).with("goVersion", Json::text("rustc/1.93.0")).with("compiler", Json::text("rustc")).with(
        "platform",
        Json::text(platform),
    )
}

/// The answer of `/healthz`.
pub fn healthz() -> (r: &'static str)
    ensures
        r@ == "ok"@,
{
    "ok"
}

/// The answer of `/livez`.
pub fn livez() -> (r: &'static str)
    ensures
        r@ == "ok"@,
{
    "ok"
}

/// The answer of `/readyz`.
pub fn readyz() -> (r: &'static str)
    ensures
        r@ == "ok"@,
{
    "ok"
}

// ---------------------------------------------------------------------------
// Groups
// ---------------------------------------------------------------------------

/// The document of `/api`: the versions of the core group.
pub fn api_versions() -> (r: Json)
    ensures
        r@ == Tree::Object(
            map![
                "kind"@ => str_tree("APIVersions"),
                "versions"@ => no_items().plus(str_tree("v1")),
                "serverAddressByClientCIDRs"@ => no_items().plus(Tree::Object(map![
                    "clientCIDR"@ => str_tree("0.0.0.0/0"),
                    "serverAddress"@ => str_tree(""),
                ])),
            ],
        ),
{
    Json::object().with("kind", Json::text("APIVersions")).with(
        "versions",
        Json::list().and(Json::text("v1")),
    ).with(
        "serverAddressByClientCIDRs",
        Json::list().and(
            Json::object().with("clientCIDR", Json::text("0.0.0.0/0")).with(
                "serverAddress",
                Json::text(""),
            ),
        ),
    )
}

/// A group with one version.
pub open spec fn group_entry(name: Seq<char>, version: Seq<char>) -> Tree {
    Tree::Object(
        map![
            "name"@ => Tree::String(name),
            "versions"@ => no_items().plus(version_doc(name, version)),
            "preferredVersion"@ => version_doc(name, version),
        ],
    )
}

fn version_entry(name: &str, version: &str) -> (r: Json)
    ensures
        r@ == version_doc(name@, version@),
{
    let gv = name.to_owned().concat("/").concat(version);
    Json::object().with("groupVersion", Json::String(gv)).with("version", Json::text(version))
}

fn group_document(name: &str, version: &str) -> (r: Json)
    ensures
        r@ == group_entry(name@, version@),
{
    Json::object().with("name", Json::text(name)).with(
        "versions",
        Json::list().and(version_entry(name, version)),
    ).with("preferredVersion", version_entry(name, version))
}

/// The built-in groups, each with its one version.
pub open spec fn builtin_groups() -> Tree {
    no_items().plus(group_entry("apps"@, "v1"@)).plus(group_entry("batch"@, "v1"@))
        .plus(group_entry("rbac.authorization.k8s.io"@, "v1"@))
        .plus(group_entry("coordination.k8s.io"@, "v1"@)).plus(group_entry("certificates.k8s.io"@,
        "v1"@)).plus(group_entry("discovery.k8s.io"@, "v1"@)).plus(group_entry("storage.k8s.io"@,
        "v1"@)).plus(group_entry("policy"@, "v1"@)).plus(group_entry("apiextensions.k8s.io"@,
        "v1"@)).plus(group_entry("autoscaling"@, "v2"@)).plus(group_entry("networking.k8s.io"@,
        "v1"@)).plus(group_entry("admissionregistration.k8s.io"@, "v1"@))
        .plus(group_entry("gateway.networking.k8s.io"@, "v1"@))
        .plus(group_entry("apiregistration.k8s.io"@, "v1"@)).plus(group_entry("rustkube.io"@,
        "v1alpha1"@))
}

fn built_in() -> (r: Json)
    ensures
        r@ == builtin_groups(),
        r@ is Array,
{
    Json::list().and(group_document("apps", "v1")).and(group_document("batch", "v1"))
        .and(group_document("rbac.authorization.k8s.io", "v1"))
        .and(group_document("coordination.k8s.io", "v1")).and(group_document("certificates.k8s.io",
        "v1")).and(group_document("discovery.k8s.io", "v1")).and(group_document("storage.k8s.io",
        "v1")).and(group_document("policy", "v1")).and(group_document("apiextensions.k8s.io", "v1"))
        .and(group_document("autoscaling", "v2")).and(group_document("networking.k8s.io", "v1"))
        .and(group_document("admissionregistration.k8s.io", "v1"))
        .and(group_document("gateway.networking.k8s.io", "v1"))
        .and(group_document("apiregistration.k8s.io", "v1")).and(group_document("rustkube.io",
        "v1alpha1"))
}

/// The document of `/apis`: the built-in groups, then those of custom resources.
pub fn api_groups_dynamic(registry: &CrdRegistry) -> (r: Json)
    ensures
        r@ == Tree::Object(
            map![
                "kind"@ => str_tree("APIGroupList"),
                "apiVersion"@ => str_tree("v1"),
                "groups"@ => Tree::Array(
                    builtin_groups().items_or_none() + group_docs(
                        registry.defs(),
                        groups_of(registry.defs()),
                    ),
                ),
            ],
        ),
{
    let mut more = registry.api_groups();
    let ghost extra = trees(more@);
    let all = match built_in() {
        Json::Array(a) => {
            let mut all = a;
            let ghost first = trees(all@);
            all.append(&mut more);
            assert(trees(all@) =~= first + extra);
            all
        },
        _ => Vec::new(),
    };
    Json::object().with("kind", Json::text("APIGroupList")).with(
        "apiVersion",
        Json::text("v1"),
    ).with("groups", Json::Array(all))
}

// ---------------------------------------------------------------------------
// Resources
// ---------------------------------------------------------------------------

/// The verbs of a resource.
pub open spec fn all_verbs() -> Tree {
    no_items().plus(str_tree("create")).plus(str_tree("delete")).plus(str_tree("get")).plus(
        str_tree("list"),
    ).plus(str_tree("patch")).plus(str_tree("update")).plus(str_tree("watch"))
}

fn verbs_all() -> (r: Json)
    ensures
        r@ == all_verbs(),
{
    Json::list().and(Json::text("create")).and(Json::text("delete")).and(Json::text("get")).and(
        Json::text("list"),
    ).and(Json::text("patch")).and(Json::text("update")).and(Json::text("watch"))
}

/// The verbs of a resource whose objects can be deleted all at once.
pub open spec fn collection_verbs() -> Tree {
    no_items().plus(str_tree("create")).plus(str_tree("delete")).plus(
        str_tree("deletecollection"),
    ).plus(str_tree("get")).plus(str_tree("list")).plus(str_tree("patch")).plus(
        str_tree("update"),
    ).plus(str_tree("watch"))
}

pub(crate) fn verbs_collection() -> (r: Json)
    ensures
        r@ == collection_verbs(),
{
    Json::list().and(Json::text("create")).and(Json::text("delete")).and(
        Json::text("deletecollection"),
    ).and(Json::text("get")).and(Json::text("list")).and(Json::text("patch")).and(
        Json::text("update"),
    ).and(Json::text("watch"))
}

/// The verbs of a status.
pub open spec fn status_verbs() -> Tree {
    no_items().plus(str_tree("get")).plus(str_tree("patch")).plus(str_tree("update"))
}

fn verbs_status() -> (r: Json)
    ensures
        r@ == status_verbs(),
{
    Json::list().and(Json::text("get")).and(Json::text("patch")).and(Json::text("update"))
}

/// A resource of a group.
pub open spec fn served_row(
    name: Seq<char>,
    singular: Seq<char>,
    namespaced: bool,
    kind: Seq<char>,
    verbs: Tree,
) -> Tree {
    Tree::Object(
        map![
            "name"@ => Tree::String(name),
            "singularName"@ => Tree::String(singular),
            "namespaced"@ => Tree::Bool(namespaced),
            "kind"@ => Tree::String(kind),
            "verbs"@ => verbs,
        ],
    )
}

pub(crate) fn row(name: &str, singular: &str, namespaced: bool, kind: &str, verbs: Json) -> (r: Json)
    ensures
        r@ == served_row(name@, singular@, namespaced, kind@, verbs@),
{
    Json::object().with("name", Json::text(name)).with("singularName", Json::text(singular)).with(
        "namespaced",
        Json::flag(namespaced),
    ).with("kind", Json::text(kind)).with("verbs", verbs)
}

/// The resources of a group and version.
pub open spec fn list_of(group_version: Seq<char>, rows: Tree) -> Tree {
    Tree::Object(
        map![
            "kind"@ => str_tree("APIResourceList"),
            "groupVersion"@ => Tree::String(group_version),
            "resources"@ => rows,
        ],
    )
}

pub(crate) fn resource_list(group_version: &str, rows: Json) -> (r: Json)
    ensures
        r@ == list_of(group_version@, rows@),
{
    Json::object().with("kind", Json::text("APIResourceList")).with(
        "groupVersion",
        Json::text(group_version),
    ).with("resources", rows)
}

/// The resources of `v1`.
pub open spec fn v1_rows() -> Tree {
    no_items().plus(
        served_row("namespaces"@, "namespace"@, false, "Namespace"@, all_verbs()).set("shortNames"@,
            no_items().plus(str_tree("ns"))),
    ).plus(
        served_row("nodes"@, "node"@, false, "Node"@, all_verbs()).set("shortNames"@, no_items()
            .plus(str_tree("no"))),
    ).plus(
        served_row("nodes/status"@, ""@, false, "Node"@, status_verbs()),
    ).plus(
        served_row("pods"@, "pod"@, true, "Pod"@, collection_verbs()).set("shortNames"@, no_items()
            .plus(str_tree("po"))),
    ).plus(
        served_row("pods/status"@, ""@, true, "Pod"@, status_verbs()),
    ).plus(
        served_row("pods/log"@, ""@, true, "Pod"@, no_items().plus(str_tree("get"))),
    ).plus(
        served_row("services"@, "service"@, true, "Service"@, all_verbs()).set("shortNames"@,
            no_items().plus(str_tree("svc"))),
    ).plus(
        served_row("services/status"@, ""@, true, "Service"@, status_verbs()),
    ).plus(
        served_row("endpoints"@, "endpoint"@, true, "Endpoints"@, all_verbs()).set("shortNames"@,
            no_items().plus(str_tree("ep"))),
    ).plus(
        served_row("configmaps"@, "configmap"@, true, "ConfigMap"@, all_verbs()).set("shortNames"@,
            no_items().plus(str_tree("cm"))),
    ).plus(
        served_row("secrets"@, "secret"@, true, "Secret"@, all_verbs()),
    ).plus(
        served_row("serviceaccounts"@, "serviceaccount"@, true, "ServiceAccount"@, all_verbs())
            .set("shortNames"@, no_items().plus(str_tree("sa"))),
    ).plus(
        served_row("events"@, "event"@, true, "Event"@, all_verbs()).set("shortNames"@, no_items()
            .plus(str_tree("ev"))),
    ).plus(
        served_row("persistentvolumeclaims"@, "persistentvolumeclaim"@, true,
            "PersistentVolumeClaim"@, all_verbs()).set("shortNames"@, no_items().plus(str_tree("pvc"))),
    ).plus(
        served_row("persistentvolumes"@, "persistentvolume"@, false, "PersistentVolume"@,
            all_verbs()).set("shortNames"@, no_items().plus(str_tree("pv"))),
    )
}

/// The discovery document of `v1`.
pub fn api_v1_resources() -> (r: Json)
    ensures
        r@ == list_of("v1"@, v1_rows()),
{
    let rows = Json::list().and(
        row("namespaces", "namespace", false, "Namespace", verbs_all()).with("shortNames",
            Json::list().and(Json::text("ns"))),
    ).and(
        row("nodes", "node", false, "Node", verbs_all()).with("shortNames", Json::list()
            .and(Json::text("no"))),
    ).and(
        row("nodes/status", "", false, "Node", verbs_status()),
    ).and(
        row("pods", "pod", true, "Pod", verbs_collection()).with("shortNames", Json::list()
            .and(Json::text("po"))),
    ).and(
        row("pods/status", "", true, "Pod", verbs_status()),
    ).and(
        row("pods/log", "", true, "Pod", Json::list().and(Json::text("get"))),
    ).and(
        row("services", "service", true, "Service", verbs_all()).with("shortNames", Json::list()
            .and(Json::text("svc"))),
    ).and(
        row("services/status", "", true, "Service", verbs_status()),
    ).and(
        row("endpoints", "endpoint", true, "Endpoints", verbs_all()).with("shortNames", Json::list()
            .and(Json::text("ep"))),
    ).and(
        row("configmaps", "configmap", true, "ConfigMap", verbs_all()).with("shortNames",
            Json::list().and(Json::text("cm"))),
    ).and(
        row("secrets", "secret", true, "Secret", verbs_all()),
    ).and(
        row("serviceaccounts", "serviceaccount", true, "ServiceAccount", verbs_all())
            .with("shortNames", Json::list().and(Json::text("sa"))),
    ).and(
        row("events", "event", true, "Event", verbs_all()).with("shortNames", Json::list()
            .and(Json::text("ev"))),
    ).and(
        row("persistentvolumeclaims", "persistentvolumeclaim", true, "PersistentVolumeClaim",
            verbs_all()).with("shortNames", Json::list().and(Json::text("pvc"))),
    ).and(
        row("persistentvolumes", "persistentvolume", false, "PersistentVolume", verbs_all())
            .with("shortNames", Json::list().and(Json::text("pv"))),
    );
    resource_list("v1", rows)
}

/// The resources of `apps/v1`.
pub open spec fn apps_v1_rows() -> Tree {
    no_items().plus(
        served_row("deployments"@, "deployment"@, true, "Deployment"@, all_verbs())
            .set("shortNames"@, no_items().plus(str_tree("deploy"))),
    ).plus(
        served_row("deployments/status"@, ""@, true, "Deployment"@, status_verbs()),
    ).plus(
        served_row("deployments/scale"@, ""@, true, "Scale"@, status_verbs()).set("group"@,
            str_tree("autoscaling")).set("version"@, str_tree("v1")),
    ).plus(
        served_row("replicasets"@, "replicaset"@, true, "ReplicaSet"@, all_verbs())
            .set("shortNames"@, no_items().plus(str_tree("rs"))),
    ).plus(
        served_row("statefulsets"@, "statefulset"@, true, "StatefulSet"@, all_verbs())
            .set("shortNames"@, no_items().plus(str_tree("sts"))),
    ).plus(
        served_row("statefulsets/status"@, ""@, true, "StatefulSet"@, status_verbs()),
    ).plus(
        served_row("daemonsets"@, "daemonset"@, true, "DaemonSet"@, all_verbs()).set("shortNames"@,
            no_items().plus(str_tree("ds"))),
    ).plus(
        served_row("daemonsets/status"@, ""@, true, "DaemonSet"@, status_verbs()),
    )
}

/// The discovery document of `apps/v1`.
pub fn api_apps_v1_resources() -> (r: Json)
    ensures
        r@ == list_of("apps/v1"@, apps_v1_rows()),
{
    let rows = Json::list().and(
        row("deployments", "deployment", true, "Deployment", verbs_all()).with("shortNames",
            Json::list().and(Json::text("deploy"))),
    ).and(
        row("deployments/status", "", true, "Deployment", verbs_status()),
    ).and(
        row("deployments/scale", "", true, "Scale", verbs_status()).with("group",
            Json::text("autoscaling")).with("version", Json::text("v1")),
    ).and(
        row("replicasets", "replicaset", true, "ReplicaSet", verbs_all()).with("shortNames",
            Json::list().and(Json::text("rs"))),
    ).and(
        row("statefulsets", "statefulset", true, "StatefulSet", verbs_all()).with("shortNames",
            Json::list().and(Json::text("sts"))),
    ).and(
        row("statefulsets/status", "", true, "StatefulSet", verbs_status()),
    ).and(
        row("daemonsets", "daemonset", true, "DaemonSet", verbs_all()).with("shortNames",
            Json::list().and(Json::text("ds"))),
    ).and(
        row("daemonsets/status", "", true, "DaemonSet", verbs_status()),
    );
    resource_list("apps/v1", rows)
}

/// The resources of `batch/v1`.
pub open spec fn batch_v1_rows() -> Tree {
    no_items().plus(
        served_row("jobs"@, "job"@, true, "Job"@, all_verbs()),
    ).plus(
        served_row("jobs/status"@, ""@, true, "Job"@, status_verbs()),
    ).plus(
        served_row("cronjobs"@, "cronjob"@, true, "CronJob"@, all_verbs()).set("shortNames"@,
            no_items().plus(str_tree("cj"))),
    ).plus(
        served_row("cronjobs/status"@, ""@, true, "CronJob"@, status_verbs()),
    )
}

/// The discovery document of `batch/v1`.
pub fn api_batch_v1_resources() -> (r: Json)
    ensures
        r@ == list_of("batch/v1"@, batch_v1_rows()),
{
    let rows = Json::list().and(
        row("jobs", "job", true, "Job", verbs_all()),
    ).and(
        row("jobs/status", "", true, "Job", verbs_status()),
    ).and(
        row("cronjobs", "cronjob", true, "CronJob", verbs_all()).with("shortNames", Json::list()
            .and(Json::text("cj"))),
    ).and(
        row("cronjobs/status", "", true, "CronJob", verbs_status()),
    );
    resource_list("batch/v1", rows)
}

/// The resources of `coordination.k8s.io/v1`.
pub open spec fn coordination_v1_rows() -> Tree {
    no_items().plus(
        served_row("leases"@, "lease"@, true, "Lease"@, all_verbs()),
    )
}

/// The discovery document of `coordination.k8s.io/v1`.
pub fn api_coordination_v1_resources() -> (r: Json)
    ensures
        r@ == list_of("coordination.k8s.io/v1"@, coordination_v1_rows()),
{
    let rows = Json::list().and(
        row("leases", "lease", true, "Lease", verbs_all()),
    );
    resource_list("coordination.k8s.io/v1", rows)
}

/// The resources of `discovery.k8s.io/v1`.
pub open spec fn discovery_v1_rows() -> Tree {
    no_items().plus(
        served_row("endpointslices"@, "endpointslice"@, true, "EndpointSlice"@, all_verbs()),
    )
}

/// The discovery document of `discovery.k8s.io/v1`.
pub fn api_discovery_v1_resources() -> (r: Json)
    ensures
        r@ == list_of("discovery.k8s.io/v1"@, discovery_v1_rows()),
{
    let rows = Json::list().and(
        row("endpointslices", "endpointslice", true, "EndpointSlice", verbs_all()),
    );
    resource_list("discovery.k8s.io/v1", rows)
}

/// The resources of `policy/v1`.
pub open spec fn policy_v1_rows() -> Tree {
    no_items().plus(
        served_row("poddisruptionbudgets"@, "poddisruptionbudget"@, true, "PodDisruptionBudget"@,
            collection_verbs()).set("shortNames"@, no_items().plus(str_tree("pdb"))),
    ).plus(
        served_row("poddisruptionbudgets/status"@, ""@, true, "PodDisruptionBudget"@, status_verbs()),
    ).plus(
        served_row("pods/eviction"@, ""@, true, "Eviction"@, no_items().plus(str_tree("create")))
            .set("group"@, str_tree("policy")).set("version"@, str_tree("v1")),
    )
}

/// The discovery document of `policy/v1`.
pub fn api_policy_v1_resources() -> (r: Json)
    ensures
        r@ == list_of("policy/v1"@, policy_v1_rows()).set("apiVersion"@, str_tree("v1")),
{
    let rows = Json::list().and(
        row("poddisruptionbudgets", "poddisruptionbudget", true, "PodDisruptionBudget",
            verbs_collection()).with("shortNames", Json::list().and(Json::text("pdb"))),
    ).and(
        row("poddisruptionbudgets/status", "", true, "PodDisruptionBudget", verbs_status()),
    ).and(
        row("pods/eviction", "", true, "Eviction", Json::list().and(Json::text("create")))
            .with("group", Json::text("policy")).with("version", Json::text("v1")),
    );
    resource_list("policy/v1", rows).with("apiVersion", Json::text("v1"))
}

/// The resources of `storage.k8s.io/v1`.
pub open spec fn storage_v1_rows() -> Tree {
    no_items().plus(
        served_row("storageclasses"@, "storageclass"@, false, "StorageClass"@, collection_verbs())
            .set("shortNames"@, no_items().plus(str_tree("sc"))),
    ).plus(
        served_row("csidrivers"@, "csidriver"@, false, "CSIDriver"@, collection_verbs()),
    ).plus(
        served_row("csinodes"@, "csinode"@, false, "CSINode"@, collection_verbs()),
    ).plus(
        served_row("volumeattachments"@, "volumeattachment"@, false, "VolumeAttachment"@,
            collection_verbs()),
    ).plus(
        served_row("volumeattachments/status"@, ""@, false, "VolumeAttachment"@, status_verbs()),
    ).plus(
        served_row("csistoragecapacities"@, "csistoragecapacity"@, true, "CSIStorageCapacity"@,
            collection_verbs()),
    )
}

/// The discovery document of `storage.k8s.io/v1`.
pub fn api_storage_v1_resources() -> (r: Json)
    ensures
        r@ == list_of("storage.k8s.io/v1"@, storage_v1_rows()).set("apiVersion"@, str_tree("v1")),
{
    let rows = Json::list().and(
        row("storageclasses", "storageclass", false, "StorageClass", verbs_collection())
            .with("shortNames", Json::list().and(Json::text("sc"))),
    ).and(
        row("csidrivers", "csidriver", false, "CSIDriver", verbs_collection()),
    ).and(
        row("csinodes", "csinode", false, "CSINode", verbs_collection()),
    ).and(
        row("volumeattachments", "volumeattachment", false, "VolumeAttachment", verbs_collection()),
    ).and(
        row("volumeattachments/status", "", false, "VolumeAttachment", verbs_status()),
    ).and(
        row("csistoragecapacities", "csistoragecapacity", true, "CSIStorageCapacity",
            verbs_collection()),
    );
    resource_list("storage.k8s.io/v1", rows).with("apiVersion", Json::text("v1"))
}

/// The resources of `certificates.k8s.io/v1`.
pub open spec fn certificates_v1_rows() -> Tree {
    no_items().plus(
        served_row("certificatesigningrequests"@, "certificatesigningrequest"@, false,
            "CertificateSigningRequest"@, all_verbs()).set("shortNames"@, no_items()
            .plus(str_tree("csr"))),
    ).plus(
        served_row("certificatesigningrequests/approval"@, ""@, false, "CertificateSigningRequest"@,
            status_verbs()),
    ).plus(
        served_row("certificatesigningrequests/status"@, ""@, false, "CertificateSigningRequest"@,
            status_verbs()),
    )
}

/// The discovery document of `certificates.k8s.io/v1`.
pub fn api_certificates_v1_resources() -> (r: Json)
    ensures
        r@ == list_of("certificates.k8s.io/v1"@, certificates_v1_rows()),
{
    let rows = Json::list().and(
        row("certificatesigningrequests", "certificatesigningrequest", false,
            "CertificateSigningRequest", verbs_all()).with("shortNames", Json::list()
            .and(Json::text("csr"))),
    ).and(
        row("certificatesigningrequests/approval", "", false, "CertificateSigningRequest",
            verbs_status()),
    ).and(
        row("certificatesigningrequests/status", "", false, "CertificateSigningRequest",
            verbs_status()),
    );
    resource_list("certificates.k8s.io/v1", rows)
}

/// The resources of `rustkube.io/v1alpha1`.
pub open spec fn rustkube_v1alpha1_rows() -> Tree {
    no_items().plus(
        served_row("podmigrations"@, "podmigration"@, true, "PodMigration"@, all_verbs())
            .set("shortNames"@, no_items().plus(str_tree("pm"))),
    )
}

/// The discovery document of `rustkube.io/v1alpha1`.
pub fn api_rustkube_v1alpha1_resources() -> (r: Json)
    ensures
        r@ == list_of("rustkube.io/v1alpha1"@, rustkube_v1alpha1_rows()),
{
    let rows = Json::list().and(
        row("podmigrations", "podmigration", true, "PodMigration", verbs_all()).with("shortNames",
            Json::list().and(Json::text("pm"))),
    );
    resource_list("rustkube.io/v1alpha1", rows)
}

/// The resources of `rbac.authorization.k8s.io/v1`.
pub open spec fn rbac_v1_rows() -> Tree {
    no_items().plus(
        served_row("clusterroles"@, "clusterrole"@, false, "ClusterRole"@, all_verbs()),
    ).plus(
        served_row("clusterrolebindings"@, "clusterrolebinding"@, false, "ClusterRoleBinding"@,
            all_verbs()),
    ).plus(
        served_row("roles"@, "role"@, true, "Role"@, all_verbs()),
    ).plus(
        served_row("rolebindings"@, "rolebinding"@, true, "RoleBinding"@, all_verbs()),
    )
}

/// The discovery document of `rbac.authorization.k8s.io/v1`.
pub fn api_rbac_v1_resources() -> (r: Json)
    ensures
        r@ == list_of("rbac.authorization.k8s.io/v1"@, rbac_v1_rows()),
{
    let rows = Json::list().and(
        row("clusterroles", "clusterrole", false, "ClusterRole", verbs_all()),
    ).and(
        row("clusterrolebindings", "clusterrolebinding", false, "ClusterRoleBinding", verbs_all()),
    ).and(
        row("roles", "role", true, "Role", verbs_all()),
    ).and(
        row("rolebindings", "rolebinding", true, "RoleBinding", verbs_all()),
    );
    resource_list("rbac.authorization.k8s.io/v1", rows)
}

/// The resources of `apiextensions.k8s.io/v1`.
pub open spec fn apiextensions_v1_rows() -> Tree {
    no_items().plus(
        served_row("customresourcedefinitions"@, "customresourcedefinition"@, false,
            "CustomResourceDefinition"@, all_verbs()).set("shortNames"@, no_items()
            .plus(str_tree("crd")).plus(str_tree("crds"))),
    ).plus(
        served_row("customresourcedefinitions/status"@, ""@, false, "CustomResourceDefinition"@,
            status_verbs()),
    )
}

/// The discovery document of `apiextensions.k8s.io/v1`.
pub fn api_apiextensions_v1_resources() -> (r: Json)
    ensures
        r@ == list_of("apiextensions.k8s.io/v1"@, apiextensions_v1_rows()),
{
    let rows = Json::list().and(
        row("customresourcedefinitions", "customresourcedefinition", false,
            "CustomResourceDefinition", verbs_all()).with("shortNames", Json::list()
            .and(Json::text("crd")).and(Json::text("crds"))),
    ).and(
        row("customresourcedefinitions/status", "", false, "CustomResourceDefinition", verbs_status()),
    );
    resource_list("apiextensions.k8s.io/v1", rows)
}

/// The resources of `autoscaling/v2`.
pub open spec fn autoscaling_v2_rows() -> Tree {
    no_items().plus(
        served_row("horizontalpodautoscalers"@, "horizontalpodautoscaler"@, true,
            "HorizontalPodAutoscaler"@, all_verbs()).set("shortNames"@, no_items()
            .plus(str_tree("hpa"))),
    ).plus(
        served_row("horizontalpodautoscalers/status"@, ""@, true, "HorizontalPodAutoscaler"@,
            status_verbs()),
    )
}

/// The discovery document of `autoscaling/v2`.
pub fn api_autoscaling_v2_resources() -> (r: Json)
    ensures
        r@ == list_of("autoscaling/v2"@, autoscaling_v2_rows()),
{
    let rows = Json::list().and(
        row("horizontalpodautoscalers", "horizontalpodautoscaler", true, "HorizontalPodAutoscaler",
            verbs_all()).with("shortNames", Json::list().and(Json::text("hpa"))),
    ).and(
        row("horizontalpodautoscalers/status", "", true, "HorizontalPodAutoscaler", verbs_status()),
    );
    resource_list("autoscaling/v2", rows)
}

/// The resources of `networking.k8s.io/v1`.
pub open spec fn networking_v1_rows() -> Tree {
    no_items().plus(
        served_row("networkpolicies"@, "networkpolicy"@, true, "NetworkPolicy"@, all_verbs())
            .set("shortNames"@, no_items().plus(str_tree("netpol"))),
    ).plus(
        served_row("ingresses"@, "ingress"@, true, "Ingress"@, all_verbs()).set("shortNames"@,
            no_items().plus(str_tree("ing"))),
    ).plus(
        served_row("ingresses/status"@, ""@, true, "Ingress"@, status_verbs()),
    ).plus(
        served_row("ingressclasses"@, "ingressclass"@, false, "IngressClass"@, all_verbs()),
    )
}

/// The discovery document of `networking.k8s.io/v1`.
pub fn api_networking_v1_resources() -> (r: Json)
    ensures
        r@ == list_of("networking.k8s.io/v1"@, networking_v1_rows()),
{
    let rows = Json::list().and(
        row("networkpolicies", "networkpolicy", true, "NetworkPolicy", verbs_all())
            .with("shortNames", Json::list().and(Json::text("netpol"))),
    ).and(
        row("ingresses", "ingress", true, "Ingress", verbs_all()).with("shortNames", Json::list()
            .and(Json::text("ing"))),
    ).and(
        row("ingresses/status", "", true, "Ingress", verbs_status()),
    ).and(
        row("ingressclasses", "ingressclass", false, "IngressClass", verbs_all()),
    );
    resource_list("networking.k8s.io/v1", rows)
}

/// The resources of `admissionregistration.k8s.io/v1`.
pub open spec fn admissionregistration_v1_rows() -> Tree {
    no_items().plus(
        served_row("mutatingwebhookconfigurations"@, "mutatingwebhookconfiguration"@, false,
            "MutatingWebhookConfiguration"@, all_verbs()),
    ).plus(
        served_row("validatingwebhookconfigurations"@, "validatingwebhookconfiguration"@, false,
            "ValidatingWebhookConfiguration"@, all_verbs()),
    )
}

/// The discovery document of `admissionregistration.k8s.io/v1`.
pub fn api_admissionregistration_v1_resources() -> (r: Json)
    ensures
        r@ == list_of("admissionregistration.k8s.io/v1"@, admissionregistration_v1_rows()),
{
    let rows = Json::list().and(
        row("mutatingwebhookconfigurations", "mutatingwebhookconfiguration", false,
            "MutatingWebhookConfiguration", verbs_all()),
    ).and(
        row("validatingwebhookconfigurations", "validatingwebhookconfiguration", false,
            "ValidatingWebhookConfiguration", verbs_all()),
    );
    resource_list("admissionregistration.k8s.io/v1", rows)
}

/// The resources of `gateway.networking.k8s.io/v1`.
pub open spec fn gateway_v1_rows() -> Tree {
    no_items().plus(
        served_row("gatewayclasses"@, "gatewayclass"@, false, "GatewayClass"@, all_verbs()),
    ).plus(
        served_row("gateways"@, "gateway"@, true, "Gateway"@, all_verbs()),
    ).plus(
        served_row("gateways/status"@, ""@, true, "Gateway"@, status_verbs()),
    ).plus(
        served_row("httproutes"@, "httproute"@, true, "HTTPRoute"@, all_verbs()),
    ).plus(
        served_row("httproutes/status"@, ""@, true, "HTTPRoute"@, status_verbs()),
    )
}

/// The discovery document of `gateway.networking.k8s.io/v1`.
pub fn api_gateway_v1_resources() -> (r: Json)
    ensures
        r@ == list_of("gateway.networking.k8s.io/v1"@, gateway_v1_rows()),
{
    let rows = Json::list().and(
        row("gatewayclasses", "gatewayclass", false, "GatewayClass", verbs_all()),
    ).and(
        row("gateways", "gateway", true, "Gateway", verbs_all()),
    ).and(
        row("gateways/status", "", true, "Gateway", verbs_status()),
    ).and(
        row("httproutes", "httproute", true, "HTTPRoute", verbs_all()),
    ).and(
        row("httproutes/status", "", true, "HTTPRoute", verbs_status()),
    );
    resource_list("gateway.networking.k8s.io/v1", rows)
}

/// The resources of `apiregistration.k8s.io/v1`.
pub open spec fn apiregistration_v1_rows() -> Tree {
    no_items().plus(
        served_row("apiservices"@, "apiservice"@, false, "APIService"@, all_verbs()),
    ).plus(
        served_row("apiservices/status"@, ""@, false, "APIService"@, status_verbs()),
    )
}

/// The discovery document of `apiregistration.k8s.io/v1`.
pub fn api_apiregistration_v1_resources() -> (r: Json)
    ensures
        r@ == list_of("apiregistration.k8s.io/v1"@, apiregistration_v1_rows()),
{
    let rows = Json::list().and(
        row("apiservices", "apiservice", false, "APIService", verbs_all()),
    ).and(
        row("apiservices/status", "", false, "APIService", verbs_status()),
    );
    resource_list("apiregistration.k8s.io/v1", rows)
}

// ---------------------------------------------------------------------------
// What is served, as a table
// ---------------------------------------------------------------------------

/// Rows of strings as rows of texts.
pub open spec fn row_texts(v: Seq<(&'static str, &'static str, bool)>) -> Seq<
    (Seq<char>, Seq<char>, bool),
> {
    v.map_values(|p: (&'static str, &'static str, bool)| (p.0@, p.1@, p.2))
}

fn add_row(
    out: &mut Vec<(&'static str, &'static str, bool)>,
    plural: &'static str,
    kind: &'static str,
    namespaced: bool,
)
    ensures
        row_texts(final(out)@) == row_texts(old(out)@).push((plural@, kind@, namespaced)),
{
    let ghost was = row_texts(out@);
    out.push((plural, kind, namespaced));
    assert(row_texts(out@) =~= was.push((plural@, kind@, namespaced)));
}

/// What is served in a group and version: plural, kind, and whether it is
/// namespaced.
pub open spec fn served_in(group: Seq<char>, version: Seq<char>) -> Seq<(Seq<char>, Seq<char>, bool)> {
    if group == ""@ && version == "v1"@ {
        Seq::empty().push(("namespaces"@, "Namespace"@, false)).push(("nodes"@, "Node"@, false))
            .push(("persistentvolumes"@, "PersistentVolume"@, false)).push(("pods"@, "Pod"@, true))
            .push(("services"@, "Service"@, true)).push(("endpoints"@, "Endpoints"@, true))
            .push(("configmaps"@, "ConfigMap"@, true)).push(("secrets"@, "Secret"@, true))
            .push(("serviceaccounts"@, "ServiceAccount"@, true)).push(("events"@, "Event"@, true))
            .push(("persistentvolumeclaims"@, "PersistentVolumeClaim"@, true))
    } else if group == "apps"@ && version == "v1"@ {
        Seq::empty().push(("deployments"@, "Deployment"@, true))
            .push(("replicasets"@, "ReplicaSet"@, true)).push(("statefulsets"@, "StatefulSet"@, true))
            .push(("daemonsets"@, "DaemonSet"@, true))
    } else if group == "batch"@ && version == "v1"@ {
        Seq::empty().push(("jobs"@, "Job"@, true)).push(("cronjobs"@, "CronJob"@, true))
    } else if group == "discovery.k8s.io"@ && version == "v1"@ {
        Seq::empty().push(("endpointslices"@, "EndpointSlice"@, true))
    } else if group == "coordination.k8s.io"@ && version == "v1"@ {
        Seq::empty().push(("leases"@, "Lease"@, true))
    } else if group == "storage.k8s.io"@ && version == "v1"@ {
        Seq::empty().push(("storageclasses"@, "StorageClass"@, false))
            .push(("csidrivers"@, "CSIDriver"@, false)).push(("csinodes"@, "CSINode"@, false))
            .push(("volumeattachments"@, "VolumeAttachment"@, false))
            .push(("csistoragecapacities"@, "CSIStorageCapacity"@, true))
    } else if group == "rbac.authorization.k8s.io"@ && version == "v1"@ {
        Seq::empty().push(("clusterroles"@, "ClusterRole"@, false))
            .push(("clusterrolebindings"@, "ClusterRoleBinding"@, false)).push(("roles"@, "Role"@, true))
            .push(("rolebindings"@, "RoleBinding"@, true))
    } else if group == "certificates.k8s.io"@ && version == "v1"@ {
        Seq::empty().push(("certificatesigningrequests"@, "CertificateSigningRequest"@, false))
    } else if group == "apiextensions.k8s.io"@ && version == "v1"@ {
        Seq::empty().push(("customresourcedefinitions"@, "CustomResourceDefinition"@, false))
    } else {
        Seq::empty()
    }
}

/// What is served in a group and version: plural, kind, and whether it is
/// namespaced.
pub fn resources_for(group: &str, version: &str) -> (r: Vec<(&'static str, &'static str, bool)>)
    ensures
        row_texts(r@) == served_in(group@, version@),
{
    let mut out: Vec<(&'static str, &'static str, bool)> = Vec::new();
    assert(row_texts(out@) =~= Seq::<(Seq<char>, Seq<char>, bool)>::empty());
    if same(group, "") && same(version, "v1") {
        add_row(&mut out, "namespaces", "Namespace", false);
        add_row(&mut out, "nodes", "Node", false);
        add_row(&mut out, "persistentvolumes", "PersistentVolume", false);
        add_row(&mut out, "pods", "Pod", true);
        add_row(&mut out, "services", "Service", true);
        add_row(&mut out, "endpoints", "Endpoints", true);
        add_row(&mut out, "configmaps", "ConfigMap", true);
        add_row(&mut out, "secrets", "Secret", true);
        add_row(&mut out, "serviceaccounts", "ServiceAccount", true);
        add_row(&mut out, "events", "Event", true);
        add_row(&mut out, "persistentvolumeclaims", "PersistentVolumeClaim", true);
    } else if same(group, "apps") && same(version, "v1") {
        add_row(&mut out, "deployments", "Deployment", true);
        add_row(&mut out, "replicasets", "ReplicaSet", true);
        add_row(&mut out, "statefulsets", "StatefulSet", true);
        add_row(&mut out, "daemonsets", "DaemonSet", true);
    } else if same(group, "batch") && same(version, "v1") {
        add_row(&mut out, "jobs", "Job", true);
        add_row(&mut out, "cronjobs", "CronJob", true);
    } else if same(group, "discovery.k8s.io") && same(version, "v1") {
        add_row(&mut out, "endpointslices", "EndpointSlice", true);
    } else if same(group, "coordination.k8s.io") && same(version, "v1") {
        add_row(&mut out, "leases", "Lease", true);
    } else if same(group, "storage.k8s.io") && same(version, "v1") {
        add_row(&mut out, "storageclasses", "StorageClass", false);
        add_row(&mut out, "csidrivers", "CSIDriver", false);
        add_row(&mut out, "csinodes", "CSINode", false);
        add_row(&mut out, "volumeattachments", "VolumeAttachment", false);
        add_row(&mut out, "csistoragecapacities", "CSIStorageCapacity", true);
    } else if same(group, "rbac.authorization.k8s.io") && same(version, "v1") {
        add_row(&mut out, "clusterroles", "ClusterRole", false);
        add_row(&mut out, "clusterrolebindings", "ClusterRoleBinding", false);
        add_row(&mut out, "roles", "Role", true);
        add_row(&mut out, "rolebindings", "RoleBinding", true);
    } else if same(group, "certificates.k8s.io") && same(version, "v1") {
        add_row(&mut out, "certificatesigningrequests", "CertificateSigningRequest", false);
    } else if same(group, "apiextensions.k8s.io") && same(version, "v1") {
        add_row(&mut out, "customresourcedefinitions", "CustomResourceDefinition", false);
    }
    out
}

// ---------------------------------------------------------------------------
// OpenAPI
// ---------------------------------------------------------------------------

/// The title and version of an OpenAPI document.
pub open spec fn api_info() -> Tree {
    Tree::Object(
        map![
            "title"@ => str_tree("Kubernetes"),
            "version"@ => Tree::String(git_version()),
        ],
    )
}

fn info() -> (r: Json)
    ensures
        r@ == api_info(),
{
    Json::object().with("title", Json::text("Kubernetes")).with(
        "version",
        Json::String(git_version_text()),
    )
}

/// The document of `/openapi/v2`: valid, and without definitions, so that a
/// client leaves validation to the server.
pub fn openapi_v2() -> (r: Json)
    ensures
        r@ == Tree::Object(
            map![
                "swagger"@ => str_tree("2.0"),
                "info"@ => api_info(),
                "paths"@ => empty_object(),
                "definitions"@ => empty_object(),
            ],
        ),
{
    Json::object().with("swagger", Json::text("2.0")).with("info", info()).with(
        "paths",
        Json::object(),
    ).with("definitions", Json::object())
}

/// An entry of the index: where the document of a group and version is.
pub open spec fn index_entry(path: Seq<char>) -> Tree {
    Tree::Object(map!["serverRelativeURL"@ => Tree::String("/openapi/v3/"@ + path)])
}

fn entry(path: &str) -> (r: Json)
    ensures
        r@ == index_entry(path@),
{
    let url = "/openapi/v3/".to_owned().concat(path);
    Json::object().with("serverRelativeURL", Json::String(url))
}

/// The paths of the index.
pub open spec fn index_paths() -> Tree {
    empty_object().set("api/v1"@, index_entry("api/v1"@)).set("apis/apps/v1"@,
        index_entry("apis/apps/v1"@)).set("apis/batch/v1"@, index_entry("apis/batch/v1"@))
        .set("apis/discovery.k8s.io/v1"@, index_entry("apis/discovery.k8s.io/v1"@))
        .set("apis/storage.k8s.io/v1"@, index_entry("apis/storage.k8s.io/v1"@))
        .set("apis/rbac.authorization.k8s.io/v1"@,
        index_entry("apis/rbac.authorization.k8s.io/v1"@)).set("apis/coordination.k8s.io/v1"@,
        index_entry("apis/coordination.k8s.io/v1"@)).set("apis/certificates.k8s.io/v1"@,
        index_entry("apis/certificates.k8s.io/v1"@)).set("apis/apiextensions.k8s.io/v1"@,
        index_entry("apis/apiextensions.k8s.io/v1"@))
}

fn index() -> (r: Json)
    ensures
        r@ == index_paths(),
{
    Json::object().with("api/v1", entry("api/v1")).with("apis/apps/v1", entry("apis/apps/v1"))
        .with("apis/batch/v1", entry("apis/batch/v1")).with("apis/discovery.k8s.io/v1",
        entry("apis/discovery.k8s.io/v1")).with("apis/storage.k8s.io/v1",
        entry("apis/storage.k8s.io/v1")).with("apis/rbac.authorization.k8s.io/v1",
        entry("apis/rbac.authorization.k8s.io/v1")).with("apis/coordination.k8s.io/v1",
        entry("apis/coordination.k8s.io/v1")).with("apis/certificates.k8s.io/v1",
        entry("apis/certificates.k8s.io/v1")).with("apis/apiextensions.k8s.io/v1",
        entry("apis/apiextensions.k8s.io/v1"))
}

/// The document of `/openapi/v3`: the index of groups and versions.
pub fn openapi_v3() -> (r: Json)
    ensures
        r@ == Tree::Object(map!["paths"@ => index_paths()]),
{
    Json::object().with("paths", index())
}

/// The group, the version and the URL prefix of a path of the index.
pub open spec fn openapi_parts(path: Seq<char>) -> Option<(Seq<char>, Seq<char>, Seq<char>)> {
    let parts = split(drop_back(drop_front(path, '/'), '/'), '/');
    if parts.len() == 2 && parts[0] == "api"@ {
        Some((Seq::empty(), parts[1], "/api/"@ + parts[1]))
    } else if parts.len() == 3 && parts[0] == "apis"@ {
        Some((parts[1], parts[2], "/apis/"@ + parts[1] + "/"@ + parts[2]))
    } else {
        None
    }
}

/// Splits a path of the index: `api/v1` is version `v1` of the core group under
/// `/api/v1`.
pub fn parse_openapi_path(path: &str) -> (r: Option<(String, String, String)>)
    ensures
        match r {
            Some((g, v, p)) => openapi_parts(path@) == Some((g@, v@, p@)),
            None => openapi_parts(path@) is None,
        },
{
    let parts = split_on(trim_end_char(trim_start_char(path, '/'), '/'), '/');
    let ghost ts = texts(parts@);
    assert(ts.len() == parts@.len());
    if parts.len() == 2 && same(parts[0].as_str(), "api") {
        let v = parts[1].clone();
        let p = "/api/".to_owned().concat(v.as_str());
        assert(ts[1] == v@);
        let g = String::new();
        return Some((g, v, p));
    }
    if parts.len() == 3 && same(parts[0].as_str(), "apis") {
        let g = parts[1].clone();
        let v = parts[2].clone();
        assert(ts[1] == g@ && ts[2] == v@);
        let p = "/apis/".to_owned().concat(g.as_str()).concat("/").concat(v.as_str());
        return Some((g, v, p));
    }
    None
}

/// A kind in its group and version.
pub open spec fn gvk_tree(group: Seq<char>, version: Seq<char>, kind: Seq<char>) -> Tree {
    Tree::Object(
        map![
            "group"@ => Tree::String(group),
            "version"@ => Tree::String(version),
            "kind"@ => Tree::String(kind),
        ],
    )
}

/// An operation that carries its kind and takes `fieldValidation`, by which a
/// client knows that the server validates.
pub open spec fn operation_tree(gvk: Tree) -> Tree {
    Tree::Object(
        map![
            "x-kubernetes-group-version-kind"@ => gvk,
            "parameters"@ => no_items().plus(Tree::Object(map![
                "name"@ => str_tree("fieldValidation"),
                "in"@ => str_tree("query"),
                "description"@ => str_tree(
                    "Ignore, Warn or Strict handling of unknown/duplicate fields",
                ),
                "schema"@ => Tree::Object(map![
                    "type"@ => str_tree("string"),
                    "uniqueItems"@ => Tree::Bool(true),
                ]),
            ])),
            "responses"@ => Tree::Object(map![
                "200"@ => Tree::Object(map!["description"@ => str_tree("OK")]),
            ]),
        ],
    )
}

/// An operation on a kind.
pub fn operation(gvk: &Json) -> (r: Json)
    ensures
        r@ == operation_tree(gvk@),
{
    let schema = Json::object().with("type", Json::text("string")).with(
        "uniqueItems",
        Json::flag(true),
    );
    let parameter = Json::object().with("name", Json::text("fieldValidation")).with(
        "in",
        Json::text("query"),
    ).with(
        "description",
        Json::text("Ignore, Warn or Strict handling of unknown/duplicate fields"),
    ).with("schema", schema);
    let responses = Json::object().with(
        "200",
        Json::object().with("description", Json::text("OK")),
    );
    Json::object().with("x-kubernetes-group-version-kind", gvk.dup()).with(
        "parameters",
        Json::list().and(parameter),
    ).with("responses", responses)
}

/// The path under which objects of a resource are created.
pub open spec fn collection_path(prefix: Seq<char>, plural: Seq<char>, namespaced: bool) -> Seq<
    char,
> {
    if namespaced {
        prefix + "/namespaces/{namespace}/"@ + plural
    } else {
        prefix + "/"@ + plural
    }
}

/// The paths of the resources `rows`: each can be created in its collection, and
/// replaced and patched under its name.
pub open spec fn openapi_paths(
    group: Seq<char>,
    version: Seq<char>,
    prefix: Seq<char>,
    rows: Seq<(Seq<char>, Seq<char>, bool)>,
) -> Tree
    decreases rows.len(),
{
    if rows.len() == 0 {
        empty_object()
    } else {
        let rest = openapi_paths(group, version, prefix, rows.drop_last());
        let (plural, kind, namespaced) = rows.last();
        let op = operation_tree(gvk_tree(group, version, kind));
        let collection = collection_path(prefix, plural, namespaced);
        rest.set(collection, Tree::Object(map!["post"@ => op])).set(
            collection + "/{name}"@,
            Tree::Object(map!["put"@ => op, "patch"@ => op]),
        )
    }
}

/// The OpenAPI document with these paths.
pub open spec fn openapi_tree(paths: Tree) -> Tree {
    Tree::Object(
        map![
            "openapi"@ => str_tree("3.0.0"),
            "info"@ => api_info(),
            "paths"@ => paths,
            "components"@ => Tree::Object(map!["schemas"@ => empty_object()]),
        ],
    )
}

/// The OpenAPI document of a group and version; without paths where the path is
/// none of the index.
pub fn openapi_v3_group(path: &str) -> (r: Json)
    ensures
        r@ == openapi_tree(
            match openapi_parts(path@) {
                Some((g, v, p)) => openapi_paths(g, v, p, served_in(g, v)),
                None => empty_object(),
            },
        ),
{
    let mut paths = Json::object();
    match parse_openapi_path(path) {
        Some((group, version, prefix)) => {
            let rows = resources_for(group.as_str(), version.as_str());
            let ghost ts = row_texts(rows@);
            let mut i: usize = 0;
            assert(ts.take(0) =~= Seq::<(Seq<char>, Seq<char>, bool)>::empty());
            while i < rows.len()
                invariant
                    i <= rows.len(),
                    ts == row_texts(rows@),
                    paths@ == openapi_paths(group@, version@, prefix@, ts.take(i as int)),
                    paths@ is Object,
                decreases rows.len() - i,
            {
                let (plural, kind, namespaced) = rows[i];
                proof {
                    assert(ts.take(i + 1).drop_last() =~= ts.take(i as int));
                    assert(ts.take(i + 1).last() == (plural@, kind@, namespaced));
                }
                let gvk = Json::object().with("group", Json::text(group.as_str())).with(
                    "version",
                    Json::text(version.as_str()),
                ).with("kind", Json::text(kind));
                let collection = if namespaced {
                    prefix.clone().concat("/namespaces/{namespace}/").concat(plural)
                } else {
                    prefix.clone().concat("/").concat(plural)
                };
                let item = collection.clone().concat("/{name}");
                paths.set(collection.as_str(), Json::object().with("post", operation(&gvk)));
                paths.set(
                    item.as_str(),
                    Json::object().with("put", operation(&gvk)).with("patch", operation(&gvk)),
                );
                i = i + 1;
            }
            assert(ts.take(i as int) =~= ts);
        },
        None => {},
    }
    Json::object().with("openapi", Json::text("3.0.0")).with("info", info()).with(
        "paths",
        paths,
    ).with("components", Json::object().with("schemas", Json::object()))
}

// ---------------------------------------------------------------------------
// What is served and what is written
// ---------------------------------------------------------------------------

/// A number that tells the names of the resources apart.
spec fn mark(s: Seq<char>) -> int {
    s.len() * 1000000 + s[0] as int * 1000 + s[s.len() - 2] as int
}

proof fn lemma_marks()
    ensures
        mark("namespaces"@) == 10110101,
        mark("nodes"@) == 5110101,
        mark("pods"@) == 4112100,
        mark("services"@) == 8115101,
        mark("endpoints"@) == 9101116,
        mark("configmaps"@) == 10099112,
        mark("secrets"@) == 7115116,
        mark("serviceaccounts"@) == 15115116,
        mark("events"@) == 6101116,
        mark("persistentvolumeclaims"@) == 22112109,
        mark("persistentvolumes"@) == 17112101,
        mark("deployments"@) == 11100116,
        mark("replicasets"@) == 11114116,
        mark("statefulsets"@) == 12115116,
        mark("daemonsets"@) == 10100116,
        mark("jobs"@) == 4106098,
        mark("cronjobs"@) == 8099098,
        mark("leases"@) == 6108101,
        mark("customresourcedefinitions"@) == 25099110,
        mark("clusterroles"@) == 12099101,
        mark("clusterrolebindings"@) == 19099103,
        mark("roles"@) == 5114101,
        mark("rolebindings"@) == 12114103,
        mark("horizontalpodautoscalers"@) == 24104114,
        mark("networkpolicies"@) == 15110101,
        mark("ingresses"@) == 9105101,
        mark("ingressclasses"@) == 14105101,
        mark("mutatingwebhookconfigurations"@) == 29109110,
        mark("validatingwebhookconfigurations"@) == 31118110,
        mark("gatewayclasses"@) == 14103101,
        mark("gateways"@) == 8103121,
        mark("httproutes"@) == 10104101,
        mark("apiservices"@) == 11097101,
        mark("podmigrations"@) == 13112110,
        mark("storageclasses"@) == 14115101,
        mark("csidrivers"@) == 10099114,
        mark("csinodes"@) == 8099101,
        mark("volumeattachments"@) == 17118116,
        mark("csistoragecapacities"@) == 20099101,
        mark("endpointslices"@) == 14101101,
        mark("certificatesigningrequests"@) == 26099116,
        mark("priorityclasses"@) == 15112101,
        mark("poddisruptionbudgets"@) == 20112116,
        mark("controllerrevisions"@) == 19099110,
{
    reveal_strlit("namespaces");
    reveal_strlit("nodes");
    reveal_strlit("pods");
    reveal_strlit("services");
    reveal_strlit("endpoints");
    reveal_strlit("configmaps");
    reveal_strlit("secrets");
    reveal_strlit("serviceaccounts");
    reveal_strlit("events");
    reveal_strlit("persistentvolumeclaims");
    reveal_strlit("persistentvolumes");
    reveal_strlit("deployments");
    reveal_strlit("replicasets");
    reveal_strlit("statefulsets");
    reveal_strlit("daemonsets");
    reveal_strlit("jobs");
    reveal_strlit("cronjobs");
    reveal_strlit("leases");
    reveal_strlit("customresourcedefinitions");
    reveal_strlit("clusterroles");
    reveal_strlit("clusterrolebindings");
    reveal_strlit("roles");
    reveal_strlit("rolebindings");
    reveal_strlit("horizontalpodautoscalers");
    reveal_strlit("networkpolicies");
    reveal_strlit("ingresses");
    reveal_strlit("ingressclasses");
    reveal_strlit("mutatingwebhookconfigurations");
    reveal_strlit("validatingwebhookconfigurations");
    reveal_strlit("gatewayclasses");
    reveal_strlit("gateways");
    reveal_strlit("httproutes");
    reveal_strlit("apiservices");
    reveal_strlit("podmigrations");
    reveal_strlit("storageclasses");
    reveal_strlit("csidrivers");
    reveal_strlit("csinodes");
    reveal_strlit("volumeattachments");
    reveal_strlit("csistoragecapacities");
    reveal_strlit("endpointslices");
    reveal_strlit("certificatesigningrequests");
    reveal_strlit("priorityclasses");
    reveal_strlit("poddisruptionbudgets");
    reveal_strlit("controllerrevisions");
}

proof fn lemma_served_versions()
    ensures
        group_of("v1"@) == ""@,
        version_of("v1"@) == "v1"@,
        group_of("apps/v1"@) == "apps"@,
        version_of("apps/v1"@) == "v1"@,
        group_of("batch/v1"@) == "batch"@,
        version_of("batch/v1"@) == "v1"@,
        group_of("discovery.k8s.io/v1"@) == "discovery.k8s.io"@,
        version_of("discovery.k8s.io/v1"@) == "v1"@,
        group_of("coordination.k8s.io/v1"@) == "coordination.k8s.io"@,
        version_of("coordination.k8s.io/v1"@) == "v1"@,
        group_of("storage.k8s.io/v1"@) == "storage.k8s.io"@,
        version_of("storage.k8s.io/v1"@) == "v1"@,
        group_of("rbac.authorization.k8s.io/v1"@) == "rbac.authorization.k8s.io"@,
        version_of("rbac.authorization.k8s.io/v1"@) == "v1"@,
        group_of("certificates.k8s.io/v1"@) == "certificates.k8s.io"@,
        version_of("certificates.k8s.io/v1"@) == "v1"@,
        group_of("apiextensions.k8s.io/v1"@) == "apiextensions.k8s.io"@,
        version_of("apiextensions.k8s.io/v1"@) == "v1"@,
{
    reveal_strlit("");
    reveal_strlit("v1");
    assert(""@ =~= Seq::<char>::empty());
    assert forall|i: int| 0 <= i < 2 implies "v1"@[i] != '/' by {
        assert(i == 0 || i == 1);
    }
    law_an_api_version_names_its_group(""@, "v1"@);
    reveal_strlit("apps");
    reveal_strlit("apps/v1");
    assert forall|i: int| 0 <= i < 4 implies "apps"@[i] != '/' by {
        assert(i == 0 || i == 1 || i == 2 || i == 3);
    }
    assert("apps/v1"@ =~= "apps"@ + seq!['/'] + "v1"@);
    law_an_api_version_names_its_group("apps"@, "v1"@);
    reveal_strlit("batch");
    reveal_strlit("batch/v1");
    assert forall|i: int| 0 <= i < 5 implies "batch"@[i] != '/' by {
        assert(i == 0 || i == 1 || i == 2 || i == 3 || i == 4);
    }
    assert("batch/v1"@ =~= "batch"@ + seq!['/'] + "v1"@);
    law_an_api_version_names_its_group("batch"@, "v1"@);
    reveal_strlit("discovery.k8s.io");
    reveal_strlit("discovery.k8s.io/v1");
    assert forall|i: int| 0 <= i < 16 implies "discovery.k8s.io"@[i] != '/' by {
        assert(i == 0 || i == 1 || i == 2 || i == 3 || i == 4 || i == 5 || i == 6 || i == 7
            || i == 8 || i == 9 || i == 10 || i == 11 || i == 12 || i == 13 || i == 14
            || i == 15);
    }
    assert("discovery.k8s.io/v1"@ =~= "discovery.k8s.io"@ + seq!['/'] + "v1"@);
    law_an_api_version_names_its_group("discovery.k8s.io"@, "v1"@);
    reveal_strlit("coordination.k8s.io");
    reveal_strlit("coordination.k8s.io/v1");
    assert forall|i: int| 0 <= i < 19 implies "coordination.k8s.io"@[i] != '/' by {
        assert(i == 0 || i == 1 || i == 2 || i == 3 || i == 4 || i == 5 || i == 6 || i == 7
            || i == 8 || i == 9 || i == 10 || i == 11 || i == 12 || i == 13 || i == 14 || i == 15
            || i == 16 || i == 17 || i == 18);
    }
    assert("coordination.k8s.io/v1"@ =~= "coordination.k8s.io"@ + seq!['/'] + "v1"@);
    law_an_api_version_names_its_group("coordination.k8s.io"@, "v1"@);
    reveal_strlit("storage.k8s.io");
    reveal_strlit("storage.k8s.io/v1");
    assert forall|i: int| 0 <= i < 14 implies "storage.k8s.io"@[i] != '/' by {
        assert(i == 0 || i == 1 || i == 2 || i == 3 || i == 4 || i == 5 || i == 6 || i == 7
            || i == 8 || i == 9 || i == 10 || i == 11 || i == 12 || i == 13);
    }
    assert("storage.k8s.io/v1"@ =~= "storage.k8s.io"@ + seq!['/'] + "v1"@);
    law_an_api_version_names_its_group("storage.k8s.io"@, "v1"@);
    reveal_strlit("rbac.authorization.k8s.io");
    reveal_strlit("rbac.authorization.k8s.io/v1");
    assert forall|i: int| 0 <= i < 25 implies "rbac.authorization.k8s.io"@[i] != '/' by {
        assert(i == 0 || i == 1 || i == 2 || i == 3 || i == 4 || i == 5 || i == 6 || i == 7
            || i == 8 || i == 9 || i == 10 || i == 11 || i == 12 || i == 13 || i == 14 || i == 15
            || i == 16 || i == 17 || i == 18 || i == 19 || i == 20 || i == 21 || i == 22
            || i == 23 || i == 24);
    }
    assert("rbac.authorization.k8s.io/v1"@ =~= "rbac.authorization.k8s.io"@ + seq!['/'] + "v1"@);
    law_an_api_version_names_its_group("rbac.authorization.k8s.io"@, "v1"@);
    reveal_strlit("certificates.k8s.io");
    reveal_strlit("certificates.k8s.io/v1");
    assert forall|i: int| 0 <= i < 19 implies "certificates.k8s.io"@[i] != '/' by {
        assert(i == 0 || i == 1 || i == 2 || i == 3 || i == 4 || i == 5 || i == 6 || i == 7
            || i == 8 || i == 9 || i == 10 || i == 11 || i == 12 || i == 13 || i == 14 || i == 15
            || i == 16 || i == 17 || i == 18);
    }
    assert("certificates.k8s.io/v1"@ =~= "certificates.k8s.io"@ + seq!['/'] + "v1"@);
    law_an_api_version_names_its_group("certificates.k8s.io"@, "v1"@);
    reveal_strlit("apiextensions.k8s.io");
    reveal_strlit("apiextensions.k8s.io/v1");
    assert forall|i: int| 0 <= i < 20 implies "apiextensions.k8s.io"@[i] != '/' by {
        assert(i == 0 || i == 1 || i == 2 || i == 3 || i == 4 || i == 5 || i == 6 || i == 7
            || i == 8 || i == 9 || i == 10 || i == 11 || i == 12 || i == 13 || i == 14 || i == 15
            || i == 16 || i == 17 || i == 18 || i == 19);
    }
    assert("apiextensions.k8s.io/v1"@ =~= "apiextensions.k8s.io"@ + seq!['/'] + "v1"@);
    law_an_api_version_names_its_group("apiextensions.k8s.io"@, "v1"@);
}

/// What is written on the objects and lists of a resource is what discovery serves
/// it as: its kind, its kind of a list, and its group and version.
pub proof fn law_objects_are_what_discovery_serves(group: Seq<char>, version: Seq<char>, i: int)
    requires
        0 <= i < served_in(group, version).len(),
    ensures
        ({
            let (plural, kind, _) = served_in(group, version)[i];
            &&& kind_of(plural) == kind
            &&& kind_of(plural) + "List"@ == kind + "List"@
            &&& group_of(api_version_of(plural)) == group
            &&& version_of(api_version_of(plural)) == version
        }),
{
    lemma_marks();
    lemma_served_versions();
    assert(i == 0 || i == 1 || i == 2 || i == 3 || i == 4 || i == 5 || i == 6 || i == 7 || i == 8
        || i == 9 || i == 10);
}

/// A schema is asked for by its path: of the core by a version, of a group by the group and a
/// version.
pub proof fn law_a_schema_is_asked_for_by_its_path(group: Seq<char>, version: Seq<char>)
    requires
        group.len() > 0,
        version.len() > 0,
        !group.contains('/'),
        !version.contains('/'),
    ensures
        openapi_parts("api/"@ + version) == Some(
            (Seq::<char>::empty(), version, "/api/"@ + version),
        ),
        openapi_parts("apis/"@ + group + seq!['/'] + version) == Some(
            (group, version, "/apis/"@ + group + "/"@ + version),
        ),
        openapi_parts("apis/"@ + group) is None,
{
    reveal_strlit("api");
    reveal_strlit("apis");
    reveal_strlit("api/");
    reveal_strlit("apis/");
    assert("api"@.len() == 3);
    assert("apis"@.len() == 4);
    assert("api/"@.len() == 4);
    assert("apis/"@.len() == 5);
    assert("apis"@[3] == 's');
    assert("api/"@[3] == '/');
    let a = "api"@;
    let b = "apis"@;
    assert("api/"@ =~= a.push('/'));
    assert("apis/"@ =~= b.push('/'));
    assert(!a.contains('/'));
    assert(!b.contains('/'));
    let core = a.push('/') + version;
    let one = b.push('/') + group;
    let two = one.push('/') + version;
    lemma_split_whole(a, '/');
    lemma_split_whole(b, '/');
    lemma_split_push(a, '/', version);
    lemma_split_push(b, '/', group);
    lemma_split_push(one, '/', version);
    assert("api/"@ + version =~= core);
    assert("apis/"@ + group =~= one);
    assert("apis/"@ + group + seq!['/'] + version =~= two);
    assert(core[0] == 'a' && one[0] == 'a' && two[0] == 'a');
    assert(core.last() == version.last() && two.last() == version.last());
    assert(one.last() == group.last());
    assert(version.contains(version.last()));
    assert(group.contains(group.last()));
    assert(split(core, '/') =~= seq![a, version]);
    assert(split(one, '/') =~= seq![b, group]);
    assert(split(two, '/') =~= seq![b, group, version]);
}

/// A schema has a path for the collection of each resource, in a namespace where the resource
/// has them, and one for its objects.
pub proof fn law_a_schema_has_the_paths_of_each_resource(
    group: Seq<char>,
    version: Seq<char>,
    prefix: Seq<char>,
    rows: Seq<(Seq<char>, Seq<char>, bool)>,
    plural: Seq<char>,
    kind: Seq<char>,
)
    ensures
        ({
            let paths = openapi_paths(group, version, prefix, rows.push((plural, kind, true)));
            let all = prefix + "/namespaces/{namespace}/"@ + plural;
            let gvk = paths.at(all + "/{name}"@).at("patch"@).at(
                "x-kubernetes-group-version-kind"@,
            );
            &&& paths.at(all).get("post"@) is Some
            &&& paths.at(all + "/{name}"@).get("put"@) is Some
            &&& gvk.at("group"@) == Tree::String(group)
            &&& gvk.at("version"@) == Tree::String(version)
            &&& gvk.at("kind"@) == Tree::String(kind)
        }),
        ({
            let paths = openapi_paths(group, version, prefix, rows.push((plural, kind, false)));
            let all = prefix + "/"@ + plural;
            &&& paths.at(all).get("post"@) is Some
            &&& paths.at(all + "/{name}"@).get("put"@) is Some
            &&& paths.at(all + "/{name}"@).get("patch"@) is Some
        }),
{
    reveal_strlit("put");
    reveal_strlit("patch");
    reveal_strlit("group");
    reveal_strlit("version");
    reveal_strlit("kind");
    reveal_strlit("x-kubernetes-group-version-kind");
    reveal_strlit("parameters");
    reveal_strlit("responses");
    assert("put"@.len() == 3);
    assert("patch"@.len() == 5);
    assert("group"@.len() == 5);
    assert("version"@.len() == 7);
    assert("kind"@.len() == 4);
    assert("x-kubernetes-group-version-kind"@.len() == 31);
    assert("parameters"@.len() == 10);
    assert("responses"@.len() == 9);
    assert("patch"@[0] == 'p');
    assert("group"@[0] == 'g');
    reveal_strlit("/{name}");
    assert("/{name}"@.len() == 7);
    assert(rows.push((plural, kind, true)).drop_last() =~= rows);
    assert(rows.push((plural, kind, false)).drop_last() =~= rows);
    let a = prefix + "/namespaces/{namespace}/"@ + plural;
    let b = prefix + "/"@ + plural;
    assert((a + "/{name}"@).len() == a.len() + 7);
    assert((b + "/{name}"@).len() == b.len() + 7);
}

} // verus!
