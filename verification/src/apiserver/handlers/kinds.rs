//! The resources that are built in: their kinds and their groups.

use vstd::prelude::*;
use vstd::string::*;

use crate::text::same;

verus! {

/// The kind of a resource; a resource that is not known is its own kind.
pub open spec fn kind_of(resource: Seq<char>) -> Seq<char> {
    if resource == "namespaces"@ {
        "Namespace"@
    } else if resource == "nodes"@ {
        "Node"@
    } else if resource == "pods"@ {
        "Pod"@
    } else if resource == "services"@ {
        "Service"@
    } else if resource == "endpoints"@ {
        "Endpoints"@
    } else if resource == "configmaps"@ {
        "ConfigMap"@
    } else if resource == "secrets"@ {
        "Secret"@
    } else if resource == "serviceaccounts"@ {
        "ServiceAccount"@
    } else if resource == "events"@ {
        "Event"@
    } else if resource == "persistentvolumeclaims"@ {
        "PersistentVolumeClaim"@
    } else if resource == "persistentvolumes"@ {
        "PersistentVolume"@
    } else if resource == "deployments"@ {
        "Deployment"@
    } else if resource == "replicasets"@ {
        "ReplicaSet"@
    } else if resource == "statefulsets"@ {
        "StatefulSet"@
    } else if resource == "daemonsets"@ {
        "DaemonSet"@
    } else if resource == "jobs"@ {
        "Job"@
    } else if resource == "cronjobs"@ {
        "CronJob"@
    } else if resource == "leases"@ {
        "Lease"@
    } else if resource == "customresourcedefinitions"@ {
        "CustomResourceDefinition"@
    } else if resource == "clusterroles"@ {
        "ClusterRole"@
    } else if resource == "clusterrolebindings"@ {
        "ClusterRoleBinding"@
    } else if resource == "roles"@ {
        "Role"@
    } else if resource == "rolebindings"@ {
        "RoleBinding"@
    } else if resource == "horizontalpodautoscalers"@ {
        "HorizontalPodAutoscaler"@
    } else if resource == "networkpolicies"@ {
        "NetworkPolicy"@
    } else if resource == "ingresses"@ {
        "Ingress"@
    } else if resource == "ingressclasses"@ {
        "IngressClass"@
    } else if resource == "mutatingwebhookconfigurations"@ {
        "MutatingWebhookConfiguration"@
    } else if resource == "validatingwebhookconfigurations"@ {
        "ValidatingWebhookConfiguration"@
    } else if resource == "gatewayclasses"@ {
        "GatewayClass"@
    } else if resource == "gateways"@ {
        "Gateway"@
    } else if resource == "httproutes"@ {
        "HTTPRoute"@
    } else if resource == "apiservices"@ {
        "APIService"@
    } else if resource == "podmigrations"@ {
        "PodMigration"@
    } else if resource == "storageclasses"@ {
        "StorageClass"@
    } else if resource == "csidrivers"@ {
        "CSIDriver"@
    } else if resource == "csinodes"@ {
        "CSINode"@
    } else if resource == "volumeattachments"@ {
        "VolumeAttachment"@
    } else if resource == "csistoragecapacities"@ {
        "CSIStorageCapacity"@
    } else if resource == "endpointslices"@ {
        "EndpointSlice"@
    } else if resource == "certificatesigningrequests"@ {
        "CertificateSigningRequest"@
    } else if resource == "priorityclasses"@ {
        "PriorityClass"@
    } else if resource == "poddisruptionbudgets"@ {
        "PodDisruptionBudget"@
    } else {
        resource
    }
}

/// The group and version of a resource; a resource that is not known is in the
/// core group.
pub open spec fn api_version_of(resource: Seq<char>) -> Seq<char> {
    if resource == "deployments"@ || resource == "replicasets"@ || resource == "statefulsets"@
        || resource == "daemonsets"@ || resource == "controllerrevisions"@ {
        "apps/v1"@
    } else if resource == "jobs"@ || resource == "cronjobs"@ {
        "batch/v1"@
    } else if resource == "leases"@ {
        "coordination.k8s.io/v1"@
    } else if resource == "endpointslices"@ {
        "discovery.k8s.io/v1"@
    } else if resource == "storageclasses"@ || resource == "csidrivers"@ || resource == "csinodes"@
        || resource == "volumeattachments"@ || resource == "csistoragecapacities"@ {
        "storage.k8s.io/v1"@
    } else if resource == "clusterroles"@ || resource == "clusterrolebindings"@
        || resource == "roles"@ || resource == "rolebindings"@ {
        "rbac.authorization.k8s.io/v1"@
    } else if resource == "certificatesigningrequests"@ {
        "certificates.k8s.io/v1"@
    } else if resource == "customresourcedefinitions"@ {
        "apiextensions.k8s.io/v1"@
    } else if resource == "horizontalpodautoscalers"@ {
        "autoscaling/v2"@
    } else if resource == "networkpolicies"@ || resource == "ingresses"@
        || resource == "ingressclasses"@ {
        "networking.k8s.io/v1"@
    } else if resource == "priorityclasses"@ {
        "scheduling.k8s.io/v1"@
    } else if resource == "poddisruptionbudgets"@ {
        "policy/v1"@
    } else if resource == "mutatingwebhookconfigurations"@
        || resource == "validatingwebhookconfigurations"@ {
        "admissionregistration.k8s.io/v1"@
    } else if resource == "gatewayclasses"@ || resource == "gateways"@ || resource == "httproutes"@ {
        "gateway.networking.k8s.io/v1"@
    } else if resource == "apiservices"@ {
        "apiregistration.k8s.io/v1"@
    } else if resource == "podmigrations"@ {
        "rustkube.io/v1alpha1"@
    } else {
        "v1"@
    }
}

fn kind<'a>(resource: &'a str) -> (r: &'a str)
    ensures
        r@ == kind_of(resource@),
{
    if same(resource, "namespaces") {
        "Namespace"
    } else if same(resource, "nodes") {
        "Node"
    } else if same(resource, "pods") {
        "Pod"
    } else if same(resource, "services") {
        "Service"
    } else if same(resource, "endpoints") {
        "Endpoints"
    } else if same(resource, "configmaps") {
        "ConfigMap"
    } else if same(resource, "secrets") {
        "Secret"
    } else if same(resource, "serviceaccounts") {
        "ServiceAccount"
    } else if same(resource, "events") {
        "Event"
    } else if same(resource, "persistentvolumeclaims") {
        "PersistentVolumeClaim"
    } else if same(resource, "persistentvolumes") {
        "PersistentVolume"
    } else if same(resource, "deployments") {
        "Deployment"
    } else if same(resource, "replicasets") {
        "ReplicaSet"
    } else if same(resource, "statefulsets") {
        "StatefulSet"
    } else if same(resource, "daemonsets") {
        "DaemonSet"
    } else if same(resource, "jobs") {
        "Job"
    } else if same(resource, "cronjobs") {
        "CronJob"
    } else if same(resource, "leases") {
        "Lease"
    } else if same(resource, "customresourcedefinitions") {
        "CustomResourceDefinition"
    } else if same(resource, "clusterroles") {
        "ClusterRole"
    } else if same(resource, "clusterrolebindings") {
        "ClusterRoleBinding"
    } else if same(resource, "roles") {
        "Role"
    } else if same(resource, "rolebindings") {
        "RoleBinding"
    } else if same(resource, "horizontalpodautoscalers") {
        "HorizontalPodAutoscaler"
    } else if same(resource, "networkpolicies") {
        "NetworkPolicy"
    } else if same(resource, "ingresses") {
        "Ingress"
    } else if same(resource, "ingressclasses") {
        "IngressClass"
    } else if same(resource, "mutatingwebhookconfigurations") {
        "MutatingWebhookConfiguration"
    } else if same(resource, "validatingwebhookconfigurations") {
        "ValidatingWebhookConfiguration"
    } else if same(resource, "gatewayclasses") {
        "GatewayClass"
    } else if same(resource, "gateways") {
        "Gateway"
    } else if same(resource, "httproutes") {
        "HTTPRoute"
    } else if same(resource, "apiservices") {
        "APIService"
    } else if same(resource, "podmigrations") {
        "PodMigration"
    } else if same(resource, "storageclasses") {
        "StorageClass"
    } else if same(resource, "csidrivers") {
        "CSIDriver"
    } else if same(resource, "csinodes") {
        "CSINode"
    } else if same(resource, "volumeattachments") {
        "VolumeAttachment"
    } else if same(resource, "csistoragecapacities") {
        "CSIStorageCapacity"
    } else if same(resource, "endpointslices") {
        "EndpointSlice"
    } else if same(resource, "certificatesigningrequests") {
        "CertificateSigningRequest"
    } else if same(resource, "priorityclasses") {
        "PriorityClass"
    } else if same(resource, "poddisruptionbudgets") {
        "PodDisruptionBudget"
    } else {
        resource
    }
}

/// The kind of a list of a resource, as `NodeList` for `nodes`.
pub fn resource_to_list_kind(resource: &str) -> (r: String)
    ensures
        r@ == kind_of(resource@) + "List"@,
{
    kind(resource).to_owned().concat("List")
}

/// The kind of a resource, as `Node` for `nodes`.
pub fn resource_to_kind(resource: &str) -> (r: String)
    ensures
        r@ == kind_of(resource@),
{
    kind(resource).to_owned()
}

/// The `apiVersion` that a built-in resource belongs to.
pub fn resource_to_api_version(resource: &str) -> (r: &'static str)
    ensures
        r@ == api_version_of(resource@),
{
    if same(resource, "deployments") || same(resource, "replicasets")
        || same(resource, "statefulsets") || same(resource, "daemonsets") || same(resource, "controllerrevisions") {
        "apps/v1"
    } else if same(resource, "jobs") || same(resource, "cronjobs") {
        "batch/v1"
    } else if same(resource, "leases") {
        "coordination.k8s.io/v1"
    } else if same(resource, "endpointslices") {
        "discovery.k8s.io/v1"
    } else if same(resource, "storageclasses") || same(resource, "csidrivers")
        || same(resource, "csinodes") || same(resource, "volumeattachments") || same(resource, "csistoragecapacities") {
        "storage.k8s.io/v1"
    } else if same(resource, "clusterroles") || same(resource, "clusterrolebindings")
        || same(resource, "roles") || same(resource, "rolebindings") {
        "rbac.authorization.k8s.io/v1"
    } else if same(resource, "certificatesigningrequests") {
        "certificates.k8s.io/v1"
    } else if same(resource, "customresourcedefinitions") {
        "apiextensions.k8s.io/v1"
    } else if same(resource, "horizontalpodautoscalers") {
        "autoscaling/v2"
    } else if same(resource, "networkpolicies") || same(resource, "ingresses")
        || same(resource, "ingressclasses") {
        "networking.k8s.io/v1"
    } else if same(resource, "priorityclasses") {
        "scheduling.k8s.io/v1"
    } else if same(resource, "poddisruptionbudgets") {
        "policy/v1"
    } else if same(resource, "mutatingwebhookconfigurations")
        || same(resource, "validatingwebhookconfigurations") {
        "admissionregistration.k8s.io/v1"
    } else if same(resource, "gatewayclasses") || same(resource, "gateways")
        || same(resource, "httproutes") {
        "gateway.networking.k8s.io/v1"
    } else if same(resource, "apiservices") {
        "apiregistration.k8s.io/v1"
    } else if same(resource, "podmigrations") {
        "rustkube.io/v1alpha1"
    } else {
        "v1"
    }
}

} // verus!
