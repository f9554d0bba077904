use rustkube::apiserver::discovery::{
    api_admissionregistration_v1_resources, api_apiextensions_v1_resources,
    api_apiregistration_v1_resources, api_apps_v1_resources, api_autoscaling_v2_resources,
    api_batch_v1_resources, api_certificates_v1_resources, api_coordination_v1_resources,
    api_discovery_v1_resources, api_gateway_v1_resources, api_networking_v1_resources,
    api_policy_v1_resources, api_rbac_v1_resources, api_rustkube_v1alpha1_resources,
    api_storage_v1_resources, api_v1_resources, api_versions,
};
use rustkube::json::Json;
use rustkube::outside::{parse_json, write_json};

fn same(v: &Json, text: &str) {
    match parse_json(text.as_bytes()) {
        Ok(want) => assert!(v.equals(&want), "{}", write_json(v)),
        Err(e) => panic!("{e}: {text}"),
    }
}

#[test]
fn core_versions_are_listed() {
    same(
        &api_versions(),
        r#"{
         "kind": "APIVersions",
         "versions": ["v1"],
         "serverAddressByClientCIDRs": [
          {
           "clientCIDR": "0.0.0.0/0",
           "serverAddress": ""
          }
         ]
        }"#,
    );
}

#[test]
fn v1_are_listed() {
    same(
        &api_v1_resources(),
        r#"{
         "kind": "APIResourceList",
         "groupVersion": "v1",
         "resources": [
          {
           "name": "namespaces",
           "singularName": "namespace",
           "namespaced": false,
           "kind": "Namespace",
           "verbs": ["create", "delete", "get", "list", "patch", "update", "watch"],
           "shortNames": ["ns"]
          },
          {
           "name": "nodes",
           "singularName": "node",
           "namespaced": false,
           "kind": "Node",
           "verbs": ["create", "delete", "get", "list", "patch", "update", "watch"],
           "shortNames": ["no"]
          },
          {
           "name": "nodes/status",
           "singularName": "",
           "namespaced": false,
           "kind": "Node",
           "verbs": ["get", "patch", "update"]
          },
          {
           "name": "pods",
           "singularName": "pod",
           "namespaced": true,
           "kind": "Pod",
           "verbs": ["create", "delete", "deletecollection", "get", "list", "patch", "update", "watch"],
           "shortNames": ["po"]
          },
          {
           "name": "pods/status",
           "singularName": "",
           "namespaced": true,
           "kind": "Pod",
           "verbs": ["get", "patch", "update"]
          },
          {
           "name": "pods/log",
           "singularName": "",
           "namespaced": true,
           "kind": "Pod",
           "verbs": ["get"]
          },
          {
           "name": "services",
           "singularName": "service",
           "namespaced": true,
           "kind": "Service",
           "verbs": ["create", "delete", "get", "list", "patch", "update", "watch"],
           "shortNames": ["svc"]
          },
          {
           "name": "services/status",
           "singularName": "",
           "namespaced": true,
           "kind": "Service",
           "verbs": ["get", "patch", "update"]
          },
          {
           "name": "endpoints",
           "singularName": "endpoint",
           "namespaced": true,
           "kind": "Endpoints",
           "verbs": ["create", "delete", "get", "list", "patch", "update", "watch"],
           "shortNames": ["ep"]
          },
          {
           "name": "configmaps",
           "singularName": "configmap",
           "namespaced": true,
           "kind": "ConfigMap",
           "verbs": ["create", "delete", "get", "list", "patch", "update", "watch"],
           "shortNames": ["cm"]
          },
          {
           "name": "secrets",
           "singularName": "secret",
           "namespaced": true,
           "kind": "Secret",
           "verbs": ["create", "delete", "get", "list", "patch", "update", "watch"]
          },
          {
           "name": "serviceaccounts",
           "singularName": "serviceaccount",
           "namespaced": true,
           "kind": "ServiceAccount",
           "verbs": ["create", "delete", "get", "list", "patch", "update", "watch"],
           "shortNames": ["sa"]
          },
          {
           "name": "events",
           "singularName": "event",
           "namespaced": true,
           "kind": "Event",
           "verbs": ["create", "delete", "get", "list", "patch", "update", "watch"],
           "shortNames": ["ev"]
          },
          {
           "name": "persistentvolumeclaims",
           "singularName": "persistentvolumeclaim",
           "namespaced": true,
           "kind": "PersistentVolumeClaim",
           "verbs": ["create", "delete", "get", "list", "patch", "update", "watch"],
           "shortNames": ["pvc"]
          },
          {
           "name": "persistentvolumes",
           "singularName": "persistentvolume",
           "namespaced": false,
           "kind": "PersistentVolume",
           "verbs": ["create", "delete", "get", "list", "patch", "update", "watch"],
           "shortNames": ["pv"]
          }
         ]
        }"#,
    );
}

#[test]
fn apps_v1_are_listed() {
    same(
        &api_apps_v1_resources(),
        r#"{
         "kind": "APIResourceList",
         "groupVersion": "apps/v1",
         "resources": [
          {
           "name": "deployments",
           "singularName": "deployment",
           "namespaced": true,
           "kind": "Deployment",
           "verbs": ["create", "delete", "get", "list", "patch", "update", "watch"],
           "shortNames": ["deploy"]
          },
          {
           "name": "deployments/status",
           "singularName": "",
           "namespaced": true,
           "kind": "Deployment",
           "verbs": ["get", "patch", "update"]
          },
          {
           "name": "deployments/scale",
           "singularName": "",
           "namespaced": true,
           "kind": "Scale",
           "group": "autoscaling",
           "version": "v1",
           "verbs": ["get", "patch", "update"]
          },
          {
           "name": "replicasets",
           "singularName": "replicaset",
           "namespaced": true,
           "kind": "ReplicaSet",
           "verbs": ["create", "delete", "get", "list", "patch", "update", "watch"],
           "shortNames": ["rs"]
          },
          {
           "name": "statefulsets",
           "singularName": "statefulset",
           "namespaced": true,
           "kind": "StatefulSet",
           "verbs": ["create", "delete", "get", "list", "patch", "update", "watch"],
           "shortNames": ["sts"]
          },
          {
           "name": "statefulsets/status",
           "singularName": "",
           "namespaced": true,
           "kind": "StatefulSet",
           "verbs": ["get", "patch", "update"]
          },
          {
           "name": "daemonsets",
           "singularName": "daemonset",
           "namespaced": true,
           "kind": "DaemonSet",
           "verbs": ["create", "delete", "get", "list", "patch", "update", "watch"],
           "shortNames": ["ds"]
          },
          {
           "name": "daemonsets/status",
           "singularName": "",
           "namespaced": true,
           "kind": "DaemonSet",
           "verbs": ["get", "patch", "update"]
          }
         ]
        }"#,
    );
}

#[test]
fn batch_v1_are_listed() {
    same(
        &api_batch_v1_resources(),
        r#"{
         "kind": "APIResourceList",
         "groupVersion": "batch/v1",
         "resources": [
          {
           "name": "jobs",
           "singularName": "job",
           "namespaced": true,
           "kind": "Job",
           "verbs": ["create", "delete", "get", "list", "patch", "update", "watch"]
          },
          {
           "name": "jobs/status",
           "singularName": "",
           "namespaced": true,
           "kind": "Job",
           "verbs": ["get", "patch", "update"]
          },
          {
           "name": "cronjobs",
           "singularName": "cronjob",
           "namespaced": true,
           "kind": "CronJob",
           "verbs": ["create", "delete", "get", "list", "patch", "update", "watch"],
           "shortNames": ["cj"]
          },
          {
           "name": "cronjobs/status",
           "singularName": "",
           "namespaced": true,
           "kind": "CronJob",
           "verbs": ["get", "patch", "update"]
          }
         ]
        }"#,
    );
}

#[test]
fn coordination_v1_are_listed() {
    same(
        &api_coordination_v1_resources(),
        r#"{
         "kind": "APIResourceList",
         "groupVersion": "coordination.k8s.io/v1",
         "resources": [
          {
           "name": "leases",
           "singularName": "lease",
           "namespaced": true,
           "kind": "Lease",
           "verbs": ["create", "delete", "get", "list", "patch", "update", "watch"]
          }
         ]
        }"#,
    );
}

#[test]
fn discovery_v1_are_listed() {
    same(
        &api_discovery_v1_resources(),
        r#"{
         "kind": "APIResourceList",
         "groupVersion": "discovery.k8s.io/v1",
         "resources": [
          {
           "name": "endpointslices",
           "singularName": "endpointslice",
           "namespaced": true,
           "kind": "EndpointSlice",
           "verbs": ["create", "delete", "get", "list", "patch", "update", "watch"]
          }
         ]
        }"#,
    );
}

#[test]
fn policy_v1_are_listed() {
    same(
        &api_policy_v1_resources(),
        r#"{
         "kind": "APIResourceList",
         "apiVersion": "v1",
         "groupVersion": "policy/v1",
         "resources": [
          {
           "name": "poddisruptionbudgets",
           "singularName": "poddisruptionbudget",
           "namespaced": true,
           "kind": "PodDisruptionBudget",
           "shortNames": ["pdb"],
           "verbs": ["create", "delete", "deletecollection", "get", "list", "patch", "update", "watch"]
          },
          {
           "name": "poddisruptionbudgets/status",
           "singularName": "",
           "namespaced": true,
           "kind": "PodDisruptionBudget",
           "verbs": ["get", "patch", "update"]
          },
          {
           "name": "pods/eviction",
           "singularName": "",
           "namespaced": true,
           "group": "policy",
           "version": "v1",
           "kind": "Eviction",
           "verbs": ["create"]
          }
         ]
        }"#,
    );
}

#[test]
fn storage_v1_are_listed() {
    same(
        &api_storage_v1_resources(),
        r#"{
         "kind": "APIResourceList",
         "apiVersion": "v1",
         "groupVersion": "storage.k8s.io/v1",
         "resources": [
          {
           "name": "storageclasses",
           "singularName": "storageclass",
           "namespaced": false,
           "kind": "StorageClass",
           "shortNames": ["sc"],
           "verbs": ["create", "delete", "deletecollection", "get", "list", "patch", "update", "watch"]
          },
          {
           "name": "csidrivers",
           "singularName": "csidriver",
           "namespaced": false,
           "kind": "CSIDriver",
           "verbs": ["create", "delete", "deletecollection", "get", "list", "patch", "update", "watch"]
          },
          {
           "name": "csinodes",
           "singularName": "csinode",
           "namespaced": false,
           "kind": "CSINode",
           "verbs": ["create", "delete", "deletecollection", "get", "list", "patch", "update", "watch"]
          },
          {
           "name": "volumeattachments",
           "singularName": "volumeattachment",
           "namespaced": false,
           "kind": "VolumeAttachment",
           "verbs": ["create", "delete", "deletecollection", "get", "list", "patch", "update", "watch"]
          },
          {
           "name": "volumeattachments/status",
           "singularName": "",
           "namespaced": false,
           "kind": "VolumeAttachment",
           "verbs": ["get", "patch", "update"]
          },
          {
           "name": "csistoragecapacities",
           "singularName": "csistoragecapacity",
           "namespaced": true,
           "kind": "CSIStorageCapacity",
           "verbs": ["create", "delete", "deletecollection", "get", "list", "patch", "update", "watch"]
          }
         ]
        }"#,
    );
}

#[test]
fn certificates_v1_are_listed() {
    same(
        &api_certificates_v1_resources(),
        r#"{
         "kind": "APIResourceList",
         "groupVersion": "certificates.k8s.io/v1",
         "resources": [
          {
           "name": "certificatesigningrequests",
           "singularName": "certificatesigningrequest",
           "namespaced": false,
           "kind": "CertificateSigningRequest",
           "verbs": ["create", "delete", "get", "list", "patch", "update", "watch"],
           "shortNames": ["csr"]
          },
          {
           "name": "certificatesigningrequests/approval",
           "singularName": "",
           "namespaced": false,
           "kind": "CertificateSigningRequest",
           "verbs": ["get", "patch", "update"]
          },
          {
           "name": "certificatesigningrequests/status",
           "singularName": "",
           "namespaced": false,
           "kind": "CertificateSigningRequest",
           "verbs": ["get", "patch", "update"]
          }
         ]
        }"#,
    );
}

#[test]
fn rustkube_v1alpha1_are_listed() {
    same(
        &api_rustkube_v1alpha1_resources(),
        r#"{
         "kind": "APIResourceList",
         "groupVersion": "rustkube.io/v1alpha1",
         "resources": [
          {
           "name": "podmigrations",
           "singularName": "podmigration",
           "namespaced": true,
           "kind": "PodMigration",
           "verbs": ["create", "delete", "get", "list", "patch", "update", "watch"],
           "shortNames": ["pm"]
          }
         ]
        }"#,
    );
}

#[test]
fn rbac_v1_are_listed() {
    same(
        &api_rbac_v1_resources(),
        r#"{
         "kind": "APIResourceList",
         "groupVersion": "rbac.authorization.k8s.io/v1",
         "resources": [
          {
           "name": "clusterroles",
           "singularName": "clusterrole",
           "namespaced": false,
           "kind": "ClusterRole",
           "verbs": ["create", "delete", "get", "list", "patch", "update", "watch"]
          },
          {
           "name": "clusterrolebindings",
           "singularName": "clusterrolebinding",
           "namespaced": false,
           "kind": "ClusterRoleBinding",
           "verbs": ["create", "delete", "get", "list", "patch", "update", "watch"]
          },
          {
           "name": "roles",
           "singularName": "role",
           "namespaced": true,
           "kind": "Role",
           "verbs": ["create", "delete", "get", "list", "patch", "update", "watch"]
          },
          {
           "name": "rolebindings",
           "singularName": "rolebinding",
           "namespaced": true,
           "kind": "RoleBinding",
           "verbs": ["create", "delete", "get", "list", "patch", "update", "watch"]
          }
         ]
        }"#,
    );
}

#[test]
fn apiextensions_v1_are_listed() {
    same(
        &api_apiextensions_v1_resources(),
        r#"{
         "kind": "APIResourceList",
         "groupVersion": "apiextensions.k8s.io/v1",
         "resources": [
          {
           "name": "customresourcedefinitions",
           "singularName": "customresourcedefinition",
           "namespaced": false,
           "kind": "CustomResourceDefinition",
           "verbs": ["create", "delete", "get", "list", "patch", "update", "watch"],
           "shortNames": ["crd", "crds"]
          },
          {
           "name": "customresourcedefinitions/status",
           "singularName": "",
           "namespaced": false,
           "kind": "CustomResourceDefinition",
           "verbs": ["get", "patch", "update"]
          }
         ]
        }"#,
    );
}

#[test]
fn autoscaling_v2_are_listed() {
    same(
        &api_autoscaling_v2_resources(),
        r#"{
         "kind": "APIResourceList",
         "groupVersion": "autoscaling/v2",
         "resources": [
          {
           "name": "horizontalpodautoscalers",
           "singularName": "horizontalpodautoscaler",
           "namespaced": true,
           "kind": "HorizontalPodAutoscaler",
           "verbs": ["create", "delete", "get", "list", "patch", "update", "watch"],
           "shortNames": ["hpa"]
          },
          {
           "name": "horizontalpodautoscalers/status",
           "singularName": "",
           "namespaced": true,
           "kind": "HorizontalPodAutoscaler",
           "verbs": ["get", "patch", "update"]
          }
         ]
        }"#,
    );
}

#[test]
fn networking_v1_are_listed() {
    same(
        &api_networking_v1_resources(),
        r#"{
         "kind": "APIResourceList",
         "groupVersion": "networking.k8s.io/v1",
         "resources": [
          {
           "name": "networkpolicies",
           "singularName": "networkpolicy",
           "namespaced": true,
           "kind": "NetworkPolicy",
           "verbs": ["create", "delete", "get", "list", "patch", "update", "watch"],
           "shortNames": ["netpol"]
          },
          {
           "name": "ingresses",
           "singularName": "ingress",
           "namespaced": true,
           "kind": "Ingress",
           "verbs": ["create", "delete", "get", "list", "patch", "update", "watch"],
           "shortNames": ["ing"]
          },
          {
           "name": "ingresses/status",
           "singularName": "",
           "namespaced": true,
           "kind": "Ingress",
           "verbs": ["get", "patch", "update"]
          },
          {
           "name": "ingressclasses",
           "singularName": "ingressclass",
           "namespaced": false,
           "kind": "IngressClass",
           "verbs": ["create", "delete", "get", "list", "patch", "update", "watch"]
          }
         ]
        }"#,
    );
}

#[test]
fn admissionregistration_v1_are_listed() {
    same(
        &api_admissionregistration_v1_resources(),
        r#"{
         "kind": "APIResourceList",
         "groupVersion": "admissionregistration.k8s.io/v1",
         "resources": [
          {
           "name": "mutatingwebhookconfigurations",
           "singularName": "mutatingwebhookconfiguration",
           "namespaced": false,
           "kind": "MutatingWebhookConfiguration",
           "verbs": ["create", "delete", "get", "list", "patch", "update", "watch"]
          },
          {
           "name": "validatingwebhookconfigurations",
           "singularName": "validatingwebhookconfiguration",
           "namespaced": false,
           "kind": "ValidatingWebhookConfiguration",
           "verbs": ["create", "delete", "get", "list", "patch", "update", "watch"]
          }
         ]
        }"#,
    );
}

#[test]
fn gateway_v1_are_listed() {
    same(
        &api_gateway_v1_resources(),
        r#"{
         "kind": "APIResourceList",
         "groupVersion": "gateway.networking.k8s.io/v1",
         "resources": [
          {
           "name": "gatewayclasses",
           "singularName": "gatewayclass",
           "namespaced": false,
           "kind": "GatewayClass",
           "verbs": ["create", "delete", "get", "list", "patch", "update", "watch"]
          },
          {
           "name": "gateways",
           "singularName": "gateway",
           "namespaced": true,
           "kind": "Gateway",
           "verbs": ["create", "delete", "get", "list", "patch", "update", "watch"]
          },
          {
           "name": "gateways/status",
           "singularName": "",
           "namespaced": true,
           "kind": "Gateway",
           "verbs": ["get", "patch", "update"]
          },
          {
           "name": "httproutes",
           "singularName": "httproute",
           "namespaced": true,
           "kind": "HTTPRoute",
           "verbs": ["create", "delete", "get", "list", "patch", "update", "watch"]
          },
          {
           "name": "httproutes/status",
           "singularName": "",
           "namespaced": true,
           "kind": "HTTPRoute",
           "verbs": ["get", "patch", "update"]
          }
         ]
        }"#,
    );
}

#[test]
fn apiregistration_v1_are_listed() {
    same(
        &api_apiregistration_v1_resources(),
        r#"{
         "kind": "APIResourceList",
         "groupVersion": "apiregistration.k8s.io/v1",
         "resources": [
          {
           "name": "apiservices",
           "singularName": "apiservice",
           "namespaced": false,
           "kind": "APIService",
           "verbs": ["create", "delete", "get", "list", "patch", "update", "watch"]
          },
          {
           "name": "apiservices/status",
           "singularName": "",
           "namespaced": false,
           "kind": "APIService",
           "verbs": ["get", "patch", "update"]
          }
         ]
        }"#,
    );
}
