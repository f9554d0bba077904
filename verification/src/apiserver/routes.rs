//! The paths that the server serves.

use vstd::prelude::*;
use vstd::string::*;

use crate::apiserver::paths::{path_resource, resource_of_path};
use crate::text::{has_prefix, has_suffix, same, starts_with};

verus! {

/// What a path serves, and under which methods.
#[derive(Debug, Clone, Copy, PartialEq, Eq, Structural)]
pub enum Endpoint {
    /// The version of the server.
    Version,
    /// Health.
    Healthz,
    /// Liveness.
    Livez,
    /// Readiness.
    Readyz,
    /// The versions of the core group.
    ApiVersions,
    /// The schema, version 2.
    OpenapiV2,
    /// The schema, version 3.
    OpenapiV3,
    /// The schema of a group.
    OpenapiV3Group,
    /// The groups.
    ApiGroups,
    /// The resources of a built-in group.
    GroupResources,
    /// List and create, without a namespace.
    ClusterCollection,
    /// Get, put, delete and patch, without a namespace.
    ClusterObject,
    /// Put the finalizers of a namespace.
    FinalizeNamespace,
    /// List and create, in a namespace.
    NamespacedCollection,
    /// Get, put, delete and patch, in a namespace.
    NamespacedObject,
    /// Post a request for a token.
    ServiceAccountToken,
    /// List, without a namespace.
    ClusterList,
    /// List, over all namespaces.
    AllNamespaces,
    /// Get, put and patch the status, without a namespace.
    ClusterStatus,
    /// Get and put the status, without a namespace.
    ClusterApproval,
    /// Get, put and patch the status, in a namespace.
    NamespacedStatus,
    /// List and create custom resources, without a namespace.
    CustomClusterCollection,
    /// Get, put, delete and patch a custom resource, without a namespace.
    CustomClusterObject,
    /// Get, put and patch its status.
    CustomClusterStatus,
    /// List and create custom resources, in a namespace.
    CustomNamespacedCollection,
    /// Get, put, delete and patch a custom resource, in a namespace.
    CustomNamespacedObject,
    /// Get, put and patch its status.
    CustomNamespacedStatus,
    /// The resources of a custom group.
    CustomResources,
    /// Get the log of a pod.
    PodLogs,
    /// Run a command in a pod.
    PodExec,
    /// Attach to a pod.
    PodAttach,
    /// Forward ports of a pod.
    PodPortforward,
    /// Post an eviction of a pod.
    PodEviction,
    /// Post a review of a token.
    TokenReview,
    /// Post a review of one's own access.
    SelfSubjectAccessReview,
    /// Post a review of one's own rules.
    SelfSubjectRulesReview,
    /// Post a review of another's access.
    SubjectAccessReview,
    /// Post a review of another's access in a namespace.
    LocalSubjectAccessReview,
    /// The serial console of an instance.
    VmiConsole,
    /// The screen of an instance.
    VmiVnc,
    /// Put a start of a machine.
    VmStart,
    /// Put a stop of a machine.
    VmStop,
    /// Put a restart of a machine.
    VmRestart,
    /// Get whether a project may be requested, and post a request.
    ProjectRequests,
    /// List and create projects.
    ProjectCollection,
    /// Get, put and delete a project.
    ProjectObject,
    /// The resources of `events.k8s.io/v1`.
    EventResources,
    /// List events, over all namespaces.
    EventList,
    /// List and create events, in a namespace.
    EventCollection,
    /// Get, put, delete and patch an event.
    EventObject,
}

/// Routes as texts.
pub open spec fn route_texts(v: Seq<(&'static str, Endpoint)>) -> Seq<(Seq<char>, Endpoint)> {
    v.map_values(|p: (&'static str, Endpoint)| (p.0@, p.1))
}

fn add_route(out: &mut Vec<(&'static str, Endpoint)>, path: &'static str, endpoint: Endpoint)
    ensures
        route_texts(final(out)@) == route_texts(old(out)@).push((path@, endpoint)),
{
    let ghost was = route_texts(out@);
    out.push((path, endpoint));
    assert(route_texts(out@) =~= was.push((path@, endpoint)));
}

/// The paths that tell what is served, and how the server is.
pub open spec fn discovery_route_table() -> Seq<(Seq<char>, Endpoint)> {
    Seq::empty().push(
        ("/version"@, Endpoint::Version),
    ).push(
        ("/healthz"@, Endpoint::Healthz),
    ).push(
        ("/livez"@, Endpoint::Livez),
    ).push(
        ("/readyz"@, Endpoint::Readyz),
    ).push(
        ("/api"@, Endpoint::ApiVersions),
    ).push(
        ("/openapi/v2"@, Endpoint::OpenapiV2),
    ).push(
        ("/openapi/v3"@, Endpoint::OpenapiV3),
    ).push(
        ("/openapi/v3/{*path}"@, Endpoint::OpenapiV3Group),
    ).push(
        ("/apis"@, Endpoint::ApiGroups),
    ).push(
        ("/api/v1"@, Endpoint::GroupResources),
    ).push(
        ("/apis/apps/v1"@, Endpoint::GroupResources),
    ).push(
        ("/apis/batch/v1"@, Endpoint::GroupResources),
    ).push(
        ("/apis/coordination.k8s.io/v1"@, Endpoint::GroupResources),
    ).push(
        ("/apis/rbac.authorization.k8s.io/v1"@, Endpoint::GroupResources),
    ).push(
        ("/apis/apiextensions.k8s.io/v1"@, Endpoint::GroupResources),
    ).push(
        ("/apis/discovery.k8s.io/v1"@, Endpoint::GroupResources),
    ).push(
        ("/apis/storage.k8s.io/v1"@, Endpoint::GroupResources),
    ).push(
        ("/apis/certificates.k8s.io/v1"@, Endpoint::GroupResources),
    ).push(
        ("/apis/rustkube.io/v1alpha1"@, Endpoint::GroupResources),
    ).push(
        ("/apis/autoscaling/v2"@, Endpoint::GroupResources),
    ).push(
        ("/apis/networking.k8s.io/v1"@, Endpoint::GroupResources),
    ).push(
        ("/apis/admissionregistration.k8s.io/v1"@, Endpoint::GroupResources),
    ).push(
        ("/apis/gateway.networking.k8s.io/v1"@, Endpoint::GroupResources),
    ).push(
        ("/apis/apiregistration.k8s.io/v1"@, Endpoint::GroupResources),
    )
}

/// The paths that tell what is served, and how the server is.
pub fn discovery_routes(out: &mut Vec<(&'static str, Endpoint)>)
    requires
        old(out)@.len() == 0,
    ensures
        route_texts(final(out)@) == discovery_route_table(),
{
    assert(route_texts(out@) =~= Seq::<(Seq<char>, Endpoint)>::empty());
    add_route(
        out,
        "/version",
        Endpoint::Version,
    );
    add_route(
        out,
        "/healthz",
        Endpoint::Healthz,
    );
    add_route(
        out,
        "/livez",
        Endpoint::Livez,
    );
    add_route(
        out,
        "/readyz",
        Endpoint::Readyz,
    );
    add_route(
        out,
        "/api",
        Endpoint::ApiVersions,
    );
    add_route(
        out,
        "/openapi/v2",
        Endpoint::OpenapiV2,
    );
    add_route(
        out,
        "/openapi/v3",
        Endpoint::OpenapiV3,
    );
    add_route(
        out,
        "/openapi/v3/{*path}",
        Endpoint::OpenapiV3Group,
    );
    add_route(
        out,
        "/apis",
        Endpoint::ApiGroups,
    );
    add_route(
        out,
        "/api/v1",
        Endpoint::GroupResources,
    );
    add_route(
        out,
        "/apis/apps/v1",
        Endpoint::GroupResources,
    );
    add_route(
        out,
        "/apis/batch/v1",
        Endpoint::GroupResources,
    );
    add_route(
        out,
        "/apis/coordination.k8s.io/v1",
        Endpoint::GroupResources,
    );
    add_route(
        out,
        "/apis/rbac.authorization.k8s.io/v1",
        Endpoint::GroupResources,
    );
    add_route(
        out,
        "/apis/apiextensions.k8s.io/v1",
        Endpoint::GroupResources,
    );
    add_route(
        out,
        "/apis/discovery.k8s.io/v1",
        Endpoint::GroupResources,
    );
    add_route(
        out,
        "/apis/storage.k8s.io/v1",
        Endpoint::GroupResources,
    );
    add_route(
        out,
        "/apis/certificates.k8s.io/v1",
        Endpoint::GroupResources,
    );
    add_route(
        out,
        "/apis/rustkube.io/v1alpha1",
        Endpoint::GroupResources,
    );
    add_route(
        out,
        "/apis/autoscaling/v2",
        Endpoint::GroupResources,
    );
    add_route(
        out,
        "/apis/networking.k8s.io/v1",
        Endpoint::GroupResources,
    );
    add_route(
        out,
        "/apis/admissionregistration.k8s.io/v1",
        Endpoint::GroupResources,
    );
    add_route(
        out,
        "/apis/gateway.networking.k8s.io/v1",
        Endpoint::GroupResources,
    );
    add_route(
        out,
        "/apis/apiregistration.k8s.io/v1",
        Endpoint::GroupResources,
    );
}

/// The paths of the core group.
pub open spec fn core_route_table() -> Seq<(Seq<char>, Endpoint)> {
    Seq::empty().push(
        ("/api/v1/{resource}"@, Endpoint::ClusterCollection),
    ).push(
        ("/api/v1/{resource}/{name}"@, Endpoint::ClusterObject),
    ).push(
        ("/api/v1/namespaces/{name}/finalize"@, Endpoint::FinalizeNamespace),
    ).push(
        ("/api/v1/namespaces/{namespace}/{resource}"@, Endpoint::NamespacedCollection),
    ).push(
        ("/api/v1/namespaces/{namespace}/{resource}/{name}"@, Endpoint::NamespacedObject),
    ).push(
        ("/api/v1/namespaces/{namespace}/serviceaccounts/{name}/token"@, Endpoint::ServiceAccountToken),
    ).push(
        ("/api/v1/{resource}/{name}/status"@, Endpoint::ClusterStatus),
    ).push(
        ("/api/v1/namespaces/{namespace}/{resource}/{name}/status"@, Endpoint::NamespacedStatus),
    )
}

/// The paths of the core group.
pub fn core_routes(out: &mut Vec<(&'static str, Endpoint)>)
    requires
        old(out)@.len() == 0,
    ensures
        route_texts(final(out)@) == core_route_table(),
{
    assert(route_texts(out@) =~= Seq::<(Seq<char>, Endpoint)>::empty());
    add_route(
        out,
        "/api/v1/{resource}",
        Endpoint::ClusterCollection,
    );
    add_route(
        out,
        "/api/v1/{resource}/{name}",
        Endpoint::ClusterObject,
    );
    add_route(
        out,
        "/api/v1/namespaces/{name}/finalize",
        Endpoint::FinalizeNamespace,
    );
    add_route(
        out,
        "/api/v1/namespaces/{namespace}/{resource}",
        Endpoint::NamespacedCollection,
    );
    add_route(
        out,
        "/api/v1/namespaces/{namespace}/{resource}/{name}",
        Endpoint::NamespacedObject,
    );
    add_route(
        out,
        "/api/v1/namespaces/{namespace}/serviceaccounts/{name}/token",
        Endpoint::ServiceAccountToken,
    );
    add_route(
        out,
        "/api/v1/{resource}/{name}/status",
        Endpoint::ClusterStatus,
    );
    add_route(
        out,
        "/api/v1/namespaces/{namespace}/{resource}/{name}/status",
        Endpoint::NamespacedStatus,
    );
}

/// The paths of the other built-in groups.
pub open spec fn group_route_table() -> Seq<(Seq<char>, Endpoint)> {
    Seq::empty().push(
        ("/apis/apps/v1/namespaces/{namespace}/{resource}"@, Endpoint::NamespacedCollection),
    ).push(
        ("/apis/apps/v1/namespaces/{namespace}/{resource}/{name}"@, Endpoint::NamespacedObject),
    ).push(
        ("/apis/apps/v1/{resource}"@, Endpoint::ClusterList),
    ).push(
        ("/apis/batch/v1/namespaces/{namespace}/{resource}"@, Endpoint::NamespacedCollection),
    ).push(
        ("/apis/batch/v1/namespaces/{namespace}/{resource}/{name}"@, Endpoint::NamespacedObject),
    ).push(
        ("/apis/batch/v1/{resource}"@, Endpoint::ClusterList),
    ).push(
        ("/apis/coordination.k8s.io/v1/namespaces/{namespace}/{resource}"@,
            Endpoint::NamespacedCollection),
    ).push(
        ("/apis/coordination.k8s.io/v1/namespaces/{namespace}/{resource}/{name}"@,
            Endpoint::NamespacedObject),
    ).push(
        ("/apis/coordination.k8s.io/v1/{resource}"@, Endpoint::ClusterList),
    ).push(
        ("/apis/discovery.k8s.io/v1/namespaces/{namespace}/{resource}"@,
            Endpoint::NamespacedCollection),
    ).push(
        ("/apis/discovery.k8s.io/v1/namespaces/{namespace}/{resource}/{name}"@,
            Endpoint::NamespacedObject),
    ).push(
        ("/apis/discovery.k8s.io/v1/{resource}"@, Endpoint::AllNamespaces),
    ).push(
        ("/apis/storage.k8s.io/v1/{resource}"@, Endpoint::ClusterCollection),
    ).push(
        ("/apis/storage.k8s.io/v1/{resource}/{name}"@, Endpoint::ClusterObject),
    ).push(
        ("/apis/storage.k8s.io/v1/{resource}/{name}/status"@, Endpoint::ClusterStatus),
    ).push(
        ("/apis/storage.k8s.io/v1/namespaces/{namespace}/{resource}"@, Endpoint::NamespacedCollection),
    ).push(
        ("/apis/storage.k8s.io/v1/namespaces/{namespace}/{resource}/{name}"@,
            Endpoint::NamespacedObject),
    ).push(
        ("/apis/scheduling.k8s.io/v1/{resource}"@, Endpoint::ClusterCollection),
    ).push(
        ("/apis/scheduling.k8s.io/v1/{resource}/{name}"@, Endpoint::ClusterObject),
    ).push(
        ("/apis/rbac.authorization.k8s.io/v1/{resource}"@, Endpoint::ClusterCollection),
    ).push(
        ("/apis/rbac.authorization.k8s.io/v1/{resource}/{name}"@, Endpoint::ClusterObject),
    ).push(
        ("/apis/certificates.k8s.io/v1/{resource}"@, Endpoint::ClusterCollection),
    ).push(
        ("/apis/certificates.k8s.io/v1/{resource}/{name}"@, Endpoint::ClusterObject),
    ).push(
        ("/apis/certificates.k8s.io/v1/{resource}/{name}/approval"@, Endpoint::ClusterApproval),
    ).push(
        ("/apis/certificates.k8s.io/v1/{resource}/{name}/status"@, Endpoint::ClusterApproval),
    ).push(
        ("/apis/rbac.authorization.k8s.io/v1/namespaces/{namespace}/{resource}"@,
            Endpoint::NamespacedCollection),
    ).push(
        ("/apis/rbac.authorization.k8s.io/v1/namespaces/{namespace}/{resource}/{name}"@,
            Endpoint::NamespacedObject),
    ).push(
        ("/apis/rustkube.io/v1alpha1/namespaces/{namespace}/{resource}"@,
            Endpoint::NamespacedCollection),
    ).push(
        ("/apis/rustkube.io/v1alpha1/namespaces/{namespace}/{resource}/{name}"@,
            Endpoint::NamespacedObject),
    ).push(
        ("/apis/rustkube.io/v1alpha1/{resource}"@, Endpoint::ClusterList),
    ).push(
        ("/apis/apps/v1/namespaces/{namespace}/{resource}/{name}/status"@, Endpoint::NamespacedStatus),
    ).push(
        ("/apis/batch/v1/namespaces/{namespace}/{resource}/{name}/status"@, Endpoint::NamespacedStatus),
    ).push(
        ("/apis/autoscaling/v2/namespaces/{namespace}/{resource}"@, Endpoint::NamespacedCollection),
    ).push(
        ("/apis/autoscaling/v2/namespaces/{namespace}/{resource}/{name}"@, Endpoint::NamespacedObject),
    ).push(
        ("/apis/autoscaling/v2/namespaces/{namespace}/{resource}/{name}/status"@,
            Endpoint::NamespacedStatus),
    ).push(
        ("/apis/autoscaling/v2/{resource}"@, Endpoint::ClusterList),
    ).push(
        ("/apis/networking.k8s.io/v1/namespaces/{namespace}/{resource}"@,
            Endpoint::NamespacedCollection),
    ).push(
        ("/apis/networking.k8s.io/v1/namespaces/{namespace}/{resource}/{name}"@,
            Endpoint::NamespacedObject),
    ).push(
        ("/apis/networking.k8s.io/v1/{resource}"@, Endpoint::ClusterCollection),
    ).push(
        ("/apis/networking.k8s.io/v1/{resource}/{name}"@, Endpoint::ClusterObject),
    ).push(
        ("/apis/admissionregistration.k8s.io/v1/{resource}"@, Endpoint::ClusterCollection),
    ).push(
        ("/apis/admissionregistration.k8s.io/v1/{resource}/{name}"@, Endpoint::ClusterObject),
    ).push(
        ("/apis/gateway.networking.k8s.io/v1/namespaces/{namespace}/{resource}"@,
            Endpoint::NamespacedCollection),
    ).push(
        ("/apis/gateway.networking.k8s.io/v1/namespaces/{namespace}/{resource}/{name}"@,
            Endpoint::NamespacedObject),
    ).push(
        ("/apis/gateway.networking.k8s.io/v1/{resource}"@, Endpoint::ClusterCollection),
    ).push(
        ("/apis/gateway.networking.k8s.io/v1/{resource}/{name}"@, Endpoint::ClusterObject),
    ).push(
        ("/apis/apiregistration.k8s.io/v1/{resource}"@, Endpoint::ClusterCollection),
    ).push(
        ("/apis/apiregistration.k8s.io/v1/{resource}/{name}"@, Endpoint::ClusterObject),
    )
}

/// The paths of the other built-in groups.
pub fn group_routes(out: &mut Vec<(&'static str, Endpoint)>)
    requires
        old(out)@.len() == 0,
    ensures
        route_texts(final(out)@) == group_route_table(),
{
    assert(route_texts(out@) =~= Seq::<(Seq<char>, Endpoint)>::empty());
    add_route(
        out,
        "/apis/apps/v1/namespaces/{namespace}/{resource}",
        Endpoint::NamespacedCollection,
    );
    add_route(
        out,
        "/apis/apps/v1/namespaces/{namespace}/{resource}/{name}",
        Endpoint::NamespacedObject,
    );
    add_route(
        out,
        "/apis/apps/v1/{resource}",
        Endpoint::ClusterList,
    );
    add_route(
        out,
        "/apis/batch/v1/namespaces/{namespace}/{resource}",
        Endpoint::NamespacedCollection,
    );
    add_route(
        out,
        "/apis/batch/v1/namespaces/{namespace}/{resource}/{name}",
        Endpoint::NamespacedObject,
    );
    add_route(
        out,
        "/apis/batch/v1/{resource}",
        Endpoint::ClusterList,
    );
    add_route(
        out,
        "/apis/coordination.k8s.io/v1/namespaces/{namespace}/{resource}",
        Endpoint::NamespacedCollection,
    );
    add_route(
        out,
        "/apis/coordination.k8s.io/v1/namespaces/{namespace}/{resource}/{name}",
        Endpoint::NamespacedObject,
    );
    add_route(
        out,
        "/apis/coordination.k8s.io/v1/{resource}",
        Endpoint::ClusterList,
    );
    add_route(
        out,
        "/apis/discovery.k8s.io/v1/namespaces/{namespace}/{resource}",
        Endpoint::NamespacedCollection,
    );
    add_route(
        out,
        "/apis/discovery.k8s.io/v1/namespaces/{namespace}/{resource}/{name}",
        Endpoint::NamespacedObject,
    );
    add_route(
        out,
        "/apis/discovery.k8s.io/v1/{resource}",
        Endpoint::AllNamespaces,
    );
    add_route(
        out,
        "/apis/storage.k8s.io/v1/{resource}",
        Endpoint::ClusterCollection,
    );
    add_route(
        out,
        "/apis/storage.k8s.io/v1/{resource}/{name}",
        Endpoint::ClusterObject,
    );
    add_route(
        out,
        "/apis/storage.k8s.io/v1/{resource}/{name}/status",
        Endpoint::ClusterStatus,
    );
    add_route(
        out,
        "/apis/storage.k8s.io/v1/namespaces/{namespace}/{resource}",
        Endpoint::NamespacedCollection,
    );
    add_route(
        out,
        "/apis/storage.k8s.io/v1/namespaces/{namespace}/{resource}/{name}",
        Endpoint::NamespacedObject,
    );
    add_route(
        out,
        "/apis/scheduling.k8s.io/v1/{resource}",
        Endpoint::ClusterCollection,
    );
    add_route(
        out,
        "/apis/scheduling.k8s.io/v1/{resource}/{name}",
        Endpoint::ClusterObject,
    );
    add_route(
        out,
        "/apis/rbac.authorization.k8s.io/v1/{resource}",
        Endpoint::ClusterCollection,
    );
    add_route(
        out,
        "/apis/rbac.authorization.k8s.io/v1/{resource}/{name}",
        Endpoint::ClusterObject,
    );
    add_route(
        out,
        "/apis/certificates.k8s.io/v1/{resource}",
        Endpoint::ClusterCollection,
    );
    add_route(
        out,
        "/apis/certificates.k8s.io/v1/{resource}/{name}",
        Endpoint::ClusterObject,
    );
    add_route(
        out,
        "/apis/certificates.k8s.io/v1/{resource}/{name}/approval",
        Endpoint::ClusterApproval,
    );
    add_route(
        out,
        "/apis/certificates.k8s.io/v1/{resource}/{name}/status",
        Endpoint::ClusterApproval,
    );
    add_route(
        out,
        "/apis/rbac.authorization.k8s.io/v1/namespaces/{namespace}/{resource}",
        Endpoint::NamespacedCollection,
    );
    add_route(
        out,
        "/apis/rbac.authorization.k8s.io/v1/namespaces/{namespace}/{resource}/{name}",
        Endpoint::NamespacedObject,
    );
    add_route(
        out,
        "/apis/rustkube.io/v1alpha1/namespaces/{namespace}/{resource}",
        Endpoint::NamespacedCollection,
    );
    add_route(
        out,
        "/apis/rustkube.io/v1alpha1/namespaces/{namespace}/{resource}/{name}",
        Endpoint::NamespacedObject,
    );
    add_route(
        out,
        "/apis/rustkube.io/v1alpha1/{resource}",
        Endpoint::ClusterList,
    );
    add_route(
        out,
        "/apis/apps/v1/namespaces/{namespace}/{resource}/{name}/status",
        Endpoint::NamespacedStatus,
    );
    add_route(
        out,
        "/apis/batch/v1/namespaces/{namespace}/{resource}/{name}/status",
        Endpoint::NamespacedStatus,
    );
    add_route(
        out,
        "/apis/autoscaling/v2/namespaces/{namespace}/{resource}",
        Endpoint::NamespacedCollection,
    );
    add_route(
        out,
        "/apis/autoscaling/v2/namespaces/{namespace}/{resource}/{name}",
        Endpoint::NamespacedObject,
    );
    add_route(
        out,
        "/apis/autoscaling/v2/namespaces/{namespace}/{resource}/{name}/status",
        Endpoint::NamespacedStatus,
    );
    add_route(
        out,
        "/apis/autoscaling/v2/{resource}",
        Endpoint::ClusterList,
    );
    add_route(
        out,
        "/apis/networking.k8s.io/v1/namespaces/{namespace}/{resource}",
        Endpoint::NamespacedCollection,
    );
    add_route(
        out,
        "/apis/networking.k8s.io/v1/namespaces/{namespace}/{resource}/{name}",
        Endpoint::NamespacedObject,
    );
    add_route(
        out,
        "/apis/networking.k8s.io/v1/{resource}",
        Endpoint::ClusterCollection,
    );
    add_route(
        out,
        "/apis/networking.k8s.io/v1/{resource}/{name}",
        Endpoint::ClusterObject,
    );
    add_route(
        out,
        "/apis/admissionregistration.k8s.io/v1/{resource}",
        Endpoint::ClusterCollection,
    );
    add_route(
        out,
        "/apis/admissionregistration.k8s.io/v1/{resource}/{name}",
        Endpoint::ClusterObject,
    );
    add_route(
        out,
        "/apis/gateway.networking.k8s.io/v1/namespaces/{namespace}/{resource}",
        Endpoint::NamespacedCollection,
    );
    add_route(
        out,
        "/apis/gateway.networking.k8s.io/v1/namespaces/{namespace}/{resource}/{name}",
        Endpoint::NamespacedObject,
    );
    add_route(
        out,
        "/apis/gateway.networking.k8s.io/v1/{resource}",
        Endpoint::ClusterCollection,
    );
    add_route(
        out,
        "/apis/gateway.networking.k8s.io/v1/{resource}/{name}",
        Endpoint::ClusterObject,
    );
    add_route(
        out,
        "/apis/apiregistration.k8s.io/v1/{resource}",
        Endpoint::ClusterCollection,
    );
    add_route(
        out,
        "/apis/apiregistration.k8s.io/v1/{resource}/{name}",
        Endpoint::ClusterObject,
    );
}

/// The paths of custom resources.
pub open spec fn custom_route_table() -> Seq<(Seq<char>, Endpoint)> {
    Seq::empty().push(
        ("/apis/{group}/{version}/{resource}"@, Endpoint::CustomClusterCollection),
    ).push(
        ("/apis/{group}/{version}/{resource}/{name}"@, Endpoint::CustomClusterObject),
    ).push(
        ("/apis/{group}/{version}/{resource}/{name}/status"@, Endpoint::CustomClusterStatus),
    ).push(
        ("/apis/{group}/{version}/namespaces/{namespace}/{resource}"@,
            Endpoint::CustomNamespacedCollection),
    ).push(
        ("/apis/{group}/{version}/namespaces/{namespace}/{resource}/{name}"@,
            Endpoint::CustomNamespacedObject),
    ).push(
        ("/apis/{group}/{version}/namespaces/{namespace}/{resource}/{name}/status"@,
            Endpoint::CustomNamespacedStatus),
    ).push(
        ("/apis/{group}/{version}"@, Endpoint::CustomResources),
    )
}

/// The paths of custom resources.
pub fn custom_routes(out: &mut Vec<(&'static str, Endpoint)>)
    requires
        old(out)@.len() == 0,
    ensures
        route_texts(final(out)@) == custom_route_table(),
{
    assert(route_texts(out@) =~= Seq::<(Seq<char>, Endpoint)>::empty());
    add_route(
        out,
        "/apis/{group}/{version}/{resource}",
        Endpoint::CustomClusterCollection,
    );
    add_route(
        out,
        "/apis/{group}/{version}/{resource}/{name}",
        Endpoint::CustomClusterObject,
    );
    add_route(
        out,
        "/apis/{group}/{version}/{resource}/{name}/status",
        Endpoint::CustomClusterStatus,
    );
    add_route(
        out,
        "/apis/{group}/{version}/namespaces/{namespace}/{resource}",
        Endpoint::CustomNamespacedCollection,
    );
    add_route(
        out,
        "/apis/{group}/{version}/namespaces/{namespace}/{resource}/{name}",
        Endpoint::CustomNamespacedObject,
    );
    add_route(
        out,
        "/apis/{group}/{version}/namespaces/{namespace}/{resource}/{name}/status",
        Endpoint::CustomNamespacedStatus,
    );
    add_route(
        out,
        "/apis/{group}/{version}",
        Endpoint::CustomResources,
    );
}

/// The paths of streams, reviews, machines, projects and the second form of events.
pub open spec fn subresource_route_table() -> Seq<(Seq<char>, Endpoint)> {
    Seq::empty().push(
        ("/api/v1/namespaces/{namespace}/pods/{name}/log"@, Endpoint::PodLogs),
    ).push(
        ("/api/v1/namespaces/{namespace}/pods/{name}/exec"@, Endpoint::PodExec),
    ).push(
        ("/api/v1/namespaces/{namespace}/pods/{name}/attach"@, Endpoint::PodAttach),
    ).push(
        ("/api/v1/namespaces/{namespace}/pods/{name}/portforward"@, Endpoint::PodPortforward),
    ).push(
        ("/api/v1/namespaces/{namespace}/pods/{name}/eviction"@, Endpoint::PodEviction),
    ).push(
        ("/apis/authentication.k8s.io/v1/tokenreviews"@, Endpoint::TokenReview),
    ).push(
        ("/apis/authorization.k8s.io/v1/selfsubjectaccessreviews"@, Endpoint::SelfSubjectAccessReview),
    ).push(
        ("/apis/authorization.k8s.io/v1/selfsubjectrulesreviews"@, Endpoint::SelfSubjectRulesReview),
    ).push(
        ("/apis/authorization.k8s.io/v1/subjectaccessreviews"@, Endpoint::SubjectAccessReview),
    ).push(
        ("/apis/authorization.k8s.io/v1/namespaces/{namespace}/localsubjectaccessreviews"@,
            Endpoint::LocalSubjectAccessReview),
    ).push(
        ("/apis/subresources.kubevirt.io/v1/namespaces/{namespace}/virtualmachineinstances/{name}/console"@,
            Endpoint::VmiConsole),
    ).push(
        ("/apis/subresources.kubevirt.io/v1/namespaces/{namespace}/virtualmachineinstances/{name}/vnc"@,
            Endpoint::VmiVnc),
    ).push(
        ("/apis/subresources.kubevirt.io/v1/namespaces/{namespace}/virtualmachines/{name}/start"@,
            Endpoint::VmStart),
    ).push(
        ("/apis/subresources.kubevirt.io/v1/namespaces/{namespace}/virtualmachines/{name}/stop"@,
            Endpoint::VmStop),
    ).push(
        ("/apis/subresources.kubevirt.io/v1/namespaces/{namespace}/virtualmachines/{name}/restart"@,
            Endpoint::VmRestart),
    ).push(
        ("/apis/project.openshift.io/v1/projectrequests"@, Endpoint::ProjectRequests),
    ).push(
        ("/apis/project.openshift.io/v1/projects"@, Endpoint::ProjectCollection),
    ).push(
        ("/apis/project.openshift.io/v1/projects/{name}"@, Endpoint::ProjectObject),
    ).push(
        ("/apis/events.k8s.io/v1"@, Endpoint::EventResources),
    ).push(
        ("/apis/events.k8s.io/v1/events"@, Endpoint::EventList),
    ).push(
        ("/apis/events.k8s.io/v1/namespaces/{namespace}/events"@, Endpoint::EventCollection),
    ).push(
        ("/apis/events.k8s.io/v1/namespaces/{namespace}/events/{name}"@, Endpoint::EventObject),
    )
}

/// The paths of streams, reviews, machines, projects and the second form of events.
pub fn subresource_routes(out: &mut Vec<(&'static str, Endpoint)>)
    requires
        old(out)@.len() == 0,
    ensures
        route_texts(final(out)@) == subresource_route_table(),
{
    assert(route_texts(out@) =~= Seq::<(Seq<char>, Endpoint)>::empty());
    add_route(
        out,
        "/api/v1/namespaces/{namespace}/pods/{name}/log",
        Endpoint::PodLogs,
    );
    add_route(
        out,
        "/api/v1/namespaces/{namespace}/pods/{name}/exec",
        Endpoint::PodExec,
    );
    add_route(
        out,
        "/api/v1/namespaces/{namespace}/pods/{name}/attach",
        Endpoint::PodAttach,
    );
    add_route(
        out,
        "/api/v1/namespaces/{namespace}/pods/{name}/portforward",
        Endpoint::PodPortforward,
    );
    add_route(
        out,
        "/api/v1/namespaces/{namespace}/pods/{name}/eviction",
        Endpoint::PodEviction,
    );
    add_route(
        out,
        "/apis/authentication.k8s.io/v1/tokenreviews",
        Endpoint::TokenReview,
    );
    add_route(
        out,
        "/apis/authorization.k8s.io/v1/selfsubjectaccessreviews",
        Endpoint::SelfSubjectAccessReview,
    );
    add_route(
        out,
        "/apis/authorization.k8s.io/v1/selfsubjectrulesreviews",
        Endpoint::SelfSubjectRulesReview,
    );
    add_route(
        out,
        "/apis/authorization.k8s.io/v1/subjectaccessreviews",
        Endpoint::SubjectAccessReview,
    );
    add_route(
        out,
        "/apis/authorization.k8s.io/v1/namespaces/{namespace}/localsubjectaccessreviews",
        Endpoint::LocalSubjectAccessReview,
    );
    add_route(
        out,
        "/apis/subresources.kubevirt.io/v1/namespaces/{namespace}/virtualmachineinstances/{name}/console",
        Endpoint::VmiConsole,
    );
    add_route(
        out,
        "/apis/subresources.kubevirt.io/v1/namespaces/{namespace}/virtualmachineinstances/{name}/vnc",
        Endpoint::VmiVnc,
    );
    add_route(
        out,
        "/apis/subresources.kubevirt.io/v1/namespaces/{namespace}/virtualmachines/{name}/start",
        Endpoint::VmStart,
    );
    add_route(
        out,
        "/apis/subresources.kubevirt.io/v1/namespaces/{namespace}/virtualmachines/{name}/stop",
        Endpoint::VmStop,
    );
    add_route(
        out,
        "/apis/subresources.kubevirt.io/v1/namespaces/{namespace}/virtualmachines/{name}/restart",
        Endpoint::VmRestart,
    );
    add_route(
        out,
        "/apis/project.openshift.io/v1/projectrequests",
        Endpoint::ProjectRequests,
    );
    add_route(
        out,
        "/apis/project.openshift.io/v1/projects",
        Endpoint::ProjectCollection,
    );
    add_route(
        out,
        "/apis/project.openshift.io/v1/projects/{name}",
        Endpoint::ProjectObject,
    );
    add_route(
        out,
        "/apis/events.k8s.io/v1",
        Endpoint::EventResources,
    );
    add_route(
        out,
        "/apis/events.k8s.io/v1/events",
        Endpoint::EventList,
    );
    add_route(
        out,
        "/apis/events.k8s.io/v1/namespaces/{namespace}/events",
        Endpoint::EventCollection,
    );
    add_route(
        out,
        "/apis/events.k8s.io/v1/namespaces/{namespace}/events/{name}",
        Endpoint::EventObject,
    );
}

/// Every path that the server serves.
pub open spec fn route_table() -> Seq<(Seq<char>, Endpoint)> {
    discovery_route_table() + core_route_table() + group_route_table() + custom_route_table() + subresource_route_table()
}

/// Every path that the server serves, with what it serves. A segment in braces
/// stands for any; one without goes before one with.
pub fn build_router() -> (r: Vec<(&'static str, Endpoint)>)
    ensures
        route_texts(r@) == route_table(),
{
    let mut out: Vec<(&'static str, Endpoint)> = Vec::new();
    discovery_routes(&mut out);
    let mut part: Vec<(&'static str, Endpoint)> = Vec::new();
    core_routes(&mut part);
    join_routes(&mut out, part);
    let mut part: Vec<(&'static str, Endpoint)> = Vec::new();
    group_routes(&mut part);
    join_routes(&mut out, part);
    let mut part: Vec<(&'static str, Endpoint)> = Vec::new();
    custom_routes(&mut part);
    join_routes(&mut out, part);
    let mut part: Vec<(&'static str, Endpoint)> = Vec::new();
    subresource_routes(&mut part);
    join_routes(&mut out, part);
    out
}

fn join_routes(out: &mut Vec<(&'static str, Endpoint)>, part: Vec<(&'static str, Endpoint)>)
    ensures
        route_texts(final(out)@) == route_texts(old(out)@) + route_texts(part@),
{
    let mut part = part;
    let ghost a = route_texts(out@);
    let ghost b = route_texts(part@);
    out.append(&mut part);
    assert(route_texts(out@) =~= a + b);
}

// ---------------------------------------------------------------------------
// Labels
// ---------------------------------------------------------------------------

/// The label of a segment that is the name of a resource.
pub open spec fn known_resource(s: Seq<char>) -> bool {
    s == "namespaces"@
        || s == "nodes"@
        || s == "pods"@
        || s == "services"@
        || s == "endpoints"@
        || s == "endpointslices"@
        || s == "configmaps"@
        || s == "secrets"@
        || s == "serviceaccounts"@
        || s == "events"@
        || s == "persistentvolumes"@
        || s == "persistentvolumeclaims"@
        || s == "deployments"@
        || s == "replicasets"@
        || s == "statefulsets"@
        || s == "daemonsets"@
        || s == "jobs"@
        || s == "cronjobs"@
        || s == "leases"@
        || s == "customresourcedefinitions"@
        || s == "clusterroles"@
        || s == "clusterrolebindings"@
        || s == "roles"@
        || s == "rolebindings"@
        || s == "horizontalpodautoscalers"@
        || s == "storageclasses"@
        || s == "csidrivers"@
        || s == "csinodes"@
        || s == "volumeattachments"@
        || s == "csistoragecapacities"@
        || s == "certificatesigningrequests"@
        || s == "poddisruptionbudgets"@
        || s == "priorityclasses"@
}

fn resource_name(s: &str) -> (r: Option<&'static str>)
    ensures
        match r {
            Some(n) => known_resource(s@) && n@ == s@,
            None => !known_resource(s@),
        },
{
    if same(s, "namespaces") {
        return Some("namespaces");
    }
    if same(s, "nodes") {
        return Some("nodes");
    }
    if same(s, "pods") {
        return Some("pods");
    }
    if same(s, "services") {
        return Some("services");
    }
    if same(s, "endpoints") {
        return Some("endpoints");
    }
    if same(s, "endpointslices") {
        return Some("endpointslices");
    }
    if same(s, "configmaps") {
        return Some("configmaps");
    }
    if same(s, "secrets") {
        return Some("secrets");
    }
    if same(s, "serviceaccounts") {
        return Some("serviceaccounts");
    }
    if same(s, "events") {
        return Some("events");
    }
    if same(s, "persistentvolumes") {
        return Some("persistentvolumes");
    }
    if same(s, "persistentvolumeclaims") {
        return Some("persistentvolumeclaims");
    }
    if same(s, "deployments") {
        return Some("deployments");
    }
    if same(s, "replicasets") {
        return Some("replicasets");
    }
    if same(s, "statefulsets") {
        return Some("statefulsets");
    }
    if same(s, "daemonsets") {
        return Some("daemonsets");
    }
    if same(s, "jobs") {
        return Some("jobs");
    }
    if same(s, "cronjobs") {
        return Some("cronjobs");
    }
    if same(s, "leases") {
        return Some("leases");
    }
    if same(s, "customresourcedefinitions") {
        return Some("customresourcedefinitions");
    }
    if same(s, "clusterroles") {
        return Some("clusterroles");
    }
    if same(s, "clusterrolebindings") {
        return Some("clusterrolebindings");
    }
    if same(s, "roles") {
        return Some("roles");
    }
    if same(s, "rolebindings") {
        return Some("rolebindings");
    }
    if same(s, "horizontalpodautoscalers") {
        return Some("horizontalpodautoscalers");
    }
    if same(s, "storageclasses") {
        return Some("storageclasses");
    }
    if same(s, "csidrivers") {
        return Some("csidrivers");
    }
    if same(s, "csinodes") {
        return Some("csinodes");
    }
    if same(s, "volumeattachments") {
        return Some("volumeattachments");
    }
    if same(s, "csistoragecapacities") {
        return Some("csistoragecapacities");
    }
    if same(s, "certificatesigningrequests") {
        return Some("certificatesigningrequests");
    }
    if same(s, "poddisruptionbudgets") {
        return Some("poddisruptionbudgets");
    }
    if same(s, "priorityclasses") {
        return Some("priorityclasses");
    }
    None
}

/// The label of a path in the metrics: its resource, or what else it is. Names and
/// namespaces do not show, so that the labels are few.
pub open spec fn label_of(path: Seq<char>) -> Seq<char> {
    match resource_of_path(path) {
        Some((_, r)) if known_resource(r) => r,
        _ => if has_prefix(path, "/openapi"@) {
            "openapi"@
        } else if path == "/api"@ || has_prefix(path, "/apis"@) || path == "/version"@ {
            "discovery"@
        } else if has_prefix(path, "/healthz"@) || has_prefix(path, "/livez"@) || has_prefix(
            path,
            "/readyz"@,
        ) {
            "health"@
        } else {
            "other"@
        },
    }
}

/// The label of a path in the metrics.
pub fn resource_label(path: &str) -> (r: &'static str)
    ensures
        r@ == label_of(path@),
{
    if let Some((_, resource)) = path_resource(path) {
        if let Some(r) = resource_name(resource.as_str()) {
            return r;
        }
    }
    if starts_with(path, "/openapi") {
        "openapi"
    } else if same(path, "/api") || starts_with(path, "/apis") || same(path, "/version") {
        "discovery"
    } else if starts_with(path, "/healthz") || starts_with(path, "/livez") || starts_with(
        path,
        "/readyz",
    ) {
        "health"
    } else {
        "other"
    }
}

/// The labels are few: every label is the name of a resource or one of four
/// others, whatever names a path holds.
pub proof fn law_labels_are_bounded(path: Seq<char>)
    ensures
        known_resource(label_of(path)) || label_of(path) == "openapi"@ || label_of(path)
            == "discovery"@ || label_of(path) == "health"@ || label_of(path) == "other"@,
{
}

/// A path is counted under the resource that it names, where that is known.
pub proof fn law_a_path_is_counted_under_its_resource(path: Seq<char>)
    ensures
        resource_of_path(path) is Some && known_resource((resource_of_path(path)->0).1) ==> label_of(
            path,
        ) == (resource_of_path(path)->0).1,
        known_resource("pods"@) && known_resource("nodes"@) && known_resource("services"@),
        resource_of_path(path) is None && has_prefix(path, "/openapi"@) ==> label_of(path)
            == "openapi"@,
        resource_of_path(path) is None && path == "/api"@ && !has_prefix(path, "/openapi"@)
            ==> label_of(path) == "discovery"@,
{
}

/// A path is for what its end says: a collection, an object or its status, in a namespace where
/// it names one, and in none where it does not; or a part of a pod or of a machine.
pub open spec fn ends_as_served(path: Seq<char>, endpoint: Endpoint) -> bool {
    match endpoint {
        Endpoint::NamespacedCollection | Endpoint::CustomNamespacedCollection => has_suffix(path, "/namespaces/{namespace}/{resource}"@),
        Endpoint::NamespacedObject | Endpoint::CustomNamespacedObject => has_suffix(path, "/namespaces/{namespace}/{resource}/{name}"@),
        Endpoint::NamespacedStatus | Endpoint::CustomNamespacedStatus => has_suffix(path, "/namespaces/{namespace}/{resource}/{name}/status"@),
        Endpoint::ClusterCollection | Endpoint::ClusterList | Endpoint::AllNamespaces | Endpoint::CustomClusterCollection => has_suffix(path, "/{resource}"@) && !has_suffix(
            path,
            "/{namespace}/{resource}"@,
        ),
        Endpoint::ClusterObject | Endpoint::CustomClusterObject => has_suffix(path, "/{resource}/{name}"@) && !has_suffix(
            path,
            "/{namespace}/{resource}/{name}"@,
        ),
        Endpoint::ClusterStatus | Endpoint::CustomClusterStatus => has_suffix(path, "/{resource}/{name}/status"@) && !has_suffix(
            path,
            "/{namespace}/{resource}/{name}/status"@,
        ),
        Endpoint::PodLogs => has_suffix(path, "/pods/{name}/log"@),
        Endpoint::PodExec => has_suffix(path, "/pods/{name}/exec"@),
        Endpoint::PodAttach => has_suffix(path, "/pods/{name}/attach"@),
        Endpoint::PodPortforward => has_suffix(path, "/pods/{name}/portforward"@),
        Endpoint::PodEviction => has_suffix(path, "/pods/{name}/eviction"@),
        Endpoint::VmStart => has_suffix(path, "/virtualmachines/{name}/start"@),
        Endpoint::VmStop => has_suffix(path, "/virtualmachines/{name}/stop"@),
        Endpoint::VmRestart => has_suffix(path, "/virtualmachines/{name}/restart"@),
        Endpoint::VmiConsole => has_suffix(path, "/virtualmachineinstances/{name}/console"@),
        Endpoint::VmiVnc => has_suffix(path, "/virtualmachineinstances/{name}/vnc"@),
        _ => true,
    }
}

/// The paths of the core are for what their ends say.
pub proof fn law_core_paths_end_as_served(i: int)
    requires
        0 <= i < core_route_table().len(),
    ensures
        ends_as_served(core_route_table()[i].0, core_route_table()[i].1),
{
    assert(ends_as_served("/api/v1/{resource}"@, Endpoint::ClusterCollection)) by {
        reveal_strlit("/api/v1/{resource}");
        reveal_strlit("/{resource}");
        assert("/api/v1/{resource}"@.subrange(7, 18) =~= "/{resource}"@);
        reveal_strlit("/{namespace}/{resource}");
    }
    assert(ends_as_served("/api/v1/{resource}/{name}"@, Endpoint::ClusterObject)) by {
        reveal_strlit("/api/v1/{resource}/{name}");
        reveal_strlit("/{resource}/{name}");
        assert("/api/v1/{resource}/{name}"@.subrange(7, 25) =~= "/{resource}/{name}"@);
        reveal_strlit("/{namespace}/{resource}/{name}");
    }
    assert(ends_as_served("/api/v1/namespaces/{namespace}/{resource}"@, Endpoint::NamespacedCollection)) by {
        reveal_strlit("/api/v1/namespaces/{namespace}/{resource}");
        reveal_strlit("/namespaces/{namespace}/{resource}");
        assert("/api/v1/namespaces/{namespace}/{resource}"@.subrange(7, 41) =~= "/namespaces/{namespace}/{resource}"@);
    }
    assert(ends_as_served("/api/v1/namespaces/{namespace}/{resource}/{name}"@, Endpoint::NamespacedObject)) by {
        reveal_strlit("/api/v1/namespaces/{namespace}/{resource}/{name}");
        reveal_strlit("/namespaces/{namespace}/{resource}/{name}");
        assert("/api/v1/namespaces/{namespace}/{resource}/{name}"@.subrange(7, 48) =~= "/namespaces/{namespace}/{resource}/{name}"@);
    }
    assert(ends_as_served("/api/v1/{resource}/{name}/status"@, Endpoint::ClusterStatus)) by {
        reveal_strlit("/api/v1/{resource}/{name}/status");
        reveal_strlit("/{resource}/{name}/status");
        assert("/api/v1/{resource}/{name}/status"@.subrange(7, 32) =~= "/{resource}/{name}/status"@);
        reveal_strlit("/{namespace}/{resource}/{name}/status");
    }
    assert(ends_as_served("/api/v1/namespaces/{namespace}/{resource}/{name}/status"@, Endpoint::NamespacedStatus)) by {
        reveal_strlit("/api/v1/namespaces/{namespace}/{resource}/{name}/status");
        reveal_strlit("/namespaces/{namespace}/{resource}/{name}/status");
        assert("/api/v1/namespaces/{namespace}/{resource}/{name}/status"@.subrange(7, 55) =~= "/namespaces/{namespace}/{resource}/{name}/status"@);
    }
    let rows = core_route_table();
    assert(rows.len() == 8);
    assert(rows[0] == ("/api/v1/{resource}"@, Endpoint::ClusterCollection));
    assert(rows[1] == ("/api/v1/{resource}/{name}"@, Endpoint::ClusterObject));
    assert(rows[2] == ("/api/v1/namespaces/{name}/finalize"@, Endpoint::FinalizeNamespace));
    assert(rows[3] == ("/api/v1/namespaces/{namespace}/{resource}"@, Endpoint::NamespacedCollection));
    assert(rows[4] == ("/api/v1/namespaces/{namespace}/{resource}/{name}"@, Endpoint::NamespacedObject));
    assert(rows[5] == ("/api/v1/namespaces/{namespace}/serviceaccounts/{name}/token"@, Endpoint::ServiceAccountToken));
    assert(rows[6] == ("/api/v1/{resource}/{name}/status"@, Endpoint::ClusterStatus));
    assert(rows[7] == ("/api/v1/namespaces/{namespace}/{resource}/{name}/status"@, Endpoint::NamespacedStatus));
}

proof fn lemma_group_paths_0()
    ensures
        ends_as_served("/apis/apps/v1/namespaces/{namespace}/{resource}"@, Endpoint::NamespacedCollection),
        ends_as_served("/apis/apps/v1/namespaces/{namespace}/{resource}/{name}"@, Endpoint::NamespacedObject),
        ends_as_served("/apis/apps/v1/{resource}"@, Endpoint::ClusterList),
        ends_as_served("/apis/batch/v1/namespaces/{namespace}/{resource}"@, Endpoint::NamespacedCollection),
        ends_as_served("/apis/batch/v1/namespaces/{namespace}/{resource}/{name}"@, Endpoint::NamespacedObject),
        ends_as_served("/apis/batch/v1/{resource}"@, Endpoint::ClusterList),
        ends_as_served("/apis/coordination.k8s.io/v1/namespaces/{namespace}/{resource}"@, Endpoint::NamespacedCollection),
        ends_as_served("/apis/coordination.k8s.io/v1/namespaces/{namespace}/{resource}/{name}"@, Endpoint::NamespacedObject),
        ends_as_served("/apis/coordination.k8s.io/v1/{resource}"@, Endpoint::ClusterList),
        ends_as_served("/apis/discovery.k8s.io/v1/namespaces/{namespace}/{resource}"@, Endpoint::NamespacedCollection),
        ends_as_served("/apis/discovery.k8s.io/v1/namespaces/{namespace}/{resource}/{name}"@, Endpoint::NamespacedObject),
        ends_as_served("/apis/discovery.k8s.io/v1/{resource}"@, Endpoint::AllNamespaces),
{
    assert(ends_as_served("/apis/apps/v1/namespaces/{namespace}/{resource}"@, Endpoint::NamespacedCollection)) by {
        reveal_strlit("/apis/apps/v1/namespaces/{namespace}/{resource}");
        reveal_strlit("/namespaces/{namespace}/{resource}");
        assert("/apis/apps/v1/namespaces/{namespace}/{resource}"@.subrange(13, 47) =~= "/namespaces/{namespace}/{resource}"@);
    }
    assert(ends_as_served("/apis/apps/v1/namespaces/{namespace}/{resource}/{name}"@, Endpoint::NamespacedObject)) by {
        reveal_strlit("/apis/apps/v1/namespaces/{namespace}/{resource}/{name}");
        reveal_strlit("/namespaces/{namespace}/{resource}/{name}");
        assert("/apis/apps/v1/namespaces/{namespace}/{resource}/{name}"@.subrange(13, 54) =~= "/namespaces/{namespace}/{resource}/{name}"@);
    }
    assert(ends_as_served("/apis/apps/v1/{resource}"@, Endpoint::ClusterList)) by {
        reveal_strlit("/apis/apps/v1/{resource}");
        reveal_strlit("/{resource}");
        assert("/apis/apps/v1/{resource}"@.subrange(13, 24) =~= "/{resource}"@);
        reveal_strlit("/{namespace}/{resource}");
        if has_suffix("/apis/apps/v1/{resource}"@, "/{namespace}/{resource}"@) {
            assert("/apis/apps/v1/{resource}"@.subrange(1, 24)[11] == "/{namespace}/{resource}"@[11]);
        }
    }
    assert(ends_as_served("/apis/batch/v1/namespaces/{namespace}/{resource}"@, Endpoint::NamespacedCollection)) by {
        reveal_strlit("/apis/batch/v1/namespaces/{namespace}/{resource}");
        reveal_strlit("/namespaces/{namespace}/{resource}");
        assert("/apis/batch/v1/namespaces/{namespace}/{resource}"@.subrange(14, 48) =~= "/namespaces/{namespace}/{resource}"@);
    }
    assert(ends_as_served("/apis/batch/v1/namespaces/{namespace}/{resource}/{name}"@, Endpoint::NamespacedObject)) by {
        reveal_strlit("/apis/batch/v1/namespaces/{namespace}/{resource}/{name}");
        reveal_strlit("/namespaces/{namespace}/{resource}/{name}");
        assert("/apis/batch/v1/namespaces/{namespace}/{resource}/{name}"@.subrange(14, 55) =~= "/namespaces/{namespace}/{resource}/{name}"@);
    }
    assert(ends_as_served("/apis/batch/v1/{resource}"@, Endpoint::ClusterList)) by {
        reveal_strlit("/apis/batch/v1/{resource}");
        reveal_strlit("/{resource}");
        assert("/apis/batch/v1/{resource}"@.subrange(14, 25) =~= "/{resource}"@);
        reveal_strlit("/{namespace}/{resource}");
        if has_suffix("/apis/batch/v1/{resource}"@, "/{namespace}/{resource}"@) {
            assert("/apis/batch/v1/{resource}"@.subrange(2, 25)[11] == "/{namespace}/{resource}"@[11]);
        }
    }
    assert(ends_as_served("/apis/coordination.k8s.io/v1/namespaces/{namespace}/{resource}"@, Endpoint::NamespacedCollection)) by {
        reveal_strlit("/apis/coordination.k8s.io/v1/namespaces/{namespace}/{resource}");
        reveal_strlit("/namespaces/{namespace}/{resource}");
        assert("/apis/coordination.k8s.io/v1/namespaces/{namespace}/{resource}"@.subrange(28, 62) =~= "/namespaces/{namespace}/{resource}"@);
    }
    assert(ends_as_served("/apis/coordination.k8s.io/v1/namespaces/{namespace}/{resource}/{name}"@, Endpoint::NamespacedObject)) by {
        reveal_strlit("/apis/coordination.k8s.io/v1/namespaces/{namespace}/{resource}/{name}");
        reveal_strlit("/namespaces/{namespace}/{resource}/{name}");
        assert("/apis/coordination.k8s.io/v1/namespaces/{namespace}/{resource}/{name}"@.subrange(28, 69) =~= "/namespaces/{namespace}/{resource}/{name}"@);
    }
    assert(ends_as_served("/apis/coordination.k8s.io/v1/{resource}"@, Endpoint::ClusterList)) by {
        reveal_strlit("/apis/coordination.k8s.io/v1/{resource}");
        reveal_strlit("/{resource}");
        assert("/apis/coordination.k8s.io/v1/{resource}"@.subrange(28, 39) =~= "/{resource}"@);
        reveal_strlit("/{namespace}/{resource}");
        if has_suffix("/apis/coordination.k8s.io/v1/{resource}"@, "/{namespace}/{resource}"@) {
            assert("/apis/coordination.k8s.io/v1/{resource}"@.subrange(16, 39)[11] == "/{namespace}/{resource}"@[11]);
        }
    }
    assert(ends_as_served("/apis/discovery.k8s.io/v1/namespaces/{namespace}/{resource}"@, Endpoint::NamespacedCollection)) by {
        reveal_strlit("/apis/discovery.k8s.io/v1/namespaces/{namespace}/{resource}");
        reveal_strlit("/namespaces/{namespace}/{resource}");
        assert("/apis/discovery.k8s.io/v1/namespaces/{namespace}/{resource}"@.subrange(25, 59) =~= "/namespaces/{namespace}/{resource}"@);
    }
    assert(ends_as_served("/apis/discovery.k8s.io/v1/namespaces/{namespace}/{resource}/{name}"@, Endpoint::NamespacedObject)) by {
        reveal_strlit("/apis/discovery.k8s.io/v1/namespaces/{namespace}/{resource}/{name}");
        reveal_strlit("/namespaces/{namespace}/{resource}/{name}");
        assert("/apis/discovery.k8s.io/v1/namespaces/{namespace}/{resource}/{name}"@.subrange(25, 66) =~= "/namespaces/{namespace}/{resource}/{name}"@);
    }
    assert(ends_as_served("/apis/discovery.k8s.io/v1/{resource}"@, Endpoint::AllNamespaces)) by {
        reveal_strlit("/apis/discovery.k8s.io/v1/{resource}");
        reveal_strlit("/{resource}");
        assert("/apis/discovery.k8s.io/v1/{resource}"@.subrange(25, 36) =~= "/{resource}"@);
        reveal_strlit("/{namespace}/{resource}");
        if has_suffix("/apis/discovery.k8s.io/v1/{resource}"@, "/{namespace}/{resource}"@) {
            assert("/apis/discovery.k8s.io/v1/{resource}"@.subrange(13, 36)[11] == "/{namespace}/{resource}"@[11]);
        }
    }
}

proof fn lemma_group_paths_1()
    ensures
        ends_as_served("/apis/storage.k8s.io/v1/{resource}"@, Endpoint::ClusterCollection),
        ends_as_served("/apis/storage.k8s.io/v1/{resource}/{name}"@, Endpoint::ClusterObject),
        ends_as_served("/apis/storage.k8s.io/v1/{resource}/{name}/status"@, Endpoint::ClusterStatus),
        ends_as_served("/apis/storage.k8s.io/v1/namespaces/{namespace}/{resource}"@, Endpoint::NamespacedCollection),
        ends_as_served("/apis/storage.k8s.io/v1/namespaces/{namespace}/{resource}/{name}"@, Endpoint::NamespacedObject),
        ends_as_served("/apis/scheduling.k8s.io/v1/{resource}"@, Endpoint::ClusterCollection),
        ends_as_served("/apis/scheduling.k8s.io/v1/{resource}/{name}"@, Endpoint::ClusterObject),
        ends_as_served("/apis/rbac.authorization.k8s.io/v1/{resource}"@, Endpoint::ClusterCollection),
        ends_as_served("/apis/rbac.authorization.k8s.io/v1/{resource}/{name}"@, Endpoint::ClusterObject),
        ends_as_served("/apis/certificates.k8s.io/v1/{resource}"@, Endpoint::ClusterCollection),
        ends_as_served("/apis/certificates.k8s.io/v1/{resource}/{name}"@, Endpoint::ClusterObject),
        ends_as_served("/apis/certificates.k8s.io/v1/{resource}/{name}/approval"@, Endpoint::ClusterApproval),
{
    assert(ends_as_served("/apis/storage.k8s.io/v1/{resource}"@, Endpoint::ClusterCollection)) by {
        reveal_strlit("/apis/storage.k8s.io/v1/{resource}");
        reveal_strlit("/{resource}");
        assert("/apis/storage.k8s.io/v1/{resource}"@.subrange(23, 34) =~= "/{resource}"@);
        reveal_strlit("/{namespace}/{resource}");
        if has_suffix("/apis/storage.k8s.io/v1/{resource}"@, "/{namespace}/{resource}"@) {
            assert("/apis/storage.k8s.io/v1/{resource}"@.subrange(11, 34)[11] == "/{namespace}/{resource}"@[11]);
        }
    }
    assert(ends_as_served("/apis/storage.k8s.io/v1/{resource}/{name}"@, Endpoint::ClusterObject)) by {
        reveal_strlit("/apis/storage.k8s.io/v1/{resource}/{name}");
        reveal_strlit("/{resource}/{name}");
        assert("/apis/storage.k8s.io/v1/{resource}/{name}"@.subrange(23, 41) =~= "/{resource}/{name}"@);
        reveal_strlit("/{namespace}/{resource}/{name}");
        if has_suffix("/apis/storage.k8s.io/v1/{resource}/{name}"@, "/{namespace}/{resource}/{name}"@) {
            assert("/apis/storage.k8s.io/v1/{resource}/{name}"@.subrange(11, 41)[11] == "/{namespace}/{resource}/{name}"@[11]);
        }
    }
    assert(ends_as_served("/apis/storage.k8s.io/v1/{resource}/{name}/status"@, Endpoint::ClusterStatus)) by {
        reveal_strlit("/apis/storage.k8s.io/v1/{resource}/{name}/status");
        reveal_strlit("/{resource}/{name}/status");
        assert("/apis/storage.k8s.io/v1/{resource}/{name}/status"@.subrange(23, 48) =~= "/{resource}/{name}/status"@);
        reveal_strlit("/{namespace}/{resource}/{name}/status");
        if has_suffix("/apis/storage.k8s.io/v1/{resource}/{name}/status"@, "/{namespace}/{resource}/{name}/status"@) {
            assert("/apis/storage.k8s.io/v1/{resource}/{name}/status"@.subrange(11, 48)[11] == "/{namespace}/{resource}/{name}/status"@[11]);
        }
    }
    assert(ends_as_served("/apis/storage.k8s.io/v1/namespaces/{namespace}/{resource}"@, Endpoint::NamespacedCollection)) by {
        reveal_strlit("/apis/storage.k8s.io/v1/namespaces/{namespace}/{resource}");
        reveal_strlit("/namespaces/{namespace}/{resource}");
        assert("/apis/storage.k8s.io/v1/namespaces/{namespace}/{resource}"@.subrange(23, 57) =~= "/namespaces/{namespace}/{resource}"@);
    }
    assert(ends_as_served("/apis/storage.k8s.io/v1/namespaces/{namespace}/{resource}/{name}"@, Endpoint::NamespacedObject)) by {
        reveal_strlit("/apis/storage.k8s.io/v1/namespaces/{namespace}/{resource}/{name}");
        reveal_strlit("/namespaces/{namespace}/{resource}/{name}");
        assert("/apis/storage.k8s.io/v1/namespaces/{namespace}/{resource}/{name}"@.subrange(23, 64) =~= "/namespaces/{namespace}/{resource}/{name}"@);
    }
    assert(ends_as_served("/apis/scheduling.k8s.io/v1/{resource}"@, Endpoint::ClusterCollection)) by {
        reveal_strlit("/apis/scheduling.k8s.io/v1/{resource}");
        reveal_strlit("/{resource}");
        assert("/apis/scheduling.k8s.io/v1/{resource}"@.subrange(26, 37) =~= "/{resource}"@);
        reveal_strlit("/{namespace}/{resource}");
        if has_suffix("/apis/scheduling.k8s.io/v1/{resource}"@, "/{namespace}/{resource}"@) {
            assert("/apis/scheduling.k8s.io/v1/{resource}"@.subrange(14, 37)[11] == "/{namespace}/{resource}"@[11]);
        }
    }
    assert(ends_as_served("/apis/scheduling.k8s.io/v1/{resource}/{name}"@, Endpoint::ClusterObject)) by {
        reveal_strlit("/apis/scheduling.k8s.io/v1/{resource}/{name}");
        reveal_strlit("/{resource}/{name}");
        assert("/apis/scheduling.k8s.io/v1/{resource}/{name}"@.subrange(26, 44) =~= "/{resource}/{name}"@);
        reveal_strlit("/{namespace}/{resource}/{name}");
        if has_suffix("/apis/scheduling.k8s.io/v1/{resource}/{name}"@, "/{namespace}/{resource}/{name}"@) {
            assert("/apis/scheduling.k8s.io/v1/{resource}/{name}"@.subrange(14, 44)[11] == "/{namespace}/{resource}/{name}"@[11]);
        }
    }
    assert(ends_as_served("/apis/rbac.authorization.k8s.io/v1/{resource}"@, Endpoint::ClusterCollection)) by {
        reveal_strlit("/apis/rbac.authorization.k8s.io/v1/{resource}");
        reveal_strlit("/{resource}");
        assert("/apis/rbac.authorization.k8s.io/v1/{resource}"@.subrange(34, 45) =~= "/{resource}"@);
        reveal_strlit("/{namespace}/{resource}");
        if has_suffix("/apis/rbac.authorization.k8s.io/v1/{resource}"@, "/{namespace}/{resource}"@) {
            assert("/apis/rbac.authorization.k8s.io/v1/{resource}"@.subrange(22, 45)[11] == "/{namespace}/{resource}"@[11]);
        }
    }
    assert(ends_as_served("/apis/rbac.authorization.k8s.io/v1/{resource}/{name}"@, Endpoint::ClusterObject)) by {
        reveal_strlit("/apis/rbac.authorization.k8s.io/v1/{resource}/{name}");
        reveal_strlit("/{resource}/{name}");
        assert("/apis/rbac.authorization.k8s.io/v1/{resource}/{name}"@.subrange(34, 52) =~= "/{resource}/{name}"@);
        reveal_strlit("/{namespace}/{resource}/{name}");
        if has_suffix("/apis/rbac.authorization.k8s.io/v1/{resource}/{name}"@, "/{namespace}/{resource}/{name}"@) {
            assert("/apis/rbac.authorization.k8s.io/v1/{resource}/{name}"@.subrange(22, 52)[11] == "/{namespace}/{resource}/{name}"@[11]);
        }
    }
    assert(ends_as_served("/apis/certificates.k8s.io/v1/{resource}"@, Endpoint::ClusterCollection)) by {
        reveal_strlit("/apis/certificates.k8s.io/v1/{resource}");
        reveal_strlit("/{resource}");
        assert("/apis/certificates.k8s.io/v1/{resource}"@.subrange(28, 39) =~= "/{resource}"@);
        reveal_strlit("/{namespace}/{resource}");
        if has_suffix("/apis/certificates.k8s.io/v1/{resource}"@, "/{namespace}/{resource}"@) {
            assert("/apis/certificates.k8s.io/v1/{resource}"@.subrange(16, 39)[11] == "/{namespace}/{resource}"@[11]);
        }
    }
    assert(ends_as_served("/apis/certificates.k8s.io/v1/{resource}/{name}"@, Endpoint::ClusterObject)) by {
        reveal_strlit("/apis/certificates.k8s.io/v1/{resource}/{name}");
        reveal_strlit("/{resource}/{name}");
        assert("/apis/certificates.k8s.io/v1/{resource}/{name}"@.subrange(28, 46) =~= "/{resource}/{name}"@);
        reveal_strlit("/{namespace}/{resource}/{name}");
        if has_suffix("/apis/certificates.k8s.io/v1/{resource}/{name}"@, "/{namespace}/{resource}/{name}"@) {
            assert("/apis/certificates.k8s.io/v1/{resource}/{name}"@.subrange(16, 46)[11] == "/{namespace}/{resource}/{name}"@[11]);
        }
    }
}

proof fn lemma_group_paths_2()
    ensures
        ends_as_served("/apis/certificates.k8s.io/v1/{resource}/{name}/status"@, Endpoint::ClusterApproval),
        ends_as_served("/apis/rbac.authorization.k8s.io/v1/namespaces/{namespace}/{resource}"@, Endpoint::NamespacedCollection),
        ends_as_served("/apis/rbac.authorization.k8s.io/v1/namespaces/{namespace}/{resource}/{name}"@, Endpoint::NamespacedObject),
        ends_as_served("/apis/rustkube.io/v1alpha1/namespaces/{namespace}/{resource}"@, Endpoint::NamespacedCollection),
        ends_as_served("/apis/rustkube.io/v1alpha1/namespaces/{namespace}/{resource}/{name}"@, Endpoint::NamespacedObject),
        ends_as_served("/apis/rustkube.io/v1alpha1/{resource}"@, Endpoint::ClusterList),
        ends_as_served("/apis/apps/v1/namespaces/{namespace}/{resource}/{name}/status"@, Endpoint::NamespacedStatus),
        ends_as_served("/apis/batch/v1/namespaces/{namespace}/{resource}/{name}/status"@, Endpoint::NamespacedStatus),
        ends_as_served("/apis/autoscaling/v2/namespaces/{namespace}/{resource}"@, Endpoint::NamespacedCollection),
        ends_as_served("/apis/autoscaling/v2/namespaces/{namespace}/{resource}/{name}"@, Endpoint::NamespacedObject),
        ends_as_served("/apis/autoscaling/v2/namespaces/{namespace}/{resource}/{name}/status"@, Endpoint::NamespacedStatus),
        ends_as_served("/apis/autoscaling/v2/{resource}"@, Endpoint::ClusterList),
{
    assert(ends_as_served("/apis/rbac.authorization.k8s.io/v1/namespaces/{namespace}/{resource}"@, Endpoint::NamespacedCollection)) by {
        reveal_strlit("/apis/rbac.authorization.k8s.io/v1/namespaces/{namespace}/{resource}");
        reveal_strlit("/namespaces/{namespace}/{resource}");
        assert("/apis/rbac.authorization.k8s.io/v1/namespaces/{namespace}/{resource}"@.subrange(34, 68) =~= "/namespaces/{namespace}/{resource}"@);
    }
    assert(ends_as_served("/apis/rbac.authorization.k8s.io/v1/namespaces/{namespace}/{resource}/{name}"@, Endpoint::NamespacedObject)) by {
        reveal_strlit("/apis/rbac.authorization.k8s.io/v1/namespaces/{namespace}/{resource}/{name}");
        reveal_strlit("/namespaces/{namespace}/{resource}/{name}");
        assert("/apis/rbac.authorization.k8s.io/v1/namespaces/{namespace}/{resource}/{name}"@.subrange(34, 75) =~= "/namespaces/{namespace}/{resource}/{name}"@);
    }
    assert(ends_as_served("/apis/rustkube.io/v1alpha1/namespaces/{namespace}/{resource}"@, Endpoint::NamespacedCollection)) by {
        reveal_strlit("/apis/rustkube.io/v1alpha1/namespaces/{namespace}/{resource}");
        reveal_strlit("/namespaces/{namespace}/{resource}");
        assert("/apis/rustkube.io/v1alpha1/namespaces/{namespace}/{resource}"@.subrange(26, 60) =~= "/namespaces/{namespace}/{resource}"@);
    }
    assert(ends_as_served("/apis/rustkube.io/v1alpha1/namespaces/{namespace}/{resource}/{name}"@, Endpoint::NamespacedObject)) by {
        reveal_strlit("/apis/rustkube.io/v1alpha1/namespaces/{namespace}/{resource}/{name}");
        reveal_strlit("/namespaces/{namespace}/{resource}/{name}");
        assert("/apis/rustkube.io/v1alpha1/namespaces/{namespace}/{resource}/{name}"@.subrange(26, 67) =~= "/namespaces/{namespace}/{resource}/{name}"@);
    }
    assert(ends_as_served("/apis/rustkube.io/v1alpha1/{resource}"@, Endpoint::ClusterList)) by {
        reveal_strlit("/apis/rustkube.io/v1alpha1/{resource}");
        reveal_strlit("/{resource}");
        assert("/apis/rustkube.io/v1alpha1/{resource}"@.subrange(26, 37) =~= "/{resource}"@);
        reveal_strlit("/{namespace}/{resource}");
        if has_suffix("/apis/rustkube.io/v1alpha1/{resource}"@, "/{namespace}/{resource}"@) {
            assert("/apis/rustkube.io/v1alpha1/{resource}"@.subrange(14, 37)[11] == "/{namespace}/{resource}"@[11]);
        }
    }
    assert(ends_as_served("/apis/apps/v1/namespaces/{namespace}/{resource}/{name}/status"@, Endpoint::NamespacedStatus)) by {
        reveal_strlit("/apis/apps/v1/namespaces/{namespace}/{resource}/{name}/status");
        reveal_strlit("/namespaces/{namespace}/{resource}/{name}/status");
        assert("/apis/apps/v1/namespaces/{namespace}/{resource}/{name}/status"@.subrange(13, 61) =~= "/namespaces/{namespace}/{resource}/{name}/status"@);
    }
    assert(ends_as_served("/apis/batch/v1/namespaces/{namespace}/{resource}/{name}/status"@, Endpoint::NamespacedStatus)) by {
        reveal_strlit("/apis/batch/v1/namespaces/{namespace}/{resource}/{name}/status");
        reveal_strlit("/namespaces/{namespace}/{resource}/{name}/status");
        assert("/apis/batch/v1/namespaces/{namespace}/{resource}/{name}/status"@.subrange(14, 62) =~= "/namespaces/{namespace}/{resource}/{name}/status"@);
    }
    assert(ends_as_served("/apis/autoscaling/v2/namespaces/{namespace}/{resource}"@, Endpoint::NamespacedCollection)) by {
        reveal_strlit("/apis/autoscaling/v2/namespaces/{namespace}/{resource}");
        reveal_strlit("/namespaces/{namespace}/{resource}");
        assert("/apis/autoscaling/v2/namespaces/{namespace}/{resource}"@.subrange(20, 54) =~= "/namespaces/{namespace}/{resource}"@);
    }
    assert(ends_as_served("/apis/autoscaling/v2/namespaces/{namespace}/{resource}/{name}"@, Endpoint::NamespacedObject)) by {
        reveal_strlit("/apis/autoscaling/v2/namespaces/{namespace}/{resource}/{name}");
        reveal_strlit("/namespaces/{namespace}/{resource}/{name}");
        assert("/apis/autoscaling/v2/namespaces/{namespace}/{resource}/{name}"@.subrange(20, 61) =~= "/namespaces/{namespace}/{resource}/{name}"@);
    }
    assert(ends_as_served("/apis/autoscaling/v2/namespaces/{namespace}/{resource}/{name}/status"@, Endpoint::NamespacedStatus)) by {
        reveal_strlit("/apis/autoscaling/v2/namespaces/{namespace}/{resource}/{name}/status");
        reveal_strlit("/namespaces/{namespace}/{resource}/{name}/status");
        assert("/apis/autoscaling/v2/namespaces/{namespace}/{resource}/{name}/status"@.subrange(20, 68) =~= "/namespaces/{namespace}/{resource}/{name}/status"@);
    }
    assert(ends_as_served("/apis/autoscaling/v2/{resource}"@, Endpoint::ClusterList)) by {
        reveal_strlit("/apis/autoscaling/v2/{resource}");
        reveal_strlit("/{resource}");
        assert("/apis/autoscaling/v2/{resource}"@.subrange(20, 31) =~= "/{resource}"@);
        reveal_strlit("/{namespace}/{resource}");
        if has_suffix("/apis/autoscaling/v2/{resource}"@, "/{namespace}/{resource}"@) {
            assert("/apis/autoscaling/v2/{resource}"@.subrange(8, 31)[11] == "/{namespace}/{resource}"@[11]);
        }
    }
}

proof fn lemma_group_paths_3()
    ensures
        ends_as_served("/apis/networking.k8s.io/v1/namespaces/{namespace}/{resource}"@, Endpoint::NamespacedCollection),
        ends_as_served("/apis/networking.k8s.io/v1/namespaces/{namespace}/{resource}/{name}"@, Endpoint::NamespacedObject),
        ends_as_served("/apis/networking.k8s.io/v1/{resource}"@, Endpoint::ClusterCollection),
        ends_as_served("/apis/networking.k8s.io/v1/{resource}/{name}"@, Endpoint::ClusterObject),
        ends_as_served("/apis/admissionregistration.k8s.io/v1/{resource}"@, Endpoint::ClusterCollection),
        ends_as_served("/apis/admissionregistration.k8s.io/v1/{resource}/{name}"@, Endpoint::ClusterObject),
        ends_as_served("/apis/gateway.networking.k8s.io/v1/namespaces/{namespace}/{resource}"@, Endpoint::NamespacedCollection),
        ends_as_served("/apis/gateway.networking.k8s.io/v1/namespaces/{namespace}/{resource}/{name}"@, Endpoint::NamespacedObject),
        ends_as_served("/apis/gateway.networking.k8s.io/v1/{resource}"@, Endpoint::ClusterCollection),
        ends_as_served("/apis/gateway.networking.k8s.io/v1/{resource}/{name}"@, Endpoint::ClusterObject),
        ends_as_served("/apis/apiregistration.k8s.io/v1/{resource}"@, Endpoint::ClusterCollection),
        ends_as_served("/apis/apiregistration.k8s.io/v1/{resource}/{name}"@, Endpoint::ClusterObject),
{
    assert(ends_as_served("/apis/networking.k8s.io/v1/namespaces/{namespace}/{resource}"@, Endpoint::NamespacedCollection)) by {
        reveal_strlit("/apis/networking.k8s.io/v1/namespaces/{namespace}/{resource}");
        reveal_strlit("/namespaces/{namespace}/{resource}");
        assert("/apis/networking.k8s.io/v1/namespaces/{namespace}/{resource}"@.subrange(26, 60) =~= "/namespaces/{namespace}/{resource}"@);
    }
    assert(ends_as_served("/apis/networking.k8s.io/v1/namespaces/{namespace}/{resource}/{name}"@, Endpoint::NamespacedObject)) by {
        reveal_strlit("/apis/networking.k8s.io/v1/namespaces/{namespace}/{resource}/{name}");
        reveal_strlit("/namespaces/{namespace}/{resource}/{name}");
        assert("/apis/networking.k8s.io/v1/namespaces/{namespace}/{resource}/{name}"@.subrange(26, 67) =~= "/namespaces/{namespace}/{resource}/{name}"@);
    }
    assert(ends_as_served("/apis/networking.k8s.io/v1/{resource}"@, Endpoint::ClusterCollection)) by {
        reveal_strlit("/apis/networking.k8s.io/v1/{resource}");
        reveal_strlit("/{resource}");
        assert("/apis/networking.k8s.io/v1/{resource}"@.subrange(26, 37) =~= "/{resource}"@);
        reveal_strlit("/{namespace}/{resource}");
        if has_suffix("/apis/networking.k8s.io/v1/{resource}"@, "/{namespace}/{resource}"@) {
            assert("/apis/networking.k8s.io/v1/{resource}"@.subrange(14, 37)[11] == "/{namespace}/{resource}"@[11]);
        }
    }
    assert(ends_as_served("/apis/networking.k8s.io/v1/{resource}/{name}"@, Endpoint::ClusterObject)) by {
        reveal_strlit("/apis/networking.k8s.io/v1/{resource}/{name}");
        reveal_strlit("/{resource}/{name}");
        assert("/apis/networking.k8s.io/v1/{resource}/{name}"@.subrange(26, 44) =~= "/{resource}/{name}"@);
        reveal_strlit("/{namespace}/{resource}/{name}");
        if has_suffix("/apis/networking.k8s.io/v1/{resource}/{name}"@, "/{namespace}/{resource}/{name}"@) {
            assert("/apis/networking.k8s.io/v1/{resource}/{name}"@.subrange(14, 44)[11] == "/{namespace}/{resource}/{name}"@[11]);
        }
    }
    assert(ends_as_served("/apis/admissionregistration.k8s.io/v1/{resource}"@, Endpoint::ClusterCollection)) by {
        reveal_strlit("/apis/admissionregistration.k8s.io/v1/{resource}");
        reveal_strlit("/{resource}");
        assert("/apis/admissionregistration.k8s.io/v1/{resource}"@.subrange(37, 48) =~= "/{resource}"@);
        reveal_strlit("/{namespace}/{resource}");
        if has_suffix("/apis/admissionregistration.k8s.io/v1/{resource}"@, "/{namespace}/{resource}"@) {
            assert("/apis/admissionregistration.k8s.io/v1/{resource}"@.subrange(25, 48)[11] == "/{namespace}/{resource}"@[11]);
        }
    }
    assert(ends_as_served("/apis/admissionregistration.k8s.io/v1/{resource}/{name}"@, Endpoint::ClusterObject)) by {
        reveal_strlit("/apis/admissionregistration.k8s.io/v1/{resource}/{name}");
        reveal_strlit("/{resource}/{name}");
        assert("/apis/admissionregistration.k8s.io/v1/{resource}/{name}"@.subrange(37, 55) =~= "/{resource}/{name}"@);
        reveal_strlit("/{namespace}/{resource}/{name}");
        if has_suffix("/apis/admissionregistration.k8s.io/v1/{resource}/{name}"@, "/{namespace}/{resource}/{name}"@) {
            assert("/apis/admissionregistration.k8s.io/v1/{resource}/{name}"@.subrange(25, 55)[11] == "/{namespace}/{resource}/{name}"@[11]);
        }
    }
    assert(ends_as_served("/apis/gateway.networking.k8s.io/v1/namespaces/{namespace}/{resource}"@, Endpoint::NamespacedCollection)) by {
        reveal_strlit("/apis/gateway.networking.k8s.io/v1/namespaces/{namespace}/{resource}");
        reveal_strlit("/namespaces/{namespace}/{resource}");
        assert("/apis/gateway.networking.k8s.io/v1/namespaces/{namespace}/{resource}"@.subrange(34, 68) =~= "/namespaces/{namespace}/{resource}"@);
    }
    assert(ends_as_served("/apis/gateway.networking.k8s.io/v1/namespaces/{namespace}/{resource}/{name}"@, Endpoint::NamespacedObject)) by {
        reveal_strlit("/apis/gateway.networking.k8s.io/v1/namespaces/{namespace}/{resource}/{name}");
        reveal_strlit("/namespaces/{namespace}/{resource}/{name}");
        assert("/apis/gateway.networking.k8s.io/v1/namespaces/{namespace}/{resource}/{name}"@.subrange(34, 75) =~= "/namespaces/{namespace}/{resource}/{name}"@);
    }
    assert(ends_as_served("/apis/gateway.networking.k8s.io/v1/{resource}"@, Endpoint::ClusterCollection)) by {
        reveal_strlit("/apis/gateway.networking.k8s.io/v1/{resource}");
        reveal_strlit("/{resource}");
        assert("/apis/gateway.networking.k8s.io/v1/{resource}"@.subrange(34, 45) =~= "/{resource}"@);
        reveal_strlit("/{namespace}/{resource}");
        if has_suffix("/apis/gateway.networking.k8s.io/v1/{resource}"@, "/{namespace}/{resource}"@) {
            assert("/apis/gateway.networking.k8s.io/v1/{resource}"@.subrange(22, 45)[11] == "/{namespace}/{resource}"@[11]);
        }
    }
    assert(ends_as_served("/apis/gateway.networking.k8s.io/v1/{resource}/{name}"@, Endpoint::ClusterObject)) by {
        reveal_strlit("/apis/gateway.networking.k8s.io/v1/{resource}/{name}");
        reveal_strlit("/{resource}/{name}");
        assert("/apis/gateway.networking.k8s.io/v1/{resource}/{name}"@.subrange(34, 52) =~= "/{resource}/{name}"@);
        reveal_strlit("/{namespace}/{resource}/{name}");
        if has_suffix("/apis/gateway.networking.k8s.io/v1/{resource}/{name}"@, "/{namespace}/{resource}/{name}"@) {
            assert("/apis/gateway.networking.k8s.io/v1/{resource}/{name}"@.subrange(22, 52)[11] == "/{namespace}/{resource}/{name}"@[11]);
        }
    }
    assert(ends_as_served("/apis/apiregistration.k8s.io/v1/{resource}"@, Endpoint::ClusterCollection)) by {
        reveal_strlit("/apis/apiregistration.k8s.io/v1/{resource}");
        reveal_strlit("/{resource}");
        assert("/apis/apiregistration.k8s.io/v1/{resource}"@.subrange(31, 42) =~= "/{resource}"@);
        reveal_strlit("/{namespace}/{resource}");
        if has_suffix("/apis/apiregistration.k8s.io/v1/{resource}"@, "/{namespace}/{resource}"@) {
            assert("/apis/apiregistration.k8s.io/v1/{resource}"@.subrange(19, 42)[11] == "/{namespace}/{resource}"@[11]);
        }
    }
    assert(ends_as_served("/apis/apiregistration.k8s.io/v1/{resource}/{name}"@, Endpoint::ClusterObject)) by {
        reveal_strlit("/apis/apiregistration.k8s.io/v1/{resource}/{name}");
        reveal_strlit("/{resource}/{name}");
        assert("/apis/apiregistration.k8s.io/v1/{resource}/{name}"@.subrange(31, 49) =~= "/{resource}/{name}"@);
        reveal_strlit("/{namespace}/{resource}/{name}");
        if has_suffix("/apis/apiregistration.k8s.io/v1/{resource}/{name}"@, "/{namespace}/{resource}/{name}"@) {
            assert("/apis/apiregistration.k8s.io/v1/{resource}/{name}"@.subrange(19, 49)[11] == "/{namespace}/{resource}/{name}"@[11]);
        }
    }
}

/// The paths of the built-in groups are for what their ends say.
pub proof fn law_group_paths_end_as_served(i: int)
    requires
        0 <= i < group_route_table().len(),
    ensures
        ends_as_served(group_route_table()[i].0, group_route_table()[i].1),
{
    lemma_group_paths_0();
    lemma_group_paths_1();
    lemma_group_paths_2();
    lemma_group_paths_3();
    let rows = group_route_table();
    assert(rows.len() == 48);
    assert(rows[0] == ("/apis/apps/v1/namespaces/{namespace}/{resource}"@, Endpoint::NamespacedCollection));
    assert(rows[1] == ("/apis/apps/v1/namespaces/{namespace}/{resource}/{name}"@, Endpoint::NamespacedObject));
    assert(rows[2] == ("/apis/apps/v1/{resource}"@, Endpoint::ClusterList));
    assert(rows[3] == ("/apis/batch/v1/namespaces/{namespace}/{resource}"@, Endpoint::NamespacedCollection));
    assert(rows[4] == ("/apis/batch/v1/namespaces/{namespace}/{resource}/{name}"@, Endpoint::NamespacedObject));
    assert(rows[5] == ("/apis/batch/v1/{resource}"@, Endpoint::ClusterList));
    assert(rows[6] == ("/apis/coordination.k8s.io/v1/namespaces/{namespace}/{resource}"@, Endpoint::NamespacedCollection));
    assert(rows[7] == ("/apis/coordination.k8s.io/v1/namespaces/{namespace}/{resource}/{name}"@, Endpoint::NamespacedObject));
    assert(rows[8] == ("/apis/coordination.k8s.io/v1/{resource}"@, Endpoint::ClusterList));
    assert(rows[9] == ("/apis/discovery.k8s.io/v1/namespaces/{namespace}/{resource}"@, Endpoint::NamespacedCollection));
    assert(rows[10] == ("/apis/discovery.k8s.io/v1/namespaces/{namespace}/{resource}/{name}"@, Endpoint::NamespacedObject));
    assert(rows[11] == ("/apis/discovery.k8s.io/v1/{resource}"@, Endpoint::AllNamespaces));
    assert(rows[12] == ("/apis/storage.k8s.io/v1/{resource}"@, Endpoint::ClusterCollection));
    assert(rows[13] == ("/apis/storage.k8s.io/v1/{resource}/{name}"@, Endpoint::ClusterObject));
    assert(rows[14] == ("/apis/storage.k8s.io/v1/{resource}/{name}/status"@, Endpoint::ClusterStatus));
    assert(rows[15] == ("/apis/storage.k8s.io/v1/namespaces/{namespace}/{resource}"@, Endpoint::NamespacedCollection));
    assert(rows[16] == ("/apis/storage.k8s.io/v1/namespaces/{namespace}/{resource}/{name}"@, Endpoint::NamespacedObject));
    assert(rows[17] == ("/apis/scheduling.k8s.io/v1/{resource}"@, Endpoint::ClusterCollection));
    assert(rows[18] == ("/apis/scheduling.k8s.io/v1/{resource}/{name}"@, Endpoint::ClusterObject));
    assert(rows[19] == ("/apis/rbac.authorization.k8s.io/v1/{resource}"@, Endpoint::ClusterCollection));
    assert(rows[20] == ("/apis/rbac.authorization.k8s.io/v1/{resource}/{name}"@, Endpoint::ClusterObject));
    assert(rows[21] == ("/apis/certificates.k8s.io/v1/{resource}"@, Endpoint::ClusterCollection));
    assert(rows[22] == ("/apis/certificates.k8s.io/v1/{resource}/{name}"@, Endpoint::ClusterObject));
    assert(rows[23] == ("/apis/certificates.k8s.io/v1/{resource}/{name}/approval"@, Endpoint::ClusterApproval));
    assert(rows[24] == ("/apis/certificates.k8s.io/v1/{resource}/{name}/status"@, Endpoint::ClusterApproval));
    assert(rows[25] == ("/apis/rbac.authorization.k8s.io/v1/namespaces/{namespace}/{resource}"@, Endpoint::NamespacedCollection));
    assert(rows[26] == ("/apis/rbac.authorization.k8s.io/v1/namespaces/{namespace}/{resource}/{name}"@, Endpoint::NamespacedObject));
    assert(rows[27] == ("/apis/rustkube.io/v1alpha1/namespaces/{namespace}/{resource}"@, Endpoint::NamespacedCollection));
    assert(rows[28] == ("/apis/rustkube.io/v1alpha1/namespaces/{namespace}/{resource}/{name}"@, Endpoint::NamespacedObject));
    assert(rows[29] == ("/apis/rustkube.io/v1alpha1/{resource}"@, Endpoint::ClusterList));
    assert(rows[30] == ("/apis/apps/v1/namespaces/{namespace}/{resource}/{name}/status"@, Endpoint::NamespacedStatus));
    assert(rows[31] == ("/apis/batch/v1/namespaces/{namespace}/{resource}/{name}/status"@, Endpoint::NamespacedStatus));
    assert(rows[32] == ("/apis/autoscaling/v2/namespaces/{namespace}/{resource}"@, Endpoint::NamespacedCollection));
    assert(rows[33] == ("/apis/autoscaling/v2/namespaces/{namespace}/{resource}/{name}"@, Endpoint::NamespacedObject));
    assert(rows[34] == ("/apis/autoscaling/v2/namespaces/{namespace}/{resource}/{name}/status"@, Endpoint::NamespacedStatus));
    assert(rows[35] == ("/apis/autoscaling/v2/{resource}"@, Endpoint::ClusterList));
    assert(rows[36] == ("/apis/networking.k8s.io/v1/namespaces/{namespace}/{resource}"@, Endpoint::NamespacedCollection));
    assert(rows[37] == ("/apis/networking.k8s.io/v1/namespaces/{namespace}/{resource}/{name}"@, Endpoint::NamespacedObject));
    assert(rows[38] == ("/apis/networking.k8s.io/v1/{resource}"@, Endpoint::ClusterCollection));
    assert(rows[39] == ("/apis/networking.k8s.io/v1/{resource}/{name}"@, Endpoint::ClusterObject));
    assert(rows[40] == ("/apis/admissionregistration.k8s.io/v1/{resource}"@, Endpoint::ClusterCollection));
    assert(rows[41] == ("/apis/admissionregistration.k8s.io/v1/{resource}/{name}"@, Endpoint::ClusterObject));
    assert(rows[42] == ("/apis/gateway.networking.k8s.io/v1/namespaces/{namespace}/{resource}"@, Endpoint::NamespacedCollection));
    assert(rows[43] == ("/apis/gateway.networking.k8s.io/v1/namespaces/{namespace}/{resource}/{name}"@, Endpoint::NamespacedObject));
    assert(rows[44] == ("/apis/gateway.networking.k8s.io/v1/{resource}"@, Endpoint::ClusterCollection));
    assert(rows[45] == ("/apis/gateway.networking.k8s.io/v1/{resource}/{name}"@, Endpoint::ClusterObject));
    assert(rows[46] == ("/apis/apiregistration.k8s.io/v1/{resource}"@, Endpoint::ClusterCollection));
    assert(rows[47] == ("/apis/apiregistration.k8s.io/v1/{resource}/{name}"@, Endpoint::ClusterObject));
}

/// The paths of custom resources are for what their ends say.
pub proof fn law_custom_paths_end_as_served(i: int)
    requires
        0 <= i < custom_route_table().len(),
    ensures
        ends_as_served(custom_route_table()[i].0, custom_route_table()[i].1),
{
    assert(ends_as_served("/apis/{group}/{version}/{resource}"@, Endpoint::CustomClusterCollection)) by {
        reveal_strlit("/apis/{group}/{version}/{resource}");
        reveal_strlit("/{resource}");
        assert("/apis/{group}/{version}/{resource}"@.subrange(23, 34) =~= "/{resource}"@);
        reveal_strlit("/{namespace}/{resource}");
        if has_suffix("/apis/{group}/{version}/{resource}"@, "/{namespace}/{resource}"@) {
            assert("/apis/{group}/{version}/{resource}"@.subrange(11, 34)[10] == "/{namespace}/{resource}"@[10]);
        }
    }
    assert(ends_as_served("/apis/{group}/{version}/{resource}/{name}"@, Endpoint::CustomClusterObject)) by {
        reveal_strlit("/apis/{group}/{version}/{resource}/{name}");
        reveal_strlit("/{resource}/{name}");
        assert("/apis/{group}/{version}/{resource}/{name}"@.subrange(23, 41) =~= "/{resource}/{name}"@);
        reveal_strlit("/{namespace}/{resource}/{name}");
        if has_suffix("/apis/{group}/{version}/{resource}/{name}"@, "/{namespace}/{resource}/{name}"@) {
            assert("/apis/{group}/{version}/{resource}/{name}"@.subrange(11, 41)[10] == "/{namespace}/{resource}/{name}"@[10]);
        }
    }
    assert(ends_as_served("/apis/{group}/{version}/{resource}/{name}/status"@, Endpoint::CustomClusterStatus)) by {
        reveal_strlit("/apis/{group}/{version}/{resource}/{name}/status");
        reveal_strlit("/{resource}/{name}/status");
        assert("/apis/{group}/{version}/{resource}/{name}/status"@.subrange(23, 48) =~= "/{resource}/{name}/status"@);
        reveal_strlit("/{namespace}/{resource}/{name}/status");
        if has_suffix("/apis/{group}/{version}/{resource}/{name}/status"@, "/{namespace}/{resource}/{name}/status"@) {
            assert("/apis/{group}/{version}/{resource}/{name}/status"@.subrange(11, 48)[10] == "/{namespace}/{resource}/{name}/status"@[10]);
        }
    }
    assert(ends_as_served("/apis/{group}/{version}/namespaces/{namespace}/{resource}"@, Endpoint::CustomNamespacedCollection)) by {
        reveal_strlit("/apis/{group}/{version}/namespaces/{namespace}/{resource}");
        reveal_strlit("/namespaces/{namespace}/{resource}");
        assert("/apis/{group}/{version}/namespaces/{namespace}/{resource}"@.subrange(23, 57) =~= "/namespaces/{namespace}/{resource}"@);
    }
    assert(ends_as_served("/apis/{group}/{version}/namespaces/{namespace}/{resource}/{name}"@, Endpoint::CustomNamespacedObject)) by {
        reveal_strlit("/apis/{group}/{version}/namespaces/{namespace}/{resource}/{name}");
        reveal_strlit("/namespaces/{namespace}/{resource}/{name}");
        assert("/apis/{group}/{version}/namespaces/{namespace}/{resource}/{name}"@.subrange(23, 64) =~= "/namespaces/{namespace}/{resource}/{name}"@);
    }
    assert(ends_as_served("/apis/{group}/{version}/namespaces/{namespace}/{resource}/{name}/status"@, Endpoint::CustomNamespacedStatus)) by {
        reveal_strlit("/apis/{group}/{version}/namespaces/{namespace}/{resource}/{name}/status");
        reveal_strlit("/namespaces/{namespace}/{resource}/{name}/status");
        assert("/apis/{group}/{version}/namespaces/{namespace}/{resource}/{name}/status"@.subrange(23, 71) =~= "/namespaces/{namespace}/{resource}/{name}/status"@);
    }
    let rows = custom_route_table();
    assert(rows.len() == 7);
    assert(rows[0] == ("/apis/{group}/{version}/{resource}"@, Endpoint::CustomClusterCollection));
    assert(rows[1] == ("/apis/{group}/{version}/{resource}/{name}"@, Endpoint::CustomClusterObject));
    assert(rows[2] == ("/apis/{group}/{version}/{resource}/{name}/status"@, Endpoint::CustomClusterStatus));
    assert(rows[3] == ("/apis/{group}/{version}/namespaces/{namespace}/{resource}"@, Endpoint::CustomNamespacedCollection));
    assert(rows[4] == ("/apis/{group}/{version}/namespaces/{namespace}/{resource}/{name}"@, Endpoint::CustomNamespacedObject));
    assert(rows[5] == ("/apis/{group}/{version}/namespaces/{namespace}/{resource}/{name}/status"@, Endpoint::CustomNamespacedStatus));
    assert(rows[6] == ("/apis/{group}/{version}"@, Endpoint::CustomResources));
}

proof fn lemma_part_paths_0()
    ensures
        ends_as_served("/api/v1/namespaces/{namespace}/pods/{name}/log"@, Endpoint::PodLogs),
        ends_as_served("/api/v1/namespaces/{namespace}/pods/{name}/exec"@, Endpoint::PodExec),
        ends_as_served("/api/v1/namespaces/{namespace}/pods/{name}/attach"@, Endpoint::PodAttach),
        ends_as_served("/api/v1/namespaces/{namespace}/pods/{name}/portforward"@, Endpoint::PodPortforward),
        ends_as_served("/api/v1/namespaces/{namespace}/pods/{name}/eviction"@, Endpoint::PodEviction),
        ends_as_served("/apis/authentication.k8s.io/v1/tokenreviews"@, Endpoint::TokenReview),
        ends_as_served("/apis/authorization.k8s.io/v1/selfsubjectaccessreviews"@, Endpoint::SelfSubjectAccessReview),
        ends_as_served("/apis/authorization.k8s.io/v1/selfsubjectrulesreviews"@, Endpoint::SelfSubjectRulesReview),
        ends_as_served("/apis/authorization.k8s.io/v1/subjectaccessreviews"@, Endpoint::SubjectAccessReview),
        ends_as_served("/apis/authorization.k8s.io/v1/namespaces/{namespace}/localsubjectaccessreviews"@, Endpoint::LocalSubjectAccessReview),
        ends_as_served("/apis/subresources.kubevirt.io/v1/namespaces/{namespace}/virtualmachineinstances/{name}/console"@, Endpoint::VmiConsole),
        ends_as_served("/apis/subresources.kubevirt.io/v1/namespaces/{namespace}/virtualmachineinstances/{name}/vnc"@, Endpoint::VmiVnc),
{
    assert(ends_as_served("/api/v1/namespaces/{namespace}/pods/{name}/log"@, Endpoint::PodLogs)) by {
        reveal_strlit("/api/v1/namespaces/{namespace}/pods/{name}/log");
        reveal_strlit("/pods/{name}/log");
        assert("/api/v1/namespaces/{namespace}/pods/{name}/log"@.subrange(30, 46) =~= "/pods/{name}/log"@);
    }
    assert(ends_as_served("/api/v1/namespaces/{namespace}/pods/{name}/exec"@, Endpoint::PodExec)) by {
        reveal_strlit("/api/v1/namespaces/{namespace}/pods/{name}/exec");
        reveal_strlit("/pods/{name}/exec");
        assert("/api/v1/namespaces/{namespace}/pods/{name}/exec"@.subrange(30, 47) =~= "/pods/{name}/exec"@);
    }
    assert(ends_as_served("/api/v1/namespaces/{namespace}/pods/{name}/attach"@, Endpoint::PodAttach)) by {
        reveal_strlit("/api/v1/namespaces/{namespace}/pods/{name}/attach");
        reveal_strlit("/pods/{name}/attach");
        assert("/api/v1/namespaces/{namespace}/pods/{name}/attach"@.subrange(30, 49) =~= "/pods/{name}/attach"@);
    }
    assert(ends_as_served("/api/v1/namespaces/{namespace}/pods/{name}/portforward"@, Endpoint::PodPortforward)) by {
        reveal_strlit("/api/v1/namespaces/{namespace}/pods/{name}/portforward");
        reveal_strlit("/pods/{name}/portforward");
        assert("/api/v1/namespaces/{namespace}/pods/{name}/portforward"@.subrange(30, 54) =~= "/pods/{name}/portforward"@);
    }
    assert(ends_as_served("/api/v1/namespaces/{namespace}/pods/{name}/eviction"@, Endpoint::PodEviction)) by {
        reveal_strlit("/api/v1/namespaces/{namespace}/pods/{name}/eviction");
        reveal_strlit("/pods/{name}/eviction");
        assert("/api/v1/namespaces/{namespace}/pods/{name}/eviction"@.subrange(30, 51) =~= "/pods/{name}/eviction"@);
    }
    assert(ends_as_served("/apis/subresources.kubevirt.io/v1/namespaces/{namespace}/virtualmachineinstances/{name}/console"@, Endpoint::VmiConsole)) by {
        reveal_strlit("/apis/subresources.kubevirt.io/v1/namespaces/{namespace}/virtualmachineinstances/{name}/console");
        reveal_strlit("/virtualmachineinstances/{name}/console");
        assert("/apis/subresources.kubevirt.io/v1/namespaces/{namespace}/virtualmachineinstances/{name}/console"@.subrange(56, 95) =~= "/virtualmachineinstances/{name}/console"@);
    }
    assert(ends_as_served("/apis/subresources.kubevirt.io/v1/namespaces/{namespace}/virtualmachineinstances/{name}/vnc"@, Endpoint::VmiVnc)) by {
        reveal_strlit("/apis/subresources.kubevirt.io/v1/namespaces/{namespace}/virtualmachineinstances/{name}/vnc");
        reveal_strlit("/virtualmachineinstances/{name}/vnc");
        assert("/apis/subresources.kubevirt.io/v1/namespaces/{namespace}/virtualmachineinstances/{name}/vnc"@.subrange(56, 91) =~= "/virtualmachineinstances/{name}/vnc"@);
    }
}

proof fn lemma_part_paths_1()
    ensures
        ends_as_served("/apis/subresources.kubevirt.io/v1/namespaces/{namespace}/virtualmachines/{name}/start"@, Endpoint::VmStart),
        ends_as_served("/apis/subresources.kubevirt.io/v1/namespaces/{namespace}/virtualmachines/{name}/stop"@, Endpoint::VmStop),
        ends_as_served("/apis/subresources.kubevirt.io/v1/namespaces/{namespace}/virtualmachines/{name}/restart"@, Endpoint::VmRestart),
        ends_as_served("/apis/project.openshift.io/v1/projectrequests"@, Endpoint::ProjectRequests),
        ends_as_served("/apis/project.openshift.io/v1/projects"@, Endpoint::ProjectCollection),
        ends_as_served("/apis/project.openshift.io/v1/projects/{name}"@, Endpoint::ProjectObject),
        ends_as_served("/apis/events.k8s.io/v1"@, Endpoint::EventResources),
        ends_as_served("/apis/events.k8s.io/v1/events"@, Endpoint::EventList),
        ends_as_served("/apis/events.k8s.io/v1/namespaces/{namespace}/events"@, Endpoint::EventCollection),
        ends_as_served("/apis/events.k8s.io/v1/namespaces/{namespace}/events/{name}"@, Endpoint::EventObject),
{
    assert(ends_as_served("/apis/subresources.kubevirt.io/v1/namespaces/{namespace}/virtualmachines/{name}/start"@, Endpoint::VmStart)) by {
        reveal_strlit("/apis/subresources.kubevirt.io/v1/namespaces/{namespace}/virtualmachines/{name}/start");
        reveal_strlit("/virtualmachines/{name}/start");
        assert("/apis/subresources.kubevirt.io/v1/namespaces/{namespace}/virtualmachines/{name}/start"@.subrange(56, 85) =~= "/virtualmachines/{name}/start"@);
    }
    assert(ends_as_served("/apis/subresources.kubevirt.io/v1/namespaces/{namespace}/virtualmachines/{name}/stop"@, Endpoint::VmStop)) by {
        reveal_strlit("/apis/subresources.kubevirt.io/v1/namespaces/{namespace}/virtualmachines/{name}/stop");
        reveal_strlit("/virtualmachines/{name}/stop");
        assert("/apis/subresources.kubevirt.io/v1/namespaces/{namespace}/virtualmachines/{name}/stop"@.subrange(56, 84) =~= "/virtualmachines/{name}/stop"@);
    }
    assert(ends_as_served("/apis/subresources.kubevirt.io/v1/namespaces/{namespace}/virtualmachines/{name}/restart"@, Endpoint::VmRestart)) by {
        reveal_strlit("/apis/subresources.kubevirt.io/v1/namespaces/{namespace}/virtualmachines/{name}/restart");
        reveal_strlit("/virtualmachines/{name}/restart");
        assert("/apis/subresources.kubevirt.io/v1/namespaces/{namespace}/virtualmachines/{name}/restart"@.subrange(56, 87) =~= "/virtualmachines/{name}/restart"@);
    }
}

/// The paths of the parts of pods and machines are for what their ends say.
pub proof fn law_part_paths_end_as_served(i: int)
    requires
        0 <= i < subresource_route_table().len(),
    ensures
        ends_as_served(subresource_route_table()[i].0, subresource_route_table()[i].1),
{
    lemma_part_paths_0();
    lemma_part_paths_1();
    let rows = subresource_route_table();
    assert(rows.len() == 22);
    assert(rows[0] == ("/api/v1/namespaces/{namespace}/pods/{name}/log"@, Endpoint::PodLogs));
    assert(rows[1] == ("/api/v1/namespaces/{namespace}/pods/{name}/exec"@, Endpoint::PodExec));
    assert(rows[2] == ("/api/v1/namespaces/{namespace}/pods/{name}/attach"@, Endpoint::PodAttach));
    assert(rows[3] == ("/api/v1/namespaces/{namespace}/pods/{name}/portforward"@, Endpoint::PodPortforward));
    assert(rows[4] == ("/api/v1/namespaces/{namespace}/pods/{name}/eviction"@, Endpoint::PodEviction));
    assert(rows[5] == ("/apis/authentication.k8s.io/v1/tokenreviews"@, Endpoint::TokenReview));
    assert(rows[6] == ("/apis/authorization.k8s.io/v1/selfsubjectaccessreviews"@, Endpoint::SelfSubjectAccessReview));
    assert(rows[7] == ("/apis/authorization.k8s.io/v1/selfsubjectrulesreviews"@, Endpoint::SelfSubjectRulesReview));
    assert(rows[8] == ("/apis/authorization.k8s.io/v1/subjectaccessreviews"@, Endpoint::SubjectAccessReview));
    assert(rows[9] == ("/apis/authorization.k8s.io/v1/namespaces/{namespace}/localsubjectaccessreviews"@, Endpoint::LocalSubjectAccessReview));
    assert(rows[10] == ("/apis/subresources.kubevirt.io/v1/namespaces/{namespace}/virtualmachineinstances/{name}/console"@, Endpoint::VmiConsole));
    assert(rows[11] == ("/apis/subresources.kubevirt.io/v1/namespaces/{namespace}/virtualmachineinstances/{name}/vnc"@, Endpoint::VmiVnc));
    assert(rows[12] == ("/apis/subresources.kubevirt.io/v1/namespaces/{namespace}/virtualmachines/{name}/start"@, Endpoint::VmStart));
    assert(rows[13] == ("/apis/subresources.kubevirt.io/v1/namespaces/{namespace}/virtualmachines/{name}/stop"@, Endpoint::VmStop));
    assert(rows[14] == ("/apis/subresources.kubevirt.io/v1/namespaces/{namespace}/virtualmachines/{name}/restart"@, Endpoint::VmRestart));
    assert(rows[15] == ("/apis/project.openshift.io/v1/projectrequests"@, Endpoint::ProjectRequests));
    assert(rows[16] == ("/apis/project.openshift.io/v1/projects"@, Endpoint::ProjectCollection));
    assert(rows[17] == ("/apis/project.openshift.io/v1/projects/{name}"@, Endpoint::ProjectObject));
    assert(rows[18] == ("/apis/events.k8s.io/v1"@, Endpoint::EventResources));
    assert(rows[19] == ("/apis/events.k8s.io/v1/events"@, Endpoint::EventList));
    assert(rows[20] == ("/apis/events.k8s.io/v1/namespaces/{namespace}/events"@, Endpoint::EventCollection));
    assert(rows[21] == ("/apis/events.k8s.io/v1/namespaces/{namespace}/events/{name}"@, Endpoint::EventObject));
}

} // verus!
