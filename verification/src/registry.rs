//! The registry of relationship providers: which providers expand a resource
//! in a relationship tree, keyed by group, kind and (for some) version.
use vstd::prelude::*;
use crate::text::str_eq;
use crate::tree::ResourceRef;

verus! {

/// A source of relationships for a resource kind.
#[derive(PartialEq, Eq, Structural, Clone, Copy, Debug)]
pub enum RelationshipProvider {
    FluxKustomization,
    FluxHelmRelease,
    FluxReferences,
    OwnedChildren,
    WorkloadPods,
    HpaScaleTarget,
    ServiceTargets,
    EndpointSliceService,
    CnpgCluster,
    CnpgClusterReference,
    CnpgScheduledBackup,
    KubernetesStorage,
    VolumeAttachments,
    RookStorageClass,
    RookCephCluster,
    ObjectBucketClaim,
    Certificate,
    CertificateRequest,
    CertManagerOrder,
    ExternalSecret,
    ClusterExternalSecret,
    KopiurPolicy,
    TupprUpgrade,
    GatewayRoute,
    EnvoyPolicy,
    ReferenceGrant,
    NetworkPolicyPods,
}

/// A provider registered for a group and kind, and a version when the
/// registration is limited to one.
pub struct ProviderRegistration {
    pub group: &'static str,
    pub version: Option<&'static str>,
    pub kind: &'static str,
    pub provider: RelationshipProvider,
}

/// A registration as (group, version, kind, provider).
pub type RegistrationView = (Seq<char>, Option<Seq<char>>, Seq<char>, RelationshipProvider);

pub open spec fn reg_spec(g: Seq<char>, v: Option<Seq<char>>, k: Seq<char>, p: RelationshipProvider) -> RegistrationView {
    (g, v, k, p)
}

pub open spec fn reg_view(r: ProviderRegistration) -> RegistrationView {
    (r.group@, match r.version {
        Some(v) => Some(v@),
        None => None,
    }, r.kind@, r.provider)
}

pub open spec fn reg_views(v: Seq<ProviderRegistration>) -> Seq<RegistrationView> {
    v.map_values(|r: ProviderRegistration| reg_view(r))
}

/// Every registration, in the order providers run.
pub open spec fn spec_provider_table() -> Seq<RegistrationView> {
    seq![
        reg_spec("kustomize.toolkit.fluxcd.io"@, None, "Kustomization"@, RelationshipProvider::FluxKustomization),
        reg_spec("kustomize.toolkit.fluxcd.io"@, None, "Kustomization"@, RelationshipProvider::FluxReferences),
        reg_spec("helm.toolkit.fluxcd.io"@, None, "HelmRelease"@, RelationshipProvider::FluxHelmRelease),
        reg_spec("helm.toolkit.fluxcd.io"@, None, "HelmRelease"@, RelationshipProvider::FluxReferences),
        reg_spec("apps"@, Some("v1"@), "Deployment"@, RelationshipProvider::OwnedChildren),
        reg_spec("apps"@, Some("v1"@), "Deployment"@, RelationshipProvider::WorkloadPods),
        reg_spec("apps"@, Some("v1"@), "ReplicaSet"@, RelationshipProvider::OwnedChildren),
        reg_spec("apps"@, Some("v1"@), "ReplicaSet"@, RelationshipProvider::WorkloadPods),
        reg_spec("apps"@, Some("v1"@), "StatefulSet"@, RelationshipProvider::OwnedChildren),
        reg_spec("apps"@, Some("v1"@), "StatefulSet"@, RelationshipProvider::WorkloadPods),
        reg_spec("apps"@, Some("v1"@), "DaemonSet"@, RelationshipProvider::OwnedChildren),
        reg_spec("apps"@, Some("v1"@), "DaemonSet"@, RelationshipProvider::WorkloadPods),
        reg_spec("batch"@, Some("v1"@), "CronJob"@, RelationshipProvider::OwnedChildren),
        reg_spec("batch"@, Some("v1"@), "Job"@, RelationshipProvider::OwnedChildren),
        reg_spec("batch"@, Some("v1"@), "Job"@, RelationshipProvider::WorkloadPods),
        reg_spec("autoscaling"@, None, "HorizontalPodAutoscaler"@, RelationshipProvider::HpaScaleTarget),
        reg_spec(""@, Some("v1"@), "Service"@, RelationshipProvider::ServiceTargets),
        reg_spec("discovery.k8s.io"@, Some("v1"@), "EndpointSlice"@, RelationshipProvider::EndpointSliceService),
        reg_spec("postgresql.cnpg.io"@, None, "Cluster"@, RelationshipProvider::CnpgCluster),
        reg_spec("postgresql.cnpg.io"@, None, "Backup"@, RelationshipProvider::CnpgClusterReference),
        reg_spec("postgresql.cnpg.io"@, None, "Database"@, RelationshipProvider::CnpgClusterReference),
        reg_spec("postgresql.cnpg.io"@, None, "DatabaseRole"@, RelationshipProvider::CnpgClusterReference),
        reg_spec("postgresql.cnpg.io"@, None, "Pooler"@, RelationshipProvider::CnpgClusterReference),
        reg_spec("postgresql.cnpg.io"@, None, "ScheduledBackup"@, RelationshipProvider::CnpgClusterReference),
        reg_spec("postgresql.cnpg.io"@, None, "ScheduledBackup"@, RelationshipProvider::CnpgScheduledBackup),
        reg_spec(""@, Some("v1"@), "Pod"@, RelationshipProvider::KubernetesStorage),
        reg_spec(""@, Some("v1"@), "PersistentVolumeClaim"@, RelationshipProvider::KubernetesStorage),
        reg_spec(""@, Some("v1"@), "PersistentVolume"@, RelationshipProvider::KubernetesStorage),
        reg_spec(""@, Some("v1"@), "PersistentVolume"@, RelationshipProvider::VolumeAttachments),
        reg_spec(""@, Some("v1"@), "Node"@, RelationshipProvider::VolumeAttachments),
        reg_spec("storage.k8s.io"@, Some("v1"@), "VolumeAttachment"@, RelationshipProvider::KubernetesStorage),
        reg_spec("storage.k8s.io"@, Some("v1"@), "StorageClass"@, RelationshipProvider::RookStorageClass),
        reg_spec("ceph.rook.io"@, None, "CephCluster"@, RelationshipProvider::RookCephCluster),
        reg_spec("objectbucket.io"@, None, "ObjectBucketClaim"@, RelationshipProvider::ObjectBucketClaim),
        reg_spec("cert-manager.io"@, None, "Certificate"@, RelationshipProvider::Certificate),
        reg_spec("cert-manager.io"@, None, "CertificateRequest"@, RelationshipProvider::CertificateRequest),
        reg_spec("acme.cert-manager.io"@, None, "Order"@, RelationshipProvider::CertManagerOrder),
        reg_spec("external-secrets.io"@, None, "ExternalSecret"@, RelationshipProvider::ExternalSecret),
        reg_spec("external-secrets.io"@, None, "ClusterExternalSecret"@, RelationshipProvider::ClusterExternalSecret),
        reg_spec("kopiur.home-operations.com"@, None, "SnapshotPolicy"@, RelationshipProvider::KopiurPolicy),
        reg_spec("tuppr.home-operations.com"@, None, "KubernetesUpgrade"@, RelationshipProvider::TupprUpgrade),
        reg_spec("tuppr.home-operations.com"@, None, "TalosUpgrade"@, RelationshipProvider::TupprUpgrade),
        reg_spec("gateway.networking.k8s.io"@, None, "HTTPRoute"@, RelationshipProvider::GatewayRoute),
        reg_spec("gateway.networking.k8s.io"@, None, "GRPCRoute"@, RelationshipProvider::GatewayRoute),
        reg_spec("gateway.networking.k8s.io"@, None, "TLSRoute"@, RelationshipProvider::GatewayRoute),
        reg_spec("gateway.networking.k8s.io"@, None, "TCPRoute"@, RelationshipProvider::GatewayRoute),
        reg_spec("gateway.networking.k8s.io"@, None, "UDPRoute"@, RelationshipProvider::GatewayRoute),
        reg_spec("gateway.networking.k8s.io"@, None, "ReferenceGrant"@, RelationshipProvider::ReferenceGrant),
        reg_spec("networking.k8s.io"@, Some("v1"@), "NetworkPolicy"@, RelationshipProvider::NetworkPolicyPods),
        reg_spec("gateway.envoyproxy.io"@, None, "BackendTrafficPolicy"@, RelationshipProvider::EnvoyPolicy),
        reg_spec("gateway.envoyproxy.io"@, None, "ClientTrafficPolicy"@, RelationshipProvider::EnvoyPolicy),
        reg_spec("gateway.envoyproxy.io"@, None, "SecurityPolicy"@, RelationshipProvider::EnvoyPolicy),
        reg_spec("gateway.envoyproxy.io"@, None, "EnvoyPatchPolicy"@, RelationshipProvider::EnvoyPolicy),
        reg_spec("gateway.envoyproxy.io"@, None, "EnvoyExtensionPolicy"@, RelationshipProvider::EnvoyPolicy),
    ]
}

/// The registry of relationship providers.
pub fn provider_table() -> (t: Vec<ProviderRegistration>)
    ensures
        reg_views(t@) == spec_provider_table(),
{
    let mut t: Vec<ProviderRegistration> = Vec::new();
    t.push(ProviderRegistration { group: "kustomize.toolkit.fluxcd.io", version: None, kind: "Kustomization", provider: RelationshipProvider::FluxKustomization });
    t.push(ProviderRegistration { group: "kustomize.toolkit.fluxcd.io", version: None, kind: "Kustomization", provider: RelationshipProvider::FluxReferences });
    t.push(ProviderRegistration { group: "helm.toolkit.fluxcd.io", version: None, kind: "HelmRelease", provider: RelationshipProvider::FluxHelmRelease });
    t.push(ProviderRegistration { group: "helm.toolkit.fluxcd.io", version: None, kind: "HelmRelease", provider: RelationshipProvider::FluxReferences });
    t.push(ProviderRegistration { group: "apps", version: Some("v1"), kind: "Deployment", provider: RelationshipProvider::OwnedChildren });
    t.push(ProviderRegistration { group: "apps", version: Some("v1"), kind: "Deployment", provider: RelationshipProvider::WorkloadPods });
    t.push(ProviderRegistration { group: "apps", version: Some("v1"), kind: "ReplicaSet", provider: RelationshipProvider::OwnedChildren });
    t.push(ProviderRegistration { group: "apps", version: Some("v1"), kind: "ReplicaSet", provider: RelationshipProvider::WorkloadPods });
    t.push(ProviderRegistration { group: "apps", version: Some("v1"), kind: "StatefulSet", provider: RelationshipProvider::OwnedChildren });
    t.push(ProviderRegistration { group: "apps", version: Some("v1"), kind: "StatefulSet", provider: RelationshipProvider::WorkloadPods });
    t.push(ProviderRegistration { group: "apps", version: Some("v1"), kind: "DaemonSet", provider: RelationshipProvider::OwnedChildren });
    t.push(ProviderRegistration { group: "apps", version: Some("v1"), kind: "DaemonSet", provider: RelationshipProvider::WorkloadPods });
    t.push(ProviderRegistration { group: "batch", version: Some("v1"), kind: "CronJob", provider: RelationshipProvider::OwnedChildren });
    t.push(ProviderRegistration { group: "batch", version: Some("v1"), kind: "Job", provider: RelationshipProvider::OwnedChildren });
    t.push(ProviderRegistration { group: "batch", version: Some("v1"), kind: "Job", provider: RelationshipProvider::WorkloadPods });
    t.push(ProviderRegistration { group: "autoscaling", version: None, kind: "HorizontalPodAutoscaler", provider: RelationshipProvider::HpaScaleTarget });
    t.push(ProviderRegistration { group: "", version: Some("v1"), kind: "Service", provider: RelationshipProvider::ServiceTargets });
    t.push(ProviderRegistration { group: "discovery.k8s.io", version: Some("v1"), kind: "EndpointSlice", provider: RelationshipProvider::EndpointSliceService });
    t.push(ProviderRegistration { group: "postgresql.cnpg.io", version: None, kind: "Cluster", provider: RelationshipProvider::CnpgCluster });
    t.push(ProviderRegistration { group: "postgresql.cnpg.io", version: None, kind: "Backup", provider: RelationshipProvider::CnpgClusterReference });
    t.push(ProviderRegistration { group: "postgresql.cnpg.io", version: None, kind: "Database", provider: RelationshipProvider::CnpgClusterReference });
    t.push(ProviderRegistration { group: "postgresql.cnpg.io", version: None, kind: "DatabaseRole", provider: RelationshipProvider::CnpgClusterReference });
    t.push(ProviderRegistration { group: "postgresql.cnpg.io", version: None, kind: "Pooler", provider: RelationshipProvider::CnpgClusterReference });
    t.push(ProviderRegistration { group: "postgresql.cnpg.io", version: None, kind: "ScheduledBackup", provider: RelationshipProvider::CnpgClusterReference });
    t.push(ProviderRegistration { group: "postgresql.cnpg.io", version: None, kind: "ScheduledBackup", provider: RelationshipProvider::CnpgScheduledBackup });
    t.push(ProviderRegistration { group: "", version: Some("v1"), kind: "Pod", provider: RelationshipProvider::KubernetesStorage });
    t.push(ProviderRegistration { group: "", version: Some("v1"), kind: "PersistentVolumeClaim", provider: RelationshipProvider::KubernetesStorage });
    t.push(ProviderRegistration { group: "", version: Some("v1"), kind: "PersistentVolume", provider: RelationshipProvider::KubernetesStorage });
    t.push(ProviderRegistration { group: "", version: Some("v1"), kind: "PersistentVolume", provider: RelationshipProvider::VolumeAttachments });
    t.push(ProviderRegistration { group: "", version: Some("v1"), kind: "Node", provider: RelationshipProvider::VolumeAttachments });
    t.push(ProviderRegistration { group: "storage.k8s.io", version: Some("v1"), kind: "VolumeAttachment", provider: RelationshipProvider::KubernetesStorage });
    t.push(ProviderRegistration { group: "storage.k8s.io", version: Some("v1"), kind: "StorageClass", provider: RelationshipProvider::RookStorageClass });
    t.push(ProviderRegistration { group: "ceph.rook.io", version: None, kind: "CephCluster", provider: RelationshipProvider::RookCephCluster });
    t.push(ProviderRegistration { group: "objectbucket.io", version: None, kind: "ObjectBucketClaim", provider: RelationshipProvider::ObjectBucketClaim });
    t.push(ProviderRegistration { group: "cert-manager.io", version: None, kind: "Certificate", provider: RelationshipProvider::Certificate });
    t.push(ProviderRegistration { group: "cert-manager.io", version: None, kind: "CertificateRequest", provider: RelationshipProvider::CertificateRequest });
    t.push(ProviderRegistration { group: "acme.cert-manager.io", version: None, kind: "Order", provider: RelationshipProvider::CertManagerOrder });
    t.push(ProviderRegistration { group: "external-secrets.io", version: None, kind: "ExternalSecret", provider: RelationshipProvider::ExternalSecret });
    t.push(ProviderRegistration { group: "external-secrets.io", version: None, kind: "ClusterExternalSecret", provider: RelationshipProvider::ClusterExternalSecret });
    t.push(ProviderRegistration { group: "kopiur.home-operations.com", version: None, kind: "SnapshotPolicy", provider: RelationshipProvider::KopiurPolicy });
    t.push(ProviderRegistration { group: "tuppr.home-operations.com", version: None, kind: "KubernetesUpgrade", provider: RelationshipProvider::TupprUpgrade });
    t.push(ProviderRegistration { group: "tuppr.home-operations.com", version: None, kind: "TalosUpgrade", provider: RelationshipProvider::TupprUpgrade });
    t.push(ProviderRegistration { group: "gateway.networking.k8s.io", version: None, kind: "HTTPRoute", provider: RelationshipProvider::GatewayRoute });
    t.push(ProviderRegistration { group: "gateway.networking.k8s.io", version: None, kind: "GRPCRoute", provider: RelationshipProvider::GatewayRoute });
    t.push(ProviderRegistration { group: "gateway.networking.k8s.io", version: None, kind: "TLSRoute", provider: RelationshipProvider::GatewayRoute });
    t.push(ProviderRegistration { group: "gateway.networking.k8s.io", version: None, kind: "TCPRoute", provider: RelationshipProvider::GatewayRoute });
    t.push(ProviderRegistration { group: "gateway.networking.k8s.io", version: None, kind: "UDPRoute", provider: RelationshipProvider::GatewayRoute });
    t.push(ProviderRegistration { group: "gateway.networking.k8s.io", version: None, kind: "ReferenceGrant", provider: RelationshipProvider::ReferenceGrant });
    t.push(ProviderRegistration { group: "networking.k8s.io", version: Some("v1"), kind: "NetworkPolicy", provider: RelationshipProvider::NetworkPolicyPods });
    t.push(ProviderRegistration { group: "gateway.envoyproxy.io", version: None, kind: "BackendTrafficPolicy", provider: RelationshipProvider::EnvoyPolicy });
    t.push(ProviderRegistration { group: "gateway.envoyproxy.io", version: None, kind: "ClientTrafficPolicy", provider: RelationshipProvider::EnvoyPolicy });
    t.push(ProviderRegistration { group: "gateway.envoyproxy.io", version: None, kind: "SecurityPolicy", provider: RelationshipProvider::EnvoyPolicy });
    t.push(ProviderRegistration { group: "gateway.envoyproxy.io", version: None, kind: "EnvoyPatchPolicy", provider: RelationshipProvider::EnvoyPolicy });
    t.push(ProviderRegistration { group: "gateway.envoyproxy.io", version: None, kind: "EnvoyExtensionPolicy", provider: RelationshipProvider::EnvoyPolicy });
    assert(reg_views(t@) =~= spec_provider_table());
    t
}

/// A registration applies to a resource of the same group and kind, and of
/// its version when it names one.
pub open spec fn registration_applies(r: RegistrationView, group: Seq<char>, version: Seq<char>, kind: Seq<char>) -> bool {
    r.0 == group && r.2 == kind && match r.1 {
        Some(v) => v == version,
        None => true,
    }
}

/// The providers of the registrations in `table` that apply, in order.
pub open spec fn providers_in(table: Seq<RegistrationView>, group: Seq<char>, version: Seq<char>, kind: Seq<char>) -> Seq<RelationshipProvider>
    decreases table.len(),
{
    if table.len() == 0 {
        Seq::empty()
    } else {
        let prev = providers_in(table.drop_last(), group, version, kind);
        if registration_applies(table.last(), group, version, kind) {
            prev.push(table.last().3)
        } else {
            prev
        }
    }
}

/// The providers that expand `resource`, in registration order.
pub fn relationship_providers(resource: &ResourceRef) -> (r: Vec<RelationshipProvider>)
    ensures
        r@ == providers_in(spec_provider_table(), resource.group@, resource.version@, resource.kind@),
{
    let table = provider_table();
    let mut out: Vec<RelationshipProvider> = Vec::new();
    let n = table.len();
    for i in 0..n
        invariant
            n == table@.len(),
            reg_views(table@) == spec_provider_table(),
            out@ == providers_in(reg_views(table@).take(i as int), resource.group@, resource.version@, resource.kind@),
    {
        let ghost tv = reg_views(table@);
        assert(tv.take(i + 1).drop_last() == tv.take(i as int));
        assert(tv.take(i + 1).last() == reg_view(table@[i as int]));
        let reg = &table[i];
        let version_ok = match reg.version {
            Some(v) => str_eq(v, resource.version.as_str()),
            None => true,
        };
        if str_eq(reg.group, resource.group.as_str()) && str_eq(reg.kind, resource.kind.as_str()) && version_ok {
            out.push(reg.provider);
        }
    }
    assert(reg_views(table@).take(n as int) == reg_views(table@));
    out
}

} // verus!
