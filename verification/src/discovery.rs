//! Sidebar categories for discovered resource kinds.
use vstd::prelude::*;

use crate::text::{chars_of, ends_with, rsplit_once, rsplit_once_chars, str_ends_with, str_eq, string_of, extend_chars};

verus! {

/// The sidebar section a resource kind is listed under.
#[derive(Clone, Debug, PartialEq, Eq)]
pub enum Category {
    Workloads,
    Config,
    Network,
    Storage,
    Rbac,
    Cluster,
    Flux,
    ExternalSecrets,
    CertManager,
    Rook,
    CloudNativePg,
    /// Any other API group, labelled by its registrable domain.
    Custom(String),
}

/// The category of a core-group kind.
pub open spec fn core_category(kind: Seq<char>) -> Category {
    if kind == "Pod"@ || kind == "ReplicationController"@ {
        Category::Workloads
    } else if kind == "ConfigMap"@ || kind == "Secret"@ || kind == "ResourceQuota"@ || kind
        == "LimitRange"@ {
        Category::Config
    } else if kind == "ServiceAccount"@ {
        Category::Rbac
    } else if kind == "Service"@ || kind == "Endpoints"@ {
        Category::Network
    } else if kind == "PersistentVolumeClaim"@ || kind == "PersistentVolume"@ {
        Category::Storage
    } else {
        Category::Cluster
    }
}

/// The label of a custom API group: its last two dot-separated components.
pub open spec fn spec_group_base_domain(group: Seq<char>) -> Seq<char> {
    match rsplit_once(group, '.') {
        Some((prefix, last)) => match rsplit_once(prefix, '.') {
            Some((_, second)) => second + seq!['.'] + last,
            None => group,
        },
        None => group,
    }
}

/// The category of (group, kind), decided by group first and, for the core group, by kind.
pub open spec fn spec_classify(group: Seq<char>, kind: Seq<char>) -> Category {
    if ends_with(group, "fluxcd.io"@) {
        Category::Flux
    } else if group == "external-secrets.io"@ || ends_with(group, ".external-secrets.io"@) {
        Category::ExternalSecrets
    } else if group == "cert-manager.io"@ || ends_with(group, ".cert-manager.io"@) || group
        == "acme.cert-manager.io"@ {
        Category::CertManager
    } else if group == "ceph.rook.io"@ || ends_with(group, ".rook.io"@) || group
        == "objectbucket.io"@ || ends_with(group, ".objectbucket.io"@) || ends_with(
        group,
        ".ceph.io"@,
    ) {
        Category::Rook
    } else if group == "cnpg.io"@ || ends_with(group, ".cnpg.io"@) {
        Category::CloudNativePg
    } else if group == "rbac.authorization.k8s.io"@ {
        Category::Rbac
    } else if group == "storage.k8s.io"@ {
        Category::Storage
    } else if group == "networking.k8s.io"@ || group == "gateway.networking.k8s.io"@ {
        Category::Network
    } else if group == "apps"@ || group == "batch"@ {
        Category::Workloads
    } else if group.len() == 0 {
        core_category(kind)
    } else {
        Category::Custom(arbitrary())
    }
}

/// `c` is the category of (group, kind); for a custom group the label is the
/// group's base domain.
pub open spec fn is_classification(group: Seq<char>, kind: Seq<char>, c: Category) -> bool {
    match spec_classify(group, kind) {
        Category::Custom(_) => c matches Category::Custom(label) && label@
            == spec_group_base_domain(group),
        other => c == other,
    }
}

/// Shortens a custom API group to its registrable domain:
/// `monitoring.coreos.com` becomes `coreos.com`, `kyverno.io` stays.
pub fn group_base_domain(group: &str) -> (r: String)
    ensures
        r@ == spec_group_base_domain(group@),
{
    let chars = chars_of(group);
    if let Some((prefix, last)) = rsplit_once_chars(chars.as_slice(), '.') {
        if let Some((_, second)) = rsplit_once_chars(prefix.as_slice(), '.') {
            let mut out = second;
            out.push('.');
            extend_chars(&mut out, last.as_slice());
            return string_of(out.as_slice());
        }
    }
    string_of(chars.as_slice())
}

/// Maps (group, kind) to its sidebar category.
pub fn classify(group: &str, kind: &str) -> (r: Category)
    ensures
        is_classification(group@, kind@, r),
{
    if str_ends_with(group, "fluxcd.io") {
        return Category::Flux;
    }
    if str_eq(group, "external-secrets.io") || str_ends_with(group, ".external-secrets.io") {
        return Category::ExternalSecrets;
    }
    if str_eq(group, "cert-manager.io") || str_ends_with(group, ".cert-manager.io") || str_eq(
        group,
        "acme.cert-manager.io",
    ) {
        return Category::CertManager;
    }
    if str_eq(group, "ceph.rook.io") || str_ends_with(group, ".rook.io") || str_eq(
        group,
        "objectbucket.io",
    ) || str_ends_with(group, ".objectbucket.io") || str_ends_with(group, ".ceph.io") {
        return Category::Rook;
    }
    if str_eq(group, "cnpg.io") || str_ends_with(group, ".cnpg.io") {
        return Category::CloudNativePg;
    }
    if str_eq(group, "rbac.authorization.k8s.io") {
        return Category::Rbac;
    }
    if str_eq(group, "storage.k8s.io") {
        return Category::Storage;
    }
    if str_eq(group, "networking.k8s.io") || str_eq(group, "gateway.networking.k8s.io") {
        return Category::Network;
    }
    if str_eq(group, "apps") || str_eq(group, "batch") {
        return Category::Workloads;
    }
    if group.is_empty() {
        return if str_eq(kind, "Pod") || str_eq(kind, "ReplicationController") {
            Category::Workloads
        } else if str_eq(kind, "ConfigMap") || str_eq(kind, "Secret") || str_eq(
            kind,
            "ResourceQuota",
        ) || str_eq(kind, "LimitRange") {
            Category::Config
        } else if str_eq(kind, "ServiceAccount") {
            Category::Rbac
        } else if str_eq(kind, "Service") || str_eq(kind, "Endpoints") {
            Category::Network
        } else if str_eq(kind, "PersistentVolumeClaim") || str_eq(kind, "PersistentVolume") {
            Category::Storage
        } else {
            Category::Cluster
        };
    }
    Category::Custom(group_base_domain(group))
}

} // verus!
