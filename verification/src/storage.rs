//! Storage relationships: pod volumes to claims, claims to volumes or classes,
//! volumes to classes, and volume attachments to their volume and node.
use vstd::prelude::*;
use crate::json::{json_get, json_nonempty_str, json_path, json_str, key_views, opt_nonempty_str, opt_str, Json};
use crate::references::{array_at, array_at_path};
use crate::text::{chars_of, extend_chars, owned, str_eq, string_of};
use crate::tree::{opt_view, ResourceRef};

verus! {

/// A storage object a resource refers to.
pub struct StorageReference {
    pub group: &'static str,
    pub version: &'static str,
    pub kind: &'static str,
    pub name: String,
    pub namespace: Option<String>,
}

/// A storage reference as (group, version, kind, name, namespace).
pub type StorageView = (Seq<char>, Seq<char>, Seq<char>, Seq<char>, Option<Seq<char>>);

pub open spec fn storage_view(r: StorageReference) -> StorageView {
    (r.group@, r.version@, r.kind@, r.name@, opt_view(r.namespace))
}

pub open spec fn storage_views(v: Seq<StorageReference>) -> Seq<StorageView> {
    v.map_values(|r: StorageReference| storage_view(r))
}

/// The claim a pod volume uses: its `persistentVolumeClaim.claimName`, or for
/// an ephemeral volume the claim generated as `<pod>-<volume>` (both names
/// non-empty).
pub open spec fn spec_volume_claim(pod_name: Seq<char>, volume: Json) -> Option<Seq<char>> {
    match json_nonempty_str(json_path(volume, seq!["persistentVolumeClaim"@, "claimName"@])) {
        Some(c) => Some(c),
        None => if json_get(volume, "ephemeral"@) is Some {
            match json_str(json_get(volume, "name"@)) {
                Some(v) => if pod_name.len() > 0 && v.len() > 0 {
                    Some(pod_name + "-"@ + v)
                } else {
                    None
                },
                None => None,
            }
        } else {
            None
        },
    }
}

/// The claims of a pod's volumes, in order, in the pod's namespace.
pub open spec fn spec_pod_claims(pod_name: Seq<char>, ns: Option<Seq<char>>, volumes: Seq<Json>) -> Seq<StorageView>
    decreases volumes.len(),
{
    if volumes.len() == 0 {
        Seq::empty()
    } else {
        let prev = spec_pod_claims(pod_name, ns, volumes.drop_last());
        match spec_volume_claim(pod_name, volumes.last()) {
            Some(c) => prev.push((Seq::empty(), "v1"@, "PersistentVolumeClaim"@, c, ns)),
            None => prev,
        }
    }
}

/// The StorageClass named by `spec.storageClassName`, when not empty.
pub open spec fn spec_storage_class_reference(data: Json) -> Option<StorageView> {
    match json_nonempty_str(json_path(data, seq!["spec"@, "storageClassName"@])) {
        Some(n) => Some(("storage.k8s.io"@, "v1"@, "StorageClass"@, n, None)),
        None => None,
    }
}

pub open spec fn opt_storage(o: Option<StorageView>) -> Seq<StorageView> {
    match o {
        Some(v) => seq![v],
        None => Seq::empty(),
    }
}

/// A pod refers to one claim per volume that names one, in order: each a core
/// `v1` PersistentVolumeClaim in the pod's namespace, so never more than it
/// has volumes, and every claim a volume names is among them.
pub proof fn lemma_pod_claims_cover_volumes(pod_name: Seq<char>, ns: Option<Seq<char>>, volumes: Seq<Json>)
    ensures
        spec_pod_claims(pod_name, ns, volumes).len() <= volumes.len(),
        forall|k: int| 0 <= k < spec_pod_claims(pod_name, ns, volumes).len() ==> {
            let r = #[trigger] spec_pod_claims(pod_name, ns, volumes)[k];
            &&& r.0 == Seq::<char>::empty()
            &&& r.1 == "v1"@
            &&& r.2 == "PersistentVolumeClaim"@
            &&& r.4 == ns
        },
        forall|i: int| 0 <= i < volumes.len() && (#[trigger] spec_volume_claim(pod_name, volumes[i])) is Some
            ==> spec_pod_claims(pod_name, ns, volumes).contains(
                (Seq::<char>::empty(), "v1"@, "PersistentVolumeClaim"@, spec_volume_claim(pod_name, volumes[i])->0, ns),
            ),
    decreases volumes.len(),
{
    if volumes.len() > 0 {
        let pre = volumes.drop_last();
        lemma_pod_claims_cover_volumes(pod_name, ns, pre);
        let prev = spec_pod_claims(pod_name, ns, pre);
        let cur = spec_pod_claims(pod_name, ns, volumes);
        assert forall|k: int| 0 <= k < cur.len() implies {
            let r = #[trigger] cur[k];
            &&& r.0 == Seq::<char>::empty()
            &&& r.1 == "v1"@
            &&& r.2 == "PersistentVolumeClaim"@
            &&& r.4 == ns
        } by {
            if k < prev.len() {
                assert(cur[k] == prev[k]);
            }
        }
        assert forall|i: int| 0 <= i < volumes.len() && (#[trigger] spec_volume_claim(pod_name, volumes[i])) is Some
            implies cur.contains(
                (Seq::<char>::empty(), "v1"@, "PersistentVolumeClaim"@, spec_volume_claim(pod_name, volumes[i])->0, ns),
            ) by {
            let x = (Seq::<char>::empty(), "v1"@, "PersistentVolumeClaim"@, spec_volume_claim(pod_name, volumes[i])->0, ns);
            if i < pre.len() {
                assert(pre[i] == volumes[i]);
                assert(spec_volume_claim(pod_name, pre[i]) is Some);
                let j = choose|j: int| 0 <= j < prev.len() && prev[j] == x;
                assert(cur[j] == x);
            } else {
                assert(cur[cur.len() - 1] == x);
            }
        }
    }
}

/// A cluster-scoped core object named by the non-empty string at `path`.
pub open spec fn core_named(data: Json, path: Seq<Seq<char>>, kind: Seq<char>) -> Option<StorageView> {
    match json_nonempty_str(json_path(data, path)) {
        Some(n) => Some((Seq::empty(), "v1"@, kind, n, None)),
        None => None,
    }
}

/// What a storage-related resource refers to:
/// a Pod its volumes' claims; a PersistentVolumeClaim its bound volume, else
/// its class; a PersistentVolume its class; a VolumeAttachment its volume and
/// its node.
pub open spec fn spec_storage_reference_targets(resource: ResourceRef, data: Json) -> Seq<StorageView> {
    let g = resource.group@;
    let k = resource.kind@;
    if g.len() == 0 && k == "Pod"@ {
        spec_pod_claims(resource.name@, opt_view(resource.namespace), array_at(data, seq!["spec"@, "volumes"@]))
    } else if g.len() == 0 && k == "PersistentVolumeClaim"@ {
        match core_named(data, seq!["spec"@, "volumeName"@], "PersistentVolume"@) {
            Some(v) => seq![v],
            None => opt_storage(spec_storage_class_reference(data)),
        }
    } else if g.len() == 0 && k == "PersistentVolume"@ {
        opt_storage(spec_storage_class_reference(data))
    } else if g == "storage.k8s.io"@ && k == "VolumeAttachment"@ {
        opt_storage(core_named(data, seq!["spec"@, "source"@, "persistentVolumeName"@], "PersistentVolume"@))
            + opt_storage(core_named(data, seq!["spec"@, "nodeName"@], "Node"@))
    } else {
        Seq::empty()
    }
}

/// The StorageClass named by `spec.storageClassName`.
pub fn storage_class_reference(data: &Json) -> (r: Option<StorageReference>)
    ensures
        match r {
            Some(x) => spec_storage_class_reference(*data) == Some(storage_view(x)),
            None => spec_storage_class_reference(*data) is None,
        },
{
    let path = ["spec", "storageClassName"];
    assert(key_views(path@) =~= seq!["spec"@, "storageClassName"@]);
    match opt_nonempty_str(data.path(&path)) {
        Some(n) => Some(StorageReference {
            group: "storage.k8s.io",
            version: "v1",
            kind: "StorageClass",
            name: owned(n),
            namespace: None,
        }),
        None => None,
    }
}

fn volume_claim(pod_name: &str, volume: &Json) -> (r: Option<String>)
    ensures
        opt_view(r) == spec_volume_claim(pod_name@, *volume),
{
    let path = ["persistentVolumeClaim", "claimName"];
    assert(key_views(path@) =~= seq!["persistentVolumeClaim"@, "claimName"@]);
    match opt_nonempty_str(volume.path(&path)) {
        Some(c) => Some(owned(c)),
        None => {
            if volume.get("ephemeral").is_none() {
                return None;
            }
            match opt_str(volume.get("name")) {
                Some(v) => if !pod_name.is_empty() && !v.is_empty() {
                    let mut out = chars_of(pod_name);
                    out.push('-');
                    let vc = chars_of(v);
                    extend_chars(&mut out, vc.as_slice());
                    assert(out@ =~= pod_name@ + "-"@ + v@) by {
                        reveal_strlit("-");
                    }
                    Some(string_of(out.as_slice()))
                } else {
                    None
                },
                None => None,
            }
        },
    }
}

fn copy_opt(o: &Option<String>) -> (r: Option<String>)
    ensures
        opt_view(r) == opt_view(*o),
{
    match o {
        Some(s) => Some(owned(s.as_str())),
        None => None,
    }
}

fn core_named_at(data: &Json, path: &[&str], kind: &'static str) -> (r: Option<StorageReference>)
    ensures
        match r {
            Some(x) => core_named(*data, key_views(path@), kind@) == Some(storage_view(x)),
            None => core_named(*data, key_views(path@), kind@) is None,
        },
{
    proof {
        reveal_strlit("");
    }
    match opt_nonempty_str(data.path(path)) {
        Some(n) => Some(StorageReference { group: "", version: "v1", kind, name: owned(n), namespace: None }),
        None => None,
    }
}

/// The storage objects a Pod, PersistentVolumeClaim, PersistentVolume or
/// VolumeAttachment refers to; none for other kinds.
pub fn storage_reference_targets(resource: &ResourceRef, data: &Json) -> (r: Vec<StorageReference>)
    ensures
        storage_views(r@) == spec_storage_reference_targets(*resource, *data),
{
    let core = resource.group.as_str().is_empty();
    let kind = resource.kind.as_str();
    proof {
        reveal_strlit("");
    }
    let mut out: Vec<StorageReference> = Vec::new();
    assert(storage_views(out@) =~= Seq::<StorageView>::empty());
    if core && str_eq(kind, "Pod") {
        let path = ["spec", "volumes"];
        assert(key_views(path@) =~= seq!["spec"@, "volumes"@]);
        let volumes = array_at_path(data, &path);
        let n = volumes.len();
        for i in 0..n
            invariant
                n == volumes@.len(),
                storage_views(out@) == spec_pod_claims(resource.name@, opt_view(resource.namespace), volumes@.take(i as int)),
        {
            assert(volumes@.take(i + 1).drop_last() == volumes@.take(i as int));
            assert(volumes@.take(i + 1).last() == volumes@[i as int]);
            match volume_claim(resource.name.as_str(), &volumes[i]) {
                Some(c) => {
                    proof {
                        reveal_strlit("");
                    }
                    let ghost before = out@;
                    out.push(StorageReference {
                        group: "",
                        version: "v1",
                        kind: "PersistentVolumeClaim",
                        name: c,
                        namespace: copy_opt(&resource.namespace),
                    });
                    assert(storage_views(out@) =~= storage_views(before).push(storage_view(out@.last())));
                    assert(storage_view(out@.last()) == (Seq::<char>::empty(), "v1"@, "PersistentVolumeClaim"@, c@, opt_view(resource.namespace)));
                    assert(storage_views(out@) =~= spec_pod_claims(resource.name@, opt_view(resource.namespace), volumes@.take(i + 1)));
                },
                None => {},
            }
        }
        assert(volumes@.take(n as int) == volumes@);
    } else if core && str_eq(kind, "PersistentVolumeClaim") {
        let path = ["spec", "volumeName"];
        assert(key_views(path@) =~= seq!["spec"@, "volumeName"@]);
        match core_named_at(data, &path, "PersistentVolume") {
            Some(v) => out.push(v),
            None => if let Some(c) = storage_class_reference(data) {
                out.push(c);
            },
        }
        assert(storage_views(out@) =~= spec_storage_reference_targets(*resource, *data));
    } else if core && str_eq(kind, "PersistentVolume") {
        if let Some(c) = storage_class_reference(data) {
            out.push(c);
        }
        assert(storage_views(out@) =~= spec_storage_reference_targets(*resource, *data));
    } else if str_eq(resource.group.as_str(), "storage.k8s.io") && str_eq(kind, "VolumeAttachment") {
        let pv = ["spec", "source", "persistentVolumeName"];
        assert(key_views(pv@) =~= seq!["spec"@, "source"@, "persistentVolumeName"@]);
        let node = ["spec", "nodeName"];
        assert(key_views(node@) =~= seq!["spec"@, "nodeName"@]);
        if let Some(v) = core_named_at(data, &pv, "PersistentVolume") {
            out.push(v);
        }
        if let Some(v) = core_named_at(data, &node, "Node") {
            out.push(v);
        }
        assert(storage_views(out@) =~= spec_storage_reference_targets(*resource, *data));
    }
    out
}

/// The attachment path that names an object of `group` and `kind`: the
/// volume of a PersistentVolume, the node of a Node.
pub open spec fn attachment_path(group: Seq<char>, kind: Seq<char>) -> Option<Seq<Seq<char>>> {
    if group.len() == 0 && kind == "PersistentVolume"@ {
        Some(seq!["spec"@, "source"@, "persistentVolumeName"@])
    } else if group.len() == 0 && kind == "Node"@ {
        Some(seq!["spec"@, "nodeName"@])
    } else {
        None
    }
}

/// Whether a VolumeAttachment (as its JSON document) attaches the
/// PersistentVolume or Node of `group`, `kind` and `name`.
pub open spec fn spec_attaches(group: Seq<char>, kind: Seq<char>, name: Seq<char>, attachment: Json) -> bool {
    match attachment_path(group, kind) {
        Some(p) => json_str(json_path(attachment, p)) == Some(name),
        None => false,
    }
}

/// Whether a VolumeAttachment (as its JSON document) attaches the
/// PersistentVolume or Node `resource`.
pub open spec fn spec_volume_attachment_matches(resource: ResourceRef, attachment: Json) -> bool {
    spec_attaches(resource.group@, resource.kind@, resource.name@, attachment)
}

/// Whether the attachment names the volume or node of `group`, `kind` and `name`.
pub fn attaches(group: &str, kind: &str, name: &str, attachment: &Json) -> (r: bool)
    ensures
        r == spec_attaches(group@, kind@, name@, *attachment),
{
    let core = group.is_empty();
    if core && str_eq(kind, "PersistentVolume") {
        let path = ["spec", "source", "persistentVolumeName"];
        assert(key_views(path@) =~= seq!["spec"@, "source"@, "persistentVolumeName"@]);
        match opt_str(attachment.path(&path)) {
            Some(s) => str_eq(s, name),
            None => false,
        }
    } else if core && str_eq(kind, "Node") {
        let path = ["spec", "nodeName"];
        assert(key_views(path@) =~= seq!["spec"@, "nodeName"@]);
        match opt_str(attachment.path(&path)) {
            Some(s) => str_eq(s, name),
            None => false,
        }
    } else {
        false
    }
}

/// Whether the attachment names `resource` as its volume or its node.
pub fn volume_attachment_matches(resource: &ResourceRef, attachment: &Json) -> (r: bool)
    ensures
        r == spec_volume_attachment_matches(*resource, *attachment),
{
    attaches(resource.group.as_str(), resource.kind.as_str(), resource.name.as_str(), attachment)
}

} // verus!
