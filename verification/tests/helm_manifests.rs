use std::io::Write;

use base64::Engine as _;
use roder_k8s::helm::{
    decode_helm_manifest, decompress_helm_release, helm_storage, parse_helm_manifest,
    release_children, split_yaml_docs, HelmStorage,
};
use roder_k8s::json::Json;

const SAMPLE: &str = "\
---
# Source: podinfo/templates/deployment.yaml
apiVersion: apps/v1
kind: Deployment
metadata:
  name: podinfo
  namespace: apps
---
# Source: podinfo/templates/sa.yaml
apiVersion: v1
kind: ServiceAccount
metadata:
  name: podinfo
";

fn to_json(v: &serde_json::Value) -> Json {
    match v {
        serde_json::Value::Null => Json::Null,
        serde_json::Value::Bool(b) => Json::Bool(*b),
        serde_json::Value::Number(n) => Json::Number(n.to_string(), n.as_i64()),
        serde_json::Value::String(s) => Json::Str(s.clone()),
        serde_json::Value::Array(a) => Json::Array(a.iter().map(to_json).collect()),
        serde_json::Value::Object(m) => {
            Json::Object(m.iter().map(|(k, v)| (k.clone(), to_json(v))).collect())
        }
    }
}

fn parse(text: &str) -> Json {
    to_json(&serde_json::from_str::<serde_json::Value>(text).unwrap())
}

fn gzip(bytes: &[u8]) -> Vec<u8> {
    let mut enc = flate2::write::GzEncoder::new(Vec::new(), flate2::Compression::default());
    enc.write_all(bytes).unwrap();
    enc.finish().unwrap()
}

fn stored_release(manifest: &str) -> Vec<u8> {
    let mut release = serde_json::Map::new();
    release.insert("manifest".to_string(), serde_json::Value::String(manifest.to_string()));
    let payload = serde_json::Value::Object(release).to_string();
    base64::engine::general_purpose::STANDARD.encode(gzip(payload.as_bytes())).into_bytes()
}

#[test]
fn splits_and_parses_multiple_docs() {
    let refs = parse_helm_manifest(SAMPLE, "apps");
    assert_eq!(refs.len(), 2);
    assert_eq!(refs[0].kind, "Deployment");
    assert_eq!(refs[0].group, "apps");
    assert_eq!(refs[0].version, "v1");
    assert_eq!(refs[0].namespace.as_deref(), Some("apps"));
}

#[test]
fn core_kind_has_empty_group() {
    let refs = parse_helm_manifest(SAMPLE, "apps");
    assert_eq!(refs[1].kind, "ServiceAccount");
    assert_eq!(refs[1].group, "");
    assert_eq!(refs[1].version, "v1");
}

#[test]
fn doc_missing_namespace_defaults_to_release_namespace() {
    let refs = parse_helm_manifest(SAMPLE, "apps");
    assert_eq!(refs[1].namespace.as_deref(), Some("apps"));
}

#[test]
fn leading_and_trailing_separators_dont_produce_empty_docs() {
    let m = "---\napiVersion: v1\nkind: ServiceAccount\nmetadata:\n  name: a\n---\n";
    assert_eq!(parse_helm_manifest(m, "ns").len(), 1);
}

#[test]
fn garbage_doc_is_skipped_not_fatal() {
    let m = "---\n: this is not : valid : yaml{{{\n---\napiVersion: v1\nkind: ServiceAccount\nmetadata:\n  name: ok\n";
    let refs = parse_helm_manifest(m, "ns");
    assert_eq!(refs.len(), 1);
    assert_eq!(refs[0].name, "ok");
}

#[test]
fn doc_missing_name_is_skipped() {
    let m = "apiVersion: v1\nkind: ConfigMap\nmetadata: {}\n";
    assert!(parse_helm_manifest(m, "ns").is_empty());
}

#[test]
fn empty_manifest_yields_no_docs() {
    assert!(parse_helm_manifest("", "ns").is_empty());
    assert!(parse_helm_manifest("   \n\n", "ns").is_empty());
}

#[test]
fn decode_helm_manifest_round_trips_gzip_base64_json() {
    let b64 = stored_release("apiVersion: v1\nkind: Pod\n");
    let decoded = decode_helm_manifest(&b64).unwrap();
    assert!(decoded.contains("kind: Pod"));
}

#[test]
fn decode_helm_manifest_rejects_garbage() {
    assert!(decode_helm_manifest(b"not base64 at all!!").is_err());
}

#[test]
fn helm_release_decompression_is_bounded() {
    let gz = gzip(&vec![b'x'; 1025]);
    let error = decompress_helm_release(&gz, 1024).unwrap_err();
    assert!(error.contains("exceeds 1024 byte limit"));
}

#[test]
fn decompression_up_to_the_limit_is_accepted() {
    let gz = gzip(&vec![b'x'; 1024]);
    assert_eq!(decompress_helm_release(&gz, 1024).unwrap(), vec![b'x'; 1024]);
}

#[test]
fn decode_errors_name_the_failing_layer() {
    let error = decode_helm_manifest(b"not base64 at all!!").unwrap_err();
    assert!(error.starts_with("invalid Helm release secret encoding: "));
    let not_gzip = base64::engine::general_purpose::STANDARD.encode(b"plain").into_bytes();
    let error = decode_helm_manifest(&not_gzip).unwrap_err();
    assert!(error.starts_with("failed to decompress Helm release secret: "));
    let not_json = base64::engine::general_purpose::STANDARD.encode(gzip(b"{{")).into_bytes();
    let error = decode_helm_manifest(&not_json).unwrap_err();
    assert!(error.starts_with("invalid Helm release JSON: "));
    let no_manifest =
        base64::engine::general_purpose::STANDARD.encode(gzip(b"{\"name\": \"x\"}")).into_bytes();
    assert_eq!(decode_helm_manifest(&no_manifest).unwrap_err(), "Helm release has no manifest");
}

#[test]
fn yaml_documents_are_split_on_separator_lines() {
    let docs = split_yaml_docs("a: 1\n---  \nb: 2\n--- x\n");
    assert_eq!(docs, vec!["a: 1\n".to_string(), "b: 2\n--- x\n".to_string()]);
}

#[test]
fn storage_secret_is_named_after_the_deployed_revision() {
    let hr = parse(
        r#"{"status": {"history": [
            {"status": "superseded", "name": "old", "namespace": "apps", "version": 1},
            {"status": "deployed", "name": "podinfo", "namespace": "apps", "version": 7}
        ]}}"#,
    );
    let storage = helm_storage(&hr).unwrap();
    assert_eq!(storage.namespace, "apps");
    assert_eq!(storage.secret_name, "sh.helm.release.v1.podinfo.v7");
}

#[test]
fn releases_without_a_deployed_revision_are_refused() {
    let none = parse(r#"{"status": {"history": []}}"#);
    assert_eq!(helm_storage(&none).err(), Some("HelmRelease has no deployed revision yet".into()));
    let pending = parse(r#"{"status": {"history": [{"status": "pending-install"}]}}"#);
    assert_eq!(helm_storage(&pending).err(), Some("HelmRelease has no deployed revision yet".into()));
    let no_version =
        parse(r#"{"status": {"history": [{"status": "deployed", "name": "a", "namespace": "b"}]}}"#);
    assert_eq!(
        helm_storage(&no_version).err(),
        Some("Helm release history entry missing version".into())
    );
}

#[test]
fn release_children_read_the_stored_manifest() {
    let storage = HelmStorage { namespace: "apps".into(), secret_name: "sh.helm.release.v1.p.v1".into() };
    let children = release_children(&storage, Ok(Some(stored_release(SAMPLE)))).unwrap();
    assert_eq!(children.len(), 2);
    assert_eq!(children[1].namespace.as_deref(), Some("apps"));
    assert_eq!(
        release_children(&storage, Ok(None)).err(),
        Some("Helm storage secret sh.helm.release.v1.p.v1 has no 'release' key".into())
    );
    assert_eq!(
        release_children(&storage, Err("forbidden".into())).err(),
        Some("could not read Helm storage secret sh.helm.release.v1.p.v1: forbidden".into())
    );
}
