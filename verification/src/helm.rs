//! Helm release storage: where a release's deployed revision is stored, how
//! the stored payload decodes to its manifest, and which objects the manifest
//! lists.
use vstd::prelude::*;

use crate::json::{deref_opt, json_array, json_get, json_path, json_str, key_views, opt_array, opt_str, opt_str_is, Json};
use crate::text::{
    chars_eq, chars_of, decimal, extend_chars, is_blank, lines, lines_of, owned, signed_decimal,
    split_once, split_once_chars, string_of, trim_end_chars, trim_end_ws, trim_ws, views,
    string_views, u64_to_string, i64_to_string,
};
use crate::alertmanager::result_view;
use crate::tree::opt_view;

verus! {

/// Document splitting after reading `lines`: finished documents and the one in progress.
pub open spec fn docs_state(lines: Seq<Seq<char>>) -> (Seq<Seq<char>>, Seq<char>)
    decreases lines.len(),
{
    if lines.len() == 0 {
        (Seq::empty(), Seq::empty())
    } else {
        let prev = docs_state(lines.drop_last());
        let line = lines.last();
        if trim_end_ws(line) == "---"@ {
            (
                if trim_ws(prev.1).len() == 0 {
                    prev.0
                } else {
                    prev.0.push(prev.1)
                },
                Seq::empty(),
            )
        } else {
            (prev.0, prev.1 + line + seq!['\n'])
        }
    }
}

/// The documents of a multi-document YAML manifest: the text between `---`
/// separator lines, each line ending in `\n`, blank documents dropped.
pub open spec fn spec_split_yaml_docs(manifest: Seq<char>) -> Seq<Seq<char>> {
    let st = docs_state(lines(manifest));
    if trim_ws(st.1).len() == 0 {
        st.0
    } else {
        st.0.push(st.1)
    }
}

proof fn lemma_docs_state_shape(ls: Seq<Seq<char>>)
    ensures
        forall|k: int| 0 <= k < docs_state(ls).0.len() ==> trim_ws(#[trigger] docs_state(ls).0[k]).len() > 0
            && docs_state(ls).0[k].last() == '\n',
        docs_state(ls).1.len() == 0 || docs_state(ls).1.last() == '\n',
    decreases ls.len(),
{
    if ls.len() > 0 {
        lemma_docs_state_shape(ls.drop_last());
        let prev = docs_state(ls.drop_last());
        let cur = docs_state(ls);
        if trim_ws(prev.1).len() > 0 {
            assert(prev.1.len() > 0) by {
                if prev.1.len() == 0 {
                    assert(prev.1 == Seq::<char>::empty());
                    crate::text::lemma_trim_empty(prev.1);
                }
            }
        }
        assert forall|k: int| 0 <= k < cur.0.len() implies trim_ws(#[trigger] cur.0[k]).len() > 0 && cur.0[k].last() == '\n' by {
            if k < prev.0.len() {
                assert(cur.0[k] == prev.0[k]);
            }
        }
    }
}

/// Every document a manifest splits into is non-blank and ends its last line
/// with `\n`.
pub proof fn lemma_split_docs_nonblank(manifest: Seq<char>)
    ensures
        forall|k: int| 0 <= k < spec_split_yaml_docs(manifest).len() ==> trim_ws(#[trigger] spec_split_yaml_docs(manifest)[k]).len() > 0
            && spec_split_yaml_docs(manifest)[k].last() == '\n',
{
    let st = docs_state(lines(manifest));
    lemma_docs_state_shape(lines(manifest));
    if trim_ws(st.1).len() > 0 {
        if st.1.len() == 0 {
            assert(st.1 == Seq::<char>::empty());
            crate::text::lemma_trim_empty(st.1);
        }
        assert forall|k: int| 0 <= k < spec_split_yaml_docs(manifest).len() implies trim_ws(#[trigger] spec_split_yaml_docs(manifest)[k]).len() > 0
            && spec_split_yaml_docs(manifest)[k].last() == '\n' by {
            if k < st.0.len() {
                assert(spec_split_yaml_docs(manifest)[k] == st.0[k]);
            }
        }
    }
}

/// Splits a Helm manifest on `---` separator lines into its non-blank documents.
pub fn split_yaml_docs(manifest: &str) -> (r: Vec<String>)
    ensures
        string_views(r@) == spec_split_yaml_docs(manifest@),
{
    let chars = chars_of(manifest);
    let ls = lines_of(chars.as_slice());
    let ghost lv = views(ls@);
    let sep = chars_of("---");
    let mut docs: Vec<String> = Vec::new();
    let mut current: Vec<char> = Vec::new();
    let n = ls.len();
    for i in 0..n
        invariant
            n == ls@.len(),
            lv == views(ls@),
            sep@ == "---"@,
            (string_views(docs@), current@) == docs_state(lv.take(i as int)),
    {
        assert(lv.take(i + 1).drop_last() == lv.take(i as int));
        let line = &ls[i];
        let trimmed = trim_end_chars(line.as_slice());
        if chars_eq(trimmed.as_slice(), sep.as_slice()) {
            if !is_blank(current.as_slice()) {
                let ghost before = docs@;
                let d = string_of(current.as_slice());
                docs.push(d);
                assert(string_views(docs@) =~= string_views(before).push(current@));
            }
            current = Vec::new();
        } else {
            extend_chars(&mut current, line.as_slice());
            current.push('\n');
        }
    }
    assert(lv.take(n as int) == lv);
    if !is_blank(current.as_slice()) {
        let ghost before = docs@;
        let d = string_of(current.as_slice());
        docs.push(d);
        assert(string_views(docs@) =~= string_views(before).push(current@));
    }
    docs
}


/// One object listed in a Helm release's stored manifest, before it is
/// resolved against the catalog.
pub struct ManifestObjectRef {
    pub group: String,
    pub version: String,
    pub kind: String,
    pub name: String,
    pub namespace: Option<String>,
}

/// A manifest reference as plain values: group, version, kind, name, namespace.
pub type RefView = (Seq<char>, Seq<char>, Seq<char>, Seq<char>, Option<Seq<char>>);

pub open spec fn ref_view(r: ManifestObjectRef) -> RefView {
    (r.group@, r.version@, r.kind@, r.name@, opt_view(r.namespace))
}

pub open spec fn ref_views(v: Seq<ManifestObjectRef>) -> Seq<RefView> {
    v.map_values(|r: ManifestObjectRef| ref_view(r))
}

pub open spec fn opt_ref_view(r: Option<ManifestObjectRef>) -> Option<RefView> {
    match r {
        Some(m) => Some(ref_view(m)),
        None => None,
    }
}

/// What a manifest document says of itself when read as a Kubernetes object.
pub struct DocHeader {
    /// `apiVersion` and `kind`, present together or not at all.
    pub types: Option<(String, String)>,
    pub name: Option<String>,
    pub namespace: Option<String>,
}

/// A document header as plain values.
pub type HeaderView = (Option<(Seq<char>, Seq<char>)>, Option<Seq<char>>, Option<Seq<char>>);

pub open spec fn types_view(t: Option<(String, String)>) -> Option<(Seq<char>, Seq<char>)> {
    match t {
        Some((a, k)) => Some((a@, k@)),
        None => None,
    }
}

pub open spec fn header_view(h: DocHeader) -> HeaderView {
    (types_view(h.types), opt_view(h.name), opt_view(h.namespace))
}

/// What `serde_yaml` reads from a document as a `kube` dynamic object: its
/// type, name and namespace, or the error's message when the text does not
/// deserialize.
pub uninterp spec fn yaml_object_header(doc: Seq<char>) -> Result<(Option<(Seq<char>, Seq<char>)>, Option<Seq<char>>, Option<Seq<char>>), Seq<char>>;

/// Deserializes a document with `serde_yaml::from_str` into a
/// `kube::api::DynamicObject` and keeps its `types`, `metadata.name` and
/// `metadata.namespace`; an error becomes its message. The result depends on
/// the text alone and is named `yaml_object_header`; nothing more is claimed
/// of the parser.
#[verifier::external_body]
pub(crate) fn read_doc_header(doc: &str) -> (r: Result<DocHeader, String>)
    ensures
        match r {
            Ok(h) => yaml_object_header(doc@) == Ok::<HeaderView, Seq<char>>(header_view(h)),
            Err(e) => yaml_object_header(doc@) == Err::<HeaderView, Seq<char>>(e@),
        },
{
    match serde_yaml::from_str::<kube::api::DynamicObject>(doc) {
        Ok(o) => Ok(DocHeader {
            types: o.types.map(|t| (t.api_version, t.kind)),
            name: o.metadata.name,
            namespace: o.metadata.namespace,
        }),
        Err(e) => Err(e.to_string()),
    }
}

/// The reference a document header gives, or `None` when it lacks its type
/// or its name. `apiVersion` splits at its first `/` into group and version
/// (a core version has an empty group); a document without a namespace is in
/// the release's.
pub open spec fn spec_manifest_ref(h: HeaderView, release_namespace: Seq<char>) -> Option<RefView> {
    match (h.0, h.1) {
        (Some(types), Some(name)) => {
            let gv = match split_once(types.0, '/') {
                Some(parts) => parts,
                None => (Seq::empty(), types.0),
            };
            let ns = match h.2 {
                Some(n) => n,
                None => release_namespace,
            };
            Some((gv.0, gv.1, types.1, name, Some(ns)))
        },
        _ => None,
    }
}

/// The manifest reference of one parsed document.
pub fn manifest_object_ref(header: DocHeader, release_namespace: &str) -> (r: Option<ManifestObjectRef>)
    ensures
        opt_ref_view(r) == spec_manifest_ref(header_view(header), release_namespace@),
{
    let ghost hv = header_view(header);
    let DocHeader { types, name, namespace } = header;
    let (api_version, kind) = match types {
        Some(t) => t,
        None => return None,
    };
    let name = match name {
        Some(n) => n,
        None => return None,
    };
    let av = chars_of(api_version.as_str());
    let (group, version) = match split_once_chars(av.as_slice(), '/') {
        Some((g, v)) => (string_of(g.as_slice()), string_of(v.as_slice())),
        None => (String::new(), api_version),
    };
    let namespace = match namespace {
        Some(ns) => ns,
        None => owned(release_namespace),
    };
    Some(ManifestObjectRef { group, version, kind, name, namespace: Some(namespace) })
}

/// The references of a manifest's documents, in order: those that parse and
/// have a type and a name.
pub open spec fn manifest_refs(docs: Seq<Seq<char>>, release_namespace: Seq<char>) -> Seq<RefView>
    decreases docs.len(),
{
    if docs.len() == 0 {
        Seq::empty()
    } else {
        let prev = manifest_refs(docs.drop_last(), release_namespace);
        match yaml_object_header(docs.last()) {
            Ok(h) => match spec_manifest_ref(h, release_namespace) {
                Some(r) => prev.push(r),
                None => prev,
            },
            Err(_) => prev,
        }
    }
}

/// The objects a Helm manifest lists; documents that do not parse, or lack a
/// type or a name, are skipped.
pub fn parse_helm_manifest(manifest: &str, release_namespace: &str) -> (r: Vec<ManifestObjectRef>)
    ensures
        ref_views(r@) == manifest_refs(spec_split_yaml_docs(manifest@), release_namespace@),
{
    let docs = split_yaml_docs(manifest);
    let ghost dv = string_views(docs@);
    let mut out: Vec<ManifestObjectRef> = Vec::new();
    let n = docs.len();
    for i in 0..n
        invariant
            n == docs@.len(),
            dv == string_views(docs@),
            ref_views(out@) == manifest_refs(dv.take(i as int), release_namespace@),
    {
        assert(dv.take(i + 1).drop_last() == dv.take(i as int));
        assert(dv.take(i + 1).last() == docs@[i as int]@);
        match read_doc_header(docs[i].as_str()) {
            Ok(h) => match manifest_object_ref(h, release_namespace) {
                Some(r) => {
                    let ghost before = out@;
                    let ghost rv = ref_view(r);
                    out.push(r);
                    assert(ref_views(out@) =~= ref_views(before).push(rv));
                },
                None => {},
            },
            Err(_) => {},
        }
    }
    assert(dv.take(n as int) == dv);
    out
}


/// Largest decompressed release payload accepted, in bytes (32 MiB).
pub const MAX_HELM_RELEASE_BYTES: u64 = 33554432;

/// A byte result as plain values.
pub open spec fn bytes_result(r: Result<Vec<u8>, String>) -> Result<Seq<u8>, Seq<char>> {
    match r {
        Ok(b) => Ok(b@),
        Err(e) => Err(e@),
    }
}

/// What the standard base64 engine decodes `input` to, or its error message.
pub uninterp spec fn base64_standard_decode(input: Seq<u8>) -> Result<Seq<u8>, Seq<char>>;

/// Decodes with `base64::engine::general_purpose::STANDARD`; an error becomes
/// its message. The result depends on the input alone and is named
/// `base64_standard_decode`.
#[verifier::external_body]
fn decode_base64(input: &[u8]) -> (r: Result<Vec<u8>, String>)
    ensures
        bytes_result(r) == base64_standard_decode(input@),
{
    match base64::Engine::decode(&base64::engine::general_purpose::STANDARD, input) {
        Ok(bytes) => Ok(bytes),
        Err(e) => Err(e.to_string()),
    }
}

/// The first `cap` bytes (or fewer, at the end) that gunzipping `gz` gives,
/// or the error message of the failed read.
pub uninterp spec fn gunzip_prefix(gz: Seq<u8>, cap: nat) -> Result<Seq<u8>, Seq<char>>;

/// Reads a `flate2::read::GzDecoder` over `gz` through `std::io::Read::take(cap)`
/// to its end; an error becomes its message. The result depends on the
/// arguments alone and is named `gunzip_prefix`.
#[verifier::external_body]
fn gunzip_at_most(gz: &[u8], cap: u64) -> (r: Result<Vec<u8>, String>)
    ensures
        bytes_result(r) == gunzip_prefix(gz@, cap as nat),
{
    let mut out = Vec::new();
    let mut reader = std::io::Read::take(flate2::read::GzDecoder::new(gz), cap);
    match std::io::Read::read_to_end(&mut reader, &mut out) {
        Ok(_) => Ok(out),
        Err(e) => Err(e.to_string()),
    }
}

/// What reading `bytes` as a JSON document gives of its string member `key`:
/// the string, `None` when there is no such string, or the parse error's message.
pub uninterp spec fn json_string_member(bytes: Seq<u8>, key: Seq<char>) -> Result<Option<Seq<char>>, Seq<char>>;

pub open spec fn member_view(r: Result<Option<String>, String>) -> Result<Option<Seq<char>>, Seq<char>> {
    match r {
        Ok(m) => Ok(opt_view(m)),
        Err(e) => Err(e@),
    }
}

/// Parses `bytes` with `serde_json::from_slice` into a `serde_json::Value` and
/// reads its member `key` with `Value::get` and `Value::as_str`; a parse error
/// becomes its message. The result depends on the arguments alone and is
/// named `json_string_member`.
#[verifier::external_body]
fn read_json_string_member(bytes: &[u8], key: &str) -> (r: Result<Option<String>, String>)
    ensures
        member_view(r) == json_string_member(bytes@, key@),
{
    match serde_json::from_slice::<serde_json::Value>(bytes) {
        Ok(v) => Ok(v.get(key).and_then(serde_json::Value::as_str).map(str::to_string)),
        Err(e) => Err(e.to_string()),
    }
}

/// A decompressed payload, checked against `limit`: a failed read is reported,
/// and more than `limit` bytes is refused.
pub open spec fn spec_checked_release_size(out: Result<Seq<u8>, Seq<char>>, limit: u64) -> Result<Seq<u8>, Seq<char>> {
    match out {
        Err(e) => Err("failed to decompress Helm release secret: "@ + e),
        Ok(bytes) => if bytes.len() > limit {
            Err("decompressed Helm release exceeds "@ + decimal(limit as nat) + " byte limit"@)
        } else {
            Ok(bytes)
        },
    }
}

/// Checks what decompressing a release gave against `limit`.
pub fn checked_release_size(out: Result<Vec<u8>, String>, limit: u64) -> (r: Result<Vec<u8>, String>)
    ensures
        bytes_result(r) == spec_checked_release_size(bytes_result(out), limit),
{
    match out {
        Err(e) => {
            let mut m = owned("failed to decompress Helm release secret: ");
            m.append(e.as_str());
            Err(m)
        },
        Ok(bytes) => {
            if bytes.len() as u64 > limit {
                let mut m = chars_of("decompressed Helm release exceeds ");
                let d = chars_of(u64_to_string(limit).as_str());
                extend_chars(&mut m, d.as_slice());
                let tail = chars_of(" byte limit");
                extend_chars(&mut m, tail.as_slice());
                Err(string_of(m.as_slice()))
            } else {
                Ok(bytes)
            }
        },
    }
}

/// Gunzips a release, reading one byte past `limit` so that an oversized
/// payload is noticed without reading it whole.
pub open spec fn spec_decompress_helm_release(gz: Seq<u8>, limit: u64) -> Result<Seq<u8>, Seq<char>> {
    spec_checked_release_size(gunzip_prefix(gz, limit as nat + 1), limit)
}

/// Decompresses a Helm release payload of at most `limit` bytes.
pub fn decompress_helm_release(gz: &[u8], limit: u64) -> (r: Result<Vec<u8>, String>)
    requires
        limit < u64::MAX,
    ensures
        bytes_result(r) == spec_decompress_helm_release(gz@, limit),
{
    let out = gunzip_at_most(gz, limit + 1);
    checked_release_size(out, limit)
}

/// The manifest of a release document, from what reading its `manifest`
/// member gave.
pub open spec fn spec_release_manifest(member: Result<Option<Seq<char>>, Seq<char>>) -> Result<Seq<char>, Seq<char>> {
    match member {
        Err(e) => Err("invalid Helm release JSON: "@ + e),
        Ok(None) => Err("Helm release has no manifest"@),
        Ok(Some(m)) => Ok(m),
    }
}

/// The manifest of a release document.
pub fn release_manifest(member: Result<Option<String>, String>) -> (r: Result<String, String>)
    ensures
        result_view(r) == spec_release_manifest(member_view(member)),
{
    match member {
        Err(e) => {
            let mut m = owned("invalid Helm release JSON: ");
            m.append(e.as_str());
            Err(m)
        },
        Ok(None) => Err(owned("Helm release has no manifest")),
        Ok(Some(text)) => Ok(text),
    }
}

/// Helm stores a release as base64 of gzip of JSON; its manifest is the
/// `manifest` member.
pub open spec fn spec_decode_helm_manifest(raw: Seq<u8>) -> Result<Seq<char>, Seq<char>> {
    match base64_standard_decode(raw) {
        Err(e) => Err("invalid Helm release secret encoding: "@ + e),
        Ok(gz) => match spec_decompress_helm_release(gz, MAX_HELM_RELEASE_BYTES) {
            Err(e) => Err(e),
            Ok(bytes) => spec_release_manifest(json_string_member(bytes, "manifest"@)),
        },
    }
}

/// The manifest of a stored Helm release.
pub fn decode_helm_manifest(raw: &[u8]) -> (r: Result<String, String>)
    ensures
        result_view(r) == spec_decode_helm_manifest(raw@),
{
    let gz = match decode_base64(raw) {
        Ok(gz) => gz,
        Err(e) => {
            let mut m = owned("invalid Helm release secret encoding: ");
            m.append(e.as_str());
            return Err(m);
        },
    };
    let bytes = match decompress_helm_release(gz.as_slice(), MAX_HELM_RELEASE_BYTES) {
        Ok(b) => b,
        Err(e) => return Err(e),
    };
    let member = read_json_string_member(bytes.as_slice(), "manifest");
    release_manifest(member)
}


/// Where a release's deployed revision is stored: the namespace and name of
/// its Helm storage secret.
pub struct HelmStorage {
    pub namespace: String,
    pub secret_name: String,
}

/// The first history entry whose `status` is `deployed`.
pub open spec fn first_deployed(history: Seq<Json>) -> Option<Json>
    decreases history.len(),
{
    if history.len() == 0 {
        None
    } else if json_str(json_get(history[0], "status"@)) == Some("deployed"@) {
        Some(history[0])
    } else {
        first_deployed(history.drop_first())
    }
}

/// The integer held by an optional value (`serde_json::Value::as_i64`).
pub open spec fn json_i64(j: Option<Json>) -> Option<i64> {
    match j {
        Some(Json::Number(_, v)) => v,
        _ => None,
    }
}

/// The storage secret of a HelmRelease's deployed revision, named
/// `sh.helm.release.v1.<name>.v<version>` after the history entry, in the
/// entry's namespace; or why there is none.
pub open spec fn spec_helm_storage(hr: Json) -> Result<(Seq<char>, Seq<char>), Seq<char>> {
    let none_yet = "HelmRelease has no deployed revision yet"@;
    match json_array(json_path(hr, seq!["status"@, "history"@])) {
        None => Err(none_yet),
        Some(history) => if history.len() == 0 {
            Err(none_yet)
        } else {
            match first_deployed(history) {
                None => Err(none_yet),
                Some(d) => match json_str(json_get(d, "name"@)) {
                    None => Err("Helm release history entry missing name"@),
                    Some(name) => match json_str(json_get(d, "namespace"@)) {
                        None => Err("Helm release history entry missing namespace"@),
                        Some(ns) => match json_i64(json_get(d, "version"@)) {
                            None => Err("Helm release history entry missing version"@),
                            Some(rev) => Ok(
                                (ns, "sh.helm.release.v1."@ + name + ".v"@ + signed_decimal(rev as int)),
                            ),
                        },
                    },
                },
            }
        },
    }
}

/// Finds the first deployed entry of a release history.
fn find_deployed(history: &Vec<Json>) -> (r: Option<&Json>)
    ensures
        deref_opt(r) == first_deployed(history@),
{
    let n = history.len();
    assert(history@.skip(0) == history@);
    for i in 0..n
        invariant
            n == history@.len(),
            first_deployed(history@.skip(i as int)) == first_deployed(history@),
    {
        assert(history@.skip(i as int).drop_first() == history@.skip(i + 1));
        assert(history@.skip(i as int)[0] == history@[i as int]);
        if opt_str_is(history[i].get("status"), "deployed") {
            return Some(&history[i]);
        }
    }
    assert(history@.skip(n as int).len() == 0);
    None
}

/// Where a HelmRelease's deployed revision is stored.
pub fn helm_storage(hr: &Json) -> (r: Result<HelmStorage, String>)
    ensures
        match r {
            Ok(s) => spec_helm_storage(*hr) == Ok::<(Seq<char>, Seq<char>), Seq<char>>(
                (s.namespace@, s.secret_name@),
            ),
            Err(e) => spec_helm_storage(*hr) == Err::<(Seq<char>, Seq<char>), Seq<char>>(e@),
        },
{
    let hp = ["status", "history"];
    assert(key_views(hp@) =~= seq!["status"@, "history"@]);
    let history = match opt_array(hr.path(&hp)) {
        Some(h) => h,
        None => return Err(owned("HelmRelease has no deployed revision yet")),
    };
    if history.len() == 0 {
        return Err(owned("HelmRelease has no deployed revision yet"));
    }
    let deployed = match find_deployed(history) {
        Some(d) => d,
        None => return Err(owned("HelmRelease has no deployed revision yet")),
    };
    let name = match opt_str(deployed.get("name")) {
        Some(n) => n,
        None => return Err(owned("Helm release history entry missing name")),
    };
    let ns = match opt_str(deployed.get("namespace")) {
        Some(n) => n,
        None => return Err(owned("Helm release history entry missing namespace")),
    };
    let revision = match deployed.get("version") {
        Some(Json::Number(_, Some(v))) => *v,
        _ => return Err(owned("Helm release history entry missing version")),
    };
    let mut secret = chars_of("sh.helm.release.v1.");
    let nc = chars_of(name);
    extend_chars(&mut secret, nc.as_slice());
    let mid = chars_of(".v");
    extend_chars(&mut secret, mid.as_slice());
    let rc = chars_of(i64_to_string(revision).as_str());
    extend_chars(&mut secret, rc.as_slice());
    Ok(HelmStorage { namespace: owned(ns), secret_name: string_of(secret.as_slice()) })
}

/// The objects of a release, from what reading its storage secret gave: the
/// secret's `release` data (`None` without that key), or the read's error.
pub open spec fn spec_release_children(
    secret_name: Seq<char>,
    release_namespace: Seq<char>,
    read: Result<Option<Seq<u8>>, Seq<char>>,
) -> Result<Seq<RefView>, Seq<char>> {
    match read {
        Err(e) => Err("could not read Helm storage secret "@ + secret_name + ": "@ + e),
        Ok(None) => Err("Helm storage secret "@ + secret_name + " has no 'release' key"@),
        Ok(Some(raw)) => match spec_decode_helm_manifest(raw) {
            Err(e) => Err(e),
            Ok(m) => Ok(manifest_refs(spec_split_yaml_docs(m), release_namespace)),
        },
    }
}

pub open spec fn read_view(r: Result<Option<Vec<u8>>, String>) -> Result<Option<Seq<u8>>, Seq<char>> {
    match r {
        Ok(Some(b)) => Ok(Some(b@)),
        Ok(None) => Ok(None),
        Err(e) => Err(e@),
    }
}

/// The children of a HelmRelease: the objects of its deployed revision's
/// stored manifest, given what reading the storage secret gave.
pub fn release_children(storage: &HelmStorage, read: Result<Option<Vec<u8>>, String>) -> (r: Result<Vec<ManifestObjectRef>, String>)
    ensures
        match r {
            Ok(v) => spec_release_children(storage.secret_name@, storage.namespace@, read_view(read))
                == Ok::<Seq<RefView>, Seq<char>>(ref_views(v@)),
            Err(e) => spec_release_children(storage.secret_name@, storage.namespace@, read_view(read))
                == Err::<Seq<RefView>, Seq<char>>(e@),
        },
{
    match read {
        Err(e) => {
            let mut m = chars_of("could not read Helm storage secret ");
            let sn = chars_of(storage.secret_name.as_str());
            extend_chars(&mut m, sn.as_slice());
            let sep = chars_of(": ");
            extend_chars(&mut m, sep.as_slice());
            let ec = chars_of(e.as_str());
            extend_chars(&mut m, ec.as_slice());
            Err(string_of(m.as_slice()))
        },
        Ok(None) => {
            let mut m = chars_of("Helm storage secret ");
            let sn = chars_of(storage.secret_name.as_str());
            extend_chars(&mut m, sn.as_slice());
            let tail = chars_of(" has no 'release' key");
            extend_chars(&mut m, tail.as_slice());
            Err(string_of(m.as_slice()))
        },
        Ok(Some(raw)) => match decode_helm_manifest(raw.as_slice()) {
            Err(e) => Err(e),
            Ok(manifest) => Ok(parse_helm_manifest(manifest.as_str(), storage.namespace.as_str())),
        },
    }
}

} // verus!
