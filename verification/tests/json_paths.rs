use roder_k8s::flux::extract_source_ref;
use roder_k8s::json::Json;
use roder_k8s::printer_columns::eval;

fn s(v: &str) -> Json {
    Json::Str(v.to_string())
}

fn n(v: i64) -> Json {
    Json::Number(v.to_string(), Some(v))
}

fn obj(pairs: Vec<(&str, Json)>) -> Json {
    Json::Object(pairs.into_iter().map(|(k, v)| (k.to_string(), v)).collect())
}

fn arr(items: Vec<Json>) -> Json {
    Json::Array(items)
}

#[test]
fn dot_path() {
    let o = obj(vec![("spec", obj(vec![("secretStoreRef", obj(vec![("name", s("vault"))]))]))]);
    assert_eq!(eval(".spec.secretStoreRef.name", &o), "vault");
    assert_eq!(eval(".spec.missing.name", &o), "");
}

#[test]
fn condition_filter() {
    let o = obj(vec![(
        "status",
        obj(vec![(
            "conditions",
            arr(vec![
                obj(vec![("type", s("Synced")), ("status", s("True"))]),
                obj(vec![
                    ("type", s("Ready")),
                    ("status", s("False")),
                    ("reason", s("SecretSyncedError")),
                ]),
            ]),
        )]),
    )]);
    assert_eq!(
        eval(r#".status.conditions[?(@.type=="Ready")].status"#, &o),
        "False"
    );
    assert_eq!(
        eval(r#".status.conditions[?(@.type=='Ready')].reason"#, &o),
        "SecretSyncedError"
    );
    assert_eq!(
        eval(r#".status.conditions[?(@.type=="Missing")].status"#, &o),
        ""
    );
}

#[test]
fn array_fallback() {
    let project = |name: &str, status: &str| obj(vec![("name", s(name)), ("status", s(status))]);
    let o = obj(vec![(
        "status",
        obj(vec![(
            "projects",
            arr(vec![
                project("foo", "completed"),
                project("bar", "completed"),
                project("baz", "failed"),
            ]),
        )]),
    )]);
    assert_eq!(eval(".status.projects", &o), "3");
    assert_eq!(
        eval(".status.projects[*].status", &o),
        "completed\ncompleted\nfailed"
    );
    let o2 = obj(vec![("items", arr(vec![s("a"), s("b"), s("c")]))]);
    assert_eq!(eval(".items", &o2), "a\nb\nc");
}

#[test]
fn index_star_and_scalars() {
    let o = obj(vec![
        (
            "status",
            obj(vec![(
                "loadBalancer",
                obj(vec![(
                    "ingress",
                    arr(vec![obj(vec![("ip", s("10.0.0.1"))]), obj(vec![("ip", s("10.0.0.2"))])]),
                )]),
            )]),
        ),
        ("spec", obj(vec![("replicas", n(3)), ("paused", Json::Bool(true))])),
    ]);
    assert_eq!(eval(".status.loadBalancer.ingress[0].ip", &o), "10.0.0.1");
    assert_eq!(
        eval(".status.loadBalancer.ingress[*].ip", &o),
        "10.0.0.1\n10.0.0.2"
    );
    assert_eq!(eval(".spec.replicas", &o), "3");
    assert_eq!(eval(".spec.paused", &o), "true");
}

#[test]
fn numeric_filter_matches_rendered_number() {
    let o = obj(vec![(
        "ports",
        arr(vec![
            obj(vec![("port", n(8080)), ("name", s("http"))]),
            obj(vec![("port", n(9090)), ("name", s("metrics"))]),
        ]),
    )]);
    assert_eq!(eval(".ports[?(@.port==\"8080\")].name", &o), "http");
    assert_eq!(eval(".ports[5].name", &o), "");
    assert_eq!(eval(".ports", &o), "2");
    assert_eq!(eval("", &o), "");
}

#[test]
fn backend_kustomization_source_ref() {
    let spec = obj(vec![("sourceRef", obj(vec![("kind", s("GitRepository")), ("name", s("flux-system"))]))]);
    let sr = extract_source_ref(&spec).expect("source ref");
    assert_eq!(sr.kind, "GitRepository");
    assert_eq!(sr.name, "flux-system");
    assert_eq!(sr.namespace, None);
}

#[test]
fn flux_kustomization_source_ref() {
    backend_kustomization_source_ref();
}

#[test]
fn backend_kustomization_source_ref_with_namespace() {
    let spec = obj(vec![(
        "sourceRef",
        obj(vec![("kind", s("GitRepository")), ("name", s("podinfo")), ("namespace", s("apps"))]),
    )]);
    let sr = extract_source_ref(&spec).expect("source ref");
    assert_eq!(sr.namespace.as_deref(), Some("apps"));
}

#[test]
fn flux_kustomization_source_ref_with_namespace() {
    backend_kustomization_source_ref_with_namespace();
}

#[test]
fn backend_helmrelease_templated_chart_source_ref() {
    let spec = obj(vec![(
        "chart",
        obj(vec![(
            "spec",
            obj(vec![
                ("chart", s("podinfo")),
                ("sourceRef", obj(vec![("kind", s("HelmRepository")), ("name", s("podinfo"))])),
            ]),
        )]),
    )]);
    let sr = extract_source_ref(&spec).expect("source ref");
    assert_eq!(sr.kind, "HelmRepository");
    assert_eq!(sr.name, "podinfo");
}

#[test]
fn flux_helmrelease_templated_chart_source_ref() {
    backend_helmrelease_templated_chart_source_ref();
}

#[test]
fn backend_helmrelease_direct_chart_ref() {
    let spec = obj(vec![("chartRef", obj(vec![("kind", s("OCIRepository")), ("name", s("podinfo"))]))]);
    let sr = extract_source_ref(&spec).expect("source ref");
    assert_eq!(sr.kind, "OCIRepository");
    assert_eq!(sr.name, "podinfo");
}

#[test]
fn flux_helmrelease_direct_chart_ref() {
    backend_helmrelease_direct_chart_ref();
}

#[test]
fn backend_prefers_source_ref_over_chart_ref_when_both_present() {
    let spec = obj(vec![
        ("sourceRef", obj(vec![("kind", s("GitRepository")), ("name", s("a"))])),
        ("chartRef", obj(vec![("kind", s("OCIRepository")), ("name", s("b"))])),
    ]);
    let sr = extract_source_ref(&spec).expect("source ref");
    assert_eq!(sr.kind, "GitRepository");
}

#[test]
fn flux_prefers_source_ref_over_chart_ref_when_both_present() {
    backend_prefers_source_ref_over_chart_ref_when_both_present();
}

#[test]
fn backend_none_when_no_source_ref_present() {
    let spec = obj(vec![("suspend", Json::Bool(false))]);
    assert!(extract_source_ref(&spec).is_none());
}

#[test]
fn flux_none_when_no_source_ref_present() {
    backend_none_when_no_source_ref_present();
}

#[test]
fn backend_none_when_source_ref_missing_required_fields() {
    let spec = obj(vec![("sourceRef", obj(vec![("kind", s("GitRepository"))]))]);
    assert!(extract_source_ref(&spec).is_none());
}

#[test]
fn flux_none_when_source_ref_missing_required_fields() {
    backend_none_when_source_ref_missing_required_fields();
}
