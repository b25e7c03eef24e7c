use roder_k8s::discovery::{classify, group_base_domain, Category};
use roder_k8s::helm::split_yaml_docs;
use roder_k8s::printer_columns::{
    add_crd_columns, cols_for, crd_columns, parse_filter, parse_segment, segments, ColumnMap, CrdColumns, CrdVersion,
    PrinterCol, Sel,
};

#[test]
fn classifies_rook_api_groups_together() {
    assert_eq!(classify("ceph.rook.io", "CephCluster"), Category::Rook);
    assert_eq!(
        classify("objectbucket.io", "ObjectBucketClaim"),
        Category::Rook
    );
}

#[test]
fn classifies_cnpg_api_groups_together() {
    assert_eq!(
        classify("postgresql.cnpg.io", "Cluster"),
        Category::CloudNativePg
    );
    assert_eq!(
        classify("barmancloud.cnpg.io", "ObjectStore"),
        Category::CloudNativePg
    );
}

#[test]
fn custom_groups_are_labelled_by_base_domain() {
    assert_eq!(group_base_domain("monitoring.coreos.com"), "coreos.com");
    assert_eq!(group_base_domain("kyverno.io"), "kyverno.io");
    assert_eq!(group_base_domain("local"), "local");
    assert_eq!(
        classify("monitoring.coreos.com", "Prometheus"),
        Category::Custom("coreos.com".into())
    );
    assert_eq!(classify("", "Secret"), Category::Config);
    assert_eq!(classify("", "Node"), Category::Cluster);
    assert_eq!(classify("source.toolkit.fluxcd.io", "GitRepository"), Category::Flux);
}

#[test]
fn manifest_splits_on_separator_lines() {
    let m = "---\napiVersion: v1\nkind: ServiceAccount\nmetadata:\n  name: a\n---\n";
    assert_eq!(
        split_yaml_docs(m),
        vec!["apiVersion: v1\nkind: ServiceAccount\nmetadata:\n  name: a\n".to_string()]
    );
    assert!(split_yaml_docs("").is_empty());
    assert!(split_yaml_docs("   \n\n").is_empty());
    assert_eq!(split_yaml_docs("a\r\n--- \nb").len(), 2);
    assert_eq!(split_yaml_docs("a\r\n--- \nb")[0], "a\n");
}

#[test]
fn columns_are_found_by_group_and_kind() {
    let col = PrinterCol {
        name: "Phase".into(),
        json_path: ".status.phase".into(),
        col_type: "string".into(),
    };
    let mut map = ColumnMap::new();
    map.insert("example.io".to_string(), "Widget".to_string(), vec![col]);
    assert_eq!(cols_for(&map, "example.io", "Widget").len(), 1);
    assert_eq!(cols_for(&map, "example.io", "Gadget").len(), 0);
}

#[test]
fn path_segments_keep_filters_whole() {
    assert_eq!(
        segments(r#"status.conditions[?(@.type=="Ready")].status"#),
        vec![
            "status".to_string(),
            r#"conditions[?(@.type=="Ready")]"#.to_string(),
            "status".to_string()
        ]
    );
    assert_eq!(segments("a..b."), vec!["a".to_string(), "b".to_string()]);
}

#[test]
fn segment_selectors_are_parsed() {
    match parse_segment("ingress[0]") {
        (f, Sel::Index(0)) => assert_eq!(f, "ingress"),
        _ => panic!("index"),
    }
    match parse_segment("items[*]") {
        (f, Sel::Star) => assert_eq!(f, "items"),
        _ => panic!("star"),
    }
    match parse_segment("x[+12]") {
        (_, Sel::Index(12)) => {}
        _ => panic!("plus sign"),
    }
    match parse_segment("plain") {
        (f, Sel::Bare) => assert_eq!(f, "plain"),
        _ => panic!("bare"),
    }
    match parse_filter("?(@.type == 'Ready' )") {
        Some(Sel::Filter { key, val }) => {
            assert_eq!(key, "type");
            assert_eq!(val, "Ready");
        }
        _ => panic!("filter"),
    }
    assert!(parse_filter("?(@.type==Ready)").is_none());
    assert!(parse_filter("@.type=='Ready'").is_none());
}

fn column(name: &str) -> PrinterCol {
    PrinterCol { name: name.into(), json_path: format!(".status.{name}"), col_type: "string".into() }
}

#[test]
fn crd_columns_prefer_the_stored_version_and_drop_age() {
    let crd = CrdColumns {
        group: "example.io".into(),
        kind: "Widget".into(),
        versions: vec![
            CrdVersion { served: true, storage: false, columns: vec![column("Old")] },
            CrdVersion { served: true, storage: true, columns: vec![column("Phase"), column("AGE"), column("Ready")] },
        ],
    };
    let names: Vec<String> = crd_columns(&crd).into_iter().map(|c| c.name).collect();
    assert_eq!(names, vec!["Phase", "Ready"]);

    let served_only = CrdColumns {
        group: "example.io".into(),
        kind: "Gadget".into(),
        versions: vec![
            CrdVersion { served: false, storage: false, columns: vec![column("Hidden")] },
            CrdVersion { served: true, storage: false, columns: vec![column("Size")] },
        ],
    };
    assert_eq!(crd_columns(&served_only)[0].name, "Size");

    let mut map = ColumnMap::new();
    add_crd_columns(&mut map, &crd);
    add_crd_columns(&mut map, &CrdColumns { group: "x.io".into(), kind: "Only".into(), versions: vec![
        CrdVersion { served: true, storage: true, columns: vec![column("age")] },
    ] });
    assert_eq!(cols_for(&map, "example.io", "Widget").len(), 2);
    assert!(cols_for(&map, "x.io", "Only").is_empty());
    map.insert("example.io".into(), "Widget".into(), vec![column("Replaced")]);
    assert_eq!(cols_for(&map, "example.io", "Widget")[0].name, "Replaced");
}
