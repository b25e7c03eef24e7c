use roder_k8s::files::{normalize_file_path, normalize_mutation_path};

#[test]
fn normalizes_absolute_container_paths() {
    assert_eq!(normalize_file_path("/").ok().unwrap(), "/");
    assert_eq!(
        normalize_file_path("/var//log/./app").ok().unwrap(),
        "/var/log/app"
    );
    assert_eq!(normalize_file_path("/var/log/../../etc").ok().unwrap(), "/etc");
    assert_eq!(normalize_file_path("/../../etc").ok().unwrap(), "/etc");
}

#[test]
fn rejects_invalid_container_paths() {
    assert!(normalize_file_path("relative/path").is_err());
    assert!(normalize_file_path("/bad\0path").is_err());
    assert!(normalize_file_path(&format!("/{}", "a".repeat(4096))).is_err());
}

#[test]
fn mutations_reject_the_container_root() {
    assert!(normalize_mutation_path("/").is_err());
    assert_eq!(normalize_mutation_path("/tmp/file").ok().unwrap(), "/tmp/file");
}

#[test]
fn normalizing_twice_changes_nothing() {
    let once = normalize_file_path("/a/./b//../c/").ok().unwrap();
    assert_eq!(once, "/a/c");
    assert_eq!(normalize_file_path(&once).ok().unwrap(), once);
}

#[test]
fn path_of_exactly_4096_bytes_is_accepted() {
    let path = format!("/{}", "a".repeat(4095));
    assert_eq!(normalize_file_path(&path).ok().unwrap(), path);
}

#[test]
fn rejected_path_reports_the_api_error_message() {
    match normalize_file_path("x") {
        Err(e) => assert_eq!(
            e.message(),
            "Kubernetes API error: path must be an absolute path up to 4096 bytes"
        ),
        Ok(_) => panic!("relative path accepted"),
    }
    match normalize_mutation_path("/a/..") {
        Err(e) => assert_eq!(
            e.message(),
            "Kubernetes API error: the container root cannot be modified"
        ),
        Ok(_) => panic!("root accepted"),
    }
}
