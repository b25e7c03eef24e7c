use roder_k8s::files::{
    file_command, FileOperation, CREATE_SCRIPT, DELETE_SCRIPT, FILE_TRANSFER_LIMIT, LIST_SCRIPT,
    MUTATION_OUTPUT_LIMIT, READ_SCRIPT,
};
use roder_k8s::listing::{
    container_directory, directory_entries, parse_decimal_u64, ContainerFileKind, DIRECTORY_OUTPUT_LIMIT,
    MAX_ENTRIES,
};

fn listing(entries: &[(&str, &str, &str)]) -> Vec<u8> {
    let mut out = Vec::new();
    for (kind, size, name) in entries {
        for field in [kind, size, name] {
            out.extend_from_slice(field.as_bytes());
            out.push(0);
        }
    }
    out
}

#[test]
fn directory_listing_puts_directories_first_then_names_case_insensitively() {
    let output = listing(&[
        ("f", "12", "b.txt"),
        ("d", "0", "src"),
        ("l", "0", "Alias"),
        ("f", " 7\n", "A.md"),
        ("d", "0", "Docs"),
        ("o", "0", "fifo"),
    ]);
    let entries = directory_entries(&output).unwrap();
    let names: Vec<&str> = entries.iter().map(|e| e.name.as_str()).collect();
    assert_eq!(names, vec!["Docs", "src", "A.md", "Alias", "b.txt", "fifo"]);
    assert_eq!(entries[0].kind, ContainerFileKind::Directory);
    assert_eq!(entries[2].size, 7);
    assert_eq!(entries[3].kind, ContainerFileKind::Symlink);
    assert_eq!(entries[4].size, 12);
    assert_eq!(entries[5].kind, ContainerFileKind::Other);
}

#[test]
fn directory_listing_keeps_equal_names_in_listing_order() {
    let output = listing(&[("f", "1", "readme"), ("f", "2", "README")]);
    let sizes: Vec<u64> = directory_entries(&output).unwrap().iter().map(|e| e.size).collect();
    assert_eq!(sizes, vec![1, 2]);
}

#[test]
fn directory_listing_reads_unparsable_sizes_as_zero() {
    let output = listing(&[("f", "lots", "a"), ("f", "+5", "b"), ("f", "99999999999999999999", "c")]);
    let sizes: Vec<u64> = directory_entries(&output).unwrap().iter().map(|e| e.size).collect();
    assert_eq!(sizes, vec![0, 5, 0]);
}

#[test]
fn empty_listing_is_an_empty_directory() {
    let dir = container_directory("/tmp".into(), &[]).unwrap();
    assert_eq!(dir.path, "/tmp");
    assert!(dir.entries.is_empty());
}

#[test]
fn truncated_or_unknown_entries_are_refused() {
    let truncated = directory_entries(b"f\x0012").unwrap_err();
    assert_eq!(truncated.message(), "Kubernetes API error: invalid directory response");
    let unknown = directory_entries(&listing(&[("x", "0", "what")])).unwrap_err();
    assert_eq!(unknown.message(), "Kubernetes API error: invalid file type in directory response");
}

#[test]
fn listing_more_than_the_entry_limit_is_refused() {
    let names: Vec<String> = (0..=MAX_ENTRIES).map(|i| format!("f{i}")).collect();
    let entries: Vec<(&str, &str, &str)> = names.iter().map(|n| ("f", "0", n.as_str())).collect();
    let err = directory_entries(&listing(&entries)).unwrap_err();
    assert_eq!(err.message(), "Kubernetes API error: directory contains more than 10000 entries");
    assert_eq!(directory_entries(&listing(&entries[..MAX_ENTRIES])).unwrap().len(), MAX_ENTRIES);
}

#[test]
fn decimal_sizes_follow_u64_parsing() {
    let chars = |s: &str| s.chars().collect::<Vec<char>>();
    assert_eq!(parse_decimal_u64(&chars("0")), Some(0));
    assert_eq!(parse_decimal_u64(&chars("18446744073709551615")), Some(u64::MAX));
    assert_eq!(parse_decimal_u64(&chars("18446744073709551616")), None);
    assert_eq!(parse_decimal_u64(&chars("+")), None);
    assert_eq!(parse_decimal_u64(&chars("")), None);
    assert_eq!(parse_decimal_u64(&chars("-1")), None);
}

#[test]
fn file_commands_run_their_script_on_the_normalized_path() {
    let list = file_command(FileOperation::List, "/var//log/../tmp", 0).unwrap();
    assert_eq!(list.path, "/var/tmp");
    assert_eq!(list.argv, vec!["/bin/sh", "-c", LIST_SCRIPT, "roder-files", "/var/tmp"]);
    assert_eq!(list.output_limit, DIRECTORY_OUTPUT_LIMIT);
    assert!(!list.sends_input);

    let read = file_command(FileOperation::Read, "/etc/hosts", 0).unwrap();
    assert_eq!(read.argv[2], READ_SCRIPT);
    assert_eq!(read.output_limit, 1024 * 1024 + 4096);

    let create = file_command(FileOperation::CreateDirectory, "/data/new", 0).unwrap();
    assert_eq!(create.argv, vec!["/bin/sh", "-c", CREATE_SCRIPT, "roder-files", "directory", "/data/new"]);
    assert_eq!(create.output_limit, MUTATION_OUTPUT_LIMIT);
    let file = file_command(FileOperation::CreateFile, "/data/new.txt", 0).unwrap();
    assert_eq!(file.argv[4], "file");

    let delete = file_command(FileOperation::Delete, "/data/old", 0).unwrap();
    assert_eq!(delete.argv[2], DELETE_SCRIPT);

    let write = file_command(FileOperation::Write, "/data/f", 10).unwrap();
    assert!(write.sends_input);
    let download = file_command(FileOperation::Download, "/data/f", 0).unwrap();
    assert_eq!(download.output_limit, FILE_TRANSFER_LIMIT);
}

#[test]
fn file_commands_refuse_oversized_content_roots_and_bad_paths() {
    let big = file_command(FileOperation::Upload, "relative", FILE_TRANSFER_LIMIT + 1).unwrap_err();
    assert_eq!(big.message(), "Kubernetes API error: file content exceeds the 16 MiB transfer limit");
    let root = file_command(FileOperation::Delete, "/tmp/..", 0).unwrap_err();
    assert_eq!(root.message(), "Kubernetes API error: the container root cannot be modified");
    assert!(file_command(FileOperation::List, "/", 0).is_ok());
    let bad = file_command(FileOperation::Read, "etc/hosts", 0).unwrap_err();
    assert_eq!(bad.message(), "Kubernetes API error: path must be an absolute path up to 4096 bytes");
}
