use roder_k8s::cnpg::{
    backup_namespace, backup_template, build_backup, suspend_namespace, suspend_patch,
};
use roder_k8s::json::Json;
use serde_json::Value;

fn to_json(v: &Value) -> Json {
    match v {
        Value::Null => Json::Null,
        Value::Bool(b) => Json::Bool(*b),
        Value::Number(n) => Json::Number(n.to_string(), n.as_i64()),
        Value::String(s) => Json::Str(s.clone()),
        Value::Array(a) => Json::Array(a.iter().map(to_json).collect()),
        Value::Object(m) => Json::Object(m.iter().map(|(k, v)| (k.clone(), to_json(v))).collect()),
    }
}

fn to_value(j: &Json) -> Value {
    match j {
        Json::Null => Value::Null,
        Json::Bool(b) => Value::Bool(*b),
        Json::Number(text, _) => serde_json::from_str(text).unwrap(),
        Json::Str(s) => Value::String(s.clone()),
        Json::Array(a) => Value::Array(a.iter().map(to_value).collect()),
        Json::Object(m) => {
            Value::Object(m.iter().map(|(k, v)| (k.clone(), to_value(v))).collect())
        }
    }
}

fn value(text: &str) -> Value {
    serde_json::from_str(text).unwrap()
}

fn parse(text: &str) -> Json {
    to_json(&value(text))
}

fn backup(cluster_name: &str, cluster: &str, schedules: &[&str]) -> Value {
    let schedules: Vec<Json> = schedules.iter().map(|s| parse(s)).collect();
    to_value(
        &build_backup("postgresql.cnpg.io", "v1", "database", cluster_name, &parse(cluster), &schedules)
            .unwrap(),
    )
}

#[test]
fn manual_backup_references_the_cluster_and_uses_a_bounded_generated_name() {
    let cluster_name = format!("{}!", "Database".repeat(20));
    let backup = backup(
        &cluster_name,
        r#"{"spec": { "backup": { "barmanObjectStore": { "destinationPath": "s3://db" } } }}"#,
        &[],
    );

    assert_eq!(backup["apiVersion"], "postgresql.cnpg.io/v1");
    assert_eq!(backup["kind"], "Backup");
    assert_eq!(backup["metadata"]["namespace"], "database");
    assert_eq!(backup["spec"]["cluster"]["name"], cluster_name);
    assert_eq!(backup["spec"]["method"], "barmanObjectStore");
    let generate_name = backup["metadata"]["generateName"].as_str().unwrap();
    assert!(generate_name.ends_with("-manual-"));
    assert!(generate_name.len() <= 56);
}

#[test]
fn manual_backup_copies_the_scheduled_plugin_configuration() {
    let schedule = r#"{
        "metadata": { "annotations": {
            "backup.cnpg.io/volumeSnapshotDeadline": "30m",
            "unrelated.example.io/owner": "gitops"
        } },
        "spec": {
            "cluster": { "name": "postgres" },
            "method": "plugin",
            "pluginConfiguration": {
                "name": "barman-cloud.cloudnative-pg.io",
                "parameters": { "barmanObjectName": "garage-store" }
            }
        }
    }"#;
    let backup = backup("postgres", r#"{ "spec": {} }"#, &[schedule]);

    assert_eq!(backup["spec"]["method"], "plugin");
    assert_eq!(
        backup["spec"]["pluginConfiguration"],
        value(
            r#"{
                "name": "barman-cloud.cloudnative-pg.io",
                "parameters": { "barmanObjectName": "garage-store" }
            }"#
        )
    );
    assert_eq!(
        backup["metadata"]["annotations"],
        value(r#"{ "backup.cnpg.io/volumeSnapshotDeadline": "30m" }"#)
    );
}

#[test]
fn manual_backup_rejects_clusters_without_backup_configuration() {
    let result =
        build_backup("postgresql.cnpg.io", "v1", "database", "postgres", &parse(r#"{ "spec": {} }"#), &[]);

    assert!(result.is_err());
}

#[test]
fn manual_backup_does_not_infer_method_from_wal_archiver_plugin() {
    let cluster = r#"{
        "spec": {
            "backup": { "volumeSnapshot": { "online": true } },
            "plugins": [{
                "enabled": true,
                "isWALArchiver": true,
                "name": "wal-only.example.io"
            }]
        }
    }"#;
    let backup = backup("postgres", cluster, &[]);

    assert_eq!(backup["spec"]["method"], "volumeSnapshot");
}

#[test]
fn equivalent_schedule_defaults_do_not_create_an_ambiguity() {
    let cluster = r#"{ "spec": { "backup": { "target": "primary" } } }"#;
    let schedules = [
        r#"{ "spec": {
            "cluster": { "name": "postgres" },
            "method": "barmanObjectStore"
        } }"#,
        r#"{ "spec": {
            "cluster": { "name": "postgres" },
            "method": "barmanObjectStore",
            "target": "primary"
        } }"#,
    ];

    let backup = backup("postgres", cluster, &schedules);

    assert_eq!(backup["spec"]["target"], "primary");
}

#[test]
fn equivalent_volume_snapshot_defaults_do_not_create_an_ambiguity() {
    let schedules = [
        r#"{ "spec": {
            "cluster": { "name": "postgres" },
            "method": "volumeSnapshot"
        } }"#,
        r#"{
            "metadata": { "annotations": {
                "backup.cnpg.io/volumeSnapshotDeadline": "10"
            } },
            "spec": {
                "cluster": { "name": "postgres" },
                "method": "volumeSnapshot",
                "online": true,
                "onlineConfiguration": {
                    "waitForArchive": true,
                    "immediateCheckpoint": false
                }
            }
        }"#,
    ];

    let backup = backup("postgres", r#"{ "spec": {} }"#, &schedules);

    assert_eq!(backup["spec"]["online"], true);
    assert_eq!(backup["spec"]["onlineConfiguration"]["waitForArchive"], true);
    assert_eq!(
        backup["metadata"]["annotations"]["backup.cnpg.io/volumeSnapshotDeadline"],
        "10"
    );
}

#[test]
fn scheduled_online_configuration_replaces_cluster_configuration() {
    let cluster = r#"{ "spec": { "backup": { "volumeSnapshot": {
        "onlineConfiguration": { "immediateCheckpoint": true }
    } } } }"#;
    let schedule = r#"{ "spec": {
        "cluster": { "name": "postgres" },
        "method": "volumeSnapshot",
        "onlineConfiguration": { "waitForArchive": false }
    } }"#;

    let backup = backup("postgres", cluster, &[schedule]);

    assert_eq!(backup["spec"]["onlineConfiguration"]["waitForArchive"], false);
    assert_eq!(backup["spec"]["onlineConfiguration"]["immediateCheckpoint"], false);
}

#[test]
fn differing_schedules_are_ambiguous() {
    let schedules: Vec<Json> = [
        r#"{ "spec": { "cluster": { "name": "postgres" }, "method": "barmanObjectStore" } }"#,
        r#"{ "spec": { "cluster": { "name": "postgres" }, "method": "volumeSnapshot" } }"#,
        r#"{ "spec": { "cluster": { "name": "other" }, "method": "plugin" } }"#,
    ]
    .iter()
    .map(|s| parse(s))
    .collect();
    let error = backup_template("postgres", &parse(r#"{"spec": {}}"#), &schedules).err().unwrap();
    assert_eq!(
        error.message(),
        "Kubernetes API error: CNPG Cluster has ScheduledBackups with different backup configurations"
    );
}

#[test]
fn plugin_schedules_need_a_plugin_configuration() {
    let schedules = vec![parse(
        r#"{ "spec": { "cluster": { "name": "postgres" }, "method": "plugin" } }"#,
    )];
    let error = backup_template("postgres", &parse("{}"), &schedules).err().unwrap();
    assert_eq!(
        error.message(),
        "Kubernetes API error: CNPG plugin ScheduledBackup has no plugin configuration"
    );
}

#[test]
fn clusters_with_two_methods_need_a_schedule_to_choose() {
    let cluster = parse(r#"{"spec": {"backup": {"barmanObjectStore": {}, "volumeSnapshot": {}}}}"#);
    let error = backup_template("postgres", &cluster, &[]).err().unwrap();
    assert_eq!(
        error.message(),
        "Kubernetes API error: CNPG Cluster has multiple backup methods and no ScheduledBackup selects one"
    );
}

#[test]
fn backup_and_suspend_requests_are_checked() {
    assert_eq!(backup_namespace("postgresql.cnpg.io", "Cluster", Some("db")).unwrap(), "db");
    assert_eq!(
        backup_namespace("postgresql.cnpg.io", "Backup", Some("db")).unwrap_err().message(),
        "Kubernetes API error: CNPG backups require a Cluster target"
    );
    assert_eq!(
        backup_namespace("postgresql.cnpg.io", "Cluster", Some("")).unwrap_err().message(),
        "Kubernetes API error: CNPG Cluster backup requires a namespace"
    );
    assert_eq!(
        suspend_namespace("postgresql.cnpg.io", "ScheduledBackup", None).unwrap_err().message(),
        "Kubernetes API error: CNPG ScheduledBackup requires a namespace"
    );
    assert_eq!(to_value(&suspend_patch(true)), value(r#"{"spec": {"suspend": true}}"#));
}
