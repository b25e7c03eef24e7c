//! CloudNativePG on-demand backups: which backup configuration a Cluster's
//! ScheduledBackups agree on, and the `Backup` object that starts one.
//!
//! Objects here keep their members ordered by key, as `serde_json`'s maps do,
//! so that two configurations are equal exactly when their members are.
use vstd::prelude::*;

use crate::error::{api_err, is_api_error, K8sError};
use crate::json::{
    clone_json, copy_members, get_member, json_get, json_path, json_same, json_str, jv, jv_opt,
    jvm, key_views, lemma_get_jv, lemma_jvm, lemma_jvm_push, member, members_same, opt_str_is, or_insert,
    or_insert_member, str_value, deref_opt, Json, JsonV, MembersV,
};
use crate::mutations::{name_base, some_view, spec_name_base};
use crate::text::{chars_of, extend_chars, owned, starts_with, str_eq, str_starts_with, string_of};

verus! {

/// What a backup is taken with: the `Backup` spec and the annotations the
/// `Backup` carries.
pub struct BackupTemplate {
    pub spec: Json,
    pub annotations: Vec<(String, Json)>,
}

/// A backup template as mathematical values.
pub type TemplateView = (JsonV, MembersV);

pub open spec fn template_view(t: BackupTemplate) -> TemplateView {
    (jv(t.spec), jvm(t.annotations@))
}

pub open spec fn template_views(v: Seq<BackupTemplate>) -> Seq<TemplateView> {
    v.map_values(|t: BackupTemplate| template_view(t))
}

/// The members whose key starts with `prefix`, in order.
pub open spec fn prefixed_members(es: MembersV, prefix: Seq<char>) -> MembersV
    decreases es.len(),
{
    if es.len() == 0 {
        Seq::empty()
    } else {
        let prev = prefixed_members(es.drop_last(), prefix);
        if starts_with(es.last().0, prefix) {
            prev.push(es.last())
        } else {
            prev
        }
    }
}

/// A ScheduledBackup's `backup.cnpg.io/` annotations.
pub open spec fn backup_annotations(schedule: Json) -> MembersV {
    match jv_opt(json_path(schedule, seq!["metadata"@, "annotations"@])) {
        Some(JsonV::Object(es)) => prefixed_members(es, "backup.cnpg.io/"@),
        _ => Seq::empty(),
    }
}

/// The value at `path` in the Cluster, if any.
pub open spec fn cluster_at(cluster: Json, path: Seq<Seq<char>>) -> Option<JsonV> {
    jv_opt(json_path(cluster, path))
}

/// The backup a ScheduledBackup takes of cluster `cluster_name`: its method
/// (`barmanObjectStore` by default; `plugin` only with a plugin
/// configuration), its target (else the Cluster's, else `prefer-standby`),
/// its plugin configuration, and its `backup.cnpg.io/` annotations. A volume
/// snapshot also takes `online` (else the Cluster's, else `true`) and an
/// online configuration (the schedule's, else the Cluster's, else empty)
/// that waits for the WAL archive and does not force an immediate checkpoint
/// unless it says otherwise, and a snapshot deadline annotation of 10 minutes
/// unless the schedule sets one.
pub open spec fn spec_template_from_schedule(cluster_name: Seq<char>, cluster: Json, schedule: Json) -> Result<TemplateView, Seq<char>> {
    match json_get(schedule, "spec"@) {
        Some(Json::Object(src_entries)) => {
            let src = jvm(src_entries@);
            let method = match member(src, "method"@) {
                Some(JsonV::Str(m)) => m,
                _ => "barmanObjectStore"@,
            };
            let plugin = member(src, "pluginConfiguration"@);
            if method == "plugin"@ && plugin is None {
                Err("CNPG plugin ScheduledBackup has no plugin configuration"@)
            } else {
                let target = match member(src, "target"@) {
                    Some(t) => t,
                    None => match cluster_at(cluster, seq!["spec"@, "backup"@, "target"@]) {
                        Some(t) => t,
                        None => JsonV::Str("prefer-standby"@),
                    },
                };
                let head = seq![
                    ("cluster"@, JsonV::Object(seq![("name"@, JsonV::Str(cluster_name))])),
                    ("method"@, JsonV::Str(method)),
                ];
                let plugin_part = match plugin {
                    Some(p) => seq![("pluginConfiguration"@, p)],
                    None => Seq::empty(),
                };
                let tail = plugin_part.push(("target"@, target));
                let annotations = backup_annotations(schedule);
                if method == "volumeSnapshot"@ {
                    let online = match member(src, "online"@) {
                        Some(v) => v,
                        None => match cluster_at(cluster, seq!["spec"@, "backup"@, "volumeSnapshot"@, "online"@]) {
                            Some(v) => v,
                            None => JsonV::Bool(true),
                        },
                    };
                    let configured = match member(src, "onlineConfiguration"@) {
                        Some(JsonV::Object(o)) => o,
                        _ => match cluster_at(
                            cluster,
                            seq!["spec"@, "backup"@, "volumeSnapshot"@, "onlineConfiguration"@],
                        ) {
                            Some(JsonV::Object(o)) => o,
                            _ => Seq::empty(),
                        },
                    };
                    let online_configuration = or_insert(
                        or_insert(configured, "waitForArchive"@, JsonV::Bool(true)),
                        "immediateCheckpoint"@,
                        JsonV::Bool(false),
                    );
                    let snapshot_part = seq![
                        ("online"@, online),
                        ("onlineConfiguration"@, JsonV::Object(online_configuration)),
                    ];
                    Ok(
                        (
                            JsonV::Object(head + snapshot_part + tail),
                            or_insert(annotations, "backup.cnpg.io/volumeSnapshotDeadline"@, JsonV::Str("10"@)),
                        ),
                    )
                } else {
                    Ok((JsonV::Object(head + tail), annotations))
                }
            }
        },
        _ => Err("CNPG ScheduledBackup has no specification"@),
    }
}

/// `r` is what `spec` says: the same template, or an API error with its message.
pub open spec fn template_outcome(r: Result<BackupTemplate, K8sError>, spec: Result<TemplateView, Seq<char>>) -> bool {
    match r {
        Ok(t) => spec == Ok::<TemplateView, Seq<char>>(template_view(t)),
        Err(e) => match spec {
            Err(m) => is_api_error(e, m),
            Ok(_) => false,
        },
    }
}

/// The members of `es` whose key starts with `prefix`.
fn copy_prefixed(es: &Vec<(String, Json)>, prefix: &str) -> (r: Vec<(String, Json)>)
    ensures
        jvm(r@) == prefixed_members(jvm(es@), prefix@),
{
    let mut out: Vec<(String, Json)> = Vec::new();
    let n = es.len();
    for i in 0..n
        invariant
            n == es@.len(),
            jvm(out@) == prefixed_members(jvm(es@.take(i as int)), prefix@),
    {
        assert(es@.take(i + 1).drop_last() == es@.take(i as int));
        assert(es@.take(i + 1).last() == es@[i as int]);
        let ghost step = jvm(es@.take(i as int)).push((es@[i as int].0@, jv(es@[i as int].1)));
        assert(jvm(es@.take(i + 1)) == step);
        assert(step.drop_last() == jvm(es@.take(i as int)));
        if str_starts_with(es[i].0.as_str(), prefix) {
            let c = clone_json(&es[i].1);
            let k = owned(es[i].0.as_str());
            let ghost before = out@;
            out.push((k, c));
            assert(out@.drop_last() == before);
        }
    }
    assert(es@.take(n as int) == es@);
    out
}

/// A copy of the value at `path` in `j`, if any.
fn copy_at(j: &Json, path: &[&str]) -> (r: Option<Json>)
    ensures
        match r {
            Some(v) => jv_opt(json_path(*j, key_views(path@))) == Some(jv(v)),
            None => json_path(*j, key_views(path@)) is None,
        },
{
    match j.path(path) {
        Some(v) => Some(clone_json(v)),
        None => None,
    }
}

/// The backup a ScheduledBackup takes of cluster `cluster_name`.
pub fn backup_template_from_schedule(cluster_name: &str, cluster: &Json, schedule: &Json) -> (r: Result<BackupTemplate, K8sError>)
    ensures
        template_outcome(r, spec_template_from_schedule(cluster_name@, *cluster, *schedule)),
{
    let source = match schedule.get("spec") {
        Some(Json::Object(es)) => es,
        _ => return Err(api_err("CNPG ScheduledBackup has no specification")),
    };
    let ghost src = jvm(source@);
    let method_value = get_member(source, "method");
    let method: &str = match method_value {
        Some(Json::Str(m)) => m.as_str(),
        _ => "barmanObjectStore",
    };
    let plugin = get_member(source, "pluginConfiguration");
    let is_plugin = str_eq(method, "plugin");
    if is_plugin && plugin.is_none() {
        return Err(api_err("CNPG plugin ScheduledBackup has no plugin configuration"));
    }
    let tp = ["spec", "backup", "target"];
    assert(key_views(tp@) =~= seq!["spec"@, "backup"@, "target"@]);
    let target = match get_member(source, "target") {
        Some(t) => clone_json(t),
        None => match copy_at(cluster, &tp) {
            Some(t) => t,
            None => str_value("prefer-standby"),
        },
    };
    let cluster_ref = vec![(owned("name"), str_value(cluster_name))];
    proof {
        lemma_jvm(cluster_ref@);
        assert(jvm(cluster_ref@) =~= seq![("name"@, JsonV::Str(cluster_name@))]);
    }
    let mut spec: Vec<(String, Json)> = vec![
        (owned("cluster"), Json::Object(cluster_ref)),
        (owned("method"), str_value(method)),
    ];
    proof {
        lemma_jvm(spec@);
    }
    let ghost head = seq![
        ("cluster"@, JsonV::Object(seq![("name"@, JsonV::Str(cluster_name@))])),
        ("method"@, JsonV::Str(method@)),
    ];
    assert(jvm(spec@) =~= head);
    let ap = ["metadata", "annotations"];
    assert(key_views(ap@) =~= seq!["metadata"@, "annotations"@]);
    let mut annotations = match schedule.path(&ap) {
        Some(Json::Object(es)) => copy_prefixed(es, "backup.cnpg.io/"),
        _ => Vec::new(),
    };
    assert(jvm(annotations@) == backup_annotations(*schedule));
    let ghost annotations0 = jvm(annotations@);
    let ghost mut snapshot_part: MembersV = Seq::empty();
    let snapshot = str_eq(method, "volumeSnapshot");
    if snapshot {
        let op = ["spec", "backup", "volumeSnapshot", "online"];
        assert(key_views(op@) =~= seq!["spec"@, "backup"@, "volumeSnapshot"@, "online"@]);
        let online = match get_member(source, "online") {
            Some(v) => clone_json(v),
            None => match copy_at(cluster, &op) {
                Some(v) => v,
                None => Json::Bool(true),
            },
        };
        let cp = ["spec", "backup", "volumeSnapshot", "onlineConfiguration"];
        assert(key_views(cp@) =~= seq!["spec"@, "backup"@, "volumeSnapshot"@, "onlineConfiguration"@]);
        let mut configuration = match get_member(source, "onlineConfiguration") {
            Some(Json::Object(o)) => copy_members(o),
            _ => match cluster.path(&cp) {
                Some(Json::Object(o)) => copy_members(o),
                _ => Vec::new(),
            },
        };
        or_insert_member(&mut configuration, "waitForArchive", Json::Bool(true));
        or_insert_member(&mut configuration, "immediateCheckpoint", Json::Bool(false));
        let ghost before = spec@;
        let ghost online_v = jv(online);
        let ghost conf_v = jvm(configuration@);
        spec.push((owned("online"), online));
        proof {
            lemma_jvm_push(before, spec@.last());
            assert(spec@.drop_last() =~= before);
        }
        let ghost before2 = spec@;
        spec.push((owned("onlineConfiguration"), Json::Object(configuration)));
        proof {
            lemma_jvm_push(before2, spec@.last());
            assert(spec@.drop_last() =~= before2);
            snapshot_part = seq![("online"@, online_v), ("onlineConfiguration"@, JsonV::Object(conf_v))];
            assert(jvm(spec@) =~= head + snapshot_part);
        }
        or_insert_member(&mut annotations, "backup.cnpg.io/volumeSnapshotDeadline", str_value("10"));
    }
    let ghost mid = jvm(spec@);
    let ghost mut plugin_part: MembersV = Seq::empty();
    if let Some(p) = plugin {
        let ghost before = spec@;
        spec.push((owned("pluginConfiguration"), clone_json(p)));
        proof {
            lemma_jvm_push(before, spec@.last());
            assert(spec@.drop_last() =~= before);
            plugin_part = seq![("pluginConfiguration"@, jv(*p))];
        }
    }
    assert(jvm(spec@) =~= mid + plugin_part);
    let ghost before = spec@;
    let ghost target_v = jv(target);
    spec.push((owned("target"), target));
    proof {
        lemma_jvm_push(before, spec@.last());
        assert(spec@.drop_last() =~= before);
        assert(jvm(spec@) =~= head + snapshot_part + plugin_part.push(("target"@, target_v)));
    }
    Ok(BackupTemplate { spec: Json::Object(spec), annotations })
}


/// A ScheduledBackup of cluster `cluster_name`.
pub open spec fn schedules_cluster(schedule: Json, cluster_name: Seq<char>) -> bool {
    json_str(json_path(schedule, seq!["spec"@, "cluster"@, "name"@])) == Some(cluster_name)
}

/// The distinct backup templates of the ScheduledBackups of cluster
/// `cluster_name`, in order of first appearance, or the first schedule's
/// refusal.
pub open spec fn collect_templates(cluster_name: Seq<char>, cluster: Json, schedules: Seq<Json>) -> Result<Seq<TemplateView>, Seq<char>>
    decreases schedules.len(),
{
    if schedules.len() == 0 {
        Ok(Seq::empty())
    } else {
        match collect_templates(cluster_name, cluster, schedules.drop_last()) {
            Err(e) => Err(e),
            Ok(ts) => if schedules_cluster(schedules.last(), cluster_name) {
                match spec_template_from_schedule(cluster_name, cluster, schedules.last()) {
                    Err(e) => Err(e),
                    Ok(t) => Ok(if ts.contains(t) { ts } else { ts.push(t) }),
                }
            } else {
                Ok(ts)
            },
        }
    }
}

/// Some ScheduledBackup of cluster `cluster_name` among `schedules` gives
/// template `t`.
pub open spec fn template_of_some_schedule(cluster_name: Seq<char>, cluster: Json, schedules: Seq<Json>, t: TemplateView) -> bool {
    exists|i: int|
        0 <= i < schedules.len() && schedules_cluster(#[trigger] schedules[i], cluster_name)
            && spec_template_from_schedule(cluster_name, cluster, schedules[i]) == Ok::<TemplateView, Seq<char>>(t)
}

/// The templates collected for a cluster are distinct; each is the template
/// of one of its ScheduledBackups, and every one of its ScheduledBackups gives
/// one of them.
pub proof fn lemma_collected_templates(cluster_name: Seq<char>, cluster: Json, schedules: Seq<Json>)
    requires
        collect_templates(cluster_name, cluster, schedules) is Ok,
    ensures
        collect_templates(cluster_name, cluster, schedules)->Ok_0.no_duplicates(),
        forall|i: int| 0 <= i < schedules.len() && schedules_cluster(#[trigger] schedules[i], cluster_name)
            ==> spec_template_from_schedule(cluster_name, cluster, schedules[i]) is Ok
                && collect_templates(cluster_name, cluster, schedules)->Ok_0.contains(
                    spec_template_from_schedule(cluster_name, cluster, schedules[i])->Ok_0),
        forall|k: int| 0 <= k < collect_templates(cluster_name, cluster, schedules)->Ok_0.len() ==> template_of_some_schedule(
            cluster_name,
            cluster,
            schedules,
            #[trigger] collect_templates(cluster_name, cluster, schedules)->Ok_0[k],
        ),
    decreases schedules.len(),
{
    if schedules.len() > 0 {
        let pre = schedules.drop_last();
        let n = schedules.len() - 1;
        lemma_collected_templates(cluster_name, cluster, pre);
        let prev = collect_templates(cluster_name, cluster, pre)->Ok_0;
        let ts = collect_templates(cluster_name, cluster, schedules)->Ok_0;
        assert forall|i: int| 0 <= i < n implies #[trigger] schedules[i] == pre[i] by {}
        assert forall|x: int, y: int| 0 <= x < ts.len() && 0 <= y < ts.len() && x != y implies ts[x] != ts[y] by {
            if ts != prev && (x == prev.len() || y == prev.len()) {
                if x == prev.len() {
                    assert(prev.contains(ts[y]) ==> ts[x] != ts[y]);
                    assert(ts[y] == prev[y]);
                } else {
                    assert(ts[x] == prev[x]);
                }
            } else {
                assert(ts[x] == prev[x] && ts[y] == prev[y]);
            }
        }
        assert forall|i: int| 0 <= i < schedules.len() && schedules_cluster(#[trigger] schedules[i], cluster_name)
            implies spec_template_from_schedule(cluster_name, cluster, schedules[i]) is Ok
                && ts.contains(spec_template_from_schedule(cluster_name, cluster, schedules[i])->Ok_0) by {
            if i < n {
                assert(schedules_cluster(pre[i], cluster_name));
                let t = spec_template_from_schedule(cluster_name, cluster, pre[i])->Ok_0;
                let k = choose|k: int| 0 <= k < prev.len() && prev[k] == t;
                if ts != prev {
                    assert(ts[k] == t);
                }
            } else {
                let t = spec_template_from_schedule(cluster_name, cluster, schedules[i])->Ok_0;
                if !prev.contains(t) {
                    assert(ts[prev.len() as int] == t);
                }
            }
        }
        assert forall|k: int| 0 <= k < ts.len() implies template_of_some_schedule(cluster_name, cluster, schedules, #[trigger] ts[k]) by {
            if k < prev.len() {
                assert(ts[k] == prev[k]);
                assert(template_of_some_schedule(cluster_name, cluster, pre, prev[k]));
                let i = choose|i: int| 0 <= i < pre.len()
                    && schedules_cluster(#[trigger] pre[i], cluster_name)
                    && spec_template_from_schedule(cluster_name, cluster, pre[i]) == Ok::<TemplateView, Seq<char>>(prev[k]);
                assert(schedules[i] == pre[i]);
            } else {
                let t = spec_template_from_schedule(cluster_name, cluster, schedules[n])->Ok_0;
                assert(schedules_cluster(schedules[n], cluster_name));
                assert(ts == prev.push(t));
                assert(ts[k] == t);
            }
        }
    }
}

/// On-demand backups follow the ScheduledBackups: when the cluster's
/// ScheduledBackups all give one template, that is the backup; when two of
/// them give different templates, the backup is refused.
pub proof fn lemma_backup_template_follows_schedules(
    cluster_name: Seq<char>,
    cluster: Json,
    schedules: Seq<Json>,
    i: int,
    j: int,
)
    requires
        collect_templates(cluster_name, cluster, schedules) is Ok,
        0 <= i < schedules.len(),
        0 <= j < schedules.len(),
        schedules_cluster(schedules[i], cluster_name),
        schedules_cluster(schedules[j], cluster_name),
    ensures
        spec_template_from_schedule(cluster_name, cluster, schedules[i])
            != spec_template_from_schedule(cluster_name, cluster, schedules[j])
            ==> spec_backup_template(cluster_name, cluster, schedules) is Err,
        (forall|k: int| 0 <= k < schedules.len() && schedules_cluster(#[trigger] schedules[k], cluster_name)
            ==> spec_template_from_schedule(cluster_name, cluster, schedules[k])
                == spec_template_from_schedule(cluster_name, cluster, schedules[i]))
            ==> spec_backup_template(cluster_name, cluster, schedules)
                == spec_template_from_schedule(cluster_name, cluster, schedules[i]),
{
    lemma_collected_templates(cluster_name, cluster, schedules);
    let ts = collect_templates(cluster_name, cluster, schedules)->Ok_0;
    let ti = spec_template_from_schedule(cluster_name, cluster, schedules[i]);
    let tj = spec_template_from_schedule(cluster_name, cluster, schedules[j]);
    assert(schedules_cluster(schedules[i], cluster_name));
    assert(schedules_cluster(schedules[j], cluster_name));
    let a = choose|a: int| 0 <= a < ts.len() && ts[a] == ti->Ok_0;
    let b = choose|b: int| 0 <= b < ts.len() && ts[b] == tj->Ok_0;
    if ti != tj {
        assert(a != b);
        assert(ts.len() > 1);
    }
    if forall|k: int| 0 <= k < schedules.len() && schedules_cluster(#[trigger] schedules[k], cluster_name)
        ==> spec_template_from_schedule(cluster_name, cluster, schedules[k]) == ti {
        assert forall|k: int| 0 <= k < ts.len() implies ts[k] == ti->Ok_0 by {
            assert(template_of_some_schedule(cluster_name, cluster, schedules, ts[k]));
            let m = choose|m: int| 0 <= m < schedules.len()
                && schedules_cluster(#[trigger] schedules[m], cluster_name)
                && spec_template_from_schedule(cluster_name, cluster, schedules[m]) == Ok::<TemplateView, Seq<char>>(ts[k]);
        }
        if ts.len() > 1 {
            assert(ts[0] == ts[1]);
            assert(false);
        }
        assert(ts.len() == 1);
    }
}

/// A backup spec that names only the cluster and the method.
pub open spec fn method_only(cluster_name: Seq<char>, method: Seq<char>) -> JsonV {
    JsonV::Object(
        seq![
            ("cluster"@, JsonV::Object(seq![("name"@, JsonV::Str(cluster_name))])),
            ("method"@, JsonV::Str(method)),
        ],
    )
}

/// How a cluster is backed up on demand: as its ScheduledBackups all do, or,
/// without any, by the one backup method the Cluster configures.
pub open spec fn spec_backup_template(cluster_name: Seq<char>, cluster: Json, schedules: Seq<Json>) -> Result<TemplateView, Seq<char>> {
    match collect_templates(cluster_name, cluster, schedules) {
        Err(e) => Err(e),
        Ok(ts) => if ts.len() == 1 {
            Ok(ts[0])
        } else if ts.len() > 1 {
            Err("CNPG Cluster has ScheduledBackups with different backup configurations"@)
        } else {
            let barman = json_path(cluster, seq!["spec"@, "backup"@, "barmanObjectStore"@]) is Some;
            let snapshots = json_path(cluster, seq!["spec"@, "backup"@, "volumeSnapshot"@]) is Some;
            if barman && !snapshots {
                Ok((method_only(cluster_name, "barmanObjectStore"@), Seq::empty()))
            } else if !barman && snapshots {
                Ok((method_only(cluster_name, "volumeSnapshot"@), Seq::empty()))
            } else if barman && snapshots {
                Err("CNPG Cluster has multiple backup methods and no ScheduledBackup selects one"@)
            } else {
                Err("CNPG Cluster has no ScheduledBackup or configured backup method"@)
            }
        },
    }
}

/// Whether two templates are the same.
fn template_same(a: &BackupTemplate, b: &BackupTemplate) -> (r: bool)
    ensures
        r == (template_view(*a) == template_view(*b)),
{
    json_same(&a.spec, &b.spec) && members_same(&a.annotations, &b.annotations)
}

/// Whether `templates` holds `t`.
fn holds_template(templates: &Vec<BackupTemplate>, t: &BackupTemplate) -> (r: bool)
    ensures
        r == template_views(templates@).contains(template_view(*t)),
{
    let ghost tv = template_views(templates@);
    let n = templates.len();
    for i in 0..n
        invariant
            n == templates@.len(),
            tv == template_views(templates@),
            forall|k: int| 0 <= k < i ==> #[trigger] tv[k] != template_view(*t),
    {
        if template_same(&templates[i], t) {
            assert(tv[i as int] == template_view(*t));
            return true;
        }
    }
    false
}

/// A backup spec naming the cluster and the method.
fn method_only_spec(cluster_name: &str, method: &str) -> (r: Json)
    ensures
        jv(r) == method_only(cluster_name@, method@),
{
    let cluster_ref = vec![(owned("name"), str_value(cluster_name))];
    proof {
        lemma_jvm(cluster_ref@);
        assert(jvm(cluster_ref@) =~= seq![("name"@, JsonV::Str(cluster_name@))]);
    }
    let spec = vec![(owned("cluster"), Json::Object(cluster_ref)), (owned("method"), str_value(method))];
    proof {
        lemma_jvm(spec@);
        assert(jvm(spec@) =~= seq![
            ("cluster"@, JsonV::Object(seq![("name"@, JsonV::Str(cluster_name@))])),
            ("method"@, JsonV::Str(method@)),
        ]);
    }
    Json::Object(spec)
}

/// How a cluster is backed up on demand.
pub fn backup_template(cluster_name: &str, cluster: &Json, schedules: &[Json]) -> (r: Result<BackupTemplate, K8sError>)
    ensures
        template_outcome(r, spec_backup_template(cluster_name@, *cluster, schedules@)),
{
    let np = ["spec", "cluster", "name"];
    assert(key_views(np@) =~= seq!["spec"@, "cluster"@, "name"@]);
    let mut templates: Vec<BackupTemplate> = Vec::new();
    assert(schedules@.take(0) =~= Seq::<Json>::empty());
    assert(template_views(templates@) =~= Seq::<TemplateView>::empty());
    let n = schedules.len();
    for i in 0..n
        invariant
            n == schedules@.len(),
            key_views(np@) == seq!["spec"@, "cluster"@, "name"@],
            collect_templates(cluster_name@, *cluster, schedules@.take(i as int)) == Ok::<
                Seq<TemplateView>,
                Seq<char>,
            >(template_views(templates@)),
    {
        assert(schedules@.take(i + 1).drop_last() == schedules@.take(i as int));
        assert(schedules@.take(i + 1).last() == schedules@[i as int]);
        let schedule = &schedules[i];
        if opt_str_is(schedule.path(&np), cluster_name) {
            let t = match backup_template_from_schedule(cluster_name, cluster, schedule) {
                Ok(t) => t,
                Err(e) => {
                    proof {
                        lemma_collect_error_persists(cluster_name@, *cluster, schedules@, i + 1);
                        assert(schedules@.take(n as int) == schedules@);
                    }
                    return Err(e);
                },
            };
            if !holds_template(&templates, &t) {
                let ghost before = templates@;
                let ghost tv = template_view(t);
                templates.push(t);
                assert(template_views(templates@) =~= template_views(before).push(tv));
            }
        }
    }
    assert(schedules@.take(n as int) == schedules@);
    if templates.len() == 1 {
        let ghost tv = template_views(templates@);
        let t = templates.remove(0);
        assert(template_view(t) == tv[0]);
        return Ok(t);
    }
    if templates.len() > 1 {
        return Err(api_err("CNPG Cluster has ScheduledBackups with different backup configurations"));
    }
    let bp = ["spec", "backup", "barmanObjectStore"];
    assert(key_views(bp@) =~= seq!["spec"@, "backup"@, "barmanObjectStore"@]);
    let sp = ["spec", "backup", "volumeSnapshot"];
    assert(key_views(sp@) =~= seq!["spec"@, "backup"@, "volumeSnapshot"@]);
    let barman = cluster.path(&bp).is_some();
    let snapshots = cluster.path(&sp).is_some();
    let empty: Vec<(String, Json)> = Vec::new();
    proof {
        lemma_jvm(empty@);
    }
    if barman && !snapshots {
        Ok(BackupTemplate { spec: method_only_spec(cluster_name, "barmanObjectStore"), annotations: empty })
    } else if !barman && snapshots {
        Ok(BackupTemplate { spec: method_only_spec(cluster_name, "volumeSnapshot"), annotations: empty })
    } else if barman && snapshots {
        Err(api_err("CNPG Cluster has multiple backup methods and no ScheduledBackup selects one"))
    } else {
        Err(api_err("CNPG Cluster has no ScheduledBackup or configured backup method"))
    }
}

/// Once collecting templates fails, it stays failed with the same error.
proof fn lemma_collect_error_persists(cluster_name: Seq<char>, cluster: Json, schedules: Seq<Json>, k: int)
    requires
        0 <= k <= schedules.len(),
        collect_templates(cluster_name, cluster, schedules.take(k)) is Err,
    ensures
        collect_templates(cluster_name, cluster, schedules) == collect_templates(cluster_name, cluster, schedules.take(k)),
    decreases schedules.len() - k,
{
    if k < schedules.len() {
        assert(schedules.take(k + 1).drop_last() == schedules.take(k));
        lemma_collect_error_persists(cluster_name, cluster, schedules, k + 1);
    } else {
        assert(schedules.take(k) == schedules);
    }
}


/// The `Backup` that backs up cluster `cluster_name` now: a name generated
/// from `<base>-manual-` (the base made of at most 48 characters of the
/// cluster's name, or `cluster`), the template's annotations when it has any,
/// and the template's spec.
pub open spec fn spec_build_backup(
    group: Seq<char>,
    version: Seq<char>,
    namespace: Seq<char>,
    cluster_name: Seq<char>,
    cluster: Json,
    schedules: Seq<Json>,
) -> Result<JsonV, Seq<char>> {
    match spec_backup_template(cluster_name, cluster, schedules) {
        Err(e) => Err(e),
        Ok(t) => {
            let naming = seq![
                ("generateName"@, JsonV::Str(spec_name_base(cluster_name, 48, "cluster"@) + "-manual-"@)),
                ("namespace"@, JsonV::Str(namespace)),
            ];
            let metadata = if t.1.len() > 0 {
                seq![("annotations"@, JsonV::Object(t.1))] + naming
            } else {
                naming
            };
            Ok(
                JsonV::Object(
                    seq![
                        ("apiVersion"@, JsonV::Str(group + "/"@ + version)),
                        ("kind"@, JsonV::Str("Backup"@)),
                        ("metadata"@, JsonV::Object(metadata)),
                        ("spec"@, t.0),
                    ],
                ),
            )
        },
    }
}

/// `r` is what `spec` says: the same value, or an API error with its message.
pub open spec fn backup_outcome(r: Result<Json, K8sError>, spec: Result<JsonV, Seq<char>>) -> bool {
    match r {
        Ok(j) => spec == Ok::<JsonV, Seq<char>>(jv(j)),
        Err(e) => match spec {
            Err(m) => is_api_error(e, m),
            Ok(_) => false,
        },
    }
}

/// The `Backup` that backs up a CNPG cluster now.
pub fn build_backup(
    group: &str,
    version: &str,
    namespace: &str,
    cluster_name: &str,
    cluster: &Json,
    schedules: &[Json],
) -> (r: Result<Json, K8sError>)
    ensures
        backup_outcome(r, spec_build_backup(group@, version@, namespace@, cluster_name@, *cluster, schedules@)),
{
    let mut base = name_base(cluster_name, 48, "cluster");
    let template = match backup_template(cluster_name, cluster, schedules) {
        Ok(t) => t,
        Err(e) => return Err(e),
    };
    let ghost tv = template_view(template);
    let BackupTemplate { spec, annotations } = template;
    let suffix = chars_of("-manual-");
    extend_chars(&mut base, suffix.as_slice());
    let generate_name = string_of(base.as_slice());
    let ghost naming_v = seq![
        ("generateName"@, JsonV::Str(spec_name_base(cluster_name@, 48, "cluster"@) + "-manual-"@)),
        ("namespace"@, JsonV::Str(namespace@)),
    ];
    let ghost ann_v = jvm(annotations@);
    proof {
        lemma_jvm(annotations@);
    }
    let metadata = if annotations.len() > 0 {
        let m = vec![
            (owned("annotations"), Json::Object(annotations)),
            (owned("generateName"), Json::Str(generate_name)),
            (owned("namespace"), str_value(namespace)),
        ];
        proof {
            lemma_jvm(m@);
            assert(jvm(m@) =~= seq![("annotations"@, JsonV::Object(ann_v))] + naming_v);
        }
        m
    } else {
        let m = vec![
            (owned("generateName"), Json::Str(generate_name)),
            (owned("namespace"), str_value(namespace)),
        ];
        proof {
            lemma_jvm(m@);
            assert(jvm(m@) =~= naming_v);
        }
        m
    };
    let ghost meta_v = jvm(metadata@);
    let mut api_version = chars_of(group);
    api_version.push('/');
    let vc = chars_of(version);
    extend_chars(&mut api_version, vc.as_slice());
    proof {
        reveal_strlit("/");
    }
    assert(api_version@ =~= group@ + "/"@ + version@);
    let ghost spec_v = jv(spec);
    let backup = vec![
        (owned("apiVersion"), Json::Str(string_of(api_version.as_slice()))),
        (owned("kind"), str_value("Backup")),
        (owned("metadata"), Json::Object(metadata)),
        (owned("spec"), spec),
    ];
    proof {
        lemma_jvm(backup@);
        assert(jvm(backup@) =~= seq![
            ("apiVersion"@, JsonV::Str(group@ + "/"@ + version@)),
            ("kind"@, JsonV::Str("Backup"@)),
            ("metadata"@, JsonV::Object(meta_v)),
            ("spec"@, spec_v),
        ]);
    }
    Ok(Json::Object(backup))
}


/// The namespace an on-demand backup happens in: only a CNPG `Cluster` can be
/// backed up, and only in a namespace that is not empty.
pub fn backup_namespace(group: &str, kind: &str, namespace: Option<&str>) -> (r: Result<String, K8sError>)
    ensures
        match r {
            Ok(ns) => group@ == "postgresql.cnpg.io"@ && kind@ == "Cluster"@ && some_view(namespace) == Some(ns@)
                && ns@.len() > 0,
            Err(e) => if group@ != "postgresql.cnpg.io"@ || kind@ != "Cluster"@ {
                is_api_error(e, "CNPG backups require a Cluster target"@)
            } else {
                (namespace is None || some_view(namespace) == Some(Seq::<char>::empty()))
                    && is_api_error(e, "CNPG Cluster backup requires a namespace"@)
            },
        },
{
    if !str_eq(group, "postgresql.cnpg.io") || !str_eq(kind, "Cluster") {
        return Err(api_err("CNPG backups require a Cluster target"));
    }
    match namespace {
        Some(ns) => if ns.is_empty() {
            Err(api_err("CNPG Cluster backup requires a namespace"))
        } else {
            Ok(owned(ns))
        },
        None => Err(api_err("CNPG Cluster backup requires a namespace")),
    }
}

/// The namespace a schedule is suspended or resumed in: only a CNPG
/// `ScheduledBackup` can be, and only in a namespace that is not empty.
pub fn suspend_namespace(group: &str, kind: &str, namespace: Option<&str>) -> (r: Result<String, K8sError>)
    ensures
        match r {
            Ok(ns) => group@ == "postgresql.cnpg.io"@ && kind@ == "ScheduledBackup"@ && some_view(namespace)
                == Some(ns@) && ns@.len() > 0,
            Err(e) => if group@ != "postgresql.cnpg.io"@ || kind@ != "ScheduledBackup"@ {
                is_api_error(e, "CNPG suspend requires a ScheduledBackup target"@)
            } else {
                (namespace is None || some_view(namespace) == Some(Seq::<char>::empty()))
                    && is_api_error(e, "CNPG ScheduledBackup requires a namespace"@)
            },
        },
{
    if !str_eq(group, "postgresql.cnpg.io") || !str_eq(kind, "ScheduledBackup") {
        return Err(api_err("CNPG suspend requires a ScheduledBackup target"));
    }
    match namespace {
        Some(ns) => if ns.is_empty() {
            Err(api_err("CNPG ScheduledBackup requires a namespace"))
        } else {
            Ok(owned(ns))
        },
        None => Err(api_err("CNPG ScheduledBackup requires a namespace")),
    }
}

/// The merge patch that suspends (or resumes) a schedule.
pub fn suspend_patch(suspend: bool) -> (r: Json)
    ensures
        jv(r) == JsonV::Object(seq![("spec"@, JsonV::Object(seq![("suspend"@, JsonV::Bool(suspend))]))]),
{
    let inner = vec![(owned("suspend"), Json::Bool(suspend))];
    proof {
        lemma_jvm(inner@);
        assert(jvm(inner@) =~= seq![("suspend"@, JsonV::Bool(suspend))]);
    }
    let outer = vec![(owned("spec"), Json::Object(inner))];
    proof {
        lemma_jvm(outer@);
        assert(jvm(outer@) =~= seq![("spec"@, JsonV::Object(seq![("suspend"@, JsonV::Bool(suspend))]))]);
    }
    Json::Object(outer)
}

} // verus!
