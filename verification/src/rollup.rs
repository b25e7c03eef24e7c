//! Health rollups of the dashboard: how many objects of a kind are ready,
//! reconciling, warning, failing, suspended, or of unknown health.
use vstd::prelude::*;

use crate::catalog::ResourceKind;
use crate::json::{json_get, json_path, Json};
use crate::overview::RowStatus;
use crate::text::owned;

verus! {

/// Counts of a kind's objects by health.
#[derive(Clone, Copy, Debug, PartialEq, Eq, Structural)]
pub struct HealthRollup {
    pub total: usize,
    pub ready: usize,
    pub reconciling: usize,
    pub warning: usize,
    pub failing: usize,
    pub suspended: usize,
    /// Objects that report a status the projector does not recognise.
    pub unknown: usize,
    /// Objects that report no status at all.
    pub unreported: usize,
}

impl Default for HealthRollup {
    fn default() -> (r: HealthRollup)
        ensures
            r == empty_rollup(),
    {
        HealthRollup {
            total: 0,
            ready: 0,
            reconciling: 0,
            warning: 0,
            failing: 0,
            suspended: 0,
            unknown: 0,
            unreported: 0,
        }
    }
}

/// The rollup of no objects.
pub open spec fn empty_rollup() -> HealthRollup {
    HealthRollup {
        total: 0,
        ready: 0,
        reconciling: 0,
        warning: 0,
        failing: 0,
        suspended: 0,
        unknown: 0,
        unreported: 0,
    }
}

/// Where an object is counted.
#[derive(PartialEq, Eq, Structural, Clone, Copy, Debug)]
pub enum HealthBucket {
    Ready,
    Reconciling,
    Warning,
    Failing,
    Suspended,
    Unknown,
    Unreported,
}

/// The object is suspended: `spec.suspend` is `true`.
pub open spec fn spec_is_suspended(object: Json) -> bool {
    json_path(object, seq!["spec"@, "suspend"@]) == Some(Json::Bool(true))
}

/// The object reports a status: a `status` that is neither missing, null,
/// nor an empty object.
pub open spec fn spec_status_is_reported(object: Json) -> bool {
    match json_get(object, "status"@) {
        None => false,
        Some(Json::Null) => false,
        Some(Json::Object(es)) => es.len() > 0,
        Some(_) => true,
    }
}

/// Where an object with the projector's `status` is counted: suspended
/// objects apart, whatever their status; ready and done objects as ready; an
/// unknown status as unknown when the object reports one, else unreported.
pub open spec fn spec_bucket(object: Json, status: RowStatus) -> HealthBucket {
    if spec_is_suspended(object) {
        HealthBucket::Suspended
    } else {
        match status {
            RowStatus::Healthy | RowStatus::Done => HealthBucket::Ready,
            RowStatus::Pending => HealthBucket::Reconciling,
            RowStatus::Warn => HealthBucket::Warning,
            RowStatus::Error => HealthBucket::Failing,
            RowStatus::Unknown => if spec_status_is_reported(object) {
                HealthBucket::Unknown
            } else {
                HealthBucket::Unreported
            },
        }
    }
}

/// A rollup with one more object, counted in `b`.
pub open spec fn counted(r: HealthRollup, b: HealthBucket) -> HealthRollup {
    HealthRollup {
        total: (r.total + 1) as usize,
        ready: if b is Ready { (r.ready + 1) as usize } else { r.ready },
        reconciling: if b is Reconciling { (r.reconciling + 1) as usize } else { r.reconciling },
        warning: if b is Warning { (r.warning + 1) as usize } else { r.warning },
        failing: if b is Failing { (r.failing + 1) as usize } else { r.failing },
        suspended: if b is Suspended { (r.suspended + 1) as usize } else { r.suspended },
        unknown: if b is Unknown { (r.unknown + 1) as usize } else { r.unknown },
        unreported: if b is Unreported { (r.unreported + 1) as usize } else { r.unreported },
    }
}

/// Every object is counted in exactly one bucket.
pub open spec fn balanced(r: HealthRollup) -> bool {
    r.total == r.ready + r.reconciling + r.warning + r.failing + r.suspended + r.unknown + r.unreported
}

/// Whether an object is suspended.
pub fn is_suspended(object: &Json) -> (r: bool)
    ensures
        r == spec_is_suspended(*object),
{
    let p = ["spec", "suspend"];
    assert(crate::json::key_views(p@) =~= seq!["spec"@, "suspend"@]);
    match object.path(&p) {
        Some(Json::Bool(b)) => *b,
        _ => false,
    }
}

/// Whether an object reports a status.
pub fn status_is_reported(object: &Json) -> (r: bool)
    ensures
        r == spec_status_is_reported(*object),
{
    match object.get("status") {
        None => false,
        Some(Json::Null) => false,
        Some(Json::Object(es)) => es.len() > 0,
        Some(_) => true,
    }
}

/// Where an object is counted.
pub fn health_bucket(object: &Json, status: RowStatus) -> (r: HealthBucket)
    ensures
        r == spec_bucket(*object, status),
{
    if is_suspended(object) {
        return HealthBucket::Suspended;
    }
    match status {
        RowStatus::Healthy | RowStatus::Done => HealthBucket::Ready,
        RowStatus::Pending => HealthBucket::Reconciling,
        RowStatus::Warn => HealthBucket::Warning,
        RowStatus::Error => HealthBucket::Failing,
        RowStatus::Unknown => if status_is_reported(object) {
            HealthBucket::Unknown
        } else {
            HealthBucket::Unreported
        },
    }
}

/// Counts one more object, whose status the row projector gave as `status`.
pub fn record_status(rollup: &mut HealthRollup, object: &Json, status: RowStatus)
    requires
        balanced(*old(rollup)),
        old(rollup).total < usize::MAX,
    ensures
        *final(rollup) == counted(*old(rollup), spec_bucket(*object, status)),
        balanced(*final(rollup)),
{
    rollup.total = rollup.total + 1;
    match health_bucket(object, status) {
        HealthBucket::Ready => rollup.ready = rollup.ready + 1,
        HealthBucket::Reconciling => rollup.reconciling = rollup.reconciling + 1,
        HealthBucket::Warning => rollup.warning = rollup.warning + 1,
        HealthBucket::Failing => rollup.failing = rollup.failing + 1,
        HealthBucket::Suspended => rollup.suspended = rollup.suspended + 1,
        HealthBucket::Unknown => rollup.unknown = rollup.unknown + 1,
        HealthBucket::Unreported => rollup.unreported = rollup.unreported + 1,
    }
}

/// The rollup of a list of objects with their statuses, counted in order.
pub open spec fn spec_rollup(objects: Seq<Json>, statuses: Seq<RowStatus>) -> HealthRollup
    decreases objects.len(),
{
    if objects.len() == 0 || statuses.len() < objects.len() {
        empty_rollup()
    } else {
        counted(
            spec_rollup(objects.drop_last(), statuses.take(objects.len() - 1)),
            spec_bucket(objects.last(), statuses[objects.len() - 1]),
        )
    }
}

/// A kind's health rollup on the dashboard, or why its objects could not be
/// listed.
#[derive(Debug)]
pub struct ResourceHealthRollup {
    pub key: String,
    pub kind: String,
    pub health: HealthRollup,
    pub error: Option<String>,
}

/// The rollup of a kind: of its objects (each with the status the row
/// projector gave it) when they could be listed, else empty with the error.
pub fn summarize_resources(kind: &ResourceKind, objects: Result<(&[Json], &[RowStatus]), String>) -> (r: ResourceHealthRollup)
    requires
        objects matches Ok((os, ss)) ==> os@.len() == ss@.len(),
    ensures
        r.key@ == kind.key@,
        r.kind@ == kind.kind@,
        balanced(r.health),
        match objects {
            Ok((os, ss)) => r.health == spec_rollup(os@, ss@) && r.error is None && r.health.total == os@.len(),
            Err(e) => r.health == empty_rollup() && r.error == Some(e),
        },
{
    let mut health = HealthRollup::default();
    let error = match objects {
        Ok((os, ss)) => {
            let n = os.len();
            for i in 0..n
                invariant
                    n == os@.len(),
                    n == ss@.len(),
                    health == spec_rollup(os@.take(i as int), ss@.take(i as int)),
                    balanced(health),
                    health.total == i,
            {
                proof {
                    assert(os@.take(i + 1).drop_last() =~= os@.take(i as int));
                    assert(ss@.take(i + 1).take(i as int) =~= ss@.take(i as int));
                }
                record_status(&mut health, &os[i], ss[i]);
            }
            assert(os@.take(n as int) =~= os@);
            assert(ss@.take(n as int) =~= ss@);
            None
        },
        Err(e) => Some(e),
    };
    ResourceHealthRollup { key: owned(kind.key.as_str()), kind: owned(kind.kind.as_str()), health, error }
}

/// Whether the dashboard shows a rollup: it counted something, or failed.
pub fn rollup_is_shown(r: &ResourceHealthRollup) -> (shown: bool)
    ensures
        shown == (r.health.total > 0 || r.error is Some),
{
    r.health.total > 0 || r.error.is_some()
}

} // verus!
