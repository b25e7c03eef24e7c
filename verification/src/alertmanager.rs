//! Alertmanager: response previews, the firing-alert view and silence requests.
use vstd::prelude::*;
use vstd::string::StringSliceAdditionalSpecFns;
use vstd::utf8::is_char_boundary;
use crate::alerts::label_value;
use crate::matching::label_lookup;
use crate::text::{chars_of, extend_chars, owned, str_eq, string_of, trim_end_char, trim_end_matches};

verus! {

/// End of the longest prefix of `bytes` that is at most `max_bytes` long and ends
/// on a character boundary.
pub open spec fn is_prefix_end(bytes: Seq<u8>, len: int, max_bytes: int, end: int) -> bool {
    let limit = if len < max_bytes {
        len
    } else {
        max_bytes
    };
    &&& 0 <= end <= limit
    &&& is_char_boundary(bytes, end)
    &&& forall|b: int| end < b <= limit ==> !is_char_boundary(bytes, b)
}

/// The longest prefix of `value` of at most `max_bytes` bytes that does not split
/// a character, for log previews of response bodies.
pub fn utf8_prefix(value: &str, max_bytes: usize) -> (r: &str)
    ensures
        exists|end: int|
            is_prefix_end(value.spec_bytes(), value.len() as int, max_bytes as int, end) && #[trigger] r.spec_bytes()
                == value.spec_bytes().subrange(0, end),
{
    proof {
        broadcast use vstd::utf8::encode_utf8_valid_utf8;
        broadcast use vstd::utf8::is_char_boundary_start_end_of_seq;

        assert(is_char_boundary(value.spec_bytes(), 0));
    }
    let len = value.len();
    let mut end = if len < max_bytes {
        len
    } else {
        max_bytes
    };
    let ghost limit = end as int;
    while !value.is_char_boundary(end)
        invariant
            0 <= end <= limit,
            limit == (if len < max_bytes {
                len as int
            } else {
                max_bytes as int
            }),
            len == value.len(),
            is_char_boundary(value.spec_bytes(), 0),
            forall|b: int| end < b <= limit ==> !is_char_boundary(value.spec_bytes(), b),
        decreases end,
    {
        end = end - 1;
    }
    let (prefix, _) = value.split_at(end);
    assert(is_prefix_end(value.spec_bytes(), value.len() as int, max_bytes as int, end as int));
    prefix
}

} // verus!

verus! {

/// Why silencing an alert failed.
pub enum SilenceError {
    NotFound,
    AlreadySilenced,
    Upstream(String),
}

impl SilenceError {
    /// The error's message.
    pub fn message(&self) -> (r: String)
        ensures
            r@ == match self {
                SilenceError::NotFound => "alert not found"@,
                SilenceError::AlreadySilenced => "alert is already silenced"@,
                SilenceError::Upstream(m) => m@,
            },
    {
        match self {
            SilenceError::NotFound => owned("alert not found"),
            SilenceError::AlreadySilenced => owned("alert is already silenced"),
            SilenceError::Upstream(m) => owned(m.as_str()),
        }
    }
}

/// The scheme `url::Url::parse` finds in a URL, or its error's message.
pub uninterp spec fn url_scheme(url: Seq<char>) -> Result<Seq<char>, Seq<char>>;

/// Parses `url` with `reqwest::Url::parse` (the `url` crate) and gives its
/// scheme, or the parse error's message. The result is named `url_scheme`
/// of the text.
#[verifier::external_body]
fn parse_url_scheme(url: &str) -> (r: Result<String, String>)
    ensures
        match r {
            Ok(s) => url_scheme(url@) == Ok::<Seq<char>, Seq<char>>(s@),
            Err(e) => url_scheme(url@) == Err::<Seq<char>, Seq<char>>(e@),
        },
{
    match reqwest::Url::parse(url) {
        Ok(u) => Ok(u.scheme().to_string()),
        Err(e) => Err(e.to_string()),
    }
}

/// The configured Alertmanager URL given what parsing it found: a parse error
/// is reported, a scheme other than `http` or `https` refused, and an accepted
/// URL loses its trailing slashes.
pub open spec fn spec_alertmanager_url_from(url: Seq<char>, parsed: Result<Seq<char>, Seq<char>>) -> Result<Seq<char>, Seq<char>> {
    match parsed {
        Err(e) => Err("invalid RODER_ALERTMANAGER_URL: "@ + e),
        Ok(scheme) => if scheme == "http"@ || scheme == "https"@ {
            Ok(trim_end_char(url, '/'))
        } else {
            Err("RODER_ALERTMANAGER_URL must use http or https"@)
        },
    }
}

pub open spec fn result_view(r: Result<String, String>) -> Result<Seq<char>, Seq<char>> {
    match r {
        Ok(s) => Ok(s@),
        Err(e) => Err(e@),
    }
}

/// The Alertmanager URL to use, given the outcome of parsing `url`.
pub fn alertmanager_url_from(url: &str, parsed: Result<String, String>) -> (r: Result<String, String>)
    ensures
        result_view(r) == spec_alertmanager_url_from(url@, result_view(parsed)),
{
    match parsed {
        Err(e) => {
            let mut out = chars_of("invalid RODER_ALERTMANAGER_URL: ");
            let ec = chars_of(e.as_str());
            extend_chars(&mut out, ec.as_slice());
            Err(string_of(out.as_slice()))
        },
        Ok(scheme) => if str_eq(scheme.as_str(), "http") || str_eq(scheme.as_str(), "https") {
            let uc = chars_of(url);
            let t = trim_end_matches(uc.as_slice(), '/');
            Ok(string_of(t.as_slice()))
        } else {
            Err(owned("RODER_ALERTMANAGER_URL must use http or https"))
        },
    }
}

/// A direct HTTP(S) Alertmanager URL without trailing slashes, or why `url`
/// is not one.
pub fn direct_alertmanager_url(url: &str) -> (r: Result<String, String>)
    ensures
        result_view(r) == spec_alertmanager_url_from(url@, url_scheme(url@)),
{
    let parsed = parse_url_scheme(url);
    alertmanager_url_from(url, parsed)
}

} // verus!

verus! {

/// One exact matcher of a silence.
pub struct SilenceMatcher {
    pub name: String,
    pub value: String,
    pub is_regex: bool,
    pub is_equal: bool,
}

/// The silence Alertmanager is asked to create.
pub struct SilenceRequest {
    pub matchers: Vec<SilenceMatcher>,
    pub starts_at: String,
    pub ends_at: String,
    pub created_by: String,
    pub comment: String,
}

/// The end of a silence that does not expire: Alertmanager's largest timestamp.
pub const FOREVER: &'static str = "9999-12-31T23:59:59Z";

/// The comment every silence carries.
pub const SILENCE_COMMENT: &'static str = "Silenced from Roder";

/// The first and last instants (in nanoseconds since the epoch) that `time`
/// represents without its `large-dates` feature: years -9999 to 9999.
pub open spec fn representable(nanos: int) -> bool {
    -377705116800 * 1_000_000_000 <= nanos < 253402300800 * 1_000_000_000
}

/// The RFC 3339 text of an instant, or the formatting error's message.
pub uninterp spec fn rfc3339_text(nanos: int) -> Result<Seq<char>, Seq<char>>;

/// Formats the instant `nanos` nanoseconds after the epoch as RFC 3339 UTC
/// text: builds it with `time::OffsetDateTime::from_unix_timestamp_nanos` and
/// formats it with the `Rfc3339` description, giving the error's message when
/// either fails. The result is named `rfc3339_text` of the instant.
#[verifier::external_body]
fn format_rfc3339(nanos: i128) -> (r: Result<String, String>)
    ensures
        result_view(r) == rfc3339_text(nanos as int),
{
    match time::OffsetDateTime::from_unix_timestamp_nanos(nanos) {
        Ok(t) => t.format(&time::format_description::well_known::Rfc3339).map_err(|e| e.to_string()),
        Err(e) => Err(e.to_string()),
    }
}

pub type SilenceView = (Seq<(Seq<char>, Seq<char>, bool, bool)>, Seq<char>, Seq<char>, Seq<char>, Seq<char>);

pub open spec fn matcher_views(v: Seq<SilenceMatcher>) -> Seq<(Seq<char>, Seq<char>, bool, bool)> {
    v.map_values(|m: SilenceMatcher| (m.name@, m.value@, m.is_regex, m.is_equal))
}

pub open spec fn silence_view(r: SilenceRequest) -> SilenceView {
    (matcher_views(r.matchers@), r.starts_at@, r.ends_at@, r.created_by@, r.comment@)
}

/// One exact, non-regex matcher per label, in order.
pub open spec fn exact_matchers(labels: Seq<(String, String)>) -> Seq<(Seq<char>, Seq<char>, bool, bool)> {
    labels.map_values(|l: (String, String)| (l.0@, l.1@, false, true))
}

/// The silence for an alert's labels, starting at `now` (nanoseconds since the
/// epoch) and lasting `duration_secs` seconds, or forever.
///
/// Refused without labels, or with a duration beyond `i64` seconds; a time
/// that does not format is reported with its message.
pub open spec fn spec_silence_request(
    labels: Seq<(String, String)>,
    duration_secs: Option<u64>,
    created_by: Seq<char>,
    now: int,
) -> Result<SilenceView, Seq<char>> {
    if labels.len() == 0 {
        Err("alert has no labels"@)
    } else {
        let ends: Result<Seq<char>, Seq<char>> = match duration_secs {
            None => Ok(FOREVER@),
            Some(s) => if s > i64::MAX {
                Err("silence duration is too large"@)
            } else {
                match rfc3339_text(now + s * 1_000_000_000) {
                    Ok(t) => Ok(t),
                    Err(e) => Err("format silence end: "@ + e),
                }
            },
        };
        match ends {
            Err(e) => Err(e),
            Ok(end) => match rfc3339_text(now) {
                Ok(start) => Ok((exact_matchers(labels), start, end, created_by, SILENCE_COMMENT@)),
                Err(e) => Err("format silence start: "@ + e),
            },
        }
    }
}

/// A silence mutes exactly the alert it is made for: one equality matcher per
/// label, none a regex, each with the label's name and value, in order; it is
/// refused for an alert without labels, and without a duration it never ends.
pub proof fn lemma_silence_matches_alert_exactly(
    labels: Seq<(String, String)>,
    duration_secs: Option<u64>,
    created_by: Seq<char>,
    now: int,
)
    ensures
        labels.len() == 0 ==> spec_silence_request(labels, duration_secs, created_by, now) is Err,
        spec_silence_request(labels, duration_secs, created_by, now) matches Ok(v) ==> {
            &&& v.0.len() == labels.len()
            &&& forall|k: int| 0 <= k < labels.len() ==> #[trigger] v.0[k] == (labels[k].0@, labels[k].1@, false, true)
            &&& v.3 == created_by
            &&& v.4 == SILENCE_COMMENT@
            &&& duration_secs is None ==> v.2 == FOREVER@
        },
{
}

pub open spec fn silence_result_view(r: Result<SilenceRequest, String>) -> Result<SilenceView, Seq<char>> {
    match r {
        Ok(s) => Ok(silence_view(s)),
        Err(e) => Err(e@),
    }
}

fn prefixed(prefix: &str, text: &str) -> (r: String)
    ensures
        r@ == prefix@ + text@,
{
    let mut out = chars_of(prefix);
    let tc = chars_of(text);
    extend_chars(&mut out, tc.as_slice());
    string_of(out.as_slice())
}

/// The silence request for an alert's labels.
pub fn silence_request(
    labels: &[(String, String)],
    duration_secs: Option<u64>,
    created_by: &str,
    now_nanos: i128,
) -> (r: Result<SilenceRequest, String>)
    requires
        representable(now_nanos as int),
        match duration_secs {
            Some(s) => s > i64::MAX || representable(now_nanos + s * 1_000_000_000),
            None => true,
        },
    ensures
        silence_result_view(r) == spec_silence_request(labels@, duration_secs, created_by@, now_nanos as int),
{
    if labels.len() == 0 {
        return Err(owned("alert has no labels"));
    }
    let ends_at = match duration_secs {
        None => owned(FOREVER),
        Some(s) => {
            if s > 9223372036854775807u64 {
                return Err(owned("silence duration is too large"));
            }
            let end = now_nanos + (s as i128) * 1_000_000_000i128;
            match format_rfc3339(end) {
                Ok(t) => t,
                Err(e) => {
                    return Err(prefixed("format silence end: ", e.as_str()));
                },
            }
        },
    };
    let mut matchers: Vec<SilenceMatcher> = Vec::new();
    let n = labels.len();
    for i in 0..n
        invariant
            n == labels@.len(),
            matcher_views(matchers@) == exact_matchers(labels@.take(i as int)),
    {
        let ghost before = matchers@;
        matchers.push(SilenceMatcher {
            name: owned(labels[i].0.as_str()),
            value: owned(labels[i].1.as_str()),
            is_regex: false,
            is_equal: true,
        });
        assert(matcher_views(matchers@) =~= matcher_views(before).push((labels@[i as int].0@, labels@[i as int].1@, false, true)));
        assert(exact_matchers(labels@.take(i + 1)) =~= exact_matchers(labels@.take(i as int)).push((labels@[i as int].0@, labels@[i as int].1@, false, true)));
    }
    assert(labels@.take(n as int) == labels@);
    let starts_at = match format_rfc3339(now_nanos) {
        Ok(t) => t,
        Err(e) => {
            return Err(prefixed("format silence start: ", e.as_str()));
        },
    };
    Ok(SilenceRequest {
        matchers,
        starts_at,
        ends_at,
        created_by: owned(created_by),
        comment: owned(SILENCE_COMMENT),
    })
}

} // verus!

verus! {

/// An alert as Alertmanager's `/api/v2/alerts` lists it.
pub struct AmAlert {
    pub fingerprint: String,
    pub labels: Vec<(String, String)>,
    pub annotations: Vec<(String, String)>,
    pub starts_at: String,
    /// The silences that mute it (`status.silencedBy`).
    pub silenced_by: Vec<String>,
}

/// A firing alert as the dashboard shows it.
pub struct FiringAlert {
    pub fingerprint: String,
    pub name: String,
    pub severity: String,
    pub summary: String,
    pub description: String,
    pub starts_at: String,
    pub silenced: bool,
    pub labels: Vec<(String, String)>,
}

/// The value of `name` among `pairs`, or empty.
pub open spec fn value_or_empty(pairs: Seq<(String, String)>, name: Seq<char>) -> Seq<char> {
    match label_value(pairs, name) {
        Some(v) => v,
        None => Seq::empty(),
    }
}

pub type FiringView = (Seq<char>, Seq<char>, Seq<char>, Seq<char>, Seq<char>, Seq<char>, bool, Seq<(String, String)>);

pub open spec fn firing_view(f: FiringAlert) -> FiringView {
    (f.fingerprint@, f.name@, f.severity@, f.summary@, f.description@, f.starts_at@, f.silenced, f.labels@)
}

/// The dashboard's view of an alert: its `alertname` and `severity` labels,
/// `summary` and `description` annotations (empty when missing), and
/// silenced exactly when some silence mutes it (inhibition is not silencing).
pub open spec fn spec_into_firing(a: AmAlert) -> FiringView {
    (
        a.fingerprint@,
        value_or_empty(a.labels@, "alertname"@),
        value_or_empty(a.labels@, "severity"@),
        value_or_empty(a.annotations@, "summary"@),
        value_or_empty(a.annotations@, "description"@),
        a.starts_at@,
        a.silenced_by@.len() > 0,
        a.labels@,
    )
}

fn lookup_or_empty(pairs: &[(String, String)], name: &str) -> (r: String)
    ensures
        r@ == value_or_empty(pairs@, name@),
{
    match label_lookup(pairs, name) {
        Some(v) => owned(v),
        None => String::new(),
    }
}

impl AmAlert {
    /// The dashboard's view of this alert.
    pub fn into_firing(self) -> (r: FiringAlert)
        ensures
            firing_view(r) == spec_into_firing(self),
    {
        let name = lookup_or_empty(self.labels.as_slice(), "alertname");
        let severity = lookup_or_empty(self.labels.as_slice(), "severity");
        let summary = lookup_or_empty(self.annotations.as_slice(), "summary");
        let description = lookup_or_empty(self.annotations.as_slice(), "description");
        FiringAlert {
            fingerprint: self.fingerprint,
            name,
            severity,
            summary,
            description,
            starts_at: self.starts_at,
            silenced: self.silenced_by.len() > 0,
            labels: self.labels,
        }
    }
}

/// An alert the dashboard shows: one with a `severity` that is neither empty
/// nor `none`.
pub open spec fn shown(a: AmAlert) -> bool {
    let sev = value_or_empty(a.labels@, "severity"@);
    sev.len() > 0 && sev != "none"@
}

/// The dashboard's view of the shown alerts, in order.
pub open spec fn spec_firing_alerts(raw: Seq<AmAlert>) -> Seq<FiringView>
    decreases raw.len(),
{
    if raw.len() == 0 {
        Seq::empty()
    } else {
        let prev = spec_firing_alerts(raw.drop_last());
        if shown(raw.last()) {
            prev.push(spec_into_firing(raw.last()))
        } else {
            prev
        }
    }
}

pub open spec fn firing_views(v: Seq<FiringAlert>) -> Seq<FiringView> {
    v.map_values(|f: FiringAlert| firing_view(f))
}

/// The alerts the dashboard shows, from Alertmanager's list.
pub fn firing_alerts(raw: Vec<AmAlert>) -> (r: Vec<FiringAlert>)
    ensures
        firing_views(r@) == spec_firing_alerts(raw@),
{
    let ghost orig = raw@;
    let mut rest = raw;
    let mut out: Vec<FiringAlert> = Vec::new();
    let ghost mut k: int = 0;
    assert(orig.take(0) =~= Seq::<AmAlert>::empty());
    assert(firing_views(out@) =~= Seq::<FiringView>::empty());
    assert(orig.skip(0) =~= orig);
    while rest.len() > 0
        invariant
            0 <= k <= orig.len(),
            firing_views(out@) == spec_firing_alerts(orig.take(k)),
            rest@ == orig.skip(k),
        decreases rest@.len(),
    {
        let a = rest.remove(0);
        proof {
            assert(a == orig[k]);
            assert(orig.skip(k).drop_first() =~= orig.skip(k + 1));
            assert(orig.take(k + 1).drop_last() =~= orig.take(k));
            assert(orig.take(k + 1).last() == a);
        }
        let sev = lookup_or_empty(a.labels.as_slice(), "severity");
        if !sev.as_str().is_empty() && !str_eq(sev.as_str(), "none") {
            let ghost before = out@;
            let f = a.into_firing();
            out.push(f);
            assert(firing_views(out@) =~= firing_views(before).push(firing_view(f)));
        }
        proof {
            k = k + 1;
        }
    }
    proof {
        assert(orig.take(k) =~= orig);
    }
    out
}

/// Entry `i` is the first of `pairs` named `name`.
pub open spec fn first_entry(pairs: Seq<(String, String)>, name: Seq<char>, i: int) -> bool {
    &&& 0 <= i < pairs.len()
    &&& pairs[i].0@ == name
    &&& forall|j: int| 0 <= j < i ==> pairs[j].0@ != name
}

/// No entry of `pairs` is named `name`.
pub open spec fn no_entry(pairs: Seq<(String, String)>, name: Seq<char>) -> bool {
    forall|j: int| 0 <= j < pairs.len() ==> pairs[j].0@ != name
}

/// The value read for `name` is that of its first entry, and empty when there
/// is none.
pub proof fn lemma_value_of_entry(pairs: Seq<(String, String)>, name: Seq<char>, i: int)
    ensures
        first_entry(pairs, name, i) ==> value_or_empty(pairs, name) == pairs[i].1@,
        no_entry(pairs, name) ==> value_or_empty(pairs, name) == Seq::<char>::empty(),
    decreases pairs.len(),
{
    if pairs.len() > 0 {
        let rest = pairs.drop_first();
        lemma_value_of_entry(rest, name, i - 1);
        if first_entry(pairs, name, i) && i > 0 {
            assert(pairs[0].0@ != name);
            assert forall|j: int| 0 <= j < i - 1 implies rest[j].0@ != name by {
                assert(rest[j] == pairs[j + 1]);
            }
            assert(rest[i - 1] == pairs[i]);
        }
        if no_entry(pairs, name) {
            assert(pairs[0].0@ != name);
            assert forall|j: int| 0 <= j < rest.len() implies rest[j].0@ != name by {
                assert(rest[j] == pairs[j + 1]);
            }
        }
    }
}

/// What a firing alert shows is read from its alert's own entries: its name
/// and severity are the values of the `alertname` and `severity` labels, its
/// summary and description those of the `summary` and `description`
/// annotations (the first entry of each name), each empty when the entry is
/// absent; and an alert whose severity is neither empty nor `none` is shown.
pub proof fn lemma_into_firing_reads_entries(
    a: AmAlert,
    name_at: int,
    severity_at: int,
    summary_at: int,
    description_at: int,
)
    ensures
        first_entry(a.labels@, "alertname"@, name_at) ==> spec_into_firing(a).1 == a.labels@[name_at].1@,
        first_entry(a.labels@, "severity"@, severity_at) ==> spec_into_firing(a).2 == a.labels@[severity_at].1@,
        first_entry(a.annotations@, "summary"@, summary_at) ==> spec_into_firing(a).3 == a.annotations@[summary_at].1@,
        first_entry(a.annotations@, "description"@, description_at) ==> spec_into_firing(a).4
            == a.annotations@[description_at].1@,
        no_entry(a.labels@, "alertname"@) ==> spec_into_firing(a).1 == Seq::<char>::empty(),
        no_entry(a.labels@, "severity"@) ==> spec_into_firing(a).2 == Seq::<char>::empty(),
        no_entry(a.annotations@, "summary"@) ==> spec_into_firing(a).3 == Seq::<char>::empty(),
        no_entry(a.annotations@, "description"@) ==> spec_into_firing(a).4 == Seq::<char>::empty(),
        first_entry(a.labels@, "severity"@, severity_at) && a.labels@[severity_at].1@.len() > 0
            && a.labels@[severity_at].1@ != "none"@ ==> shown(a),
{
    lemma_value_of_entry(a.labels@, "alertname"@, name_at);
    lemma_value_of_entry(a.labels@, "severity"@, severity_at);
    lemma_value_of_entry(a.annotations@, "summary"@, summary_at);
    lemma_value_of_entry(a.annotations@, "description"@, description_at);
}

/// When every listed alert is shown, the dashboard shows each of them, in
/// order, as `into_firing` views it.
pub proof fn lemma_firing_alerts_all_shown(raw: Seq<AmAlert>)
    requires
        forall|k: int| 0 <= k < raw.len() ==> shown(#[trigger] raw[k]),
    ensures
        spec_firing_alerts(raw) == raw.map_values(|a: AmAlert| spec_into_firing(a)),
    decreases raw.len(),
{
    if raw.len() > 0 {
        let pre = raw.drop_last();
        assert forall|k: int| 0 <= k < pre.len() implies shown(#[trigger] pre[k]) by {
            assert(pre[k] == raw[k]);
        }
        lemma_firing_alerts_all_shown(pre);
        assert(shown(raw[raw.len() - 1]));
        assert(raw.map_values(|a: AmAlert| spec_into_firing(a)) =~= pre.map_values(
            |a: AmAlert| spec_into_firing(a),
        ).push(spec_into_firing(raw.last())));
    }
}

/// The labels of the alert to silence: refused when no alert has this
/// fingerprint, or the first that has it is already silenced.
pub open spec fn spec_silence_target(alerts: Seq<FiringAlert>, fingerprint: Seq<char>) -> Result<Seq<(String, String)>, int>
    decreases alerts.len(),
{
    if alerts.len() == 0 {
        Err(0)
    } else if alerts[0].fingerprint@ == fingerprint {
        if alerts[0].silenced {
            Err(1)
        } else {
            Ok(alerts[0].labels@)
        }
    } else {
        spec_silence_target(alerts.drop_first(), fingerprint)
    }
}

/// Finds the alert to silence by fingerprint.
pub fn silence_target<'a>(alerts: &'a [FiringAlert], fingerprint: &str) -> (r: Result<&'a Vec<(String, String)>, SilenceError>)
    ensures
        match r {
            Ok(labels) => spec_silence_target(alerts@, fingerprint@) == Ok::<Seq<(String, String)>, int>(labels@),
            Err(SilenceError::NotFound) => spec_silence_target(alerts@, fingerprint@) == Err::<Seq<(String, String)>, int>(0),
            Err(SilenceError::AlreadySilenced) => spec_silence_target(alerts@, fingerprint@) == Err::<Seq<(String, String)>, int>(1),
            Err(SilenceError::Upstream(_)) => false,
        },
{
    let n = alerts.len();
    assert(alerts@.skip(0) == alerts@);
    for i in 0..n
        invariant
            n == alerts@.len(),
            spec_silence_target(alerts@.skip(i as int), fingerprint@) == spec_silence_target(alerts@, fingerprint@),
    {
        assert(alerts@.skip(i as int).drop_first() == alerts@.skip(i + 1));
        assert(alerts@.skip(i as int)[0] == alerts@[i as int]);
        if str_eq(alerts[i].fingerprint.as_str(), fingerprint) {
            if alerts[i].silenced {
                return Err(SilenceError::AlreadySilenced);
            }
            return Ok(&alerts[i].labels);
        }
    }
    Err(SilenceError::NotFound)
}

/// The largest Alertmanager response read, in bytes (4 MiB).
pub const MAX_RESPONSE_BYTES: usize = 4194304;

/// How long cached alerts are reused without a refresh request, in
/// milliseconds.
pub const CACHE_TTL_MILLIS: u64 = 30000;

/// The message of a response over the limit.
pub const RESPONSE_TOO_LARGE: &'static str = "alertmanager response exceeds 4194304 byte limit";

/// Adds a chunk of an Alertmanager response to what was read so far, unless
/// the whole would pass `MAX_RESPONSE_BYTES`; then the read fails and what was
/// read stays as it was.
pub fn accept_chunk(body: &mut Vec<u8>, chunk: &[u8]) -> (r: Result<(), String>)
    ensures
        match r {
            Ok(()) => old(body)@.len() + chunk@.len() <= MAX_RESPONSE_BYTES && final(body)@ == old(body)@ + chunk@,
            Err(m) => old(body)@.len() + chunk@.len() > MAX_RESPONSE_BYTES && final(body)@ == old(body)@
                && m@ == RESPONSE_TOO_LARGE@,
        },
{
    if chunk.len() > MAX_RESPONSE_BYTES || body.len() > MAX_RESPONSE_BYTES - chunk.len() {
        return Err(owned(RESPONSE_TOO_LARGE));
    }
    let n = chunk.len();
    let ghost start = body@;
    for i in 0..n
        invariant
            n == chunk@.len(),
            body@ == start + chunk@.take(i as int),
    {
        body.push(chunk[i]);
        assert(chunk@.take(i + 1) =~= chunk@.take(i as int).push(chunk@[i as int]));
        assert(body@ =~= start + chunk@.take(i + 1));
    }
    assert(chunk@.take(n as int) =~= chunk@);
    Ok(())
}

/// Whether cached alerts may be reused: when a refresh was asked for, only
/// if they were fetched at or after the request; otherwise while they are
/// younger than the cache's lifetime. Instants are milliseconds on one clock.
pub fn cache_reusable(fetched_at: u64, refresh_requested_at: Option<u64>, now: u64) -> (r: bool)
    ensures
        r == match refresh_requested_at {
            Some(at) => fetched_at >= at,
            None => now < fetched_at || now - fetched_at < CACHE_TTL_MILLIS,
        },
{
    match refresh_requested_at {
        Some(at) => fetched_at >= at,
        None => now < fetched_at || now - fetched_at < CACHE_TTL_MILLIS,
    }
}

} // verus!
