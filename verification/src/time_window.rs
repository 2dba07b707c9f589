//! The end of the ranking window and where it comes from.
//!
//! An explicit `--until` wins; in GitHub Actions the committer time of the
//! branch head is used, so that a run is reproducible; otherwise the clock.

use vstd::prelude::*;
use crate::cli::{iso_date_parses, DateSpec};

verus! {

/// Where the end of the window came from.
#[derive(Debug, Clone, Copy, PartialEq, Eq, Structural)]
pub enum UntilSource {
    Flag,
    GithubActionsHeadCommitterTime,
    WallClock,
}

pub open spec fn until_source_name(s: UntilSource) -> Seq<char> {
    match s {
        UntilSource::Flag => "flag"@,
        UntilSource::GithubActionsHeadCommitterTime => "github_actions_head_committer_time"@,
        UntilSource::WallClock => "wall_clock"@,
    }
}

impl UntilSource {
    pub fn as_str(&self) -> (r: &'static str)
        ensures
            r@ == until_source_name(*self),
    {
        match self {
            UntilSource::Flag => "flag",
            UntilSource::GithubActionsHeadCommitterTime => "github_actions_head_committer_time",
            UntilSource::WallClock => "wall_clock",
        }
    }
}

/// The end of the window, an instant, and its source.
#[derive(Debug, Clone, Copy, PartialEq, Eq, Structural)]
pub struct UntilInfo {
    pub until_secs: i64,
    pub until_nanos: u32,
    pub source: UntilSource,
}

/// Where the end of the window comes from: the flag, else the head commit
/// when `GITHUB_ACTIONS` is `true`, else the clock.
pub fn until_source(flag_given: bool, github_actions: Option<&str>) -> (r: UntilSource)
    ensures
        flag_given ==> r == UntilSource::Flag,
        !flag_given && (github_actions matches Some(v) && v@ == "true"@) ==> r
            == UntilSource::GithubActionsHeadCommitterTime,
        !flag_given && !(github_actions matches Some(v) && v@ == "true"@) ==> r
            == UntilSource::WallClock,
{
    if flag_given {
        return UntilSource::Flag;
    }
    match github_actions {
        Some(v) => {
            let t = v.to_string();
            let expected = "true".to_string();
            if t == expected {
                UntilSource::GithubActionsHeadCommitterTime
            } else {
                UntilSource::WallClock
            }
        },
        None => UntilSource::WallClock,
    }
}

/// Midnight UTC of the date that chrono's `NaiveDate::parse_from_str(s,
/// "%Y-%m-%d")` reads, as seconds since the epoch, or `None` when it refuses
/// the text.
pub uninterp spec fn iso_date_midnight(s: Seq<char>) -> Option<int>;

/// Reads a `YYYY-MM-DD` date with chrono and gives its midnight UTC.
///
/// Claims that the result is chrono's reading of this text, and that it is
/// there exactly when chrono parses the date (midnight of a parsed date
/// always exists, and its timestamp fits in 64 bits).
#[verifier::external_body]
fn iso_date_midnight_secs(text: &str) -> (r: Option<i64>)
    ensures
        match r {
            Some(v) => iso_date_midnight(text@) == Some(v as int),
            None => iso_date_midnight(text@) is None,
        },
        r is Some <==> iso_date_parses(text@),
{
    match chrono::NaiveDate::parse_from_str(text, "%Y-%m-%d") {
        Ok(date) => match date.and_hms_opt(0, 0, 0) {
            Some(dt) => Some(dt.and_utc().timestamp()),
            None => None,
        },
        Err(_) => None,
    }
}

/// Whether chrono can represent a time of this many seconds since the epoch
/// (`DateTime::<Utc>::from_timestamp(secs, 0)` is not `None`).
pub uninterp spec fn utc_timestamp_valid(secs: int) -> bool;

/// Runs `chrono::DateTime::<Utc>::from_timestamp(secs, 0)` and tells whether
/// it gave a time.
///
/// Claims only that the answer is chrono's for this number.
#[verifier::external_body]
fn timestamp_in_range(secs: i64) -> (r: bool)
    ensures
        r == utc_timestamp_valid(secs as int),
{
    chrono::DateTime::<chrono::Utc>::from_timestamp(secs, 0).is_some()
}

/// The instant that a `--until` date stands for: the time itself, or the
/// midnight UTC that starts the date.
pub fn date_spec_to_utc(spec: &DateSpec) -> (r: Option<(i64, u32)>)
    ensures
        match *spec {
            DateSpec::Rfc3339 { secs, nanos } => r == Some((secs, nanos)),
            DateSpec::Iso8601(d) => (iso_date_parses(d@) ==> r is Some) && match iso_date_midnight(d@) {
                Some(v) => r matches Some(x) && x.0 == v && x.1 == 0,
                None => r is None,
            },
        },
{
    match spec {
        DateSpec::Rfc3339 { secs, nanos } => Some((*secs, *nanos)),
        DateSpec::Iso8601(value) => match iso_date_midnight_secs(value.as_str()) {
            Some(v) => Some((v, 0)),
            None => None,
        },
    }
}

/// The end of the window at a commit's time, when chrono can represent it.
pub fn until_from_commit_time(seconds: i64) -> (r: Option<UntilInfo>)
    ensures
        utc_timestamp_valid(seconds as int) ==> r == Some(
            UntilInfo {
                until_secs: seconds,
                until_nanos: 0,
                source: UntilSource::GithubActionsHeadCommitterTime,
            },
        ),
        !utc_timestamp_valid(seconds as int) ==> r is None,
{
    if timestamp_in_range(seconds) {
        Some(
            UntilInfo {
                until_secs: seconds,
                until_nanos: 0,
                source: UntilSource::GithubActionsHeadCommitterTime,
            },
        )
    } else {
        None
    }
}

} // verus!
