//! What the installer shows: ages, sizes, and the columns of the install
//! plan.
use vstd::prelude::*;

use crate::dependency::package::{AurMeta, PackageNode, PackageSource};
use crate::text::{decimal, i64_to_string};

pub mod progress;

verus! {

/// Why talking with the user failed.
#[derive(Debug)]
pub enum UiError {
    /// The terminal could not be read or written.
    Io(std::io::Error),
    /// The input ended before an answer.
    StdinClosed,
    /// A progress bar's template was refused; its message.
    Template(String),
}

/// Seconds in a minute, an hour, a day, a month of thirty days and a year
/// of 365 days.
pub const MINUTE: i64 = 60;
pub const HOUR: i64 = 3600;
pub const DAY: i64 = 86400;
pub const MONTH: i64 = 2592000;
pub const YEAR: i64 = 31536000;

/// `value` units ago, the unit in the plural unless `value` is one.
pub open spec fn units_ago(value: int, unit: Seq<char>) -> Seq<char> {
    decimal(value) + " "@ + unit + (if value == 1 {
        Seq::empty()
    } else {
        "s"@
    }) + " ago"@
}

/// How long ago something happened that happened `seconds` ago: in whole
/// years, months, days, hours or minutes, the largest unit that fits, or
/// `just now` under a minute and for times still to come.
pub open spec fn age_text(seconds: int) -> Seq<char> {
    if seconds < MINUTE {
        "just now"@
    } else if seconds < HOUR {
        units_ago(seconds / MINUTE as int, "minute"@)
    } else if seconds < DAY {
        units_ago(seconds / HOUR as int, "hour"@)
    } else if seconds < MONTH {
        units_ago(seconds / DAY as int, "day"@)
    } else if seconds < YEAR {
        units_ago(seconds / MONTH as int, "month"@)
    } else {
        units_ago(seconds / YEAR as int, "year"@)
    }
}

/// An age shows the number of whole units elapsed in the largest unit of
/// which at least one elapsed: under a minute, and for times to come, it is
/// `just now`; otherwise it is `v` units ago where `v` units fit in the
/// elapsed seconds and `v + 1` do not.
pub proof fn age_law(seconds: int)
    ensures
        seconds < MINUTE ==> age_text(seconds) == "just now"@,
        MINUTE <= seconds < HOUR ==> exists|v: int|
            age_text(seconds) == #[trigger] units_ago(v, "minute"@) && 1 <= v && v * MINUTE <= seconds
                < (v + 1) * MINUTE,
        HOUR <= seconds < DAY ==> exists|v: int|
            age_text(seconds) == #[trigger] units_ago(v, "hour"@) && 1 <= v && v * HOUR <= seconds < (v
                + 1) * HOUR,
        DAY <= seconds < MONTH ==> exists|v: int|
            age_text(seconds) == #[trigger] units_ago(v, "day"@) && 1 <= v && v * DAY <= seconds < (v
                + 1) * DAY,
        MONTH <= seconds < YEAR ==> exists|v: int|
            age_text(seconds) == #[trigger] units_ago(v, "month"@) && 1 <= v && v * MONTH <= seconds < (v
                + 1) * MONTH,
        YEAR <= seconds ==> exists|v: int|
            age_text(seconds) == #[trigger] units_ago(v, "year"@) && 1 <= v && v * YEAR <= seconds < (v
                + 1) * YEAR,
{
    if MINUTE <= seconds < HOUR {
        let v = seconds / MINUTE as int;
        assert(age_text(seconds) == units_ago(v, "minute"@));
    } else if HOUR <= seconds < DAY {
        let v = seconds / HOUR as int;
        assert(age_text(seconds) == units_ago(v, "hour"@));
    } else if DAY <= seconds < MONTH {
        let v = seconds / DAY as int;
        assert(age_text(seconds) == units_ago(v, "day"@));
    } else if MONTH <= seconds < YEAR {
        let v = seconds / MONTH as int;
        assert(age_text(seconds) == units_ago(v, "month"@));
    } else if YEAR <= seconds {
        let v = seconds / YEAR as int;
        assert(age_text(seconds) == units_ago(v, "year"@));
    }
}

/// The seconds from `timestamp` to `now`, wrapped into an `i64` as the
/// release builds of Rust wrap an overflowing subtraction.
pub open spec fn elapsed(now: i64, timestamp: i64) -> i64 {
    now.wrapping_sub(timestamp)
}

/// `std::time::SystemTime`, a reading of the system clock; Verus sees
/// nothing inside it.
#[verifier::external_type_specification]
#[verifier::external_body]
pub struct ExSystemTime(std::time::SystemTime);

/// Calls `SystemTime::now`. Nothing is stated of the result: it is the
/// time.
#[verifier::external_body]
fn clock_now() -> std::time::SystemTime {
    std::time::SystemTime::now()
}

/// Calls `SystemTime::duration_since` with the Unix epoch and gives the
/// duration's whole seconds, none when the reading is before the epoch.
/// Nothing is stated of the result: the reading is opaque here.
#[verifier::external_body]
fn seconds_after_epoch(reading: &std::time::SystemTime) -> Option<u64> {
    reading.duration_since(std::time::UNIX_EPOCH).ok().map(|elapsed| elapsed.as_secs())
}

fn units_ago_text(value: i64, unit: &str) -> (s: String)
    ensures
        s@ == units_ago(value as int, unit@),
{
    let mut s = i64_to_string(value);
    s.append(" ");
    s.append(unit);
    if value != 1 {
        s.append("s");
    }
    s.append(" ago");
    s
}

/// How long before `now` the time `timestamp` was, both in seconds since
/// the Unix epoch.
pub fn relative_time_from(now: i64, timestamp: i64) -> (s: String)
    ensures
        s@ == age_text(elapsed(now, timestamp) as int),
{
    let seconds = now.wrapping_sub(timestamp);
    if seconds < MINUTE {
        "just now".to_owned()
    } else if seconds < HOUR {
        units_ago_text(seconds / MINUTE, "minute")
    } else if seconds < DAY {
        units_ago_text(seconds / HOUR, "hour")
    } else if seconds < MONTH {
        units_ago_text(seconds / DAY, "day")
    } else if seconds < YEAR {
        units_ago_text(seconds / MONTH, "month")
    } else {
        units_ago_text(seconds / YEAR, "year")
    }
}

/// The time that a clock reading of `since_epoch` whole seconds after the
/// Unix epoch stands for, as an `i64`: zero for a clock set before the
/// epoch, none read.
pub open spec fn clock_seconds(since_epoch: Option<u64>) -> i64 {
    match since_epoch {
        Some(secs) => secs as i64,
        None => 0,
    }
}

/// The time that a clock reading stands for, as an `i64`.
pub fn seconds_from_clock(since_epoch: Option<u64>) -> (t: i64)
    ensures
        t == clock_seconds(since_epoch),
{
    match since_epoch {
        Some(secs) => secs as i64,
        None => 0,
    }
}

/// The clock's seconds since the Unix epoch, as an `i64`: zero when the
/// clock is set before the epoch. Which reading the clock gives is the
/// time's, and is not stated.
pub fn now_seconds() -> (t: i64)
    ensures
        exists|since_epoch: Option<u64>| t == clock_seconds(since_epoch),
{
    let now = clock_now();
    let reading = seconds_after_epoch(&now);
    let t = seconds_from_clock(reading);
    assert(t == clock_seconds(reading));
    t
}

/// How long ago the time `timestamp`, in seconds since the Unix epoch, was.
pub fn relative_time(timestamp: i64) -> (s: String)
    ensures
        exists|now: i64| s@ == age_text(elapsed(now, timestamp) as int),
{
    let now = now_seconds();
    relative_time_from(now, timestamp)
}

/// The unit in which a size shows.
#[derive(Debug, Clone, Copy, PartialEq, Eq, Structural)]
pub enum SizeUnit {
    Bytes,
    KiB,
    MiB,
    GiB,
}

/// The unit of a size: the largest binary unit of which it holds one whole.
pub open spec fn unit_of(size: u64) -> SizeUnit {
    if size >= 1073741824 {
        SizeUnit::GiB
    } else if size >= 1048576 {
        SizeUnit::MiB
    } else if size >= 1024 {
        SizeUnit::KiB
    } else {
        SizeUnit::Bytes
    }
}

/// The unit in which a size of `size` bytes shows.
pub fn size_unit(size: u64) -> (u: SizeUnit)
    ensures
        u == unit_of(size),
{
    if size >= 1073741824 {
        SizeUnit::GiB
    } else if size >= 1048576 {
        SizeUnit::MiB
    } else if size >= 1024 {
        SizeUnit::KiB
    } else {
        SizeUnit::Bytes
    }
}

/// The name shown for where a package comes from.
pub open spec fn source_name(source: PackageSource) -> Seq<char> {
    match source {
        PackageSource::Repo => "repo"@,
        PackageSource::Aur => "aur"@,
        PackageSource::Installed => "installed"@,
    }
}

/// The name shown for where a package comes from.
pub fn source_label(source: PackageSource) -> (s: &'static str)
    ensures
        s@ == source_name(source),
{
    match source {
        PackageSource::Repo => "repo",
        PackageSource::Aur => "aur",
        PackageSource::Installed => "installed",
    }
}

/// What the maintainer column shows of a package.
#[derive(Debug)]
pub enum MaintainerCell {
    /// Not an AUR package.
    NotAur,
    /// The AUR package's maintainer.
    Maintainer(String),
    /// An AUR package that nobody maintains.
    Orphan,
}

/// What the maintainer column shows of a package: nothing for packages not
/// from the AUR, their maintainer, or that they are orphans.
pub fn maintainer_cell(aur: Option<&AurMeta>) -> (c: MaintainerCell)
    ensures
        match aur {
            None => c is NotAur,
            Some(m) => match m.maintainer {
                Some(name) => c matches MaintainerCell::Maintainer(shown) && shown == name,
                None => c is Orphan,
            },
        },
{
    match aur {
        None => MaintainerCell::NotAur,
        Some(m) => match &m.maintainer {
            Some(name) => MaintainerCell::Maintainer(name.clone()),
            None => MaintainerCell::Orphan,
        },
    }
}


/// The text columns of a package's row in the install plan; its sizes are
/// shown apart.
#[derive(Debug)]
pub struct PlanRow {
    pub name: String,
    pub version: String,
    pub source: &'static str,
    pub maintainer: MaintainerCell,
    pub votes: String,
}

/// The version column: the version, or `?` when it is not known.
pub open spec fn version_text(version: Option<String>) -> Seq<char> {
    match version {
        Some(v) => v@,
        None => "?"@,
    }
}

/// The votes column: an AUR package's votes, or `-` for other packages.
pub open spec fn votes_text(aur: Option<AurMeta>) -> Seq<char> {
    match aur {
        Some(m) => decimal(m.votes as int),
        None => "-"@,
    }
}

/// The text columns of the install plan's row for `package`.
pub fn plan_row(package: &PackageNode) -> (r: PlanRow)
    ensures
        r.name@ == package.name@,
        r.version@ == version_text(package.version),
        r.source@ == source_name(package.source),
        match package.aur {
            None => r.maintainer is NotAur,
            Some(m) => match m.maintainer {
                Some(name) => r.maintainer matches MaintainerCell::Maintainer(shown) && shown == name,
                None => r.maintainer is Orphan,
            },
        },
        r.votes@ == votes_text(package.aur),
{
    let version = match &package.version {
        Some(v) => v.clone(),
        None => "?".to_owned(),
    };
    let votes = match &package.aur {
        Some(m) => i64_to_string(m.votes as i64),
        None => "-".to_owned(),
    };
    PlanRow {
        name: package.name.clone(),
        version,
        source: source_label(package.source),
        maintainer: maintainer_cell(package.aur.as_ref()),
        votes,
    }
}

/// The maintainer detail: the maintainer, or `orphan`.
pub open spec fn maintainer_text(aur: AurMeta) -> Seq<char> {
    match aur.maintainer {
        Some(m) => m@,
        None => "orphan"@,
    }
}

/// The submitter detail, if the submitter is known.
pub open spec fn submitter_rows(aur: AurMeta) -> Seq<(Seq<char>, Seq<char>)> {
    match aur.submitter {
        Some(s) => seq![("submitter"@, s@)],
        None => Seq::empty(),
    }
}

/// The flag detail at the time `now`, if the package is flagged out of date.
pub open spec fn flagged_rows(aur: AurMeta, now: i64) -> Seq<(Seq<char>, Seq<char>)> {
    match aur.out_of_date {
        Some(flagged) => seq![("flagged"@, "out of date "@ + age_text(elapsed(now, flagged) as int))],
        None => Seq::empty(),
    }
}

/// The URL detail, if the URL is known.
pub open spec fn url_rows(aur: AurMeta) -> Seq<(Seq<char>, Seq<char>)> {
    match aur.url {
        Some(u) => seq![("url"@, u@)],
        None => Seq::empty(),
    }
}

/// The labelled details of an AUR package, at the time `now`, in the order
/// they show: its base and maintainer, its submitter if known, its votes
/// with the popularity as `popularity` writes it, how long ago it was
/// updated, since when it is flagged out of date if it is, and its URL if
/// known.
pub open spec fn detail_rows(aur: AurMeta, popularity: Seq<char>, now: i64) -> Seq<(Seq<char>, Seq<char>)> {
    seq![("base"@, aur.base@), ("maintainer"@, maintainer_text(aur))] + submitter_rows(aur) + seq![
        ("votes"@, decimal(aur.votes as int) + " (popularity "@ + popularity + ")"@),
        ("updated"@, age_text(elapsed(now, aur.last_modified) as int)),
    ] + flagged_rows(aur, now) + url_rows(aur)
}

/// The views of labelled rows.
pub open spec fn row_views(rows: Seq<(&'static str, String)>) -> Seq<(Seq<char>, Seq<char>)> {
    rows.map_values(|r: (&'static str, String)| (r.0@, r.1@))
}

/// Adds a labelled row.
fn push_row(rows: &mut Vec<(&'static str, String)>, label: &'static str, value: String)
    ensures
        row_views(final(rows)@) == row_views(old(rows)@).push((label@, value@)),
{
    let ghost before = rows@;
    rows.push((label, value));
    assert(row_views(rows@) =~= row_views(before).push((label@, value@)));
}

/// The labelled details of an AUR package shown under the install plan, at
/// the time `now`; `popularity` is its popularity score as written.
pub fn aur_detail_rows(aur: &AurMeta, popularity: &str, now: i64) -> (rows: Vec<(&'static str, String)>)
    ensures
        row_views(rows@) == detail_rows(*aur, popularity@, now),
{
    let mut rows: Vec<(&'static str, String)> = Vec::new();
    push_row(&mut rows, "base", aur.base.clone());
    let maintainer = match &aur.maintainer {
        Some(m) => m.clone(),
        None => "orphan".to_owned(),
    };
    push_row(&mut rows, "maintainer", maintainer);
    let ghost first = row_views(rows@);
    if let Some(submitter) = &aur.submitter {
        push_row(&mut rows, "submitter", submitter.clone());
    }
    let ghost second = row_views(rows@);
    let mut votes = i64_to_string(aur.votes as i64);
    votes.append(" (popularity ");
    votes.append(popularity);
    votes.append(")");
    push_row(&mut rows, "votes", votes);
    push_row(&mut rows, "updated", relative_time_from(now, aur.last_modified));
    let ghost third = row_views(rows@);
    if let Some(flagged) = aur.out_of_date {
        let mut text = "out of date ".to_owned();
        let age = relative_time_from(now, flagged);
        text.append(age.as_str());
        push_row(&mut rows, "flagged", text);
    }
    let ghost fourth = row_views(rows@);
    if let Some(url) = &aur.url {
        push_row(&mut rows, "url", url.clone());
    }
    proof {
        assert(first =~= seq![("base"@, aur.base@), ("maintainer"@, maintainer_text(*aur))]);
        assert(second =~= first + submitter_rows(*aur));
        assert(third =~= second + seq![
            ("votes"@, decimal(aur.votes as int) + " (popularity "@ + popularity@ + ")"@),
            ("updated"@, age_text(elapsed(now, aur.last_modified) as int)),
        ]);
        assert(fourth =~= third + flagged_rows(*aur, now));
        assert(row_views(rows@) =~= fourth + url_rows(*aur));
    }
    rows
}

} // verus!
