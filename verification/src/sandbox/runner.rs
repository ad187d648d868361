//! Reading the output of makepkg while a package builds in the sandbox.
use std::collections::VecDeque;

use vstd::prelude::*;

use crate::text::{
    char_is_whitespace, has_prefix, starts_with, str_eq, strip_prefix, strip_suffix_char, trim,
    trim_chars, trim_start, trim_start_chars,
};

verus! {

/// How many recent actions the rolling activity log keeps.
pub const MAX_ACTIVITY_LINES: usize = 4;

/// Longest build line shown in the activity log, in characters.
pub const MAX_SUMMARY_CHARS: usize = 64;

/// Characters kept of a longer build line, before the ellipsis.
pub const SUMMARY_KEPT_CHARS: usize = 61;

/// The characters of each string of a sequence.
pub open spec fn views(q: Seq<String>) -> Seq<Seq<char>> {
    q.map_values(|s: String| s@)
}

/// The activity log after `line` was recorded in `log`: a line equal to the
/// last one is not repeated, and a full log drops its oldest line first.
pub open spec fn activity_after(log: Seq<Seq<char>>, line: Seq<char>) -> Seq<Seq<char>> {
    if log.len() > 0 && log.last() == line {
        log
    } else if log.len() == MAX_ACTIVITY_LINES {
        log.drop_first().push(line)
    } else {
        log.push(line)
    }
}

/// No two neighbouring lines of an activity log are equal.
pub open spec fn no_repeats(log: Seq<Seq<char>>) -> bool {
    forall|i: int, j: int|
        0 <= i && j == i + 1 && j < log.len() ==> #[trigger] log[i] != #[trigger] log[j]
}

/// The activity log never grows past `MAX_ACTIVITY_LINES` lines, ends with
/// the line just recorded, and keeps the newest lines it had before, in
/// their order.
pub proof fn activity_bounded(log: Seq<Seq<char>>, line: Seq<char>)
    requires
        log.len() <= MAX_ACTIVITY_LINES,
    ensures
        activity_after(log, line).len() <= MAX_ACTIVITY_LINES,
        activity_after(log, line).len() > 0,
        activity_after(log, line).last() == line,
        activity_after(log, line) == log || exists|k: int|
            0 <= k <= log.len() && activity_after(log, line) == #[trigger] log.push(line).subrange(
                k,
                log.len() + 1 as int,
            ),
{
    if log.len() > 0 && log.last() == line {
    } else if log.len() == MAX_ACTIVITY_LINES {
        assert(log.drop_first().push(line) =~= log.push(line).subrange(1, log.len() + 1 as int));
    } else {
        assert(log.push(line) =~= log.push(line).subrange(0, log.len() + 1 as int));
    }
}

/// Recording a line never puts two equal lines next to each other.
pub proof fn activity_no_repeats(log: Seq<Seq<char>>, line: Seq<char>)
    requires
        no_repeats(log),
    ensures
        no_repeats(activity_after(log, line)),
{
    let after = activity_after(log, line);
    if log.len() > 0 && log.last() == line {
    } else if log.len() == MAX_ACTIVITY_LINES {
        assert forall|i: int, j: int|
            0 <= i && j == i + 1 && j < after.len() implies #[trigger] after[i] != #[trigger] after[j] by {
            if j < after.len() - 1 {
                assert(after[i] == log[i + 1]);
                assert(after[j] == log[j + 1]);
            } else {
                assert(after[i] == log.last());
            }
        }
    } else {
        assert forall|i: int, j: int|
            0 <= i && j == i + 1 && j < after.len() implies #[trigger] after[i] != #[trigger] after[j] by {
            if j < log.len() {
                assert(after[i] == log[i]);
                assert(after[j] == log[j]);
            } else {
                assert(after[i] == log.last());
            }
        }
    }
}

/// A summary shown in the activity log is never empty, never longer than
/// `MAX_SUMMARY_CHARS` characters, and never one of makepkg's `==>` headers.
pub proof fn summary_law(line: Seq<char>)
    ensures
        match build_line_summary(line) {
            Some(s) => 0 < s.len() <= MAX_SUMMARY_CHARS && !has_prefix(s, "==>"@),
            None => true,
        },
{
    let t = trim_chars(line);
    reveal_strlit("==>");
    reveal_strlit("...");
    if t.len() > MAX_SUMMARY_CHARS && !has_prefix(t, "==>"@) {
        let s = t.subrange(0, SUMMARY_KEPT_CHARS as int) + "..."@;
        assert(s.subrange(0, 3) =~= t.subrange(0, 3));
    }
}

/// The stage names that move the progress bar rather than the activity log.
pub open spec fn is_progress_stage_name(status: Seq<char>) -> bool {
    ||| status == "validating"@
    ||| status == "extracting"@
    ||| status == "resolving version"@
    ||| status == "preparing"@
    ||| status == "building"@
    ||| status == "testing"@
    ||| status == "packaging"@
    ||| status == "tidying"@
    ||| status == "compressing"@
    ||| status == "generating metadata"@
    ||| status == "done"@
}

/// What a line of build output shows in the activity log, if anything: the
/// line without surrounding whitespace, cut to `SUMMARY_KEPT_CHARS`
/// characters and an ellipsis when longer than `MAX_SUMMARY_CHARS`. Empty
/// lines and makepkg's own `==>` headers show nothing.
pub open spec fn build_line_summary(line: Seq<char>) -> Option<Seq<char>> {
    let t = trim_chars(line);
    if t.len() == 0 || has_prefix(t, "==>"@) {
        None
    } else if t.len() > MAX_SUMMARY_CHARS {
        Some(t.subrange(0, SUMMARY_KEPT_CHARS as int) + "..."@)
    } else {
        Some(t)
    }
}

/// The package named by a `==> Creating package "name"...` line.
pub open spec fn created_package(line: Seq<char>) -> Seq<char> {
    let open = "==> Creating package \""@;
    let pkg = if has_prefix(line, open) {
        line.subrange(open.len() as int, line.len() as int)
    } else {
        Seq::empty()
    };
    if pkg.len() > 0 && pkg.last() == '"' {
        pkg.drop_last()
    } else {
        pkg
    }
}

/// The user-facing build stage that a line of makepkg output announces, if
/// any. Lines that name a source or a package give that name; the others
/// give the stage's word.
pub open spec fn makepkg_stage(line: Seq<char>) -> Option<Seq<char>> {
    let retrieving = "==> Retrieving sources..."@;
    let downloading = "  -> Downloading "@;
    let found = "  -> Found "@;
    if has_prefix(line, retrieving) && line.len() > retrieving.len() {
        Some(trim_start_chars(line.subrange(retrieving.len() as int, line.len() as int)))
    } else if has_prefix(line, downloading) {
        Some(line.subrange(downloading.len() as int, line.len() as int))
    } else if has_prefix(line, found) {
        Some(line.subrange(found.len() as int, line.len() as int))
    } else if has_prefix(line, "==> Validating source"@) {
        Some("validating"@)
    } else if has_prefix(line, "==> Extracting sources"@) {
        Some("extracting"@)
    } else if has_prefix(line, "==> Starting pkgver"@) {
        Some("resolving version"@)
    } else if has_prefix(line, "==> Starting prepare"@) {
        Some("preparing"@)
    } else if has_prefix(line, "==> Starting build"@) {
        Some("building"@)
    } else if has_prefix(line, "==> Starting check"@) {
        Some("testing"@)
    } else if has_prefix(line, "==> Entering fakeroot"@) {
        Some("packaging"@)
    } else if has_prefix(line, "==> Starting package"@) {
        Some("packaging"@)
    } else if has_prefix(line, "==> Tidying install"@) {
        Some("tidying"@)
    } else if has_prefix(line, "==> Creating package"@) {
        Some(created_package(line))
    } else if has_prefix(line, "==> Compressing package"@) {
        Some("compressing"@)
    } else if has_prefix(line, "==> Generating .PKGINFO"@) {
        Some("generating metadata"@)
    } else if has_prefix(line, "==> Generating .BUILDINFO"@) {
        Some("generating metadata"@)
    } else if has_prefix(line, "==> Generating .MTREE"@) {
        Some("generating metadata"@)
    } else if has_prefix(line, "==> Finished making"@) {
        Some("done"@)
    } else {
        None
    }
}

/// Records `line` in the rolling activity log: a line equal to the last one
/// is skipped, and once the log holds `MAX_ACTIVITY_LINES` lines the oldest
/// one leaves.
pub fn append_activity(activity: &mut VecDeque<String>, line: &str)
    ensures
        views(final(activity)@) == activity_after(views(old(activity)@), line@),
{
    let len = activity.len();
    if len > 0 && str_eq(activity[len - 1].as_str(), line) {
        return;
    }
    let ghost before = activity@;
    if len == MAX_ACTIVITY_LINES {
        activity.pop_front();
    }
    let ghost middle = activity@;
    activity.push_back(line.to_owned());
    proof {
        if len == MAX_ACTIVITY_LINES {
            assert(views(middle) =~= views(before).drop_first());
        }
        assert(views(activity@) =~= views(middle).push(line@));
    }
}

/// Whether a stage only moves the progress bar, and so stays out of the
/// activity log.
pub fn is_progress_stage(status: &str) -> (b: bool)
    ensures
        b == is_progress_stage_name(status@),
{
    str_eq(status, "validating") || str_eq(status, "extracting") || str_eq(
        status,
        "resolving version",
    ) || str_eq(status, "preparing") || str_eq(status, "building") || str_eq(status, "testing")
        || str_eq(status, "packaging") || str_eq(status, "tidying") || str_eq(
        status,
        "compressing",
    ) || str_eq(status, "generating metadata") || str_eq(status, "done")
}

/// What a line of build output adds to the activity log, if anything.
pub fn summarize_build_line(line: &str) -> (r: Option<String>)
    ensures
        match r {
            Some(s) => build_line_summary(line@) == Some(s@),
            None => build_line_summary(line@) is None,
        },
{
    let line = trim(line);
    if line.unicode_len() == 0 || starts_with(line, "==>") {
        return None;
    }
    if line.unicode_len() > MAX_SUMMARY_CHARS {
        let mut summary = line.substring_char(0, SUMMARY_KEPT_CHARS).to_owned();
        summary.append("...");
        Some(summary)
    } else {
        Some(line.to_owned())
    }
}

/// The build stage a line of makepkg output announces, if any.
pub fn parse_makepkg_stage<'a>(line: &'a str) -> (r: Option<&'a str>)
    ensures
        match r {
            Some(s) => makepkg_stage(line@) == Some(s@),
            None => makepkg_stage(line@) is None,
        },
{
    if let Some(rest) = strip_prefix(line, "==> Retrieving sources...") {
        if rest.unicode_len() > 0 {
            return Some(trim_start(rest));
        }
    }
    if let Some(file) = strip_prefix(line, "  -> Downloading ") {
        return Some(file);
    }
    if let Some(file) = strip_prefix(line, "  -> Found ") {
        return Some(file);
    }
    if starts_with(line, "==> Validating source") {
        return Some("validating");
    }
    if starts_with(line, "==> Extracting sources") {
        return Some("extracting");
    }
    if starts_with(line, "==> Starting pkgver") {
        return Some("resolving version");
    }
    if starts_with(line, "==> Starting prepare") {
        return Some("preparing");
    }
    if starts_with(line, "==> Starting build") {
        return Some("building");
    }
    if starts_with(line, "==> Starting check") {
        return Some("testing");
    }
    if starts_with(line, "==> Entering fakeroot") {
        return Some("packaging");
    }
    if starts_with(line, "==> Starting package") {
        return Some("packaging");
    }
    if starts_with(line, "==> Tidying install") {
        return Some("tidying");
    }
    if starts_with(line, "==> Creating package") {
        let pkg = match strip_prefix(line, "==> Creating package \"") {
            Some(p) => p,
            None => {
                proof {
                    reveal_strlit("");
                }
                ""
            },
        };
        let pkg = match strip_suffix_char(pkg, '"') {
            Some(p) => p,
            None => pkg,
        };
        return Some(pkg);
    }
    if starts_with(line, "==> Compressing package") {
        return Some("compressing");
    }
    if starts_with(line, "==> Generating .PKGINFO") {
        return Some("generating metadata");
    }
    if starts_with(line, "==> Generating .BUILDINFO") {
        return Some("generating metadata");
    }
    if starts_with(line, "==> Generating .MTREE") {
        return Some("generating metadata");
    }
    if starts_with(line, "==> Finished making") {
        return Some("done");
    }
    None
}

/// What a running build has shown so far: the stage it reached, the rolling
/// log of recent actions, and the whole output, kept for diagnostics.
pub struct BuildMonitor {
    current_status: String,
    activity: VecDeque<String>,
    full_output: String,
}

impl BuildMonitor {
    #[verifier::type_invariant]
    spec fn well_formed(self) -> bool {
        &&& views(self.activity@).len() <= MAX_ACTIVITY_LINES
        &&& no_repeats(views(self.activity@))
    }

    /// The stage the build reached, empty before the first stage.
    pub closed spec fn status(&self) -> Seq<char> {
        self.current_status@
    }

    /// The rolling log of recent actions, oldest first.
    pub closed spec fn log(&self) -> Seq<Seq<char>> {
        views(self.activity@)
    }

    /// Every line of output seen so far, each ended by a newline.
    pub closed spec fn output(&self) -> Seq<char> {
        self.full_output@
    }

    /// A monitor for a build that has printed nothing yet.
    pub fn new() -> (m: Self)
        ensures
            m.status() == Seq::<char>::empty(),
            m.log() == Seq::<Seq<char>>::empty(),
            m.output() == Seq::<char>::empty(),
    {
        let m = BuildMonitor {
            current_status: String::new(),
            activity: VecDeque::new(),
            full_output: String::new(),
        };
        assert(views(m.activity@) =~= Seq::<Seq<char>>::empty());
        m
    }

    /// The stage the build reached.
    pub fn current_status(&self) -> (s: &str)
        ensures
            s@ == self.status(),
    {
        self.current_status.as_str()
    }

    /// The rolling log of recent actions.
    pub fn activity(&self) -> (a: &VecDeque<String>)
        ensures
            views(a@) == self.log(),
            self.log().len() <= MAX_ACTIVITY_LINES,
            no_repeats(self.log()),
    {
        proof {
            use_type_invariant(self);
        }
        &self.activity
    }

    /// Takes in one line of build output. A line that announces a stage
    /// makes it the current stage, and enters the activity log unless it
    /// only moves the progress bar; on a terminal, any other line enters the
    /// log by its summary. Returns whether the progress display is to be
    /// drawn again: always on a terminal, and on a stage line elsewhere.
    pub fn observe_line(&mut self, line: &str, interactive: bool) -> (redraw: bool)
        ensures
            final(self).log().len() <= MAX_ACTIVITY_LINES,
            no_repeats(final(self).log()),
            final(self).output() == old(self).output() + line@ + "\n"@,
            match makepkg_stage(line@) {
                Some(stage) => {
                    &&& final(self).status() == stage
                    &&& final(self).log() == (if is_progress_stage_name(stage) {
                        old(self).log()
                    } else {
                        activity_after(old(self).log(), stage)
                    })
                    &&& redraw
                },
                None => {
                    &&& final(self).status() == old(self).status()
                    &&& final(self).log() == (if interactive {
                        match build_line_summary(line@) {
                            Some(detail) => activity_after(old(self).log(), detail),
                            None => old(self).log(),
                        }
                    } else {
                        old(self).log()
                    })
                    &&& redraw == interactive
                },
            },
    {
        proof {
            use_type_invariant(&*self);
        }
        let mut output = String::new();
        std::mem::swap(&mut output, &mut self.full_output);
        output.append(line);
        output.append("\n");
        self.full_output = output;
        let mut activity: VecDeque<String> = VecDeque::new();
        std::mem::swap(&mut activity, &mut self.activity);
        let ghost before = views(activity@);
        let is_stage = match parse_makepkg_stage(line) {
            Some(status) => {
                self.current_status = status.to_owned();
                if !is_progress_stage(status) {
                    proof {
                        activity_bounded(before, status@);
                        activity_no_repeats(before, status@);
                    }
                    append_activity(&mut activity, status);
                }
                true
            },
            None => {
                if interactive {
                    if let Some(detail) = summarize_build_line(line) {
                        proof {
                            activity_bounded(before, detail@);
                            activity_no_repeats(before, detail@);
                        }
                        append_activity(&mut activity, detail.as_str());
                    }
                }
                false
            },
        };
        self.activity = activity;
        interactive || is_stage
    }

    /// What the build leaves to show once it exited: nothing after a
    /// success, the whole output after a failure.
    pub fn diagnostics(self, success: bool) -> (d: String)
        ensures
            d@ == (if success {
                Seq::<char>::empty()
            } else {
                self.output()
            }),
    {
        if success {
            String::new()
        } else {
            self.full_output
        }
    }
}

} // verus!
