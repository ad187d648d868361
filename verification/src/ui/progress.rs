//! The build progress shown to the user.
use vstd::prelude::*;

use crate::sandbox::runner::is_progress_stage_name;
use crate::text::str_eq;

verus! {

/// How far along the build is, in percent, once it reached `status`.
/// Unknown stages count as just started.
pub open spec fn stage_percent(status: Seq<char>) -> u8 {
    if status.len() == 0 {
        0
    } else if status == "validating"@ {
        20
    } else if status == "extracting"@ {
        30
    } else if status == "resolving version"@ {
        40
    } else if status == "preparing"@ {
        50
    } else if status == "building"@ {
        65
    } else if status == "testing"@ {
        75
    } else if status == "packaging"@ {
        85
    } else if status == "tidying"@ {
        90
    } else if status == "compressing"@ {
        95
    } else if status == "generating metadata"@ {
        97
    } else if status == "done"@ {
        100
    } else {
        10
    }
}

/// The phase shown for a stage: `starting` before the first stage.
pub open spec fn phase_name(status: Seq<char>) -> Seq<char> {
    if status.len() == 0 {
        "starting"@
    } else {
        status
    }
}

/// The phase shown for the current stage.
pub fn phase<'a>(status: &'a str) -> (p: &'a str)
    ensures
        p@ == phase_name(status@),
{
    if status.unicode_len() == 0 {
        "starting"
    } else {
        status
    }
}

/// How far along the build is, in percent, at the current stage.
pub fn stage_completion(status: &str) -> (p: u8)
    ensures
        p == stage_percent(status@),
{
    if status.unicode_len() == 0 {
        0
    } else if str_eq(status, "validating") {
        20
    } else if str_eq(status, "extracting") {
        30
    } else if str_eq(status, "resolving version") {
        40
    } else if str_eq(status, "preparing") {
        50
    } else if str_eq(status, "building") {
        65
    } else if str_eq(status, "testing") {
        75
    } else if str_eq(status, "packaging") {
        85
    } else if str_eq(status, "tidying") {
        90
    } else if str_eq(status, "compressing") {
        95
    } else if str_eq(status, "generating metadata") {
        97
    } else if str_eq(status, "done") {
        100
    } else {
        10
    }
}


/// The stages kept out of the activity log are exactly those that move the
/// progress bar to a place of their own: every other stage shows as just
/// started, or as not started when there is none.
pub proof fn progress_stages_have_their_own_place(status: Seq<char>)
    ensures
        is_progress_stage_name(status) <==> (stage_percent(status) != 0 && stage_percent(status) != 10),
        stage_percent(status) <= 100,
{
    reveal_strlit("validating");
    reveal_strlit("extracting");
    reveal_strlit("resolving version");
    reveal_strlit("preparing");
    reveal_strlit("building");
    reveal_strlit("testing");
    reveal_strlit("packaging");
    reveal_strlit("tidying");
    reveal_strlit("compressing");
    reveal_strlit("generating metadata");
    reveal_strlit("done");
}

} // verus!
