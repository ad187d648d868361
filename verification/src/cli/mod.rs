//! The commands of the installer.
use vstd::prelude::*;

use crate::aur::{CloneError, Package, PackageNameParseError};
use crate::build::{BuildError, SandboxError};
use crate::config::BUILD_PATH;
use crate::dependency::package::{PackageNode, PacmanError};
use crate::dependency::resolver::ResolveError;
use crate::path::{join_path, joined};
use crate::text::{trim, trim_chars};
use crate::ui::UiError;

verus! {

/// Why a command failed.
#[derive(Debug)]
pub enum CliError {
    Resolve(ResolveError),
    Pacman(PacmanError),
    PackageName(PackageNameParseError),
    Clone(CloneError),
    Sandbox(SandboxError),
    Build(BuildError),
    Ui(UiError),
    /// The user declined to go on.
    UserCancelled,
}

/// The command line: a command, and whether to say more.
#[derive(Debug)]
pub struct Cli {
    pub command: Command,
    pub verbose: bool,
}

/// What the user asked for.
#[derive(Debug)]
pub enum Command {
    /// Install packages, with their dependencies.
    Install { packages: Vec<String> },
    /// Run an installed package.
    Run { package: String },
    /// Remove an installed package.
    Remove { package: String },
}

/// The directories of installed packages.
#[derive(Debug)]
pub struct InstalledPackages(pub Vec<String>);

/// The lowercase form of a text, as `str::to_lowercase` gives it.
pub uninterp spec fn lowercase(s: Seq<char>) -> Seq<char>;

/// Calls `str::to_lowercase`; the result is taken to be the value of the
/// name `lowercase` on the text. The Unicode case mapping itself is not
/// stated here.
#[verifier::external_body]
fn to_lowercase(s: &str) -> (r: String)
    ensures
        r@ == lowercase(s@),
{
    s.to_lowercase()
}

/// Whether an answer agrees: `y` or `yes` in any case, around whitespace.
pub open spec fn agrees(answer: Seq<char>) -> bool {
    let a = lowercase(trim_chars(answer));
    a == "y"@ || a == "yes"@
}

/// Whether the user's answer to a yes-or-no question agrees.
pub fn confirm(input: &str) -> (b: bool)
    ensures
        b == agrees(input@),
{
    let answer = to_lowercase(trim(input));
    crate::text::str_eq(answer.as_str(), "y") || crate::text::str_eq(answer.as_str(), "yes")
}

/// The base of the package's AUR repository: its AUR base, or its name.
pub open spec fn base_of(package: PackageNode) -> Seq<char> {
    match package.aur {
        Some(m) => m.base@,
        None => package.name@,
    }
}

/// The repository to clone for a package of the plan: its AUR base, cloned
/// into a directory named after it in the build directory; refused when
/// its name holds a `/`.
pub fn repository_of(package: &PackageNode) -> (r: Result<Package<'_>, PackageNameParseError>)
    ensures
        match r {
            Ok(p) => !package.name@.contains('/') && p.name_view() == package.name@
                && p.base_view() == base_of(*package) && p.directory_view() == joined(
                BUILD_PATH@,
                package.name@,
            ),
            Err(e) => package.name@.contains('/') && e.0@ == package.name@,
        },
{
    let base = match &package.aur {
        Some(m) => m.base.as_str(),
        None => package.name.as_str(),
    };
    Package::new(package.name.as_str(), base, join_path(BUILD_PATH, package.name.as_str()))
}

} // verus!
