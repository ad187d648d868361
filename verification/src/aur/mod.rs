//! Packages of the AUR and their git repositories.
use vstd::prelude::*;

use crate::config::AUR_URL;
use crate::error::{is_not_found, kind_is_not_found};
use crate::text::contains_char;

pub mod rpc;

verus! {

/// A package of the AUR to be cloned into `directory`, by its name and the
/// name of its base, whose repository holds it.
#[derive(Debug, Clone, PartialEq, Eq, Hash)]
pub struct Package<'a> {
    name: &'a str,
    base: &'a str,
    directory: String,
}

/// A package name that could leave its directory: it holds a `/`.
#[derive(Debug)]
pub struct PackageNameParseError(pub String);

/// The address of the git repository of the package base `base`.
pub open spec fn repository_url_of(base: Seq<char>) -> Seq<char> {
    AUR_URL@ + "/"@ + base + ".git"@
}

/// The address of the git repository of the package base `base`.
pub fn repository_url_for(base: &str) -> (u: String)
    ensures
        u@ == repository_url_of(base@),
{
    let mut url = AUR_URL.to_owned();
    url.append("/");
    url.append(base);
    url.append(".git");
    url
}

impl<'a> Package<'a> {
    /// The package's name.
    pub closed spec fn name_view(&self) -> Seq<char> {
        self.name@
    }

    /// The name of the package's base.
    pub closed spec fn base_view(&self) -> Seq<char> {
        self.base@
    }

    /// Where the package's repository is cloned.
    pub closed spec fn directory_view(&self) -> Seq<char> {
        self.directory@
    }

    /// The package `name` of the base `base`, to be cloned into
    /// `directory`; refused when the name holds a `/`.
    pub fn new(name: &'a str, base: &'a str, directory: String) -> (r: Result<
        Self,
        PackageNameParseError,
    >)
        ensures
            match r {
                Ok(p) => !name@.contains('/') && p.name_view() == name@ && p.base_view() == base@
                    && p.directory_view() == directory@,
                Err(e) => name@.contains('/') && e.0@ == name@,
            },
    {
        if contains_char(name, '/') {
            Err(PackageNameParseError(name.to_owned()))
        } else {
            Ok(Package { name, base, directory })
        }
    }

    /// The package's name.
    pub fn name(&self) -> (n: &str)
        ensures
            n@ == self.name_view(),
    {
        self.name
    }

    /// The name of the package's base.
    pub fn base(&self) -> (b: &str)
        ensures
            b@ == self.base_view(),
    {
        self.base
    }

    /// Where the package's repository is cloned.
    pub fn directory(&self) -> (d: &str)
        ensures
            d@ == self.directory_view(),
    {
        self.directory.as_str()
    }

    /// The address of the package's git repository in the AUR.
    pub fn repository_url(&self) -> (u: String)
        ensures
            u@ == repository_url_of(self.base_view()),
    {
        repository_url_for(self.base)
    }
}

/// Why a repository could not be cloned.
#[derive(Debug)]
pub enum CloneError {
    /// git is not installed.
    Missing,
    /// git could not be run.
    Git(std::io::Error),
    /// git ran and failed; what it printed on its error stream.
    GitCloneFailed { stderr: String },
}

impl CloneError {
    /// The error for a git process that could not be started: `Missing`
    /// when the system reported that git does not exist.
    pub fn from_spawn_failure(missing: bool, error: std::io::Error) -> (e: Self)
        ensures
            missing ==> e is Missing,
            !missing ==> e == CloneError::Git(error),
    {
        if missing {
            CloneError::Missing
        } else {
            CloneError::Git(error)
        }
    }

    /// The error for a git process that could not be started.
    pub fn spawn(error: std::io::Error) -> (e: Self)
        ensures
            kind_is_not_found(error) ==> e is Missing,
            !kind_is_not_found(error) ==> e == CloneError::Git(error),
    {
        let missing = is_not_found(&error);
        Self::from_spawn_failure(missing, error)
    }
}

} // verus!
