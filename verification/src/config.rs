//! Where the installer finds the AUR and keeps its builds.
use vstd::prelude::*;

verus! {

/// The AUR's web address.
pub const AUR_URL: &'static str = "https://aur.archlinux.org";

/// The directory that holds the clones of AUR packages and their builds.
pub const BUILD_PATH: &'static str = "/tmp/aur-pkg-manager";

} // verus!
