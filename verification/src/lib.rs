//! A sandboxed installer for packages of the Arch User Repository: the
//! dependency resolver, the install order, the sandbox description and the
//! readers of pacman's and makepkg's output.
use vstd::prelude::*;

pub mod aur;
pub mod build;
pub mod cli;
pub mod bwrap;
pub mod config;
pub mod dependency;
pub mod error;
pub mod path;
pub mod pkgbuild;
pub mod sandbox;
pub mod text;
pub mod ui;

verus! {

} // verus!
