//! The `.SRCINFO` description of a package's build.
use vstd::prelude::*;

verus! {

/// `srcinfo::Error`, why a `.SRCINFO` text was refused; Verus sees nothing
/// inside it.
#[verifier::external_type_specification]
#[verifier::external_body]
pub struct ExSrcinfoError(srcinfo::Error);

/// Whether the `.SRCINFO` parser of the `srcinfo` crate accepts a text.
pub uninterp spec fn srcinfo_accepts(text: Seq<char>) -> bool;

/// Calls the parser of the `srcinfo` crate on a text, through
/// `Srcinfo::from_str`; whether it succeeds is taken to be the value of the
/// name `srcinfo_accepts` on the text. What the parsed description holds,
/// and what the error says, are not stated.
#[verifier::external_body]
fn parse_with_srcinfo(text: &str) -> (r: Result<(), srcinfo::Error>)
    ensures
        r is Ok <==> srcinfo_accepts(text@),
{
    text.parse::<srcinfo::Srcinfo>().map(|_| ())
}

/// Why a `.SRCINFO` text could not be read.
#[derive(Debug)]
pub enum SrcinfoError {
    /// The parser refused the text.
    Parse(srcinfo::Error),
}

/// Checks that a `.SRCINFO` text parses.
pub fn parse_srcinfo(text: &str) -> (r: Result<(), SrcinfoError>)
    ensures
        r is Ok <==> srcinfo_accepts(text@),
{
    match parse_with_srcinfo(text) {
        Ok(()) => Ok(()),
        Err(e) => Err(SrcinfoError::Parse(e)),
    }
}

} // verus!
