//! Errors of std that the library's own errors carry.
use vstd::prelude::*;

verus! {

/// `std::io::Error`, carried by errors of this crate; Verus sees nothing
/// inside it.
#[verifier::external_type_specification]
#[verifier::external_body]
pub struct ExIoError(std::io::Error);

/// `std::string::FromUtf8Error`, carried by errors of this crate; Verus sees
/// nothing inside it.
#[verifier::external_type_specification]
#[verifier::external_body]
pub struct ExFromUtf8Error(std::string::FromUtf8Error);

/// Whether an I/O error is of the kind `NotFound`, as
/// `std::io::Error::kind` reports it.
pub uninterp spec fn kind_is_not_found(error: std::io::Error) -> bool;

/// Calls `std::io::Error::kind` and tells whether the kind is `NotFound`;
/// the answer is taken to be the value of the name `kind_is_not_found` on
/// the error, which Verus sees nothing inside of.
#[verifier::external_body]
pub(crate) fn is_not_found(error: &std::io::Error) -> (b: bool)
    ensures
        b == kind_is_not_found(*error),
{
    matches!(error.kind(), std::io::ErrorKind::NotFound)
}

} // verus!
