//! Windows status values as the calls of the graphics stack hand them back.

use vstd::prelude::*;

verus! {

/// Whether an `HRESULT` is a failure code.
///
/// Calls `windows_core::HRESULT::is_err`, which holds of exactly the codes
/// whose sign bit is set.
#[verifier::external_body]
pub(crate) fn hresult_is_err(code: i32) -> (r: bool)
    ensures
        r == (code < 0),
{
    windows_core::HRESULT(code).is_err()
}

/// Whether a Win32 `BOOL` is true.
///
/// Calls `windows_core::BOOL::as_bool`, which holds of every value but zero.
#[verifier::external_body]
pub(crate) fn win32_bool(value: i32) -> (r: bool)
    ensures
        r == (value != 0),
{
    windows_core::BOOL(value).as_bool()
}

} // verus!
