//! Contracts for the random numbers of `fastrand`. Nothing in this file is
//! proved. Of a random number only its range is known.

use vstd::prelude::*;

verus! {

/// `fastrand::u64` on the range from `low` up to, not including, `high`: some
/// number of that range. The range must not be empty.
#[verifier::external_body]
pub(crate) fn random_u64(low: u64, high: u64) -> (drawn: u64)
    requires
        low < high,
    ensures
        low <= drawn < high,
{
    fastrand::u64(low..high)
}

/// `fastrand::usize` on the range from `low` up to, not including, `high`:
/// some number of that range. The range must not be empty.
#[verifier::external_body]
pub(crate) fn random_usize(low: usize, high: usize) -> (drawn: usize)
    requires
        low < high,
    ensures
        low <= drawn < high,
{
    fastrand::usize(low..high)
}

/// `fastrand::isize` on the range from `low` up to, not including, `high`:
/// some number of that range. The range must not be empty.
#[verifier::external_body]
pub(crate) fn random_isize(low: isize, high: isize) -> (drawn: isize)
    requires
        low < high,
    ensures
        low <= drawn < high,
{
    fastrand::isize(low..high)
}

} // verus!
