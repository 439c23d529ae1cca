use rand::RngExt;
use vstd::prelude::*;

verus! {

#[verifier::external_type_specification]
#[verifier::external_body]
pub struct ExThreadRng(rand::rngs::ThreadRng);

/// Relies on `rand::rng`: a handle to the thread-local random generator.
/// Nothing is claimed of it; only values drawn through it are specified.
#[verifier::external_body]
pub(crate) fn fresh_rng() -> rand::rngs::ThreadRng {
    rand::rng()
}

/// Relies on `rand::RngExt::random_range` on the non-empty range `0..n`: the
/// sample always lies in that range.  Which value comes back is random, so
/// nothing more is claimed.
#[verifier::external_body]
pub(crate) fn rand_below(rng: &mut rand::rngs::ThreadRng, n: usize) -> (r: usize)
    requires
        1 <= n,
    ensures
        r < n,
{
    rng.random_range(0..n)
}

/// Relies on `std::time::SystemTime::now`: the current time, converted to
/// whole nanoseconds since the UNIX epoch (0 if the clock reads earlier than
/// the epoch).  The value depends on the wall clock, so nothing is claimed
/// of it; callers must hold for every value that comes back.
#[verifier::external_body]
pub(crate) fn clock_nanos() -> u64 {
    std::time::SystemTime::now()
        .duration_since(std::time::UNIX_EPOCH)
        .map(|d| d.as_nanos() as u64)
        .unwrap_or(0)
}

} // verus!
