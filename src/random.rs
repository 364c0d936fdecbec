//! Random draws. Every stochastic decision of the simulation goes through
//! these functions; all else is deterministic given their results.

use vstd::prelude::*;
use rand::Rng;
use rand::seq::IteratorRandom;

verus! {

/// Relies on `rand::Rng::gen_range` on the thread-local generator: a value of
/// the half-open range `lo..hi`, which must not be empty (it panics then).
#[verifier::external_body]
pub(crate) fn random_range(lo: i64, hi: i64) -> (r: i64)
    requires
        lo < hi,
    ensures
        lo <= r < hi,
{
    rand::thread_rng().gen_range(lo..hi)
}

/// Relies on `rand::Rng::gen_range` on the thread-local generator, as
/// `random_range` does, over `usize`: a value of `0..n`, with `n > 0`.
#[verifier::external_body]
pub(crate) fn random_below(n: usize) -> (r: usize)
    requires
        n > 0,
    ensures
        r < n,
{
    rand::thread_rng().gen_range(0..n)
}

/// Relies on `rand::seq::IteratorRandom::choose` on the thread-local
/// generator: one item of the iterator, `None` only where it is empty.
#[verifier::external_body]
pub(crate) fn choose_one(items: &Vec<i8>) -> (r: i8)
    requires
        items@.len() > 0,
    ensures
        items@.contains(r),
{
    *items.iter().choose(&mut rand::thread_rng()).unwrap()
}

/// Relies on `rand::random`: a value drawn from the standard distribution of
/// `T`. Nothing is promised of which value comes.
pub assume_specification<T>[ rand::random::<T> ]() -> (r: T)
    where
        rand::distributions::Standard: rand::distributions::Distribution<T>,
;

/// A die roll in `0..n`.
pub(crate) fn roll(n: u8) -> (r: u8)
    requires
        n > 0,
    ensures
        r < n,
{
    let v = random_range(0, n as i64);
    v as u8
}

/// A step of -1, 0 or 1.
pub(crate) fn unit_step() -> (r: i8)
    ensures
        -1 <= r <= 1,
{
    let v = random_range(-1, 2);
    v as i8
}

} // verus!
