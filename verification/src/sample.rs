//! Columns of pseudo-random field values, drawn from a seeded generator.
//!
//! Each function here seeds a fresh `rand::rngs::StdRng` and takes the first
//! `len` values that `rand::distributions::Standard` draws from it for one
//! field type. What the generator yields is not modelled: each stream has a
//! name, and the functions are trusted to return it.

use rand::distributions::Standard;
use rand::rngs::StdRng;
use rand::{Rng, SeedableRng};
use vstd::prelude::*;

verus! {

/// The first `len` values of type `u32` that the standard distribution draws
/// from a standard generator seeded with `seed`.
pub uninterp spec fn sampled_u32s(seed: Seq<u8>, len: nat) -> Seq<u32>;

/// The first `len` values of type `u16` that the standard distribution draws
/// from a standard generator seeded with `seed`.
pub uninterp spec fn sampled_u16s(seed: Seq<u8>, len: nat) -> Seq<u16>;

/// The first `len` values of type `u8` that the standard distribution draws
/// from a standard generator seeded with `seed`.
pub uninterp spec fn sampled_u8s(seed: Seq<u8>, len: nat) -> Seq<u8>;

/// The first `len` values of type `bool` that the standard distribution draws
/// from a standard generator seeded with `seed`.
pub uninterp spec fn sampled_bools(seed: Seq<u8>, len: nat) -> Seq<bool>;

/// Calls `StdRng::from_seed` and `Rng::sample_iter` with `Standard` at type
/// `u32`. Trusted: the generator is a function of its seed alone, so the
/// values are those that `sampled_u32s` names, and the iterator never ends,
/// so there are `len` of them.
#[verifier::external_body]
pub(crate) fn sample_u32s(seed: [u8; 32], len: usize) -> (out: Vec<u32>)
    ensures
        out@ == sampled_u32s(seed@, len as nat),
        out@.len() == len,
{
    StdRng::from_seed(seed).sample_iter(Standard).take(len).collect()
}

/// Calls `StdRng::from_seed` and `Rng::sample_iter` with `Standard` at type
/// `u16`. Trusted: the generator is a function of its seed alone, so the
/// values are those that `sampled_u16s` names, and the iterator never ends,
/// so there are `len` of them.
#[verifier::external_body]
pub(crate) fn sample_u16s(seed: [u8; 32], len: usize) -> (out: Vec<u16>)
    ensures
        out@ == sampled_u16s(seed@, len as nat),
        out@.len() == len,
{
    StdRng::from_seed(seed).sample_iter(Standard).take(len).collect()
}

/// Calls `StdRng::from_seed` and `Rng::sample_iter` with `Standard` at type
/// `u8`. Trusted: the generator is a function of its seed alone, so the
/// values are those that `sampled_u8s` names, and the iterator never ends,
/// so there are `len` of them.
#[verifier::external_body]
pub(crate) fn sample_u8s(seed: [u8; 32], len: usize) -> (out: Vec<u8>)
    ensures
        out@ == sampled_u8s(seed@, len as nat),
        out@.len() == len,
{
    StdRng::from_seed(seed).sample_iter(Standard).take(len).collect()
}

/// Calls `StdRng::from_seed` and `Rng::sample_iter` with `Standard` at type
/// `bool`. Trusted: the generator is a function of its seed alone, so the
/// values are those that `sampled_bools` names, and the iterator never ends,
/// so there are `len` of them.
#[verifier::external_body]
pub(crate) fn sample_bools(seed: [u8; 32], len: usize) -> (out: Vec<bool>)
    ensures
        out@ == sampled_bools(seed@, len as nat),
        out@.len() == len,
{
    StdRng::from_seed(seed).sample_iter(Standard).take(len).collect()
}

} // verus!
