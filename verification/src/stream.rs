//! The seeded random stream that every sample is drawn from.
//!
//! The generator is `rand_chacha`'s `ChaCha8Rng`. Nothing in this module is
//! proved: each item states what the generator's source shows, and the rest of
//! the library is verified against these statements.

use rand::Rng;
use rand::SeedableRng;
use rand_chacha::ChaCha8Rng;
use vstd::prelude::*;

verus! {

/// `rand_chacha::ChaCha8Rng`, carried through as an opaque value.
#[verifier::external_type_specification]
#[verifier::external_body]
pub struct ExChaCha8Rng(ChaCha8Rng);

/// What fixes every later draw of a generator: its key, its stream number and
/// its word position, which are all that `ChaCha8Rng` compares in `==`.
pub uninterp spec fn stream_state(rng: ChaCha8Rng) -> Seq<u8>;

/// State of the generator that `ChaCha8Rng::seed_from_u64` makes from `seed`.
pub uninterp spec fn seeded_state(seed: u64) -> Seq<u8>;

/// Value that `gen_range(low..high)` draws as a `u64` from a generator in
/// state `state`, and the state that the draw leaves behind.
pub uninterp spec fn drawn_u64(state: Seq<u8>, low: u64, high: u64) -> (u64, Seq<u8>);

/// Value that `gen_range(low..high)` draws as an `i32` from a generator in
/// state `state`, and the state that the draw leaves behind.
pub uninterp spec fn drawn_i32(state: Seq<u8>, low: i32, high: i32) -> (i32, Seq<u8>);

/// Calls `ChaCha8Rng::seed_from_u64`. The seed alone fixes the generator that
/// comes back: the same seed gives the same state on every run and machine.
#[verifier::external_body]
pub(crate) fn seeded_stream(seed: u64) -> (rng: ChaCha8Rng)
    ensures
        stream_state(rng) == seeded_state(seed),
{
    ChaCha8Rng::seed_from_u64(seed)
}

/// Calls `Rng::gen_range` on the half-open range `low..high` of `u64`. The
/// call panics on an empty range, so `low < high` is required. The value lies
/// in the range; it and the generator's next state are fixed by the state
/// before the call and the two bounds. Places in the layer are drawn through
/// this function: a draw of `u64` consumes the stream alike on every machine,
/// which a draw of `usize` does not.
#[verifier::external_body]
pub(crate) fn draw_u64(rng: &mut ChaCha8Rng, low: u64, high: u64) -> (value: u64)
    requires
        low < high,
    ensures
        low <= value < high,
        (value, stream_state(*final(rng))) == drawn_u64(stream_state(*old(rng)), low, high),
{
    rng.gen_range(low..high)
}

/// Calls `Rng::gen_range` on the half-open range `low..high` of `i32`. The
/// call panics on an empty range, so `low < high` is required. The value lies
/// in the range; it and the generator's next state are fixed by the state
/// before the call and the two bounds.
#[verifier::external_body]
pub(crate) fn draw_i32(rng: &mut ChaCha8Rng, low: i32, high: i32) -> (value: i32)
    requires
        low < high,
    ensures
        low <= value < high,
        (value, stream_state(*final(rng))) == drawn_i32(stream_state(*old(rng)), low, high),
{
    rng.gen_range(low..high)
}

} // verus!
