//! Where the states of a random field come from.
//!
//! A uniform value in `[0, 1)` is held as a `u32`: the draw `d` stands for
//! `d / 2^32`.  A sample is "on" when that value rounds to one, which is when
//! `d` is at least `2^31`: half of all draws.

use rand::rngs::StdRng;
use rand::{Rng, SeedableRng};
use vstd::prelude::*;
use crate::cell::Sample;

verus! {

/// Whether the uniform value `draw / 2^32` rounds to one.
pub open spec fn spec_state_of_draw(draw: u32) -> bool {
    draw >= 0x8000_0000
}

/// Turns a uniform draw into the state of a sample.
pub fn state_of_draw(draw: u32) -> (state: bool)
    ensures
        state == spec_state_of_draw(draw),
{
    draw >= 0x8000_0000
}

/// One word from `rand::thread_rng()`, by `Rng::gen::<u32>()`.
///
/// Nothing is claimed of the word: the generator is seeded by the operating
/// system and differs from call to call.  `thread_rng` panics if the operating
/// system cannot seed it.
#[verifier::external_body]
fn thread_draw() -> u32 {
    rand::thread_rng().gen::<u32>()
}

/// The sample at `(x, y)` of an unseeded random field: "on" or "off" with
/// equal chance, independently of every other call.
pub fn random_sample(x: i32, y: i32) -> (sample: Sample)
    ensures
        sample.x == x,
        sample.y == y,
{
    Sample { x, y, state: state_of_draw(thread_draw()) }
}

/// The first word that `rand::rngs::StdRng` gives after it was set up from
/// the 32 bytes of `key`.
pub uninterp spec fn spec_keyed_draw(key: Seq<u8>) -> u32;

/// The first word of `StdRng::from_seed(key)`, by `Rng::gen::<u32>()`.
///
/// `StdRng` is a ChaCha stream cipher keyed by the seed, and a fresh
/// generator starts at the beginning of the stream: the word depends on the
/// key alone.  That is all the contract claims, by giving the word a name.
#[verifier::external_body]
fn keyed_draw(key: [u8; 32]) -> (draw: u32)
    ensures
        draw == spec_keyed_draw(key@),
{
    StdRng::from_seed(key).gen::<u32>()
}

/// The first `count` bytes of `value`, least significant first.
pub open spec fn spec_le_bytes(value: nat, count: nat) -> Seq<u8>
    decreases count,
{
    if count == 0 {
        Seq::empty()
    } else {
        seq![(value % 256) as u8] + spec_le_bytes(value / 256, (count - 1) as nat)
    }
}

/// A coordinate as an unsigned 32-bit word: a negative coordinate `v` stands
/// as `2^32 + v`.
pub open spec fn spec_unsigned(v: i32) -> nat {
    if v >= 0 {
        v as nat
    } else {
        (v + 0x1_0000_0000) as nat
    }
}

/// The key under which the sample at `(x, y)` of the field with the given
/// seed draws its state: the eight bytes of the seed, the four bytes of `x`
/// and the four bytes of `y`, each least significant byte first, and then
/// sixteen zero bytes.
pub open spec fn spec_seed_key(seed: u64, x: i32, y: i32) -> Seq<u8> {
    spec_le_bytes(seed as nat, 8) + spec_le_bytes(spec_unsigned(x), 4) + spec_le_bytes(
        spec_unsigned(y),
        4,
    ) + Seq::new(16, |i: int| 0u8)
}

/// There are as many bytes as were asked for.
pub proof fn lemma_le_bytes_len(value: nat, count: nat)
    ensures
        spec_le_bytes(value, count).len() == count,
    decreases count,
{
    if count > 0 {
        lemma_le_bytes_len(value / 256, (count - 1) as nat);
    }
}

/// No two samples share a key, neither within one seed nor across seeds.
pub proof fn lemma_seed_key_is_one_to_one(
    seed: u64,
    x: i32,
    y: i32,
    other_seed: u64,
    other_x: i32,
    other_y: i32,
)
    requires
        spec_seed_key(seed, x, y) == spec_seed_key(other_seed, other_x, other_y),
    ensures
        seed == other_seed,
        x == other_x,
        y == other_y,
{
    let key = spec_seed_key(seed, x, y);
    let other = spec_seed_key(other_seed, other_x, other_y);
    lemma_le_bytes_len(seed as nat, 8);
    lemma_le_bytes_len(spec_unsigned(x), 4);
    lemma_le_bytes_len(spec_unsigned(y), 4);
    lemma_le_bytes_len(other_seed as nat, 8);
    lemma_le_bytes_len(spec_unsigned(other_x), 4);
    lemma_le_bytes_len(spec_unsigned(other_y), 4);
    assert(key.subrange(0, 8) =~= spec_le_bytes(seed as nat, 8));
    assert(other.subrange(0, 8) =~= spec_le_bytes(other_seed as nat, 8));
    assert(key.subrange(8, 12) =~= spec_le_bytes(spec_unsigned(x), 4));
    assert(other.subrange(8, 12) =~= spec_le_bytes(spec_unsigned(other_x), 4));
    assert(key.subrange(12, 16) =~= spec_le_bytes(spec_unsigned(y), 4));
    assert(other.subrange(12, 16) =~= spec_le_bytes(spec_unsigned(other_y), 4));
    lemma_eight_bytes_tell_the_value(seed as nat, other_seed as nat);
    lemma_four_bytes_tell_the_value(spec_unsigned(x), spec_unsigned(other_x));
    lemma_four_bytes_tell_the_value(spec_unsigned(y), spec_unsigned(other_y));
}

proof fn lemma_four_bytes_tell_the_value(a: nat, b: nat)
    requires
        a < 0x1_0000_0000,
        b < 0x1_0000_0000,
        spec_le_bytes(a, 4) == spec_le_bytes(b, 4),
    ensures
        a == b,
{
    reveal_with_fuel(spec_le_bytes, 5);
    let p = spec_le_bytes(a, 4);
    let q = spec_le_bytes(b, 4);
    assert(p[0] == q[0] && p[1] == q[1] && p[2] == q[2] && p[3] == q[3]);
}

proof fn lemma_eight_bytes_tell_the_value(a: nat, b: nat)
    requires
        a < 0x1_0000_0000_0000_0000,
        b < 0x1_0000_0000_0000_0000,
        spec_le_bytes(a, 8) == spec_le_bytes(b, 8),
    ensures
        a == b,
{
    reveal_with_fuel(spec_le_bytes, 5);
    let p = spec_le_bytes(a, 8);
    let q = spec_le_bytes(b, 8);
    let a_high = a / 256 / 256 / 256 / 256;
    let b_high = b / 256 / 256 / 256 / 256;
    assert(p[0] == q[0] && p[1] == q[1] && p[2] == q[2] && p[3] == q[3]);
    assert(p.subrange(4, 8) =~= spec_le_bytes(a_high, 4));
    assert(q.subrange(4, 8) =~= spec_le_bytes(b_high, 4));
    lemma_four_bytes_tell_the_value(a_high, b_high);
}

/// Appends the first `count` bytes of `value`, least significant first.
fn push_le_bytes(out: &mut Vec<u8>, value: u64, count: usize)
    ensures
        final(out)@ == old(out)@ + spec_le_bytes(value as nat, count as nat),
{
    let mut rest: u64 = value;
    let mut done: usize = 0;
    let ghost before = out@;
    assert(out@ =~= before + spec_le_bytes(value as nat, 0));
    while done < count
        invariant
            done <= count,
            out@ + spec_le_bytes(rest as nat, (count - done) as nat) == before + spec_le_bytes(
                value as nat,
                count as nat,
            ),
        decreases count - done,
    {
        let ghost tail = spec_le_bytes((rest / 256) as nat, (count - done - 1) as nat);
        assert(out@.push((rest % 256) as u8) + tail =~= out@ + (seq![(rest % 256) as u8] + tail));
        out.push((rest % 256) as u8);
        rest = rest / 256;
        done += 1;
    }
    assert(out@ + spec_le_bytes(rest as nat, 0) =~= out@);
}

/// Computes [`spec_unsigned`].
fn unsigned(v: i32) -> (u: u64)
    ensures
        u == spec_unsigned(v),
{
    if v >= 0 {
        v as u64
    } else {
        (v as i64 + 0x1_0000_0000) as u64
    }
}

/// Computes [`spec_seed_key`].
pub fn seed_key(seed: u64, x: i32, y: i32) -> (key: [u8; 32])
    ensures
        key@ == spec_seed_key(seed, x, y),
{
    let mut b: Vec<u8> = Vec::new();
    push_le_bytes(&mut b, seed, 8);
    push_le_bytes(&mut b, unsigned(x), 4);
    push_le_bytes(&mut b, unsigned(y), 4);
    proof {
        lemma_le_bytes_len(seed as nat, 8);
        lemma_le_bytes_len(spec_unsigned(x), 4);
        lemma_le_bytes_len(spec_unsigned(y), 4);
    }
    let key: [u8; 32] = [
        b[0], b[1], b[2], b[3], b[4], b[5], b[6], b[7],
        b[8], b[9], b[10], b[11], b[12], b[13], b[14], b[15],
        0, 0, 0, 0, 0, 0, 0, 0, 0, 0, 0, 0, 0, 0, 0, 0,
    ];
    assert(key@ =~= spec_seed_key(seed, x, y));
    key
}

/// The uniform draw of the sample at `(x, y)` in the random field with the
/// given seed.
pub open spec fn spec_seeded_draw(seed: u64, x: i32, y: i32) -> u32 {
    spec_keyed_draw(spec_seed_key(seed, x, y))
}

/// The state of the sample at `(x, y)` in the random field with the given
/// seed.
pub open spec fn spec_seeded_state(seed: u64, x: i32, y: i32) -> bool {
    spec_state_of_draw(spec_seeded_draw(seed, x, y))
}

/// The uniform draw of the sample at `(x, y)` in the random field with the
/// given seed: the first word of the generator under the sample's key.
pub fn seeded_draw(seed: u64, x: i32, y: i32) -> (draw: u32)
    ensures
        draw == spec_seeded_draw(seed, x, y),
{
    keyed_draw(seed_key(seed, x, y))
}

/// The state of the sample at `(x, y)` in the random field with the given
/// seed.  It depends on the seed and the coordinates alone, not on which
/// samples were asked for before.
pub fn seeded_state(seed: u64, x: i32, y: i32) -> (state: bool)
    ensures
        state == spec_seeded_state(seed, x, y),
{
    state_of_draw(seeded_draw(seed, x, y))
}

} // verus!
