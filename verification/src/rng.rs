//! Seedable randomness: the only source of entropy in the crate.
//!
//! Every stochastic API takes an explicit seed, so the same seed and the same
//! parameters reproduce a run exactly. The generator is SplitMix64: a 64-bit
//! counter advanced by a fixed odd constant, with each output a bijective
//! mix of the counter. Its whole behaviour is the handful of spec functions
//! below, which is what lets the simulations above state how many draws a
//! step spends and which values it drew.

use crate::types::Seed;
use vstd::prelude::*;

verus! {

/// The increment added to the counter before every draw (the 64-bit
/// fractional part of the golden ratio, which is odd, so the counter visits
/// every value before repeating).
pub const GOLDEN_GAMMA: u64 = 0x9E37_79B9_7F4A_7C15;

/// The counter after one draw.
pub open spec fn advance(state: u64) -> u64 {
    state.wrapping_add(GOLDEN_GAMMA)
}

/// The counter after `draws` draws.
pub open spec fn advance_by(state: u64, draws: nat) -> u64
    decreases draws,
{
    if draws == 0 {
        state
    } else {
        advance(advance_by(state, (draws - 1) as nat))
    }
}

/// The output mix applied to the advanced counter.
pub open spec fn mix(z: u64) -> u64 {
    let a = (z ^ (z >> 30u64)).wrapping_mul(0xBF58_476D_1CE4_E5B9u64);
    let b = (a ^ (a >> 27u64)).wrapping_mul(0x94D0_49BB_1331_11EBu64);
    b ^ (b >> 31u64)
}

/// The raw 64-bit word a generator in `state` draws next.
pub open spec fn word(state: u64) -> u64 {
    mix(advance(state))
}

/// The index in `0..len` a generator in `state` draws next (`len > 0`).
pub open spec fn index_draw(state: u64, len: usize) -> usize {
    (word(state) % (len as u64)) as usize
}

/// The 53 random bits a generator in `state` draws next for a unit-interval
/// sample: the top 53 bits of the word.
pub open spec fn unit_bits_draw(state: u64) -> u64 {
    word(state) >> 11u64
}

/// Exclusive upper bound of a unit-interval sample's bits: `2^53`.
pub const UNIT_BITS_BOUND: u64 = 0x20_0000_0000_0000;

/// A seeded pseudo-random generator.
///
/// Its view is the counter; a fresh generator's counter is its seed.
#[derive(Debug)]
pub struct Rng {
    state: u64,
}

impl View for Rng {
    type V = u64;

    closed spec fn view(&self) -> u64 {
        self.state
    }
}

impl Rng {
    /// Seeds a generator. No entropy is drawn from anywhere else.
    pub fn seeded(seed: Seed) -> (rng: Self)
        ensures
            rng@ == seed@,
    {
        Rng { state: seed.get() }
    }

    /// Draws one raw 64-bit word.
    fn next_word(&mut self) -> (w: u64)
        ensures
            w == word(old(self)@),
            final(self)@ == advance(old(self)@),
    {
        self.state = self.state.wrapping_add(GOLDEN_GAMMA);
        let z = self.state;
        let a = (z ^ (z >> 30u64)).wrapping_mul(0xBF58_476D_1CE4_E5B9u64);
        let b = (a ^ (a >> 27u64)).wrapping_mul(0x94D0_49BB_1331_11EBu64);
        b ^ (b >> 31u64)
    }

    /// Draws an index in `0..len`, spending exactly one draw, or returns
    /// `None` without drawing if `len` is zero (there is nothing to pick).
    pub fn next_index(&mut self, len: usize) -> (r: Option<usize>)
        ensures
            len == 0 ==> r is None && final(self)@ == old(self)@,
            len > 0 ==> r == Some(index_draw(old(self)@, len)) && final(self)@ == advance(
                old(self)@,
            ),
            len > 0 ==> r == Some((word(old(self)@) % (len as u64)) as usize),
            r matches Some(i) ==> i < len,
    {
        if len == 0 {
            return None;
        }
        let w = self.next_word();
        let bound = len as u64;
        let i = w % bound;
        Some(i as usize)
    }

    /// Draws the 53 bits of a sample from the unit interval `[0, 1)`,
    /// spending exactly one draw. The sample itself is `bits / 2^53`.
    pub fn next_unit_bits(&mut self) -> (bits: u64)
        ensures
            bits == unit_bits_draw(old(self)@),
            bits == word(old(self)@) >> 11u64,
            bits < UNIT_BITS_BOUND,
            final(self)@ == advance(old(self)@),
    {
        let w = self.next_word();
        let bits = w >> 11u64;
        assert(w >> 11u64 < 0x20_0000_0000_0000u64) by (bit_vector);
        bits
    }
}

impl Clone for Rng {
    /// A generator in the same state, which will draw the same stream.
    fn clone(&self) -> (r: Self)
        ensures
            r@ == self@,
    {
        Rng { state: self.state }
    }
}

impl From<Seed> for Rng {
    fn from(seed: Seed) -> (rng: Self)
        ensures
            rng@ == seed@,
    {
        Rng::seeded(seed)
    }
}

impl vstd::std_specs::convert::FromSpecImpl<Seed> for Rng {
    open spec fn obeys_from_spec() -> bool {
        true
    }

    closed spec fn from_spec(v: Seed) -> Self {
        Rng { state: v@ }
    }
}

/// Reproducibility: two generators seeded alike are in the same state after
/// the same number of draws, so every draw they make agrees.
pub proof fn lemma_same_seed_same_stream(a: Seed, b: Seed, draws: nat, len: usize)
    requires
        a@ == b@,
    ensures
        advance_by(a@, draws) == advance_by(b@, draws),
        word(advance_by(a@, draws)) == word(advance_by(b@, draws)),
        index_draw(advance_by(a@, draws), len) == index_draw(advance_by(b@, draws), len),
        unit_bits_draw(advance_by(a@, draws)) == unit_bits_draw(advance_by(b@, draws)),
{
}

/// Two different seeds put their generators in different states, and keep
/// them apart after any equal number of draws: the counter only ever moves by
/// the same fixed amount.
pub proof fn lemma_different_seeds_stay_apart(a: u64, b: u64, draws: nat)
    requires
        a != b,
    ensures
        advance_by(a, draws) != advance_by(b, draws),
    decreases draws,
{
    if draws > 0 {
        lemma_different_seeds_stay_apart(a, b, (draws - 1) as nat);
        let x = advance_by(a, (draws - 1) as nat);
        let y = advance_by(b, (draws - 1) as nat);
        assert(x != y ==> x.wrapping_add(GOLDEN_GAMMA) != y.wrapping_add(GOLDEN_GAMMA)) by (bit_vector);
    }
}

/// Undoes the output mix: `mix(unmix(w)) == w`.
pub open spec fn unmix(w: u64) -> u64 {
    let b = w ^ (w >> 31u64) ^ (w >> 62u64);
    let a1 = b.wrapping_mul(0x3196_42B2_D24D_8EC3u64);
    let a = a1 ^ (a1 >> 27u64) ^ (a1 >> 54u64);
    let z1 = a.wrapping_mul(0x96DE_1B17_3F11_9089u64);
    z1 ^ (z1 >> 30u64) ^ (z1 >> 60u64)
}

/// The output mix reaches every word: it is undone by `unmix`.
pub proof fn lemma_mix_reaches_every_word(w: u64)
    ensures
        mix(unmix(w)) == w,
{
    let b = w ^ (w >> 31u64) ^ (w >> 62u64);
    assert(b ^ (b >> 31u64) == w) by (bit_vector)
        requires
            b == w ^ (w >> 31u64) ^ (w >> 62u64),
    ;
    let a1 = b.wrapping_mul(0x3196_42B2_D24D_8EC3u64);
    assert(a1.wrapping_mul(0x94D0_49BB_1331_11EBu64) == b) by (bit_vector)
        requires
            a1 == b.wrapping_mul(0x3196_42B2_D24D_8EC3u64),
    ;
    let a = a1 ^ (a1 >> 27u64) ^ (a1 >> 54u64);
    assert(a ^ (a >> 27u64) == a1) by (bit_vector)
        requires
            a == a1 ^ (a1 >> 27u64) ^ (a1 >> 54u64),
    ;
    let z1 = a.wrapping_mul(0x96DE_1B17_3F11_9089u64);
    assert(z1.wrapping_mul(0xBF58_476D_1CE4_E5B9u64) == a) by (bit_vector)
        requires
            z1 == a.wrapping_mul(0x96DE_1B17_3F11_9089u64),
    ;
    let z = z1 ^ (z1 >> 30u64) ^ (z1 >> 60u64);
    assert(z ^ (z >> 30u64) == z1) by (bit_vector)
        requires
            z == z1 ^ (z1 >> 30u64) ^ (z1 >> 60u64),
    ;
}

/// The state whose next draw is the word `w`.
pub open spec fn state_drawing(w: u64) -> u64 {
    unmix(w).wrapping_sub(GOLDEN_GAMMA)
}

/// A generator in `state_drawing(w)` draws the word `w` next.
pub proof fn lemma_state_drawing(w: u64)
    ensures
        word(state_drawing(w)) == w,
{
    lemma_mix_reaches_every_word(w);
    let z = unmix(w);
    assert(z.wrapping_sub(GOLDEN_GAMMA).wrapping_add(GOLDEN_GAMMA) == z) by (bit_vector);
}

/// The index drawn is the raw word reduced modulo the range, so it lies in
/// the range and the same word always gives the same index.
pub proof fn lemma_index_is_word_mod_len(state: u64, len: usize)
    requires
        len > 0,
    ensures
        index_draw(state, len) as u64 == word(state) % (len as u64),
        index_draw(state, len) < len,
{
}

/// Every index of a non-empty range is drawn: for each `i < len` some
/// generator state draws `i` next. No index is left out of the range.
pub proof fn lemma_every_index_is_drawn(len: usize, i: usize)
    requires
        0 < len,
        i < len,
    ensures
        index_draw(state_drawing(i as u64), len) == i,
        exists|state: u64| #[trigger] index_draw(state, len) == i,
{
    lemma_state_drawing(i as u64);
    vstd::arithmetic::div_mod::lemma_small_mod(i as nat, len as nat);
    assert((i as u64) % (len as u64) == i as u64);
}

/// Every 53-bit unit sample is drawn: for each `bits < 2^53` some generator
/// state draws it next.
pub proof fn lemma_every_unit_sample_is_drawn(bits: u64)
    requires
        bits < UNIT_BITS_BOUND,
    ensures
        unit_bits_draw(state_drawing(bits << 11u64)) == bits,
        exists|state: u64| #[trigger] unit_bits_draw(state) == bits,
{
    lemma_state_drawing(bits << 11u64);
    assert((bits << 11u64) >> 11u64 == bits) by (bit_vector)
        requires
            bits < 0x20_0000_0000_0000u64,
    ;
    assert(unit_bits_draw(state_drawing(bits << 11u64)) == bits);
}

} // verus!
