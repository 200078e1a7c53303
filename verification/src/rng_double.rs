use vstd::prelude::*;

verus! {

/// A small permuted congruential generator (PCG) whose outputs become
/// doubles in `[0, 1)`.
pub struct RngDouble {
    pub state: u64,
    pub inc: u64,
}

/// The multiplier of the generator's linear congruential step.
pub const PCG_MULTIPLIER: u64 = 6364136223846793005;

/// The state after `state`: `state * PCG_MULTIPLIER + (inc | 1)`, modulo
/// `2^64`.
pub open spec fn pcg_next_state(state: u64, inc: u64) -> u64 {
    ((state as int * PCG_MULTIPLIER as int + (inc | 1) as int) % 0x1_0000_0000_0000_0000) as u64
}

/// The 32-bit PCG output drawn from `state`: an xorshift of the high bits,
/// rotated by the top five bits of the state.
pub open spec fn pcg_output(state: u64) -> u32 {
    let xorshifted = ((state >> 18u64) ^ state) >> 27u64;
    let rot = state >> 59u64;
    ((xorshifted >> rot) | (xorshifted << (!rot & 31u64))) as u32
}

/// The 23 mantissa bits that a draw from `state` gives: the double that the
/// draw stands for is these bits over `2^23`.
pub open spec fn rng_mantissa(state: u64) -> u32 {
    pcg_output(state) & 0x7F_FFFFu32
}

/// A generator seeded with `seed`, used as both the state and the stream
/// increment.
pub fn rng_double_new(seed: u64) -> (rng: RngDouble)
    ensures
        rng.state == seed,
        rng.inc == seed,
{
    RngDouble { state: seed, inc: seed }
}

/// Advances the generator by one step and returns the 23-bit mantissa of
/// the draw: the draw is the double `bits / 2^23`, in `[0, 1)`.
pub fn rng_double_next_bits(self_: &mut RngDouble) -> (bits: u32)
    ensures
        final(self_).state == pcg_next_state(old(self_).state, old(self_).inc),
        final(self_).inc == old(self_).inc,
        bits == rng_mantissa(old(self_).state),
        bits < 0x80_0000,
{
    let oldstate = self_.state;
    let next = oldstate.wrapping_mul(PCG_MULTIPLIER).wrapping_add(self_.inc | 1);
    proof {
        let m = oldstate as int * PCG_MULTIPLIER as int;
        vstd::arithmetic::div_mod::lemma_add_mod_noop(m, (self_.inc | 1) as int, 0x1_0000_0000_0000_0000);
        vstd::arithmetic::div_mod::lemma_small_mod((self_.inc | 1) as nat, 0x1_0000_0000_0000_0000);
    }
    self_.state = next;
    let xorshifted = ((oldstate >> 18u64) ^ oldstate) >> 27u64;
    let rot = oldstate >> 59u64;
    assert(rot < 32) by (bit_vector)
        requires
            rot == oldstate >> 59u64,
    ;
    assert(!rot & 31u64 < 32) by (bit_vector);
    let rand = (xorshifted >> rot) | (xorshifted << (!rot & 31u64));
    let bits = (rand as u32) & 0x7F_FFFFu32;
    assert(bits < 0x80_0000) by (bit_vector)
        requires
            bits == (rand as u32) & 0x7F_FFFFu32,
    ;
    bits
}

} // verus!
