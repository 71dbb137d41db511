use vstd::prelude::*;

verus! {

/// Increment of the generator's state at each draw.
pub const GOLDEN_GAMMA: u64 = 0x9E37_79B9_7F4A_7C15;

/// The output mixed out of a state word (the SplitMix64 finaliser).
#[verifier::opaque]
pub open spec fn mix(z: u64) -> u64 {
    let a = ((z ^ (z >> 30u64)) as int * 0xBF58_476D_1CE4_E5B9int) % 0x1_0000_0000_0000_0000int;
    let a = a as u64;
    let b = ((a ^ (a >> 27u64)) as int * 0x94D0_49BB_1331_11EBint) % 0x1_0000_0000_0000_0000int;
    let b = b as u64;
    b ^ (b >> 31u64)
}

/// The generator's state after `k` draws from state `s0`.
pub open spec fn advanced(s0: int, k: int) -> int {
    (s0 + k * GOLDEN_GAMMA as int) % 0x1_0000_0000_0000_0000int
}

/// The `k`-th output (counting from 1) of a generator started in state `s0`.
pub open spec fn drawn(s0: int, k: int) -> int {
    mix(advanced(s0, k) as u64) as int
}

/// One more draw advances the state by one step.
pub proof fn lemma_advance(s0: int, k: int)
    ensures
        (advanced(s0, k) + GOLDEN_GAMMA as int) % 0x1_0000_0000_0000_0000int == advanced(s0, k + 1),
        0 <= advanced(s0, k) < 0x1_0000_0000_0000_0000int,
        advanced(s0, 0) == s0 % 0x1_0000_0000_0000_0000int,
{
    let m = 0x1_0000_0000_0000_0000int;
    vstd::arithmetic::div_mod::lemma_add_mod_noop(s0 + k * GOLDEN_GAMMA as int, GOLDEN_GAMMA as int, m);
    vstd::arithmetic::div_mod::lemma_mod_twice(GOLDEN_GAMMA as int, m);
    vstd::arithmetic::div_mod::lemma_small_mod(GOLDEN_GAMMA as nat, m as nat);
    assert(s0 + k * GOLDEN_GAMMA as int + GOLDEN_GAMMA as int == s0 + (k + 1) * GOLDEN_GAMMA as int)
        by (nonlinear_arith);
    vstd::arithmetic::div_mod::lemma_mod_bound(s0 + k * GOLDEN_GAMMA as int, m);
}

/// Drawing `m` more from the state after `k` draws is drawing `k + m` from the start.
pub proof fn lemma_advance_by(s0: int, k: int, m: int)
    ensures
        advanced(advanced(s0, k), m) == advanced(s0, k + m),
{
    let md = 0x1_0000_0000_0000_0000int;
    let g = GOLDEN_GAMMA as int;
    vstd::arithmetic::div_mod::lemma_add_mod_noop(s0 + k * g, m * g, md);
    vstd::arithmetic::div_mod::lemma_mod_twice(s0 + k * g, md);
    vstd::arithmetic::div_mod::lemma_add_mod_noop((s0 + k * g) % md, m * g, md);
    assert(s0 + k * g + m * g == s0 + (k + m) * g) by (nonlinear_arith);
}

/// A small seeded pseudo-random source, so that a run can be replayed from its seed.
pub struct Rng {
    pub state: u64,
}

impl Rng {
    /// A generator that starts from `seed`.
    pub fn new(seed: u64) -> (r: Rng)
        ensures
            r.state == seed,
    {
        Rng { state: seed }
    }

    /// The next 64 pseudo-random bits.
    pub fn next_u64(&mut self) -> (r: u64)
        ensures
            final(self).state == (old(self).state as int + GOLDEN_GAMMA as int)
                % 0x1_0000_0000_0000_0000int,
            r == mix(final(self).state),
    {
        reveal(mix);
        self.state = self.state.wrapping_add(GOLDEN_GAMMA);
        let z = self.state;
        let a = (z ^ (z >> 30u64)).wrapping_mul(0xBF58_476D_1CE4_E5B9);
        let b = (a ^ (a >> 27u64)).wrapping_mul(0x94D0_49BB_1331_11EB);
        b ^ (b >> 31u64)
    }

    /// A pseudo-random integer in `lo..hi`.
    pub fn gen_int_range(&mut self, lo: i64, hi: i64) -> (r: i64)
        requires
            lo < hi,
        ensures
            lo <= r < hi,
            r == lo + (mix(final(self).state) as int) % (hi - lo),
            final(self).state == (old(self).state as int + GOLDEN_GAMMA as int)
                % 0x1_0000_0000_0000_0000int,
    {
        let span = (hi as i128 - lo as i128) as u64;
        let v = self.next_u64();
        let off = v % span;
        (lo as i128 + off as i128) as i64
    }
}

} // verus!
