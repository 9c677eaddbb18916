//! A small deterministic pseudo-random number generator (xorshift64*).
use vstd::prelude::*;

verus! {

/// The state after one xorshift round.
pub open spec fn prng_next_state(s: u64) -> u64 {
    let a = s ^ (s >> 12u64);
    let b = a ^ (a << 25u64);
    b ^ (b >> 27u64)
}

/// The number output for the state `s` reached by a round.
pub open spec fn prng_output(s: u64) -> u64 {
    s.wrapping_mul(2685821657736338717u64)
}

/// The state reached from `s` after `k` rounds.
pub open spec fn prng_state_after(s: u64, k: nat) -> u64
    decreases k,
{
    if k == 0 {
        s
    } else {
        prng_next_state(prng_state_after(s, (k - 1) as nat))
    }
}

/// A xorshift64* generator. The same seed always yields the same sequence of numbers.
#[derive(Clone, Copy, Debug)]
pub struct Prng {
    state: u64,
}

impl Prng {
    /// The current state.
    pub closed spec fn state(self) -> u64 {
        self.state
    }

    /// A generator seeded with `seed` (which must not be zero: zero is a fixed point).
    pub fn new(seed: u64) -> (r: Prng)
        requires
            seed != 0,
        ensures
            r.state() == seed,
    {
        Prng { state: seed }
    }

    /// Advances the state and returns the next number.
    pub fn generate(&mut self) -> (r: u64)
        ensures
            final(self).state() == prng_next_state(old(self).state()),
            r == prng_output(prng_next_state(old(self).state())),
    {
        let mut s = self.state;
        s = s ^ (s >> 12);
        s = s ^ (s << 25);
        s = s ^ (s >> 27);
        self.state = s;
        s.wrapping_mul(2685821657736338717)
    }
}

} // verus!
