//! A small deterministic pseudo-random source.
//!
//! The socket draws transaction ids and ephemeral source ports from here.
//! The generator is a capability handed in through the poll context, so the
//! whole stack stays deterministic under test: inject a seeded generator and
//! every txid and port is reproducible.

use vstd::prelude::*;

verus! {

/// One xorshift step over a 64-bit state.
pub open spec fn next_state(s: u64) -> u64 {
    let a = s ^ (s << 13);
    let b = a ^ (a >> 7);
    b ^ (b << 17)
}

/// An xorshift64 pseudo-random generator.
#[derive(Debug, Clone, Copy, PartialEq, Eq, Structural)]
pub struct Rand {
    pub state: u64,
}

impl Rand {
    /// Seed the generator. A zero seed is replaced by a fixed nonzero one,
    /// since xorshift's zero state is a fixed point.
    pub fn new(seed: u64) -> (r: Rand)
        ensures
            seed != 0 ==> r.state == seed,
            seed == 0 ==> r.state == 0x2545f4914f6cdd1d,
    {
        if seed == 0 {
            Rand { state: 0x2545f4914f6cdd1d }
        } else {
            Rand { state: seed }
        }
    }

    /// Draw sixteen bits and advance the state.
    pub fn rand_u16(&mut self) -> (r: u16)
        ensures
            final(self).state == next_state(old(self).state),
            r == (next_state(old(self).state) >> 48) as u16,
    {
        let a: u64 = self.state ^ (self.state << 13);
        let b: u64 = a ^ (a >> 7);
        let c: u64 = b ^ (b << 17);
        self.state = c;
        (c >> 48) as u16
    }

    /// Draw an ephemeral source port, in the dynamic range 49152..=65535.
    pub fn rand_source_port(&mut self) -> (r: u16)
        ensures
            final(self).state == next_state(old(self).state),
            r == 49152 + ((next_state(old(self).state) >> 48) as u16) % 16384,
            49152 <= r <= 65535,
    {
        let x = self.rand_u16();
        let low: u16 = x % 16384;
        assert(49152 + low <= 65535) by {
            assert(x % 16384 < 16384) by (nonlinear_arith);
        };
        49152 + low
    }
}

} // verus!
