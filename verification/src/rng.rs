//! The explicit random source threaded through sampling code.
//!
//! A render is reproducible when every worker draws from a `Seeded`
//! stream, whose successor state and output are fully specified; the
//! `System` variant draws through the `rand` crate, and nothing is
//! promised of those values beyond their range.

use vstd::prelude::*;

verus! {

/// A random source: system randomness, or a deterministic xorshift
/// stream under an explicit seed.
#[derive(Clone, Copy, Debug)]
pub enum Rng {
    System,
    Seeded(u64),
}

/// Relies on rand::random::<u32>: one uniformly distributed 32-bit
/// draw from the thread-local generator.  Nothing is promised of it.
#[verifier::external_body]
fn rand_u32() -> (r: u32) {
    rand::random::<u32>()
}

/// The xorshift64 successor state.
pub open spec fn xorshift_next(s: u64) -> u64 {
    let a = s ^ (s << 13);
    let b = a ^ (a >> 7);
    b ^ (b << 17)
}

/// The low 32 bits of a state.
pub open spec fn low32(s: u64) -> u32 {
    (s & 0xFFFF_FFFF) as u32
}

pub open spec fn is_seeded(r: Rng) -> bool {
    match r {
        Rng::Seeded(_) => true,
        Rng::System => false,
    }
}

pub open spec fn seed_of(r: Rng) -> u64
    recommends
        is_seeded(r),
{
    match r {
        Rng::Seeded(s) => s,
        Rng::System => 0,
    }
}

impl Rng {
    /// The next 32-bit draw.  A seeded source is a pure function of its
    /// state; a system source promises only a value.
    pub fn next_u32(&mut self) -> (r: u32)
        ensures
            is_seeded(*old(self)) ==> *final(self) == Rng::Seeded(
                xorshift_next(seed_of(*old(self))),
            ) && r == low32(xorshift_next(seed_of(*old(self)))),
            !is_seeded(*old(self)) ==> *final(self) == *old(self),
    {
        match *self {
            Rng::Seeded(s) => {
                let a = s ^ (s << 13u64);
                let b = a ^ (a >> 7u64);
                let n = b ^ (b << 17u64);
                *self = Rng::Seeded(n);
                (n & 0xFFFF_FFFF) as u32
            },
            Rng::System => rand_u32(),
        }
    }

    /// A fixed-point draw in `[0, 1)`: the low 16 bits of the next draw.
    pub fn next_unit(&mut self) -> (r: i64)
        ensures
            0 <= r < crate::fp::FP_ONE,
            is_seeded(*old(self)) ==> *final(self) == Rng::Seeded(
                xorshift_next(seed_of(*old(self))),
            ) && r == (low32(xorshift_next(seed_of(*old(self)))) & 0xFFFF) as i64,
            !is_seeded(*old(self)) ==> *final(self) == *old(self),
    {
        let d = self.next_u32();
        let m: u32 = d & 0xFFFF;
        proof {
            assert(m < 0x1_0000) by (bit_vector)
                requires
                    m == d & 0xFFFF,
            ;
        }
        m as i64
    }
}

} // verus!
