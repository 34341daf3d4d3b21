//! Loudness levels in decibels, at the precision the audio tools report them.
use crate::binary::{abs, round, signed_value, LEAD_32};
use crate::binary;
use vstd::arithmetic::power2::*;
use vstd::prelude::*;

verus! {

/// Bit pattern of positive infinity, and the rank above every finite level.
pub const INFINITE_LEVEL: u32 = 0x7f80_0000;

/// Whether a 32-bit pattern is not a number.
pub open spec fn is_nan_pattern(bits: u32) -> bool {
    bits % 0x8000_0000 > INFINITE_LEVEL
}

/// The signed rank of a 32-bit pattern.
pub open spec fn rank_of_pattern(bits: u32) -> int {
    if bits >= 0x8000_0000 {
        0x8000_0000 - bits
    } else {
        bits as int
    }
}

/// One decibel, counted in the smallest positive level.
pub open spec fn decibel() -> nat {
    pow2(149)
}

/// A level in decibels: a 32-bit IEEE 754 value that is not NaN.
#[derive(Clone, Copy, Debug, PartialEq, Eq, Structural)]
pub struct Level {
    rank: i32,
}

impl Level {
    #[verifier::type_invariant]
    spec fn bounded(self) -> bool {
        -INFINITE_LEVEL <= self.rank <= INFINITE_LEVEL
    }

    /// Position of this level in the order of all levels.
    pub closed spec fn rank(self) -> int {
        self.rank as int
    }

    /// The level, counted in the smallest positive level.
    pub open spec fn value(self) -> int {
        signed_value(LEAD_32 as nat, self.rank())
    }

    /// The level with this bit pattern; `None` for NaN. Both zeros are one level.
    pub fn from_bits(bits: u32) -> (r: Option<Level>)
        ensures
            r is None <==> is_nan_pattern(bits),
            r matches Some(l) ==> l.rank() == rank_of_pattern(bits),
    {
        let size: u32 = bits % 0x8000_0000;
        if size > INFINITE_LEVEL {
            None
        } else if bits >= 0x8000_0000 {
            Some(Level { rank: -(size as i32) })
        } else {
            Some(Level { rank: size as i32 })
        }
    }

    /// The bit pattern of this level.
    pub fn to_bits(self) -> (bits: u32)
        ensures
            !is_nan_pattern(bits),
            rank_of_pattern(bits) == self.rank(),
            self.rank() == 0 ==> bits == 0,
    {
        proof {
            use_type_invariant(&self);
        }
        if self.rank < 0 {
            0x8000_0000 + (-self.rank) as u32
        } else {
            self.rank as u32
        }
    }

    /// The level below every other.
    pub fn silent() -> (r: Level)
        ensures
            r.rank() == -INFINITE_LEVEL,
    {
        Level { rank: -0x7f80_0000 }
    }

    /// Whether this level is neither infinity.
    pub fn is_finite(self) -> (r: bool)
        ensures
            r == (abs(self.rank()) < INFINITE_LEVEL),
    {
        proof {
            use_type_invariant(&self);
        }
        -(INFINITE_LEVEL as i32) < self.rank && self.rank < INFINITE_LEVEL as i32
    }

    /// The level of a whole number of decibels.
    pub fn of_db(db: i32) -> (r: Level)
        requires
            -0x100_0000 < db < 0x100_0000,
        ensures
            r.value() == db * decibel(),
            abs(r.rank()) <= 151 * LEAD_32,
    {
        let size: u128 = if db < 0 {
            (-db) as u128
        } else {
            db as u128
        };
        let rank: u64 = binary::rank_of(LEAD_32, size, 149);
        proof {
            binary::nearest_keeps_short(LEAD_32 as nat, size as nat, 149);
            binary::symmetric(LEAD_32 as nat, rank as int);
            assert((-(size as int)) * decibel() == -(size * decibel())) by (nonlinear_arith);
        }
        if db < 0 {
            Level { rank: -(rank as i32) }
        } else {
            Level { rank: rank as i32 }
        }
    }

    /// The level `db` decibels below this one, rounded to a level.
    pub fn lowered_by(self, db: i32) -> (r: Level)
        requires
            -0x100_0000 < db < 0x100_0000,
        ensures
            r.value() == round(LEAD_32 as nat, self.value() - db * decibel()),
    {
        proof {
            use_type_invariant(&self);
            assert((-(db as int)) * decibel() == -(db * decibel())) by (nonlinear_arith);
        }
        let drop: Level = Level::of_db(-db);
        let rank: i128 = binary::sum(LEAD_32, self.rank as i128, drop.rank as i128);
        Level { rank: rank as i32 }
    }

    /// Whether this level is as loud as `other`, or louder.
    pub fn at_least(self, other: Level) -> (r: bool)
        ensures
            r == (self.value() >= other.value()),
    {
        proof {
            binary::signed_ranks_are_ordered_like_values(
                LEAD_32 as nat,
                self.rank(),
                other.rank(),
            );
        }
        self.rank >= other.rank
    }
}

/// What a bit pattern stands for: a sign, eight bits of exponent and twenty-three of fraction.
pub proof fn the_value_of_a_pattern(bits: u32, exponent: nat, fraction: nat)
    requires
        exponent == (bits / 0x80_0000) % 0x100,
        fraction == bits % 0x80_0000,
    ensures
        is_nan_pattern(bits) <==> exponent == 0xff && fraction != 0,
        abs(rank_of_pattern(bits)) >= INFINITE_LEVEL <==> exponent == 0xff,
        abs(signed_value(0x80_0000, rank_of_pattern(bits))) == if exponent == 0 {
            fraction
        } else {
            (0x80_0000 + fraction) * pow2((exponent - 1) as nat)
        },
        bits < 0x8000_0000 ==> signed_value(0x80_0000, rank_of_pattern(bits)) >= 0,
        bits >= 0x8000_0000 ==> signed_value(0x80_0000, rank_of_pattern(bits)) <= 0,
        decibel() == pow2(149),
{
    let size = bits % 0x8000_0000;
    assert(size / 0x80_0000 == exponent);
    assert(size % 0x80_0000 == fraction);
    assert(abs(rank_of_pattern(bits)) == size);
}

/// A level has the value of its rank.
pub proof fn the_value_of_a_level(level: Level)
    ensures
        level.value() == signed_value(0x80_0000, level.rank()),
{
}

} // verus!
