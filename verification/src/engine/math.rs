//! Scalars and small vectors as the encoder sees them: opaque 32-bit words.
//!
//! The encoder never does arithmetic on a parameter. It copies the word that
//! holds the parameter's IEEE-754 single-precision bit pattern, so that is
//! all a parameter is here.
use vstd::prelude::*;

verus! {

/// Width of a scalar parameter, in bits.
pub const SCALAR_BITS: usize = 32;

/// Width of a two-component vector parameter, in bits.
pub const VEC2_BITS: usize = 64;

/// Width of a three-component vector parameter, in bits.
pub const VEC3_BITS: usize = 96;

/// Width of a four-component vector parameter, in bits.
pub const VEC4_BITS: usize = 128;

/// Number of whole 32-bit words that hold `bits` bits.
pub open spec fn words_for(bits: nat) -> nat {
    (bits + 31) / 32
}

/// Number of whole 32-bit words that hold `bits` bits: the width rounded up.
pub fn gpu_words(bits: usize) -> (words: usize)
    ensures
        words == words_for(bits as nat),
        32 * words >= bits,
        32 * words < bits + 32,
{
    let whole: usize = bits / 32;
    if bits % 32 == 0 {
        whole
    } else {
        whole + 1
    }
}

/// A single-precision number, held as its bit pattern.
#[derive(Clone, Copy, Debug, PartialEq, Eq, Structural)]
pub struct Scalar {
    pub bits: u32,
}

impl Scalar {
    /// The scalar with the given bit pattern.
    pub fn from_bits(bits: u32) -> (s: Self)
        ensures
            s.bits == bits,
    {
        Scalar { bits }
    }

    /// The bit pattern of this scalar.
    pub fn to_bits(self) -> (bits: u32)
        ensures
            bits == self.bits,
    {
        self.bits
    }

    /// Positive zero: the all-zero word.
    pub open spec fn zero() -> Self {
        Scalar { bits: 0 }
    }
}

/// Two scalars.
#[derive(Clone, Copy, Debug, PartialEq, Eq, Structural)]
pub struct Vec2 {
    pub x: Scalar,
    pub y: Scalar,
}

/// Three scalars.
#[derive(Clone, Copy, Debug, PartialEq, Eq, Structural)]
pub struct Vec3 {
    pub x: Scalar,
    pub y: Scalar,
    pub z: Scalar,
}

/// Four scalars.
#[derive(Clone, Copy, Debug, PartialEq, Eq, Structural)]
pub struct Vec4 {
    pub x: Scalar,
    pub y: Scalar,
    pub z: Scalar,
    pub w: Scalar,
}

impl Vec2 {
    /// The components in order.
    pub open spec fn words(self) -> Seq<Scalar> {
        seq![self.x, self.y]
    }
}

impl Vec3 {
    /// The components in order.
    pub open spec fn words(self) -> Seq<Scalar> {
        seq![self.x, self.y, self.z]
    }
}

impl Vec4 {
    /// The components in order.
    pub open spec fn words(self) -> Seq<Scalar> {
        seq![self.x, self.y, self.z, self.w]
    }
}

} // verus!
