//! Blend operators and their packed records.
use crate::engine::pack::{
    byte_at, high_half, lemma_halves_round_trip, low_half, pack_halves,
};
use vstd::prelude::*;

verus! {

/// Number of blend kinds.
pub const BLEND_KINDS: u8 = 10;

/// A blend operator with its two resolved operands. An operand below the
/// number of compiled objects is a leaf; one at or above it is a nested
/// operator.
#[derive(Clone, Copy, Debug, PartialEq, Eq, Structural)]
pub struct SdOperator {
    pub op: SdBlend,
    pub lhs: u16,
    pub rhs: u16,
}

/// The packed record of an operator: the blend word, then the operands with
/// the left one in the low half.
#[derive(Clone, Copy, Debug, PartialEq, Eq, Structural)]
pub struct SdOperatorUniform {
    pub op: SdBlendUniform,
    pub lhs_rhs: u32,
}

impl SdOperatorUniform {
    /// The left operand.
    pub open spec fn lhs(self) -> int {
        low_half(self.lhs_rhs)
    }

    /// The right operand.
    pub open spec fn rhs(self) -> int {
        high_half(self.lhs_rhs)
    }
}

impl SdOperator {
    /// The record of this operator.
    pub open spec fn packed(self) -> SdOperatorUniform {
        SdOperatorUniform {
            op: SdBlendUniform { type_id_data: self.op.packed() as u32 },
            lhs_rhs: (self.lhs as int + 0x1_0000 * (self.rhs as int)) as u32,
        }
    }

    /// Packs the operator into its record.
    pub fn uniform(self) -> (record: SdOperatorUniform)
        ensures
            record == self.packed(),
            record.op == self.op.packed_record(),
            record.lhs() == self.lhs,
            record.rhs() == self.rhs,
    {
        proof {
            lemma_halves_round_trip(self.lhs, self.rhs);
        }
        let lhs_rhs: u32 = pack_halves(self.lhs, self.rhs);
        let op: SdBlendUniform = self.op.uniform();
        SdOperatorUniform { op, lhs_rhs }
    }
}

/// The packed word of a blend: the kind in the lowest byte, the reversed
/// flag in the byte above it, the quantized parameter in the high half.
#[derive(Clone, Copy, Debug, PartialEq, Eq, Structural)]
pub struct SdBlendUniform {
    pub type_id_data: u32,
}

impl SdBlendUniform {
    /// The kind of the blend, as `SdBlend::kind` numbers it.
    pub open spec fn type_id(self) -> int {
        byte_at(self.type_id_data, 0)
    }

    /// One when the operands are taken in reverse, else zero.
    pub open spec fn reversed(self) -> int {
        byte_at(self.type_id_data, 1)
    }

    /// The quantized parameter.
    pub open spec fn param(self) -> int {
        high_half(self.type_id_data)
    }
}

/// How two distance fields are combined. A parameter is held as it is
/// packed: quantized to sixteen bits, in steps of one 255th.
#[allow(inconsistent_fields)]
#[derive(Clone, Copy, Debug, PartialEq, Eq, Structural)]
pub enum SdBlend {
    Union,
    Subtract { rev: bool },
    Intersect,
    ChamferUnion { radius: u16 },
    ChamferSubtract { rev: bool, radius: u16 },
    ChamferIntersect { radius: u16 },
    SmoothUnion { k: u16 },
    SmoothSubtract { rev: bool, k: u16 },
    SmoothIntersect { k: u16 },
    Displace { rev: bool, strength: u16 },
}

impl Default for SdBlend {
    /// The plain union.
    fn default() -> (blend: Self)
        ensures
            blend == SdBlend::Union,
    {
        SdBlend::Union
    }
}

impl SdBlend {
    /// The number of the variant, counting from zero in declaration order.
    pub open spec fn kind(self) -> u8 {
        match self {
            SdBlend::Union => 0,
            SdBlend::Subtract { .. } => 1,
            SdBlend::Intersect => 2,
            SdBlend::ChamferUnion { .. } => 3,
            SdBlend::ChamferSubtract { .. } => 4,
            SdBlend::ChamferIntersect { .. } => 5,
            SdBlend::SmoothUnion { .. } => 6,
            SdBlend::SmoothSubtract { .. } => 7,
            SdBlend::SmoothIntersect { .. } => 8,
            SdBlend::Displace { .. } => 9,
        }
    }

    /// Whether the operands are taken in reverse. Only the asymmetric blends
    /// can be reversed.
    pub open spec fn reversed(self) -> bool {
        match self {
            SdBlend::Subtract { rev } => rev,
            SdBlend::ChamferSubtract { rev, .. } => rev,
            SdBlend::SmoothSubtract { rev, .. } => rev,
            SdBlend::Displace { rev, .. } => rev,
            _ => false,
        }
    }

    /// The quantized parameter, zero for a blend that has none.
    pub open spec fn param(self) -> u16 {
        match self {
            SdBlend::ChamferUnion { radius } => radius,
            SdBlend::ChamferSubtract { radius, .. } => radius,
            SdBlend::ChamferIntersect { radius } => radius,
            SdBlend::SmoothUnion { k } => k,
            SdBlend::SmoothSubtract { k, .. } => k,
            SdBlend::SmoothIntersect { k } => k,
            SdBlend::Displace { strength, .. } => strength,
            _ => 0,
        }
    }

    /// The packed word of this blend.
    pub open spec fn packed(self) -> int {
        self.kind() as int + 0x100 * (if self.reversed() {
            1int
        } else {
            0int
        }) + 0x1_0000 * (self.param() as int)
    }

    /// The packed record of this blend.
    pub open spec fn packed_record(self) -> SdBlendUniform {
        SdBlendUniform { type_id_data: self.packed() as u32 }
    }

    /// Packs the blend into its record.
    pub fn uniform(self) -> (record: SdBlendUniform)
        ensures
            record.type_id_data == self.packed(),
            record == self.packed_record(),
            record.type_id() == self.kind(),
            record.reversed() == if self.reversed() {
                1int
            } else {
                0int
            },
            record.param() == self.param(),
    {
        let (disc, rev, extra): (u8, bool, u16) = match self {
            SdBlend::Union => (0, false, 0),
            SdBlend::Subtract { rev } => (1, rev, 0),
            SdBlend::Intersect => (2, false, 0),
            SdBlend::ChamferUnion { radius } => (3, false, radius),
            SdBlend::ChamferSubtract { rev, radius } => (4, rev, radius),
            SdBlend::ChamferIntersect { radius } => (5, false, radius),
            SdBlend::SmoothUnion { k } => (6, false, k),
            SdBlend::SmoothSubtract { rev, k } => (7, rev, k),
            SdBlend::SmoothIntersect { k } => (8, false, k),
            SdBlend::Displace { rev, strength } => (9, rev, strength),
        };
        let flag: u16 = if rev {
            0x100
        } else {
            0
        };
        let low: u16 = disc as u16 + flag;
        proof {
            lemma_halves_round_trip(low, extra);
        }
        SdBlendUniform { type_id_data: pack_halves(low, extra) }
    }
}

/// The depth of an operator: the number of operators above it.
#[derive(Clone, Copy, Debug, PartialEq, Eq, PartialOrd, Ord, Hash, Structural)]
pub struct SdIndex(pub u32);

impl Default for SdIndex {
    /// The depth of a root.
    fn default() -> (index: Self)
        ensures
            index.0 == 0,
    {
        SdIndex(0)
    }
}

} // verus!
