//! Space-warping modifiers, the modifier stack, and their packed records.
use crate::engine::math::{Scalar, Vec3, Vec4};
use crate::engine::pack::{high_half, lemma_halves_round_trip, low_half, pack_halves};
use vstd::prelude::*;

verus! {

/// Number of modifier kinds.
pub const MOD_KINDS: u32 = 16;

/// Number of payload words in a modifier record.
pub const MOD_PAYLOAD_WORDS: usize = 4;

/// A warp of the sample point, applied before the primitive is evaluated.
#[allow(inconsistent_fields)]
#[derive(Clone, Copy, Debug, PartialEq, Eq, Structural)]
pub enum SdMod {
    Translate { t: Vec3 },
    OrthogonalRotateX,
    OrthogonalRotateY,
    OrthogonalRotateZ,
    RotateX { a: Scalar },
    RotateY { a: Scalar },
    RotateZ { a: Scalar },
    RotateEuleur { a: Vec3 },
    Twist { k: Scalar },
    CheapBend { k: Scalar },
    SymetryX,
    SymetryY,
    SymetryZ,
    InfArray { c: Vec3 },
    LimArray { c: Scalar, lim: Vec3 },
    Elongate { h: Vec3 },
}

/// The packed record of a modifier: its kind and four payload words.
#[derive(Clone, Copy, Debug, PartialEq, Eq, Structural)]
pub struct SdModUniform {
    pub type_id: u32,
    pub data: Vec4,
}

impl Default for SdModUniform {
    /// The record of a translation by nothing: all words zero.
    fn default() -> (record: Self)
        ensures
            record == (SdMod::Translate {
                t: Vec3 { x: Scalar::zero(), y: Scalar::zero(), z: Scalar::zero() },
            }).packed(),
    {
        let zero: Scalar = Scalar { bits: 0 };
        SdModUniform { type_id: 0, data: Vec4 { x: zero, y: zero, z: zero, w: zero } }
    }
}

impl Default for SdMod {
    /// A translation by nothing.
    fn default() -> (m: Self)
        ensures
            m == (SdMod::Translate {
                t: Vec3 { x: Scalar::zero(), y: Scalar::zero(), z: Scalar::zero() },
            }),
    {
        let zero: Scalar = Scalar { bits: 0 };
        SdMod::Translate { t: Vec3 { x: zero, y: zero, z: zero } }
    }
}

impl SdMod {
    /// The number of the variant, counting from zero in declaration order.
    pub open spec fn kind(self) -> u32 {
        match self {
            SdMod::Translate { .. } => 0,
            SdMod::OrthogonalRotateX => 1,
            SdMod::OrthogonalRotateY => 2,
            SdMod::OrthogonalRotateZ => 3,
            SdMod::RotateX { .. } => 4,
            SdMod::RotateY { .. } => 5,
            SdMod::RotateZ { .. } => 6,
            SdMod::RotateEuleur { .. } => 7,
            SdMod::Twist { .. } => 8,
            SdMod::CheapBend { .. } => 9,
            SdMod::SymetryX => 10,
            SdMod::SymetryY => 11,
            SdMod::SymetryZ => 12,
            SdMod::InfArray { .. } => 13,
            SdMod::LimArray { .. } => 14,
            SdMod::Elongate { .. } => 15,
        }
    }

    /// The parameter words, each field in declaration order and each vector
    /// component by component. At most four.
    pub open spec fn payload(self) -> Seq<Scalar> {
        match self {
            SdMod::Translate { t } => t.words(),
            SdMod::RotateX { a } => seq![a],
            SdMod::RotateY { a } => seq![a],
            SdMod::RotateZ { a } => seq![a],
            SdMod::RotateEuleur { a } => a.words(),
            SdMod::Twist { k } => seq![k],
            SdMod::CheapBend { k } => seq![k],
            SdMod::InfArray { c } => c.words(),
            SdMod::LimArray { c, lim } => seq![c] + lim.words(),
            SdMod::Elongate { h } => h.words(),
            _ => Seq::empty(),
        }
    }

    /// The record of this modifier: the kind, then the parameter words, then
    /// zero words up to four.
    pub open spec fn packed(self) -> SdModUniform {
        let p = self.payload();
        SdModUniform {
            type_id: self.kind(),
            data: Vec4 {
                x: padded(p, 0),
                y: padded(p, 1),
                z: padded(p, 2),
                w: padded(p, 3),
            },
        }
    }

    /// Packs the modifier into its record.
    pub fn uniform(self) -> (record: SdModUniform)
        ensures
            record == self.packed(),
            record.type_id < MOD_KINDS,
    {
        let zero: Scalar = Scalar { bits: 0 };
        let (type_id, data): (u32, Vec4) = match self {
            SdMod::Translate { t } => (0, Vec4 { x: t.x, y: t.y, z: t.z, w: zero }),
            SdMod::OrthogonalRotateX => (1, Vec4 { x: zero, y: zero, z: zero, w: zero }),
            SdMod::OrthogonalRotateY => (2, Vec4 { x: zero, y: zero, z: zero, w: zero }),
            SdMod::OrthogonalRotateZ => (3, Vec4 { x: zero, y: zero, z: zero, w: zero }),
            SdMod::RotateX { a } => (4, Vec4 { x: a, y: zero, z: zero, w: zero }),
            SdMod::RotateY { a } => (5, Vec4 { x: a, y: zero, z: zero, w: zero }),
            SdMod::RotateZ { a } => (6, Vec4 { x: a, y: zero, z: zero, w: zero }),
            SdMod::RotateEuleur { a } => (7, Vec4 { x: a.x, y: a.y, z: a.z, w: zero }),
            SdMod::Twist { k } => (8, Vec4 { x: k, y: zero, z: zero, w: zero }),
            SdMod::CheapBend { k } => (9, Vec4 { x: k, y: zero, z: zero, w: zero }),
            SdMod::SymetryX => (10, Vec4 { x: zero, y: zero, z: zero, w: zero }),
            SdMod::SymetryY => (11, Vec4 { x: zero, y: zero, z: zero, w: zero }),
            SdMod::SymetryZ => (12, Vec4 { x: zero, y: zero, z: zero, w: zero }),
            SdMod::InfArray { c } => (13, Vec4 { x: c.x, y: c.y, z: c.z, w: zero }),
            SdMod::LimArray { c, lim } => (14, Vec4 { x: c, y: lim.x, z: lim.y, w: lim.z }),
            SdMod::Elongate { h } => (15, Vec4 { x: h.x, y: h.y, z: h.z, w: zero }),
        };
        SdModUniform { type_id, data }
    }
}

/// Word `i` of a payload, or the zero word past its end.
pub open spec fn padded(payload: Seq<Scalar>, i: int) -> Scalar {
    if 0 <= i < payload.len() {
        payload[i]
    } else {
        Scalar::zero()
    }
}

/// The modifiers of one object, in the order in which they were declared.
#[derive(Clone, Debug, PartialEq, Eq, Default)]
pub struct SdModStack {
    pub modifiers: Vec<SdMod>,
}

/// The packed range of an object's modifiers in the modifier array: the
/// start in the high half of the word, the count in the low half.
#[derive(Clone, Copy, Debug, PartialEq, Eq, Structural)]
pub struct SdModStackUniform {
    pub data_index_and_lenght: u32,
}

impl SdModStackUniform {
    /// Where the object's modifiers start in the modifier array.
    pub open spec fn start(self) -> int {
        high_half(self.data_index_and_lenght)
    }

    /// How many modifiers the object has.
    pub open spec fn count(self) -> int {
        low_half(self.data_index_and_lenght)
    }
}

impl View for SdModStack {
    type V = Seq<SdMod>;

    open spec fn view(&self) -> Seq<SdMod> {
        self.modifiers@
    }
}

impl SdModStack {
    /// The range word for `len` modifiers that start at `start`. Only the low
    /// 16 bits of each fit.
    pub open spec fn range_word(len: nat, start: nat) -> int {
        (len % 0x1_0000 + 0x1_0000 * (start % 0x1_0000)) as int
    }

    /// Packs the range that this stack takes in the modifier array when its
    /// first record is at `start_index`.
    pub fn uniform(self, start_index: usize) -> (record: SdModStackUniform)
        ensures
            record.data_index_and_lenght == Self::range_word(self@.len(), start_index as nat),
            record.start() == start_index % 0x1_0000,
            record.count() == self@.len() % 0x1_0000,
    {
        mod_range(self.modifiers.len(), start_index)
    }
}

/// The range word for `len` records that start at `start`.
pub(crate) fn mod_range(len: usize, start: usize) -> (record: SdModStackUniform)
    ensures
        record.data_index_and_lenght == SdModStack::range_word(len as nat, start as nat),
        record.start() == start % 0x1_0000,
        record.count() == len % 0x1_0000,
{
    let lo: u16 = (len % 0x1_0000) as u16;
    let hi: u16 = (start % 0x1_0000) as u16;
    proof {
        lemma_halves_round_trip(lo, hi);
    }
    SdModStackUniform { data_index_and_lenght: pack_halves(lo, hi) }
}

} // verus!
