//! The compiled scene: the arrays that the evaluator reads.
use crate::engine::math::Scalar;
use crate::engine::modifier::SdModUniform;
use crate::engine::object::SdObjectUniform;
use crate::engine::op::SdOperatorUniform;
use vstd::prelude::*;

verus! {

/// The arrays of one compiled scene. They belong together: an index in one
/// is only good with the others of the same compilation.
#[derive(Clone, Debug, PartialEq, Eq, Default)]
pub struct RayMarchBuffer {
    /// One record for each compiled leaf.
    pub object: Vec<SdObjectUniform>,
    /// One record for each operator, in the order of the traversal.
    pub operator: Vec<SdOperatorUniform>,
    /// The modifier records of all leaves, those of one leaf together.
    pub modifier: Vec<SdModUniform>,
    /// The shape parameters of all leaves, those of one leaf together.
    pub field_data: Vec<Scalar>,
}

/// What the arrays of a compiled scene hold.
pub struct RayMarchBufferView {
    pub object: Seq<SdObjectUniform>,
    pub operator: Seq<SdOperatorUniform>,
    pub modifier: Seq<SdModUniform>,
    pub field_data: Seq<Scalar>,
}

impl View for RayMarchBuffer {
    type V = RayMarchBufferView;

    open spec fn view(&self) -> RayMarchBufferView {
        RayMarchBufferView {
            object: self.object@,
            operator: self.operator@,
            modifier: self.modifier@,
            field_data: self.field_data@,
        }
    }
}

} // verus!
