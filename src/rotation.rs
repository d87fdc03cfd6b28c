use vstd::prelude::*;

verus! {

/// A coordinate axis.
#[derive(PartialEq, Eq, Structural, Debug, Clone, Copy)]
pub enum Axis {
    X,
    Y,
    Z,
}

/// The order in which the three Euler rotations are composed.
#[derive(PartialEq, Eq, Structural, Debug, Clone, Copy)]
pub enum RotationOrder {
    XYZ,
    XZY,
    YZX,
    YXZ,
    ZXY,
    ZYX,
}

/// The axes named by an order, leftmost factor of the product first.
pub open spec fn order_axes(order: RotationOrder) -> (Axis, Axis, Axis) {
    match order {
        RotationOrder::XYZ => (Axis::X, Axis::Y, Axis::Z),
        RotationOrder::XZY => (Axis::X, Axis::Z, Axis::Y),
        RotationOrder::YZX => (Axis::Y, Axis::Z, Axis::X),
        RotationOrder::YXZ => (Axis::Y, Axis::X, Axis::Z),
        RotationOrder::ZXY => (Axis::Z, Axis::X, Axis::Y),
        RotationOrder::ZYX => (Axis::Z, Axis::Y, Axis::X),
    }
}

impl RotationOrder {
    /// The three axes whose rotation matrices are multiplied, leftmost factor
    /// first. Each axis appears exactly once.
    pub fn axes(&self) -> (r: (Axis, Axis, Axis))
        ensures
            r == order_axes(*self),
            r.0 != r.1 && r.1 != r.2 && r.0 != r.2,
    {
        match self {
            RotationOrder::XYZ => (Axis::X, Axis::Y, Axis::Z),
            RotationOrder::XZY => (Axis::X, Axis::Z, Axis::Y),
            RotationOrder::YZX => (Axis::Y, Axis::Z, Axis::X),
            RotationOrder::YXZ => (Axis::Y, Axis::X, Axis::Z),
            RotationOrder::ZXY => (Axis::Z, Axis::X, Axis::Y),
            RotationOrder::ZYX => (Axis::Z, Axis::Y, Axis::X),
        }
    }
}

} // verus!
