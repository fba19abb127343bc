use vstd::prelude::*;

verus! {

/// Whether a body moves.
#[derive(Debug, PartialEq, Eq, Structural, Copy, Clone)]
pub enum BodyType {
    Static,
    Dynamic,
}

/// The axis along which two boxes overlap least.
#[derive(Debug, PartialEq, Eq, Structural, Copy, Clone)]
pub enum Axis {
    X,
    Y,
}

} // verus!
