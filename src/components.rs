//! Markers that the scene puts on its entities.
use vstd::prelude::*;

verus! {

/// Marks an entity that turns about its own local vertical axis every frame,
/// such as the ring that carries a light ring's lights.
#[derive(Clone, Copy, Debug, PartialEq, Eq, Structural)]
pub struct AutomaticRotation;

} // verus!
