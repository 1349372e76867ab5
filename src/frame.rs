use vstd::prelude::*;

verus! {

/// Frame-building phase: the frame has begun and no material is bound.
pub struct Begin;

/// Frame-building phase: the render pass is finished.
pub struct Done;

/// The phases from which a material may be bound: the start of a frame, or
/// a render pass whose material is to be replaced.
pub trait ReadyForMaterial {}

impl ReadyForMaterial for Begin {}

/// Material that draws a chunk texture on a quad.
pub struct TextureMaterial;

} // verus!
