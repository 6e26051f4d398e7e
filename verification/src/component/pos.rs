use crate::component::{AToAny, AnyComponent, ComponentMarker, Tomb};
use crate::type_tag::{TyId, TypeTag};
use vstd::prelude::*;

verus! {

/// A vector of three real coordinates. Each coordinate is held as the 64 bits
/// of its IEEE 754 double-precision encoding: the stores keep vectors and hand
/// them out, and never calculate with them.
#[derive(Clone, Copy, Debug, Default, PartialEq, Eq, Structural)]
pub struct Vector3 {
    pub x: u64,
    pub y: u64,
    pub z: u64,
}

impl Vector3 {
    pub fn new(x: u64, y: u64, z: u64) -> (vector: Self)
        ensures
            vector == (Vector3 { x, y, z }),
    {
        Self { x, y, z }
    }
}

/// The position of a body.
#[derive(Clone, Copy, Debug, Default, PartialEq, Eq, Structural)]
pub struct SelestialPos {
    pub pos: Vector3,
}

impl SelestialPos {
    /// The position with the coordinates `x`, `y` and `z`.
    pub fn new(x: u64, y: u64, z: u64) -> (made: Self)
        ensures
            made.pos == (Vector3 { x, y, z }),
    {
        Self { pos: Vector3 { x, y, z } }
    }

    /// The position that holds the vector `pos`.
    pub fn load(pos: Vector3) -> (made: Self)
        ensures
            made.pos == pos,
    {
        Self { pos }
    }
}

impl TyId for SelestialPos {
    open spec fn tag() -> TypeTag {
        TypeTag::SelestialPos
    }

    fn id(&self) -> (tag: TypeTag) {
        TypeTag::SelestialPos
    }
}

impl AToAny for SelestialPos {
    open spec fn erased(self) -> AnyComponent {
        AnyComponent::Pos(self)
    }

    fn as_any(self) -> (any: AnyComponent) {
        AnyComponent::Pos(self)
    }

    fn downcast_ref(any: &AnyComponent) -> (found: Option<&Self>) {
        match any {
            AnyComponent::Pos(pos) => Some(pos),
            _ => None,
        }
    }
}

impl ComponentMarker for SelestialPos {
    proof fn lemma_erased_tag(self) {
    }

    proof fn lemma_tag_decides(any: AnyComponent) {
        match any {
            AnyComponent::Pos(component) => {
                assert(component.erased() == any);
            },
            _ => {},
        }
    }
}

impl Tomb for SelestialPos {
    fn tomb() -> (tomb: Self) {
        SelestialPos { pos: Vector3 { x: 0, y: 0, z: 0 } }
    }

    /// The position at the origin.
    open spec fn spec_tomb() -> Self {
        SelestialPos { pos: Vector3 { x: 0, y: 0, z: 0 } }
    }
}

} // verus!
