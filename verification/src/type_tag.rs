//! The identifiers of the types that the stores hold.

use vstd::prelude::*;

verus! {

/// The identifier of a type of stored value. It is what a store records for a
/// handle, what a mismatch reports, and, together with an entity, the key
/// under which a component is bound.
#[derive(Clone, Copy, Debug, PartialEq, Eq, Structural, Hash)]
pub enum TypeTag {
    Entity,
    Star,
    Planet,
    Moon,
    SelestialPos,
    SelestialOrbit,
}

impl TypeTag {
    /// The number that stands for the identifier inside the hash tables.
    pub open spec fn spec_code(self) -> usize {
        match self {
            TypeTag::Entity => 0,
            TypeTag::Star => 1,
            TypeTag::Planet => 2,
            TypeTag::Moon => 3,
            TypeTag::SelestialPos => 4,
            TypeTag::SelestialOrbit => 5,
        }
    }

    /// The identifier that `code` stands for, where it stands for one.
    pub open spec fn spec_from_code(code: usize) -> Option<TypeTag> {
        if code == 0 {
            Some(TypeTag::Entity)
        } else if code == 1 {
            Some(TypeTag::Star)
        } else if code == 2 {
            Some(TypeTag::Planet)
        } else if code == 3 {
            Some(TypeTag::Moon)
        } else if code == 4 {
            Some(TypeTag::SelestialPos)
        } else if code == 5 {
            Some(TypeTag::SelestialOrbit)
        } else {
            None
        }
    }

    #[verifier::when_used_as_spec(spec_code)]
    pub fn code(self) -> (code: usize)
        ensures
            code == self.spec_code(),
    {
        match self {
            TypeTag::Entity => 0,
            TypeTag::Star => 1,
            TypeTag::Planet => 2,
            TypeTag::Moon => 3,
            TypeTag::SelestialPos => 4,
            TypeTag::SelestialOrbit => 5,
        }
    }

    #[verifier::when_used_as_spec(spec_from_code)]
    pub fn from_code(code: usize) -> (tag: Option<TypeTag>)
        ensures
            tag == Self::spec_from_code(code),
    {
        if code == 0 {
            Some(TypeTag::Entity)
        } else if code == 1 {
            Some(TypeTag::Star)
        } else if code == 2 {
            Some(TypeTag::Planet)
        } else if code == 3 {
            Some(TypeTag::Moon)
        } else if code == 4 {
            Some(TypeTag::SelestialPos)
        } else if code == 5 {
            Some(TypeTag::SelestialOrbit)
        } else {
            None
        }
    }

    /// Different identifiers have different codes, and a code leads back to
    /// its identifier.
    pub proof fn lemma_code_roundtrip(self)
        ensures
            Self::spec_from_code(self.spec_code()) == Some(self),
    {
    }
}

/// A type that knows its own identifier.
pub trait TyId {
    /// The identifier of the implementing type.
    spec fn tag() -> TypeTag;

    /// The identifier of the type of `self`.
    fn id(&self) -> (tag: TypeTag)
        ensures
            tag == Self::tag(),
    ;
}

} // verus!
