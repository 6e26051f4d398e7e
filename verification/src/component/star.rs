use crate::component::{AToAny, AnyComponent, ComponentMarker, Tomb};
use crate::type_tag::{TyId, TypeTag};
use vstd::prelude::*;

verus! {

/// The mark of an entity that is a star. It carries no data.
#[derive(Clone, Copy, Debug, Default, PartialEq, Eq, Structural)]
pub struct Star {}

impl Star {
    pub fn new() -> (mark: Self)
        ensures
            mark == (Star {}),
    {
        Self {}
    }
}

impl TyId for Star {
    open spec fn tag() -> TypeTag {
        TypeTag::Star
    }

    fn id(&self) -> (tag: TypeTag) {
        TypeTag::Star
    }
}

impl AToAny for Star {
    open spec fn erased(self) -> AnyComponent {
        AnyComponent::Star(self)
    }

    fn as_any(self) -> (any: AnyComponent) {
        AnyComponent::Star(self)
    }

    fn downcast_ref(any: &AnyComponent) -> (found: Option<&Self>) {
        match any {
            AnyComponent::Star(mark) => Some(mark),
            _ => None,
        }
    }
}

impl ComponentMarker for Star {
    proof fn lemma_erased_tag(self) {
    }

    proof fn lemma_tag_decides(any: AnyComponent) {
        match any {
            AnyComponent::Star(component) => {
                assert(component.erased() == any);
            },
            _ => {},
        }
    }
}

impl Tomb for Star {
    fn tomb() -> (tomb: Self) {
        Star {}
    }

    open spec fn spec_tomb() -> Self {
        Star {  }
    }
}

} // verus!
