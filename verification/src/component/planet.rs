use crate::component::{AToAny, AnyComponent, ComponentMarker, Tomb};
use crate::type_tag::{TyId, TypeTag};
use vstd::prelude::*;

verus! {

/// The mark of an entity that is a planet. It carries no data.
#[derive(Clone, Copy, Debug, Default, PartialEq, Eq, Structural)]
pub struct Planet {}

impl Planet {
    pub fn new() -> (mark: Self)
        ensures
            mark == (Planet {}),
    {
        Self {}
    }
}

impl TyId for Planet {
    open spec fn tag() -> TypeTag {
        TypeTag::Planet
    }

    fn id(&self) -> (tag: TypeTag) {
        TypeTag::Planet
    }
}

impl AToAny for Planet {
    open spec fn erased(self) -> AnyComponent {
        AnyComponent::Planet(self)
    }

    fn as_any(self) -> (any: AnyComponent) {
        AnyComponent::Planet(self)
    }

    fn downcast_ref(any: &AnyComponent) -> (found: Option<&Self>) {
        match any {
            AnyComponent::Planet(mark) => Some(mark),
            _ => None,
        }
    }
}

impl ComponentMarker for Planet {
    proof fn lemma_erased_tag(self) {
    }

    proof fn lemma_tag_decides(any: AnyComponent) {
        match any {
            AnyComponent::Planet(component) => {
                assert(component.erased() == any);
            },
            _ => {},
        }
    }
}

impl Tomb for Planet {
    fn tomb() -> (tomb: Self) {
        Planet {}
    }

    open spec fn spec_tomb() -> Self {
        Planet {  }
    }
}

} // verus!
