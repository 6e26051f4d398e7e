use crate::component::{AToAny, AnyComponent, ComponentMarker, Tomb};
use crate::type_tag::{TyId, TypeTag};
use vstd::prelude::*;

verus! {

/// The mark of an entity that is a moon. It carries no data.
#[derive(Clone, Copy, Debug, Default, PartialEq, Eq, Structural)]
pub struct Moon {}

impl Moon {
    pub fn new() -> (mark: Self)
        ensures
            mark == (Moon {}),
    {
        Self {}
    }
}

impl TyId for Moon {
    open spec fn tag() -> TypeTag {
        TypeTag::Moon
    }

    fn id(&self) -> (tag: TypeTag) {
        TypeTag::Moon
    }
}

impl AToAny for Moon {
    open spec fn erased(self) -> AnyComponent {
        AnyComponent::Moon(self)
    }

    fn as_any(self) -> (any: AnyComponent) {
        AnyComponent::Moon(self)
    }

    fn downcast_ref(any: &AnyComponent) -> (found: Option<&Self>) {
        match any {
            AnyComponent::Moon(mark) => Some(mark),
            _ => None,
        }
    }
}

impl ComponentMarker for Moon {
    proof fn lemma_erased_tag(self) {
    }

    proof fn lemma_tag_decides(any: AnyComponent) {
        match any {
            AnyComponent::Moon(component) => {
                assert(component.erased() == any);
            },
            _ => {},
        }
    }
}

impl Tomb for Moon {
    fn tomb() -> (tomb: Self) {
        Moon {}
    }

    open spec fn spec_tomb() -> Self {
        Moon {  }
    }
}

} // verus!
