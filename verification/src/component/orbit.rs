use crate::component::{AToAny, AnyComponent, ComponentMarker, Components, Tomb};
use crate::heap::{impossible_heap_elem_id, HeapElemId};
use crate::type_tag::{TyId, TypeTag};
use vstd::prelude::*;

verus! {

/// The sense in which a body goes round its host.
#[derive(Clone, Copy, Debug, Default, PartialEq, Eq, Structural)]
pub enum SelestialOrbitDirectopn {
    #[default]
    CW,
    CCW,
}

impl SelestialOrbitDirectopn {
    /// Clockwise for an even `seed`, counter-clockwise for an odd one.
    pub fn random(seed: usize) -> (direction: SelestialOrbitDirectopn)
        ensures
            direction == if seed % 2 == 0 {
                SelestialOrbitDirectopn::CW
            } else {
                SelestialOrbitDirectopn::CCW
            },
    {
        if seed % 2 == 0 {
            Self::CW
        } else {
            Self::CCW
        }
    }
}

/// The tilt of an orbit's axis, as three angles in whole radians.
#[derive(Clone, Copy, Debug, Default, PartialEq, Eq, Structural)]
pub struct Tilt {
    pub roll: isize,
    pub pitch: isize,
    pub yaw: isize,
}

/// The orbit of a body round a host.
#[derive(Clone, Copy, Default)]
pub struct SelestialOrbit {
    /// The position component of the host. The reference owns nothing: the
    /// host may be freed while the orbit still names it.
    pub center_component: HeapElemId<Components>,
    pub tilt: Tilt,
    /// The radius of the orbit, in whole metres.
    pub radius: u64,
    pub period_secs: u64,
    pub direction: SelestialOrbitDirectopn,
    pub cycle_secs: u64,
}

impl SelestialOrbit {
    pub fn load(
        center_component: HeapElemId<Components>,
        tilt: Tilt,
        radius: u64,
        period_secs: u64,
        direction: SelestialOrbitDirectopn,
        cycle_secs: u64,
    ) -> (orbit: Self)
        ensures
            orbit == (SelestialOrbit {
                center_component,
                tilt,
                radius,
                period_secs,
                direction,
                cycle_secs,
            }),
    {
        Self { center_component, tilt, radius, period_secs, direction, cycle_secs }
    }
}

impl TyId for SelestialOrbit {
    open spec fn tag() -> TypeTag {
        TypeTag::SelestialOrbit
    }

    fn id(&self) -> (tag: TypeTag) {
        TypeTag::SelestialOrbit
    }
}

impl AToAny for SelestialOrbit {
    open spec fn erased(self) -> AnyComponent {
        AnyComponent::Orbit(self)
    }

    fn as_any(self) -> (any: AnyComponent) {
        AnyComponent::Orbit(self)
    }

    fn downcast_ref(any: &AnyComponent) -> (found: Option<&Self>) {
        match any {
            AnyComponent::Orbit(orbit) => Some(orbit),
            _ => None,
        }
    }
}

impl ComponentMarker for SelestialOrbit {
    proof fn lemma_erased_tag(self) {
    }

    proof fn lemma_tag_decides(any: AnyComponent) {
        match any {
            AnyComponent::Orbit(component) => {
                assert(component.erased() == any);
            },
            _ => {},
        }
    }
}

impl Tomb for SelestialOrbit {
    /// An orbit round nothing: its host is the handle that no store issues.
    fn tomb() -> (tomb: Self) {
        let center_component = impossible_heap_elem_id();
        proof {
            HeapElemId::<Components>::lemma_impossible_key();
            center_component.law_key_is_handle(HeapElemId::impossible());
        }
        SelestialOrbit {
            center_component,
            tilt: Tilt { roll: 0, pitch: 0, yaw: 0 },
            radius: 0,
            period_secs: 0,
            direction: SelestialOrbitDirectopn::CW,
            cycle_secs: 0,
        }
    }

    /// The orbit without radius, tilt or period round the handle that no
    /// store issues.
    open spec fn spec_tomb() -> Self {
        SelestialOrbit {
            center_component: HeapElemId::impossible(),
            tilt: Tilt { roll: 0, pitch: 0, yaw: 0 },
            radius: 0,
            period_secs: 0,
            direction: SelestialOrbitDirectopn::CW,
            cycle_secs: 0,
        }
    }
}

impl Tilt {
    /// The tilt of the three angles.
    pub fn new(roll: isize, pitch: isize, yaw: isize) -> (tilt: Self)
        ensures
            tilt == (Tilt { roll, pitch, yaw }),
    {
        Tilt { roll, pitch, yaw }
    }
}

} // verus!
