//! The errors of the stores, of the world and of the tick.

use crate::type_tag::TypeTag;
use vstd::prelude::*;

verus! {

/// What an operation reports instead of carrying out a request that it
/// cannot carry out. An operation that fails changes nothing.
#[derive(Clone, Copy, Debug, PartialEq, Eq, Structural)]
pub enum StoreError {
    /// The handle is no handle of the store it was presented to: the store
    /// has not issued its identifier, or has issued it for another slot.
    InvalidHandle,
    /// The handle is live, but nothing has been written to its slot yet.
    UninitializedSlot,
    /// The handle was read or written after it had been freed.
    UseAfterFree,
    /// The handle was freed a second time.
    DoubleFree,
    /// The handle was reserved for components of the type `actual`, and a
    /// component of the type `requested` was to be read or written there.
    TypeMismatch { requested: TypeTag, actual: TypeTag },
    /// The entity has no component of the type asked for.
    ComponentNotFound,
    /// A handle that the world keeps, in a binding or inside an orbit, leads
    /// to no live component.
    DanglingReference,
    /// An orbit has a period of zero seconds, so that it has no phase.
    ZeroPeriod,
    /// A counter cannot advance as far as asked: that of the identifiers of
    /// a store, or that of the ticks.
    Exhausted,
}

} // verus!
