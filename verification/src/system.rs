//! What a system works on: the entity it moves and what it reads to move it.

use vstd::prelude::*;

verus! {

/// The entity that a job of a system changes, and the entities that it reads.
pub struct SystemScope {
    pub target: usize,
    pub involved: Vec<usize>,
}

/// The components of one entity that a job of a system reads.
pub struct SystemScopeInvolvy {
    pub components: Vec<usize>,
}

} // verus!
