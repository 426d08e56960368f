//! Model of the external condition-variable primitive.
//!
//! The real primitive is a reference-counted wait queue shared between
//! waiters. This core never waits or wakes; all it relies on is identity,
//! and only among the conditions one process keeps: within one process,
//! the child-exit condition carries id 0 and the futex conditions carry
//! distinct ids from 1 up, so two handles held through the same process
//! name the same condition exactly when their ids are equal. Ids carry no
//! meaning across processes. Handing out a copy of a handle stands for
//! cloning the shared reference.

use vstd::prelude::*;

verus! {

/// Handle to one shared wait condition. Within the process that keeps
/// the condition, two handles with the same id name the same underlying
/// condition variable.
#[derive(Clone, Copy, PartialEq, Eq, Structural)]
pub struct Condvar {
    pub id: usize,
}

impl Condvar {
    /// A handle to the condition variable named `id`.
    pub fn new(id: usize) -> (r: Self)
        ensures
            r.id == id,
    {
        Condvar { id }
    }
}

} // verus!
