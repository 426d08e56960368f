//! Process identifiers.
//!
//! A `Pid` starts unset and is set at most once, to the identifier of the
//! first thread that registers for its process. Once set it never changes.

use vstd::prelude::*;
use crate::Tid;

verus! {

/// Process id: an optional identifier, set exactly once.
///
/// The id of the init process is 0.
pub struct Pid {
    id: Option<usize>,
}

impl View for Pid {
    type V = Option<int>;

    closed spec fn view(&self) -> Option<int> {
        match self.id {
            Some(n) => Some(n as int),
            None => None,
        }
    }
}

impl Pid {
    /// A pid that has not been assigned yet.
    pub fn uninitialized() -> (r: Self)
        ensures
            r@ is None,
    {
        Pid { id: None }
    }

    /// Set the pid to `tid` if it is still unset; never overwrites a set pid.
    ///
    /// Returns whether the pid was unset before this call, which marks the
    /// calling thread as the first (leader) thread of the process.
    pub fn set_if_uninitialized(&mut self, tid: Tid) -> (first: bool)
        ensures
            first == (old(self)@ is None),
            old(self)@ is None ==> final(self)@ == Some(tid as int),
            old(self)@ is Some ==> final(self)@ == old(self)@,
    {
        if self.id.is_none() {
            self.id = Some(tid);
            true
        } else {
            false
        }
    }

    /// The assigned id. May only be asked of a pid that has been set.
    pub fn get(&self) -> (r: usize)
        requires
            self@ is Some,
        ensures
            Some(r as int) == self@,
    {
        match self.id {
            Some(n) => n,
            None => unreached(),
        }
    }

    /// Whether this pid names the init process (id 0).
    pub fn is_init(&self) -> (r: bool)
        ensures
            r == (self@ == Some(0int)),
    {
        self.id == Some(0usize)
    }
}
} // verus!
