//! Process control blocks and the process table.
//!
//! A `Process` owns one address space, the file-descriptor table, the
//! working directory, the per-address futex conditions and the family
//! bookkeeping. Processes are shared: several threads may hold the same
//! process, and a parent holds weak links to its children. The sharing is
//! modeled by a `ProcessTable` that owns every live process; a thread or a
//! family link names its process by table slot, and a link must tolerate a
//! vacated slot, as a weak reference tolerates a dropped target. The table
//! also plays the resource allocator: it hands out fresh page-table tokens
//! and kernel stacks, and it holds the global pid registry.

use vstd::prelude::*;
use crate::assoc::{assoc_get, assoc_insert, assoc_remove, has_key, index_of_key, lemma_value_at,
    sorted_keys, value_of};
use crate::file::FileLike;
use crate::memory::{KernelStack, MemorySet, KERNEL_STACK_SIZE};
use crate::pid::Pid;
use crate::sync::Condvar;
use crate::Tid;

verus! {

/// One process control block.
pub struct Process {
    // resources
    pub memory_set: MemorySet,
    pub files: Vec<(usize, FileLike)>,
    pub cwd: String,
    /// Futex table: user address to shared wait condition. Maintained
    /// through `get_futex`; exposed so that contracts can speak of it.
    pub futexes: Vec<(usize, Condvar)>,
    /// Ids below this have been handed out as futex conditions.
    pub futex_next: usize,
    // relationships
    pub pid: Pid,
    /// Table slot of the parent process, if any.
    pub parent: Option<usize>,
    /// Table slots of child processes; entries may be stale.
    pub children: Vec<usize>,
    /// Threads belonging to this process.
    pub threads: Vec<Tid>,
    // for waiting on children
    /// Signaled on any child termination. Its handle carries id 0 within
    /// this process; the futex conditions are numbered from 1.
    pub child_exit: Condvar,
    pub child_exit_code: Vec<(usize, usize)>,
}

impl Process {
    /// Well-formedness: ordered tables, a well-formed address space, and
    /// futex conditions that are pairwise distinct objects.
    pub open spec fn wf(&self) -> bool {
        &&& sorted_keys(self.files@)
        &&& sorted_keys(self.futexes@)
        &&& self.memory_set@.wf()
        &&& 1 <= self.futex_next as int
        &&& forall|i: int|
            0 <= i < self.futexes@.len() ==> 1 <= (#[trigger] self.futexes@[i]).1.id
                < self.futex_next as int
        &&& forall|i: int, j: int|
            0 <= i < j < self.futexes@.len() ==> (#[trigger] self.futexes@[i]).1.id
                != (#[trigger] self.futexes@[j]).1.id
    }

    /// Room to create one more futex condition.
    pub open spec fn futex_headroom(&self) -> bool {
        (self.futex_next as int) < usize::MAX as int
    }

    /// A fresh process control block around an address space: the given
    /// file table and working directory, no pid, no threads, no children,
    /// a fresh child-exit condition and no futexes yet.
    pub fn new(memory_set: MemorySet, files: Vec<(usize, FileLike)>, cwd: String, parent: Option<
        usize,
    >) -> (r: Process)
        requires
            sorted_keys(files@),
            memory_set@.wf(),
        ensures
            r.wf(),
            r.memory_set == memory_set,
            r.files == files,
            r.cwd == cwd,
            r.parent == parent,
            r.pid@ is None,
            r.children@.len() == 0,
            r.threads@.len() == 0,
            r.child_exit.id == 0,
            r.child_exit_code@.len() == 0,
            r.futexes@.len() == 0,
            r.futex_headroom(),
    {
        Process {
            memory_set,
            files,
            cwd,
            futexes: Vec::new(),
            futex_next: 1,
            pid: Pid::uninitialized(),
            parent,
            children: Vec::new(),
            threads: Vec::new(),
            child_exit: Condvar::new(0),
            child_exit_code: Vec::new(),
        }
    }

    /// The smallest file descriptor not yet in use. Previously used
    /// descriptors persist until explicitly closed; gaps are reused.
    pub fn get_free_fd(&self) -> (r: usize)
        requires
            sorted_keys(self.files@),
        ensures
            !has_key(self.files@, r as int),
            forall|m: int| 0 <= m < r as int ==> has_key(self.files@, m),
    {
        let n = self.files.len();
        let mut i: usize = 0;
        while i < n
            invariant
                0 <= i <= n,
                n == self.files@.len(),
                sorted_keys(self.files@),
                forall|j: int| 0 <= j < i ==> (#[trigger] self.files@[j]).0 == j,
            decreases n - i,
        {
            if self.files[i].0 != i {
                proof {
                    // Keys beyond position i are larger still, so i is free.
                    assert forall|j: int|
                        0 <= j < n implies (#[trigger] self.files@[j]).0 != i as int by {
                        if j > i as int {
                            if i > 0 {
                                assert(self.files@[i as int - 1].0 < self.files@[i as int].0);
                                assert(self.files@[i as int - 1].0 == i - 1);
                            }
                            assert(self.files@[i as int].0 < self.files@[j].0);
                            assert(self.files@[i as int].0 >= i as int);
                        }
                    }
                    assert forall|m: int| 0 <= m < i as int implies has_key(
                        self.files@,
                        m,
                    ) by {
                        assert(self.files@[m].0 == m);
                    }
                }
                return i;
            }
            i += 1;
        }
        proof {
            assert forall|j: int|
                0 <= j < n implies (#[trigger] self.files@[j]).0 != n as int by {
                assert(self.files@[j].0 == j);
            }
            assert forall|m: int| 0 <= m < n as int implies has_key(self.files@, m) by {
                assert(self.files@[m].0 == m);
            }
        }
        n
    }

    /// Open a descriptor: bind `fd` to `f`, replacing what `fd` held.
    pub fn insert_file(&mut self, fd: usize, f: FileLike)
        requires
            sorted_keys(old(self).files@),
        ensures
            sorted_keys(final(self).files@),
            has_key(final(self).files@, fd as int),
            value_of(final(self).files@, fd as int) == f,
            forall|k: int|
                k != fd as int ==> has_key(final(self).files@, k) == has_key(
                    old(self).files@,
                    k,
                ),
            forall|k: int|
                k != fd as int && has_key(old(self).files@, k) ==> value_of(
                    final(self).files@,
                    k,
                ) == value_of(old(self).files@, k),
            *final(self) == (Process { files: final(self).files, ..*old(self) }),
    {
        assoc_insert(&mut self.files, fd, f);
    }

    /// Close descriptor `fd`; absent descriptors are left alone.
    pub fn remove_file(&mut self, fd: usize)
        requires
            sorted_keys(old(self).files@),
        ensures
            sorted_keys(final(self).files@),
            !has_key(final(self).files@, fd as int),
            forall|k: int|
                k != fd as int ==> has_key(final(self).files@, k) == has_key(
                    old(self).files@,
                    k,
                ),
            forall|k: int|
                k != fd as int && has_key(old(self).files@, k) ==> value_of(
                    final(self).files@,
                    k,
                ) == value_of(old(self).files@, k),
            *final(self) == (Process { files: final(self).files, ..*old(self) }),
    {
        assoc_remove(&mut self.files, fd);
    }

    /// The wait condition for user address `uaddr`, created on first use:
    /// the same address always yields the same shared condition, and
    /// distinct addresses yield distinct conditions.
    pub fn get_futex(&mut self, uaddr: usize) -> (r: Condvar)
        requires
            old(self).wf(),
            !has_key(old(self).futexes@, uaddr as int) ==> old(self).futex_headroom(),
        ensures
            final(self).wf(),
            has_key(final(self).futexes@, uaddr as int),
            r == value_of(final(self).futexes@, uaddr as int),
            has_key(old(self).futexes@, uaddr as int) ==> final(self).futexes@
                == old(self).futexes@ && r == value_of(
                old(self).futexes@,
                uaddr as int,
            ) && final(self).futex_next == old(self).futex_next,
            !has_key(old(self).futexes@, uaddr as int) ==> final(self).futex_next as int
                == old(self).futex_next as int + 1,
            !has_key(old(self).futexes@, uaddr as int) ==> {
                &&& forall|k: int|
                    k != uaddr as int ==> has_key(final(self).futexes@, k) == has_key(
                        old(self).futexes@,
                        k,
                    )
                &&& forall|k: int|
                    k != uaddr as int && has_key(old(self).futexes@, k) ==> value_of(
                        final(self).futexes@,
                        k,
                    ) == value_of(old(self).futexes@, k)
                &&& forall|i: int|
                    0 <= i < old(self).futexes@.len() ==> (#[trigger] old(
                        self,
                    ).futexes@[i]).1.id != r.id
            },
            *final(self) == (Process {
                futexes: final(self).futexes,
                futex_next: final(self).futex_next,
                ..*old(self)
            }),
    {
        match assoc_get(&self.futexes, uaddr) {
            Some(c) => c,
            None => {
                let c = Condvar::new(self.futex_next);
                assoc_insert(&mut self.futexes, uaddr, c);
                self.futex_next = self.futex_next + 1;
                proof {
                    let oldf = old(self).futexes@;
                    let newf = self.futexes@;
                    assert forall|i: int|
                        0 <= i < newf.len() implies 1 <= (#[trigger] newf[i]).1.id
                        < (self.futex_next as int) by {
                        lemma_value_at(newf, i);
                        let k = newf[i].0 as int;
                        if k == uaddr as int {
                            assert(newf[i].1 == c);
                        } else {
                            assert(has_key(newf, k));
                            assert(has_key(oldf, k));
                            let o = index_of_key(oldf, k);
                            assert(oldf[o].0 == k);
                            lemma_value_at(oldf, o);
                            assert(newf[i].1 == oldf[o].1);
                        }
                    }
                    assert forall|i: int, j: int|
                        0 <= i < j < newf.len() implies (#[trigger] newf[i]).1.id != (
                    #[trigger] newf[j]).1.id by {
                        lemma_value_at(newf, i);
                        lemma_value_at(newf, j);
                        let ki = newf[i].0 as int;
                        let kj = newf[j].0 as int;
                        assert(ki != kj);
                        if ki == uaddr as int {
                            assert(newf[i].1 == c);
                            let o = index_of_key(oldf, kj);
                            assert(oldf[o].0 == kj);
                            lemma_value_at(oldf, o);
                            assert(newf[j].1 == oldf[o].1);
                        } else if kj == uaddr as int {
                            assert(newf[j].1 == c);
                            let o = index_of_key(oldf, ki);
                            assert(oldf[o].0 == ki);
                            lemma_value_at(oldf, o);
                            assert(newf[i].1 == oldf[o].1);
                        } else {
                            let oi = index_of_key(oldf, ki);
                            let oj = index_of_key(oldf, kj);
                            assert(oldf[oi].0 == ki);
                            assert(oldf[oj].0 == kj);
                            lemma_value_at(oldf, oi);
                            lemma_value_at(oldf, oj);
                            assert(newf[i].1 == oldf[oi].1);
                            assert(newf[j].1 == oldf[oj].1);
                            if oi < oj {
                                assert(oldf[oi].1.id != oldf[oj].1.id);
                            } else {
                                assert(oi != oj);
                                assert(oldf[oj].1.id != oldf[oi].1.id);
                            }
                        }
                    }
                }
                c
            },
        }
    }
}

/// Two futex conditions of one process taken at distinct addresses are
/// distinct objects.
pub proof fn lemma_futexes_distinct(p: &Process, a1: int, a2: int)
    requires
        p.wf(),
        has_key(p.futexes@, a1),
        has_key(p.futexes@, a2),
        a1 != a2,
    ensures
        value_of(p.futexes@, a1).id != value_of(p.futexes@, a2).id,
{
    let s = p.futexes@;
    let i1 = index_of_key(s, a1);
    let i2 = index_of_key(s, a2);
    assert(s[i1].0 == a1);
    assert(s[i2].0 == a2);
    if i1 < i2 {
        assert(s[i1].1.id != s[i2].1.id);
    } else if i2 < i1 {
        assert(s[i2].1.id != s[i1].1.id);
    } else {
        assert(a1 == a2);
    }
}

/// Eager-copy isolation. A fork hands the child an address space that is
/// a separate owned value in its own table slot, not a view onto the
/// parent's pages; every mutation of the table replaces one slot. So a
/// later write into either process's address space — an update of its
/// slot — leaves the other process, bytes included, exactly as it was.
pub proof fn lemma_slot_isolation(
    slots: Seq<Option<Process>>,
    a: int,
    b: int,
    p: Option<Process>,
)
    requires
        0 <= a < slots.len(),
        0 <= b < slots.len(),
        a != b,
    ensures
        slots.update(a, p)[b] == slots[b],
{
}

/// The table of live processes, the pid registry, and the kernel's
/// resource counters for page-table tokens and kernel stacks.
pub struct ProcessTable {
    /// One entry per process ever created; `None` marks a vacated slot.
    pub slots: Vec<Option<Process>>,
    /// The global registry: pid to table slot. Entries are never removed;
    /// a reader must tolerate a stale slot.
    pub registry: Vec<(usize, usize)>,
    /// The next unused page-table token.
    pub next_token: usize,
    /// The next unused kernel-stack base.
    pub next_kstack: usize,
}

/// Base address of the kernel-stack area of the model.
pub const KERNEL_STACK_BASE: usize = 0x1000_0000;

impl ProcessTable {
    /// Well-formedness: an ordered registry, well-formed processes, and
    /// every live process's page-table token below the allocator's next —
    /// so a token the allocator hands out is fresh, held by no live
    /// process.
    pub open spec fn wf(&self) -> bool {
        &&& sorted_keys(self.registry@)
        &&& 1 <= self.next_token as int
        &&& forall|i: int|
            0 <= i < self.slots@.len() && (#[trigger] self.slots@[i]) is Some
                ==> self.slots@[i]->0.wf()
        &&& forall|i: int|
            0 <= i < self.slots@.len() && (#[trigger] self.slots@[i]) is Some
                ==> self.slots@[i]->0.memory_set@.token < self.next_token as int
    }

    /// Room to hand out one more page-table token and kernel stack.
    pub open spec fn can_spawn(&self) -> bool {
        &&& (self.next_token as int) < usize::MAX as int
        &&& (self.next_kstack as int) + 2 * KERNEL_STACK_SIZE <= usize::MAX as int
    }

    /// The empty table, as it stands at kernel start.
    pub fn new() -> (r: Self)
        ensures
            r.wf(),
            r.can_spawn(),
            r.slots@.len() == 0,
            r.registry@.len() == 0,
    {
        ProcessTable {
            slots: Vec::new(),
            registry: Vec::new(),
            next_token: 1,
            next_kstack: KERNEL_STACK_BASE,
        }
    }

    /// A fresh page-table token, never handed out before.
    pub fn alloc_token(&mut self) -> (r: usize)
        requires
            (old(self).next_token as int) < usize::MAX as int,
        ensures
            r as int == old(self).next_token as int,
            final(self).next_token as int == old(self).next_token as int + 1,
            final(self).slots == old(self).slots,
            final(self).registry == old(self).registry,
            final(self).next_kstack as int == old(self).next_kstack as int,
            old(self).wf() ==> final(self).wf(),
    {
        let r = self.next_token;
        self.next_token = self.next_token + 1;
        r
    }

    /// A fresh kernel stack, disjoint from every stack handed out before.
    pub fn alloc_kstack(&mut self) -> (r: KernelStack)
        requires
            (old(self).next_kstack as int) + KERNEL_STACK_SIZE <= usize::MAX as int,
        ensures
            r.spec_top() as int == old(self).next_kstack as int + KERNEL_STACK_SIZE,
            final(self).next_kstack as int == old(self).next_kstack as int
                + KERNEL_STACK_SIZE,
            final(self).slots == old(self).slots,
            final(self).registry == old(self).registry,
            final(self).next_token as int == old(self).next_token as int,
            old(self).wf() ==> final(self).wf(),
    {
        let top = self.next_kstack + KERNEL_STACK_SIZE;
        self.next_kstack = top;
        KernelStack::new(top)
    }

    /// Add a process; its slot index names it from now on. Its page-table
    /// token must come from this table's allocator, below the next one.
    pub fn insert(&mut self, p: Process) -> (slot: usize)
        requires
            old(self).wf(),
            p.wf(),
            p.memory_set@.token < old(self).next_token as int,
        ensures
            final(self).wf(),
            slot as int == old(self).slots@.len(),
            final(self).slots@ == old(self).slots@.push(Some(p)),
            final(self).registry == old(self).registry,
            final(self).next_token as int == old(self).next_token as int,
            final(self).next_kstack as int == old(self).next_kstack as int,
    {
        let slot = self.slots.len();
        self.slots.push(Some(p));
        slot
    }

    /// Whether `slot` currently holds a process.
    pub fn occupied(&self, slot: usize) -> (r: bool)
        ensures
            r == (slot < self.slots@.len() && self.slots@[slot as int] is Some),
    {
        slot < self.slots.len() && self.slots[slot].is_some()
    }

    /// Take the process out of `slot`, leaving the slot vacant.
    pub fn take(&mut self, slot: usize) -> (r: Process)
        requires
            slot < old(self).slots@.len(),
            old(self).slots@[slot as int] is Some,
        ensures
            r == old(self).slots@[slot as int]->0,
            final(self).slots@ == old(self).slots@.update(slot as int, None::<Process>),
            final(self).registry == old(self).registry,
            final(self).next_token as int == old(self).next_token as int,
            final(self).next_kstack as int == old(self).next_kstack as int,
            old(self).wf() ==> r.wf(),
            old(self).wf() ==> r.memory_set@.token < old(self).next_token as int,
            old(self).wf() ==> final(self).wf(),
    {
        let p = self.slots.remove(slot);
        self.slots.insert(slot, None);
        assert(self.slots@ =~= old(self).slots@.update(slot as int, None::<Process>));
        match p {
            Some(p) => p,
            None => unreached(),
        }
    }

    /// Put a process back into the vacant slot it was taken from.
    pub fn put(&mut self, slot: usize, p: Process)
        requires
            slot < old(self).slots@.len(),
            old(self).slots@[slot as int] is None,
            p.wf(),
            p.memory_set@.token < old(self).next_token as int,
        ensures
            final(self).slots@ == old(self).slots@.update(slot as int, Some(p)),
            final(self).registry == old(self).registry,
            final(self).next_token as int == old(self).next_token as int,
            final(self).next_kstack as int == old(self).next_kstack as int,
            old(self).wf() ==> final(self).wf(),
    {
        self.slots.remove(slot);
        self.slots.insert(slot, Some(p));
        assert(self.slots@ =~= old(self).slots@.update(slot as int, Some(p)));
    }

    /// Record `pid` as naming `slot` in the global registry, replacing any
    /// earlier record for `pid`.
    pub fn registry_insert(&mut self, pid: usize, slot: usize)
        requires
            sorted_keys(old(self).registry@),
        ensures
            sorted_keys(final(self).registry@),
            has_key(final(self).registry@, pid as int),
            value_of(final(self).registry@, pid as int) == slot,
            forall|k: int|
                k != pid as int ==> has_key(final(self).registry@, k) == has_key(
                    old(self).registry@,
                    k,
                ),
            forall|k: int|
                k != pid as int && has_key(old(self).registry@, k) ==> value_of(
                    final(self).registry@,
                    k,
                ) == value_of(old(self).registry@, k),
            final(self).slots == old(self).slots,
            final(self).next_token as int == old(self).next_token as int,
            final(self).next_kstack as int == old(self).next_kstack as int,
            old(self).wf() ==> final(self).wf(),
    {
        assoc_insert(&mut self.registry, pid, slot);
    }

    /// Look a pid up in the registry; the slot returned may be stale.
    pub fn registry_get(&self, pid: usize) -> (r: Option<usize>)
        requires
            sorted_keys(self.registry@),
        ensures
            r is Some <==> has_key(self.registry@, pid as int),
            r matches Some(s) ==> s == value_of(self.registry@, pid as int),
    {
        assoc_get(&self.registry, pid)
    }
}

} // verus!
