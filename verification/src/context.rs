//! Bare execution contexts and the swap-tracking bridge.
//!
//! `ContextImpl` pairs an architecture context with the address space and
//! kernel stack it runs on, without a process control block around them.
//! Teardown hands every mapped page back to the external page-swapping
//! subsystem before the page table goes away; a separate, explicitly
//! invoked operation marks a live space's pages swap-eligible once its
//! data is in place.

use vstd::prelude::*;
use crate::arch::{Context, TrapFrame};
use crate::elf::{entry_of, image_loadable, is32_of, lemma_load_areas_contains,
    lemma_load_areas_index, load_areas, memory_set_from, parse_image, attr_of, segs_of, seg_views,
    valid_header, valid_ph_table, zero_seq, Flags, ImageError, ET_DYN, ET_EXEC, PT_LOAD};
use crate::memory::{pages_of_areas, AreaView, KernelStack, MemoryArea, MemoryAttr, MemorySet,
    KERNEL_STACK_SIZE};
use crate::process::ProcessTable;
use crate::thread::{stack_bottom_of, stack_clear, stack_top_of, user_type_ok,
    USER32_STACK_OFFSET, USER_STACK_OFFSET, USER_STACK_SIZE};

verus! {

/// The region attributes of a segment's flags value.
pub fn memory_attr_from(elf_flags: Flags) -> (r: MemoryAttr)
    ensures
        r == attr_of(elf_flags.bits as int),
{
    let mut flags = MemoryAttr::default().user();
    if elf_flags.is_execute() {
        flags = flags.execute();
    }
    flags
}

/// An execution context paired with the address space and kernel stack it
/// runs on.
pub struct ContextImpl {
    pub arch: Context,
    pub memory_set: MemorySet,
    pub kstack: KernelStack,
}

impl ContextImpl {
    /// The context of the very first, already-running thread of control:
    /// a placeholder over a fresh, empty address space.
    pub fn new_init(table: &mut ProcessTable) -> (r: ContextImpl)
        requires
            old(table).wf(),
            old(table).can_spawn(),
        ensures
            final(table).wf(),
            final(table).slots == old(table).slots,
            final(table).registry == old(table).registry,
            r.arch is Running,
            r.memory_set@.areas.len() == 0,
            r.memory_set@.token == old(table).next_token as int,
            r.memory_set@.token < final(table).next_token as int,
            r.kstack.spec_top() as int == old(table).next_kstack as int + KERNEL_STACK_SIZE,
    {
        let token = table.alloc_token();
        let memory_set = MemorySet::new(token);
        let kstack = table.alloc_kstack();
        ContextImpl { arch: Context::null(), memory_set, kstack }
    }

    /// A context that will begin the non-returning kernel routine
    /// `entry(arg)` on a fresh kernel stack over a fresh, empty address
    /// space.
    pub fn new_kernel(entry: usize, arg: usize, table: &mut ProcessTable) -> (r: ContextImpl)
        requires
            old(table).wf(),
            old(table).can_spawn(),
        ensures
            final(table).wf(),
            final(table).slots == old(table).slots,
            final(table).registry == old(table).registry,
            r.arch == (Context::KernelEntry {
                entry,
                arg,
                kstack_top: (old(table).next_kstack as int + KERNEL_STACK_SIZE) as usize,
                token: old(table).next_token,
            }),
            r.memory_set@.areas.len() == 0,
            r.memory_set@.token == old(table).next_token as int,
            r.memory_set@.token < final(table).next_token as int,
            r.kstack.spec_top() as int == old(table).next_kstack as int + KERNEL_STACK_SIZE,
    {
        let token = table.alloc_token();
        let memory_set = MemorySet::new(token);
        let kstack = table.alloc_kstack();
        let top = kstack.top();
        ContextImpl { arch: Context::new_kernel_thread(entry, arg, top, token), memory_set, kstack }
    }

    /// A user-thread context built from the executable or shared-object
    /// image `data`: its loadable segments and a zeroed user stack become
    /// the address space, and the context enters user mode at the image's
    /// entry point, with the stack pointer one word-pair below the stack
    /// top. Fails exactly when the image is unusable, and says which way.
    #[verifier::rlimit(100)]
    pub fn new_user(data: &[u8], table: &mut ProcessTable) -> (r: Result<ContextImpl, ImageError>)
        requires
            old(table).wf(),
            old(table).can_spawn(),
        ensures
            final(table).wf(),
            final(table).slots == old(table).slots,
            final(table).registry == old(table).registry,
            r is Ok <==> valid_ph_table(data@) && user_type_ok(data@) && image_loadable(
                data@,
                segs_of(data@),
                entry_of(data@),
            ) && stack_clear(data@),
            !valid_header(data@) ==> r == Err::<ContextImpl, ImageError>(ImageError::BadHeader),
            valid_header(data@) && !valid_ph_table(data@) ==> r == Err::<ContextImpl, ImageError>(
                ImageError::BadProgramHeaders,
            ),
            valid_ph_table(data@) && !user_type_ok(data@) ==> r == Err::<ContextImpl, ImageError>(
                ImageError::NotExecutable,
            ),
            valid_ph_table(data@) && user_type_ok(data@) && !(image_loadable(
                data@,
                segs_of(data@),
                entry_of(data@),
            ) && stack_clear(data@)) ==> r == Err::<ContextImpl, ImageError>(
                ImageError::BadSegment,
            ),
            r matches Ok(c) ==> {
                &&& c.memory_set@.token == old(table).next_token as int
                &&& c.memory_set@.token < final(table).next_token as int
                &&& c.memory_set@.areas == load_areas(data@, segs_of(data@)).push(
                    AreaView {
                        start: stack_bottom_of(is32_of(data@)),
                        end: stack_top_of(is32_of(data@)),
                        attr: MemoryAttr { user: true, execute: false },
                        name: "user_stack"@,
                        data: zero_seq(USER_STACK_SIZE as int),
                    },
                )
                &&& c.memory_set@.wf()
                &&& c.arch == (Context::UserEntry {
                    entry_addr: entry_of(data@) as usize,
                    ustack_top: (stack_top_of(is32_of(data@)) - 8) as usize,
                    kstack_top: (old(table).next_kstack as int + KERNEL_STACK_SIZE) as usize,
                    is32: is32_of(data@),
                    token: old(table).next_token,
                })
                &&& c.kstack.spec_top() as int == old(table).next_kstack as int
                    + KERNEL_STACK_SIZE
            },
    {
        let ghost d = data@;
        let f = match parse_image(data) {
            Ok(f) => f,
            Err(e) => { return Err(e); },
        };
        if !(f.header.etype == ET_EXEC || f.header.etype == ET_DYN) {
            return Err(ImageError::NotExecutable);
        }
        proof {
            assert(seg_views(f.segments@) =~= segs_of(d));
        }
        let token = table.alloc_token();
        let (mut ms, entry) = match memory_set_from(&f, data, token) {
            Ok(x) => x,
            Err(e) => { return Err(e); },
        };
        let is32 = f.header.is32;
        let bottom: usize = if is32 {
            USER32_STACK_OFFSET
        } else {
            USER_STACK_OFFSET
        };
        let top: usize = bottom + USER_STACK_SIZE;
        if ms.overlaps_any(bottom, top) {
            proof {
                let areas = load_areas(d, segs_of(d));
                let k = choose|k: int|
                    0 <= k < areas.len() && !((#[trigger] areas[k]).end <= bottom as int
                        || top as int <= areas[k].start);
                lemma_load_areas_index(d, segs_of(d), k);
                let j = choose|j: int|
                    0 <= j < segs_of(d).len() && (#[trigger] segs_of(d)[j]).ptype
                        == PT_LOAD as int && areas[k] == crate::elf::seg_area(d, segs_of(d)[j]);
                assert(!stack_clear(d));
            }
            return Err(ImageError::BadSegment);
        }
        proof {
            assert forall|i: int|
                0 <= i < segs_of(d).len() && (#[trigger] segs_of(d)[i]).ptype
                    == PT_LOAD as int implies (segs_of(d)[i].vaddr + segs_of(d)[i].mem_size
                <= stack_bottom_of(is32_of(d)) || stack_top_of(is32_of(d)) <= segs_of(
                d,
            )[i].vaddr) by {
                lemma_load_areas_contains(d, segs_of(d), i);
                let k = choose|k: int|
                    0 <= k < load_areas(d, segs_of(d)).len() && #[trigger] load_areas(
                        d,
                        segs_of(d),
                    )[k] == crate::elf::seg_area(d, segs_of(d)[i]);
                assert(!ms@.overlaps(bottom as int, top as int));
                assert(ms@.areas[k].disjoint(
                    AreaView {
                        start: bottom as int,
                        end: top as int,
                        attr: MemoryAttr { user: false, execute: false },
                        name: Seq::empty(),
                        data: Seq::empty(),
                    },
                ));
            }
            assert(stack_clear(d));
        }
        let area = MemoryArea::new(bottom, top, MemoryAttr::default().user(), "user_stack");
        proof {
            assert forall|k: int| 0 <= k < ms@.areas.len() implies (#[trigger] ms@.areas[k]).disjoint(
                area@,
            ) by {
                assert(!ms@.overlaps(bottom as int, top as int));
            }
        }
        let ghost pre_areas = ms@.areas;
        let ghost av = area@;
        ms.push(area);
        let idx: usize = ms.len() - 1;
        if is32 {
            // The word pair of argc and argv, both zero, at the stack top.
            let zeros: Vec<u8> = vec![0u8; 8];
            ms.write_into_area(idx, USER_STACK_SIZE - 8, zeros.as_slice());
        }
        proof {
            let zall = Seq::new((top - bottom) as nat, |t: int| 0u8);
            assert(ms@.areas[idx as int].data =~= zero_seq(USER_STACK_SIZE as int));
            assert(ms@.areas[idx as int] =~= (AreaView {
                start: stack_bottom_of(is32_of(d)),
                end: stack_top_of(is32_of(d)),
                attr: MemoryAttr { user: true, execute: false },
                name: "user_stack"@,
                data: zero_seq(USER_STACK_SIZE as int),
            }));
            assert forall|j: int| 0 <= j < idx as int implies #[trigger] ms@.areas[j]
                == pre_areas[j] by {
                assert(ms@.areas[j] == pre_areas.push(av)[j]);
            }
            assert(ms@.areas =~= load_areas(d, segs_of(d)).push(
                AreaView {
                    start: stack_bottom_of(is32_of(d)),
                    end: stack_top_of(is32_of(d)),
                    attr: MemoryAttr { user: true, execute: false },
                    name: "user_stack"@,
                    data: zero_seq(USER_STACK_SIZE as int),
                },
            ));
        }
        let kstack = table.alloc_kstack();
        let ktop = kstack.top();
        let sp: usize = top - 8;
        Ok(
            ContextImpl {
                arch: Context::new_user_thread(entry, sp, ktop, is32, token),
                memory_set: ms,
                kstack,
            },
        )
    }

    /// Fork this context: an independent, byte-for-byte copy of the
    /// address space over a fresh page table, a fresh kernel stack, and a
    /// context resuming at the trap frame. The caller's own token came
    /// from this table's allocator, so the child's differs from it.
    pub fn fork(&self, tf: &TrapFrame, table: &mut ProcessTable) -> (r: ContextImpl)
        requires
            old(table).wf(),
            old(table).can_spawn(),
            self.memory_set@.wf(),
            self.memory_set@.token < old(table).next_token as int,
        ensures
            final(table).wf(),
            final(table).slots == old(table).slots,
            final(table).registry == old(table).registry,
            r.memory_set@.areas == self.memory_set@.areas,
            r.memory_set@.token == old(table).next_token as int,
            r.memory_set@.token != self.memory_set@.token,
            r.arch == (Context::Forked {
                tf: *tf,
                kstack_top: (old(table).next_kstack as int + KERNEL_STACK_SIZE) as usize,
                token: old(table).next_token,
            }),
            r.kstack.spec_top() as int == old(table).next_kstack as int + KERNEL_STACK_SIZE,
    {
        let token = table.alloc_token();
        let memory_set = self.memory_set.duplicate(token);
        let kstack = table.alloc_kstack();
        let ktop = kstack.top();
        ContextImpl { arch: Context::new_fork(tf, ktop, token), memory_set, kstack }
    }

    /// Borrow the address space for the syscall layer to adjust.
    pub fn get_memory_set_mut(&mut self) -> (r: &mut MemorySet)
        ensures
            *r == old(self).memory_set,
            *final(self) == (ContextImpl { memory_set: *final(r), ..*old(self) }),
    {
        &mut self.memory_set
    }

    /// Switch execution from this context to `target`.
    pub fn switch_to(&mut self, target: &mut ContextImpl)
        requires
            old(self).arch is Running,
            !(old(target).arch is Running),
        ensures
            final(self).arch is Saved,
            final(target).arch is Running,
            *final(self) == (ContextImpl { arch: final(self).arch, ..*old(self) }),
            *final(target) == (ContextImpl { arch: final(target).arch, ..*old(target) }),
    {
        self.arch.switch(&mut target.arch);
    }

    /// Tear the context down: the start address of every page of every
    /// mapped region, each of which the external swap subsystem must mark
    /// not-swappable (allocating a backing frame on demand) before the
    /// page table is released. The context — and with it the page table —
    /// is consumed only once the full list exists.
    pub fn teardown(self) -> (r: Vec<usize>)
        ensures
            r@.len() == pages_of_areas(self.memory_set@.areas).len(),
            forall|k: int|
                0 <= k < r@.len() ==> r@[k] as int == #[trigger] pages_of_areas(
                    self.memory_set@.areas,
                )[k],
    {
        self.memory_set.page_starts()
    }
}

/// The start address of every page of every region of `memory_set`, for
/// the external swap subsystem to mark swap-eligible — invoked once a
/// user process's address space is fully built and filled.
pub fn memory_set_map_swappable(memory_set: &MemorySet) -> (r: Vec<usize>)
    ensures
        r@.len() == pages_of_areas(memory_set@.areas).len(),
        forall|k: int|
            0 <= k < r@.len() ==> r@[k] as int == #[trigger] pages_of_areas(
                memory_set@.areas,
            )[k],
{
    memory_set.page_starts()
}

} // verus!
