//! Thread control blocks and the four creation paths.
//!
//! A thread owns its execution context and kernel stack and shares its
//! process control block; the share is a slot of the `ProcessTable`.
//! Threads are created as the boot thread, as a kernel service thread, as
//! the first thread of a user process loaded from an executable image, by
//! forking the calling thread's process, or by cloning the calling thread
//! within its process.

use vstd::prelude::*;
use crate::abi::{block_size, init_block, vecs_views, ProcInitInfo, AT_PAGESZ, AT_PHDR, AT_PHENT,
    AT_PHNUM};
use crate::arch::{Context, TrapFrame};
use crate::assoc::{has_key, sorted_keys, value_of};
use crate::elf::{entry_of, image_loadable, is32_of, lemma_load_areas_contains,
    lemma_load_areas_index, load_areas, memory_set_from, parse_image, phentsize_of, phnum_of,
    phoff_of, seg_views, segs_of, valid_header, valid_ph_table, zero_seq, ElfFile, ImageError,
    SegView, ET_DYN, ET_EXEC, PT_LOAD, PT_PHDR};
use crate::file::{FileHandle, FileLike, OpenOptions, SocketHandle};
use crate::memory::{AreaView, KernelStack, MemoryArea, MemoryAttr, MemorySet, KERNEL_STACK_SIZE,
    PAGE_SIZE};
use crate::process::{Process, ProcessTable};
use crate::Tid;

verus! {

/// Size of a user stack.
pub const USER_STACK_SIZE: usize = 0x80_0000;

/// Bottom of the user stack of a 64-bit process.
pub const USER_STACK_OFFSET: usize = 0x8000_0000 - USER_STACK_SIZE;

/// Bottom of the user stack of a 32-bit process.
pub const USER32_STACK_OFFSET: usize = 0xC000_0000 - USER_STACK_SIZE;

/// Bottom of the user stack for the given bit width.
pub open spec fn stack_bottom_of(is32: bool) -> int {
    if is32 {
        USER32_STACK_OFFSET as int
    } else {
        USER_STACK_OFFSET as int
    }
}

/// Top of the user stack for the given bit width.
pub open spec fn stack_top_of(is32: bool) -> int {
    stack_bottom_of(is32) + USER_STACK_SIZE as int
}

/// Identifier of the backing file of standard input.
pub const STDIN_ID: usize = 0;

/// Identifier of the backing file of standard output.
pub const STDOUT_ID: usize = 1;

/// The seeded descriptor table of a new user process: 0 reads standard
/// input, 1 and 2 write standard output.
pub open spec fn stdio_files() -> Seq<(usize, FileLike)> {
    seq![
        (0usize, FileLike::File(
            FileHandle {
                file: STDIN_ID,
                options: OpenOptions { read: true, write: false, append: false },
            },
        )),
        (1usize, FileLike::File(
            FileHandle {
                file: STDOUT_ID,
                options: OpenOptions { read: false, write: true, append: false },
            },
        )),
        (2usize, FileLike::File(
            FileHandle {
                file: STDOUT_ID,
                options: OpenOptions { read: false, write: true, append: false },
            },
        )),
    ]
}

fn make_stdio_files() -> (r: Vec<(usize, FileLike)>)
    ensures
        r@ == stdio_files(),
        sorted_keys(r@),
{
    let mut r: Vec<(usize, FileLike)> = Vec::new();
    r.push(
        (
            0,
            FileLike::File(
                FileHandle {
                    file: STDIN_ID,
                    options: OpenOptions { read: true, write: false, append: false },
                },
            ),
        ),
    );
    r.push(
        (
            1,
            FileLike::File(
                FileHandle {
                    file: STDOUT_ID,
                    options: OpenOptions { read: false, write: true, append: false },
                },
            ),
        ),
    );
    r.push(
        (
            2,
            FileLike::File(
                FileHandle {
                    file: STDOUT_ID,
                    options: OpenOptions { read: false, write: true, append: false },
                },
            ),
        ),
    );
    assert(r@ =~= stdio_files());
    r
}

/// The first program-header entry at or after `i` that describes the
/// table itself, if any: its virtual address.
pub open spec fn find_phdr_from(segs: Seq<SegView>, i: int) -> Option<int>
    decreases segs.len() - i when 0 <= i <= segs.len()
{
    if i >= segs.len() {
        None
    } else if segs[i].ptype == PT_PHDR as int {
        Some(segs[i].vaddr)
    } else {
        find_phdr_from(segs, i + 1)
    }
}

/// The first loadable entry at or after `i` with file offset zero, if
/// any: its virtual address.
pub open spec fn find_zero_load_from(segs: Seq<SegView>, i: int) -> Option<int>
    decreases segs.len() - i when 0 <= i <= segs.len()
{
    if i >= segs.len() {
        None
    } else if segs[i].ptype == PT_LOAD as int && segs[i].offset == 0 {
        Some(segs[i].vaddr)
    } else {
        find_zero_load_from(segs, i + 1)
    }
}

/// The address of the program-header table in the loaded image: from an
/// explicit entry if present, else inferred from a zero-offset loadable
/// entry plus the header's table offset; absent otherwise.
pub open spec fn phdr_addr(segs: Seq<SegView>, ph_off: int) -> Option<int> {
    match find_phdr_from(segs, 0) {
        Some(v) => Some(v),
        None => match find_zero_load_from(segs, 0) {
            Some(v) => Some(v + ph_off),
            None => None,
        },
    }
}

/// The auxiliary vector recorded for a new user process: the table
/// address when it is known and representable, the entry size, the entry
/// count and the page size.
pub open spec fn auxv_of(segs: Seq<SegView>, ph_off: int, ph_ent: int, ph_num: int) -> Seq<
    (usize, usize),
> {
    (match phdr_addr(segs, ph_off) {
        Some(v) => if 0 <= v <= usize::MAX as int {
            seq![(AT_PHDR, v as usize)]
        } else {
            Seq::empty()
        },
        None => Seq::empty(),
    }) + seq![(AT_PHENT, ph_ent as usize), (AT_PHNUM, ph_num as usize), (AT_PAGESZ, PAGE_SIZE)]
}

/// The auxiliary vector of the image `d`.
pub open spec fn auxv_of_image(d: Seq<u8>) -> Seq<(usize, usize)> {
    auxv_of(segs_of(d), phoff_of(d), phentsize_of(d), phnum_of(d))
}

fn build_auxv(f: &ElfFile) -> (r: Vec<(usize, usize)>)
    ensures
        r@ == auxv_of(
            seg_views(f.segments@),
            f.header.ph_offset as int,
            f.header.ph_entry_size as int,
            f.header.ph_count as int,
        ),
{
    let ghost sv = seg_views(f.segments@);
    let n = f.segments.len();
    let mut r: Vec<(usize, usize)> = Vec::new();

    // explicit table entry
    let mut found = false;
    let mut i: usize = 0;
    while i < n && !found
        invariant
            0 <= i <= n,
            n == f.segments@.len(),
            sv == seg_views(f.segments@),
            !found ==> find_phdr_from(sv, 0) == find_phdr_from(sv, i as int),
            !found ==> r@.len() == 0,
            found ==> i > 0 && sv[i - 1].ptype == PT_PHDR as int && find_phdr_from(sv, 0)
                == Some(sv[i - 1].vaddr),
            found ==> (if 0 <= sv[i - 1].vaddr <= usize::MAX as int {
                r@ =~= seq![(AT_PHDR, sv[i - 1].vaddr as usize)]
            } else {
                r@.len() == 0
            }),
        decreases n - i,
    {
        let seg = &f.segments[i];
        assert(seg@ == sv[i as int]);
        if seg.ptype == PT_PHDR {
            if seg.vaddr <= usize::MAX as u64 {
                r.push((AT_PHDR, seg.vaddr as usize));
            }
            found = true;
        }
        i += 1;
    }
    if !found {
        assert(find_phdr_from(sv, 0) is None);
        // inferred from a zero-offset loadable entry
        let mut j: usize = 0;
        while j < n && !found
            invariant
                0 <= j <= n,
                n == f.segments@.len(),
                sv == seg_views(f.segments@),
                find_phdr_from(sv, 0) is None,
                !found ==> find_zero_load_from(sv, 0) == find_zero_load_from(sv, j as int),
                !found ==> r@.len() == 0,
                found ==> j > 0 && find_zero_load_from(sv, 0) == Some(sv[j - 1].vaddr),
                found ==> (if 0 <= sv[j - 1].vaddr + f.header.ph_offset <= usize::MAX as int {
                    r@ =~= seq![
                        (AT_PHDR, (sv[j - 1].vaddr + f.header.ph_offset) as usize),
                    ]
                } else {
                    r@.len() == 0
                }),
            decreases n - j,
        {
            let seg = &f.segments[j];
            assert(seg@ == sv[j as int]);
            if seg.ptype == PT_LOAD && seg.offset == 0 {
                if seg.vaddr <= u64::MAX - f.header.ph_offset && seg.vaddr + f.header.ph_offset
                    <= usize::MAX as u64 {
                    r.push((AT_PHDR, (seg.vaddr + f.header.ph_offset) as usize));
                }
                found = true;
            }
            j += 1;
        }
    }
    r.push((AT_PHENT, f.header.ph_entry_size as usize));
    r.push((AT_PHNUM, f.header.ph_count as usize));
    r.push((AT_PAGESZ, PAGE_SIZE));
    proof {
        assert(r@ =~= auxv_of(
            sv,
            f.header.ph_offset as int,
            f.header.ph_entry_size as int,
            f.header.ph_count as int,
        ));
    }
    r
}

/// Whether a descriptor entry survives a fork: plain files always, a
/// socket only while the driver still holds its handle.
pub open spec fn socket_alive(f: FileLike, live: Seq<SocketHandle>) -> bool {
    match f {
        FileLike::File(_) => true,
        FileLike::Socket(w) => live.contains(w.handle),
    }
}

/// The descriptor table a fork hands the child: the parent's entries,
/// under the same descriptors, with dead sockets dropped.
pub open spec fn retained_files(files: Seq<(usize, FileLike)>, live: Seq<SocketHandle>) -> Seq<
    (usize, FileLike),
>
    decreases files.len(),
{
    if files.len() == 0 {
        Seq::empty()
    } else {
        retained_files(files.drop_last(), live) + if socket_alive(files.last().1, live) {
            seq![files.last()]
        } else {
            Seq::empty()
        }
    }
}

fn handle_alive(h: SocketHandle, live: &Vec<SocketHandle>) -> (r: bool)
    ensures
        r == live@.contains(h),
{
    let n = live.len();
    let mut i: usize = 0;
    while i < n
        invariant
            0 <= i <= n,
            n == live@.len(),
            forall|j: int| 0 <= j < i ==> live@[j] != h,
        decreases n - i,
    {
        if live[i] == h {
            return true;
        }
        i += 1;
    }
    false
}

fn retain_files(files: &Vec<(usize, FileLike)>, live: &Vec<SocketHandle>) -> (r: Vec<
    (usize, FileLike),
>)
    requires
        sorted_keys(files@),
    ensures
        r@ == retained_files(files@, live@),
        sorted_keys(r@),
{
    let n = files.len();
    let mut r: Vec<(usize, FileLike)> = Vec::new();
    let mut i: usize = 0;
    assert(files@.take(0) =~= Seq::<(usize, FileLike)>::empty());
    while i < n
        invariant
            0 <= i <= n,
            n == files@.len(),
            sorted_keys(files@),
            r@ == retained_files(files@.take(i as int), live@),
            sorted_keys(r@),
            forall|j: int|
                0 <= j < r@.len() ==> exists|t: int|
                    0 <= t < i && #[trigger] r@[j] == files@[t],
        decreases n - i,
    {
        let (fd, f) = files[i];
        let keep = match f {
            FileLike::File(_) => true,
            FileLike::Socket(w) => handle_alive(w.handle, live),
        };
        let ghost pre = r@;
        proof {
            assert(files@.take(i as int + 1).drop_last() =~= files@.take(i as int));
            assert(files@.take(i as int + 1).last() == files@[i as int]);
        }
        if keep {
            r.push((fd, f));
            proof {
                assert(socket_alive(files@[i as int].1, live@));
                assert(r@ =~= retained_files(files@.take(i as int + 1), live@));
                assert forall|a: int, b: int|
                    0 <= a < b < r@.len() implies (#[trigger] r@[a]).0 < (#[trigger] r@[b]).0 by {
                    if b == r@.len() - 1 {
                        let t = choose|t: int| 0 <= t < i && #[trigger] pre[a] == files@[t];
                        assert(files@[t].0 < files@[i as int].0);
                    } else {
                        assert(pre[a].0 < pre[b].0);
                    }
                }
                assert forall|j: int|
                    0 <= j < r@.len() implies exists|t: int|
                    0 <= t < i + 1 && #[trigger] r@[j] == files@[t] by {
                    if j < r@.len() - 1 {
                        let t = choose|t: int| 0 <= t < i && #[trigger] pre[j] == files@[t];
                        assert(0 <= t < i + 1 && r@[j] == files@[t]);
                    } else {
                        assert(r@[j] == files@[i as int]);
                    }
                }
            }
        } else {
            proof {
                assert(!socket_alive(files@[i as int].1, live@));
                assert(r@ =~= retained_files(files@.take(i as int + 1), live@));
            }
        }
        i += 1;
    }
    proof {
        assert(files@.take(n as int) =~= files@);
    }
    r
}

/// The image type allows running it: executable or shared object.
pub open spec fn user_type_ok(d: Seq<u8>) -> bool {
    etype_is(d, ET_EXEC as int) || etype_is(d, ET_DYN as int)
}

/// The header's type field equals `t`.
pub open spec fn etype_is(d: Seq<u8>, t: int) -> bool {
    crate::elf::etype_of(d) == t
}

/// No loadable segment claims addresses of the user stack range.
pub open spec fn stack_clear(d: Seq<u8>) -> bool {
    forall|i: int|
        0 <= i < segs_of(d).len() && (#[trigger] segs_of(d)[i]).ptype == PT_LOAD as int ==> (
        segs_of(d)[i].vaddr + segs_of(d)[i].mem_size <= stack_bottom_of(is32_of(d))
            || stack_top_of(is32_of(d)) <= segs_of(d)[i].vaddr)
}

/// The argument block fits on the user stack.
pub open spec fn init_fits(d: Seq<u8>, args: Seq<Seq<u8>>) -> bool {
    block_size(args, Seq::empty(), auxv_of_image(d).len() as int) <= USER_STACK_SIZE as int
}

/// Everything a user-process creation demands of its image and arguments.
pub open spec fn user_image_ok(d: Seq<u8>, args: Seq<Seq<u8>>) -> bool {
    &&& valid_ph_table(d)
    &&& user_type_ok(d)
    &&& image_loadable(d, segs_of(d), entry_of(d))
    &&& stack_clear(d)
    &&& init_fits(d, args)
}

/// The stack pointer of a new user thread, after the argument block.
pub open spec fn user_sp(d: Seq<u8>, args: Seq<Seq<u8>>) -> int {
    stack_top_of(is32_of(d)) - block_size(args, Seq::empty(), auxv_of_image(d).len() as int)
}

/// The user-stack region of a new user process: zero up to the stack
/// pointer, then the argument block flush with the top.
pub open spec fn user_stack_area(d: Seq<u8>, args: Seq<Seq<u8>>) -> AreaView {
    AreaView {
        start: stack_bottom_of(is32_of(d)),
        end: stack_top_of(is32_of(d)),
        attr: MemoryAttr { user: true, execute: false },
        name: "user_stack"@,
        data: zero_seq(user_sp(d, args) - stack_bottom_of(is32_of(d))) + init_block(
            args,
            Seq::empty(),
            auxv_of_image(d),
            stack_top_of(is32_of(d)),
        ),
    }
}

/// One thread of control: its execution context, its private kernel
/// stack, and the table slot of the process it shares.
pub struct Thread {
    pub context: Context,
    pub kstack: KernelStack,
    /// Address zeroed and futex-woken when the thread exits.
    pub clear_child_tid: usize,
    /// Table slot of this thread's process control block.
    pub proc: usize,
}

impl Thread {
    /// The thread names a live process of `table`.
    pub open spec fn lives_in(&self, table: &ProcessTable) -> bool {
        self.proc < table.slots@.len() && table.slots@[self.proc as int] is Some
    }

    /// The boot thread: an already-running placeholder context over a
    /// fresh, empty process.
    pub fn new_init(table: &mut ProcessTable) -> (r: Thread)
        requires
            old(table).wf(),
            old(table).can_spawn(),
        ensures
            final(table).wf(),
            final(table).registry == old(table).registry,
            final(table).slots@.len() == old(table).slots@.len() + 1,
            forall|j: int|
                0 <= j < old(table).slots@.len() ==> final(table).slots@[j] == #[trigger] old(table).slots@[j],
            r.proc as int == old(table).slots@.len(),
            r.lives_in(&*final(table)),
            final(table).slots@.last() matches Some(p) && {
                &&& p.memory_set@.areas.len() == 0
                &&& p.memory_set@.token == old(table).next_token as int
                &&& p.files@.len() == 0
                &&& p.cwd@ == "/"@
                &&& p.pid@ is None
                &&& p.parent is None
                &&& p.children@.len() == 0
                &&& p.threads@.len() == 0
                &&& p.futexes@.len() == 0
                &&& p.child_exit_code@.len() == 0
            },
            r.context is Running,
            r.clear_child_tid == 0,
            r.kstack.spec_top() as int == old(table).next_kstack as int + KERNEL_STACK_SIZE,
    {
        let token = table.alloc_token();
        let memory_set = MemorySet::new(token);
        let kstack = table.alloc_kstack();
        let proc = Process::new(memory_set, Vec::new(), new_root_cwd(), None);
        let slot = table.insert(proc);
        Thread { context: Context::null(), kstack, clear_child_tid: 0, proc: slot }
    }

    /// A kernel service thread: it will begin `entry(arg)` in privileged
    /// mode on a fresh kernel stack, over a fresh, empty process.
    pub fn new_kernel(entry: usize, arg: usize, table: &mut ProcessTable) -> (r: Thread)
        requires
            old(table).wf(),
            old(table).can_spawn(),
        ensures
            final(table).wf(),
            final(table).registry == old(table).registry,
            final(table).slots@.len() == old(table).slots@.len() + 1,
            forall|j: int|
                0 <= j < old(table).slots@.len() ==> final(table).slots@[j] == #[trigger] old(table).slots@[j],
            r.proc as int == old(table).slots@.len(),
            r.lives_in(&*final(table)),
            final(table).slots@.last() matches Some(p) && {
                &&& p.memory_set@.areas.len() == 0
                &&& p.memory_set@.token == old(table).next_token as int
                &&& p.files@.len() == 0
                &&& p.cwd@ == "/"@
                &&& p.pid@ is None
                &&& p.parent is None
                &&& p.children@.len() == 0
                &&& p.threads@.len() == 0
                &&& p.futexes@.len() == 0
                &&& p.child_exit_code@.len() == 0
            },
            r.context == (Context::KernelEntry {
                entry,
                arg,
                kstack_top: (old(table).next_kstack as int + KERNEL_STACK_SIZE) as usize,
                token: old(table).next_token,
            }),
            r.clear_child_tid == 0,
            r.kstack.spec_top() as int == old(table).next_kstack as int + KERNEL_STACK_SIZE,
    {
        let token = table.alloc_token();
        let memory_set = MemorySet::new(token);
        let kstack = table.alloc_kstack();
        let top = kstack.top();
        let proc = Process::new(memory_set, Vec::new(), new_root_cwd(), None);
        let slot = table.insert(proc);
        Thread {
            context: Context::new_kernel_thread(entry, arg, top, token),
            kstack,
            clear_child_tid: 0,
            proc: slot,
        }
    }
    /// The first thread of a new user process, loaded from the executable
    /// image `data` with arguments `args`: the image's loadable segments
    /// and a user stack holding the argument block become the process's
    /// address space, the descriptor table is seeded with standard
    /// input and output, and the context will enter user mode at the
    /// image's entry point. Fails — leaving the process table and the
    /// registry unchanged — exactly when the image or the arguments are
    /// unusable, and says which way they are.
    #[verifier::rlimit(100)]
    pub fn new_user(data: &[u8], args: Vec<Vec<u8>>, table: &mut ProcessTable) -> (r: Result<
        Thread,
        ImageError,
    >)
        requires
            old(table).wf(),
            old(table).can_spawn(),
        ensures
            final(table).wf(),
            final(table).registry == old(table).registry,
            r is Ok <==> user_image_ok(data@, vecs_views(args@)),
            r is Err ==> final(table).slots@ == old(table).slots@,
            !valid_header(data@) ==> r == Err::<Thread, ImageError>(ImageError::BadHeader),
            valid_header(data@) && !valid_ph_table(data@) ==> r == Err::<Thread, ImageError>(
                ImageError::BadProgramHeaders,
            ),
            valid_ph_table(data@) && !user_type_ok(data@) ==> r == Err::<Thread, ImageError>(
                ImageError::NotExecutable,
            ),
            valid_ph_table(data@) && user_type_ok(data@) && !(image_loadable(
                data@,
                segs_of(data@),
                entry_of(data@),
            ) && stack_clear(data@)) ==> r == Err::<Thread, ImageError>(ImageError::BadSegment),
            valid_ph_table(data@) && user_type_ok(data@) && image_loadable(
                data@,
                segs_of(data@),
                entry_of(data@),
            ) && stack_clear(data@) && !init_fits(data@, vecs_views(args@)) ==> r == Err::<
                Thread,
                ImageError,
            >(ImageError::BadInitStack),
            r matches Ok(t) ==> {
                &&& t.proc as int == old(table).slots@.len()
                &&& final(table).slots@.len() == old(table).slots@.len() + 1
                &&& forall|j: int|
                    0 <= j < old(table).slots@.len() ==> final(table).slots@[j] == #[trigger] old(table).slots@[j]
                &&& t.lives_in(&*final(table))
                &&& final(table).slots@.last() matches Some(p) && {
                    &&& p.memory_set@.token == old(table).next_token as int
                    &&& p.memory_set@.areas == load_areas(data@, segs_of(data@)).push(
                        user_stack_area(data@, vecs_views(args@)),
                    )
                    &&& p.files@ == stdio_files()
                    &&& p.cwd@ == "/"@
                    &&& p.pid@ is None
                    &&& p.parent is None
                    &&& p.children@.len() == 0
                    &&& p.threads@.len() == 0
                    &&& p.futexes@.len() == 0
                    &&& p.child_exit_code@.len() == 0
                }
                &&& t.context == (Context::UserEntry {
                    entry_addr: entry_of(data@) as usize,
                    ustack_top: user_sp(data@, vecs_views(args@)) as usize,
                    kstack_top: (old(table).next_kstack as int + KERNEL_STACK_SIZE) as usize,
                    is32: is32_of(data@),
                    token: old(table).next_token,
                })
                &&& t.clear_child_tid == 0
                &&& t.kstack.spec_top() as int == old(table).next_kstack as int
                    + KERNEL_STACK_SIZE
            },
    {
        let ghost d = data@;
        let ghost gargs = vecs_views(args@);
        // Parse the image and check its type.
        let f = match parse_image(data) {
            Ok(f) => f,
            Err(e) => { return Err(e); },
        };
        if !(f.header.etype == ET_EXEC || f.header.etype == ET_DYN) {
            return Err(ImageError::NotExecutable);
        }
        proof {
            assert(seg_views(f.segments@) =~= segs_of(d));
        }
        // Build the address space from the loadable segments.
        let token = table.alloc_token();
        let (mut ms, entry) = match memory_set_from(&f, data, token) {
            Ok(x) => x,
            Err(e) => { return Err(e); },
        };
        // Map the user stack.
        let is32 = f.header.is32;
        let bottom: usize = if is32 {
            USER32_STACK_OFFSET
        } else {
            USER_STACK_OFFSET
        };
        let top: usize = bottom + USER_STACK_SIZE;
        if ms.overlaps_any(bottom, top) {
            proof {
                let areas = load_areas(d, segs_of(d));
                let k = choose|k: int|
                    0 <= k < areas.len() && !((#[trigger] areas[k]).end <= bottom as int
                        || top as int <= areas[k].start);
                lemma_load_areas_index(d, segs_of(d), k);
                let j = choose|j: int|
                    0 <= j < segs_of(d).len() && (#[trigger] segs_of(d)[j]).ptype
                        == PT_LOAD as int && areas[k] == crate::elf::seg_area(d, segs_of(d)[j]);
                assert(!stack_clear(d));
            }
            return Err(ImageError::BadSegment);
        }
        proof {
            // Every loadable segment's region is in the set, so none of
            // them touches the stack range.
            assert forall|i: int|
                0 <= i < segs_of(d).len() && (#[trigger] segs_of(d)[i]).ptype
                    == PT_LOAD as int implies (segs_of(d)[i].vaddr + segs_of(d)[i].mem_size
                <= stack_bottom_of(is32_of(d)) || stack_top_of(is32_of(d)) <= segs_of(
                d,
            )[i].vaddr) by {
                lemma_load_areas_contains(d, segs_of(d), i);
                let k = choose|k: int|
                    0 <= k < load_areas(d, segs_of(d)).len() && #[trigger] load_areas(
                        d,
                        segs_of(d),
                    )[k] == crate::elf::seg_area(d, segs_of(d)[i]);
                assert(!ms@.overlaps(bottom as int, top as int));
                assert(ms@.areas[k].disjoint(
                    AreaView {
                        start: bottom as int,
                        end: top as int,
                        attr: MemoryAttr { user: false, execute: false },
                        name: Seq::empty(),
                        data: Seq::empty(),
                    },
                ));
            }
            assert(stack_clear(d));
        }
        let area = MemoryArea::new(bottom, top, MemoryAttr::default().user(), "user_stack");
        proof {
            assert forall|k: int| 0 <= k < ms@.areas.len() implies (#[trigger] ms@.areas[k]).disjoint(
                area@,
            ) by {
                assert(!ms@.overlaps(bottom as int, top as int));
            }
        }
        let ghost pre_areas = ms@.areas;
        let ghost av = area@;
        ms.push(area);
        // Record the arguments and the auxiliary vector on the stack.
        let auxv = build_auxv(&f);
        proof {
            assert(auxv@ =~= auxv_of_image(d));
        }
        let init = ProcInitInfo { args, envs: Vec::new(), auxv };
        let (block, sp) = match init.build_block(top) {
            Ok(x) => x,
            Err(_) => {
                proof {
                    assert(vecs_views(init.envs@) =~= Seq::<Seq<u8>>::empty());
                    assert(!init_fits(d, gargs));
                }
                return Err(ImageError::BadInitStack);
            },
        };
        proof {
            assert(vecs_views(init.envs@) =~= Seq::<Seq<u8>>::empty());
        }
        if block.len() > USER_STACK_SIZE {
            assert(!init_fits(d, gargs));
            return Err(ImageError::BadInitStack);
        }
        assert(init_fits(d, gargs));
        let idx: usize = ms.len() - 1;
        let off: usize = sp - bottom;
        ms.write_into_area(idx, off, block.as_slice());
        proof {
            let bs = block_size(gargs, Seq::empty(), auxv_of_image(d).len() as int);
            let zeros = Seq::new((top - bottom) as nat, |t: int| 0u8);
            assert(zeros.take(off as int) =~= zero_seq(user_sp(d, gargs) - stack_bottom_of(
                is32_of(d),
            )));
            assert(zeros.skip(off as int + block@.len() as int) =~= Seq::<u8>::empty());
            assert(ms@.areas[idx as int].data =~= user_stack_area(d, gargs).data);
            assert(ms@.areas[idx as int] =~= user_stack_area(d, gargs));
            assert forall|j: int| 0 <= j < idx as int implies #[trigger] ms@.areas[j]
                == pre_areas[j] by {
                assert(ms@.areas[j] == pre_areas.push(av)[j]);
            }
            assert(ms@.areas =~= load_areas(d, segs_of(d)).push(user_stack_area(d, gargs)));
        }
        // Seed the descriptor table and register the process.
        let kstack = table.alloc_kstack();
        let ktop = kstack.top();
        let files = make_stdio_files();
        let proc = Process::new(ms, files, new_root_cwd(), None);
        let slot = table.insert(proc);
        Ok(
            Thread {
                context: Context::new_user_thread(entry, sp, ktop, is32, token),
                kstack,
                clear_child_tid: 0,
                proc: slot,
            },
        )
    }
    /// Fork: a new process duplicated from this thread's, eagerly and in
    /// full. The child gets a byte-for-byte copy of the address space
    /// over a fresh page table, the descriptor table with dead sockets
    /// dropped, the working directory, this thread's process as parent,
    /// and a context resuming at the trap frame. `live_sockets` is the
    /// driver's set of still-valid socket handles at fork time.
    pub fn fork(&self, tf: &TrapFrame, live_sockets: &Vec<SocketHandle>, table: &mut ProcessTable) -> (r: Thread)
        requires
            old(table).wf(),
            old(table).can_spawn(),
            self.lives_in(&*old(table)),
        ensures
            final(table).wf(),
            final(table).registry == old(table).registry,
            final(table).slots@.len() == old(table).slots@.len() + 1,
            forall|j: int|
                0 <= j < old(table).slots@.len() ==> final(table).slots@[j] == #[trigger] old(table).slots@[j],
            r.proc as int == old(table).slots@.len(),
            r.lives_in(&*final(table)),
            final(table).slots@.last() matches Some(child) && {
                let parent = old(table).slots@[self.proc as int]->0;
                &&& child.memory_set@.token == old(table).next_token as int
                &&& child.memory_set@.token != parent.memory_set@.token
                &&& child.memory_set@.areas == parent.memory_set@.areas
                &&& child.files@ == retained_files(parent.files@, live_sockets@)
                &&& child.cwd@ == parent.cwd@
                &&& child.pid@ is None
                &&& child.parent == Some(self.proc)
                &&& child.children@.len() == 0
                &&& child.threads@.len() == 0
                &&& child.futexes@.len() == 0
                &&& child.child_exit_code@.len() == 0
            },
            r.context == (Context::Forked {
                tf: *tf,
                kstack_top: (old(table).next_kstack as int + KERNEL_STACK_SIZE) as usize,
                token: old(table).next_token,
            }),
            r.clear_child_tid == 0,
            r.kstack.spec_top() as int == old(table).next_kstack as int + KERNEL_STACK_SIZE,
    {
        let p = table.take(self.proc);
        // Clone the address space over a fresh page table and copy every
        // region's bytes into it.
        let token = table.alloc_token();
        let memory_set = p.memory_set.duplicate(token);
        // Keep only descriptors whose sockets the driver still holds.
        let files = retain_files(&p.files, live_sockets);
        let cwd = p.cwd.clone();
        let kstack = table.alloc_kstack();
        let ktop = kstack.top();
        table.put(self.proc, p);
        let child = Process::new(memory_set, files, cwd, Some(self.proc));
        let slot = table.insert(child);
        proof {
            assert(table.slots@[self.proc as int] == old(table).slots@[self.proc as int]);
        }
        Thread {
            context: Context::new_fork(tf, ktop, token),
            kstack,
            clear_child_tid: 0,
            proc: slot,
        }
    }

    /// Clone: a new thread within this thread's process. Nothing is
    /// duplicated; the new thread holds the same process control block,
    /// a fresh kernel stack, and a context resuming at the trap frame on
    /// the caller-supplied user stack and thread-local-storage base.
    pub fn clone(&self, tf: &TrapFrame, stack_top: usize, tls: usize, clear_child_tid: usize, table: &mut ProcessTable) -> (r: Thread)
        requires
            old(table).wf(),
            old(table).can_spawn(),
            self.lives_in(&*old(table)),
        ensures
            final(table).wf(),
            final(table).slots@ == old(table).slots@,
            final(table).registry == old(table).registry,
            r.proc == self.proc,
            r.context == (Context::Cloned {
                tf: *tf,
                ustack_top: stack_top,
                kstack_top: (old(table).next_kstack as int + KERNEL_STACK_SIZE) as usize,
                tls,
                token: old(table).slots@[self.proc as int]->0.memory_set@.token as usize,
            }),
            r.clear_child_tid == clear_child_tid,
            r.kstack.spec_top() as int == old(table).next_kstack as int + KERNEL_STACK_SIZE,
    {
        let p = table.take(self.proc);
        let token = p.memory_set.token();
        table.put(self.proc, p);
        proof {
            assert(table.slots@ =~= old(table).slots@);
        }
        let kstack = table.alloc_kstack();
        let ktop = kstack.top();
        Thread {
            context: Context::new_clone(tf, stack_top, ktop, token, tls),
            kstack,
            clear_child_tid,
            proc: self.proc,
        }
    }

    /// Called once by the scheduler when this thread is registered to
    /// run. If the process has no pid yet, this thread is its leader: the
    /// pid becomes this thread's id, and the process is appended to its
    /// parent's children — now, not at fork time. A pid already set is
    /// never changed. The thread id joins the process's thread list, and
    /// the process is (re-)registered under its pid in the registry.
    pub fn set_tid(&self, tid: Tid, table: &mut ProcessTable)
        requires
            old(table).wf(),
            self.lives_in(&*old(table)),
            old(table).slots@[self.proc as int]->0.parent != Some(self.proc),
        ensures
            final(table).wf(),
            final(table).slots@.len() == old(table).slots@.len(),
            // this thread's process
            final(table).slots@[self.proc as int] matches Some(pn) && {
                let po = old(table).slots@[self.proc as int]->0;
                &&& pn.pid@ == (if po.pid@ is None {
                    Some(tid as int)
                } else {
                    po.pid@
                })
                &&& pn.threads@ == po.threads@.push(tid)
                &&& pn == (Process { pid: pn.pid, threads: pn.threads, ..po })
            },
            // the parent learns of its child exactly when the leader
            // registers
            ({
                let po = old(table).slots@[self.proc as int]->0;
                let first = po.pid@ is None;
                forall|j: int|
                    0 <= j < old(table).slots@.len() && j != self.proc as int && !(first
                        && po.parent == Some(j as usize)) ==> final(table).slots@[j]
                        == #[trigger] old(table).slots@[j]
            }),
            ({
                let po = old(table).slots@[self.proc as int]->0;
                let ps = po.parent->0 as int;
                po.pid@ is None && po.parent is Some && ps != self.proc as int && ps < old(table).slots@.len() && old(table).slots@[ps] is Some ==> final(table).slots@[ps]
                    is Some && final(table).slots@[ps]->0.children@ == old(table).slots@[ps]->0.children@.push(self.proc)
                    && final(table).slots@[ps]->0 == (Process {
                    children: final(table).slots@[ps]->0.children,
                    ..old(table).slots@[ps]->0
                })
            }),
            ({
                let po = old(table).slots@[self.proc as int]->0;
                let ps = po.parent->0 as int;
                po.pid@ is None && po.parent is Some && (ps >= old(table).slots@.len() || old(table).slots@[ps] is None) ==> final(table).slots@ == old(table).slots@.update(
                    self.proc as int,
                    final(table).slots@[self.proc as int],
                )
            }),
            // the registry maps the pid to this process
            ({
                let pn = final(table).slots@[self.proc as int]->0;
                let pv = pn.pid@->0;
                &&& has_key(final(table).registry@, pv)
                &&& value_of(final(table).registry@, pv) == self.proc
                &&& forall|k: int|
                    k != pv ==> has_key(final(table).registry@, k) == has_key(
                        old(table).registry@,
                        k,
                    )
                &&& forall|k: int|
                    k != pv && has_key(old(table).registry@, k) ==> value_of(
                        final(table).registry@,
                        k,
                    ) == value_of(old(table).registry@, k)
            }),
    {
        let mut p = table.take(self.proc);
        let first = p.pid.set_if_uninitialized(tid);
        p.threads.push(tid);
        let pid_value = p.pid.get();
        let parent = p.parent;
        table.put(self.proc, p);
        if first {
            match parent {
                Some(ps) => {
                    if table.occupied(ps) {
                        let mut pp = table.take(ps);
                        pp.children.push(self.proc);
                        table.put(ps, pp);
                    }
                },
                None => {},
            }
        }
        table.registry_insert(pid_value, self.proc);
    }

    /// Switch execution from this thread to `target`: save the CPU state
    /// into this thread's context and restore the target's. Exactly one
    /// thread is current per execution unit; only it may switch away, and
    /// never onto a context that is already running.
    pub fn switch_to(&mut self, target: &mut Thread)
        requires
            old(self).context is Running,
            !(old(target).context is Running),
        ensures
            final(self).context is Saved,
            final(target).context is Running,
            *final(self) == (Thread { context: final(self).context, ..*old(self) }),
            *final(target) == (Thread { context: final(target).context, ..*old(target) }),
    {
        self.context.switch(&mut target.context);
    }
}

/// The root working directory.
fn new_root_cwd() -> (r: String)
    ensures
        r@ == "/"@,
{
    let r = String::from_str("/");
    r
}

} // verus!
