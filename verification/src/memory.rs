//! Model of the address-space handle consumed by the process core.
//!
//! An address space is a set of mapped regions plus a page-table token. The
//! real memory subsystem maps frames and activates page tables; this model
//! keeps each region's bytes as a plain vector, so that loading, forking and
//! teardown can be specified byte for byte. Copying into a region stands for
//! the scoped activation of the target space: the model exposes only a safe
//! copy-into-region operation, never cross-space pointers.

use vstd::prelude::*;

verus! {

/// Size of one page of the machine.
pub const PAGE_SIZE: usize = 4096;

/// Size of one private kernel stack.
pub const KERNEL_STACK_SIZE: usize = 0x4000;

/// A private kernel stack, used only while its thread runs in privileged
/// mode. The backing allocation belongs to the kernel heap; the model
/// keeps its top address.
pub struct KernelStack {
    top: usize,
}

impl KernelStack {
    /// The address just above the stack.
    pub closed spec fn spec_top(&self) -> usize {
        self.top
    }

    /// A stack whose top is `top`.
    pub fn new(top: usize) -> (r: Self)
        ensures
            r.spec_top() == top,
    {
        KernelStack { top }
    }

    /// The address just above the stack.
    #[verifier::when_used_as_spec(spec_top)]
    pub fn top(&self) -> (r: usize)
        ensures
            r == self.spec_top(),
    {
        self.top
    }
}

/// Access attributes of one mapped region.
#[derive(Clone, Copy, PartialEq, Eq, Structural)]
pub struct MemoryAttr {
    pub user: bool,
    pub execute: bool,
}

impl Default for MemoryAttr {
    /// Attributes with every permission bit clear.
    fn default() -> (r: Self)
        ensures
            !r.user && !r.execute,
    {
        MemoryAttr { user: false, execute: false }
    }
}

impl MemoryAttr {
    /// Mark the region user-accessible.
    pub fn user(self) -> (r: Self)
        ensures
            r == (MemoryAttr { user: true, ..self }),
    {
        MemoryAttr { user: true, ..self }
    }

    /// Mark the region executable.
    pub fn execute(self) -> (r: Self)
        ensures
            r == (MemoryAttr { execute: true, ..self }),
    {
        MemoryAttr { execute: true, ..self }
    }
}

/// Mathematical value of one mapped region.
#[verifier::ext_equal]
pub struct AreaView {
    pub start: int,
    pub end: int,
    pub attr: MemoryAttr,
    pub name: Seq<char>,
    pub data: Seq<u8>,
}

impl AreaView {
    /// The region is a proper range and holds one byte per address.
    pub open spec fn wf(self) -> bool {
        0 <= self.start <= self.end && self.data.len() == self.end - self.start
    }

    /// Two regions cover disjoint address ranges.
    pub open spec fn disjoint(self, other: AreaView) -> bool {
        self.end <= other.start || other.end <= self.start
    }
}

/// One mapped region: an address range, its attributes and its bytes.
pub struct MemoryArea {
    pub start: usize,
    pub end: usize,
    pub attr: MemoryAttr,
    pub name: &'static str,
    pub data: Vec<u8>,
}

impl View for MemoryArea {
    type V = AreaView;

    open spec fn view(&self) -> AreaView {
        AreaView {
            start: self.start as int,
            end: self.end as int,
            attr: self.attr,
            name: self.name@,
            data: self.data@,
        }
    }
}

impl MemoryArea {
    /// Map a fresh region: every byte reads as zero.
    pub fn new(start: usize, end: usize, attr: MemoryAttr, name: &'static str) -> (r: Self)
        requires
            start <= end,
        ensures
            r@ == (AreaView {
                start: start as int,
                end: end as int,
                attr,
                name: name@,
                data: Seq::new((end - start) as nat, |i: int| 0u8),
            }),
            r@.wf(),
    {
        let n: usize = end - start;
        let data = vec![0u8; n];
        assert(data@ =~= Seq::new((end - start) as nat, |i: int| 0u8));
        MemoryArea { start, end, attr, name, data }
    }

    /// Raw byte view of the region's backing memory.
    pub fn as_slice(&self) -> (r: &[u8])
        ensures
            r@ == self@.data,
    {
        self.data.as_slice()
    }
}

/// Mathematical value of an address space.
#[verifier::ext_equal]
pub struct MemorySetView {
    pub areas: Seq<AreaView>,
    pub token: int,
}

impl MemorySetView {
    /// Every region is well formed and no two regions overlap.
    pub open spec fn wf(self) -> bool {
        &&& forall|i: int| 0 <= i < self.areas.len() ==> #[trigger] self.areas[i].wf()
        &&& forall|i: int, j: int|
            0 <= i < self.areas.len() && 0 <= j < self.areas.len() && i != j
                ==> #[trigger] self.areas[i].disjoint(#[trigger] self.areas[j])
    }

    /// Whether the range `start..end` overlaps some region.
    pub open spec fn overlaps(self, start: int, end: int) -> bool {
        exists|i: int|
            0 <= i < self.areas.len() && !(#[trigger] self.areas[i]).disjoint(
                AreaView { start, end, attr: MemoryAttr { user: false, execute: false }, name: Seq::empty(), data: Seq::empty() },
            )
    }
}

/// Start addresses of the pages covering `start..end`, lowest first.
pub open spec fn area_page_starts(start: int, end: int) -> Seq<int> {
    if start >= end {
        Seq::empty()
    } else {
        Seq::new(
            ((end - 1) / (PAGE_SIZE as int) - start / (PAGE_SIZE as int) + 1) as nat,
            |k: int| (start / (PAGE_SIZE as int) + k) * (PAGE_SIZE as int),
        )
    }
}

/// Page start addresses of every region, region by region in order.
pub open spec fn pages_of_areas(areas: Seq<AreaView>) -> Seq<int>
    decreases areas.len(),
{
    if areas.len() == 0 {
        Seq::empty()
    } else {
        pages_of_areas(areas.drop_last()) + area_page_starts(
            areas.last().start,
            areas.last().end,
        )
    }
}

/// An address space: mapped regions plus the token of its page table.
pub struct MemorySet {
    pub areas: Vec<MemoryArea>,
    pub token: usize,
}

impl View for MemorySet {
    type V = MemorySetView;

    open spec fn view(&self) -> MemorySetView {
        MemorySetView {
            areas: Seq::new(self.areas@.len(), |i: int| self.areas@[i]@),
            token: self.token as int,
        }
    }
}

impl MemorySet {
    /// A fresh, empty address space over the page table named by `token`.
    pub fn new(token: usize) -> (r: Self)
        ensures
            r@.areas.len() == 0,
            r@.token == token as int,
            r@.wf(),
    {
        MemorySet { areas: Vec::new(), token }
    }

    /// The opaque page-table identifier of this space.
    pub fn token(&self) -> (r: usize)
        ensures
            r as int == self@.token,
    {
        self.token
    }

    /// Number of mapped regions.
    pub fn len(&self) -> (r: usize)
        ensures
            r as int == self@.areas.len(),
    {
        self.areas.len()
    }

    /// Borrow the region at `i`.
    pub fn area(&self, i: usize) -> (r: &MemoryArea)
        requires
            i < self@.areas.len(),
        ensures
            r@ == self@.areas[i as int],
    {
        &self.areas[i]
    }

    /// Whether `start..end` overlaps a region already mapped.
    pub fn overlaps_any(&self, start: usize, end: usize) -> (r: bool)
        ensures
            r == self@.overlaps(start as int, end as int),
    {
        let ghost probe = AreaView {
            start: start as int,
            end: end as int,
            attr: MemoryAttr { user: false, execute: false },
            name: Seq::empty(),
            data: Seq::empty(),
        };
        let n = self.areas.len();
        let mut i: usize = 0;
        while i < n
            invariant
                n == self@.areas.len(),
                0 <= i <= n,
                forall|j: int| 0 <= j < i ==> (#[trigger] self@.areas[j]).disjoint(probe),
                probe.start == start as int,
                probe.end == end as int,
            decreases n - i,
        {
            let a = &self.areas[i];
            if !(a.end <= start || end <= a.start) {
                assert(!self@.areas[i as int].disjoint(probe));
                return true;
            }
            i += 1;
        }
        false
    }

    /// Map one more region. The caller must have checked that it does not
    /// overlap what is already mapped.
    pub fn push(&mut self, area: MemoryArea)
        requires
            area@.wf(),
            old(self)@.wf(),
            forall|i: int|
                0 <= i < old(self)@.areas.len() ==> (#[trigger] old(self)@.areas[i]).disjoint(
                    area@,
                ),
        ensures
            final(self)@.areas == old(self)@.areas.push(area@),
            final(self)@.token == old(self)@.token,
            final(self)@.wf(),
    {
        self.areas.push(area);
        assert(self@.areas =~= old(self)@.areas.push(area@));
        assert forall|i: int, j: int|
            0 <= i < self@.areas.len() && 0 <= j < self@.areas.len() && i != j
            implies #[trigger] self@.areas[i].disjoint(#[trigger] self@.areas[j]) by {
            if i < self@.areas.len() - 1 && j < self@.areas.len() - 1 {
            } else if i == self@.areas.len() - 1 {
                assert(old(self)@.areas[j].disjoint(area@));
            } else {
                assert(old(self)@.areas[i].disjoint(area@));
            }
        }
    }

    /// Overwrite `bytes.len()` bytes of region `i`, starting `offset` bytes
    /// into the region. Stands for copying into the space while it is
    /// transiently activated; no other region is touched.
    pub fn write_into_area(&mut self, i: usize, offset: usize, bytes: &[u8])
        requires
            i < old(self)@.areas.len(),
            old(self)@.areas[i as int].wf(),
            offset + bytes@.len() <= old(self)@.areas[i as int].data.len(),
        ensures
            final(self)@.token == old(self)@.token,
            final(self)@.areas.len() == old(self)@.areas.len(),
            forall|j: int|
                0 <= j < old(self)@.areas.len() && j != i as int ==> final(self)@.areas[j]
                    == #[trigger] old(self)@.areas[j],
            final(self)@.areas[i as int] == (AreaView {
                data: old(self)@.areas[i as int].data.take(offset as int) + bytes@ + old(
                    self,
                )@.areas[i as int].data.skip(offset + bytes@.len()),
                ..old(self)@.areas[i as int]
            }),
            old(self)@.wf() ==> final(self)@.wf(),
    {
        let ghost orig = self@.areas[i as int].data;
        let mut a = self.areas.remove(i);
        let datalen: usize = a.data.len();
        let mut k: usize = 0;
        while k < bytes.len()
            invariant
                k <= bytes@.len(),
                offset + bytes@.len() <= datalen,
                datalen as int == orig.len(),
                a.data@.len() == orig.len(),
                a.start as int == old(self)@.areas[i as int].start,
                a.end as int == old(self)@.areas[i as int].end,
                a.attr == old(self)@.areas[i as int].attr,
                a.name@ == old(self)@.areas[i as int].name,
                forall|t: int|
                    0 <= t < orig.len() && !(offset <= t < offset + k) ==> a.data@[t]
                        == #[trigger] orig[t],
                forall|t: int|
                    offset <= t < offset + k ==> a.data@[t] == #[trigger] bytes@[t - offset],
            decreases bytes@.len() - k,
        {
            a.data.set(offset + k, bytes[k]);
            k += 1;
        }
        assert(a.data@ =~= orig.take(offset as int) + bytes@ + orig.skip(
            offset + bytes@.len(),
        ));
        assert(a@ =~= (AreaView {
            data: orig.take(offset as int) + bytes@ + orig.skip(offset + bytes@.len()),
            ..old(self)@.areas[i as int]
        }));
        self.areas.insert(i, a);
        assert(self@.areas =~= old(self)@.areas.update(
            i as int,
            AreaView {
                data: orig.take(offset as int) + bytes@ + orig.skip(offset + bytes@.len()),
                ..old(self)@.areas[i as int]
            },
        ));
        proof {
            if old(self)@.wf() {
                assert forall|p: int| 0 <= p < self@.areas.len() implies #[trigger] self@.areas[p].wf() by {
                    assert(old(self)@.areas[p].wf());
                }
                assert forall|p: int, q: int|
                    0 <= p < self@.areas.len() && 0 <= q < self@.areas.len() && p != q
                    implies #[trigger] self@.areas[p].disjoint(#[trigger] self@.areas[q]) by {
                    assert(old(self)@.areas[p].disjoint(old(self)@.areas[q]));
                }
            }
        }
    }

    /// An independent copy of the region layout over a new page table:
    /// same ranges, attributes and names, with every byte still zero. The
    /// bytes themselves are copied in afterwards, region by region.
    fn duplicate_layout(&self, token: usize) -> (r: MemorySet)
        requires
            self@.wf(),
        ensures
            r@.token == token as int,
            r@.areas.len() == self@.areas.len(),
            forall|i: int|
                0 <= i < self@.areas.len() ==> #[trigger] r@.areas[i] == (AreaView {
                    data: Seq::new(self@.areas[i].data.len(), |t: int| 0u8),
                    ..self@.areas[i]
                }),
            r@.wf(),
    {
        let mut r = MemorySet { areas: Vec::new(), token };
        let n = self.areas.len();
        let mut i: usize = 0;
        while i < n
            invariant
                n == self@.areas.len(),
                0 <= i <= n,
                self@.wf(),
                r@.token == token as int,
                r@.areas.len() == i,
                forall|j: int|
                    0 <= j < i ==> #[trigger] r@.areas[j] == (AreaView {
                        data: Seq::new(self@.areas[j].data.len(), |t: int| 0u8),
                        ..self@.areas[j]
                    }),
            decreases n - i,
        {
            let a = &self.areas[i];
            assert(self@.areas[i as int] == a@);
            assert(self@.areas[i as int].wf());
            let fresh = MemoryArea::new(a.start, a.end, a.attr, a.name);
            let ghost prev = r@.areas;
            r.areas.push(fresh);
            assert(r@.areas =~= prev.push(fresh@));
            assert(fresh@ =~= (AreaView {
                data: Seq::new(self@.areas[i as int].data.len(), |t: int| 0u8),
                ..self@.areas[i as int]
            }));
            i += 1;
        }
        assert forall|p: int| 0 <= p < r@.areas.len() implies #[trigger] r@.areas[p].wf() by {
            assert(self@.areas[p].wf());
        }
        assert forall|p: int, q: int|
            0 <= p < r@.areas.len() && 0 <= q < r@.areas.len() && p != q
            implies #[trigger] r@.areas[p].disjoint(#[trigger] r@.areas[q]) by {
            assert(self@.areas[p].disjoint(self@.areas[q]));
        }
        r
    }

    /// An independent copy of this address space over a new page table:
    /// the same regions with the same bytes, owned separately. The layout
    /// is cloned first, then every region's current bytes are captured and
    /// written into the copy — the two-phase copy of fork.
    pub fn duplicate(&self, token: usize) -> (r: MemorySet)
        requires
            self@.wf(),
        ensures
            r@.token == token as int,
            r@.areas == self@.areas,
            r@.wf(),
    {
        let mut r = self.duplicate_layout(token);
        let n = self.areas.len();
        let mut i: usize = 0;
        while i < n
            invariant
                n == self@.areas.len(),
                0 <= i <= n,
                self@.wf(),
                r@.token == token as int,
                r@.areas.len() == n,
                forall|j: int| 0 <= j < i ==> #[trigger] r@.areas[j] == self@.areas[j],
                forall|j: int|
                    i <= j < n ==> #[trigger] r@.areas[j] == (AreaView {
                        data: Seq::new(self@.areas[j].data.len(), |t: int| 0u8),
                        ..self@.areas[j]
                    }),
            decreases n - i,
        {
            let a = &self.areas[i];
            assert(self@.areas[i as int] == a@);
            assert(self@.areas[i as int].wf());
            proof {
                let orig = self@.areas[i as int];
                assert(r@.areas[i as int] == (AreaView {
                    data: Seq::new(orig.data.len(), |t: int| 0u8),
                    ..orig
                }));
            }
            let ghost pre = r@.areas;
            r.write_into_area(i, 0, a.as_slice());
            proof {
                let orig = self@.areas[i as int];
                let zeros = Seq::new(orig.data.len(), |t: int| 0u8);
                assert(zeros.take(0) =~= Seq::<u8>::empty());
                assert(zeros.skip(0 + orig.data.len() as int) =~= Seq::<u8>::empty());
                assert(r@.areas[i as int].data =~= orig.data);
                assert(r@.areas[i as int] =~= orig);
                assert forall|j: int| 0 <= j < i + 1 implies #[trigger] r@.areas[j]
                    == self@.areas[j] by {
                    if j != i as int {
                        assert(r@.areas[j] == pre[j]);
                        assert(pre[j] == self@.areas[j]);
                    }
                }
                assert forall|j: int| i + 1 <= j < n implies #[trigger] r@.areas[j] == (AreaView {
                    data: Seq::new(self@.areas[j].data.len(), |t: int| 0u8),
                    ..self@.areas[j]
                }) by {
                    assert(r@.areas[j] == pre[j]);
                    assert(pre[j] == (AreaView {
                        data: Seq::new(self@.areas[j].data.len(), |t: int| 0u8),
                        ..self@.areas[j]
                    }));
                }
            }
            i += 1;
        }
        assert(r@.areas =~= self@.areas);
        r
    }

    /// The start address of every page covered by some region, region by
    /// region: one entry per mapped page, lowest page first within a region.
    pub fn page_starts(&self) -> (r: Vec<usize>)
        ensures
            r@.len() == pages_of_areas(self@.areas).len(),
            forall|k: int|
                0 <= k < r@.len() ==> r@[k] as int == #[trigger] pages_of_areas(self@.areas)[k],
    {
        let mut r: Vec<usize> = Vec::new();
        let n = self.areas.len();
        let mut i: usize = 0;
        while i < n
            invariant
                n == self@.areas.len(),
                0 <= i <= n,
                r@.len() == pages_of_areas(self@.areas.take(i as int)).len(),
                forall|k: int|
                    0 <= k < r@.len() ==> r@[k] as int == #[trigger] pages_of_areas(
                        self@.areas.take(i as int),
                    )[k],
            decreases n - i,
        {
            let a = &self.areas[i];
            assert(self@.areas[i as int] == a@);
            let start = a.start;
            let end = a.end;
            let ghost pre = r@;
            let ghost page_seq = area_page_starts(start as int, end as int);
            if start < end {
                let first: usize = start / PAGE_SIZE * PAGE_SIZE;
                let count: usize = (end - 1) / PAGE_SIZE - start / PAGE_SIZE + 1;
                assert(count as int == page_seq.len()) by {
                    assert(((end - 1) as int) / (PAGE_SIZE as int) >= (start as int) / (
                    PAGE_SIZE as int)) by (nonlinear_arith)
                        requires
                            0 <= start <= (end - 1) as int,
                    ;
                }
                let mut k: usize = 0;
                while k < count
                    invariant
                        0 <= k <= count,
                        start < end,
                        first as int == ((start as int) / (PAGE_SIZE as int)) * (
                        PAGE_SIZE as int),
                        count as int == page_seq.len(),
                        page_seq == area_page_starts(start as int, end as int),
                        r@.len() == pre.len() + k,
                        forall|t: int| 0 <= t < pre.len() ==> r@[t] == #[trigger] pre[t],
                        forall|t: int|
                            0 <= t < k ==> r@[pre.len() + t] as int == #[trigger] page_seq[t],
                    decreases count - k,
                {
                    proof {
                        let ps = PAGE_SIZE as int;
                        let lastp = ((end - 1) as int) / ps;
                        assert(lastp * ps <= end - 1) by (nonlinear_arith)
                            requires
                                0 <= (end - 1) as int,
                                lastp == ((end - 1) as int) / ps,
                                ps == 4096,
                        ;
                        assert((start as int) / ps + k <= lastp);
                        assert(((start as int) / ps + k) * ps <= lastp * ps) by (nonlinear_arith)
                            requires
                                (start as int) / ps + k <= lastp,
                                ps == 4096,
                        ;
                    }
                    let addr: usize = first + k * PAGE_SIZE;
                    r.push(addr);
                    assert(addr as int == page_seq[k as int]) by {
                        assert((((start as int) / (PAGE_SIZE as int)) + k) * (PAGE_SIZE as int)
                            == ((start as int) / (PAGE_SIZE as int)) * (PAGE_SIZE as int) + k * (
                        PAGE_SIZE as int)) by (nonlinear_arith);
                    }
                    k += 1;
                }
            }
            proof {
                assert(self@.areas.take(i as int + 1).drop_last() =~= self@.areas.take(i as int));
                assert(self@.areas.take(i as int + 1).last() == self@.areas[i as int]);
                assert(pages_of_areas(self@.areas.take(i as int + 1)) == pages_of_areas(
                    self@.areas.take(i as int),
                ) + page_seq);
            }
            i += 1;
        }
        assert(self@.areas.take(n as int) =~= self@.areas);
        r
    }
}

} // verus!
