//! Executable images.
//!
//! An image arrives as raw bytes. The header and program-header table are
//! read field by field (little-endian, 32- or 64-bit class), and the
//! loadable segments are turned into mapped regions of a fresh address
//! space: file-backed bytes first, the rest of each segment's memory size
//! zero-filled. Every field read is specified against the bytes it came
//! from.

use vstd::prelude::*;
use vstd::slice::slice_subrange;
use crate::memory::{AreaView, MemoryArea, MemoryAttr, MemorySet};

verus! {

/// Program-header type value of a loadable segment.
pub const PT_LOAD: u32 = 1;

/// Program-header type value of the entry describing the table itself.
pub const PT_PHDR: u32 = 6;

/// Header type value of an executable image.
pub const ET_EXEC: u16 = 2;

/// Header type value of a shared-object image.
pub const ET_DYN: u16 = 3;

/// Why an image was rejected.
#[derive(Clone, Copy, PartialEq, Eq, Structural, Debug)]
pub enum ImageError {
    /// No well-formed header: too short, bad magic, or an unsupported
    /// class or byte order.
    BadHeader,
    /// The program-header table lies outside the image or its entries have
    /// an unexpected size.
    BadProgramHeaders,
    /// The header type is neither executable nor shared object.
    NotExecutable,
    /// A loadable segment does not fit: its file bytes lie outside the
    /// image, its memory range is impossible on this machine, or it
    /// overlaps another region.
    BadSegment,
    /// The argument block does not fit on the user stack.
    BadInitStack,
}

/// The 16-bit little-endian value at byte offset `i`.
pub open spec fn u16_at(d: Seq<u8>, i: int) -> int {
    d[i] + d[i + 1] * 0x100
}

/// The 32-bit little-endian value at byte offset `i`.
pub open spec fn u32_at(d: Seq<u8>, i: int) -> int {
    u16_at(d, i) + u16_at(d, i + 2) * 0x10000
}

/// The 64-bit little-endian value at byte offset `i`.
pub open spec fn u64_at(d: Seq<u8>, i: int) -> int {
    u32_at(d, i) + u32_at(d, i + 4) * 0x100000000
}

fn read_u16(d: &[u8], i: usize) -> (r: u16)
    requires
        i + 2 <= d@.len(),
    ensures
        r as int == u16_at(d@, i as int),
{
    let lo = d[i];
    let hi = d[i + 1];
    lo as u16 + (hi as u16) * 0x100
}

fn read_u32(d: &[u8], i: usize) -> (r: u32)
    requires
        i + 4 <= d@.len(),
    ensures
        r as int == u32_at(d@, i as int),
{
    let n: usize = d.len();
    assert(i + 4 <= n);
    let lo = read_u16(d, i);
    let hi = read_u16(d, i + 2);
    lo as u32 + (hi as u32) * 0x10000
}

fn read_u64(d: &[u8], i: usize) -> (r: u64)
    requires
        i + 8 <= d@.len(),
    ensures
        r as int == u64_at(d@, i as int),
{
    let n: usize = d.len();
    assert(i + 8 <= n);
    let lo = read_u32(d, i);
    let hi = read_u32(d, i + 4);
    lo as u64 + (hi as u64) * 0x100000000
}

/// The image begins with the magic bytes, a supported class and
/// little-endian byte order.
pub open spec fn valid_ident(d: Seq<u8>) -> bool {
    &&& d.len() >= 16
    &&& d[0] == 0x7fu8
    &&& d[1] == 0x45u8
    &&& d[2] == 0x4cu8
    &&& d[3] == 0x46u8
    &&& (d[4] == 1u8 || d[4] == 2u8)
    &&& d[5] == 1u8
}

/// Whether the image declares the 32-bit class.
pub open spec fn is32_of(d: Seq<u8>) -> bool {
    d[4] == 1u8
}

/// Length of the image header for the given class.
pub open spec fn header_len(is32: bool) -> int {
    if is32 {
        52
    } else {
        64
    }
}

/// The image holds a complete, supported header.
pub open spec fn valid_header(d: Seq<u8>) -> bool {
    valid_ident(d) && d.len() >= header_len(is32_of(d))
}

/// The header's type field.
pub open spec fn etype_of(d: Seq<u8>) -> int {
    u16_at(d, 16)
}

/// The header's entry-point field.
pub open spec fn entry_of(d: Seq<u8>) -> int {
    if is32_of(d) {
        u32_at(d, 24)
    } else {
        u64_at(d, 24)
    }
}

/// The header's program-header-table offset field.
pub open spec fn phoff_of(d: Seq<u8>) -> int {
    if is32_of(d) {
        u32_at(d, 28)
    } else {
        u64_at(d, 32)
    }
}

/// The header's program-header-entry-size field.
pub open spec fn phentsize_of(d: Seq<u8>) -> int {
    if is32_of(d) {
        u16_at(d, 42)
    } else {
        u16_at(d, 54)
    }
}

/// The header's program-header-count field.
pub open spec fn phnum_of(d: Seq<u8>) -> int {
    if is32_of(d) {
        u16_at(d, 44)
    } else {
        u16_at(d, 56)
    }
}

/// The one program-header entry size this loader reads, per class.
pub open spec fn phentsize_needed(is32: bool) -> int {
    if is32 {
        32
    } else {
        56
    }
}

/// The program-header table is complete: entries of the expected size, all
/// inside the image.
pub open spec fn valid_ph_table(d: Seq<u8>) -> bool {
    &&& valid_header(d)
    &&& phentsize_of(d) == phentsize_needed(is32_of(d))
    &&& phoff_of(d) + phnum_of(d) * phentsize_needed(is32_of(d)) <= d.len()
}

/// Parsed image header: just the fields this core reads.
pub struct ElfHeader {
    pub is32: bool,
    pub etype: u16,
    pub entry: u64,
    pub ph_offset: u64,
    pub ph_entry_size: u16,
    pub ph_count: u16,
}

/// Mathematical value of one program-header entry.
pub struct SegView {
    pub ptype: int,
    pub flags: int,
    pub offset: int,
    pub vaddr: int,
    pub file_size: int,
    pub mem_size: int,
}

/// Segment permission bits as the image states them.
#[derive(Clone, Copy, PartialEq, Eq, Structural)]
pub struct Flags {
    pub bits: u32,
}

/// Whether the execute bit is set in a segment's flags value.
pub open spec fn flag_execute(flags: int) -> bool {
    flags % 2 == 1
}

/// The region attributes a segment's flags map to: always user-accessible,
/// executable when the execute bit is set. Read and write are not
/// distinguished here.
pub open spec fn attr_of(flags: int) -> MemoryAttr {
    MemoryAttr { user: true, execute: flag_execute(flags) }
}

impl Flags {
    /// Whether the segment asks for execute permission.
    pub fn is_execute(&self) -> (r: bool)
        ensures
            r == flag_execute(self.bits as int),
    {
        self.bits % 2 == 1
    }

    /// The region attributes these flags map to.
    pub fn to_attr(&self) -> (r: MemoryAttr)
        ensures
            r == attr_of(self.bits as int),
    {
        let mut attr = MemoryAttr::default().user();
        if self.is_execute() {
            attr = attr.execute();
        }
        attr
    }
}

/// One parsed program-header entry.
pub struct Segment {
    pub ptype: u32,
    pub flags: Flags,
    pub offset: u64,
    pub vaddr: u64,
    pub file_size: u64,
    pub mem_size: u64,
}

impl View for Segment {
    type V = SegView;

    open spec fn view(&self) -> SegView {
        SegView {
            ptype: self.ptype as int,
            flags: self.flags.bits as int,
            offset: self.offset as int,
            vaddr: self.vaddr as int,
            file_size: self.file_size as int,
            mem_size: self.mem_size as int,
        }
    }
}

/// The entry starting at byte offset `base`, as the bytes state it.
pub open spec fn segment_spec(d: Seq<u8>, is32: bool, base: int) -> SegView {
    if is32 {
        SegView {
            ptype: u32_at(d, base),
            flags: u32_at(d, base + 24),
            offset: u32_at(d, base + 4),
            vaddr: u32_at(d, base + 8),
            file_size: u32_at(d, base + 16),
            mem_size: u32_at(d, base + 20),
        }
    } else {
        SegView {
            ptype: u32_at(d, base),
            flags: u32_at(d, base + 4),
            offset: u64_at(d, base + 8),
            vaddr: u64_at(d, base + 16),
            file_size: u64_at(d, base + 32),
            mem_size: u64_at(d, base + 40),
        }
    }
}

/// A parsed image: its header and every program-header entry.
pub struct ElfFile {
    pub header: ElfHeader,
    pub segments: Vec<Segment>,
}

/// Read the image header.
pub fn parse_header(d: &[u8]) -> (r: Result<ElfHeader, ImageError>)
    ensures
        r is Ok <==> valid_header(d@),
        r matches Ok(h) ==> {
            &&& h.is32 == is32_of(d@)
            &&& h.etype as int == etype_of(d@)
            &&& h.entry as int == entry_of(d@)
            &&& h.ph_offset as int == phoff_of(d@)
            &&& h.ph_entry_size as int == phentsize_of(d@)
            &&& h.ph_count as int == phnum_of(d@)
        },
        r is Err ==> r == Err::<ElfHeader, ImageError>(ImageError::BadHeader),
{
    if d.len() < 16 {
        return Err(ImageError::BadHeader);
    }
    if !(d[0] == 0x7f && d[1] == 0x45 && d[2] == 0x4c && d[3] == 0x46) {
        return Err(ImageError::BadHeader);
    }
    let class = d[4];
    if !(class == 1 || class == 2) {
        return Err(ImageError::BadHeader);
    }
    if d[5] != 1 {
        return Err(ImageError::BadHeader);
    }
    let is32 = class == 1;
    if is32 {
        if d.len() < 52 {
            return Err(ImageError::BadHeader);
        }
        Ok(ElfHeader {
            is32,
            etype: read_u16(d, 16),
            entry: read_u32(d, 24) as u64,
            ph_offset: read_u32(d, 28) as u64,
            ph_entry_size: read_u16(d, 42),
            ph_count: read_u16(d, 44),
        })
    } else {
        if d.len() < 64 {
            return Err(ImageError::BadHeader);
        }
        Ok(ElfHeader {
            is32,
            etype: read_u16(d, 16),
            entry: read_u64(d, 24),
            ph_offset: read_u64(d, 32),
            ph_entry_size: read_u16(d, 54),
            ph_count: read_u16(d, 56),
        })
    }
}

/// Read the header and every program-header entry.
pub fn parse_image(d: &[u8]) -> (r: Result<ElfFile, ImageError>)
    ensures
        r is Ok <==> valid_ph_table(d@),
        r matches Ok(f) ==> {
            &&& f.header.is32 == is32_of(d@)
            &&& f.header.etype as int == etype_of(d@)
            &&& f.header.entry as int == entry_of(d@)
            &&& f.header.ph_offset as int == phoff_of(d@)
            &&& f.header.ph_entry_size as int == phentsize_of(d@)
            &&& f.header.ph_count as int == phnum_of(d@)
            &&& f.segments@.len() == phnum_of(d@)
            &&& forall|i: int|
                0 <= i < f.segments@.len() ==> #[trigger] f.segments@[i]@ == segment_spec(
                    d@,
                    is32_of(d@),
                    phoff_of(d@) + i * phentsize_needed(is32_of(d@)),
                )
        },
        !valid_header(d@) ==> r == Err::<ElfFile, ImageError>(ImageError::BadHeader),
        valid_header(d@) && !valid_ph_table(d@) ==> r == Err::<ElfFile, ImageError>(
            ImageError::BadProgramHeaders,
        ),
{
    let header = match parse_header(d) {
        Ok(h) => h,
        Err(e) => { return Err(e); },
    };
    let es: usize = if header.is32 { 32 } else { 56 };
    if header.ph_entry_size as usize != es {
        return Err(ImageError::BadProgramHeaders);
    }
    let count: usize = header.ph_count as usize;
    proof {
        assert(count * es as int <= 65535 * 56) by (nonlinear_arith)
            requires
                0 <= count <= 65535,
                0 <= es as int <= 56,
        ;
    }
    let table_len: usize = count * es;
    let dlen: usize = d.len();
    if header.ph_offset > u64::MAX - table_len as u64 {
        return Err(ImageError::BadProgramHeaders);
    }
    if header.ph_offset + table_len as u64 > dlen as u64 {
        return Err(ImageError::BadProgramHeaders);
    }
    let phoff: usize = header.ph_offset as usize;
    let ghost is32 = header.is32;
    let mut segments: Vec<Segment> = Vec::new();
    let mut i: usize = 0;
    while i < count
        invariant
            0 <= i <= count,
            es == phentsize_needed(is32) as usize,
            header.is32 == is32,
            is32 == is32_of(d@),
            phoff as int == phoff_of(d@),
            count as int == phnum_of(d@),
            phoff + count * es <= d@.len(),
            dlen as int == d@.len(),
            segments@.len() == i,
            forall|j: int|
                0 <= j < i ==> #[trigger] segments@[j]@ == segment_spec(
                    d@,
                    is32,
                    phoff as int + j * phentsize_needed(is32),
                ),
        decreases count - i,
    {
        proof {
            assert((i + 1) * es as int == i * es as int + es as int) by (nonlinear_arith);
            assert((i + 1) * es as int <= count * es as int) by (nonlinear_arith)
                requires
                    i + 1 <= count,
                    es as int >= 0,
            ;
            assert(i * es as int + es as int <= count * es as int);
        }
        let base: usize = phoff + i * es;
        let seg = if header.is32 {
            Segment {
                ptype: read_u32(d, base),
                flags: Flags { bits: read_u32(d, base + 24) },
                offset: read_u32(d, base + 4) as u64,
                vaddr: read_u32(d, base + 8) as u64,
                file_size: read_u32(d, base + 16) as u64,
                mem_size: read_u32(d, base + 20) as u64,
            }
        } else {
            Segment {
                ptype: read_u32(d, base),
                flags: Flags { bits: read_u32(d, base + 4) },
                offset: read_u64(d, base + 8),
                vaddr: read_u64(d, base + 16),
                file_size: read_u64(d, base + 32),
                mem_size: read_u64(d, base + 40),
            }
        };
        segments.push(seg);
        i += 1;
    }
    Ok(ElfFile { header, segments })
}

/// The program-header entries of an image, as its bytes state them.
pub open spec fn segs_of(d: Seq<u8>) -> Seq<SegView> {
    Seq::new(
        phnum_of(d) as nat,
        |i: int| segment_spec(d, is32_of(d), phoff_of(d) + i * phentsize_needed(is32_of(d))),
    )
}

/// A sequence of zero bytes.
pub open spec fn zero_seq(n: int) -> Seq<u8> {
    Seq::new(n as nat, |i: int| 0u8)
}

/// The mathematical values of a sequence of parsed entries.
pub open spec fn seg_views(s: Seq<Segment>) -> Seq<SegView> {
    Seq::new(s.len(), |i: int| s[i]@)
}

/// The file-backed bytes of a loadable segment; none if it carries none.
pub open spec fn seg_bytes(d: Seq<u8>, s: SegView) -> Seq<u8> {
    if s.file_size > 0 {
        d.subrange(s.offset, s.offset + s.file_size)
    } else {
        Seq::empty()
    }
}

/// The region a loadable segment maps to: its declared virtual range, the
/// attributes of its flags, its file-backed bytes followed by zero fill up
/// to its memory size.
pub open spec fn seg_area(d: Seq<u8>, s: SegView) -> AreaView {
    AreaView {
        start: s.vaddr,
        end: s.vaddr + s.mem_size,
        attr: attr_of(s.flags),
        name: ""@,
        data: seg_bytes(d, s) + zero_seq(s.mem_size - s.file_size),
    }
}

/// The regions of the loadable segments, in table order.
pub open spec fn load_areas(d: Seq<u8>, segs: Seq<SegView>) -> Seq<AreaView>
    decreases segs.len(),
{
    if segs.len() == 0 {
        Seq::empty()
    } else {
        load_areas(d, segs.drop_last()) + if segs.last().ptype == PT_LOAD as int {
            seq![seg_area(d, segs.last())]
        } else {
            Seq::empty()
        }
    }
}

/// A loadable segment that this machine can map: its file-backed bytes,
/// if it has any, inside the image, file size within memory size, and a
/// virtual range that fits the address width.
pub open spec fn seg_fits(d: Seq<u8>, s: SegView) -> bool {
    s.ptype == PT_LOAD as int ==> {
        &&& s.file_size <= s.mem_size
        &&& (s.file_size > 0 ==> s.offset + s.file_size <= d.len())
        &&& s.vaddr + s.mem_size <= usize::MAX as int
    }
}

/// No two loadable segments claim overlapping virtual ranges.
pub open spec fn loads_disjoint(segs: Seq<SegView>) -> bool {
    forall|i: int, j: int|
        0 <= i < j < segs.len() && (#[trigger] segs[i]).ptype == PT_LOAD as int && (
        #[trigger] segs[j]).ptype == PT_LOAD as int ==> (segs[i].vaddr + segs[i].mem_size
            <= segs[j].vaddr || segs[j].vaddr + segs[j].mem_size <= segs[i].vaddr)
}

/// Every memory set an image maps to can be built: segments fit, loads are
/// disjoint, and the entry point fits the address width.
pub open spec fn image_loadable(d: Seq<u8>, segs: Seq<SegView>, entry: int) -> bool {
    &&& forall|i: int| 0 <= i < segs.len() ==> seg_fits(d, #[trigger] segs[i])
    &&& loads_disjoint(segs)
    &&& entry <= usize::MAX as int
}

/// Each region of `load_areas` is the region of some loadable segment.
pub proof fn lemma_load_areas_index(d: Seq<u8>, segs: Seq<SegView>, k: int)
    requires
        0 <= k < load_areas(d, segs).len(),
    ensures
        exists|j: int|
            0 <= j < segs.len() && (#[trigger] segs[j]).ptype == PT_LOAD as int && load_areas(
                d,
                segs,
            )[k] == seg_area(d, segs[j]),
    decreases segs.len(),
{
    let pre = load_areas(d, segs.drop_last());
    if k < pre.len() {
        lemma_load_areas_index(d, segs.drop_last(), k);
        let j = choose|j: int|
            0 <= j < segs.drop_last().len() && (#[trigger] segs.drop_last()[j]).ptype
                == PT_LOAD as int && pre[k] == seg_area(d, segs.drop_last()[j]);
        assert(segs[j] == segs.drop_last()[j]);
        assert(segs[j].ptype == PT_LOAD as int && load_areas(d, segs)[k] == seg_area(d, segs[j]));
    } else {
        assert(segs.last().ptype == PT_LOAD as int);
        let j = segs.len() - 1;
        assert(segs[j].ptype == PT_LOAD as int && load_areas(d, segs)[k] == seg_area(d, segs[j]));
    }
}

/// The region of every loadable segment appears in `load_areas`.
pub proof fn lemma_load_areas_contains(d: Seq<u8>, segs: Seq<SegView>, a: int)
    requires
        0 <= a < segs.len(),
        segs[a].ptype == PT_LOAD as int,
    ensures
        exists|k: int|
            0 <= k < load_areas(d, segs).len() && #[trigger] load_areas(d, segs)[k] == seg_area(
                d,
                segs[a],
            ),
    decreases segs.len(),
{
    let pre = load_areas(d, segs.drop_last());
    if a == segs.len() - 1 {
        assert(load_areas(d, segs)[pre.len() as int] == seg_area(d, segs[a]));
    } else {
        assert(segs.drop_last()[a] == segs[a]);
        lemma_load_areas_contains(d, segs.drop_last(), a);
        let k = choose|k: int|
            0 <= k < pre.len() && #[trigger] pre[k] == seg_area(d, segs.drop_last()[a]);
        assert(load_areas(d, segs)[k] == seg_area(d, segs[a]));
    }
}

/// Build an address space from a parsed image over the page table named by
/// `token`: one region per loadable segment, in table order, holding the
/// segment's file bytes and zero fill. Also returns the image's entry
/// address. Fails, without other effect, exactly when some loadable
/// segment does not fit or two of them overlap.
pub fn memory_set_from(f: &ElfFile, d: &[u8], token: usize) -> (r: Result<
    (MemorySet, usize),
    ImageError,
>)
    ensures
        r is Ok <==> image_loadable(d@, seg_views(f.segments@), f.header.entry as int),
        r matches Ok((ms, entry)) ==> {
            &&& ms@.token == token as int
            &&& ms@.areas == load_areas(d@, seg_views(f.segments@))
            &&& ms@.wf()
            &&& entry == f.header.entry
        },
        r is Err ==> r == Err::<(MemorySet, usize), ImageError>(ImageError::BadSegment),
{
    let ghost sv = seg_views(f.segments@);
    if f.header.entry > usize::MAX as u64 {
        return Err(ImageError::BadSegment);
    }
    let entry: usize = f.header.entry as usize;
    let dlen: usize = d.len();
    let mut ms = MemorySet::new(token);
    let n = f.segments.len();
    let mut i: usize = 0;
    while i < n
        invariant
            n == f.segments@.len(),
            0 <= i <= n,
            sv == seg_views(f.segments@),
            dlen as int == d@.len(),
            ms@.token == token as int,
            ms@.wf(),
            ms@.areas == load_areas(d@, sv.take(i as int)),
            forall|j: int| 0 <= j < i ==> seg_fits(d@, #[trigger] sv[j]),
            loads_disjoint(sv.take(i as int)),
        decreases n - i,
    {
        let seg = &f.segments[i];
        assert(seg@ == sv[i as int]);
        let ghost prev_areas = ms@.areas;
        if seg.ptype == PT_LOAD {
            // The segment must fit this machine and the image.
            if seg.file_size > seg.mem_size {
                return Err(ImageError::BadSegment);
            }
            if seg.file_size > 0 {
                if seg.offset > u64::MAX - seg.file_size {
                    return Err(ImageError::BadSegment);
                }
                if seg.offset + seg.file_size > dlen as u64 {
                    return Err(ImageError::BadSegment);
                }
            }
            if seg.vaddr > usize::MAX as u64 || seg.mem_size > usize::MAX as u64 - seg.vaddr {
                return Err(ImageError::BadSegment);
            }
            let start: usize = seg.vaddr as usize;
            let end: usize = (seg.vaddr + seg.mem_size) as usize;
            if ms.overlaps_any(start, end) {
                proof {
                    let k = choose|k: int|
                        0 <= k < prev_areas.len() && !((#[trigger] prev_areas[k]).end
                            <= start as int || end as int <= prev_areas[k].start);
                    lemma_load_areas_index(d@, sv.take(i as int), k);
                    let j = choose|j: int|
                        0 <= j < sv.take(i as int).len() && (#[trigger] sv.take(
                            i as int,
                        )[j]).ptype == PT_LOAD as int && load_areas(d@, sv.take(i as int))[k]
                            == seg_area(d@, sv.take(i as int)[j]);
                    assert(sv[j] == sv.take(i as int)[j]);
                    assert(!(sv[j].vaddr + sv[j].mem_size <= sv[i as int].vaddr || sv[
                        i as int].vaddr + sv[i as int].mem_size <= sv[j].vaddr));
                    assert(!loads_disjoint(sv));
                }
                return Err(ImageError::BadSegment);
            }
            let area = MemoryArea::new(start, end, seg.flags.to_attr(), "");
            proof {
                assert forall|k: int| 0 <= k < prev_areas.len() implies (
                #[trigger] prev_areas[k]).disjoint(area@) by {
                    assert(!ms@.overlaps(start as int, end as int));
                }
            }
            let ghost av = area@;
            ms.push(area);
            assert(ms@.areas == prev_areas.push(av));
            let idx: usize = ms.len() - 1;
            if seg.file_size > 0 {
                let file_bytes = slice_subrange(d, seg.offset as usize, (seg.offset
                    + seg.file_size) as usize);
                ms.write_into_area(idx, 0, file_bytes);
            }
            proof {
                let s = sv[i as int];
                assert(ms@.areas[idx as int].data =~= seg_bytes(d@, s) + zero_seq(
                    s.mem_size - s.file_size,
                )) by {
                    assert(zero_seq(s.mem_size).take(0) =~= Seq::<u8>::empty());
                    assert(zero_seq(s.mem_size).skip(s.file_size) =~= zero_seq(
                        s.mem_size - s.file_size,
                    ));
                }
                assert(ms@.areas[idx as int] =~= seg_area(d@, s));
                assert(ms@.areas.len() == prev_areas.len() + 1);
                assert forall|k: int| 0 <= k < prev_areas.len() implies ms@.areas[k]
                    == #[trigger] prev_areas[k] by {
                    assert(prev_areas.push(av)[k] == prev_areas[k]);
                }
                assert(ms@.areas =~= prev_areas + seq![seg_area(d@, s)]);
                // Every earlier loadable segment's region is among the built
                // regions, so the new segment is disjoint from each of them.
                assert forall|a: int, b: int|
                    0 <= a < b < sv.take(i as int + 1).len() && (#[trigger] sv.take(
                        i as int + 1,
                    )[a]).ptype == PT_LOAD as int && (#[trigger] sv.take(i as int + 1)[b]).ptype
                        == PT_LOAD as int implies (sv.take(i as int + 1)[a].vaddr + sv.take(
                    i as int + 1,
                )[a].mem_size <= sv.take(i as int + 1)[b].vaddr || sv.take(i as int + 1)[b].vaddr
                    + sv.take(i as int + 1)[b].mem_size <= sv.take(i as int + 1)[a].vaddr) by {
                    if b < i as int {
                        assert(sv.take(i as int)[a] == sv.take(i as int + 1)[a]);
                        assert(sv.take(i as int)[b] == sv.take(i as int + 1)[b]);
                        assert(loads_disjoint(sv.take(i as int)));
                    } else {
                        assert(sv.take(i as int + 1)[b] == sv[i as int]);
                        assert(sv.take(i as int + 1)[a] == sv.take(i as int)[a]);
                        lemma_load_areas_contains(d@, sv.take(i as int), a);
                        let k = choose|k: int|
                            0 <= k < load_areas(d@, sv.take(i as int)).len()
                                && #[trigger] load_areas(d@, sv.take(i as int))[k] == seg_area(
                                d@,
                                sv.take(i as int)[a],
                            );
                        assert(prev_areas[k].disjoint(seg_area(d@, sv[i as int])));
                    }
                }
            }
        }
        proof {
            assert(sv.take(i as int + 1).drop_last() =~= sv.take(i as int));
            assert(sv.take(i as int + 1).last() == sv[i as int]);
            if sv[i as int].ptype != PT_LOAD as int {
                assert(ms@.areas =~= load_areas(d@, sv.take(i as int + 1)));
            } else {
                assert(ms@.areas =~= load_areas(d@, sv.take(i as int + 1)));
            }
        }
        i += 1;
    }
    proof {
        assert(sv.take(n as int) =~= sv);
    }
    Ok((ms, entry))
}

} // verus!
