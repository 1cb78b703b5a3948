use vstd::prelude::*;
use vstd::string::StringSliceAdditionalSpecFns;
use crate::exec::elf::{ProgramHeader, is_elf, entry_of, parse_elf, ph_table_fits, read_headers};
use crate::fs::mount::{MountTable, mount_read_spec, read_file};
use crate::fs::store::Storage;
use crate::memory::paging::{PageTables, dir_index, lemma_indices, page_entry, present, table_index};

verus! {

/// Program headers of this type are loaded.
pub const PT_LOAD: u32 = 1;
/// The first physical frame handed to loaded programs.
pub const LOAD_FRAME_START: usize = 0x200_0000;
/// Page-table flags of loaded pages: present, writable, user.
pub const LOAD_FLAGS: u32 = 0x7;

/// Hands out the frames that loaded segments go into.
pub struct LoaderState {
    pub next_page: usize,
}

/// What to write for a loaded segment: the file bytes from `src_offset`,
/// `file_len` of them, go to `dest`, followed by `zero_len` zero bytes.
#[derive(Clone, Copy)]
pub struct SegmentCopy {
    pub dest: usize,
    pub src_offset: usize,
    pub file_len: usize,
    pub zero_len: usize,
}

/// The first page of a segment.
pub open spec fn seg_base(ph: ProgramHeader) -> usize {
    (ph.p_vaddr as usize) & !0xFFFusize
}

/// The pages a segment spans, from its first page to the end of its
/// memory image.
pub open spec fn seg_pages(ph: ProgramHeader) -> int {
    (((ph.p_vaddr as usize) & 0xFFFusize) + ph.p_memsz + 4095) / 4096
}

/// The pages of the loadable segments among `phs`.
pub open spec fn load_pages(phs: Seq<ProgramHeader>) -> int
    decreases phs.len(),
{
    if phs.len() == 0 {
        0
    } else {
        load_pages(phs.drop_last()) + if phs.last().p_type == PT_LOAD { seg_pages(phs.last()) } else { 0 }
    }
}

/// The write a segment asks for.
pub open spec fn seg_copy(ph: ProgramHeader) -> SegmentCopy {
    SegmentCopy {
        dest: ph.p_vaddr as usize,
        src_offset: ph.p_offset as usize,
        file_len: ph.p_filesz as usize,
        zero_len: if ph.p_memsz > ph.p_filesz { (ph.p_memsz - ph.p_filesz) as usize } else { 0 },
    }
}

/// The writes of the loadable segments among `phs`, in order.
pub open spec fn load_copies(phs: Seq<ProgramHeader>) -> Seq<SegmentCopy>
    decreases phs.len(),
{
    if phs.len() == 0 {
        Seq::empty()
    } else if phs.last().p_type == PT_LOAD {
        load_copies(phs.drop_last()).push(seg_copy(phs.last()))
    } else {
        load_copies(phs.drop_last())
    }
}

/// A segment can be loaded without overflow: its file bytes are inside
/// the file, and its page span is addressable.
pub open spec fn segment_fits(data: Seq<u8>, ph: ProgramHeader) -> bool {
    &&& ph.p_offset + ph.p_filesz <= data.len()
    &&& ((ph.p_vaddr as usize) & 0xFFFusize) + ph.p_memsz + 4096 <= usize::MAX
    &&& seg_pages(ph) > 0 ==> seg_base(ph) + (seg_pages(ph) - 1) * 4096 <= usize::MAX
}

/// Every loadable segment among `phs` fits, and the frames and page
/// tables they need are addressable.
pub open spec fn loads_fit(data: Seq<u8>, phs: Seq<ProgramHeader>, pt: PageTables, st: LoaderState) -> bool {
    &&& forall|i: int| 0 <= i < phs.len() && (#[trigger] phs[i]).p_type == PT_LOAD ==> segment_fits(data, phs[i])
    &&& st.next_page + load_pages(phs) * 4096 <= usize::MAX
    &&& pt.next_table + load_pages(phs) * 4096 <= u32::MAX
}

/// An image that can be loaded: every way of reading its headers gives
/// segments that fit.
pub open spec fn image_fits(data: Seq<u8>, pt: PageTables, st: LoaderState) -> bool {
    &&& ph_table_fits(data)
    &&& forall|phs: Seq<ProgramHeader>| #[trigger] read_headers(data, phs) ==> loads_fit(data, phs, pt, st)
}

/// Page `k` of a span at `base` lands in the slot pair `(d, t)`.
pub open spec fn page_hits(base: usize, k: int, d: int, t: int) -> bool {
    dir_index((base + k * 4096) as usize) == d && table_index((base + k * 4096) as usize) == t
}

/// An entry a mapping did not aim at: unchanged, or zero in a table the
/// mapping had to create.
pub open spec fn entry_kept(a: PageTables, b: PageTables, d: int, t: int) -> bool {
    b.entry(d, t) == a.entry(d, t) || (a.entry(d, t) is None && b.entry(d, t) == Some(0u32))
}

proof fn lemma_span_slots(base: usize, k: int, m: int)
    requires
        0 <= k < m,
        m - k < 0x100000,
        base + m * 4096 <= usize::MAX,
    ensures
        !page_hits(base, m, dir_index((base + k * 4096) as usize), table_index((base + k * 4096) as usize)),
{
    let x = (base + k * 4096) as usize;
    let y = (base + m * 4096) as usize;
    let delta = (m - k) as usize;
    assert(y == x + delta * 4096);
    assert(((x >> 22usize) & 0x3FFusize) == ((y >> 22usize) & 0x3FFusize)
        && ((x >> 12usize) & 0x3FFusize) == ((y >> 12usize) & 0x3FFusize)
        ==> ((x >> 12usize) & 0xFFFFFusize) == ((y >> 12usize) & 0xFFFFFusize)) by (bit_vector);
    assert(((x >> 12usize) & 0xFFFFFusize) != ((y >> 12usize) & 0xFFFFFusize)) by (bit_vector)
        requires
            y == x + delta * 4096,
            0 < delta < 0x100000,
    ;
}

impl LoaderState {
    pub fn new() -> (s: Self)
        ensures
            s.next_page == LOAD_FRAME_START,
    {
        LoaderState { next_page: LOAD_FRAME_START }
    }

    /// Takes the next frame.
    fn allocate_page(&mut self) -> (page: usize)
        requires
            old(self).next_page + 4096 <= usize::MAX,
        ensures
            page == old(self).next_page,
            final(self).next_page == old(self).next_page + 4096,
    {
        let page = self.next_page;
        self.next_page = page + 4096;
        page
    }
}

/// Maps the pages of a segment to fresh frames, user-writable, and gives
/// the write that fills the segment: its file bytes, then zeros up to its
/// memory size.
fn load_segment(data: &[u8], ph: &ProgramHeader, pt: &mut PageTables, st: &mut LoaderState) -> (r: Result<SegmentCopy, ()>)
    requires
        old(pt).wf(),
        segment_fits(data@, *ph),
        old(st).next_page + seg_pages(*ph) * 4096 <= usize::MAX,
        old(pt).next_table + seg_pages(*ph) * 4096 <= u32::MAX,
    ensures
        r == Ok::<SegmentCopy, ()>(seg_copy(*ph)),
        final(pt).wf(),
        final(st).next_page == old(st).next_page + seg_pages(*ph) * 4096,
        final(pt).next_table <= old(pt).next_table + seg_pages(*ph) * 4096,
        seg_pages(*ph) <= 0x100000 ==> forall|k: int| 0 <= k < seg_pages(*ph) ==> #[trigger] final(pt).lookup(
            (seg_base(*ph) + k * 4096) as usize,
        ) == Some(page_entry((old(st).next_page + k * 4096) as usize, LOAD_FLAGS)),
        forall|d: int, t: int|
            0 <= d < 1024 && 0 <= t < 1024 && !(exists|k: int| 0 <= k < seg_pages(*ph) && #[trigger] page_hits(seg_base(*ph), k, d, t))
                ==> entry_kept(*old(pt), *final(pt), d, t),
{
    let vaddr = ph.p_vaddr as usize;
    let filesz = ph.p_filesz as usize;
    let memsz = ph.p_memsz as usize;
    let offset = ph.p_offset as usize;
    let page_aligned = vaddr & !0xFFF;
    let page_offset = vaddr & 0xFFF;
    let pages_needed = ((page_offset + memsz) + 4095) / 4096;
    let ghost pt0 = *pt;
    let ghost frame0 = st.next_page;
    let mut i: usize = 0;
    while i < pages_needed
        invariant
            pages_needed == seg_pages(*ph),
            page_aligned == seg_base(*ph),
            segment_fits(data@, *ph),
            i <= pages_needed,
            pt.wf(),
            frame0 + pages_needed * 4096 <= usize::MAX,
            pt0.next_table + pages_needed * 4096 <= u32::MAX,
            st.next_page == frame0 + i * 4096,
            pt.next_table <= pt0.next_table + i * 4096,
            pages_needed <= 0x100000 ==> forall|k: int| 0 <= k < i ==> #[trigger] pt.lookup((page_aligned + k * 4096) as usize)
                == Some(page_entry((frame0 + k * 4096) as usize, LOAD_FLAGS)),
            forall|d: int, t: int|
                0 <= d < 1024 && 0 <= t < 1024 && !(exists|k: int| 0 <= k < i && #[trigger] page_hits(page_aligned, k, d, t))
                    ==> entry_kept(pt0, *pt, d, t),
        decreases pages_needed - i,
    {
        let phys = st.allocate_page();
        let virt = page_aligned + i * 4096;
        let ghost before = *pt;
        pt.map_page(virt, phys, LOAD_FLAGS);
        proof {
            assert(virt == (page_aligned + i * 4096) as usize);
            assert(phys == (frame0 + i * 4096) as usize);
            let d0 = dir_index(virt);
            let t0 = table_index(virt);
            assert(page_hits(page_aligned, i as int, d0, t0));
            if pages_needed <= 0x100000 {
                assert forall|k: int| 0 <= k < i + 1 implies #[trigger] pt.lookup((page_aligned + k * 4096) as usize)
                    == Some(page_entry((frame0 + k * 4096) as usize, LOAD_FLAGS)) by {
                    let vk = (page_aligned + k * 4096) as usize;
                    lemma_indices(vk);
                    if k < i {
                        lemma_span_slots(page_aligned, k, i as int);
                        assert(before.lookup(vk) == Some(page_entry((frame0 + k * 4096) as usize, LOAD_FLAGS)));
                        if dir_index(vk) == d0 {
                            assert(table_index(vk) != t0);
                            assert(present(before.dir@[d0]));
                            assert(pt.entry(d0, table_index(vk)) == before.entry(d0, table_index(vk)));
                        } else {
                            assert(pt.entry(dir_index(vk), table_index(vk)) == before.entry(dir_index(vk), table_index(vk)));
                        }
                    } else {
                        assert(vk == virt);
                    }
                }
            }
            assert forall|d: int, t: int|
                0 <= d < 1024 && 0 <= t < 1024 && !(exists|k: int| 0 <= k < i + 1 && #[trigger] page_hits(page_aligned, k, d, t))
                    implies entry_kept(pt0, *pt, d, t) by {
                assert(!(exists|k: int| 0 <= k < i && #[trigger] page_hits(page_aligned, k, d, t)));
                assert(entry_kept(pt0, before, d, t));
                assert(d != d0 || t != t0);
            }
        }
        i += 1;
    }
    let zero_len = if memsz > filesz { memsz - filesz } else { 0 };
    Ok(SegmentCopy { dest: vaddr, src_offset: offset, file_len: filesz, zero_len })
}

/// `b` is `a` with the pages of segment `ph` mapped to the frames from
/// `frame` on, user-writable, and every entry the segment does not aim at
/// kept.
pub open spec fn maps_segment(a: PageTables, b: PageTables, ph: ProgramHeader, frame: int) -> bool {
    &&& seg_pages(ph) <= 0x100000 ==> forall|k: int| 0 <= k < seg_pages(ph) ==> #[trigger] b.lookup(
        (seg_base(ph) + k * 4096) as usize,
    ) == Some(page_entry((frame + k * 4096) as usize, LOAD_FLAGS))
    &&& forall|d: int, t: int|
        0 <= d < 1024 && 0 <= t < 1024 && !(exists|k: int| 0 <= k < seg_pages(ph) && #[trigger] page_hits(seg_base(ph), k, d, t))
            ==> entry_kept(a, b, d, t)
}

/// One header's step of loading: a loadable segment is mapped; any other
/// header leaves the page tables as they are.
pub open spec fn load_step(a: PageTables, b: PageTables, ph: ProgramHeader, frame: int) -> bool {
    if ph.p_type == PT_LOAD { maps_segment(a, b, ph, frame) } else { b == a }
}

/// `pts` are the page tables from `a` to `b` as the headers `phs` are
/// loaded in order, frames handed out from `frame0` on.
pub open spec fn load_chain(pts: Seq<PageTables>, a: PageTables, b: PageTables, phs: Seq<ProgramHeader>, frame0: int) -> bool {
    &&& pts.len() == phs.len() + 1
    &&& pts[0] == a
    &&& pts.last() == b
    &&& forall|j: int| 0 <= j < phs.len() ==> #[trigger] load_step(pts[j], pts[j + 1], phs[j], frame0 + load_pages(phs.take(j)) * 4096)
}

/// What loading `data` gives: an error, with nothing changed, exactly when
/// it is not ELF; else its entry point and the writes of its loadable
/// segments in order, with a frame handed out for each page they span and
/// the page tables gone through each segment's mapping in turn.
pub open spec fn elf_loaded(
    data: Seq<u8>,
    pt0: PageTables,
    st0: LoaderState,
    r: Result<(u32, Vec<SegmentCopy>), ()>,
    pt1: PageTables,
    st1: LoaderState,
) -> bool {
    &&& r is Err <==> !is_elf(data)
    &&& r is Err ==> pt1 == pt0 && st1 == st0
    &&& r matches Ok((entry, copies)) ==> {
        &&& entry == entry_of(data)
        &&& exists|phs: Seq<ProgramHeader>| {
            &&& #[trigger] read_headers(data, phs)
            &&& copies@ == load_copies(phs)
            &&& st1.next_page == st0.next_page + load_pages(phs) * 4096
            &&& exists|pts: Seq<PageTables>| #[trigger] load_chain(pts, pt0, pt1, phs, st0.next_page as int)
        }
    }
}

/// Loads an ELF image: maps every loadable segment to fresh frames and
/// gives the entry point with the writes that fill the segments, in
/// order. Fails, loading nothing, when the image is not ELF.
pub fn load_elf(data: &[u8], pt: &mut PageTables, st: &mut LoaderState) -> (r: Result<(u32, Vec<SegmentCopy>), ()>)
    requires
        old(pt).wf(),
        image_fits(data@, *old(pt), *old(st)),
    ensures
        final(pt).wf(),
        elf_loaded(data@, *old(pt), *old(st), r, *final(pt), *final(st)),
{
    let (entry, program_headers) = match parse_elf(data) {
        Ok(parsed) => parsed,
        Err(e) => {
            return Err(e);
        },
    };
    let ghost phs = program_headers@;
    assert(read_headers(data@, phs));
    assert(loads_fit(data@, phs, *old(pt), *old(st)));
    let mut copies: Vec<SegmentCopy> = Vec::new();
    let mut i: usize = 0;
    let ghost frame0 = old(st).next_page as int;
    let ghost mut pts: Seq<PageTables> = seq![*old(pt)];
    while i < program_headers.len()
        invariant
            phs == program_headers@,
            frame0 == old(st).next_page,
            pts.len() == i + 1,
            pts[0] == *old(pt),
            pts.last() == *pt,
            forall|j: int| 0 <= j < i ==> #[trigger] load_step(pts[j], pts[j + 1], phs[j], frame0 + load_pages(phs.take(j)) * 4096),
            loads_fit(data@, phs, *old(pt), *old(st)),
            i <= phs.len(),
            pt.wf(),
            copies@ == load_copies(phs.take(i as int)),
            st.next_page == old(st).next_page + load_pages(phs.take(i as int)) * 4096,
            pt.next_table <= old(pt).next_table + load_pages(phs.take(i as int)) * 4096,
        decreases phs.len() - i,
    {
        let ph = program_headers[i];
        proof {
            let s = phs.take(i as int + 1);
            assert(s.drop_last() =~= phs.take(i as int));
            assert(s.last() == ph);
            lemma_load_pages_prefix(phs, i as int + 1);
        }
        let ghost before = *pt;
        if ph.p_type == PT_LOAD {
            proof {
                assert(segment_fits(data@, phs[i as int]));
            }
            let copy = match load_segment(data, &ph, pt, st) {
                Ok(c) => c,
                Err(e) => {
                    return Err(e);
                },
            };
            copies.push(copy);
        }
        proof {
            assert(load_step(before, *pt, phs[i as int], frame0 + load_pages(phs.take(i as int)) * 4096));
            let next = pts.push(*pt);
            assert forall|j: int| 0 <= j < i + 1 implies #[trigger] load_step(next[j], next[j + 1], phs[j], frame0 + load_pages(phs.take(j)) * 4096) by {
                if j < i {
                    assert(next[j] == pts[j] && next[j + 1] == pts[j + 1]);
                } else {
                    assert(next[j] == before && next[j + 1] == *pt);
                }
            }
            pts = next;
        }
        i += 1;
    }
    proof {
        assert(phs.take(i as int) =~= phs);
        assert(load_chain(pts, *old(pt), *pt, phs, frame0));
    }
    Ok((entry, copies))
}

/// The pages of a prefix never exceed those of the whole.
proof fn lemma_load_pages_prefix(phs: Seq<ProgramHeader>, n: int)
    requires
        0 <= n <= phs.len(),
    ensures
        0 <= load_pages(phs.take(n)) <= load_pages(phs),
    decreases phs.len(),
{
    lemma_load_pages_nonneg(phs.take(n));
    if n < phs.len() {
        assert(phs.drop_last().take(n) =~= phs.take(n));
        lemma_load_pages_prefix(phs.drop_last(), n);
        lemma_seg_pages_nonneg(phs.last());
    } else {
        assert(phs.take(n) =~= phs);
    }
}

proof fn lemma_seg_pages_nonneg(ph: ProgramHeader)
    ensures
        seg_pages(ph) >= 0,
{
}

proof fn lemma_load_pages_nonneg(phs: Seq<ProgramHeader>)
    ensures
        load_pages(phs) >= 0,
    decreases phs.len(),
{
    if phs.len() > 0 {
        lemma_load_pages_nonneg(phs.drop_last());
        lemma_seg_pages_nonneg(phs.last());
    }
}

/// Where the first program lives.
pub const INIT_PATH: &'static str = "/sbin/init";

/// Loads the first program: reads it from the root file system and loads
/// it as an ELF image. Gives the image that was read (the segment writes
/// copy from it) and the outcome of loading it; an error, with nothing
/// mapped, when it cannot be read.
pub fn load_init(table: &MountTable, storage: &mut Storage, pt: &mut PageTables, st: &mut LoaderState)
    -> (r: (Option<Vec<u8>>, Result<(u32, Vec<SegmentCopy>), ()>))
    requires
        old(storage).wf(),
        old(pt).wf(),
        mount_read_spec(*table, old(storage).store(), INIT_PATH.spec_bytes()) is Some,
        mount_read_spec(*table, old(storage).store(), INIT_PATH.spec_bytes()) matches Some((Ok(d), _))
            ==> image_fits(d, *old(pt), *old(st)),
    ensures
        final(storage).wf(),
        final(pt).wf(),
        mount_read_spec(*table, old(storage).store(), INIT_PATH.spec_bytes()) matches Some((read, st1)) && {
            &&& final(storage).store() == st1
            &&& read is Err ==> r.0 is None && r.1 is Err && *final(pt) == *old(pt) && *final(st) == *old(st)
            &&& read matches Ok(d) ==> r.0 matches Some(image) && image@ == d
                && elf_loaded(d, *old(pt), *old(st), r.1, *final(pt), *final(st))
        },
{
    match read_file(table, storage, INIT_PATH) {
        Ok(data) => {
            let loaded = load_elf(&data, pt, st);
            (Some(data), loaded)
        },
        Err(e) => (None, Err(e)),
    }
}

} // verus!
