use wishy::exec::elf::{parse_elf, read_elf_header, read_program_header};
use wishy::exec::loader::{LoaderState, load_elf};
use wishy::memory::heap::{BumpAllocator, HEAP_SIZE, HEAP_START};
use wishy::memory::mmap::{MAP_PRIVATE, MMAP_START, MmapState, PHYS_START, mmap, munmap};
use wishy::memory::paging::{PAGE_TABLES, PageTables, init};
use wishy::syscall::sys_mmap;

fn lookup(pt: &PageTables, virt: usize) -> Option<u32> {
    let d = pt.dir[(virt >> 22) & 0x3ff];
    if d & 1 == 0 {
        return None;
    }
    let table = pt.tables.get(&(d & !0xfff))?;
    Some(table[(virt >> 12) & 0x3ff])
}

#[test]
fn bump_allocator_aligns_and_advances() {
    let mut a = BumpAllocator::new();
    assert_eq!((a.next, a.end), (HEAP_START, HEAP_START + HEAP_SIZE));
    let p = a.allocate(3, 1);
    assert_eq!(p, HEAP_START);
    let q = a.allocate(16, 16);
    assert_eq!(q, HEAP_START + 16);
    assert_eq!(a.next, HEAP_START + 32);
}

#[test]
fn bump_allocator_out_of_memory_gives_null() {
    let mut a = BumpAllocator::new();
    let before = a.next;
    assert_eq!(a.allocate(HEAP_SIZE + 1, 8), 0);
    assert_eq!(a.next, before);
    assert_eq!(a.allocate(HEAP_SIZE, 8), HEAP_START);
    assert_eq!(a.allocate(1, 1), 0);
}

#[test]
fn identity_mapping_after_init() {
    let pt = init();
    assert_eq!(pt.next_table, PAGE_TABLES + 256 * 4096);
    assert_eq!(lookup(&pt, 0x0012_3000), Some(0x0012_3000 | 3));
    assert_eq!(lookup(&pt, 0x3fff_f000), Some(0x3fff_f000 | 3));
    assert_eq!(lookup(&pt, 0x4000_0000), None);
}

#[test]
fn map_page_then_lookup() {
    let mut pt = init();
    pt.map_page(0x8000_5000, 0x20_0000, 0x7);
    assert_eq!(lookup(&pt, 0x8000_5000), Some(0x20_0007));
    // the new table's other entries are empty
    assert_eq!(lookup(&pt, 0x8000_6000), Some(0));
    assert_eq!(pt.next_table, PAGE_TABLES + 257 * 4096);
    // remapping inside an identity table keeps the table
    pt.map_page(0x1000, 0x9000, 0x3);
    assert_eq!(lookup(&pt, 0x1000), Some(0x9003));
    assert_eq!(pt.next_table, PAGE_TABLES + 257 * 4096);
}

#[test]
fn mmap_private_maps_fresh_frames() {
    let mut pt = init();
    let mut st = MmapState::new();
    let r = mmap(&mut st, &mut pt, 0, 5000, 3, MAP_PRIVATE, -1, 0);
    assert_eq!(r, Ok(MMAP_START));
    assert_eq!(st.next_addr, MMAP_START + 8192);
    assert_eq!(st.next_phys, PHYS_START + 8192);
    assert_eq!(lookup(&pt, MMAP_START), Some((PHYS_START as u32) | 7));
    assert_eq!(lookup(&pt, MMAP_START + 4096), Some((PHYS_START as u32 + 4096) | 7));
    assert_eq!(st.regions.len(), 1);
    assert_eq!((st.regions[0].addr, st.regions[0].size, st.regions[0].fd), (MMAP_START, 5000, -1));
}

#[test]
fn mmap_with_hint_and_munmap() {
    let mut pt = init();
    let mut st = MmapState::new();
    assert_eq!(mmap(&mut st, &mut pt, 0x5000_0000, 100, 1, 0, 4, 0), Ok(0x5000_0000));
    assert_eq!(st.next_addr, MMAP_START);
    assert_eq!(st.next_phys, PHYS_START);
    assert_eq!(mmap(&mut st, &mut pt, 0x6000_0000, 100, 1, 0, 4, 0), Ok(0x6000_0000));
    assert!(munmap(&mut st, 0x5000_0000, 99).is_ok());
    assert_eq!(st.regions.len(), 2);
    assert!(munmap(&mut st, 0x5000_0000, 100).is_ok());
    assert_eq!(st.regions.len(), 1);
    assert_eq!(st.regions[0].addr, 0x6000_0000);
}

fn put32(v: &mut Vec<u8>, off: usize, x: u32) {
    v[off..off + 4].copy_from_slice(&x.to_le_bytes());
}

fn put16(v: &mut Vec<u8>, off: usize, x: u16) {
    v[off..off + 2].copy_from_slice(&x.to_le_bytes());
}

/// An ELF image with one loadable segment and one note header.
fn sample_elf() -> Vec<u8> {
    let mut d = vec![0u8; 200];
    d[0..4].copy_from_slice(b"\x7fELF");
    put16(&mut d, 16, 2);
    put16(&mut d, 18, 3);
    put32(&mut d, 24, 0x0804_8010);
    put32(&mut d, 28, 52);
    put16(&mut d, 42, 32);
    put16(&mut d, 44, 2);
    // header 0: PT_LOAD, offset 116, vaddr 0x08048010, filesz 20, memsz 5000
    put32(&mut d, 52, 1);
    put32(&mut d, 56, 116);
    put32(&mut d, 60, 0x0804_8010);
    put32(&mut d, 68, 20);
    put32(&mut d, 72, 5000);
    // header 1: PT_NOTE
    put32(&mut d, 84, 4);
    d
}

#[test]
fn parse_elf_reads_headers() {
    let d = sample_elf();
    let h = read_elf_header(&d);
    assert_eq!((h.e_type, h.e_machine, h.e_entry, h.e_phnum), (2, 3, 0x0804_8010, 2));
    let ph = read_program_header(&d, 52);
    assert_eq!((ph.p_type, ph.p_offset, ph.p_filesz, ph.p_memsz), (1, 116, 20, 5000));
    let (entry, phs) = parse_elf(&d).unwrap();
    assert_eq!(entry, 0x0804_8010);
    assert_eq!(phs.len(), 2);
    assert_eq!(phs[1].p_type, 4);
}

#[test]
fn parse_elf_rejects_non_elf_and_stops_at_file_end() {
    assert!(parse_elf(&[0x7f, b'E', b'L']).is_err());
    let mut d = sample_elf();
    d[1] = b'X';
    assert!(parse_elf(&d).is_err());
    let mut d = sample_elf();
    d.truncate(100);
    let (_, phs) = parse_elf(&d).unwrap();
    assert_eq!(phs.len(), 1);
}

#[test]
fn load_elf_maps_segments() {
    let d = sample_elf();
    let mut pt = init();
    let mut st = LoaderState::new();
    let start = st.next_page;
    let (entry, copies) = load_elf(&d, &mut pt, &mut st).unwrap();
    assert_eq!(entry, 0x0804_8010);
    assert_eq!(copies.len(), 1);
    let c = copies[0];
    assert_eq!((c.dest, c.src_offset, c.file_len, c.zero_len), (0x0804_8010, 116, 20, 4980));
    // 0x10 + 5000 bytes span two pages
    assert_eq!(st.next_page, start + 2 * 4096);
    assert_eq!(lookup(&pt, 0x0804_8000).map(|e| e & !0xfff), Some(start as u32));
    assert_eq!(lookup(&pt, 0x0804_9000).map(|e| e & 0xfff), Some(7));
}

#[test]
fn load_elf_refuses_non_elf() {
    let mut pt = init();
    let mut st = LoaderState::new();
    let before = pt.next_table;
    assert!(load_elf(&[1, 2, 3], &mut pt, &mut st).is_err());
    assert_eq!(pt.next_table, before);
}

#[test]
fn anonymous_mappings_are_aligned_and_disjoint() {
    let mut pt = init();
    let mut st = MmapState::new();
    let a = sys_mmap(&mut st, &mut pt, 0, 5000, 3, MAP_PRIVATE) as usize;
    let b = sys_mmap(&mut st, &mut pt, 0, 100, 3, 0) as usize;
    assert_eq!(a, MMAP_START);
    assert_eq!(a % 4096, 0);
    assert_eq!(b % 4096, 0);
    assert!(a + 5000 <= b);
    // the syscall records the region and maps the private one's pages
    assert_eq!(st.regions.len(), 2);
    assert_eq!((st.regions[1].addr, st.regions[1].size, st.regions[1].fd), (b, 100, -1));
    assert_eq!(lookup(&pt, a + 4096), Some((PHYS_START as u32 + 4096) | 7));
    assert_eq!(st.next_phys, PHYS_START + 8192);
}
