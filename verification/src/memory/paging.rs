use std::collections::BTreeMap;
use vstd::prelude::*;

verus! {

broadcast use vstd::std_specs::btree::group_btree_axioms;

pub const PAGE_SIZE: usize = 4096;
/// Physical address of the page directory.
pub const PAGE_DIRECTORY: usize = 0x100000;
/// Physical address of the first of the identity-mapping page tables.
pub const PAGE_TABLES: usize = 0x101000;
/// Entries in the directory and in each table.
pub const ENTRIES: usize = 1024;
/// Page tables that identity-map the first gigabyte.
pub const IDENTITY_TABLES: usize = 256;

/// Two-level x86 paging: the directory's 1024 entries, the page tables by
/// physical address, and where the next new table goes.
pub struct PageTables {
    pub dir: Vec<u32>,
    pub tables: BTreeMap<u32, Vec<u32>>,
    pub next_table: usize,
}

/// The entry is present.
pub open spec fn present(e: u32) -> bool {
    e & 1u32 == 1u32
}

/// The physical address of the table or frame an entry names.
pub open spec fn frame_of(e: u32) -> u32 {
    e & !0xFFFu32
}

/// The directory slot of a virtual address: bits 22 to 31.
pub open spec fn dir_index(virt: usize) -> int {
    ((virt >> 22usize) & 0x3FFusize) as int
}

/// The table slot of a virtual address: bits 12 to 21.
pub open spec fn table_index(virt: usize) -> int {
    ((virt >> 12usize) & 0x3FFusize) as int
}

/// The entry `map_page` writes: the frame with the flags and the present bit.
pub open spec fn page_entry(phys: usize, flags: u32) -> u32 {
    (phys as u32) | flags | 1u32
}

/// The entry of page `j` of table `i` in the identity mapping.
pub open spec fn identity_entry(i: int, j: int) -> u32 {
    (((i * 1024 + j) * 4096) as u32) | 3u32
}

/// The physical address of identity table `i`.
pub open spec fn identity_table(i: int) -> u32 {
    (PAGE_TABLES + i * 4096) as u32
}

impl PageTables {
    /// The directory has its 1024 entries; every table has 1024 entries and
    /// lies below `next_table`, which is page-aligned and 32-bit; every
    /// present directory entry names a table, and no two name the same one.
    pub open spec fn wf(&self) -> bool {
        &&& self.dir@.len() == ENTRIES
        &&& forall|t: u32| #[trigger] self.tables@.contains_key(t) ==> self.tables@[t]@.len() == ENTRIES
            && t < self.next_table
        &&& forall|i: int| 0 <= i < ENTRIES && #[trigger] present(self.dir@[i]) ==> self.tables@.contains_key(
            frame_of(self.dir@[i]),
        )
        &&& forall|i: int, j: int|
            0 <= i < ENTRIES && 0 <= j < ENTRIES && i != j && #[trigger] present(self.dir@[i])
                && #[trigger] present(self.dir@[j]) ==> frame_of(self.dir@[i]) != frame_of(self.dir@[j])
        &&& self.next_table % PAGE_SIZE == 0
        &&& self.next_table <= u32::MAX
    }

    /// The page tables as values.
    pub open spec fn tables_view(&self) -> Map<u32, Seq<u32>> {
        self.tables@.map_values(|v: Vec<u32>| v@)
    }

    /// The page-table entry for directory slot `i`, table slot `j`: `None`
    /// when the directory entry is not present.
    pub open spec fn entry(&self, i: int, j: int) -> Option<u32> {
        if present(self.dir@[i]) {
            Some(self.tables_view()[frame_of(self.dir@[i])][j])
        } else {
            None
        }
    }

    /// The entry that translates `virt`.
    pub open spec fn lookup(&self, virt: usize) -> Option<u32> {
        self.entry(dir_index(virt), table_index(virt))
    }
}

pub proof fn lemma_indices(virt: usize)
    ensures
        0 <= dir_index(virt) < 1024,
        0 <= table_index(virt) < 1024,
{
    assert((virt >> 22usize) & 0x3FFusize <= 0x3FFusize) by (bit_vector);
    assert((virt >> 12usize) & 0x3FFusize <= 0x3FFusize) by (bit_vector);
}

/// An entry built on a page-aligned address keeps that address and, with
/// the present bit set, is present.
proof fn lemma_entry_bits(addr: u32, flags: u32, bit: u32)
    requires
        addr % 4096 == 0,
        flags <= 0xFFF,
        bit <= 0xFFF,
        bit & 1u32 == 1u32,
    ensures
        frame_of(addr | flags | bit) == addr,
        present(addr | flags | bit),
{
    assert(addr & 0xFFFu32 == addr % 4096) by (bit_vector);
    assert((addr | flags | bit) & !0xFFFu32 == addr) by (bit_vector)
        requires
            addr & 0xFFFu32 == 0,
            flags <= 0xFFF,
            bit <= 0xFFF,
    ;
    assert((addr | flags | bit) & 1u32 == 1u32) by (bit_vector)
        requires
            bit & 1u32 == 1u32,
    ;
}

proof fn lemma_identity_table(i: int)
    requires
        0 <= i < 256,
    ensures
        identity_table(i) == PAGE_TABLES + i * 4096,
        identity_table(i) % 4096 == 0,
        frame_of(identity_table(i) | 0u32 | 3u32) == identity_table(i),
        present(identity_table(i) | 0u32 | 3u32),
{
    assert((PAGE_TABLES + i * 4096) % 4096 == 0) by (nonlinear_arith)
        requires
            0 <= i,
    ;
    assert(3u32 & 1u32 == 1u32) by (bit_vector);
    lemma_entry_bits(identity_table(i), 0, 3);
}

/// Builds the boot mapping: the first 256 directory entries name tables
/// that identity-map the first gigabyte, read-write; the rest are empty.
pub fn init() -> (pt: PageTables)
    ensures
        pt.wf(),
        pt.next_table == PAGE_TABLES + IDENTITY_TABLES * PAGE_SIZE,
        forall|i: int, j: int| 0 <= i < 256 && 0 <= j < 1024 ==> #[trigger] pt.entry(i, j) == Some(identity_entry(i, j)),
        forall|i: int, j: int| 256 <= i < 1024 && 0 <= j < 1024 ==> #[trigger] pt.entry(i, j) is None,
{
    let mut dir: Vec<u32> = Vec::new();
    let mut k: usize = 0;
    while k < ENTRIES
        invariant
            k <= ENTRIES,
            dir@.len() == k,
            forall|a: int| 0 <= a < k ==> dir@[a] == 0,
        decreases ENTRIES - k,
    {
        dir.push(0);
        k += 1;
    }
    let mut tables: BTreeMap<u32, Vec<u32>> = BTreeMap::new();
    let mut i: usize = 0;
    while i < IDENTITY_TABLES
        invariant
            i <= IDENTITY_TABLES,
            dir@.len() == ENTRIES,
            forall|a: int| 0 <= a < i ==> #[trigger] dir@[a] == identity_table(a) | 0u32 | 3u32,
            forall|a: int| i <= a < ENTRIES ==> #[trigger] dir@[a] == 0,
            forall|t: u32| #[trigger] tables@.contains_key(t) ==> PAGE_TABLES <= t < PAGE_TABLES + i * 4096
                && tables@[t]@.len() == ENTRIES,
            forall|a: int| 0 <= a < i ==> #[trigger] tables@.contains_key(identity_table(a)),
            forall|a: int, j: int| 0 <= a < i && 0 <= j < 1024 ==> #[trigger] tables@[identity_table(a)]@[j]
                == identity_entry(a, j),
        decreases IDENTITY_TABLES - i,
    {
        let base = PAGE_TABLES + i * PAGE_SIZE;
        proof {
            lemma_identity_table(i as int);
        }
        dir.set(i, base as u32 | 3);
        let mut table: Vec<u32> = Vec::new();
        let mut j: usize = 0;
        while j < ENTRIES
            invariant
                i < IDENTITY_TABLES,
                j <= ENTRIES,
                table@.len() == j,
                forall|b: int| 0 <= b < j ==> #[trigger] table@[b] == identity_entry(i as int, b),
            decreases ENTRIES - j,
        {
            let phys_addr = (i * 1024 + j) * PAGE_SIZE;
            table.push(phys_addr as u32 | 3);
            j += 1;
        }
        tables.insert(base as u32, table);
        proof {
            assert(base as u32 == identity_table(i as int));
            assert forall|a: int, b: int| 0 <= a < i + 1 && 0 <= b < 1024 implies #[trigger] tables@[identity_table(a)]@[b]
                == identity_entry(a, b) by {
                if a < i {
                    lemma_identity_table(a);
                }
            }
            assert forall|a: int| 0 <= a < i + 1 implies #[trigger] dir@[a] == identity_table(a) | 0u32 | 3u32 by {
                if a == i {
                    assert((base as u32 | 3u32) == (base as u32 | 0u32 | 3u32)) by (bit_vector);
                }
            }
        }
        i += 1;
    }
    let pt = PageTables { dir, tables, next_table: PAGE_TABLES + IDENTITY_TABLES * PAGE_SIZE };
    proof {
        assert forall|a: int| 0 <= a < ENTRIES && #[trigger] present(pt.dir@[a]) implies pt.tables@.contains_key(
            frame_of(pt.dir@[a]),
        ) && a < 256 && frame_of(pt.dir@[a]) == identity_table(a) by {
            if a >= 256 {
                assert(!present(0u32)) by (bit_vector);
            } else {
                lemma_identity_table(a);
            }
        }
        assert forall|a: int, b: int|
            0 <= a < ENTRIES && 0 <= b < ENTRIES && a != b && #[trigger] present(pt.dir@[a])
                && #[trigger] present(pt.dir@[b]) implies frame_of(pt.dir@[a]) != frame_of(pt.dir@[b]) by {
            lemma_identity_table(a);
            lemma_identity_table(b);
        }
        assert forall|a: int, b: int| 0 <= a < 256 && 0 <= b < 1024 implies #[trigger] pt.entry(a, b) == Some(
            identity_entry(a, b),
        ) by {
            lemma_identity_table(a);
        }
        assert forall|a: int, b: int| 256 <= a < 1024 && 0 <= b < 1024 implies #[trigger] pt.entry(a, b) is None by {
            assert(!present(0u32)) by (bit_vector);
        }
    }
    pt
}

impl PageTables {
    /// Takes the next table address and adds a zeroed table there.
    fn allocate_page_table(&mut self) -> (addr: usize)
        requires
            old(self).wf(),
            old(self).next_table + PAGE_SIZE <= u32::MAX,
        ensures
            addr == old(self).next_table,
            final(self).next_table == old(self).next_table + PAGE_SIZE,
            final(self).dir@ == old(self).dir@,
            final(self).tables_view() == old(self).tables_view().insert(addr as u32, Seq::new(1024, |k: int| 0u32)),
            final(self).wf(),
    {
        let addr = self.next_table;
        self.next_table = addr + PAGE_SIZE;
        let mut table: Vec<u32> = Vec::new();
        let mut k: usize = 0;
        while k < PAGE_SIZE / 4
            invariant
                k <= ENTRIES,
                table@ == Seq::new(k as nat, |b: int| 0u32),
            decreases ENTRIES - k,
        {
            table.push(0);
            k += 1;
            proof {
                assert(table@ =~= Seq::new(k as nat, |b: int| 0u32));
            }
        }
        self.tables.insert(addr as u32, table);
        proof {
            assert(self.tables_view() =~= old(self).tables_view().insert(addr as u32, Seq::new(1024, |b: int| 0u32)));
        }
        addr
    }
}

impl PageTables {
    /// Maps the page of `virt` to the frame `phys` with `flags`. When the
    /// directory has no table for the address, a zeroed one is allocated at
    /// `next_table` and entered with the same flags.
    pub fn map_page(&mut self, virt: usize, phys: usize, flags: u32)
        requires
            old(self).wf(),
            !present(old(self).dir@[dir_index(virt)]) ==> flags <= 0xFFF && old(self).next_table + PAGE_SIZE <= u32::MAX,
        ensures
            final(self).wf(),
            final(self).lookup(virt) == Some(page_entry(phys, flags)),
            ({
                let d = dir_index(virt);
                let had = present(old(self).dir@[d]);
                &&& final(self).dir@ == (if had {
                    old(self).dir@
                } else {
                    old(self).dir@.update(d, (old(self).next_table as u32) | flags | 1u32)
                })
                &&& final(self).next_table == (if had { old(self).next_table } else { (old(self).next_table + PAGE_SIZE) as usize })
                &&& forall|i: int, j: int| 0 <= i < ENTRIES && 0 <= j < ENTRIES && i != d
                    ==> #[trigger] final(self).entry(i, j) == old(self).entry(i, j)
                &&& forall|j: int| 0 <= j < ENTRIES && j != table_index(virt)
                    ==> #[trigger] final(self).entry(d, j) == (if had { old(self).entry(d, j) } else { Some(0u32) })
            }),
    {
        let pd = (virt >> 22) & 0x3FF;
        let pt = (virt >> 12) & 0x3FF;
        proof {
            lemma_indices(virt);
        }
        let pd_entry = self.dir[pd];
        proof {
            assert(pd_entry & 1u32 == 0u32 || pd_entry & 1u32 == 1u32) by (bit_vector);
        }
        let ghost mid_tables: Map<u32, Seq<u32>>;
        let table: u32 = if pd_entry & 1 == 0 {
            let new_table = self.allocate_page_table();
            proof {
                assert(1u32 & 1u32 == 1u32) by (bit_vector);
                lemma_entry_bits(new_table as u32, flags, 1);
            }
            self.dir.set(pd, new_table as u32 | flags | 1);
            proof {
                assert(self.tables_view().contains_key(new_table as u32));
                assert(self.tables@.contains_key(new_table as u32));
            }
            new_table as u32
        } else {
            proof {
                assert(present(self.dir@[pd as int]));
                assert(self.tables@.contains_key(frame_of(self.dir@[pd as int])));
            }
            pd_entry & !0xFFF
        };
        proof {
            mid_tables = self.tables_view();
            assert(self.tables@.contains_key(table));
        }
        let mut entries = self.tables.remove(&table).unwrap();
        entries.set(pt, phys as u32 | flags | 1);
        self.tables.insert(table, entries);
        proof {
            assert(self.tables_view() =~= mid_tables.insert(table, mid_tables[table].update(pt as int, page_entry(phys, flags))));
            let d = pd as int;
            assert forall|i: int| 0 <= i < ENTRIES && #[trigger] present(self.dir@[i]) implies self.tables@.contains_key(
                frame_of(self.dir@[i]),
            ) by {
                if i != d {
                    assert(present(old(self).dir@[i]));
                }
            }
            assert forall|i: int, j: int|
                0 <= i < ENTRIES && 0 <= j < ENTRIES && i != j && #[trigger] present(self.dir@[i])
                    && #[trigger] present(self.dir@[j]) implies frame_of(self.dir@[i]) != frame_of(self.dir@[j]) by {
                if i != d {
                    assert(present(old(self).dir@[i]));
                }
                if j != d {
                    assert(present(old(self).dir@[j]));
                }
            }
            assert forall|i: int, j: int| 0 <= i < ENTRIES && 0 <= j < ENTRIES && i != d
                implies #[trigger] self.entry(i, j) == old(self).entry(i, j) by {
                if present(old(self).dir@[i]) {
                    assert(frame_of(old(self).dir@[i]) != table);
                }
            }
        }
    }
}

} // verus!
