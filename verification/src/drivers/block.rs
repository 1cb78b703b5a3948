use std::collections::BTreeMap;
use vstd::prelude::*;

verus! {

broadcast use vstd::std_specs::btree::group_btree_axioms;

pub const SECTOR_SIZE: usize = 512;

/// A sector-addressed storage device. A read of `count` sectors fills the
/// first `count * 512` bytes of the buffer; a write takes them from there.
pub trait BlockDevice {
    /// The bytes a read of `count` sectors from `sector` gives, or `None`
    /// where the read fails.
    spec fn spec_read(&self, sector: u64, count: nat) -> Option<Seq<u8>>;

    /// Whether the device accepts `count` sectors written at `sector`.
    spec fn spec_write_ok(&self, sector: u64, count: nat) -> bool;

    /// The reads on which the device's own arithmetic stays in range.
    spec fn spec_in_range(&self, sector: u64, count: nat) -> bool;

    /// The writes on which the device's own arithmetic stays in range.
    spec fn spec_write_in_range(&self, sector: u64, count: nat) -> bool;

    fn read(&self, sector: u64, count: usize, buffer: &mut [u8]) -> (r: Result<(), ()>)
        requires
            count * SECTOR_SIZE <= old(buffer)@.len(),
            self.spec_in_range(sector, count as nat),
        ensures
            match self.spec_read(sector, count as nat) {
                Some(d) => r is Ok && d.len() == count * SECTOR_SIZE
                    && final(buffer)@ == d + old(buffer)@.skip(count * SECTOR_SIZE),
                None => r is Err && final(buffer)@ == old(buffer)@,
            },
    ;

    fn write(&mut self, sector: u64, count: usize, buffer: &[u8]) -> (r: Result<(), ()>)
        requires
            count * SECTOR_SIZE <= buffer@.len(),
            old(self).spec_write_in_range(sector, count as nat),
        ensures
            r is Ok == old(self).spec_write_ok(sector, count as nat),
    ;

    fn sector_size(&self) -> (n: usize)
        ensures
            n == SECTOR_SIZE,
    ;
}

/// Sector `s` of a RAM disk's contents: what was written there, else zeros.
pub open spec fn ram_sector(m: Map<u64, Seq<u8>>, s: int) -> Seq<u8> {
    if m.contains_key(s as u64) { m[s as u64] } else { Seq::new(512, |i: int| 0u8) }
}

/// `count` sectors of a RAM disk from `sector` on.
pub open spec fn ram_read(m: Map<u64, Seq<u8>>, sector: int, count: int) -> Seq<u8>
    decreases count,
{
    if count <= 0 { Seq::empty() } else { ram_read(m, sector, count - 1) + ram_sector(m, sector + count - 1) }
}

/// A RAM disk's contents after `count` sectors of `data` are written at `sector`.
pub open spec fn ram_write(m: Map<u64, Seq<u8>>, sector: int, data: Seq<u8>, count: int) -> Map<u64, Seq<u8>>
    decreases count,
{
    if count <= 0 {
        m
    } else {
        ram_write(m, sector, data, count - 1).insert(
            (sector + count - 1) as u64,
            data.subrange((count - 1) * 512, count * 512),
        )
    }
}

proof fn lemma_ram_read_len(m: Map<u64, Seq<u8>>, sector: int, count: int)
    requires
        forall|k: u64| m.contains_key(k) ==> #[trigger] m[k].len() == 512,
    ensures
        count >= 0 ==> ram_read(m, sector, count).len() == count * 512,
    decreases count,
{
    if count > 0 {
        lemma_ram_read_len(m, sector, count - 1);
    }
}

proof fn lemma_ram_write_sector(m: Map<u64, Seq<u8>>, sector: int, data: Seq<u8>, count: int, k: int)
    requires
        0 <= sector,
        0 <= k < count,
        sector + count <= u64::MAX + 1,
    ensures
        ram_write(m, sector, data, count).contains_key((sector + k) as u64),
        ram_write(m, sector, data, count)[(sector + k) as u64] == data.subrange(k * 512, (k + 1) * 512),
    decreases count,
{
    if k < count - 1 {
        lemma_ram_write_sector(m, sector, data, count - 1, k);
        assert((sector + k) as u64 != (sector + count - 1) as u64);
    }
}

proof fn lemma_ram_read_written(m: Map<u64, Seq<u8>>, sector: int, data: Seq<u8>, count: int, j: int)
    requires
        0 <= sector,
        0 <= j <= count,
        sector + count <= u64::MAX + 1,
        count * 512 <= data.len(),
    ensures
        ram_read(ram_write(m, sector, data, count), sector, j) == data.subrange(0, j * 512),
    decreases j,
{
    if j > 0 {
        lemma_ram_read_written(m, sector, data, count, j - 1);
        lemma_ram_write_sector(m, sector, data, count, j - 1);
        assert(data.subrange(0, j * 512) =~= data.subrange(0, (j - 1) * 512) + data.subrange((j - 1) * 512, j * 512));
    }
}

/// What is written to a RAM disk reads back: `count` sectors written at
/// `sector` read back as the first `count * 512` bytes written, whatever
/// the disk held before.
pub proof fn lemma_ram_read_after_write(m: Map<u64, Seq<u8>>, sector: u64, data: Seq<u8>, count: nat)
    requires
        count * 512 <= data.len(),
        sector + count <= u64::MAX + 1,
    ensures
        ram_read(ram_write(m, sector as int, data, count as int), sector as int, count as int) == data.subrange(0, (count * 512) as int),
{
    lemma_ram_read_written(m, sector as int, data, count as int, count as int);
}

/// An in-memory disk: sectors never written read as zeros.
pub struct RamDisk {
    pub sectors: BTreeMap<u64, [u8; 512]>,
}

impl RamDisk {
    /// The written sectors' contents.
    pub open spec fn contents(&self) -> Map<u64, Seq<u8>> {
        self.sectors@.map_values(|a: [u8; 512]| a@)
    }

    /// An empty disk: every sector reads as zeros.
    pub fn new() -> (d: Self)
        ensures
            d.contents() == Map::<u64, Seq<u8>>::empty(),
    {
        let d = RamDisk { sectors: BTreeMap::new() };
        proof {
            assert(d.contents() =~= Map::<u64, Seq<u8>>::empty());
        }
        d
    }
}

proof fn lemma_contents_sector_len(d: &RamDisk)
    ensures
        forall|k: u64| d.contents().contains_key(k) ==> #[trigger] d.contents()[k].len() == 512,
{
}

impl BlockDevice for RamDisk {
    open spec fn spec_read(&self, sector: u64, count: nat) -> Option<Seq<u8>> {
        Some(ram_read(self.contents(), sector as int, count as int))
    }

    open spec fn spec_write_ok(&self, sector: u64, count: nat) -> bool {
        true
    }

    open spec fn spec_in_range(&self, sector: u64, count: nat) -> bool {
        sector + count <= u64::MAX + 1
    }

    open spec fn spec_write_in_range(&self, sector: u64, count: nat) -> bool {
        sector + count <= u64::MAX + 1
    }

    /// Reads `count` sectors; unwritten ones read as zeros. Never fails.
    fn read(&self, sector: u64, count: usize, buffer: &mut [u8]) -> (r: Result<(), ()>) {
        let ghost m = self.contents();
        proof {
            lemma_contents_sector_len(self);
        }
        let blen = buffer.len();
        let mut i: usize = 0;
        while i < count
            invariant
                i <= count,
                blen == buffer@.len(),
                count * 512 <= buffer@.len(),
                buffer@.len() == old(buffer)@.len(),
                sector + count <= u64::MAX + 1,
                m == self.contents(),
                forall|k: u64| m.contains_key(k) ==> #[trigger] m[k].len() == 512,
                buffer@.subrange(0, i * 512) == ram_read(m, sector as int, i as int),
                buffer@.skip(i * 512) == old(buffer)@.skip(i * 512),
            decreases count - i,
        {
            let sector_num = sector + i as u64;
            let base = i * 512;
            let ghost before = buffer@;
            proof {
                lemma_ram_read_len(m, sector as int, i as int);
            }
            match self.sectors.get(&sector_num) {
                Some(data) => {
                    let mut j: usize = 0;
                    while j < 512
                        invariant
                            j <= 512,
                            base == i * 512,
                            base + 512 <= buffer@.len(),
                            buffer@.len() == before.len(),
                            forall|t: int| 0 <= t < base ==> buffer@[t] == before[t],
                            forall|t: int| base + 512 <= t < buffer@.len() ==> buffer@[t] == before[t],
                            forall|t: int| 0 <= t < j ==> buffer@[base + t] == data@[t],
                        decreases 512 - j,
                    {
                        buffer[base + j] = data[j];
                        j += 1;
                    }
                    proof {
                        assert(m.contains_key(sector_num));
                        assert(m[sector_num] == data@);
                        assert(buffer@.subrange(base as int, base + 512) =~= data@);
                    }
                },
                None => {
                    let mut j: usize = 0;
                    while j < 512
                        invariant
                            j <= 512,
                            base == i * 512,
                            base + 512 <= buffer@.len(),
                            buffer@.len() == before.len(),
                            forall|t: int| 0 <= t < base ==> buffer@[t] == before[t],
                            forall|t: int| base + 512 <= t < buffer@.len() ==> buffer@[t] == before[t],
                            forall|t: int| base <= t < base + j ==> buffer@[t] == 0u8,
                        decreases 512 - j,
                    {
                        buffer[base + j] = 0;
                        j += 1;
                    }
                    proof {
                        assert(!m.contains_key(sector_num));
                        assert(buffer@.subrange(base as int, base + 512) =~= Seq::new(512, |t: int| 0u8));
                    }
                },
            }
            proof {
                assert(ram_sector(m, sector + i) == buffer@.subrange(base as int, base + 512));
                assert(buffer@.subrange(0, (i + 1) * 512) =~= buffer@.subrange(0, i * 512) + buffer@.subrange(base as int, base + 512));
                assert(buffer@.subrange(0, i * 512) =~= before.subrange(0, i * 512));
                assert(buffer@.skip((i + 1) * 512) =~= old(buffer)@.skip((i + 1) * 512)) by {
                    assert forall|t: int| 0 <= t < buffer@.skip((i + 1) * 512).len() implies
                        #[trigger] buffer@.skip((i + 1) * 512)[t] == old(buffer)@.skip((i + 1) * 512)[t] by {
                        assert(buffer@[(i + 1) * 512 + t] == before[(i + 1) * 512 + t]);
                        assert(before.skip(i * 512)[512 + t] == old(buffer)@.skip(i * 512)[512 + t]);
                    }
                }
            }
            i += 1;
        }
        proof {
            lemma_ram_read_len(m, sector as int, count as int);
            assert(buffer@ =~= buffer@.subrange(0, count * 512) + buffer@.skip(count * 512));
        }
        Ok(())
    }

    /// Writes `count` sectors. Never fails.
    fn write(&mut self, sector: u64, count: usize, buffer: &[u8]) -> (r: Result<(), ()>)
        ensures
            final(self).contents() == ram_write(old(self).contents(), sector as int, buffer@, count as int),
    {
        let blen = buffer.len();
        let mut i: usize = 0;
        while i < count
            invariant
                i <= count,
                blen == buffer@.len(),
                count * 512 <= buffer@.len(),
                sector + count <= u64::MAX + 1,
                self.contents() == ram_write(old(self).contents(), sector as int, buffer@, i as int),
            decreases count - i,
        {
            let sector_num = sector + i as u64;
            let mut data = [0u8; 512];
            let base = i * 512;
            let mut j: usize = 0;
            while j < 512
                invariant
                    j <= 512,
                    base == i * 512,
                    base + 512 <= buffer@.len(),
                    data@.len() == 512,
                    forall|t: int| 0 <= t < j ==> data@[t] == buffer@[base + t],
                decreases 512 - j,
            {
                data[j] = buffer[base + j];
                j += 1;
            }
            let ghost prev = self.contents();
            self.sectors.insert(sector_num, data);
            proof {
                assert(data@ =~= buffer@.subrange(i * 512, (i + 1) * 512));
                assert(self.contents() =~= prev.insert(sector_num, data@));
            }
            i += 1;
        }
        Ok(())
    }

    fn sector_size(&self) -> (n: usize) {
        SECTOR_SIZE
    }
}

/// The initial RAM disk: a read-only image. A read past its end fails, and
/// so does every write.
pub struct InitrdDevice {
    pub data: Vec<u8>,
}

/// Where the image sits in memory, and how large it is.
pub const INITRD_START: usize = 0x400000;
pub const INITRD_SIZE: usize = 0x100000;

/// The byte range of `count` sectors from `sector` in the image (the sector
/// number is first taken as a `usize`).
pub open spec fn initrd_range(sector: u64, count: nat) -> (int, int) {
    let start = (sector as usize) * 512;
    (start, start + count * 512)
}

impl BlockDevice for InitrdDevice {
    open spec fn spec_read(&self, sector: u64, count: nat) -> Option<Seq<u8>> {
        let (start, end) = initrd_range(sector, count);
        if end > self.data@.len() { None } else { Some(self.data@.subrange(start, end)) }
    }

    open spec fn spec_write_ok(&self, sector: u64, count: nat) -> bool {
        false
    }

    open spec fn spec_in_range(&self, sector: u64, count: nat) -> bool {
        initrd_range(sector, count).1 <= usize::MAX
    }

    open spec fn spec_write_in_range(&self, sector: u64, count: nat) -> bool {
        true
    }

    /// Copies `count` sectors out of the image; fails past its end.
    fn read(&self, sector: u64, count: usize, buffer: &mut [u8]) -> (r: Result<(), ()>) {
        let start = (sector as usize) * 512;
        let end = start + (count * 512);
        if end > self.data.len() {
            return Err(());
        }
        let blen = buffer.len();
        let mut i: usize = 0;
        while i < count * 512
            invariant
                i <= count * 512,
                blen == buffer@.len(),
                count * 512 <= buffer@.len(),
                end == start + count * 512,
                end <= self.data@.len(),
                buffer@.len() == old(buffer)@.len(),
                forall|t: int| 0 <= t < i ==> buffer@[t] == self.data@[start + t],
                forall|t: int| i <= t < buffer@.len() ==> buffer@[t] == old(buffer)@[t],
            decreases count * 512 - i,
        {
            buffer[i] = self.data[start + i];
            i += 1;
        }
        proof {
            assert(buffer@ =~= self.data@.subrange(start as int, end as int) + old(buffer)@.skip(count * 512));
        }
        Ok(())
    }

    /// The image is read-only: always fails.
    fn write(&mut self, sector: u64, count: usize, buffer: &[u8]) -> (r: Result<(), ()>)
        ensures
            final(self).data@ == old(self).data@,
    {
        Err(())
    }

    fn sector_size(&self) -> (n: usize) {
        SECTOR_SIZE
    }
}

/// A registered device.
pub enum Disk {
    Ram(RamDisk),
    Initrd(InitrdDevice),
}

/// What a device holds, as a value: `(is a RAM disk, RAM disk contents,
/// image bytes)`.
pub type DiskView = (bool, Map<u64, Seq<u8>>, Seq<u8>);

impl Disk {
    pub open spec fn view(&self) -> DiskView {
        match self {
            Disk::Ram(r) => (true, r.contents(), Seq::empty()),
            Disk::Initrd(d) => (false, Map::empty(), d.data@),
        }
    }
}

/// A read from a device, by its view.
pub open spec fn view_read(v: DiskView, sector: u64, count: nat) -> Option<Seq<u8>> {
    if v.0 {
        Some(ram_read(v.1, sector as int, count as int))
    } else {
        let (start, end) = initrd_range(sector, count);
        if end > v.2.len() { None } else { Some(v.2.subrange(start, end)) }
    }
}

/// A device after a write, by its view (the image does not change).
pub open spec fn view_write(v: DiskView, sector: u64, data: Seq<u8>, count: nat) -> DiskView {
    if v.0 { (true, ram_write(v.1, sector as int, data, count as int), v.2) } else { v }
}

/// The arithmetic of a read stays in range.
pub open spec fn view_in_range(v: DiskView, sector: u64, count: nat) -> bool {
    if v.0 { sector + count <= u64::MAX + 1 } else { initrd_range(sector, count).1 <= usize::MAX }
}

/// The arithmetic of a write stays in range.
pub open spec fn view_write_in_range(v: DiskView, sector: u64, count: nat) -> bool {
    v.0 ==> sector + count <= u64::MAX + 1
}

impl BlockDevice for Disk {
    open spec fn spec_read(&self, sector: u64, count: nat) -> Option<Seq<u8>> {
        view_read(self.view(), sector, count)
    }

    open spec fn spec_write_ok(&self, sector: u64, count: nat) -> bool {
        self.view().0
    }

    open spec fn spec_in_range(&self, sector: u64, count: nat) -> bool {
        view_in_range(self.view(), sector, count)
    }

    open spec fn spec_write_in_range(&self, sector: u64, count: nat) -> bool {
        view_write_in_range(self.view(), sector, count)
    }

    fn read(&self, sector: u64, count: usize, buffer: &mut [u8]) -> (r: Result<(), ()>) {
        match self {
            Disk::Ram(d) => d.read(sector, count, buffer),
            Disk::Initrd(d) => d.read(sector, count, buffer),
        }
    }

    fn write(&mut self, sector: u64, count: usize, buffer: &[u8]) -> (r: Result<(), ()>)
        ensures
            final(self).view() == view_write(old(self).view(), sector, buffer@, count as nat),
    {
        match self {
            Disk::Ram(d) => d.write(sector, count, buffer),
            Disk::Initrd(d) => d.write(sector, count, buffer),
        }
    }

    fn sector_size(&self) -> (n: usize) {
        SECTOR_SIZE
    }
}

/// The registered devices, by index.
pub struct BlockRegistry {
    pub devices: Vec<Disk>,
}

impl BlockRegistry {
    pub fn new() -> (r: Self)
        ensures
            r.devices@.len() == 0,
    {
        BlockRegistry { devices: Vec::new() }
    }

    pub open spec fn view(&self) -> Seq<DiskView> {
        Seq::new(self.devices@.len(), |i: int| self.devices@[i].view())
    }
}

/// Nothing to set up.
pub fn init() {
}

/// Adds a device; it gets the next index.
pub fn register(reg: &mut BlockRegistry, device: Disk)
    ensures
        final(reg).view() == old(reg).view().push(device.view()),
{
    reg.devices.push(device);
    proof {
        assert(reg.view() =~= old(reg).view().push(device.view()));
    }
}

/// The device at `index`, if there is one.
pub fn get_device(reg: &BlockRegistry, index: usize) -> (r: Option<&Disk>)
    ensures
        index < reg.devices@.len() ==> r == Some(&reg.devices@[index as int]),
        index >= reg.devices@.len() ==> r is None,
{
    if index < reg.devices.len() {
        Some(&reg.devices[index])
    } else {
        None
    }
}

/// A read through the registry: fails when there is no such device.
pub open spec fn registry_read(v: Seq<DiskView>, device: usize, sector: u64, count: nat) -> Option<Seq<u8>> {
    if device < v.len() { view_read(v[device as int], sector, count) } else { None }
}

/// The registry after a write (a missing device: nothing changes).
pub open spec fn registry_write(v: Seq<DiskView>, device: usize, sector: u64, data: Seq<u8>, count: nat) -> Seq<DiskView> {
    if device < v.len() { v.update(device as int, view_write(v[device as int], sector, data, count)) } else { v }
}

/// The arithmetic of a transfer stays in range (a missing device: trivially).
pub open spec fn registry_in_range(v: Seq<DiskView>, device: usize, sector: u64, count: nat) -> bool {
    device < v.len() ==> view_in_range(v[device as int], sector, count)
}

/// The arithmetic of a write stays in range (a missing device: trivially).
pub open spec fn registry_write_in_range(v: Seq<DiskView>, device: usize, sector: u64, count: nat) -> bool {
    device < v.len() ==> view_write_in_range(v[device as int], sector, count)
}

/// Through the registry, a RAM disk gives back what was written to it:
/// reading the sectors just written yields the bytes written.
pub proof fn lemma_registry_read_after_write(v: Seq<DiskView>, device: usize, sector: u64, data: Seq<u8>, count: nat)
    requires
        device < v.len(),
        v[device as int].0,
        count * 512 <= data.len(),
        sector + count <= u64::MAX + 1,
    ensures
        registry_read(registry_write(v, device, sector, data, count), device, sector, count)
            == Some(data.subrange(0, (count * 512) as int)),
{
    lemma_ram_read_after_write(v[device as int].1, sector, data, count);
}

/// Reads `count` sectors from a registered device.
pub fn read_sectors(reg: &BlockRegistry, device: usize, sector: u64, count: usize, buffer: &mut [u8]) -> (r: Result<(), ()>)
    requires
        count * SECTOR_SIZE <= old(buffer)@.len(),
        registry_in_range(reg.view(), device, sector, count as nat),
    ensures
        match registry_read(reg.view(), device, sector, count as nat) {
            Some(d) => r is Ok && final(buffer)@ == d + old(buffer)@.skip(count * SECTOR_SIZE),
            None => r is Err && final(buffer)@ == old(buffer)@,
        },
{
    match get_device(reg, device) {
        Some(dev) => dev.read(sector, count, buffer),
        None => Err(()),
    }
}

/// Writes `count` sectors to a registered device; fails when there is no
/// such device or it refuses writes.
pub fn write_sectors(reg: &mut BlockRegistry, device: usize, sector: u64, count: usize, buffer: &[u8]) -> (r: Result<(), ()>)
    requires
        count * SECTOR_SIZE <= buffer@.len(),
        registry_write_in_range(old(reg).view(), device, sector, count as nat),
    ensures
        final(reg).view() == registry_write(old(reg).view(), device, sector, buffer@, count as nat),
        r is Ok == (device < old(reg).view().len() && old(reg).view()[device as int].0),
{
    if device < reg.devices.len() {
        let mut dev = reg.devices.remove(device);
        let r = dev.write(sector, count, buffer);
        reg.devices.insert(device, dev);
        proof {
            assert(reg.view() =~= registry_write(old(reg).view(), device, sector, buffer@, count as nat));
        }
        r
    } else {
        Err(())
    }
}

} // verus!
