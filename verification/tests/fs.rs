use wishy::drivers::block::{BlockDevice, BlockRegistry, Disk, InitrdDevice, RamDisk, read_sectors, register};
use wishy::fs::cache::{BlockCache, CACHE_SIZE, flush, read_block, write_block};
use wishy::fs::ext2::bitmap::{allocate_inode, find_free_bit, free_inode};
use wishy::fs::ext2::directory::{ROOT_INODE, add_entry, append_entry, find_entry, list_entries, lookup, split_path};
use wishy::fs::ext2::inode::{Inode, inode_to_bytes, parse_inode, read_inode, write_inode};
use wishy::fs::ext2::journal::{Journal, begin_transaction, commit_transaction, log_write, rollback_transaction};
use wishy::fs::ext2::permissions::{check_permission, set_owner, set_permissions};
use wishy::fs::ext2::superblock::{Superblock, parse_superblock, read_superblock, superblock_to_bytes};
use wishy::fs::mount::{MountTable, create_file, delete_file, mount_root, read_dir, read_file, stat, write_file};
use wishy::fs::store::Storage;

fn superblock() -> Superblock {
    Superblock {
        inodes_count: 32,
        blocks_count: 64,
        reserved_blocks: 0,
        free_blocks: 30,
        free_inodes: 28,
        first_data_block: 1,
        log_block_size: 0,
        log_frag_size: 0,
        blocks_per_group: 64,
        frags_per_group: 64,
        inodes_per_group: 32,
        mtime: 0,
        wtime: 0,
        mnt_count: 0,
        max_mnt_count: 20,
        magic: 0xEF53,
        state: 1,
        errors: 1,
        minor_rev: 0,
        lastcheck: 0,
        checkinterval: 0,
        creator_os: 0,
        rev_level: 0,
        def_resuid: 0,
        def_resgid: 0,
    }
}

fn inode(mode: u16, size: u32, first_block: u32) -> Inode {
    let mut block = [0u32; 15];
    block[0] = first_block;
    Inode {
        mode,
        uid: 1000,
        size,
        atime: 0,
        ctime: 0,
        mtime: 0,
        dtime: 0,
        gid: 100,
        links_count: 1,
        blocks: 2,
        flags: 0,
        osd1: 0,
        block,
        generation: 0,
        file_acl: 0,
        dir_acl: 0,
        faddr: 0,
        osd2: [0; 12],
    }
}

fn put_sector(disk: &mut RamDisk, sector: u64, data: &[u8; 512]) {
    disk.write(sector, 1, data).unwrap();
}

/// A one-group ext2 image: block bitmap at sector 10, inode bitmap at
/// sector 12, inode table from sector 20; the root directory (inode 2) in
/// block 30 holds "hello" (inode 3, "hello world" in block 31).
fn image_disk() -> RamDisk {
    let mut disk = RamDisk::new();
    put_sector(&mut disk, 2, &superblock_to_bytes(&superblock()));
    let mut bgd = [0u8; 512];
    bgd[0..4].copy_from_slice(&10u32.to_le_bytes());
    bgd[4..8].copy_from_slice(&12u32.to_le_bytes());
    bgd[8..12].copy_from_slice(&20u32.to_le_bytes());
    put_sector(&mut disk, 4, &bgd);
    let mut bbm = [0u8; 512];
    bbm[0..4].copy_from_slice(&[0xff; 4]);
    put_sector(&mut disk, 10, &bbm);
    let mut ibm = [0u8; 512];
    ibm[0] = 0x0f;
    put_sector(&mut disk, 12, &ibm);
    let mut table = [0u8; 512];
    inode_to_bytes(&inode(0x41ED, 16, 30), &mut table, 128);
    inode_to_bytes(&inode(0x81A4, 11, 31), &mut table, 256);
    put_sector(&mut disk, 20, &table);
    let mut dir = Vec::new();
    append_entry(&mut dir, b"hello", 3, 1);
    assert_eq!(dir.len(), 16);
    let mut sec = [0u8; 512];
    sec[..16].copy_from_slice(&dir);
    put_sector(&mut disk, 60, &sec);
    let mut sec = [0u8; 512];
    sec[..11].copy_from_slice(b"hello world");
    put_sector(&mut disk, 62, &sec);
    disk
}

fn image() -> Storage {
    let mut reg = BlockRegistry::new();
    register(&mut reg, Disk::Ram(image_disk()));
    Storage { cache: BlockCache::new(), reg }
}

/// The same file system as a read-only image of its first `sectors`
/// sectors.
fn initrd_image(sectors: usize) -> Storage {
    let disk = image_disk();
    let mut data = vec![0u8; sectors * 512];
    disk.read(0, sectors, &mut data).unwrap();
    let mut reg = BlockRegistry::new();
    register(&mut reg, Disk::Initrd(InitrdDevice { data }));
    Storage { cache: BlockCache::new(), reg }
}

fn mounted() -> (MountTable, Storage) {
    let mut storage = image();
    let mut table = MountTable::new();
    mount_root(&mut table, &mut storage);
    (table, storage)
}

#[test]
fn superblock_round_trip() {
    let sb = superblock();
    let bytes = superblock_to_bytes(&sb);
    assert_eq!(&bytes[56..58], &[0x53, 0xEF]);
    let back = parse_superblock(&bytes);
    assert_eq!(back.magic, 0xEF53);
    assert_eq!(back.inodes_per_group, 32);
    assert_eq!(back.block_size(), 1024);
    assert_eq!(back.blocks_per_group(), 64);
    assert_eq!(back.inodes_per_group(), 32);
}

#[test]
fn inode_round_trip() {
    let mut buf = [0xAAu8; 512];
    let i = inode(0x81A4, 1234, 77);
    inode_to_bytes(&i, &mut buf, 128);
    let back = parse_inode(&buf, 128);
    assert_eq!((back.mode, back.uid, back.size, back.gid, back.block[0]), (0x81A4, 1000, 1234, 100, 77));
    // the bytes outside the inode stay
    assert_eq!(buf[127], 0xAA);
    assert_eq!(buf[264], 0xAA);
}

#[test]
fn mount_and_read() {
    let (table, mut storage) = mounted();
    assert_eq!(table.root.as_ref().unwrap().superblock.magic, 0xEF53);
    assert_eq!(read_file(&table, &mut storage, "/hello"), Ok(b"hello world".to_vec()));
    assert!(read_file(&table, &mut storage, "/missing").is_err());
    // a directory is not a file
    assert!(read_file(&table, &mut storage, "/").is_err());
    let s = stat(&table, &mut storage, "/hello").unwrap();
    assert_eq!((s.size, s.mode, s.uid, s.gid, s.is_dir), (11, 0x81A4, 1000, 100, false));
    assert!(stat(&table, &mut storage, "/").unwrap().is_dir);
}

#[test]
fn read_from_an_image() {
    let mut storage = initrd_image(64);
    let mut table = MountTable::new();
    mount_root(&mut table, &mut storage);
    assert_eq!(read_file(&table, &mut storage, "/hello"), Ok(b"hello world".to_vec()));
    assert_eq!(stat(&table, &mut storage, "/hello").unwrap().size, 11);
}

#[test]
fn image_too_short_for_the_data_is_an_error() {
    // the image ends before the file's data block
    let mut storage = initrd_image(62);
    let mut table = MountTable::new();
    mount_root(&mut table, &mut storage);
    assert_eq!(stat(&table, &mut storage, "/hello").unwrap().size, 11);
    assert_eq!(read_file(&table, &mut storage, "/hello"), Err(()));
}

#[test]
fn nothing_mounted_is_an_error() {
    let mut storage = image();
    let table = MountTable::new();
    assert!(read_file(&table, &mut storage, "/hello").is_err());
    assert!(stat(&table, &mut storage, "/hello").is_err());
}

#[test]
fn write_then_read_back() {
    let (table, mut storage) = mounted();
    let data: Vec<u8> = (0..2000u32).map(|i| (i % 251) as u8).collect();
    assert!(write_file(&table, &mut storage, "/hello", &data).is_ok());
    assert_eq!(read_file(&table, &mut storage, "/hello"), Ok(data.clone()));
    assert_eq!(stat(&table, &mut storage, "/hello").unwrap().size, 2000);
    // the new block came from the bitmap: block 32
    let dev = &mut storage;
    let ino = read_inode(dev, 0, 3).unwrap();
    assert_eq!(ino.block[1], 32);
}

#[test]
fn create_list_and_delete() {
    let (table, mut storage) = mounted();
    assert!(create_file(&table, &mut storage, "/notes", 0x81A4, 5, 6).is_ok());
    let s = stat(&table, &mut storage, "/notes").unwrap();
    assert_eq!((s.size, s.mode, s.uid, s.gid), (0, 0x81A4, 5, 6));
    assert_eq!(lookup(&mut storage, 0, "/notes"), Ok(5));
    let entries = read_dir(&table, &mut storage, "/").unwrap();
    assert_eq!(entries.len(), 2);
    assert_eq!(&entries[0].name[..entries[0].name_len], b"hello");
    assert_eq!(&entries[1].name[..entries[1].name_len], b"notes");
    assert_eq!(entries[1].inode, 5);
    assert!(create_file(&table, &mut storage, "/", 0x81A4, 0, 0).is_err());
    assert!(delete_file(&table, &mut storage, "/notes").is_ok());
    assert!(delete_file(&table, &mut storage, "/nothing").is_err());
}

#[test]
fn lookup_of_root_and_paths() {
    let (_, mut storage) = mounted();
    assert_eq!(lookup(&mut storage, 0, "/"), Ok(ROOT_INODE));
    assert_eq!(lookup(&mut storage, 0, "//hello/"), Ok(3));
    assert!(lookup(&mut storage, 0, "/hello/x").is_err());
}

#[test]
fn split_path_skips_empty_parts() {
    assert_eq!(split_path(b"/a//bc/"), vec![(1, 2), (4, 6)]);
    assert_eq!(split_path(b"///"), vec![]);
}

#[test]
fn directory_entries() {
    let mut d = Vec::new();
    append_entry(&mut d, b"ab", 7, 1);
    append_entry(&mut d, b"file.txt", 9, 1);
    assert_eq!(d.len(), 12 + 16);
    assert_eq!(&d[0..8], &[7, 0, 0, 0, 12, 0, 2, 1]);
    assert_eq!(find_entry(&d, b"file.txt"), Some(9));
    assert_eq!(find_entry(&d, b"a"), None);
    let l = list_entries(&d);
    assert_eq!(l.len(), 2);
    assert_eq!((l[0].inode, l[0].name_len, l[1].inode), (7, 2, 9));
}

#[test]
fn bitmap_first_free_bit() {
    let mut buf = [0xffu8; 512];
    assert_eq!(find_free_bit(&buf), None);
    buf[3] = 0b1110_1111;
    assert_eq!(find_free_bit(&buf), Some((3, 4)));
}

#[test]
fn inode_write_then_read() {
    let (_, mut storage) = mounted();
    let i = inode(0x81FF, 42, 40);
    assert!(write_inode(&mut storage, 0, 6, &i).is_ok());
    let back = read_inode(&mut storage, 0, 6).unwrap();
    assert_eq!((back.mode, back.size, back.block[0]), (0x81FF, 42, 40));
    assert_eq!(read_superblock(&mut storage, 0).magic, 0xEF53);
}

#[test]
fn permissions() {
    let mut i = inode(0o100640, 0, 0);
    assert!(check_permission(&i, 1000, 1, true, true, false));
    assert!(!check_permission(&i, 1000, 1, false, false, true));
    assert!(check_permission(&i, 7, 100, true, false, false));
    assert!(!check_permission(&i, 7, 100, false, true, false));
    assert!(!check_permission(&i, 7, 8, true, false, false));
    assert!(check_permission(&i, 0, 0, true, true, true));
    set_permissions(&mut i.mode, 0o7755);
    assert_eq!(i.mode, 0o100755);
    set_owner(&mut i, 3, 4);
    assert_eq!((i.uid, i.gid), (3, 4));
}

#[test]
fn cache_reads_and_writes_back() {
    let mut reg = BlockRegistry::new();
    register(&mut reg, Disk::Ram(RamDisk::new()));
    let mut cache = BlockCache::new();
    let data = [9u8; 512];
    assert!(write_block(&mut cache, &mut reg, 0, 5, &data).is_ok());
    let mut out = [0u8; 512];
    assert!(read_block(&mut cache, &mut reg, 0, 5, &mut out).is_ok());
    assert_eq!(out, data);
    // not on the device until flushed
    let mut raw = [1u8; 512];
    read_sectors(&reg, 0, 5, 1, &mut raw).unwrap();
    assert_eq!(raw, [0u8; 512]);
    flush(&cache, &mut reg);
    read_sectors(&reg, 0, 5, 1, &mut raw).unwrap();
    assert_eq!(raw, data);
    // a second write to the sector is the one the next flush leaves
    assert!(write_block(&mut cache, &mut reg, 0, 5, &[7u8; 512]).is_ok());
    flush(&cache, &mut reg);
    read_sectors(&reg, 0, 5, 1, &mut raw).unwrap();
    assert_eq!(raw, [7u8; 512]);
    assert!(read_block(&mut cache, &mut reg, 3, 0, &mut out).is_err());
    assert_eq!(CACHE_SIZE, 256);
}

#[test]
fn cache_evicts_oldest_and_writes_it_back() {
    let mut reg = BlockRegistry::new();
    register(&mut reg, Disk::Ram(RamDisk::new()));
    let mut cache = BlockCache::new();
    for s in 0..(CACHE_SIZE as u64 + 1) {
        let data = [(s % 200) as u8 + 1; 512];
        write_block(&mut cache, &mut reg, 0, s, &data).unwrap();
    }
    assert_eq!(cache.entries.len(), CACHE_SIZE);
    let mut raw = [7u8; 512];
    // the oldest sector was written back when it left
    read_sectors(&reg, 0, 0, 1, &mut raw).unwrap();
    assert_eq!(raw, [1u8; 512]);
    read_sectors(&reg, 0, 1, 1, &mut raw).unwrap();
    assert_eq!(raw, [0u8; 512]);
}

#[test]
fn journal_commits_in_order() {
    let mut reg = BlockRegistry::new();
    register(&mut reg, Disk::Ram(RamDisk::new()));
    let mut j = Journal::new();
    begin_transaction(&mut j);
    log_write(&mut j, 0, 1, &[1u8; 512]);
    log_write(&mut j, 0, 1, &[2u8; 512]);
    commit_transaction(&j, &mut reg);
    let mut raw = [0u8; 512];
    read_sectors(&reg, 0, 1, 1, &mut raw).unwrap();
    assert_eq!(raw, [2u8; 512]);
    rollback_transaction(&mut j);
    assert!(j.entries.is_empty());
    // a rolled-back write never reaches the disk
    begin_transaction(&mut j);
    log_write(&mut j, 0, 1, &[3u8; 512]);
    rollback_transaction(&mut j);
    commit_transaction(&j, &mut reg);
    read_sectors(&reg, 0, 1, 1, &mut raw).unwrap();
    assert_eq!(raw, [2u8; 512]);
}

fn sample_elf() -> Vec<u8> {
    let mut d = vec![0u8; 200];
    d[0..4].copy_from_slice(b"\x7fELF");
    d[24..28].copy_from_slice(&0x0804_8000u32.to_le_bytes());
    d[28..32].copy_from_slice(&52u32.to_le_bytes());
    d[42..44].copy_from_slice(&32u16.to_le_bytes());
    d[44..46].copy_from_slice(&1u16.to_le_bytes());
    d[52..56].copy_from_slice(&1u32.to_le_bytes());
    d[56..60].copy_from_slice(&84u32.to_le_bytes());
    d[60..64].copy_from_slice(&0x0804_8000u32.to_le_bytes());
    d[68..72].copy_from_slice(&16u32.to_le_bytes());
    d[72..76].copy_from_slice(&16u32.to_le_bytes());
    d
}

#[test]
fn load_init_reads_and_loads_sbin_init() {
    let mut storage = image();
    // root gets "sbin" (inode 3, now a directory) holding "init" (inode 5)
    let mut root = Vec::new();
    append_entry(&mut root, b"sbin", 3, 2);
    let mut sbin = Vec::new();
    append_entry(&mut sbin, b"init", 5, 1);
    let elf = sample_elf();
    let mut table = [0u8; 512];
    inode_to_bytes(&inode(0x41ED, root.len() as u32, 30), &mut table, 128);
    inode_to_bytes(&inode(0x41ED, sbin.len() as u32, 31), &mut table, 256);
    let mut table2 = [0u8; 512];
    inode_to_bytes(&inode(0x81ED, elf.len() as u32, 32), &mut table2, 0);
    let mut sectors: Vec<(u64, [u8; 512])> = vec![(20, table), (21, table2)];
    let mut s = [0u8; 512];
    s[..root.len()].copy_from_slice(&root);
    sectors.push((60, s));
    let mut s = [0u8; 512];
    s[..sbin.len()].copy_from_slice(&sbin);
    sectors.push((62, s));
    let mut s = [0u8; 512];
    s[..elf.len()].copy_from_slice(&elf);
    sectors.push((64, s));
    if let Disk::Ram(d) = &mut storage.reg.devices[0] {
        for (n, data) in sectors.iter() {
            d.write(*n, 1, data).unwrap();
        }
    }
    let mut mounts = MountTable::new();
    mount_root(&mut mounts, &mut storage);
    let mut pt = wishy::memory::paging::init();
    let mut st = wishy::exec::loader::LoaderState::new();
    let (img, loaded) = wishy::exec::loader::load_init(&mounts, &mut storage, &mut pt, &mut st);
    assert_eq!(img, Some(elf));
    let (entry, copies) = loaded.unwrap();
    assert_eq!(entry, 0x0804_8000);
    assert_eq!(copies.len(), 1);
    assert_eq!((copies[0].dest, copies[0].src_offset, copies[0].file_len, copies[0].zero_len), (0x0804_8000, 84, 16, 0));
}

#[test]
fn load_init_without_a_root_fails() {
    let mut storage = image();
    let mounts = MountTable::new();
    let mut pt = wishy::memory::paging::init();
    let mut st = wishy::exec::loader::LoaderState::new();
    let (img, loaded) = wishy::exec::loader::load_init(&mounts, &mut storage, &mut pt, &mut st);
    assert!(img.is_none());
    assert!(loaded.is_err());
}

#[test]
fn cache_reads_back_a_write_after_other_traffic() {
    let mut reg = BlockRegistry::new();
    register(&mut reg, Disk::Ram(RamDisk::new()));
    let mut cache = BlockCache::new();
    assert!(write_block(&mut cache, &mut reg, 0, 5, &[4u8; 512]).is_ok());
    assert!(write_block(&mut cache, &mut reg, 0, 6, &[6u8; 512]).is_ok());
    let mut out = [0u8; 512];
    assert!(read_block(&mut cache, &mut reg, 0, 7, &mut out).is_ok());
    assert!(read_block(&mut cache, &mut reg, 0, 5, &mut out).is_ok());
    assert_eq!(out, [4u8; 512]);
}

#[test]
fn journal_commit_repeats_in_order() {
    let mut reg = BlockRegistry::new();
    register(&mut reg, Disk::Ram(RamDisk::new()));
    let mut j = Journal::new();
    begin_transaction(&mut j);
    log_write(&mut j, 0, 3, &[1u8; 512]);
    log_write(&mut j, 0, 4, &[2u8; 512]);
    commit_transaction(&j, &mut reg);
    write_block_raw(&mut reg, 3, &[9u8; 512]);
    // a second commit performs the same writes again
    commit_transaction(&j, &mut reg);
    let mut raw = [0u8; 512];
    read_sectors(&reg, 0, 3, 1, &mut raw).unwrap();
    assert_eq!(raw, [1u8; 512]);
    read_sectors(&reg, 0, 4, 1, &mut raw).unwrap();
    assert_eq!(raw, [2u8; 512]);
}

fn write_block_raw(reg: &mut BlockRegistry, sector: u64, data: &[u8; 512]) {
    wishy::drivers::block::write_sectors(reg, 0, sector, 1, data).unwrap();
}

#[test]
fn added_entry_is_found() {
    let (_, mut storage) = mounted();
    assert_eq!(add_entry(&mut storage, 0, ROOT_INODE, "extra", 9, 1), Ok(()));
    assert_eq!(lookup(&mut storage, 0, "/extra"), Ok(9));
    assert_eq!(lookup(&mut storage, 0, "/hello"), Ok(3));
}

#[test]
fn free_clears_one_bit_and_repeats() {
    let mut storage = image();
    assert_eq!(free_inode(&mut storage, 0, 3), Ok(()));
    let b = storage.read(0, 12).unwrap();
    assert_eq!(b[0], 0x0b);
    assert!(b[1..].iter().all(|&x| x == 0));
    assert_eq!(free_inode(&mut storage, 0, 3), Ok(()));
    assert_eq!(storage.read(0, 12).unwrap(), b);
    // the lowest free bit is taken next: inode 3 again
    assert_eq!(allocate_inode(&mut storage, 0), Ok(3));
    assert_eq!(storage.read(0, 12).unwrap()[0], 0x0f);
}

#[test]
fn allocation_takes_the_lowest_free_inode() {
    let mut storage = image();
    assert_eq!(allocate_inode(&mut storage, 0), Ok(5));
    assert_eq!(storage.read(0, 12).unwrap()[0], 0x1f);
    assert_eq!(allocate_inode(&mut storage, 0), Ok(6));
    assert_eq!(storage.read(0, 12).unwrap()[0], 0x3f);
    assert!(storage.read(0, 12).unwrap()[1..].iter().all(|&x| x == 0));
}
