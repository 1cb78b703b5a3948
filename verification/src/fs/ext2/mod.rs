pub mod bitmap;
pub mod block;
pub mod directory;
pub mod inode;
pub mod journal;
pub mod layout;
pub mod permissions;
pub mod read;
pub mod superblock;
pub mod write;

use vstd::prelude::*;
use vstd::string::StringSliceAdditionalSpecFns;
use crate::fs::{DirEntry, FileStat, Filesystem, dir_entry_is};
use crate::fs::store::{Storage, Store};
use crate::fs::ext2::directory::{lookup, lookup_spec, read_directory, read_directory_spec};
use crate::fs::ext2::inode::{read_inode, read_inode_spec};
use crate::fs::ext2::read::{MODE_DIR, read_file_spec};
use crate::fs::ext2::superblock::{Superblock, read_superblock, read_superblock_spec};
use crate::fs::ext2::write::{create_file_spec, delete_file_spec, write_file_spec};

verus! {

/// An ext2 file system on a device, with the superblock read at mount.
pub struct Ext2Filesystem {
    pub device: usize,
    pub superblock: Superblock,
}

/// What `stat` gives for the file a path names: size, mode, owner, and
/// whether it is a directory.
pub open spec fn stat_spec(st: Store, d: usize, p: Seq<u8>) -> Option<(Result<FileStat, ()>, Store)> {
    match lookup_spec(st, d, p) {
        None => None,
        Some((Err(e), st1)) => Some((Err(e), st1)),
        Some((Ok(n), st1)) => match read_inode_spec(st1, d, n) {
            None => None,
            Some((Err(e), st2)) => Some((Err(e), st2)),
            Some((Ok(x), st2)) => Some((
                Ok(FileStat { size: x.size as u64, mode: x.mode, uid: x.uid, gid: x.gid, is_dir: x.mode & MODE_DIR != 0 }),
                st2,
            )),
        },
    }
}

impl Ext2Filesystem {
    /// Mounts the file system on `device`: reads its superblock.
    pub fn new(storage: &mut Storage, device: usize) -> (fs: Self)
        requires
            old(storage).wf(),
            read_superblock_spec(old(storage).store(), device) is Some,
        ensures
            final(storage).wf(),
            fs.device == device,
            read_superblock_spec(old(storage).store(), device) == Some((fs.superblock, final(storage).store())),
    {
        let sb = read_superblock(storage, device);
        Ext2Filesystem { device, superblock: sb }
    }
}

impl Filesystem for Ext2Filesystem {
    open spec fn read_file_spec(&self, st: Store, path: Seq<u8>) -> Option<(Result<Seq<u8>, ()>, Store)> {
        read_file_spec(st, self.device, path)
    }

    open spec fn write_file_spec(&self, st: Store, path: Seq<u8>, data: Seq<u8>) -> Option<(Result<(), ()>, Store)> {
        write_file_spec(st, self.device, path, data)
    }

    open spec fn create_file_spec(&self, st: Store, path: Seq<u8>, mode: u16, uid: u32, gid: u32) -> Option<(Result<(), ()>, Store)> {
        create_file_spec(st, self.device, path, mode, uid, gid)
    }

    open spec fn delete_file_spec(&self, st: Store, path: Seq<u8>) -> Option<(Result<(), ()>, Store)> {
        delete_file_spec(st, self.device, path)
    }

    open spec fn stat_spec(&self, st: Store, path: Seq<u8>) -> Option<(Result<FileStat, ()>, Store)> {
        stat_spec(st, self.device, path)
    }

    open spec fn read_dir_spec(&self, st: Store, path: Seq<u8>) -> Option<(Result<Seq<(Seq<u8>, u32)>, ()>, Store)> {
        read_directory_spec(st, self.device, path)
    }

    fn read_file(&self, storage: &mut Storage, path: &str) -> (r: Result<Vec<u8>, ()>) {
        crate::fs::ext2::read::read_file(storage, self.device, path)
    }

    fn write_file(&self, storage: &mut Storage, path: &str, data: &[u8]) -> (r: Result<(), ()>) {
        crate::fs::ext2::write::write_file(storage, self.device, path, data)
    }

    fn create_file(&self, storage: &mut Storage, path: &str, mode: u16, uid: u32, gid: u32) -> (r: Result<(), ()>) {
        crate::fs::ext2::write::create_file(storage, self.device, path, mode, uid, gid)
    }

    fn delete_file(&self, storage: &mut Storage, path: &str) -> (r: Result<(), ()>) {
        crate::fs::ext2::write::delete_file(storage, self.device, path)
    }

    fn stat(&self, storage: &mut Storage, path: &str) -> (r: Result<FileStat, ()>) {
        let inode_num = match lookup(storage, self.device, path) {
            Ok(n) => n,
            Err(e) => {
                return Err(e);
            },
        };
        let inode = match read_inode(storage, self.device, inode_num) {
            Ok(i) => i,
            Err(e) => {
                return Err(e);
            },
        };
        Ok(FileStat {
            size: inode.size as u64,
            mode: inode.mode,
            uid: inode.uid,
            gid: inode.gid,
            is_dir: (inode.mode & MODE_DIR) != 0,
        })
    }

    fn read_dir(&self, storage: &mut Storage, path: &str) -> (r: Result<Vec<DirEntry>, ()>) {
        read_directory(storage, self.device, path)
    }
}

} // verus!
