pub mod cache;
pub mod ext2;
pub mod mount;
pub mod store;

use vstd::prelude::*;
use vstd::string::StringSliceAdditionalSpecFns;
use crate::fs::store::{Storage, Store};

verus! {

/// What `stat` tells of a file.
#[derive(Clone, Copy)]
pub struct FileStat {
    pub size: u64,
    pub mode: u16,
    pub uid: u32,
    pub gid: u32,
    pub is_dir: bool,
}

/// A directory entry: its name in the first `name_len` bytes of `name`,
/// and its inode.
pub struct DirEntry {
    pub name: [u8; 256],
    pub name_len: usize,
    pub inode: u32,
}

/// A mounted file system over the sector cache. Each operation is
/// described by a spec function of the implementation: `None` where the
/// operation would fail an arithmetic bound, else its result and the store
/// after it.
pub trait Filesystem {
    spec fn read_file_spec(&self, st: Store, path: Seq<u8>) -> Option<(Result<Seq<u8>, ()>, Store)>;

    spec fn write_file_spec(&self, st: Store, path: Seq<u8>, data: Seq<u8>) -> Option<(Result<(), ()>, Store)>;

    spec fn create_file_spec(&self, st: Store, path: Seq<u8>, mode: u16, uid: u32, gid: u32) -> Option<(Result<(), ()>, Store)>;

    spec fn delete_file_spec(&self, st: Store, path: Seq<u8>) -> Option<(Result<(), ()>, Store)>;

    spec fn stat_spec(&self, st: Store, path: Seq<u8>) -> Option<(Result<FileStat, ()>, Store)>;

    spec fn read_dir_spec(&self, st: Store, path: Seq<u8>) -> Option<(Result<Seq<(Seq<u8>, u32)>, ()>, Store)>;

    fn read_file(&self, storage: &mut Storage, path: &str) -> (r: Result<Vec<u8>, ()>)
        requires
            old(storage).wf(),
            self.read_file_spec(old(storage).store(), path.spec_bytes()) is Some,
        ensures
            final(storage).wf(),
            self.read_file_spec(old(storage).store(), path.spec_bytes()) == Some((
                match r {
                    Ok(v) => Ok::<Seq<u8>, ()>(v@),
                    Err(e) => Err::<Seq<u8>, ()>(e),
                },
                final(storage).store(),
            )),
    ;

    fn write_file(&self, storage: &mut Storage, path: &str, data: &[u8]) -> (r: Result<(), ()>)
        requires
            old(storage).wf(),
            self.write_file_spec(old(storage).store(), path.spec_bytes(), data@) is Some,
        ensures
            final(storage).wf(),
            self.write_file_spec(old(storage).store(), path.spec_bytes(), data@) == Some((r, final(storage).store())),
    ;

    fn create_file(&self, storage: &mut Storage, path: &str, mode: u16, uid: u32, gid: u32) -> (r: Result<(), ()>)
        requires
            old(storage).wf(),
            self.create_file_spec(old(storage).store(), path.spec_bytes(), mode, uid, gid) is Some,
        ensures
            final(storage).wf(),
            self.create_file_spec(old(storage).store(), path.spec_bytes(), mode, uid, gid) == Some((r, final(storage).store())),
    ;

    fn delete_file(&self, storage: &mut Storage, path: &str) -> (r: Result<(), ()>)
        requires
            old(storage).wf(),
            self.delete_file_spec(old(storage).store(), path.spec_bytes()) is Some,
        ensures
            final(storage).wf(),
            self.delete_file_spec(old(storage).store(), path.spec_bytes()) == Some((r, final(storage).store())),
    ;

    fn stat(&self, storage: &mut Storage, path: &str) -> (r: Result<FileStat, ()>)
        requires
            old(storage).wf(),
            self.stat_spec(old(storage).store(), path.spec_bytes()) is Some,
        ensures
            final(storage).wf(),
            self.stat_spec(old(storage).store(), path.spec_bytes()) == Some((r, final(storage).store())),
    ;

    fn read_dir(&self, storage: &mut Storage, path: &str) -> (r: Result<Vec<DirEntry>, ()>)
        requires
            old(storage).wf(),
            self.read_dir_spec(old(storage).store(), path.spec_bytes()) is Some,
        ensures
            final(storage).wf(),
            match self.read_dir_spec(old(storage).store(), path.spec_bytes()) {
                Some((Ok(list), st)) => st == final(storage).store() && (r matches Ok(v) && v@.len() == list.len()
                    && forall|k: int| 0 <= k < v@.len() ==> dir_entry_is(#[trigger] v@[k], list[k].0, list[k].1)),
                Some((Err(e), st)) => st == final(storage).store() && r == Err::<Vec<DirEntry>, ()>(e),
                None => false,
            },
    ;
}

/// The entry for `name` and `ino`: the name in the first bytes of a
/// zeroed 256-byte buffer.
pub open spec fn dir_entry_is(e: DirEntry, name: Seq<u8>, ino: u32) -> bool {
    &&& e.name_len == name.len()
    &&& e.name@ == name + Seq::new((256 - name.len()) as nat, |i: int| 0u8)
    &&& e.inode == ino
}

} // verus!
