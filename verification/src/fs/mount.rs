use vstd::prelude::*;
use vstd::string::StringSliceAdditionalSpecFns;
use crate::fs::{DirEntry, FileStat, Filesystem, dir_entry_is};
use crate::fs::ext2::Ext2Filesystem;
use crate::fs::ext2::superblock::read_superblock_spec;
use crate::fs::store::{Storage, Store};

verus! {

/// The device the root file system lives on.
pub const ROOT_DEVICE: usize = 0;

/// The mounted root file system, if any.
pub struct MountTable {
    pub root: Option<Ext2Filesystem>,
}

impl MountTable {
    pub fn new() -> (t: Self)
        ensures
            t.root is None,
    {
        MountTable { root: None }
    }
}

/// Reading a file of the mounted root: an error, with nothing changed,
/// when none is mounted.
pub open spec fn mount_read_spec(table: MountTable, st: Store, path: Seq<u8>) -> Option<(Result<Seq<u8>, ()>, Store)> {
    match table.root {
        None => Some((Err(()), st)),
        Some(fs) => fs.read_file_spec(st, path),
    }
}

/// Writing a file of the mounted root: an error, with nothing changed,
/// when none is mounted.
pub open spec fn mount_write_spec(table: MountTable, st: Store, path: Seq<u8>, data: Seq<u8>) -> Option<(Result<(), ()>, Store)> {
    match table.root {
        None => Some((Err(()), st)),
        Some(fs) => fs.write_file_spec(st, path, data),
    }
}

/// Describing a file of the mounted root: an error, with nothing
/// changed, when none is mounted.
pub open spec fn mount_stat_spec(table: MountTable, st: Store, path: Seq<u8>) -> Option<(Result<FileStat, ()>, Store)> {
    match table.root {
        None => Some((Err(()), st)),
        Some(fs) => fs.stat_spec(st, path),
    }
}

/// Mounts the ext2 file system of the root device as the root.
pub fn mount_root(table: &mut MountTable, storage: &mut Storage)
    requires
        old(storage).wf(),
        read_superblock_spec(old(storage).store(), ROOT_DEVICE) is Some,
    ensures
        final(storage).wf(),
        final(table).root matches Some(fs) && fs.device == ROOT_DEVICE
            && read_superblock_spec(old(storage).store(), ROOT_DEVICE) == Some((fs.superblock, final(storage).store())),
{
    let fs = Ext2Filesystem::new(storage, ROOT_DEVICE);
    table.root = Some(fs);
}

/// Reads a file of the root file system; an error when none is mounted.
pub fn read_file(table: &MountTable, storage: &mut Storage, path: &str) -> (r: Result<Vec<u8>, ()>)
    requires
        old(storage).wf(),
        table.root matches Some(fs) ==> fs.read_file_spec(old(storage).store(), path.spec_bytes()) is Some,
    ensures
        final(storage).wf(),
        table.root is None ==> r is Err && *final(storage) == *old(storage),
        table.root matches Some(fs) ==> fs.read_file_spec(old(storage).store(), path.spec_bytes()) == Some((
            match r {
                Ok(v) => Ok::<Seq<u8>, ()>(v@),
                Err(e) => Err::<Seq<u8>, ()>(e),
            },
            final(storage).store(),
        )),
{
    match &table.root {
        None => Err(()),
        Some(fs) => fs.read_file(storage, path),
    }
}

/// Writes a file of the root file system; an error when none is mounted.
pub fn write_file(table: &MountTable, storage: &mut Storage, path: &str, data: &[u8]) -> (r: Result<(), ()>)
    requires
        old(storage).wf(),
        table.root matches Some(fs) ==> fs.write_file_spec(old(storage).store(), path.spec_bytes(), data@) is Some,
    ensures
        final(storage).wf(),
        table.root is None ==> r is Err && *final(storage) == *old(storage),
        table.root matches Some(fs) ==> fs.write_file_spec(old(storage).store(), path.spec_bytes(), data@)
            == Some((r, final(storage).store())),
{
    match &table.root {
        None => Err(()),
        Some(fs) => fs.write_file(storage, path, data),
    }
}

/// Creates a file on the root file system; an error when none is mounted.
pub fn create_file(table: &MountTable, storage: &mut Storage, path: &str, mode: u16, uid: u32, gid: u32) -> (r: Result<(), ()>)
    requires
        old(storage).wf(),
        table.root matches Some(fs) ==> fs.create_file_spec(old(storage).store(), path.spec_bytes(), mode, uid, gid) is Some,
    ensures
        final(storage).wf(),
        table.root is None ==> r is Err && *final(storage) == *old(storage),
        table.root matches Some(fs) ==> fs.create_file_spec(old(storage).store(), path.spec_bytes(), mode, uid, gid)
            == Some((r, final(storage).store())),
{
    match &table.root {
        None => Err(()),
        Some(fs) => fs.create_file(storage, path, mode, uid, gid),
    }
}

/// Deletes a file of the root file system; an error when none is mounted.
pub fn delete_file(table: &MountTable, storage: &mut Storage, path: &str) -> (r: Result<(), ()>)
    requires
        old(storage).wf(),
        table.root matches Some(fs) ==> fs.delete_file_spec(old(storage).store(), path.spec_bytes()) is Some,
    ensures
        final(storage).wf(),
        table.root is None ==> r is Err && *final(storage) == *old(storage),
        table.root matches Some(fs) ==> fs.delete_file_spec(old(storage).store(), path.spec_bytes())
            == Some((r, final(storage).store())),
{
    match &table.root {
        None => Err(()),
        Some(fs) => fs.delete_file(storage, path),
    }
}

/// Describes a file of the root file system; an error when none is mounted.
pub fn stat(table: &MountTable, storage: &mut Storage, path: &str) -> (r: Result<FileStat, ()>)
    requires
        old(storage).wf(),
        table.root matches Some(fs) ==> fs.stat_spec(old(storage).store(), path.spec_bytes()) is Some,
    ensures
        final(storage).wf(),
        table.root is None ==> r is Err && *final(storage) == *old(storage),
        table.root matches Some(fs) ==> fs.stat_spec(old(storage).store(), path.spec_bytes())
            == Some((r, final(storage).store())),
{
    match &table.root {
        None => Err(()),
        Some(fs) => fs.stat(storage, path),
    }
}

/// Lists a directory of the root file system; an error when none is
/// mounted.
pub fn read_dir(table: &MountTable, storage: &mut Storage, path: &str) -> (r: Result<Vec<DirEntry>, ()>)
    requires
        old(storage).wf(),
        table.root matches Some(fs) ==> fs.read_dir_spec(old(storage).store(), path.spec_bytes()) is Some,
    ensures
        final(storage).wf(),
        table.root is None ==> r is Err && *final(storage) == *old(storage),
        table.root matches Some(fs) ==> match fs.read_dir_spec(old(storage).store(), path.spec_bytes()) {
            Some((Ok(list), st)) => st == final(storage).store() && (r matches Ok(v) && v@.len() == list.len()
                && forall|k: int| 0 <= k < v@.len() ==> dir_entry_is(#[trigger] v@[k], list[k].0, list[k].1)),
            Some((Err(e), st)) => st == final(storage).store() && r == Err::<Vec<DirEntry>, ()>(e),
            None => false,
        },
{
    match &table.root {
        None => Err(()),
        Some(fs) => fs.read_dir(storage, path),
    }
}

} // verus!
