use vstd::prelude::*;
use vstd::string::StringSliceAdditionalSpecFns;
use crate::fs::ext2::block::{read_inode_data, read_inode_data_spec};
use crate::fs::ext2::directory::{lookup, lookup_spec};
use crate::fs::ext2::inode::{read_inode, read_inode_spec};
use crate::fs::store::{Storage, Store};

verus! {

/// The mode bit of a directory.
pub const MODE_DIR: u16 = 0x4000;

/// Reading the file a path names: an error for a directory, else its
/// bytes, all through the cache.
pub open spec fn read_file_spec(st: Store, d: usize, p: Seq<u8>) -> Option<(Result<Seq<u8>, ()>, Store)> {
    match lookup_spec(st, d, p) {
        None => None,
        Some((Err(e), st1)) => Some((Err(e), st1)),
        Some((Ok(n), st1)) => match read_inode_spec(st1, d, n) {
            None => None,
            Some((Err(e), st2)) => Some((Err(e), st2)),
            Some((Ok(x), st2)) => if x.mode & MODE_DIR != 0 {
                Some((Err(()), st2))
            } else {
                read_inode_data_spec(st2, d, x)
            },
        },
    }
}

/// Reads the file a path names (see `read_file_spec`).
pub fn read_file(storage: &mut Storage, device: usize, path: &str) -> (r: Result<Vec<u8>, ()>)
    requires
        old(storage).wf(),
        read_file_spec(old(storage).store(), device, path.spec_bytes()) is Some,
    ensures
        final(storage).wf(),
        read_file_spec(old(storage).store(), device, path.spec_bytes()) == Some((
            match r {
                Ok(v) => Ok::<Seq<u8>, ()>(v@),
                Err(e) => Err::<Seq<u8>, ()>(e),
            },
            final(storage).store(),
        )),
{
    let inode_num = match lookup(storage, device, path) {
        Ok(n) => n,
        Err(e) => {
            return Err(e);
        },
    };
    let inode_data = match read_inode(storage, device, inode_num) {
        Ok(i) => i,
        Err(e) => {
            return Err(e);
        },
    };
    if (inode_data.mode & MODE_DIR) != 0 {
        return Err(());
    }
    read_inode_data(storage, device, &inode_data)
}

} // verus!
