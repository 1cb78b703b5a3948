use vstd::prelude::*;
use crate::fs::ext2::inode::{Inode, InodeView};

verus! {

pub const S_IRUSR: u16 = 0o400;
pub const S_IWUSR: u16 = 0o200;
pub const S_IXUSR: u16 = 0o100;
pub const S_IRGRP: u16 = 0o040;
pub const S_IWGRP: u16 = 0o020;
pub const S_IXGRP: u16 = 0o010;
pub const S_IROTH: u16 = 0o004;
pub const S_IWOTH: u16 = 0o002;
pub const S_IXOTH: u16 = 0o001;

pub const S_IFDIR: u16 = 0x4000;
pub const S_IFREG: u16 = 0x8000;

/// The three permission bits that apply to a caller: the owner's when the
/// caller owns the file, else the group's when the caller is in its group,
/// else everyone else's.
pub open spec fn applicable_perms(mode: u16, owner: u32, group: u32, uid: u32, gid: u32) -> u16 {
    if uid == owner {
        (mode >> 6u16) & 0o7u16
    } else if gid == group {
        (mode >> 3u16) & 0o7u16
    } else {
        mode & 0o7u16
    }
}

/// Access is granted to root, and otherwise when every requested kind of
/// access has its bit among the applicable permissions.
pub open spec fn permitted(mode: u16, owner: u32, group: u32, uid: u32, gid: u32, read: bool, write: bool, execute: bool) -> bool {
    let p = applicable_perms(mode, owner, group, uid, gid);
    uid == 0 || (!(read && p & 0o4u16 == 0) && !(write && p & 0o2u16 == 0) && !(execute && p & 0o1u16 == 0))
}

/// Checks whether user `uid` of group `gid` may access the inode in the
/// requested ways (see `permitted`).
pub fn check_permission(inode: &Inode, uid: u32, gid: u32, read: bool, write: bool, execute: bool) -> (r: bool)
    ensures
        r == permitted(inode.mode, inode.uid, inode.gid, uid, gid, read, write, execute),
{
    let mode = inode.mode;
    if uid == 0 {
        return true;
    }
    let perms = if uid == inode.uid {
        (mode >> 6) & 0o7
    } else if gid == inode.gid {
        (mode >> 3) & 0o7
    } else {
        mode & 0o7
    };
    if read && (perms & 0o4) == 0 {
        return false;
    }
    if write && (perms & 0o2) == 0 {
        return false;
    }
    if execute && (perms & 0o1) == 0 {
        return false;
    }
    true
}

/// The mode with its nine permission bits replaced by those of `perms`.
pub open spec fn with_perms(mode: u16, perms: u16) -> u16 {
    (mode & !0o777u16) | (perms & 0o777u16)
}

/// Replaces the nine permission bits of a mode, keeping the rest.
pub fn set_permissions(mode: &mut u16, perms: u16)
    ensures
        *final(mode) == with_perms(*old(mode), perms),
{
    *mode = (*mode & !0o777) | (perms & 0o777);
}

/// Gives the inode a new owner and group.
pub fn set_owner(inode: &mut Inode, uid: u32, gid: u32)
    ensures
        final(inode)@ == (InodeView { uid, gid, ..old(inode)@ }),
{
    inode.uid = uid;
    inode.gid = gid;
}

/// Setting permissions makes the permission bits those asked for and keeps
/// the file type and the other high bits.
pub proof fn lemma_set_permissions(mode: u16, perms: u16)
    ensures
        with_perms(mode, perms) & 0o777u16 == perms & 0o777u16,
        with_perms(mode, perms) & !0o777u16 == mode & !0o777u16,
{
    assert(((mode & !0o777u16) | (perms & 0o777u16)) & 0o777u16 == perms & 0o777u16) by (bit_vector);
    assert(((mode & !0o777u16) | (perms & 0o777u16)) & !0o777u16 == mode & !0o777u16) by (bit_vector);
}

/// After the owner's read bit is set, the owner may read; root may always
/// do anything.
pub proof fn lemma_owner_read(mode: u16, owner: u32, group: u32, gid: u32)
    ensures
        permitted(with_perms(mode, S_IRUSR), owner, group, owner, gid, true, false, false),
        forall|w: bool, x: bool| #[trigger] permitted(mode, owner, group, 0, gid, true, w, x),
{
    let m = with_perms(mode, S_IRUSR);
    assert(((((mode & !0o777u16) | (0o400u16 & 0o777u16)) >> 6u16) & 0o7u16) & 0o4u16 != 0) by (bit_vector);
}

} // verus!
