use vstd::prelude::*;
use vstd::string::StringSliceAdditionalSpecFns;
use crate::compat::vfs_bridge::{compat_open, compat_path};
use crate::syscall::{FdTable, FdView, open_step};

verus! {

/// The descriptor table after the three standard streams are opened in
/// turn: standard input read-only, standard output and error write-only.
pub open spec fn with_standard_fds(v: Seq<Option<FdView>>) -> Seq<Option<FdView>> {
    let v1 = open_step(v, compat_path("/dev/stdin\0".spec_bytes()), 0).1;
    let v2 = open_step(v1, compat_path("/dev/stdout\0".spec_bytes()), 1).1;
    open_step(v2, compat_path("/dev/stderr\0".spec_bytes()), 1).1
}

/// Sets up what a POSIX program expects: the standard streams (the
/// environment has no variables).
pub fn init_posix_environment(table: &mut FdTable)
    requires
        old(table).wf(),
    ensures
        final(table).wf(),
        final(table).view() == with_standard_fds(old(table).view()),
{
    setup_standard_fds(table);
    setup_environment_variables();
}

fn setup_standard_fds(table: &mut FdTable)
    requires
        old(table).wf(),
    ensures
        final(table).wf(),
        final(table).view() == with_standard_fds(old(table).view()),
{
    compat_open(table, "/dev/stdin\0".as_bytes(), 0, 0);
    compat_open(table, "/dev/stdout\0".as_bytes(), 1, 0);
    compat_open(table, "/dev/stderr\0".as_bytes(), 1, 0);
}

/// There are no environment variables to set.
fn setup_environment_variables() {
}

} // verus!
