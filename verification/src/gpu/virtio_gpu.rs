use vstd::prelude::*;
use crate::drivers::fb::{Framebuffer, blit_region};
use crate::pixels::paint;

verus! {

/// Base of the device's MMIO window.
pub const VIRTIO_GPU_BASE: u32 = 0xFEBD0000;
/// Resource slots; slot `i` holds the resource with id `i`.
pub const MAX_RESOURCES: usize = 256;

/// A 2D resource: size, format and the address of its backing memory
/// (0: none attached).
#[derive(Clone, Copy)]
pub struct Resource {
    pub id: u32,
    pub width: u32,
    pub height: u32,
    pub format: u32,
    pub backing: usize,
}

impl Resource {
    /// An unused slot: all zeros.
    pub fn empty() -> (r: Self)
        ensures
            r == empty_resource(),
    {
        Resource { id: 0, width: 0, height: 0, format: 0, backing: 0 }
    }
}

pub open spec fn empty_resource() -> Resource {
    Resource { id: 0, width: 0, height: 0, format: 0, backing: 0 }
}

pub struct GpuState {
    pub resources: Vec<Resource>,
    pub next_resource_id: u32,
}

impl GpuState {
    /// 256 empty slots; ids start at 1.
    pub fn new() -> (s: Self)
        ensures
            s.wf(),
            s.resources@ == Seq::new(MAX_RESOURCES as nat, |i: int| empty_resource()),
            s.next_resource_id == 1,
    {
        let resources = vec![Resource::empty(); MAX_RESOURCES];
        proof {
            assert(resources@ =~= Seq::new(MAX_RESOURCES as nat, |i: int| empty_resource()));
        }
        GpuState { resources, next_resource_id: 1 }
    }

    pub open spec fn wf(&self) -> bool {
        self.resources@.len() == MAX_RESOURCES
    }
}

/// Creates a 2D resource with the next id, which is the answer. It is filed
/// in slot `id` when there is one (ids from 256 on get none).
pub fn create_resource_2d(state: &mut GpuState, width: u32, height: u32, format: u32) -> (id: u32)
    requires
        old(state).wf(),
        old(state).next_resource_id < u32::MAX,
    ensures
        final(state).wf(),
        id == old(state).next_resource_id,
        final(state).next_resource_id == id + 1,
        final(state).resources@ == (if (id as int) < MAX_RESOURCES {
            old(state).resources@.update(id as int, Resource { id, width, height, format, backing: 0 })
        } else {
            old(state).resources@
        }),
{
    let id = state.next_resource_id;
    state.next_resource_id = id + 1;
    if (id as usize) < state.resources.len() {
        state.resources.set(id as usize, Resource { id, width, height, format, backing: 0 });
    }
    id
}

pub open spec fn first_with_id(s: Seq<Resource>, id: u32, i: int) -> bool {
    &&& 0 <= i < s.len()
    &&& s[i].id == id
    &&& forall|j: int| 0 <= j < i ==> s[j].id != id
}

pub open spec fn has_id(s: Seq<Resource>, id: u32) -> bool {
    exists|i: int| 0 <= i < s.len() && s[i].id == id
}

pub open spec fn id_slot(s: Seq<Resource>, id: u32) -> int {
    choose|i: int| first_with_id(s, id, i)
}

/// The first slot whose resource has that id.
pub fn find_resource(state: &GpuState, id: u32) -> (r: Option<usize>)
    ensures
        r matches Some(i) ==> first_with_id(state.resources@, id, i as int) && id_slot(state.resources@, id) == i,
        r is None <==> !has_id(state.resources@, id),
{
    let mut i: usize = 0;
    while i < state.resources.len()
        invariant
            i <= state.resources@.len(),
            forall|j: int| 0 <= j < i ==> state.resources@[j].id != id,
        decreases state.resources@.len() - i,
    {
        if state.resources[i].id == id {
            proof {
                let k = id_slot(state.resources@, id);
                assert(first_with_id(state.resources@, id, i as int));
                assert(first_with_id(state.resources@, id, k));
                if k < i {
                    assert(state.resources@[k].id != id);
                } else if k > i {
                    assert(state.resources@[i as int].id != id);
                }
            }
            return Some(i);
        }
        i += 1;
    }
    None
}

/// Attaches backing memory at `addr` to the first resource with that id
/// (the size is not recorded).
pub fn attach_backing(state: &mut GpuState, resource_id: u32, addr: usize, size: usize)
    requires
        old(state).wf(),
    ensures
        final(state).wf(),
        final(state).next_resource_id == old(state).next_resource_id,
        has_id(old(state).resources@, resource_id) ==> {
            let i = id_slot(old(state).resources@, resource_id);
            final(state).resources@ == old(state).resources@.update(i, Resource { backing: addr, ..old(state).resources@[i] })
        },
        !has_id(old(state).resources@, resource_id) ==> final(state).resources@ == old(state).resources@,
{
    if let Some(i) = find_resource(state, resource_id) {
        let mut r = state.resources[i];
        r.backing = addr;
        state.resources.set(i, r);
    }
}

/// The backing address of the first resource with that id, if it has one.
pub open spec fn backing_of(s: Seq<Resource>, id: u32) -> Option<usize> {
    if has_id(s, id) && s[id_slot(s, id)].backing != 0 {
        Some(s[id_slot(s, id)].backing)
    } else {
        None
    }
}

/// The backing address of the first resource with that id, when it has
/// backing memory: the memory `transfer_to_host` copies from.
pub fn resource_backing(state: &GpuState, resource_id: u32) -> (r: Option<usize>)
    ensures
        r == backing_of(state.resources@, resource_id),
{
    match find_resource(state, resource_id) {
        Some(i) => {
            if state.resources[i].backing != 0 {
                Some(state.resources[i].backing)
            } else {
                None
            }
        },
        None => None,
    }
}

/// Copies a `width` by `height` rectangle of a resource to the screen at
/// `(x, y)`. `backing` holds the pixels at the resource's backing address
/// (read by the caller); nothing happens when the resource has no backing
/// memory.
pub fn transfer_to_host(state: &GpuState, fb: &mut Framebuffer, resource_id: u32, x: u32, y: u32, width: u32, height: u32, backing: &[u32])
    requires
        old(fb).wf(),
        backing_of(state.resources@, resource_id) is Some ==> width * height <= u32::MAX
            && (width > 0 && height > 0 ==> x + width - 1 <= usize::MAX && y + height - 1 <= usize::MAX),
    ensures
        final(fb).wf(),
        final(fb).same_frame(old(fb)),
        backing_of(state.resources@, resource_id) is Some ==> final(fb).pixels() == paint(old(fb).pixels(), old(fb).width as int,
            |px: int, py: int| blit_region(px, py, x as int, y as int, width as int, height as int, backing@.len() as int),
            |px: int, py: int| backing@[(py - y) * width + (px - x)]),
        backing_of(state.resources@, resource_id) is None ==> final(fb).pixels() == old(fb).pixels(),
{
    if let Some(_addr) = resource_backing(state, resource_id) {
        let count = width * height;
        assert(width as usize * height as usize <= usize::MAX) by (nonlinear_arith)
            requires
                width * height <= u32::MAX,
        ;
        fb.blit(x as usize, y as usize, width as usize, height as usize, backing);
    }
}

/// Scanout setup is not modelled: nothing happens.
pub fn set_scanout(scanout_id: u32, resource_id: u32, x: u32, y: u32, width: u32, height: u32) {
}

/// Flushes a rectangle of a resource: a transfer to the screen.
pub fn flush(state: &GpuState, fb: &mut Framebuffer, resource_id: u32, x: u32, y: u32, width: u32, height: u32, backing: &[u32])
    requires
        old(fb).wf(),
        backing_of(state.resources@, resource_id) is Some ==> width * height <= u32::MAX
            && (width > 0 && height > 0 ==> x + width - 1 <= usize::MAX && y + height - 1 <= usize::MAX),
    ensures
        final(fb).wf(),
        final(fb).same_frame(old(fb)),
        backing_of(state.resources@, resource_id) is Some ==> final(fb).pixels() == paint(old(fb).pixels(), old(fb).width as int,
            |px: int, py: int| blit_region(px, py, x as int, y as int, width as int, height as int, backing@.len() as int),
            |px: int, py: int| backing@[(py - y) * width + (px - x)]),
        backing_of(state.resources@, resource_id) is None ==> final(fb).pixels() == old(fb).pixels(),
{
    transfer_to_host(state, fb, resource_id, x, y, width, height, backing);
}

} // verus!
