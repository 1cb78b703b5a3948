use vstd::prelude::*;
use vstd::bytes::{spec_u32_from_le_bytes, spec_u32_to_le_bytes, spec_u64_to_le_bytes, u32_from_le_bytes, u32_to_le_bytes, u64_to_le_bytes};
use crate::drivers::fb::{Framebuffer, blit_region};
use crate::gpu::virtio_gpu::{GpuState, backing_of, transfer_to_host};
use crate::pixels::paint;

verus! {

pub struct DrmDevice {
    pub fd: i32,
    pub card_id: u32,
}

pub struct DrmFramebuffer {
    pub id: u32,
    pub width: u32,
    pub height: u32,
    pub pitch: u32,
    pub bpp: u32,
    pub handle: u32,
}

/// Opened devices, framebuffers (id `i + 1` at position `i`), and the next
/// buffer handle to hand out.
pub struct DrmState {
    pub devices: Vec<DrmDevice>,
    pub framebuffers: Vec<DrmFramebuffer>,
    pub next_handle: u32,
}

pub const DRM_IOCTL_MODE_CREATE_DUMB: u32 = 0xC02064B2;
pub const DRM_IOCTL_MODE_MAP_DUMB: u32 = 0xC01064B3;
pub const DRM_IOCTL_MODE_ADDFB: u32 = 0xC06864AE;
pub const DRM_IOCTL_MODE_SETCRTC: u32 = 0xC06864A2;
pub const DRM_IOCTL_MODE_PAGE_FLIP: u32 = 0xC01064B0;
pub const EINVAL: isize = -22;
/// Where dumb buffers are mapped: 1 MiB per handle from here.
pub const DUMB_BUFFER_BASE: usize = 0x60000000;

impl DrmState {
    pub fn new() -> (s: Self)
        ensures
            s.devices@.len() == 0,
            s.framebuffers@.len() == 0,
            s.next_handle == 1,
    {
        DrmState { devices: Vec::new(), framebuffers: Vec::new(), next_handle: 1 }
    }
}

/// Opens the DRM device: descriptor `100 + (devices opened so far)`.
pub fn open_device(state: &mut DrmState) -> (fd: i32)
    requires
        100 + (old(state).devices@.len() as i32) <= i32::MAX,
    ensures
        fd == 100 + (old(state).devices@.len() as i32),
        final(state).devices@.len() == old(state).devices@.len() + 1,
        final(state).devices@.last().fd == fd && final(state).devices@.last().card_id == 0,
        final(state).devices@.drop_last() == old(state).devices@,
        final(state).framebuffers@ == old(state).framebuffers@,
        final(state).next_handle == old(state).next_handle,
{
    let fd = 100 + state.devices.len() as i32;
    state.devices.push(DrmDevice { fd, card_id: 0 });
    proof {
        assert(state.devices@.drop_last() =~= old(state).devices@);
    }
    fd
}

/// Hands out the next buffer handle.
fn allocate_buffer_handle(state: &mut DrmState) -> (h: u32)
    requires
        old(state).next_handle < u32::MAX,
    ensures
        h == old(state).next_handle,
        final(state).next_handle == h + 1,
        final(state).devices@ == old(state).devices@,
        final(state).framebuffers@ == old(state).framebuffers@,
{
    let h = state.next_handle;
    state.next_handle = h + 1;
    h
}

/// A dumb buffer's geometry fits 32 bits.
pub open spec fn dumb_fits(width: u32, height: u32, bpp: u32) -> bool {
    width * (bpp / 8) <= u32::MAX && width * (bpp / 8) * height <= u32::MAX
}

/// Creates a dumb buffer: answers a fresh handle and its size,
/// `width * (bpp / 8) * height` bytes.
pub fn create_dumb_buffer(state: &mut DrmState, fd: i32, width: u32, height: u32, bpp: u32) -> (r: (u32, usize))
    requires
        dumb_fits(width, height, bpp),
        old(state).next_handle < u32::MAX,
    ensures
        r.0 == old(state).next_handle,
        r.1 == width * (bpp / 8) * height,
        final(state).next_handle == old(state).next_handle + 1,
        final(state).devices@ == old(state).devices@,
        final(state).framebuffers@ == old(state).framebuffers@,
{
    let pitch = width * (bpp / 8);
    let size = pitch * height;
    let handle = allocate_buffer_handle(state);
    (handle, size as usize)
}

/// Handles are never reused: when every handle given out so far is below
/// `next_handle`, the handle a creation gives out (`next_handle`) is none
/// of them, and after it moves on every handle given out is again below.
pub proof fn lemma_dumb_handles_fresh(issued: Seq<u32>, next: u32)
    requires
        forall|i: int| 0 <= i < issued.len() ==> #[trigger] issued[i] < next,
        next < u32::MAX,
    ensures
        !issued.contains(next),
        forall|i: int| 0 <= i < issued.push(next).len() ==> #[trigger] issued.push(next)[i] < next + 1,
{
    if issued.contains(next) {
        let i = choose|i: int| 0 <= i < issued.len() && issued[i] == next;
        assert(issued[i] < next);
    }
    assert forall|i: int| 0 <= i < issued.push(next).len() implies #[trigger] issued.push(next)[i] < next + 1 by {
        if i < issued.len() {
            assert(issued.push(next)[i] == issued[i]);
        }
    }
}

/// Where a dumb buffer is mapped.
pub open spec fn dumb_address(handle: u32) -> int {
    DUMB_BUFFER_BASE + handle * 0x100000
}

/// Maps a dumb buffer: its address, 1 MiB per handle from `DUMB_BUFFER_BASE`.
pub fn map_dumb_buffer(fd: i32, handle: u32) -> (addr: usize)
    requires
        dumb_address(handle) <= usize::MAX,
    ensures
        addr == dumb_address(handle),
{
    0x60000000 + (handle as usize * 0x100000)
}

/// Registers a framebuffer; its id is one more than the number registered
/// before.
pub fn create_framebuffer(state: &mut DrmState, fd: i32, width: u32, height: u32, pitch: u32, bpp: u32, handle: u32) -> (id: u32)
    requires
        (old(state).framebuffers@.len() as u32) < u32::MAX,
    ensures
        id == (old(state).framebuffers@.len() as u32) + 1,
        final(state).framebuffers@.len() == old(state).framebuffers@.len() + 1,
        final(state).framebuffers@.drop_last() == old(state).framebuffers@,
        final(state).framebuffers@.last() == (DrmFramebuffer { id, width, height, pitch, bpp, handle }),
        final(state).devices@ == old(state).devices@,
        final(state).next_handle == old(state).next_handle,
{
    let fb_id = state.framebuffers.len() as u32 + 1;
    state.framebuffers.push(DrmFramebuffer { id: fb_id, width, height, pitch, bpp, handle });
    proof {
        assert(state.framebuffers@.drop_last() =~= old(state).framebuffers@);
    }
    fb_id
}

/// Mode setting is not modelled: answers 0.
pub fn set_crtc(fd: i32, crtc_id: u32, fb_id: u32, x: u32, y: u32) -> (r: i32)
    ensures
        r == 0,
{
    0
}

pub open spec fn first_fb(s: Seq<DrmFramebuffer>, id: u32, i: int) -> bool {
    &&& 0 <= i < s.len()
    &&& s[i].id == id
    &&& forall|j: int| 0 <= j < i ==> s[j].id != id
}

pub open spec fn has_fb(s: Seq<DrmFramebuffer>, id: u32) -> bool {
    exists|i: int| 0 <= i < s.len() && s[i].id == id
}

pub open spec fn fb_slot(s: Seq<DrmFramebuffer>, id: u32) -> int {
    choose|i: int| first_fb(s, id, i)
}

fn find_framebuffer(state: &DrmState, id: u32) -> (r: Option<usize>)
    ensures
        r matches Some(i) ==> first_fb(state.framebuffers@, id, i as int) && fb_slot(state.framebuffers@, id) == i,
        r is None <==> !has_fb(state.framebuffers@, id),
{
    let mut i: usize = 0;
    while i < state.framebuffers.len()
        invariant
            i <= state.framebuffers@.len(),
            forall|j: int| 0 <= j < i ==> state.framebuffers@[j].id != id,
        decreases state.framebuffers@.len() - i,
    {
        if state.framebuffers[i].id == id {
            proof {
                let k = fb_slot(state.framebuffers@, id);
                assert(first_fb(state.framebuffers@, id, i as int));
                assert(first_fb(state.framebuffers@, id, k));
                if k < i {
                    assert(state.framebuffers@[k].id != id);
                } else if k > i {
                    assert(state.framebuffers@[i as int].id != id);
                }
            }
            return Some(i);
        }
        i += 1;
    }
    None
}

/// The handle of the registered framebuffer `fb_id`, if any: whose
/// resource's backing memory a page flip shows.
pub fn flip_source(state: &DrmState, fb_id: u32) -> (r: Option<u32>)
    ensures
        r == (if has_fb(state.framebuffers@, fb_id) {
            Some(state.framebuffers@[fb_slot(state.framebuffers@, fb_id)].handle)
        } else {
            None::<u32>
        }),
{
    match find_framebuffer(state, fb_id) {
        Some(i) => Some(state.framebuffers[i].handle),
        None => None,
    }
}

/// Page flip: when `fb_id` is registered, transfers the whole framebuffer
/// (its handle's resource, `backing` holding that memory) to the screen.
/// Answers 0.
pub fn page_flip(state: &DrmState, gpu: &GpuState, fb: &mut Framebuffer, fd: i32, crtc_id: u32, fb_id: u32, backing: &[u32]) -> (r: i32)
    requires
        old(fb).wf(),
        has_fb(state.framebuffers@, fb_id) ==> {
            let f = state.framebuffers@[fb_slot(state.framebuffers@, fb_id)];
            &&& dumb_address(f.handle) <= usize::MAX
            &&& (backing_of(gpu.resources@, f.handle) is Some ==> f.width * f.height <= u32::MAX
                && (f.width > 0 && f.height > 0 ==> f.width - 1 <= usize::MAX && f.height - 1 <= usize::MAX))
        },
    ensures
        r == 0,
        final(fb).wf(),
        final(fb).same_frame(old(fb)),
        ({
            let f = state.framebuffers@[fb_slot(state.framebuffers@, fb_id)];
            if has_fb(state.framebuffers@, fb_id) && backing_of(gpu.resources@, f.handle) is Some {
                final(fb).pixels() == paint(old(fb).pixels(), old(fb).width as int,
                    |px: int, py: int| blit_region(px, py, 0, 0, f.width as int, f.height as int, backing@.len() as int),
                    |px: int, py: int| backing@[(py - 0) * f.width + (px - 0)])
            } else {
                final(fb).pixels() == old(fb).pixels()
            }
        }),
{
    if let Some(i) = find_framebuffer(state, fb_id) {
        let f = &state.framebuffers[i];
        let _addr = map_dumb_buffer(fd, f.handle);
        transfer_to_host(gpu, fb, f.handle, 0, 0, f.width, f.height, backing);
    }
    0
}

/// The ioctl argument layouts: `drm_mode_create_dumb` is height, width,
/// bpp, flags, handle, pitch (32-bit each) and size (64-bit), 32 bytes;
/// `drm_mode_map_dumb` is handle, padding (32-bit each) and offset (64-bit),
/// 16 bytes. Fields are little-endian.
pub open spec fn arg_u32(a: Seq<u8>, off: int) -> u32 {
    spec_u32_from_le_bytes(a.subrange(off, off + 4))
}

fn read_arg(a: &[u8], off: usize) -> (r: u32)
    requires
        off + 4 <= a@.len(),
    ensures
        r == arg_u32(a@, off as int),
{
    let n = a.len();
    u32_from_le_bytes(&a[off..off + 4])
}

fn write_bytes(a: &mut [u8], off: usize, v: &Vec<u8>)
    requires
        off + v@.len() <= old(a)@.len(),
    ensures
        final(a)@ == old(a)@.subrange(0, off as int) + v@ + old(a)@.subrange(off + v@.len(), old(a)@.len() as int),
{
    let n = a.len();
    let mut i: usize = 0;
    while i < v.len()
        invariant
            n == a@.len(),
            a@.len() == old(a)@.len(),
            off + v@.len() <= n,
            i <= v@.len(),
            forall|t: int| 0 <= t < off ==> a@[t] == old(a)@[t],
            forall|t: int| 0 <= t < i ==> a@[off + t] == v@[t],
            forall|t: int| off + i <= t < n ==> a@[t] == old(a)@[t],
        decreases v@.len() - i,
    {
        a[off + i] = v[i];
        i += 1;
    }
    proof {
        assert(a@ =~= old(a)@.subrange(0, off as int) + v@ + old(a)@.subrange(off + v@.len(), old(a)@.len() as int));
    }
}

/// What `CREATE_DUMB` leaves in its argument: handle, pitch and size filled.
pub open spec fn create_dumb_result(a: Seq<u8>, handle: u32) -> Seq<u8> {
    let height = arg_u32(a, 0);
    let width = arg_u32(a, 4);
    let bpp = arg_u32(a, 8);
    let pitch = (width * (bpp / 8)) as u32;
    let size = (pitch * height) as u64;
    a.subrange(0, 16) + spec_u32_to_le_bytes(handle) + spec_u32_to_le_bytes(pitch) + spec_u64_to_le_bytes(size)
        + a.subrange(32, a.len() as int)
}

/// What `MAP_DUMB` leaves in its argument: the offset filled.
pub open spec fn map_dumb_result(a: Seq<u8>) -> Seq<u8> {
    let handle = arg_u32(a, 0);
    a.subrange(0, 8) + spec_u64_to_le_bytes((0x60000000 + handle * 0x100000) as u64) + a.subrange(16, a.len() as int)
}

/// The ioctl argument, as far as a request reads and writes it, holds its
/// structure and the arithmetic fits.
pub open spec fn ioctl_arg_ok(request: u32, arg: Seq<u8>) -> bool {
    &&& request == DRM_IOCTL_MODE_CREATE_DUMB ==> arg.len() >= 32
        && dumb_fits(arg_u32(arg, 4), arg_u32(arg, 0), arg_u32(arg, 8))
    &&& request == DRM_IOCTL_MODE_MAP_DUMB ==> arg.len() >= 16
}

/// The DRM ioctls, on the argument structure's bytes (copied in and out by
/// the caller). `CREATE_DUMB` fills a fresh handle, the pitch
/// `width * (bpp / 8)` and the size `pitch * height`; `MAP_DUMB` fills the
/// mapping offset; `ADDFB`, `SETCRTC` and `PAGE_FLIP` do nothing. Those
/// answer 0; any other request answers `EINVAL`.
pub fn ioctl_handler(state: &mut DrmState, fd: i32, request: u32, arg: &mut [u8]) -> (r: isize)
    requires
        ioctl_arg_ok(request, old(arg)@),
        request == DRM_IOCTL_MODE_CREATE_DUMB ==> old(state).next_handle < u32::MAX,
    ensures
        request == DRM_IOCTL_MODE_CREATE_DUMB ==> r == 0 && final(state).next_handle == old(state).next_handle + 1
            && final(arg)@ == create_dumb_result(old(arg)@, old(state).next_handle),
        request == DRM_IOCTL_MODE_MAP_DUMB ==> r == 0 && final(arg)@ == map_dumb_result(old(arg)@)
            && final(state).next_handle == old(state).next_handle,
        (request == DRM_IOCTL_MODE_ADDFB || request == DRM_IOCTL_MODE_SETCRTC || request == DRM_IOCTL_MODE_PAGE_FLIP)
            ==> r == 0 && final(arg)@ == old(arg)@ && final(state).next_handle == old(state).next_handle,
        request != DRM_IOCTL_MODE_CREATE_DUMB && request != DRM_IOCTL_MODE_MAP_DUMB && request != DRM_IOCTL_MODE_ADDFB
            && request != DRM_IOCTL_MODE_SETCRTC && request != DRM_IOCTL_MODE_PAGE_FLIP
            ==> r == EINVAL && final(arg)@ == old(arg)@ && final(state).next_handle == old(state).next_handle,
        final(state).devices@ == old(state).devices@,
        final(state).framebuffers@ == old(state).framebuffers@,
{
    if request == DRM_IOCTL_MODE_CREATE_DUMB {
        let handle = allocate_buffer_handle(state);
        let height = read_arg(arg, 0);
        let width = read_arg(arg, 4);
        let bpp = read_arg(arg, 8);
        let pitch = width * (bpp / 8);
        let size = (pitch * height) as u64;
        let ghost a0 = arg@;
        let hb = u32_to_le_bytes(handle);
        write_bytes(arg, 16, &hb);
        let pb = u32_to_le_bytes(pitch);
        write_bytes(arg, 20, &pb);
        let sb = u64_to_le_bytes(size);
        write_bytes(arg, 24, &sb);
        proof {
            assert(arg@ =~= create_dumb_result(a0, handle));
        }
        0
    } else if request == DRM_IOCTL_MODE_MAP_DUMB {
        let handle = read_arg(arg, 0);
        let offset: u64 = 0x60000000 + (handle as u64 * 0x100000);
        let ghost a0 = arg@;
        let ob = u64_to_le_bytes(offset);
        write_bytes(arg, 8, &ob);
        proof {
            assert(arg@ =~= map_dumb_result(a0));
        }
        0
    } else if request == DRM_IOCTL_MODE_ADDFB || request == DRM_IOCTL_MODE_SETCRTC || request == DRM_IOCTL_MODE_PAGE_FLIP {
        0
    } else {
        EINVAL
    }
}

} // verus!
