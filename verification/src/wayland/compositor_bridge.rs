use std::collections::BTreeMap;
use vstd::prelude::*;
use crate::gui::surface::Surface;

verus! {

broadcast use vstd::std_specs::btree::group_btree_axioms;

/// Size a client surface starts with, until a buffer is attached.
pub const DEFAULT_SURFACE_WIDTH: u32 = 800;
pub const DEFAULT_SURFACE_HEIGHT: u32 = 600;

/// What the compositor knows of a client surface: the attached buffer and
/// its size, whether a commit is pending, and the window that shows it once
/// the first commit went through.
#[derive(Clone, Copy)]
pub struct WaylandSurfaceState {
    pub surface_id: u32,
    pub compositor_surface: Option<usize>,
    pub buffer_id: u32,
    pub width: u32,
    pub height: u32,
    pub pending_commit: bool,
}

/// The client surfaces by id.
pub struct BridgeState {
    pub surfaces: BTreeMap<u32, WaylandSurfaceState>,
}

/// A surface as `create_surface` registers it.
pub open spec fn fresh_surface(id: u32) -> WaylandSurfaceState {
    WaylandSurfaceState {
        surface_id: id,
        compositor_surface: None,
        buffer_id: 0,
        width: DEFAULT_SURFACE_WIDTH,
        height: DEFAULT_SURFACE_HEIGHT,
        pending_commit: false,
    }
}

/// The surfaces after `attach_buffer`: the buffer and size are recorded and
/// a commit becomes pending; an unknown id changes nothing.
pub open spec fn attached(m: Map<u32, WaylandSurfaceState>, id: u32, buffer_id: u32, width: u32, height: u32) -> Map<u32, WaylandSurfaceState> {
    if m.contains_key(id) {
        m.insert(id, WaylandSurfaceState { buffer_id, width, height, pending_commit: true, ..m[id] })
    } else {
        m
    }
}

/// The surfaces after `commit_surface`: a pending commit goes through,
/// giving the surface its window the first time; otherwise nothing changes.
pub open spec fn committed(m: Map<u32, WaylandSurfaceState>, id: u32) -> Map<u32, WaylandSurfaceState> {
    if m.contains_key(id) && m[id].pending_commit {
        let window = if m[id].compositor_surface is None { Some(0usize) } else { m[id].compositor_surface };
        m.insert(id, WaylandSurfaceState { compositor_surface: window, pending_commit: false, ..m[id] })
    } else {
        m
    }
}

/// A commit of `id` would open a window whose pixel count fits in memory.
pub open spec fn commit_fits(m: Map<u32, WaylandSurfaceState>, id: u32) -> bool {
    m.contains_key(id) && m[id].pending_commit && m[id].compositor_surface is None
        ==> m[id].width * m[id].height <= usize::MAX
}

/// Every surface's next commit fits.
pub open spec fn commits_fit(m: Map<u32, WaylandSurfaceState>) -> bool {
    forall|id: u32| #[trigger] commit_fits(m, id)
}

impl BridgeState {
    pub fn new() -> (b: Self)
        ensures
            b.surfaces@ == Map::<u32, WaylandSurfaceState>::empty(),
    {
        BridgeState { surfaces: BTreeMap::new() }
    }
}

/// Registers surface `surface_id` at the default size, replacing any
/// surface with that id.
pub fn create_surface(bridge: &mut BridgeState, surface_id: u32)
    ensures
        final(bridge).surfaces@ == old(bridge).surfaces@.insert(surface_id, fresh_surface(surface_id)),
{
    bridge.surfaces.insert(
        surface_id,
        WaylandSurfaceState {
            surface_id,
            compositor_surface: None,
            buffer_id: 0,
            width: DEFAULT_SURFACE_WIDTH,
            height: DEFAULT_SURFACE_HEIGHT,
            pending_commit: false,
        },
    );
}

/// Records the buffer attached to a surface and its size, and marks a
/// commit pending.
pub fn attach_buffer(bridge: &mut BridgeState, surface_id: u32, buffer_id: u32, width: u32, height: u32)
    ensures
        final(bridge).surfaces@ == attached(old(bridge).surfaces@, surface_id, buffer_id, width, height),
{
    match bridge.surfaces.get(&surface_id) {
        Some(state) => {
            let mut s = *state;
            s.buffer_id = buffer_id;
            s.width = width;
            s.height = height;
            s.pending_commit = true;
            bridge.surfaces.insert(surface_id, s);
        },
        None => {},
    }
}

/// Applies a pending commit: the first one opens a window titled
/// "Chromium" at the surface's size.
pub fn commit_surface(bridge: &mut BridgeState, surface_id: u32)
    requires
        commit_fits(old(bridge).surfaces@, surface_id),
    ensures
        final(bridge).surfaces@ == committed(old(bridge).surfaces@, surface_id),
{
    match bridge.surfaces.get(&surface_id) {
        Some(state) => {
            if state.pending_commit {
                let mut s = *state;
                if s.compositor_surface.is_none() {
                    let mut surface = Surface::new(100, 100, s.width as usize, s.height as usize);
                    surface.set_title("Chromium");
                    s.compositor_surface = Some(0);
                }
                s.pending_commit = false;
                bridge.surfaces.insert(surface_id, s);
            }
        },
        None => {},
    }
}

/// Forgets a surface.
pub fn destroy_surface(bridge: &mut BridgeState, surface_id: u32)
    ensures
        final(bridge).surfaces@ == old(bridge).surfaces@.remove(surface_id),
{
    bridge.surfaces.remove(&surface_id);
}

/// The pixels of a client buffer. Buffers are not mapped into the kernel,
/// so there is never any.
pub fn get_buffer_data(buffer_id: u32) -> (r: Option<usize>)
    ensures
        r is None,
{
    None
}

/// Creating, committing and destroying surfaces keeps every next commit
/// within memory.
pub proof fn lemma_commits_fit_kept(m: Map<u32, WaylandSurfaceState>, id: u32)
    requires
        commits_fit(m),
    ensures
        commits_fit(m.insert(id, fresh_surface(id))),
        commits_fit(committed(m, id)),
        commits_fit(m.remove(id)),
{
    assert forall|k: u32| #[trigger] commit_fits(m.insert(id, fresh_surface(id)), k) by {
        assert(commit_fits(m, k));
        assert(800 * 600 <= usize::MAX);
    }
    assert forall|k: u32| #[trigger] commit_fits(committed(m, id), k) by {
        assert(commit_fits(m, k));
    }
    assert forall|k: u32| #[trigger] commit_fits(m.remove(id), k) by {
        assert(commit_fits(m, k));
    }
}

} // verus!
