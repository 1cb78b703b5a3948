use vstd::prelude::*;
use crate::drivers::fb::Framebuffer;

verus! {

pub struct EglDisplay {
    pub id: usize,
    pub native_display: usize,
}

pub struct EglContext {
    pub id: usize,
    pub display_id: usize,
    pub config: usize,
}

pub struct EglSurface {
    pub id: usize,
    pub display_id: usize,
    pub width: u32,
    pub height: u32,
    pub buffer: usize,
}

/// Displays, contexts and surfaces; each list hands out ids from 1 in order.
pub struct EglState {
    pub displays: Vec<EglDisplay>,
    pub contexts: Vec<EglContext>,
    pub surfaces: Vec<EglSurface>,
}

impl EglState {
    pub fn new() -> (s: Self)
        ensures
            s.displays@.len() == 0 && s.contexts@.len() == 0 && s.surfaces@.len() == 0,
    {
        EglState { displays: Vec::new(), contexts: Vec::new(), surfaces: Vec::new() }
    }
}

/// `eglGetDisplay`: registers a display; its id is the new count.
pub fn get_display(state: &mut EglState, native_display: usize) -> (id: usize)
    requires
        old(state).displays@.len() < usize::MAX,
    ensures
        id == old(state).displays@.len() + 1,
        final(state).displays@ == old(state).displays@.push(EglDisplay { id, native_display }),
        final(state).contexts@ == old(state).contexts@,
        final(state).surfaces@ == old(state).surfaces@,
{
    let id = state.displays.len() + 1;
    state.displays.push(EglDisplay { id, native_display });
    id
}

/// `eglInitialize`: succeeds with version 1.5; the caller stores the major
/// and minor numbers where its non-null pointers point.
pub fn initialize(display: usize) -> (r: (bool, i32, i32))
    ensures
        r == (true, 1i32, 5i32),
{
    (true, 1, 5)
}

/// `eglChooseConfig`: succeeds with the single config 1; the caller stores
/// it (when it passed a buffer of positive size) and the count 1.
pub fn choose_config(display: usize, config_size: i32) -> (r: (bool, usize, i32))
    ensures
        r == (true, 1usize, 1i32),
{
    (true, 1, 1)
}

/// `eglCreateContext`: registers a context; its id is the new count.
pub fn create_context(state: &mut EglState, display: usize, config: usize, share_context: usize) -> (id: usize)
    requires
        old(state).contexts@.len() < usize::MAX,
    ensures
        id == old(state).contexts@.len() + 1,
        final(state).contexts@ == old(state).contexts@.push(EglContext { id, display_id: display, config }),
        final(state).displays@ == old(state).displays@,
        final(state).surfaces@ == old(state).surfaces@,
{
    let id = state.contexts.len() + 1;
    state.contexts.push(EglContext { id, display_id: display, config });
    id
}

/// `eglCreateWindowSurface`: registers a 1024 by 768 surface drawing into
/// the native window; its id is the new count.
pub fn create_window_surface(state: &mut EglState, display: usize, config: usize, native_window: usize) -> (id: usize)
    requires
        old(state).surfaces@.len() < usize::MAX,
    ensures
        id == old(state).surfaces@.len() + 1,
        final(state).surfaces@ == old(state).surfaces@.push(
            EglSurface { id, display_id: display, width: 1024, height: 768, buffer: native_window },
        ),
        final(state).displays@ == old(state).displays@,
        final(state).contexts@ == old(state).contexts@,
{
    let id = state.surfaces.len() + 1;
    state.surfaces.push(EglSurface { id, display_id: display, width: 1024, height: 768, buffer: native_window });
    id
}

/// `eglMakeCurrent`: always succeeds.
pub fn make_current(display: usize, draw: usize, read: usize, context: usize) -> (r: bool)
    ensures
        r,
{
    true
}

pub open spec fn has_live_surface(s: Seq<EglSurface>, id: usize) -> bool {
    exists|i: int|
        0 <= i < s.len() && s[i].id == id && s[i].buffer != 0 && forall|j: int| 0 <= j < i ==> s[j].id != id
}

/// `eglSwapBuffers`: when the first surface with that id has a window,
/// shows the framebuffer's drawing. Always succeeds.
pub fn swap_buffers(state: &EglState, fb: &mut Framebuffer, display: usize, surface: usize) -> (r: bool)
    requires
        old(fb).wf(),
    ensures
        r,
        final(fb).wf(),
        final(fb).width == old(fb).width && final(fb).height == old(fb).height,
        final(fb).pixels() == old(fb).pixels(),
        final(fb).buffer@ == (if has_live_surface(state.surfaces@, surface) { old(fb).pixels() } else { old(fb).buffer@ }),
{
    let mut i: usize = 0;
    while i < state.surfaces.len()
        invariant
            i <= state.surfaces@.len(),
            forall|j: int| 0 <= j < i ==> state.surfaces@[j].id != surface,
            *fb == *old(fb),
            fb.wf(),
        decreases state.surfaces@.len() - i,
    {
        if state.surfaces[i].id == surface {
            if state.surfaces[i].buffer != 0 {
                fb.swap();
            } else {
                proof {
                    assert forall|k: int| 0 <= k < state.surfaces@.len() && state.surfaces@[k].id == surface && state.surfaces@[k].buffer != 0
                        implies exists|j: int| 0 <= j < k && state.surfaces@[j].id == surface by {
                        if k > i {
                            assert(0 <= i < k);
                        }
                    }
                }
            }
            return true;
        }
        i += 1;
    }
    true
}

/// `eglGetProcAddress`: no extension functions; answers 0.
pub fn get_proc_address(procname: usize) -> (r: usize)
    ensures
        r == 0,
{
    0
}

} // verus!
