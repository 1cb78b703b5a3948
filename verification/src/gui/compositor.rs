use vstd::prelude::*;
use vstd::string::StringSliceAdditionalSpecFns;
use crate::drivers::fb::Framebuffer;
use crate::gui::animation::{Animation, AnimationType, Clock};
use crate::gui::icons::{CURSOR_COLOR, cursor_region, draw_cursor};
use crate::gui::input::{InputState, get_mouse_buttons, get_mouse_pos, is_alt_pressed, is_key_pressed};
use crate::gui::renderer::{draw_panel, panel_image, render_window, window_fits, window_image};
use crate::gui::surface::Surface;
use crate::gui::theme::{Theme, default_theme};
use crate::gui::tiles::{TilingManager, can_retile, contains, focus_windows, placed, retiled, tile_geometry};
use crate::pixels::paint;

verus! {

/// The screen the compositor tiles.
pub const SCREEN_WIDTH: usize = 1024;
pub const SCREEN_HEIGHT: usize = 768;
/// Keys of the shortcuts, pressed with Alt: close, next window, new window.
pub const KEY_Q: u8 = 0x10;
pub const KEY_TAB: u8 = 0x0F;
pub const KEY_ENTER: u8 = 0x1C;
/// Length of a window's fade-in, in ticks.
pub const FADE_TICKS: u64 = 20;

/// The desktop: tiled windows, their running animations (by window
/// index), the window being dragged with the pointer's offset in it, and
/// the buttons at the last update.
pub struct Compositor {
    pub tiling: TilingManager,
    pub animations: Vec<(usize, Animation)>,
    pub dragging: Option<(usize, i32, i32)>,
    pub last_mouse_buttons: u8,
}

impl Compositor {
    /// The tiling is consistent and laid out for a 1024 by 768 screen with
    /// room for one more window.
    pub open spec fn wf(&self) -> bool {
        &&& self.tiling.wf()
        &&& self.tiling.screen_width == SCREEN_WIDTH
        &&& self.tiling.screen_height == SCREEN_HEIGHT
        &&& self.tiling.panel_height == 30
    }
}

/// `count` windows can be tiled on the compositor's screen.
pub open spec fn screen_fits(count: int) -> bool {
    can_retile(count, SCREEN_WIDTH as int, SCREEN_HEIGHT as int, 30)
}

/// Fill color of a window opened with the shortcut.
pub const NEW_WINDOW_FILL: u32 = 0xFF202030;

/// The tile of window `i` of `count` on the compositor's screen.
pub open spec fn screen_tile(count: int, i: int) -> (i32, i32, int, int) {
    tile_geometry(count, i, SCREEN_WIDTH as int, SCREEN_HEIGHT as int, 30)
}

/// The windows `ws` moved to their tiles on the compositor's screen.
pub open spec fn tiled(ws: Seq<Surface>) -> Seq<Surface> {
    Seq::new(
        ws.len(),
        |i: int| {
            let g = screen_tile(ws.len() as int, i);
            Surface { x: g.0, y: g.1, width: g.2 as usize, height: g.3 as usize, ..ws[i] }
        },
    )
}

proof fn lemma_tile_sizes(count: int, i: int)
    requires
        0 <= i < count,
        screen_fits(count),
    ensures
        0 <= screen_tile(count, i).2 <= 1024,
        0 <= screen_tile(count, i).3 <= 768,
{
    if count > 1 {
        let usable = 768 - 30;
        let num = usable - 8 * count;
        let d = count - 1;
        assert(0 <= num / d <= num) by (nonlinear_arith)
            requires
                num >= 0,
                d >= 1,
        ;
    }
}

/// A re-tiling of the compositor's screen puts every window where `tiled`
/// says.
proof fn lemma_tiled(ws: Seq<Surface>, w: Seq<Surface>)
    requires
        screen_fits(ws.len() as int),
        retiled(ws, w, SCREEN_WIDTH as int, SCREEN_HEIGHT as int, 30),
    ensures
        w == tiled(ws),
{
    assert forall|i: int| 0 <= i < ws.len() implies w[i] == tiled(ws)[i] by {
        lemma_tile_sizes(ws.len() as int, i);
        assert(placed(ws[i], w[i], screen_tile(ws.len() as int, i)));
    }
    assert(w =~= tiled(ws));
}

/// The focus after the focused window `fi` is closed and `rest` windows
/// remain: back onto the last one when it pointed past the end.
pub open spec fn closed_focus(rest: int, fi: usize) -> usize {
    if fi >= rest && rest > 0 { (rest - 1) as usize } else { fi }
}

/// The windows and focus after the close and cycle shortcuts of `input`
/// (the open shortcut comes after them): closing removes the focused
/// window and re-tiles the rest; cycling focuses the next window.
pub open spec fn before_spawn(ws: Seq<Surface>, fi: usize, input: InputState) -> (Seq<Surface>, usize) {
    let closing = input.alt_pressed && input.key_state@[KEY_Q as int] && ws.len() > 0;
    let ws1 = if closing { tiled(ws.remove(fi as int)) } else { ws };
    let f1 = if closing { closed_focus(ws.len() - 1, fi) } else { fi };
    if cycles(input) && ws1.len() > 0 {
        let next = (f1 + 1) % (ws1.len() as int);
        (focus_windows(ws1, f1, next), next as usize)
    } else {
        (ws1, f1)
    }
}

/// The title of a window opened with the shortcut.
pub open spec fn new_window_title() -> Seq<u8> {
    "New Window".spec_bytes()
}

/// `s` is the window the shortcut opens, at the tile `g`.
pub open spec fn new_window(s: Surface, g: (i32, i32, int, int)) -> bool {
    &&& s.x == g.0 && s.y == g.1 && s.width == g.2 && s.height == g.3
    &&& s.pixels@ == Seq::new(500 * 400, |i: int| NEW_WINDOW_FILL)
    &&& s.title_len == new_window_title().len()
    &&& s.title@.subrange(0, s.title_len as int) == new_window_title()
    &&& !s.focused
}

/// `ws1` with focus `fi1` is `ws` after the shortcut opened a window: the
/// old windows moved to their tiles among one more, the new one on top and
/// focused.
pub open spec fn spawned_windows(ws: Seq<Surface>, ws1: Seq<Surface>, fi1: usize) -> bool {
    let n = ws.len() as int;
    &&& ws1.len() == n + 1
    &&& fi1 == n
    &&& forall|i: int| 0 <= i < n ==> #[trigger] placed(ws[i], ws1[i], screen_tile(n + 1, i))
    &&& new_window(ws1[n], screen_tile(n + 1, n))
}

/// The fade-in a window opened at tick `t` gets.
pub open spec fn fade_in(t: u64) -> Animation {
    Animation { start_time: t, duration: FADE_TICKS, animation_type: AnimationType::FadeIn }
}

/// Opens a window: a `width` by `height` surface at `(x, y)` with a title,
/// filled with `fill`, added on top (the tiling moves it) and faded in.
fn open_window(comp: &mut Compositor, clock: &mut Clock, x: i32, y: i32, width: usize, height: usize, title: &str, fill: u32)
    requires
        old(comp).wf(),
        screen_fits(old(comp).tiling.windows@.len() as int),
        screen_fits(old(comp).tiling.windows@.len() + 1int),
        old(clock).ticks < u64::MAX,
        width * height <= usize::MAX,
    ensures
        final(comp).wf(),
        final(comp).tiling.windows@.len() == old(comp).tiling.windows@.len() + 1,
        final(comp).tiling.focused_index == old(comp).tiling.windows@.len(),
        final(comp).dragging == old(comp).dragging,
        final(comp).last_mouse_buttons == old(comp).last_mouse_buttons,
        final(clock).ticks == old(clock).ticks + 1,
        final(comp).animations@.len() == old(comp).animations@.len() + 1,
        final(comp).animations@.drop_last() == old(comp).animations@,
        final(comp).animations@.last().0 == old(comp).tiling.windows@.len(),
        final(comp).animations@.last().1.animation_type == AnimationType::FadeIn,
        final(comp).animations@.last().1.duration == FADE_TICKS,
        forall|i: int| 0 <= i < old(comp).tiling.windows@.len() ==> #[trigger] placed(
            old(comp).tiling.windows@[i],
            final(comp).tiling.windows@[i],
            screen_tile(old(comp).tiling.windows@.len() + 1int, i),
        ),
        ({
            let g = screen_tile(old(comp).tiling.windows@.len() + 1int, old(comp).tiling.windows@.len() as int);
            let w = final(comp).tiling.windows@.last();
            w.x == g.0 && w.y == g.1 && w.width == g.2 && w.height == g.3
        }),
        final(comp).animations@.last().1.start_time == final(clock).ticks,
        ({
            let w = final(comp).tiling.windows@.last();
            let b = title.spec_bytes();
            let n = if b.len() < 63 { b.len() as int } else { 63 };
            &&& w.pixels@ == Seq::new((width * height) as nat, |i: int| fill)
            &&& w.title_len == n
            &&& w.title@.subrange(0, n) == b.subrange(0, n)
            &&& !w.focused
        }),
{
    let mut surface = Surface::new(x, y, width, height);
    surface.set_title(title);
    surface.clear(fill);
    let idx = comp.tiling.windows.len();
    let ghost before = comp.animations@;
    let ghost sv = surface;
    let ghost target = comp.tiling.windows@.push(surface);
    comp.tiling.add_window(surface);
    proof {
        assert(target[idx as int] == sv);
        assert(placed(target[idx as int], comp.tiling.windows@[idx as int], screen_tile(target.len() as int, idx as int)));
        assert forall|i: int| 0 <= i < idx implies #[trigger] placed(
            old(comp).tiling.windows@[i],
            comp.tiling.windows@[i],
            screen_tile(idx + 1, i),
        ) by {
            assert(target[i] == old(comp).tiling.windows@[i]);
            assert(placed(target[i], comp.tiling.windows@[i], screen_tile(target.len() as int, i)));
        }
    }
    let anim = Animation::new(AnimationType::FadeIn, FADE_TICKS, clock);
    comp.animations.push((idx, anim));
    proof {
        assert(comp.animations@.drop_last() =~= before);
        assert(comp.tiling.windows@[idx as int].pixels == sv.pixels);
        assert(comp.tiling.windows@.last() == comp.tiling.windows@[idx as int]);
    }
}

/// Fill color of the demo windows.
pub const DEMO_FILL: u32 = 0xFF1a1a2e;

/// The title of demo window `j`.
pub open spec fn demo_title(j: int) -> Seq<u8> {
    if j == 0 { "Terminal".spec_bytes() } else { "File Manager".spec_bytes() }
}

/// `s` is a 400 by 300 demo window with the given title, at the tile `g`.
pub open spec fn demo_window(s: Surface, g: (i32, i32, int, int), title: Seq<u8>) -> bool {
    &&& s.x == g.0 && s.y == g.1 && s.width == g.2 && s.height == g.3
    &&& s.pixels@ == Seq::new(400 * 300, |k: int| DEMO_FILL)
    &&& s.title_len == title.len()
    &&& s.title@.subrange(0, s.title_len as int) == title
    &&& !s.focused
}

/// The fade-ins of the first `n` windows, opened at the ticks after `t`.
pub open spec fn demo_fades(t: u64, n: int) -> Seq<(usize, Animation)> {
    Seq::new(n as nat, |j: int| (j as usize, fade_in((t + j + 1) as u64)))
}

/// Opens the two demo windows, "Terminal" and "File Manager".
fn spawn_demo_windows(comp: &mut Compositor, clock: &mut Clock)
    requires
        old(comp).wf(),
        old(comp).tiling.windows@.len() == 0,
        old(comp).animations@.len() == 0,
        old(clock).ticks + 2 <= u64::MAX,
    ensures
        final(comp).wf(),
        final(comp).tiling.windows@.len() == 2,
        final(comp).tiling.focused_index == 1,
        final(comp).dragging == old(comp).dragging,
        final(comp).last_mouse_buttons == old(comp).last_mouse_buttons,
        final(clock).ticks == old(clock).ticks + 2,
        forall|j: int| 0 <= j < 2 ==> #[trigger] demo_window(final(comp).tiling.windows@[j], screen_tile(2, j), demo_title(j)),
        final(comp).animations@ == demo_fades(old(clock).ticks, 2),
{
    proof {
        reveal_strlit("Terminal");
        reveal_strlit("File Manager");
        vstd::string::is_ascii_spec_bytes("Terminal");
        vstd::string::is_ascii_spec_bytes("File Manager");
        assert(demo_title(0).len() == 8);
        assert(demo_title(1).len() == 12);
        assert(comp.animations@ =~= demo_fades(old(clock).ticks, 0));
    }
    let mut i: usize = 0;
    while i < 2
        invariant
            i <= 2,
            comp.wf(),
            comp.tiling.windows@.len() == i,
            comp.tiling.windows@.len() > 0 ==> comp.tiling.focused_index == i - 1,
            comp.dragging == old(comp).dragging,
            comp.last_mouse_buttons == old(comp).last_mouse_buttons,
            clock.ticks == old(clock).ticks + i,
            old(clock).ticks + 2 <= u64::MAX,
            demo_title(0).len() == 8,
            demo_title(1).len() == 12,
            forall|j: int| 0 <= j < i ==> #[trigger] demo_window(comp.tiling.windows@[j], screen_tile(i as int, j), demo_title(j)),
            comp.animations@ == demo_fades(old(clock).ticks, i as int),
        decreases 2 - i,
    {
        let title = if i == 0 { "Terminal" } else { "File Manager" };
        proof {
            assert(title.spec_bytes() == demo_title(i as int));
            assert(title.spec_bytes().subrange(0, title.spec_bytes().len() as int) =~= title.spec_bytes());
        }
        let offset = (i * 50) as i32;
        let ghost before = comp.tiling.windows@;
        open_window(comp, clock, 100 + offset, 100 + offset, 400, 300, title, DEMO_FILL);
        proof {
            let n = i as int;
            assert forall|j: int| 0 <= j < n + 1 implies #[trigger] demo_window(comp.tiling.windows@[j], screen_tile(n + 1, j), demo_title(j)) by {
                if j < n {
                    assert(placed(before[j], comp.tiling.windows@[j], screen_tile(n + 1, j)));
                    assert(demo_window(before[j], screen_tile(n, j), demo_title(j)));
                } else {
                    assert(comp.tiling.windows@[j] == comp.tiling.windows@.last());
                }
            }
            let a = comp.animations@;
            assert(a.last().1 == fade_in(clock.ticks));
            assert(a.last() == (n as usize, fade_in((old(clock).ticks + n + 1) as u64)));
            assert forall|j: int| 0 <= j < n + 1 implies a[j] == demo_fades(old(clock).ticks, n + 1)[j] by {
                if j < n {
                    assert(a.drop_last()[j] == a[j]);
                } else {
                    assert(a[j] == a.last());
                }
            }
            assert(a =~= demo_fades(old(clock).ticks, n + 1));
        }
        i += 1;
    }
}

/// Opens a new 500 by 400 window titled "New Window".
fn spawn_window(comp: &mut Compositor, clock: &mut Clock)
    requires
        old(comp).wf(),
        screen_fits(old(comp).tiling.windows@.len() as int),
        screen_fits(old(comp).tiling.windows@.len() + 1int),
        old(clock).ticks < u64::MAX,
    ensures
        final(comp).wf(),
        final(comp).tiling.windows@.len() == old(comp).tiling.windows@.len() + 1,
        final(comp).tiling.focused_index == old(comp).tiling.windows@.len(),
        final(comp).dragging == old(comp).dragging,
        final(comp).last_mouse_buttons == old(comp).last_mouse_buttons,
        final(clock).ticks == old(clock).ticks + 1,
        final(comp).animations@.len() == old(comp).animations@.len() + 1,
        spawned_windows(old(comp).tiling.windows@, final(comp).tiling.windows@, final(comp).tiling.focused_index),
        final(comp).animations@ == old(comp).animations@.push((old(comp).tiling.windows@.len() as usize, fade_in(final(clock).ticks))),
{
    open_window(comp, clock, 200, 150, 500, 400, "New Window", NEW_WINDOW_FILL);
    proof {
        reveal_strlit("New Window");
        vstd::string::is_ascii_spec_bytes("New Window");
        let n = old(comp).tiling.windows@.len() as int;
        let b = new_window_title();
        assert(b.len() == 10);
        assert(b.subrange(0, 10) =~= b);
        assert(comp.tiling.windows@.last() == comp.tiling.windows@[n]);
        assert(new_window(comp.tiling.windows@[n], screen_tile(n + 1, n)));
        assert(comp.animations@ =~= old(comp).animations@.push((n as usize, fade_in(clock.ticks))));
    }
}

/// Starts the desktop: an empty tiling of the 1024 by 768 screen, then the
/// two demo windows, each fading in. (The input devices are set up by the
/// caller.)
pub fn init(clock: &mut Clock) -> (comp: Compositor)
    requires
        old(clock).ticks + 2 <= u64::MAX,
    ensures
        comp.wf(),
        comp.tiling.windows@.len() == 2,
        comp.tiling.focused_index == 1,
        comp.animations@.len() == 2,
        comp.dragging is None,
        comp.last_mouse_buttons == 0,
        final(clock).ticks == old(clock).ticks + 2,
        forall|j: int| 0 <= j < 2 ==> #[trigger] demo_window(comp.tiling.windows@[j], screen_tile(2, j), demo_title(j)),
        comp.animations@ == demo_fades(old(clock).ticks, 2),
{
    let mut comp = Compositor {
        tiling: TilingManager::new(SCREEN_WIDTH, SCREEN_HEIGHT),
        animations: Vec::new(),
        dragging: None,
        last_mouse_buttons: 0,
    };
    spawn_demo_windows(&mut comp, clock);
    comp
}

/// Window `i` holds the point and no window above it does.
pub open spec fn is_top_hit(ws: Seq<Surface>, x: i32, y: i32, i: int) -> bool {
    0 <= i < ws.len() && contains(ws[i], x, y) && forall|j: int| i < j < ws.len() ==> !contains(#[trigger] ws[j], x, y)
}

/// The topmost window holding the point, if any.
pub open spec fn top_hit(ws: Seq<Surface>, x: i32, y: i32) -> Option<int> {
    if exists|i: int| is_top_hit(ws, x, y, i) {
        Some(choose|i: int| is_top_hit(ws, x, y, i))
    } else {
        None
    }
}


/// The close button of a window: 16 by 16 pixels at the right end of its
/// title bar, 24 pixels in from the window's right edge.
pub open spec fn close_box(w: Surface, x: i32, y: i32) -> bool {
    &&& w.x + w.width - 24 <= x < w.x + w.width - 8
    &&& w.y - 22 <= y < w.y - 6
}

/// Window `i`'s close button holds the point and no window above it has
/// its close button there.
pub open spec fn is_top_close(ws: Seq<Surface>, x: i32, y: i32, i: int) -> bool {
    0 <= i < ws.len() && close_box(ws[i], x, y) && forall|j: int| i < j < ws.len() ==> !close_box(#[trigger] ws[j], x, y)
}

/// The topmost window whose close button holds the point, if any.
pub open spec fn top_close(ws: Seq<Surface>, x: i32, y: i32) -> Option<int> {
    if exists|i: int| is_top_close(ws, x, y, i) {
        Some(choose|i: int| is_top_close(ws, x, y, i))
    } else {
        None
    }
}

/// A fresh press of the left button on a close button, where no window's
/// contents are under the pointer: that window is closed.
pub open spec fn clicks_close(c: Compositor, mx: i32, my: i32, buttons: u8) -> bool {
    let ws0 = c.tiling.windows@;
    &&& buttons & 1 != 0 && c.last_mouse_buttons & 1 == 0
    &&& top_hit(ws0, mx, my) is None
    &&& top_close(ws0, mx, my) is Some
}

/// What the pointer does in one update, as windows, focus and drag: a
/// fresh press of the left button focuses the topmost window under the
/// pointer and starts dragging it; a fresh press on a close button, with
/// no window's contents under the pointer, closes that window (the rest
/// are re-tiled); releasing ends the drag; while dragging, the window
/// follows the pointer.
pub open spec fn pointer_step(c: Compositor, mx: i32, my: i32, buttons: u8) -> (Seq<Surface>, usize, Option<(usize, i32, i32)>) {
    let ws0 = c.tiling.windows@;
    let pressed = buttons & 1 != 0 && c.last_mouse_buttons & 1 == 0;
    let hit = top_hit(ws0, mx, my);
    let (ws1, fi1, drag1) = if pressed && hit is Some {
        let i = hit->0;
        (focus_windows(ws0, c.tiling.focused_index, i), i as usize, Some((i as usize, (mx - ws0[i].x) as i32, (my - ws0[i].y) as i32)))
    } else if clicks_close(c, mx, my, buttons) {
        let i = top_close(ws0, mx, my)->0;
        (tiled(ws0.remove(i)), closed_focus(ws0.len() - 1, c.tiling.focused_index), None)
    } else {
        (ws0, c.tiling.focused_index, c.dragging)
    };
    let drag2 = if buttons & 1 == 0 { None } else { drag1 };
    let ws2 = match drag2 {
        Some((i, ox, oy)) => if i < ws1.len() {
            ws1.update(i as int, Surface { x: (mx - ox) as i32, y: (my - oy) as i32, ..ws1[i as int] })
        } else {
            ws1
        },
        None => ws1,
    };
    (ws2, fi1, drag2)
}

/// The topmost window whose close button holds the point, if any.
fn find_close_button(ws: &Vec<Surface>, x: i32, y: i32) -> (r: Option<usize>)
    ensures
        r matches Some(i) ==> is_top_close(ws@, x, y, i as int),
        r is None ==> forall|j: int| 0 <= j < ws@.len() ==> !close_box(#[trigger] ws@[j], x, y),
{
    let mut i = ws.len();
    while i > 0
        invariant
            i <= ws@.len(),
            forall|j: int| i <= j < ws@.len() ==> !close_box(#[trigger] ws@[j], x, y),
        decreases i,
    {
        i -= 1;
        let right = ws[i].x as i128 + ws[i].width as i128;
        let top = ws[i].y as i128;
        if right - 24 <= x as i128 && (x as i128) < right - 8 && top - 22 <= y as i128 && (y as i128) < top - 6 {
            return Some(i);
        }
    }
    None
}

/// The pointer arithmetic of an update stays in `i32`, and every window's
/// edges fit for the hit test.
pub open spec fn pointer_fits(c: Compositor, mx: i32, my: i32, buttons: u8) -> bool {
    let ws0 = c.tiling.windows@;
    let pressed = buttons & 1 != 0 && c.last_mouse_buttons & 1 == 0;
    let hit = top_hit(ws0, mx, my);
    &&& c.tiling.edges_fit()
    &&& (pressed && hit is Some) ==> {
        let i = hit->0;
        &&& i32::MIN <= mx - ws0[i].x <= i32::MAX
        &&& i32::MIN <= my - ws0[i].y <= i32::MAX
    }
    &&& clicks_close(c, mx, my, buttons) ==> screen_fits(ws0.len() - 1)
    &&& (pointer_step(c, mx, my, buttons).2 matches Some((i, ox, oy)) ==> {
        &&& i32::MIN <= mx - ox <= i32::MAX
        &&& i32::MIN <= my - oy <= i32::MAX
    })
}

/// Applies the pointer to focus, closing and dragging (see
/// `pointer_step`), and remembers the buttons.
pub fn handle_pointer(comp: &mut Compositor, mx: i32, my: i32, buttons: u8)
    requires
        old(comp).wf(),
        pointer_fits(*old(comp), mx, my, buttons),
    ensures
        final(comp).wf(),
        final(comp).tiling.same_screen(&old(comp).tiling),
        final(comp).animations@ == old(comp).animations@,
        final(comp).last_mouse_buttons == buttons,
        (final(comp).tiling.windows@, final(comp).tiling.focused_index, final(comp).dragging) == pointer_step(*old(comp), mx, my, buttons),
{
    let ghost c0 = *comp;
    if (buttons & 1) != 0 && (comp.last_mouse_buttons & 1) == 0 {
        match comp.tiling.find_window_at(mx, my) {
            Some(idx) => {
                proof {
                    let ws = c0.tiling.windows@;
                    assert(is_top_hit(ws, mx, my, idx as int));
                    let k = choose|i: int| is_top_hit(ws, mx, my, i);
                    if k < idx {
                        assert(!contains(ws[idx as int], mx, my));
                    } else if k > idx {
                        assert(!contains(ws[k], mx, my));
                    }
                }
                let wx = comp.tiling.windows[idx].x;
                let wy = comp.tiling.windows[idx].y;
                comp.tiling.focus_window(idx);
                comp.dragging = Some((idx, mx - wx, my - wy));
            },
            None => {
                match find_close_button(&comp.tiling.windows, mx, my) {
                    Some(idx) => {
                        proof {
                            let ws = c0.tiling.windows@;
                            assert(is_top_close(ws, mx, my, idx as int));
                            let k = choose|i: int| is_top_close(ws, mx, my, i);
                            if k < idx {
                                assert(!close_box(ws[idx as int], mx, my));
                            } else if k > idx {
                                assert(!close_box(ws[k], mx, my));
                            }
                            assert(top_hit(ws, mx, my) is None);
                        }
                        comp.tiling.remove_window(idx);
                        proof {
                            lemma_tiled(c0.tiling.windows@.remove(idx as int), comp.tiling.windows@);
                        }
                        comp.dragging = None;
                    },
                    None => {},
                }
            },
        }
    }
    if (buttons & 1) == 0 {
        comp.dragging = None;
    }
    match comp.dragging {
        Some((idx, ox, oy)) => {
            if idx < comp.tiling.windows.len() {
                let mut w = comp.tiling.windows.remove(idx);
                w.x = mx - ox;
                w.y = my - oy;
                comp.tiling.windows.insert(idx, w);
            }
        },
        None => {},
    }
    comp.last_mouse_buttons = buttons;
}

/// Which shortcuts an update acts on: Alt with Q (close the focused
/// window, when there is one), Tab (focus the next) and Enter (open one).
pub open spec fn closes(c: Compositor, input: InputState) -> bool {
    input.alt_pressed && input.key_state@[KEY_Q as int] && c.tiling.windows@.len() > 0
}

pub open spec fn cycles(input: InputState) -> bool {
    input.alt_pressed && input.key_state@[KEY_TAB as int]
}

pub open spec fn spawns(input: InputState) -> bool {
    input.alt_pressed && input.key_state@[KEY_ENTER as int]
}

/// Applies the keyboard shortcuts, in order: close, cycle, open.
pub fn handle_shortcuts(comp: &mut Compositor, input: &InputState, clock: &mut Clock)
    requires
        old(comp).wf(),
        closes(*old(comp), *input) ==> screen_fits(old(comp).tiling.windows@.len() - 1),
        spawns(*input) ==> {
            let n = old(comp).tiling.windows@.len() - (if closes(*old(comp), *input) { 1int } else { 0 });
            screen_fits(n) && screen_fits(n + 1) && old(clock).ticks < u64::MAX
        },
    ensures
        final(comp).wf(),
        final(comp).dragging == old(comp).dragging,
        final(comp).last_mouse_buttons == old(comp).last_mouse_buttons,
        final(comp).tiling.windows@.len() == old(comp).tiling.windows@.len()
            - (if closes(*old(comp), *input) { 1int } else { 0 }) + (if spawns(*input) { 1int } else { 0 }),
        final(comp).animations@.len() == old(comp).animations@.len() + (if spawns(*input) { 1int } else { 0 }),
        final(clock).ticks == old(clock).ticks + (if spawns(*input) { 1int } else { 0 }),
        !closes(*old(comp), *input) && !cycles(*input) && !spawns(*input) ==> *final(comp) == *old(comp),
        ({
            let (ws2, f2) = before_spawn(old(comp).tiling.windows@, old(comp).tiling.focused_index, *input);
            if spawns(*input) {
                &&& spawned_windows(ws2, final(comp).tiling.windows@, final(comp).tiling.focused_index)
                &&& final(comp).animations@ == old(comp).animations@.push((ws2.len() as usize, fade_in(final(clock).ticks)))
            } else {
                &&& final(comp).tiling.windows@ == ws2
                &&& final(comp).tiling.focused_index == f2
                &&& final(comp).animations@ == old(comp).animations@
            }
        }),
{
    let ghost ws0 = comp.tiling.windows@;
    let ghost f0 = comp.tiling.focused_index;
    if is_alt_pressed(input) && is_key_pressed(input, KEY_Q) {
        if comp.tiling.windows.len() > 0 {
            let f = comp.tiling.focused_index;
            comp.tiling.remove_window(f);
            proof {
                lemma_tiled(ws0.remove(f as int), comp.tiling.windows@);
            }
        }
    }
    let ghost ws1 = comp.tiling.windows@;
    let ghost f1 = comp.tiling.focused_index;
    proof {
        let closing = input.alt_pressed && input.key_state@[KEY_Q as int] && ws0.len() > 0;
        assert(ws1 == (if closing { tiled(ws0.remove(f0 as int)) } else { ws0 }));
        assert(f1 == (if closing { closed_focus(ws0.len() - 1, f0) } else { f0 }));
    }
    if is_alt_pressed(input) && is_key_pressed(input, KEY_TAB) {
        comp.tiling.focus_next();
    }
    proof {
        let (ws2, f2) = before_spawn(ws0, f0, *input);
        assert(comp.tiling.windows@ == ws2);
        assert(comp.tiling.focused_index == f2);
    }
    if is_alt_pressed(input) && is_key_pressed(input, KEY_ENTER) {
        spawn_window(comp, clock);
    }
}

/// One update of the desktop from the input: the pointer (see
/// `handle_pointer`), then the shortcuts (see `handle_shortcuts`).
/// Finished animations are dropped by the caller, which can tell.
pub fn update(comp: &mut Compositor, input: &InputState, clock: &mut Clock)
    requires
        old(comp).wf(),
        pointer_fits(*old(comp), input.mouse_x, input.mouse_y, input.mouse_buttons),
        ({
            let n = pointer_step(*old(comp), input.mouse_x, input.mouse_y, input.mouse_buttons).0.len();
            let closing = input.alt_pressed && input.key_state@[KEY_Q as int] && n > 0;
            &&& closing ==> screen_fits(n - 1)
            &&& spawns(*input) ==> {
                let m = n - (if closing { 1int } else { 0 });
                screen_fits(m) && screen_fits(m + 1) && old(clock).ticks < u64::MAX
            }
        }),
    ensures
        final(comp).wf(),
        final(comp).last_mouse_buttons == input.mouse_buttons,
        final(comp).dragging == pointer_step(*old(comp), input.mouse_x, input.mouse_y, input.mouse_buttons).2,
        ({
            let (ws, fi, drag) = pointer_step(*old(comp), input.mouse_x, input.mouse_y, input.mouse_buttons);
            let closing = input.alt_pressed && input.key_state@[KEY_Q as int] && ws.len() > 0;
            &&& final(comp).tiling.windows@.len() == ws.len() - (if closing { 1int } else { 0 }) + (if spawns(*input) { 1int } else { 0 })
            &&& final(comp).animations@.len() == old(comp).animations@.len() + (if spawns(*input) { 1int } else { 0 })
            &&& !closing && !cycles(*input) && !spawns(*input) ==> final(comp).tiling.windows@ == ws && final(comp).tiling.focused_index == fi
                && final(comp).animations@ == old(comp).animations@
        }),
        final(clock).ticks == old(clock).ticks + (if spawns(*input) { 1int } else { 0 }),
        ({
            let (ws, fi, drag) = pointer_step(*old(comp), input.mouse_x, input.mouse_y, input.mouse_buttons);
            let (ws2, f2) = before_spawn(ws, fi, *input);
            if spawns(*input) {
                &&& spawned_windows(ws2, final(comp).tiling.windows@, final(comp).tiling.focused_index)
                &&& final(comp).animations@ == old(comp).animations@.push((ws2.len() as usize, fade_in(final(clock).ticks)))
            } else {
                &&& final(comp).tiling.windows@ == ws2
                &&& final(comp).tiling.focused_index == f2
                &&& final(comp).animations@ == old(comp).animations@
            }
        }),
{
    let (mx, my) = get_mouse_pos(input);
    let buttons = get_mouse_buttons(input);
    handle_pointer(comp, mx, my, buttons);
    handle_shortcuts(comp, input, clock);
}

/// The alpha a window is drawn with: that of the first animation for it,
/// else fully opaque.
pub open spec fn alpha_of(anims: Seq<(usize, u8)>, i: int) -> u8
    decreases anims.len(),
{
    if anims.len() == 0 {
        255
    } else if anims[0].0 == i {
        anims[0].1
    } else {
        alpha_of(anims.drop_first(), i)
    }
}

/// The alpha window `i` is drawn with, given each animation's window and
/// current alpha in order.
pub fn window_alpha(anims: &[(usize, u8)], i: usize) -> (a: u8)
    ensures
        a == alpha_of(anims@, i as int),
{
    let mut k: usize = 0;
    proof {
        assert(anims@.subrange(0, anims@.len() as int) =~= anims@);
    }
    while k < anims.len()
        invariant
            k <= anims@.len(),
            alpha_of(anims@.subrange(k as int, anims@.len() as int), i as int) == alpha_of(anims@, i as int),
        decreases anims@.len() - k,
    {
        proof {
            assert(anims@.subrange(k as int, anims@.len() as int).drop_first() =~= anims@.subrange(k as int + 1, anims@.len() as int));
        }
        if anims[k].0 == i {
            return anims[k].1;
        }
        k += 1;
    }
    proof {
        assert(anims@.subrange(k as int, anims@.len() as int).len() == 0);
    }
    255
}

/// The buffer after windows `0..n` are drawn in order, each with its alpha.
pub open spec fn windows_image(s: Seq<u32>, fbw: int, ws: Seq<Surface>, anims: Seq<(usize, u8)>, n: int) -> Seq<u32>
    decreases n,
{
    if n <= 0 {
        s
    } else {
        window_image(windows_image(s, fbw, ws, anims, n - 1), fbw, ws[n - 1], alpha_of(anims, n - 1))
    }
}

/// The frame `render` draws: the background, the panel, the windows
/// bottom to top, and the cursor.
pub open spec fn frame_image(s: Seq<u32>, fbw: int, ws: Seq<Surface>, anims: Seq<(usize, u8)>, mx: i32, my: i32) -> Seq<u32> {
    let th = default_theme();
    let bg = Seq::new(s.len(), |i: int| th.bg_color);
    let panel = panel_image(bg, fbw, SCREEN_WIDTH as int, 30);
    let wins = windows_image(panel, fbw, ws, anims, ws.len() as int);
    paint(wins, fbw, |px: int, py: int| cursor_region(px, py, (mx as usize) as int, (my as usize) as int), |px: int, py: int| CURSOR_COLOR)
}

/// Draws a frame and shows it: background, panel, every window with the
/// alpha of its animation (`anims` gives each animation's window and
/// current alpha), and the cursor at the pointer.
pub fn render(comp: &Compositor, fb: &mut Framebuffer, input: &InputState, anims: &[(usize, u8)])
    requires
        old(fb).wf(),
        forall|i: int| 0 <= i < comp.tiling.windows@.len() ==> window_fits(#[trigger] comp.tiling.windows@[i]),
        0 <= input.mouse_x <= 1023,
        0 <= input.mouse_y <= 767,
    ensures
        final(fb).wf(),
        final(fb).width == old(fb).width && final(fb).height == old(fb).height,
        final(fb).pixels() == frame_image(old(fb).pixels(), old(fb).width as int, comp.tiling.windows@, anims@, input.mouse_x, input.mouse_y),
        final(fb).buffer@ == final(fb).pixels(),
{
    let theme = Theme::default();
    fb.clear(theme.bg_color);
    draw_panel(fb, SCREEN_WIDTH, 30);
    let ghost W = fb.width as int;
    let ghost base = fb.pixels();
    let mut i: usize = 0;
    while i < comp.tiling.windows.len()
        invariant
            fb.wf(),
            fb.width == old(fb).width,
            fb.height == old(fb).height,
            W == fb.width,
            i <= comp.tiling.windows@.len(),
            forall|k: int| 0 <= k < comp.tiling.windows@.len() ==> window_fits(#[trigger] comp.tiling.windows@[k]),
            fb.pixels() == windows_image(base, W, comp.tiling.windows@, anims@, i as int),
        decreases comp.tiling.windows@.len() - i,
    {
        let alpha = window_alpha(anims, i);
        render_window(fb, &comp.tiling.windows[i], alpha);
        i += 1;
    }
    let (mx, my) = get_mouse_pos(input);
    draw_cursor(fb, mx as usize, my as usize);
    fb.swap();
}

} // verus!
