use vstd::prelude::*;
use crate::gui::surface::Surface;

verus! {

/// The tiling window manager: windows in stacking order (the last one is
/// on top), the focused one, and the screen it tiles.
pub struct TilingManager {
    pub windows: Vec<Surface>,
    pub focused_index: usize,
    pub screen_width: usize,
    pub screen_height: usize,
    pub panel_height: usize,
}

/// Gap between tiles and around the screen's edge.
pub const GAP: usize = 8;
pub const PANEL_HEIGHT: usize = 30;

/// The geometry `retile` gives window `i` of `count`: the first window is
/// the master on the left (the whole screen with one window), the others
/// stack down the right half.
pub open spec fn tile_geometry(count: int, i: int, sw: int, sh: int, panel: int) -> (i32, i32, int, int) {
    let usable = sh - panel;
    if count == 1 {
        (8i32, (panel + 8) as i32, sw - 16, usable - 16)
    } else {
        let master_width = sw / 2 - 16;
        let stack_height = (usable - 8 * count) / (count - 1);
        if i == 0 {
            (8i32, (panel + 8) as i32, master_width, usable - 16)
        } else {
            (((sw / 2 + 8) as i32), ((panel + 8 + (i - 1) * (stack_height + 8)) as i32), master_width, stack_height)
        }
    }
}

/// The screen is large enough for `retile` with `count` windows (else the
/// unsigned arithmetic would underflow).
pub open spec fn can_retile(count: int, sw: int, sh: int, panel: int) -> bool {
    count == 0 || {
        &&& sh >= panel
        &&& if count == 1 {
            sw >= 16 && sh - panel >= 16
        } else {
            sw / 2 >= 16 && sh - panel >= 16 && sh - panel >= 8 * count
        }
    }
}

/// `b` is `a` moved to the geometry `g`, with everything else kept.
pub open spec fn placed(a: Surface, b: Surface, g: (i32, i32, int, int)) -> bool {
    &&& b.x == g.0 && b.y == g.1 && b.width == g.2 && b.height == g.3
    &&& b.pixels == a.pixels && b.focused == a.focused && b.title == a.title && b.title_len == a.title_len
}

/// Every window of `new` is the window of `old` at the same place, moved to
/// its tile.
pub open spec fn retiled(old: Seq<Surface>, new: Seq<Surface>, sw: int, sh: int, panel: int) -> bool {
    &&& new.len() == old.len()
    &&& forall|i: int| 0 <= i < old.len() ==> #[trigger] placed(old[i], new[i], tile_geometry(old.len() as int, i, sw, sh, panel))
}

/// The windows after window `i` is focused, the focus having been at `fi`.
pub open spec fn focus_windows(ws: Seq<Surface>, fi: usize, i: int) -> Seq<Surface> {
    let cleared = if fi < ws.len() { ws.update(fi as int, Surface { focused: false, ..ws[fi as int] }) } else { ws };
    cleared.update(i, Surface { focused: true, ..cleared[i] })
}

/// Adding a window and then removing it again gives back a tiled layout
/// exactly: every other window returns to its tile, with its contents,
/// focus flag and title as they were.
pub proof fn lemma_add_then_remove(ws: Seq<Surface>, s: Surface, added: Seq<Surface>, back: Seq<Surface>, sw: int, sh: int, panel: int)
    requires
        retiled(ws, ws, sw, sh, panel),
        retiled(ws.push(s), added, sw, sh, panel),
        retiled(added.remove(ws.len() as int), back, sw, sh, panel),
    ensures
        back == ws,
{
    let n = ws.len() as int;
    assert forall|i: int| 0 <= i < n implies back[i] == ws[i] by {
        assert(placed(ws[i], ws[i], tile_geometry(n, i, sw, sh, panel)));
        assert(ws.push(s)[i] == ws[i]);
        assert(placed(ws.push(s)[i], added[i], tile_geometry(n + 1, i, sw, sh, panel)));
        assert(added.remove(n)[i] == added[i]);
        assert(placed(added.remove(n)[i], back[i], tile_geometry(n, i, sw, sh, panel)));
    }
    assert(back =~= ws);
}

fn place(windows: &mut Vec<Surface>, i: usize, x: i32, y: i32, width: usize, height: usize)
    requires
        i < old(windows)@.len(),
    ensures
        final(windows)@.len() == old(windows)@.len(),
        forall|j: int| 0 <= j < old(windows)@.len() && j != i ==> final(windows)@[j] == old(windows)@[j],
        placed(old(windows)@[i as int], final(windows)@[i as int], (x, y, width as int, height as int)),
{
    let mut w = windows.remove(i);
    w.x = x;
    w.y = y;
    w.width = width;
    w.height = height;
    windows.insert(i, w);
}

impl TilingManager {
    /// The focus points at a window whenever there is one.
    pub open spec fn wf(&self) -> bool {
        self.windows@.len() > 0 ==> self.focused_index < self.windows@.len()
    }

    /// The screen can be tiled with `count` windows.
    pub open spec fn fits(&self, count: int) -> bool {
        can_retile(count, self.screen_width as int, self.screen_height as int, self.panel_height as int)
    }

    pub open spec fn same_screen(&self, other: &Self) -> bool {
        &&& self.screen_width == other.screen_width
        &&& self.screen_height == other.screen_height
        &&& self.panel_height == other.panel_height
    }

    /// An empty manager for a `width` by `height` screen with a 30-pixel
    /// panel.
    pub fn new(width: usize, height: usize) -> (t: Self)
        ensures
            t.wf(),
            t.windows@.len() == 0,
            t.focused_index == 0,
            t.screen_width == width,
            t.screen_height == height,
            t.panel_height == PANEL_HEIGHT,
    {
        TilingManager {
            windows: Vec::new(),
            focused_index: 0,
            screen_width: width,
            screen_height: height,
            panel_height: PANEL_HEIGHT,
        }
    }

    /// Lays the windows out: one window fills the screen below the panel
    /// (8-pixel gaps); with more, the first takes the left half and the
    /// others share the right half, one above the other.
    pub fn retile(&mut self)
        requires
            old(self).fits(old(self).windows@.len() as int),
        ensures
            final(self).same_screen(old(self)),
            final(self).focused_index == old(self).focused_index,
            retiled(old(self).windows@, final(self).windows@, old(self).screen_width as int,
                old(self).screen_height as int, old(self).panel_height as int),
    {
        let count = self.windows.len();
        let ghost sw = self.screen_width as int;
        let ghost sh = self.screen_height as int;
        let ghost panel = self.panel_height as int;
        if count == 0 {
            return;
        }
        let usable_height = self.screen_height - self.panel_height;
        let gap: usize = GAP;
        if count == 1 {
            let x = gap as i32;
            let y = (self.panel_height + gap) as i32;
            let w = self.screen_width - gap * 2;
            let h = usable_height - gap * 2;
            place(&mut self.windows, 0, x, y, w, h);
        } else {
            let master_width = self.screen_width / 2 - gap * 2;
            let stack_width = self.screen_width / 2 - gap * 2;
            let stack_height = (usable_height - gap * count) / (count - 1);
            let x0 = gap as i32;
            let y0 = (self.panel_height + gap) as i32;
            let h0 = usable_height - gap * 2;
            place(&mut self.windows, 0, x0, y0, master_width, h0);
            proof {
                assert(stack_height * (count - 1) <= usable_height - 8 * count) by (nonlinear_arith)
                    requires
                        stack_height == (usable_height - 8 * count) / (count - 1),
                        count > 1,
                        usable_height - 8 * count >= 0,
                ;
            }
            let mut i: usize = 1;
            while i < count
                invariant
                    1 <= i <= count,
                    count == self.windows@.len(),
                    count == old(self).windows@.len(),
                    count > 1,
                    self.screen_width == old(self).screen_width,
                    self.screen_height == old(self).screen_height,
                    self.panel_height == old(self).panel_height,
                    self.focused_index == old(self).focused_index,
                    sw == self.screen_width,
                    sh == self.screen_height,
                    panel == self.panel_height,
                    usable_height == sh - panel,
                    usable_height >= 8 * count,
                    stack_width == sw / 2 - 16,
                    stack_height == (usable_height - 8 * count) / (count - 1),
                    stack_height * (count - 1) <= usable_height - 8 * count,
                    gap == 8,
                    forall|j: int| 0 <= j < i ==> #[trigger] placed(old(self).windows@[j], self.windows@[j], tile_geometry(count as int, j, sw, sh, panel)),
                    forall|j: int| i <= j < count ==> self.windows@[j] == old(self).windows@[j],
                decreases count - i,
            {
                proof {
                    assert((i - 1) * (stack_height + 8) <= usable_height - 16) by (nonlinear_arith)
                        requires
                            1 <= i < count,
                            stack_height >= 0,
                            stack_height * (count - 1) <= usable_height - 8 * count,
                    ;
                }
                let x = (self.screen_width / 2 + gap) as i32;
                let y = (self.panel_height + gap + (i - 1) * (stack_height + gap)) as i32;
                place(&mut self.windows, i, x, y, stack_width, stack_height);
                i += 1;
            }
        }
    }

    /// Adds a window on top, retiles, and focuses it. (The window's own
    /// `focused` flag is left as it was.)
    pub fn add_window(&mut self, surface: Surface)
        requires
            old(self).fits(old(self).windows@.len() as int),
            old(self).fits(old(self).windows@.len() + 1int),
        ensures
            final(self).wf(),
            final(self).same_screen(old(self)),
            final(self).focused_index == old(self).windows@.len(),
            retiled(old(self).windows@.push(surface), final(self).windows@, old(self).screen_width as int,
                old(self).screen_height as int, old(self).panel_height as int),
    {
        self.retile();
        let ghost mid = self.windows@;
        self.windows.push(surface);
        let ghost pushed = self.windows@;
        self.retile();
        self.focused_index = self.windows.len() - 1;
        proof {
            let sw = self.screen_width as int;
            let sh = self.screen_height as int;
            let panel = self.panel_height as int;
            let target = old(self).windows@.push(surface);
            assert forall|i: int| 0 <= i < target.len() implies #[trigger] placed(target[i], self.windows@[i], tile_geometry(target.len() as int, i, sw, sh, panel)) by {
                assert(placed(pushed[i], self.windows@[i], tile_geometry(target.len() as int, i, sw, sh, panel)));
                if i < old(self).windows@.len() {
                    assert(pushed[i] == mid[i]);
                    assert(placed(old(self).windows@[i], mid[i], tile_geometry(old(self).windows@.len() as int, i, sw, sh, panel)));
                } else {
                    assert(pushed[i] == surface);
                }
            }
        }
    }

    /// Removes window `index` when there is one; the focus moves to the top
    /// window when it pointed past the end, and the rest are retiled.
    pub fn remove_window(&mut self, index: usize)
        requires
            old(self).fits(old(self).windows@.len() - 1),
        ensures
            final(self).same_screen(old(self)),
            old(self).wf() ==> final(self).wf(),
            index < old(self).windows@.len() ==> {
                let rest = old(self).windows@.remove(index as int);
                &&& retiled(rest, final(self).windows@, old(self).screen_width as int,
                    old(self).screen_height as int, old(self).panel_height as int)
                &&& final(self).focused_index == (if old(self).focused_index >= rest.len() && rest.len() > 0 {
                    (rest.len() - 1) as usize
                } else {
                    old(self).focused_index
                })
            },
            index >= old(self).windows@.len() ==> final(self).windows@ == old(self).windows@
                && final(self).focused_index == old(self).focused_index,
    {
        if index < self.windows.len() {
            self.windows.remove(index);
            if self.focused_index >= self.windows.len() && self.windows.len() > 0 {
                self.focused_index = self.windows.len() - 1;
            }
            self.retile();
        }
    }

    /// Focuses window `index` when there is one: the previously focused
    /// window (if the focus pointed at one) loses its flag, the new one gets
    /// it.
    pub fn focus_window(&mut self, index: usize)
        ensures
            final(self).same_screen(old(self)),
            old(self).wf() ==> final(self).wf(),
            index < old(self).windows@.len() ==> final(self).focused_index == index
                && final(self).windows@ == focus_windows(old(self).windows@, old(self).focused_index, index as int),
            index >= old(self).windows@.len() ==> final(self).windows@ == old(self).windows@
                && final(self).focused_index == old(self).focused_index,
    {
        if index < self.windows.len() {
            if self.focused_index < self.windows.len() {
                let f = self.focused_index;
                let mut w = self.windows.remove(f);
                w.focused = false;
                self.windows.insert(f, w);
            }
            self.focused_index = index;
            let mut w = self.windows.remove(index);
            w.focused = true;
            self.windows.insert(index, w);
        }
    }

    /// Focuses the next window, wrapping around.
    pub fn focus_next(&mut self)
        requires
            old(self).wf(),
        ensures
            final(self).wf(),
            final(self).same_screen(old(self)),
            old(self).windows@.len() > 0 ==> final(self).focused_index == (old(self).focused_index + 1) % (old(self).windows@.len() as int),
            old(self).windows@.len() > 0 ==> final(self).windows@ == focus_windows(
                old(self).windows@,
                old(self).focused_index,
                (old(self).focused_index + 1) % (old(self).windows@.len() as int),
            ),
            old(self).windows@.len() == 0 ==> final(self).windows@ == old(self).windows@
                && final(self).focused_index == old(self).focused_index,
    {
        if self.windows.len() > 0 {
            let next = (self.focused_index + 1) % self.windows.len();
            self.focus_window(next);
        }
    }

    /// All windows' edges fit an `i32`.
    pub open spec fn edges_fit(&self) -> bool {
        forall|i: int| 0 <= i < self.windows@.len() ==> #[trigger] self.windows@[i].edges_fit()
    }

    /// The topmost window (the last in stacking order) that contains the
    /// point, if any.
    pub fn find_window_at(&self, x: i32, y: i32) -> (r: Option<usize>)
        requires
            self.edges_fit(),
        ensures
            r matches Some(i) ==> i < self.windows@.len() && contains(self.windows@[i as int], x, y)
                && forall|j: int| i < j < self.windows@.len() ==> !contains(#[trigger] self.windows@[j], x, y),
            r is None ==> forall|j: int| 0 <= j < self.windows@.len() ==> !contains(#[trigger] self.windows@[j], x, y),
    {
        let mut i = self.windows.len();
        while i > 0
            invariant
                i <= self.windows@.len(),
                self.edges_fit(),
                forall|j: int| i <= j < self.windows@.len() ==> !contains(#[trigger] self.windows@[j], x, y),
            decreases i,
        {
            i -= 1;
            assert(self.windows@[i as int].edges_fit());
            if self.windows[i].contains_point(x, y) {
                return Some(i);
            }
        }
        None
    }
}

/// Whether a window's rectangle holds the point (as `contains_point`).
pub open spec fn contains(w: Surface, px: i32, py: i32) -> bool {
    px >= w.x && px < w.x + (w.width as i32) && py >= w.y && py < w.y + (w.height as i32)
}

/// Where `retile` puts the windows. One window fills the screen below the
/// panel, inside an 8-pixel margin. With more, the first (the master)
/// fills the left half below the panel; the others share the right half at
/// one height, the first at the top and each next one starting exactly 8
/// pixels below the bottom of the one before, so that no two overlap; the
/// last ends inside the bottom margin, short of it by less than one pixel
/// per stacked window.
pub proof fn lemma_tiles_layout(old: Seq<Surface>, new: Seq<Surface>, sw: int, sh: int, panel: int)
    requires
        retiled(old, new, sw, sh, panel),
        can_retile(old.len() as int, sw, sh, panel),
        0 <= panel,
        sw <= i32::MAX,
        sh <= i32::MAX,
    ensures
        old.len() == 1 ==> new[0].x == 8 && new[0].y == panel + 8 && new[0].width == sw - 16 && new[0].height == sh - panel - 16,
        old.len() >= 2 ==> {
            let n = old.len() as int;
            &&& new[0].x == 8 && new[0].y == panel + 8 && new[0].width == sw / 2 - 16 && new[0].height == sh - panel - 16
            &&& new[1].y == panel + 8
            &&& forall|i: int| 1 <= i < n ==> #[trigger] new[i].x == sw / 2 + 8 && new[i].width == sw / 2 - 16
                && new[i].height == new[1].height
            &&& forall|i: int| 1 <= i < n - 1 ==> #[trigger] new[i + 1].y == new[i].y + new[i].height + 8
            &&& new[n - 1].y + new[n - 1].height <= sh - 8
            &&& new[n - 1].y + new[n - 1].height > sh - 8 - (n - 1)
        },
{
    let n = old.len() as int;
    if n == 1 {
        assert(placed(old[0], new[0], tile_geometry(n, 0, sw, sh, panel)));
    } else if n >= 2 {
        let usable = sh - panel;
        let h = (usable - 8 * n) / (n - 1);
        assert(h >= 0);
        assert(h * (n - 1) <= usable - 8 * n && h * (n - 1) > usable - 8 * n - (n - 1)) by (nonlinear_arith)
            requires
                h == (usable - 8 * n) / (n - 1),
                n >= 2,
                usable - 8 * n >= 0,
        ;
        assert(placed(old[0], new[0], tile_geometry(n, 0, sw, sh, panel)));
        assert(placed(old[1], new[1], tile_geometry(n, 1, sw, sh, panel)));
        assert forall|i: int| 1 <= i < n implies #[trigger] new[i].x == sw / 2 + 8 && new[i].width == sw / 2 - 16
            && new[i].height == new[1].height && new[i].y == panel + 8 + (i - 1) * (h + 8) by {
            assert(0 <= (i - 1) * (h + 8) && (i - 1) * (h + 8) <= (n - 2) * (h + 8)) by (nonlinear_arith)
                requires
                    1 <= i < n,
                    h >= 0,
            ;
            assert((n - 2) * (h + 8) + h == h * (n - 1) + 8 * n - 16) by (nonlinear_arith);
            assert(placed(old[i], new[i], tile_geometry(n, i, sw, sh, panel)));
        }
        assert forall|i: int| 1 <= i < n - 1 implies #[trigger] new[i + 1].y == new[i].y + new[i].height + 8 by {
            assert(new[i + 1].x == sw / 2 + 8);
            assert(new[i].x == sw / 2 + 8);
            assert(i * (h + 8) == (i - 1) * (h + 8) + h + 8) by (nonlinear_arith);
        }
        assert(new[n - 1].x == sw / 2 + 8);
        assert((n - 2) * (h + 8) + h == h * (n - 1) + 8 * n - 16) by (nonlinear_arith);
        assert(new[n - 1].y == panel + 8 + (n - 2) * (h + 8));
        assert(new[n - 1].height == h);
        assert(new[0].x == 8 && new[0].y == panel + 8);
        assert(new[0].width == sw / 2 - 16 && new[0].height == sh - panel - 16);
        assert(new[1].x == sw / 2 + 8);
        assert((1 - 1) * (h + 8) == 0);
        assert(new[1].y == panel + 8);
        assert(new[n - 1].y + new[n - 1].height <= sh - 8);
        assert(new[n - 1].y + new[n - 1].height > sh - 8 - (n - 1));
    }
}

} // verus!
