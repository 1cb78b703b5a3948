use vstd::prelude::*;
use vstd::string::StringSliceAdditionalSpecFns;
use crate::drivers::fb::{Framebuffer, in_rect};
use crate::pixels::{lemma_painted_equiv, lemma_painted_is_paint, lemma_painted_none, paint, painted};
use crate::util::str_eq;

verus! {

pub const CLOSE_BUTTON_COLOR: u32 = 0xFF5555;
pub const LAUNCHER_COLOR: u32 = 0x00D9FF;
pub const TERMINAL_COLOR: u32 = 0x00FF00;
pub const FILE_COLOR: u32 = 0xFFAA00;
pub const CURSOR_COLOR: u32 = 0xFFFFFF;

/// The two diagonals of a 16 by 16 cross at `(x, y)`.
pub open spec fn close_button_region(px: int, py: int, x: int, y: int) -> bool {
    let dx = px - x;
    let dy = py - y;
    0 <= dy < 16 && (dx == dy || dx == 15 - dy)
}

/// Draws the close button: a 16-pixel cross at `(x, y)`.
pub fn draw_close_button(fb: &mut Framebuffer, x: usize, y: usize)
    requires
        old(fb).wf(),
        x + 16 <= usize::MAX,
        y + 15 <= usize::MAX,
    ensures
        final(fb).wf(),
        final(fb).same_frame(old(fb)),
        final(fb).pixels() == paint(old(fb).pixels(), old(fb).width as int,
            |px: int, py: int| close_button_region(px, py, x as int, y as int),
            |px: int, py: int| CLOSE_BUTTON_COLOR),
{
    let size: usize = 16;
    let color: u32 = CLOSE_BUTTON_COLOR;
    let ghost orig = fb.pixels();
    let ghost W = fb.width as int;
    let ghost H = fb.height as int;
    let ghost colors = |px: int, py: int| CLOSE_BUTTON_COLOR;
    let ghost part = |px: int, py: int, k: int| {
        let dx = px - x;
        let dy = py - y;
        0 <= dy < k && (dx == dy || dx == 15 - dy)
    };
    proof {
        lemma_painted_none(orig, W, H, |px: int, py: int| part(px, py, 0), colors);
    }
    let mut i: usize = 0;
    while i < size
        invariant
            fb.wf(),
            fb.width == W,
            fb.height == H,
            fb.buffer@ == old(fb).buffer@,
            orig.len() == W * H,
            size == 16,
            color == CLOSE_BUTTON_COLOR,
            forall|px: int, py: int| #[trigger] colors(px, py) == CLOSE_BUTTON_COLOR,
            forall|px: int, py: int, k: int| #[trigger] part(px, py, k) == (0 <= py - y < k && (px - x == py - y || px - x == 15 - (py - y))),
            i <= 16,
            x + 16 <= usize::MAX,
            y + 15 <= usize::MAX,
            painted(orig, fb.pixels(), W, H, |px: int, py: int| part(px, py, i as int), colors),
        decreases 16 - i,
    {
        let ghost r0 = |px: int, py: int| part(px, py, i as int);
        let ghost r1 = |px: int, py: int| part(px, py, i as int) || (px == x + i && py == y + i);
        let ghost r2 = |px: int, py: int| part(px, py, (i + 1) as int);
        fb.plot(x + i, y + i, color, Ghost(orig), Ghost(r0), Ghost(colors), Ghost(r1));
        fb.plot(x + size - i - 1, y + i, color, Ghost(orig), Ghost(r1), Ghost(colors), Ghost(r2));
        i += 1;
    }
    proof {
        lemma_painted_equiv(orig, fb.pixels(), W, H, |px: int, py: int| part(px, py, 16), colors,
            |px: int, py: int| close_button_region(px, py, x as int, y as int), colors);
        lemma_painted_is_paint(orig, fb.pixels(), W, H, |px: int, py: int| close_button_region(px, py, x as int, y as int), colors);
    }
}

/// The launcher icon: the 2-pixel frame of a 20 by 20 square, and a three
/// by three grid of 3 by 3 squares spaced 5 apart, starting 5 in.
pub open spec fn launcher_region(px: int, py: int, x: int, y: int) -> bool {
    let dx = px - x;
    let dy = py - y;
    ||| in_rect(px, py, x, y, 20, 20) && (dx < 2 || dx >= 18 || dy < 2 || dy >= 18)
    ||| exists|a: int, b: int| 0 <= a < 3 && 0 <= b < 3 && #[trigger] in_rect(px, py, x + 5 + 5 * a, y + 5 + 5 * b, 3, 3)
}

/// Grid squares `(a, b)` drawn before `(i, j)`.
pub open spec fn launcher_cells(px: int, py: int, x: int, y: int, i: int, j: int) -> bool {
    exists|a: int, b: int| 0 <= a < 3 && 0 <= b < 3 && (a < i || (a == i && b < j)) && #[trigger] in_rect(px, py, x + 5 + 5 * a, y + 5 + 5 * b, 3, 3)
}

pub open spec fn launcher_frame(px: int, py: int, x: int, y: int) -> bool {
    let dx = px - x;
    let dy = py - y;
    in_rect(px, py, x, y, 20, 20) && (dx < 2 || dx >= 18 || dy < 2 || dy >= 18)
}

/// Draws the launcher icon at `(x, y)`.
pub fn draw_launcher_icon(fb: &mut Framebuffer, x: usize, y: usize)
    requires
        old(fb).wf(),
        x + 19 <= usize::MAX,
        y + 19 <= usize::MAX,
    ensures
        final(fb).wf(),
        final(fb).same_frame(old(fb)),
        final(fb).pixels() == paint(old(fb).pixels(), old(fb).width as int,
            |px: int, py: int| launcher_region(px, py, x as int, y as int),
            |px: int, py: int| LAUNCHER_COLOR),
{
    let color: u32 = LAUNCHER_COLOR;
    let ghost orig = fb.pixels();
    let ghost W = fb.width as int;
    let ghost H = fb.height as int;
    let ghost colors = |px: int, py: int| LAUNCHER_COLOR;
    let ghost xi = x as int;
    let ghost yi = y as int;
    proof {
        lemma_painted_none(orig, W, H, |px: int, py: int| false, colors);
    }
    fb.fill_more(x, y, 20, 2, color, Ghost(orig), Ghost(|px: int, py: int| false),
        Ghost(|px: int, py: int| in_rect(px, py, xi, yi, 20, 2)));
    fb.fill_more(x, y + 18, 20, 2, color, Ghost(orig), Ghost(|px: int, py: int| in_rect(px, py, xi, yi, 20, 2)),
        Ghost(|px: int, py: int| in_rect(px, py, xi, yi, 20, 2) || in_rect(px, py, xi, yi + 18, 20, 2)));
    fb.fill_more(x, y, 2, 20, color, Ghost(orig),
        Ghost(|px: int, py: int| in_rect(px, py, xi, yi, 20, 2) || in_rect(px, py, xi, yi + 18, 20, 2)),
        Ghost(|px: int, py: int| in_rect(px, py, xi, yi, 20, 2) || in_rect(px, py, xi, yi + 18, 20, 2) || in_rect(px, py, xi, yi, 2, 20)));
    fb.fill_more(x + 18, y, 2, 20, color, Ghost(orig),
        Ghost(|px: int, py: int| in_rect(px, py, xi, yi, 20, 2) || in_rect(px, py, xi, yi + 18, 20, 2) || in_rect(px, py, xi, yi, 2, 20)),
        Ghost(|px: int, py: int| launcher_frame(px, py, xi, yi) || launcher_cells(px, py, xi, yi, 0, 0)));
    let mut i: usize = 0;
    while i < 3
        invariant
            fb.wf(),
            fb.width == W,
            fb.height == H,
            fb.buffer@ == old(fb).buffer@,
            orig.len() == W * H,
            color == LAUNCHER_COLOR,
            xi == x,
            yi == y,
            forall|px: int, py: int| #[trigger] colors(px, py) == LAUNCHER_COLOR,
            i <= 3,
            x + 19 <= usize::MAX,
            y + 19 <= usize::MAX,
            painted(orig, fb.pixels(), W, H, |px: int, py: int| launcher_frame(px, py, xi, yi) || launcher_cells(px, py, xi, yi, i as int, 0), colors),
        decreases 3 - i,
    {
        let mut j: usize = 0;
        while j < 3
            invariant
                fb.wf(),
                fb.width == W,
                fb.height == H,
                fb.buffer@ == old(fb).buffer@,
                orig.len() == W * H,
                color == LAUNCHER_COLOR,
                xi == x,
                yi == y,
                forall|px: int, py: int| #[trigger] colors(px, py) == LAUNCHER_COLOR,
                i < 3,
                j <= 3,
                x + 19 <= usize::MAX,
                y + 19 <= usize::MAX,
                painted(orig, fb.pixels(), W, H, |px: int, py: int| launcher_frame(px, py, xi, yi) || launcher_cells(px, py, xi, yi, i as int, j as int), colors),
            decreases 3 - j,
        {
            let px0 = x + 5 + i * 5;
            let py0 = y + 5 + j * 5;
            let ghost ii = i as int;
            let ghost jj = j as int;
            proof {
                assert forall|px: int, py: int| 0 <= px < W && 0 <= py < H implies
                    #[trigger] launcher_cells(px, py, xi, yi, ii, jj + 1)
                        == (launcher_cells(px, py, xi, yi, ii, jj) || in_rect(px, py, px0 as int, py0 as int, 3, 3)) by {
                    if in_rect(px, py, px0 as int, py0 as int, 3, 3) {
                        assert(in_rect(px, py, xi + 5 + 5 * ii, yi + 5 + 5 * jj, 3, 3));
                    }
                    if launcher_cells(px, py, xi, yi, ii, jj + 1) {
                        let (a, b) = choose|a: int, b: int| 0 <= a < 3 && 0 <= b < 3 && (a < ii || (a == ii && b < jj + 1)) && #[trigger] in_rect(px, py, xi + 5 + 5 * a, yi + 5 + 5 * b, 3, 3);
                        if !(a == ii && b == jj) {
                            assert(launcher_cells(px, py, xi, yi, ii, jj));
                        }
                    }
                }
            }
            fb.fill_more(px0, py0, 3, 3, color, Ghost(orig),
                Ghost(|px: int, py: int| launcher_frame(px, py, xi, yi) || launcher_cells(px, py, xi, yi, ii, jj)),
                Ghost(|px: int, py: int| launcher_frame(px, py, xi, yi) || launcher_cells(px, py, xi, yi, ii, jj + 1)));
            j += 1;
        }
        proof {
            let ii = i as int;
            assert forall|px: int, py: int| 0 <= px < W && 0 <= py < H implies
                #[trigger] launcher_cells(px, py, xi, yi, ii + 1, 0) == launcher_cells(px, py, xi, yi, ii, 3) by {
                if launcher_cells(px, py, xi, yi, ii + 1, 0) {
                    let (a, b) = choose|a: int, b: int| 0 <= a < 3 && 0 <= b < 3 && (a < ii + 1 || (a == ii + 1 && b < 0)) && #[trigger] in_rect(px, py, xi + 5 + 5 * a, yi + 5 + 5 * b, 3, 3);
                    assert(launcher_cells(px, py, xi, yi, ii, 3));
                }
                if launcher_cells(px, py, xi, yi, ii, 3) {
                    let (a, b) = choose|a: int, b: int| 0 <= a < 3 && 0 <= b < 3 && (a < ii || (a == ii && b < 3)) && #[trigger] in_rect(px, py, xi + 5 + 5 * a, yi + 5 + 5 * b, 3, 3);
                    assert(launcher_cells(px, py, xi, yi, ii + 1, 0));
                }
            }
            lemma_painted_equiv(orig, fb.pixels(), W, H,
                |px: int, py: int| launcher_frame(px, py, xi, yi) || launcher_cells(px, py, xi, yi, ii, 3), colors,
                |px: int, py: int| launcher_frame(px, py, xi, yi) || launcher_cells(px, py, xi, yi, ii + 1, 0), colors);
        }
        i += 1;
    }
    proof {
        assert forall|px: int, py: int| 0 <= px < W && 0 <= py < H implies
            #[trigger] launcher_region(px, py, xi, yi) == (launcher_frame(px, py, xi, yi) || launcher_cells(px, py, xi, yi, 3, 0)) by {
            if launcher_cells(px, py, xi, yi, 3, 0) {
                let (a, b) = choose|a: int, b: int| 0 <= a < 3 && 0 <= b < 3 && (a < 3 || (a == 3 && b < 0)) && #[trigger] in_rect(px, py, xi + 5 + 5 * a, yi + 5 + 5 * b, 3, 3);
                assert(launcher_region(px, py, xi, yi));
            }
            if exists|a: int, b: int| 0 <= a < 3 && 0 <= b < 3 && #[trigger] in_rect(px, py, xi + 5 + 5 * a, yi + 5 + 5 * b, 3, 3) {
                let (a, b) = choose|a: int, b: int| 0 <= a < 3 && 0 <= b < 3 && #[trigger] in_rect(px, py, xi + 5 + 5 * a, yi + 5 + 5 * b, 3, 3);
                assert(launcher_cells(px, py, xi, yi, 3, 0));
            }
        }
        lemma_painted_equiv(orig, fb.pixels(), W, H,
            |px: int, py: int| launcher_frame(px, py, xi, yi) || launcher_cells(px, py, xi, yi, 3, 0), colors,
            |px: int, py: int| launcher_region(px, py, x as int, y as int), colors);
        lemma_painted_is_paint(orig, fb.pixels(), W, H, |px: int, py: int| launcher_region(px, py, x as int, y as int), colors);
    }
}

/// The terminal icon: the 1-pixel frame of a 24 by 24 square, a prompt
/// (an 8-pixel bar on row 8 and a slope falling one column per two rows
/// from there) and a 6-pixel cursor bar on row 16.
pub open spec fn terminal_region(px: int, py: int, x: int, y: int) -> bool {
    let dx = px - x;
    let dy = py - y;
    ||| in_rect(px, py, x, y, 24, 24) && (dx == 0 || dx == 23 || dy == 0 || dy == 23)
    ||| dy == 8 && 4 <= dx < 12
    ||| 8 <= dy < 16 && dx == 4 + (dy - 8) / 2
    ||| dy == 16 && 4 <= dx < 10
}

/// Draws the terminal icon at `(x, y)`.
pub fn draw_terminal_icon(fb: &mut Framebuffer, x: usize, y: usize)
    requires
        old(fb).wf(),
        x + 23 <= usize::MAX,
        y + 23 <= usize::MAX,
    ensures
        final(fb).wf(),
        final(fb).same_frame(old(fb)),
        final(fb).pixels() == paint(old(fb).pixels(), old(fb).width as int,
            |px: int, py: int| terminal_region(px, py, x as int, y as int),
            |px: int, py: int| TERMINAL_COLOR),
{
    let color: u32 = TERMINAL_COLOR;
    let ghost orig = fb.pixels();
    let ghost W = fb.width as int;
    let ghost H = fb.height as int;
    let ghost colors = |px: int, py: int| TERMINAL_COLOR;
    let ghost xi = x as int;
    let ghost yi = y as int;
    let ghost frame = |px: int, py: int| in_rect(px, py, xi, yi, 24, 1) || in_rect(px, py, xi, yi + 23, 24, 1)
        || in_rect(px, py, xi, yi, 1, 24) || in_rect(px, py, xi + 23, yi, 1, 24);
    proof {
        lemma_painted_none(orig, W, H, |px: int, py: int| false, colors);
    }
    fb.fill_more(x, y, 24, 1, color, Ghost(orig), Ghost(|px: int, py: int| false),
        Ghost(|px: int, py: int| in_rect(px, py, xi, yi, 24, 1)));
    fb.fill_more(x, y + 23, 24, 1, color, Ghost(orig), Ghost(|px: int, py: int| in_rect(px, py, xi, yi, 24, 1)),
        Ghost(|px: int, py: int| in_rect(px, py, xi, yi, 24, 1) || in_rect(px, py, xi, yi + 23, 24, 1)));
    fb.fill_more(x, y, 1, 24, color, Ghost(orig),
        Ghost(|px: int, py: int| in_rect(px, py, xi, yi, 24, 1) || in_rect(px, py, xi, yi + 23, 24, 1)),
        Ghost(|px: int, py: int| in_rect(px, py, xi, yi, 24, 1) || in_rect(px, py, xi, yi + 23, 24, 1) || in_rect(px, py, xi, yi, 1, 24)));
    fb.fill_more(x + 23, y, 1, 24, color, Ghost(orig),
        Ghost(|px: int, py: int| in_rect(px, py, xi, yi, 24, 1) || in_rect(px, py, xi, yi + 23, 24, 1) || in_rect(px, py, xi, yi, 1, 24)),
        Ghost(|px: int, py: int| frame(px, py)));
    let ghost part = |px: int, py: int, k: int| frame(px, py) || (py == yi + 8 && xi + 4 <= px < xi + 4 + k)
        || (yi + 8 <= py < yi + 8 + k && px - xi == 4 + (py - yi - 8) / 2);
    let mut i: usize = 0;
    while i < 8
        invariant
            fb.wf(),
            fb.width == W,
            fb.height == H,
            fb.buffer@ == old(fb).buffer@,
            orig.len() == W * H,
            color == TERMINAL_COLOR,
            xi == x,
            yi == y,
            forall|px: int, py: int| #[trigger] colors(px, py) == TERMINAL_COLOR,
            forall|px: int, py: int, k: int| #[trigger] part(px, py, k) == (frame(px, py) || (py == yi + 8 && xi + 4 <= px < xi + 4 + k)
                || (yi + 8 <= py < yi + 8 + k && px - xi == 4 + (py - yi - 8) / 2)),
            i <= 8,
            x + 23 <= usize::MAX,
            y + 23 <= usize::MAX,
            painted(orig, fb.pixels(), W, H, |px: int, py: int| part(px, py, i as int), colors),
        decreases 8 - i,
    {
        let ghost r0 = |px: int, py: int| part(px, py, i as int);
        let ghost r1 = |px: int, py: int| part(px, py, i as int) || (px == x + 4 + i && py == y + 8);
        let ghost r2 = |px: int, py: int| part(px, py, (i + 1) as int);
        fb.plot(x + 4 + i, y + 8, color, Ghost(orig), Ghost(r0), Ghost(colors), Ghost(r1));
        fb.plot(x + 4 + i / 2, y + 8 + i, color, Ghost(orig), Ghost(r1), Ghost(colors), Ghost(r2));
        i += 1;
    }
    let ghost done = |px: int, py: int| part(px, py, 8);
    fb.fill_more(x + 4, y + 16, 6, 1, color, Ghost(orig), Ghost(done),
        Ghost(|px: int, py: int| terminal_region(px, py, xi, yi)));
    proof {
        lemma_painted_is_paint(orig, fb.pixels(), W, H, |px: int, py: int| terminal_region(px, py, x as int, y as int), colors);
    }
}

/// The file icon: a page outline from row 2 to row 22 between columns 4 and
/// 20, with a tab along row 0 from column 4 to 15 and down column 16 to row 3.
pub open spec fn file_region(px: int, py: int, x: int, y: int) -> bool {
    ||| in_rect(px, py, x + 4, y + 2, 1, 22)
    ||| in_rect(px, py, x + 20, y + 2, 1, 22)
    ||| in_rect(px, py, x + 4, y + 2, 16, 1)
    ||| in_rect(px, py, x + 4, y + 22, 16, 1)
    ||| in_rect(px, py, x + 4, y, 12, 1)
    ||| in_rect(px, py, x + 16, y, 1, 4)
}

/// Draws the file icon at `(x, y)`.
pub fn draw_file_icon(fb: &mut Framebuffer, x: usize, y: usize)
    requires
        old(fb).wf(),
        x + 23 <= usize::MAX,
        y + 23 <= usize::MAX,
    ensures
        final(fb).wf(),
        final(fb).same_frame(old(fb)),
        final(fb).pixels() == paint(old(fb).pixels(), old(fb).width as int,
            |px: int, py: int| file_region(px, py, x as int, y as int),
            |px: int, py: int| FILE_COLOR),
{
    let color: u32 = FILE_COLOR;
    let ghost orig = fb.pixels();
    let ghost W = fb.width as int;
    let ghost H = fb.height as int;
    let ghost colors = |px: int, py: int| FILE_COLOR;
    let ghost xi = x as int;
    let ghost yi = y as int;
    let ghost r1 = |px: int, py: int| in_rect(px, py, xi + 4, yi + 2, 1, 22);
    let ghost r2 = |px: int, py: int| r1(px, py) || in_rect(px, py, xi + 20, yi + 2, 1, 22);
    let ghost r3 = |px: int, py: int| r2(px, py) || in_rect(px, py, xi + 4, yi + 2, 16, 1);
    let ghost r4 = |px: int, py: int| r3(px, py) || in_rect(px, py, xi + 4, yi + 22, 16, 1);
    let ghost r5 = |px: int, py: int| r4(px, py) || in_rect(px, py, xi + 4, yi, 12, 1);
    proof {
        lemma_painted_none(orig, W, H, |px: int, py: int| false, colors);
    }
    fb.fill_more(x + 4, y + 2, 1, 22, color, Ghost(orig), Ghost(|px: int, py: int| false), Ghost(r1));
    fb.fill_more(x + 20, y + 2, 1, 22, color, Ghost(orig), Ghost(r1), Ghost(r2));
    fb.fill_more(x + 4, y + 2, 16, 1, color, Ghost(orig), Ghost(r2), Ghost(r3));
    fb.fill_more(x + 4, y + 22, 16, 1, color, Ghost(orig), Ghost(r3), Ghost(r4));
    fb.fill_more(x + 4, y, 12, 1, color, Ghost(orig), Ghost(r4), Ghost(r5));
    fb.fill_more(x + 16, y, 1, 4, color, Ghost(orig), Ghost(r5),
        Ghost(|px: int, py: int| file_region(px, py, xi, yi)));
    proof {
        lemma_painted_is_paint(orig, fb.pixels(), W, H, |px: int, py: int| file_region(px, py, x as int, y as int), colors);
    }
}

/// The mouse cursor: a 16-row wedge whose row `i` is `i / 2 + 1` pixels wide.
pub open spec fn cursor_region(px: int, py: int, x: int, y: int) -> bool {
    let dx = px - x;
    let dy = py - y;
    0 <= dy < 16 && 0 <= dx <= dy / 2
}

/// Draws the mouse cursor with its tip at `(x, y)`, clipped to the screen.
pub fn draw_cursor(fb: &mut Framebuffer, x: usize, y: usize)
    requires
        old(fb).wf(),
        x + 7 <= usize::MAX,
        y + 15 <= usize::MAX,
    ensures
        final(fb).wf(),
        final(fb).same_frame(old(fb)),
        final(fb).pixels() == paint(old(fb).pixels(), old(fb).width as int,
            |px: int, py: int| cursor_region(px, py, x as int, y as int),
            |px: int, py: int| CURSOR_COLOR),
{
    let color: u32 = CURSOR_COLOR;
    let size: usize = 16;
    let ghost orig = fb.pixels();
    let ghost W = fb.width as int;
    let ghost H = fb.height as int;
    let ghost colors = |px: int, py: int| CURSOR_COLOR;
    let ghost xi = x as int;
    let ghost yi = y as int;
    let ghost part = |px: int, py: int, k: int| 0 <= py - yi < k && 0 <= px - xi <= (py - yi) / 2;
    proof {
        lemma_painted_none(orig, W, H, |px: int, py: int| part(px, py, 0), colors);
    }
    let mut i: usize = 0;
    while i < size
        invariant
            fb.wf(),
            fb.width == W,
            fb.height == H,
            fb.buffer@ == old(fb).buffer@,
            orig.len() == W * H,
            color == CURSOR_COLOR,
            size == 16,
            xi == x,
            yi == y,
            forall|px: int, py: int| #[trigger] colors(px, py) == CURSOR_COLOR,
            forall|px: int, py: int, k: int| #[trigger] part(px, py, k) == (0 <= py - yi < k && 0 <= px - xi <= (py - yi) / 2),
            i <= 16,
            x + 7 <= usize::MAX,
            y + 15 <= usize::MAX,
            painted(orig, fb.pixels(), W, H, |px: int, py: int| part(px, py, i as int), colors),
        decreases 16 - i,
    {
        let mut j: usize = 0;
        while j <= i / 2
            invariant
                fb.wf(),
                fb.width == W,
                fb.height == H,
                fb.buffer@ == old(fb).buffer@,
                orig.len() == W * H,
                color == CURSOR_COLOR,
                xi == x,
                yi == y,
                forall|px: int, py: int| #[trigger] colors(px, py) == CURSOR_COLOR,
                forall|px: int, py: int, k: int| #[trigger] part(px, py, k) == (0 <= py - yi < k && 0 <= px - xi <= (py - yi) / 2),
                i < 16,
                j <= i / 2 + 1,
                x + 7 <= usize::MAX,
                y + 15 <= usize::MAX,
                painted(orig, fb.pixels(), W, H, |px: int, py: int| part(px, py, i as int) || (py == yi + i && xi <= px < xi + j), colors),
            decreases i / 2 + 1 - j,
        {
            let ghost r1 = |px: int, py: int| part(px, py, i as int) || (py == yi + i && xi <= px < xi + j);
            let ghost r2 = |px: int, py: int| part(px, py, i as int) || (py == yi + i && xi <= px < xi + j + 1);
            if x + j < fb.width() && y + i < fb.height() {
                fb.plot(x + j, y + i, color, Ghost(orig), Ghost(r1), Ghost(colors), Ghost(r2));
            } else {
                proof {
                    lemma_painted_equiv(orig, fb.pixels(), W, H, r1, colors, r2, colors);
                }
            }
            j += 1;
        }
        proof {
            lemma_painted_equiv(orig, fb.pixels(), W, H,
                |px: int, py: int| part(px, py, i as int) || (py == yi + i && xi <= px < xi + (i / 2 + 1)), colors,
                |px: int, py: int| part(px, py, (i + 1) as int), colors);
        }
        i += 1;
    }
    proof {
        lemma_painted_equiv(orig, fb.pixels(), W, H, |px: int, py: int| part(px, py, 16), colors,
            |px: int, py: int| cursor_region(px, py, x as int, y as int), colors);
        lemma_painted_is_paint(orig, fb.pixels(), W, H, |px: int, py: int| cursor_region(px, py, x as int, y as int), colors);
    }
}

/// A built-in icon: a `width` by `height` image in one color.
pub struct Icon {
    pub width: usize,
    pub height: usize,
    pub pixels: Vec<u32>,
}

/// A solid icon of the given size and color.
pub open spec fn solid_icon(icon: Icon, w: int, h: int, color: u32) -> bool {
    &&& icon.width == w
    &&& icon.height == h
    &&& icon.pixels@ == Seq::new((w * h) as nat, |i: int| color)
}

fn solid(w: usize, h: usize, color: u32) -> (icon: Icon)
    requires
        w * h <= usize::MAX,
    ensures
        solid_icon(icon, w as int, h as int, color),
{
    let pixels = vec![color; w * h];
    proof {
        assert(pixels@ =~= Seq::new((w * h) as nat, |i: int| color));
    }
    Icon { width: w, height: h, pixels }
}

fn create_close_icon() -> (icon: Icon)
    ensures
        solid_icon(icon, 16, 16, 0xFFFF5555),
{
    solid(16, 16, 0xFFFF5555)
}

fn create_terminal_icon() -> (icon: Icon)
    ensures
        solid_icon(icon, 24, 24, 0xFF00FF00),
{
    solid(24, 24, 0xFF00FF00)
}

fn create_file_icon() -> (icon: Icon)
    ensures
        solid_icon(icon, 24, 24, 0xFFFFAA00),
{
    solid(24, 24, 0xFFFFAA00)
}

/// Looks up a built-in icon by name: "close" (16 by 16), "terminal" and
/// "file" (24 by 24), each a solid image; any other name gives `None`.
pub fn load_icon(name: &str) -> (r: Option<Icon>)
    ensures
        name.spec_bytes() == "close".spec_bytes() ==> (r matches Some(i) && solid_icon(i, 16, 16, 0xFFFF5555)),
        name.spec_bytes() != "close".spec_bytes() && name.spec_bytes() == "terminal".spec_bytes()
            ==> (r matches Some(i) && solid_icon(i, 24, 24, 0xFF00FF00)),
        name.spec_bytes() != "close".spec_bytes() && name.spec_bytes() != "terminal".spec_bytes()
            && name.spec_bytes() == "file".spec_bytes() ==> (r matches Some(i) && solid_icon(i, 24, 24, 0xFFFFAA00)),
        name.spec_bytes() != "close".spec_bytes() && name.spec_bytes() != "terminal".spec_bytes()
            && name.spec_bytes() != "file".spec_bytes() ==> r is None,
{
    if str_eq(name, "close") {
        Some(create_close_icon())
    } else if str_eq(name, "terminal") {
        Some(create_terminal_icon())
    } else if str_eq(name, "file") {
        Some(create_file_icon())
    } else {
        None
    }
}

} // verus!
