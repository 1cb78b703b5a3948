use vstd::prelude::*;
use vstd::string::StringSliceAdditionalSpecFns;
use crate::drivers::fb::{Framebuffer, in_rect};
use crate::gui::icons::{CLOSE_BUTTON_COLOR, LAUNCHER_COLOR, close_button_region, draw_close_button, draw_launcher_icon, launcher_region};
use crate::gui::surface::{SURFACE_FILL, Surface};
use crate::gui::theme::{Theme, default_theme};
use crate::pixels::{lemma_paint_over, lemma_paint_same, lemma_painted_equiv, lemma_painted_is_paint, lemma_painted_none, lemma_painted_weaken, paint, painted};

verus! {

/// Height of a window's title bar, above its contents.
pub const TITLEBAR_HEIGHT: usize = 28;
/// How far a window's shadow is shifted right and down.
pub const SHADOW_OFFSET: usize = 4;

/// A signed coordinate as the drawing code converts it to `usize`: itself
/// when it is not negative; a negative one lands past every screen side.
proof fn lemma_cast(v: i32)
    ensures
        v >= 0 ==> (v as usize) as int == v as int,
        v < 0 ==> (v as usize) > 0x7fff_ffffusize,
{
    assert(v < 0 ==> (v as usize) > 0x7fff_ffffusize) by (bit_vector);
}

impl Framebuffer {
    /// Sets the pixel at signed coordinates, stated as a painting step;
    /// pixels off the screen (negative ones included) are skipped.
    fn plot_i32(
        &mut self,
        x: i32,
        y: i32,
        color: u32,
        Ghost(orig): Ghost<Seq<u32>>,
        Ghost(region): Ghost<spec_fn(int, int) -> bool>,
        Ghost(colors): Ghost<spec_fn(int, int) -> u32>,
        Ghost(region2): Ghost<spec_fn(int, int) -> bool>,
    )
        requires
            old(self).wf(),
            orig.len() == old(self).width * old(self).height,
            painted(orig, old(self).pixels(), old(self).width as int, old(self).height as int, region, colors),
            colors(x as int, y as int) == color,
            forall|px: int, py: int| 0 <= px < old(self).width && 0 <= py < old(self).height ==> #[trigger] region2(px, py) == (region(px, py) || (px == x && py == y)),
        ensures
            final(self).wf(),
            final(self).same_frame(old(self)),
            painted(orig, final(self).pixels(), final(self).width as int, final(self).height as int, region2, colors),
    {
        proof {
            lemma_cast(x);
            lemma_cast(y);
        }
        let ux = x as usize;
        let uy = y as usize;
        if ux < self.width() && uy < self.height() {
            self.plot(ux, uy, color, Ghost(orig), Ghost(region), Ghost(colors), Ghost(region2));
        } else {
            proof {
                lemma_painted_weaken(orig, self.pixels(), self.width as int, self.height as int, region, region2, colors);
            }
        }
    }

    /// Paints the rectangle at signed `(x0, y0)`, `w` by `h`, row by row,
    /// clipped to the screen.
    fn paint_area(&mut self, x0: i32, y0: i32, w: usize, h: usize, color: u32)
        requires
            old(self).wf(),
            w <= i32::MAX,
            h <= i32::MAX,
            x0 + w <= i32::MAX + 1,
            y0 + h <= i32::MAX + 1,
        ensures
            final(self).wf(),
            final(self).same_frame(old(self)),
            final(self).pixels() == paint(
                old(self).pixels(),
                old(self).width as int,
                |px: int, py: int| in_rect(px, py, x0 as int, y0 as int, w as int, h as int),
                |px: int, py: int| color,
            ),
    {
        let ghost orig = self.pixels();
        let ghost W = self.width as int;
        let ghost H = self.height as int;
        let ghost colors = |px: int, py: int| color;
        let ghost full = |px: int, py: int| in_rect(px, py, x0 as int, y0 as int, w as int, h as int);
        proof {
            lemma_painted_none(orig, W, H, |px: int, py: int| in_rect(px, py, x0 as int, y0 as int, w as int, 0), colors);
        }
        let mut dy: usize = 0;
        while dy < h
            invariant
                self.wf(),
                self.width == W,
                self.height == H,
                self.buffer@ == old(self).buffer@,
                orig.len() == W * H,
                forall|px: int, py: int| #[trigger] colors(px, py) == color,
                dy <= h,
                w <= i32::MAX,
                h <= i32::MAX,
                x0 + w <= i32::MAX + 1,
                y0 + h <= i32::MAX + 1,
                painted(orig, self.pixels(), W, H, |px: int, py: int| in_rect(px, py, x0 as int, y0 as int, w as int, dy as int), colors),
            decreases h - dy,
        {
            let mut dx: usize = 0;
            while dx < w
                invariant
                    self.wf(),
                    self.width == W,
                    self.height == H,
                    self.buffer@ == old(self).buffer@,
                    orig.len() == W * H,
                    forall|px: int, py: int| #[trigger] colors(px, py) == color,
                    dy < h,
                    dx <= w,
                    w <= i32::MAX,
                    h <= i32::MAX,
                    x0 + w <= i32::MAX + 1,
                    y0 + h <= i32::MAX + 1,
                    painted(orig, self.pixels(), W, H, |px: int, py: int| in_rect(px, py, x0 as int, y0 as int, w as int, dy as int) || in_rect(px, py, x0 as int, y0 + dy, dx as int, 1), colors),
                decreases w - dx,
            {
                let ghost r1 = |px: int, py: int| in_rect(px, py, x0 as int, y0 as int, w as int, dy as int) || in_rect(px, py, x0 as int, y0 + dy, dx as int, 1);
                let ghost r2 = |px: int, py: int| in_rect(px, py, x0 as int, y0 as int, w as int, dy as int) || in_rect(px, py, x0 as int, y0 + dy, (dx + 1) as int, 1);
                let x = x0 + dx as i32;
                let y = y0 + dy as i32;
                self.plot_i32(x, y, color, Ghost(orig), Ghost(r1), Ghost(colors), Ghost(r2));
                dx += 1;
            }
            proof {
                lemma_painted_weaken(orig, self.pixels(), W, H,
                    |px: int, py: int| in_rect(px, py, x0 as int, y0 as int, w as int, dy as int) || in_rect(px, py, x0 as int, y0 + dy, w as int, 1),
                    |px: int, py: int| in_rect(px, py, x0 as int, y0 as int, w as int, (dy + 1) as int),
                    colors);
            }
            dy += 1;
        }
        proof {
            lemma_painted_weaken(orig, self.pixels(), W, H, |px: int, py: int| in_rect(px, py, x0 as int, y0 as int, w as int, dy as int), full, colors);
            lemma_painted_is_paint(orig, self.pixels(), W, H, full, colors);
        }
    }
}

/// Each 8-bit channel of `color` scaled by `intensity / 255`.
pub open spec fn scaled(color: u32, intensity: u8) -> u32 {
    let r = ((color >> 16u32) & 0xFFu32) * (intensity as u32) / 255;
    let g = ((color >> 8u32) & 0xFFu32) * (intensity as u32) / 255;
    let b = (color & 0xFFu32) * (intensity as u32) / 255;
    (((r as u32) << 16u32) | ((g as u32) << 8u32) | (b as u32)) as u32
}

fn scale_channels(color: u32, intensity: u8) -> (c: u32)
    ensures
        c == scaled(color, intensity),
{
    let rc = (color >> 16) & 0xFF;
    let gc = (color >> 8) & 0xFF;
    let bc = color & 0xFF;
    assert(rc <= 0xFF && gc <= 0xFF && bc <= 0xFF) by (bit_vector)
        requires
            rc == (color >> 16u32) & 0xFFu32,
            gc == (color >> 8u32) & 0xFFu32,
            bc == color & 0xFFu32,
    ;
    let k = intensity as u32;
    assert(rc * k <= 65025 && gc * k <= 65025 && bc * k <= 65025) by (nonlinear_arith)
        requires
            rc <= 255,
            gc <= 255,
            bc <= 255,
            k <= 255,
    ;
    let r = rc * k / 255;
    let g = gc * k / 255;
    let b = bc * k / 255;
    (r << 16) | (g << 8) | b
}

/// A shadow color: `color` darkened to `intensity / 255`.
fn blend_color(color: u32, intensity: u8) -> (c: u32)
    ensures
        c == scaled(color, intensity),
{
    scale_channels(color, intensity)
}

/// A pixel faded to `alpha / 255` against black.
fn blend_alpha(color: u32, alpha: u8) -> (c: u32)
    ensures
        c == scaled(color, alpha),
{
    scale_channels(color, alpha)
}

/// The shadow: the window and its title bar, shifted right and down by 4.
pub open spec fn shadow_region(px: int, py: int, win: Surface) -> bool {
    in_rect(px, py, win.x + 4, win.y - 28, win.width + 4, win.height + 32)
}

/// The title bar: 28 rows above the contents, as wide as the window.
pub open spec fn titlebar_region(px: int, py: int, win: Surface) -> bool {
    in_rect(px, py, win.x as int, win.y - 28, win.width as int, 28)
}

/// The contents.
pub open spec fn content_region(px: int, py: int, win: Surface) -> bool {
    in_rect(px, py, win.x as int, win.y as int, win.width as int, win.height as int)
}

/// A content pixel as drawn: the window's pixel at that place of its
/// buffer (rows of the window's width), or the surface fill color where
/// the buffer is shorter than the window (a window re-tiled to a larger
/// size keeps its buffer); faded when `alpha` is below 255.
pub open spec fn content_color(px: int, py: int, win: Surface, alpha: u8) -> u32 {
    let i = (py - win.y) * win.width + (px - win.x);
    let c = if i < win.pixels@.len() { win.pixels@[i] } else { SURFACE_FILL };
    if alpha < 255 { scaled(c, alpha) } else { c }
}

/// Rows `t` of the top and bottom borders, over columns `[8, k)` of the window.
pub open spec fn border_rows(px: int, py: int, win: Surface, t: int, k: int) -> bool {
    (py == win.y - 28 + t || py == win.y + win.height - 1 - t) && 8 <= px - win.x < k
}

/// Columns `t` of the left and right borders, over rows `[8, k)` of the window
/// with its title bar.
pub open spec fn border_cols(px: int, py: int, win: Surface, t: int, k: int) -> bool {
    (px == win.x + t || px == win.x + win.width - 1 - t) && 8 <= py - (win.y - 28) < k
}

/// Ring `t` of the border: its rows and its columns, the corners left out.
pub open spec fn border_ring(px: int, py: int, win: Surface, t: int) -> bool {
    border_rows(px, py, win, t, win.width - 8) || border_cols(px, py, win, t, win.height + 20)
}

/// The border as drawn so far: rings before `t`, and of ring `t` the rows
/// up to `k` (stage 0) or all rows and the columns up to `k` (stage 1).
pub open spec fn border_part(px: int, py: int, win: Surface, t: int, stage: int, k: int) -> bool {
    ||| t > 0 && border_ring(px, py, win, 0)
    ||| t > 1 && border_ring(px, py, win, 1)
    ||| stage == 0 && border_rows(px, py, win, t, k)
    ||| stage == 1 && (border_rows(px, py, win, t, win.width - 8) || border_cols(px, py, win, t, k))
}

/// Pixel `(dx, dy)` of an 8 by 8 corner box (counted from the window's
/// outer corner) lies on the rounded corner: its center is more than 6 and
/// at most 8 pixels from the box's inner corner, the center of the arc.
/// (In half pixels: `144 < (15 - 2dx)^2 + (15 - 2dy)^2 <= 256`.)
pub open spec fn arc_pixel(dx: int, dy: int) -> bool {
    &&& 0 <= dx < 8
    &&& 0 <= dy < 8
    &&& 144 < (15 - 2 * dx) * (15 - 2 * dx) + (15 - 2 * dy) * (15 - 2 * dy) <= 256
}

/// The corner pixels of index `dy * 8 + dx` below `k`, mirrored into the
/// four corners of the window with its title bar.
pub open spec fn corner_upto(px: int, py: int, win: Surface, k: int) -> bool {
    let x0 = win.x as int;
    let y0 = win.y - 28;
    let xr = win.x + win.width - 1;
    let yb = win.y + win.height - 1;
    ||| arc_pixel(px - x0, py - y0) && (py - y0) * 8 + (px - x0) < k
    ||| arc_pixel(xr - px, py - y0) && (py - y0) * 8 + (xr - px) < k
    ||| arc_pixel(px - x0, yb - py) && (yb - py) * 8 + (px - x0) < k
    ||| arc_pixel(xr - px, yb - py) && (yb - py) * 8 + (xr - px) < k
}

/// The four rounded corners: quarter-circle arcs of radius 8, two pixels
/// thick, joining the straight edges.
pub open spec fn corner_region(px: int, py: int, win: Surface) -> bool {
    corner_upto(px, py, win, 64)
}

/// The border: two rings of straight edges and the four rounded corners.
pub open spec fn border_region(px: int, py: int, win: Surface) -> bool {
    border_ring(px, py, win, 0) || border_ring(px, py, win, 1) || corner_region(px, py, win)
}

/// The row bits of the glyph of `ch`: capitals, small letters and digits
/// each share a shape; anything else is blank.
pub open spec fn glyph_row(ch: u8, r: int) -> u8 {
    if 0x41 <= ch <= 0x5A {
        if r == 0 { 0x18 } else if r == 1 { 0x24 } else if r == 2 { 0x42 } else if r == 3 { 0x7E }
        else if r == 4 { 0x42 } else if r == 5 { 0x42 } else if r == 6 { 0x42 } else { 0x00 }
    } else if 0x61 <= ch <= 0x7A {
        if r == 0 { 0x00 } else if r == 1 { 0x00 } else if r == 2 { 0x3C } else if r == 3 { 0x02 }
        else if r == 4 { 0x3E } else if r == 5 { 0x42 } else if r == 6 { 0x3E } else { 0x00 }
    } else if 0x30 <= ch <= 0x39 {
        if r == 0 { 0x3C } else if r == 1 { 0x42 } else if r == 2 { 0x46 } else if r == 3 { 0x4A }
        else if r == 4 { 0x52 } else if r == 5 { 0x62 } else if r == 6 { 0x3C } else { 0x00 }
    } else {
        0x00
    }
}

/// The glyph of a character.
fn get_glyph(ch: u8) -> (g: [u8; 8])
    ensures
        forall|r: int| 0 <= r < 8 ==> #[trigger] g@[r] == glyph_row(ch, r),
{
    if 0x41 <= ch && ch <= 0x5A {
        [0x18, 0x24, 0x42, 0x7E, 0x42, 0x42, 0x42, 0x00]
    } else if 0x61 <= ch && ch <= 0x7A {
        [0x00, 0x00, 0x3C, 0x02, 0x3E, 0x42, 0x3E, 0x00]
    } else if 0x30 <= ch && ch <= 0x39 {
        [0x3C, 0x42, 0x46, 0x4A, 0x52, 0x62, 0x3C, 0x00]
    } else {
        [0x00; 8]
    }
}

/// Pixel `(c, r)` of the glyph of `ch` is set: bit 7 is the left column.
pub open spec fn glyph_bit(ch: u8, r: int, c: int) -> bool {
    glyph_row(ch, r) & (1u8 << ((7 - c) as u8)) != 0
}

/// The pixels a character drawn at `(x, y)` sets.
pub open spec fn char_region(px: int, py: int, x: int, y: int, ch: u8) -> bool {
    0 <= px - x < 8 && 0 <= py - y < 8 && glyph_bit(ch, py - y, px - x)
}

/// Draws a character's glyph at `(x, y)`, clipped to the screen.
fn draw_char(fb: &mut Framebuffer, x: usize, y: usize, ch: u8, color: u32)
    requires
        old(fb).wf(),
        x + 7 <= usize::MAX,
        y + 7 <= usize::MAX,
    ensures
        final(fb).wf(),
        final(fb).same_frame(old(fb)),
        final(fb).pixels() == paint(old(fb).pixels(), old(fb).width as int,
            |px: int, py: int| char_region(px, py, x as int, y as int, ch),
            |px: int, py: int| color),
{
    let glyph = get_glyph(ch);
    let ghost orig = fb.pixels();
    let ghost W = fb.width as int;
    let ghost H = fb.height as int;
    let ghost colors = |px: int, py: int| color;
    let ghost xi = x as int;
    let ghost yi = y as int;
    let ghost part = |px: int, py: int, r: int, c: int| char_region(px, py, xi, yi, ch) && (py - yi < r || (py - yi == r && px - xi < c));
    proof {
        lemma_painted_none(orig, W, H, |px: int, py: int| part(px, py, 0, 0), colors);
    }
    let mut dy: usize = 0;
    while dy < 8
        invariant
            fb.wf(),
            fb.width == W,
            fb.height == H,
            fb.buffer@ == old(fb).buffer@,
            orig.len() == W * H,
            xi == x,
            yi == y,
            x + 7 <= usize::MAX,
            y + 7 <= usize::MAX,
            forall|r: int| 0 <= r < 8 ==> #[trigger] glyph@[r] == glyph_row(ch, r),
            forall|px: int, py: int| #[trigger] colors(px, py) == color,
            forall|px: int, py: int, r: int, c: int| #[trigger] part(px, py, r, c) == (char_region(px, py, xi, yi, ch) && (py - yi < r || (py - yi == r && px - xi < c))),
            dy <= 8,
            painted(orig, fb.pixels(), W, H, |px: int, py: int| part(px, py, dy as int, 0), colors),
        decreases 8 - dy,
    {
        let mut dx: usize = 0;
        while dx < 8
            invariant
                fb.wf(),
                fb.width == W,
                fb.height == H,
                fb.buffer@ == old(fb).buffer@,
                orig.len() == W * H,
                xi == x,
                yi == y,
                x + 7 <= usize::MAX,
                y + 7 <= usize::MAX,
                forall|r: int| 0 <= r < 8 ==> #[trigger] glyph@[r] == glyph_row(ch, r),
                forall|px: int, py: int| #[trigger] colors(px, py) == color,
                forall|px: int, py: int, r: int, c: int| #[trigger] part(px, py, r, c) == (char_region(px, py, xi, yi, ch) && (py - yi < r || (py - yi == r && px - xi < c))),
                dy < 8,
                dx <= 8,
                painted(orig, fb.pixels(), W, H, |px: int, py: int| part(px, py, dy as int, dx as int), colors),
            decreases 8 - dx,
        {
            let ghost r1 = |px: int, py: int| part(px, py, dy as int, dx as int);
            let ghost r2 = |px: int, py: int| part(px, py, dy as int, (dx + 1) as int);
            let bit = 1u8 << (7 - dx as u8);
            if (glyph[dy] & bit) != 0 {
                if x + dx < fb.width() && y + dy < fb.height() {
                    fb.plot(x + dx, y + dy, color, Ghost(orig), Ghost(r1), Ghost(colors), Ghost(r2));
                } else {
                    proof {
                        lemma_painted_weaken(orig, fb.pixels(), W, H, r1, r2, colors);
                    }
                }
            } else {
                proof {
                    lemma_painted_weaken(orig, fb.pixels(), W, H, r1, r2, colors);
                }
            }
            dx += 1;
        }
        proof {
            lemma_painted_weaken(orig, fb.pixels(), W, H,
                |px: int, py: int| part(px, py, dy as int, 8),
                |px: int, py: int| part(px, py, (dy + 1) as int, 0), colors);
        }
        dy += 1;
    }
    proof {
        lemma_painted_weaken(orig, fb.pixels(), W, H, |px: int, py: int| part(px, py, 8, 0),
            |px: int, py: int| char_region(px, py, x as int, y as int, ch), colors);
        lemma_painted_is_paint(orig, fb.pixels(), W, H, |px: int, py: int| char_region(px, py, x as int, y as int, ch), colors);
    }
}

/// The pixels the first `n` characters of `text` set, drawn 8 apart from
/// `x` on row `y`; characters whose left edge is off the screen are skipped.
pub open spec fn text_region(px: int, py: int, x: int, y: int, text: Seq<u8>, fbw: int, n: int) -> bool
    decreases n,
{
    if n <= 0 {
        false
    } else {
        text_region(px, py, x, y, text, fbw, n - 1) || (0 <= x + 8 * (n - 1) < fbw && char_region(px, py, x + 8 * (n - 1), y, text[n - 1]))
    }
}

/// Draws `text` from `(x, y)` with 8-pixel cells; a character whose left
/// edge is off the screen is skipped.
fn draw_text(fb: &mut Framebuffer, x: i32, y: i32, text: &[u8], color: u32)
    requires
        old(fb).wf(),
        8 * text@.len() <= i32::MAX,
        x + 8 * text@.len() <= i32::MAX,
        (y as usize) + 7 <= usize::MAX,
    ensures
        final(fb).wf(),
        final(fb).same_frame(old(fb)),
        final(fb).pixels() == paint(old(fb).pixels(), old(fb).width as int,
            |px: int, py: int| text_region(px, py, x as int, (y as usize) as int, text@, old(fb).width as int, text@.len() as int),
            |px: int, py: int| color),
{
    let ghost orig = fb.pixels();
    let ghost W = fb.width as int;
    let ghost H = fb.height as int;
    let ghost colors = |px: int, py: int| color;
    let ghost yu = (y as usize) as int;
    proof {
        lemma_painted_none(orig, W, H, |px: int, py: int| text_region(px, py, x as int, yu, text@, W, 0), colors);
    }
    let mut i: usize = 0;
    while i < text.len()
        invariant
            fb.wf(),
            fb.width == W,
            fb.height == H,
            fb.buffer@ == old(fb).buffer@,
            orig.len() == W * H,
            yu == (y as usize) as int,
            8 * text@.len() <= i32::MAX,
            x + 8 * text@.len() <= i32::MAX,
            (y as usize) + 7 <= usize::MAX,
            forall|px: int, py: int| #[trigger] colors(px, py) == color,
            i <= text@.len(),
            painted(orig, fb.pixels(), W, H, |px: int, py: int| text_region(px, py, x as int, yu, text@, W, i as int), colors),
        decreases text@.len() - i,
    {
        let ch = text[i];
        let cx = x + (i * 8) as i32;
        assert(cx as int == x as int + 8 * i as int);
        let ghost before = fb.pixels();
        if cx >= 0 && cx < fb.width() as i32 {
            draw_char(fb, cx as usize, y as usize, ch, color);
            proof {
                lemma_paint_over(orig, before, W, H,
                    |qx: int, qy: int| text_region(qx, qy, x as int, yu, text@, W, i as int), colors,
                    |px: int, py: int| char_region(px, py, (cx as usize) as int, (y as usize) as int, ch), |px: int, py: int| color,
                    |qx: int, qy: int| text_region(qx, qy, x as int, yu, text@, W, (i + 1) as int), colors);
            }
        } else {
            proof {
                lemma_painted_weaken(orig, fb.pixels(), W, H,
                    |qx: int, qy: int| text_region(qx, qy, x as int, yu, text@, W, i as int),
                    |qx: int, qy: int| text_region(qx, qy, x as int, yu, text@, W, (i + 1) as int), colors);
            }
        }
        i += 1;
    }
    proof {
        lemma_painted_is_paint(orig, fb.pixels(), W, H,
            |px: int, py: int| text_region(px, py, x as int, yu, text@, W, text@.len() as int), colors);
    }
}


/// The buffer after the shadow is drawn.
pub open spec fn shadow_image(s: Seq<u32>, fbw: int, win: Surface) -> Seq<u32> {
    let th = default_theme();
    paint(s, fbw, |px: int, py: int| shadow_region(px, py, win), |px: int, py: int| scaled(th.shadow_color, th.shadow_intensity))
}

/// The color of the border: cyan for the focused window.
pub open spec fn border_color(win: Surface) -> u32 {
    if win.focused { default_theme().active_border } else { default_theme().inactive_border }
}

/// The buffer after the border is drawn in `color`.
pub open spec fn border_image(s: Seq<u32>, fbw: int, win: Surface, color: u32) -> Seq<u32> {
    paint(s, fbw, |px: int, py: int| border_region(px, py, win), |px: int, py: int| color)
}

/// Where the title text starts, and the row it is drawn on (as the drawing
/// code converts it).
pub open spec fn title_origin(win: Surface) -> (int, int) {
    (win.x + 8, (((win.y - 20) as i32) as usize) as int)
}

/// Where the close button is drawn (as the drawing code converts it).
pub open spec fn close_origin(win: Surface) -> (int, int) {
    ((((win.x + win.width - 24) as i32) as usize) as int, (((win.y - 22) as i32) as usize) as int)
}

/// The buffer after the title bar is drawn: its background, the title,
/// and the close button at its right end.
pub open spec fn titlebar_image(s: Seq<u32>, fbw: int, win: Surface) -> Seq<u32> {
    let th = default_theme();
    let s1 = paint(s, fbw, |px: int, py: int| titlebar_region(px, py, win), |px: int, py: int| th.titlebar_bg);
    let title = win.title@.subrange(0, win.title_len as int);
    let s2 = paint(s1, fbw,
        |px: int, py: int| text_region(px, py, title_origin(win).0, title_origin(win).1, title, fbw, title.len() as int),
        |px: int, py: int| th.titlebar_text);
    paint(s2, fbw, |px: int, py: int| close_button_region(px, py, close_origin(win).0, close_origin(win).1), |px: int, py: int| CLOSE_BUTTON_COLOR)
}

/// The buffer after the contents are drawn.
pub open spec fn content_image(s: Seq<u32>, fbw: int, win: Surface, alpha: u8) -> Seq<u32> {
    paint(s, fbw, |px: int, py: int| content_region(px, py, win), |px: int, py: int| content_color(px, py, win, alpha))
}

/// The buffer after a window is drawn: shadow, title bar, contents, and
/// the border on top.
pub open spec fn window_image(s: Seq<u32>, fbw: int, win: Surface, alpha: u8) -> Seq<u32> {
    border_image(content_image(titlebar_image(shadow_image(s, fbw, win), fbw, win), fbw, win, alpha), fbw, win, border_color(win))
}

/// A window the renderer can draw: at least 8 wide, with an addressable
/// pixel count and a title of at most 64 bytes, whose decorations' coordinates fit an `i32`,
/// and whose title row and close button do not sit just above the top
/// edge, where their conversion to `usize` would overflow.
pub open spec fn window_fits(win: Surface) -> bool {
    &&& win.width * win.height <= usize::MAX
    &&& 8 <= win.width <= i32::MAX - 8
    &&& win.height <= i32::MAX - 32
    &&& win.title_len <= 64
    &&& win.x + win.width + 8 <= i32::MAX
    &&& win.x + 8 + 8 * 64 <= i32::MAX
    &&& win.y + win.height + 8 <= i32::MAX
    &&& win.y - 28 >= i32::MIN
    &&& !(-7 <= win.y - 20 < 0)
    &&& win.x + win.width - 24 >= i32::MIN
    &&& !(-16 <= win.x + win.width - 24 < 0)
    &&& !(-15 <= win.y - 22 < 0)
}

/// Draws a window's shadow.
fn draw_shadow(fb: &mut Framebuffer, window: &Surface)
    requires
        old(fb).wf(),
        window_fits(*window),
    ensures
        final(fb).wf(),
        final(fb).same_frame(old(fb)),
        final(fb).pixels() == shadow_image(old(fb).pixels(), old(fb).width as int, *window),
{
    let theme = Theme::default();
    let offset: usize = SHADOW_OFFSET;
    let shadow_color = blend_color(theme.shadow_color, theme.shadow_intensity);
    let x0 = window.x + offset as i32;
    let y0 = window.y - TITLEBAR_HEIGHT as i32;
    fb.paint_area(x0, y0, window.width + offset, window.height + TITLEBAR_HEIGHT + offset, shadow_color);
    proof {
        let th = default_theme();
        lemma_paint_same(old(fb).pixels(), old(fb).width as int, old(fb).height as int,
            |px: int, py: int| in_rect(px, py, x0 as int, y0 as int, (window.width + offset) as int, (window.height + TITLEBAR_HEIGHT + offset) as int),
            |px: int, py: int| shadow_color,
            |px: int, py: int| shadow_region(px, py, *window),
            |px: int, py: int| scaled(th.shadow_color, th.shadow_intensity));
    }
}

/// Draws the two-pixel border: the straight edges, then the four corners
/// as quarter-circle arcs of radius 8.
fn draw_border_rounded(fb: &mut Framebuffer, window: &Surface, color: u32)
    requires
        old(fb).wf(),
        window_fits(*window),
    ensures
        final(fb).wf(),
        final(fb).same_frame(old(fb)),
        final(fb).pixels() == border_image(old(fb).pixels(), old(fb).width as int, *window, color),
{
    let theme = Theme::default();
    let r = theme.corner_radius;
    let bw = theme.border_width;
    let ghost orig = fb.pixels();
    let ghost W = fb.width as int;
    let ghost H = fb.height as int;
    let ghost win = *window;
    let ghost colors = |px: int, py: int| color;
    proof {
        lemma_painted_none(orig, W, H, |px: int, py: int| border_part(px, py, win, 0, 0, 8), colors);
    }
    let mut t: usize = 0;
    while t < bw
        invariant
            fb.wf(),
            fb.width == W,
            fb.height == H,
            fb.buffer@ == old(fb).buffer@,
            orig.len() == W * H,
            win == *window,
            window_fits(win),
            r == 8,
            bw == 2,
            t <= 2,
            forall|px: int, py: int| #[trigger] colors(px, py) == color,
            painted(orig, fb.pixels(), W, H, |px: int, py: int| border_part(px, py, win, t as int, 0, 8), colors),
        decreases 2 - t,
    {
        let mut x: usize = r;
        while x < window.width - r
            invariant
                fb.wf(),
                fb.width == W,
                fb.height == H,
                fb.buffer@ == old(fb).buffer@,
                orig.len() == W * H,
                win == *window,
                window_fits(win),
                r == 8,
                t < 2,
                8 <= x,
                x <= window.width - 8 || x == 8,
                forall|px: int, py: int| #[trigger] colors(px, py) == color,
                painted(orig, fb.pixels(), W, H, |px: int, py: int| border_part(px, py, win, t as int, 0, x as int), colors),
            decreases window.width - x,
        {
            let px = window.x + x as i32;
            let py_top = window.y - TITLEBAR_HEIGHT as i32 + t as i32;
            let py_bot = window.y + window.height as i32 - 1 - t as i32;
            let ghost r0 = |px: int, py: int| border_part(px, py, win, t as int, 0, x as int);
            let ghost r1 = |qx: int, qy: int| border_part(qx, qy, win, t as int, 0, x as int) || (qx == px && qy == py_top);
            let ghost r2 = |px: int, py: int| border_part(px, py, win, t as int, 0, (x + 1) as int);
            fb.plot_i32(px, py_top, color, Ghost(orig), Ghost(r0), Ghost(colors), Ghost(r1));
            fb.plot_i32(px, py_bot, color, Ghost(orig), Ghost(r1), Ghost(colors), Ghost(r2));
            x += 1;
        }
        proof {
            lemma_painted_weaken(orig, fb.pixels(), W, H,
                |px: int, py: int| border_part(px, py, win, t as int, 0, x as int),
                |px: int, py: int| border_part(px, py, win, t as int, 1, 8), colors);
        }
        let mut y: usize = r;
        while y < window.height + TITLEBAR_HEIGHT - r
            invariant
                fb.wf(),
                fb.width == W,
                fb.height == H,
                fb.buffer@ == old(fb).buffer@,
                orig.len() == W * H,
                win == *window,
                window_fits(win),
                r == 8,
                t < 2,
                8 <= y <= window.height + 20,
                forall|px: int, py: int| #[trigger] colors(px, py) == color,
                painted(orig, fb.pixels(), W, H, |px: int, py: int| border_part(px, py, win, t as int, 1, y as int), colors),
            decreases window.height + 20 - y,
        {
            let py = window.y - TITLEBAR_HEIGHT as i32 + y as i32;
            let px_left = window.x + t as i32;
            let px_right = window.x + window.width as i32 - 1 - t as i32;
            let ghost r0 = |px: int, py: int| border_part(px, py, win, t as int, 1, y as int);
            let ghost r1 = |qx: int, qy: int| border_part(qx, qy, win, t as int, 1, y as int) || (qx == px_left && qy == py);
            let ghost r2 = |px: int, py: int| border_part(px, py, win, t as int, 1, (y + 1) as int);
            fb.plot_i32(px_left, py, color, Ghost(orig), Ghost(r0), Ghost(colors), Ghost(r1));
            fb.plot_i32(px_right, py, color, Ghost(orig), Ghost(r1), Ghost(colors), Ghost(r2));
            y += 1;
        }
        proof {
            lemma_painted_weaken(orig, fb.pixels(), W, H,
                |px: int, py: int| border_part(px, py, win, t as int, 1, y as int),
                |px: int, py: int| border_part(px, py, win, (t + 1) as int, 0, 8), colors);
        }
        t += 1;
    }
    let ghost rings = |px: int, py: int| border_ring(px, py, win, 0) || border_ring(px, py, win, 1);
    proof {
        lemma_painted_weaken(orig, fb.pixels(), W, H,
            |px: int, py: int| border_part(px, py, win, 2, 0, 8),
            |px: int, py: int| rings(px, py) || corner_upto(px, py, win, 0), colors);
    }
    let x0 = window.x;
    let y0 = window.y - TITLEBAR_HEIGHT as i32;
    let xr = window.x + window.width as i32 - 1;
    let yb = window.y + window.height as i32 - 1;
    let mut dy: usize = 0;
    while dy < 8
        invariant
            fb.wf(),
            fb.width == W,
            fb.height == H,
            fb.buffer@ == old(fb).buffer@,
            orig.len() == W * H,
            win == *window,
            window_fits(win),
            x0 == win.x,
            y0 == win.y - 28,
            xr == win.x + win.width - 1,
            yb == win.y + win.height - 1,
            dy <= 8,
            forall|px: int, py: int| #[trigger] colors(px, py) == color,
            forall|px: int, py: int| #[trigger] rings(px, py) == (border_ring(px, py, win, 0) || border_ring(px, py, win, 1)),
            painted(orig, fb.pixels(), W, H, |px: int, py: int| rings(px, py) || corner_upto(px, py, win, (dy * 8) as int), colors),
        decreases 8 - dy,
    {
        let mut dx: usize = 0;
        while dx < 8
            invariant
                fb.wf(),
                fb.width == W,
                fb.height == H,
                fb.buffer@ == old(fb).buffer@,
                orig.len() == W * H,
                win == *window,
                window_fits(win),
                x0 == win.x,
                y0 == win.y - 28,
                xr == win.x + win.width - 1,
                yb == win.y + win.height - 1,
                dy < 8,
                dx <= 8,
                forall|px: int, py: int| #[trigger] colors(px, py) == color,
                forall|px: int, py: int| #[trigger] rings(px, py) == (border_ring(px, py, win, 0) || border_ring(px, py, win, 1)),
                painted(orig, fb.pixels(), W, H, |px: int, py: int| rings(px, py) || corner_upto(px, py, win, (dy * 8 + dx) as int), colors),
            decreases 8 - dx,
        {
            let k = dy * 8 + dx;
            let a = 15 - 2 * dx;
            let b = 15 - 2 * dy;
            assert(a * a <= 225 && b * b <= 225) by (nonlinear_arith)
                requires
                    a <= 15,
                    b <= 15,
            ;
            let d2 = a * a + b * b;
            let ghost cur = |px: int, py: int| rings(px, py) || corner_upto(px, py, win, k as int);
            let ghost next = |px: int, py: int| rings(px, py) || corner_upto(px, py, win, (k + 1) as int);
            if 144 < d2 && d2 <= 256 {
                assert(arc_pixel(dx as int, dy as int));
                let ax = x0 + dx as i32;
                let bx = xr - dx as i32;
                let ay = y0 + dy as i32;
                let by = yb - dy as i32;
                let ghost r1 = |px: int, py: int| cur(px, py) || (px == ax && py == ay);
                let ghost r2 = |px: int, py: int| r1(px, py) || (px == bx && py == ay);
                let ghost r3 = |px: int, py: int| r2(px, py) || (px == ax && py == by);
                let ghost r4 = |px: int, py: int| r3(px, py) || (px == bx && py == by);
                fb.plot_i32(ax, ay, color, Ghost(orig), Ghost(cur), Ghost(colors), Ghost(r1));
                fb.plot_i32(bx, ay, color, Ghost(orig), Ghost(r1), Ghost(colors), Ghost(r2));
                fb.plot_i32(ax, by, color, Ghost(orig), Ghost(r2), Ghost(colors), Ghost(r3));
                fb.plot_i32(bx, by, color, Ghost(orig), Ghost(r3), Ghost(colors), Ghost(r4));
                proof {
                    assert forall|px: int, py: int| 0 <= px < W && 0 <= py < H implies #[trigger] next(px, py) == r4(px, py) by {
                        lemma_corner_step(px, py, win, dx as int, dy as int);
                    }
                    lemma_painted_weaken(orig, fb.pixels(), W, H, r4, next, colors);
                }
            } else {
                proof {
                    assert(!arc_pixel(dx as int, dy as int));
                    assert forall|px: int, py: int| 0 <= px < W && 0 <= py < H implies #[trigger] next(px, py) == cur(px, py) by {
                        lemma_corner_step(px, py, win, dx as int, dy as int);
                    }
                    lemma_painted_weaken(orig, fb.pixels(), W, H, cur, next, colors);
                }
            }
            dx += 1;
        }
        proof {
            lemma_painted_weaken(orig, fb.pixels(), W, H,
                |px: int, py: int| rings(px, py) || corner_upto(px, py, win, (dy * 8 + 8) as int),
                |px: int, py: int| rings(px, py) || corner_upto(px, py, win, ((dy + 1) * 8) as int), colors);
        }
        dy += 1;
    }
    proof {
        lemma_painted_weaken(orig, fb.pixels(), W, H,
            |px: int, py: int| rings(px, py) || corner_upto(px, py, win, 64),
            |px: int, py: int| border_region(px, py, win), colors);
        lemma_painted_is_paint(orig, fb.pixels(), W, H, |px: int, py: int| border_region(px, py, win), colors);
    }
}

/// One corner step: the corner pixels below index `dy * 8 + dx + 1` are
/// those below `dy * 8 + dx` and, when `(dx, dy)` is on the arc, its four
/// mirror images.
proof fn lemma_corner_step(px: int, py: int, win: Surface, dx: int, dy: int)
    requires
        0 <= dx < 8,
        0 <= dy < 8,
    ensures
        corner_upto(px, py, win, dy * 8 + dx + 1) == (corner_upto(px, py, win, dy * 8 + dx) || (arc_pixel(dx, dy) && {
            let x0 = win.x as int;
            let y0 = win.y - 28;
            let xr = win.x + win.width - 1;
            let yb = win.y + win.height - 1;
            (px == x0 + dx || px == xr - dx) && (py == y0 + dy || py == yb - dy)
        })),
{
}

/// Room after a converted coordinate: one just above the top or left
/// edge converts to the last values of `usize`.
proof fn lemma_cast_room(v: i32)
    ensures
        !(-7 <= v < 0) ==> (v as usize) + 7 <= usize::MAX,
        !(-15 <= v < 0) ==> (v as usize) + 15 <= usize::MAX,
        !(-16 <= v < 0) ==> (v as usize) + 16 <= usize::MAX,
{
    assert(!(-7 <= v && v < 0) ==> (v as usize) + 7 <= !0usize) by (bit_vector);
    assert(!(-15 <= v && v < 0) ==> (v as usize) + 15 <= !0usize) by (bit_vector);
    assert(!(-16 <= v && v < 0) ==> (v as usize) + 16 <= !0usize) by (bit_vector);
}

/// Draws the title bar: its background, the title, the close button.
fn draw_titlebar(fb: &mut Framebuffer, window: &Surface)
    requires
        old(fb).wf(),
        window_fits(*window),
    ensures
        final(fb).wf(),
        final(fb).same_frame(old(fb)),
        final(fb).pixels() == titlebar_image(old(fb).pixels(), old(fb).width as int, *window),
{
    let theme = Theme::default();
    let ghost th = default_theme();
    let ghost W = fb.width as int;
    let ghost H = fb.height as int;
    let ghost win = *window;
    let ghost s0 = fb.pixels();
    let y_start = window.y - TITLEBAR_HEIGHT as i32;
    fb.paint_area(window.x, y_start, window.width, TITLEBAR_HEIGHT, theme.titlebar_bg);
    proof {
        lemma_paint_same(s0, W, H,
            |px: int, py: int| in_rect(px, py, window.x as int, y_start as int, window.width as int, TITLEBAR_HEIGHT as int),
            |px: int, py: int| theme.titlebar_bg,
            |px: int, py: int| titlebar_region(px, py, win),
            |px: int, py: int| th.titlebar_bg);
    }
    let ghost s1 = fb.pixels();
    let all = window.title.as_slice();
    let text = &all[0..window.title_len];
    let tx = window.x + 8;
    let ty = y_start + 8;
    proof {
        lemma_cast_room(ty);
        assert(text@ == win.title@.subrange(0, win.title_len as int));
        assert(title_origin(win) == (tx as int, (ty as usize) as int));
    }
    draw_text(fb, tx, ty, text, theme.titlebar_text);
    proof {
        let title = win.title@.subrange(0, win.title_len as int);
        lemma_paint_same(s1, W, H,
            |px: int, py: int| text_region(px, py, tx as int, (ty as usize) as int, text@, W, text@.len() as int),
            |px: int, py: int| theme.titlebar_text,
            |px: int, py: int| text_region(px, py, title_origin(win).0, title_origin(win).1, title, W, title.len() as int),
            |px: int, py: int| th.titlebar_text);
    }
    let ghost s2 = fb.pixels();
    let close_x = window.x + window.width as i32 - 24;
    let close_y = y_start + 6;
    proof {
        lemma_cast_room(close_x);
        lemma_cast_room(close_y);
        assert(close_origin(win) == ((close_x as usize) as int, (close_y as usize) as int));
    }
    draw_close_button(fb, close_x as usize, close_y as usize);
}

/// Draws the contents, faded when `alpha` is below 255.
fn draw_window_content(fb: &mut Framebuffer, window: &Surface, alpha: u8)
    requires
        old(fb).wf(),
        window_fits(*window),
    ensures
        final(fb).wf(),
        final(fb).same_frame(old(fb)),
        final(fb).pixels() == content_image(old(fb).pixels(), old(fb).width as int, *window, alpha),
{
    let ghost orig = fb.pixels();
    let ghost W = fb.width as int;
    let ghost H = fb.height as int;
    let ghost win = *window;
    let ghost colors = |px: int, py: int| content_color(px, py, win, alpha);
    let ghost x0 = window.x as int;
    let ghost y0 = window.y as int;
    let ghost w = window.width as int;
    proof {
        lemma_painted_none(orig, W, H, |px: int, py: int| in_rect(px, py, x0, y0, w, 0), colors);
    }
    let mut dy: usize = 0;
    while dy < window.height
        invariant
            fb.wf(),
            fb.width == W,
            fb.height == H,
            fb.buffer@ == old(fb).buffer@,
            orig.len() == W * H,
            win == *window,
            window_fits(win),
            x0 == win.x,
            y0 == win.y,
            w == win.width,
            dy <= win.height,
            forall|px: int, py: int| #[trigger] colors(px, py) == content_color(px, py, win, alpha),
            painted(orig, fb.pixels(), W, H, |px: int, py: int| in_rect(px, py, x0, y0, w, dy as int), colors),
        decreases win.height - dy,
    {
        let mut dx: usize = 0;
        while dx < window.width
            invariant
                fb.wf(),
                fb.width == W,
                fb.height == H,
                fb.buffer@ == old(fb).buffer@,
                orig.len() == W * H,
                win == *window,
                window_fits(win),
                x0 == win.x,
                y0 == win.y,
                w == win.width,
                dy < win.height,
                dx <= win.width,
                forall|px: int, py: int| #[trigger] colors(px, py) == content_color(px, py, win, alpha),
                painted(orig, fb.pixels(), W, H, |px: int, py: int| in_rect(px, py, x0, y0, w, dy as int) || in_rect(px, py, x0, y0 + dy, dx as int, 1), colors),
            decreases win.width - dx,
        {
            let ghost r1 = |px: int, py: int| in_rect(px, py, x0, y0, w, dy as int) || in_rect(px, py, x0, y0 + dy, dx as int, 1);
            let ghost r2 = |px: int, py: int| in_rect(px, py, x0, y0, w, dy as int) || in_rect(px, py, x0, y0 + dy, (dx + 1) as int, 1);
            let px = window.x + dx as i32;
            let py = window.y + dy as i32;
            proof {
                crate::pixels::lemma_index(window.width as int, window.height as int, dx as int, dy as int);
            }
            let idx = dy * window.width + dx;
            let color = if idx < window.pixels.len() { window.pixels[idx] } else { SURFACE_FILL };
            let final_color = if alpha < 255 { blend_alpha(color, alpha) } else { color };
            fb.plot_i32(px, py, final_color, Ghost(orig), Ghost(r1), Ghost(colors), Ghost(r2));
            dx += 1;
        }
        proof {
            lemma_painted_weaken(orig, fb.pixels(), W, H,
                |px: int, py: int| in_rect(px, py, x0, y0, w, dy as int) || in_rect(px, py, x0, y0 + dy, w, 1),
                |px: int, py: int| in_rect(px, py, x0, y0, w, (dy + 1) as int), colors);
        }
        dy += 1;
    }
    proof {
        lemma_painted_equiv(orig, fb.pixels(), W, H, |px: int, py: int| in_rect(px, py, x0, y0, w, dy as int), colors,
            |px: int, py: int| content_region(px, py, win), |px: int, py: int| content_color(px, py, win, alpha));
        lemma_painted_is_paint(orig, fb.pixels(), W, H, |px: int, py: int| content_region(px, py, win), |px: int, py: int| content_color(px, py, win, alpha));
    }
}

/// Draws a window: its shadow, its title bar, its contents faded by
/// `alpha`, and its border (cyan when focused) with rounded corners on top.
pub fn render_window(fb: &mut Framebuffer, window: &Surface, alpha: u8)
    requires
        old(fb).wf(),
        window_fits(*window),
    ensures
        final(fb).wf(),
        final(fb).same_frame(old(fb)),
        final(fb).pixels() == window_image(old(fb).pixels(), old(fb).width as int, *window, alpha),
{
    let theme = Theme::default();
    let border_color = if window.focused { theme.active_border } else { theme.inactive_border };
    draw_shadow(fb, window);
    draw_titlebar(fb, window);
    draw_window_content(fb, window, alpha);
    draw_border_rounded(fb, window, border_color);
}

/// The buffer after the panel is drawn: its background, the name and the
/// clock text, and the launcher icon 80 pixels from the right end.
pub open spec fn panel_image(s: Seq<u32>, fbw: int, width: int, height: int) -> Seq<u32> {
    let th = default_theme();
    let s1 = paint(s, fbw, |px: int, py: int| in_rect(px, py, 0, 0, width, height), |px: int, py: int| th.panel_bg);
    let name = "wishy v0.1".spec_bytes();
    let clock = "12:34".spec_bytes();
    let s2 = paint(s1, fbw, |px: int, py: int| text_region(px, py, 8, 8, name, fbw, name.len() as int), |px: int, py: int| th.panel_text);
    let s3 = paint(s2, fbw, |px: int, py: int| text_region(px, py, width - 50, 8, clock, fbw, clock.len() as int), |px: int, py: int| th.panel_text);
    paint(s3, fbw, |px: int, py: int| launcher_region(px, py, width - 80, 5), |px: int, py: int| LAUNCHER_COLOR)
}

/// Draws the top panel over `width` by `height` pixels.
pub fn draw_panel(fb: &mut Framebuffer, width: usize, height: usize)
    requires
        old(fb).wf(),
        80 <= width <= i32::MAX - 64,
    ensures
        final(fb).wf(),
        final(fb).same_frame(old(fb)),
        final(fb).pixels() == panel_image(old(fb).pixels(), old(fb).width as int, width as int, height as int),
{
    let theme = Theme::default();
    let ghost th = default_theme();
    let ghost W = fb.width as int;
    let ghost H = fb.height as int;
    fb.fill_rect(0, 0, width, height, theme.panel_bg);
    let ghost s1 = fb.pixels();
    let name = "wishy v0.1";
    let name_bytes = name.as_bytes();
    proof {
        reveal_strlit("wishy v0.1");
        vstd::string::is_ascii_spec_bytes(name);
        assert(name_bytes@.len() == 10);
    }
    draw_text(fb, 8, 8, name_bytes, theme.panel_text);
    proof {
        lemma_paint_same(s1, W, H,
            |px: int, py: int| text_region(px, py, 8i32 as int, ((8i32) as usize) as int, name_bytes@, W, name_bytes@.len() as int),
            |px: int, py: int| theme.panel_text,
            |px: int, py: int| text_region(px, py, 8, 8, "wishy v0.1".spec_bytes(), W, "wishy v0.1".spec_bytes().len() as int),
            |px: int, py: int| th.panel_text);
    }
    let ghost s2 = fb.pixels();
    let time_str = "12:34";
    let time_bytes = time_str.as_bytes();
    proof {
        reveal_strlit("12:34");
        vstd::string::is_ascii_spec_bytes(time_str);
        assert(time_bytes@.len() == 5);
    }
    let tx = (width - 50) as i32;
    draw_text(fb, tx, 8, time_bytes, theme.panel_text);
    proof {
        lemma_paint_same(s2, W, H,
            |px: int, py: int| text_region(px, py, tx as int, ((8i32) as usize) as int, time_bytes@, W, time_bytes@.len() as int),
            |px: int, py: int| theme.panel_text,
            |px: int, py: int| text_region(px, py, width - 50, 8, "12:34".spec_bytes(), W, "12:34".spec_bytes().len() as int),
            |px: int, py: int| th.panel_text);
    }
    draw_launcher_icon(fb, width - 80, 5);
}

} // verus!
