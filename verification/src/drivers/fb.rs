use vstd::prelude::*;
use vstd::std_specs::iter::IteratorSpec;
use crate::pixels::{lemma_painted_equiv, pix, lemma_paint_then_paint, lemma_index, lemma_paint_pixel, lemma_painted_is_paint, lemma_painted_none, lemma_painted_weaken, paint, painted};

verus! {

pub const FB_WIDTH: usize = 1024;
pub const FB_HEIGHT: usize = 768;

/// A double-buffered linear framebuffer of 32-bit pixels. Drawing goes to
/// `back_buffer`; `swap` copies it to `buffer`, the visible screen.
pub struct Framebuffer {
    pub buffer: Vec<u32>,
    pub width: usize,
    pub height: usize,
    pub back_buffer: Vec<u32>,
}

/// Pixels of the rectangle `[x, x + w) x [y, y + h)`.
pub open spec fn in_rect(px: int, py: int, x: int, y: int, w: int, h: int) -> bool {
    x <= px < x + w && y <= py < y + h
}

impl Framebuffer {
    /// Both buffers hold `width * height` pixels; the sides fit an `i32`.
    pub open spec fn wf(&self) -> bool {
        &&& self.width <= i32::MAX
        &&& self.height <= i32::MAX
        &&& self.back_buffer@.len() == self.width * self.height
        &&& self.buffer@.len() == self.width * self.height
    }

    /// The drawing (back) buffer.
    pub open spec fn pixels(&self) -> Seq<u32> {
        self.back_buffer@
    }

    /// Width, height and the visible buffer are kept.
    pub open spec fn same_frame(&self, other: &Self) -> bool {
        &&& self.width == other.width
        &&& self.height == other.height
        &&& self.buffer@ == other.buffer@
    }

    /// A black framebuffer of the given size.
    pub fn new(width: usize, height: usize) -> (fb: Self)
        requires
            width <= i32::MAX,
            height <= i32::MAX,
            width * height <= usize::MAX,
        ensures
            fb.wf(),
            fb.width == width,
            fb.height == height,
            fb.pixels() == Seq::new((width * height) as nat, |i: int| 0u32),
            fb.buffer@ == Seq::new((width * height) as nat, |i: int| 0u32),
    {
        let n = width * height;
        let back_buffer = vec![0u32; n];
        let buffer = vec![0u32; n];
        proof {
            assert(back_buffer@ =~= Seq::new((width * height) as nat, |i: int| 0u32));
            assert(buffer@ =~= Seq::new((width * height) as nat, |i: int| 0u32));
        }
        Framebuffer { buffer, width, height, back_buffer }
    }

    pub fn width(&self) -> (w: usize)
        ensures
            w == self.width,
    {
        self.width
    }

    pub fn height(&self) -> (h: usize)
        ensures
            h == self.height,
    {
        self.height
    }

    /// Sets one pixel of the back buffer; pixels outside the screen are
    /// ignored.
    pub fn put_pixel(&mut self, x: usize, y: usize, color: u32)
        requires
            old(self).wf(),
        ensures
            final(self).wf(),
            final(self).same_frame(old(self)),
            final(self).pixels() == (if x < old(self).width && y < old(self).height {
                old(self).pixels().update(y * old(self).width + x, color)
            } else {
                old(self).pixels()
            }),
    {
        if x < self.width && y < self.height {
            let n = self.back_buffer.len();
            proof {
                lemma_index(self.width as int, self.height as int, x as int, y as int);
            }
            let idx = y * self.width + x;
            self.back_buffer.set(idx, color);
        }
    }

    /// Sets one pixel, stated as a painting step.
    pub(crate) fn plot(&mut self, x: usize, y: usize, color: u32, Ghost(orig): Ghost<Seq<u32>>, Ghost(region): Ghost<spec_fn(int, int) -> bool>, Ghost(colors): Ghost<spec_fn(int, int) -> u32>, Ghost(region2): Ghost<spec_fn(int, int) -> bool>)
        requires
            old(self).wf(),
            orig.len() == old(self).width * old(self).height,
            painted(orig, old(self).pixels(), old(self).width as int, old(self).height as int, region, colors),
            colors(x as int, y as int) == color,
            forall|px: int, py: int| 0 <= px < old(self).width && 0 <= py < old(self).height ==> #[trigger] region2(px, py) == (region(px, py) || (px == x && py == y)),
        ensures
            final(self).wf(),
            final(self).same_frame(old(self)),
            painted(orig, final(self).pixels(), final(self).width as int, final(self).height as int, region2, colors),
    {
        proof {
            lemma_paint_pixel(orig, self.pixels(), self.width as int, self.height as int, region, colors, x as int, y as int, region2);
        }
        self.put_pixel(x, y, color);
    }

    /// Fills the rectangle `[x, x + w) x [y, y + h)` (clipped to the screen).
    pub fn fill_rect(&mut self, x: usize, y: usize, w: usize, h: usize, color: u32)
        requires
            old(self).wf(),
            w > 0 && h > 0 ==> x + w - 1 <= usize::MAX && y + h - 1 <= usize::MAX,
        ensures
            final(self).wf(),
            final(self).same_frame(old(self)),
            final(self).pixels() == paint(
                old(self).pixels(),
                old(self).width as int,
                |px: int, py: int| in_rect(px, py, x as int, y as int, w as int, h as int),
                |px: int, py: int| color,
            ),
    {
        let ghost orig = self.pixels();
        let ghost W = self.width as int;
        let ghost H = self.height as int;
        let ghost colors = |px: int, py: int| color;
        let ghost full = |px: int, py: int| in_rect(px, py, x as int, y as int, w as int, h as int);
        let mut dy: usize = 0;
        proof {
            lemma_painted_none(orig, W, H, |px: int, py: int| in_rect(px, py, x as int, y as int, w as int, 0), colors);
        }
        while dy < h
            invariant
                self.wf(),
                self.width == W,
                self.height == H,
                self.buffer@ == old(self).buffer@,
                orig.len() == W * H,
                forall|px: int, py: int| #[trigger] colors(px, py) == color,
                dy <= h,
                w > 0 && h > 0 ==> x + w - 1 <= usize::MAX && y + h - 1 <= usize::MAX,
                painted(orig, self.pixels(), W, H, |px: int, py: int| in_rect(px, py, x as int, y as int, w as int, dy as int), colors),
            decreases h - dy,
        {
            let mut dx: usize = 0;
            while dx < w
                invariant
                    self.wf(),
                    self.width == W,
                    self.height == H,
                    self.buffer@ == old(self).buffer@,
                    orig.len() == W * H,
                    forall|px: int, py: int| #[trigger] colors(px, py) == color,
                    dy < h,
                    dx <= w,
                    w > 0 && h > 0 ==> x + w - 1 <= usize::MAX && y + h - 1 <= usize::MAX,
                    painted(orig, self.pixels(), W, H, |px: int, py: int| in_rect(px, py, x as int, y as int, w as int, dy as int) || in_rect(px, py, x as int, (y + dy) as int, dx as int, 1), colors),
                decreases w - dx,
            {
                let ghost r1 = |px: int, py: int| in_rect(px, py, x as int, y as int, w as int, dy as int) || in_rect(px, py, x as int, (y + dy) as int, dx as int, 1);
                let ghost r2 = |px: int, py: int| in_rect(px, py, x as int, y as int, w as int, dy as int) || in_rect(px, py, x as int, (y + dy) as int, (dx + 1) as int, 1);
                self.plot(x + dx, y + dy, color, Ghost(orig), Ghost(r1), Ghost(colors), Ghost(r2));
                dx += 1;
            }
            proof {
                lemma_painted_weaken(orig, self.pixels(), W, H,
                    |px: int, py: int| in_rect(px, py, x as int, y as int, w as int, dy as int) || in_rect(px, py, x as int, (y + dy) as int, w as int, 1),
                    |px: int, py: int| in_rect(px, py, x as int, y as int, w as int, (dy + 1) as int),
                    colors);
            }
            dy += 1;
        }
        proof {
            lemma_painted_weaken(orig, self.pixels(), W, H, |px: int, py: int| in_rect(px, py, x as int, y as int, w as int, dy as int), full, colors);
            lemma_painted_is_paint(orig, self.pixels(), W, H, full, colors);
        }
    }


    /// Copies a `w` by `h` image (row-major in `data`) to `(x, y)`; pixels
    /// off the screen, and those past the end of `data`, are skipped.
    pub fn blit(&mut self, x: usize, y: usize, w: usize, h: usize, data: &[u32])
        requires
            old(self).wf(),
            w > 0 && h > 0 ==> x + w - 1 <= usize::MAX && y + h - 1 <= usize::MAX && w * h <= usize::MAX,
        ensures
            final(self).wf(),
            final(self).same_frame(old(self)),
            final(self).pixels() == paint(
                old(self).pixels(),
                old(self).width as int,
                |px: int, py: int| blit_region(px, py, x as int, y as int, w as int, h as int, data@.len() as int),
                |px: int, py: int| data@[(py - y) * w + (px - x)],
            ),
    {
        let ghost orig = self.pixels();
        let ghost W = self.width as int;
        let ghost H = self.height as int;
        let ghost colors = |px: int, py: int| data@[(py - y) * w + (px - x)];
        let ghost n = data@.len() as int;
        let mut dy: usize = 0;
        proof {
            lemma_painted_none(orig, W, H, |px: int, py: int| blit_region(px, py, x as int, y as int, w as int, 0, n), colors);
        }
        while dy < h
            invariant
                self.wf(),
                self.width == W,
                self.height == H,
                self.buffer@ == old(self).buffer@,
                orig.len() == W * H,
                n == data@.len(),
                forall|px: int, py: int| #[trigger] colors(px, py) == data@[(py - y) * w + (px - x)],
                dy <= h,
                w > 0 && h > 0 ==> x + w - 1 <= usize::MAX && y + h - 1 <= usize::MAX && w * h <= usize::MAX,
                painted(orig, self.pixels(), W, H, |px: int, py: int| blit_region(px, py, x as int, y as int, w as int, dy as int, n), colors),
            decreases h - dy,
        {
            let mut dx: usize = 0;
            while dx < w
                invariant
                    self.wf(),
                    self.width == W,
                    self.height == H,
                    self.buffer@ == old(self).buffer@,
                    orig.len() == W * H,
                    n == data@.len(),
                    forall|px: int, py: int| #[trigger] colors(px, py) == data@[(py - y) * w + (px - x)],
                    dy < h,
                    dx <= w,
                    w > 0 && h > 0 ==> x + w - 1 <= usize::MAX && y + h - 1 <= usize::MAX && w * h <= usize::MAX,
                    painted(orig, self.pixels(), W, H, |px: int, py: int| blit_region(px, py, x as int, y as int, w as int, dy as int, n)
                        || (in_rect(px, py, x as int, (y + dy) as int, dx as int, 1) && (py - y) * w + (px - x) < n), colors),
                decreases w - dx,
            {
                let ghost r1 = |px: int, py: int| blit_region(px, py, x as int, y as int, w as int, dy as int, n)
                    || (in_rect(px, py, x as int, (y + dy) as int, dx as int, 1) && (py - y) * w + (px - x) < n);
                let ghost r2 = |px: int, py: int| blit_region(px, py, x as int, y as int, w as int, dy as int, n)
                    || (in_rect(px, py, x as int, (y + dy) as int, (dx + 1) as int, 1) && (py - y) * w + (px - x) < n);
                if x + dx < self.width && y + dy < self.height {
                    proof {
                        lemma_index(w as int, h as int, dx as int, dy as int);
                    }
                    let idx = dy * w + dx;
                    if idx < data.len() {
                        let v = data[idx];
                        self.plot(x + dx, y + dy, v, Ghost(orig), Ghost(r1), Ghost(colors), Ghost(r2));
                    } else {
                        proof {
                            lemma_painted_weaken(orig, self.pixels(), W, H, r1, r2, colors);
                        }
                    }
                } else {
                    proof {
                        lemma_painted_weaken(orig, self.pixels(), W, H, r1, r2, colors);
                    }
                }
                dx += 1;
            }
            proof {
                lemma_painted_weaken(orig, self.pixels(), W, H,
                    |px: int, py: int| blit_region(px, py, x as int, y as int, w as int, dy as int, n)
                        || (in_rect(px, py, x as int, (y + dy) as int, w as int, 1) && (py - y) * w + (px - x) < n),
                    |px: int, py: int| blit_region(px, py, x as int, y as int, w as int, (dy + 1) as int, n),
                    colors);
            }
            dy += 1;
        }
        proof {
            lemma_painted_weaken(orig, self.pixels(), W, H,
                |px: int, py: int| blit_region(px, py, x as int, y as int, w as int, dy as int, n),
                |px: int, py: int| blit_region(px, py, x as int, y as int, w as int, h as int, data@.len() as int),
                colors);
            lemma_painted_is_paint(orig, self.pixels(), W, H,
                |px: int, py: int| blit_region(px, py, x as int, y as int, w as int, h as int, data@.len() as int),
                colors);
        }
    }

    /// Draws a character cell, 8 by 16 pixels at `(x, y)`: glyph bits in
    /// `fg`, the rest in `bg`. The built-in font's glyphs are all blank, so
    /// the cell comes out in `bg`.
    pub fn put_char(&mut self, x: usize, y: usize, ch: char, fg: u32, bg: u32)
        requires
            old(self).wf(),
            x + 7 <= usize::MAX,
            y + 15 <= usize::MAX,
        ensures
            final(self).wf(),
            final(self).same_frame(old(self)),
            final(self).pixels() == paint(
                old(self).pixels(),
                old(self).width as int,
                |px: int, py: int| in_rect(px, py, x as int, y as int, 8, 16),
                |px: int, py: int| bg,
            ),
    {
        let font = get_font_bitmap(ch);
        let ghost orig = self.pixels();
        let ghost W = self.width as int;
        let ghost H = self.height as int;
        let ghost colors = |px: int, py: int| bg;
        let mut dy: usize = 0;
        proof {
            lemma_painted_none(orig, W, H, |px: int, py: int| in_rect(px, py, x as int, y as int, 8, 0), colors);
        }
        while dy < 16
            invariant
                self.wf(),
                self.width == W,
                self.height == H,
                self.buffer@ == old(self).buffer@,
                orig.len() == W * H,
                font@ == Seq::new(16, |i: int| 0u8),
                forall|px: int, py: int| #[trigger] colors(px, py) == bg,
                dy <= 16,
                x + 7 <= usize::MAX,
                y + 15 <= usize::MAX,
                painted(orig, self.pixels(), W, H, |px: int, py: int| in_rect(px, py, x as int, y as int, 8, dy as int), colors),
            decreases 16 - dy,
        {
            let mut dx: usize = 0;
            while dx < 8
                invariant
                    self.wf(),
                    self.width == W,
                    self.height == H,
                    self.buffer@ == old(self).buffer@,
                    orig.len() == W * H,
                    font@ == Seq::new(16, |i: int| 0u8),
                    forall|px: int, py: int| #[trigger] colors(px, py) == bg,
                    dy < 16,
                    dx <= 8,
                    x + 7 <= usize::MAX,
                    y + 15 <= usize::MAX,
                    painted(orig, self.pixels(), W, H, |px: int, py: int| in_rect(px, py, x as int, y as int, 8, dy as int) || in_rect(px, py, x as int, (y + dy) as int, dx as int, 1), colors),
                decreases 8 - dx,
            {
                let ghost r1 = |px: int, py: int| in_rect(px, py, x as int, y as int, 8, dy as int) || in_rect(px, py, x as int, (y + dy) as int, dx as int, 1);
                let ghost r2 = |px: int, py: int| in_rect(px, py, x as int, y as int, 8, dy as int) || in_rect(px, py, x as int, (y + dy) as int, (dx + 1) as int, 1);
                let row = font[dy];
                let mask: u8 = 1u8 << ((7 - dx) as u8);
                assert(row == 0u8);
                assert(0u8 & mask == 0u8) by (bit_vector);
                let pixel = if row & mask != 0 { fg } else { bg };
                self.plot(x + dx, y + dy, pixel, Ghost(orig), Ghost(r1), Ghost(colors), Ghost(r2));
                dx += 1;
            }
            proof {
                lemma_painted_weaken(orig, self.pixels(), W, H,
                    |px: int, py: int| in_rect(px, py, x as int, y as int, 8, dy as int) || in_rect(px, py, x as int, (y + dy) as int, 8, 1),
                    |px: int, py: int| in_rect(px, py, x as int, y as int, 8, (dy + 1) as int),
                    colors);
            }
            dy += 1;
        }
        proof {
            lemma_painted_is_paint(orig, self.pixels(), W, H, |px: int, py: int| in_rect(px, py, x as int, y as int, 8, 16), colors);
        }
    }

    /// Prints a line of text from `(x, y)`, one 8-pixel cell per character,
    /// stopping at a newline, at the end of the string, or once the next
    /// cell would start at or past the right edge. See `chars_drawn`.
    pub fn print_string(&mut self, x: usize, y: usize, s: &str, fg: u32, bg: u32)
        requires
            old(self).wf(),
            x + 8 <= usize::MAX,
            y + 15 <= usize::MAX,
        ensures
            final(self).wf(),
            final(self).same_frame(old(self)),
            final(self).pixels() == paint(
                old(self).pixels(),
                old(self).width as int,
                |px: int, py: int| in_rect(px, py, x as int, y as int, 8 * chars_drawn(s@, x as int, old(self).width as int, 0), 16),
                |px: int, py: int| bg,
            ),
    {
        broadcast use vstd::string::axiom_spec_iter;
        let ghost orig = self.pixels();
        let ghost W = self.width as int;
        let ghost H = self.height as int;
        let ghost colors = |px: int, py: int| bg;
        let ghost total = chars_drawn(s@, x as int, W, 0);
        let mut it = s.chars();
        let mut cx = x;
        let ghost mut k: int = 0;
        proof {
            lemma_painted_none(orig, W, H, |px: int, py: int| in_rect(px, py, x as int, y as int, 0, 16), colors);
        }
        loop
            invariant_except_break
                self.wf(),
                self.width == W,
                self.height == H,
                self.buffer@ == old(self).buffer@,
                orig.len() == W * H,
                forall|px: int, py: int| #[trigger] colors(px, py) == bg,
                0 <= k <= s@.len(),
                it.remaining() == s@.skip(k),
                cx == x + 8 * k,
                k == 0 || cx < W,
                x + 8 <= usize::MAX,
                y + 15 <= usize::MAX,
                chars_drawn(s@, x as int, W, k) == total,
                painted(orig, self.pixels(), W, H, |px: int, py: int| in_rect(px, py, x as int, y as int, 8 * k, 16), colors),
            ensures
                self.wf(),
                self.width == W,
                self.height == H,
                self.buffer@ == old(self).buffer@,
                painted(orig, self.pixels(), W, H, |px: int, py: int| in_rect(px, py, x as int, y as int, 8 * total, 16), colors),
            decreases s@.len() - k,
        {
            let next = it.next();
            match next {
                None => {
                    proof {
                        assert(s@.skip(k).len() == 0);
                        assert(k == s@.len());
                    }
                    break;
                },
                Some(ch) => {
                    proof {
                        assert(s@.skip(k)[0] == s@[k]);
                    }
                    if ch == '\n' {
                        break;
                    }
                    let ghost before = self.pixels();
                    self.put_char(cx, y, ch, fg, bg);
                    proof {
                        lemma_paint_then_paint(orig, before, W, H,
                            |px: int, py: int| in_rect(px, py, x as int, y as int, 8 * k, 16), colors,
                            |px: int, py: int| in_rect(px, py, cx as int, y as int, 8, 16), |px: int, py: int| bg);
                        lemma_painted_weaken(orig, self.pixels(), W, H,
                            |px: int, py: int| in_rect(px, py, x as int, y as int, 8 * k, 16) || in_rect(px, py, cx as int, y as int, 8, 16),
                            |px: int, py: int| in_rect(px, py, x as int, y as int, 8 * (k + 1), 16),
                            |px: int, py: int| if in_rect(px, py, cx as int, y as int, 8, 16) { bg } else { colors(px, py) });
                        assert forall|px: int, py: int| 0 <= px < W && 0 <= py < H implies #[trigger] pix(self.pixels(), W, px, py) == (if in_rect(px, py, x as int, y as int, 8 * (k + 1), 16) {
                            colors(px, py)
                        } else {
                            pix(orig, W, px, py)
                        }) by {
                            assert(pix(self.pixels(), W, px, py) == (if in_rect(px, py, x as int, y as int, 8 * (k + 1), 16) {
                                if in_rect(px, py, cx as int, y as int, 8, 16) { bg } else { colors(px, py) }
                            } else {
                                pix(orig, W, px, py)
                            }));
                        }
                        assert(chars_drawn(s@, x as int, W, k) == chars_drawn(s@, x as int, W, k + 1));
                        k = k + 1;
                    }
                    cx += 8;
                    if cx >= self.width {
                        proof {
                            assert(chars_drawn(s@, x as int, W, k) == k);
                        }
                        break;
                    }
                },
            }
        }
        proof {
            lemma_painted_is_paint(orig, self.pixels(), W, H, |px: int, py: int| in_rect(px, py, x as int, y as int, 8 * total, 16), colors);
        }
    }

    /// One more one-color rectangle, stated as a painting step.
    pub(crate) fn fill_more(&mut self, x: usize, y: usize, w: usize, h: usize, color: u32, Ghost(orig): Ghost<Seq<u32>>, Ghost(region): Ghost<spec_fn(int, int) -> bool>, Ghost(region2): Ghost<spec_fn(int, int) -> bool>)
        requires
            old(self).wf(),
            w > 0 && h > 0 ==> x + w - 1 <= usize::MAX && y + h - 1 <= usize::MAX,
            orig.len() == old(self).width * old(self).height,
            painted(orig, old(self).pixels(), old(self).width as int, old(self).height as int, region, |px: int, py: int| color),
            forall|px: int, py: int| 0 <= px < old(self).width && 0 <= py < old(self).height ==> #[trigger] region2(px, py) == (region(px, py) || in_rect(px, py, x as int, y as int, w as int, h as int)),
        ensures
            final(self).wf(),
            final(self).same_frame(old(self)),
            painted(orig, final(self).pixels(), final(self).width as int, final(self).height as int, region2, |px: int, py: int| color),
    {
        let ghost before = self.pixels();
        self.fill_rect(x, y, w, h, color);
        proof {
            let W = self.width as int;
            let H = self.height as int;
            lemma_paint_then_paint(orig, before, W, H, region, |px: int, py: int| color,
                |px: int, py: int| in_rect(px, py, x as int, y as int, w as int, h as int), |px: int, py: int| color);
            lemma_painted_equiv(orig, self.pixels(), W, H,
                |px: int, py: int| region(px, py) || in_rect(px, py, x as int, y as int, w as int, h as int),
                |px: int, py: int| if in_rect(px, py, x as int, y as int, w as int, h as int) { color } else { color },
                region2, |px: int, py: int| color);
        }
    }

    /// Fills the whole back buffer with one color.
    pub fn clear(&mut self, color: u32)
        requires
            old(self).wf(),
        ensures
            final(self).wf(),
            final(self).same_frame(old(self)),
            final(self).pixels() == Seq::new(old(self).pixels().len(), |i: int| color),
    {
        let n = self.back_buffer.len();
        let mut i: usize = 0;
        while i < n
            invariant
                self.wf(),
                self.width == old(self).width,
                self.height == old(self).height,
                self.buffer@ == old(self).buffer@,
                n == self.back_buffer@.len(),
                i <= n,
                forall|j: int| 0 <= j < i ==> self.back_buffer@[j] == color,
            decreases n - i,
        {
            self.back_buffer.set(i, color);
            i += 1;
        }
        proof {
            assert(self.back_buffer@ =~= Seq::new(old(self).pixels().len(), |i: int| color));
        }
    }

    /// Makes the drawing visible: copies the back buffer to the screen.
    pub fn swap(&mut self)
        requires
            old(self).wf(),
        ensures
            final(self).wf(),
            final(self).width == old(self).width,
            final(self).height == old(self).height,
            final(self).pixels() == old(self).pixels(),
            final(self).buffer@ == old(self).pixels(),
    {
        let n = self.buffer.len();
        let mut i: usize = 0;
        while i < n
            invariant
                self.wf(),
                self.width == old(self).width,
                self.height == old(self).height,
                self.back_buffer@ == old(self).back_buffer@,
                n == self.buffer@.len(),
                i <= n,
                forall|j: int| 0 <= j < i ==> self.buffer@[j] == self.back_buffer@[j],
            decreases n - i,
        {
            let v = self.back_buffer[i];
            self.buffer.set(i, v);
            i += 1;
        }
        proof {
            assert(self.buffer@ =~= self.back_buffer@);
        }
    }
}

/// The pixels `blit` copies: inside the image rectangle and backed by data.
pub open spec fn blit_region(px: int, py: int, x: int, y: int, w: int, h: int, n: int) -> bool {
    in_rect(px, py, x, y, w, h) && (py - y) * w + (px - x) < n
}

/// How many characters `print_string` draws from `x` on a screen `w` wide:
/// it stops at the end, at a newline, or when a cell after the first would
/// start at or past the edge. Counted from character `k` on.
pub open spec fn chars_drawn(s: Seq<char>, x: int, w: int, k: int) -> int
    decreases s.len() - k,
{
    if k < 0 || k >= s.len() || s[k] == '\n' || (k > 0 && x + 8 * k >= w) {
        k
    } else {
        chars_drawn(s, x, w, k + 1)
    }
}

/// The 8 by 16 glyph of a character in the built-in font. Every glyph of
/// that font is blank.
pub fn get_font_bitmap(ch: char) -> (glyph: [u8; 16])
    ensures
        glyph@ == Seq::new(16, |i: int| 0u8),
{
    let glyph = [0u8; 16];
    proof {
        assert(glyph@ =~= Seq::new(16, |i: int| 0u8));
    }
    glyph
}

/// Initializes the display: a 1024 by 768 framebuffer, all black. (Setting
/// the video mode and mapping the screen are the caller's part.)
pub fn init() -> (fb: Framebuffer)
    ensures
        fb.wf(),
        fb.width == FB_WIDTH,
        fb.height == FB_HEIGHT,
        fb.pixels() == Seq::new((FB_WIDTH * FB_HEIGHT) as nat, |i: int| 0u32),
{
    Framebuffer::new(FB_WIDTH, FB_HEIGHT)
}

} // verus!
