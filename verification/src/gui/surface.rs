use vstd::prelude::*;
use vstd::string::StringSliceAdditionalSpecFns;
use crate::drivers::fb::in_rect;
use crate::pixels::{lemma_index, lemma_paint_pixel, lemma_painted_equiv, lemma_painted_is_paint, lemma_painted_none, paint, painted};

verus! {

/// Color a new surface is filled with.
pub const SURFACE_FILL: u32 = 0xFF202020;

/// A window's contents: position, size, its own pixel buffer, focus, and a
/// title of at most 63 bytes.
pub struct Surface {
    pub x: i32,
    pub y: i32,
    pub width: usize,
    pub height: usize,
    pub pixels: Vec<u32>,
    pub focused: bool,
    pub title: [u8; 64],
    pub title_len: usize,
}

impl Surface {
    /// The pixel buffer matches the size.
    pub open spec fn wf(&self) -> bool {
        self.pixels@.len() == self.width * self.height
    }

    /// A surface at `(x, y)`, filled with `SURFACE_FILL`, unfocused, untitled.
    pub fn new(x: i32, y: i32, width: usize, height: usize) -> (s: Self)
        requires
            width * height <= usize::MAX,
        ensures
            s.wf(),
            s.x == x && s.y == y && s.width == width && s.height == height,
            s.pixels@ == Seq::new((width * height) as nat, |i: int| SURFACE_FILL),
            !s.focused,
            s.title@ == Seq::new(64, |i: int| 0u8),
            s.title_len == 0,
    {
        let pixels = vec![SURFACE_FILL; width * height];
        let title = [0u8; 64];
        proof {
            assert(pixels@ =~= Seq::new((width * height) as nat, |i: int| SURFACE_FILL));
            assert(title@ =~= Seq::new(64, |i: int| 0u8));
        }
        Surface { x, y, width, height, pixels, focused: false, title, title_len: 0 }
    }

    /// Sets the title: its first 63 bytes at most, over the start of the
    /// title buffer.
    pub fn set_title(&mut self, title: &str)
        ensures
            ({
                let b = title.spec_bytes();
                let n = if b.len() < 63 { b.len() as int } else { 63 };
                &&& final(self).title_len == n
                &&& final(self).title@ == b.subrange(0, n) + old(self).title@.subrange(n, 64)
                &&& final(self).x == old(self).x && final(self).y == old(self).y
                &&& final(self).width == old(self).width && final(self).height == old(self).height
                &&& final(self).pixels@ == old(self).pixels@
                &&& final(self).focused == old(self).focused
            }),
    {
        let bytes = title.as_bytes();
        let len = if bytes.len() < 63 { bytes.len() } else { 63 };
        let mut i: usize = 0;
        while i < len
            invariant
                len <= 63,
                len <= bytes@.len(),
                i <= len,
                self.title@.len() == 64,
                forall|j: int| 0 <= j < i ==> self.title@[j] == bytes@[j],
                forall|j: int| i <= j < 64 ==> self.title@[j] == old(self).title@[j],
                self.x == old(self).x && self.y == old(self).y,
                self.width == old(self).width && self.height == old(self).height,
                self.pixels@ == old(self).pixels@,
                self.focused == old(self).focused,
            decreases len - i,
        {
            self.title[i] = bytes[i];
            i += 1;
        }
        self.title_len = len;
        proof {
            assert(self.title@ =~= title.spec_bytes().subrange(0, len as int) + old(self).title@.subrange(len as int, 64));
        }
    }

    /// Fills the whole surface with one color.
    pub fn clear(&mut self, color: u32)
        ensures
            final(self).pixels@ == Seq::new(old(self).pixels@.len(), |i: int| color),
            final(self).x == old(self).x && final(self).y == old(self).y,
            final(self).width == old(self).width && final(self).height == old(self).height,
            final(self).focused == old(self).focused,
            final(self).title == old(self).title && final(self).title_len == old(self).title_len,
    {
        let n = self.pixels.len();
        let mut i: usize = 0;
        while i < n
            invariant
                n == self.pixels@.len(),
                i <= n,
                forall|j: int| 0 <= j < i ==> self.pixels@[j] == color,
                self.x == old(self).x && self.y == old(self).y,
                self.width == old(self).width && self.height == old(self).height,
                self.focused == old(self).focused,
                self.title == old(self).title && self.title_len == old(self).title_len,
            decreases n - i,
        {
            self.pixels.set(i, color);
            i += 1;
        }
        proof {
            assert(self.pixels@ =~= Seq::new(old(self).pixels@.len(), |i: int| color));
        }
    }

    /// Everything but the pixels is kept.
    pub open spec fn same_frame(&self, other: &Self) -> bool {
        &&& self.x == other.x && self.y == other.y
        &&& self.width == other.width && self.height == other.height
        &&& self.focused == other.focused
        &&& self.title == other.title && self.title_len == other.title_len
    }

    /// Sets one pixel; pixels outside the surface are ignored.
    pub fn put_pixel(&mut self, x: usize, y: usize, color: u32)
        requires
            old(self).wf(),
        ensures
            final(self).wf(),
            final(self).same_frame(old(self)),
            final(self).pixels@ == (if x < old(self).width && y < old(self).height {
                old(self).pixels@.update(y * old(self).width + x, color)
            } else {
                old(self).pixels@
            }),
    {
        if x < self.width && y < self.height {
            let n = self.pixels.len();
            proof {
                lemma_index(self.width as int, self.height as int, x as int, y as int);
            }
            let idx = y * self.width + x;
            self.pixels.set(idx, color);
        }
    }

    /// Fills the rectangle `[x, x + w) x [y, y + h)`, clipped to the surface.
    pub fn fill_rect(&mut self, x: usize, y: usize, w: usize, h: usize, color: u32)
        requires
            old(self).wf(),
            w > 0 && h > 0 ==> x + w - 1 <= usize::MAX && y + h - 1 <= usize::MAX,
        ensures
            final(self).wf(),
            final(self).same_frame(old(self)),
            final(self).pixels@ == paint(
                old(self).pixels@,
                old(self).width as int,
                |px: int, py: int| in_rect(px, py, x as int, y as int, w as int, h as int),
                |px: int, py: int| color,
            ),
    {
        let ghost orig = self.pixels@;
        let ghost W = self.width as int;
        let ghost H = self.height as int;
        let ghost colors = |px: int, py: int| color;
        let mut dy: usize = 0;
        proof {
            lemma_painted_none(orig, W, H, |px: int, py: int| in_rect(px, py, x as int, y as int, w as int, 0), colors);
        }
        while dy < h
            invariant
                self.wf(),
                self.same_frame(old(self)),
                self.width == W,
                self.height == H,
                orig.len() == W * H,
                forall|px: int, py: int| #[trigger] colors(px, py) == color,
                dy <= h,
                w > 0 && h > 0 ==> x + w - 1 <= usize::MAX && y + h - 1 <= usize::MAX,
                painted(orig, self.pixels@, W, H, |px: int, py: int| in_rect(px, py, x as int, y as int, w as int, dy as int), colors),
            decreases h - dy,
        {
            let mut dx: usize = 0;
            while dx < w
                invariant
                    self.wf(),
                    self.same_frame(old(self)),
                    self.width == W,
                    self.height == H,
                    orig.len() == W * H,
                    forall|px: int, py: int| #[trigger] colors(px, py) == color,
                    dy < h,
                    dx <= w,
                    w > 0 && h > 0 ==> x + w - 1 <= usize::MAX && y + h - 1 <= usize::MAX,
                    painted(orig, self.pixels@, W, H, |px: int, py: int| in_rect(px, py, x as int, y as int, w as int, dy as int) || in_rect(px, py, x as int, (y + dy) as int, dx as int, 1), colors),
                decreases w - dx,
            {
                let ghost r1 = |px: int, py: int| in_rect(px, py, x as int, y as int, w as int, dy as int) || in_rect(px, py, x as int, (y + dy) as int, dx as int, 1);
                let ghost r2 = |px: int, py: int| in_rect(px, py, x as int, y as int, w as int, dy as int) || in_rect(px, py, x as int, (y + dy) as int, (dx + 1) as int, 1);
                proof {
                    lemma_paint_pixel(orig, self.pixels@, W, H, r1, colors, (x + dx) as int, (y + dy) as int, r2);
                }
                self.put_pixel(x + dx, y + dy, color);
                dx += 1;
            }
            proof {
                lemma_painted_equiv(orig, self.pixels@, W, H,
                    |px: int, py: int| in_rect(px, py, x as int, y as int, w as int, dy as int) || in_rect(px, py, x as int, (y + dy) as int, w as int, 1), colors,
                    |px: int, py: int| in_rect(px, py, x as int, y as int, w as int, (dy + 1) as int), colors);
            }
            dy += 1;
        }
        proof {
            lemma_painted_is_paint(orig, self.pixels@, W, H, |px: int, py: int| in_rect(px, py, x as int, y as int, w as int, h as int), colors);
        }
    }

    /// The right and bottom edges, in 32-bit arithmetic, fit an `i32`.
    pub open spec fn edges_fit(&self) -> bool {
        &&& i32::MIN <= self.x + (self.width as i32) <= i32::MAX
        &&& i32::MIN <= self.y + (self.height as i32) <= i32::MAX
    }

    /// Whether `(px, py)` lies inside the surface's rectangle (the size is
    /// taken as an `i32`).
    pub fn contains_point(&self, px: i32, py: i32) -> (r: bool)
        requires
            self.edges_fit(),
        ensures
            r == (px >= self.x && px < self.x + (self.width as i32) && py >= self.y && py < self.y + (self.height as i32)),
    {
        px >= self.x && px < self.x + self.width as i32 && py >= self.y && py < self.y + self.height as i32
    }
}

} // verus!
