use vstd::prelude::*;

verus! {

/// The pixel at column `x`, row `y` of a row-major buffer `w` pixels wide.
pub open spec fn pix(s: Seq<u32>, w: int, x: int, y: int) -> u32 {
    s[y * w + x]
}

/// `s2` is `s1` with every pixel `(x, y)` of the `w` by `h` buffer for which
/// `region(x, y)` holds set to `color(x, y)`, and every other pixel kept.
pub open spec fn painted(
    s1: Seq<u32>,
    s2: Seq<u32>,
    w: int,
    h: int,
    region: spec_fn(int, int) -> bool,
    color: spec_fn(int, int) -> u32,
) -> bool {
    &&& s2.len() == s1.len()
    &&& forall|x: int, y: int|
        0 <= x < w && 0 <= y < h ==> #[trigger] pix(s2, w, x, y) == (if region(x, y) {
            color(x, y)
        } else {
            pix(s1, w, x, y)
        })
}

/// The buffer that `painted` describes, as a value.
pub open spec fn paint(
    s: Seq<u32>,
    w: int,
    region: spec_fn(int, int) -> bool,
    color: spec_fn(int, int) -> u32,
) -> Seq<u32> {
    Seq::new(
        s.len(),
        |i: int|
            if region(i % w, i / w) {
                color(i % w, i / w)
            } else {
                s[i]
            },
    )
}

/// Row-major indexing stays inside the buffer and can be undone.
pub proof fn lemma_index(w: int, h: int, x: int, y: int)
    requires
        0 <= x < w,
        0 <= y < h,
    ensures
        0 <= y * w + x < w * h,
        (y * w + x) % w == x,
        (y * w + x) / w == y,
{
    assert(0 <= y * w) by (nonlinear_arith)
        requires
            0 <= y,
            0 < w,
    ;
    assert(y * w + x < w * h) by (nonlinear_arith)
        requires
            0 <= x < w,
            0 <= y < h,
    ;
    vstd::arithmetic::div_mod::lemma_fundamental_div_mod_converse(y * w + x, w, y, x);
}

/// Two pixels of a row-major buffer share an index only when they are the same.
pub proof fn lemma_index_injective(w: int, h: int, x1: int, y1: int, x2: int, y2: int)
    requires
        0 <= x1 < w,
        0 <= y1 < h,
        0 <= x2 < w,
        0 <= y2 < h,
        y1 * w + x1 == y2 * w + x2,
    ensures
        x1 == x2,
        y1 == y2,
{
    lemma_index(w, h, x1, y1);
    lemma_index(w, h, x2, y2);
}

/// Every index of a `w` by `h` buffer is some pixel's.
pub proof fn lemma_index_split(w: int, h: int, i: int)
    requires
        0 <= i < w * h,
        w > 0,
    ensures
        0 <= i % w < w,
        0 <= i / w < h,
        (i / w) * w + i % w == i,
{
    vstd::arithmetic::div_mod::lemma_fundamental_div_mod(i, w);
    assert(0 <= i / w) by (nonlinear_arith)
        requires
            0 <= i,
            0 < w,
    ;
    assert(i / w < h) by (nonlinear_arith)
        requires
            0 <= i < w * h,
            0 < w,
    ;
    assert(i == w * (i / w) + i % w);
    assert(w * (i / w) == (i / w) * w) by (nonlinear_arith);
}

/// What `painted` describes is `paint`'s value.
pub proof fn lemma_painted_is_paint(
    s1: Seq<u32>,
    s2: Seq<u32>,
    w: int,
    h: int,
    region: spec_fn(int, int) -> bool,
    color: spec_fn(int, int) -> u32,
)
    requires
        s1.len() == w * h,
        w >= 0,
        h >= 0,
        painted(s1, s2, w, h, region, color),
    ensures
        s2 == paint(s1, w, region, color),
{
    let p = paint(s1, w, region, color);
    assert forall|i: int| 0 <= i < s2.len() implies s2[i] == p[i] by {
        if w == 0 {
            assert(w * h == 0);
        }
        lemma_index_split(w, h, i);
        let x = i % w;
        let y = i / w;
        assert(pix(s2, w, x, y) == s2[i]);
        assert(pix(s1, w, x, y) == s1[i]);
    }
    assert(s2 =~= p);
}

/// Painting one more pixel `(x0, y0)` with its color extends the region.
pub proof fn lemma_paint_pixel(
    s0: Seq<u32>,
    s1: Seq<u32>,
    w: int,
    h: int,
    region: spec_fn(int, int) -> bool,
    color: spec_fn(int, int) -> u32,
    x0: int,
    y0: int,
    region2: spec_fn(int, int) -> bool,
)
    requires
        s0.len() == w * h,
        painted(s0, s1, w, h, region, color),
        forall|x: int, y: int| 0 <= x < w && 0 <= y < h ==> #[trigger] region2(x, y) == (region(x, y) || (x == x0 && y == y0)),
    ensures
        painted(
            s0,
            if 0 <= x0 < w && 0 <= y0 < h { s1.update(y0 * w + x0, color(x0, y0)) } else { s1 },
            w,
            h,
            region2,
            color,
        ),
{
    let s2 = if 0 <= x0 < w && 0 <= y0 < h { s1.update(y0 * w + x0, color(x0, y0)) } else { s1 };
    if 0 <= x0 < w && 0 <= y0 < h {
        lemma_index(w, h, x0, y0);
        assert forall|x: int, y: int| 0 <= x < w && 0 <= y < h implies #[trigger] pix(s2, w, x, y) == (if region2(x, y) {
            color(x, y)
        } else {
            pix(s0, w, x, y)
        }) by {
            lemma_index(w, h, x, y);
            if x != x0 || y != y0 {
                if y * w + x == y0 * w + x0 {
                    lemma_index_injective(w, h, x, y, x0, y0);
                }
                assert(pix(s2, w, x, y) == pix(s1, w, x, y));
            }
        }
    } else {
        assert forall|x: int, y: int| 0 <= x < w && 0 <= y < h implies #[trigger] pix(s2, w, x, y) == (if region2(x, y) {
            color(x, y)
        } else {
            pix(s0, w, x, y)
        }) by {
            assert(!(x == x0 && y == y0));
        }
    }
}

/// Nothing painted yet.
pub proof fn lemma_painted_none(s: Seq<u32>, w: int, h: int, region: spec_fn(int, int) -> bool, color: spec_fn(int, int) -> u32)
    requires
        forall|x: int, y: int| 0 <= x < w && 0 <= y < h ==> !#[trigger] region(x, y),
    ensures
        painted(s, s, w, h, region, color),
{
}

/// Painting a region with one color and then another region with another.
pub proof fn lemma_painted_weaken(
    s0: Seq<u32>,
    s1: Seq<u32>,
    w: int,
    h: int,
    region: spec_fn(int, int) -> bool,
    region2: spec_fn(int, int) -> bool,
    color: spec_fn(int, int) -> u32,
)
    requires
        painted(s0, s1, w, h, region, color),
        forall|x: int, y: int| 0 <= x < w && 0 <= y < h ==> #[trigger] region2(x, y) == region(x, y),
    ensures
        painted(s0, s1, w, h, region2, color),
{
    assert forall|x: int, y: int| 0 <= x < w && 0 <= y < h implies #[trigger] pix(s1, w, x, y) == (if region2(x, y) {
        color(x, y)
    } else {
        pix(s0, w, x, y)
    }) by {
        assert(pix(s1, w, x, y) == (if region(x, y) { color(x, y) } else { pix(s0, w, x, y) }));
    }
}

/// `paint` does what `painted` describes.
pub proof fn lemma_paint_is_painted(s: Seq<u32>, w: int, h: int, region: spec_fn(int, int) -> bool, color: spec_fn(int, int) -> u32)
    requires
        s.len() == w * h,
    ensures
        painted(s, paint(s, w, region, color), w, h, region, color),
{
    let p = paint(s, w, region, color);
    assert forall|x: int, y: int| 0 <= x < w && 0 <= y < h implies #[trigger] pix(p, w, x, y) == (if region(x, y) {
        color(x, y)
    } else {
        pix(s, w, x, y)
    }) by {
        lemma_index(w, h, x, y);
    }
}

/// Painting over a painted buffer paints the union, the later color on top.
pub proof fn lemma_paint_then_paint(
    s0: Seq<u32>,
    s1: Seq<u32>,
    w: int,
    h: int,
    r1: spec_fn(int, int) -> bool,
    c1: spec_fn(int, int) -> u32,
    r2: spec_fn(int, int) -> bool,
    c2: spec_fn(int, int) -> u32,
)
    requires
        s0.len() == w * h,
        painted(s0, s1, w, h, r1, c1),
    ensures
        painted(
            s0,
            paint(s1, w, r2, c2),
            w,
            h,
            |x: int, y: int| r1(x, y) || r2(x, y),
            |x: int, y: int| if r2(x, y) { c2(x, y) } else { c1(x, y) },
        ),
{
    lemma_paint_is_painted(s1, w, h, r2, c2);
}

/// Painting over a painted buffer gives a region that covers both, with
/// the later colors on top.
pub proof fn lemma_paint_over(
    s0: Seq<u32>,
    s1: Seq<u32>,
    w: int,
    h: int,
    r1: spec_fn(int, int) -> bool,
    c1: spec_fn(int, int) -> u32,
    r2: spec_fn(int, int) -> bool,
    c2: spec_fn(int, int) -> u32,
    r3: spec_fn(int, int) -> bool,
    c3: spec_fn(int, int) -> u32,
)
    requires
        s0.len() == w * h,
        painted(s0, s1, w, h, r1, c1),
        forall|x: int, y: int| 0 <= x < w && 0 <= y < h ==> #[trigger] r3(x, y) == (r1(x, y) || r2(x, y)),
        forall|x: int, y: int| 0 <= x < w && 0 <= y < h && r2(x, y) ==> #[trigger] c3(x, y) == c2(x, y),
        forall|x: int, y: int| 0 <= x < w && 0 <= y < h && r1(x, y) && !r2(x, y) ==> #[trigger] c3(x, y) == c1(x, y),
    ensures
        painted(s0, paint(s1, w, r2, c2), w, h, r3, c3),
{
    lemma_paint_is_painted(s1, w, h, r2, c2);
    let p = paint(s1, w, r2, c2);
    assert forall|x: int, y: int| 0 <= x < w && 0 <= y < h implies #[trigger] pix(p, w, x, y) == (if r3(x, y) {
        c3(x, y)
    } else {
        pix(s0, w, x, y)
    }) by {
        assert(pix(p, w, x, y) == (if r2(x, y) { c2(x, y) } else { pix(s1, w, x, y) }));
        assert(pix(s1, w, x, y) == (if r1(x, y) { c1(x, y) } else { pix(s0, w, x, y) }));
    }
}

/// Painting with regions and colors that agree inside the buffer gives
/// the same buffer.
pub proof fn lemma_paint_same(
    s: Seq<u32>,
    w: int,
    h: int,
    r1: spec_fn(int, int) -> bool,
    c1: spec_fn(int, int) -> u32,
    r2: spec_fn(int, int) -> bool,
    c2: spec_fn(int, int) -> u32,
)
    requires
        s.len() == w * h,
        w >= 0,
        h >= 0,
        forall|x: int, y: int| 0 <= x < w && 0 <= y < h ==> #[trigger] r2(x, y) == r1(x, y),
        forall|x: int, y: int| 0 <= x < w && 0 <= y < h && r1(x, y) ==> #[trigger] c2(x, y) == c1(x, y),
    ensures
        paint(s, w, r1, c1) == paint(s, w, r2, c2),
{
    lemma_paint_is_painted(s, w, h, r1, c1);
    lemma_painted_equiv(s, paint(s, w, r1, c1), w, h, r1, c1, r2, c2);
    lemma_painted_is_paint(s, paint(s, w, r1, c1), w, h, r2, c2);
}

/// `painted` only looks at pixels inside the buffer, and at colors inside
/// the region: regions and colors that agree there describe the same thing.
pub proof fn lemma_painted_equiv(
    s0: Seq<u32>,
    s1: Seq<u32>,
    w: int,
    h: int,
    region: spec_fn(int, int) -> bool,
    color: spec_fn(int, int) -> u32,
    region2: spec_fn(int, int) -> bool,
    color2: spec_fn(int, int) -> u32,
)
    requires
        painted(s0, s1, w, h, region, color),
        forall|x: int, y: int| 0 <= x < w && 0 <= y < h ==> #[trigger] region2(x, y) == region(x, y),
        forall|x: int, y: int| 0 <= x < w && 0 <= y < h && region(x, y) ==> #[trigger] color2(x, y) == color(x, y),
    ensures
        painted(s0, s1, w, h, region2, color2),
{
    assert forall|x: int, y: int| 0 <= x < w && 0 <= y < h implies #[trigger] pix(s1, w, x, y) == (if region2(x, y) {
        color2(x, y)
    } else {
        pix(s0, w, x, y)
    }) by {
        assert(pix(s1, w, x, y) == (if region(x, y) { color(x, y) } else { pix(s0, w, x, y) }));
        if region(x, y) {
            assert(color2(x, y) == color(x, y));
        }
    }
}

} // verus!
