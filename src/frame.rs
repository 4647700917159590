use vstd::prelude::*;

verus! {

/// The size of a window's drawing surface, in pixels.
#[derive(Clone, Copy, Debug, PartialEq, Eq, Structural)]
pub struct Size {
    pub width: u32,
    pub height: u32,
}

/// An RGBA color.
pub type Color = [u8; 4];

/// The index of the pixel at column `px` and row `py` of a surface `w`
/// pixels wide, counted row by row. A frame holds four bytes per pixel.
pub open spec fn pixel_at(w: int, px: int, py: int) -> int {
    py * w + px
}

/// Whether byte `k` of a frame of `len` bytes belongs to a whole 4-byte
/// pixel; trailing bytes that do not make a whole pixel are never drawn.
pub open spec fn in_whole_pixel(len: int, k: int) -> bool {
    (k / 4) * 4 + 4 <= len
}

/// The frame `old` with the byte `k` of every pixel for which `drawn` holds
/// set to `color[k % 4]`.
pub open spec fn painted(old: Seq<u8>, color: Color, drawn: spec_fn(int) -> bool) -> Seq<u8> {
    Seq::new(
        old.len(),
        |k: int|
            if in_whole_pixel(old.len() as int, k) && drawn(k / 4) {
                color[k % 4]
            } else {
                old[k]
            },
    )
}

/// Whether the rectangle of `width` by `height` pixels whose top-left corner
/// is at (`x`, `y`) covers pixel `q` of a surface `w` pixels wide. A row of
/// the rectangle that runs past the right edge goes on in the next row of
/// the frame.
pub open spec fn rect_covers(w: int, x: int, y: int, width: int, height: int, q: int) -> bool {
    exists|i: int, j: int|
        0 <= i < width && 0 <= j < height && #[trigger] pixel_at(w, x + i, y + j) == q
}

/// The first `count` pixels of row `j` of that rectangle.
pub open spec fn row_covers(w: int, x: int, y: int, j: int, count: int, q: int) -> bool {
    exists|i: int| 0 <= i < count && #[trigger] pixel_at(w, x + i, y + j) == q
}

/// The byte offset in a frame of the pixel at (`px`, `py`).
fn pixel_offset(w: u32, px: u64, py: u64) -> (r: u128)
    requires
        px < 0x2_0000_0000,
        py < 0x2_0000_0000,
    ensures
        r == 4 * pixel_at(w as int, px as int, py as int),
{
    assert(py * w < 0x2_0000_0000 * 0x1_0000_0000) by (nonlinear_arith)
        requires
            py < 0x2_0000_0000,
            w < 0x1_0000_0000,
    ;
    4 * (py as u128 * w as u128 + px as u128)
}

/// Writes `color` into the pixel at byte `offset`, if the frame holds that
/// whole pixel.
fn put_pixel(frame: &mut [u8], offset: u128, color: Color)
    requires
        offset % 4 == 0,
    ensures
        final(frame)@ == painted(old(frame)@, color, |q: int| q == offset / 4),
{
    let ghost f0 = frame@;
    let len = frame.len();
    if offset < len as u128 && len as u128 - offset >= 4 {
        let o = offset as usize;
        frame[o] = color[0];
        frame[o + 1] = color[1];
        frame[o + 2] = color[2];
        frame[o + 3] = color[3];
    }
    assert(frame@ =~= painted(f0, color, |q: int| q == offset / 4));
}

/// Fills every whole pixel of `frame` with `color`.
pub fn clear_background(frame: &mut [u8], color: Color)
    ensures
        final(frame)@ == painted(old(frame)@, color, |q: int| true),
{
    let ghost f0 = frame@;
    let len = frame.len();
    let mut p: usize = 0;
    while p <= len && len - p >= 4
        invariant
            frame@.len() == len,
            f0.len() == len,
            p <= len,
            p % 4 == 0,
            forall|k: int|
                0 <= k < len ==> #[trigger] frame@[k] == if k < p {
                    color[k % 4]
                } else {
                    f0[k]
                },
        decreases len - p,
    {
        frame[p] = color[0];
        frame[p + 1] = color[1];
        frame[p + 2] = color[2];
        frame[p + 3] = color[3];
        p = p + 4;
    }
    assert(frame@ =~= painted(f0, color, |q: int| true));
}

/// Painting twice with one color paints the union of the two pixel sets.
proof fn lemma_painted_union(
    f: Seq<u8>,
    color: Color,
    a: spec_fn(int) -> bool,
    b: spec_fn(int) -> bool,
    c: spec_fn(int) -> bool,
)
    requires
        forall|q: int| #[trigger] c(q) == (a(q) || b(q)),
    ensures
        painted(painted(f, color, a), color, b) == painted(f, color, c),
{
    assert(painted(painted(f, color, a), color, b) =~= painted(f, color, c));
}

/// Fills, with `color`, the rectangle of `width` by `height` pixels whose
/// top-left corner is at (`x`, `y`), leaving out what falls outside the frame.
pub fn draw_rect(
    size: Size,
    frame: &mut [u8],
    x: u32,
    y: u32,
    width: u32,
    height: u32,
    color: Color,
)
    ensures
        final(frame)@ == painted(
            old(frame)@,
            color,
            |q: int| rect_covers(size.width as int, x as int, y as int, width as int, height as int, q),
        ),
{
    let ghost f0 = frame@;
    let ghost w = size.width as int;
    let mut j: u32 = 0;
    while j < height
        invariant
            j <= height,
            w == size.width,
            frame@ == painted(
                f0,
                color,
                |q: int| rect_covers(w, x as int, y as int, width as int, j as int, q),
            ),
        decreases height - j,
    {
        let mut i: u32 = 0;
        while i < width
            invariant
                j < height,
                i <= width,
                w == size.width,
                frame@ == painted(
                    f0,
                    color,
                    |q: int|
                        rect_covers(w, x as int, y as int, width as int, j as int, q) || row_covers(
                            w,
                            x as int,
                            y as int,
                            j as int,
                            i as int,
                            q,
                        ),
                ),
            decreases width - i,
        {
            let offset = pixel_offset(size.width, x as u64 + i as u64, y as u64 + j as u64);
            let ghost before = frame@;
            put_pixel(frame, offset, color);
            proof {
                let q0 = pixel_at(w, x + i, y + j);
                assert(offset / 4 == q0);
                assert forall|q: int|
                    row_covers(w, x as int, y as int, j as int, i + 1, q) == (row_covers(
                        w,
                        x as int,
                        y as int,
                        j as int,
                        i as int,
                        q,
                    ) || q == q0) by {
                    if q == q0 {
                        assert(pixel_at(w, x + i, y + j) == q);
                    }
                }
                lemma_painted_union(
                    f0,
                    color,
                    |q: int|
                        rect_covers(w, x as int, y as int, width as int, j as int, q) || row_covers(
                            w,
                            x as int,
                            y as int,
                            j as int,
                            i as int,
                            q,
                        ),
                    |q: int| q == offset / 4,
                    |q: int|
                        rect_covers(w, x as int, y as int, width as int, j as int, q) || row_covers(
                            w,
                            x as int,
                            y as int,
                            j as int,
                            i + 1,
                            q,
                        ),
                );
            }
            i = i + 1;
        }
        proof {
            assert forall|q: int|
                rect_covers(w, x as int, y as int, width as int, j + 1, q) == (rect_covers(
                    w,
                    x as int,
                    y as int,
                    width as int,
                    j as int,
                    q,
                ) || row_covers(w, x as int, y as int, j as int, width as int, q)) by {
                if rect_covers(w, x as int, y as int, width as int, j + 1, q) {
                    let (a, b) = choose|a: int, b: int|
                        0 <= a < width && 0 <= b < j + 1 && #[trigger] pixel_at(w, x + a, y + b)
                            == q;
                    if b == j {
                        assert(pixel_at(w, x + a, y + j) == q);
                    }
                }
                if row_covers(w, x as int, y as int, j as int, width as int, q) {
                    let a = choose|a: int|
                        0 <= a < width && #[trigger] pixel_at(w, x + a, y + j) == q;
                    assert(pixel_at(w, x + a, y + j) == q);
                }
            }
            assert(frame@ =~= painted(
                f0,
                color,
                |q: int| rect_covers(w, x as int, y as int, width as int, j + 1, q),
            ));
        }
        j = j + 1;
    }
}

/// Glyph coverage at or above this value is drawn; fainter coverage is not.
pub const INK_THRESHOLD: u8 = 64;

/// Whether byte `k` of a glyph bitmap `gw` pixels wide, drawn with its
/// top-left corner at (`i`, `j`), is inked and lands on pixel `q` of the
/// surface. Glyph pixels off the right or bottom edge are not drawn.
pub open spec fn glyph_hits(size: Size, bitmap: Seq<u8>, gw: int, i: int, j: int, k: int, q: int) -> bool {
    &&& 0 <= k < bitmap.len()
    &&& bitmap[k] >= INK_THRESHOLD
    &&& gw > 0
    &&& k % gw + i < size.width
    &&& k / gw + j < size.height
    &&& pixel_at(size.width as int, k % gw + i, k / gw + j) == q
}

/// Whether one of the first `count` bytes of the glyph lands on pixel `q`.
pub open spec fn glyph_covers(
    size: Size,
    bitmap: Seq<u8>,
    gw: int,
    i: int,
    j: int,
    count: int,
    q: int,
) -> bool {
    exists|k: int| 0 <= k < count && #[trigger] glyph_hits(size, bitmap, gw, i, j, k, q)
}

/// Draws a rasterized glyph: `bitmap` holds one coverage byte per pixel,
/// row by row, `glyph_width` pixels to a row, and its top-left corner goes
/// to (`i`, `j`). A glyph of width zero draws nothing.
pub fn draw_glyph(
    size: Size,
    frame: &mut [u8],
    bitmap: &[u8],
    glyph_width: usize,
    i: u32,
    j: u32,
    color: Color,
)
    ensures
        final(frame)@ == painted(
            old(frame)@,
            color,
            |q: int|
                glyph_covers(
                    size,
                    bitmap@,
                    glyph_width as int,
                    i as int,
                    j as int,
                    bitmap@.len() as int,
                    q,
                ),
        ),
{
    let ghost f0 = frame@;
    let ghost b = bitmap@;
    let ghost gw = glyph_width as int;
    let mut k: usize = 0;
    while k < bitmap.len()
        invariant
            b == bitmap@,
            gw == glyph_width,
            k <= b.len(),
            frame@ == painted(f0, color, |q: int| glyph_covers(size, b, gw, i as int, j as int, k as int, q)),
        decreases b.len() - k,
    {
        let ghost mut drew = false;
        if glyph_width > 0 && bitmap[k] >= INK_THRESHOLD {
            let col = k % glyph_width;
            let row = k / glyph_width;
            if (col as u64) < size.width as u64 && (row as u64) < size.height as u64 {
                let x = col as u64 + i as u64;
                let y = row as u64 + j as u64;
                if x < size.width as u64 && y < size.height as u64 {
                    let offset = pixel_offset(size.width, x, y);
                    put_pixel(frame, offset, color);
                    proof {
                        drew = true;
                        let q0 = pixel_at(size.width as int, x as int, y as int);
                        assert(offset / 4 == q0);
                        assert(glyph_hits(size, b, gw, i as int, j as int, k as int, q0));
                        assert forall|q: int|
                            glyph_covers(size, b, gw, i as int, j as int, k + 1, q) == (
                            glyph_covers(size, b, gw, i as int, j as int, k as int, q) || q == q0) by {
                            if glyph_covers(size, b, gw, i as int, j as int, k + 1, q) {
                                let kk = choose|kk: int|
                                    0 <= kk < k + 1 && #[trigger] glyph_hits(
                                        size,
                                        b,
                                        gw,
                                        i as int,
                                        j as int,
                                        kk,
                                        q,
                                    );
                                if kk < k {
                                    assert(glyph_hits(size, b, gw, i as int, j as int, kk, q));
                                }
                            }
                        }
                        lemma_painted_union(
                            f0,
                            color,
                            |q: int| glyph_covers(size, b, gw, i as int, j as int, k as int, q),
                            |q: int| q == offset / 4,
                            |q: int| glyph_covers(size, b, gw, i as int, j as int, k + 1, q),
                        );
                    }
                }
            }
        }
        proof {
            if !drew {
                assert forall|q: int|
                    glyph_covers(size, b, gw, i as int, j as int, k + 1, q) == glyph_covers(
                        size,
                        b,
                        gw,
                        i as int,
                        j as int,
                        k as int,
                        q,
                    ) by {
                    if glyph_covers(size, b, gw, i as int, j as int, k + 1, q) {
                        let kk = choose|kk: int|
                            0 <= kk < k + 1 && #[trigger] glyph_hits(
                                size,
                                b,
                                gw,
                                i as int,
                                j as int,
                                kk,
                                q,
                            );
                        if kk < k {
                            assert(glyph_hits(size, b, gw, i as int, j as int, kk, q));
                        }
                    }
                }
                assert(frame@ =~= painted(
                    f0,
                    color,
                    |q: int| glyph_covers(size, b, gw, i as int, j as int, k + 1, q),
                ));
            }
        }
        k = k + 1;
    }
}

} // verus!
