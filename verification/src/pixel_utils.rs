use vstd::prelude::*;
use vstd::string::StrSliceExecFns;
pub use crate::pixels::set_pixel_safe;
use crate::pixels::{
    fill_offset_rectangle, offset_rectangle, offset_rectangle_fits, grid_fits, in_clip, lemma_grid_point_fits, lemma_painted_empty, lemma_painted_twice,
    lemma_scanned_next, lemma_scanned_row, lemma_scanned_start, lemma_u32_as_i32, painted,
    scanned, u32_as_i32,
};

verus! {

/// `v` is a value of `i32`.
pub open spec fn fits_i32(v: int) -> bool {
    -0x8000_0000 <= v <= 0x7fff_ffff
}

/// The rows of a frame of `len` bytes that is `width` pixels wide.
pub open spec fn frame_rows(len: int, width: int) -> int {
    len / (4 * width)
}

/// `as u32` never increases a `usize`, and `as i32` agrees with going through `u32`.
pub proof fn lemma_usize_narrowing(n: usize)
    ensures
        (n as u32) as int <= n as int,
        (n as i32) as int == u32_as_i32(n as u32),
{
    assert((n as u32) as usize <= n) by (bit_vector);
    assert((n as i32) == ((n as u32) as i32)) by (bit_vector);
    lemma_u32_as_i32(n as u32);
}

/// The rows of a frame, truncated to `u32`, give a grid whose indices fit.
pub proof fn lemma_frame_grid_fits(len: usize, width: u32)
    requires
        width > 0,
    ensures
        grid_fits(width, (frame_rows(len as int, width as int) as usize) as u32),
{
    let rows = frame_rows(len as int, width as int);
    let w = width as int;
    let l = len as int;
    assert(4 * w * rows <= l) by (nonlinear_arith)
        requires
            w > 0,
            rows == l / (4 * w),
            l >= 0,
    ;
    lemma_usize_narrowing(rows as usize);
    let h = ((rows as usize) as u32) as int;
    assert(4 * (w * h) <= 4 * w * rows) by (nonlinear_arith)
        requires
            0 <= h <= rows,
            w > 0,
    ;
}

/// Which cell `(r, c)` of a block anchored at `(x0, y0)` is drawn: the one inside the frame.
pub open spec fn clipped_cell(x0: int, y0: int, width: u32, height: u32) -> spec_fn(int, int) -> bool {
    |r: int, c: int| in_clip(x0 + c, y0 + r, width, height)
}

/// The pixel index of cell `(r, c)` of a block anchored at `(x0, y0)` in a frame
/// `width` pixels wide.
pub open spec fn grid_cell(x0: int, y0: int, width: u32) -> spec_fn(int, int) -> int {
    |r: int, c: int| (y0 + r) * width + x0 + c
}

/// The pixels of the `w`-by-`h` block at `(x0, y0)` that lie inside the frame.
pub open spec fn clipped_block(x0: int, y0: int, w: int, h: int, width: u32, height: u32) -> Set<int> {
    scanned(w, clipped_cell(x0, y0, width, height), grid_cell(x0, y0, width), h, 0)
}

/// Sets every pixel of the `w`-by-`h` block at `(x0, y0)` that lies inside the
/// `width`-by-`height` frame to `color`.
pub fn fill_clipped_block(
    frame: &mut [u8],
    x0: i32,
    y0: i32,
    w: i32,
    h: i32,
    width: u32,
    height: u32,
    color: [u8; 4],
)
    requires
        grid_fits(width, height),
        0 <= w,
        0 <= h,
        x0 + w <= 0x8000_0000,
        y0 + h <= 0x8000_0000,
    ensures
        final(frame)@ == painted(old(frame)@, clipped_block(x0 as int, y0 as int, w as int, h as int, width, height), color@),
{
    let ghost f0 = frame@;
    let ghost keep = clipped_cell(x0 as int, y0 as int, width, height);
    let ghost at = grid_cell(x0 as int, y0 as int, width);
    proof {
        lemma_scanned_start(w as int, keep, at);
        lemma_painted_empty(f0, color@);
    }
    let mut r: i32 = 0;
    while r < h
        invariant
            0 <= r <= h,
            grid_fits(width, height),
            0 <= w,
            x0 + w <= 0x8000_0000,
            y0 + h <= 0x8000_0000,
            keep == clipped_cell(x0 as int, y0 as int, width, height),
            at == grid_cell(x0 as int, y0 as int, width),
            frame@.len() == f0.len(),
            frame@ == painted(f0, scanned(w as int, keep, at, r as int, 0), color@),
        decreases h - r,
    {
        let mut c: i32 = 0;
        while c < w
            invariant
                0 <= r < h,
                0 <= c <= w,
                grid_fits(width, height),
                x0 + w <= 0x8000_0000,
                y0 + h <= 0x8000_0000,
                keep == clipped_cell(x0 as int, y0 as int, width, height),
                at == grid_cell(x0 as int, y0 as int, width),
                frame@.len() == f0.len(),
                frame@ == painted(f0, scanned(w as int, keep, at, r as int, c as int), color@),
            decreases w - c,
        {
            let px = x0 + c;
            let py = y0 + r;
            proof {
                if in_clip(px as int, py as int, width, height) {
                    lemma_grid_point_fits(px as int, py as int, width, height);
                }
                lemma_scanned_next(w as int, keep, at, r as int, c as int);
                let prev = scanned(w as int, keep, at, r as int, c as int);
                if in_clip(px as int, py as int, width, height) {
                    lemma_painted_twice(f0, prev, set![py * width + px], color@);
                    assert(prev.union(set![py * width + px]) =~= prev.insert(at(r as int, c as int)));
                } else {
                    lemma_painted_twice(f0, prev, Set::empty(), color@);
                    assert(prev.union(Set::empty()) =~= prev);
                }
            }
            set_pixel_safe(frame, px, py, width, height, color);
            c = c + 1;
        }
        proof {
            lemma_scanned_row(w as int, keep, at, r as int);
        }
        r = r + 1;
    }
}


/// Which cell `(r, c)` of the square around a circle of `radius` is drawn: the one inside
/// the circle and inside the frame.
pub open spec fn disk_cell(x: int, y: int, radius: int, width: u32, height: u32) -> spec_fn(int, int) -> bool {
    |r: int, c: int|
        (c - radius) * (c - radius) + (r - radius) * (r - radius) <= radius * radius && in_clip(
            x + c - radius,
            y + r - radius,
            width,
            height,
        )
}

/// The pixels within `radius` of `(x, y)` that lie inside the frame.
pub open spec fn disk_pixels(x: int, y: int, radius: int, width: u32, height: u32) -> Set<int> {
    scanned(
        2 * radius + 1,
        disk_cell(x, y, radius, width, height),
        grid_cell(x - radius, y - radius, width),
        2 * radius + 1,
        0,
    )
}

/// The circle's bounding square misses the frame, so nothing is drawn.
pub open spec fn circle_culled(x: int, y: int, radius: int, width: u32, rows: u32) -> bool {
    x + radius < 0 || x - radius >= u32_as_i32(width) || y + radius < 0 || y - radius >= u32_as_i32(rows)
}

/// The square of a value of at most 32767 in size leaves room for the sum of two.
proof fn lemma_small_square(v: int)
    requires
        -32767 <= v <= 32767,
    ensures
        0 <= v * v <= 32767 * 32767,
{
    assert(0 <= v * v <= 32767 * 32767) by (nonlinear_arith)
        requires
            -32767 <= v <= 32767,
    ;
}

/// Painting a region and then the pixel of the next scanned cell, when that cell is
/// drawn and inside the frame, paints the next scanned region.
proof fn lemma_scan_paint_step(
    f0: Seq<u8>,
    w: int,
    keep: spec_fn(int, int) -> bool,
    at: spec_fn(int, int) -> int,
    r: int,
    c: int,
    drawn: Set<int>,
    color: Seq<u8>,
)
    requires
        0 <= r,
        0 <= c < w,
        drawn == (if keep(r, c) {
            set![at(r, c)]
        } else {
            Set::<int>::empty()
        }),
    ensures
        painted(painted(f0, scanned(w, keep, at, r, c), color), drawn, color) == painted(
            f0,
            scanned(w, keep, at, r, c + 1),
            color,
        ),
{
    lemma_scanned_next(w, keep, at, r, c);
    let prev = scanned(w, keep, at, r, c);
    lemma_painted_twice(f0, prev, drawn, color);
    if keep(r, c) {
        assert(prev.union(drawn) =~= prev.insert(at(r, c)));
    } else {
        assert(prev.union(drawn) =~= prev);
    }
}

/// Fills the circle of `radius` around `(x, y)` with `color`, clipped to the frame,
/// which is `width` pixels wide and as many rows high as its length allows; nothing is
/// drawn when the circle's bounding square misses the frame.
pub fn draw_circle(frame: &mut [u8], x: i32, y: i32, radius: i32, color: [u8; 4], width: u32)
    requires
        width > 0,
        4 * width <= usize::MAX,
        -46340 <= radius <= 32767,
        fits_i32(x + radius),
        fits_i32(x - radius),
        fits_i32(y + radius),
        fits_i32(y - radius),
    ensures
        ({
            let rows = (frame_rows(old(frame)@.len() as int, width as int) as usize) as u32;
            final(frame)@ == if circle_culled(x as int, y as int, radius as int, width, rows) {
                old(frame)@
            } else {
                painted(old(frame)@, disk_pixels(x as int, y as int, radius as int, width, rows), color@)
            }
        }),
{
    let height = frame.len() / (4 * width as usize);
    let ghost rows = height as u32;
    proof {
        lemma_usize_narrowing(height);
        lemma_u32_as_i32(width);
        lemma_frame_grid_fits(frame@.len() as usize, width);
    }
    if x + radius < 0 || x - radius >= width as i32 || y + radius < 0 || y - radius >= height as i32 {
        return;
    }
    let ghost f0 = frame@;
    let ghost side = 2 * radius + 1;
    let ghost keep = disk_cell(x as int, y as int, radius as int, width, rows);
    let ghost at = grid_cell(x - radius, y - radius, width);
    proof {
        lemma_scanned_start(side, keep, at);
        lemma_painted_empty(f0, color@);
    }
    assert(0 <= radius * radius <= 46340 * 46340) by (nonlinear_arith)
        requires
            -46340 <= radius <= 46340,
    ;
    let radius_sq = radius * radius;
    let mut dy = -radius;
    while dy <= radius
        invariant
            -radius <= dy <= radius + 1 || radius < 0,
            radius < 0 ==> dy == -radius,
            -46340 <= radius <= 32767,
            fits_i32(x + radius),
            fits_i32(x - radius),
            fits_i32(y + radius),
            fits_i32(y - radius),
            radius_sq == radius * radius,
            rows == height as u32,
            grid_fits(width, rows),
            side == 2 * radius + 1,
            keep == disk_cell(x as int, y as int, radius as int, width, rows),
            at == grid_cell(x - radius, y - radius, width),
            frame@.len() == f0.len(),
            frame@ == painted(f0, scanned(side, keep, at, dy + radius, 0), color@),
        decreases radius + 1 - dy,
    {
        let mut dx = -radius;
        while dx <= radius
            invariant
                -radius <= dy <= radius,
                -radius <= dx <= radius + 1,
                0 <= radius <= 32767,
                fits_i32(x + radius),
                fits_i32(x - radius),
                fits_i32(y + radius),
                fits_i32(y - radius),
                radius_sq == radius * radius,
                rows == height as u32,
                grid_fits(width, rows),
                side == 2 * radius + 1,
                keep == disk_cell(x as int, y as int, radius as int, width, rows),
                at == grid_cell(x - radius, y - radius, width),
                frame@.len() == f0.len(),
                frame@ == painted(f0, scanned(side, keep, at, dy + radius, dx + radius), color@),
            decreases radius + 1 - dx,
        {
            proof {
                lemma_small_square(dx as int);
                lemma_small_square(dy as int);
            }
            let inside = dx * dx + dy * dy <= radius_sq;
            let ghost drawn = if keep(dy + radius, dx + radius) {
                set![at(dy + radius, dx + radius)]
            } else {
                Set::<int>::empty()
            };
            proof {
                lemma_scan_paint_step(f0, side, keep, at, dy + radius, dx + radius, drawn, color@);
                if in_clip(x + dx, y + dy, width, rows) {
                    lemma_grid_point_fits(x + dx, y + dy, width, rows);
                }
            }
            if inside {
                set_pixel_safe(frame, x + dx, y + dy, width, height as u32, color);
                proof {
                    if !in_clip(x + dx, y + dy, width, rows) {
                        assert(drawn =~= Set::<int>::empty());
                    } else {
                        assert(drawn =~= set![(y + dy) * width + (x + dx)]);
                    }
                }
            } else {
                proof {
                    lemma_painted_empty(frame@, color@);
                    assert(drawn =~= Set::<int>::empty());
                    lemma_painted_twice(f0, scanned(side, keep, at, dy + radius, dx + radius), Set::<int>::empty(), color@);
                }
            }
            dx = dx + 1;
        }
        proof {
            lemma_scanned_row(side, keep, at, dy + radius);
        }
        dy = dy + 1;
    }
}


/// The clipped block of a segment that is lit; nothing for one that is not.
pub open spec fn lit_block(on: bool, x0: int, y0: int, w: int, h: int, width: u32, height: u32) -> Set<int> {
    if on {
        clipped_block(x0, y0, w, h, width, height)
    } else {
        Set::empty()
    }
}

/// The pixels of a seven-segment digit cell at `(x, y)` whose lit segments are `a` to `g`:
/// bars two pixels thick, six long across and seven long down, clipped to the frame.
pub open spec fn segment_pixels(
    x: int,
    y: int,
    a: bool,
    b: bool,
    c: bool,
    d: bool,
    e: bool,
    f: bool,
    g: bool,
    width: u32,
    height: u32,
) -> Set<int> {
    lit_block(a, x + 1, y, 6, 2, width, height)
        .union(lit_block(b, x + 5, y + 1, 2, 7, width, height))
        .union(lit_block(c, x + 5, y + 8, 2, 7, width, height))
        .union(lit_block(d, x + 1, y + 13, 6, 2, width, height))
        .union(lit_block(e, x, y + 8, 2, 7, width, height))
        .union(lit_block(f, x, y + 1, 2, 7, width, height))
        .union(lit_block(g, x + 1, y + 7, 6, 2, width, height))
}

/// Paints the block of one segment when it is lit.
fn fill_lit_block(
    frame: &mut [u8],
    on: bool,
    x0: i32,
    y0: i32,
    w: i32,
    h: i32,
    width: u32,
    height: u32,
    color: [u8; 4],
)
    requires
        grid_fits(width, height),
        0 <= w,
        0 <= h,
        x0 + w <= 0x8000_0000,
        y0 + h <= 0x8000_0000,
    ensures
        final(frame)@ == painted(old(frame)@, lit_block(on, x0 as int, y0 as int, w as int, h as int, width, height), color@),
{
    if on {
        fill_clipped_block(frame, x0, y0, w, h, width, height, color);
    } else {
        proof {
            lemma_painted_empty(frame@, color@);
        }
    }
}

/// Draws a seven-segment digit cell at `(x, y)` with the segments `a` to `g` that are
/// set, in a frame `width` pixels wide and as many rows high as its length allows.
pub fn draw_segment(
    frame: &mut [u8],
    x: i32,
    y: i32,
    a: bool,
    b: bool,
    c: bool,
    d: bool,
    e: bool,
    f: bool,
    g: bool,
    color: [u8; 4],
    width: u32,
)
    requires
        width > 0,
        4 * width <= usize::MAX,
        x + 6 <= 0x7fff_ffff,
        y + 14 <= 0x7fff_ffff,
    ensures
        final(frame)@ == painted(
            old(frame)@,
            segment_pixels(
                x as int,
                y as int,
                a,
                b,
                c,
                d,
                e,
                f,
                g,
                width,
                (frame_rows(old(frame)@.len() as int, width as int) as usize) as u32,
            ),
            color@,
        ),
{
    let height = frame.len() / (4 * width as usize);
    let rows = height as u32;
    let ghost f0 = frame@;
    proof {
        lemma_frame_grid_fits(frame@.len() as usize, width);
    }
    let ghost sa = lit_block(a, x + 1, y as int, 6, 2, width, rows);
    let ghost sb = lit_block(b, x + 5, y + 1, 2, 7, width, rows);
    let ghost sc = lit_block(c, x + 5, y + 8, 2, 7, width, rows);
    let ghost sd = lit_block(d, x + 1, y + 13, 6, 2, width, rows);
    let ghost se = lit_block(e, x as int, y + 8, 2, 7, width, rows);
    let ghost sf = lit_block(f, x as int, y + 1, 2, 7, width, rows);
    let ghost sg = lit_block(g, x + 1, y + 7, 6, 2, width, rows);
    fill_lit_block(frame, a, x + 1, y, 6, 2, width, rows, color);
    fill_lit_block(frame, b, x + 5, y + 1, 2, 7, width, rows, color);
    proof {
        lemma_painted_twice(f0, sa, sb, color@);
    }
    fill_lit_block(frame, c, x + 5, y + 8, 2, 7, width, rows, color);
    proof {
        lemma_painted_twice(f0, sa.union(sb), sc, color@);
    }
    fill_lit_block(frame, d, x + 1, y + 13, 6, 2, width, rows, color);
    proof {
        lemma_painted_twice(f0, sa.union(sb).union(sc), sd, color@);
    }
    fill_lit_block(frame, e, x, y + 8, 2, 7, width, rows, color);
    proof {
        lemma_painted_twice(f0, sa.union(sb).union(sc).union(sd), se, color@);
    }
    fill_lit_block(frame, f, x, y + 1, 2, 7, width, rows, color);
    proof {
        lemma_painted_twice(f0, sa.union(sb).union(sc).union(sd).union(se), sf, color@);
    }
    fill_lit_block(frame, g, x + 1, y + 7, 6, 2, width, rows, color);
    proof {
        lemma_painted_twice(f0, sa.union(sb).union(sc).union(sd).union(se).union(sf), sg, color@);
    }
}


/// The outline, four pixels thick, of the 30-by-50 glyph box at `(cx, y)`, clipped to
/// the frame.
pub open spec fn box_outline(cx: int, y: int, width: u32, height: u32) -> Set<int> {
    clipped_block(cx, y, 30, 4, width, height)
        .union(clipped_block(cx, y + 46, 30, 4, width, height))
        .union(clipped_block(cx, y + 4, 4, 42, width, height))
        .union(clipped_block(cx + 26, y + 4, 4, 42, width, height))
}

/// A glyph box at column `cx` can reach the frame horizontally.
pub open spec fn box_in_columns(cx: int, width: u32) -> bool {
    !(cx + 30 < 0 || cx >= u32_as_i32(width))
}

/// The pixels of the first `n` glyph boxes of a line of huge text starting at `(x, y)`.
pub open spec fn huge_text_pixels(x: int, y: int, n: nat, width: u32, height: u32) -> Set<int>
    decreases n,
{
    if n == 0 {
        Set::empty()
    } else {
        let cx = x + 30 * (n - 1);
        huge_text_pixels(x, y, (n - 1) as nat, width, height).union(
            if box_in_columns(cx, width) {
                box_outline(cx, y, width, height)
            } else {
                Set::empty()
            },
        )
    }
}

/// A line of huge text at row `y` misses a frame of `rows` rows.
pub open spec fn huge_text_culled(y: int, rows: u32) -> bool {
    y + 50 < 0 || y >= u32_as_i32(rows)
}

/// Draws the outline of one glyph box.
fn draw_box_outline(frame: &mut [u8], cx: i32, y: i32, width: u32, height: u32, color: [u8; 4])
    requires
        grid_fits(width, height),
        cx + 30 <= 0x7fff_ffff,
        y + 50 <= 0x7fff_ffff,
    ensures
        final(frame)@ == painted(old(frame)@, box_outline(cx as int, y as int, width, height), color@),
{
    let ghost f0 = frame@;
    let ghost top = clipped_block(cx as int, y as int, 30, 4, width, height);
    let ghost bottom = clipped_block(cx as int, y + 46, 30, 4, width, height);
    let ghost left = clipped_block(cx as int, y + 4, 4, 42, width, height);
    let ghost right = clipped_block(cx + 26, y + 4, 4, 42, width, height);
    fill_clipped_block(frame, cx, y, 30, 4, width, height, color);
    fill_clipped_block(frame, cx, y + 46, 30, 4, width, height, color);
    proof {
        lemma_painted_twice(f0, top, bottom, color@);
    }
    fill_clipped_block(frame, cx, y + 4, 4, 42, width, height, color);
    proof {
        lemma_painted_twice(f0, top.union(bottom), left, color@);
    }
    fill_clipped_block(frame, cx + 26, y + 4, 4, 42, width, height, color);
    proof {
        lemma_painted_twice(f0, top.union(bottom).union(left), right, color@);
    }
}

/// Draws `text` as a row of outlined 30-by-50 boxes, one per character, starting at
/// `(x, y)`, in a frame `width` pixels wide and as many rows high as its length allows;
/// nothing is drawn when the row misses the frame vertically.
pub fn draw_huge_text(frame: &mut [u8], text: &str, x: i32, y: i32, color: [u8; 4], width: u32)
    requires
        width > 0,
        4 * width <= usize::MAX,
        y + 50 <= 0x7fff_ffff,
        !huge_text_culled(y as int, (frame_rows(old(frame)@.len() as int, width as int) as usize) as u32)
            ==> x + 30 * text@.len() <= 0x7fff_ffff && 30 * text@.len() <= 0x7fff_ffff + 30,
    ensures
        ({
            let rows = (frame_rows(old(frame)@.len() as int, width as int) as usize) as u32;
            final(frame)@ == if huge_text_culled(y as int, rows) {
                old(frame)@
            } else {
                painted(old(frame)@, huge_text_pixels(x as int, y as int, text@.len(), width, rows), color@)
            }
        }),
{
    let height = frame.len() / (4 * width as usize);
    let rows = height as u32;
    proof {
        lemma_usize_narrowing(height);
        lemma_u32_as_i32(width);
        lemma_frame_grid_fits(frame@.len() as usize, width);
    }
    if y + 50 < 0 || y >= height as i32 {
        return;
    }
    let ghost f0 = frame@;
    let n = text.unicode_len();
    proof {
        lemma_painted_empty(f0, color@);
    }
    let mut i: usize = 0;
    while i < n
        invariant
            i <= n,
            n == text@.len(),
            x + 30 * n <= 0x7fff_ffff,
            30 * n <= 0x7fff_ffff + 30,
            y + 50 <= 0x7fff_ffff,
            grid_fits(width, rows),
            u32_as_i32(width) == (width as i32) as int,
            frame@.len() == f0.len(),
            frame@ == painted(f0, huge_text_pixels(x as int, y as int, i as nat, width, rows), color@),
        decreases n - i,
    {
        let cx = x + (i as i32) * 30;
        let ghost before = huge_text_pixels(x as int, y as int, i as nat, width, rows);
        if !(cx + 30 < 0 || cx >= width as i32) {
            draw_box_outline(frame, cx, y, width, rows, color);
            proof {
                lemma_painted_twice(f0, before, box_outline(cx as int, y as int, width, rows), color@);
            }
        } else {
            proof {
                lemma_painted_empty(frame@, color@);
                assert(before.union(Set::<int>::empty()) =~= before);
            }
        }
        i = i + 1;
    }
}


/// A non-empty strip of the border lies at non-negative coordinates that fit `i32`, and
/// the byte index of its last pixel fits `usize`.
pub open spec fn strip_fits(sx: int, sy: int, w: int, h: int, stride: u32) -> bool {
    (w > 0 && h > 0) ==> {
        &&& sx >= 0
        &&& sy >= 0
        &&& sx + w - 1 <= 0x7fff_ffff
        &&& sy + h - 1 <= 0x7fff_ffff
        &&& 4 * ((sy + h - 1) * stride + sx + w - 1) + 3 <= usize::MAX
    }
}

/// The three-pixel frame around the `width`-by-`height` rectangle at `(x, y)` in a buffer
/// `stride` pixels wide: three rows at the top and at the bottom, three columns at the
/// left and at the right.
pub open spec fn border_pixels(x: int, y: int, width: int, height: int, stride: u32) -> Set<int> {
    offset_rectangle(x, y, width, 3, 0, stride as int)
        .union(offset_rectangle(x, y + height - 3, width, 3, 0, stride as int))
        .union(offset_rectangle(x, y, 3, height, 0, stride as int))
        .union(offset_rectangle(x + width - 3, y, 3, height, 0, stride as int))
}

/// The coordinates that drawing the border computes stay non-negative and within `i32`,
/// and every byte index fits `usize`.
pub open spec fn border_fits(x: int, y: int, width: int, height: int, stride: u32) -> bool {
    &&& strip_fits(x, y, width, 3, stride)
    &&& strip_fits(x, y + height - 3, width, 3, stride)
    &&& strip_fits(x, y, 3, height, stride)
    &&& strip_fits(x + width - 3, y, 3, height, stride)
    &&& width > 0 ==> fits_i32(y + height)
    &&& height > 0 ==> fits_i32(x + width)
}

/// An empty strip holds no pixel.
proof fn lemma_empty_strip(x: int, y: int, w: int, h: int, stride: int)
    requires
        w <= 0 || h <= 0,
    ensures
        offset_rectangle(x, y, w, h, 0, stride) == Set::<int>::empty(),
{
    assert(offset_rectangle(x, y, w, h, 0, stride) =~= Set::<int>::empty());
}

/// Paints one non-empty strip of the border.
fn fill_strip(frame: &mut [u8], sx: i32, sy: i32, w: i32, h: i32, color: [u8; 4], stride: u32)
    requires
        w > 0,
        h > 0,
        strip_fits(sx as int, sy as int, w as int, h as int, stride),
    ensures
        final(frame)@ == painted(old(frame)@, offset_rectangle(sx as int, sy as int, w as int, h as int, 0, stride as int), color@),
{
    proof {
        assert(offset_rectangle_fits(sx as usize, sy as usize, w as usize, h as usize, 0, stride));
    }
    fill_offset_rectangle(frame, sx as usize, sy as usize, w as usize, h as usize, color, 0, stride);
}

/// Draws a three-pixel border around the `width`-by-`height` rectangle at `(x, y)` of a
/// buffer `stride` pixels wide; pixels whose bytes fall outside the frame are skipped.
pub fn draw_border(frame: &mut [u8], x: i32, y: i32, width: i32, height: i32, color: [u8; 4], stride: u32)
    requires
        border_fits(x as int, y as int, width as int, height as int, stride),
    ensures
        final(frame)@ == painted(old(frame)@, border_pixels(x as int, y as int, width as int, height as int, stride), color@),
{
    let ghost f0 = frame@;
    let ghost st = stride as int;
    let ghost top = offset_rectangle(x as int, y as int, width as int, 3, 0, st);
    let ghost bottom = offset_rectangle(x as int, y + height - 3, width as int, 3, 0, st);
    let ghost left = offset_rectangle(x as int, y as int, 3, height as int, 0, st);
    let ghost right = offset_rectangle(x + width - 3, y as int, 3, height as int, 0, st);
    proof {
        lemma_painted_empty(f0, color@);
    }
    if width > 0 {
        fill_strip(frame, x, y, width, 3, color, stride);
        fill_strip(frame, x, y + height - 3, width, 3, color, stride);
        proof {
            lemma_painted_twice(f0, top, bottom, color@);
        }
    } else {
        proof {
            lemma_empty_strip(x as int, y as int, width as int, 3, st);
            lemma_empty_strip(x as int, y + height - 3, width as int, 3, st);
            assert(top.union(bottom) =~= Set::<int>::empty());
        }
    }
    if height > 0 {
        fill_strip(frame, x, y, 3, height, color, stride);
        proof {
            lemma_painted_twice(f0, top.union(bottom), left, color@);
        }
        fill_strip(frame, x + width - 3, y, 3, height, color, stride);
        proof {
            lemma_painted_twice(f0, top.union(bottom).union(left), right, color@);
        }
    } else {
        proof {
            lemma_empty_strip(x as int, y as int, 3, height as int, st);
            lemma_empty_strip(x + width - 3, y as int, 3, height as int, st);
            assert(top.union(bottom).union(left).union(right) =~= top.union(bottom));
        }
    }
}

} // verus!
