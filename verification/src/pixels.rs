use vstd::prelude::*;

verus! {

/// The frame after every pixel index in `region` whose four bytes lie inside the
/// frame has been given the RGBA value `color`.
pub open spec fn painted(frame: Seq<u8>, region: Set<int>, color: Seq<u8>) -> Seq<u8> {
    Seq::new(
        frame.len(),
        |b: int|
            if region.contains(b / 4) && (b / 4) * 4 + 3 < frame.len() {
                color[b % 4]
            } else {
                frame[b]
            },
    )
}

/// Writes the four bytes of `color` at byte offset `idx`.
pub fn write_pixel(frame: &mut [u8], idx: usize, color: [u8; 4])
    requires
        idx + 3 < old(frame)@.len(),
    ensures
        final(frame)@ == old(frame)@.update(idx as int, color@[0]).update(
            idx + 1,
            color@[1],
        ).update(idx + 2, color@[2]).update(idx + 3, color@[3]),
{
    frame[idx] = color[0];
    frame[idx + 1] = color[1];
    frame[idx + 2] = color[2];
    frame[idx + 3] = color[3];
}


/// Painting nothing leaves the frame as it was.
pub proof fn lemma_painted_empty(frame: Seq<u8>, color: Seq<u8>)
    ensures
        painted(frame, Set::empty(), color) == frame,
{
    assert(painted(frame, Set::empty(), color) =~= frame);
}

/// Adding one pixel to a painted region writes that pixel's four bytes, if they fit.
pub proof fn lemma_painted_insert(frame: Seq<u8>, region: Set<int>, p: int, color: Seq<u8>)
    requires
        0 <= p,
    ensures
        4 * p + 3 < frame.len() ==> painted(frame, region.insert(p), color) == painted(
            frame,
            region,
            color,
        ).update(4 * p, color[0]).update(4 * p + 1, color[1]).update(4 * p + 2, color[2]).update(
            4 * p + 3,
            color[3],
        ),
        4 * p + 3 >= frame.len() ==> painted(frame, region.insert(p), color) == painted(
            frame,
            region,
            color,
        ),
{
    let before = painted(frame, region, color);
    let after = painted(frame, region.insert(p), color);
    if 4 * p + 3 < frame.len() {
        let expect = before.update(4 * p, color[0]).update(4 * p + 1, color[1]).update(
            4 * p + 2,
            color[2],
        ).update(4 * p + 3, color[3]);
        assert forall|b: int| 0 <= b < frame.len() implies after[b] == expect[b] by {
            if 4 * p <= b < 4 * p + 4 {
                assert(b / 4 == p);
                assert(b % 4 == b - 4 * p);
            } else {
                assert(b / 4 != p);
            }
        }
        assert(after =~= expect);
    } else {
        assert forall|b: int| 0 <= b < frame.len() implies after[b] == before[b] by {
            if b / 4 == p {
                assert((b / 4) * 4 + 3 >= frame.len());
            }
        }
        assert(after =~= before);
    }
}

/// The pixels `at(r, c)` of the cells `(r, c)`, `0 <= c < w`, that satisfy `keep` and come
/// before cell `(row, col)` in row-major order.
pub open spec fn scanned(
    w: int,
    keep: spec_fn(int, int) -> bool,
    at: spec_fn(int, int) -> int,
    row: int,
    col: int,
) -> Set<int> {
    Set::new(
        |p: int|
            exists|r: int, c: int|
                #![trigger keep(r, c), at(r, c)]
                0 <= r && 0 <= c < w && (r < row || (r == row && c < col)) && keep(r, c) && at(r, c)
                    == p,
    )
}

/// Nothing is scanned before the first cell.
pub proof fn lemma_scanned_start(w: int, keep: spec_fn(int, int) -> bool, at: spec_fn(int, int) -> int)
    ensures
        scanned(w, keep, at, 0, 0) == Set::<int>::empty(),
{
    assert(scanned(w, keep, at, 0, 0) =~= Set::<int>::empty());
}

/// Scanning one more cell adds its pixel when the cell is kept.
pub proof fn lemma_scanned_next(
    w: int,
    keep: spec_fn(int, int) -> bool,
    at: spec_fn(int, int) -> int,
    row: int,
    col: int,
)
    requires
        0 <= row,
        0 <= col < w,
    ensures
        scanned(w, keep, at, row, col + 1) == if keep(row, col) {
            scanned(w, keep, at, row, col).insert(at(row, col))
        } else {
            scanned(w, keep, at, row, col)
        },
{
    let a = scanned(w, keep, at, row, col + 1);
    let b = scanned(w, keep, at, row, col);
    let target = if keep(row, col) {
        b.insert(at(row, col))
    } else {
        b
    };
    assert forall|p: int| a.contains(p) <==> target.contains(p) by {
        if a.contains(p) {
            let (r, c) = choose|r: int, c: int|
                #![trigger keep(r, c), at(r, c)]
                0 <= r && 0 <= c < w && (r < row || (r == row && c < col + 1)) && keep(r, c) && at(
                    r,
                    c,
                ) == p;
            if !(r == row && c == col) {
                assert(b.contains(p));
            }
        }
        if b.contains(p) {
            let (r, c) = choose|r: int, c: int|
                #![trigger keep(r, c), at(r, c)]
                0 <= r && 0 <= c < w && (r < row || (r == row && c < col)) && keep(r, c) && at(r, c)
                    == p;
            assert(a.contains(p));
        }
        if keep(row, col) && p == at(row, col) {
            assert(a.contains(p));
        }
    }
    assert(a =~= target);
}

/// A finished row is the start of the next one.
pub proof fn lemma_scanned_row(w: int, keep: spec_fn(int, int) -> bool, at: spec_fn(int, int) -> int, row: int)
    requires
        0 <= w,
    ensures
        scanned(w, keep, at, row, w) == scanned(w, keep, at, row + 1, 0),
{
    let a = scanned(w, keep, at, row, w);
    let b = scanned(w, keep, at, row + 1, 0);
    assert forall|p: int| a.contains(p) <==> b.contains(p) by {
        if a.contains(p) {
            let (r, c) = choose|r: int, c: int|
                #![trigger keep(r, c), at(r, c)]
                0 <= r && 0 <= c < w && (r < row || (r == row && c < w)) && keep(r, c) && at(r, c)
                    == p;
            assert(b.contains(p));
        }
        if b.contains(p) {
            let (r, c) = choose|r: int, c: int|
                #![trigger keep(r, c), at(r, c)]
                0 <= r && 0 <= c < w && (r < row + 1 || (r == row + 1 && c < 0)) && keep(r, c) && at(
                    r,
                    c,
                ) == p;
            assert(a.contains(p));
        }
    }
    assert(a =~= b);
}


/// Painting two regions one after the other in one colour paints their union.
pub proof fn lemma_painted_twice(frame: Seq<u8>, a: Set<int>, b: Set<int>, color: Seq<u8>)
    ensures
        painted(painted(frame, a, color), b, color) == painted(frame, a.union(b), color),
{
    assert(painted(painted(frame, a, color), b, color) =~= painted(frame, a.union(b), color));
}

/// Every cell of a grid.
pub open spec fn every_cell() -> spec_fn(int, int) -> bool {
    |r: int, c: int| true
}

/// The pixel index of grid cell `(r, c)` for a rectangle whose top-left corner is pixel
/// `(x, y)` of a buffer `stride` pixels wide, shifted right by `x_offset` pixels.
pub open spec fn offset_cell(x: int, y: int, x_offset: int, stride: int) -> spec_fn(int, int) -> int {
    |r: int, c: int| (y + r) * stride + x + c + x_offset
}

/// The pixels of the `width`-by-`height` rectangle at `(x, y)` in a buffer `stride` pixels
/// wide, shifted right by `x_offset` pixels.
pub open spec fn offset_rectangle(x: int, y: int, width: int, height: int, x_offset: int, stride: int) -> Set<int> {
    scanned(width, every_cell(), offset_cell(x, y, x_offset, stride), height, 0)
}

/// The index arithmetic for the last pixel of a non-empty offset rectangle stays within
/// `usize`.
pub open spec fn offset_rectangle_fits(x: usize, y: usize, width: usize, height: usize, x_offset: usize, buffer_width: u32) -> bool {
    &&& y + height - 1 <= usize::MAX
    &&& x + width - 1 <= usize::MAX
    &&& 4 * ((y + height - 1) * buffer_width + x + width - 1 + x_offset) + 3 <= usize::MAX
}

/// Fills the `width`-by-`height` rectangle at `(x, y)` of a buffer `buffer_width` pixels
/// wide, shifted right by `x_offset` pixels, with `color`; pixels whose bytes fall
/// outside the frame are skipped.
pub fn fill_offset_rectangle(
    frame: &mut [u8],
    x: usize,
    y: usize,
    width: usize,
    height: usize,
    color: [u8; 4],
    x_offset: usize,
    buffer_width: u32,
)
    requires
        width > 0 && height > 0 ==> offset_rectangle_fits(x, y, width, height, x_offset, buffer_width),
    ensures
        final(frame)@ == painted(
            old(frame)@,
            offset_rectangle(x as int, y as int, width as int, height as int, x_offset as int, buffer_width as int),
            color@,
        ),
{
    let ghost f0 = frame@;
    let ghost keep = every_cell();
    let ghost at = offset_cell(x as int, y as int, x_offset as int, buffer_width as int);
    proof {
        lemma_scanned_start(width as int, keep, at);
        lemma_painted_empty(f0, color@);
    }
    let mut dy: usize = 0;
    while dy < height
        invariant
            dy <= height,
            frame@.len() == f0.len(),
            width > 0 && height > 0 ==> offset_rectangle_fits(x, y, width, height, x_offset, buffer_width),
            keep == every_cell(),
            at == offset_cell(x as int, y as int, x_offset as int, buffer_width as int),
            frame@ == painted(f0, scanned(width as int, keep, at, dy as int, 0), color@),
        decreases height - dy,
    {
        let mut dx: usize = 0;
        while dx < width
            invariant
                dy < height,
                dx <= width,
                frame@.len() == f0.len(),
                width > 0 && height > 0 ==> offset_rectangle_fits(x, y, width, height, x_offset, buffer_width),
                keep == every_cell(),
                at == offset_cell(x as int, y as int, x_offset as int, buffer_width as int),
                frame@ == painted(f0, scanned(width as int, keep, at, dy as int, dx as int), color@),
            decreases width - dx,
        {
            proof {
                let bw = buffer_width as int;
                assert((y + dy) * bw <= (y + height - 1) * bw) by (nonlinear_arith)
                    requires
                        dy < height,
                        bw >= 0,
                ;
                lemma_scanned_next(width as int, keep, at, dy as int, dx as int);
                lemma_painted_insert(f0, scanned(width as int, keep, at, dy as int, dx as int), at(dy as int, dx as int), color@);
            }
            let pixel_x = x + dx;
            let pixel_y = y + dy;
            let idx = 4 * ((pixel_y * buffer_width as usize) + pixel_x + x_offset);
            if idx + 3 < frame.len() {
                write_pixel(frame, idx, color);
            }
            dx = dx + 1;
        }
        proof {
            lemma_scanned_row(width as int, keep, at, dy as int);
        }
        dy = dy + 1;
    }
}


/// The value of `w as i32` for a `u32`: two's complement reinterpretation.
pub open spec fn u32_as_i32(w: u32) -> int {
    if w <= 0x7fff_ffff {
        w as int
    } else {
        w - 0x1_0000_0000
    }
}

/// `as i32` on a `u32` reinterprets its bits.
pub proof fn lemma_u32_as_i32(w: u32)
    ensures
        (w as i32) as int == u32_as_i32(w),
{
    if w <= 0x7fff_ffff {
        assert(w <= 0x7fff_ffff ==> (w as i32) as int == w as int) by (bit_vector);
    } else {
        assert(w > 0x7fff_ffff ==> (w as i32) < 0) by (bit_vector);
        assert(w > 0x7fff_ffff ==> (w as i32) as int == w as int - 0x1_0000_0000) by (bit_vector);
    }
}

/// Pixel `(px, py)` lies inside a `width`-by-`height` frame, with the bounds read as
/// `i32` the way the drawing routines compare them.
pub open spec fn in_clip(px: int, py: int, width: u32, height: u32) -> bool {
    0 <= px < u32_as_i32(width) && 0 <= py < u32_as_i32(height)
}

/// The byte index of every pixel inside a `width`-by-`height` frame fits in `usize`.
pub open spec fn grid_fits(width: u32, height: u32) -> bool {
    (u32_as_i32(width) > 0 && u32_as_i32(height) > 0) ==> 4 * (width * height) <= usize::MAX + 1
}

/// Sets pixel `(x, y)` of a frame `width` pixels wide to `color` when it lies inside the
/// `width`-by-`height` frame and its bytes lie inside the buffer.
pub fn set_pixel_safe(frame: &mut [u8], x: i32, y: i32, width: u32, height: u32, color: [u8; 4])
    requires
        in_clip(x as int, y as int, width, height) ==> 4 * (y * width + x) + 3 <= usize::MAX,
    ensures
        final(frame)@ == painted(
            old(frame)@,
            if in_clip(x as int, y as int, width, height) {
                set![y * width + x]
            } else {
                Set::empty()
            },
            color@,
        ),
{
    proof {
        lemma_u32_as_i32(width);
        lemma_u32_as_i32(height);
        lemma_painted_empty(old(frame)@, color@);
    }
    if x >= 0 && x < width as i32 && y >= 0 && y < height as i32 {
        proof {
            lemma_painted_insert(old(frame)@, Set::empty(), y * width + x, color@);
            assert(Set::<int>::empty().insert(y * width + x) =~= set![y * width + x]);
        }
        let idx = 4 * (y as usize * width as usize + x as usize);
        if idx + 3 < frame.len() {
            write_pixel(frame, idx, color);
        }
    }
}

/// A pixel inside a frame whose grid fits has an index that fits.
pub proof fn lemma_grid_point_fits(px: int, py: int, width: u32, height: u32)
    requires
        grid_fits(width, height),
        in_clip(px, py, width, height),
    ensures
        4 * (py * width + px) + 3 <= usize::MAX,
{
    let w = width as int;
    let h = height as int;
    assert(py * w + px <= h * w - 1) by (nonlinear_arith)
        requires
            0 <= py < h,
            0 <= px < w,
    ;
}


/// The pixels `at(k)` of the items `k < n` that satisfy `keep`.
pub open spec fn gathered(n: int, keep: spec_fn(int) -> bool, at: spec_fn(int) -> int) -> Set<int> {
    Set::new(|p: int| exists|k: int| #![trigger keep(k), at(k)] 0 <= k < n && keep(k) && at(k) == p)
}

/// Nothing is gathered from no items.
pub proof fn lemma_gathered_start(keep: spec_fn(int) -> bool, at: spec_fn(int) -> int)
    ensures
        gathered(0, keep, at) == Set::<int>::empty(),
{
    assert(gathered(0, keep, at) =~= Set::<int>::empty());
}

/// One more item adds its pixel when it is kept.
pub proof fn lemma_gathered_next(n: int, keep: spec_fn(int) -> bool, at: spec_fn(int) -> int)
    requires
        0 <= n,
    ensures
        gathered(n + 1, keep, at) == if keep(n) {
            gathered(n, keep, at).insert(at(n))
        } else {
            gathered(n, keep, at)
        },
{
    let a = gathered(n + 1, keep, at);
    let b = gathered(n, keep, at);
    let target = if keep(n) {
        b.insert(at(n))
    } else {
        b
    };
    assert forall|p: int| a.contains(p) <==> target.contains(p) by {
        if a.contains(p) {
            let k = choose|k: int| #![trigger keep(k), at(k)] 0 <= k < n + 1 && keep(k) && at(k) == p;
            if k != n {
                assert(b.contains(p));
            }
        }
        if b.contains(p) {
            let k = choose|k: int| #![trigger keep(k), at(k)] 0 <= k < n && keep(k) && at(k) == p;
            assert(a.contains(p));
        }
        if keep(n) && p == at(n) {
            assert(a.contains(p));
        }
    }
    assert(a =~= target);
}

} // verus!
