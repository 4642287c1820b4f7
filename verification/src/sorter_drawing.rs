use vstd::prelude::*;
use crate::pixels::{
    every_cell, fill_offset_rectangle, lemma_painted_empty, lemma_painted_twice, offset_cell, offset_rectangle,
    offset_rectangle_fits, painted,
};
use crate::sorter::{SortState, SortVisualizer};

verus! {

/// The bar colour for each animation state: blue while running, green when completed,
/// red while restarting.
pub open spec fn state_color(state: SortState) -> Seq<u8> {
    match state {
        SortState::Running => seq![100u8, 150u8, 255u8, 255u8],
        SortState::Completed => seq![100u8, 255u8, 100u8, 255u8],
        SortState::Restarting => seq![255u8, 100u8, 100u8, 255u8],
    }
}

/// The length of the bar for `value` on a scale whose full length is `max_len`:
/// `value / 256` of it, rounded down.
pub open spec fn bar_length_of(value: u8, max_len: int) -> int {
    (value * max_len) / 256
}

/// The largest full bar length for which `value / 256 * max_len`, computed in `f32`,
/// is exact, so that rounding it down gives `bar_length_of`.
pub const MAX_EXACT_BAR_SCALE: usize = 65792;

/// The bar length for `value` on a scale of `max_len`.
pub fn bar_length(value: u8, max_len: usize) -> (len: usize)
    requires
        max_len <= MAX_EXACT_BAR_SCALE,
    ensures
        len == bar_length_of(value, max_len as int),
        len <= max_len,
{
    assert(value * max_len <= 255 * 65792) by (nonlinear_arith)
        requires
            value <= 255,
            max_len <= 65792,
    ;
    assert((value * max_len) / 256 <= max_len) by (nonlinear_arith)
        requires
            value <= 255,
    ;
    (value as usize) * max_len / 256
}

/// The rectangle of bar `i` of `n` bars: bars side by side along the edge, each
/// `value / 256` of the full length, growing from the edge given by the flips.
pub open spec fn bar_rectangle(
    n: int,
    i: int,
    value: u8,
    x: int,
    y: int,
    width: int,
    height: int,
    horizontal: bool,
    x_offset: int,
    stride: int,
    flip_horizontal: bool,
    flip_vertical: bool,
) -> Set<int> {
    if horizontal {
        let bar_width = width / n;
        let bar_height = bar_length_of(value, height);
        let bar_x = x + i * bar_width;
        let bar_y = if flip_vertical {
            y
        } else {
            y + height - bar_height
        };
        offset_rectangle(bar_x, bar_y, bar_width, bar_height, x_offset, stride)
    } else {
        let bar_width = height / n;
        let bar_height = bar_length_of(value, width);
        let bar_x = if flip_horizontal {
            x
        } else {
            x + width - bar_height
        };
        let bar_y = y + i * bar_width;
        offset_rectangle(bar_x, bar_y, bar_height, bar_width, x_offset, stride)
    }
}

/// The pixels of the first `count` bars of `values`.
pub open spec fn bars_region(
    values: Seq<u8>,
    count: int,
    x: int,
    y: int,
    width: int,
    height: int,
    horizontal: bool,
    x_offset: int,
    stride: int,
    flip_horizontal: bool,
    flip_vertical: bool,
) -> Set<int> {
    Set::new(
        |p: int|
            exists|i: int|
                0 <= i < count && #[trigger] bar_rectangle(
                    values.len() as int,
                    i,
                    values[i],
                    x,
                    y,
                    width,
                    height,
                    horizontal,
                    x_offset,
                    stride,
                    flip_horizontal,
                    flip_vertical,
                ).contains(p),
    )
}

/// A bar is never longer than the depth of its region.
proof fn lemma_bar_length_bound(value: u8, max_len: int)
    requires
        0 <= max_len,
    ensures
        0 <= bar_length_of(value, max_len) <= max_len,
{
    assert(0 <= value * max_len <= 256 * max_len) by (nonlinear_arith)
        requires
            0 <= value <= 255,
            0 <= max_len,
    ;
}

/// Bar `i` of `n` side by side ends within the length of the region's edge.
proof fn lemma_bar_slot_bound(i: int, n: int, len: int, c: int)
    requires
        0 <= i < n,
        0 <= len,
        0 <= c < len / n,
    ensures
        0 <= i * (len / n) + c < len,
{
    let w = len / n;
    assert(i * w + c < len) by (nonlinear_arith)
        requires
            0 <= i < n,
            0 <= c < w,
            w == len / n,
            0 <= len,
    {
        assert(n * w <= len);
        assert(i * w + w <= n * w);
    }
    assert(0 <= i * w) by (nonlinear_arith)
        requires
            0 <= i,
            0 <= w,
    ;
}

/// Every bar of an animation lies inside the `width`-by-`height` region it is drawn in.
pub proof fn lemma_bar_inside(
    n: int,
    i: int,
    value: u8,
    x: int,
    y: int,
    width: int,
    height: int,
    horizontal: bool,
    x_offset: int,
    stride: int,
    flip_horizontal: bool,
    flip_vertical: bool,
    p: int,
)
    requires
        0 <= i < n,
        0 <= width,
        0 <= height,
        bar_rectangle(n, i, value, x, y, width, height, horizontal, x_offset, stride, flip_horizontal, flip_vertical).contains(p),
    ensures
        offset_rectangle(x, y, width, height, x_offset, stride).contains(p),
{
    if horizontal {
        let bw = width / n;
        let bh = bar_length_of(value, height);
        let bar_x = x + i * bw;
        let bar_y = if flip_vertical { y } else { y + height - bh };
        let (r, c) = choose|r: int, c: int|
            #![trigger every_cell()(r, c), offset_cell(bar_x, bar_y, x_offset, stride)(r, c)]
            0 <= r && 0 <= c < bw && (r < bh || (r == bh && c < 0)) && every_cell()(r, c) && offset_cell(
                bar_x,
                bar_y,
                x_offset,
                stride,
            )(r, c) == p;
        lemma_bar_length_bound(value, height);
        lemma_bar_slot_bound(i, n, width, c);
        let rr = bar_y - y + r;
        let cc = i * bw + c;
        assert(every_cell()(rr, cc));
        assert(offset_cell(x, y, x_offset, stride)(rr, cc) == p);
    } else {
        let bw = height / n;
        let bh = bar_length_of(value, width);
        let bar_x = if flip_horizontal { x } else { x + width - bh };
        let bar_y = y + i * bw;
        let (r, c) = choose|r: int, c: int|
            #![trigger every_cell()(r, c), offset_cell(bar_x, bar_y, x_offset, stride)(r, c)]
            0 <= r && 0 <= c < bh && (r < bw || (r == bw && c < 0)) && every_cell()(r, c) && offset_cell(
                bar_x,
                bar_y,
                x_offset,
                stride,
            )(r, c) == p;
        lemma_bar_length_bound(value, width);
        lemma_bar_slot_bound(i, n, height, r);
        let rr = i * bw + r;
        let cc = bar_x - x + c;
        assert(every_cell()(rr, cc));
        assert(offset_cell(x, y, x_offset, stride)(rr, cc) == p);
    }
}

/// The bars of an animation all lie inside the region they are drawn in.
pub proof fn lemma_bars_inside(
    values: Seq<u8>,
    x: int,
    y: int,
    width: int,
    height: int,
    horizontal: bool,
    x_offset: int,
    stride: int,
    flip_horizontal: bool,
    flip_vertical: bool,
)
    requires
        0 <= width,
        0 <= height,
    ensures
        bars_region(values, values.len() as int, x, y, width, height, horizontal, x_offset, stride, flip_horizontal, flip_vertical)
            .subset_of(offset_rectangle(x, y, width, height, x_offset, stride)),
{
    let region = bars_region(values, values.len() as int, x, y, width, height, horizontal, x_offset, stride, flip_horizontal, flip_vertical);
    assert forall|p: int| region.contains(p) implies offset_rectangle(x, y, width, height, x_offset, stride).contains(p) by {
        let i = choose|i: int|
            0 <= i < values.len() && #[trigger] bar_rectangle(
                values.len() as int,
                i,
                values[i],
                x,
                y,
                width,
                height,
                horizontal,
                x_offset,
                stride,
                flip_horizontal,
                flip_vertical,
            ).contains(p);
        lemma_bar_inside(values.len() as int, i, values[i], x, y, width, height, horizontal, x_offset, stride, flip_horizontal, flip_vertical, p);
    }
}

impl SortVisualizer {
    /// How many neighbouring pairs of the array are in order; the sorted share of the
    /// array is this count over the number of pairs.
    pub fn sorted_pair_count(&self) -> (count: usize)
        ensures
            count == Set::new(|p: int| 1 <= p < self.array@.len() && self.array@[p - 1] <= self.array@[p]).len(),
            count <= self.array@.len(),
    {
        let n = self.array.len();
        let mut count: usize = 0;
        let mut p: usize = 1;
        proof {
            assert(Set::new(|q: int| 1 <= q < 1 && self.array@[q - 1] <= self.array@[q]) =~= Set::<int>::empty());
        }
        while p < n
            invariant
                1 <= p,
                p <= n || n == 0,
                n == 0 ==> p == 1,
                n == self.array.len(),
                count < p,
                count == Set::new(|q: int| 1 <= q < p && self.array@[q - 1] <= self.array@[q]).len(),
            decreases n - p,
        {
            let ghost before = Set::new(|q: int| 1 <= q < p && self.array@[q - 1] <= self.array@[q]);
            let ghost after = Set::new(|q: int| 1 <= q < p + 1 && self.array@[q - 1] <= self.array@[q]);
            proof {
                vstd::set_lib::lemma_int_range(1, p as int);
                assert(before.subset_of(vstd::set_lib::set_int_range(1, p as int)));
                vstd::set_lib::lemma_len_subset(before, vstd::set_lib::set_int_range(1, p as int));
            }
            if self.array[p - 1] <= self.array[p] {
                proof {
                    assert(after =~= before.insert(p as int));
                    assert(!before.contains(p as int));
                }
                count = count + 1;
            } else {
                proof {
                    assert(after =~= before);
                }
            }
            p = p + 1;
        }
        proof {
            let fin = Set::new(|q: int| 1 <= q < p && self.array@[q - 1] <= self.array@[q]);
            let target = Set::new(|q: int| 1 <= q < self.array@.len() && self.array@[q - 1] <= self.array@[q]);
            assert(fin =~= target);
        }
        count
    }

    /// Draws the array as bars along an edge region, without flipping.
    pub fn draw(
        &self,
        frame: &mut [u8],
        x: usize,
        y: usize,
        width: usize,
        height: usize,
        horizontal: bool,
        x_offset: usize,
        buffer_width: u32,
    )
        requires
            self.array.len() > 0,
            (if horizontal {
                height
            } else {
                width
            }) <= MAX_EXACT_BAR_SCALE,
            x + width <= usize::MAX,
            y + height <= usize::MAX,
            width > 0 && height > 0 ==> offset_rectangle_fits(x, y, width, height, x_offset, buffer_width),
        ensures
            final(frame)@ == painted(
                old(frame)@,
                bars_region(
                    self.array@,
                    self.array@.len() as int,
                    x as int,
                    y as int,
                    width as int,
                    height as int,
                    horizontal,
                    x_offset as int,
                    buffer_width as int,
                    false,
                    false,
),
                state_color(self.state),
            ),
    {
        self.draw_with_direction(frame, x, y, width, height, horizontal, x_offset, buffer_width, false, false);
    }

    /// Draws the array as one bar per entry inside the `width`-by-`height` region at
    /// `(x, y)`: horizontal bars sit side by side along the region's bottom edge (its top
    /// edge with `flip_vertical`), vertical ones along its right edge (its left edge with
    /// `flip_horizontal`); each is `value / 256` of the region's depth, in the colour of
    /// the animation's state.
    pub fn draw_with_direction(
        &self,
        frame: &mut [u8],
        x: usize,
        y: usize,
        width: usize,
        height: usize,
        horizontal: bool,
        x_offset: usize,
        buffer_width: u32,
        flip_horizontal: bool,
        flip_vertical: bool,
    )
        requires
            self.array.len() > 0,
            (if horizontal {
                height
            } else {
                width
            }) <= MAX_EXACT_BAR_SCALE,
            x + width <= usize::MAX,
            y + height <= usize::MAX,
            width > 0 && height > 0 ==> offset_rectangle_fits(x, y, width, height, x_offset, buffer_width),
        ensures
            final(frame)@ == painted(
                old(frame)@,
                bars_region(
                    self.array@,
                    self.array@.len() as int,
                    x as int,
                    y as int,
                    width as int,
                    height as int,
                    horizontal,
                    x_offset as int,
                    buffer_width as int,
                    flip_horizontal,
                    flip_vertical,
),
                state_color(self.state),
            ),
    {
        let len = self.array.len();
        let bar_width = if horizontal {
            width / len
        } else {
            height / len
        };
        let max_height = if horizontal {
            height
        } else {
            width
        };
        let color: [u8; 4] = match self.state {
            SortState::Running => [100, 150, 255, 255],
            SortState::Completed => [100, 255, 100, 255],
            SortState::Restarting => [255, 100, 100, 255],
        };
        proof {
            assert(color@ =~= state_color(self.state));
        }
        let ghost f0 = frame@;
        let ghost values = self.array@;
        proof {
            assert(bars_region(values, 0, x as int, y as int, width as int, height as int, horizontal, x_offset as int, buffer_width as int, flip_horizontal, flip_vertical) =~= Set::<int>::empty());
            lemma_painted_empty(f0, color@);
        }
        let mut i: usize = 0;
        while i < len
            invariant
                i <= len,
                len == self.array.len(),
                values == self.array@,
                len > 0,
                bar_width == (if horizontal {
                    width / len
                } else {
                    height / len
                }),
                max_height == (if horizontal {
                    height
                } else {
                    width
                }),
                max_height <= MAX_EXACT_BAR_SCALE,
                x + width <= usize::MAX,
                y + height <= usize::MAX,
                width > 0 && height > 0 ==> offset_rectangle_fits(x, y, width, height, x_offset, buffer_width),
                frame@ == painted(f0, bars_region(values, i as int, x as int, y as int, width as int, height as int, horizontal, x_offset as int, buffer_width as int, flip_horizontal, flip_vertical), color@),
            decreases len - i,
        {
            let value = self.array[i];
            let bar_height = bar_length(value, max_height);
            proof {
                assert(i * bar_width + bar_width <= max_height * 0 + (if horizontal { width } else { height })) by (nonlinear_arith)
                    requires
                        i < len,
                        bar_width == (if horizontal { width } else { height }) / len,
                        len > 0,
                ;
            }
            let ghost bar = bar_rectangle(
                len as int,
                i as int,
                value,
                x as int,
                y as int,
                width as int,
                height as int,
                horizontal,
                x_offset as int,
                buffer_width as int,
                flip_horizontal,
                flip_vertical,
            );
            if horizontal {
                let bar_x = x + i * bar_width;
                let bar_y = if flip_vertical {
                    y
                } else {
                    y + height - bar_height
                };
                proof {
                    lemma_fits_within(x, y, width, height, x_offset, buffer_width, bar_x, bar_y, bar_width, bar_height);
                }
                fill_offset_rectangle(frame, bar_x, bar_y, bar_width, bar_height, color, x_offset, buffer_width);
            } else {
                let bar_x = if flip_horizontal {
                    x
                } else {
                    x + width - bar_height
                };
                let bar_y = y + i * bar_width;
                proof {
                    lemma_fits_within(x, y, width, height, x_offset, buffer_width, bar_x, bar_y, bar_height, bar_width);
                }
                fill_offset_rectangle(frame, bar_x, bar_y, bar_height, bar_width, color, x_offset, buffer_width);
            }
            proof {
                lemma_painted_twice(f0, bars_region(values, i as int, x as int, y as int, width as int, height as int, horizontal, x_offset as int, buffer_width as int, flip_horizontal, flip_vertical), bar, color@);
                lemma_bars_region_step(values, i as int, x as int, y as int, width as int, height as int, horizontal, x_offset as int, buffer_width as int, flip_horizontal, flip_vertical);
                assert(bars_region(values, i + 1, x as int, y as int, width as int, height as int, horizontal, x_offset as int, buffer_width as int, flip_horizontal, flip_vertical) == bars_region(values, i as int, x as int, y as int, width as int, height as int, horizontal, x_offset as int, buffer_width as int, flip_horizontal, flip_vertical).union(bar));
            }
            i = i + 1;
        }
    }
}

/// One more bar adds its rectangle to the drawn region.
proof fn lemma_bars_region_step(
    values: Seq<u8>,
    i: int,
    x: int,
    y: int,
    width: int,
    height: int,
    horizontal: bool,
    x_offset: int,
    stride: int,
    flip_horizontal: bool,
    flip_vertical: bool,
)
    requires
        0 <= i < values.len(),
    ensures
        bars_region(values, i + 1, x, y, width, height, horizontal, x_offset, stride, flip_horizontal, flip_vertical)
            == bars_region(values, i, x, y, width, height, horizontal, x_offset, stride, flip_horizontal, flip_vertical).union(
            bar_rectangle(values.len() as int, i, values[i], x, y, width, height, horizontal, x_offset, stride, flip_horizontal, flip_vertical),
        ),
{
    let next = bars_region(values, i + 1, x, y, width, height, horizontal, x_offset, stride, flip_horizontal, flip_vertical);
    let prev = bars_region(values, i, x, y, width, height, horizontal, x_offset, stride, flip_horizontal, flip_vertical);
    let bar = bar_rectangle(values.len() as int, i, values[i], x, y, width, height, horizontal, x_offset, stride, flip_horizontal, flip_vertical);
    assert forall|p: int| #[trigger] next.contains(p) <==> prev.union(bar).contains(p) by {
        if next.contains(p) {
            let k = choose|k: int|
                0 <= k < i + 1 && #[trigger] bar_rectangle(values.len() as int, k, values[k], x, y, width, height, horizontal, x_offset, stride, flip_horizontal, flip_vertical).contains(p);
            if k < i {
                assert(prev.contains(p));
            }
        }
        if prev.contains(p) {
            let k = choose|k: int|
                0 <= k < i && #[trigger] bar_rectangle(values.len() as int, k, values[k], x, y, width, height, horizontal, x_offset, stride, flip_horizontal, flip_vertical).contains(p);
            assert(next.contains(p));
        }
        if bar.contains(p) {
            assert(next.contains(p));
        }
    }
    assert(next =~= prev.union(bar));
}

/// A rectangle inside a region that fits the index arithmetic fits it too.
proof fn lemma_fits_within(
    x: usize,
    y: usize,
    width: usize,
    height: usize,
    x_offset: usize,
    buffer_width: u32,
    rx: usize,
    ry: usize,
    rw: usize,
    rh: usize,
)
    requires
        width > 0 && height > 0 ==> offset_rectangle_fits(x, y, width, height, x_offset, buffer_width),
        x <= rx,
        y <= ry,
        rx + rw <= x + width,
        ry + rh <= y + height,
    ensures
        rw > 0 && rh > 0 ==> offset_rectangle_fits(rx, ry, rw, rh, x_offset, buffer_width),
{
    if rw > 0 && rh > 0 {
        let bw = buffer_width as int;
        assert((ry + rh - 1) * bw <= (y + height - 1) * bw) by (nonlinear_arith)
            requires
                ry + rh <= y + height,
                bw >= 0,
        ;
    }
}

} // verus!
