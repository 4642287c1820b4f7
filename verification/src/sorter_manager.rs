use vstd::prelude::*;
use crate::algorithm_stats::{AlgorithmStats, SortAlgorithm};
use crate::pixels::{offset_rectangle, offset_rectangle_fits, painted};
use crate::sorter::{
    after_running_step, algorithm_step, fresh_view, initial_values, sorter_invariant, stats_after, SortState,
    SortVisualizer, SorterView,
};
use crate::sorter_drawing::{bars_region, lemma_bars_inside, state_color, MAX_EXACT_BAR_SCALE};
use crate::sorter_limits::update_checked;

verus! {

/// The number of entries every border animation sorts, so that the leaderboard compares
/// the algorithms on equal work.
pub const FIXED_ARRAY_SIZE: usize = 100;

/// The four sorting animations along the borders of the window, each absent until it
/// is initialised.
pub struct SorterSet {
    pub top: Option<SortVisualizer>,
    pub bottom: Option<SortVisualizer>,
    pub left: Option<SortVisualizer>,
    pub right: Option<SortVisualizer>,
}

/// `after` is `before` asked to restart, when there is one.
pub open spec fn restarted(before: Option<SortVisualizer>, after: Option<SortVisualizer>) -> bool {
    match before {
        None => after is None,
        Some(b) => match after {
            Some(a) => a.algorithm == b.algorithm && a@ == (SorterView { state: SortState::Restarting, ..b@ }),
            None => false,
        },
    }
}

/// `after` is `before` if there was one, and otherwise a fresh animation of `algorithm`
/// on `FIXED_ARRAY_SIZE` entries.
pub open spec fn filled_with(before: Option<SortVisualizer>, after: Option<SortVisualizer>, algorithm: SortAlgorithm) -> bool {
    match before {
        Some(b) => after == Some(b),
        None => match after {
            Some(a) => {
                &&& a.algorithm == algorithm
                &&& a@ == fresh_view(a.array@, algorithm)
                &&& a.array@.to_multiset() == initial_values(FIXED_ARRAY_SIZE as nat).to_multiset()
                &&& sorter_invariant(a@, algorithm)
            },
            None => false,
        },
    }
}

impl SorterSet {
    /// A set with no animation initialised yet.
    pub fn new() -> (s: SorterSet)
        ensures
            s.top is None,
            s.bottom is None,
            s.left is None,
            s.right is None,
    {
        SorterSet { top: None, bottom: None, left: None, right: None }
    }
}

/// A fresh animation of `algorithm` on `FIXED_ARRAY_SIZE` entries unless one is there.
fn fill_slot(slot: &mut Option<SortVisualizer>, algorithm: SortAlgorithm)
    ensures
        filled_with(*old(slot), *final(slot), algorithm),
{
    if slot.is_none() {
        *slot = Some(SortVisualizer::new_with_size(algorithm, FIXED_ARRAY_SIZE));
    }
}

/// Creates the animations that are still missing: shell sort at the top, quick sort at
/// the bottom, insertion sort on the left and selection sort on the right.
pub fn initialize_sorters(sorters: &mut SorterSet)
    ensures
        filled_with(old(sorters).top, final(sorters).top, SortAlgorithm::Shell),
        filled_with(old(sorters).bottom, final(sorters).bottom, SortAlgorithm::Quick),
        filled_with(old(sorters).left, final(sorters).left, SortAlgorithm::Insertion),
        filled_with(old(sorters).right, final(sorters).right, SortAlgorithm::Selection),
{
    fill_slot(&mut sorters.top, SortAlgorithm::Shell);
    fill_slot(&mut sorters.bottom, SortAlgorithm::Quick);
    fill_slot(&mut sorters.left, SortAlgorithm::Insertion);
    fill_slot(&mut sorters.right, SortAlgorithm::Selection);
}

/// Asks the animation in `slot`, if any, to restart.
fn restart_slot(slot: &mut Option<SortVisualizer>)
    ensures
        restarted(*old(slot), *final(slot)),
{
    match slot {
        Some(sorter) => {
            sorter.restart();
        },
        None => {},
    }
}

/// Asks every initialised animation to restart.
pub fn restart_sorters(sorters: &mut SorterSet)
    ensures
        restarted(old(sorters).top, final(sorters).top),
        restarted(old(sorters).bottom, final(sorters).bottom),
        restarted(old(sorters).left, final(sorters).left),
        restarted(old(sorters).right, final(sorters).right),
{
    restart_slot(&mut sorters.top);
    restart_slot(&mut sorters.bottom);
    restart_slot(&mut sorters.left);
    restart_slot(&mut sorters.right);
}


/// The view after `update` from `v`, whose array afterwards is `array`.
pub open spec fn updated_view(v: SorterView, algorithm: SortAlgorithm, array: Seq<u8>) -> SorterView {
    match v.state {
        SortState::Completed => v,
        SortState::Restarting => fresh_view(array, algorithm),
        SortState::Running => after_running_step(v, algorithm, array),
    }
}

/// The view after `update` and, on a restart tick, the restart of a completed animation.
pub open spec fn ticked_view(v: SorterView, algorithm: SortAlgorithm, array: Seq<u8>, restart_tick: bool) -> SorterView {
    let u = updated_view(v, algorithm, array);
    if u.state == SortState::Completed && restart_tick {
        SorterView { state: SortState::Restarting, ..u }
    } else {
        u
    }
}

/// Whether the step of `update` from `v` finishes the sort.
pub open spec fn completes(v: SorterView, algorithm: SortAlgorithm) -> bool {
    v.state == SortState::Running && algorithm_step(v, algorithm).state == SortState::Completed
}

/// The drawing area fits the bar arithmetic for an animation of `len` entries.
pub open spec fn area_fits(
    len: int,
    x: usize,
    y: usize,
    width: usize,
    height: usize,
    horizontal: bool,
    x_offset: usize,
    buffer_width: u32,
) -> bool {
    &&& len > 0
    &&& (if horizontal { height } else { width }) <= MAX_EXACT_BAR_SCALE
    &&& x + width <= usize::MAX
    &&& y + height <= usize::MAX
    &&& width > 0 && height > 0 ==> offset_rectangle_fits(x, y, width, height, x_offset, buffer_width)
}

/// `after` is the animation in `before`, if any, advanced by one update and, when it
/// completed on a restart tick, asked to restart; its entries are rearranged, never
/// changed.
pub open spec fn slot_ticked(before: Option<SortVisualizer>, after: Option<SortVisualizer>, restart_tick: bool) -> bool {
    match before {
        None => after is None,
        Some(s) => match after {
            None => false,
            Some(t) => {
                &&& t.algorithm == s.algorithm
                &&& t.array@.len() == s.array@.len()
                &&& t.array@.to_multiset() == s.array@.to_multiset()
                &&& t@ == ticked_view(s@, s.algorithm, t.array@, restart_tick)
            },
        },
    }
}

/// The completion counts after the update of the animation in `slot`, if any.
pub open spec fn slot_stats(stats: Map<SortAlgorithm, u32>, slot: Option<SortVisualizer>) -> Map<SortAlgorithm, u32> {
    match slot {
        None => stats,
        Some(s) => stats_after(stats, s.algorithm, completes(s@, s.algorithm)),
    }
}

/// `frame` with the bars of the animation in `slot`, if any, drawn in its region.
pub open spec fn slot_frame(
    frame: Seq<u8>,
    slot: Option<SortVisualizer>,
    x: usize,
    y: usize,
    width: usize,
    height: usize,
    horizontal: bool,
    x_offset: usize,
    buffer_width: u32,
    flip_horizontal: bool,
    flip_vertical: bool,
) -> Seq<u8> {
    match slot {
        None => frame,
        Some(t) => painted(
            frame,
            bars_region(
                t.array@,
                t.array@.len() as int,
                x as int,
                y as int,
                width as int,
                height as int,
                horizontal,
                x_offset as int,
                buffer_width as int,
                flip_horizontal,
                flip_vertical,
            ),
            state_color(t.state),
        ),
    }
}

/// The animation in `slot`, if any, can be updated against `stats` and drawn in the
/// region.
pub open spec fn slot_ready(
    slot: Option<SortVisualizer>,
    stats: Map<SortAlgorithm, u32>,
    x: usize,
    y: usize,
    width: usize,
    height: usize,
    horizontal: bool,
    x_offset: usize,
    buffer_width: u32,
) -> bool {
    slot matches Some(s) ==> s.can_update(stats) && area_fits(
        s.array@.len() as int,
        x,
        y,
        width,
        height,
        horizontal,
        x_offset,
        buffer_width,
    )
}

/// Advances the animation in `sorter`, if there is one, restarts it when it has completed
/// and this is a restart tick, and draws its bars in the region at `(x, y)`.
pub fn update_and_draw_sorter(
    sorter: &mut Option<SortVisualizer>,
    stats: &mut AlgorithmStats,
    frame: &mut [u8],
    x: usize,
    y: usize,
    width: usize,
    height: usize,
    horizontal: bool,
    restart_tick: bool,
    x_offset: usize,
    buffer_width: u32,
    flip_horizontal: bool,
    flip_vertical: bool,
)
    requires
        slot_ready(*old(sorter), old(stats)@, x, y, width, height, horizontal, x_offset, buffer_width),
    ensures
        slot_ticked(*old(sorter), *final(sorter), restart_tick),
        final(stats)@ == slot_stats(old(stats)@, *old(sorter)),
        final(frame)@ == slot_frame(
            old(frame)@,
            *final(sorter),
            x,
            y,
            width,
            height,
            horizontal,
            x_offset,
            buffer_width,
            flip_horizontal,
            flip_vertical,
        ),
{
    match sorter {
        Some(s) => {
            s.update(stats);
            if s.state == SortState::Completed && restart_tick {
                s.restart();
            }
            s.draw_with_direction(frame, x, y, width, height, horizontal, x_offset, buffer_width, flip_horizontal, flip_vertical);
        },
        None => {},
    }
}

/// The counts after the top, bottom and left animations have been updated in turn.
pub open spec fn stats_before_right(stats: Map<SortAlgorithm, u32>, s: SorterSet) -> Map<SortAlgorithm, u32> {
    slot_stats(slot_stats(slot_stats(stats, s.top), s.bottom), s.left)
}

/// Every animation of the set can be updated in turn, top, bottom, left, right, and
/// drawn in its band: the top and bottom bands are `border` rows deep across the whole
/// `width`, the side bands `side` columns wide between them.
pub open spec fn sorters_ready(
    s: SorterSet,
    stats: Map<SortAlgorithm, u32>,
    width: u32,
    height: u32,
    border: usize,
    side: usize,
    x_offset: usize,
    buffer_width: u32,
) -> bool {
    let middle = (height - 2 * border) as usize;
    &&& slot_ready(s.top, stats, 0, 0, width as usize, border, true, x_offset, buffer_width)
    &&& slot_ready(s.bottom, slot_stats(stats, s.top), 0, (height - border) as usize, width as usize, border, true, x_offset, buffer_width)
    &&& slot_ready(s.left, slot_stats(slot_stats(stats, s.top), s.bottom), 0, border, side, middle, false, x_offset, buffer_width)
    &&& slot_ready(s.right, stats_before_right(stats, s), (width - side) as usize, border, side, middle, false, x_offset, buffer_width)
}

/// `frame` with the bars of every animation of the set drawn in its band, in the order
/// top, bottom, left, right.
pub open spec fn sorters_frame(
    frame: Seq<u8>,
    s: SorterSet,
    width: u32,
    height: u32,
    border: usize,
    side: usize,
    x_offset: usize,
    buffer_width: u32,
) -> Seq<u8> {
    let middle = (height - 2 * border) as usize;
    let f1 = slot_frame(frame, s.top, 0, 0, width as usize, border, true, x_offset, buffer_width, false, true);
    let f2 = slot_frame(f1, s.bottom, 0, (height - border) as usize, width as usize, border, true, x_offset, buffer_width, false, false);
    let f3 = slot_frame(f2, s.left, 0, border, side, middle, false, x_offset, buffer_width, true, false);
    slot_frame(f3, s.right, (width - side) as usize, border, side, middle, false, x_offset, buffer_width, false, false)
}

/// Drawing the animation in `slot` changes only pixels inside its region.
proof fn lemma_slot_frame_outside(
    frame: Seq<u8>,
    slot: Option<SortVisualizer>,
    x: usize,
    y: usize,
    width: usize,
    height: usize,
    horizontal: bool,
    x_offset: usize,
    buffer_width: u32,
    flip_horizontal: bool,
    flip_vertical: bool,
    b: int,
)
    requires
        0 <= b < frame.len(),
        !offset_rectangle(x as int, y as int, width as int, height as int, x_offset as int, buffer_width as int).contains(b / 4),
    ensures
        slot_frame(frame, slot, x, y, width, height, horizontal, x_offset, buffer_width, flip_horizontal, flip_vertical).len() == frame.len(),
        slot_frame(frame, slot, x, y, width, height, horizontal, x_offset, buffer_width, flip_horizontal, flip_vertical)[b] == frame[b],
{
    if let Some(t) = slot {
        lemma_bars_inside(
            t.array@,
            x as int,
            y as int,
            width as int,
            height as int,
            horizontal,
            x_offset as int,
            buffer_width as int,
            flip_horizontal,
            flip_vertical,
        );
    }
}

/// The four bands the border animations draw in: `border` rows across the top and the
/// bottom of the window, and `side` columns at its left and right between them.
pub open spec fn border_bands(width: u32, height: u32, border: usize, side: usize, x_offset: usize, buffer_width: u32) -> Set<int> {
    let (w, h, bd, sd, xo, bw) = (width as int, height as int, border as int, side as int, x_offset as int, buffer_width as int);
    offset_rectangle(0, 0, w, bd, xo, bw)
        .union(offset_rectangle(0, h - bd, w, bd, xo, bw))
        .union(offset_rectangle(0, bd, sd, h - 2 * bd, xo, bw))
        .union(offset_rectangle(w - sd, bd, sd, h - 2 * bd, xo, bw))
}

/// Drawing the border animations leaves every pixel outside their four bands as it was.
pub proof fn lemma_sorters_draw_only_in_bands(
    frame: Seq<u8>,
    s: SorterSet,
    width: u32,
    height: u32,
    border: usize,
    side: usize,
    x_offset: usize,
    buffer_width: u32,
    b: int,
)
    requires
        2 * border <= height,
        side <= width,
        0 <= b < frame.len(),
        !border_bands(width, height, border, side, x_offset, buffer_width).contains(b / 4),
    ensures
        sorters_frame(frame, s, width, height, border, side, x_offset, buffer_width)[b] == frame[b],
{
    let middle = (height - 2 * border) as usize;
    let bottom_y = (height - border) as usize;
    let right_x = (width - side) as usize;
    let f1 = slot_frame(frame, s.top, 0, 0, width as usize, border, true, x_offset, buffer_width, false, true);
    let f2 = slot_frame(f1, s.bottom, 0, bottom_y, width as usize, border, true, x_offset, buffer_width, false, false);
    let f3 = slot_frame(f2, s.left, 0, border, side, middle, false, x_offset, buffer_width, true, false);
    lemma_slot_frame_outside(frame, s.top, 0, 0, width as usize, border, true, x_offset, buffer_width, false, true, b);
    lemma_slot_frame_outside(f1, s.bottom, 0, bottom_y, width as usize, border, true, x_offset, buffer_width, false, false, b);
    lemma_slot_frame_outside(f2, s.left, 0, border, side, middle, false, x_offset, buffer_width, true, false, b);
    lemma_slot_frame_outside(f3, s.right, right_x, border, side, middle, false, x_offset, buffer_width, false, false, b);
}

/// Advances and draws the four border animations: the top one in a band `border` rows
/// deep along the top edge, its bars hanging down; the bottom one in the same band along
/// the bottom edge; the left and right ones in bands `side` columns wide between them,
/// their bars growing inwards from the window's edges.
pub fn draw_sorter_visualizations(
    sorters: &mut SorterSet,
    stats: &mut AlgorithmStats,
    frame: &mut [u8],
    width: u32,
    height: u32,
    border: usize,
    side: usize,
    restart_tick: bool,
    x_offset: usize,
    buffer_width: u32,
)
    requires
        2 * border <= height,
        side <= width,
        sorters_ready(*old(sorters), old(stats)@, width, height, border, side, x_offset, buffer_width),
    ensures
        slot_ticked(old(sorters).top, final(sorters).top, restart_tick),
        slot_ticked(old(sorters).bottom, final(sorters).bottom, restart_tick),
        slot_ticked(old(sorters).left, final(sorters).left, restart_tick),
        slot_ticked(old(sorters).right, final(sorters).right, restart_tick),
        final(stats)@ == slot_stats(stats_before_right(old(stats)@, *old(sorters)), old(sorters).right),
        final(frame)@ == sorters_frame(old(frame)@, *final(sorters), width, height, border, side, x_offset, buffer_width),
{
    let full_width = width as usize;
    let bottom_y = height as usize - border;
    let middle = height as usize - border * 2;
    let right_x = full_width - side;
    update_and_draw_sorter(&mut sorters.top, stats, frame, 0, 0, full_width, border, true, restart_tick, x_offset, buffer_width, false, true);
    update_and_draw_sorter(&mut sorters.bottom, stats, frame, 0, bottom_y, full_width, border, true, restart_tick, x_offset, buffer_width, false, false);
    update_and_draw_sorter(&mut sorters.left, stats, frame, 0, border, side, middle, false, restart_tick, x_offset, buffer_width, true, false);
    update_and_draw_sorter(&mut sorters.right, stats, frame, right_x, border, side, middle, false, restart_tick, x_offset, buffer_width, false, false);
}

/// Whether a drawing area fits the bar arithmetic for an animation of `len` entries.
fn area_fits_check(
    len: usize,
    x: usize,
    y: usize,
    width: usize,
    height: usize,
    horizontal: bool,
    x_offset: usize,
    buffer_width: u32,
) -> (ok: bool)
    ensures
        ok == area_fits(len as int, x, y, width, height, horizontal, x_offset, buffer_width),
{
    let depth = if horizontal { height } else { width };
    if len == 0 || depth > MAX_EXACT_BAR_SCALE {
        return false;
    }
    if x > usize::MAX - width || y > usize::MAX - height {
        return false;
    }
    if width == 0 || height == 0 {
        return true;
    }
    let last_row = (y + height - 1) as u128;
    let last_col = (x + width - 1) as u128;
    assert(last_row * buffer_width <= 0xffff_ffff_ffff_ffff * 0xffff_ffff) by (nonlinear_arith)
        requires
            last_row <= 0xffff_ffff_ffff_ffff,
            buffer_width <= 0xffff_ffff,
    ;
    let last = 4 * (last_row * buffer_width as u128 + last_col + x_offset as u128) + 3;
    last <= usize::MAX as u128
}

/// Completing an update adds at most one to one completion count.
proof fn lemma_slot_stats_step(stats: Map<SortAlgorithm, u32>, slot: Option<SortVisualizer>, a: SortAlgorithm)
    requires
        slot matches Some(s) ==> stats[s.algorithm] < u32::MAX,
    ensures
        stats[a] <= slot_stats(stats, slot)[a] <= stats[a] + 1,
{
}

/// An update that can run against `stats` can run against counts that are equal or a
/// little higher, as long as its own count stays below the limit.
proof fn lemma_can_update_later(s: SortVisualizer, stats: Map<SortAlgorithm, u32>, later: Map<SortAlgorithm, u32>)
    requires
        s.can_update(stats),
        later[s.algorithm] < u32::MAX,
    ensures
        s.can_update(later),
{
}

/// The checks that a band passes before the animations are drawn: the animation in
/// `slot`, if any, passes `update_checked`, its completion count has room for four more,
/// and the band fits the bar arithmetic for its array.
pub open spec fn slot_checked(
    slot: Option<SortVisualizer>,
    stats: Map<SortAlgorithm, u32>,
    x: usize,
    y: usize,
    width: usize,
    height: usize,
    horizontal: bool,
    x_offset: usize,
    buffer_width: u32,
) -> bool {
    slot matches Some(s) ==> {
        &&& update_checked(s, stats)
        &&& stats[s.algorithm] + 4 <= u32::MAX
        &&& area_fits(s.array@.len() as int, x, y, width, height, horizontal, x_offset, buffer_width)
    }
}

/// The checks of `sorters_can_run`: the two border bands fit the height, the side bands
/// fit the width, and each of the four bands passes `slot_checked` against the counts
/// as they stand before drawing.
pub open spec fn sorters_checked(
    s: SorterSet,
    stats: Map<SortAlgorithm, u32>,
    width: u32,
    height: u32,
    border: usize,
    side: usize,
    x_offset: usize,
    buffer_width: u32,
) -> bool {
    let middle = (height - 2 * border) as usize;
    &&& 2 * border <= height
    &&& side <= width
    &&& slot_checked(s.top, stats, 0, 0, width as usize, border, true, x_offset, buffer_width)
    &&& slot_checked(s.bottom, stats, 0, (height - border) as usize, width as usize, border, true, x_offset, buffer_width)
    &&& slot_checked(s.left, stats, 0, border, side, middle, false, x_offset, buffer_width)
    &&& slot_checked(s.right, stats, (width - side) as usize, border, side, middle, false, x_offset, buffer_width)
}

/// The animation in `slot`, if any, passes the update check with room for three more
/// completions of its algorithm, and its band fits the bar arithmetic.
fn slot_check(
    slot: &Option<SortVisualizer>,
    stats: &AlgorithmStats,
    x: usize,
    y: usize,
    width: usize,
    height: usize,
    horizontal: bool,
    x_offset: usize,
    buffer_width: u32,
) -> (ok: bool)
    ensures
        ok == slot_checked(*slot, stats@, x, y, width, height, horizontal, x_offset, buffer_width),
        ok ==> (*slot matches Some(s) ==> {
            &&& s.can_update(stats@)
            &&& stats@[s.algorithm] + 4 <= u32::MAX
            &&& area_fits(s.array@.len() as int, x, y, width, height, horizontal, x_offset, buffer_width)
        }),
{
    match slot {
        None => true,
        Some(s) => s.update_fits(stats) && stats.count(s.algorithm) <= u32::MAX - 4 && area_fits_check(
            s.array.len(),
            x,
            y,
            width,
            height,
            horizontal,
            x_offset,
            buffer_width,
        ),
    }
}

/// Whether `draw_sorter_visualizations` may run with these arguments. A `true` answer
/// guarantees it; a `false` one comes when a band does not fit the window or the bar
/// arithmetic, when an animation's update is not checked safe, or when a completion
/// count is within four of its limit.
pub fn sorters_can_run(
    sorters: &SorterSet,
    stats: &AlgorithmStats,
    width: u32,
    height: u32,
    border: usize,
    side: usize,
    x_offset: usize,
    buffer_width: u32,
) -> (ok: bool)
    ensures
        ok == sorters_checked(*sorters, stats@, width, height, border, side, x_offset, buffer_width),
        ok ==> {
            &&& 2 * border <= height
            &&& side <= width
            &&& sorters_ready(*sorters, stats@, width, height, border, side, x_offset, buffer_width)
        },
{
    let h = height as usize;
    let full_width = width as usize;
    if border > h || border > h - border || side > full_width {
        return false;
    }
    let bottom_y = h - border;
    let middle = h - border * 2;
    let right_x = full_width - side;
    let ok = slot_check(&sorters.top, stats, 0, 0, full_width, border, true, x_offset, buffer_width)
        && slot_check(&sorters.bottom, stats, 0, bottom_y, full_width, border, true, x_offset, buffer_width)
        && slot_check(&sorters.left, stats, 0, border, side, middle, false, x_offset, buffer_width)
        && slot_check(&sorters.right, stats, right_x, border, side, middle, false, x_offset, buffer_width);
    proof {
        if ok {
            let st = stats@;
            let s = *sorters;
            let s1 = slot_stats(st, s.top);
            let s2 = slot_stats(s1, s.bottom);
            let s3 = slot_stats(s2, s.left);
            if let Some(b) = s.bottom {
                lemma_slot_stats_step(st, s.top, b.algorithm);
                lemma_can_update_later(b, st, s1);
            }
            if let Some(l) = s.left {
                lemma_slot_stats_step(st, s.top, l.algorithm);
                lemma_slot_stats_step(s1, s.bottom, l.algorithm);
                lemma_can_update_later(l, st, s2);
            }
            if let Some(r) = s.right {
                lemma_slot_stats_step(st, s.top, r.algorithm);
                lemma_slot_stats_step(s1, s.bottom, r.algorithm);
                lemma_slot_stats_step(s2, s.left, r.algorithm);
                lemma_can_update_later(r, st, s3);
            }
        }
    }
    ok
}

} // verus!
