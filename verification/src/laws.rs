use vstd::prelude::*;
use crate::algorithm_stats::SortAlgorithm;
use crate::frame_ops::filled;
use crate::leaderboard::{decimal, digit_char, glyph_frame};
use crate::pixel_utils::huge_text_pixels;
use crate::simple_font::simple_char_pixels;
use crate::menu::{menu_after_keys, option_name, option_side, title_of, ActiveSide, MenuKeys, MenuView, MENU_LEN};
use crate::controls::{after_keys, first_digit_from, AppKeys, AppStateView};
use crate::ordering_facts::is_sorted;
use crate::pixels::{lemma_painted_twice, painted};
use crate::sorter::{sorter_invariant, SortState, SorterView};
use crate::sorter_drawing::state_color;
use crate::rendering::{character_pixels, segments_of, seven_segment_pixels};
use crate::stats_font::{ascii_upper, stats_glyph_rows, stats_pattern};
use crate::world_lines::{next_mode, target_after_add, target_after_remove, VisualMode, LINE_CEILING, LINE_FLOOR};

verus! {

/// An animation that reached its finished state from a fresh start holds its values in
/// ascending order.
pub proof fn lemma_completed_is_sorted(v: SorterView, algorithm: SortAlgorithm)
    requires
        sorter_invariant(v, algorithm),
        v.state == SortState::Completed,
    ensures
        is_sorted(v.array),
{
}

/// Painting a region a second time in the same colour changes nothing.
pub proof fn lemma_paint_idempotent(frame: Seq<u8>, region: Set<int>, color: Seq<u8>)
    ensures
        painted(painted(frame, region, color), region, color) == painted(frame, region, color),
{
    lemma_painted_twice(frame, region, region, color);
    assert(region.union(region) =~= region);
}

/// Filling a frame a second time with the same colour changes nothing.
pub proof fn lemma_fill_idempotent(frame: Seq<u8>, rgba: Seq<u8>)
    ensures
        filled(filled(frame, rgba), rgba) == filled(frame, rgba),
{
    assert(filled(filled(frame, rgba), rgba) =~= filled(frame, rgba));
}

/// Only the arrow key down.
pub open spec fn down_key() -> MenuKeys {
    MenuKeys { escape: false, arrow_up: false, arrow_down: true, enter: false, space: false }
}

/// Only the arrow key up.
pub open spec fn up_key() -> MenuKeys {
    MenuKeys { escape: false, arrow_up: true, arrow_down: false, enter: false, space: false }
}

/// In an open menu, moving the highlight down and then up comes back to the same entry,
/// and so does moving it up and then down; the menu stays open and nothing is chosen.
pub proof fn lemma_menu_down_up(v: MenuView)
    requires
        v.visible,
        0 <= v.active_index < MENU_LEN,
    ensures
        menu_after_keys(menu_after_keys(v, down_key()), up_key()) == v,
        menu_after_keys(menu_after_keys(v, up_key()), down_key()) == v,
{
}

/// Every entry of an open menu is reached by moving the highlight down often enough,
/// and `MENU_LEN` moves come back to the start.
pub proof fn lemma_menu_cycles(v: MenuView)
    requires
        v.visible,
        0 <= v.active_index < MENU_LEN,
    ensures
        menu_after_keys(v, down_key()).active_index == (v.active_index + 1) % (MENU_LEN as int),
        0 <= menu_after_keys(v, down_key()).active_index < MENU_LEN,
{
}

/// The value of a numeral written in decimal digits.
pub open spec fn numeral_value(s: Seq<char>) -> int
    decreases s.len(),
{
    if s.len() == 0 {
        0
    } else {
        10 * numeral_value(s.drop_last()) + (s.last() as int - 48)
    }
}

/// Reading back the decimal numeral of `n` gives `n`.
pub proof fn lemma_decimal_roundtrip(n: nat)
    ensures
        numeral_value(decimal(n)) == n,
        forall|i: int| 0 <= i < decimal(n).len() ==> '0' <= #[trigger] decimal(n)[i] <= '9',
    decreases n,
{
    if n >= 10 {
        lemma_decimal_roundtrip(n / 10);
        let d = decimal(n);
        assert(d.drop_last() =~= decimal(n / 10));
        assert(digit_char((n % 10) as int) as int == 48 + n % 10);
        assert(d.last() == digit_char((n % 10) as int));
        assert(numeral_value(d) == 10 * numeral_value(d.drop_last()) + (d.last() as int - 48));
        assert(10 * (n / 10) + n % 10 == n);
        assert forall|i: int| 0 <= i < d.len() implies '0' <= #[trigger] d[i] <= '9' by {
            if i < d.len() - 1 {
                assert(d[i] == decimal(n / 10)[i]);
            }
        }
    } else {
        assert(digit_char(n as int) as int == 48 + n);
        assert(decimal(n).drop_last() =~= Seq::<char>::empty());
        assert(numeral_value(Seq::<char>::empty()) == 0);
        assert(numeral_value(decimal(n)) == 10 * numeral_value(decimal(n).drop_last()) + (decimal(n).last() as int - 48));
    }
}

/// Upper-casing twice is upper-casing once.
pub proof fn lemma_ascii_upper_idempotent(c: char)
    ensures
        ascii_upper(ascii_upper(c)) == ascii_upper(c),
{
}

/// A character is drawn in the fallback font with the glyph of its upper-case form, so
/// a lower-case letter and its capital light the same pixels.
pub proof fn lemma_simple_char_case(c: char, x: int, y: int, width: u32, height: u32)
    ensures
        simple_char_pixels(c, x, y, width, height) == simple_char_pixels(ascii_upper(c), x, y, width, height),
{
    lemma_ascii_upper_idempotent(c);
}

/// A character is drawn in the leaderboard font with the glyph of its upper-case form,
/// so a lower-case letter and its capital leave the same frame.
pub proof fn lemma_stats_char_case(
    f: Seq<u8>,
    c: char,
    x: int,
    y: int,
    cw: int,
    len: int,
    fw: u32,
    xo: int,
    bw: u32,
    color: Seq<u8>,
)
    ensures
        glyph_frame(f, c, x, y, cw, len, fw, xo, bw, color) == glyph_frame(f, ascii_upper(c), x, y, cw, len, fw, xo, bw, color),
{
    lemma_ascii_upper_idempotent(c);
}

/// The huge text draws the same hollow box for every character, so two texts of the
/// same length leave the same frame.
pub proof fn lemma_huge_text_same_boxes(
    f: Seq<u8>,
    a: Seq<char>,
    b: Seq<char>,
    x: int,
    y: int,
    width: u32,
    rows: u32,
    color: Seq<u8>,
)
    requires
        a.len() == b.len(),
    ensures
        painted(f, huge_text_pixels(x, y, a.len(), width, rows), color) == painted(
            f,
            huge_text_pixels(x, y, b.len(), width, rows),
            color,
        ),
{
}

/// Switching the visual mode goes through all four modes and is back after four
/// switches.
pub proof fn lemma_mode_cycle(m: VisualMode)
    ensures
        next_mode(m) != m,
        next_mode(next_mode(m)) != m,
        next_mode(next_mode(next_mode(m))) != m,
        next_mode(next_mode(next_mode(next_mode(m)))) == m,
{
}

/// Asking for `count` fewer lines right after asking for `count` more gives back the
/// line count asked for before, as long as neither request reached a limit.
pub proof fn lemma_line_target_roundtrip(target: int, count: int)
    requires
        0 <= count,
        LINE_FLOOR <= target,
        target + count < LINE_CEILING,
    ensures
        target_after_remove(target_after_add(target, count), count) == target,
{
}

/// The bars of an animation show its state by their hue: a running animation's colour is
/// strongest in blue, a completed one's in green and a restarting one's in red, all
/// opaque; so no two states are drawn in the same colour.
pub proof fn lemma_state_colors(state: SortState, other: SortState)
    ensures
        state_color(state).len() == 4,
        state_color(state)[3] == 255,
        state == SortState::Running ==> state_color(state)[2] > state_color(state)[0] && state_color(state)[2]
            > state_color(state)[1],
        state == SortState::Completed ==> state_color(state)[1] > state_color(state)[0] && state_color(state)[1]
            > state_color(state)[2],
        state == SortState::Restarting ==> state_color(state)[0] > state_color(state)[1] && state_color(state)[0]
            > state_color(state)[2],
        state != other ==> state_color(state) != state_color(other),
{
    if state != other {
        if state_color(state) == state_color(other) {
            assert(state_color(state)[0] == state_color(other)[0]);
            assert(state_color(state)[1] == state_color(other)[1]);
            assert(state_color(state)[2] == state_color(other)[2]);
        }
    }
}

/// Whether `c` is one of the decimal digits.
pub open spec fn is_digit(c: char) -> bool {
    '0' <= c <= '9'
}

/// The seven-segment font draws every digit with segments, and no two different digits
/// light the same segments, so in any cell two different digits are drawn as the same
/// lit blocks only where those blocks are clipped away.
pub proof fn lemma_seven_segment_digits_differ(c1: char, c2: char)
    requires
        is_digit(c1),
        is_digit(c2),
        c1 != c2,
    ensures
        segments_of(c1) is Some,
        segments_of(c2) is Some,
        segments_of(c1)->0.len() == 7,
        segments_of(c1)->0 != segments_of(c2)->0,
        forall|x: int, y: int, t: int, cw: int, ch: int, width: u32, height: u32|
            #[trigger] character_pixels(c1, x, y, t, cw, ch, width, height) == seven_segment_pixels(
                x,
                y,
                segments_of(c1)->0,
                t,
                cw,
                ch,
                width,
                height,
            ),
{
    let s1 = segments_of(c1)->0;
    let s2 = segments_of(c2)->0;
    if c1 == '0' && c2 == '1' {
        assert(s1[0] != s2[0]);
    } else if c1 == '0' && c2 == '2' {
        assert(s1[2] != s2[2]);
    } else if c1 == '0' && c2 == '3' {
        assert(s1[3] != s2[3]);
    } else if c1 == '0' && c2 == '4' {
        assert(s1[0] != s2[0]);
    } else if c1 == '0' && c2 == '5' {
        assert(s1[3] != s2[3]);
    } else if c1 == '0' && c2 == '6' {
        assert(s1[3] != s2[3]);
    } else if c1 == '0' && c2 == '7' {
        assert(s1[1] != s2[1]);
    } else if c1 == '0' && c2 == '8' {
        assert(s1[3] != s2[3]);
    } else if c1 == '0' && c2 == '9' {
        assert(s1[3] != s2[3]);
    } else if c1 == '1' && c2 == '0' {
        assert(s1[0] != s2[0]);
    } else if c1 == '1' && c2 == '2' {
        assert(s1[0] != s2[0]);
    } else if c1 == '1' && c2 == '3' {
        assert(s1[0] != s2[0]);
    } else if c1 == '1' && c2 == '4' {
        assert(s1[3] != s2[3]);
    } else if c1 == '1' && c2 == '5' {
        assert(s1[0] != s2[0]);
    } else if c1 == '1' && c2 == '6' {
        assert(s1[0] != s2[0]);
    } else if c1 == '1' && c2 == '7' {
        assert(s1[0] != s2[0]);
    } else if c1 == '1' && c2 == '8' {
        assert(s1[0] != s2[0]);
    } else if c1 == '1' && c2 == '9' {
        assert(s1[0] != s2[0]);
    } else if c1 == '2' && c2 == '0' {
        assert(s1[2] != s2[2]);
    } else if c1 == '2' && c2 == '1' {
        assert(s1[0] != s2[0]);
    } else if c1 == '2' && c2 == '3' {
        assert(s1[2] != s2[2]);
    } else if c1 == '2' && c2 == '4' {
        assert(s1[0] != s2[0]);
    } else if c1 == '2' && c2 == '5' {
        assert(s1[2] != s2[2]);
    } else if c1 == '2' && c2 == '6' {
        assert(s1[2] != s2[2]);
    } else if c1 == '2' && c2 == '7' {
        assert(s1[1] != s2[1]);
    } else if c1 == '2' && c2 == '8' {
        assert(s1[2] != s2[2]);
    } else if c1 == '2' && c2 == '9' {
        assert(s1[2] != s2[2]);
    } else if c1 == '3' && c2 == '0' {
        assert(s1[3] != s2[3]);
    } else if c1 == '3' && c2 == '1' {
        assert(s1[0] != s2[0]);
    } else if c1 == '3' && c2 == '2' {
        assert(s1[2] != s2[2]);
    } else if c1 == '3' && c2 == '4' {
        assert(s1[0] != s2[0]);
    } else if c1 == '3' && c2 == '5' {
        assert(s1[5] != s2[5]);
    } else if c1 == '3' && c2 == '6' {
        assert(s1[4] != s2[4]);
    } else if c1 == '3' && c2 == '7' {
        assert(s1[1] != s2[1]);
    } else if c1 == '3' && c2 == '8' {
        assert(s1[4] != s2[4]);
    } else if c1 == '3' && c2 == '9' {
        assert(s1[5] != s2[5]);
    } else if c1 == '4' && c2 == '0' {
        assert(s1[0] != s2[0]);
    } else if c1 == '4' && c2 == '1' {
        assert(s1[3] != s2[3]);
    } else if c1 == '4' && c2 == '2' {
        assert(s1[0] != s2[0]);
    } else if c1 == '4' && c2 == '3' {
        assert(s1[0] != s2[0]);
    } else if c1 == '4' && c2 == '5' {
        assert(s1[0] != s2[0]);
    } else if c1 == '4' && c2 == '6' {
        assert(s1[0] != s2[0]);
    } else if c1 == '4' && c2 == '7' {
        assert(s1[0] != s2[0]);
    } else if c1 == '4' && c2 == '8' {
        assert(s1[0] != s2[0]);
    } else if c1 == '4' && c2 == '9' {
        assert(s1[0] != s2[0]);
    } else if c1 == '5' && c2 == '0' {
        assert(s1[3] != s2[3]);
    } else if c1 == '5' && c2 == '1' {
        assert(s1[0] != s2[0]);
    } else if c1 == '5' && c2 == '2' {
        assert(s1[2] != s2[2]);
    } else if c1 == '5' && c2 == '3' {
        assert(s1[5] != s2[5]);
    } else if c1 == '5' && c2 == '4' {
        assert(s1[0] != s2[0]);
    } else if c1 == '5' && c2 == '6' {
        assert(s1[4] != s2[4]);
    } else if c1 == '5' && c2 == '7' {
        assert(s1[1] != s2[1]);
    } else if c1 == '5' && c2 == '8' {
        assert(s1[4] != s2[4]);
    } else if c1 == '5' && c2 == '9' {
        assert(s1[6] != s2[6]);
    } else if c1 == '6' && c2 == '0' {
        assert(s1[3] != s2[3]);
    } else if c1 == '6' && c2 == '1' {
        assert(s1[0] != s2[0]);
    } else if c1 == '6' && c2 == '2' {
        assert(s1[2] != s2[2]);
    } else if c1 == '6' && c2 == '3' {
        assert(s1[4] != s2[4]);
    } else if c1 == '6' && c2 == '4' {
        assert(s1[0] != s2[0]);
    } else if c1 == '6' && c2 == '5' {
        assert(s1[4] != s2[4]);
    } else if c1 == '6' && c2 == '7' {
        assert(s1[1] != s2[1]);
    } else if c1 == '6' && c2 == '8' {
        assert(s1[6] != s2[6]);
    } else if c1 == '6' && c2 == '9' {
        assert(s1[4] != s2[4]);
    } else if c1 == '7' && c2 == '0' {
        assert(s1[1] != s2[1]);
    } else if c1 == '7' && c2 == '1' {
        assert(s1[0] != s2[0]);
    } else if c1 == '7' && c2 == '2' {
        assert(s1[1] != s2[1]);
    } else if c1 == '7' && c2 == '3' {
        assert(s1[1] != s2[1]);
    } else if c1 == '7' && c2 == '4' {
        assert(s1[0] != s2[0]);
    } else if c1 == '7' && c2 == '5' {
        assert(s1[1] != s2[1]);
    } else if c1 == '7' && c2 == '6' {
        assert(s1[1] != s2[1]);
    } else if c1 == '7' && c2 == '8' {
        assert(s1[1] != s2[1]);
    } else if c1 == '7' && c2 == '9' {
        assert(s1[1] != s2[1]);
    } else if c1 == '8' && c2 == '0' {
        assert(s1[3] != s2[3]);
    } else if c1 == '8' && c2 == '1' {
        assert(s1[0] != s2[0]);
    } else if c1 == '8' && c2 == '2' {
        assert(s1[2] != s2[2]);
    } else if c1 == '8' && c2 == '3' {
        assert(s1[4] != s2[4]);
    } else if c1 == '8' && c2 == '4' {
        assert(s1[0] != s2[0]);
    } else if c1 == '8' && c2 == '5' {
        assert(s1[4] != s2[4]);
    } else if c1 == '8' && c2 == '6' {
        assert(s1[6] != s2[6]);
    } else if c1 == '8' && c2 == '7' {
        assert(s1[1] != s2[1]);
    } else if c1 == '8' && c2 == '9' {
        assert(s1[4] != s2[4]);
    } else if c1 == '9' && c2 == '0' {
        assert(s1[3] != s2[3]);
    } else if c1 == '9' && c2 == '1' {
        assert(s1[0] != s2[0]);
    } else if c1 == '9' && c2 == '2' {
        assert(s1[2] != s2[2]);
    } else if c1 == '9' && c2 == '3' {
        assert(s1[5] != s2[5]);
    } else if c1 == '9' && c2 == '4' {
        assert(s1[0] != s2[0]);
    } else if c1 == '9' && c2 == '5' {
        assert(s1[6] != s2[6]);
    } else if c1 == '9' && c2 == '6' {
        assert(s1[4] != s2[4]);
    } else if c1 == '9' && c2 == '7' {
        assert(s1[1] != s2[1]);
    } else if c1 == '9' && c2 == '8' {
        assert(s1[4] != s2[4]);
    }
}

/// Two different bytes differ in at least one of their eight bits.
proof fn lemma_bytes_differ_in_a_bit(a: u8, b: u8)
    by (bit_vector)
    requires
        a != b,
    ensures
        (a >> 0u8) & 1u8 != (b >> 0u8) & 1u8 || (a >> 1u8) & 1u8 != (b >> 1u8) & 1u8 || (a >> 2u8) & 1u8 != (b
            >> 2u8) & 1u8 || (a >> 3u8) & 1u8 != (b >> 3u8) & 1u8 || (a >> 4u8) & 1u8 != (b >> 4u8) & 1u8 || (a
            >> 5u8) & 1u8 != (b >> 5u8) & 1u8 || (a >> 6u8) & 1u8 != (b >> 6u8) & 1u8 || (a >> 7u8) & 1u8 != (b
            >> 7u8) & 1u8,
{
}

/// Cell `8 * r + c` of a glyph pattern lies in row `r`, column `c`.
proof fn lemma_cell_of(r: int, c: int)
    by (nonlinear_arith)
    requires
        0 <= r,
        0 <= c < 8,
    ensures
        (8 * r + c) / 8 == r,
        (8 * r + c) % 8 == c,
{
}

/// Glyphs whose rows differ somewhere have different cell patterns.
proof fn lemma_rows_differ_patterns_differ(c1: char, c2: char, r: int)
    requires
        0 <= r < 12,
        stats_glyph_rows(c1)[r] != stats_glyph_rows(c2)[r],
    ensures
        stats_pattern(c1) != stats_pattern(c2),
{
    let a = stats_glyph_rows(c1)[r];
    let b = stats_glyph_rows(c2)[r];
    lemma_bytes_differ_in_a_bit(a, b);
    let p1 = stats_pattern(c1);
    let p2 = stats_pattern(c2);
    if (a >> 0u8) & 1u8 != (b >> 0u8) & 1u8 {
        lemma_cell_of(r, 7);
        assert(p1[8 * r + 7] != p2[8 * r + 7]);
    } else if (a >> 1u8) & 1u8 != (b >> 1u8) & 1u8 {
        lemma_cell_of(r, 6);
        assert(p1[8 * r + 6] != p2[8 * r + 6]);
    } else if (a >> 2u8) & 1u8 != (b >> 2u8) & 1u8 {
        lemma_cell_of(r, 5);
        assert(p1[8 * r + 5] != p2[8 * r + 5]);
    } else if (a >> 3u8) & 1u8 != (b >> 3u8) & 1u8 {
        lemma_cell_of(r, 4);
        assert(p1[8 * r + 4] != p2[8 * r + 4]);
    } else if (a >> 4u8) & 1u8 != (b >> 4u8) & 1u8 {
        lemma_cell_of(r, 3);
        assert(p1[8 * r + 3] != p2[8 * r + 3]);
    } else if (a >> 5u8) & 1u8 != (b >> 5u8) & 1u8 {
        lemma_cell_of(r, 2);
        assert(p1[8 * r + 2] != p2[8 * r + 2]);
    } else if (a >> 6u8) & 1u8 != (b >> 6u8) & 1u8 {
        lemma_cell_of(r, 1);
        assert(p1[8 * r + 1] != p2[8 * r + 1]);
    } else {
        lemma_cell_of(r, 0);
        assert(p1[8 * r] != p2[8 * r]);
    }
}

/// The leaderboard font draws every digit as itself, and no two different digits with
/// the same cells, so a count is never drawn as another number.
pub proof fn lemma_stats_digits_differ(c1: char, c2: char)
    requires
        is_digit(c1),
        is_digit(c2),
        c1 != c2,
    ensures
        ascii_upper(c1) == c1,
        stats_pattern(ascii_upper(c1)) != stats_pattern(ascii_upper(c2)),
{
    if c1 == '0' && c2 == '1' {
        lemma_rows_differ_patterns_differ(c1, c2, 0);
    } else if c1 == '0' && c2 == '2' {
        lemma_rows_differ_patterns_differ(c1, c2, 1);
    } else if c1 == '0' && c2 == '3' {
        lemma_rows_differ_patterns_differ(c1, c2, 1);
    } else if c1 == '0' && c2 == '4' {
        lemma_rows_differ_patterns_differ(c1, c2, 0);
    } else if c1 == '0' && c2 == '5' {
        lemma_rows_differ_patterns_differ(c1, c2, 0);
    } else if c1 == '0' && c2 == '6' {
        lemma_rows_differ_patterns_differ(c1, c2, 0);
    } else if c1 == '0' && c2 == '7' {
        lemma_rows_differ_patterns_differ(c1, c2, 0);
    } else if c1 == '0' && c2 == '8' {
        lemma_rows_differ_patterns_differ(c1, c2, 1);
    } else if c1 == '0' && c2 == '9' {
        lemma_rows_differ_patterns_differ(c1, c2, 1);
    } else if c1 == '1' && c2 == '0' {
        lemma_rows_differ_patterns_differ(c1, c2, 0);
    } else if c1 == '1' && c2 == '2' {
        lemma_rows_differ_patterns_differ(c1, c2, 0);
    } else if c1 == '1' && c2 == '3' {
        lemma_rows_differ_patterns_differ(c1, c2, 0);
    } else if c1 == '1' && c2 == '4' {
        lemma_rows_differ_patterns_differ(c1, c2, 0);
    } else if c1 == '1' && c2 == '5' {
        lemma_rows_differ_patterns_differ(c1, c2, 0);
    } else if c1 == '1' && c2 == '6' {
        lemma_rows_differ_patterns_differ(c1, c2, 0);
    } else if c1 == '1' && c2 == '7' {
        lemma_rows_differ_patterns_differ(c1, c2, 0);
    } else if c1 == '1' && c2 == '8' {
        lemma_rows_differ_patterns_differ(c1, c2, 0);
    } else if c1 == '1' && c2 == '9' {
        lemma_rows_differ_patterns_differ(c1, c2, 0);
    } else if c1 == '2' && c2 == '0' {
        lemma_rows_differ_patterns_differ(c1, c2, 1);
    } else if c1 == '2' && c2 == '1' {
        lemma_rows_differ_patterns_differ(c1, c2, 0);
    } else if c1 == '2' && c2 == '3' {
        lemma_rows_differ_patterns_differ(c1, c2, 2);
    } else if c1 == '2' && c2 == '4' {
        lemma_rows_differ_patterns_differ(c1, c2, 0);
    } else if c1 == '2' && c2 == '5' {
        lemma_rows_differ_patterns_differ(c1, c2, 0);
    } else if c1 == '2' && c2 == '6' {
        lemma_rows_differ_patterns_differ(c1, c2, 0);
    } else if c1 == '2' && c2 == '7' {
        lemma_rows_differ_patterns_differ(c1, c2, 0);
    } else if c1 == '2' && c2 == '8' {
        lemma_rows_differ_patterns_differ(c1, c2, 3);
    } else if c1 == '2' && c2 == '9' {
        lemma_rows_differ_patterns_differ(c1, c2, 1);
    } else if c1 == '3' && c2 == '0' {
        lemma_rows_differ_patterns_differ(c1, c2, 1);
    } else if c1 == '3' && c2 == '1' {
        lemma_rows_differ_patterns_differ(c1, c2, 0);
    } else if c1 == '3' && c2 == '2' {
        lemma_rows_differ_patterns_differ(c1, c2, 2);
    } else if c1 == '3' && c2 == '4' {
        lemma_rows_differ_patterns_differ(c1, c2, 0);
    } else if c1 == '3' && c2 == '5' {
        lemma_rows_differ_patterns_differ(c1, c2, 0);
    } else if c1 == '3' && c2 == '6' {
        lemma_rows_differ_patterns_differ(c1, c2, 0);
    } else if c1 == '3' && c2 == '7' {
        lemma_rows_differ_patterns_differ(c1, c2, 0);
    } else if c1 == '3' && c2 == '8' {
        lemma_rows_differ_patterns_differ(c1, c2, 2);
    } else if c1 == '3' && c2 == '9' {
        lemma_rows_differ_patterns_differ(c1, c2, 1);
    } else if c1 == '4' && c2 == '0' {
        lemma_rows_differ_patterns_differ(c1, c2, 0);
    } else if c1 == '4' && c2 == '1' {
        lemma_rows_differ_patterns_differ(c1, c2, 0);
    } else if c1 == '4' && c2 == '2' {
        lemma_rows_differ_patterns_differ(c1, c2, 0);
    } else if c1 == '4' && c2 == '3' {
        lemma_rows_differ_patterns_differ(c1, c2, 0);
    } else if c1 == '4' && c2 == '5' {
        lemma_rows_differ_patterns_differ(c1, c2, 0);
    } else if c1 == '4' && c2 == '6' {
        lemma_rows_differ_patterns_differ(c1, c2, 0);
    } else if c1 == '4' && c2 == '7' {
        lemma_rows_differ_patterns_differ(c1, c2, 0);
    } else if c1 == '4' && c2 == '8' {
        lemma_rows_differ_patterns_differ(c1, c2, 0);
    } else if c1 == '4' && c2 == '9' {
        lemma_rows_differ_patterns_differ(c1, c2, 0);
    } else if c1 == '5' && c2 == '0' {
        lemma_rows_differ_patterns_differ(c1, c2, 0);
    } else if c1 == '5' && c2 == '1' {
        lemma_rows_differ_patterns_differ(c1, c2, 0);
    } else if c1 == '5' && c2 == '2' {
        lemma_rows_differ_patterns_differ(c1, c2, 0);
    } else if c1 == '5' && c2 == '3' {
        lemma_rows_differ_patterns_differ(c1, c2, 0);
    } else if c1 == '5' && c2 == '4' {
        lemma_rows_differ_patterns_differ(c1, c2, 0);
    } else if c1 == '5' && c2 == '6' {
        lemma_rows_differ_patterns_differ(c1, c2, 0);
    } else if c1 == '5' && c2 == '7' {
        lemma_rows_differ_patterns_differ(c1, c2, 1);
    } else if c1 == '5' && c2 == '8' {
        lemma_rows_differ_patterns_differ(c1, c2, 0);
    } else if c1 == '5' && c2 == '9' {
        lemma_rows_differ_patterns_differ(c1, c2, 0);
    } else if c1 == '6' && c2 == '0' {
        lemma_rows_differ_patterns_differ(c1, c2, 0);
    } else if c1 == '6' && c2 == '1' {
        lemma_rows_differ_patterns_differ(c1, c2, 0);
    } else if c1 == '6' && c2 == '2' {
        lemma_rows_differ_patterns_differ(c1, c2, 0);
    } else if c1 == '6' && c2 == '3' {
        lemma_rows_differ_patterns_differ(c1, c2, 0);
    } else if c1 == '6' && c2 == '4' {
        lemma_rows_differ_patterns_differ(c1, c2, 0);
    } else if c1 == '6' && c2 == '5' {
        lemma_rows_differ_patterns_differ(c1, c2, 0);
    } else if c1 == '6' && c2 == '7' {
        lemma_rows_differ_patterns_differ(c1, c2, 0);
    } else if c1 == '6' && c2 == '8' {
        lemma_rows_differ_patterns_differ(c1, c2, 0);
    } else if c1 == '6' && c2 == '9' {
        lemma_rows_differ_patterns_differ(c1, c2, 0);
    } else if c1 == '7' && c2 == '0' {
        lemma_rows_differ_patterns_differ(c1, c2, 0);
    } else if c1 == '7' && c2 == '1' {
        lemma_rows_differ_patterns_differ(c1, c2, 0);
    } else if c1 == '7' && c2 == '2' {
        lemma_rows_differ_patterns_differ(c1, c2, 0);
    } else if c1 == '7' && c2 == '3' {
        lemma_rows_differ_patterns_differ(c1, c2, 0);
    } else if c1 == '7' && c2 == '4' {
        lemma_rows_differ_patterns_differ(c1, c2, 0);
    } else if c1 == '7' && c2 == '5' {
        lemma_rows_differ_patterns_differ(c1, c2, 1);
    } else if c1 == '7' && c2 == '6' {
        lemma_rows_differ_patterns_differ(c1, c2, 0);
    } else if c1 == '7' && c2 == '8' {
        lemma_rows_differ_patterns_differ(c1, c2, 0);
    } else if c1 == '7' && c2 == '9' {
        lemma_rows_differ_patterns_differ(c1, c2, 0);
    } else if c1 == '8' && c2 == '0' {
        lemma_rows_differ_patterns_differ(c1, c2, 1);
    } else if c1 == '8' && c2 == '1' {
        lemma_rows_differ_patterns_differ(c1, c2, 0);
    } else if c1 == '8' && c2 == '2' {
        lemma_rows_differ_patterns_differ(c1, c2, 3);
    } else if c1 == '8' && c2 == '3' {
        lemma_rows_differ_patterns_differ(c1, c2, 2);
    } else if c1 == '8' && c2 == '4' {
        lemma_rows_differ_patterns_differ(c1, c2, 0);
    } else if c1 == '8' && c2 == '5' {
        lemma_rows_differ_patterns_differ(c1, c2, 0);
    } else if c1 == '8' && c2 == '6' {
        lemma_rows_differ_patterns_differ(c1, c2, 0);
    } else if c1 == '8' && c2 == '7' {
        lemma_rows_differ_patterns_differ(c1, c2, 0);
    } else if c1 == '8' && c2 == '9' {
        lemma_rows_differ_patterns_differ(c1, c2, 1);
    } else if c1 == '9' && c2 == '0' {
        lemma_rows_differ_patterns_differ(c1, c2, 1);
    } else if c1 == '9' && c2 == '1' {
        lemma_rows_differ_patterns_differ(c1, c2, 0);
    } else if c1 == '9' && c2 == '2' {
        lemma_rows_differ_patterns_differ(c1, c2, 1);
    } else if c1 == '9' && c2 == '3' {
        lemma_rows_differ_patterns_differ(c1, c2, 1);
    } else if c1 == '9' && c2 == '4' {
        lemma_rows_differ_patterns_differ(c1, c2, 0);
    } else if c1 == '9' && c2 == '5' {
        lemma_rows_differ_patterns_differ(c1, c2, 0);
    } else if c1 == '9' && c2 == '6' {
        lemma_rows_differ_patterns_differ(c1, c2, 0);
    } else if c1 == '9' && c2 == '7' {
        lemma_rows_differ_patterns_differ(c1, c2, 0);
    } else if c1 == '9' && c2 == '8' {
        lemma_rows_differ_patterns_differ(c1, c2, 1);
    }
}

/// The characters of `s` before its first space.
pub open spec fn first_word(s: Seq<char>) -> Seq<char>
    decreases s.len(),
{
    if s.len() == 0 || s[0] == ' ' {
        seq![]
    } else {
        seq![s[0]] + first_word(s.drop_first())
    }
}

/// `w` occurs in `s` as a run of consecutive characters.
pub open spec fn occurs_in(w: Seq<char>, s: Seq<char>) -> bool {
    exists|k: int| 0 <= k && k + w.len() <= s.len() && #[trigger] s.subrange(k, k + w.len()) == w
}

/// `w` occurs in `s` at `k`.
proof fn lemma_occurs_at(w: Seq<char>, s: Seq<char>, k: int)
    requires
        0 <= k,
        k + w.len() <= s.len(),
        s.subrange(k, k + w.len()) == w,
    ensures
        occurs_in(w, s),
{
}

/// Menu entry 0 is named in the title of what it chooses.
proof fn lemma_entry_0_named_in_title()
    ensures
        occurs_in(first_word(option_name(0)), title_of(option_side(0))),
{
    reveal_strlit("Original Lines");
    reveal_strlit("StimStation - Original Visualization");
    reveal_with_fuel(first_word, 9);
    let name = option_name(0);
    let title = title_of(option_side(0));
    assert(first_word(name) =~= name.subrange(0, 8));
    assert(title.subrange(14, 22) =~= name.subrange(0, 8));
    lemma_occurs_at(first_word(name), title, 14);
}

/// Menu entry 1 is named in the title of what it chooses.
proof fn lemma_entry_1_named_in_title()
    ensures
        occurs_in(first_word(option_name(1)), title_of(option_side(1))),
{
    reveal_strlit("Circular");
    reveal_strlit("StimStation - Circular Visualization");
    reveal_with_fuel(first_word, 9);
    let name = option_name(1);
    let title = title_of(option_side(1));
    assert(first_word(name) =~= name.subrange(0, 8));
    assert(title.subrange(14, 22) =~= name.subrange(0, 8));
    lemma_occurs_at(first_word(name), title, 14);
}

/// Menu entry 2 is named in the title of what it chooses.
proof fn lemma_entry_2_named_in_title()
    ensures
        occurs_in(first_word(option_name(2)), title_of(option_side(2))),
{
    reveal_strlit("Ray Pattern");
    reveal_strlit("StimStation - Ray Pattern");
    reveal_with_fuel(first_word, 4);
    let name = option_name(2);
    let title = title_of(option_side(2));
    assert(first_word(name) =~= name.subrange(0, 3));
    assert(title.subrange(14, 17) =~= name.subrange(0, 3));
    lemma_occurs_at(first_word(name), title, 14);
}

/// Menu entry 3 is named in the title of what it chooses.
proof fn lemma_entry_3_named_in_title()
    ensures
        occurs_in(first_word(option_name(3)), title_of(option_side(3))),
{
    reveal_strlit("Pythagoras");
    reveal_strlit("StimStation - Pythagoras Theorem");
    reveal_with_fuel(first_word, 11);
    let name = option_name(3);
    let title = title_of(option_side(3));
    assert(first_word(name) =~= name.subrange(0, 10));
    assert(title.subrange(14, 24) =~= name.subrange(0, 10));
    lemma_occurs_at(first_word(name), title, 14);
}

/// Menu entry 4 is named in the title of what it chooses.
proof fn lemma_entry_4_named_in_title()
    ensures
        occurs_in(first_word(option_name(4)), title_of(option_side(4))),
{
    reveal_strlit("Fibonacci Spiral");
    reveal_strlit("StimStation - Fibonacci Spiral");
    reveal_with_fuel(first_word, 10);
    let name = option_name(4);
    let title = title_of(option_side(4));
    assert(first_word(name) =~= name.subrange(0, 9));
    assert(title.subrange(14, 23) =~= name.subrange(0, 9));
    lemma_occurs_at(first_word(name), title, 14);
}

/// Menu entry 5 is named in the title of what it chooses.
proof fn lemma_entry_5_named_in_title()
    ensures
        occurs_in(first_word(option_name(5)), title_of(option_side(5))),
{
    reveal_strlit("Simple Proof");
    reveal_strlit("StimStation - Simple Proof");
    reveal_with_fuel(first_word, 7);
    let name = option_name(5);
    let title = title_of(option_side(5));
    assert(first_word(name) =~= name.subrange(0, 6));
    assert(title.subrange(14, 20) =~= name.subrange(0, 6));
    lemma_occurs_at(first_word(name), title, 14);
}

/// Menu entry 6 is named in the title of what it chooses.
proof fn lemma_entry_6_named_in_title()
    ensures
        occurs_in(first_word(option_name(6)), title_of(option_side(6))),
{
    reveal_strlit("Combined");
    reveal_strlit("StimStation - Combined Experience");
    reveal_with_fuel(first_word, 9);
    let name = option_name(6);
    let title = title_of(option_side(6));
    assert(first_word(name) =~= name.subrange(0, 8));
    assert(title.subrange(14, 22) =~= name.subrange(0, 8));
    lemma_occurs_at(first_word(name), title, 14);
}

/// The first word of the name of menu entry `i`, for every entry but the last, appears
/// in the window title of the visualisation the entry chooses.
proof fn lemma_entry_named_in_title(i: int)
    requires
        0 <= i < MENU_LEN - 1,
    ensures
        occurs_in(first_word(option_name(i)), title_of(option_side(i))),
{
    if i == 0 {
        lemma_entry_0_named_in_title();
    } else if i == 1 {
        lemma_entry_1_named_in_title();
    } else if i == 2 {
        lemma_entry_2_named_in_title();
    } else if i == 3 {
        lemma_entry_3_named_in_title();
    } else if i == 4 {
        lemma_entry_4_named_in_title();
    } else if i == 5 {
        lemma_entry_5_named_in_title();
    } else if i == 6 {
        lemma_entry_6_named_in_title();
    }
}

/// Each menu entry chooses the visualisation it is named after: for every entry but the
/// last, the first word of its name appears in the window title of the visualisation it
/// chooses, and no two entries choose the same visualisation, so the last entry chooses
/// the one that remains, the grid of all of them.
pub proof fn lemma_menu_entries_choose_what_they_name(i: int, j: int)
    requires
        0 <= i < MENU_LEN,
        0 <= j < MENU_LEN,
    ensures
        i < MENU_LEN - 1 ==> occurs_in(first_word(option_name(i)), title_of(option_side(i))),
        i != j ==> option_side(i) != option_side(j),
        i == MENU_LEN - 1 ==> title_of(option_side(i)) == "StimStation - All Visualizations (Grid)"@,
{
    if i < MENU_LEN - 1 {
        lemma_entry_named_in_title(i);
    }
}

/// Choosing the highlighted menu entry with Enter shows the visualisation the entry is
/// named after: the first word of its name appears in the new window title.
pub proof fn lemma_menu_choice_shows_named(s: AppStateView, keys: AppKeys)
    requires
        s.menu.visible,
        0 <= s.menu.active_index < MENU_LEN - 1,
        keys.enter,
        !keys.arrow_up,
        !keys.arrow_down,
    ensures
        after_keys(s, keys).0.active_side == option_side(s.menu.active_index),
        occurs_in(first_word(option_name(s.menu.active_index)), title_of(after_keys(s, keys).0.active_side)),
{
    lemma_menu_entries_choose_what_they_name(s.menu.active_index, s.menu.active_index);
}

/// The menu entry whose visualisation digit key `k + 1` shows: the keys follow the
/// menu's order, except that key 3 shows the grid of all visualisations, the menu's last
/// entry.
pub open spec fn entry_of_digit(k: int) -> int {
    if k < 2 {
        k
    } else if k == 2 {
        MENU_LEN - 1
    } else {
        k - 1
    }
}

/// With the menu closed, the lowest digit key pressed, `k + 1`, shows the visualisation
/// of menu entry `entry_of_digit(k)`, one the entry is named after; the eight keys show
/// eight different visualisations.
pub proof fn lemma_digit_keys_follow_menu(s: AppStateView, keys: AppKeys, k: int, other: int)
    requires
        !s.menu.visible,
        0 <= k < 8,
        0 <= other < 8,
        keys.digits@[k],
        forall|m: int| 0 <= m < k ==> !keys.digits@[m],
    ensures
        after_keys(s, keys).0.active_side == option_side(entry_of_digit(k)),
        k != 2 ==> occurs_in(first_word(option_name(entry_of_digit(k))), title_of(after_keys(s, keys).0.active_side)),
        other != k ==> option_side(entry_of_digit(other)) != option_side(entry_of_digit(k)),
{
    reveal_with_fuel(first_digit_from, 9);
    assert(first_digit_from(keys.digits@, 0) == Some(k));
    lemma_menu_entries_choose_what_they_name(entry_of_digit(k), entry_of_digit(other));
}

} // verus!
