use vstd::prelude::*;
use vstd::string::StrSliceExecFns;
use crate::algorithm_stats::{top_k, AlgorithmStats, SortAlgorithm};
use crate::pixels::write_pixel;
use crate::stats_font::{ascii_upper, get_char_pattern, stats_pattern};

verus! {

/// The byte offset at which leaderboard drawing writes point `(px, py)`, if any: points
/// inside the `frame_width` columns and the `len / 4 / buffer_width` rows of the frame
/// map to four times their slot in a buffer `buffer_width` pixels wide, shifted by
/// `x_offset`, and offsets past `len - 4` fall on `len - 4`.
pub open spec fn stats_slot(len: int, frame_width: u32, x_offset: int, buffer_width: u32, px: int, py: int) -> Option<int> {
    if px < frame_width && py < (len / 4) / (buffer_width as int) {
        let b = 4 * (py * buffer_width + px + x_offset);
        Some(
            if b <= len - 4 {
                b
            } else {
                len - 4
            },
        )
    } else {
        None
    }
}

/// The frame and buffer sizes for which leaderboard drawing computes its offsets in
/// `u32` without overflow.
pub open spec fn stats_frame_fits(len: int, frame_width: u32, x_offset: int, buffer_width: u32) -> bool {
    &&& buffer_width > 0
    &&& x_offset <= u32::MAX
    &&& 4 * (len / 4 + frame_width + x_offset) <= u32::MAX
}

/// The frame after the four bytes from offset `b` have been set to `color`.
pub open spec fn put_color(f: Seq<u8>, b: int, color: Seq<u8>) -> Seq<u8> {
    f.update(b, color[0]).update(b + 1, color[1]).update(b + 2, color[2]).update(b + 3, color[3])
}

/// The frame after the first `k` cells of a glyph pattern laid out `cw` cells to a row
/// at `(x, y)` have been drawn in `color`, in order: each lit cell that lands on the
/// frame writes `color` at its offset.
pub open spec fn glyph_cells(
    f: Seq<u8>,
    pattern: Seq<u8>,
    x: int,
    y: int,
    cw: int,
    k: int,
    len: int,
    fw: u32,
    xo: int,
    bw: u32,
    color: Seq<u8>,
) -> Seq<u8>
    decreases k,
{
    if k <= 0 {
        f
    } else {
        let prev = glyph_cells(f, pattern, x, y, cw, k - 1, len, fw, xo, bw, color);
        if pattern[k - 1] > 0 {
            match stats_slot(len, fw, xo, bw, x + (k - 1) % cw, y + (k - 1) / cw) {
                Some(b) => put_color(prev, b, color),
                None => prev,
            }
        } else {
            prev
        }
    }
}

/// The frame after the leaderboard font's glyph for `ch` has been drawn at `(x, y)`,
/// `cw` cells to a row, in `color`.
pub open spec fn glyph_frame(f: Seq<u8>, ch: char, x: int, y: int, cw: int, len: int, fw: u32, xo: int, bw: u32, color: Seq<u8>) -> Seq<u8> {
    let pattern = stats_pattern(ascii_upper(ch));
    glyph_cells(f, pattern, x, y, cw, pattern.len() as int, len, fw, xo, bw, color)
}

/// The offset of point `(px, py)`, computed as the drawing does: in `u32`, clamped to
/// `len - 4`.
fn slot_of(len: usize, frame_width: u32, x_offset: usize, buffer_width: u32, px: u32, py: u32) -> (slot: Option<usize>)
    requires
        stats_frame_fits(len as int, frame_width, x_offset as int, buffer_width),
        len <= u32::MAX,
    ensures
        slot == (match stats_slot(len as int, frame_width, x_offset as int, buffer_width, px as int, py as int) {
            Some(b) => Some(b as usize),
            None => None,
        }),
        slot matches Some(b) ==> b + 3 < len,
{
    let frame_height = len as u32 / 4 / buffer_width;
    if px < frame_width && py < frame_height {
        proof {
            let bw = buffer_width as int;
            let fh = frame_height as int;
            assert(fh * bw <= len as int / 4) by (nonlinear_arith)
                requires
                    fh == (len as int / 4) / bw,
                    bw > 0,
                    len >= 0,
            ;
            assert(py * bw <= fh * bw - bw) by (nonlinear_arith)
                requires
                    py < fh,
                    bw > 0,
            ;
        }
        let raw = ((py * buffer_width + px + x_offset as u32) * 4) as usize;
        let index = if raw < len - 4 {
            raw
        } else {
            len - 4
        };
        Some(index)
    } else {
        None
    }
}

/// Draws the leaderboard font's glyph for `ch` with its top-left corner at `(x, y)`,
/// `char_width` cells to a row.
pub fn draw_char(
    frame: &mut [u8],
    ch: char,
    x: u32,
    y: u32,
    color: [u8; 4],
    frame_width: u32,
    char_width: u32,
    char_height: u32,
    x_offset: usize,
    buffer_width: u32,
)
    requires
        stats_frame_fits(old(frame)@.len() as int, frame_width, x_offset as int, buffer_width),
        old(frame)@.len() <= u32::MAX,
        char_width > 0,
        x + char_width - 1 <= u32::MAX,
        y + 95 <= u32::MAX,
    ensures
        final(frame)@ == glyph_frame(
            old(frame)@,
            ch,
            x as int,
            y as int,
            char_width as int,
            old(frame)@.len() as int,
            frame_width,
            x_offset as int,
            buffer_width,
            color@,
        ),
        final(frame)@.len() == old(frame)@.len(),
{
    let pattern = get_char_pattern(ch);
    let len = frame.len();
    let ghost f0 = frame@;
    let n = pattern.len();
    let mut i: usize = 0;
    while i < n
        invariant
            n == pattern@.len(),
            pattern@ == stats_pattern(ascii_upper(ch)),
            n == 96,
            i <= n,
            len == f0.len(),
            frame@.len() == len,
            stats_frame_fits(len as int, frame_width, x_offset as int, buffer_width),
            len <= u32::MAX,
            char_width > 0,
            x + char_width - 1 <= u32::MAX,
            y + 95 <= u32::MAX,
            frame@ == glyph_cells(
                f0,
                pattern@,
                x as int,
                y as int,
                char_width as int,
                i as int,
                len as int,
                frame_width,
                x_offset as int,
                buffer_width,
                color@,
            ),
        decreases n - i,
    {
        if pattern[i] > 0 {
            proof {
                assert((i as u32) % char_width < char_width);
                assert((i as u32) / char_width <= 95) by (nonlinear_arith)
                    requires
                        i < 96,
                        char_width > 0,
                ;
            }
            let px = x + (i as u32 % char_width);
            let py = y + (i as u32 / char_width);
            match slot_of(len, frame_width, x_offset, buffer_width, px, py) {
                Some(b) => {
                    write_pixel(frame, b, color);
                },
                None => {},
            }
        }
        i = i + 1;
    }
}

/// The frame after the first `n` characters of `text` have been drawn in the
/// leaderboard font in `color`, eight pixels apart, starting at `(x, y)`.
pub open spec fn stats_text_frame(
    f: Seq<u8>,
    text: Seq<char>,
    x: int,
    y: int,
    n: nat,
    len: int,
    fw: u32,
    xo: int,
    bw: u32,
    color: Seq<u8>,
) -> Seq<u8>
    decreases n,
{
    if n == 0 {
        f
    } else {
        glyph_frame(
            stats_text_frame(f, text, x, y, (n - 1) as nat, len, fw, xo, bw, color),
            text[n - 1],
            x + 8 * (n - 1),
            y,
            8,
            len,
            fw,
            xo,
            bw,
            color,
        )
    }
}

/// Draws `text` in the leaderboard font from `(x, y)`, eight pixels per character.
pub fn draw_stats_text(
    frame: &mut [u8],
    text: &[char],
    x: u32,
    y: u32,
    color: [u8; 4],
    frame_width: u32,
    x_offset: usize,
    buffer_width: u32,
)
    requires
        stats_frame_fits(old(frame)@.len() as int, frame_width, x_offset as int, buffer_width),
        old(frame)@.len() <= u32::MAX,
        x + 8 * text@.len() <= u32::MAX + 1,
        y + 95 <= u32::MAX,
    ensures
        final(frame)@ == stats_text_frame(
            old(frame)@,
            text@,
            x as int,
            y as int,
            text@.len(),
            old(frame)@.len() as int,
            frame_width,
            x_offset as int,
            buffer_width,
            color@,
        ),
        final(frame)@.len() == old(frame)@.len(),
{
    let ghost f0 = frame@;
    let ghost len = f0.len() as int;
    let n = text.len();
    let mut i: usize = 0;
    while i < n
        invariant
            n == text@.len(),
            i <= n,
            len == f0.len(),
            frame@.len() == len,
            stats_frame_fits(len, frame_width, x_offset as int, buffer_width),
            len <= u32::MAX,
            x + 8 * n <= u32::MAX + 1,
            y + 95 <= u32::MAX,
            frame@ == stats_text_frame(f0, text@, x as int, y as int, i as nat, len, frame_width, x_offset as int, buffer_width, color@),
        decreases n - i,
    {
        let char_x = x + (i as u32 * 8);
        draw_char(frame, text[i], char_x, y, color, frame_width, 8, 12, x_offset, buffer_width);
        i = i + 1;
    }
}


/// The frame after the point at offset `b` has been shaded: each colour byte replaced
/// through its channel's table of `shade`, and the alpha byte set to opaque.
pub open spec fn shade_at(f: Seq<u8>, b: int, shade: [[u8; 256]; 3]) -> Seq<u8> {
    f.update(b, shade@[0]@[f[b] as int]).update(b + 1, shade@[1]@[f[b + 1] as int]).update(
        b + 2,
        shade@[2]@[f[b + 2] as int],
    ).update(b + 3, 255u8)
}

/// The frame after the first `c` points of row `row` of the rectangle at `(x, y)` have
/// been shaded, left to right.
pub open spec fn backdrop_cells(
    f: Seq<u8>,
    x: int,
    y: int,
    row: int,
    c: int,
    len: int,
    fw: u32,
    xo: int,
    bw: u32,
    shade: [[u8; 256]; 3],
) -> Seq<u8>
    decreases c,
{
    if c <= 0 {
        f
    } else {
        let prev = backdrop_cells(f, x, y, row, c - 1, len, fw, xo, bw, shade);
        match stats_slot(len, fw, xo, bw, x + c - 1, y + row) {
            Some(b) => shade_at(prev, b, shade),
            None => prev,
        }
    }
}

/// The frame after the first `r` rows of the `w`-wide rectangle at `(x, y)` have been
/// shaded, top to bottom.
pub open spec fn backdrop(
    f: Seq<u8>,
    x: int,
    y: int,
    w: int,
    r: int,
    len: int,
    fw: u32,
    xo: int,
    bw: u32,
    shade: [[u8; 256]; 3],
) -> Seq<u8>
    decreases r,
{
    if r <= 0 {
        f
    } else {
        backdrop_cells(backdrop(f, x, y, w, r - 1, len, fw, xo, bw, shade), x, y, r - 1, w, len, fw, xo, bw, shade)
    }
}

/// Shades the `width`-by-`height` rectangle at `(x, y)` through the channel tables of
/// `shade`, point by point, rows top to bottom; points outside the frame are skipped.
pub fn draw_background_rect(
    frame: &mut [u8],
    x: u32,
    y: u32,
    width: u32,
    height: u32,
    shade: &[[u8; 256]; 3],
    frame_width: u32,
    x_offset: usize,
    buffer_width: u32,
)
    requires
        stats_frame_fits(old(frame)@.len() as int, frame_width, x_offset as int, buffer_width),
        old(frame)@.len() <= u32::MAX,
        width > 0 && height > 0 ==> x + width - 1 <= u32::MAX && y + height - 1 <= u32::MAX,
    ensures
        final(frame)@ == backdrop(
            old(frame)@,
            x as int,
            y as int,
            width as int,
            height as int,
            old(frame)@.len() as int,
            frame_width,
            x_offset as int,
            buffer_width,
            *shade,
        ),
        final(frame)@.len() == old(frame)@.len(),
{
    let len = frame.len();
    let ghost f0 = frame@;
    let mut dy: u32 = 0;
    while dy < height
        invariant
            dy <= height,
            len == f0.len(),
            frame@.len() == len,
            stats_frame_fits(len as int, frame_width, x_offset as int, buffer_width),
            len <= u32::MAX,
            width > 0 && height > 0 ==> x + width - 1 <= u32::MAX && y + height - 1 <= u32::MAX,
            frame@ == backdrop(f0, x as int, y as int, width as int, dy as int, len as int, frame_width, x_offset as int, buffer_width, *shade),
        decreases height - dy,
    {
        let ghost row_start = frame@;
        let mut dx: u32 = 0;
        while dx < width
            invariant
                dy < height,
                dx <= width,
                len == f0.len(),
                frame@.len() == len,
                stats_frame_fits(len as int, frame_width, x_offset as int, buffer_width),
                len <= u32::MAX,
                width > 0 && height > 0 ==> x + width - 1 <= u32::MAX && y + height - 1 <= u32::MAX,
                row_start == backdrop(f0, x as int, y as int, width as int, dy as int, len as int, frame_width, x_offset as int, buffer_width, *shade),
                frame@ == backdrop_cells(row_start, x as int, y as int, dy as int, dx as int, len as int, frame_width, x_offset as int, buffer_width, *shade),
            decreases width - dx,
        {
            let px = x + dx;
            let py = y + dy;
            match slot_of(len, frame_width, x_offset, buffer_width, px, py) {
                Some(index) => {
                    let r = shade[0][frame[index] as usize];
                    let g = shade[1][frame[index + 1] as usize];
                    let b = shade[2][frame[index + 2] as usize];
                    frame[index] = r;
                    frame[index + 1] = g;
                    frame[index + 2] = b;
                    frame[index + 3] = 255;
                },
                None => {},
            }
            dx = dx + 1;
        }
        dy = dy + 1;
    }
}

/// The character for decimal digit `d`.
pub open spec fn digit_char(d: int) -> char {
    (48 + d) as char
}

/// The decimal numeral of `n`, without leading zeros.
pub open spec fn decimal(n: nat) -> Seq<char>
    decreases n,
{
    if n < 10 {
        seq![digit_char(n as int)]
    } else {
        decimal(n / 10).push(digit_char((n % 10) as int))
    }
}

/// Writes `n` in decimal.
pub fn decimal_chars(n: u32) -> (digits: Vec<char>)
    ensures
        digits@ == decimal(n as nat),
    decreases n,
{
    let d = ((n % 10) as u8 + 48) as char;
    if n < 10 {
        let mut digits: Vec<char> = Vec::new();
        digits.push(d);
        assert(digits@ =~= seq![digit_char(n as int)]);
        digits
    } else {
        let mut digits = decimal_chars(n / 10);
        digits.push(d);
        digits
    }
}

/// The characters of `s`, in order.
pub fn str_chars(s: &str) -> (chars: Vec<char>)
    ensures
        chars@ == s@,
{
    let n = s.unicode_len();
    let mut chars: Vec<char> = Vec::new();
    let mut i: usize = 0;
    while i < n
        invariant
            n == s@.len(),
            i <= n,
            chars@ == s@.subrange(0, i as int),
        decreases n - i,
    {
        chars.push(s.get_char(i));
        assert(chars@ =~= s@.subrange(0, i + 1));
        i = i + 1;
    }
    assert(chars@ =~= s@);
    chars
}

/// The leaderboard line of an algorithm and its count: `"<name>: <count>"`.
pub open spec fn entry_text(entry: (SortAlgorithm, u32)) -> Seq<char> {
    entry.0.display_name() + ": "@ + decimal(entry.1 as nat)
}

/// The line under the leaderboard: `"<hits> corner hits"`.
pub open spec fn corner_text(hits: u32) -> Seq<char> {
    decimal(hits as nat) + " corner hits"@
}

/// The length of the longest of the four leaderboard lines.
pub open spec fn longest_entry(top: Seq<(SortAlgorithm, u32)>) -> nat {
    let l0 = entry_text(top[0]).len();
    let l1 = entry_text(top[1]).len();
    let l2 = entry_text(top[2]).len();
    let l3 = entry_text(top[3]).len();
    let m01 = if l0 >= l1 {
        l0
    } else {
        l1
    };
    let m23 = if l2 >= l3 {
        l2
    } else {
        l3
    };
    if m01 >= m23 {
        m01
    } else {
        m23
    }
}

/// Opaque white.
pub open spec fn white() -> Seq<u8> {
    seq![255u8, 255u8, 255u8, 255u8]
}

/// The frame after the leaderboard has been drawn over it: a shaded panel as wide as the
/// longest line plus padding, the four lines in white fourteen pixels apart, then a
/// shaded strip below with the corner-hit count.
pub open spec fn leaderboard_frame(
    f0: Seq<u8>,
    top: Seq<(SortAlgorithm, u32)>,
    hits: u32,
    fw: u32,
    xo: int,
    bw: u32,
    shade: [[u8; 256]; 3],
) -> Seq<u8> {
    let len = f0.len() as int;
    let panel_width = 8 * longest_entry(top) as int + 8;
    let f1 = backdrop(f0, 0, 6, panel_width, 64, len, fw, xo, bw, shade);
    let f2 = stats_text_frame(f1, entry_text(top[0]), 4, 10, entry_text(top[0]).len(), len, fw, xo, bw, white());
    let f3 = stats_text_frame(f2, entry_text(top[1]), 4, 24, entry_text(top[1]).len(), len, fw, xo, bw, white());
    let f4 = stats_text_frame(f3, entry_text(top[2]), 4, 38, entry_text(top[2]).len(), len, fw, xo, bw, white());
    let f5 = stats_text_frame(f4, entry_text(top[3]), 4, 52, entry_text(top[3]).len(), len, fw, xo, bw, white());
    let f6 = backdrop(f5, 0, 66, panel_width, 20, len, fw, xo, bw, shade);
    stats_text_frame(f6, corner_text(hits), 4, 70, corner_text(hits).len(), len, fw, xo, bw, white())
}

/// The leaderboard line for one entry.
fn entry_line(entry: (SortAlgorithm, u32)) -> (line: Vec<char>)
    ensures
        line@ == entry_text(entry),
{
    let mut line = str_chars(entry.0.name());
    let mut sep = str_chars(": ");
    let mut digits = decimal_chars(entry.1);
    line.append(&mut sep);
    line.append(&mut digits);
    line
}

/// The numeral of a number below ten to the power `k` has at most `k` digits.
proof fn lemma_decimal_len(n: nat, k: nat)
    requires
        n < pow10(k),
        k >= 1,
    ensures
        1 <= decimal(n).len() <= k,
    decreases n,
{
    if n >= 10 {
        if k <= 1 {
            assert(pow10(1) == 10 * pow10(0));
        } else {
            assert(pow10(k) == 10 * pow10((k - 1) as nat));
            assert(n / 10 < pow10((k - 1) as nat)) by (nonlinear_arith)
                requires
                    n < 10 * pow10((k - 1) as nat),
            ;
            lemma_decimal_len(n / 10, (k - 1) as nat);
        }
    }
}

/// A `u32` has at most ten decimal digits.
proof fn lemma_u32_decimal_len(n: u32)
    ensures
        1 <= decimal(n as nat).len() <= 10,
{
    assert(pow10(10) == 10_000_000_000) by {
        reveal_with_fuel(pow10, 11);
    }
    lemma_decimal_len(n as nat, 10);
}

/// Ten to the power `k`.
pub open spec fn pow10(k: nat) -> nat
    decreases k,
{
    if k == 0 {
        1
    } else {
        10 * pow10((k - 1) as nat)
    }
}


/// A leaderboard line has at most twenty-six characters: a name of at most fourteen,
/// the separator and at most ten digits.
proof fn lemma_entry_len(entry: (SortAlgorithm, u32))
    ensures
        entry_text(entry).len() <= 26,
{
    lemma_u32_decimal_len(entry.1);
    reveal_strlit(": ");
    reveal_strlit("Bogo Sort");
    reveal_strlit("Bubble Sort");
    reveal_strlit("Quick Sort");
    reveal_strlit("Merge Sort");
    reveal_strlit("Insertion Sort");
    reveal_strlit("Selection Sort");
    reveal_strlit("Heap Sort");
    reveal_strlit("Radix Sort");
    reveal_strlit("Shell Sort");
    reveal_strlit("Cocktail Sort");
}

/// Draws the leaderboard of the four algorithms with the most completions in `stats`,
/// and below it the count of corner hits, over a panel shaded through `shade`.
pub fn draw_algorithm_stats(
    frame: &mut [u8],
    width: u32,
    height: u32,
    x_offset: usize,
    buffer_width: u32,
    stats: &AlgorithmStats,
    corner_hits: u32,
    shade: &[[u8; 256]; 3],
)
    requires
        stats_frame_fits(old(frame)@.len() as int, width, x_offset as int, buffer_width),
        old(frame)@.len() <= u32::MAX,
    ensures
        final(frame)@ == leaderboard_frame(old(frame)@, top_k(stats@, 4), corner_hits, width, x_offset as int, buffer_width, *shade),
{
    let top = stats.leaderboard();
    let ghost f0 = frame@;
    let ghost len = f0.len() as int;
    let line0 = entry_line(top[0]);
    let line1 = entry_line(top[1]);
    let line2 = entry_line(top[2]);
    let line3 = entry_line(top[3]);
    proof {
        lemma_entry_len(top@[0]);
        lemma_entry_len(top@[1]);
        lemma_entry_len(top@[2]);
        lemma_entry_len(top@[3]);
    }
    let mut max_len = line0.len();
    if line1.len() > max_len {
        max_len = line1.len();
    }
    let m23 = if line2.len() >= line3.len() {
        line2.len()
    } else {
        line3.len()
    };
    if m23 > max_len {
        max_len = m23;
    }
    assert(max_len == longest_entry(top@));
    let panel_width = max_len as u32 * 8 + 8;
    let ink: [u8; 4] = [255, 255, 255, 255];
    assert(ink@ =~= white());
    draw_background_rect(frame, 0, 6, panel_width, 64, shade, width, x_offset, buffer_width);
    draw_stats_text(frame, line0.as_slice(), 4, 10, ink, width, x_offset, buffer_width);
    draw_stats_text(frame, line1.as_slice(), 4, 24, ink, width, x_offset, buffer_width);
    draw_stats_text(frame, line2.as_slice(), 4, 38, ink, width, x_offset, buffer_width);
    draw_stats_text(frame, line3.as_slice(), 4, 52, ink, width, x_offset, buffer_width);
    let mut corner = decimal_chars(corner_hits);
    let mut tail = str_chars(" corner hits");
    corner.append(&mut tail);
    proof {
        lemma_u32_decimal_len(corner_hits);
        reveal_strlit(" corner hits");
    }
    draw_background_rect(frame, 0, 66, panel_width, 20, shade, width, x_offset, buffer_width);
    draw_stats_text(frame, corner.as_slice(), 4, 70, ink, width, x_offset, buffer_width);
}

} // verus!
