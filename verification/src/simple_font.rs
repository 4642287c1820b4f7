use vstd::prelude::*;
use vstd::string::StrSliceExecFns;
use crate::pixel_utils::{frame_rows, grid_cell, lemma_frame_grid_fits};
use crate::pixels::{grid_fits, in_clip, lemma_grid_point_fits, lemma_painted_empty, lemma_painted_twice, lemma_scanned_next, lemma_scanned_row, lemma_scanned_start, painted, scanned, set_pixel_safe};
use crate::stats_font::{ascii_upper, to_ascii_upper};

verus! {

/// The nine eight-pixel rows of the fallback font's glyph for `c`, top row first, most
/// significant bit leftmost: a blank for the space and a ring for a character the font
/// lacks.
pub open spec fn simple_glyph_rows(c: char) -> Seq<u8> {
    match c {
        'A' => seq![0x38u8, 0x44u8, 0x82u8, 0x82u8, 0xFEu8, 0x82u8, 0x82u8, 0x82u8, 0x00u8],
        'B' => seq![0xFCu8, 0x82u8, 0x82u8, 0xFCu8, 0x82u8, 0x82u8, 0x82u8, 0xFCu8, 0x00u8],
        'C' => seq![0x7Cu8, 0x82u8, 0x80u8, 0x80u8, 0x80u8, 0x80u8, 0x82u8, 0x7Cu8, 0x00u8],
        'D' => seq![0xF8u8, 0x8Cu8, 0x82u8, 0x82u8, 0x82u8, 0x82u8, 0x8Cu8, 0xF8u8, 0x00u8],
        'E' => seq![0xFEu8, 0x80u8, 0x80u8, 0xFCu8, 0x80u8, 0x80u8, 0x80u8, 0xFEu8, 0x00u8],
        'F' => seq![0xFEu8, 0x80u8, 0x80u8, 0xFCu8, 0x80u8, 0x80u8, 0x80u8, 0x80u8, 0x00u8],
        'G' => seq![0x7Cu8, 0x82u8, 0x80u8, 0x9Eu8, 0x82u8, 0x82u8, 0x82u8, 0x7Cu8, 0x00u8],
        'H' => seq![0x82u8, 0x82u8, 0x82u8, 0xFEu8, 0x82u8, 0x82u8, 0x82u8, 0x82u8, 0x00u8],
        'I' => seq![0x7Cu8, 0x10u8, 0x10u8, 0x10u8, 0x10u8, 0x10u8, 0x10u8, 0x7Cu8, 0x00u8],
        'L' => seq![0x80u8, 0x80u8, 0x80u8, 0x80u8, 0x80u8, 0x80u8, 0x80u8, 0xFEu8, 0x00u8],
        'M' => seq![0x82u8, 0xC6u8, 0xAAu8, 0x92u8, 0x82u8, 0x82u8, 0x82u8, 0x82u8, 0x00u8],
        'N' => seq![0x82u8, 0xC2u8, 0xA2u8, 0x92u8, 0x8Au8, 0x86u8, 0x82u8, 0x82u8, 0x00u8],
        'O' => seq![0x7Cu8, 0x82u8, 0x82u8, 0x82u8, 0x82u8, 0x82u8, 0x82u8, 0x7Cu8, 0x00u8],
        'P' => seq![0xFCu8, 0x82u8, 0x82u8, 0xFCu8, 0x80u8, 0x80u8, 0x80u8, 0x80u8, 0x00u8],
        'R' => seq![0xFCu8, 0x82u8, 0x82u8, 0xFCu8, 0x90u8, 0x88u8, 0x84u8, 0x82u8, 0x00u8],
        'S' => seq![0x7Cu8, 0x82u8, 0x80u8, 0x7Cu8, 0x02u8, 0x02u8, 0x82u8, 0x7Cu8, 0x00u8],
        'T' => seq![0xFEu8, 0x10u8, 0x10u8, 0x10u8, 0x10u8, 0x10u8, 0x10u8, 0x10u8, 0x00u8],
        'U' => seq![0x82u8, 0x82u8, 0x82u8, 0x82u8, 0x82u8, 0x82u8, 0x82u8, 0x7Cu8, 0x00u8],
        'V' => seq![0x82u8, 0x82u8, 0x82u8, 0x82u8, 0x82u8, 0x44u8, 0x28u8, 0x10u8, 0x00u8],
        'W' => seq![0x82u8, 0x82u8, 0x82u8, 0x82u8, 0x92u8, 0xAAu8, 0xC6u8, 0x82u8, 0x00u8],
        'Y' => seq![0x82u8, 0x82u8, 0x44u8, 0x28u8, 0x10u8, 0x10u8, 0x10u8, 0x10u8, 0x00u8],
        ':' => seq![0x00u8, 0x00u8, 0x18u8, 0x18u8, 0x00u8, 0x18u8, 0x18u8, 0x00u8, 0x00u8],
        ' ' => seq![0x00u8, 0x00u8, 0x00u8, 0x00u8, 0x00u8, 0x00u8, 0x00u8, 0x00u8, 0x00u8],
        _ => seq![0x7Cu8, 0x82u8, 0x82u8, 0x82u8, 0x82u8, 0x82u8, 0x82u8, 0x7Cu8, 0x00u8],
    }
}

/// The rows of the fallback font's glyph for `c`.
fn simple_glyph_row_bits(c: char) -> (rows: [u8; 9])
    ensures
        rows@ == simple_glyph_rows(c),
{
    match c {
        'A' => [0x38, 0x44, 0x82, 0x82, 0xFE, 0x82, 0x82, 0x82, 0x00],
        'B' => [0xFC, 0x82, 0x82, 0xFC, 0x82, 0x82, 0x82, 0xFC, 0x00],
        'C' => [0x7C, 0x82, 0x80, 0x80, 0x80, 0x80, 0x82, 0x7C, 0x00],
        'D' => [0xF8, 0x8C, 0x82, 0x82, 0x82, 0x82, 0x8C, 0xF8, 0x00],
        'E' => [0xFE, 0x80, 0x80, 0xFC, 0x80, 0x80, 0x80, 0xFE, 0x00],
        'F' => [0xFE, 0x80, 0x80, 0xFC, 0x80, 0x80, 0x80, 0x80, 0x00],
        'G' => [0x7C, 0x82, 0x80, 0x9E, 0x82, 0x82, 0x82, 0x7C, 0x00],
        'H' => [0x82, 0x82, 0x82, 0xFE, 0x82, 0x82, 0x82, 0x82, 0x00],
        'I' => [0x7C, 0x10, 0x10, 0x10, 0x10, 0x10, 0x10, 0x7C, 0x00],
        'L' => [0x80, 0x80, 0x80, 0x80, 0x80, 0x80, 0x80, 0xFE, 0x00],
        'M' => [0x82, 0xC6, 0xAA, 0x92, 0x82, 0x82, 0x82, 0x82, 0x00],
        'N' => [0x82, 0xC2, 0xA2, 0x92, 0x8A, 0x86, 0x82, 0x82, 0x00],
        'O' => [0x7C, 0x82, 0x82, 0x82, 0x82, 0x82, 0x82, 0x7C, 0x00],
        'P' => [0xFC, 0x82, 0x82, 0xFC, 0x80, 0x80, 0x80, 0x80, 0x00],
        'R' => [0xFC, 0x82, 0x82, 0xFC, 0x90, 0x88, 0x84, 0x82, 0x00],
        'S' => [0x7C, 0x82, 0x80, 0x7C, 0x02, 0x02, 0x82, 0x7C, 0x00],
        'T' => [0xFE, 0x10, 0x10, 0x10, 0x10, 0x10, 0x10, 0x10, 0x00],
        'U' => [0x82, 0x82, 0x82, 0x82, 0x82, 0x82, 0x82, 0x7C, 0x00],
        'V' => [0x82, 0x82, 0x82, 0x82, 0x82, 0x44, 0x28, 0x10, 0x00],
        'W' => [0x82, 0x82, 0x82, 0x82, 0x92, 0xAA, 0xC6, 0x82, 0x00],
        'Y' => [0x82, 0x82, 0x44, 0x28, 0x10, 0x10, 0x10, 0x10, 0x00],
        ':' => [0x00, 0x00, 0x18, 0x18, 0x00, 0x18, 0x18, 0x00, 0x00],
        ' ' => [0x00, 0x00, 0x00, 0x00, 0x00, 0x00, 0x00, 0x00, 0x00],
        _ => [0x7C, 0x82, 0x82, 0x82, 0x82, 0x82, 0x82, 0x7C, 0x00],
    }
}

/// Whether column `col` of glyph row `row` is lit.
pub open spec fn lit(row: u8, col: int) -> bool {
    row & (1u8 << ((7 - col) as u8)) != 0u8
}

/// Which cell `(r, c)` of the glyph at `(x, y)` is drawn: a lit one inside the frame.
pub open spec fn simple_glyph_cell(rows: Seq<u8>, x: int, y: int, width: u32, height: u32) -> spec_fn(int, int) -> bool {
    |r: int, c: int| lit(rows[r], c) && in_clip(x + c, y + r, width, height)
}

/// The pixels of the fallback font's glyph for `c` (upper and lower case alike) at
/// `(x, y)` that lie inside the frame.
pub open spec fn simple_char_pixels(c: char, x: int, y: int, width: u32, height: u32) -> Set<int> {
    scanned(8, simple_glyph_cell(simple_glyph_rows(ascii_upper(c)), x, y, width, height), grid_cell(x, y, width), 9, 0)
}

/// Draws the fallback font's glyph for `c` at `(x, y)` in a frame `width` pixels wide
/// and as many rows high as its length allows.
pub fn draw_simple_char(frame: &mut [u8], c: char, x: i32, y: i32, color: [u8; 4], width: u32)
    requires
        width > 0,
        4 * width <= usize::MAX,
        x + 7 <= 0x7fff_ffff,
        y + 8 <= 0x7fff_ffff,
    ensures
        final(frame)@ == painted(
            old(frame)@,
            simple_char_pixels(c, x as int, y as int, width, (frame_rows(old(frame)@.len() as int, width as int) as usize) as u32),
            color@,
        ),
{
    let rows = simple_glyph_row_bits(to_ascii_upper(c));
    let height = frame.len() / (4 * width as usize);
    let h = height as u32;
    let ghost f0 = frame@;
    let ghost keep = simple_glyph_cell(rows@, x as int, y as int, width, h);
    let ghost at = grid_cell(x as int, y as int, width);
    proof {
        lemma_frame_grid_fits(frame@.len() as usize, width);
        lemma_scanned_start(8, keep, at);
        lemma_painted_empty(f0, color@);
    }
    let mut r: usize = 0;
    while r < 9
        invariant
            r <= 9,
            rows@ == simple_glyph_rows(ascii_upper(c)),
            grid_fits(width, h),
            x + 7 <= 0x7fff_ffff,
            y + 8 <= 0x7fff_ffff,
            keep == simple_glyph_cell(rows@, x as int, y as int, width, h),
            at == grid_cell(x as int, y as int, width),
            frame@.len() == f0.len(),
            frame@ == painted(f0, scanned(8, keep, at, r as int, 0), color@),
        decreases 9 - r,
    {
        let mut col: usize = 0;
        while col < 8
            invariant
                r < 9,
                col <= 8,
                rows@ == simple_glyph_rows(ascii_upper(c)),
                grid_fits(width, h),
                x + 7 <= 0x7fff_ffff,
                y + 8 <= 0x7fff_ffff,
                keep == simple_glyph_cell(rows@, x as int, y as int, width, h),
                at == grid_cell(x as int, y as int, width),
                frame@.len() == f0.len(),
                frame@ == painted(f0, scanned(8, keep, at, r as int, col as int), color@),
            decreases 8 - col,
        {
            let px = x + col as i32;
            let py = y + r as i32;
            let prev = Ghost(scanned(8, keep, at, r as int, col as int));
            proof {
                lemma_scanned_next(8, keep, at, r as int, col as int);
            }
            if rows[r] & (1u8 << ((7 - col) as u8)) != 0 {
                proof {
                    if in_clip(px as int, py as int, width, h) {
                        lemma_grid_point_fits(px as int, py as int, width, h);
                    }
                }
                set_pixel_safe(frame, px, py, width, h, color);
                proof {
                    if in_clip(px as int, py as int, width, h) {
                        lemma_painted_twice(f0, prev@, set![py * width + px], color@);
                        assert(prev@.union(set![py * width + px]) =~= prev@.insert(at(r as int, col as int)));
                    } else {
                        lemma_painted_twice(f0, prev@, Set::empty(), color@);
                        assert(prev@.union(Set::empty()) =~= prev@);
                    }
                }
            }
            col = col + 1;
        }
        proof {
            lemma_scanned_row(8, keep, at, r as int);
        }
        r = r + 1;
    }
}

/// The pixels of the first `n` characters of `text` in the fallback font, ten pixels
/// apart, starting at `(x, y)`.
pub open spec fn simple_text_pixels(text: Seq<char>, x: int, y: int, n: nat, width: u32, height: u32) -> Set<int>
    decreases n,
{
    if n == 0 {
        Set::empty()
    } else {
        simple_text_pixels(text, x, y, (n - 1) as nat, width, height).union(
            simple_char_pixels(text[n - 1], x + 10 * (n - 1), y, width, height),
        )
    }
}

/// Draws `text` in the fallback font from `(x, y)`, ten pixels per character.
pub fn draw_simple_text(frame: &mut [u8], text: &str, x: i32, y: i32, color: [u8; 4], width: u32)
    requires
        width > 0,
        4 * width <= usize::MAX,
        x + 10 * text@.len() <= 0x7fff_ffff,
        y + 8 <= 0x7fff_ffff,
    ensures
        final(frame)@ == painted(
            old(frame)@,
            simple_text_pixels(text@, x as int, y as int, text@.len(), width, (frame_rows(old(frame)@.len() as int, width as int) as usize) as u32),
            color@,
        ),
{
    let ghost f0 = frame@;
    let ghost h = (frame_rows(f0.len() as int, width as int) as usize) as u32;
    proof {
        lemma_painted_empty(f0, color@);
    }
    let n = text.unicode_len();
    let mut current_x = x;
    let mut i: usize = 0;
    while i < n
        invariant
            n == text@.len(),
            i <= n,
            width > 0,
            4 * width <= usize::MAX,
            x + 10 * n <= 0x7fff_ffff,
            y + 8 <= 0x7fff_ffff,
            current_x == x + 10 * i,
            frame@.len() == f0.len(),
            h == (frame_rows(f0.len() as int, width as int) as usize) as u32,
            frame@ == painted(f0, simple_text_pixels(text@, x as int, y as int, i as nat, width, h), color@),
        decreases n - i,
    {
        let ghost before = simple_text_pixels(text@, x as int, y as int, i as nat, width, h);
        let c = text.get_char(i);
        draw_simple_char(frame, c, current_x, y, color, width);
        proof {
            lemma_painted_twice(f0, before, simple_char_pixels(c, current_x as int, y as int, width, h), color@);
        }
        current_x = current_x + 10;
        i = i + 1;
    }
}

} // verus!
