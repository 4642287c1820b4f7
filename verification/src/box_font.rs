use vstd::prelude::*;
use vstd::string::StrSliceExecFns;
use crate::pixel_utils::grid_cell;
use crate::pixels::{
    grid_fits, in_clip, lemma_grid_point_fits, lemma_painted_empty, lemma_painted_twice, lemma_scanned_next,
    lemma_scanned_row, lemma_scanned_start, lemma_u32_as_i32, painted, scanned, set_pixel_safe, u32_as_i32,
};

verus! {

/// Whether cell `(dx, dy)` of the eight-by-ten box font's glyph for `c` is lit: an `A`
/// with an open top corner on each side and a crossbar in the middle, and an outlined
/// box for every other character.
pub open spec fn box_glyph_cell(c: char, dx: int, dy: int) -> bool {
    if c == 'A' {
        ((dx == 0 || dx == 7) && dy > 0) || (dy == 0 && dx > 0 && dx < 7) || dy == 5
    } else {
        dy == 0 || dy == 9 || dx == 0 || dx == 7
    }
}

/// Which cell `(r, c)` of the glyph for `ch` at `(x, y)` is drawn: a lit one inside the
/// frame.
pub open spec fn box_cell(ch: char, x: int, y: int, width: u32, height: u32) -> spec_fn(int, int) -> bool {
    |r: int, c: int| box_glyph_cell(ch, c, r) && in_clip(x + c, y + r, width, height)
}

/// The pixels of the box font's glyph for `ch` at `(x, y)` that lie inside the frame.
pub open spec fn box_char_pixels(ch: char, x: int, y: int, width: u32, height: u32) -> Set<int> {
    scanned(8, box_cell(ch, x, y, width, height), grid_cell(x, y, width), 10, 0)
}

/// Whether the glyph for the cell at `cx` is drawn at all: its top-left corner lies
/// inside the frame.
pub open spec fn box_in_view(cx: int, y: int, width: u32, height: u32) -> bool {
    !(cx < 0 || cx >= u32_as_i32(width) || y < 0 || y >= u32_as_i32(height))
}

/// The pixels of the first `n` characters of `text` in the box font, eight pixels apart
/// from `(x, y)`; a character whose corner lies outside the frame is skipped.
pub open spec fn box_text_pixels(text: Seq<char>, x: int, y: int, n: nat, width: u32, height: u32) -> Set<int>
    decreases n,
{
    if n == 0 {
        Set::empty()
    } else {
        let cx = x + 8 * (n - 1);
        box_text_pixels(text, x, y, (n - 1) as nat, width, height).union(
            if box_in_view(cx, y, width, height) {
                box_char_pixels(text[n - 1], cx, y, width, height)
            } else {
                Set::empty()
            },
        )
    }
}

/// Draws the box font's glyph for `ch` at `(cx, y)`.
fn draw_box_char(frame: &mut [u8], ch: char, cx: i32, y: i32, width: u32, height: u32, color: [u8; 4])
    requires
        grid_fits(width, height),
        cx + 7 <= 0x7fff_ffff,
        y + 9 <= 0x7fff_ffff,
    ensures
        final(frame)@ == painted(old(frame)@, box_char_pixels(ch, cx as int, y as int, width, height), color@),
{
    let ghost f0 = frame@;
    let ghost keep = box_cell(ch, cx as int, y as int, width, height);
    let ghost at = grid_cell(cx as int, y as int, width);
    proof {
        lemma_scanned_start(8, keep, at);
        lemma_painted_empty(f0, color@);
    }
    let mut dy: i32 = 0;
    while dy < 10
        invariant
            0 <= dy <= 10,
            grid_fits(width, height),
            cx + 7 <= 0x7fff_ffff,
            y + 9 <= 0x7fff_ffff,
            keep == box_cell(ch, cx as int, y as int, width, height),
            at == grid_cell(cx as int, y as int, width),
            frame@.len() == f0.len(),
            frame@ == painted(f0, scanned(8, keep, at, dy as int, 0), color@),
        decreases 10 - dy,
    {
        let mut dx: i32 = 0;
        while dx < 8
            invariant
                0 <= dy < 10,
                0 <= dx <= 8,
                grid_fits(width, height),
                cx + 7 <= 0x7fff_ffff,
                y + 9 <= 0x7fff_ffff,
                keep == box_cell(ch, cx as int, y as int, width, height),
                at == grid_cell(cx as int, y as int, width),
                frame@.len() == f0.len(),
                frame@ == painted(f0, scanned(8, keep, at, dy as int, dx as int), color@),
            decreases 8 - dx,
        {
            let lit = if ch == 'A' {
                ((dx == 0 || dx == 7) && dy > 0) || (dy == 0 && dx > 0 && dx < 7) || dy == 5
            } else {
                dy == 0 || dy == 9 || dx == 0 || dx == 7
            };
            let ghost prev = scanned(8, keep, at, dy as int, dx as int);
            proof {
                lemma_scanned_next(8, keep, at, dy as int, dx as int);
            }
            if lit {
                let px = cx + dx;
                let py = y + dy;
                proof {
                    if in_clip(px as int, py as int, width, height) {
                        lemma_grid_point_fits(px as int, py as int, width, height);
                    }
                }
                set_pixel_safe(frame, px, py, width, height, color);
                proof {
                    if in_clip(px as int, py as int, width, height) {
                        lemma_painted_twice(f0, prev, set![py * width + px], color@);
                        assert(prev.union(set![py * width + px]) =~= prev.insert(at(dy as int, dx as int)));
                    } else {
                        lemma_painted_twice(f0, prev, Set::empty(), color@);
                        assert(prev.union(Set::empty()) =~= prev);
                    }
                }
            }
            dx = dx + 1;
        }
        proof {
            lemma_scanned_row(8, keep, at, dy as int);
        }
        dy = dy + 1;
    }
}

/// Draws `text` in the eight-by-ten box font from `(x, y)`, one glyph every eight
/// pixels, in a `width`-by-`height` frame; a glyph whose top-left corner lies outside
/// the frame is skipped.
pub fn draw_simple_text(frame: &mut [u8], text: &str, x: i32, y: i32, width: u32, height: u32, color: [u8; 4])
    requires
        grid_fits(width, height),
        8 * text@.len() <= 0x7fff_ffff + 8,
        x + 8 * text@.len() <= 0x7fff_ffff,
        -0x8000_0000 <= x + 8 * text@.len(),
        y + 9 <= 0x7fff_ffff,
    ensures
        final(frame)@ == painted(old(frame)@, box_text_pixels(text@, x as int, y as int, text@.len(), width, height), color@),
{
    let ghost f0 = frame@;
    proof {
        lemma_painted_empty(f0, color@);
        lemma_u32_as_i32(width);
        lemma_u32_as_i32(height);
    }
    let n = text.unicode_len();
    let mut i: usize = 0;
    while i < n
        invariant
            n == text@.len(),
            i <= n,
            8 * n <= 0x7fff_ffff + 8,
            x + 8 * n <= 0x7fff_ffff,
            -0x8000_0000 <= x + 8 * n,
            y + 9 <= 0x7fff_ffff,
            grid_fits(width, height),
            u32_as_i32(width) == (width as i32) as int,
            u32_as_i32(height) == (height as i32) as int,
            frame@.len() == f0.len(),
            frame@ == painted(f0, box_text_pixels(text@, x as int, y as int, i as nat, width, height), color@),
        decreases n - i,
    {
        assert((i as i32) as int == i as int);
        let cx = x + (i as i32) * 8;
        let ghost before = box_text_pixels(text@, x as int, y as int, i as nat, width, height);
        let c = text.get_char(i);
        if cx < 0 || cx >= width as i32 || y < 0 || y >= height as i32 {
            proof {
                assert(before.union(Set::<int>::empty()) =~= before);
            }
        } else {
            draw_box_char(frame, c, cx, y, width, height, color);
            proof {
                lemma_painted_twice(f0, before, box_char_pixels(c, cx as int, y as int, width, height), color@);
            }
        }
        i = i + 1;
    }
}

} // verus!
