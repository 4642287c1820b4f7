use vstd::prelude::*;
use crate::color::{color_to_rgba, Color};
use crate::drawing::{frame_size_fits, frame_wf, FrameView};
use crate::frame_ops::{filled, fill_pixels};
use crate::pixel_utils::{circle_culled, clipped_block, disk_pixels, draw_circle, fill_clipped_block, fits_i32, frame_rows};
use vstd::string::StrSliceExecFns;
use crate::pixels::{u32_as_i32, in_clip, lemma_painted_empty, lemma_painted_insert, lemma_painted_twice, lemma_u32_as_i32, painted, write_pixel};

verus! {

/// An RGBA frame buffer that checks bounds once per pixel.
pub struct FrameBuffer {
    data: Vec<u8>,
    width: u32,
    height: u32,
}

impl View for FrameBuffer {
    type V = FrameView;

    closed spec fn view(&self) -> FrameView {
        FrameView { bytes: self.data@, width: self.width, height: self.height }
    }
}

impl FrameBuffer {
    /// A black, fully transparent frame of `width` by `height` pixels.
    pub fn new(width: u32, height: u32) -> (fb: FrameBuffer)
        requires
            frame_size_fits(width, height),
        ensures
            frame_wf(fb@),
            fb@.width == width,
            fb@.height == height,
            fb@.bytes == Seq::new((4 * (width * height)) as nat, |i: int| 0u8),
    {
        let len = width * height * 4;
        let data = vec![0u8; len as usize];
        let fb = FrameBuffer { data, width, height };
        assert(fb@.bytes =~= Seq::new((4 * (width * height)) as nat, |i: int| 0u8));
        fb
    }

    /// Sets every pixel to `color`, fully opaque.
    pub fn clear(&mut self, color: Color)
        ensures
            final(self)@ == (FrameView {
                bytes: filled(old(self)@.bytes, seq![color.red, color.green, color.blue, 255u8]),
                ..old(self)@
            }),
    {
        let rgba = color_to_rgba(color);
        fill_pixels(self.data.as_mut_slice(), rgba);
    }

    /// The frame's bytes, for writing.
    pub fn as_mut_slice(&mut self) -> (bytes: &mut [u8])
        ensures
            bytes@ == old(self)@.bytes,
            final(self)@ == (FrameView { bytes: final(bytes)@, ..old(self)@ }),
    {
        self.data.as_mut_slice()
    }

    /// The width in pixels.
    pub fn width(&self) -> (w: u32)
        ensures
            w == self@.width,
    {
        self.width
    }

    /// The height in pixels.
    pub fn height(&self) -> (h: u32)
        ensures
            h == self@.height,
    {
        self.height
    }

    /// Sets pixel `(x, y)` to `color`, fully opaque, when it lies inside the frame.
    pub fn set_pixel(&mut self, x: i32, y: i32, color: Color)
        requires
            frame_wf(old(self)@),
        ensures
            final(self)@ == (FrameView {
                bytes: painted(
                    old(self)@.bytes,
                    if in_clip(x as int, y as int, old(self)@.width, old(self)@.height) {
                        set![y * old(self)@.width + x]
                    } else {
                        Set::empty()
                    },
                    seq![color.red, color.green, color.blue, 255u8],
                ),
                ..old(self)@
            }),
    {
        let ghost rgba = seq![color.red, color.green, color.blue, 255u8];
        proof {
            lemma_u32_as_i32(self.width);
            lemma_u32_as_i32(self.height);
            lemma_painted_empty(self.data@, rgba);
        }
        if x >= 0 && x < self.width as i32 && y >= 0 && y < self.height as i32 {
            proof {
                let w = self.width as int;
                let h = self.height as int;
                assert(y * w + x <= (h - 1) * w + w - 1) by (nonlinear_arith)
                    requires
                        0 <= y < h,
                        0 <= x < w,
                ;
                assert((h - 1) * w + w - 1 == w * h - 1) by (nonlinear_arith);
                lemma_painted_insert(self.data@, Set::empty(), y * w + x, rgba);
                assert(Set::<int>::empty().insert(y * w + x) =~= set![y * w + x]);
            }
            let idx = 4 * (y as usize * self.width as usize + x as usize);
            let px = color_to_rgba(color);
            write_pixel(self.data.as_mut_slice(), idx, px);
        }
    }
}

/// Fills the circle of `radius` around `(cx, cy)` with `color`, fully opaque, clipped to
/// the frame; nothing is drawn when the circle's bounding square misses the frame.
pub fn draw_circle_fast(frame: &mut FrameBuffer, cx: i32, cy: i32, radius: i32, color: Color)
    requires
        frame_wf(old(frame)@),
        -46340 <= radius <= 32767,
        fits_i32(cx + radius),
        fits_i32(cx - radius),
        fits_i32(cy + radius),
        fits_i32(cy - radius),
    ensures
        final(frame)@ == (FrameView {
            bytes: if old(frame)@.width == 0 || old(frame)@.height == 0 || circle_culled(cx as int, cy as int, radius as int, old(frame)@.width, old(frame)@.height) {
                old(frame)@.bytes
            } else {
                painted(
                    old(frame)@.bytes,
                    disk_pixels(cx as int, cy as int, radius as int, old(frame)@.width, old(frame)@.height),
                    seq![color.red, color.green, color.blue, 255u8],
                )
            },
            ..old(frame)@
        }),
{
    let width = frame.width();
    if width == 0 || frame.height() == 0 {
        return;
    }
    proof {
        let w = width as int;
        let h = frame@.height as int;
        assert(4 * (w * h) == (4 * w) * h) by (nonlinear_arith);
        assert((4 * (w * h)) / (4 * w) == h) by (nonlinear_arith)
            requires
                w > 0,
                h >= 0,
        ;
        assert(frame_rows(frame@.bytes.len() as int, w) == h);
        assert(4 * w <= 4 * (w * h)) by (nonlinear_arith)
            requires
                w > 0,
                h > 0,
        ;
    }
    let rgba = color_to_rgba(color);
    draw_circle(frame.as_mut_slice(), cx, cy, radius, rgba, width);
}


/// A lit block, or nothing for one that is off or has no width or height.
pub open spec fn part(on: bool, x0: int, y0: int, w: int, h: int, width: u32, height: u32) -> Set<int> {
    if on && w > 0 && h > 0 {
        clipped_block(x0, y0, w, h, width, height)
    } else {
        Set::empty()
    }
}

/// Every coordinate that drawing a glyph cell of the given size at `(x, y)` computes
/// fits `i32`.
pub open spec fn cell_fits(x: int, y: int, thickness: int, char_width: int, char_height: int) -> bool {
    &&& 0 <= thickness
    &&& 0 <= char_width
    &&& 0 <= char_height
    &&& fits_i32(x - thickness)
    &&& fits_i32(y - thickness)
    &&& fits_i32(x + char_width + thickness + 3)
    &&& fits_i32(y + char_height + thickness + 10)
    &&& fits_i32(y + char_height - 3)
}

/// The pixels of a seven-segment glyph cell `char_width` by `char_height` at `(x, y)`
/// with bars `thickness` pixels thick, for the lit segments `a` to `g`, clipped to the
/// frame.
pub open spec fn seven_segment_pixels(
    x: int,
    y: int,
    segs: Seq<bool>,
    t: int,
    cw: int,
    ch: int,
    width: u32,
    height: u32,
) -> Set<int> {
    let half = ch / 2;
    part(segs[0], x + 1, y, cw - 2, t, width, height)
        .union(part(segs[1], x + cw - t, y + 1, t, half - 1, width, height))
        .union(part(segs[2], x + cw - t, y + half, t, half - 1, width, height))
        .union(part(segs[3], x + 1, y + ch - t, cw - 2, t, width, height))
        .union(part(segs[4], x, y + half, t, half - 1, width, height))
        .union(part(segs[5], x, y + 1, t, half - 1, width, height))
        .union(part(segs[6], x + 1, y + half - t / 2, cw - 2, t, width, height))
}

/// Paints one block of a glyph when it is lit.
pub(crate) fn fill_part(frame: &mut FrameBuffer, on: bool, x0: i32, y0: i32, w: i32, h: i32, color: Color)
    requires
        frame_wf(old(frame)@),
        w > 0 && h > 0 ==> x0 + w <= 0x8000_0000 && y0 + h <= 0x8000_0000,
    ensures
        final(frame)@ == (FrameView {
            bytes: painted(
                old(frame)@.bytes,
                part(on, x0 as int, y0 as int, w as int, h as int, old(frame)@.width, old(frame)@.height),
                seq![color.red, color.green, color.blue, 255u8],
            ),
            ..old(frame)@
        }),
        frame_wf(final(frame)@),
{
    let width = frame.width;
    let height = frame.height;
    if on && w > 0 && h > 0 {
        proof {
            let wi = width as int;
            let hi = height as int;
            assert(4 * (wi * hi) <= usize::MAX + 1);
        }
        let rgba = color_to_rgba(color);
        fill_clipped_block(frame.data.as_mut_slice(), x0, y0, w, h, width, height, rgba);
    } else {
        proof {
            lemma_painted_empty(frame.data@, seq![color.red, color.green, color.blue, 255u8]);
        }
    }
}

/// Draws the lit segments `a` to `g` of a seven-segment glyph cell at `(x, y)`.
pub fn draw_segment_fast(
    frame: &mut FrameBuffer,
    x: i32,
    y: i32,
    a: bool,
    b: bool,
    c: bool,
    d: bool,
    e: bool,
    f: bool,
    g: bool,
    color: Color,
    thickness: i32,
    char_width: i32,
    char_height: i32,
)
    requires
        frame_wf(old(frame)@),
        cell_fits(x as int, y as int, thickness as int, char_width as int, char_height as int),
    ensures
        final(frame)@ == (FrameView {
            bytes: painted(
                old(frame)@.bytes,
                seven_segment_pixels(
                    x as int,
                    y as int,
                    seq![a, b, c, d, e, f, g],
                    thickness as int,
                    char_width as int,
                    char_height as int,
                    old(frame)@.width,
                    old(frame)@.height,
                ),
                seq![color.red, color.green, color.blue, 255u8],
            ),
            ..old(frame)@
        }),
        frame_wf(final(frame)@),
{
    let ghost f0 = frame@.bytes;
    let ghost w0 = frame@.width;
    let ghost h0 = frame@.height;
    let ghost rgba = seq![color.red, color.green, color.blue, 255u8];
    let half = char_height / 2;
    let ghost pa = part(a, x + 1, y as int, char_width - 2, thickness as int, w0, h0);
    let ghost pb = part(b, x + char_width - thickness, y + 1, thickness as int, half - 1, w0, h0);
    let ghost pc = part(c, x + char_width - thickness, y + half, thickness as int, half - 1, w0, h0);
    let ghost pd = part(d, x + 1, y + char_height - thickness, char_width - 2, thickness as int, w0, h0);
    let ghost pe = part(e, x as int, y + half, thickness as int, half - 1, w0, h0);
    let ghost pf = part(f, x as int, y + 1, thickness as int, half - 1, w0, h0);
    let ghost pg = part(g, x + 1, y + half - thickness / 2, char_width - 2, thickness as int, w0, h0);
    fill_part(frame, a, x + 1, y, char_width - 2, thickness, color);
    fill_part(frame, b, x + char_width - thickness, y + 1, thickness, half - 1, color);
    proof {
        lemma_painted_twice(f0, pa, pb, rgba);
    }
    fill_part(frame, c, x + char_width - thickness, y + half, thickness, half - 1, color);
    proof {
        lemma_painted_twice(f0, pa.union(pb), pc, rgba);
    }
    fill_part(frame, d, x + 1, y + char_height - thickness, char_width - 2, thickness, color);
    proof {
        lemma_painted_twice(f0, pa.union(pb).union(pc), pd, rgba);
    }
    fill_part(frame, e, x, y + half, thickness, half - 1, color);
    proof {
        lemma_painted_twice(f0, pa.union(pb).union(pc).union(pd), pe, rgba);
    }
    fill_part(frame, f, x, y + 1, thickness, half - 1, color);
    proof {
        lemma_painted_twice(f0, pa.union(pb).union(pc).union(pd).union(pe), pf, rgba);
    }
    fill_part(frame, g, x + 1, y + half - thickness / 2, char_width - 2, thickness, color);
    proof {
        lemma_painted_twice(f0, pa.union(pb).union(pc).union(pd).union(pe).union(pf), pg, rgba);
    }
}

/// The segments `a` to `g` that the seven-segment font lights for `c`, if it draws `c`
/// with segments.
pub open spec fn segments_of(c: char) -> Option<Seq<bool>> {
    match c {
        'F' => Some(seq![true, false, true, false, true, false, false]),
        'P' => Some(seq![true, false, true, true, true, false, false]),
        'S' => Some(seq![true, true, false, true, false, true, true]),
        '0' => Some(seq![true, true, true, false, true, true, true]),
        '1' => Some(seq![false, false, true, false, false, true, false]),
        '2' => Some(seq![true, true, false, true, true, false, true]),
        '3' => Some(seq![true, true, true, true, false, false, true]),
        '4' => Some(seq![false, false, true, true, false, true, true]),
        '5' => Some(seq![true, true, true, true, false, true, false]),
        '6' => Some(seq![true, true, true, true, true, true, false]),
        '7' => Some(seq![true, false, true, false, false, true, false]),
        '8' => Some(seq![true, true, true, true, true, true, true]),
        '9' => Some(seq![true, true, true, true, false, true, true]),
        _ => None,
    }
}

/// The pixels of the glyph for `c` in a cell at `(x, y)`: the lit segments for letters
/// and digits the font has, two square dots for `:`, one near the bottom for `.`, and
/// the outline of the cell for anything else.
pub open spec fn character_pixels(c: char, x: int, y: int, t: int, cw: int, ch: int, width: u32, height: u32) -> Set<int> {
    match segments_of(c) {
        Some(segs) => seven_segment_pixels(x, y, segs, t, cw, ch, width, height),
        None => if c == ':' {
            part(true, x + 3, y + 4, t, t, width, height).union(part(true, x + 3, y + 10, t, t, width, height))
        } else if c == '.' {
            part(true, x + 3, y + ch - 3, t, t, width, height)
        } else if cw > 0 && ch > 0 {
            part(true, x, y, cw, 1, width, height)
                .union(part(true, x, y + ch - 1, cw, 1, width, height))
                .union(part(true, x, y, 1, ch, width, height))
                .union(part(true, x + cw - 1, y, 1, ch, width, height))
        } else {
            Set::empty()
        },
    }
}

/// Draws the glyph for `c` in a seven-segment cell at `(x, y)`.
pub fn draw_character_fast(
    frame: &mut FrameBuffer,
    c: char,
    x: i32,
    y: i32,
    color: Color,
    thickness: i32,
    char_width: i32,
    char_height: i32,
)
    requires
        frame_wf(old(frame)@),
        cell_fits(x as int, y as int, thickness as int, char_width as int, char_height as int),
    ensures
        final(frame)@ == (FrameView {
            bytes: painted(
                old(frame)@.bytes,
                character_pixels(
                    c,
                    x as int,
                    y as int,
                    thickness as int,
                    char_width as int,
                    char_height as int,
                    old(frame)@.width,
                    old(frame)@.height,
                ),
                seq![color.red, color.green, color.blue, 255u8],
            ),
            ..old(frame)@
        }),
        frame_wf(final(frame)@),
{
    let (t, cw, ch) = (thickness, char_width, char_height);
    match c {
        'F' => draw_segment_fast(frame, x, y, true, false, true, false, true, false, false, color, t, cw, ch),
        'P' => draw_segment_fast(frame, x, y, true, false, true, true, true, false, false, color, t, cw, ch),
        'S' => draw_segment_fast(frame, x, y, true, true, false, true, false, true, true, color, t, cw, ch),
        '0' => draw_segment_fast(frame, x, y, true, true, true, false, true, true, true, color, t, cw, ch),
        '1' => draw_segment_fast(frame, x, y, false, false, true, false, false, true, false, color, t, cw, ch),
        '2' => draw_segment_fast(frame, x, y, true, true, false, true, true, false, true, color, t, cw, ch),
        '3' => draw_segment_fast(frame, x, y, true, true, true, true, false, false, true, color, t, cw, ch),
        '4' => draw_segment_fast(frame, x, y, false, false, true, true, false, true, true, color, t, cw, ch),
        '5' => draw_segment_fast(frame, x, y, true, true, true, true, false, true, false, color, t, cw, ch),
        '6' => draw_segment_fast(frame, x, y, true, true, true, true, true, true, false, color, t, cw, ch),
        '7' => draw_segment_fast(frame, x, y, true, false, true, false, false, true, false, color, t, cw, ch),
        '8' => draw_segment_fast(frame, x, y, true, true, true, true, true, true, true, color, t, cw, ch),
        '9' => draw_segment_fast(frame, x, y, true, true, true, true, false, true, true, color, t, cw, ch),
        ':' => {
            let ghost f0 = frame@.bytes;
            let ghost rgba = seq![color.red, color.green, color.blue, 255u8];
            let ghost upper = part(true, x + 3, y + 4, t as int, t as int, frame@.width, frame@.height);
            let ghost lower = part(true, x + 3, y + 10, t as int, t as int, frame@.width, frame@.height);
            fill_part(frame, true, x + 3, y + 4, t, t, color);
            fill_part(frame, true, x + 3, y + 10, t, t, color);
            proof {
                lemma_painted_twice(f0, upper, lower, rgba);
            }
        },
        '.' => {
            if t > 0 {
                fill_part(frame, true, x + 3, y + ch - 3, t, t, color);
            } else {
                proof {
                    lemma_painted_empty(frame@.bytes, seq![color.red, color.green, color.blue, 255u8]);
                }
            }
        },
        _ => {
            let ghost f0 = frame@.bytes;
            let ghost rgba = seq![color.red, color.green, color.blue, 255u8];
            let ghost wd = frame@.width;
            let ghost ht = frame@.height;
            let ghost top = part(true, x as int, y as int, cw as int, 1, wd, ht);
            let ghost bottom = part(true, x as int, y + ch - 1, cw as int, 1, wd, ht);
            let ghost left = part(true, x as int, y as int, 1, ch as int, wd, ht);
            let ghost right = part(true, x + cw - 1, y as int, 1, ch as int, wd, ht);
            if cw <= 0 || ch <= 0 {
                proof {
                    lemma_painted_empty(f0, rgba);
                }
                return;
            }
            fill_part(frame, true, x, y, cw, 1, color);
            fill_part(frame, true, x, y + ch - 1, cw, 1, color);
            proof {
                lemma_painted_twice(f0, top, bottom, rgba);
            }
            fill_part(frame, true, x, y, 1, ch, color);
            proof {
                lemma_painted_twice(f0, top.union(bottom), left, rgba);
            }
            fill_part(frame, true, x + cw - 1, y, 1, ch, color);
            proof {
                lemma_painted_twice(f0, top.union(bottom).union(left), right, rgba);
            }
        },
    }
}


/// The pixels of the first `n` characters of `text` in the seven-segment font, cells
/// `cw` apart from `(x, y)`; cells entirely left or right of the frame are skipped.
pub open spec fn segment_text_pixels(text: Seq<char>, x: int, y: int, n: nat, t: int, cw: int, ch: int, width: u32, height: u32) -> Set<int>
    decreases n,
{
    if n == 0 {
        Set::empty()
    } else {
        let cx = x + (n - 1) * cw;
        segment_text_pixels(text, x, y, (n - 1) as nat, t, cw, ch, width, height).union(
            if cx + cw < 0 || cx >= u32_as_i32(width) {
                Set::empty()
            } else {
                character_pixels(text[n - 1], cx, y, t, cw, ch, width, height)
            },
        )
    }
}

/// A line of seven-segment text at row `y` misses the frame vertically.
pub open spec fn text_culled(y: int, ch: int, height: u32) -> bool {
    y + ch < 0 || y >= u32_as_i32(height)
}

/// The range in which the text's coordinates pass through `f32` unchanged.
pub open spec fn text_fits(x: int, y: int, n: int, t: int, cw: int, ch: int) -> bool {
    &&& 0 <= t <= 0x100_0000
    &&& 0 <= cw <= 0x100_0000
    &&& 0 <= ch <= 0x100_0000
    &&& -0x100_0000 <= x
    &&& -0x100_0000 <= y <= 0x100_0000
    &&& x + (n + 1) * cw <= 0x100_0000
    &&& n <= 0x7fff_ffff
}

/// Draws `text` in the seven-segment font from `(x, y)`, cells `char_width` apart;
/// nothing is drawn when the line misses the frame vertically.
pub fn draw_text_fast(
    frame: &mut FrameBuffer,
    text: &str,
    x: i32,
    y: i32,
    color: Color,
    thickness: i32,
    char_width: i32,
    char_height: i32,
)
    requires
        frame_wf(old(frame)@),
        text_fits(x as int, y as int, text@.len() as int, thickness as int, char_width as int, char_height as int),
    ensures
        final(frame)@ == (FrameView {
            bytes: if text_culled(y as int, char_height as int, old(frame)@.height) {
                old(frame)@.bytes
            } else {
                painted(
                    old(frame)@.bytes,
                    segment_text_pixels(
                        text@,
                        x as int,
                        y as int,
                        text@.len(),
                        thickness as int,
                        char_width as int,
                        char_height as int,
                        old(frame)@.width,
                        old(frame)@.height,
                    ),
                    seq![color.red, color.green, color.blue, 255u8],
                )
            },
            ..old(frame)@
        }),
{
    let width = frame.width();
    let height = frame.height();
    proof {
        lemma_u32_as_i32(width);
        lemma_u32_as_i32(height);
    }
    if y + char_height < 0 || y >= height as i32 {
        return;
    }
    let ghost f0 = frame@;
    let ghost rgba = seq![color.red, color.green, color.blue, 255u8];
    proof {
        lemma_painted_empty(f0.bytes, rgba);
    }
    let n = text.unicode_len();
    let mut i: usize = 0;
    while i < n
        invariant
            n == text@.len(),
            i <= n,
            text_fits(x as int, y as int, n as int, thickness as int, char_width as int, char_height as int),
            frame_wf(frame@),
            frame@.width == f0.width,
            frame@.height == f0.height,
            width == f0.width,
            height == f0.height,
            rgba == seq![color.red, color.green, color.blue, 255u8],
            u32_as_i32(width) == (width as i32) as int,
            frame@.bytes == painted(
                f0.bytes,
                segment_text_pixels(text@, x as int, y as int, i as nat, thickness as int, char_width as int, char_height as int, width, height),
                rgba,
            ),
        decreases n - i,
    {
        proof {
            assert(i * char_width <= n * char_width) by (nonlinear_arith)
                requires
                    i <= n,
                    char_width >= 0,
            ;
            assert(n * char_width + char_width == (n + 1) * char_width) by (nonlinear_arith);
            assert(i * char_width >= 0) by (nonlinear_arith)
                requires
                    char_width >= 0,
            ;
        }
        assert((i as i32) as int == i as int);
        let cx = x + (i as i32) * char_width;
        let ghost before = segment_text_pixels(text@, x as int, y as int, i as nat, thickness as int, char_width as int, char_height as int, width, height);
        let c = text.get_char(i);
        let ghost next = segment_text_pixels(text@, x as int, y as int, (i + 1) as nat, thickness as int, char_width as int, char_height as int, width, height);
        assert(next == before.union(
            if cx + char_width < 0 || cx >= u32_as_i32(width) {
                Set::empty()
            } else {
                character_pixels(text@[i as int], cx as int, y as int, thickness as int, char_width as int, char_height as int, width, height)
            },
        ));
        if cx + char_width < 0 || cx >= width as i32 {
            proof {
                assert(before.union(Set::<int>::empty()) =~= before);
            }
        } else {
            draw_character_fast(frame, c, cx, y, color, thickness, char_width, char_height);
            proof {
                lemma_painted_twice(
                    f0.bytes,
                    before,
                    character_pixels(c, cx as int, y as int, thickness as int, char_width as int, char_height as int, width, height),
                    rgba,
                );
            }
        }
        i = i + 1;
    }
}

} // verus!
