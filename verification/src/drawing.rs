use vstd::prelude::*;
use crate::color::Color;
use crate::frame_ops::{filled, fill_pixels};
use crate::pixels::{in_clip, lemma_painted_empty, lemma_painted_insert, lemma_u32_as_i32, painted, write_pixel};

verus! {

/// Width in pixels of the window frame that buffers are copied into.
pub const TARGET_WIDTH: u32 = 1600;

/// Height in pixels of the window frame that buffers are copied into.
pub const TARGET_HEIGHT: u32 = 800;

/// What a frame buffer holds: its RGBA bytes, row by row, and its size in pixels.
#[verifier::ext_equal]
pub struct FrameView {
    pub bytes: Seq<u8>,
    pub width: u32,
    pub height: u32,
}

/// An RGBA frame buffer of a fixed size.
pub struct FrameBuffer {
    buffer: Vec<u8>,
    width: u32,
    height: u32,
}

impl View for FrameBuffer {
    type V = FrameView;

    closed spec fn view(&self) -> FrameView {
        FrameView { bytes: self.buffer@, width: self.width, height: self.height }
    }
}

/// The bytes of a `width`-by-`height` RGBA frame fit `u32` arithmetic.
pub open spec fn frame_size_fits(width: u32, height: u32) -> bool {
    4 * (width * height) <= u32::MAX
}

/// A frame of the given size holds exactly four bytes per pixel.
pub open spec fn frame_wf(v: FrameView) -> bool {
    &&& frame_size_fits(v.width, v.height)
    &&& v.bytes.len() == 4 * (v.width * v.height)
}

/// The smaller of two sizes.
pub open spec fn min_u32(a: u32, b: u32) -> u32 {
    if a <= b {
        a
    } else {
        b
    }
}

/// `target` after the pixels of the `width`-by-`height` frame `src` whose rows and
/// columns fall below those of the window frame have been copied to the same place in it
/// (rows earlier than `row`, and the first `col` columns of row `row`); bytes whose pixel
/// does not fit either frame keep their value.
pub open spec fn copied_upto(target: Seq<u8>, src: Seq<u8>, width: u32, height: u32, row: int, col: int) -> Seq<u8> {
    Seq::new(
        target.len(),
        |b: int|
            {
                let p = b / 4;
                let r = p / TARGET_WIDTH as int;
                let c = p % TARGET_WIDTH as int;
                if 4 * p + 3 < target.len() && r < min_u32(height, TARGET_HEIGHT) && c < min_u32(width, TARGET_WIDTH)
                    && (r < row || (r == row && c < col)) && 4 * (r * width + c) + 3 < src.len() {
                    src[4 * (r * width + c) + b % 4]
                } else {
                    target[b]
                }
            },
    )
}

/// What copying the frame `src` into `target` gives: the whole frame when the sizes
/// match, otherwise the pixels that fit both, each at its own row and column.
pub open spec fn copied(target: Seq<u8>, src: Seq<u8>, width: u32, height: u32) -> Seq<u8> {
    if target.len() == src.len() {
        src
    } else {
        copied_upto(target, src, width, height, min_u32(height, TARGET_HEIGHT) as int, 0)
    }
}

impl FrameBuffer {
    /// A black, fully transparent frame of `width` by `height` pixels.
    pub fn new(width: u32, height: u32) -> (fb: FrameBuffer)
        requires
            frame_size_fits(width, height),
        ensures
            frame_wf(fb@),
            fb@.width == width,
            fb@.height == height,
            fb@.bytes == Seq::new((4 * (width * height)) as nat, |i: int| 0u8),
    {
        let len = width * height * 4;
        let buffer = vec![0u8; len as usize];
        let fb = FrameBuffer { buffer, width, height };
        assert(fb@.bytes =~= Seq::new((4 * (width * height)) as nat, |i: int| 0u8));
        fb
    }

    /// The frame's bytes.
    pub fn buffer(&self) -> (bytes: &[u8])
        ensures
            bytes@ == self@.bytes,
    {
        self.buffer.as_slice()
    }

    /// The frame's bytes, for writing.
    pub fn buffer_mut(&mut self) -> (bytes: &mut [u8])
        ensures
            bytes@ == old(self)@.bytes,
            final(self)@ == (FrameView { bytes: final(bytes)@, ..old(self)@ }),
    {
        self.buffer.as_mut_slice()
    }

    /// The width in pixels.
    pub fn width(&self) -> (w: u32)
        ensures
            w == self@.width,
    {
        self.width
    }

    /// The height in pixels.
    pub fn height(&self) -> (h: u32)
        ensures
            h == self@.height,
    {
        self.height
    }

    /// Sets every pixel to `color`, fully opaque.
    pub fn clear(&mut self, color: Color)
        requires
            frame_wf(old(self)@),
        ensures
            final(self)@ == (FrameView {
                bytes: filled(old(self)@.bytes, seq![color.red, color.green, color.blue, 255u8]),
                ..old(self)@
            }),
    {
        let rgba: [u8; 4] = [color.red, color.green, color.blue, 255];
        assert(rgba@ =~= seq![color.red, color.green, color.blue, 255u8]);
        fill_pixels(self.buffer.as_mut_slice(), rgba);
    }

    /// Sets pixel `(x, y)` to `color`, fully opaque, when it lies inside the frame.
    pub fn set_pixel(&mut self, x: i32, y: i32, color: Color)
        requires
            frame_wf(old(self)@),
        ensures
            final(self)@ == (FrameView {
                bytes: painted(
                    old(self)@.bytes,
                    if in_clip(x as int, y as int, old(self)@.width, old(self)@.height) {
                        set![y * old(self)@.width + x]
                    } else {
                        Set::empty()
                    },
                    seq![color.red, color.green, color.blue, 255u8],
                ),
                ..old(self)@
            }),
    {
        let ghost rgba = seq![color.red, color.green, color.blue, 255u8];
        proof {
            lemma_u32_as_i32(self.width);
            lemma_u32_as_i32(self.height);
            lemma_painted_empty(self.buffer@, rgba);
        }
        if x >= 0 && x < self.width as i32 && y >= 0 && y < self.height as i32 {
            proof {
                let w = self.width as int;
                let h = self.height as int;
                assert(y * w + x <= (h - 1) * w + w - 1) by (nonlinear_arith)
                    requires
                        0 <= y < h,
                        0 <= x < w,
                ;
                assert((h - 1) * w + w - 1 == w * h - 1) by (nonlinear_arith);
                lemma_painted_insert(self.buffer@, Set::empty(), y * w + x, rgba);
                assert(Set::<int>::empty().insert(y * w + x) =~= set![y * w + x]);
            }
            let index = ((y as u32 * self.width + x as u32) * 4) as usize;
            if index + 3 < self.buffer.len() {
                let px: [u8; 4] = [color.red, color.green, color.blue, 255];
                assert(px@ =~= rgba);
                write_pixel(self.buffer.as_mut_slice(), index, px);
            }
        }
    }

    /// Copies the frame into `target`: all of it when the sizes match, otherwise each
    /// pixel that fits both this frame and the window-sized `target` to the same row and
    /// column.
    pub fn copy_to(&self, target: &mut [u8])
        requires
            frame_wf(self@),
        ensures
            final(target)@ == copied(old(target)@, self@.bytes, self@.width, self@.height),
    {
        let ghost t0 = target@;
        let ghost src = self.buffer@;
        if target.len() == self.buffer.len() {
            let n = target.len();
            let mut i: usize = 0;
            while i < n
                invariant
                    n == target@.len(),
                    n == src.len(),
                    src == self.buffer@,
                    i <= n,
                    forall|b: int| 0 <= b < i ==> #[trigger] target@[b] == src[b],
                decreases n - i,
            {
                target[i] = self.buffer[i];
                i = i + 1;
            }
            assert(target@ =~= src);
        } else {
            let min_width = if self.width <= TARGET_WIDTH {
                self.width
            } else {
                TARGET_WIDTH
            };
            let min_height = if self.height <= TARGET_HEIGHT {
                self.height
            } else {
                TARGET_HEIGHT
            };
            assert(target@ =~= copied_upto(t0, src, self.width, self.height, 0, 0));
            let mut y: u32 = 0;
            while y < min_height
                invariant
                    frame_wf(self@),
                    src == self.buffer@,
                    min_width == min_u32(self.width, TARGET_WIDTH),
                    min_height == min_u32(self.height, TARGET_HEIGHT),
                    y <= min_height,
                    target@ == copied_upto(t0, src, self.width, self.height, y as int, 0),
                decreases min_height - y,
            {
                let mut x: u32 = 0;
                while x < min_width
                    invariant
                        frame_wf(self@),
                        src == self.buffer@,
                        min_width == min_u32(self.width, TARGET_WIDTH),
                        min_height == min_u32(self.height, TARGET_HEIGHT),
                        y < min_height,
                        x <= min_width,
                        target@ == copied_upto(t0, src, self.width, self.height, y as int, x as int),
                    decreases min_width - x,
                {
                    proof {
                        let w = self.width as int;
                        let h = self.height as int;
                        assert(y * w + x <= (h - 1) * w + w - 1) by (nonlinear_arith)
                            requires
                                0 <= y < h,
                                0 <= x < w,
                        ;
                        assert((h - 1) * w + w - 1 == w * h - 1) by (nonlinear_arith);
                    }
                    let src_idx = ((y * self.width + x) * 4) as usize;
                    let dst_idx = ((y * TARGET_WIDTH + x) * 4) as usize;
                    let ghost before = target@;
                    if src_idx + 3 < self.buffer.len() && dst_idx + 3 < target.len() {
                        target[dst_idx] = self.buffer[src_idx];
                        target[dst_idx + 1] = self.buffer[src_idx + 1];
                        target[dst_idx + 2] = self.buffer[src_idx + 2];
                        target[dst_idx + 3] = self.buffer[src_idx + 3];
                    }
                    proof {
                        let next = copied_upto(t0, src, self.width, self.height, y as int, x + 1);
                        assert forall|b: int| 0 <= b < target@.len() implies target@[b] == next[b] by {
                            let p = b / 4;
                            if dst_idx <= b < dst_idx + 4 {
                                assert(p == y * 1600 + x);
                                assert(p / 1600 == y);
                                assert(p % 1600 == x);
                            }
                        }
                        assert(target@ =~= next);
                    }
                    x = x + 1;
                }
                proof {
                    let a = copied_upto(t0, src, self.width, self.height, y as int, min_width as int);
                    let b2 = copied_upto(t0, src, self.width, self.height, y + 1, 0);
                    assert(a =~= b2);
                }
                y = y + 1;
            }
        }
    }
}

} // verus!
