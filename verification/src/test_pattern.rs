use vstd::prelude::*;

verus! {

/// Whether the first byte of every pixel, its red channel, is zero.
pub fn red_channel_blank(frame: &[u8]) -> (blank: bool)
    ensures
        blank == forall|i: int| 0 <= i < frame@.len() && i % 4 == 0 ==> frame@[i] == 0,
{
    let mut i: usize = 0;
    while i < frame.len()
        invariant
            i <= frame@.len() + 3,
            i % 4 == 0,
            forall|k: int| 0 <= k < i && k < frame@.len() && k % 4 == 0 ==> frame@[k] == 0,
        decreases frame@.len() + 3 - i,
    {
        if frame[i] != 0 {
            return false;
        }
        if frame.len() - i <= 4 {
            return true;
        }
        i = i + 4;
    }
    true
}

/// The colour the test pattern gives pixel `(x, y)`: red `(x + y) % 255`, green
/// `2x % 255`, blue `2y % 255`, fully opaque.
pub open spec fn pattern_pixel(x: int, y: int) -> Seq<u8> {
    seq![((x + y) % 255) as u8, ((2 * x) % 255) as u8, ((2 * y) % 255) as u8, 255u8]
}

/// Fills the `width`-by-`height` grid of pixels at the start of `frame` with the
/// colourful test pattern shown when nothing else was drawn; later bytes are kept.
pub fn draw_test_pattern(frame: &mut [u8], width: u32, height: u32)
    requires
        width * height <= u32::MAX,
        2 * width <= u32::MAX,
        2 * height <= u32::MAX,
        4 * (width * height) <= old(frame)@.len(),
    ensures
        final(frame)@.len() == old(frame)@.len(),
        forall|y: int, x: int, k: int|
            0 <= y < height && 0 <= x < width && 0 <= k < 4
                ==> #[trigger] final(frame)@[4 * (y * width + x) + k] == pattern_pixel(x, y)[k],
        forall|b: int| 4 * (width * height) <= b < old(frame)@.len() ==> final(frame)@[b] == old(frame)@[b],
{
    let ghost f0 = frame@;
    let n = frame.len();
    let mut y: u32 = 0;
    while y < height
        invariant
            y <= height,
            width * height <= u32::MAX,
            2 * width <= u32::MAX,
            2 * height <= u32::MAX,
            4 * (width * height) <= f0.len(),
            n == f0.len(),
            frame@.len() == f0.len(),
            forall|yy: int, x: int, k: int|
                0 <= yy < y && 0 <= x < width && 0 <= k < 4
                    ==> #[trigger] frame@[4 * (yy * width + x) + k] == pattern_pixel(x, yy)[k],
            forall|b: int| 4 * (y * width) <= b < f0.len() ==> frame@[b] == f0[b],
        decreases height - y,
    {
        let mut x: u32 = 0;
        while x < width
            invariant
                y < height,
                x <= width,
                width * height <= u32::MAX,
                2 * width <= u32::MAX,
                2 * height <= u32::MAX,
                4 * (width * height) <= f0.len(),
                n == f0.len(),
                frame@.len() == f0.len(),
                forall|yy: int, xx: int, k: int|
                    0 <= yy < y && 0 <= xx < width && 0 <= k < 4
                        ==> #[trigger] frame@[4 * (yy * width + xx) + k] == pattern_pixel(xx, yy)[k],
                forall|xx: int, k: int|
                    0 <= xx < x && 0 <= k < 4
                        ==> #[trigger] frame@[4 * (y * width + xx) + k] == pattern_pixel(xx, y as int)[k],
                forall|b: int| 4 * (y * width + x) <= b < f0.len() ==> frame@[b] == f0[b],
            decreases width - x,
        {
            proof {
                assert(y * width + x < width * height) by (nonlinear_arith)
                    requires
                        y < height,
                        x < width,
                ;
            }
            let p = y * width + x;
            assert(4 * p + 3 < f0.len());
            let idx = 4 * (p as usize);
            let ghost before = frame@;
            frame[idx] = ((x + y) % 255) as u8;
            frame[idx + 1] = ((x * 2) % 255) as u8;
            frame[idx + 2] = ((y * 2) % 255) as u8;
            frame[idx + 3] = 255;
            proof {
                assert forall|yy: int, xx: int, k: int|
                    0 <= yy < y && 0 <= xx < width && 0 <= k < 4
                        implies #[trigger] frame@[4 * (yy * width + xx) + k] == pattern_pixel(xx, yy)[k] by {
                    assert(yy * width + xx < y * width) by (nonlinear_arith)
                        requires
                            yy < y,
                            xx < width,
                    ;
                    assert(before[4 * (yy * width + xx) + k] == pattern_pixel(xx, yy)[k]);
                }
            }
            x = x + 1;
        }
        proof {
            assert((y + 1) * width == y * width + width) by (nonlinear_arith);
        }
        y = y + 1;
    }
    assert(height * width == width * height) by (nonlinear_arith);
}

} // verus!
