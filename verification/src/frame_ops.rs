use vstd::prelude::*;
use crate::pixels::{u32_as_i32, lemma_u32_as_i32};

verus! {

/// The frame after every whole four-byte pixel has been set to `rgba`; bytes past the
/// last whole pixel keep their value.
pub open spec fn filled(frame: Seq<u8>, rgba: Seq<u8>) -> Seq<u8> {
    Seq::new(
        frame.len(),
        |b: int|
            if b < 4 * (frame.len() / 4) {
                rgba[b % 4]
            } else {
                frame[b]
            },
    )
}

/// Sets every whole pixel of `frame` to `rgba`.
pub fn fill_pixels(frame: &mut [u8], rgba: [u8; 4])
    ensures
        final(frame)@ == filled(old(frame)@, rgba@),
{
    let ghost f0 = frame@;
    let whole = frame.len() / 4;
    assert(4 * whole <= f0.len());
    let mut p: usize = 0;
    while p < whole
        invariant
            whole == f0.len() / 4,
            4 * whole <= f0.len(),
            f0.len() <= usize::MAX,
            p <= whole,
            frame@.len() == f0.len(),
            forall|b: int|
                0 <= b < f0.len() ==> #[trigger] frame@[b] == if b < 4 * p {
                    rgba@[b % 4]
                } else {
                    f0[b]
                },
        decreases whole - p,
    {
        let idx = 4 * p;
        frame[idx] = rgba[0];
        frame[idx + 1] = rgba[1];
        frame[idx + 2] = rgba[2];
        frame[idx + 3] = rgba[3];
        p = p + 1;
    }
    assert(frame@ =~= filled(f0, rgba@));
}

/// Clears the frame to the dark backdrop colour `(5, 5, 10)`, fully opaque.
pub fn clear_frame(frame: &mut [u8])
    ensures
        final(frame)@ == filled(old(frame)@, seq![5u8, 5u8, 10u8, 255u8]),
{
    let rgba: [u8; 4] = [5, 5, 10, 255];
    assert(rgba@ =~= seq![5u8, 5u8, 10u8, 255u8]);
    fill_pixels(frame, rgba);
}

/// The byte offset of pixel `(x, y)` of a `width`-by-`height` view drawn `x_offset`
/// pixels into a buffer `buffer_width` pixels wide, when the pixel lies inside the view
/// and its four bytes inside a frame of `len` bytes.
pub open spec fn view_slot(len: int, width: u32, height: u32, x: int, y: int, x_offset: int, buffer_width: int) -> Option<int> {
    if 0 <= x < u32_as_i32(width) && 0 <= y < u32_as_i32(height) && 4 * (y * buffer_width + x + x_offset) + 3 < len {
        Some(4 * (y * buffer_width + x + x_offset))
    } else {
        None
    }
}

/// The index arithmetic for every pixel of the view stays within `usize`.
pub open spec fn view_fits(width: u32, height: u32, x_offset: int, buffer_width: int) -> bool {
    (u32_as_i32(width) > 0 && u32_as_i32(height) > 0) ==> 4 * ((u32_as_i32(height) - 1) * buffer_width + u32_as_i32(width) - 1 + x_offset) + 3 <= usize::MAX
}

/// Finds the bytes of pixel `(x, y)` of the view, if it is inside the view and the frame.
pub fn pixel_slot(len: usize, width: u32, height: u32, x: i32, y: i32, x_offset: usize, buffer_width: u32) -> (slot: Option<usize>)
    requires
        view_fits(width, height, x_offset as int, buffer_width as int),
    ensures
        slot == (match view_slot(len as int, width, height, x as int, y as int, x_offset as int, buffer_width as int) {
            Some(i) => Some(i as usize),
            None => None,
        }),
{
    proof {
        lemma_u32_as_i32(width);
        lemma_u32_as_i32(height);
    }
    if x >= 0 && x < width as i32 && y >= 0 && y < height as i32 {
        proof {
            let w = u32_as_i32(width);
            let h = u32_as_i32(height);
            let bw = buffer_width as int;
            assert(y * bw + x <= (h - 1) * bw + w - 1) by (nonlinear_arith)
                requires
                    0 <= y < h,
                    0 <= x < w,
                    bw >= 0,
            ;
        }
        let idx = 4 * ((y as usize * buffer_width as usize) + x as usize + x_offset);
        if idx + 3 < len {
            return Some(idx);
        }
    }
    None
}

} // verus!
