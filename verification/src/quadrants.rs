use vstd::prelude::*;
use vstd::string::StrSliceExecFns;
use crate::frame_ops::{filled, fill_pixels};

verus! {

/// `dst` after pixel `(x, y)` of the `src_width`-wide image `src` has been copied to
/// pixel `(x + x_offset, y + y_offset)` of the `dst_width`-wide image `dst`, when both
/// pixels lie inside their buffers.
pub open spec fn copy_cell(dst: Seq<u8>, src: Seq<u8>, x: int, y: int, x_offset: int, y_offset: int, src_width: int, dst_width: int) -> Seq<u8> {
    let s = 4 * (y * src_width + x);
    let d = 4 * ((y + y_offset) * dst_width + x + x_offset);
    if s + 3 < src.len() && d + 3 < dst.len() {
        dst.update(d, src[s]).update(d + 1, src[s + 1]).update(d + 2, src[s + 2]).update(d + 3, src[s + 3])
    } else {
        dst
    }
}

/// `dst` after the first `c` pixels of row `y` have been copied, left to right.
pub open spec fn copy_row(dst: Seq<u8>, src: Seq<u8>, y: int, c: int, x_offset: int, y_offset: int, src_width: int, dst_width: int) -> Seq<u8>
    decreases c,
{
    if c <= 0 {
        dst
    } else {
        copy_cell(copy_row(dst, src, y, c - 1, x_offset, y_offset, src_width, dst_width), src, c - 1, y, x_offset, y_offset, src_width, dst_width)
    }
}

/// `dst` after the first `copy_width` pixels of the first `r` rows of a `src_width`-wide
/// image have been copied, rows top to bottom.
pub open spec fn copy_rows(dst: Seq<u8>, src: Seq<u8>, r: int, x_offset: int, y_offset: int, copy_width: int, src_width: int, dst_width: int) -> Seq<u8>
    decreases r,
{
    if r <= 0 {
        dst
    } else {
        copy_row(copy_rows(dst, src, r - 1, x_offset, y_offset, copy_width, src_width, dst_width), src, r - 1, copy_width, x_offset, y_offset, src_width, dst_width)
    }
}

/// The index arithmetic of copying a `copy_width`-by-`copy_height` block stays within
/// `usize`.
pub open spec fn block_copy_fits(src_width: int, x_offset: int, y_offset: int, copy_width: int, copy_height: int, dst_width: int) -> bool {
    copy_width > 0 && copy_height > 0 ==> {
        &&& 4 * ((copy_height - 1) * src_width + copy_width - 1) + 3 <= usize::MAX
        &&& 4 * ((copy_height - 1 + y_offset) * dst_width + copy_width - 1 + x_offset) + 3 <= usize::MAX
        &&& copy_height - 1 + y_offset <= usize::MAX
    }
}

/// Copies the top-left `copy_width`-by-`copy_height` block of `src`, a `src_width`-wide
/// image, into `dst`, a `dst_width`-wide image, with its top-left corner at
/// `(x_offset, y_offset)`, pixel by pixel, rows top to bottom; pixels outside either
/// buffer are skipped.
pub fn copy_block(
    dst: &mut [u8],
    src: &[u8],
    src_width: usize,
    x_offset: usize,
    y_offset: usize,
    copy_width: usize,
    copy_height: usize,
    dst_width: usize,
)
    requires
        block_copy_fits(src_width as int, x_offset as int, y_offset as int, copy_width as int, copy_height as int, dst_width as int),
    ensures
        final(dst)@ == copy_rows(
            old(dst)@,
            src@,
            copy_height as int,
            x_offset as int,
            y_offset as int,
            copy_width as int,
            src_width as int,
            dst_width as int,
        ),
{
    let ghost d0 = dst@;
    let mut y: usize = 0;
    while y < copy_height
        invariant
            y <= copy_height,
            block_copy_fits(src_width as int, x_offset as int, y_offset as int, copy_width as int, copy_height as int, dst_width as int),
            dst@.len() == d0.len(),
            dst@ == copy_rows(d0, src@, y as int, x_offset as int, y_offset as int, copy_width as int, src_width as int, dst_width as int),
        decreases copy_height - y,
    {
        let ghost row_start = dst@;
        let mut x: usize = 0;
        while x < copy_width
            invariant
                y < copy_height,
                x <= copy_width,
                block_copy_fits(src_width as int, x_offset as int, y_offset as int, copy_width as int, copy_height as int, dst_width as int),
                dst@.len() == d0.len(),
                row_start == copy_rows(d0, src@, y as int, x_offset as int, y_offset as int, copy_width as int, src_width as int, dst_width as int),
                dst@ == copy_row(row_start, src@, y as int, x as int, x_offset as int, y_offset as int, src_width as int, dst_width as int),
            decreases copy_width - x,
        {
            proof {
                let sw = src_width as int;
                let dw = dst_width as int;
                assert(y * sw + x <= (copy_height - 1) * sw + copy_width - 1) by (nonlinear_arith)
                    requires
                        y < copy_height,
                        x < copy_width,
                        sw >= 0,
                ;
                assert((y + y_offset) * dw <= (copy_height - 1 + y_offset) * dw) by (nonlinear_arith)
                    requires
                        y < copy_height,
                        dw >= 0,
                ;
            }
            let src_idx = 4 * (y * src_width + x);
            let dst_idx = 4 * ((y + y_offset) * dst_width + (x + x_offset));
            if src_idx + 3 < src.len() && dst_idx + 3 < dst.len() {
                dst[dst_idx] = src[src_idx];
                dst[dst_idx + 1] = src[src_idx + 1];
                dst[dst_idx + 2] = src[src_idx + 2];
                dst[dst_idx + 3] = src[src_idx + 3];
            }
            x = x + 1;
        }
        y = y + 1;
    }
}

/// Copies the `quad_width`-by-`quad_height` image `src` into `dst`, a `dst_width`-wide
/// image, with its top-left corner at `(x_offset, y_offset)`, pixel by pixel, rows top to
/// bottom; pixels outside either buffer are skipped.
pub fn copy_to_quadrant(
    dst: &mut [u8],
    src: &[u8],
    x_offset: usize,
    y_offset: usize,
    quad_width: usize,
    quad_height: usize,
    dst_width: usize,
)
    requires
        block_copy_fits(quad_width as int, x_offset as int, y_offset as int, quad_width as int, quad_height as int, dst_width as int),
    ensures
        final(dst)@ == copy_rows(
            old(dst)@,
            src@,
            quad_height as int,
            x_offset as int,
            y_offset as int,
            quad_width as int,
            quad_width as int,
            dst_width as int,
        ),
{
    copy_block(dst, src, quad_width, x_offset, y_offset, quad_width, quad_height, dst_width);
}

/// `frame` with its first bytes replaced by those of `buffer`, as many as both have.
pub open spec fn prefix_copied(frame: Seq<u8>, buffer: Seq<u8>) -> Seq<u8> {
    Seq::new(frame.len(), |i: int| if i < buffer.len() { buffer[i] } else { frame[i] })
}

/// Copies as many leading bytes of `buffer` into `frame` as both have.
pub fn copy_buffer_prefix(frame: &mut [u8], buffer: &[u8])
    ensures
        final(frame)@ == prefix_copied(old(frame)@, buffer@),
{
    let ghost f0 = frame@;
    let copy_len = if frame.len() <= buffer.len() {
        frame.len()
    } else {
        buffer.len()
    };
    let mut i: usize = 0;
    while i < copy_len
        invariant
            copy_len <= frame@.len(),
            copy_len <= buffer@.len(),
            copy_len == f0.len() || copy_len == buffer@.len(),
            frame@.len() == f0.len(),
            i <= copy_len,
            forall|k: int| 0 <= k < f0.len() ==> #[trigger] frame@[k] == if k < i { buffer@[k] } else { f0[k] },
        decreases copy_len - i,
    {
        frame[i] = buffer[i];
        i = i + 1;
    }
    assert(frame@ =~= prefix_copied(f0, buffer@));
}

/// Whether two strings hold the same characters.
pub fn str_equals(a: &str, b: &str) -> (same: bool)
    ensures
        same == (a@ == b@),
{
    let n = a.unicode_len();
    if n != b.unicode_len() {
        return false;
    }
    let mut i: usize = 0;
    while i < n
        invariant
            n == a@.len(),
            n == b@.len(),
            i <= n,
            a@.subrange(0, i as int) == b@.subrange(0, i as int),
        decreases n - i,
    {
        if a.get_char(i) != b.get_char(i) {
            assert(a@[i as int] != b@[i as int]);
            return false;
        }
        assert(a@.subrange(0, i + 1) =~= a@.subrange(0, i as int).push(a@[i as int]));
        assert(b@.subrange(0, i + 1) =~= b@.subrange(0, i as int).push(b@[i as int]));
        i = i + 1;
    }
    assert(a@ =~= a@.subrange(0, n as int));
    assert(b@ =~= b@.subrange(0, n as int));
    true
}

/// The visualisations the factory builds.
#[derive(Clone, Copy, PartialEq, Eq, Debug)]
pub enum VisualizationKind {
    Fibonacci,
    Pythagoras,
    SimpleProof,
    ParticleFountain,
    RayPattern,
    Mesmerise,
    Default,
}

/// The visualisation registered under `name`, or the default one.
pub open spec fn kind_named(name: Seq<char>) -> VisualizationKind {
    if name == "fibonacci"@ {
        VisualizationKind::Fibonacci
    } else if name == "pythagoras"@ {
        VisualizationKind::Pythagoras
    } else if name == "simple_proof"@ {
        VisualizationKind::SimpleProof
    } else if name == "particle_fountain"@ {
        VisualizationKind::ParticleFountain
    } else if name == "ray_pattern"@ {
        VisualizationKind::RayPattern
    } else if name == "mesmerise"@ {
        VisualizationKind::Mesmerise
    } else {
        VisualizationKind::Default
    }
}

/// Builds visualisations by name.
pub struct VisualizationFactory;

impl VisualizationFactory {
    /// The visualisation registered under `name`; an unknown name gives the default one.
    pub fn create(name: &str) -> (kind: VisualizationKind)
        ensures
            kind == kind_named(name@),
    {
        if str_equals(name, "fibonacci") {
            VisualizationKind::Fibonacci
        } else if str_equals(name, "pythagoras") {
            VisualizationKind::Pythagoras
        } else if str_equals(name, "simple_proof") {
            VisualizationKind::SimpleProof
        } else if str_equals(name, "particle_fountain") {
            VisualizationKind::ParticleFountain
        } else if str_equals(name, "ray_pattern") {
            VisualizationKind::RayPattern
        } else if str_equals(name, "mesmerise") {
            VisualizationKind::Mesmerise
        } else {
            VisualizationKind::Default
        }
    }
}

/// Clears the frame to opaque black, as the default visualisation draws.
pub fn draw_default(frame: &mut [u8])
    ensures
        final(frame)@ == filled(old(frame)@, seq![0u8, 0u8, 0u8, 255u8]),
{
    let black: [u8; 4] = [0, 0, 0, 255];
    assert(black@ =~= seq![0u8, 0u8, 0u8, 255u8]);
    fill_pixels(frame, black);
}

} // verus!
