use vstd::prelude::*;
use crate::color::Color;
use crate::drawing::{frame_wf, FrameView};
use crate::pixel_utils::fits_i32;
use crate::pixel_utils::{clipped_block, clipped_cell, fill_clipped_block, grid_cell};
use crate::pixels::{grid_fits, lemma_painted_empty, lemma_painted_twice, lemma_scanned_start, painted};
use crate::rendering::{fill_part, part, FrameBuffer};

verus! {

/// The Fibonacci numbers as the spiral counts them: 1, 1, 2, 3, 5, ...
pub open spec fn fib(k: nat) -> nat
    decreases k,
{
    if k < 2 {
        1
    } else {
        fib((k - 1) as nat) + fib((k - 2) as nat)
    }
}

/// The number of squares the spiral is made of.
pub const SPIRAL_SQUARES: usize = 12;

/// The Fibonacci numbers grow with their index.
proof fn lemma_fib_monotonic(i: nat, j: nat)
    requires
        i <= j,
    ensures
        fib(i) <= fib(j),
    decreases j - i,
{
    if i < j {
        lemma_fib_monotonic(i, (j - 1) as nat);
    }
}

/// The twelfth Fibonacci number of the spiral is 144.
proof fn lemma_fib_eleven()
    ensures
        fib(11) == 144,
{
    reveal_with_fuel(fib, 2);
    assert(fib(2) == 2);
    assert(fib(3) == 3);
    assert(fib(4) == 5);
    assert(fib(5) == 8);
    assert(fib(6) == 13);
    assert(fib(7) == 21);
    assert(fib(8) == 34);
    assert(fib(9) == 55);
    assert(fib(10) == 89);
}

/// The side lengths of the spiral's squares in Fibonacci units: the first
/// `SPIRAL_SQUARES` Fibonacci numbers.
pub fn fibonacci_numbers() -> (v: Vec<i32>)
    ensures
        v.len() == SPIRAL_SQUARES,
        forall|k: int| 0 <= k < SPIRAL_SQUARES ==> v[k] == fib(k as nat),
{
    let mut v: Vec<i32> = vec![1, 1];
    let mut i: usize = 2;
    while i < SPIRAL_SQUARES
        invariant
            2 <= i <= SPIRAL_SQUARES,
            v.len() == i,
            forall|k: int| 0 <= k < i ==> v[k] == fib(k as nat),
        decreases SPIRAL_SQUARES - i,
    {
        proof {
            lemma_fib_eleven();
            lemma_fib_monotonic(i as nat, 11);
            lemma_fib_monotonic((i - 1) as nat, 11);
            lemma_fib_monotonic((i - 2) as nat, 11);
        }
        let next = v[i - 1] + v[i - 2];
        v.push(next);
        i = i + 1;
    }
    v
}

/// The colour of spiral square `i`, from a cycle of twelve.
pub open spec fn square_color_of(i: int) -> Color {
    let k = i % 12;
    if k == 0 {
        Color { red: 255, green: 0, blue: 0 }
    } else if k == 1 {
        Color { red: 0, green: 255, blue: 0 }
    } else if k == 2 {
        Color { red: 0, green: 0, blue: 255 }
    } else if k == 3 {
        Color { red: 255, green: 255, blue: 0 }
    } else if k == 4 {
        Color { red: 255, green: 0, blue: 255 }
    } else if k == 5 {
        Color { red: 0, green: 255, blue: 255 }
    } else if k == 6 {
        Color { red: 255, green: 128, blue: 0 }
    } else if k == 7 {
        Color { red: 128, green: 0, blue: 255 }
    } else if k == 8 {
        Color { red: 0, green: 128, blue: 0 }
    } else if k == 9 {
        Color { red: 128, green: 128, blue: 255 }
    } else if k == 10 {
        Color { red: 128, green: 64, blue: 0 }
    } else {
        Color { red: 255, green: 128, blue: 128 }
    }
}

/// The colour of spiral square `i`.
pub fn square_color(i: usize) -> (c: Color)
    ensures
        c == square_color_of(i as int),
{
    let k = i % 12;
    if k == 0 {
        Color::new(255, 0, 0)
    } else if k == 1 {
        Color::new(0, 255, 0)
    } else if k == 2 {
        Color::new(0, 0, 255)
    } else if k == 3 {
        Color::new(255, 255, 0)
    } else if k == 4 {
        Color::new(255, 0, 255)
    } else if k == 5 {
        Color::new(0, 255, 255)
    } else if k == 6 {
        Color::new(255, 128, 0)
    } else if k == 7 {
        Color::new(128, 0, 255)
    } else if k == 8 {
        Color::new(0, 128, 0)
    } else if k == 9 {
        Color::new(128, 128, 255)
    } else if k == 10 {
        Color::new(128, 64, 0)
    } else {
        Color::new(255, 128, 128)
    }
}

/// The lighter shade a square is filled with: each channel halved and raised by 128.
pub open spec fn lightened(c: Color) -> Seq<u8> {
    seq![(c.red / 2 + 128) as u8, (c.green / 2 + 128) as u8, (c.blue / 2 + 128) as u8, 255u8]
}

/// The one-pixel outline of the `size`-by-`size` square at `(left, top)`, clipped to the
/// frame.
pub open spec fn square_outline(left: int, top: int, size: int, width: u32, height: u32) -> Set<int> {
    part(true, left, top, size, 1, width, height)
        .union(part(true, left, top + size - 1, size, 1, width, height))
        .union(part(true, left, top, 1, size, width, height))
        .union(part(true, left + size - 1, top, 1, size, width, height))
}

/// Draws the `size`-by-`size` square at `(left, top)`: a black one-pixel outline around a
/// lighter shade of `color`, clipped to the frame.
pub fn draw_fibonacci_square(frame: &mut FrameBuffer, left: i32, top: i32, size: i32, color: Color)
    requires
        frame_wf(old(frame)@),
        0 <= size,
        left + size <= 0x8000_0000,
        top + size <= 0x8000_0000,
    ensures
        final(frame)@ == (FrameView {
            bytes: painted(
                painted(
                    old(frame)@.bytes,
                    part(true, left as int, top as int, size as int, size as int, old(frame)@.width, old(frame)@.height),
                    lightened(color),
                ),
                square_outline(left as int, top as int, size as int, old(frame)@.width, old(frame)@.height),
                seq![0u8, 0u8, 0u8, 255u8],
            ),
            ..old(frame)@
        }),
{
    let ghost width = frame@.width;
    let ghost height = frame@.height;
    let light = Color::new(color.red / 2 + 128, color.green / 2 + 128, color.blue / 2 + 128);
    let black = Color::new(0, 0, 0);
    fill_part(frame, true, left, top, size, size, light);
    let ghost filled_square = frame@.bytes;
    if size > 0 {
        fill_part(frame, true, left, top, size, 1, black);
        fill_part(frame, true, left, top + (size - 1), size, 1, black);
        fill_part(frame, true, left, top, 1, size, black);
        fill_part(frame, true, left + (size - 1), top, 1, size, black);
        proof {
            let black_px = seq![0u8, 0u8, 0u8, 255u8];
            let a = part(true, left as int, top as int, size as int, 1, width, height);
            let b = part(true, left as int, top + size - 1, size as int, 1, width, height);
            let c = part(true, left as int, top as int, 1, size as int, width, height);
            let d = part(true, left + size - 1, top as int, 1, size as int, width, height);
            lemma_painted_twice(filled_square, a, b, black_px);
            lemma_painted_twice(filled_square, a.union(b), c, black_px);
            lemma_painted_twice(filled_square, a.union(b).union(c), d, black_px);
        }
    } else {
        proof {
            let outline = square_outline(left as int, top as int, size as int, width, height);
            assert(outline =~= Set::<int>::empty());
            lemma_painted_empty(filled_square, seq![0u8, 0u8, 0u8, 255u8]);
        }
    }
}

/// The lighter shade of an RGBA colour a square is filled with, fully opaque.
pub open spec fn lightened_rgba(c: Seq<u8>) -> Seq<u8> {
    seq![(c[0] / 2 + 128) as u8, (c[1] / 2 + 128) as u8, (c[2] / 2 + 128) as u8, 255u8]
}

/// Draws the `size`-by-`size` square at `(left, top)` of a `width`-by-`height` RGBA
/// frame: a black one-pixel outline around a lighter shade of `color`; pixels outside
/// the frame are skipped.
pub fn draw_spiral_square(frame: &mut [u8], left: i32, top: i32, size: i32, color: [u8; 4], width: u32, height: u32)
    requires
        grid_fits(width, height),
        0 <= size,
        left + size <= 0x8000_0000,
        top + size <= 0x8000_0000,
    ensures
        final(frame)@ == painted(
            painted(
                old(frame)@,
                part(true, left as int, top as int, size as int, size as int, width, height),
                lightened_rgba(color@),
            ),
            square_outline(left as int, top as int, size as int, width, height),
            seq![0u8, 0u8, 0u8, 255u8],
        ),
{
    let light: [u8; 4] = [color[0] / 2 + 128, color[1] / 2 + 128, color[2] / 2 + 128, 255];
    let black: [u8; 4] = [0, 0, 0, 255];
    assert(light@ =~= lightened_rgba(color@));
    assert(black@ =~= seq![0u8, 0u8, 0u8, 255u8]);
    let ghost f0 = frame@;
    fill_clipped_block(frame, left, top, size, size, width, height, light);
    proof {
        if size == 0 {
            assert(clipped_block(left as int, top as int, 0, 0, width, height) =~= Set::<int>::empty()) by {
                lemma_scanned_start(0, clipped_cell(left as int, top as int, width, height), grid_cell(left as int, top as int, width));
            }
        }
    }
    let ghost filled_square = frame@;
    if size > 0 {
        fill_clipped_block(frame, left, top, size, 1, width, height, black);
        fill_clipped_block(frame, left, top + (size - 1), size, 1, width, height, black);
        fill_clipped_block(frame, left, top, 1, size, width, height, black);
        fill_clipped_block(frame, left + (size - 1), top, 1, size, width, height, black);
        proof {
            let black_px = seq![0u8, 0u8, 0u8, 255u8];
            let a = part(true, left as int, top as int, size as int, 1, width, height);
            let b = part(true, left as int, top + size - 1, size as int, 1, width, height);
            let c = part(true, left as int, top as int, 1, size as int, width, height);
            let d = part(true, left + size - 1, top as int, 1, size as int, width, height);
            lemma_painted_twice(filled_square, a, b, black_px);
            lemma_painted_twice(filled_square, a.union(b), c, black_px);
            lemma_painted_twice(filled_square, a.union(b).union(c), d, black_px);
        }
    } else {
        proof {
            let outline = square_outline(left as int, top as int, size as int, width, height);
            assert(outline =~= Set::<int>::empty());
            lemma_painted_empty(filled_square, seq![0u8, 0u8, 0u8, 255u8]);
            lemma_painted_empty(f0, lightened_rgba(color@));
        }
    }
}

/// Where the spiral's walk goes after a square of `size`: right, down, left or up by the
/// square's size as `direction` is 0, 1, 2 or 3, turning a quarter each time.
pub open spec fn spiral_next(x: int, y: int, direction: int, size: int) -> (int, int, int) {
    if direction == 0 {
        (x + size, y, 1)
    } else if direction == 1 {
        (x, y + size, 2)
    } else if direction == 2 {
        (x - size, y, 3)
    } else {
        (x, y - size, 0)
    }
}

/// Moves the spiral's walk past a square of `size` and turns it a quarter.
pub fn spiral_step(x: i32, y: i32, direction: i32, size: i32) -> (next: (i32, i32, i32))
    requires
        0 <= direction < 4,
        fits_i32(x + size),
        fits_i32(x - size),
        fits_i32(y + size),
        fits_i32(y - size),
    ensures
        (next.0 as int, next.1 as int, next.2 as int) == spiral_next(x as int, y as int, direction as int, size as int),
{
    if direction == 0 {
        (x + size, y, 1)
    } else if direction == 1 {
        (x, y + size, 2)
    } else if direction == 2 {
        (x - size, y, 3)
    } else {
        (x, y - size, 0)
    }
}

/// The spiral's walk before its `k`-th square, with squares four pixels per Fibonacci
/// unit: the corner, relative to the spiral's origin, and the direction the walk leaves
/// that square in.
pub open spec fn spiral_walk(k: nat) -> (int, int, int)
    decreases k,
{
    if k == 0 {
        (0, 0, 0)
    } else {
        let (x, y, d) = spiral_walk((k - 1) as nat);
        spiral_next(x, y, d, 4 * fib((k - 1) as nat) as int)
    }
}

/// The squares of the spiral, four pixels per Fibonacci unit: for each of the
/// `SPIRAL_SQUARES` squares its corner relative to the spiral's origin, its side and the
/// direction the walk leaves it in.
pub fn spiral_squares() -> (squares: Vec<(i32, i32, i32, i32)>)
    ensures
        squares.len() == SPIRAL_SQUARES,
        forall|k: int|
            0 <= k < SPIRAL_SQUARES ==> {
                let (x, y, d) = spiral_walk(k as nat);
                &&& #[trigger] squares[k].0 == x
                &&& squares[k].1 == y
                &&& squares[k].2 == 4 * fib(k as nat)
                &&& squares[k].3 == d
            },
{
    let fibs = fibonacci_numbers();
    let mut squares: Vec<(i32, i32, i32, i32)> = Vec::new();
    let (mut x, mut y, mut d): (i32, i32, i32) = (0, 0, 0);
    let mut k: usize = 0;
    proof {
        lemma_fib_eleven();
    }
    while k < SPIRAL_SQUARES
        invariant
            k <= SPIRAL_SQUARES,
            fibs.len() == SPIRAL_SQUARES,
            forall|m: int| 0 <= m < SPIRAL_SQUARES ==> fibs[m] == fib(m as nat),
            fib(11) == 144,
            squares.len() == k,
            (x as int, y as int, d as int) == spiral_walk(k as nat),
            0 <= d < 4,
            -576 * k <= x <= 576 * k,
            -576 * k <= y <= 576 * k,
            forall|m: int|
                0 <= m < k ==> {
                    let (wx, wy, wd) = spiral_walk(m as nat);
                    &&& #[trigger] squares[m].0 == wx
                    &&& squares[m].1 == wy
                    &&& squares[m].2 == 4 * fib(m as nat)
                    &&& squares[m].3 == wd
                },
        decreases SPIRAL_SQUARES - k,
    {
        proof {
            lemma_fib_monotonic(k as nat, 11);
        }
        let size = 4 * fibs[k];
        squares.push((x, y, size, d));
        let next = spiral_step(x, y, d, size);
        x = next.0;
        y = next.1;
        d = next.2;
        k = k + 1;
    }
    squares
}

} // verus!
