use vstd::prelude::*;
use vstd::arithmetic::div_mod::{
    lemma_fundamental_div_mod, lemma_fundamental_div_mod_converse, lemma_mod_pos_bound,
};

verus! {

/// The distance between two integers.
pub open spec fn abs_diff(a: int, b: int) -> int {
    if a <= b {
        b - a
    } else {
        a - b
    }
}

/// The coordinate `k` steps from `from` in the direction of `to`.
pub open spec fn toward(from: int, to: int, k: int) -> int {
    if from < to {
        from + k
    } else {
        from - k
    }
}

/// The integer nearest to `k * minor / major`, halves rounded up.
pub open spec fn rounded_share(k: int, minor: int, major: int) -> int {
    (2 * minor * k + major) / (2 * major)
}

/// The number of points of the line from `(x0, y0)` to `(x1, y1)`: one per step along the
/// longer axis, both ends included.
pub open spec fn line_len(x0: int, y0: int, x1: int, y1: int) -> int {
    let a = abs_diff(x0, x1);
    let b = abs_diff(y0, y1);
    if a >= b {
        a + 1
    } else {
        b + 1
    }
}

/// Point `k` of the line from `(x0, y0)` to `(x1, y1)`: `k` steps along the longer axis,
/// and along the shorter one the integer nearest to the ideal line, halves rounded
/// towards the end point.
pub open spec fn line_point(x0: int, y0: int, x1: int, y1: int, k: int) -> (int, int) {
    let a = abs_diff(x0, x1);
    let b = abs_diff(y0, y1);
    if a >= b {
        (toward(x0, x1, k), toward(y0, y1, if a == 0 { 0 } else { rounded_share(k, b, a) }))
    } else {
        (toward(x0, x1, rounded_share(k, a, b)), toward(y0, y1, k))
    }
}

/// The largest distance along either axis for which the doubled error term of the line
/// walk fits `i32`.
pub open spec fn line_span_fits(x0: int, y0: int, x1: int, y1: int) -> bool {
    abs_diff(x0, x1) <= 715827882 && abs_diff(y0, y1) <= 715827882
}

/// `n / m == q` when `m * q <= n < m * (q + 1)`.
proof fn lemma_floor_div(n: int, m: int, q: int)
    requires
        m > 0,
        m * q <= n < m * q + m,
    ensures
        n / m == q,
{
    assert(q * m == m * q) by (nonlinear_arith);
    lemma_fundamental_div_mod_converse(n, m, q, n - m * q);
}

/// The position along the shorter axis matches the rounded share of the position along the
/// longer one.
proof fn lemma_share_matches(k: int, minor: int, major: int, kk: int, mk: int, s: int)
    requires
        major > 0,
        kk == minor * k,
        mk == major * s,
        2 * mk - major <= 2 * kk < 2 * mk + major,
    ensures
        rounded_share(k, minor, major) == s,
{
    assert(2 * minor * k == 2 * kk) by (nonlinear_arith)
        requires
            kk == minor * k,
    ;
    assert((2 * major) * s == 2 * mk) by (nonlinear_arith)
        requires
            mk == major * s,
    ;
    lemma_floor_div(2 * minor * k + major, 2 * major, s);
}

/// The points of the line from `(x0, y0)` to `(x1, y1)`, walked with an integer error
/// term: every step moves one pixel along the longer axis, and along the shorter axis
/// when that brings the point nearer to the ideal line.
pub fn line_points(x0: i32, y0: i32, x1: i32, y1: i32) -> (points: Vec<(i32, i32)>)
    requires
        line_span_fits(x0 as int, y0 as int, x1 as int, y1 as int),
    ensures
        points.len() == line_len(x0 as int, y0 as int, x1 as int, y1 as int),
        forall|k: int|
            0 <= k < points.len() ==> (points[k].0 as int, points[k].1 as int) == #[trigger] line_point(
                x0 as int,
                y0 as int,
                x1 as int,
                y1 as int,
                k,
            ),
{
    let ghost big_a = abs_diff(x0 as int, x1 as int);
    let ghost big_b = abs_diff(y0 as int, y1 as int);
    let dx: i32 = if x0 <= x1 {
        x1 - x0
    } else {
        x0 - x1
    };
    let dy: i32 = if y0 <= y1 {
        y0 - y1
    } else {
        y1 - y0
    };
    let sx: i32 = if x0 < x1 {
        1
    } else {
        -1
    };
    let sy: i32 = if y0 < y1 {
        1
    } else {
        -1
    };
    let mut err: i32 = dx + dy;
    let mut x = x0;
    let mut y = y0;
    let mut points: Vec<(i32, i32)> = Vec::new();
    let ghost mut i: int = 0;
    let ghost mut j: int = 0;
    let ghost mut aj: int = 0;
    let ghost mut bi: int = 0;
    loop
        invariant_except_break
            big_a == abs_diff(x0 as int, x1 as int),
            big_b == abs_diff(y0 as int, y1 as int),
            big_a <= 715827882,
            big_b <= 715827882,
            dx == big_a,
            dy == -big_b,
            sx == (if x0 < x1 { 1int } else { -1int }),
            sy == (if y0 < y1 { 1int } else { -1int }),
            0 <= i <= big_a,
            0 <= j <= big_b,
            x == toward(x0 as int, x1 as int, i),
            y == toward(y0 as int, y1 as int, j),
            aj == big_a * j,
            bi == big_b * i,
            err == big_a + aj - big_b - bi,
            big_a >= big_b && big_a > 0 ==> 2 * aj - big_a <= 2 * bi < 2 * aj + big_a,
            big_a >= big_b && big_a == 0 ==> i == 0 && j == 0,
            big_a < big_b ==> 2 * bi - big_b <= 2 * aj < 2 * bi + big_b,
            big_a >= big_b ==> points.len() == i,
            big_a < big_b ==> points.len() == j,
            forall|k: int|
                0 <= k < points.len() ==> (points[k].0 as int, points[k].1 as int)
                    == #[trigger] line_point(x0 as int, y0 as int, x1 as int, y1 as int, k),
        ensures
            points.len() == line_len(x0 as int, y0 as int, x1 as int, y1 as int),
            forall|k: int|
                0 <= k < points.len() ==> (points[k].0 as int, points[k].1 as int)
                    == #[trigger] line_point(x0 as int, y0 as int, x1 as int, y1 as int, k),
        decreases (big_a - i) + (big_b - j),
    {
        proof {
            if big_a >= big_b && big_a > 0 {
                lemma_share_matches(i, big_b, big_a, bi, aj, j);
            } else if big_a < big_b {
                lemma_share_matches(j, big_a, big_b, aj, bi, i);
            }
        }
        let ghost before = points@;
        points.push((x, y));
        proof {
            assert forall|k: int| 0 <= k < points.len() implies (points[k].0 as int, points[k].1 as int)
                == #[trigger] line_point(x0 as int, y0 as int, x1 as int, y1 as int, k) by {
                if k < before.len() {
                    assert(points[k] == before[k]);
                }
            }
        }
        if x == x1 && y == y1 {
            proof {
                if big_a >= big_b {
                    assert(i == big_a);
                } else {
                    assert(j == big_b);
                }
            }
            break;
        }
        proof {
            if big_a >= big_b {
                if i == big_a {
                    assert(j == big_b) by (nonlinear_arith)
                        requires
                            2 * aj - big_a <= 2 * bi,
                            2 * bi < 2 * aj + big_a,
                            aj == big_a * j,
                            bi == big_b * big_a,
                            big_a > 0,
                    ;
                }
                assert(i < big_a);
            } else {
                if j == big_b {
                    assert(i == big_a) by (nonlinear_arith)
                        requires
                            2 * bi - big_b <= 2 * aj,
                            2 * aj < 2 * bi + big_b,
                            bi == big_b * i,
                            aj == big_a * big_b,
                            big_b > 0,
                    ;
                }
                assert(j < big_b);
            }
            assert(aj + big_a == big_a * (j + 1)) by (nonlinear_arith)
                requires
                    aj == big_a * j,
            ;
            assert(bi + big_b == big_b * (i + 1)) by (nonlinear_arith)
                requires
                    bi == big_b * i,
            ;
            let e = err as int;
            if big_a >= big_b {
                assert(2 * e >= -big_b);
                if big_a + 2 * aj <= 2 * (bi + big_b) {
                    assert(j < big_b) by (nonlinear_arith)
                        requires
                            big_a + 2 * aj <= 2 * (bi + big_b),
                            aj == big_a * j,
                            bi + big_b == big_b * (i + 1),
                            i + 1 <= big_a,
                            big_a > 0,
                            big_b >= 0,
                    ;
                }
            } else {
                assert(2 * e <= big_a);
                if 2 * (aj + big_a) >= 2 * bi + big_b {
                    assert(i < big_a) by (nonlinear_arith)
                        requires
                            2 * (aj + big_a) >= 2 * bi + big_b,
                            aj + big_a == big_a * (j + 1),
                            bi == big_b * i,
                            j + 1 <= big_b,
                            big_b > 0,
                            big_a >= 0,
                    ;
                }
            }
        }
        let e2 = 2 * err;
        if e2 >= dy {
            if x == x1 {
                proof {
                    assert(false);
                }
                break;
            }
            err = err + dy;
            x = x + sx;
            proof {
                i = i + 1;
                bi = bi + big_b;
            }
        }
        if e2 <= dx {
            if y == y1 {
                proof {
                    assert(false);
                }
                break;
            }
            err = err + dx;
            y = y + sy;
            proof {
                j = j + 1;
                aj = aj + big_a;
            }
        }
    }
    points
}


/// The integer nearest to `k * minor / major`, halves rounded down.
pub open spec fn rounded_share_down(k: int, minor: int, major: int) -> int {
    (2 * minor * k + major - 1) / (2 * major)
}

/// Point `k` of the line from `(x0, y0)` to `(x1, y1)` as the glowing lines walk it: `k`
/// steps along the longer axis, and along the shorter one the integer nearest to the
/// ideal line, halves rounded towards the start point.
pub open spec fn glow_line_point(x0: int, y0: int, x1: int, y1: int, k: int) -> (int, int) {
    let a = abs_diff(x0, x1);
    let b = abs_diff(y0, y1);
    if a >= b {
        (toward(x0, x1, k), toward(y0, y1, if a == 0 { 0 } else { rounded_share_down(k, b, a) }))
    } else {
        (toward(x0, x1, rounded_share_down(k, a, b)), toward(y0, y1, k))
    }
}

/// Whether a point lies in the `width`-by-`height` window.
pub open spec fn in_window(p: (int, int), width: int, height: int) -> bool {
    0 <= p.0 < width && 0 <= p.1 < height
}

/// Both ends of the line lie beyond the same edge of a window `width` pixels wide and
/// `rows` rows high, so nothing of it is drawn.
pub open spec fn glow_line_culled(x0: int, y0: int, x1: int, y1: int, width: int, rows: int) -> bool {
    (x0 < 0 && x1 < 0) || (x0 >= width && x1 >= width) || (y0 < 0 && y1 < 0) || (y0 >= rows && y1 >= rows)
}

/// The position along the shorter axis matches the share of the position along the
/// longer one, halves rounded down.
proof fn lemma_share_down_matches(k: int, minor: int, major: int, kk: int, mk: int, s: int)
    requires
        major > 0,
        kk == minor * k,
        mk == major * s,
        2 * mk - major < 2 * kk <= 2 * mk + major,
    ensures
        rounded_share_down(k, minor, major) == s,
{
    assert(2 * minor * k == 2 * kk) by (nonlinear_arith)
        requires
            kk == minor * k,
    ;
    assert((2 * major) * s == 2 * mk) by (nonlinear_arith)
        requires
            mk == major * s,
    ;
    lemma_floor_div(2 * minor * k + major - 1, 2 * major, s);
}

/// The points of a glowing line from `(x0, y0)` towards `(x1, y1)` that are visited
/// before the walk leaves the `width`-by-`height` window: the longest run of points of
/// the line, from its start, that all lie inside the window. A line whose two ends lie
/// beyond the same edge of a window `rows` rows high has none.
pub fn glow_line_points(x0: i32, y0: i32, x1: i32, y1: i32, width: i32, height: i32, rows: i32) -> (points: Vec<(i32, i32)>)
    requires
        line_span_fits(x0 as int, y0 as int, x1 as int, y1 as int),
    ensures
        glow_line_culled(x0 as int, y0 as int, x1 as int, y1 as int, width as int, rows as int) ==> points.len() == 0,
        points.len() <= line_len(x0 as int, y0 as int, x1 as int, y1 as int),
        forall|k: int|
            0 <= k < points.len() ==> (points[k].0 as int, points[k].1 as int) == #[trigger] glow_line_point(
                x0 as int,
                y0 as int,
                x1 as int,
                y1 as int,
                k,
            ) && in_window(glow_line_point(x0 as int, y0 as int, x1 as int, y1 as int, k), width as int, height as int),
        !glow_line_culled(x0 as int, y0 as int, x1 as int, y1 as int, width as int, rows as int) ==> (points.len()
            == line_len(x0 as int, y0 as int, x1 as int, y1 as int) || !in_window(
            glow_line_point(x0 as int, y0 as int, x1 as int, y1 as int, points.len() as int),
            width as int,
            height as int,
        )),
{
    let mut points: Vec<(i32, i32)> = Vec::new();
    if (x0 < 0 && x1 < 0) || (x0 >= width && x1 >= width) || (y0 < 0 && y1 < 0) || (y0 >= rows && y1 >= rows) {
        return points;
    }
    let ghost big_a = abs_diff(x0 as int, x1 as int);
    let ghost big_b = abs_diff(y0 as int, y1 as int);
    let dx: i32 = if x0 <= x1 { x1 - x0 } else { x0 - x1 };
    let dy: i32 = if y0 <= y1 { y1 - y0 } else { y0 - y1 };
    let sx: i32 = if x0 < x1 { 1 } else { -1 };
    let sy: i32 = if y0 < y1 { 1 } else { -1 };
    let mut err: i32 = dx - dy;
    let mut x = x0;
    let mut y = y0;
    let ghost mut i: int = 0;
    let ghost mut j: int = 0;
    let ghost mut aj: int = 0;
    let ghost mut bi: int = 0;
    loop
        invariant_except_break
            big_a == abs_diff(x0 as int, x1 as int),
            big_b == abs_diff(y0 as int, y1 as int),
            big_a <= 715827882,
            big_b <= 715827882,
            dx == big_a,
            dy == big_b,
            sx == (if x0 < x1 { 1int } else { -1int }),
            sy == (if y0 < y1 { 1int } else { -1int }),
            0 <= i <= big_a,
            0 <= j <= big_b,
            x == toward(x0 as int, x1 as int, i),
            y == toward(y0 as int, y1 as int, j),
            aj == big_a * j,
            bi == big_b * i,
            err == big_a + aj - big_b - bi,
            big_a >= big_b && big_a > 0 ==> 2 * aj - big_a < 2 * bi <= 2 * aj + big_a,
            big_a >= big_b && big_a == 0 ==> i == 0 && j == 0,
            big_a < big_b ==> 2 * bi - big_b < 2 * aj <= 2 * bi + big_b,
            big_a >= big_b ==> points.len() == i,
            big_a < big_b ==> points.len() == j,
            forall|k: int|
                0 <= k < points.len() ==> (points[k].0 as int, points[k].1 as int) == #[trigger] glow_line_point(
                    x0 as int,
                    y0 as int,
                    x1 as int,
                    y1 as int,
                    k,
                ) && in_window(glow_line_point(x0 as int, y0 as int, x1 as int, y1 as int, k), width as int, height as int),
        ensures
            points.len() <= line_len(x0 as int, y0 as int, x1 as int, y1 as int),
            forall|k: int|
                0 <= k < points.len() ==> (points[k].0 as int, points[k].1 as int) == #[trigger] glow_line_point(
                    x0 as int,
                    y0 as int,
                    x1 as int,
                    y1 as int,
                    k,
                ) && in_window(glow_line_point(x0 as int, y0 as int, x1 as int, y1 as int, k), width as int, height as int),
            points.len() == line_len(x0 as int, y0 as int, x1 as int, y1 as int) || !in_window(
                glow_line_point(x0 as int, y0 as int, x1 as int, y1 as int, points.len() as int),
                width as int,
                height as int,
            ),
        decreases (big_a - i) + (big_b - j),
    {
        proof {
            if big_a >= big_b && big_a > 0 {
                lemma_share_down_matches(i, big_b, big_a, bi, aj, j);
            } else if big_a < big_b {
                lemma_share_down_matches(j, big_a, big_b, aj, bi, i);
            }
        }
        if !(x >= 0 && x < width && y >= 0 && y < height) {
            break;
        }
        let ghost before = points@;
        points.push((x, y));
        proof {
            assert forall|k: int| 0 <= k < points.len() implies (points[k].0 as int, points[k].1 as int)
                == #[trigger] glow_line_point(x0 as int, y0 as int, x1 as int, y1 as int, k) && in_window(
                glow_line_point(x0 as int, y0 as int, x1 as int, y1 as int, k),
                width as int,
                height as int,
            ) by {
                if k < before.len() {
                    assert(points[k] == before[k]);
                }
            }
        }
        if x == x1 && y == y1 {
            proof {
                if big_a >= big_b {
                    if big_a > 0 {
                        assert(i == big_a) by (nonlinear_arith)
                            requires
                                x == toward(x0 as int, x1 as int, i),
                                x == x1,
                                big_a == abs_diff(x0 as int, x1 as int),
                                0 <= i,
                        ;
                    }
                } else {
                    assert(j == big_b);
                }
            }
            break;
        }
        proof {
            if big_a >= big_b {
                if i == big_a {
                    assert(j == big_b) by (nonlinear_arith)
                        requires
                            2 * aj - big_a < 2 * bi,
                            2 * bi <= 2 * aj + big_a,
                            aj == big_a * j,
                            bi == big_b * big_a,
                            big_a > 0,
                            0 <= j <= big_b,
                    ;
                }
                assert(i < big_a);
            } else {
                if j == big_b {
                    assert(i == big_a) by (nonlinear_arith)
                        requires
                            2 * bi - big_b < 2 * aj,
                            2 * aj <= 2 * bi + big_b,
                            bi == big_b * i,
                            aj == big_a * big_b,
                            big_b > 0,
                            0 <= i <= big_a,
                    ;
                }
                assert(j < big_b);
            }
            assert(aj + big_a == big_a * (j + 1)) by (nonlinear_arith)
                requires
                    aj == big_a * j,
            ;
            assert(bi + big_b == big_b * (i + 1)) by (nonlinear_arith)
                requires
                    bi == big_b * i,
            ;
            let e = err as int;
            if big_a >= big_b {
                if big_a == big_b {
                    assert(2 * bi != 2 * aj + big_a) by (nonlinear_arith)
                        requires
                            bi == big_a * i,
                            aj == big_a * j,
                            big_a > 0,
                    {
                        if 2 * bi == 2 * aj + big_a {
                            assert(big_a * (2 * i - 2 * j) == big_a);
                            assert(2 * i - 2 * j == 1);
                        }
                    }
                }
                assert(2 * e > -big_b);
                if 2 * e < big_a {
                    assert(j < big_b) by (nonlinear_arith)
                        requires
                            2 * e < big_a,
                            e == big_a + aj - big_b - bi,
                            aj == big_a * j,
                            bi + big_b == big_b * (i + 1),
                            i + 1 <= big_a,
                            big_a > 0,
                            big_b >= 0,
                    ;
                }
            } else {
                assert(2 * e < big_a);
                if 2 * e > -big_b {
                    assert(i < big_a) by (nonlinear_arith)
                        requires
                            2 * e > -big_b,
                            e == big_a + aj - big_b - bi,
                            aj + big_a == big_a * (j + 1),
                            bi == big_b * i,
                            j + 1 <= big_b,
                            big_b > 0,
                            big_a >= 0,
                    ;
                }
            }
        }
        let e2 = 2 * err;
        if e2 > -dy {
            err = err - dy;
            x = x + sx;
            proof {
                i = i + 1;
                bi = bi + big_b;
            }
        }
        if e2 < dx {
            err = err + dx;
            y = y + sy;
            proof {
                j = j + 1;
                aj = aj + big_a;
            }
        }
    }
    points
}

/// The quotient of a non-negative `n` by a positive `m` brackets `n`.
proof fn lemma_div_bounds(n: int, m: int)
    requires
        n >= 0,
        m > 0,
    ensures
        m * (n / m) <= n < m * (n / m) + m,
{
    lemma_fundamental_div_mod(n, m);
    lemma_mod_pos_bound(n, m);
}

/// One more step along the longer axis moves the rounded share by zero or one, and it
/// never passes the length of the shorter axis.
proof fn lemma_share_step(k: int, minor: int, major: int)
    requires
        0 <= k < major,
        0 <= minor <= major,
    ensures
        rounded_share(k + 1, minor, major) == rounded_share(k, minor, major)
            || rounded_share(k + 1, minor, major) == rounded_share(k, minor, major) + 1,
        0 <= rounded_share(k + 1, minor, major) <= minor,
{
    let n = 2 * minor * k + major;
    let m = 2 * major;
    assert(2 * minor * k >= 0) by (nonlinear_arith)
        requires
            minor >= 0,
            k >= 0,
    ;
    lemma_div_bounds(n, m);
    let q = n / m;
    assert(2 * minor * (k + 1) + major == n + 2 * minor) by (nonlinear_arith)
        requires
            n == 2 * minor * k + major,
    ;
    let n2 = n + 2 * minor;
    assert(m * (q + 1) == m * q + m) by (nonlinear_arith);
    if n2 < m * q + m {
        lemma_floor_div(n2, m, q);
    } else {
        lemma_floor_div(n2, m, q + 1);
    }
    lemma_div_bounds(n2, m);
    let q2 = n2 / m;
    assert(2 * minor * (k + 1) <= 2 * minor * major) by (nonlinear_arith)
        requires
            k + 1 <= major,
            minor >= 0,
    ;
    assert(q2 <= minor) by (nonlinear_arith)
        requires
            m * q2 <= n2,
            n2 <= 2 * minor * major + major,
            m == 2 * major,
            major > 0,
    ;
    assert(q2 >= 0) by (nonlinear_arith)
        requires
            n2 < m * q2 + m,
            n2 >= 0,
            m > 0,
    ;
}

/// The share at the far end of the longer axis is the whole shorter axis.
proof fn lemma_share_end(minor: int, major: int)
    requires
        major > 0,
        minor >= 0,
    ensures
        rounded_share(0, minor, major) == 0,
        rounded_share(major, minor, major) == minor,
{
    lemma_floor_div(major, 2 * major, 0);
    assert(2 * minor * major + major == 2 * major * minor + major) by (nonlinear_arith);
    lemma_floor_div(2 * minor * major + major, 2 * major, minor);
}

/// A line starts at its first end point and stops exactly at its second.
pub proof fn lemma_line_ends(x0: int, y0: int, x1: int, y1: int)
    ensures
        line_point(x0, y0, x1, y1, 0) == (x0, y0),
        line_point(x0, y0, x1, y1, line_len(x0, y0, x1, y1) - 1) == (x1, y1),
{
    let a = abs_diff(x0, x1);
    let b = abs_diff(y0, y1);
    if a >= b {
        if a > 0 {
            lemma_share_end(b, a);
        }
    } else {
        lemma_share_end(a, b);
    }
}

/// A glowing line also starts at its first end point and stops exactly at its second.
pub proof fn lemma_glow_line_ends(x0: int, y0: int, x1: int, y1: int)
    ensures
        glow_line_point(x0, y0, x1, y1, 0) == (x0, y0),
        glow_line_point(x0, y0, x1, y1, line_len(x0, y0, x1, y1) - 1) == (x1, y1),
{
    let a = abs_diff(x0, x1);
    let b = abs_diff(y0, y1);
    let (minor, major) = if a >= b { (b, a) } else { (a, b) };
    if major > 0 {
        lemma_floor_div(major - 1, 2 * major, 0);
        assert(2 * minor * major + major - 1 == 2 * major * minor + (major - 1)) by (nonlinear_arith);
        lemma_floor_div(2 * minor * major + major - 1, 2 * major, minor);
    }
}

/// Consecutive points of a line are neighbouring pixels: each step moves exactly one
/// pixel towards the end point along the longer axis, and at most one pixel, never away
/// from the end point, along the shorter one.
pub proof fn lemma_line_steps(x0: int, y0: int, x1: int, y1: int, k: int)
    requires
        0 <= k < line_len(x0, y0, x1, y1) - 1,
    ensures
        ({
            let p = line_point(x0, y0, x1, y1, k);
            let q = line_point(x0, y0, x1, y1, k + 1);
            &&& abs_diff(p.0, q.0) <= 1
            &&& abs_diff(p.1, q.1) <= 1
            &&& abs_diff(p.0, q.0) + abs_diff(p.1, q.1) >= 1
            &&& abs_diff(q.0, x1) <= abs_diff(p.0, x1)
            &&& abs_diff(q.1, y1) <= abs_diff(p.1, y1)
        }),
{
    let a = abs_diff(x0, x1);
    let b = abs_diff(y0, y1);
    if a >= b {
        lemma_share_step(k, b, a);
        if k > 0 {
            lemma_share_step(k - 1, b, a);
        } else {
            lemma_share_end(b, a);
        }
    } else {
        lemma_share_step(k, a, b);
        if k > 0 {
            lemma_share_step(k - 1, a, b);
        } else {
            lemma_share_end(a, b);
        }
    }
}

} // verus!
