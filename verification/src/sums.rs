//! Finite sums over a range of integers and over the points of a cubic box,
//! with the few facts about them that the lattice energies need.

use vstd::prelude::*;

verus! {

/// A point of the lattice, or an offset between two points.
pub type Point = (int, int, int);

/// The sum of `f(0), ..., f(n - 1)`.
pub open spec fn sum_range(f: spec_fn(int) -> int, n: int) -> int
    decreases n,
{
    if n <= 0 {
        0
    } else {
        sum_range(f, n - 1) + f(n - 1)
    }
}

/// Whether `c` lies in the box of side `s` at the origin.
pub open spec fn in_box(c: Point, s: int) -> bool {
    &&& 0 <= c.0 < s
    &&& 0 <= c.1 < s
    &&& 0 <= c.2 < s
}

/// The sum of `f` over the first `n` points of a row of the box: `z` below
/// `n`, for fixed `x` and `y`.
pub open spec fn row_part(f: spec_fn(Point) -> int, x: int, y: int, n: int) -> int {
    sum_range(|z: int| f((x, y, z)), n)
}

/// The sum of `f` over one row of the box: all `z` for fixed `x` and `y`.
pub open spec fn sum_row(f: spec_fn(Point) -> int, s: int, x: int, y: int) -> int {
    row_part(f, x, y, s)
}

/// The sum of `f` over the first `n` rows of a plane of the box.
pub open spec fn plane_part(f: spec_fn(Point) -> int, s: int, x: int, n: int) -> int {
    sum_range(|y: int| sum_row(f, s, x, y), n)
}

/// The sum of `f` over one plane of the box: all `y` and `z` for fixed `x`.
pub open spec fn sum_plane(f: spec_fn(Point) -> int, s: int, x: int) -> int {
    plane_part(f, s, x, s)
}

/// The sum of `f` over the first `n` planes of the box.
pub open spec fn box_part(f: spec_fn(Point) -> int, s: int, n: int) -> int {
    sum_range(|x: int| sum_plane(f, s, x), n)
}

/// The sum of `f` over all points of the box of side `s`.
pub open spec fn sum_box(f: spec_fn(Point) -> int, s: int) -> int {
    box_part(f, s, s)
}

/// Sums of functions that agree on the range agree.
pub proof fn lemma_sum_range_eq(f: spec_fn(int) -> int, g: spec_fn(int) -> int, n: int)
    requires
        forall|i: int| 0 <= i < n ==> #[trigger] f(i) == g(i),
    ensures
        sum_range(f, n) == sum_range(g, n),
    decreases n,
{
    if n > 0 {
        lemma_sum_range_eq(f, g, n - 1);
    }
}

/// The sum of a difference is the difference of the sums.
pub proof fn lemma_sum_range_sub(
    f: spec_fn(int) -> int,
    g: spec_fn(int) -> int,
    d: spec_fn(int) -> int,
    n: int,
)
    requires
        forall|i: int| 0 <= i < n ==> #[trigger] d(i) == f(i) - g(i),
    ensures
        sum_range(d, n) == sum_range(f, n) - sum_range(g, n),
    decreases n,
{
    if n > 0 {
        lemma_sum_range_sub(f, g, d, n - 1);
    }
}

/// A function that vanishes on the range sums to zero.
pub proof fn lemma_sum_range_zero(f: spec_fn(int) -> int, n: int)
    requires
        forall|i: int| 0 <= i < n ==> #[trigger] f(i) == 0,
    ensures
        sum_range(f, n) == 0,
    decreases n,
{
    if n > 0 {
        lemma_sum_range_zero(f, n - 1);
    }
}

/// A function that vanishes on the range except at `p` sums to `f(p)`.
pub proof fn lemma_sum_range_point(f: spec_fn(int) -> int, n: int, p: int)
    requires
        0 <= p < n,
        forall|i: int| 0 <= i < n && i != p ==> #[trigger] f(i) == 0,
    ensures
        sum_range(f, n) == f(p),
    decreases n,
{
    if n - 1 == p {
        lemma_sum_range_zero(f, n - 1);
    } else {
        lemma_sum_range_point(f, n - 1, p);
    }
}

/// Sums over the box of functions that agree on the box agree.
pub proof fn lemma_sum_box_eq(f: spec_fn(Point) -> int, g: spec_fn(Point) -> int, s: int)
    requires
        forall|c: Point| in_box(c, s) ==> #[trigger] f(c) == g(c),
    ensures
        sum_box(f, s) == sum_box(g, s),
{
    let fp = |x: int| sum_plane(f, s, x);
    let gp = |x: int| sum_plane(g, s, x);
    assert forall|x: int| 0 <= x < s implies #[trigger] fp(x) == gp(x) by {
        let fr = |y: int| sum_row(f, s, x, y);
        let gr = |y: int| sum_row(g, s, x, y);
        assert forall|y: int| 0 <= y < s implies #[trigger] fr(y) == gr(y) by {
            let fc = |z: int| f((x, y, z));
            let gc = |z: int| g((x, y, z));
            assert forall|z: int| 0 <= z < s implies #[trigger] fc(z) == gc(z) by {
                assert(in_box((x, y, z), s));
            }
            lemma_sum_range_eq(fc, gc, s);
        }
        lemma_sum_range_eq(fr, gr, s);
    }
    lemma_sum_range_eq(fp, gp, s);
}

/// The sum over the box of a difference is the difference of the sums.
pub proof fn lemma_sum_box_sub(
    f: spec_fn(Point) -> int,
    g: spec_fn(Point) -> int,
    d: spec_fn(Point) -> int,
    s: int,
)
    requires
        forall|c: Point| in_box(c, s) ==> #[trigger] d(c) == f(c) - g(c),
    ensures
        sum_box(d, s) == sum_box(f, s) - sum_box(g, s),
{
    let fp = |x: int| sum_plane(f, s, x);
    let gp = |x: int| sum_plane(g, s, x);
    let dp = |x: int| sum_plane(d, s, x);
    assert forall|x: int| 0 <= x < s implies #[trigger] dp(x) == fp(x) - gp(x) by {
        let fr = |y: int| sum_row(f, s, x, y);
        let gr = |y: int| sum_row(g, s, x, y);
        let dr = |y: int| sum_row(d, s, x, y);
        assert forall|y: int| 0 <= y < s implies #[trigger] dr(y) == fr(y) - gr(y) by {
            let fc = |z: int| f((x, y, z));
            let gc = |z: int| g((x, y, z));
            let dc = |z: int| d((x, y, z));
            assert forall|z: int| 0 <= z < s implies #[trigger] dc(z) == fc(z) - gc(z) by {
                assert(in_box((x, y, z), s));
            }
            lemma_sum_range_sub(fc, gc, dc, s);
        }
        lemma_sum_range_sub(fr, gr, dr, s);
    }
    lemma_sum_range_sub(fp, gp, dp, s);
}

/// A function that vanishes on the box except at `p` sums to `f(p)`.
pub proof fn lemma_sum_box_point(f: spec_fn(Point) -> int, s: int, p: Point)
    requires
        in_box(p, s),
        forall|c: Point| in_box(c, s) && c != p ==> #[trigger] f(c) == 0,
    ensures
        sum_box(f, s) == f(p),
{
    let fp = |x: int| sum_plane(f, s, x);
    assert forall|x: int| 0 <= x < s && x != p.0 implies #[trigger] fp(x) == 0 by {
        let fr = |y: int| sum_row(f, s, x, y);
        assert forall|y: int| 0 <= y < s implies #[trigger] fr(y) == 0 by {
            let fc = |z: int| f((x, y, z));
            assert forall|z: int| 0 <= z < s implies #[trigger] fc(z) == 0 by {
                assert(in_box((x, y, z), s));
            }
            lemma_sum_range_zero(fc, s);
        }
        lemma_sum_range_zero(fr, s);
    }
    let fr = |y: int| sum_row(f, s, p.0, y);
    assert forall|y: int| 0 <= y < s && y != p.1 implies #[trigger] fr(y) == 0 by {
        let fc = |z: int| f((p.0, y, z));
        assert forall|z: int| 0 <= z < s implies #[trigger] fc(z) == 0 by {
            assert(in_box((p.0, y, z), s));
        }
        lemma_sum_range_zero(fc, s);
    }
    let fc = |z: int| f((p.0, p.1, z));
    assert forall|z: int| 0 <= z < s && z != p.2 implies #[trigger] fc(z) == 0 by {
        assert(in_box((p.0, p.1, z), s));
    }
    lemma_sum_range_point(fc, s, p.2);
    lemma_sum_range_point(fr, s, p.1);
    lemma_sum_range_point(fp, s, p.0);
    assert(f((p.0, p.1, p.2)) == f(p));
}

/// A function that vanishes on the box except at two distinct points sums to
/// its values at those two points.
pub proof fn lemma_sum_box_two_points(f: spec_fn(Point) -> int, s: int, p: Point, q: Point)
    requires
        in_box(p, s),
        in_box(q, s),
        p != q,
        forall|c: Point| in_box(c, s) && c != p && c != q ==> #[trigger] f(c) == 0,
    ensures
        sum_box(f, s) == f(p) + f(q),
{
    let at_p = |c: Point|
        if c == p {
            f(c)
        } else {
            0
        };
    let rest = |c: Point|
        if c == p {
            0
        } else {
            f(c)
        };
    lemma_sum_box_point(at_p, s, p);
    lemma_sum_box_point(rest, s, q);
    lemma_sum_box_sub(f, at_p, rest, s);
}

/// The sum over the box of a sum is the sum of the sums.
pub proof fn lemma_sum_box_add(
    f: spec_fn(Point) -> int,
    g: spec_fn(Point) -> int,
    h: spec_fn(Point) -> int,
    s: int,
)
    requires
        forall|c: Point| in_box(c, s) ==> #[trigger] h(c) == f(c) + g(c),
    ensures
        sum_box(h, s) == sum_box(f, s) + sum_box(g, s),
{
    lemma_sum_box_sub(h, g, f, s);
}

/// A sum of `n` terms of magnitude at most `m` has magnitude at most `n * m`.
pub proof fn lemma_sum_range_bound(f: spec_fn(int) -> int, n: int, m: int)
    requires
        0 <= n,
        forall|i: int| 0 <= i < n ==> -m <= #[trigger] f(i) <= m,
    ensures
        -(n * m) <= sum_range(f, n) <= n * m,
    decreases n,
{
    if n > 0 {
        lemma_sum_range_bound(f, n - 1, m);
        assert((n - 1) * m + m == n * m) by (nonlinear_arith);
    } else {
        assert(n * m == 0) by (nonlinear_arith)
            requires
                n == 0,
        ;
    }
}

/// A sum over the box of terms of magnitude at most `m` has magnitude at
/// most `s * s * s * m`.
pub proof fn lemma_sum_box_bound(f: spec_fn(Point) -> int, s: int, m: int)
    requires
        0 <= s,
        0 <= m,
        forall|c: Point| in_box(c, s) ==> -m <= #[trigger] f(c) <= m,
    ensures
        -(s * s * s * m) <= sum_box(f, s) <= s * s * s * m,
{
    let fp = |x: int| sum_plane(f, s, x);
    assert forall|x: int| 0 <= x < s implies -(s * s * m) <= #[trigger] fp(x) <= s * s * m by {
        let fr = |y: int| sum_row(f, s, x, y);
        assert forall|y: int| 0 <= y < s implies -(s * m) <= #[trigger] fr(y) <= s * m by {
            let fc = |z: int| f((x, y, z));
            assert forall|z: int| 0 <= z < s implies -m <= #[trigger] fc(z) <= m by {
                assert(in_box((x, y, z), s));
            }
            lemma_sum_range_bound(fc, s, m);
        }
        lemma_sum_range_bound(fr, s, s * m);
        assert(s * (s * m) == s * s * m) by (nonlinear_arith);
    }
    lemma_sum_range_bound(fp, s, s * s * m);
    assert(s * (s * s * m) == s * s * s * m) by (nonlinear_arith);
}

/// Partial sums grow by one term, one row or one plane at a time.
pub proof fn lemma_parts_step(f: spec_fn(Point) -> int, s: int, x: int, y: int, n: int)
    requires
        0 <= n,
    ensures
        row_part(f, x, y, 0) == 0,
        plane_part(f, s, x, 0) == 0,
        box_part(f, s, 0) == 0,
        row_part(f, x, y, n + 1) == row_part(f, x, y, n) + f((x, y, n)),
        plane_part(f, s, x, n + 1) == plane_part(f, s, x, n) + sum_row(f, s, x, n),
        box_part(f, s, n + 1) == box_part(f, s, n) + sum_plane(f, s, n),
{
    reveal_with_fuel(sum_range, 2);
}

/// Partial sums over the box of terms of magnitude at most `m` are bounded
/// by the number of their terms times `m`.
pub proof fn lemma_parts_bound(f: spec_fn(Point) -> int, s: int, m: int, x: int, y: int, n: int)
    requires
        0 <= n <= s,
        0 <= m,
        0 <= x < s,
        0 <= y < s,
        forall|c: Point| in_box(c, s) ==> -m <= #[trigger] f(c) <= m,
    ensures
        -(n * m) <= row_part(f, x, y, n) <= n * m,
        -(n * (s * m)) <= plane_part(f, s, x, n) <= n * (s * m),
        -(n * (s * s * m)) <= box_part(f, s, n) <= n * (s * s * m),
        n * m <= s * m,
        n * (s * m) <= s * s * m,
        n * (s * s * m) <= s * s * s * m,
{
    let fc = |z: int| f((x, y, z));
    assert forall|z: int| 0 <= z < n implies -m <= #[trigger] fc(z) <= m by {
        assert(in_box((x, y, z), s));
    }
    lemma_sum_range_bound(fc, n, m);
    let fr = |y: int| sum_row(f, s, x, y);
    assert forall|y1: int| 0 <= y1 < n implies -(s * m) <= #[trigger] fr(y1) <= s * m by {
        let fc1 = |z: int| f((x, y1, z));
        assert forall|z: int| 0 <= z < s implies -m <= #[trigger] fc1(z) <= m by {
            assert(in_box((x, y1, z), s));
        }
        lemma_sum_range_bound(fc1, s, m);
    }
    lemma_sum_range_bound(fr, n, s * m);
    let fp = |x: int| sum_plane(f, s, x);
    assert forall|x1: int| 0 <= x1 < n implies -(s * s * m) <= #[trigger] fp(x1) <= s * s * m by {
        let fr1 = |y: int| sum_row(f, s, x1, y);
        assert forall|y1: int| 0 <= y1 < s implies -(s * m) <= #[trigger] fr1(y1) <= s * m by {
            let fc1 = |z: int| f((x1, y1, z));
            assert forall|z: int| 0 <= z < s implies -m <= #[trigger] fc1(z) <= m by {
                assert(in_box((x1, y1, z), s));
            }
            lemma_sum_range_bound(fc1, s, m);
        }
        lemma_sum_range_bound(fr1, s, s * m);
        assert(s * (s * m) == s * s * m) by (nonlinear_arith);
    }
    lemma_sum_range_bound(fp, n, s * s * m);
    assert(n * m <= s * m) by (nonlinear_arith)
        requires
            0 <= n <= s,
            0 <= m,
    ;
    assert(n * (s * m) <= s * s * m) by (nonlinear_arith)
        requires
            0 <= n <= s,
            0 <= m,
    ;
    assert(n * (s * s * m) <= s * s * s * m) by (nonlinear_arith)
        requires
            0 <= n <= s,
            0 <= m,
    ;
}

/// A sum read one place further on: if `h(x)` is `g(x + 1)` on the range,
/// the sum of `h` over `n` places is the sum of `g` over `n + 1` places
/// without its first term.
pub proof fn lemma_sum_range_next(g: spec_fn(int) -> int, h: spec_fn(int) -> int, n: int)
    requires
        0 <= n,
        forall|x: int| 0 <= x < n ==> #[trigger] h(x) == g(x + 1),
    ensures
        sum_range(h, n) == sum_range(g, n + 1) - g(0),
    decreases n,
{
    if n > 0 {
        lemma_sum_range_next(g, h, n - 1);
    } else {
        reveal_with_fuel(sum_range, 2);
    }
}

} // verus!
