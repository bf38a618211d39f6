//! Sums of products of neighbouring values over a periodic cubic lattice:
//! that such a sum does not depend on the point from which the lattice is
//! read, that it counts every bond from one end, and how it moves when one
//! value changes or two values trade places.
//!
//! A lattice configuration is a function from the points of the box of side
//! `s` to integers. A bond kind is a pair of offsets `(u, v)`: around every
//! centre `c` it couples the values at `c + u` and `c + v`.

use crate::sums::{
    in_box, lemma_sum_box_add, lemma_sum_box_sub, lemma_sum_box_two_points, lemma_sum_range_eq,
    lemma_sum_range_next, sum_box, sum_plane, sum_range, sum_row, Point,
};
use vstd::prelude::*;

verus! {

/// The coordinate reached from `a` by `u` steps along a periodic axis of
/// length `s`, for `a` on the axis and `u` at most one period long.
#[verifier::opaque]
pub open spec fn step(a: int, u: int, s: int) -> int {
    if a + u >= s {
        a + u - s
    } else if a + u < 0 {
        a + u + s
    } else {
        a + u
    }
}

/// The point reached from `c` by the offset `u`, on the periodic lattice of
/// side `s`.
pub open spec fn shift(c: Point, u: Point, s: int) -> Point {
    (step(c.0, u.0, s), step(c.1, u.1, s), step(c.2, u.2, s))
}

/// The opposite offset.
pub open spec fn neg(u: Point) -> Point {
    (-u.0, -u.1, -u.2)
}

/// Whether the offset `u` is at most one period long on every axis.
pub open spec fn short(u: Point, s: int) -> bool {
    &&& -s <= u.0 <= s
    &&& -s <= u.1 <= s
    &&& -s <= u.2 <= s
}

/// `step` is the remainder of `a + u` modulo `s`.
pub proof fn lemma_step_is_mod(a: int, u: int, s: int)
    requires
        0 <= a < s,
        -s <= u <= s,
    ensures
        step(a, u, s) == (a + u) % s,
        0 <= step(a, u, s) < s,
{
    reveal(step);
    let r = step(a, u, s);
    if a + u >= s {
        vstd::arithmetic::div_mod::lemma_fundamental_div_mod_converse(a + u, s, 1, r);
    } else if a + u < 0 {
        vstd::arithmetic::div_mod::lemma_fundamental_div_mod_converse(a + u, s, -1, r);
    } else {
        vstd::arithmetic::div_mod::lemma_fundamental_div_mod_converse(a + u, s, 0, r);
    }
}

/// Shifting stays on the lattice, and shifting back by the opposite offset
/// returns to the starting point.
pub proof fn lemma_shift_back(c: Point, u: Point, s: int)
    requires
        in_box(c, s),
        short(u, s),
    ensures
        in_box(shift(c, u, s), s),
        in_box(shift(c, neg(u), s), s),
        shift(shift(c, u, s), neg(u), s) == c,
        shift(shift(c, neg(u), s), u, s) == c,
{
    reveal(step);
}

/// The zero offset leads nowhere.
pub proof fn lemma_shift_zero(c: Point, s: int)
    requires
        in_box(c, s),
    ensures
        shift(c, (0, 0, 0), s) == c,
{
    reveal(step);
}

/// The configuration that holds `b` at `p` and agrees with `f` elsewhere.
pub open spec fn with_value(f: spec_fn(Point) -> int, p: Point, b: int) -> spec_fn(Point) -> int {
    |c: Point|
        if c == p {
            b
        } else {
            f(c)
        }
}

/// The configuration in which the values of `f` at `p` and `q` have traded
/// places.
pub open spec fn swapped(f: spec_fn(Point) -> int, p: Point, q: Point) -> spec_fn(Point) -> int {
    |c: Point|
        if c == p {
            f(q)
        } else if c == q {
            f(p)
        } else {
            f(c)
        }
}

/// The product that the bond kind `(u, v)` contributes around each centre.
pub open spec fn pair_term(f: spec_fn(Point) -> int, s: int, u: Point, v: Point) -> spec_fn(
    Point,
) -> int {
    |c: Point| f(shift(c, u, s)) * f(shift(c, v, s))
}

/// The sum over all centres of the products of the bond kind `(u, v)`.
pub open spec fn pair_sum(f: spec_fn(Point) -> int, s: int, u: Point, v: Point) -> int {
    sum_box(pair_term(f, s, u, v), s)
}

/// What the bonds of separation `w` that end at `x` contribute: the value at
/// `x` times the values at `x + w` and at `x - w`.
pub open spec fn bond_from(f: spec_fn(Point) -> int, s: int, w: Point, x: Point) -> int {
    f(x) * (f(shift(x, w, s)) + f(shift(x, neg(w), s)))
}

/// Whether the bond kind `(u, v)` couples, around every centre, two
/// different points that are `w` apart.
pub open spec fn bond_kind(u: Point, v: Point, w: Point, s: int) -> bool {
    &&& short(u, s)
    &&& short(v, s)
    &&& short(w, s)
    &&& forall|c: Point|
        in_box(c, s) ==> {
            &&& #[trigger] shift(c, w, s) != c
            &&& shift(shift(c, neg(u), s), v, s) == shift(c, w, s)
            &&& shift(shift(c, neg(v), s), u, s) == shift(c, neg(w), s)
        }
}

/// A sum around a periodic axis does not depend on where it starts: one
/// step.
proof fn lemma_sum_range_turn_one(g: spec_fn(int) -> int, h: spec_fn(int) -> int, s: int)
    requires
        s >= 1,
        forall|x: int| 0 <= x < s ==> #[trigger] h(x) == g(step(x, 1, s)),
    ensures
        sum_range(h, s) == sum_range(g, s),
{
    reveal(step);
    assert forall|x: int| 0 <= x < s - 1 implies #[trigger] h(x) == g(x + 1) by {
        assert(step(x, 1, s) == x + 1);
    }
    lemma_sum_range_next(g, h, s - 1);
    assert(h(s - 1) == g(0)) by {
        assert(step(s - 1, 1, s) == 0);
    }
}

/// A sum around a periodic axis does not depend on where it starts: if
/// `h(x)` is `g` read `u` steps further on, for at most two steps either
/// way, then `h` and `g` have the same sum.
pub proof fn lemma_sum_range_turn(g: spec_fn(int) -> int, h: spec_fn(int) -> int, s: int, u: int)
    requires
        s >= 2,
        -2 <= u <= 2,
        forall|x: int| 0 <= x < s ==> #[trigger] h(x) == g(step(x, u, s)),
    ensures
        sum_range(h, s) == sum_range(g, s),
{
    let once = |x: int| g(step(x, 1, s));
    let back = |x: int| g(step(x, -1, s));
    if u == 0 {
        assert forall|x: int| 0 <= x < s implies #[trigger] h(x) == g(x) by {
            reveal(step);
        }
        lemma_sum_range_eq(h, g, s);
    } else if u == 1 {
        lemma_sum_range_turn_one(g, h, s);
    } else if u == 2 {
        assert forall|x: int| 0 <= x < s implies #[trigger] h(x) == once(step(x, 1, s)) by {
            reveal(step);
        }
        lemma_sum_range_turn_one(once, h, s);
        lemma_sum_range_turn_one(g, once, s);
    } else if u == -1 {
        lemma_sum_range_turn_back(g, h, s);
    } else {
        assert forall|x: int| 0 <= x < s implies #[trigger] h(x) == back(step(x, -1, s)) by {
            reveal(step);
        }
        lemma_sum_range_turn_back(back, h, s);
        lemma_sum_range_turn_back(g, back, s);
    }
}

/// A sum around a periodic axis does not depend on where it starts: one
/// step back.
proof fn lemma_sum_range_turn_back(g: spec_fn(int) -> int, h: spec_fn(int) -> int, s: int)
    requires
        s >= 1,
        forall|x: int| 0 <= x < s ==> #[trigger] h(x) == g(step(x, -1, s)),
    ensures
        sum_range(h, s) == sum_range(g, s),
{
    let again = |x: int| h(step(x, 1, s));
    assert forall|x: int| 0 <= x < s implies #[trigger] again(x) == g(x) by {
        reveal(step);
        let y = step(x, 1, s);
        assert(0 <= y < s);
        assert(h(y) == g(step(y, -1, s)));
    }
    lemma_sum_range_turn_one(h, again, s);
    lemma_sum_range_eq(again, g, s);
}

/// A sum over the periodic lattice does not depend on where it starts: a
/// configuration read at an offset of at most two steps along each axis has
/// the sum of the configuration itself.
pub proof fn lemma_sum_box_shift(f: spec_fn(Point) -> int, g: spec_fn(Point) -> int, s: int, u: Point)
    requires
        s >= 2,
        -2 <= u.0 <= 2,
        -2 <= u.1 <= 2,
        -2 <= u.2 <= 2,
        forall|c: Point| in_box(c, s) ==> #[trigger] g(c) == f(shift(c, u, s)),
    ensures
        sum_box(g, s) == sum_box(f, s),
{
    // along the last axis
    let a1 = |c: Point| f((c.0, c.1, step(c.2, u.2, s)));
    // along the last two axes
    let a2 = |c: Point| f((c.0, step(c.1, u.1, s), step(c.2, u.2, s)));
    let f_planes = |x: int| sum_plane(f, s, x);
    let a1_planes = |x: int| sum_plane(a1, s, x);
    let a2_planes = |x: int| sum_plane(a2, s, x);
    let g_planes = |x: int| sum_plane(g, s, x);
    assert forall|x: int| 0 <= x < s implies #[trigger] a1_planes(x) == f_planes(x) by {
        let f_rows = |y: int| sum_row(f, s, x, y);
        let a1_rows = |y: int| sum_row(a1, s, x, y);
        assert forall|y: int| 0 <= y < s implies #[trigger] a1_rows(y) == f_rows(y) by {
            let f_cells = |z: int| f((x, y, z));
            let a1_cells = |z: int| a1((x, y, z));
            assert forall|z: int| 0 <= z < s implies #[trigger] a1_cells(z) == f_cells(
                step(z, u.2, s),
            ) by {}
            lemma_sum_range_turn(f_cells, a1_cells, s, u.2);
        }
        lemma_sum_range_eq(a1_rows, f_rows, s);
    }
    lemma_sum_range_eq(a1_planes, f_planes, s);
    assert forall|x: int| 0 <= x < s implies #[trigger] a2_planes(x) == a1_planes(x) by {
        let a1_rows = |y: int| sum_row(a1, s, x, y);
        let a2_rows = |y: int| sum_row(a2, s, x, y);
        assert forall|y: int| 0 <= y < s implies #[trigger] a2_rows(y) == a1_rows(
            step(y, u.1, s),
        ) by {
            let y1 = step(y, u.1, s);
            let a2_cells = |z: int| a2((x, y, z));
            let a1_cells = |z: int| a1((x, y1, z));
            assert forall|z: int| 0 <= z < s implies #[trigger] a2_cells(z) == a1_cells(z) by {}
            lemma_sum_range_eq(a2_cells, a1_cells, s);
        }
        lemma_sum_range_turn(a1_rows, a2_rows, s, u.1);
    }
    lemma_sum_range_eq(a2_planes, a1_planes, s);
    assert forall|x: int| 0 <= x < s implies #[trigger] g_planes(x) == a2_planes(step(x, u.0, s)) by {
        let x1 = step(x, u.0, s);
        let g_rows = |y: int| sum_row(g, s, x, y);
        let a2_rows = |y: int| sum_row(a2, s, x1, y);
        assert forall|y: int| 0 <= y < s implies #[trigger] g_rows(y) == a2_rows(y) by {
            let g_cells = |z: int| g((x, y, z));
            let a2_cells = |z: int| a2((x1, y, z));
            assert forall|z: int| 0 <= z < s implies #[trigger] g_cells(z) == a2_cells(z) by {
                assert(in_box((x, y, z), s));
                assert(g((x, y, z)) == f(shift((x, y, z), u, s)));
            }
            lemma_sum_range_eq(g_cells, a2_cells, s);
        }
        lemma_sum_range_eq(g_rows, a2_rows, s);
    }
    lemma_sum_range_turn(a2_planes, g_planes, s, u.0);
}

/// Whether the bond kind `(u, v)` couples, around every centre, two points
/// that are `w` apart, each at most one step from the centre.
pub open spec fn bond_ends(u: Point, v: Point, w: Point, s: int) -> bool {
    &&& -1 <= u.0 <= 1 && -1 <= u.1 <= 1 && -1 <= u.2 <= 1
    &&& -1 <= v.0 <= 1 && -1 <= v.1 <= 1 && -1 <= v.2 <= 1
    &&& forall|c: Point|
        in_box(c, s) ==> {
            &&& #[trigger] shift(shift(c, u, s), w, s) == shift(c, v, s)
            &&& shift(shift(c, v, s), neg(w), s) == shift(c, u, s)
        }
}

/// Every bond of a kind has two ends: twice the sum of a bond kind is what
/// the bonds of its separation contribute at all points together.
pub proof fn lemma_pair_sum_twice(
    f: spec_fn(Point) -> int,
    s: int,
    u: Point,
    v: Point,
    w: Point,
)
    requires
        s >= 2,
        bond_ends(u, v, w, s),
    ensures
        2 * pair_sum(f, s, u, v) == sum_box(|x: Point| bond_from(f, s, w, x), s),
{
    let term = pair_term(f, s, u, v);
    let ahead = |x: Point| f(x) * f(shift(x, w, s));
    let behind = |x: Point| f(x) * f(shift(x, neg(w), s));
    let both = |x: Point| bond_from(f, s, w, x);
    assert forall|c: Point| in_box(c, s) implies #[trigger] term(c) == ahead(shift(c, u, s)) by {
        assert(shift(shift(c, u, s), w, s) == shift(c, v, s));
    }
    lemma_sum_box_shift(ahead, term, s, u);
    assert forall|c: Point| in_box(c, s) implies #[trigger] term(c) == behind(shift(c, v, s)) by {
        assert(shift(shift(c, u, s), w, s) == shift(c, v, s));
        assert(shift(shift(c, v, s), neg(w), s) == shift(c, u, s));
        let a = f(shift(c, u, s));
        let b = f(shift(c, v, s));
        assert(a * b == b * a) by (nonlinear_arith);
    }
    lemma_sum_box_shift(behind, term, s, v);
    assert forall|x: Point| in_box(x, s) implies #[trigger] both(x) == ahead(x) + behind(x) by {
        let a = f(x);
        let b = f(shift(x, w, s));
        let c = f(shift(x, neg(w), s));
        assert(a * (b + c) == a * b + a * c) by (nonlinear_arith);
    }
    lemma_sum_box_add(ahead, behind, both, s);
}

/// Changing the value at one point `p` moves the sum of a bond kind by the
/// change times the values at the two points that are bonded to `p`.
pub proof fn lemma_pair_sum_update(
    f: spec_fn(Point) -> int,
    s: int,
    p: Point,
    b: int,
    u: Point,
    v: Point,
    w: Point,
)
    requires
        in_box(p, s),
        bond_kind(u, v, w, s),
    ensures
        pair_sum(with_value(f, p, b), s, u, v) - pair_sum(f, s, u, v) == (b - f(p)) * (f(
            shift(p, w, s),
        ) + f(shift(p, neg(w), s))),
{
    let g = with_value(f, p, b);
    let tf = pair_term(f, s, u, v);
    let tg = pair_term(g, s, u, v);
    let d = |c: Point| tg(c) - tf(c);
    let c1 = shift(p, neg(u), s);
    let c2 = shift(p, neg(v), s);
    let pw = shift(p, w, s);
    let pm = shift(p, neg(w), s);
    lemma_shift_back(p, u, s);
    lemma_shift_back(p, v, s);
    lemma_shift_back(p, w, s);
    assert(pw != p);
    assert(shift(c1, v, s) == pw);
    assert(shift(c2, u, s) == pm);
    assert(pm != p) by {
        assert(shift(pm, w, s) != pm);
    }
    assert(c1 != c2);
    assert forall|c: Point| in_box(c, s) && c != c1 && c != c2 implies #[trigger] d(c) == 0 by {
        lemma_shift_back(c, u, s);
        lemma_shift_back(c, v, s);
        assert(shift(c, u, s) != p);
        assert(shift(c, v, s) != p);
        assert(tg(c) == g(shift(c, u, s)) * g(shift(c, v, s)));
        assert(tf(c) == f(shift(c, u, s)) * f(shift(c, v, s)));
    }
    lemma_sum_box_two_points(d, s, c1, c2);
    lemma_sum_box_sub(tg, tf, d, s);
    let a = f(p);
    let x = f(pw);
    let y = f(pm);
    assert(tg(c1) == g(shift(c1, u, s)) * g(shift(c1, v, s)));
    assert(tf(c1) == f(shift(c1, u, s)) * f(shift(c1, v, s)));
    assert(tg(c2) == g(shift(c2, u, s)) * g(shift(c2, v, s)));
    assert(tf(c2) == f(shift(c2, u, s)) * f(shift(c2, v, s)));
    assert(d(c1) == b * x - a * x);
    assert(d(c2) == y * b - y * a);
    assert(b * x - a * x + (y * b - y * a) == (b - a) * (x + y)) by (nonlinear_arith);
}

/// When the values at two different points trade places, the sum of a bond
/// kind moves by exactly as much as the contributions of the bonds that end
/// at those two points. This holds also when the two points are bonded to
/// each other.
pub proof fn lemma_pair_sum_swap(
    f: spec_fn(Point) -> int,
    s: int,
    p: Point,
    q: Point,
    u: Point,
    v: Point,
    w: Point,
)
    requires
        in_box(p, s),
        in_box(q, s),
        p != q,
        bond_kind(u, v, w, s),
    ensures
        pair_sum(swapped(f, p, q), s, u, v) - pair_sum(f, s, u, v) == bond_from(
            swapped(f, p, q),
            s,
            w,
            p,
        ) + bond_from(swapped(f, p, q), s, w, q) - bond_from(f, s, w, p) - bond_from(f, s, w, q),
{
    let a = f(p);
    let b = f(q);
    let f1 = with_value(f, p, b);
    let f2 = with_value(f1, q, a);
    let g = swapped(f, p, q);
    lemma_pair_sum_update(f, s, p, b, u, v, w);
    lemma_pair_sum_update(f1, s, q, a, u, v, w);
    assert(pair_sum(f2, s, u, v) == pair_sum(g, s, u, v)) by {
        assert(f2 =~= g);
    }
    let pw = shift(p, w, s);
    let pm = shift(p, neg(w), s);
    let qw = shift(q, w, s);
    let qm = shift(q, neg(w), s);
    lemma_shift_back(p, w, s);
    lemma_shift_back(q, w, s);
    assert(pw != p && qw != q);
    assert(pm != p) by {
        assert(shift(pm, w, s) != pm);
    }
    assert(qm != q) by {
        assert(shift(qm, w, s) != qm);
    }
    assert((pw == q) == (qm == p));
    assert((pm == q) == (qw == p));
    let fpw = f(pw);
    let fpm = f(pm);
    let fqw = f(qw);
    let fqm = f(qm);
    let lhs = (b - a) * (fpw + fpm) + (a - b) * (f1(qw) + f1(qm));
    let rhs = b * (g(pw) + g(pm)) + a * (g(qw) + g(qm)) - a * (fpw + fpm) - b * (fqw + fqm);
    assert(f1(q) == b);
    assert(pair_sum(g, s, u, v) - pair_sum(f, s, u, v) == lhs);
    assert(g(p) == b && g(q) == a);
    if pw == q {
        if pm == q {
            assert(lhs == rhs) by (nonlinear_arith)
                requires
                    lhs == (b - a) * (b + b) + (a - b) * (b + b),
                    rhs == b * (a + a) + a * (b + b) - a * (b + b) - b * (a + a),
            ;
        } else {
            assert(lhs == rhs) by (nonlinear_arith)
                requires
                    lhs == (b - a) * (b + fpm) + (a - b) * (fqw + b),
                    rhs == b * (a + fpm) + a * (fqw + b) - a * (b + fpm) - b * (fqw + a),
            ;
        }
    } else {
        if pm == q {
            assert(lhs == rhs) by (nonlinear_arith)
                requires
                    lhs == (b - a) * (fpw + b) + (a - b) * (b + fqm),
                    rhs == b * (fpw + a) + a * (b + fqm) - a * (fpw + b) - b * (a + fqm),
            ;
        } else {
            assert(lhs == rhs) by (nonlinear_arith)
                requires
                    lhs == (b - a) * (fpw + fpm) + (a - b) * (fqw + fqm),
                    rhs == b * (fpw + fpm) + a * (fqw + fqm) - a * (fpw + fpm) - b * (fqw + fqm),
            ;
        }
    }
}

} // verus!
