//! The interaction sums of the lattice.
//!
//! A configuration assigns to every lattice point its spin: `0` on the fixed
//! sublattice, `1` or `-1` on the mobile one. Nearest neighbours on the
//! mobile sublattice are a face diagonal apart, next-nearest neighbours two
//! steps along an axis. The two lattice-wide sums count every such pair of
//! neighbours through the fixed site that lies between them; the two local
//! sums collect the pairs that end at one mobile site.

use crate::bonds::{
    bond_ends, bond_from, bond_kind, lemma_pair_sum_swap, lemma_pair_sum_twice, lemma_shift_back,
    neg, pair_sum, pair_term, shift, step, swapped,
};
use crate::sums::{
    in_box, lemma_sum_box_add, lemma_sum_box_bound, lemma_sum_box_eq, lemma_sum_box_sub,
    lemma_sum_box_two_points, sum_box, sum_plane, sum_range, sum_row, Point,
};
use vstd::prelude::*;

verus! {

/// Whether `c` belongs to the fixed sublattice: its coordinates add up to an
/// even number.
pub open spec fn is_fixed_point(c: Point) -> bool {
    (c.0 + c.1 + c.2) % 2 == 0
}

/// The sublattice rule: fixed points carry spin `0`, mobile points carry
/// spin `1` or `-1`.
pub open spec fn two_sublattices(f: spec_fn(Point) -> int, s: int) -> bool {
    forall|c: Point|
        in_box(c, s) ==> if is_fixed_point(c) {
            #[trigger] f(c) == 0
        } else {
            f(c) == 1 || f(c) == -1
        }
}

/// The spin found `(dx, dy, dz)` away from `c`.
pub open spec fn near(f: spec_fn(Point) -> int, s: int, c: Point, dx: int, dy: int, dz: int) -> int {
    f(shift(c, (dx, dy, dz), s))
}

/// Around a fixed site: the products of the pairs of its axis neighbours that
/// are nearest neighbours of each other. Of the four such pairs in each
/// coordinate plane two are taken, so that over all fixed sites every pair of
/// nearest neighbours is counted once.
pub open spec fn diags_around(f: spec_fn(Point) -> int, s: int, c: Point) -> int {
    near(f, s, c, 0, 1, 0) * near(f, s, c, 0, 0, 1) + near(f, s, c, 0, 0, -1) * near(
        f,
        s,
        c,
        0,
        1,
        0,
    ) + near(f, s, c, 1, 0, 0) * near(f, s, c, 0, 0, 1) + near(f, s, c, 0, 0, -1) * near(
        f,
        s,
        c,
        1,
        0,
        0,
    ) + near(f, s, c, 1, 0, 0) * near(f, s, c, 0, 1, 0) + near(f, s, c, 0, -1, 0) * near(
        f,
        s,
        c,
        1,
        0,
        0,
    )
}

/// Through a fixed site: the products of its three pairs of opposite axis
/// neighbours.
pub open spec fn axis_through(f: spec_fn(Point) -> int, s: int, c: Point) -> int {
    near(f, s, c, -1, 0, 0) * near(f, s, c, 1, 0, 0) + near(f, s, c, 0, -1, 0) * near(
        f,
        s,
        c,
        0,
        1,
        0,
    ) + near(f, s, c, 0, 0, -1) * near(f, s, c, 0, 0, 1)
}

/// The spins of the twelve nearest neighbours of `c`, added up.
pub open spec fn diag_ring(f: spec_fn(Point) -> int, s: int, c: Point) -> int {
    near(f, s, c, 0, 1, 1) + near(f, s, c, 0, 1, -1) + near(f, s, c, 0, -1, -1) + near(
        f,
        s,
        c,
        0,
        -1,
        1,
    ) + near(f, s, c, 1, 0, 1) + near(f, s, c, 1, 0, -1) + near(f, s, c, -1, 0, -1) + near(
        f,
        s,
        c,
        -1,
        0,
        1,
    ) + near(f, s, c, 1, 1, 0) + near(f, s, c, 1, -1, 0) + near(f, s, c, -1, -1, 0) + near(
        f,
        s,
        c,
        -1,
        1,
        0,
    )
}

/// The spins of the six next-nearest neighbours of `c`, added up.
pub open spec fn axis_ring(f: spec_fn(Point) -> int, s: int, c: Point) -> int {
    near(f, s, c, 2, 0, 0) + near(f, s, c, -2, 0, 0) + near(f, s, c, 0, 2, 0) + near(
        f,
        s,
        c,
        0,
        -2,
        0,
    ) + near(f, s, c, 0, 0, 2) + near(f, s, c, 0, 0, -2)
}

/// From a mobile site: the products of its spin with the spins of its twelve
/// nearest neighbours, added up.
pub open spec fn diags_from(f: spec_fn(Point) -> int, s: int, c: Point) -> int {
    f(c) * diag_ring(f, s, c)
}

/// From a mobile site: the products of its spin with the spins of its six
/// next-nearest neighbours, added up.
pub open spec fn axis_from(f: spec_fn(Point) -> int, s: int, c: Point) -> int {
    f(c) * axis_ring(f, s, c)
}

/// What the fixed sublattice contributes at `c` to the nearest-neighbour sum.
pub open spec fn nearest_term(f: spec_fn(Point) -> int, s: int) -> spec_fn(Point) -> int {
    |c: Point|
        if is_fixed_point(c) {
            diags_around(f, s, c)
        } else {
            0
        }
}

/// What the fixed sublattice contributes at `c` to the next-nearest-neighbour
/// sum.
pub open spec fn next_nearest_term(f: spec_fn(Point) -> int, s: int) -> spec_fn(Point) -> int {
    |c: Point|
        if is_fixed_point(c) {
            axis_through(f, s, c)
        } else {
            0
        }
}

/// The nearest-neighbour sum of the whole lattice: `diags_around` added up
/// over every fixed site.
pub open spec fn nearest_sum(f: spec_fn(Point) -> int, s: int) -> int {
    sum_box(nearest_term(f, s), s)
}

/// The next-nearest-neighbour sum of the whole lattice: `axis_through` added
/// up over every fixed site.
pub open spec fn next_nearest_sum(f: spec_fn(Point) -> int, s: int) -> int {
    sum_box(next_nearest_term(f, s), s)
}

/// Stepping once along one axis changes the sublattice.
proof fn lemma_axis_neighbour_is_fixed(c: Point, s: int)
    requires
        in_box(c, s),
        s >= 2,
        s % 2 == 0,
        !is_fixed_point(c),
    ensures
        is_fixed_point(shift(c, (1, 0, 0), s)),
        is_fixed_point(shift(c, (-1, 0, 0), s)),
        is_fixed_point(shift(c, (0, 1, 0), s)),
        is_fixed_point(shift(c, (0, -1, 0), s)),
        is_fixed_point(shift(c, (0, 0, 1), s)),
        is_fixed_point(shift(c, (0, 0, -1), s)),
        in_box(shift(c, (1, 0, 0), s), s),
        in_box(shift(c, (-1, 0, 0), s), s),
        in_box(shift(c, (0, 1, 0), s), s),
        in_box(shift(c, (0, -1, 0), s), s),
        in_box(shift(c, (0, 0, 1), s), s),
        in_box(shift(c, (0, 0, -1), s), s),
{
    reveal(step);
}

/// On a lattice that obeys the sublattice rule the kernels of a fixed site
/// vanish at every mobile site, so the lattice-wide sums may as well run over
/// all sites.
proof fn lemma_sums_over_all_sites(f: spec_fn(Point) -> int, s: int)
    requires
        s >= 2,
        s % 2 == 0,
        forall|c: Point| in_box(c, s) && is_fixed_point(c) ==> #[trigger] f(c) == 0,
    ensures
        nearest_sum(f, s) == sum_box(|c: Point| diags_around(f, s, c), s),
        next_nearest_sum(f, s) == sum_box(|c: Point| axis_through(f, s, c), s),
{
    let all_d = |c: Point| diags_around(f, s, c);
    let all_a = |c: Point| axis_through(f, s, c);
    let nt = nearest_term(f, s);
    let nnt = next_nearest_term(f, s);
    assert forall|c: Point| in_box(c, s) implies #[trigger] nt(c) == all_d(c) by {
        if !is_fixed_point(c) {
            lemma_axis_neighbour_is_fixed(c, s);
            assert(f(shift(c, (1, 0, 0), s)) == 0);
            assert(f(shift(c, (0, 1, 0), s)) == 0);
            assert(f(shift(c, (0, 0, 1), s)) == 0);
            assert(f(shift(c, (0, 0, -1), s)) == 0);
            assert(f(shift(c, (0, -1, 0), s)) == 0);
        }
    }
    assert forall|c: Point| in_box(c, s) implies #[trigger] nnt(c) == all_a(c) by {
        if !is_fixed_point(c) {
            lemma_axis_neighbour_is_fixed(c, s);
            assert(f(shift(c, (1, 0, 0), s)) == 0);
            assert(f(shift(c, (0, 1, 0), s)) == 0);
            assert(f(shift(c, (0, 0, 1), s)) == 0);
        }
    }
    lemma_sum_box_eq(nt, all_d, s);
    lemma_sum_box_eq(nnt, all_a, s);
}

/// The six kinds of nearest-neighbour bond are bond kinds.
proof fn lemma_diag_bond_kinds(s: int)
    requires
        s >= 2,
    ensures
        bond_kind((0, 1, 0), (0, 0, 1), (0, -1, 1), s),
        bond_kind((0, 0, -1), (0, 1, 0), (0, 1, 1), s),
        bond_kind((1, 0, 0), (0, 0, 1), (-1, 0, 1), s),
        bond_kind((0, 0, -1), (1, 0, 0), (1, 0, 1), s),
        bond_kind((1, 0, 0), (0, 1, 0), (-1, 1, 0), s),
        bond_kind((0, -1, 0), (1, 0, 0), (1, 1, 0), s),
{
    reveal(step);
}

/// On a lattice of side four or more the three kinds of next-nearest-
/// neighbour bond are bond kinds.
proof fn lemma_axis_bond_kinds(s: int)
    requires
        s >= 3,
    ensures
        bond_kind((-1, 0, 0), (1, 0, 0), (2, 0, 0), s),
        bond_kind((0, -1, 0), (0, 1, 0), (0, 2, 0), s),
        bond_kind((0, 0, -1), (0, 0, 1), (0, 0, 2), s),
{
    reveal(step);
}

/// The nearest-neighbour kernel, summed over all sites, falls apart into the
/// sums of its six bond kinds.
proof fn lemma_diag_total_by_kind(f: spec_fn(Point) -> int, s: int)
    ensures
        sum_box(|c: Point| diags_around(f, s, c), s) == pair_sum(f, s, (0, 1, 0), (0, 0, 1))
            + pair_sum(f, s, (0, 0, -1), (0, 1, 0)) + pair_sum(f, s, (1, 0, 0), (0, 0, 1))
            + pair_sum(f, s, (0, 0, -1), (1, 0, 0)) + pair_sum(f, s, (1, 0, 0), (0, 1, 0))
            + pair_sum(f, s, (0, -1, 0), (1, 0, 0)),
{
    let t1 = pair_term(f, s, (0, 1, 0), (0, 0, 1));
    let t2 = pair_term(f, s, (0, 0, -1), (0, 1, 0));
    let t3 = pair_term(f, s, (1, 0, 0), (0, 0, 1));
    let t4 = pair_term(f, s, (0, 0, -1), (1, 0, 0));
    let t5 = pair_term(f, s, (1, 0, 0), (0, 1, 0));
    let t6 = pair_term(f, s, (0, -1, 0), (1, 0, 0));
    let a2 = |c: Point| t1(c) + t2(c);
    let a3 = |c: Point| a2(c) + t3(c);
    let a4 = |c: Point| a3(c) + t4(c);
    let a5 = |c: Point| a4(c) + t5(c);
    let a6 = |c: Point| a5(c) + t6(c);
    let all = |c: Point| diags_around(f, s, c);
    lemma_sum_box_add(t1, t2, a2, s);
    lemma_sum_box_add(a2, t3, a3, s);
    lemma_sum_box_add(a3, t4, a4, s);
    lemma_sum_box_add(a4, t5, a5, s);
    lemma_sum_box_add(a5, t6, a6, s);
    assert forall|c: Point| in_box(c, s) implies #[trigger] all(c) == a6(c) by {}
    lemma_sum_box_eq(all, a6, s);
}

/// The next-nearest-neighbour kernel, summed over all sites, falls apart into
/// the sums of its three bond kinds.
proof fn lemma_axis_total_by_kind(f: spec_fn(Point) -> int, s: int)
    ensures
        sum_box(|c: Point| axis_through(f, s, c), s) == pair_sum(f, s, (-1, 0, 0), (1, 0, 0))
            + pair_sum(f, s, (0, -1, 0), (0, 1, 0)) + pair_sum(f, s, (0, 0, -1), (0, 0, 1)),
{
    let t1 = pair_term(f, s, (-1, 0, 0), (1, 0, 0));
    let t2 = pair_term(f, s, (0, -1, 0), (0, 1, 0));
    let t3 = pair_term(f, s, (0, 0, -1), (0, 0, 1));
    let a2 = |c: Point| t1(c) + t2(c);
    let a3 = |c: Point| a2(c) + t3(c);
    let all = |c: Point| axis_through(f, s, c);
    lemma_sum_box_add(t1, t2, a2, s);
    lemma_sum_box_add(a2, t3, a3, s);
    assert forall|c: Point| in_box(c, s) implies #[trigger] all(c) == a3(c) by {}
    lemma_sum_box_eq(all, a3, s);
}

/// The local nearest-neighbour sum at `x` is what the six kinds of bond that
/// end at `x` contribute.
proof fn lemma_diags_from_by_kind(f: spec_fn(Point) -> int, s: int, x: Point)
    ensures
        diags_from(f, s, x) == bond_from(f, s, (0, -1, 1), x) + bond_from(f, s, (0, 1, 1), x)
            + bond_from(f, s, (-1, 0, 1), x) + bond_from(f, s, (1, 0, 1), x) + bond_from(
            f,
            s,
            (-1, 1, 0),
            x,
        ) + bond_from(f, s, (1, 1, 0), x),
{
    let v = f(x);
    let n1 = near(f, s, x, 0, 1, 1);
    let n2 = near(f, s, x, 0, 1, -1);
    let n3 = near(f, s, x, 0, -1, -1);
    let n4 = near(f, s, x, 0, -1, 1);
    let n5 = near(f, s, x, 1, 0, 1);
    let n6 = near(f, s, x, 1, 0, -1);
    let n7 = near(f, s, x, -1, 0, -1);
    let n8 = near(f, s, x, -1, 0, 1);
    let n9 = near(f, s, x, 1, 1, 0);
    let n10 = near(f, s, x, 1, -1, 0);
    let n11 = near(f, s, x, -1, -1, 0);
    let n12 = near(f, s, x, -1, 1, 0);
    assert(neg((0, -1, 1)) == (0int, 1int, -1int));
    assert(neg((0, 1, 1)) == (0int, -1int, -1int));
    assert(neg((-1, 0, 1)) == (1int, 0int, -1int));
    assert(neg((1, 0, 1)) == (-1int, 0int, -1int));
    assert(neg((-1, 1, 0)) == (1int, -1int, 0int));
    assert(neg((1, 1, 0)) == (-1int, -1int, 0int));
    assert(bond_from(f, s, (0, -1, 1), x) == v * (n4 + n2));
    assert(bond_from(f, s, (0, 1, 1), x) == v * (n1 + n3));
    assert(bond_from(f, s, (-1, 0, 1), x) == v * (n8 + n6));
    assert(bond_from(f, s, (1, 0, 1), x) == v * (n5 + n7));
    assert(bond_from(f, s, (-1, 1, 0), x) == v * (n12 + n10));
    assert(bond_from(f, s, (1, 1, 0), x) == v * (n9 + n11));
    assert(v * (n1 + n2 + n3 + n4 + n5 + n6 + n7 + n8 + n9 + n10 + n11 + n12) == v * (n4 + n2) + v
        * (n1 + n3) + v * (n8 + n6) + v * (n5 + n7) + v * (n12 + n10) + v * (n9 + n11))
        by (nonlinear_arith);
}

/// The local next-nearest-neighbour sum at `x` is what the three kinds of
/// bond that end at `x` contribute.
proof fn lemma_axis_from_by_kind(f: spec_fn(Point) -> int, s: int, x: Point)
    ensures
        axis_from(f, s, x) == bond_from(f, s, (2, 0, 0), x) + bond_from(f, s, (0, 2, 0), x)
            + bond_from(f, s, (0, 0, 2), x),
{
    let v = f(x);
    let n1 = near(f, s, x, 2, 0, 0);
    let n2 = near(f, s, x, -2, 0, 0);
    let n3 = near(f, s, x, 0, 2, 0);
    let n4 = near(f, s, x, 0, -2, 0);
    let n5 = near(f, s, x, 0, 0, 2);
    let n6 = near(f, s, x, 0, 0, -2);
    assert(neg((2, 0, 0)) == (-2int, 0int, 0int));
    assert(neg((0, 2, 0)) == (0int, -2int, 0int));
    assert(neg((0, 0, 2)) == (0int, 0int, -2int));
    assert(bond_from(f, s, (2, 0, 0), x) == v * (n1 + n2));
    assert(bond_from(f, s, (0, 2, 0), x) == v * (n3 + n4));
    assert(bond_from(f, s, (0, 0, 2), x) == v * (n5 + n6));
    assert(v * (n1 + n2 + n3 + n4 + n5 + n6) == v * (n1 + n2) + v * (n3 + n4) + v * (n5 + n6))
        by (nonlinear_arith);
}

/// Whether every spin of the configuration is `-1`, `0` or `1`.
pub open spec fn unit_spins(f: spec_fn(Point) -> int, s: int) -> bool {
    forall|c: Point| in_box(c, s) ==> -1 <= #[trigger] f(c) <= 1
}

/// A product of two spins is again `-1`, `0` or `1`.
pub proof fn lemma_spin_product(a: int, b: int)
    requires
        -1 <= a <= 1,
        -1 <= b <= 1,
    ensures
        -1 <= a * b <= 1,
        a == 0 || b == 0 ==> a * b == 0,
        a == 1 ==> a * b == b,
        a == -1 ==> a * b == -b,
{
    assert(-1 <= a * b <= 1) by (nonlinear_arith)
        requires
            -1 <= a <= 1,
            -1 <= b <= 1,
    ;
    assert(a == 0 || b == 0 ==> a * b == 0) by (nonlinear_arith);
    assert(a == 1 ==> a * b == b) by (nonlinear_arith);
    assert(a == -1 ==> a * b == -b) by (nonlinear_arith);
}

/// The bounds of the four kernels.
pub proof fn lemma_kernel_bounds(f: spec_fn(Point) -> int, s: int, c: Point)
    requires
        s >= 2,
        in_box(c, s),
        unit_spins(f, s),
    ensures
        -6 <= diags_around(f, s, c) <= 6,
        -3 <= axis_through(f, s, c) <= 3,
        -12 <= diag_ring(f, s, c) <= 12,
        -6 <= axis_ring(f, s, c) <= 6,
        -12 <= diags_from(f, s, c) <= 12,
        -6 <= axis_from(f, s, c) <= 6,
{
    lemma_near_in_box(c, s);
    let xp = near(f, s, c, 1, 0, 0);
    let xm = near(f, s, c, -1, 0, 0);
    let yp = near(f, s, c, 0, 1, 0);
    let ym = near(f, s, c, 0, -1, 0);
    let zp = near(f, s, c, 0, 0, 1);
    let zm = near(f, s, c, 0, 0, -1);
    lemma_spin_product(yp, zp);
    lemma_spin_product(zm, yp);
    lemma_spin_product(xp, zp);
    lemma_spin_product(zm, xp);
    lemma_spin_product(xp, yp);
    lemma_spin_product(ym, xp);
    lemma_spin_product(xm, xp);
    lemma_spin_product(ym, yp);
    lemma_spin_product(zm, zp);
    let v = f(c);
    let d = diag_ring(f, s, c);
    let a = axis_ring(f, s, c);
    assert(-12 <= v * d <= 12) by (nonlinear_arith)
        requires
            -1 <= v <= 1,
            -12 <= d <= 12,
    ;
    assert(-6 <= v * a <= 6) by (nonlinear_arith)
        requires
            -1 <= v <= 1,
            -6 <= a <= 6,
    ;
}

/// Every neighbour that a kernel looks at lies on the lattice.
pub proof fn lemma_near_in_box(c: Point, s: int)
    requires
        s >= 2,
        in_box(c, s),
    ensures
        forall|dx: int, dy: int, dz: int|
            -2 <= dx <= 2 && -2 <= dy <= 2 && -2 <= dz <= 2 ==> in_box(
                #[trigger] shift(c, (dx, dy, dz), s),
                s,
            ),
{
    assert forall|dx: int, dy: int, dz: int|
        -2 <= dx <= 2 && -2 <= dy <= 2 && -2 <= dz <= 2 implies in_box(
        #[trigger] shift(c, (dx, dy, dz), s),
        s,
    ) by {
        lemma_shift_back(c, (dx, dy, dz), s);
    }
}

/// The bounds of the two lattice-wide sums.
pub proof fn lemma_sum_bounds(f: spec_fn(Point) -> int, s: int)
    requires
        s >= 2,
        unit_spins(f, s),
    ensures
        -(6 * (s * s * s)) <= nearest_sum(f, s) <= 6 * (s * s * s),
        -(3 * (s * s * s)) <= next_nearest_sum(f, s) <= 3 * (s * s * s),
{
    let nt = nearest_term(f, s);
    let nnt = next_nearest_term(f, s);
    assert forall|c: Point| in_box(c, s) implies -6 <= #[trigger] nt(c) <= 6 by {
        lemma_kernel_bounds(f, s, c);
    }
    assert forall|c: Point| in_box(c, s) implies -3 <= #[trigger] nnt(c) <= 3 by {
        lemma_kernel_bounds(f, s, c);
    }
    lemma_sum_box_bound(nt, s, 6);
    lemma_sum_box_bound(nnt, s, 3);
    assert(s * s * s * 6 == 6 * (s * s * s)) by (nonlinear_arith);
    assert(s * s * s * 3 == 3 * (s * s * s)) by (nonlinear_arith);
}

/// Exchanging the spins of two mobile sites moves the nearest-neighbour sum
/// of the lattice by exactly as much as it moves the local sums of the two
/// sites, whether or not the two sites are neighbours of each other.
pub proof fn lemma_swap_nearest(f: spec_fn(Point) -> int, s: int, p: Point, q: Point)
    requires
        s >= 2,
        s % 2 == 0,
        in_box(p, s),
        in_box(q, s),
        p != q,
        !is_fixed_point(p),
        !is_fixed_point(q),
        forall|c: Point| in_box(c, s) && is_fixed_point(c) ==> #[trigger] f(c) == 0,
    ensures
        nearest_sum(swapped(f, p, q), s) - nearest_sum(f, s) == diags_from(swapped(f, p, q), s, p)
            + diags_from(swapped(f, p, q), s, q) - diags_from(f, s, p) - diags_from(f, s, q),
{
    let g = swapped(f, p, q);
    lemma_sums_over_all_sites(f, s);
    lemma_sums_over_all_sites(g, s);
    lemma_diag_total_by_kind(f, s);
    lemma_diag_total_by_kind(g, s);
    lemma_diag_bond_kinds(s);
    lemma_pair_sum_swap(f, s, p, q, (0, 1, 0), (0, 0, 1), (0, -1, 1));
    lemma_pair_sum_swap(f, s, p, q, (0, 0, -1), (0, 1, 0), (0, 1, 1));
    lemma_pair_sum_swap(f, s, p, q, (1, 0, 0), (0, 0, 1), (-1, 0, 1));
    lemma_pair_sum_swap(f, s, p, q, (0, 0, -1), (1, 0, 0), (1, 0, 1));
    lemma_pair_sum_swap(f, s, p, q, (1, 0, 0), (0, 1, 0), (-1, 1, 0));
    lemma_pair_sum_swap(f, s, p, q, (0, -1, 0), (1, 0, 0), (1, 1, 0));
    lemma_diags_from_by_kind(f, s, p);
    lemma_diags_from_by_kind(f, s, q);
    lemma_diags_from_by_kind(g, s, p);
    lemma_diags_from_by_kind(g, s, q);
}

/// On the lattice of side two every site is its own next-nearest neighbour
/// in all six directions, and the two axis neighbours of a site coincide.
proof fn lemma_side_two(f: spec_fn(Point) -> int, c: Point)
    requires
        in_box(c, 2),
    ensures
        axis_from(f, 2, c) == 6 * (f(c) * f(c)),
        shift(c, (1, 0, 0), 2) == shift(c, (-1, 0, 0), 2),
        shift(c, (0, 1, 0), 2) == shift(c, (0, -1, 0), 2),
        shift(c, (0, 0, 1), 2) == shift(c, (0, 0, -1), 2),
        shift(c, (1, 0, 0), 2) == (1 - c.0, c.1, c.2),
        shift(c, (0, 1, 0), 2) == (c.0, 1 - c.1, c.2),
        shift(c, (0, 0, 1), 2) == (c.0, c.1, 1 - c.2),
{
    reveal(step);
    let v = f(c);
    assert(shift(c, (2, 0, 0), 2) == c);
    assert(shift(c, (-2, 0, 0), 2) == c);
    assert(shift(c, (0, 2, 0), 2) == c);
    assert(shift(c, (0, -2, 0), 2) == c);
    assert(shift(c, (0, 0, 2), 2) == c);
    assert(shift(c, (0, 0, -2), 2) == c);
    assert(v * (v + v + v + v + v + v) == 6 * (v * v)) by (nonlinear_arith);
}

/// The sum over the box of side two, written out.
proof fn lemma_sum_box_side_two(h: spec_fn(Point) -> int)
    ensures
        sum_box(h, 2) == h((0, 0, 0)) + h((0, 0, 1)) + h((0, 1, 0)) + h((0, 1, 1)) + h((1, 0, 0))
            + h((1, 0, 1)) + h((1, 1, 0)) + h((1, 1, 1)),
{
    reveal_with_fuel(sum_range, 3);
    assert(sum_row(h, 2, 0, 0) == h((0, 0, 0)) + h((0, 0, 1)));
    assert(sum_row(h, 2, 0, 1) == h((0, 1, 0)) + h((0, 1, 1)));
    assert(sum_row(h, 2, 1, 0) == h((1, 0, 0)) + h((1, 0, 1)));
    assert(sum_row(h, 2, 1, 1) == h((1, 1, 0)) + h((1, 1, 1)));
    assert(sum_plane(h, 2, 0) == sum_row(h, 2, 0, 0) + sum_row(h, 2, 0, 1));
    assert(sum_plane(h, 2, 1) == sum_row(h, 2, 1, 0) + sum_row(h, 2, 1, 1));
}

/// On the lattice of side two the next-nearest-neighbour kernel, summed over
/// all sites, is three times the sum of the squared spins.
proof fn lemma_axis_total_side_two(f: spec_fn(Point) -> int)
    ensures
        sum_box(|c: Point| axis_through(f, 2, c), 2) == 3 * sum_box(|c: Point| f(c) * f(c), 2),
{
    let all = |c: Point| axis_through(f, 2, c);
    let sq = |c: Point| f(c) * f(c);
    lemma_sum_box_side_two(all);
    lemma_sum_box_side_two(sq);
    lemma_side_two(f, (0, 0, 0));
    lemma_side_two(f, (0, 0, 1));
    lemma_side_two(f, (0, 1, 0));
    lemma_side_two(f, (0, 1, 1));
    lemma_side_two(f, (1, 0, 0));
    lemma_side_two(f, (1, 0, 1));
    lemma_side_two(f, (1, 1, 0));
    lemma_side_two(f, (1, 1, 1));
}

/// Exchanging two spins leaves the sum of the squared spins as it was.
proof fn lemma_swap_squares(f: spec_fn(Point) -> int, s: int, p: Point, q: Point)
    requires
        in_box(p, s),
        in_box(q, s),
        p != q,
    ensures
        sum_box(|c: Point| swapped(f, p, q)(c) * swapped(f, p, q)(c), s) == sum_box(
            |c: Point| f(c) * f(c),
            s,
        ),
{
    let g = swapped(f, p, q);
    let sf = |c: Point| f(c) * f(c);
    let sg = |c: Point| g(c) * g(c);
    let d = |c: Point| sg(c) - sf(c);
    assert forall|c: Point| in_box(c, s) && c != p && c != q implies #[trigger] d(c) == 0 by {}
    lemma_sum_box_two_points(d, s, p, q);
    lemma_sum_box_sub(sg, sf, d, s);
}

/// Exchanging the spins of two mobile sites moves the next-nearest-neighbour
/// sum of the lattice by exactly as much as it moves the local sums of the
/// two sites, whether or not the two sites are neighbours of each other.
pub proof fn lemma_swap_next_nearest(f: spec_fn(Point) -> int, s: int, p: Point, q: Point)
    requires
        s >= 2,
        s % 2 == 0,
        in_box(p, s),
        in_box(q, s),
        p != q,
        !is_fixed_point(p),
        !is_fixed_point(q),
        forall|c: Point| in_box(c, s) && is_fixed_point(c) ==> #[trigger] f(c) == 0,
    ensures
        next_nearest_sum(swapped(f, p, q), s) - next_nearest_sum(f, s) == axis_from(
            swapped(f, p, q),
            s,
            p,
        ) + axis_from(swapped(f, p, q), s, q) - axis_from(f, s, p) - axis_from(f, s, q),
{
    let g = swapped(f, p, q);
    lemma_sums_over_all_sites(f, s);
    lemma_sums_over_all_sites(g, s);
    if s == 2 {
        lemma_axis_total_side_two(f);
        lemma_axis_total_side_two(g);
        lemma_swap_squares(f, 2, p, q);
        lemma_side_two(f, p);
        lemma_side_two(f, q);
        lemma_side_two(g, p);
        lemma_side_two(g, q);
    } else {
        lemma_axis_total_by_kind(f, s);
        lemma_axis_total_by_kind(g, s);
        lemma_axis_bond_kinds(s);
        lemma_pair_sum_swap(f, s, p, q, (-1, 0, 0), (1, 0, 0), (2, 0, 0));
        lemma_pair_sum_swap(f, s, p, q, (0, -1, 0), (0, 1, 0), (0, 2, 0));
        lemma_pair_sum_swap(f, s, p, q, (0, 0, -1), (0, 0, 1), (0, 0, 2));
        lemma_axis_from_by_kind(f, s, p);
        lemma_axis_from_by_kind(f, s, q);
        lemma_axis_from_by_kind(g, s, p);
        lemma_axis_from_by_kind(g, s, q);
    }
}

/// Configurations that agree on the lattice have the same kernels and the
/// same sums.
pub proof fn lemma_same_on_box(f: spec_fn(Point) -> int, g: spec_fn(Point) -> int, s: int)
    requires
        s >= 2,
        forall|c: Point| in_box(c, s) ==> #[trigger] f(c) == g(c),
    ensures
        nearest_sum(f, s) == nearest_sum(g, s),
        next_nearest_sum(f, s) == next_nearest_sum(g, s),
        forall|c: Point| in_box(c, s) ==> #[trigger] diags_around(f, s, c) == diags_around(g, s, c),
        forall|c: Point| in_box(c, s) ==> #[trigger] axis_through(f, s, c) == axis_through(g, s, c),
        forall|c: Point| in_box(c, s) ==> #[trigger] diags_from(f, s, c) == diags_from(g, s, c),
        forall|c: Point| in_box(c, s) ==> #[trigger] axis_from(f, s, c) == axis_from(g, s, c),
{
    assert forall|c: Point| in_box(c, s) implies #[trigger] diags_around(f, s, c) == diags_around(
        g,
        s,
        c,
    ) by {
        lemma_near_in_box(c, s);
    }
    assert forall|c: Point| in_box(c, s) implies #[trigger] axis_through(f, s, c) == axis_through(
        g,
        s,
        c,
    ) by {
        lemma_near_in_box(c, s);
    }
    assert forall|c: Point| in_box(c, s) implies #[trigger] diags_from(f, s, c) == diags_from(
        g,
        s,
        c,
    ) by {
        lemma_near_in_box(c, s);
    }
    assert forall|c: Point| in_box(c, s) implies #[trigger] axis_from(f, s, c) == axis_from(
        g,
        s,
        c,
    ) by {
        lemma_near_in_box(c, s);
    }
    let nf = nearest_term(f, s);
    let ng = nearest_term(g, s);
    assert forall|c: Point| in_box(c, s) implies #[trigger] nf(c) == ng(c) by {
        assert(diags_around(f, s, c) == diags_around(g, s, c));
    }
    lemma_sum_box_eq(nf, ng, s);
    let xf = next_nearest_term(f, s);
    let xg = next_nearest_term(g, s);
    assert forall|c: Point| in_box(c, s) implies #[trigger] xf(c) == xg(c) by {
        assert(axis_through(f, s, c) == axis_through(g, s, c));
    }
    lemma_sum_box_eq(xf, xg, s);
}

/// The bond kinds of both kernels couple points that are one step from the
/// centre.
proof fn lemma_bond_ends(s: int)
    requires
        s >= 2,
    ensures
        bond_ends((0, 1, 0), (0, 0, 1), (0, -1, 1), s),
        bond_ends((0, 0, -1), (0, 1, 0), (0, 1, 1), s),
        bond_ends((1, 0, 0), (0, 0, 1), (-1, 0, 1), s),
        bond_ends((0, 0, -1), (1, 0, 0), (1, 0, 1), s),
        bond_ends((1, 0, 0), (0, 1, 0), (-1, 1, 0), s),
        bond_ends((0, -1, 0), (1, 0, 0), (1, 1, 0), s),
        bond_ends((-1, 0, 0), (1, 0, 0), (2, 0, 0), s),
        bond_ends((0, -1, 0), (0, 1, 0), (0, 2, 0), s),
        bond_ends((0, 0, -1), (0, 0, 1), (0, 0, 2), s),
{
    reveal(step);
}

/// No double counting: added up over all fixed sites, the kernels count
/// every pair of neighbours once. The local sums, added up over all sites,
/// count every pair from both of its ends, and so come to exactly twice the
/// lattice-wide sums.
pub proof fn lemma_pairs_counted_once(f: spec_fn(Point) -> int, s: int)
    requires
        s >= 2,
        s % 2 == 0,
        forall|c: Point| in_box(c, s) && is_fixed_point(c) ==> #[trigger] f(c) == 0,
    ensures
        2 * nearest_sum(f, s) == sum_box(|x: Point| diags_from(f, s, x), s),
        2 * next_nearest_sum(f, s) == sum_box(|x: Point| axis_from(f, s, x), s),
{
    lemma_sums_over_all_sites(f, s);
    lemma_bond_ends(s);
    // nearest neighbours
    lemma_diag_total_by_kind(f, s);
    lemma_pair_sum_twice(f, s, (0, 1, 0), (0, 0, 1), (0, -1, 1));
    lemma_pair_sum_twice(f, s, (0, 0, -1), (0, 1, 0), (0, 1, 1));
    lemma_pair_sum_twice(f, s, (1, 0, 0), (0, 0, 1), (-1, 0, 1));
    lemma_pair_sum_twice(f, s, (0, 0, -1), (1, 0, 0), (1, 0, 1));
    lemma_pair_sum_twice(f, s, (1, 0, 0), (0, 1, 0), (-1, 1, 0));
    lemma_pair_sum_twice(f, s, (0, -1, 0), (1, 0, 0), (1, 1, 0));
    let d1 = |x: Point| bond_from(f, s, (0, -1, 1), x);
    let d2 = |x: Point| bond_from(f, s, (0, 1, 1), x);
    let d3 = |x: Point| bond_from(f, s, (-1, 0, 1), x);
    let d4 = |x: Point| bond_from(f, s, (1, 0, 1), x);
    let d5 = |x: Point| bond_from(f, s, (-1, 1, 0), x);
    let d6 = |x: Point| bond_from(f, s, (1, 1, 0), x);
    let e2 = |x: Point| d1(x) + d2(x);
    let e3 = |x: Point| e2(x) + d3(x);
    let e4 = |x: Point| e3(x) + d4(x);
    let e5 = |x: Point| e4(x) + d5(x);
    let e6 = |x: Point| e5(x) + d6(x);
    let from_d = |x: Point| diags_from(f, s, x);
    lemma_sum_box_add(d1, d2, e2, s);
    lemma_sum_box_add(e2, d3, e3, s);
    lemma_sum_box_add(e3, d4, e4, s);
    lemma_sum_box_add(e4, d5, e5, s);
    lemma_sum_box_add(e5, d6, e6, s);
    assert forall|x: Point| in_box(x, s) implies #[trigger] from_d(x) == e6(x) by {
        lemma_diags_from_by_kind(f, s, x);
    }
    lemma_sum_box_eq(from_d, e6, s);
    // next-nearest neighbours
    lemma_axis_total_by_kind(f, s);
    lemma_pair_sum_twice(f, s, (-1, 0, 0), (1, 0, 0), (2, 0, 0));
    lemma_pair_sum_twice(f, s, (0, -1, 0), (0, 1, 0), (0, 2, 0));
    lemma_pair_sum_twice(f, s, (0, 0, -1), (0, 0, 1), (0, 0, 2));
    let a1 = |x: Point| bond_from(f, s, (2, 0, 0), x);
    let a2 = |x: Point| bond_from(f, s, (0, 2, 0), x);
    let a3 = |x: Point| bond_from(f, s, (0, 0, 2), x);
    let b2 = |x: Point| a1(x) + a2(x);
    let b3 = |x: Point| b2(x) + a3(x);
    let from_a = |x: Point| axis_from(f, s, x);
    lemma_sum_box_add(a1, a2, b2, s);
    lemma_sum_box_add(b2, a3, b3, s);
    assert forall|x: Point| in_box(x, s) implies #[trigger] from_a(x) == b3(x) by {
        lemma_axis_from_by_kind(f, s, x);
    }
    lemma_sum_box_eq(from_a, b3, s);
}

} // verus!
