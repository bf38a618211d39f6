//! The lattice of sites behind a model: how a grid of sites is read as a
//! spin configuration, the sublattice rule and how a lattice is laid out
//! from draws, the four neighbour kernels and the two lattice-wide sums
//! computed on a grid, and the trade of two sites.

use crate::array3d::{
    coords_of, flat_offset, lemma_coords_of_offset, lemma_flat_offset_bound,
    lemma_offset_of_coords, wrap_coord, Array3d, Coord,
};
use crate::bonds::{lemma_shift_zero, lemma_step_is_mod, shift, swapped};
use crate::energy;
use crate::energy::{
    is_fixed_point, lemma_kernel_bounds, lemma_spin_product, near, nearest_term, next_nearest_term,
    two_sublattices, unit_spins,
};
use crate::site::Site;
use crate::sums::{
    box_part, in_box, lemma_parts_bound, lemma_parts_step, plane_part, row_part, sum_plane, sum_row,
    Point,
};
use vstd::prelude::*;

verus! {

/// A cubic grid of sites of side `S`.
pub type SiteGrid<const S: usize> = Array3d<Site, S, S, S>;

/// The spin configuration of a grid of sites, given as its flat sequence of
/// cells: the spin at a point is the spin of the site stored for it.
pub open spec fn spin_field(cells: Seq<Site>, s: int) -> spec_fn(Point) -> int {
    |c: Point| cells[flat_offset(c.0, c.1, c.2, s, s, s)].spin()
}

/// The lattice point that a coordinate triple names: each coordinate reduced
/// to its non-negative remainder modulo the side length.
pub open spec fn home(idx: Coord, s: int) -> Point {
    (idx.0 as int % s, idx.1 as int % s, idx.2 as int % s)
}

/// Side lengths that a lattice can have: even, at least two, and small
/// enough for the sums over the lattice to fit the machine's signed word.
pub open spec fn side_ok(s: int) -> bool {
    &&& s >= 2
    &&& s % 2 == 0
    &&& 6 * (s * s * s) <= isize::MAX
}

/// Whether `site` may stand at the lattice point `c`: the fixed metal on the
/// fixed sublattice and nothing else there, a mobile site elsewhere.
pub open spec fn site_fits(site: Site, c: Point) -> bool {
    is_fixed_point(c) <==> site == Site::FixedMetal
}

/// Whether every cell of a flat sequence holds a site that may stand at the
/// point which the cell is stored for.
pub open spec fn sites_fit(cells: Seq<Site>, s: int) -> bool {
    forall|o: int| 0 <= o < cells.len() ==> site_fits(#[trigger] cells[o], coords_of(o, s, s))
}

/// A grid of sites that has one cell per lattice point and obeys the
/// sublattice rule.
pub open spec fn lattice_ok(cells: Seq<Site>, s: int) -> bool {
    &&& side_ok(s)
    &&& cells.len() == s * s * s
    &&& two_sublattices(spin_field(cells, s), s)
}

/// The site that stands at the lattice point `c` when the draw for that
/// point came out as `draw`: the fixed metal on a fixed point, whatever the
/// draw; on a mobile point an occupied site for `true`, a vacant one for
/// `false`.
pub open spec fn site_for(c: Point, draw: bool) -> Site {
    if is_fixed_point(c) {
        Site::FixedMetal
    } else if draw {
        Site::Occupied
    } else {
        Site::Vacant
    }
}

/// The cells of the lattice of side `s` that a sequence of draws fills. The
/// mobile points take the draws in flat order: of the cells `2 * k` and
/// `2 * k + 1`, which are neighbours in one row, one is mobile, and it takes
/// draw `k`.
pub open spec fn laid_out(draws: Seq<bool>, s: int) -> Seq<Site> {
    Seq::new((s * s * s) as nat, |o: int| site_for(coords_of(o, s, s), draws[o / 2]))
}

/// The cells of a grid after the sites named by `a` and `b` have traded
/// places.
pub open spec fn swap_cells(cells: Seq<Site>, s: int, a: Coord, b: Coord) -> Seq<Site> {
    let oa = flat_offset(a.0 as int, a.1 as int, a.2 as int, s, s, s);
    let ob = flat_offset(b.0 as int, b.1 as int, b.2 as int, s, s, s);
    cells.update(oa, cells[ob]).update(ob, cells[oa])
}

/// The number of occupied sites among `cells`.
pub open spec fn count_occupied(cells: Seq<Site>) -> nat
    decreases cells.len(),
{
    if cells.len() == 0 {
        0
    } else {
        count_occupied(cells.drop_last()) + if cells.last() == Site::Occupied {
            1nat
        } else {
            0nat
        }
    }
}

/// Facts about side lengths: the cube of the side bounds the side and its
/// square, and is even.
pub proof fn lemma_side(s: int)
    requires
        side_ok(s),
    ensures
        s <= s * s <= s * s * s,
        s * s * s <= isize::MAX,
        s + 2 <= isize::MAX,
        (s * s * s) % 2 == 0,
{
    let t = s / 2;
    assert(s * s * s == 2 * (t * s * s)) by (nonlinear_arith)
        requires
            s == 2 * t,
    ;
    assert(s <= s * s) by (nonlinear_arith)
        requires
            s >= 2,
    ;
    assert(s * s <= s * s * s) by (nonlinear_arith)
        requires
            s >= 2,
    ;
    assert(4 * s <= s * s * s) by (nonlinear_arith)
        requires
            s >= 2,
    ;
}

/// The point that a coordinate triple names lies on the lattice, and the
/// grid stores its site where the triple resolves to.
pub proof fn lemma_home(cells: Seq<Site>, s: int, idx: Coord)
    requires
        s > 0,
    ensures
        in_box(home(idx, s), s),
        flat_offset(home(idx, s).0, home(idx, s).1, home(idx, s).2, s, s, s) == flat_offset(
            idx.0 as int,
            idx.1 as int,
            idx.2 as int,
            s,
            s,
            s,
        ),
        spin_field(cells, s)(home(idx, s)) == cells[flat_offset(
            idx.0 as int,
            idx.1 as int,
            idx.2 as int,
            s,
            s,
            s,
        )].spin(),
{
    vstd::arithmetic::div_mod::lemma_mod_bound(idx.0 as int, s);
    vstd::arithmetic::div_mod::lemma_mod_bound(idx.1 as int, s);
    vstd::arithmetic::div_mod::lemma_mod_bound(idx.2 as int, s);
    vstd::arithmetic::div_mod::lemma_mod_twice(idx.0 as int, s);
    vstd::arithmetic::div_mod::lemma_mod_twice(idx.1 as int, s);
    vstd::arithmetic::div_mod::lemma_mod_twice(idx.2 as int, s);
}

/// Coordinates on the lattice name themselves.
pub proof fn lemma_home_in_box(idx: Coord, s: int)
    requires
        in_box((idx.0 as int, idx.1 as int, idx.2 as int), s),
    ensures
        home(idx, s) == (idx.0 as int, idx.1 as int, idx.2 as int),
{
    vstd::arithmetic::div_mod::lemma_small_mod(idx.0 as nat, s as nat);
    vstd::arithmetic::div_mod::lemma_small_mod(idx.1 as nat, s as nat);
    vstd::arithmetic::div_mod::lemma_small_mod(idx.2 as nat, s as nat);
}

/// The spin found `d` away from the lattice point `c` is the spin of the
/// site that the grid stores for the coordinates `c + d`.
pub proof fn lemma_near_is_cell(cells: Seq<Site>, s: int, c: Point, d: Point)
    requires
        s >= 2,
        in_box(c, s),
        -2 <= d.0 <= 2,
        -2 <= d.1 <= 2,
        -2 <= d.2 <= 2,
    ensures
        near(spin_field(cells, s), s, c, d.0, d.1, d.2) == cells[flat_offset(
            c.0 + d.0,
            c.1 + d.1,
            c.2 + d.2,
            s,
            s,
            s,
        )].spin(),
        in_box(shift(c, d, s), s),
{
    lemma_step_is_mod(c.0, d.0, s);
    lemma_step_is_mod(c.1, d.1, s);
    lemma_step_is_mod(c.2, d.2, s);
    let t = shift(c, d, s);
    vstd::arithmetic::div_mod::lemma_small_mod(t.0 as nat, s as nat);
    vstd::arithmetic::div_mod::lemma_small_mod(t.1 as nat, s as nat);
    vstd::arithmetic::div_mod::lemma_small_mod(t.2 as nat, s as nat);
}

/// The spins of a grid of sites are `-1`, `0` or `1`.
pub proof fn lemma_unit_spins(cells: Seq<Site>, s: int)
    ensures
        unit_spins(spin_field(cells, s), s),
{
}

/// A grid with one cell per lattice point obeys the sublattice rule exactly
/// when each of its cells holds a site that fits its point.
pub proof fn lemma_sites_fit(cells: Seq<Site>, s: int)
    requires
        s > 0,
        cells.len() == s * s * s,
    ensures
        sites_fit(cells, s) <==> two_sublattices(spin_field(cells, s), s),
{
    let f = spin_field(cells, s);
    if sites_fit(cells, s) {
        assert forall|c: Point| in_box(c, s) implies if is_fixed_point(c) {
            #[trigger] f(c) == 0
        } else {
            f(c) == 1 || f(c) == -1
        } by {
            lemma_coords_of_offset(c.0, c.1, c.2, s, s, s);
            lemma_flat_offset_bound(c.0, c.1, c.2, s, s, s);
            let o = flat_offset(c.0, c.1, c.2, s, s, s);
            assert(site_fits(cells[o], coords_of(o, s, s)));
        }
    }
    if two_sublattices(f, s) {
        assert forall|o: int| 0 <= o < cells.len() implies site_fits(
            #[trigger] cells[o],
            coords_of(o, s, s),
        ) by {
            lemma_offset_of_coords(o, s, s, s);
            let c = coords_of(o, s, s);
            assert(in_box(c, s));
            assert(f(c) == cells[o].spin());
        }
    }
}

/// What `laid_out` fills obeys the sublattice rule.
pub proof fn lemma_laid_out_fits(draws: Seq<bool>, s: int)
    requires
        s > 0,
    ensures
        sites_fit(laid_out(draws, s), s),
        laid_out(draws, s).len() == s * s * s,
{
    assert(s * s * s > 0) by (nonlinear_arith)
        requires
            s > 0,
    ;
}

/// Trading two sites of a grid trades the spins at the two points and leaves
/// all other spins as they were.
pub proof fn lemma_swap_cells(cells: Seq<Site>, s: int, a: Coord, b: Coord)
    requires
        s > 0,
        cells.len() == s * s * s,
    ensures
        swap_cells(cells, s, a, b).len() == cells.len(),
        forall|c: Point|
            in_box(c, s) ==> #[trigger] spin_field(swap_cells(cells, s, a, b), s)(c) == swapped(
                spin_field(cells, s),
                home(a, s),
                home(b, s),
            )(c),
{
    let f = spin_field(cells, s);
    let g = spin_field(swap_cells(cells, s, a, b), s);
    let p = home(a, s);
    let q = home(b, s);
    lemma_home(cells, s, a);
    lemma_home(cells, s, b);
    lemma_flat_offset_bound(a.0 as int, a.1 as int, a.2 as int, s, s, s);
    lemma_flat_offset_bound(b.0 as int, b.1 as int, b.2 as int, s, s, s);
    lemma_coords_of_offset(p.0, p.1, p.2, s, s, s);
    lemma_coords_of_offset(q.0, q.1, q.2, s, s, s);
    assert forall|c: Point| in_box(c, s) implies #[trigger] g(c) == swapped(f, p, q)(c) by {
        lemma_coords_of_offset(c.0, c.1, c.2, s, s, s);
        lemma_flat_offset_bound(c.0, c.1, c.2, s, s, s);
    }
}

/// Trading the same two sites twice restores the grid.
pub proof fn lemma_swap_twice(cells: Seq<Site>, s: int, a: Coord, b: Coord)
    requires
        s > 0,
        cells.len() == s * s * s,
    ensures
        swap_cells(swap_cells(cells, s, a, b), s, a, b) == cells,
{
    lemma_flat_offset_bound(a.0 as int, a.1 as int, a.2 as int, s, s, s);
    lemma_flat_offset_bound(b.0 as int, b.1 as int, b.2 as int, s, s, s);
    assert(swap_cells(swap_cells(cells, s, a, b), s, a, b) =~= cells);
}

/// The number of occupied sites after one cell has been overwritten.
pub proof fn lemma_count_update(cells: Seq<Site>, o: int, v: Site)
    requires
        0 <= o < cells.len(),
    ensures
        count_occupied(cells.update(o, v)) + (if cells[o] == Site::Occupied {
            1int
        } else {
            0int
        }) == count_occupied(cells) + (if v == Site::Occupied {
            1int
        } else {
            0int
        }),
    decreases cells.len(),
{
    let after = cells.update(o, v);
    if o == cells.len() - 1 {
        assert(after.drop_last() =~= cells.drop_last());
    } else {
        assert(after.drop_last() =~= cells.drop_last().update(o, v));
        lemma_count_update(cells.drop_last(), o, v);
    }
}

/// Occupancy is conserved: trading two sites changes neither the number of
/// occupied sites nor the number of cells.
pub proof fn lemma_swap_conserves(cells: Seq<Site>, s: int, a: Coord, b: Coord)
    requires
        s > 0,
        cells.len() == s * s * s,
    ensures
        count_occupied(swap_cells(cells, s, a, b)) == count_occupied(cells),
        swap_cells(cells, s, a, b).len() == cells.len(),
{
    let oa = flat_offset(a.0 as int, a.1 as int, a.2 as int, s, s, s);
    let ob = flat_offset(b.0 as int, b.1 as int, b.2 as int, s, s, s);
    lemma_flat_offset_bound(a.0 as int, a.1 as int, a.2 as int, s, s, s);
    lemma_flat_offset_bound(b.0 as int, b.1 as int, b.2 as int, s, s, s);
    lemma_count_update(cells, oa, cells[ob]);
    lemma_count_update(cells.update(oa, cells[ob]), ob, cells[oa]);
}

/// A sequence of cells that holds an occupied site counts at least one.
pub proof fn lemma_count_positive(cells: Seq<Site>, o: int)
    requires
        0 <= o < cells.len(),
        cells[o] == Site::Occupied,
    ensures
        count_occupied(cells) > 0,
    decreases cells.len(),
{
    if o < cells.len() - 1 {
        lemma_count_positive(cells.drop_last(), o);
    }
}

/// The cells `2 * k` and `2 * k + 1` of a lattice of even side are
/// neighbours in one row, so that exactly one of them is mobile.
pub proof fn lemma_cell_pair(k: int, s: int)
    requires
        s >= 2,
        s % 2 == 0,
        0 <= k,
        2 * k < s * s * s,
    ensures
        2 * k + 1 < s * s * s,
        is_fixed_point(coords_of(2 * k, s, s)) != is_fixed_point(coords_of(2 * k + 1, s, s)),
{
    let c = coords_of(2 * k, s, s);
    lemma_offset_of_coords(2 * k, s, s, s);
    let t = s / 2;
    let q = (2 * k) / s;
    vstd::arithmetic::div_mod::lemma_fundamental_div_mod(2 * k, s);
    assert(s * q == 2 * (t * q)) by (nonlinear_arith)
        requires
            s == 2 * t,
    ;
    assert(c.0 % 2 == 0);
    assert(c.0 + 1 < s);
    vstd::arithmetic::div_mod::lemma_small_mod((c.0 + 1) as nat, s as nat);
    vstd::arithmetic::div_mod::lemma_small_mod(c.0 as nat, s as nat);
    vstd::arithmetic::div_mod::lemma_small_mod(c.1 as nat, s as nat);
    vstd::arithmetic::div_mod::lemma_small_mod(c.2 as nat, s as nat);
    lemma_coords_of_offset(c.0 + 1, c.1, c.2, s, s, s);
    lemma_flat_offset_bound(c.0 + 1, c.1, c.2, s, s, s);
    assert(flat_offset(c.0 + 1, c.1, c.2, s, s, s) == 2 * k + 1);
}

/// A sequence of cells that counts an occupied site holds one.
pub proof fn lemma_count_finds(cells: Seq<Site>) -> (o: int)
    requires
        count_occupied(cells) > 0,
    ensures
        0 <= o < cells.len(),
        cells[o] == Site::Occupied,
    decreases cells.len(),
{
    if cells.last() == Site::Occupied {
        cells.len() - 1
    } else {
        lemma_count_finds(cells.drop_last())
    }
}

/// Every occupied site comes from a draw that came out `true`: a lattice
/// laid out from draws holds an occupied site exactly when one of the draws
/// is `true`.
pub proof fn lemma_occupied_iff_true_draw(draws: Seq<bool>, s: int)
    requires
        s >= 0,
        s % 2 == 0,
        2 * draws.len() == s * s * s,
    ensures
        count_occupied(laid_out(draws, s)) > 0 <==> exists|k: int|
            0 <= k < draws.len() && draws[k],
{
    let cells = laid_out(draws, s);
    if count_occupied(cells) > 0 {
        let o = lemma_count_finds(cells);
        assert(cells[o] == site_for(coords_of(o, s, s), draws[o / 2]));
        assert(0 <= o / 2 < draws.len() && draws[o / 2]);
    }
    if exists|k: int| 0 <= k < draws.len() && draws[k] {
        let k = choose|k: int| 0 <= k < draws.len() && draws[k];
        assert(s >= 2) by {
            if s == 0 {
                assert(s * s * s == 0) by (nonlinear_arith)
                    requires
                        s == 0,
                ;
            }
        }
        lemma_true_draw_occupies(draws, s, k);
    }
}

/// A draw that came out `true` occupies a site: a lattice laid out from
/// draws of which one is `true` holds an occupied site.
pub proof fn lemma_true_draw_occupies(draws: Seq<bool>, s: int, k: int)
    requires
        s >= 2,
        s % 2 == 0,
        2 * draws.len() == s * s * s,
        0 <= k < draws.len(),
        draws[k],
    ensures
        count_occupied(laid_out(draws, s)) > 0,
{
    lemma_cell_pair(k, s);
    let cells = laid_out(draws, s);
    let o = if is_fixed_point(coords_of(2 * k, s, s)) {
        2 * k + 1
    } else {
        2 * k
    };
    assert(o / 2 == k);
    assert(cells[o] == Site::Occupied);
    lemma_count_positive(cells, o);
}

/// Whether the lattice `after` is the lattice `before` with at most one
/// pair of sites traded.
pub open spec fn traded(before: Seq<Site>, after: Seq<Site>, s: int) -> bool {
    after == before || exists|a: Coord, b: Coord| after == #[trigger] swap_cells(before, s, a, b)
}

/// Whether every lattice of a run comes from the one before it by at most
/// one trade of two sites.
pub open spec fn trades_only(run: Seq<Seq<Site>>, s: int) -> bool {
    forall|i: int| 0 <= i < run.len() - 1 ==> traded(#[trigger] run[i], run[i + 1], s)
}

/// Occupancy is conserved over any number of steps: along a run of
/// lattices in which each comes from the one before it by at most one trade,
/// every lattice has as many cells and as many occupied sites as the first.
pub proof fn lemma_occupancy_conserved(run: Seq<Seq<Site>>, s: int, i: int)
    requires
        s > 0,
        0 <= i < run.len(),
        run[0].len() == s * s * s,
        trades_only(run, s),
    ensures
        run[i].len() == run[0].len(),
        count_occupied(run[i]) == count_occupied(run[0]),
    decreases i,
{
    if i > 0 {
        lemma_occupancy_conserved(run, s, i - 1);
        assert(traded(run[i - 1], run[i], s));
        if run[i] != run[i - 1] {
            let (a, b) = choose|a: Coord, b: Coord|
                run[i] == #[trigger] swap_cells(run[i - 1], s, a, b);
            lemma_swap_conserves(run[i - 1], s, a, b);
        }
    }
}

/// Reduces a coordinate triple to the lattice point that it names.
pub fn normalize<const S: usize>(idx: Coord) -> (c: Coord)
    requires
        side_ok(S as int),
    ensures
        (c.0 as int, c.1 as int, c.2 as int) == home(idx, S as int),
        in_box(home(idx, S as int), S as int),
{
    proof {
        lemma_side(S as int);
    }
    let x: usize = wrap_coord(idx.0, S);
    let y: usize = wrap_coord(idx.1, S);
    let z: usize = wrap_coord(idx.2, S);
    (x as isize, y as isize, z as isize)
}

/// The spin of the site `(dx, dy, dz)` away from the lattice point `c`.
pub fn spin_near<const S: usize>(grid: &SiteGrid<S>, c: Coord, dx: isize, dy: isize, dz: isize) -> (r:
    i8)
    requires
        side_ok(S as int),
        grid.wf(),
        in_box((c.0 as int, c.1 as int, c.2 as int), S as int),
        -2 <= dx <= 2,
        -2 <= dy <= 2,
        -2 <= dz <= 2,
    ensures
        r == near(
            spin_field(grid@, S as int),
            S as int,
            (c.0 as int, c.1 as int, c.2 as int),
            dx as int,
            dy as int,
            dz as int,
        ),
        -1 <= r <= 1,
{
    proof {
        lemma_side(S as int);
        lemma_near_is_cell(
            grid@,
            S as int,
            (c.0 as int, c.1 as int, c.2 as int),
            (dx as int, dy as int, dz as int),
        );
    }
    grid.get((c.0 + dx, c.1 + dy, c.2 + dz)).to_raw()
}

/// The spin of the site at the lattice point `c`.
fn spin_here<const S: usize>(grid: &SiteGrid<S>, c: Coord) -> (r: i8)
    requires
        side_ok(S as int),
        grid.wf(),
        in_box((c.0 as int, c.1 as int, c.2 as int), S as int),
    ensures
        r == spin_field(grid@, S as int)((c.0 as int, c.1 as int, c.2 as int)),
        -1 <= r <= 1,
{
    proof {
        lemma_shift_zero((c.0 as int, c.1 as int, c.2 as int), S as int);
    }
    spin_near(grid, c, 0, 0, 0)
}

/// The product of two spins.
fn spin_product(a: i8, b: i8) -> (r: i8)
    requires
        -1 <= a <= 1,
        -1 <= b <= 1,
    ensures
        r == a * b,
        -1 <= r <= 1,
{
    proof {
        lemma_spin_product(a as int, b as int);
    }
    a * b
}

/// A spin times a small sum of spins.
fn times_spin(v: i8, ring: i8) -> (r: i8)
    requires
        -1 <= v <= 1,
        -12 <= ring <= 12,
    ensures
        r == v * ring,
        -12 <= r <= 12,
        ring >= 0 ==> -ring <= r <= ring,
        ring <= 0 ==> ring <= r <= -ring,
{
    proof {
        assert(v == 0 ==> v * ring == 0) by (nonlinear_arith);
        assert(v == 1 ==> v * ring == ring) by (nonlinear_arith);
        assert(v == -1 ==> v * ring == -ring) by (nonlinear_arith);
    }
    v * ring
}

/// The spins of the four neighbours of the lattice point `c` that lie
/// diagonally across the plane spanned by the offsets `u` and `v`, added up.
fn ring_plane<const S: usize>(grid: &SiteGrid<S>, c: Coord, u: Coord, v: Coord) -> (r: i8)
    requires
        side_ok(S as int),
        grid.wf(),
        in_box((c.0 as int, c.1 as int, c.2 as int), S as int),
        0 <= u.0 <= 1 && 0 <= u.1 <= 1 && 0 <= u.2 <= 1,
        0 <= v.0 <= 1 && 0 <= v.1 <= 1 && 0 <= v.2 <= 1,
        u.0 + v.0 <= 1 && u.1 + v.1 <= 1 && u.2 + v.2 <= 1,
    ensures
        r == near(
            spin_field(grid@, S as int),
            S as int,
            (c.0 as int, c.1 as int, c.2 as int),
            u.0 + v.0,
            u.1 + v.1,
            u.2 + v.2,
        ) + near(
            spin_field(grid@, S as int),
            S as int,
            (c.0 as int, c.1 as int, c.2 as int),
            u.0 - v.0,
            u.1 - v.1,
            u.2 - v.2,
        ) + near(
            spin_field(grid@, S as int),
            S as int,
            (c.0 as int, c.1 as int, c.2 as int),
            -u.0 - v.0,
            -u.1 - v.1,
            -u.2 - v.2,
        ) + near(
            spin_field(grid@, S as int),
            S as int,
            (c.0 as int, c.1 as int, c.2 as int),
            v.0 - u.0,
            v.1 - u.1,
            v.2 - u.2,
        ),
        -4 <= r <= 4,
{
    let a1: i8 = spin_near(grid, c, u.0 + v.0, u.1 + v.1, u.2 + v.2);
    let a2: i8 = spin_near(grid, c, u.0 - v.0, u.1 - v.1, u.2 - v.2);
    let a3: i8 = spin_near(grid, c, -u.0 - v.0, -u.1 - v.1, -u.2 - v.2);
    let a4: i8 = spin_near(grid, c, v.0 - u.0, v.1 - u.1, v.2 - u.2);
    a1 + a2 + a3 + a4
}

/// The spins of the twelve nearest neighbours of the lattice point `c`,
/// added up.
fn ring_diag<const S: usize>(grid: &SiteGrid<S>, c: Coord) -> (r: i8)
    requires
        side_ok(S as int),
        grid.wf(),
        in_box((c.0 as int, c.1 as int, c.2 as int), S as int),
    ensures
        r == energy::diag_ring(
            spin_field(grid@, S as int),
            S as int,
            (c.0 as int, c.1 as int, c.2 as int),
        ),
        -12 <= r <= 12,
{
    let jk: i8 = ring_plane(grid, c, (0, 1, 0), (0, 0, 1));
    let ik: i8 = ring_plane(grid, c, (1, 0, 0), (0, 0, 1));
    let ij: i8 = ring_plane(grid, c, (1, 0, 0), (0, 1, 0));
    jk + ik + ij
}

/// The spins of the six next-nearest neighbours of the lattice point `c`,
/// added up.
fn ring_axis<const S: usize>(grid: &SiteGrid<S>, c: Coord) -> (r: i8)
    requires
        side_ok(S as int),
        grid.wf(),
        in_box((c.0 as int, c.1 as int, c.2 as int), S as int),
    ensures
        r == energy::axis_ring(
            spin_field(grid@, S as int),
            S as int,
            (c.0 as int, c.1 as int, c.2 as int),
        ),
        -6 <= r <= 6,
{
    let a1: i8 = spin_near(grid, c, 2, 0, 0);
    let a2: i8 = spin_near(grid, c, -2, 0, 0);
    let b1: i8 = spin_near(grid, c, 0, 2, 0);
    let b2: i8 = spin_near(grid, c, 0, -2, 0);
    let c1: i8 = spin_near(grid, c, 0, 0, 2);
    let c2: i8 = spin_near(grid, c, 0, 0, -2);
    a1 + a2 + b1 + b2 + c1 + c2
}

/// The nearest-neighbour kernel around the site named by `idx`.
pub fn kernel_diags_around<const S: usize>(grid: &SiteGrid<S>, idx: Coord) -> (r: i8)
    requires
        side_ok(S as int),
        grid.wf(),
    ensures
        r == energy::diags_around(spin_field(grid@, S as int), S as int, home(idx, S as int)),
        -6 <= r <= 6,
{
    let c: Coord = normalize::<S>(idx);
    let xp: i8 = spin_near(grid, c, 1, 0, 0);
    let yp: i8 = spin_near(grid, c, 0, 1, 0);
    let ym: i8 = spin_near(grid, c, 0, -1, 0);
    let zp: i8 = spin_near(grid, c, 0, 0, 1);
    let zm: i8 = spin_near(grid, c, 0, 0, -1);
    let jk: i8 = spin_product(yp, zp) + spin_product(zm, yp);
    let ik: i8 = spin_product(xp, zp) + spin_product(zm, xp);
    let ij: i8 = spin_product(xp, yp) + spin_product(ym, xp);
    jk + ik + ij
}

/// The next-nearest-neighbour kernel through the site named by `idx`.
pub fn kernel_axis_through<const S: usize>(grid: &SiteGrid<S>, idx: Coord) -> (r: i8)
    requires
        side_ok(S as int),
        grid.wf(),
    ensures
        r == energy::axis_through(spin_field(grid@, S as int), S as int, home(idx, S as int)),
        -3 <= r <= 3,
{
    let c: Coord = normalize::<S>(idx);
    let xp: i8 = spin_near(grid, c, 1, 0, 0);
    let xm: i8 = spin_near(grid, c, -1, 0, 0);
    let yp: i8 = spin_near(grid, c, 0, 1, 0);
    let ym: i8 = spin_near(grid, c, 0, -1, 0);
    let zp: i8 = spin_near(grid, c, 0, 0, 1);
    let zm: i8 = spin_near(grid, c, 0, 0, -1);
    spin_product(xm, xp) + spin_product(ym, yp) + spin_product(zm, zp)
}

/// The local nearest-neighbour sum of the site named by `idx`.
pub fn kernel_diags_from<const S: usize>(grid: &SiteGrid<S>, idx: Coord) -> (r: i8)
    requires
        side_ok(S as int),
        grid.wf(),
    ensures
        r == energy::diags_from(spin_field(grid@, S as int), S as int, home(idx, S as int)),
        -12 <= r <= 12,
{
    let c: Coord = normalize::<S>(idx);
    let v: i8 = spin_here(grid, c);
    let ring: i8 = ring_diag(grid, c);
    times_spin(v, ring)
}

/// The local next-nearest-neighbour sum of the site named by `idx`.
pub fn kernel_axis_from<const S: usize>(grid: &SiteGrid<S>, idx: Coord) -> (r: i8)
    requires
        side_ok(S as int),
        grid.wf(),
    ensures
        r == energy::axis_from(spin_field(grid@, S as int), S as int, home(idx, S as int)),
        -6 <= r <= 6,
{
    let c: Coord = normalize::<S>(idx);
    let v: i8 = spin_here(grid, c);
    let ring: i8 = ring_axis(grid, c);
    times_spin(v, ring)
}

/// The kernels of a lattice with unit spins are small.
proof fn lemma_term_bounds(cells: Seq<Site>, s: int)
    requires
        s >= 2,
    ensures
        forall|c: Point|
            in_box(c, s) ==> -6 <= #[trigger] nearest_term(spin_field(cells, s), s)(c) <= 6,
        forall|c: Point|
            in_box(c, s) ==> -6 <= #[trigger] next_nearest_term(spin_field(cells, s), s)(c) <= 6,
{
    let f = spin_field(cells, s);
    let nt = nearest_term(f, s);
    let xt = next_nearest_term(f, s);
    lemma_unit_spins(cells, s);
    assert forall|c: Point| in_box(c, s) implies -6 <= #[trigger] nt(c) <= 6 by {
        lemma_kernel_bounds(f, s, c);
    }
    assert forall|c: Point| in_box(c, s) implies -6 <= #[trigger] xt(c) <= 6 by {
        lemma_kernel_bounds(f, s, c);
    }
}

/// Bounds of the partial sums of the two kernels, in the machine's word.
proof fn lemma_scan_bounds(cells: Seq<Site>, s: int, x: int, y: int, n: int)
    requires
        side_ok(s),
        0 <= x < s,
        0 <= y < s,
        0 <= n <= s,
    ensures
        -isize::MAX <= row_part(nearest_term(spin_field(cells, s), s), x, y, n) <= isize::MAX,
        -isize::MAX <= row_part(next_nearest_term(spin_field(cells, s), s), x, y, n) <= isize::MAX,
        -isize::MAX <= plane_part(nearest_term(spin_field(cells, s), s), s, x, n) <= isize::MAX,
        -isize::MAX <= plane_part(next_nearest_term(spin_field(cells, s), s), s, x, n)
            <= isize::MAX,
        -isize::MAX <= box_part(nearest_term(spin_field(cells, s), s), s, n) <= isize::MAX,
        -isize::MAX <= box_part(next_nearest_term(spin_field(cells, s), s), s, n) <= isize::MAX,
{
    let f = spin_field(cells, s);
    lemma_term_bounds(cells, s);
    lemma_parts_bound(nearest_term(f, s), s, 6, x, y, n);
    lemma_parts_bound(next_nearest_term(f, s), s, 6, x, y, n);
    assert(s * 6 <= s * s * 6 <= s * s * s * 6 == 6 * (s * s * s)) by (nonlinear_arith)
        requires
            s >= 2,
    ;
}

/// One step along a row: the two cells `(x, y, 2 * k)` and
/// `(x, y, 2 * k + 1)` together contribute the kernels of the one of them
/// that is fixed.
proof fn lemma_scan_pair(cells: Seq<Site>, s: int, x: int, y: int, k: int)
    requires
        s >= 2,
        0 <= k,
    ensures
        ({
            let f = spin_field(cells, s);
            let z = 2 * k + (x + y) % 2;
            &&& is_fixed_point((x, y, z))
            &&& row_part(nearest_term(f, s), x, y, 2 * k + 2) == row_part(
                nearest_term(f, s),
                x,
                y,
                2 * k,
            ) + energy::diags_around(f, s, (x, y, z))
            &&& row_part(next_nearest_term(f, s), x, y, 2 * k + 2) == row_part(
                next_nearest_term(f, s),
                x,
                y,
                2 * k,
            ) + energy::axis_through(f, s, (x, y, z))
        }),
{
    let f = spin_field(cells, s);
    let nt = nearest_term(f, s);
    let xt = next_nearest_term(f, s);
    lemma_parts_step(nt, s, x, y, 2 * k);
    lemma_parts_step(nt, s, x, y, 2 * k + 1);
    lemma_parts_step(xt, s, x, y, 2 * k);
    lemma_parts_step(xt, s, x, y, 2 * k + 1);
    let even = (x, y, 2 * k);
    let odd = (x, y, 2 * k + 1);
    assert(is_fixed_point(even) != is_fixed_point(odd));
}

/// Both kernels added up over the fixed sites of one row of the lattice.
fn scan_row<const S: usize>(grid: &SiteGrid<S>, x: usize, y: usize) -> (r: (i64, i64))
    requires
        side_ok(S as int),
        grid.wf(),
        x < S,
        y < S,
    ensures
        r.0 == sum_row(nearest_term(spin_field(grid@, S as int), S as int), S as int, x as int, y as int),
        r.1 == sum_row(
            next_nearest_term(spin_field(grid@, S as int), S as int),
            S as int,
            x as int,
            y as int,
        ),
{
    let ghost s = S as int;
    let ghost f = spin_field(grid@, s);
    proof {
        lemma_side(s);
        lemma_parts_step(nearest_term(f, s), s, x as int, y as int, 0);
        lemma_parts_step(next_nearest_term(f, s), s, x as int, y as int, 0);
    }
    let half: usize = S / 2;
    let parity: usize = (x % 2 + y % 2) % 2;
    let mut row_n: i64 = 0;
    let mut row_x: i64 = 0;
    let mut k: usize = 0;
    while k < half
        invariant
            side_ok(s),
            s == S,
            grid.wf(),
            f == spin_field(grid@, s),
            half * 2 == S,
            S + 2 <= isize::MAX,
            x < S,
            y < S,
            k <= half,
            parity == (x + y) % 2,
            row_n == row_part(nearest_term(f, s), x as int, y as int, 2 * k),
            row_x == row_part(next_nearest_term(f, s), x as int, y as int, 2 * k),
        decreases half - k,
    {
        let z: usize = 2 * k + parity;
        let idx: Coord = (x as isize, y as isize, z as isize);
        let dn: i8 = kernel_diags_around(grid, idx);
        let dx: i8 = kernel_axis_through(grid, idx);
        proof {
            lemma_home_in_box(idx, s);
            lemma_scan_pair(grid@, s, x as int, y as int, k as int);
            lemma_scan_bounds(grid@, s, x as int, y as int, 2 * k + 2);
        }
        row_n = row_n + dn as i64;
        row_x = row_x + dx as i64;
        k += 1;
    }
    (row_n, row_x)
}

/// Both kernels added up over the fixed sites of one plane of the lattice.
fn scan_plane<const S: usize>(grid: &SiteGrid<S>, x: usize) -> (r: (i64, i64))
    requires
        side_ok(S as int),
        grid.wf(),
        x < S,
    ensures
        r.0 == sum_plane(nearest_term(spin_field(grid@, S as int), S as int), S as int, x as int),
        r.1 == sum_plane(
            next_nearest_term(spin_field(grid@, S as int), S as int),
            S as int,
            x as int,
        ),
{
    let ghost s = S as int;
    let ghost f = spin_field(grid@, s);
    proof {
        lemma_parts_step(nearest_term(f, s), s, x as int, 0, 0);
        lemma_parts_step(next_nearest_term(f, s), s, x as int, 0, 0);
    }
    let mut plane_n: i64 = 0;
    let mut plane_x: i64 = 0;
    let mut y: usize = 0;
    while y < S
        invariant
            side_ok(s),
            s == S,
            grid.wf(),
            f == spin_field(grid@, s),
            x < S,
            y <= S,
            plane_n == plane_part(nearest_term(f, s), s, x as int, y as int),
            plane_x == plane_part(next_nearest_term(f, s), s, x as int, y as int),
        decreases S - y,
    {
        let row: (i64, i64) = scan_row(grid, x, y);
        proof {
            lemma_parts_step(nearest_term(f, s), s, x as int, 0, y as int);
            lemma_parts_step(next_nearest_term(f, s), s, x as int, 0, y as int);
            lemma_scan_bounds(grid@, s, x as int, 0, y + 1);
        }
        plane_n = plane_n + row.0;
        plane_x = plane_x + row.1;
        y += 1;
    }
    (plane_n, plane_x)
}

/// Computes both lattice-wide sums from scratch: visits every fixed site
/// once and adds up its two kernels.
pub fn scan_sums<const S: usize>(grid: &SiteGrid<S>) -> (r: (i64, i64))
    requires
        side_ok(S as int),
        grid.wf(),
    ensures
        r.0 == energy::nearest_sum(spin_field(grid@, S as int), S as int),
        r.1 == energy::next_nearest_sum(spin_field(grid@, S as int), S as int),
{
    let ghost s = S as int;
    let ghost f = spin_field(grid@, s);
    proof {
        lemma_parts_step(nearest_term(f, s), s, 0, 0, 0);
        lemma_parts_step(next_nearest_term(f, s), s, 0, 0, 0);
    }
    let mut total_n: i64 = 0;
    let mut total_x: i64 = 0;
    let mut x: usize = 0;
    while x < S
        invariant
            side_ok(s),
            s == S,
            grid.wf(),
            f == spin_field(grid@, s),
            x <= S,
            total_n == box_part(nearest_term(f, s), s, x as int),
            total_x == box_part(next_nearest_term(f, s), s, x as int),
        decreases S - x,
    {
        let plane: (i64, i64) = scan_plane(grid, x);
        proof {
            lemma_parts_step(nearest_term(f, s), s, 0, 0, x as int);
            lemma_parts_step(next_nearest_term(f, s), s, 0, 0, x as int);
            lemma_scan_bounds(grid@, s, 0, 0, x + 1);
        }
        total_n = total_n + plane.0;
        total_x = total_x + plane.1;
        x += 1;
    }
    (total_n, total_x)
}

/// Counts the occupied sites of a grid.
pub fn count_occupied_sites<const S: usize>(grid: &SiteGrid<S>) -> (n: usize)
    ensures
        n == count_occupied(grid@),
{
    let cells: &[Site] = grid.as_flat_slice();
    let len: usize = cells.len();
    let mut n: usize = 0;
    let mut i: usize = 0;
    while i < len
        invariant
            i <= len,
            len == cells@.len(),
            n == count_occupied(cells@.take(i as int)),
            n <= i,
        decreases len - i,
    {
        proof {
            assert(cells@.take(i + 1).drop_last() =~= cells@.take(i as int));
        }
        match cells[i] {
            Site::Occupied => {
                n += 1;
            },
            _ => {},
        }
        i += 1;
    }
    proof {
        assert(cells@.take(len as int) =~= cells@);
    }
    n
}

/// Tests whether every cell of a grid holds a site that fits its point.
pub fn check_sites<const S: usize>(grid: &SiteGrid<S>) -> (ok: bool)
    requires
        side_ok(S as int),
        grid.wf(),
    ensures
        ok == sites_fit(grid@, S as int),
{
    let ghost s = S as int;
    proof {
        lemma_side(s);
    }
    let cells: &[Site] = grid.as_flat_slice();
    let mut o: usize = 0;
    let mut z: usize = 0;
    while z < S
        invariant
            side_ok(s),
            s == S,
            z <= S,
            cells@.len() == s * s * s,
            cells@ == grid@,
            o == z * (s * s),
            forall|k: int|
                0 <= k < o ==> site_fits(#[trigger] cells@[k], coords_of(k, s, s)),
        decreases S - z,
    {
        let mut y: usize = 0;
        while y < S
            invariant
                side_ok(s),
                s == S,
                z < S,
                y <= S,
                cells@.len() == s * s * s,
                cells@ == grid@,
                o == z * (s * s) + y * s,
                forall|k: int|
                    0 <= k < o ==> site_fits(
                        #[trigger] cells@[k],
                        coords_of(k, s, s),
                    ),
            decreases S - y,
        {
            let mut x: usize = 0;
            while x < S
                invariant
                    side_ok(s),
                    s == S,
                    z < S,
                    y < S,
                    x <= S,
                    cells@.len() == s * s * s,
                    cells@ == grid@,
                    o == z * (s * s) + y * s + x,
                    forall|k: int|
                        0 <= k < o ==> site_fits(
                            #[trigger] cells@[k],
                            coords_of(k, s, s),
                        ),
                decreases S - x,
            {
                proof {
                    lemma_coords_of_offset(x as int, y as int, z as int, s, s, s);
                    lemma_flat_offset_bound(x as int, y as int, z as int, s, s, s);
                    vstd::arithmetic::div_mod::lemma_small_mod(x as nat, s as nat);
                    vstd::arithmetic::div_mod::lemma_small_mod(y as nat, s as nat);
                    vstd::arithmetic::div_mod::lemma_small_mod(z as nat, s as nat);
                    assert(z * s * s == z * (s * s)) by (nonlinear_arith);
                }
                let fixed: bool = (x % 2 + y % 2 + z % 2) % 2 == 0;
                let is_metal: bool = match cells[o] {
                    Site::FixedMetal => true,
                    _ => false,
                };
                if fixed != is_metal {
                    assert(!site_fits(cells@[o as int], coords_of(o as int, s, s)));
                    return false;
                }
                o += 1;
                x += 1;
            }
            y += 1;
            assert(z * (s * s) + (y - 1) * s + s == z * (s * s) + y * s) by (nonlinear_arith);
        }
        z += 1;
        assert((z - 1) * (s * s) + s * s == z * (s * s)) by (nonlinear_arith);
    }
    proof {
        assert(s * (s * s) == s * s * s) by (nonlinear_arith);
    }
    true
}

/// Fills a lattice from a sequence of draws, one draw per mobile point.
pub fn lay_out<const S: usize>(draws: &[bool]) -> (grid: SiteGrid<S>)
    requires
        side_ok(S as int),
        2 * draws@.len() == S * S * S,
    ensures
        grid.wf(),
        grid@ == laid_out(draws@, S as int),
        sites_fit(grid@, S as int),
{
    let ghost s = S as int;
    proof {
        lemma_side(s);
        assert(S * S * S == s * s * s);
    }
    let mut cells: Vec<Site> = Vec::new();
    let mut k: usize = 0;
    let mut z: usize = 0;
    while z < S
        invariant
            side_ok(s),
            s == S,
            2 * draws@.len() == s * s * s,
            z <= S,
            cells@.len() == z * (s * s),
            cells@.len() == 2 * k,
            forall|o: int|
                0 <= o < cells@.len() ==> #[trigger] cells@[o] == site_for(
                    coords_of(o, s, s),
                    draws@[o / 2],
                ),
        decreases S - z,
    {
        let mut y: usize = 0;
        while y < S
            invariant
                side_ok(s),
                s == S,
                2 * draws@.len() == s * s * s,
                z < S,
                y <= S,
                cells@.len() == z * (s * s) + y * s,
                cells@.len() == 2 * k,
                forall|o: int|
                    0 <= o < cells@.len() ==> #[trigger] cells@[o] == site_for(
                        coords_of(o, s, s),
                        draws@[o / 2],
                    ),
            decreases S - y,
        {
            let mut x: usize = 0;
            while x < S
                invariant
                    side_ok(s),
                    s == S,
                    2 * draws@.len() == s * s * s,
                    z < S,
                    y < S,
                    x <= S,
                    x % 2 == 0,
                    cells@.len() == z * (s * s) + y * s + x,
                    cells@.len() == 2 * k,
                    forall|o: int|
                        0 <= o < cells@.len() ==> #[trigger] cells@[o] == site_for(
                            coords_of(o, s, s),
                            draws@[o / 2],
                        ),
                decreases S - x,
            {
                proof {
                    lemma_side(s);
                    lemma_coords_of_offset(x as int, y as int, z as int, s, s, s);
                    lemma_coords_of_offset(x + 1, y as int, z as int, s, s, s);
                    lemma_flat_offset_bound(x + 1, y as int, z as int, s, s, s);
                    vstd::arithmetic::div_mod::lemma_small_mod(x as nat, s as nat);
                    vstd::arithmetic::div_mod::lemma_small_mod((x + 1) as nat, s as nat);
                    vstd::arithmetic::div_mod::lemma_small_mod(y as nat, s as nat);
                    vstd::arithmetic::div_mod::lemma_small_mod(z as nat, s as nat);
                    assert(z * s * s == z * (s * s)) by (nonlinear_arith);
                }
                let draw: bool = draws[k];
                let mobile: Site = if draw {
                    Site::Occupied
                } else {
                    Site::Vacant
                };
                let first_fixed: bool = (x % 2 + y % 2 + z % 2) % 2 == 0;
                let ghost before = cells@;
                if first_fixed {
                    cells.push(Site::FixedMetal);
                    cells.push(mobile);
                } else {
                    cells.push(mobile);
                    cells.push(Site::FixedMetal);
                }
                proof {
                    let o = before.len() as int;
                    assert(o / 2 == k && (o + 1) / 2 == k);
                    assert(coords_of(o, s, s) == (x as int, y as int, z as int));
                    assert(coords_of(o + 1, s, s) == (x + 1, y as int, z as int));
                    assert forall|i: int| 0 <= i < cells@.len() implies #[trigger] cells@[i]
                        == site_for(coords_of(i, s, s), draws@[i / 2]) by {
                        if i < o {
                            assert(cells@[i] == before[i]);
                        }
                    }
                }
                k += 1;
                x += 2;
            }
            y += 1;
            assert(z * (s * s) + (y - 1) * s + s == z * (s * s) + y * s) by (nonlinear_arith);
        }
        z += 1;
        assert((z - 1) * (s * s) + s * s == z * (s * s)) by (nonlinear_arith);
    }
    proof {
        assert(s * (s * s) == s * s * s) by (nonlinear_arith);
        assert(cells@ =~= laid_out(draws@, s));
        lemma_laid_out_fits(draws@, s);
    }
    match Array3d::from_flat(cells) {
        Some(grid) => grid,
        None => Array3d::filled(|c: Coord| -> (site: Site) { Site::FixedMetal }),
    }
}

/// Trades the sites named by `a` and `b`.
pub fn swap_sites<const S: usize>(grid: &mut SiteGrid<S>, a: Coord, b: Coord)
    requires
        old(grid).wf(),
    ensures
        final(grid).wf(),
        final(grid)@ == swap_cells(old(grid)@, S as int, a, b),
{
    let va: Site = *grid.get(a);
    let vb: Site = *grid.get(b);
    grid.set(a, vb);
    grid.set(b, va);
}

} // verus!
