//! The lattice model and its Metropolis update.
//!
//! A model owns the grid of sites, the two lattice-wide neighbour sums, the
//! move counters and a random number generator. One Metropolis step is taken
//! in two calls: `propose` selects two mobile sites of different kind and
//! works out what trading them would do to the local sums; the caller weighs
//! the energies and hands the outcome to `settle`, which either trades the
//! sites and moves the sums, or leaves the lattice alone. The sums kept by
//! the model are always exactly the sums that a full scan of the grid gives.

use crate::array3d::{Array3d, Coord};
use crate::bonds::swapped;
use crate::energy;
use crate::energy::{
    is_fixed_point, lemma_same_on_box, lemma_sum_bounds, lemma_swap_nearest,
    lemma_swap_next_nearest,
};
use crate::error::ConfigError;
use crate::lattice::{
    check_sites, count_occupied, count_occupied_sites, home, kernel_axis_from, kernel_axis_through,
    kernel_diags_around, kernel_diags_from, laid_out, lattice_ok, lay_out, lemma_home, lemma_side,
    lemma_occupied_iff_true_draw, lemma_sites_fit,
    lemma_swap_cells, lemma_swap_conserves, lemma_swap_twice, lemma_unit_spins, scan_sums, side_ok,
    sites_fit, spin_field, swap_cells, swap_sites, traded, SiteGrid,
};
use crate::rng::{draw_below, draw_bool, entropy_rng, seeded_rng};
use crate::site::Site;
use crate::sums::{in_box, Point};
use rand::distributions::Bernoulli;
use rand::rngs::StdRng;
use vstd::prelude::*;

verus! {

/// A candidate move: two mobile sites of different kind, and the local
/// neighbour sums of the two sites before and after they trade places.
#[derive(Clone, Copy, Debug)]
pub struct Proposal {
    /// The first site.
    pub first: Coord,
    /// The second site.
    pub second: Coord,
    /// The local nearest-neighbour sums of both sites, added, as they are.
    pub old_nearest: i8,
    /// The local next-nearest-neighbour sums of both sites, added, as they
    /// are.
    pub old_next_nearest: i8,
    /// The local nearest-neighbour sums of both sites, added, after the
    /// trade.
    pub new_nearest: i8,
    /// The local next-nearest-neighbour sums of both sites, added, after the
    /// trade.
    pub new_next_nearest: i8,
}

/// What became of a candidate move.
#[derive(Clone, Copy, Debug, PartialEq, Eq, Structural)]
pub enum Decision {
    /// The move does not raise the energy and is taken.
    AcceptFavorable,
    /// The move raises the energy and is taken all the same.
    AcceptUnfavorable,
    /// The move is not taken.
    Reject,
}

/// Whether the sites named by `a` and `b` can trade places: both are mobile
/// and they are of different kind.
pub open spec fn can_swap(cells: Seq<Site>, s: int, a: Coord, b: Coord) -> bool {
    let f = spin_field(cells, s);
    &&& !is_fixed_point(home(a, s))
    &&& !is_fixed_point(home(b, s))
    &&& f(home(a, s)) != f(home(b, s))
}

/// The candidate move that trades the sites named by `a` and `b`.
pub open spec fn proposal_for(cells: Seq<Site>, s: int, a: Coord, b: Coord) -> Proposal {
    let f = spin_field(cells, s);
    let p = home(a, s);
    let q = home(b, s);
    let g = swapped(f, p, q);
    Proposal {
        first: a,
        second: b,
        old_nearest: (energy::diags_from(f, s, p) + energy::diags_from(f, s, q)) as i8,
        old_next_nearest: (energy::axis_from(f, s, p) + energy::axis_from(f, s, q)) as i8,
        new_nearest: (energy::diags_from(g, s, p) + energy::diags_from(g, s, q)) as i8,
        new_next_nearest: (energy::axis_from(g, s, p) + energy::axis_from(g, s, q)) as i8,
    }
}

/// A counter one move further; it starts again from zero after `u32::MAX`.
pub open spec fn bump(n: u32) -> u32 {
    if n == u32::MAX {
        0
    } else {
        (n + 1) as u32
    }
}

/// Trading two mobile sites of different kind keeps the sublattice rule and
/// moves each lattice-wide sum by exactly the change of the local sums that
/// the candidate move records.
pub proof fn lemma_proposal_is_exact(cells: Seq<Site>, s: int, a: Coord, b: Coord)
    requires
        lattice_ok(cells, s),
        can_swap(cells, s, a, b),
    ensures
        lattice_ok(swap_cells(cells, s, a, b), s),
        count_occupied(swap_cells(cells, s, a, b)) == count_occupied(cells),
        energy::nearest_sum(spin_field(swap_cells(cells, s, a, b), s), s) == energy::nearest_sum(
            spin_field(cells, s),
            s,
        ) + proposal_for(cells, s, a, b).new_nearest - proposal_for(cells, s, a, b).old_nearest,
        energy::next_nearest_sum(spin_field(swap_cells(cells, s, a, b), s), s)
            == energy::next_nearest_sum(spin_field(cells, s), s) + proposal_for(
            cells,
            s,
            a,
            b,
        ).new_next_nearest - proposal_for(cells, s, a, b).old_next_nearest,
        -24 <= energy::diags_from(spin_field(cells, s), s, home(a, s)) + energy::diags_from(
            spin_field(cells, s),
            s,
            home(b, s),
        ) <= 24,
{
    let f = spin_field(cells, s);
    let after = swap_cells(cells, s, a, b);
    let h = spin_field(after, s);
    let p = home(a, s);
    let q = home(b, s);
    let g = swapped(f, p, q);
    lemma_home(cells, s, a);
    lemma_home(cells, s, b);
    lemma_swap_cells(cells, s, a, b);
    lemma_swap_conserves(cells, s, a, b);
    lemma_swap_nearest(f, s, p, q);
    lemma_swap_next_nearest(f, s, p, q);
    lemma_same_on_box(h, g, s);
    lemma_unit_spins(cells, s);
    lemma_unit_spins(after, s);
    energy::lemma_kernel_bounds(f, s, p);
    energy::lemma_kernel_bounds(f, s, q);
    energy::lemma_kernel_bounds(h, s, p);
    energy::lemma_kernel_bounds(h, s, q);
    assert forall|c: Point| in_box(c, s) implies if is_fixed_point(c) {
        #[trigger] h(c) == 0
    } else {
        h(c) == 1 || h(c) == -1
    } by {
        assert(h(c) == g(c));
        assert(f(p) == 1 || f(p) == -1);
        assert(f(q) == 1 || f(q) == -1);
        assert(f(c) == 0 || f(c) == 1 || f(c) == -1);
    }
}

/// Reproducibility of settled moves: two models in the same state that
/// settle the same candidate move with the same outcome end in the same
/// state. Together with `proposal_for`, which fixes the candidate move of a
/// pair of sites, the path of a model is fixed by its lattice and by the
/// pairs and outcomes that are chosen for it.
pub proof fn lemma_same_moves_same_state<const S: usize>(
    a: Model<S>,
    a_next: Model<S>,
    b: Model<S>,
    b_next: Model<S>,
    pr: Proposal,
    decision: Decision,
)
    requires
        a.same_state(&b),
        a_next.settled(&a, pr, decision),
        b_next.settled(&b, pr, decision),
    ensures
        a_next.same_state(&b_next),
{
}

/// A lattice model of side `S`.
#[derive(Debug)]
pub struct Model<const S: usize> {
    /// The sites.
    grid: Array3d<Site, S, S, S>,
    /// The nearest-neighbour sum of the whole lattice.
    nearest_neighbours: i64,
    /// The next-nearest-neighbour sum of the whole lattice.
    next_nearest_neighbours: i64,
    /// The random number generator.
    rng: StdRng,
    /// Moves taken that did not raise the energy.
    good_moves: u32,
    /// Moves taken although they raised the energy.
    bad_moves: u32,
    /// Moves not taken.
    rejected_moves: u32,
    /// The candidate move that waits for its outcome, if any.
    pending: Option<Proposal>,
}

impl<const S: usize> Model<S> {
    /// The sites of the lattice, in flat order.
    pub closed spec fn sites(&self) -> Seq<Site> {
        self.grid@
    }

    /// The spin configuration of the lattice.
    pub open spec fn spins(&self) -> spec_fn(Point) -> int {
        spin_field(self.sites(), S as int)
    }

    /// The nearest-neighbour sum that the model keeps.
    pub closed spec fn kept_nearest(&self) -> int {
        self.nearest_neighbours as int
    }

    /// The next-nearest-neighbour sum that the model keeps.
    pub closed spec fn kept_next_nearest(&self) -> int {
        self.next_nearest_neighbours as int
    }

    /// The three move counters: favourable, unfavourable, rejected.
    pub closed spec fn counters(&self) -> (u32, u32, u32) {
        (self.good_moves, self.bad_moves, self.rejected_moves)
    }

    /// The candidate move that waits for its outcome, if any.
    pub closed spec fn waiting(&self) -> Option<Proposal> {
        self.pending
    }

    /// The state of the random number generator.
    pub closed spec fn rng_state(&self) -> StdRng {
        self.rng
    }

    /// The side length is small enough for the sums over the lattice to fit
    /// the machine's signed word.
    pub open spec fn fits() -> bool {
        6 * (S * S * S) <= isize::MAX
    }

    /// The invariant of a model: the grid has one site per lattice point and
    /// obeys the sublattice rule, the sums that the model keeps are the sums
    /// of the grid, and a waiting candidate move is a move of this grid.
    pub open spec fn wf(&self) -> bool {
        &&& lattice_ok(self.sites(), S as int)
        &&& self.kept_nearest() == energy::nearest_sum(self.spins(), S as int)
        &&& self.kept_next_nearest() == energy::next_nearest_sum(self.spins(), S as int)
        &&& match self.waiting() {
            Some(pr) => {
                &&& can_swap(self.sites(), S as int, pr.first, pr.second)
                &&& pr == proposal_for(self.sites(), S as int, pr.first, pr.second)
            },
            None => true,
        }
    }

    /// Whether `other` has the same lattice, sums, counters and waiting move
    /// as `self`; the two may differ in their random number generators.
    pub open spec fn same_state(&self, other: &Self) -> bool {
        &&& self.sites() == other.sites()
        &&& self.kept_nearest() == other.kept_nearest()
        &&& self.kept_next_nearest() == other.kept_next_nearest()
        &&& self.counters() == other.counters()
        &&& self.waiting() == other.waiting()
    }

    /// Whether `self` is what settling the candidate move `pr` with the
    /// outcome `decision` makes of `before`. A rejected move leaves the
    /// lattice and the sums alone and counts as rejected. An accepted move
    /// trades its two sites, moves both sums by the change of the local
    /// sums, and counts as favourable or unfavourable. No move is waiting
    /// afterwards.
    pub open spec fn settled(&self, before: &Self, pr: Proposal, decision: Decision) -> bool {
        &&& self.waiting() is None
        &&& match decision {
            Decision::Reject => {
                &&& self.sites() == before.sites()
                &&& self.kept_nearest() == before.kept_nearest()
                &&& self.kept_next_nearest() == before.kept_next_nearest()
                &&& self.counters() == (
                    before.counters().0,
                    before.counters().1,
                    bump(before.counters().2),
                )
            },
            _ => {
                &&& self.sites() == swap_cells(before.sites(), S as int, pr.first, pr.second)
                &&& self.kept_nearest() == before.kept_nearest() + pr.new_nearest - pr.old_nearest
                &&& self.kept_next_nearest() == before.kept_next_nearest() + pr.new_next_nearest
                    - pr.old_next_nearest
                &&& self.counters() == if decision == Decision::AcceptFavorable {
                    (bump(before.counters().0), before.counters().1, before.counters().2)
                } else {
                    (before.counters().0, bump(before.counters().1), before.counters().2)
                }
            },
        }
    }

    /// Tests whether the side length is small enough for the sums over the
    /// lattice to fit the machine's signed word.
    pub fn check_fits() -> (ok: bool)
        ensures
            ok == Self::fits(),
    {
        if S == 0 {
            return true;
        }
        assert(S * S <= S * S * S <= 6 * (S * S * S)) by (nonlinear_arith)
            requires
                S >= 1,
        ;
        match S.checked_mul(S) {
            None => false,
            Some(square) => match square.checked_mul(S) {
                None => false,
                Some(cube) => match cube.checked_mul(6) {
                    None => false,
                    Some(n) => n <= isize::MAX as usize,
                },
            },
        }
    }

    proof fn lemma_grid_wf(&self)
        requires
            lattice_ok(self.sites(), S as int),
        ensures
            self.grid.wf(),
            side_ok(S as int),
    {
        lemma_side(S as int);
        assert(S * S * S == (S as int) * (S as int) * (S as int));
    }

    /// A generator for a new model: seeded from `seed` if there is one, from
    /// the operating system otherwise. With a seed there is always a
    /// generator; without one there is none when the system gives no entropy.
    fn make_rng(seed: Option<&str>) -> (rng: Option<StdRng>)
        ensures
            seed is Some ==> rng is Some,
    {
        match seed {
            Some(text) => Some(seeded_rng(text)),
            None => match entropy_rng() {
                Ok(rng) => Some(rng),
                Err(_) => None,
            },
        }
    }

    /// Takes `n` draws from `chance`, one after the other.
    fn draw_many(rng: &mut StdRng, chance: &Bernoulli, n: usize) -> (draws: Vec<bool>)
        ensures
            draws@.len() == n,
    {
        let mut draws: Vec<bool> = Vec::new();
        let mut i: usize = 0;
        while i < n
            invariant
                i <= n,
                draws@.len() == i,
            decreases n - i,
        {
            draws.push(draw_bool(rng, chance));
            i += 1;
        }
        draws
    }

    /// Puts a model together from a grid that obeys the sublattice rule:
    /// computes both sums by a full scan.
    fn assemble(grid: SiteGrid<S>, rng: StdRng, counters: (u32, u32, u32)) -> (m: Self)
        requires
            grid.wf(),
            lattice_ok(grid@, S as int),
        ensures
            m.wf(),
            m.sites() == grid@,
            m.counters() == counters,
            m.waiting() is None,
            m.rng_state() == rng,
    {
        let sums: (i64, i64) = scan_sums(&grid);
        Model {
            grid,
            nearest_neighbours: sums.0,
            next_nearest_neighbours: sums.1,
            rng,
            good_moves: counters.0,
            bad_moves: counters.1,
            rejected_moves: counters.2,
            pending: None,
        }
    }

    /// Builds a model around a given grid of sites, with given move
    /// counters. The grid is taken if the side length is even and every
    /// fixed point, and no other point, holds the fixed metal; an odd side
    /// is refused with `OddSize`, a site on the wrong sublattice with
    /// `Misplaced`. Both sums are computed by a full scan. The generator is
    /// seeded from `seed`, or from the operating system if there is none;
    /// if the system gives no entropy, the model is refused with
    /// `NoEntropy`.
    pub fn from_parts(
        grid: Array3d<Site, S, S, S>,
        good_moves: u32,
        bad_moves: u32,
        rejected_moves: u32,
        seed: Option<&str>,
    ) -> (r: Result<Self, ConfigError>)
        requires
            Self::fits(),
            grid.wf(),
        ensures
            match r {
                Ok(m) => {
                    &&& S % 2 == 0
                    &&& sites_fit(grid@, S as int)
                    &&& m.wf()
                    &&& m.sites() == grid@
                    &&& m.counters() == (good_moves, bad_moves, rejected_moves)
                    &&& m.waiting() is None
                },
                Err(ConfigError::OddSize) => S % 2 != 0,
                Err(ConfigError::Misplaced) => S % 2 == 0 && !sites_fit(grid@, S as int),
                Err(ConfigError::NoEntropy) => S % 2 == 0 && sites_fit(grid@, S as int)
                    && seed is None,
                Err(ConfigError::ZeroFill) => false,
            },
    {
        if S % 2 != 0 {
            return Err(ConfigError::OddSize);
        }
        proof {
            lemma_side(S as int);
            lemma_sites_fit(grid@, S as int);
        }
        if !check_sites(&grid) {
            return Err(ConfigError::Misplaced);
        }
        match Self::make_rng(seed) {
            Some(rng) => Ok(Self::assemble(grid, rng, (good_moves, bad_moves, rejected_moves))),
            None => Err(ConfigError::NoEntropy),
        }
    }

    /// Builds a model from given draws and a given generator. There is one
    /// draw per mobile site, in flat order: `true` makes the site occupied,
    /// `false` vacant. Every fixed point gets the fixed metal. The model is
    /// built exactly when one of the draws is `true`; a lattice on which no
    /// site came out occupied is refused with `ZeroFill`. The generator is
    /// kept as it is handed in.
    pub fn from_draws(draws: &[bool], rng: StdRng) -> (r: Result<Self, ConfigError>)
        requires
            Self::fits(),
            S % 2 == 0,
            2 * draws@.len() == S * S * S,
        ensures
            (exists|k: int| 0 <= k < draws@.len() && draws@[k]) <==> r is Ok,
            r matches Err(e) ==> e == ConfigError::ZeroFill,
            r matches Ok(m) ==> {
                &&& m.wf()
                &&& m.sites() == laid_out(draws@, S as int)
                &&& m.counters() == (0u32, 0u32, 0u32)
                &&& m.waiting() is None
                &&& m.rng_state() == rng
                &&& count_occupied(m.sites()) > 0
            },
    {
        proof {
            assert(S * S * S == (S as int) * (S as int) * (S as int));
            lemma_occupied_iff_true_draw(draws@, S as int);
        }
        if S == 0 {
            return Err(ConfigError::ZeroFill);
        }
        proof {
            lemma_side(S as int);
        }
        let grid: SiteGrid<S> = lay_out(draws);
        proof {
            lemma_sites_fit(grid@, S as int);
        }
        if count_occupied_sites(&grid) == 0 {
            return Err(ConfigError::ZeroFill);
        }
        Ok(Self::assemble(grid, rng, (0, 0, 0)))
    }

    /// Builds a model from given draws, one per mobile site in flat order,
    /// as `from_draws` does. The side length must be even and at least one
    /// draw must be `true`: there is no lattice of odd side, and none
    /// without an occupied site. The generator is seeded from `seed`, or
    /// from the operating system if there is none; if the system gives no
    /// entropy, the model is refused with `NoEntropy`.
    pub fn with_draws(draws: &[bool], seed: Option<&str>) -> (r: Result<Self, ConfigError>)
        requires
            Self::fits(),
            S % 2 == 0,
            2 * draws@.len() == S * S * S,
            exists|k: int| 0 <= k < draws@.len() && draws@[k],
        ensures
            seed is Some ==> r is Ok,
            match r {
                Ok(m) => {
                    &&& m.wf()
                    &&& m.sites() == laid_out(draws@, S as int)
                    &&& m.counters() == (0u32, 0u32, 0u32)
                    &&& m.waiting() is None
                    &&& count_occupied(m.sites()) > 0
                },
                Err(e) => e == ConfigError::NoEntropy && seed is None,
            },
    {
        match Self::make_rng(seed) {
            Some(rng) => Self::from_draws(draws, rng),
            None => Err(ConfigError::NoEntropy),
        }
    }

    /// Builds a model with randomly filled mobile sites. The side length
    /// must be even.
    ///
    /// The generator is seeded from `seed`, or from the operating system if
    /// there is none; if the system gives no entropy, the model is refused
    /// with `NoEntropy`. One draw from `fill` is taken for every mobile
    /// site, and the draws and the generator are handed to `from_draws`:
    /// every fixed point gets the fixed metal, a mobile site is occupied if
    /// its draw came out `true` and vacant otherwise, and a lattice on which
    /// no site came out occupied is refused with `ZeroFill`.
    pub fn new(fill: Bernoulli, seed: Option<&str>) -> (r: Result<Self, ConfigError>)
        requires
            Self::fits(),
            S % 2 == 0,
        ensures
            S == 0 && seed is Some ==> (r matches Err(e) && e == ConfigError::ZeroFill),
            S == 0 ==> r is Err,
            match r {
                Ok(m) => {
                    &&& m.wf()
                    &&& m.counters() == (0u32, 0u32, 0u32)
                    &&& m.waiting() is None
                    &&& count_occupied(m.sites()) > 0
                    &&& exists|draws: Seq<bool>|
                        2 * draws.len() == S * S * S && m.sites() == #[trigger] laid_out(
                            draws,
                            S as int,
                        )
                },
                Err(e) => e == ConfigError::ZeroFill || (e == ConfigError::NoEntropy
                    && seed is None),
            },
    {
        let mut rng: StdRng = match Self::make_rng(seed) {
            Some(rng) => rng,
            None => {
                return Err(ConfigError::NoEntropy);
            },
        };
        let draws: Vec<bool> = Self::draw_many(&mut rng, &fill, Self::mobile_sites());
        Self::from_draws(draws.as_slice(), rng)
    }

    /// The number of mobile sites of a lattice of side `S`: half of all
    /// sites.
    pub fn mobile_sites() -> (n: usize)
        requires
            Self::fits(),
            S % 2 == 0,
        ensures
            2 * n == S * S * S,
    {
        if S == 0 {
            return 0;
        }
        proof {
            lemma_side(S as int);
            assert(S * S * S == (S as int) * (S as int) * (S as int));
        }
        SiteGrid::<S>::len() / 2
    }
}

impl<const S: usize> Model<S> {
    /// Recomputes both lattice-wide sums by a full scan of the grid, keeps
    /// them, and returns them: first the nearest-neighbour sum, then the
    /// next-nearest-neighbour sum. The scan finds exactly the sums that the
    /// model kept before.
    pub fn calc_hamiltonian(&mut self) -> (r: (i64, i64))
        requires
            old(self).wf(),
        ensures
            final(self).wf(),
            final(self).same_state(old(self)),
            final(self).rng_state() == old(self).rng_state(),
            r.0 == energy::nearest_sum(old(self).spins(), S as int),
            r.1 == energy::next_nearest_sum(old(self).spins(), S as int),
            r.0 == old(self).kept_nearest(),
            r.1 == old(self).kept_next_nearest(),
    {
        proof {
            self.lemma_grid_wf();
        }
        let sums: (i64, i64) = scan_sums(&self.grid);
        self.nearest_neighbours = sums.0;
        self.next_nearest_neighbours = sums.1;
        sums
    }

    /// The nearest-neighbour kernel around the site named by `idx`: the
    /// products of the pairs of its axis neighbours that are nearest
    /// neighbours of each other, one direction per plane.
    pub fn diags_around(&self, idx: Coord) -> (r: i8)
        requires
            self.wf(),
        ensures
            r == energy::diags_around(self.spins(), S as int, home(idx, S as int)),
    {
        proof {
            self.lemma_grid_wf();
        }
        kernel_diags_around(&self.grid, idx)
    }

    /// The next-nearest-neighbour kernel through the site named by `idx`:
    /// the products of its three pairs of opposite axis neighbours.
    pub fn axis_through(&self, idx: Coord) -> (r: i8)
        requires
            self.wf(),
        ensures
            r == energy::axis_through(self.spins(), S as int, home(idx, S as int)),
    {
        proof {
            self.lemma_grid_wf();
        }
        kernel_axis_through(&self.grid, idx)
    }

    /// The local nearest-neighbour sum of the site named by `idx`: its spin
    /// times the spins of its twelve nearest neighbours.
    pub fn diags_from(&self, idx: Coord) -> (r: i8)
        requires
            self.wf(),
        ensures
            r == energy::diags_from(self.spins(), S as int, home(idx, S as int)),
    {
        proof {
            self.lemma_grid_wf();
        }
        kernel_diags_from(&self.grid, idx)
    }

    /// The local next-nearest-neighbour sum of the site named by `idx`: its
    /// spin times the spins of its six next-nearest neighbours.
    pub fn axis_from(&self, idx: Coord) -> (r: i8)
        requires
            self.wf(),
        ensures
            r == energy::axis_from(self.spins(), S as int, home(idx, S as int)),
    {
        proof {
            self.lemma_grid_wf();
        }
        kernel_axis_from(&self.grid, idx)
    }

    /// The site named by `idx`.
    pub fn site(&self, idx: Coord) -> (r: Site)
        requires
            self.wf(),
        ensures
            r.spin() == self.spins()(home(idx, S as int)),
            r == self.sites()[SiteGrid::<S>::spec_offset(idx)],
    {
        proof {
            self.lemma_grid_wf();
            lemma_home(self.sites(), S as int, idx);
        }
        *self.grid.get(idx)
    }

    /// The grid of sites.
    pub fn grid(&self) -> (g: &Array3d<Site, S, S, S>)
        requires
            self.wf(),
        ensures
            g@ == self.sites(),
            g.wf(),
    {
        proof {
            self.lemma_grid_wf();
        }
        &self.grid
    }

    /// The nearest-neighbour sum of the whole lattice.
    pub fn nearest_neighbours(&self) -> (r: i64)
        ensures
            r == self.kept_nearest(),
    {
        self.nearest_neighbours
    }

    /// The next-nearest-neighbour sum of the whole lattice.
    pub fn next_nearest_neighbours(&self) -> (r: i64)
        ensures
            r == self.kept_next_nearest(),
    {
        self.next_nearest_neighbours
    }

    /// The number of moves taken that did not raise the energy.
    pub fn good_moves(&self) -> (r: u32)
        ensures
            r == self.counters().0,
    {
        self.good_moves
    }

    /// The number of moves taken although they raised the energy.
    pub fn bad_moves(&self) -> (r: u32)
        ensures
            r == self.counters().1,
    {
        self.bad_moves
    }

    /// The number of moves not taken.
    pub fn rejected_moves(&self) -> (r: u32)
        ensures
            r == self.counters().2,
    {
        self.rejected_moves
    }

    /// The candidate move that waits for its outcome, if any.
    pub fn pending(&self) -> (r: Option<Proposal>)
        ensures
            r == self.waiting(),
    {
        self.pending
    }

    /// The number of occupied sites.
    pub fn occupied_count(&self) -> (n: usize)
        ensures
            n == count_occupied(self.sites()),
    {
        count_occupied_sites(&self.grid)
    }

    /// The number of mobile sites: half of all sites.
    pub fn mobile_count(&self) -> (n: usize)
        requires
            self.wf(),
        ensures
            n == (S * S * S) / 2,
    {
        proof {
            self.lemma_grid_wf();
        }
        SiteGrid::<S>::len() / 2
    }

    /// The random number generator, for draws that the caller takes. Its
    /// state is no part of the model's invariant.
    pub fn rng_mut(&mut self) -> (rng: &mut StdRng)
        ensures
            final(self).same_state(old(self)),
            final(self).rng_state() == *final(rng),
    {
        &mut self.rng
    }

    /// The mobile site that three draws select: `i` and `j` are its first
    /// two coordinates, and `half` counts the mobile sites below it in its
    /// column. The third coordinate is `2 * half + i % 2 + j % 2 + 1`; it
    /// may exceed the side by one and then wraps around.
    pub fn mobile_coord(i: isize, j: isize, half: isize) -> (idx: Coord)
        requires
            side_ok(S as int),
            0 <= i < S,
            0 <= j < S,
            0 <= 2 * half < S,
        ensures
            idx == (i, j, (2 * half + i % 2 + j % 2 + 1) as isize),
            1 <= idx.2 <= S + 1,
            (idx.0 + idx.1 + idx.2) % 2 == 1,
            !is_fixed_point(home(idx, S as int)),
    {
        proof {
            lemma_side(S as int);
        }
        let k: isize = 2 * half + i % 2 + j % 2 + 1;
        proof {
            let s = S as int;
            vstd::arithmetic::div_mod::lemma_small_mod(i as nat, s as nat);
            vstd::arithmetic::div_mod::lemma_small_mod(j as nat, s as nat);
            if k < s {
                vstd::arithmetic::div_mod::lemma_small_mod(k as nat, s as nat);
            } else {
                vstd::arithmetic::div_mod::lemma_fundamental_div_mod_converse(
                    k as int,
                    s,
                    1,
                    k - s,
                );
            }
        }
        (i, j, k)
    }

    /// Draws a mobile site uniformly: two coordinates uniformly from the
    /// side, a third draw uniformly from half the side, and from the three
    /// the site that `mobile_coord` gives.
    pub fn uniform_idx(&mut self) -> (idx: Coord)
        requires
            old(self).wf(),
        ensures
            final(self).wf(),
            final(self).same_state(old(self)),
            0 <= idx.0 < S,
            0 <= idx.1 < S,
            1 <= idx.2 <= S + 1,
            (idx.0 + idx.1 + idx.2) % 2 == 1,
            !is_fixed_point(home(idx, S as int)),
    {
        proof {
            self.lemma_grid_wf();
            lemma_side(S as int);
        }
        let side: isize = S as isize;
        let i: isize = draw_below(&mut self.rng, side);
        let j: isize = draw_below(&mut self.rng, side);
        let half: isize = draw_below(&mut self.rng, side / 2);
        Self::mobile_coord(i, j, half)
    }

    /// Selects two mobile sites of different kind: draws the first, then
    /// draws the second again and again until its kind differs from the
    /// first, at most `max_draws` times. Gives up with `None` when all
    /// `max_draws` candidates were of the kind of the first.
    pub fn choose_swap_pos(&mut self, max_draws: u32) -> (r: Option<(Coord, Coord)>)
        requires
            old(self).wf(),
        ensures
            final(self).wf(),
            final(self).same_state(old(self)),
            max_draws == 0 ==> r is None,
            r matches Some(pair) ==> {
                &&& can_swap(old(self).sites(), S as int, pair.0, pair.1)
                &&& old(self).sites()[SiteGrid::<S>::spec_offset(pair.0)] != old(self).sites()[SiteGrid::<
                    S,
                >::spec_offset(pair.1)]
            },
    {
        let idx_1: Coord = self.uniform_idx();
        let mut draws: u32 = 0;
        while draws < max_draws
            invariant
                self.wf(),
                self.same_state(old(self)),
            decreases max_draws - draws,
        {
            let idx_2: Coord = self.uniform_idx();
            if self.can_trade(idx_1, idx_2) {
                proof {
                    lemma_home(self.sites(), S as int, idx_1);
                    lemma_home(self.sites(), S as int, idx_2);
                }
                return Some((idx_1, idx_2));
            }
            draws += 1;
        }
        None
    }

    /// Works out the candidate move that trades the sites named by `a` and
    /// `b`, and keeps it waiting for its outcome. The local sums after the
    /// trade are found by trading the sites, reading the sums, and trading
    /// back: the lattice is left as it was. Sites that cannot trade places
    /// give no candidate, and leave the waiting move as it was.
    pub fn propose_swap(&mut self, a: Coord, b: Coord) -> (r: Option<Proposal>)
        requires
            old(self).wf(),
        ensures
            final(self).wf(),
            final(self).sites() == old(self).sites(),
            final(self).kept_nearest() == old(self).kept_nearest(),
            final(self).kept_next_nearest() == old(self).kept_next_nearest(),
            final(self).counters() == old(self).counters(),
            final(self).rng_state() == old(self).rng_state(),
            can_swap(old(self).sites(), S as int, a, b) ==> r == Some(
                proposal_for(old(self).sites(), S as int, a, b),
            ) && final(self).waiting() == r,
            !can_swap(old(self).sites(), S as int, a, b) ==> r is None && final(self).waiting()
                == old(self).waiting(),
    {
        let ghost s = S as int;
        let ghost cells = self.sites();
        proof {
            self.lemma_grid_wf();
            lemma_home(cells, s, a);
            lemma_home(cells, s, b);
        }
        let va: Site = *self.grid.get(a);
        let vb: Site = *self.grid.get(b);
        if va == Site::FixedMetal || vb == Site::FixedMetal || va == vb {
            proof {
                let f = spin_field(cells, s);
                assert(f(home(a, s)) == va.spin());
                assert(f(home(b, s)) == vb.spin());
                assert(is_fixed_point(home(a, s)) <==> f(home(a, s)) == 0);
                assert(is_fixed_point(home(b, s)) <==> f(home(b, s)) == 0);
            }
            return None;
        }
        proof {
            let f = spin_field(cells, s);
            assert(f(home(a, s)) == va.spin());
            assert(f(home(b, s)) == vb.spin());
            assert(is_fixed_point(home(a, s)) <==> f(home(a, s)) == 0);
            assert(is_fixed_point(home(b, s)) <==> f(home(b, s)) == 0);
            assert(can_swap(cells, s, a, b));
            lemma_proposal_is_exact(cells, s, a, b);
            lemma_swap_cells(cells, s, a, b);
            lemma_same_on_box(
                spin_field(swap_cells(cells, s, a, b), s),
                swapped(f, home(a, s), home(b, s)),
                s,
            );
            lemma_swap_twice(cells, s, a, b);
        }
        let old_nearest: i8 = kernel_diags_from(&self.grid, a) + kernel_diags_from(&self.grid, b);
        let old_next_nearest: i8 = kernel_axis_from(&self.grid, a) + kernel_axis_from(&self.grid, b);
        swap_sites(&mut self.grid, a, b);
        let new_nearest: i8 = kernel_diags_from(&self.grid, a) + kernel_diags_from(&self.grid, b);
        let new_next_nearest: i8 = kernel_axis_from(&self.grid, a) + kernel_axis_from(&self.grid, b);
        swap_sites(&mut self.grid, a, b);
        let proposal = Proposal {
            first: a,
            second: b,
            old_nearest,
            old_next_nearest,
            new_nearest,
            new_next_nearest,
        };
        proof {
            let f = spin_field(cells, s);
            let p = home(a, s);
            let q = home(b, s);
            let g = swapped(f, p, q);
            let h = spin_field(swap_cells(cells, s, a, b), s);
            assert(energy::diags_from(h, s, p) == energy::diags_from(g, s, p));
            assert(energy::diags_from(h, s, q) == energy::diags_from(g, s, q));
            assert(energy::axis_from(h, s, p) == energy::axis_from(g, s, p));
            assert(energy::axis_from(h, s, q) == energy::axis_from(g, s, q));
            assert(self.grid@ == cells);
            assert(proposal == proposal_for(cells, s, a, b));
        }
        self.pending = Some(proposal);
        Some(proposal)
    }

    /// Proposes a move: selects two mobile sites of different kind, with at
    /// most `max_draws` draws for the second, and works out the candidate
    /// move that trades them. The candidate waits in the model until `settle`
    /// is told its outcome. The lattice, the sums and the counters stay as
    /// they are.
    pub fn propose(&mut self, max_draws: u32) -> (r: Option<Proposal>)
        requires
            old(self).wf(),
        ensures
            final(self).wf(),
            final(self).sites() == old(self).sites(),
            final(self).kept_nearest() == old(self).kept_nearest(),
            final(self).kept_next_nearest() == old(self).kept_next_nearest(),
            final(self).counters() == old(self).counters(),
            max_draws == 0 ==> r is None,
            r is None ==> final(self).waiting() == old(self).waiting(),
            r matches Some(pr) ==> {
                &&& final(self).waiting() == r
                &&& can_swap(old(self).sites(), S as int, pr.first, pr.second)
                &&& pr == proposal_for(old(self).sites(), S as int, pr.first, pr.second)
            },
    {
        match self.choose_swap_pos(max_draws) {
            Some(pair) => self.propose_swap(pair.0, pair.1),
            None => None,
        }
    }

    /// Settles the waiting move. An accepted move trades its two sites,
    /// moves both lattice-wide sums by the change of the local sums, and
    /// counts as favourable or unfavourable; a rejected move only counts.
    /// No random number is drawn. Returns whether a move was waiting; if
    /// none was, nothing changes.
    pub fn settle(&mut self, decision: Decision) -> (settled: bool)
        requires
            old(self).wf(),
        ensures
            final(self).wf(),
            final(self).rng_state() == old(self).rng_state(),
            final(self).waiting() is None,
            settled == old(self).waiting() is Some,
            traded(old(self).sites(), final(self).sites(), S as int),
            count_occupied(final(self).sites()) == count_occupied(old(self).sites()),
            match old(self).waiting() {
                None => final(self).same_state(old(self)),
                Some(pr) => final(self).settled(old(self), pr, decision),
            },
    {
        let ghost s = S as int;
        let ghost cells = self.sites();
        let proposal: Proposal = match self.pending {
            Some(pr) => pr,
            None => {
                return false;
            },
        };
        self.pending = None;
        match decision {
            Decision::Reject => {
                self.rejected_moves = self.rejected_moves.wrapping_add(1);
            },
            _ => {
                proof {
                    self.lemma_grid_wf();
                    lemma_proposal_is_exact(cells, s, proposal.first, proposal.second);
                    let after = swap_cells(cells, s, proposal.first, proposal.second);
                    lemma_unit_spins(after, s);
                    lemma_sum_bounds(spin_field(after, s), s);
                }
                swap_sites(&mut self.grid, proposal.first, proposal.second);
                let nearer: i64 = proposal.new_nearest as i64 - proposal.old_nearest as i64;
                let farther: i64 = proposal.new_next_nearest as i64
                    - proposal.old_next_nearest as i64;
                self.nearest_neighbours = self.nearest_neighbours + nearer;
                self.next_nearest_neighbours = self.next_nearest_neighbours + farther;
                match decision {
                    Decision::AcceptFavorable => {
                        self.good_moves = self.good_moves.wrapping_add(1);
                    },
                    _ => {
                        self.bad_moves = self.bad_moves.wrapping_add(1);
                    },
                }
            },
        }
        true
    }
}

impl<const S: usize> Model<S> {
    /// One Metropolis step: proposes a move, asks `decide` for its outcome,
    /// and settles it. `decide` is handed the candidate move and the model's
    /// random number generator, from which it may draw. Returns the move and
    /// its outcome, or `None` if no two sites of different kind were found
    /// in `max_draws` draws; then the lattice, the sums and the counters are
    /// as they were.
    pub fn monte_carlo_step<F: FnOnce(Proposal, &mut StdRng) -> Decision>(
        &mut self,
        max_draws: u32,
        decide: F,
    ) -> (r: Option<(Proposal, Decision)>)
        requires
            old(self).wf(),
            forall|pr: Proposal, rng: &mut StdRng| call_requires(decide, (pr, rng)),
        ensures
            final(self).wf(),
            traded(old(self).sites(), final(self).sites(), S as int),
            count_occupied(final(self).sites()) == count_occupied(old(self).sites()),
            max_draws == 0 ==> r is None,
            match r {
                None => {
                    &&& final(self).sites() == old(self).sites()
                    &&& final(self).kept_nearest() == old(self).kept_nearest()
                    &&& final(self).kept_next_nearest() == old(self).kept_next_nearest()
                    &&& final(self).counters() == old(self).counters()
                    &&& final(self).waiting() == old(self).waiting()
                },
                Some(done) => {
                    &&& can_swap(old(self).sites(), S as int, done.0.first, done.0.second)
                    &&& done.0 == proposal_for(old(self).sites(), S as int, done.0.first, done.0.second)
                    &&& final(self).settled(old(self), done.0, done.1)
                    &&& exists|rng: &mut StdRng| call_ensures(decide, (done.0, rng), done.1)
                },
            },
    {
        match self.propose(max_draws) {
            None => None,
            Some(pr) => {
                let decision: Decision = decide(pr, &mut self.rng);
                self.settle(decision);
                Some((pr, decision))
            },
        }
    }
}

impl<const S: usize> Model<S> {
    /// Tests whether the sites named by `a` and `b` can trade places: both
    /// are mobile and they are of different kind. This is the test that
    /// every drawn pair of sites has to pass.
    pub fn can_trade(&self, a: Coord, b: Coord) -> (ok: bool)
        requires
            self.wf(),
        ensures
            ok == can_swap(self.sites(), S as int, a, b),
    {
        proof {
            lemma_home(self.sites(), S as int, a);
            lemma_home(self.sites(), S as int, b);
        }
        let first: Site = self.site(a);
        let second: Site = self.site(b);
        first != Site::FixedMetal && second != Site::FixedMetal && first != second
    }
}

} // verus!
