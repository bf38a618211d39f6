//! What a crystallographic export of a lattice has to place, and in which
//! order.
//!
//! An export walks the lattice site by site and places atoms according to a
//! table of placement rules, one per kind of site. The lattice decides which
//! atoms there are, which sites are left out or reported, and in which order
//! all this comes; where in space an atom lies and how it is named is for
//! the writer of the file.

use crate::array3d::{coords_of, flat_offset, lemma_coords_of_offset, Coord};
use crate::lattice::SiteGrid;
use crate::site::Site;
use crate::sums::Point;
use vstd::prelude::*;

verus! {

/// How a kind of site is placed.
#[derive(Clone, Copy, Debug, PartialEq, Eq, Structural)]
pub enum Placement {
    /// Nothing is placed.
    Omit,
    /// One particle is placed on the site.
    Singlet,
    /// One particle is placed on the site and, along each of the three axes,
    /// a carbon and a nitrogen on either side of it.
    Cyanometalate,
}

/// The placement rule of every kind of site. A kind without an entry is
/// reported and skipped.
#[derive(Clone, Copy, Debug)]
pub struct Naming {
    /// The rule for the fixed metal.
    pub fixed_metal: Option<Placement>,
    /// The rule for occupied sites.
    pub occupied: Option<Placement>,
    /// The rule for vacant sites.
    pub vacant: Option<Placement>,
}

/// Which particle of a placement rule an atom is.
#[derive(Clone, Copy, Debug, PartialEq, Eq, Structural)]
pub enum Particle {
    /// The particle on the site itself.
    Primary,
    /// A carbon beside the site.
    Carbon,
    /// A nitrogen beside the site.
    Nitrogen,
}

/// One atom to place.
#[derive(Clone, Copy, Debug)]
pub struct Atom {
    /// The site that the atom belongs to.
    pub site: Coord,
    /// What stands on that site.
    pub kind: Site,
    /// Which particle of the rule the atom is.
    pub particle: Particle,
    /// The axis along which the atom is moved off the site: `0`, `1` or `2`.
    /// Of no meaning for the primary particle.
    pub axis: u8,
    /// Whether the atom is moved in the positive direction of its axis.
    /// Of no meaning for the primary particle.
    pub positive: bool,
}

/// What an export does at one step of its walk over the lattice.
#[derive(Clone, Copy, Debug)]
pub enum Visit {
    /// It places this atom.
    Place(Atom),
    /// It leaves the site out, as the table asks for its kind.
    Omitted(Coord, Site),
    /// It reports the site, whose kind has no entry in the table, and skips
    /// it.
    Missing(Coord, Site),
}

impl Naming {
    /// The entry for a kind of site.
    pub open spec fn spec_rule(self, kind: Site) -> Option<Placement> {
        match kind {
            Site::FixedMetal => self.fixed_metal,
            Site::Occupied => self.occupied,
            Site::Vacant => self.vacant,
        }
    }

    /// The entry for a kind of site.
    pub fn rule(&self, kind: Site) -> (r: Option<Placement>)
        ensures
            r == self.spec_rule(kind),
    {
        match kind {
            Site::FixedMetal => self.fixed_metal,
            Site::Occupied => self.occupied,
            Site::Vacant => self.vacant,
        }
    }
}

/// The atom that stands for `particle` of the site `c`.
pub open spec fn atom_at(c: Point, kind: Site, particle: Particle, axis: u8, positive: bool) -> Atom {
    Atom { site: (c.0 as isize, c.1 as isize, c.2 as isize), kind, particle, axis, positive }
}

/// The four atoms beside a site along one axis: a carbon ahead and behind,
/// then a nitrogen ahead and behind.
pub open spec fn axis_atoms(c: Point, kind: Site, axis: u8) -> Seq<Atom> {
    seq![
        atom_at(c, kind, Particle::Carbon, axis, true),
        atom_at(c, kind, Particle::Carbon, axis, false),
        atom_at(c, kind, Particle::Nitrogen, axis, true),
        atom_at(c, kind, Particle::Nitrogen, axis, false),
    ]
}

/// The atoms that a site contributes under a placement rule: none without a
/// rule or when the rule omits the site; the primary particle for a singlet;
/// for a cyanometalate the primary particle and then, axis by axis, the four
/// atoms beside it.
pub open spec fn site_atoms(c: Point, kind: Site, rule: Option<Placement>) -> Seq<Atom> {
    match rule {
        None => Seq::empty(),
        Some(Placement::Omit) => Seq::empty(),
        Some(Placement::Singlet) => seq![atom_at(c, kind, Particle::Primary, 0, true)],
        Some(Placement::Cyanometalate) => seq![atom_at(c, kind, Particle::Primary, 0, true)]
            + axis_atoms(c, kind, 0) + axis_atoms(c, kind, 1) + axis_atoms(c, kind, 2),
    }
}

/// The site that an export visits at step `t`: the last coordinate runs
/// fastest, the first slowest.
pub open spec fn visit_coord(t: int, s: int) -> Point {
    let c = coords_of(t, s, s);
    (c.2, c.1, c.0)
}

/// The site stored for the point `c`.
pub open spec fn site_at(cells: Seq<Site>, s: int, c: Point) -> Site {
    cells[flat_offset(c.0, c.1, c.2, s, s, s)]
}

/// The atoms of the first `n` sites that an export visits, in order.
pub open spec fn plan_upto(cells: Seq<Site>, s: int, naming: Naming, n: int) -> Seq<Atom>
    decreases n,
{
    if n <= 0 {
        Seq::empty()
    } else {
        let c = visit_coord(n - 1, s);
        let kind = site_at(cells, s, c);
        plan_upto(cells, s, naming, n - 1) + site_atoms(c, kind, naming.spec_rule(kind))
    }
}

/// Among the first `n` sites that an export visits, those whose kind has
/// the entry `rule` in the table, in order.
pub open spec fn ruled_upto(
    cells: Seq<Site>,
    s: int,
    naming: Naming,
    rule: Option<Placement>,
    n: int,
) -> Seq<Coord>
    decreases n,
{
    if n <= 0 {
        Seq::empty()
    } else {
        let c = visit_coord(n - 1, s);
        let before = ruled_upto(cells, s, naming, rule, n - 1);
        if naming.spec_rule(site_at(cells, s, c)) == rule {
            before.push((c.0 as isize, c.1 as isize, c.2 as isize))
        } else {
            before
        }
    }
}

/// All atoms of an export of the lattice, in the order in which they are
/// placed. The atom at position `i` carries the serial number `i + 1`.
pub open spec fn export_plan(cells: Seq<Site>, s: int, naming: Naming) -> Seq<Atom> {
    plan_upto(cells, s, naming, s * s * s)
}

/// All sites of the lattice whose kind has the entry `rule` in the table,
/// in the order in which an export visits them. With no rule at all these
/// are the sites that an export reports as missing from the table; with the
/// rule to omit, the sites that it leaves out on purpose.
pub open spec fn sites_ruled(
    cells: Seq<Site>,
    s: int,
    naming: Naming,
    rule: Option<Placement>,
) -> Seq<Coord> {
    ruled_upto(cells, s, naming, rule, s * s * s)
}

/// What an export does at one site: it reports a site without a rule,
/// leaves out a site that the rule omits, and else places the atoms of the
/// site one after the other.
pub open spec fn site_visits(c: Point, kind: Site, rule: Option<Placement>) -> Seq<Visit> {
    match rule {
        None => seq![Visit::Missing((c.0 as isize, c.1 as isize, c.2 as isize), kind)],
        Some(Placement::Omit) => seq![
            Visit::Omitted((c.0 as isize, c.1 as isize, c.2 as isize), kind),
        ],
        _ => site_atoms(c, kind, rule).map_values(|a: Atom| Visit::Place(a)),
    }
}

/// What an export does at the first `n` sites that it visits, in order.
pub open spec fn walk_upto(cells: Seq<Site>, s: int, naming: Naming, n: int) -> Seq<Visit>
    decreases n,
{
    if n <= 0 {
        Seq::empty()
    } else {
        let c = visit_coord(n - 1, s);
        let kind = site_at(cells, s, c);
        walk_upto(cells, s, naming, n - 1) + site_visits(c, kind, naming.spec_rule(kind))
    }
}

/// The whole walk of an export over the lattice: every atom that it places
/// and every notice that it gives, in the order in which the sites are
/// visited.
pub open spec fn export_walk(cells: Seq<Site>, s: int, naming: Naming) -> Seq<Visit> {
    walk_upto(cells, s, naming, s * s * s)
}

/// Appends the atoms of one site to `atoms`.
pub fn push_site_atoms(atoms: &mut Vec<Atom>, site: Coord, kind: Site, rule: Option<Placement>)
    ensures
        final(atoms)@ == old(atoms)@ + site_atoms(
            (site.0 as int, site.1 as int, site.2 as int),
            kind,
            rule,
        ),
{
    let ghost c = (site.0 as int, site.1 as int, site.2 as int);
    match rule {
        None => {
            assert(atoms@ =~= old(atoms)@ + site_atoms(c, kind, rule));
        },
        Some(Placement::Omit) => {
            assert(atoms@ =~= old(atoms)@ + site_atoms(c, kind, rule));
        },
        Some(Placement::Singlet) => {
            atoms.push(Atom { site, kind, particle: Particle::Primary, axis: 0, positive: true });
            assert(atoms@ =~= old(atoms)@ + site_atoms(c, kind, rule));
        },
        Some(Placement::Cyanometalate) => {
            atoms.push(Atom { site, kind, particle: Particle::Primary, axis: 0, positive: true });
            let mut axis: u8 = 0;
            while axis < 3
                invariant
                    axis <= 3,
                    c == (site.0 as int, site.1 as int, site.2 as int),
                    atoms@ == old(atoms)@ + seq![atom_at(c, kind, Particle::Primary, 0, true)] + (
                    if axis >= 1 {
                        axis_atoms(c, kind, 0)
                    } else {
                        Seq::empty()
                    }) + (if axis >= 2 {
                        axis_atoms(c, kind, 1)
                    } else {
                        Seq::empty()
                    }) + (if axis >= 3 {
                        axis_atoms(c, kind, 2)
                    } else {
                        Seq::empty()
                    }),
                decreases 3 - axis,
            {
                let ghost before = atoms@;
                atoms.push(Atom { site, kind, particle: Particle::Carbon, axis, positive: true });
                atoms.push(Atom { site, kind, particle: Particle::Carbon, axis, positive: false });
                atoms.push(Atom { site, kind, particle: Particle::Nitrogen, axis, positive: true });
                atoms.push(Atom { site, kind, particle: Particle::Nitrogen, axis, positive: false });
                assert(atoms@ =~= before + axis_atoms(c, kind, axis));
                axis += 1;
            }
            assert(atoms@ =~= old(atoms)@ + site_atoms(c, kind, rule));
        },
    }
}

/// Tests whether two table entries are the same.
fn same_rule(a: Option<Placement>, b: Option<Placement>) -> (same: bool)
    ensures
        same == (a == b),
{
    match (a, b) {
        (None, None) => true,
        (Some(Placement::Omit), Some(Placement::Omit)) => true,
        (Some(Placement::Singlet), Some(Placement::Singlet)) => true,
        (Some(Placement::Cyanometalate), Some(Placement::Cyanometalate)) => true,
        _ => false,
    }
}

/// The step of an export at which it visits the site `(i, j, k)`.
proof fn lemma_visit(i: int, j: int, k: int, s: int)
    requires
        0 <= i < s,
        0 <= j < s,
        0 <= k < s,
    ensures
        visit_coord(i * (s * s) + j * s + k, s) == (i, j, k),
        0 <= i * (s * s) + j * s + k,
{
    lemma_coords_of_offset(k, j, i, s, s, s);
    vstd::arithmetic::div_mod::lemma_small_mod(k as nat, s as nat);
    vstd::arithmetic::div_mod::lemma_small_mod(j as nat, s as nat);
    vstd::arithmetic::div_mod::lemma_small_mod(i as nat, s as nat);
    assert(i * s * s == i * (s * s)) by (nonlinear_arith);
    assert(0 <= i * (s * s) + j * s) by (nonlinear_arith)
        requires
            0 <= i,
            0 <= j,
            0 < s,
    ;
}

/// Plans the export of a lattice: walks the sites with the last coordinate
/// running fastest, and lists the atoms to place, in order.
pub fn plan_export<const S: usize>(grid: &SiteGrid<S>, naming: &Naming) -> (atoms: Vec<Atom>)
    requires
        grid.wf(),
    ensures
        atoms@ == export_plan(grid@, S as int, *naming),
{
    let ghost s = S as int;
    let ghost cells = grid@;
    let mut atoms: Vec<Atom> = Vec::new();
    proof {
        assert(S <= S * S <= S * S * S) by (nonlinear_arith)
            requires
                S >= 1,
        ;
    }
    let mut i: usize = 0;
    while i < S
        invariant
            grid.wf(),
            cells == grid@,
            s == S,
            0 < S <= isize::MAX,
            i <= S,
            atoms@ == plan_upto(cells, s, *naming, i * (s * s)),
        decreases S - i,
    {
        let mut j: usize = 0;
        while j < S
            invariant
                grid.wf(),
                cells == grid@,
                s == S,
                0 < S <= isize::MAX,
                i < S,
                j <= S,
                atoms@ == plan_upto(cells, s, *naming, i * (s * s) + j * s),
            decreases S - j,
        {
            let mut k: usize = 0;
            while k < S
                invariant
                    grid.wf(),
                    cells == grid@,
                    s == S,
                    0 < S <= isize::MAX,
                    i < S,
                    j < S,
                    k <= S,
                    atoms@ == plan_upto(cells, s, *naming, i * (s * s) + j * s + k),
                decreases S - k,
            {
                let site: Coord = (i as isize, j as isize, k as isize);
                let kind: Site = *grid.get(site);
                proof {
                    lemma_visit(i as int, j as int, k as int, s);
                }
                push_site_atoms(&mut atoms, site, kind, naming.rule(kind));
                k += 1;
            }
            j += 1;
            assert(i * (s * s) + (j - 1) * s + s == i * (s * s) + j * s) by (nonlinear_arith);
        }
        i += 1;
        assert((i - 1) * (s * s) + s * s == i * (s * s)) by (nonlinear_arith);
    }
    proof {
        assert(s * (s * s) == s * s * s) by (nonlinear_arith);
    }
    atoms
}

/// Lists the sites whose kind has the entry `rule` in the table, in the
/// order in which an export visits them.
pub fn sites_under<const S: usize>(
    grid: &SiteGrid<S>,
    naming: &Naming,
    rule: Option<Placement>,
) -> (sites: Vec<Coord>)
    requires
        grid.wf(),
    ensures
        sites@ == sites_ruled(grid@, S as int, *naming, rule),
{
    let ghost s = S as int;
    let ghost cells = grid@;
    let mut sites: Vec<Coord> = Vec::new();
    proof {
        assert(S <= S * S <= S * S * S) by (nonlinear_arith)
            requires
                S >= 1,
        ;
    }
    let mut i: usize = 0;
    while i < S
        invariant
            grid.wf(),
            cells == grid@,
            s == S,
            0 < S <= isize::MAX,
            i <= S,
            sites@ == ruled_upto(cells, s, *naming, rule, i * (s * s)),
        decreases S - i,
    {
        let mut j: usize = 0;
        while j < S
            invariant
                grid.wf(),
                cells == grid@,
                s == S,
                0 < S <= isize::MAX,
                i < S,
                j <= S,
                sites@ == ruled_upto(cells, s, *naming, rule, i * (s * s) + j * s),
            decreases S - j,
        {
            let mut k: usize = 0;
            while k < S
                invariant
                    grid.wf(),
                    cells == grid@,
                    s == S,
                    0 < S <= isize::MAX,
                    i < S,
                    j < S,
                    k <= S,
                    sites@ == ruled_upto(cells, s, *naming, rule, i * (s * s) + j * s + k),
                decreases S - k,
            {
                let site: Coord = (i as isize, j as isize, k as isize);
                let kind: Site = *grid.get(site);
                proof {
                    lemma_visit(i as int, j as int, k as int, s);
                }
                if same_rule(naming.rule(kind), rule) {
                    sites.push(site);
                }
                k += 1;
            }
            j += 1;
            assert(i * (s * s) + (j - 1) * s + s == i * (s * s) + j * s) by (nonlinear_arith);
        }
        i += 1;
        assert((i - 1) * (s * s) + s * s == i * (s * s)) by (nonlinear_arith);
    }
    proof {
        assert(s * (s * s) == s * s * s) by (nonlinear_arith);
    }
    sites
}

/// Appends what an export does at one site to `visits`.
pub fn push_site_visits(visits: &mut Vec<Visit>, site: Coord, kind: Site, rule: Option<Placement>)
    ensures
        final(visits)@ == old(visits)@ + site_visits(
            (site.0 as int, site.1 as int, site.2 as int),
            kind,
            rule,
        ),
{
    let ghost c = (site.0 as int, site.1 as int, site.2 as int);
    match rule {
        None => {
            visits.push(Visit::Missing(site, kind));
            assert(visits@ =~= old(visits)@ + site_visits(c, kind, rule));
        },
        Some(Placement::Omit) => {
            visits.push(Visit::Omitted(site, kind));
            assert(visits@ =~= old(visits)@ + site_visits(c, kind, rule));
        },
        _ => {
            let mut atoms: Vec<Atom> = Vec::new();
            push_site_atoms(&mut atoms, site, kind, rule);
            let ghost placed = |a: Atom| Visit::Place(a);
            assert(atoms@ =~= site_atoms(c, kind, rule));
            let n: usize = atoms.len();
            let mut i: usize = 0;
            while i < n
                invariant
                    i <= n,
                    n == atoms@.len(),
                    placed == |a: Atom| Visit::Place(a),
                    visits@ == old(visits)@ + atoms@.take(i as int).map_values(placed),
                decreases n - i,
            {
                let ghost before = visits@;
                visits.push(Visit::Place(atoms[i]));
                assert(visits@ =~= old(visits)@ + atoms@.take(i + 1).map_values(placed));
                i += 1;
            }
            assert(atoms@.take(n as int) =~= atoms@);
        },
    }
}

/// Walks the lattice as an export does, with the last coordinate running
/// fastest, and lists what is to be done, in order: the atoms to place and
/// the notices to give.
pub fn walk_export<const S: usize>(grid: &SiteGrid<S>, naming: &Naming) -> (visits: Vec<Visit>)
    requires
        grid.wf(),
    ensures
        visits@ == export_walk(grid@, S as int, *naming),
{
    let ghost s = S as int;
    let ghost cells = grid@;
    let mut visits: Vec<Visit> = Vec::new();
    proof {
        assert(S <= S * S <= S * S * S) by (nonlinear_arith)
            requires
                S >= 1,
        ;
    }
    let mut i: usize = 0;
    while i < S
        invariant
            grid.wf(),
            cells == grid@,
            s == S,
            0 < S <= isize::MAX,
            i <= S,
            visits@ == walk_upto(cells, s, *naming, i * (s * s)),
        decreases S - i,
    {
        let mut j: usize = 0;
        while j < S
            invariant
                grid.wf(),
                cells == grid@,
                s == S,
                0 < S <= isize::MAX,
                i < S,
                j <= S,
                visits@ == walk_upto(cells, s, *naming, i * (s * s) + j * s),
            decreases S - j,
        {
            let mut k: usize = 0;
            while k < S
                invariant
                    grid.wf(),
                    cells == grid@,
                    s == S,
                    0 < S <= isize::MAX,
                    i < S,
                    j < S,
                    k <= S,
                    visits@ == walk_upto(cells, s, *naming, i * (s * s) + j * s + k),
                decreases S - k,
            {
                let site: Coord = (i as isize, j as isize, k as isize);
                let kind: Site = *grid.get(site);
                proof {
                    lemma_visit(i as int, j as int, k as int, s);
                }
                push_site_visits(&mut visits, site, kind, naming.rule(kind));
                k += 1;
            }
            j += 1;
            assert(i * (s * s) + (j - 1) * s + s == i * (s * s) + j * s) by (nonlinear_arith);
        }
        i += 1;
        assert((i - 1) * (s * s) + s * s == i * (s * s)) by (nonlinear_arith);
    }
    proof {
        assert(s * (s * s) == s * s * s) by (nonlinear_arith);
    }
    visits
}

} // verus!
