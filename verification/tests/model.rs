use pba::array3d::Array3d;
use pba::{ConfigError, Decision, Coord, Model, Proposal, Site};
use rand::distributions::Bernoulli;
use rand::rngs::StdRng;
use rand::Rng;
use rand::SeedableRng;

fn chance(p: f64) -> Bernoulli {
    Bernoulli::new(p).unwrap()
}

/// The Metropolis rule at inverse temperature `beta` for couplings `j_1`, `j_2`.
fn metropolis(j_1: f32, j_2: f32, beta: f32) -> impl FnOnce(Proposal, &mut StdRng) -> Decision {
    move |pr: Proposal, rng: &mut StdRng| {
        let old_energy = j_1 * pr.old_nearest as f32 + j_2 * pr.old_next_nearest as f32;
        let new_energy = j_1 * pr.new_nearest as f32 + j_2 * pr.new_next_nearest as f32;
        let delta_e = new_energy - old_energy;
        if delta_e <= 0.0 {
            Decision::AcceptFavorable
        } else if rng.gen::<f32>() < (-beta * delta_e).exp() {
            Decision::AcceptUnfavorable
        } else {
            Decision::Reject
        }
    }
}

fn hamiltonian(j_1: f32, j_2: f32, nearest: i64, next_nearest: i64) -> f32 {
    nearest as f32 * j_1 + next_nearest as f32 * j_2
}

/// A grid of side `S` with the fixed metal on the fixed points and `mobile(x, y, z)` elsewhere.
fn grid_with<const S: usize>(mobile: impl Fn(isize, isize, isize) -> Site) -> Array3d<Site, S, S, S> {
    Array3d::<Site, S, S, S>::filled(|(x, y, z)| {
        if (x + y + z) % 2 == 0 {
            Site::FixedMetal
        } else {
            mobile(x, y, z)
        }
    })
}

fn spin<const S: usize>(m: &Model<S>, idx: Coord) -> i64 {
    m.site(idx).to_raw() as i64
}

/// Both lattice-wide sums, added up pair by pair over the whole lattice.
fn brute_sums<const S: usize>(m: &Model<S>) -> (i64, i64) {
    let s = S as isize;
    let mut nearest = 0;
    let mut next = 0;
    for i in 0..s {
        for j in 0..s {
            for k in 0..s {
                if (i + j + k) % 2 != 0 {
                    continue;
                }
                let g = |a: isize, b: isize, c: isize| spin(m, (i + a, j + b, k + c));
                nearest += g(0, 1, 0) * g(0, 0, 1) + g(0, 0, -1) * g(0, 1, 0);
                nearest += g(1, 0, 0) * g(0, 0, 1) + g(0, 0, -1) * g(1, 0, 0);
                nearest += g(1, 0, 0) * g(0, 1, 0) + g(0, -1, 0) * g(1, 0, 0);
                next += g(-1, 0, 0) * g(1, 0, 0) + g(0, -1, 0) * g(0, 1, 0) + g(0, 0, -1) * g(0, 0, 1);
            }
        }
    }
    (nearest, next)
}

fn sites_of<const S: usize>(m: &Model<S>) -> Vec<Site> {
    m.grid().as_flat_slice().to_vec()
}

#[test]
fn new_model_obeys_the_sublattice_rule() {
    let m = Model::<4>::new(chance(2.0 / 3.0), Some("test")).unwrap();
    for x in 0..4isize {
        for y in 0..4isize {
            for z in 0..4isize {
                let site = m.site((x, y, z));
                assert_eq!(site == Site::FixedMetal, (x + y + z) % 2 == 0);
            }
        }
    }
    assert_eq!(m.good_moves(), 0);
    assert_eq!(m.bad_moves(), 0);
    assert_eq!(m.rejected_moves(), 0);
    assert!(m.pending().is_none());
    assert!(m.occupied_count() > 0);
    assert_eq!(m.mobile_count(), 32);
}

#[test]
fn empty_lattice_is_refused() {
    match Model::<4>::new(chance(0.0), Some("test")) {
        Err(e) => assert_eq!(e, ConfigError::ZeroFill),
        Ok(_) => panic!("empty lattice accepted"),
    }
    match Model::<0>::new(chance(1.0), Some("test")) {
        Err(e) => assert_eq!(e, ConfigError::ZeroFill),
        Ok(_) => panic!("lattice without sites accepted"),
    }
}

#[test]
fn full_lattice_sums() {
    let mut m = Model::<4>::new(chance(1.0), None).unwrap();
    assert_eq!(m.occupied_count(), 32);
    assert_eq!(m.nearest_neighbours(), 6 * 32);
    assert_eq!(m.next_nearest_neighbours(), 3 * 32);
    assert_eq!(m.calc_hamiltonian(), (192, 96));
    assert_eq!(m.diags_around((0, 0, 0)), 6);
    assert_eq!(m.axis_through((0, 0, 0)), 3);
    assert_eq!(m.diags_from((1, 0, 0)), 12);
    assert_eq!(m.axis_from((1, 0, 0)), 6);
    assert_eq!(m.diags_around((1, 0, 0)), 0);
    assert_eq!(m.diags_from((0, 0, 0)), 0);
    assert!(m.choose_swap_pos(200).is_none());
    assert!(m.propose(200).is_none());
    assert!(m.monte_carlo_step(200, |_, _| Decision::AcceptFavorable).is_none());
}

#[test]
fn recomputation_after_construction_equals_kept_sums() {
    for seed in ["test", "a", "b", "stripy zebra"] {
        let mut m = Model::<6>::new(chance(2.0 / 3.0), Some(seed)).unwrap();
        let kept = (m.nearest_neighbours(), m.next_nearest_neighbours());
        assert_eq!(m.calc_hamiltonian(), kept);
        assert_eq!(brute_sums(&m), kept);
        assert_eq!((m.nearest_neighbours(), m.next_nearest_neighbours()), kept);
    }
}

#[test]
fn drift_bound() {
    let (j_1, j_2) = (0.01f32, 100.0f32);
    let mut m = Model::<4>::new(chance(2.0 / 3.0), Some("test")).unwrap();
    for _ in 0..1000 {
        m.monte_carlo_step(u32::MAX, metropolis(j_1, j_2, 1.0)).unwrap();
    }
    let running = hamiltonian(j_1, j_2, m.nearest_neighbours(), m.next_nearest_neighbours());
    let kept = (m.nearest_neighbours(), m.next_nearest_neighbours());
    let fresh = m.calc_hamiltonian();
    assert!((running - hamiltonian(j_1, j_2, fresh.0, fresh.1)).abs() < 1e-3);
    assert_eq!(fresh, kept);
    assert_eq!(brute_sums(&m), kept);
    assert_eq!(m.good_moves() + m.bad_moves() + m.rejected_moves(), 1000);
}

#[test]
fn kept_sums_stay_exact_on_small_and_large_lattices() {
    for seed in ["one", "two", "three"] {
        let mut small = Model::<2>::new(chance(0.5), Some(seed));
        if let Ok(m) = small.as_mut() {
            for _ in 0..200 {
                if m.monte_carlo_step(50, metropolis(1.0, -0.5, 0.3)).is_none() {
                    break;
                }
                assert_eq!(brute_sums(m), (m.nearest_neighbours(), m.next_nearest_neighbours()));
            }
        }
        let mut m = Model::<6>::new(chance(0.5), Some(seed)).unwrap();
        for _ in 0..300 {
            m.monte_carlo_step(u32::MAX, metropolis(-1.0, 2.0, 0.1)).unwrap();
            assert_eq!(brute_sums(&m), (m.nearest_neighbours(), m.next_nearest_neighbours()));
        }
    }
}

#[test]
fn occupancy_is_conserved() {
    let mut m = Model::<4>::new(chance(2.0 / 3.0), Some("test")).unwrap();
    let occupied = m.occupied_count();
    let fill = occupied as f64 / m.mobile_count() as f64;
    for _ in 0..500 {
        m.monte_carlo_step(u32::MAX, |_, _| Decision::AcceptFavorable).unwrap();
        assert_eq!(m.occupied_count(), occupied);
        let now = m.occupied_count() as f64 / m.mobile_count() as f64;
        assert_eq!(now.to_bits(), fill.to_bits());
    }
    assert_eq!(m.good_moves(), 500);
}

#[test]
fn favourable_moves_are_always_taken() {
    for seed in ["x", "y", "z"] {
        let mut m = Model::<4>::new(chance(0.5), Some(seed)).unwrap();
        for _ in 0..300 {
            let before = sites_of(&m);
            let counters = (m.good_moves(), m.bad_moves(), m.rejected_moves());
            let (pr, decision) = m.monte_carlo_step(u32::MAX, metropolis(1.0, 1.0, 2.0)).unwrap();
            let delta = (pr.new_nearest - pr.old_nearest) as f32 + (pr.new_next_nearest - pr.old_next_nearest) as f32;
            if delta <= 0.0 {
                assert_eq!(decision, Decision::AcceptFavorable);
                assert_eq!(m.good_moves(), counters.0 + 1);
                assert_eq!(m.site(pr.first), before[Array3d::<Site, 4, 4, 4>::offset(pr.second)]);
                assert_eq!(m.site(pr.second), before[Array3d::<Site, 4, 4, 4>::offset(pr.first)]);
            } else {
                assert_ne!(decision, Decision::AcceptFavorable);
                assert_eq!(m.good_moves(), counters.0);
            }
        }
    }
}

#[test]
fn chosen_sites_differ() {
    let mut m = Model::<4>::new(chance(2.0 / 3.0), Some("test")).unwrap();
    for _ in 0..2000 {
        let (a, b) = m.choose_swap_pos(u32::MAX).unwrap();
        assert_ne!(m.site(a), m.site(b));
        assert_ne!(m.site(a), Site::FixedMetal);
        assert_ne!(m.site(b), Site::FixedMetal);
    }
    assert!(m.choose_swap_pos(0).is_none());
}

#[test]
fn drawn_sites_are_mobile_and_in_range() {
    let mut m = Model::<6>::new(chance(0.5), Some("range")).unwrap();
    let mut seen = std::collections::HashSet::new();
    for _ in 0..5000 {
        let (i, j, k) = m.uniform_idx();
        assert!((0..6).contains(&i));
        assert!((0..6).contains(&j));
        assert!((1..=7).contains(&k));
        assert_eq!((i + j + k) % 2, 1);
        assert_ne!(m.site((i, j, k)), Site::FixedMetal);
        seen.insert((i, j, k % 6));
    }
    assert_eq!(seen.len(), 108);
}

#[test]
fn same_seed_same_trajectory() {
    let mut a = Model::<4>::new(chance(2.0 / 3.0), Some("twin")).unwrap();
    let mut b = Model::<4>::new(chance(2.0 / 3.0), Some("twin")).unwrap();
    assert_eq!(sites_of(&a), sites_of(&b));
    for _ in 0..500 {
        let ra = a.monte_carlo_step(u32::MAX, metropolis(0.5, 1.5, 0.7)).unwrap();
        let rb = b.monte_carlo_step(u32::MAX, metropolis(0.5, 1.5, 0.7)).unwrap();
        assert_eq!((ra.0.first, ra.0.second, ra.1), (rb.0.first, rb.0.second, rb.1));
        assert_eq!(sites_of(&a), sites_of(&b));
        assert_eq!(a.nearest_neighbours(), b.nearest_neighbours());
        assert_eq!(a.next_nearest_neighbours(), b.next_nearest_neighbours());
    }
    assert_eq!(
        (a.good_moves(), a.bad_moves(), a.rejected_moves()),
        (b.good_moves(), b.bad_moves(), b.rejected_moves())
    );
}

#[test]
fn different_seeds_differ() {
    let a = Model::<8>::new(chance(0.5), Some("left")).unwrap();
    let b = Model::<8>::new(chance(0.5), Some("right")).unwrap();
    assert_ne!(sites_of(&a), sites_of(&b));
}

#[test]
fn from_parts_checks_the_sublattices() {
    let good = grid_with::<4>(|x, _, _| if x % 2 == 0 { Site::Occupied } else { Site::Vacant });
    let m = Model::<4>::from_parts(good, 1, 2, 3, Some("s")).unwrap();
    assert_eq!((m.good_moves(), m.bad_moves(), m.rejected_moves()), (1, 2, 3));
    assert_eq!(brute_sums(&m), (m.nearest_neighbours(), m.next_nearest_neighbours()));

    let mut metal_on_mobile = grid_with::<4>(|_, _, _| Site::Occupied);
    metal_on_mobile.set((1, 0, 0), Site::FixedMetal);
    assert_eq!(Model::<4>::from_parts(metal_on_mobile, 0, 0, 0, None).err(), Some(ConfigError::Misplaced));

    let mut mobile_on_fixed = grid_with::<4>(|_, _, _| Site::Occupied);
    mobile_on_fixed.set((0, 0, 0), Site::Vacant);
    assert_eq!(Model::<4>::from_parts(mobile_on_fixed, 0, 0, 0, None).err(), Some(ConfigError::Misplaced));

    let odd = Array3d::<Site, 3, 3, 3>::filled(|_| Site::FixedMetal);
    assert_eq!(Model::<3>::from_parts(odd, 0, 0, 0, None).err(), Some(ConfigError::OddSize));
}

#[test]
fn kernels_on_a_single_vacancy() {
    let grid = grid_with::<4>(|x, y, z| if (x, y, z) == (1, 0, 0) { Site::Vacant } else { Site::Occupied });
    let m = Model::<4>::from_parts(grid, 0, 0, 0, Some("s")).unwrap();
    // the vacancy against twelve occupied nearest and six occupied next-nearest neighbours
    assert_eq!(m.diags_from((1, 0, 0)), -12);
    assert_eq!(m.axis_from((1, 0, 0)), -6);
    // a nearest neighbour of the vacancy: eleven occupied neighbours and the vacancy
    assert_eq!(m.diags_from((0, 1, 0)), 10);
    assert_eq!(m.axis_from((0, 1, 0)), 6);
    // a next-nearest neighbour of the vacancy; on side four it is so in both directions
    assert_eq!(m.axis_from((3, 0, 0)), 2);
    assert_eq!(m.diags_from((3, 0, 0)), 12);
    // around the fixed site at the origin the vacancy is the neighbour (1, 0, 0)
    assert_eq!(m.diags_around((0, 0, 0)), 2 - 4);
    assert_eq!(m.axis_through((0, 0, 0)), 1);
    // coordinates wrap
    assert_eq!(m.diags_from((5, -4, 8)), -12);
    assert_eq!(m.diags_around((4, 4, -4)), -2);
    // sums: 32 fixed sites; the vacancy enters 12 nearest and 6 next-nearest pairs,
    // of which the pairs along an axis of length four are counted twice
    assert_eq!(m.nearest_neighbours(), 192 - 2 * 12);
    assert_eq!(m.next_nearest_neighbours(), 96 - 2 * 6);
}

#[test]
fn proposing_a_given_pair() {
    let grid = grid_with::<4>(|x, y, z| if (x, y, z) == (1, 0, 0) { Site::Vacant } else { Site::Occupied });
    let mut m = Model::<4>::from_parts(grid, 0, 0, 0, Some("s")).unwrap();
    let before = sites_of(&m);
    // a fixed site cannot move
    assert!(m.propose_swap((0, 0, 0), (1, 0, 0)).is_none());
    assert!(m.propose_swap((1, 0, 0), (2, 0, 0)).is_none());
    // two sites of the same kind do not trade
    assert!(m.propose_swap((0, 1, 0), (0, 0, 1)).is_none());
    assert!(m.propose_swap((1, 0, 0), (1, 0, 0)).is_none());
    assert!(m.pending().is_none());
    // the vacancy and a far occupied site
    let pr = m.propose_swap((1, 0, 0), (2, 1, 2)).unwrap();
    assert_eq!((pr.first, pr.second), ((1, 0, 0), (2, 1, 2)));
    assert_eq!((pr.old_nearest, pr.old_next_nearest), (-12 + 12, -6 + 6));
    assert_eq!((pr.new_nearest, pr.new_next_nearest), (12 - 12, 6 - 6));
    assert_eq!(sites_of(&m), before);
    assert_eq!(m.pending().unwrap().second, (2, 1, 2));
    // the vacancy and one of its nearest neighbours
    let pr = m.propose_swap((1, 0, 0), (0, 1, 0)).unwrap();
    assert_eq!((pr.old_nearest, pr.old_next_nearest), (-12 + 10, -6 + 6));
    assert_eq!((pr.new_nearest, pr.new_next_nearest), (10 - 12, 6 - 6));
    assert_eq!(sites_of(&m), before);
}

#[test]
fn settling() {
    let grid = grid_with::<4>(|x, y, z| if (x + 2 * y + 3 * z) % 3 == 0 { Site::Vacant } else { Site::Occupied });
    let mut m = Model::<4>::from_parts(grid, 0, u32::MAX, 7, Some("s")).unwrap();
    let before = sites_of(&m);
    let sums = (m.nearest_neighbours(), m.next_nearest_neighbours());
    // nothing waits
    assert!(!m.settle(Decision::AcceptFavorable));
    assert_eq!(sites_of(&m), before);
    assert_eq!((m.good_moves(), m.bad_moves(), m.rejected_moves()), (0, u32::MAX, 7));
    // a rejected move
    let pr = m.propose(u32::MAX).unwrap();
    assert!(m.settle(Decision::Reject));
    assert!(m.pending().is_none());
    assert_eq!(sites_of(&m), before);
    assert_eq!((m.nearest_neighbours(), m.next_nearest_neighbours()), sums);
    assert_eq!((m.good_moves(), m.bad_moves(), m.rejected_moves()), (0, u32::MAX, 8));
    assert!(!m.settle(Decision::Reject));
    // an accepted move
    let pr2 = m.propose_swap(pr.first, pr.second).unwrap();
    assert_eq!((pr2.old_nearest, pr2.new_nearest), (pr.old_nearest, pr.new_nearest));
    assert!(m.settle(Decision::AcceptUnfavorable));
    assert_eq!(m.site(pr.first), before[Array3d::<Site, 4, 4, 4>::offset(pr.second)]);
    assert_eq!(m.site(pr.second), before[Array3d::<Site, 4, 4, 4>::offset(pr.first)]);
    assert_eq!(m.nearest_neighbours(), sums.0 + (pr.new_nearest - pr.old_nearest) as i64);
    assert_eq!(
        m.next_nearest_neighbours(),
        sums.1 + (pr.new_next_nearest - pr.old_next_nearest) as i64
    );
    // the counter of unfavourable moves starts again from zero
    assert_eq!((m.good_moves(), m.bad_moves(), m.rejected_moves()), (0, 0, 8));
    assert_eq!(brute_sums(&m), (m.nearest_neighbours(), m.next_nearest_neighbours()));
    let pr3 = m.propose(u32::MAX).unwrap();
    assert!(m.settle(Decision::AcceptFavorable));
    assert_eq!((m.good_moves(), m.bad_moves(), m.rejected_moves()), (1, 0, 8));
    assert_ne!(m.site(pr3.first), m.site(pr3.second));
}

#[test]
fn trading_neighbours_keeps_the_sums_exact() {
    // the two sites are nearest neighbours of each other, then next-nearest neighbours
    for (a, b) in [((1, 0, 0), (0, 1, 0)), ((1, 0, 0), (3, 0, 0)), ((1, 0, 0), (1, 2, 0))] {
        let grid = grid_with::<4>(|x, y, z| if (x, y, z) == a || (x + y) % 3 == 0 { Site::Vacant } else { Site::Occupied });
        let mut m = Model::<4>::from_parts(grid, 0, 0, 0, Some("s")).unwrap();
        if m.site(a) == m.site(b) {
            continue;
        }
        m.propose_swap(a, b).unwrap();
        assert!(m.settle(Decision::AcceptFavorable));
        assert_eq!(brute_sums(&m), (m.nearest_neighbours(), m.next_nearest_neighbours()));
        let kept = (m.nearest_neighbours(), m.next_nearest_neighbours());
        assert_eq!(m.calc_hamiltonian(), kept);
    }
}

#[test]
fn the_callers_draws_come_from_the_models_generator() {
    let mut a = Model::<4>::new(chance(0.5), Some("draws")).unwrap();
    let mut b = Model::<4>::new(chance(0.5), Some("draws")).unwrap();
    let x: u64 = a.rng_mut().gen();
    let y: u64 = b.rng_mut().gen();
    assert_eq!(x, y);
    assert_eq!(a.uniform_idx(), b.uniform_idx());
}

#[test]
fn side_lengths_that_fit() {
    assert!(Model::<0>::check_fits());
    assert!(Model::<4>::check_fits());
    assert!(Model::<32>::check_fits());
    assert!(Model::<1000>::check_fits());
    assert!(!Model::<{ usize::MAX }>::check_fits());
    assert!(!Model::<{ 1 << 21 }>::check_fits());
}

#[test]
fn lattice_from_given_draws() {
    // side two: eight cells, four of them mobile, in flat order (1,0,0), (0,1,0), (0,0,1), (1,1,1)
    let m = Model::<2>::with_draws(&[true, false, false, true], Some("s")).unwrap();
    assert_eq!(m.site((0, 0, 0)), Site::FixedMetal);
    assert_eq!(m.site((1, 0, 0)), Site::Occupied);
    assert_eq!(m.site((0, 1, 0)), Site::Vacant);
    assert_eq!(m.site((1, 1, 0)), Site::FixedMetal);
    assert_eq!(m.site((0, 0, 1)), Site::Vacant);
    assert_eq!(m.site((1, 0, 1)), Site::FixedMetal);
    assert_eq!(m.site((0, 1, 1)), Site::FixedMetal);
    assert_eq!(m.site((1, 1, 1)), Site::Occupied);
    let codes: Vec<i8> = sites_of(&m).iter().map(|s| s.to_raw()).collect();
    assert_eq!(codes, [0, 1, -1, 0, -1, 0, 0, 1]);
    assert_eq!(m.occupied_count(), 2);
    assert_eq!((m.good_moves(), m.bad_moves(), m.rejected_moves()), (0, 0, 0));
    assert_eq!(brute_sums(&m), (m.nearest_neighbours(), m.next_nearest_neighbours()));
}

#[test]
fn given_draws_fill_the_mobile_sites_in_flat_order() {
    let draws: Vec<bool> = (0..32).map(|k| k % 3 == 0 || k == 31).collect();
    let m = Model::<4>::with_draws(&draws, None).unwrap();
    let cells = sites_of(&m);
    let mut k = 0;
    for (o, site) in cells.iter().enumerate() {
        let (x, y, z) = (o % 4, (o / 4) % 4, o / 16);
        if (x + y + z) % 2 == 0 {
            assert_eq!(*site, Site::FixedMetal);
        } else {
            assert_eq!(*site, if draws[k] { Site::Occupied } else { Site::Vacant });
            assert_eq!(k, o / 2);
            k += 1;
        }
    }
    assert_eq!(k, 32);
}

#[test]
fn one_true_draw_is_enough() {
    for k in 0..4 {
        let mut draws = [false; 4];
        draws[k] = true;
        let m = Model::<2>::with_draws(&draws, Some("one")).unwrap();
        assert_eq!(m.occupied_count(), 1);
        let codes: Vec<i8> = sites_of(&m).iter().map(|s| s.to_raw()).collect();
        assert_eq!(codes.iter().filter(|c| **c == 1).count(), 1);
        assert_eq!(codes.iter().filter(|c| **c == -1).count(), 3);
    }
    assert_eq!(Model::<2>::with_draws(&[true; 4], None).unwrap().occupied_count(), 4);
}

#[test]
fn the_site_that_three_draws_select() {
    assert_eq!(Model::<4>::mobile_coord(0, 0, 0), (0, 0, 1));
    assert_eq!(Model::<4>::mobile_coord(1, 0, 0), (1, 0, 2));
    assert_eq!(Model::<4>::mobile_coord(1, 3, 1), (1, 3, 5));
    assert_eq!(Model::<4>::mobile_coord(2, 3, 1), (2, 3, 4));
    let mut seen = std::collections::HashSet::new();
    for i in 0..6isize {
        for j in 0..6isize {
            for half in 0..3isize {
                let (x, y, z) = Model::<6>::mobile_coord(i, j, half);
                assert_eq!((x, y), (i, j));
                assert_eq!((x + y + z) % 2, 1);
                assert!(seen.insert((x, y, z % 6)));
            }
        }
    }
    assert_eq!(seen.len(), 108);
}

#[test]
fn every_pair_is_counted_once() {
    for (side_two, seed) in [(true, "p"), (false, "q"), (false, "r")] {
        if side_two {
            let m = Model::<2>::with_draws(&[true, false, true, true], Some(seed)).unwrap();
            let (mut near, mut far) = (0i64, 0i64);
            for x in 0..2 {
                for y in 0..2 {
                    for z in 0..2 {
                        near += m.diags_from((x, y, z)) as i64;
                        far += m.axis_from((x, y, z)) as i64;
                    }
                }
            }
            assert_eq!(near, 2 * m.nearest_neighbours());
            assert_eq!(far, 2 * m.next_nearest_neighbours());
        } else {
            let m = Model::<6>::new(chance(0.4), Some(seed)).unwrap();
            let (mut near, mut far) = (0i64, 0i64);
            for x in 0..6 {
                for y in 0..6 {
                    for z in 0..6 {
                        near += m.diags_from((x, y, z)) as i64;
                        far += m.axis_from((x, y, z)) as i64;
                    }
                }
            }
            assert_eq!(near, 2 * m.nearest_neighbours());
            assert_eq!(far, 2 * m.next_nearest_neighbours());
        }
    }
}

#[test]
fn sites_that_can_trade() {
    let grid = grid_with::<4>(|x, y, z| if (x, y, z) == (1, 0, 0) { Site::Vacant } else { Site::Occupied });
    let mut m = Model::<4>::from_parts(grid, 0, 0, 0, Some("s")).unwrap();
    // the vacancy and an occupied site, in either order, with or without wrapping
    assert!(m.can_trade((1, 0, 0), (0, 1, 0)));
    assert!(m.can_trade((2, 1, 2), (1, 0, 0)));
    assert!(m.can_trade((5, -4, 8), (0, 0, 5)));
    // a fixed site, two sites of one kind, a site and itself
    assert!(!m.can_trade((0, 0, 0), (1, 0, 0)));
    assert!(!m.can_trade((1, 0, 0), (2, 0, 0)));
    assert!(!m.can_trade((0, 1, 0), (0, 0, 1)));
    assert!(!m.can_trade((1, 0, 0), (1, 0, 0)));
    // what is chosen can trade, and what can trade gives a candidate move
    for _ in 0..50 {
        let (a, b) = m.choose_swap_pos(u32::MAX).unwrap();
        assert!(m.can_trade(a, b));
        assert!(m.propose_swap(a, b).is_some());
    }
}

#[test]
fn the_outcome_of_a_step_is_the_callers() {
    let mut m = Model::<4>::new(chance(0.5), Some("outcome")).unwrap();
    for want in [Decision::Reject, Decision::AcceptUnfavorable, Decision::AcceptFavorable, Decision::Reject] {
        let before = (m.good_moves(), m.bad_moves(), m.rejected_moves());
        let mut handed: Option<Proposal> = None;
        let (pr, got) = m
            .monte_carlo_step(u32::MAX, |pr, _| {
                handed = Some(pr);
                want
            })
            .unwrap();
        assert_eq!(got, want);
        let handed = handed.unwrap();
        assert_eq!((handed.first, handed.second), (pr.first, pr.second));
        assert_eq!((handed.old_nearest, handed.new_nearest), (pr.old_nearest, pr.new_nearest));
        let after = (m.good_moves(), m.bad_moves(), m.rejected_moves());
        let step = (after.0 - before.0, after.1 - before.1, after.2 - before.2);
        assert_eq!(
            step,
            match want {
                Decision::AcceptFavorable => (1, 0, 0),
                Decision::AcceptUnfavorable => (0, 1, 0),
                Decision::Reject => (0, 0, 1),
            }
        );
    }
}

#[test]
fn a_model_without_a_seed_draws_on_the_system() {
    // two generators seeded by the operating system do not walk the same way
    let mut a = Model::<8>::new(chance(0.5), None).unwrap();
    let mut b = Model::<8>::new(chance(0.5), None).unwrap();
    let walk_a: Vec<_> = (0..64).map(|_| a.uniform_idx()).collect();
    let walk_b: Vec<_> = (0..64).map(|_| b.uniform_idx()).collect();
    assert_ne!(walk_a, walk_b);
}

#[test]
fn occupancy_over_many_steps() {
    let mut m = Model::<4>::new(chance(0.3), Some("many")).unwrap();
    let first = m.occupied_count();
    let mut sorted_first = sites_of(&m);
    sorted_first.sort_by_key(|s| s.to_raw());
    for n in 0..400 {
        let decision = match n % 3 {
            0 => Decision::Reject,
            1 => Decision::AcceptFavorable,
            _ => Decision::AcceptUnfavorable,
        };
        m.monte_carlo_step(u32::MAX, move |_, _| decision).unwrap();
        assert_eq!(m.occupied_count(), first);
    }
    let mut sorted_last = sites_of(&m);
    sorted_last.sort_by_key(|s| s.to_raw());
    assert_eq!(sorted_first, sorted_last);
}

#[test]
fn a_model_from_draws_and_a_generator() {
    // no draw is true: no lattice
    match Model::<2>::from_draws(&[false; 4], StdRng::seed_from_u64(1)) {
        Err(e) => assert_eq!(e, ConfigError::ZeroFill),
        Ok(_) => panic!("empty lattice accepted"),
    }
    match Model::<0>::from_draws(&[], StdRng::seed_from_u64(1)) {
        Err(e) => assert_eq!(e, ConfigError::ZeroFill),
        Ok(_) => panic!("lattice without sites accepted"),
    }
    match Model::<4>::from_draws(&[false; 32], StdRng::seed_from_u64(1)) {
        Err(e) => assert_eq!(e, ConfigError::ZeroFill),
        Ok(_) => panic!("empty lattice accepted"),
    }
    // one true draw is enough, wherever it stands
    for k in 0..32 {
        let mut draws = [false; 32];
        draws[k] = true;
        let m = Model::<4>::from_draws(&draws, StdRng::seed_from_u64(1)).unwrap();
        assert_eq!(m.occupied_count(), 1);
        assert_eq!(brute_sums(&m), (m.nearest_neighbours(), m.next_nearest_neighbours()));
    }
    // every draw true: the full lattice
    let mut full = Model::<4>::from_draws(&[true; 32], StdRng::seed_from_u64(1)).unwrap();
    assert_eq!(full.occupied_count(), 32);
    assert_eq!((full.nearest_neighbours(), full.next_nearest_neighbours()), (192, 96));
    assert_eq!(full.calc_hamiltonian(), (192, 96));
    assert_eq!((full.good_moves(), full.bad_moves(), full.rejected_moves()), (0, 0, 0));
    assert!(full.pending().is_none());
    // the sites are laid out from the draws in flat order
    let m = Model::<2>::from_draws(&[true, false, false, true], StdRng::seed_from_u64(1)).unwrap();
    let codes: Vec<i8> = sites_of(&m).iter().map(|s| s.to_raw()).collect();
    assert_eq!(codes, [0, 1, -1, 0, -1, 0, 0, 1]);
}

#[test]
fn the_generator_handed_in_is_kept() {
    let mut rng = StdRng::seed_from_u64(99);
    let mut m = Model::<4>::from_draws(&[true; 32], rng.clone()).unwrap();
    for _ in 0..10 {
        let from_model: u64 = m.rng_mut().gen();
        let from_twin: u64 = rng.gen();
        assert_eq!(from_model, from_twin);
    }
}

#[test]
fn the_number_of_mobile_sites() {
    assert_eq!(Model::<0>::mobile_sites(), 0);
    assert_eq!(Model::<2>::mobile_sites(), 4);
    assert_eq!(Model::<4>::mobile_sites(), 32);
    assert_eq!(Model::<32>::mobile_sites(), 16384);
}

#[test]
fn fill_probability_one_and_zero() {
    for seed in [Some("test"), Some("a"), None] {
        let m = Model::<4>::new(chance(1.0), seed).unwrap();
        assert_eq!(m.occupied_count(), m.mobile_count());
        assert_eq!((m.nearest_neighbours(), m.next_nearest_neighbours()), (192, 96));
        match Model::<2>::new(chance(0.0), seed) {
            Err(e) => assert_eq!(e, ConfigError::ZeroFill),
            Ok(_) => panic!("empty lattice accepted"),
        }
    }
}
