use pba::array3d::Array3d;
use pba::export::{plan_export, push_site_atoms, sites_under, walk_export, Atom, Naming, Particle, Placement, Visit};
use pba::Site;

fn grid() -> Array3d<Site, 2, 2, 2> {
    Array3d::<Site, 2, 2, 2>::filled(|(x, y, z)| {
        if (x + y + z) % 2 == 0 {
            Site::FixedMetal
        } else if (x, y, z) == (1, 0, 0) {
            Site::Vacant
        } else {
            Site::Occupied
        }
    })
}

fn usual() -> Naming {
    Naming {
        fixed_metal: Some(Placement::Singlet),
        occupied: Some(Placement::Cyanometalate),
        vacant: Some(Placement::Omit),
    }
}

fn brief(a: &Atom) -> (isize, isize, isize, Particle, u8, bool) {
    (a.site.0, a.site.1, a.site.2, a.particle, a.axis, a.positive)
}

#[test]
fn atoms_of_one_site() {
    let mut atoms = Vec::new();
    push_site_atoms(&mut atoms, (1, 2, 3), Site::Vacant, None);
    push_site_atoms(&mut atoms, (1, 2, 3), Site::Vacant, Some(Placement::Omit));
    assert!(atoms.is_empty());
    push_site_atoms(&mut atoms, (1, 2, 3), Site::FixedMetal, Some(Placement::Singlet));
    assert_eq!(atoms.len(), 1);
    assert_eq!(brief(&atoms[0]), (1, 2, 3, Particle::Primary, 0, true));
    assert_eq!(atoms[0].kind, Site::FixedMetal);
    push_site_atoms(&mut atoms, (0, 0, 1), Site::Occupied, Some(Placement::Cyanometalate));
    assert_eq!(atoms.len(), 14);
    let expected = [
        (Particle::Primary, 0, true),
        (Particle::Carbon, 0, true),
        (Particle::Carbon, 0, false),
        (Particle::Nitrogen, 0, true),
        (Particle::Nitrogen, 0, false),
        (Particle::Carbon, 1, true),
        (Particle::Carbon, 1, false),
        (Particle::Nitrogen, 1, true),
        (Particle::Nitrogen, 1, false),
        (Particle::Carbon, 2, true),
        (Particle::Carbon, 2, false),
        (Particle::Nitrogen, 2, true),
        (Particle::Nitrogen, 2, false),
    ];
    for (atom, want) in atoms[1..].iter().zip(expected) {
        assert_eq!(brief(atom), (0, 0, 1, want.0, want.1, want.2));
        assert_eq!(atom.kind, Site::Occupied);
    }
}

#[test]
fn sites_are_visited_with_the_last_coordinate_fastest() {
    let all = Naming {
        fixed_metal: Some(Placement::Singlet),
        occupied: Some(Placement::Singlet),
        vacant: Some(Placement::Singlet),
    };
    let atoms = plan_export(&grid(), &all);
    let sites: Vec<_> = atoms.iter().map(|a| a.site).collect();
    assert_eq!(
        sites,
        [(0, 0, 0), (0, 0, 1), (0, 1, 0), (0, 1, 1), (1, 0, 0), (1, 0, 1), (1, 1, 0), (1, 1, 1)]
    );
    let kinds: Vec<_> = atoms.iter().map(|a| a.kind).collect();
    assert_eq!(kinds[0], Site::FixedMetal);
    assert_eq!(kinds[1], Site::Occupied);
    assert_eq!(kinds[4], Site::Vacant);
    assert_eq!(kinds[7], Site::Occupied);
}

#[test]
fn plan_of_a_small_lattice() {
    let atoms = plan_export(&grid(), &usual());
    // four fixed metals, three occupied sites of thirteen atoms each, the vacancy omitted
    assert_eq!(atoms.len(), 4 + 3 * 13);
    assert_eq!(brief(&atoms[0]), (0, 0, 0, Particle::Primary, 0, true));
    assert_eq!(brief(&atoms[1]), (0, 0, 1, Particle::Primary, 0, true));
    assert_eq!(brief(&atoms[2]), (0, 0, 1, Particle::Carbon, 0, true));
    assert_eq!(brief(&atoms[13]), (0, 0, 1, Particle::Nitrogen, 2, false));
    assert_eq!(brief(&atoms[14]), (0, 1, 0, Particle::Primary, 0, true));
    assert_eq!(brief(&atoms[27]), (0, 1, 1, Particle::Primary, 0, true));
    assert_eq!(brief(&atoms[28]), (1, 0, 1, Particle::Primary, 0, true));
    assert_eq!(brief(&atoms[29]), (1, 1, 0, Particle::Primary, 0, true));
    assert_eq!(brief(&atoms[30]), (1, 1, 1, Particle::Primary, 0, true));
    assert!(atoms.iter().all(|a| a.kind != Site::Vacant));
}

#[test]
fn sites_by_their_entry() {
    let g = grid();
    assert_eq!(sites_under(&g, &usual(), Some(Placement::Omit)), [(1, 0, 0)]);
    assert!(sites_under(&g, &usual(), None).is_empty());
    assert_eq!(
        sites_under(&g, &usual(), Some(Placement::Singlet)),
        [(0, 0, 0), (0, 1, 1), (1, 0, 1), (1, 1, 0)]
    );
    let partial = Naming { fixed_metal: Some(Placement::Singlet), occupied: None, vacant: None };
    assert_eq!(sites_under(&g, &partial, None), [(0, 0, 1), (0, 1, 0), (1, 0, 0), (1, 1, 1)]);
    assert_eq!(plan_export(&g, &partial).len(), 4);
    assert_eq!(partial.rule(Site::FixedMetal), Some(Placement::Singlet));
    assert_eq!(partial.rule(Site::Occupied), None);
    assert_eq!(usual().rule(Site::Vacant), Some(Placement::Omit));
}

#[test]
fn the_walk_gives_atoms_and_notices_in_visiting_order() {
    let g = grid();
    let rules = Naming { fixed_metal: Some(Placement::Singlet), occupied: None, vacant: Some(Placement::Omit) };
    let walk = walk_export(&g, &rules);
    let brief: Vec<String> = walk
        .iter()
        .map(|v| match v {
            Visit::Place(a) => format!("place {:?} {:?}", a.site, a.particle),
            Visit::Omitted(site, kind) => format!("omit {:?} {:?}", site, kind),
            Visit::Missing(site, kind) => format!("miss {:?} {:?}", site, kind),
        })
        .collect();
    assert_eq!(
        brief,
        [
            "place (0, 0, 0) Primary",
            "miss (0, 0, 1) Occupied",
            "miss (0, 1, 0) Occupied",
            "place (0, 1, 1) Primary",
            "omit (1, 0, 0) Vacant",
            "place (1, 0, 1) Primary",
            "place (1, 1, 0) Primary",
            "miss (1, 1, 1) Occupied",
        ]
    );
    // the atoms of the walk are the plan, the notices the sites without atoms
    let full = walk_export(&g, &usual());
    let placed: Vec<_> = full
        .iter()
        .filter_map(|v| if let Visit::Place(a) = v { Some(brief_of(a)) } else { None })
        .collect();
    let plan: Vec<_> = plan_export(&g, &usual()).iter().map(brief_of).collect();
    assert_eq!(placed, plan);
    assert_eq!(full.len(), plan.len() + 1);
    assert!(matches!(full[27], Visit::Place(_)));
    assert!(matches!(full[28], Visit::Omitted((1, 0, 0), Site::Vacant)));
}

fn brief_of(a: &Atom) -> (isize, isize, isize, Particle, u8, bool) {
    (a.site.0, a.site.1, a.site.2, a.particle, a.axis, a.positive)
}
