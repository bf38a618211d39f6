use pba::array3d::Array3d;
use pba::error::ParseError;

#[test]
fn new_grid_holds_defaults() {
    let g = Array3d::<i8, 2, 3, 4>::new();
    assert_eq!(g.as_flat_slice().len(), 24);
    assert!(g.as_flat_slice().iter().all(|v| *v == 0));
}

#[test]
fn coordinates_wrap_on_every_axis() {
    let mut g = Array3d::<i8, 2, 3, 4>::new();
    g.set((1, 2, 3), 7);
    assert_eq!(*g.get((1, 2, 3)), 7);
    assert_eq!(*g.get((-1, -1, -1)), 7);
    assert_eq!(*g.get((3, 5, 7)), 7);
    assert_eq!(*g.get((1 - 2 * 100, 2 + 3 * 100, 3 - 4 * 100)), 7);
    assert_eq!(*g.get((0, 2, 3)), 0);
    assert_eq!(g.as_flat_slice()[1 + 2 * 2 + 3 * 2 * 3], 7);
}

#[test]
fn offset_uses_non_negative_remainder() {
    type G = Array3d<i8, 4, 5, 6>;
    for x in -9isize..9 {
        for y in -11isize..11 {
            for z in -13isize..13 {
                let expect = x.rem_euclid(4) + y.rem_euclid(5) * 4 + z.rem_euclid(6) * 20;
                assert_eq!(G::offset((x, y, z)), expect as usize);
                assert_eq!(
                    G::offset((x, y, z)),
                    G::offset((x.rem_euclid(4), y.rem_euclid(5), z.rem_euclid(6)))
                );
            }
        }
    }
    assert_eq!(G::offset((isize::MIN, isize::MAX, -1)), {
        let x = isize::MIN.rem_euclid(4);
        let y = isize::MAX.rem_euclid(5);
        (x + y * 4 + 5 * 20) as usize
    });
}

#[test]
fn grid_text_is_space_separated_decimal() {
    let g = Array3d::<i8, 2, 2, 1>::from_flat(vec![0, -1, 127, -128]).unwrap();
    assert_eq!(g.as_string(), "0 -1 127 -128");
}

#[test]
fn grid_text_round_trip() {
    let cells: Vec<i8> = (0..24).map(|i| ((i * 37) % 256 - 128) as i8).collect();
    let g = Array3d::<i8, 2, 3, 4>::from_flat(cells.clone()).unwrap();
    let back = Array3d::<i8, 2, 3, 4>::from_string(&g.as_string()).unwrap();
    assert_eq!(back.as_flat_slice(), &cells[..]);
}

#[test]
fn from_string_accepts_any_whitespace_and_signs() {
    let g = Array3d::<i8, 2, 2, 1>::from_string(" +1\t-0\n007 \u{2003}-128  ").unwrap();
    assert_eq!(g.as_flat_slice(), &[1, 0, 7, -128]);
}

#[test]
fn from_string_rejects_surplus_tokens() {
    for text in ["1 -1 0", "1 2 3 4 5", "1 2 not-a-number", " 1\t2\n3 "] {
        match Array3d::<i8, 2, 1, 1>::from_string(text) {
            Err(e) => assert_eq!(e, ParseError::TooManyCells),
            Ok(_) => panic!("accepted {:?}", text),
        }
    }
    // a token that does not read comes first, where there is a cell for it
    match Array3d::<i8, 2, 1, 1>::from_string("1 x 3") {
        Err(e) => assert_eq!(e, ParseError::InvalidNumber),
        Ok(_) => panic!("accepted"),
    }
    match Array3d::<i8, 1, 1, 1>::from_string("7 8") {
        Err(e) => assert_eq!(e, ParseError::TooManyCells),
        Ok(_) => panic!("accepted"),
    }
    assert_eq!(Array3d::<i8, 2, 1, 1>::from_string("1 -1").unwrap().as_flat_slice(), &[1, -1]);
}

#[test]
fn from_string_rejects_bad_numbers() {
    for text in ["1 x 3 4", "1 128 3 4", "1 -129 3 4", "1 - 3 4", "1 1.0 3 4", "1 2 3 --4"] {
        match Array3d::<i8, 2, 2, 1>::from_string(text) {
            Err(e) => assert_eq!(e, ParseError::InvalidNumber),
            Ok(_) => panic!("accepted {:?}", text),
        }
    }
}

#[test]
fn from_string_rejects_short_text() {
    for text in ["", "   ", "1 2 3"] {
        match Array3d::<i8, 2, 2, 1>::from_string(text) {
            Err(e) => assert_eq!(e, ParseError::TooFewCells),
            Ok(_) => panic!("accepted {:?}", text),
        }
    }
    match Array3d::<i8, 2, 2, 1>::from_string("1 z") {
        Err(e) => assert_eq!(e, ParseError::InvalidNumber),
        Ok(_) => panic!("accepted"),
    }
}

#[test]
fn filled_asks_once_per_cell() {
    let g = Array3d::<isize, 2, 3, 4>::filled(|(x, y, z)| x + 10 * y + 100 * z);
    for z in 0..4isize {
        for y in 0..3isize {
            for x in 0..2isize {
                assert_eq!(*g.get((x, y, z)), x + 10 * y + 100 * z);
            }
        }
    }
    assert_eq!(g.as_flat_slice()[0..4], [0, 1, 10, 11]);
}

#[test]
fn cells_are_read_and_written_by_index() {
    let mut g = Array3d::<i8, 3, 3, 3>::new();
    g[(4, -1, 3)] = 9;
    assert_eq!(g[(1, 2, 0)], 9);
    assert_eq!(g[(-2, 5, -3)], 9);
    g[(1, 2, 0)] -= 4;
    assert_eq!(*g.get((1, 2, 0)), 5);
    assert_eq!(g.as_flat_slice().iter().filter(|v| **v != 0).count(), 1);
}

#[test]
fn cells_are_written_through_the_flat_slice() {
    let mut g = Array3d::<i8, 2, 2, 2>::new();
    for (i, v) in g.as_flat_slice_mut().iter_mut().enumerate() {
        *v = i as i8;
    }
    assert_eq!(g[(1, 0, 0)], 1);
    assert_eq!(g[(0, 1, 0)], 2);
    assert_eq!(g[(0, 0, 1)], 4);
    assert_eq!(g[(1, 1, 1)], 7);
    assert_eq!(g.as_string(), "0 1 2 3 4 5 6 7");
}

#[test]
fn extents_are_checked() {
    assert!(Array3d::<i8, 2, 3, 4>::check_dims());
    assert!(Array3d::<i8, 1, 1, 1>::check_dims());
    assert!(!Array3d::<i8, 0, 3, 4>::check_dims());
    assert!(!Array3d::<i8, 2, 0, 4>::check_dims());
    assert!(!Array3d::<i8, 2, 3, 0>::check_dims());
    assert!(!Array3d::<i8, { usize::MAX }, 2, 1>::check_dims());
    assert!(!Array3d::<i8, { usize::MAX / 2 + 1 }, 1, 1>::check_dims());
    assert!(Array3d::<(), { usize::MAX / 2 }, 1, 1>::check_dims());
    assert_eq!(Array3d::<i8, 2, 3, 4>::len(), 24);
}

#[test]
fn default_grid_is_the_new_grid() {
    let g: Array3d<i8, 2, 3, 4> = Default::default();
    assert_eq!(g.as_flat_slice(), Array3d::<i8, 2, 3, 4>::new().as_flat_slice());
    let none: Array3d<i8, 0, 3, 4> = Default::default();
    assert!(none.as_flat_slice().is_empty());
}
