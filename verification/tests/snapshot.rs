use pba::array3d::Array3d;
use pba::{Decision, Model, ParseError, Site};
use rand::distributions::Bernoulli;

fn tiny() -> Model<2> {
    let grid = Array3d::<Site, 2, 2, 2>::filled(|(x, y, z)| {
        if (x + y + z) % 2 == 0 {
            Site::FixedMetal
        } else if x == 1 && y == 0 {
            Site::Vacant
        } else {
            Site::Occupied
        }
    });
    Model::<2>::from_parts(grid, 3, 0, 12, Some("tiny")).unwrap()
}

const TINY: &str = "2 model size\n0.5 j_1\n-1 j_2\n3 good moves\n0 bad moves\n12 rejected moves\n0 -1 1 0 1 0 0 1\n";

fn error_of(text: &str) -> ParseError {
    match Model::<2>::from_txt(text) {
        Err(e) => e,
        Ok(_) => panic!("accepted {:?}", text),
    }
}

#[test]
fn snapshot_text() {
    assert_eq!(tiny().safe_to_txt("0.5", "-1"), TINY);
}

#[test]
fn snapshot_reads_back() {
    let (m, j_1, j_2) = Model::<2>::from_txt(TINY).unwrap();
    assert_eq!((j_1.as_str(), j_2.as_str()), ("0.5", "-1"));
    assert_eq!((m.good_moves(), m.bad_moves(), m.rejected_moves()), (3, 0, 12));
    assert_eq!(m.grid().as_flat_slice(), tiny().grid().as_flat_slice());
    assert_eq!(
        (m.nearest_neighbours(), m.next_nearest_neighbours()),
        (tiny().nearest_neighbours(), tiny().next_nearest_neighbours())
    );
    assert!(m.pending().is_none());
}

#[test]
fn snapshot_round_trip_after_steps() {
    let mut m = Model::<4>::new(Bernoulli::new(0.5).unwrap(), Some("snap")).unwrap();
    for i in 0..100 {
        let decision = if i % 3 == 0 { Decision::Reject } else { Decision::AcceptFavorable };
        m.monte_carlo_step(u32::MAX, move |_, _| decision).unwrap();
    }
    let text = m.safe_to_txt("0.01", "1e2");
    let (back, j_1, j_2) = Model::<4>::from_txt(&text).unwrap();
    assert_eq!((j_1.as_str(), j_2.as_str()), ("0.01", "1e2"));
    assert_eq!(back.grid().as_flat_slice(), m.grid().as_flat_slice());
    assert_eq!(
        (back.good_moves(), back.bad_moves(), back.rejected_moves()),
        (m.good_moves(), m.bad_moves(), m.rejected_moves())
    );
    assert_eq!(back.nearest_neighbours(), m.nearest_neighbours());
    assert_eq!(back.next_nearest_neighbours(), m.next_nearest_neighbours());
    assert_eq!(back.safe_to_txt("0.01", "1e2"), text);
}

#[test]
fn labels_and_extra_lines_are_skipped() {
    let text = "  2\n0.5\t\tcoupling one\n-1 \n+3 x y z\n0\n12 rejected\n 0 -1 1 0\t1 0 0 1 \nmore\nlines\n";
    let (m, j_1, j_2) = Model::<2>::from_txt(text).unwrap();
    assert_eq!((j_1.as_str(), j_2.as_str()), ("0.5", "-1"));
    assert_eq!((m.good_moves(), m.bad_moves(), m.rejected_moves()), (3, 0, 12));
    assert_eq!(m.safe_to_txt("0.5", "-1"), TINY);
}

#[test]
fn truncated_snapshots() {
    assert_eq!(error_of(""), ParseError::MissingValue);
    assert_eq!(error_of("2 model size"), ParseError::MissingLine);
    assert_eq!(error_of("2\n1\n1\n0\n0"), ParseError::MissingLine);
    assert_eq!(error_of("2\n1\n1\n0\n0\n0"), ParseError::MissingLine);
    assert_eq!(error_of("2\n1\n1\n0\n0\n0\n"), ParseError::TooFewCells);
    assert_eq!(error_of("2\n1\n1\n0\n0\n0\n0 -1 1 0 1 0 0"), ParseError::TooFewCells);
}

#[test]
fn surplus_cells() {
    assert_eq!(error_of("2\n1\n1\n0\n0\n0\n0 -1 1 0 1 0 0 1 0"), ParseError::TooManyCells);
    assert_eq!(error_of("2\n1\n1\n0\n0\n0\n0 -1 1 0 1 0 0 1 9 9 9\n"), ParseError::TooManyCells);
    assert_eq!(error_of("2\n1\n1\n0\n0\n0\n0 -1 1 0 1 0 0 1 label"), ParseError::TooManyCells);
}

#[test]
fn lines_without_a_value() {
    assert_eq!(error_of("\n1\n1\n0\n0\n0\n0 -1 1 0 1 0 0 1"), ParseError::MissingValue);
    assert_eq!(error_of("2\n \n1\n0\n0\n0\n0 -1 1 0 1 0 0 1"), ParseError::MissingValue);
    assert_eq!(error_of("2\n1\n1\n0\n\t\n0\n0 -1 1 0 1 0 0 1"), ParseError::MissingValue);
}

#[test]
fn malformed_numbers() {
    assert_eq!(error_of("two\n1\n1\n0\n0\n0\n0 -1 1 0 1 0 0 1"), ParseError::InvalidNumber);
    assert_eq!(error_of("-2\n1\n1\n0\n0\n0\n0 -1 1 0 1 0 0 1"), ParseError::InvalidNumber);
    assert_eq!(error_of("2\n1\n1\n-1\n0\n0\n0 -1 1 0 1 0 0 1"), ParseError::InvalidNumber);
    assert_eq!(error_of("2\n1\n1\n0\n4294967296\n0\n0 -1 1 0 1 0 0 1"), ParseError::InvalidNumber);
    assert_eq!(error_of("2\n1\n1\n0\n0\n1.5\n0 -1 1 0 1 0 0 1"), ParseError::InvalidNumber);
    assert_eq!(error_of("2\n1\n1\n0\n0\n0\n0 -1 1 0 1 0 zero 1"), ParseError::InvalidNumber);
    assert_eq!(error_of("2\n1\n1\n0\n0\n0\n0 -1 1 0 1 0 0 200"), ParseError::InvalidNumber);
}

#[test]
fn wrong_size() {
    assert_eq!(error_of("4\n1\n1\n0\n0\n0\n0 -1 1 0 1 0 0 1"), ParseError::SizeMismatch);
    assert_eq!(error_of("0\n1\n1\n0\n0\n0\n0 -1 1 0 1 0 0 1"), ParseError::SizeMismatch);
    match Model::<4>::from_txt(TINY) {
        Err(e) => assert_eq!(e, ParseError::SizeMismatch),
        Ok(_) => panic!("accepted"),
    }
}

#[test]
fn sites_that_do_not_fit() {
    // a code that stands for no site
    assert_eq!(error_of("2\n1\n1\n0\n0\n0\n0 -1 1 0 1 0 0 2"), ParseError::InvalidSite);
    // a mobile site on the fixed sublattice
    assert_eq!(error_of("2\n1\n1\n0\n0\n0\n1 -1 1 0 1 0 0 1"), ParseError::InvalidSite);
    // the fixed metal on the mobile sublattice
    assert_eq!(error_of("2\n1\n1\n0\n0\n0\n0 0 1 0 1 0 0 1"), ParseError::InvalidSite);
    // no lattice of odd side
    let text = "3 model size\n1\n1\n0\n0\n0\n".to_string() + &"0 ".repeat(27);
    match Model::<3>::from_txt(&text) {
        Err(e) => assert_eq!(e, ParseError::InvalidSite),
        Ok(_) => panic!("accepted"),
    }
}

#[test]
fn the_first_fault_decides() {
    assert_eq!(error_of("x\n\n"), ParseError::InvalidNumber);
    assert_eq!(error_of("4\n\n"), ParseError::SizeMismatch);
    assert_eq!(error_of("2\n1\n1\nx\n\n"), ParseError::InvalidNumber);
    assert_eq!(error_of("2\n1\n1\n0\n\nx\n"), ParseError::MissingValue);
}

#[test]
fn reports() {
    let m = tiny();
    assert_eq!(
        m.neighbours_text(),
        format!(
            "nearest neighbours sum: {}\nnext nearest neighbours sum: {}\n",
            m.nearest_neighbours(),
            m.next_nearest_neighbours()
        )
    );
    assert_eq!(m.counters_text(), "good moves: 3\nbad moves: 0\nrejected moves: 12\n");
    // side two: every mobile site is its own next-nearest neighbour
    assert_eq!(m.next_nearest_neighbours(), 12);
}
