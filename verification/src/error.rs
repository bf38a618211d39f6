//! The ways in which building or reading a lattice can fail.

use vstd::prelude::*;

verus! {

/// Why a lattice model cannot be built.
#[derive(Clone, Copy, Debug, PartialEq, Eq, Structural)]
pub enum ConfigError {
    /// The side length is odd, so the two sublattices do not tile the torus.
    OddSize,
    /// A site stands on the wrong sublattice: a mobile site on a fixed
    /// point, or the fixed metal on a mobile point.
    Misplaced,
    /// No site came out occupied.
    ZeroFill,
    /// No seed was given, and the operating system gave no entropy to seed
    /// the random number generator from.
    NoEntropy,
}

/// Why a text does not read as a grid or as a model.
#[derive(Clone, Copy, Debug, PartialEq, Eq, Structural)]
pub enum ParseError {
    /// The text ends before the line that holds the next field.
    MissingLine,
    /// A line that should start with a value holds no token at all.
    MissingValue,
    /// A token does not read as an integer of the expected range.
    InvalidNumber,
    /// The side length in the text differs from the side length of the model.
    SizeMismatch,
    /// The text holds fewer cell values than the grid has cells.
    TooFewCells,
    /// The text holds more cell values than the grid has cells.
    TooManyCells,
    /// A cell value stands for no kind of site, or for a kind that cannot
    /// stand on that cell's sublattice.
    InvalidSite,
    /// The text reads as a model, but the operating system gave no entropy
    /// to seed its random number generator from.
    NoEntropy,
}

} // verus!
