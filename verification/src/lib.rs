//! Metropolis Monte Carlo on a periodic lattice with two sublattices.
//!
//! The lattice is a cube of even side with periodic boundaries. Sites whose
//! coordinates add up to an even number hold a fixed metal ion; the other
//! sites are mobile: each is occupied or vacant. The energy of a
//! configuration is made of two sums over pairs of mobile sites, one over
//! nearest and one over next-nearest neighbours. A Metropolis step trades an
//! occupied and a vacant site; the model keeps both sums up to date and
//! every function is proved to leave them equal to what a full scan of the
//! lattice finds.

pub mod array3d;
pub mod bonds;
pub mod energy;
pub mod error;
pub mod export;
pub mod grid_text;
pub mod lattice;
pub mod model;
pub mod rng;
pub mod site;
pub mod snapshot;
pub mod sums;
pub mod text;

pub use array3d::{Array3d, Coord};
pub use error::{ConfigError, ParseError};
pub use model::{Decision, Model, Proposal};
pub use site::Site;
