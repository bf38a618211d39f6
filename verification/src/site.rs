//! The three kinds of lattice site and their one-byte storage code.

use vstd::prelude::*;

verus! {

/// What stands on a lattice site.
#[derive(Clone, Copy, Debug, PartialEq, Eq, Structural)]
pub enum Site {
    /// The metal ion of the fixed sublattice. It never moves.
    FixedMetal,
    /// A site of the mobile sublattice that holds a cyanometalate.
    Occupied,
    /// A site of the mobile sublattice that is empty.
    Vacant,
}

impl Site {
    /// The value with which a site enters the energy sums: `0` for the fixed
    /// metal, `1` for an occupied and `-1` for a vacant site. It is also the
    /// code under which the site is stored and written.
    pub open spec fn spin(self) -> int {
        match self {
            Site::FixedMetal => 0,
            Site::Occupied => 1,
            Site::Vacant => -1,
        }
    }

    /// The site that a storage code stands for, if any.
    pub open spec fn spec_from_raw(code: i8) -> Option<Site> {
        if code == 0 {
            Some(Site::FixedMetal)
        } else if code == 1 {
            Some(Site::Occupied)
        } else if code == -1 {
            Some(Site::Vacant)
        } else {
            None
        }
    }

    /// The storage code of the site.
    pub fn to_raw(self) -> (code: i8)
        ensures
            code == self.spin(),
    {
        match self {
            Site::FixedMetal => 0,
            Site::Occupied => 1,
            Site::Vacant => -1,
        }
    }

    /// The site that a storage code stands for; codes other than `0`, `1`
    /// and `-1` stand for none.
    pub fn from_raw(code: i8) -> (site: Option<Site>)
        ensures
            site == Self::spec_from_raw(code),
            site is Some <==> -1 <= code <= 1,
            site matches Some(s) ==> s.spin() == code,
    {
        if code == 0 {
            Some(Site::FixedMetal)
        } else if code == 1 {
            Some(Site::Occupied)
        } else if code == -1 {
            Some(Site::Vacant)
        } else {
            None
        }
    }
}

/// Decoding inverts encoding: every site is recovered from its code, and
/// different sites have different codes.
pub proof fn lemma_site_code_round_trip(a: Site, b: Site)
    ensures
        -1 <= a.spin() <= 1,
        Site::spec_from_raw(a.spin() as i8) == Some(a),
        a.spin() == b.spin() ==> a == b,
{
}

} // verus!
