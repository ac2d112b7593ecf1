//! The version named in the file header, and the range this parser accepts.

use std::cmp::Ordering;
use vstd::prelude::*;
use vstd::std_specs::cmp::PartialOrdSpecImpl;

verus! {

/// A PDF version: major, then minor.
#[derive(Clone, Copy, Debug, PartialEq, Eq, Structural)]
pub struct Version(pub u8, pub u8);

/// The last version whose files this parser reads.
pub open spec fn latest_supported() -> Version {
    Version(1, 4)
}

impl Version {
    /// Versions are ordered by major number, then by minor number.
    pub open spec fn order(self, other: Version) -> Ordering {
        if self.0 < other.0 {
            Ordering::Less
        } else if self.0 > other.0 {
            Ordering::Greater
        } else if self.1 < other.1 {
            Ordering::Less
        } else if self.1 > other.1 {
            Ordering::Greater
        } else {
            Ordering::Equal
        }
    }

    /// A version is supported when it is not above 1.4.
    pub open spec fn supported(self) -> bool {
        self.order(latest_supported()) != Ordering::Greater
    }

    /// Tests whether this parser reads files of this version.
    pub fn is_supported(&self) -> (r: bool)
        ensures
            r == self.supported(),
            r == (self.0 < 1 || (self.0 == 1 && self.1 <= 4)),
    {
        let latest = Version(1, 4);
        *self <= latest
    }

    /// The order of versions is a total order: exactly one of less, equal and
    /// greater holds, equal means the same version, swapping the sides swaps
    /// less and greater, and less is transitive.
    pub proof fn lemma_order_is_total(a: Version, b: Version, c: Version)
        ensures
            a.order(b) == Ordering::Equal <==> a == b,
            a.order(b) == Ordering::Less <==> b.order(a) == Ordering::Greater,
            a.order(b) == Ordering::Less && b.order(c) == Ordering::Less ==> a.order(c)
                == Ordering::Less,
    {
    }
}

impl PartialOrd for Version {
    fn partial_cmp(&self, other: &Self) -> (r: Option<Ordering>) {
        if self.0 == other.0 {
            if self.1 == other.1 {
                Some(Ordering::Equal)
            } else if self.1 > other.1 {
                Some(Ordering::Greater)
            } else {
                Some(Ordering::Less)
            }
        } else if self.0 > other.0 {
            Some(Ordering::Greater)
        } else {
            Some(Ordering::Less)
        }
    }
}

impl PartialOrdSpecImpl for Version {
    open spec fn obeys_partial_cmp_spec() -> bool {
        true
    }

    open spec fn partial_cmp_spec(&self, other: &Version) -> Option<Ordering> {
        Some(self.order(*other))
    }
}

} // verus!
