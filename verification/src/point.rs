use vstd::prelude::*;


verus! {

/// Mathematical value of a [`Point`].
#[verifier::ext_equal]
pub enum PointV {
    Origin,
    Specific(u64, Seq<u8>),
}

impl PointV {
    /// Slot comparison used by rollbacks: Origin sits before every slot.
    pub open spec fn at_or_after(self, slot: u64) -> bool {
        match self {
            PointV::Origin => false,
            PointV::Specific(s, _) => s >= slot,
        }
    }
}

/// A point on the chain: either the origin or a (slot, block hash) pair.
/// It serves both as the tip marker and as the intersection anchor.
pub enum Point {
    Origin,
    Specific(u64, crate::hash::Hash<32>),
}

impl View for Point {
    type V = PointV;

    open spec fn view(&self) -> PointV {
        match self {
            Point::Origin => PointV::Origin,
            Point::Specific(slot, hash) => PointV::Specific(*slot, hash@),
        }
    }
}

impl Point {
    /// A specific point carries a full 32-byte block hash.
    pub open spec fn wf(&self) -> bool {
        match self {
            Point::Origin => true,
            Point::Specific(_, hash) => hash.wf(),
        }
    }

    /// Whether this point is the origin.
    pub fn is_origin(&self) -> (r: bool)
        ensures
            r == (self@ == PointV::Origin),
    {
        match self {
            Point::Origin => true,
            Point::Specific(_, _) => false,
        }
    }
}

impl Clone for Point {
    fn clone(&self) -> (r: Self)
        ensures
            r@ == self@,
            r.wf() == self.wf(),
    {
        match self {
            Point::Origin => Point::Origin,
            Point::Specific(slot, hash) => Point::Specific(*slot, hash.clone()),
        }
    }
}

impl PartialEq for Point {
    fn eq(&self, other: &Self) -> (r: bool) {
        match (self, other) {
            (Point::Origin, Point::Origin) => true,
            (Point::Specific(s1, h1), Point::Specific(s2, h2)) => *s1 == *s2 && h1.same(h2),
            _ => false,
        }
    }
}

impl vstd::std_specs::cmp::PartialEqSpecImpl for Point {
    open spec fn obeys_eq_spec() -> bool {
        true
    }

    open spec fn eq_spec(&self, other: &Self) -> bool {
        self@ == other@
    }
}

} // verus!
