use vstd::prelude::*;

verus! {

/// A cell of the lattice, or an offset between two cells.
#[derive(Clone, Copy, Debug, PartialEq, Eq, Structural)]
pub struct Location {
    pub x: isize,
    pub y: isize,
    pub z: isize,
}

/// Every component lies in `[0, 8)`.
pub open spec fn valid(l: Location) -> bool {
    0 <= l.x < 8 && 0 <= l.y < 8 && 0 <= l.z < 8
}

/// The component-wise sum fits in `isize`.
pub open spec fn sum_fits(a: Location, b: Location) -> bool {
    isize::MIN <= a.x + b.x <= isize::MAX
    && isize::MIN <= a.y + b.y <= isize::MAX
    && isize::MIN <= a.z + b.z <= isize::MAX
}

/// The product with a scalar fits in `isize`, component by component.
pub open spec fn product_fits(a: Location, f: int) -> bool {
    isize::MIN <= a.x * f <= isize::MAX
    && isize::MIN <= a.y * f <= isize::MAX
    && isize::MIN <= a.z * f <= isize::MAX
}

/// The location with the given components.
pub open spec fn loc(x: int, y: int, z: int) -> Location {
    Location { x: x as isize, y: y as isize, z: z as isize }
}

/// The component-wise sum.
pub open spec fn plus(a: Location, b: Location) -> Location {
    loc(a.x + b.x, a.y + b.y, a.z + b.z)
}

/// Every component multiplied by `f`.
pub open spec fn times(a: Location, f: int) -> Location {
    loc(a.x * f, a.y * f, a.z * f)
}

impl Location {
    pub fn new(x: isize, y: isize, z: isize) -> (r: Location)
        ensures
            r.x == x && r.y == y && r.z == z,
    {
        Location { x: x, y: y, z: z }
    }

    /// Component-wise sum.
    pub fn add(self, o: Location) -> (r: Location)
        requires
            sum_fits(self, o),
        ensures
            r == plus(self, o),
    {
        Location { x: self.x + o.x, y: self.y + o.y, z: self.z + o.z }
    }

    /// Every component multiplied by `f`.
    pub fn mul(self, f: isize) -> (r: Location)
        requires
            product_fits(self, f as int),
        ensures
            r == times(self, f as int),
    {
        Location { x: self.x * f, y: self.y * f, z: self.z * f }
    }

    /// Multiplies every component by `f` in place.
    pub fn mul_assign(&mut self, f: isize)
        requires
            product_fits(*old(self), f as int),
        ensures
            *final(self) == times(*old(self), f as int),
    {
        self.x = self.x * f;
        self.y = self.y * f;
        self.z = self.z * f;
    }
}

impl From<(isize, isize, isize)> for Location {
    fn from(t: (isize, isize, isize)) -> (r: Location) {
        Location { x: t.0, y: t.1, z: t.2 }
    }
}

impl vstd::std_specs::convert::FromSpecImpl<(isize, isize, isize)> for Location {
    open spec fn obeys_from_spec() -> bool {
        true
    }

    open spec fn from_spec(t: (isize, isize, isize)) -> Location {
        Location { x: t.0, y: t.1, z: t.2 }
    }
}

/// Whether every component lies in `[0, 8)`.
pub fn location_is_valid(l: Location) -> (r: bool)
    ensures
        r == valid(l),
{
    !(l.x < 0 || l.x > 7 || l.y < 0 || l.y > 7 || l.z < 0 || l.z > 7)
}

} // verus!
