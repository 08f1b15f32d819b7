use vstd::prelude::*;
use vstd::std_specs::convert::FromSpec;
use vstd::std_specs::ops::AddSpec;
use vstd::std_specs::ops::SubSpec;

verus! {

/// A generic 2d vector
#[derive(Clone, Copy, Debug, PartialEq, Eq, Structural)]
pub struct Vector2<T> {
    /// X coordinate of the vector
    pub x: T,
    /// Y coordinate of the vector
    pub y: T,
}

pub type Vector2u = Vector2<u32>;
pub type Vector2i = Vector2<i32>;

impl<T> Vector2<T> {
    /// Creates a vector with the given coordinates.
    pub fn new(x: T, y: T) -> (r: Self)
        ensures
            r == (Vector2 { x, y }),
    {
        Self { x, y }
    }

    /// Creates a unit vector.
    pub fn one() -> (r: Self) where T: From<u16>
        ensures
            T::obeys_from_spec() ==> r == (Vector2 {
                x: T::from_spec(1u16),
                y: T::from_spec(1u16),
            }),
    {
        Vector2::new(T::from(1), T::from(1))
    }

    /// Adds another vector to this one, coordinate by coordinate.
    pub fn add(self, rhs: Self) -> (r: Self) where T: core::ops::Add<Output = T>
        requires
            self.x.add_req(rhs.x),
            self.y.add_req(rhs.y),
        ensures
            T::obeys_add_spec() ==> r == (Vector2 {
                x: self.x.add_spec(rhs.x),
                y: self.y.add_spec(rhs.y),
            }),
    {
        Vector2::new(self.x + rhs.x, self.y + rhs.y)
    }

    /// Subtracts another vector from this one, coordinate by coordinate.
    pub fn sub(self, rhs: Self) -> (r: Self) where T: core::ops::Sub<Output = T>
        requires
            self.x.sub_req(rhs.x),
            self.y.sub_req(rhs.y),
        ensures
            T::obeys_sub_spec() ==> r == (Vector2 {
                x: self.x.sub_spec(rhs.x),
                y: self.y.sub_spec(rhs.y),
            }),
    {
        Vector2::new(self.x - rhs.x, self.y - rhs.y)
    }
}

impl<T: Default> Default for Vector2<T> {
    fn default() -> (r: Self)
        ensures
            call_ensures(<T as Default>::default, (), r.x),
            call_ensures(<T as Default>::default, (), r.y),
    {
        Vector2::new(T::default(), T::default())
    }
}

impl<T: PartialOrd + From<u16>> From<(T, T)> for Vector2<T> {
    fn from(value: (T, T)) -> Self {
        Vector2::new(value.0, value.1)
    }
}

impl<T: PartialOrd + From<u16>> vstd::std_specs::convert::FromSpecImpl<(T, T)> for Vector2<T> {
    open spec fn obeys_from_spec() -> bool {
        true
    }

    open spec fn from_spec(value: (T, T)) -> Self {
        Vector2 { x: value.0, y: value.1 }
    }
}

} // verus!
