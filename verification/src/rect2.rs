use vstd::prelude::*;
use vstd::std_specs::cmp::PartialOrdSpec;
use vstd::std_specs::convert::FromSpec;
use vstd::std_specs::ops::AddSpec;
use vstd::std_specs::ops::SubSpec;

use core::cmp::Ordering;

use crate::tisu_error::TisuError;
use crate::vector2::Vector2;

verus! {

/// Holds when `a` orders strictly below `b` under the type's partial order.
pub open spec fn lt_spec<T: PartialOrd>(a: T, b: T) -> bool {
    a.partial_cmp_spec(&b) == Some(Ordering::Less)
}

/// Holds when `a` orders at or above `b` under the type's partial order.
pub open spec fn ge_spec<T: PartialOrd>(a: T, b: T) -> bool {
    a.partial_cmp_spec(&b) matches Some(Ordering::Greater | Ordering::Equal)
}

/// A generic 2d rectangle
#[derive(Clone, Copy, Debug, PartialEq, Eq, Structural)]
pub struct Rect2<T> {
    /// The position of the rectangle
    pub(crate) position: Vector2<T>,
    /// The size of the rectangle
    pub(crate) size: Vector2<T>,
}

pub type Rect2u = Rect2<u32>;

impl<T> Rect2<T> {
    /// The rectangle's position, for use in contracts.
    pub closed spec fn spec_position(self) -> Vector2<T> {
        self.position
    }

    /// The rectangle's size, for use in contracts.
    pub closed spec fn spec_size(self) -> Vector2<T> {
        self.size
    }

    /// Builds a rectangle directly from its parts; the crate's own modules
    /// use this where validity is already known.
    pub(crate) fn make(position: Vector2<T>, size: Vector2<T>) -> (r: Self)
        ensures
            r.spec_position() == position,
            r.spec_size() == size,
    {
        Self { position, size }
    }

    /// Creates a rectangle at the given position and with the given size.
    ///
    /// # Errors
    ///
    /// Returns an error if the given size contains negative coordinates.
    pub fn new(position: Vector2<T>, size: Vector2<T>) -> (r: Result<Self, TisuError>) where
        T: PartialOrd + From<u16> + Copy,

        ensures
            r is Ok ==> r->Ok_0.spec_position() == position && r->Ok_0.spec_size() == size,
            (T::obeys_partial_cmp_spec() && T::obeys_from_spec()) ==> ({
                let zero = T::from_spec(0u16);
                if lt_spec(size.x, zero) || lt_spec(size.y, zero) {
                    r == Err::<Self, TisuError>(TisuError::InvalidArgument)
                } else {
                    r is Ok && r->Ok_0.spec_position() == position && r->Ok_0.spec_size() == size
                }
            }),
    {
        if size.x < 0.into() || size.y < 0.into() {
            return Err(TisuError::InvalidArgument);
        }
        Ok(Self { position, size })
    }

    /// Returns position of the rectangle.
    pub fn position(&self) -> (r: Vector2<T>) where T: Copy
        ensures
            r == self.spec_position(),
    {
        self.position
    }

    /// Returns size of the rectangle.
    pub fn size(&self) -> (r: Vector2<T>) where T: Copy
        ensures
            r == self.spec_size(),
    {
        self.size
    }
}

impl Rect2u {
    /// The enclosure test of `contains_rect`, read in unbounded integers:
    /// the rectangle with the given corner coordinates and side lengths has
    /// its position and far corner inside this one.
    pub open spec fn spec_encloses_parts(self, x: int, y: int, w: int, h: int) -> bool {
        let ox = self.spec_position().x as int;
        let oy = self.spec_position().y as int;
        let ow = self.spec_size().x as int;
        let oh = self.spec_size().y as int;
        &&& ox <= x < ox + ow
        &&& oy <= y < oy + oh
        &&& ox <= x + w - 1 < ox + ow
        &&& oy <= y + h - 1 < oy + oh
    }

    /// The enclosure test between two `u32` rectangles.
    pub open spec fn spec_encloses(self, other: Rect2u) -> bool {
        self.spec_encloses_parts(
            other.spec_position().x as int,
            other.spec_position().y as int,
            other.spec_size().x as int,
            other.spec_size().y as int,
        )
    }

    /// Decides the enclosure test without overflowing.
    pub(crate) fn encloses(&self, other: &Rect2u) -> (r: bool)
        ensures
            r == self.spec_encloses(*other),
    {
        let ox = self.position.x as u64;
        let oy = self.position.y as u64;
        let ow = self.size.x as u64;
        let oh = self.size.y as u64;
        let ix = other.position.x as u64;
        let iy = other.position.y as u64;
        let iw = other.size.x as u64;
        let ih = other.size.y as u64;
        ix >= ox && ix < ox + ow && iy >= oy && iy < oy + oh && ix + iw >= ox + 1 && ix + iw <= ox
            + ow && iy + ih >= oy + 1 && iy + ih <= oy + oh
    }
}

impl<T: PartialOrd + Copy + core::ops::Add<Output = T>> Rect2<T> {
    /// The half-open interval test that `contains_point` decides.
    pub open spec fn spec_contains_point(self, point: Vector2<T>) -> bool {
        &&& ge_spec(point.x, self.spec_position().x)
        &&& ge_spec(point.y, self.spec_position().y)
        &&& lt_spec(point.x, self.spec_position().x.add_spec(self.spec_size().x))
        &&& lt_spec(point.y, self.spec_position().y.add_spec(self.spec_size().y))
    }

    /// Checks if the rectangle contains the given point.
    pub fn contains_point(&self, point: Vector2<T>) -> (r: bool)
        requires
            T::obeys_partial_cmp_spec(),
            T::obeys_add_spec(),
            self.spec_position().x.add_req(self.spec_size().x),
            self.spec_position().y.add_req(self.spec_size().y),
        ensures
            r == self.spec_contains_point(point),
    {
        point.x >= self.position.x && point.y >= self.position.y
            && point.x < self.position.x + self.size.x
            && point.y < self.position.y + self.size.y
    }
}

impl<
    T: PartialOrd + Copy + core::ops::Add<Output = T> + core::ops::Sub<Output = T> + From<u16>,
> Rect2<T> {
    /// The far corner cell of the rectangle: its position plus its size,
    /// less one unit on each axis.
    pub open spec fn spec_far_corner(self) -> Vector2<T> {
        let one = T::from_spec(1u16);
        Vector2 {
            x: self.spec_position().x.add_spec(self.spec_size().x).sub_spec(one),
            y: self.spec_position().y.add_spec(self.spec_size().y).sub_spec(one),
        }
    }

    /// The enclosure test that `contains_rect` decides: the other rectangle's
    /// position and far corner both lie inside this one.
    pub open spec fn spec_contains_rect(self, other: Rect2<T>) -> bool {
        self.spec_contains_point(other.spec_position()) && self.spec_contains_point(
            other.spec_far_corner(),
        )
    }

    /// Checks if the rectangle contains the given rectangle.
    pub fn contains_rect(&self, rect: &Rect2<T>) -> (r: bool)
        requires
            T::obeys_partial_cmp_spec(),
            T::obeys_add_spec(),
            T::obeys_sub_spec(),
            T::obeys_from_spec(),
            self.spec_position().x.add_req(self.spec_size().x),
            self.spec_position().y.add_req(self.spec_size().y),
            rect.spec_position().x.add_req(rect.spec_size().x),
            rect.spec_position().y.add_req(rect.spec_size().y),
            rect.spec_position().x.add_spec(rect.spec_size().x).sub_req(T::from_spec(1u16)),
            rect.spec_position().y.add_spec(rect.spec_size().y).sub_req(T::from_spec(1u16)),
        ensures
            r == self.spec_contains_rect(*rect),
    {
        self.contains_point(rect.position) && self.contains_point(
            rect.position.add(rect.size).sub(Vector2::one()),
        )
    }
}

impl<T: PartialOrd + From<u16> + Copy> TryFrom<(T, T, T, T)> for Rect2<T> {
    type Error = TisuError;

    fn try_from(value: (T, T, T, T)) -> Result<Self, Self::Error> {
        let position = Vector2::new(value.0, value.1);
        let size = Vector2::new(value.2, value.3);
        Self::new(position, size)
    }
}

impl<T: PartialOrd + From<u16> + Copy> vstd::std_specs::convert::TryFromSpecImpl<(T, T, T, T)> for Rect2<T> {
    open spec fn obeys_try_from_spec() -> bool {
        false
    }

    open spec fn try_from_spec(value: (T, T, T, T)) -> Result<Self, TisuError> {
        Err(TisuError::InvalidArgument)
    }
}

} // verus!
