use vstd::prelude::*;

use crate::rect2::Rect2u;
use crate::regen_error::RegenError;
use crate::vector2::{Vector2, Vector2u};

verus! {

/// Holds when the rectangle has the given corner coordinates and side
/// lengths.
pub open spec fn rect_is(r: Rect2u, x: int, y: int, w: int, h: int) -> bool {
    r.spec_position() == (Vector2u { x: x as u32, y: y as u32 }) && r.spec_size() == (Vector2u {
        x: w as u32,
        y: h as u32,
    })
}

/// Splits the given rectangle into two horizontally at the given height and
/// returns the two newly created rectangles.
///
/// # Errors
///
/// Returns an error if the rectangle cannot be split at the given height.
pub fn h_split_rect(rect: Rect2u, height: u32) -> (r: Result<(Rect2u, Rect2u), RegenError>)
    requires
        rect.spec_position().y + rect.spec_size().y <= u32::MAX,
    ensures
        (height == 0 || height >= rect.spec_size().y) <==> r is Err,
        r is Err ==> r == Err::<(Rect2u, Rect2u), RegenError>(RegenError::InvalidArgument),
        r is Ok ==> ({
            let x = rect.spec_position().x as int;
            let y = rect.spec_position().y as int;
            let w = rect.spec_size().x as int;
            let h = rect.spec_size().y as int;
            rect_is(r->Ok_0.0, x, y, w, height as int) && rect_is(
                r->Ok_0.1,
                x,
                y + height,
                w,
                h - height,
            )
        }),
{
    if height == 0 || height >= rect.size().y {
        return Err(RegenError::InvalidArgument);
    }
    if rect.size().y < 2 {
        return Err(RegenError::InvalidArgument);
    }

    let upper_rect_pos = rect.position();
    let upper_rect_size = Vector2::new(rect.size().x, height);
    let lower_rect_pos = Vector2::new(rect.position().x, rect.position().y + height);
    let lower_rect_size = Vector2::new(rect.size().x, rect.size().y - height);
    Ok(
        (
            Rect2u::make(upper_rect_pos, upper_rect_size),
            Rect2u::make(lower_rect_pos, lower_rect_size),
        ),
    )
}

/// Splits the given rectangle into two vertically at the given width and
/// returns the two newly created rectangles.
///
/// # Errors
///
/// Returns an error if the rectangle cannot be split at the given width.
pub fn v_split_rect(rect: Rect2u, width: u32) -> (r: Result<(Rect2u, Rect2u), RegenError>)
    requires
        rect.spec_position().x + rect.spec_size().x <= u32::MAX,
    ensures
        (width == 0 || width >= rect.spec_size().x) <==> r is Err,
        r is Err ==> r == Err::<(Rect2u, Rect2u), RegenError>(RegenError::InvalidArgument),
        r is Ok ==> ({
            let x = rect.spec_position().x as int;
            let y = rect.spec_position().y as int;
            let w = rect.spec_size().x as int;
            let h = rect.spec_size().y as int;
            rect_is(r->Ok_0.0, x, y, width as int, h) && rect_is(
                r->Ok_0.1,
                x + width,
                y,
                w - width,
                h,
            )
        }),
{
    if width == 0 || width >= rect.size().x {
        return Err(RegenError::InvalidArgument);
    }
    if rect.size().x < 2 {
        return Err(RegenError::InvalidArgument);
    }

    let left_rect_pos = rect.position();
    let left_rect_size = Vector2::new(width, rect.size().y);
    let right_rect_pos = Vector2::new(rect.position().x + width, rect.position().y);
    let right_rect_size = Vector2::new(rect.size().x - width, rect.size().y);
    Ok(
        (
            Rect2u::make(left_rect_pos, left_rect_size),
            Rect2u::make(right_rect_pos, right_rect_size),
        ),
    )
}

/// Returns a sub-rectangle of the given rectangle that is above the given y
/// coordinate.
///
/// # Errors
///
/// Returns an error if the given y coordinate is out of rectangle bounds.
pub fn get_rect_above(rect: &Rect2u, y: u32) -> (r: Result<Option<Rect2u>, RegenError>)
    requires
        rect.spec_size().y >= 1,
    ensures
        y >= rect.spec_size().y ==> r == Err::<Option<Rect2u>, RegenError>(RegenError::OutOfBounds),
        (0 < y < rect.spec_size().y) ==> (r matches Ok(o) && o matches Some(sub) && rect_is(
            sub,
            rect.spec_position().x as int,
            rect.spec_position().y as int,
            rect.spec_size().x as int,
            y as int,
        )),
        y == 0 ==> r == Ok::<Option<Rect2u>, RegenError>(None),
{
    if y >= rect.size().y {
        Err(RegenError::OutOfBounds)
    } else if y > 0 {
        let size = Vector2u::new(rect.size().x, y);
        Ok(Some(Rect2u::make(rect.position(), size)))
    } else {
        Ok(None)
    }
}

/// Returns a sub-rectangle of the given rectangle that is left of the given x
/// coordinate.
///
/// # Errors
///
/// Returns an error if the given x coordinate is out of rectangle bounds.
pub fn get_rect_left(rect: &Rect2u, x: u32) -> (r: Result<Option<Rect2u>, RegenError>)
    requires
        rect.spec_size().x >= 1,
    ensures
        x >= rect.spec_size().x ==> r == Err::<Option<Rect2u>, RegenError>(RegenError::OutOfBounds),
        (0 < x < rect.spec_size().x) ==> (r matches Ok(o) && o matches Some(sub) && rect_is(
            sub,
            rect.spec_position().x as int,
            rect.spec_position().y as int,
            x as int,
            rect.spec_size().y as int,
        )),
        x == 0 ==> r == Ok::<Option<Rect2u>, RegenError>(None),
{
    if x >= rect.size().x {
        Err(RegenError::OutOfBounds)
    } else if x > 0 {
        let size = Vector2u::new(x, rect.size().y);
        Ok(Some(Rect2u::make(rect.position(), size)))
    } else {
        Ok(None)
    }
}

/// Returns a sub-rectangle of the given rectangle that is below the given y
/// coordinate.
///
/// # Errors
///
/// Returns an error if the given y coordinate is out of rectangle bounds.
pub fn get_rect_below(rect: &Rect2u, y: u32) -> (r: Result<Option<Rect2u>, RegenError>)
    requires
        rect.spec_size().y >= 1,
        rect.spec_position().y + rect.spec_size().y <= u32::MAX,
    ensures
        y >= rect.spec_size().y ==> r == Err::<Option<Rect2u>, RegenError>(RegenError::OutOfBounds),
        y < rect.spec_size().y - 1 ==> (r matches Ok(o) && o matches Some(sub) && rect_is(
            sub,
            rect.spec_position().x as int,
            rect.spec_position().y + y + 1,
            rect.spec_size().x as int,
            rect.spec_size().y - y - 1,
        )),
        y == rect.spec_size().y - 1 ==> r == Ok::<Option<Rect2u>, RegenError>(None),
{
    if y >= rect.size().y {
        Err(RegenError::OutOfBounds)
    } else if y < rect.size().y - 1 {
        let position = Vector2u::new(rect.position().x, rect.position().y + y + 1);
        let size = Vector2u::new(rect.size().x, rect.size().y - y - 1);
        Ok(Some(Rect2u::make(position, size)))
    } else {
        Ok(None)
    }
}

/// Returns a sub-rectangle of the given rectangle that is right of the given x
/// coordinate.
///
/// # Errors
///
/// Returns an error if the given x coordinate is out of rectangle bounds.
pub fn get_rect_right(rect: &Rect2u, x: u32) -> (r: Result<Option<Rect2u>, RegenError>)
    requires
        rect.spec_size().x >= 1,
        rect.spec_position().x + rect.spec_size().x <= u32::MAX,
    ensures
        x >= rect.spec_size().x ==> r == Err::<Option<Rect2u>, RegenError>(RegenError::OutOfBounds),
        x < rect.spec_size().x - 1 ==> (r matches Ok(o) && o matches Some(sub) && rect_is(
            sub,
            rect.spec_position().x + x + 1,
            rect.spec_position().y as int,
            rect.spec_size().x - x - 1,
            rect.spec_size().y as int,
        )),
        x == rect.spec_size().x - 1 ==> r == Ok::<Option<Rect2u>, RegenError>(None),
{
    if x >= rect.size().x {
        Err(RegenError::OutOfBounds)
    } else if x < rect.size().x - 1 {
        let position = Vector2u::new(rect.position().x + x + 1, rect.position().y);
        let size = Vector2u::new(rect.size().x - x - 1, rect.size().y);
        Ok(Some(Rect2u::make(position, size)))
    } else {
        Ok(None)
    }
}

} // verus!
