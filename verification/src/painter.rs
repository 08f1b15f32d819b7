use vstd::prelude::*;

use crate::grid::{lemma_with_cell_frame, spec_grid_contains_rect, Grid, GridView};
use crate::rect2::Rect2u;
use crate::rect2_utils;
use crate::rect2_utils::rect_is;
use crate::regen_error::RegenError;
use crate::vector2::{Vector2, Vector2u};

verus! {

/// Holds when `g1` is `g0` with exactly the cells of the given region
/// overwritten by `value`.
pub open spec fn painted<T>(
    g0: GridView<T>,
    g1: GridView<T>,
    region: spec_fn(int, int) -> bool,
    value: T,
) -> bool {
    &&& g1.wf()
    &&& g1.width == g0.width
    &&& g1.height == g0.height
    &&& forall|x: int, y: int|
        g0.in_bounds(x, y) ==> #[trigger] g1.at(x, y) == (if region(x, y) {
            value
        } else {
            g0.at(x, y)
        })
}

/// Holds when `(x, y)` lies on the one-cell-wide border of the rectangle.
pub open spec fn on_rect_border(rect: Rect2u, x: int, y: int) -> bool {
    let x0 = rect.spec_position().x as int;
    let y0 = rect.spec_position().y as int;
    let w = rect.spec_size().x as int;
    let h = rect.spec_size().y as int;
    &&& x0 <= x < x0 + w
    &&& y0 <= y < y0 + h
    &&& (x == x0 || x == x0 + w - 1 || y == y0 || y == y0 + h - 1)
}

/// Holds when `(x, y)` lies inside the rectangle.
pub open spec fn in_rect(rect: Rect2u, x: int, y: int) -> bool {
    let x0 = rect.spec_position().x as int;
    let y0 = rect.spec_position().y as int;
    let w = rect.spec_size().x as int;
    let h = rect.spec_size().y as int;
    x0 <= x < x0 + w && y0 <= y < y0 + h
}

/// Splits the given grid into two horizontally at the given height and returns
/// the two resulting rectangles.
///
/// # Errors
///
/// Returns an error if the grid cannot be split at the given height.
pub fn h_split<T>(map: &Grid<T>, height: u32) -> (r: Result<(Rect2u, Rect2u), RegenError>)
    ensures
        (height == 0 || height >= map@.height) <==> r is Err,
        r is Err ==> r == Err::<(Rect2u, Rect2u), RegenError>(RegenError::InvalidArgument),
        r is Ok ==> rect_is(r->Ok_0.0, 0, 0, map@.width, height as int) && rect_is(
            r->Ok_0.1,
            0,
            height as int,
            map@.width,
            map@.height - height,
        ),
{
    rect2_utils::h_split_rect(
        Rect2u::make(Vector2::new(0, 0), map.size()),
        height,
    )
}

/// Splits the given grid into two vertically at the given width and returns
/// the two resulting rectangles.
///
/// # Errors
///
/// Returns an error if the grid cannot be split at the given width.
pub fn v_split<T>(map: &Grid<T>, width: u32) -> (r: Result<(Rect2u, Rect2u), RegenError>)
    ensures
        (width == 0 || width >= map@.width) <==> r is Err,
        r is Err ==> r == Err::<(Rect2u, Rect2u), RegenError>(RegenError::InvalidArgument),
        r is Ok ==> rect_is(r->Ok_0.0, 0, 0, width as int, map@.height) && rect_is(
            r->Ok_0.1,
            width as int,
            0,
            map@.width - width,
            map@.height,
        ),
{
    rect2_utils::v_split_rect(
        Rect2u::make(Vector2::new(0, 0), map.size()),
        width,
    )
}

/// Draws part of one row: every cell `(x, y)` with `x_min <= x < x_max` is
/// set to the given value.
fn h_line_unsafe<T: Copy>(map: &mut Grid<T>, y: u32, x_min: u32, x_max: u32, value: T)
    requires
        old(map)@.wf(),
        y < old(map)@.height,
        x_max <= old(map)@.width,
    ensures
        painted(
            old(map)@,
            final(map)@,
            |x2: int, y2: int| y2 == y && x_min <= x2 < x_max,
            value,
        ),
{
    let mut x = x_min;
    while x < x_max
        invariant
            x_min <= x <= x_max || x == x_min,
            map@.wf(),
            y < map@.height,
            x_max <= map@.width,
            map@.width == old(map)@.width,
            map@.height == old(map)@.height,
            forall|x2: int, y2: int|
                old(map)@.in_bounds(x2, y2) ==> #[trigger] map@.at(x2, y2) == (if y2 == y && x_min
                    <= x2 < x {
                    value
                } else {
                    old(map)@.at(x2, y2)
                }),
        decreases x_max - x,
    {
        let ghost pre = map@;
        proof {
            lemma_with_cell_frame(pre, x as int, y as int, value);
        }
        map.put(x, y, value);
        proof {
            assert forall|x2: int, y2: int| old(map)@.in_bounds(x2, y2) implies #[trigger] map@.at(
                x2,
                y2,
            ) == (if y2 == y && x_min <= x2 < x + 1 {
                value
            } else {
                old(map)@.at(x2, y2)
            }) by {
                assert(map@ == pre.with_cell(x as int, y as int, value));
                if x2 == x && y2 == y {
                } else {
                    assert(map@.at(x2, y2) == pre.at(x2, y2));
                }
            }
        }
        x += 1;
    }
}

/// Draws part of one column: every cell `(x, y)` with `y_min <= y < y_max` is
/// set to the given value.
fn v_line_unsafe<T: Copy>(map: &mut Grid<T>, x: u32, y_min: u32, y_max: u32, value: T)
    requires
        old(map)@.wf(),
        x < old(map)@.width,
        y_max <= old(map)@.height,
    ensures
        painted(
            old(map)@,
            final(map)@,
            |x2: int, y2: int| x2 == x && y_min <= y2 < y_max,
            value,
        ),
{
    let mut y = y_min;
    while y < y_max
        invariant
            y_min <= y <= y_max || y == y_min,
            map@.wf(),
            x < map@.width,
            y_max <= map@.height,
            map@.width == old(map)@.width,
            map@.height == old(map)@.height,
            forall|x2: int, y2: int|
                old(map)@.in_bounds(x2, y2) ==> #[trigger] map@.at(x2, y2) == (if x2 == x && y_min
                    <= y2 < y {
                    value
                } else {
                    old(map)@.at(x2, y2)
                }),
        decreases y_max - y,
    {
        let ghost pre = map@;
        proof {
            lemma_with_cell_frame(pre, x as int, y as int, value);
        }
        map.put(x, y, value);
        proof {
            assert forall|x2: int, y2: int| old(map)@.in_bounds(x2, y2) implies #[trigger] map@.at(
                x2,
                y2,
            ) == (if x2 == x && y_min <= y2 < y + 1 {
                value
            } else {
                old(map)@.at(x2, y2)
            }) by {
                assert(map@ == pre.with_cell(x as int, y as int, value));
                if x2 == x && y2 == y {
                } else {
                    assert(map@.at(x2, y2) == pre.at(x2, y2));
                }
            }
        }
        y += 1;
    }
}

/// Fills the grid with the given value.
pub fn fill<T: Copy>(map: &mut Grid<T>, value: T)
    requires
        old(map)@.wf(),
    ensures
        painted(old(map)@, final(map)@, |x2: int, y2: int| true, value),
{
    let height = map.size().y;
    let mut y: u32 = 0;
    while y < height
        invariant
            0 <= y <= height,
            map@.wf(),
            height == map@.height,
            map@.width == old(map)@.width,
            map@.height == old(map)@.height,
            forall|x2: int, y2: int|
                old(map)@.in_bounds(x2, y2) ==> #[trigger] map@.at(x2, y2) == (if y2 < y {
                    value
                } else {
                    old(map)@.at(x2, y2)
                }),
        decreases height - y,
    {
        let ghost pre = map@;
        let width = map.size().x;
        h_line_unsafe(map, y, 0, width, value);
        proof {
            assert forall|x2: int, y2: int| old(map)@.in_bounds(x2, y2) implies #[trigger] map@.at(
                x2,
                y2,
            ) == (if y2 < y + 1 {
                value
            } else {
                old(map)@.at(x2, y2)
            }) by {
                assert(map@.at(x2, y2) == (if y2 == y && 0 <= x2 < width {
                    value
                } else {
                    pre.at(x2, y2)
                }));
            }
        }
        y += 1;
    }
}

/// Fills the given rectangle on the given grid with the given value.
///
/// # Errors
///
/// Returns an error if the rectangle exceeds the grid bounds.
pub fn fill_rect<T: Copy>(map: &mut Grid<T>, rect: &Rect2u, value: T) -> (r: Result<
    (),
    RegenError,
>)
    requires
        old(map)@.wf(),
    ensures
        !spec_grid_contains_rect(old(map)@, *rect) ==> r == Err::<(), RegenError>(
            RegenError::OutOfBounds,
        ) && final(map)@ == old(map)@,
        spec_grid_contains_rect(old(map)@, *rect) ==> r == Ok::<(), RegenError>(()) && painted(
            old(map)@,
            final(map)@,
            |x2: int, y2: int| in_rect(*rect, x2, y2),
            value,
        ),
{
    let pos = rect.position();
    let sz = rect.size();
    let contained = (pos.x as u64) < (map.size().x as u64) && (pos.y as u64) < (map.size().y
        as u64) && 1 <= (pos.x as u64) + (sz.x as u64) && (pos.x as u64) + (sz.x as u64) <= (
    map.size().x as u64) && 1 <= (pos.y as u64) + (sz.y as u64) && (pos.y as u64) + (sz.y as u64)
        <= (map.size().y as u64);
    if !contained {
        return Err(RegenError::OutOfBounds);
    }

    let x_min = pos.x;
    let x_max = pos.x + sz.x;
    let y_min = pos.y;
    let y_max = pos.y + sz.y;

    let mut x = x_min;
    while x < x_max
        invariant
            x_min <= x <= x_max || x == x_min,
            map@.wf(),
            map@.width == old(map)@.width,
            map@.height == old(map)@.height,
            x_min == rect.spec_position().x,
            y_min == rect.spec_position().y,
            x_max == x_min + rect.spec_size().x,
            y_max == y_min + rect.spec_size().y,
            x_max <= map@.width,
            y_max <= map@.height,
            forall|x2: int, y2: int|
                old(map)@.in_bounds(x2, y2) ==> #[trigger] map@.at(x2, y2) == (if x_min <= x2 < x
                    && y_min <= y2 < y_max {
                    value
                } else {
                    old(map)@.at(x2, y2)
                }),
        decreases x_max - x,
    {
        let ghost pre = map@;
        v_line_unsafe(map, x, y_min, y_max, value);
        proof {
            assert forall|x2: int, y2: int| old(map)@.in_bounds(x2, y2) implies #[trigger] map@.at(
                x2,
                y2,
            ) == (if x_min <= x2 < x + 1 && y_min <= y2 < y_max {
                value
            } else {
                old(map)@.at(x2, y2)
            }) by {
                assert(map@.at(x2, y2) == (if x2 == x && y_min <= y2 < y_max {
                    value
                } else {
                    pre.at(x2, y2)
                }));
            }
        }
        x += 1;
    }
    Ok(())
}

/// Draws the border of the given rectangle on the given grid with the given
/// value. Returns the rectangle within the border, if possible.
///
/// # Errors
///
/// Returns an error if the rectangle exceeds the grid bounds.
pub fn border_rect<T: Copy>(map: &mut Grid<T>, rect: &Rect2u, value: T) -> (r: Result<
    Option<Rect2u>,
    RegenError,
>)
    requires
        old(map)@.wf(),
        rect.spec_size().x >= 2,
        rect.spec_size().y >= 2,
    ensures
        !spec_grid_contains_rect(old(map)@, *rect) ==> r == Err::<Option<Rect2u>, RegenError>(
            RegenError::OutOfBounds,
        ) && final(map)@ == old(map)@,
        spec_grid_contains_rect(old(map)@, *rect) ==> painted(
            old(map)@,
            final(map)@,
            |x2: int, y2: int| on_rect_border(*rect, x2, y2),
            value,
        ) && if rect.spec_size().x > 2 && rect.spec_size().y > 2 {
            r matches Ok(o) && o matches Some(inner) && rect_is(
                inner,
                rect.spec_position().x + 1,
                rect.spec_position().y + 1,
                rect.spec_size().x - 2,
                rect.spec_size().y - 2,
            )
        } else {
            r == Ok::<Option<Rect2u>, RegenError>(None)
        },
{
    let pos = rect.position();
    let sz = rect.size();
    let contained = (pos.x as u64) < (map.size().x as u64) && (pos.y as u64) < (map.size().y
        as u64) && 1 <= (pos.x as u64) + (sz.x as u64) && (pos.x as u64) + (sz.x as u64) <= (
    map.size().x as u64) && 1 <= (pos.y as u64) + (sz.y as u64) && (pos.y as u64) + (sz.y as u64)
        <= (map.size().y as u64);
    if !contained {
        return Err(RegenError::OutOfBounds);
    }

    let x_min = pos.x;
    let x_max = pos.x + sz.x;
    let y_min = pos.y;
    let y_max = pos.y + sz.y;

    let ghost g0 = map@;
    h_line_unsafe(map, y_min, x_min, x_max, value);
    let ghost g1 = map@;
    h_line_unsafe(map, y_max - 1, x_min, x_max, value);
    let ghost g2 = map@;
    v_line_unsafe(map, x_min, y_min + 1, y_max - 1, value);
    let ghost g3 = map@;
    v_line_unsafe(map, x_max - 1, y_min + 1, y_max - 1, value);
    proof {
        assert forall|x2: int, y2: int| g0.in_bounds(x2, y2) implies #[trigger] map@.at(x2, y2)
            == (if on_rect_border(*rect, x2, y2) {
            value
        } else {
            g0.at(x2, y2)
        }) by {
            assert(g1.at(x2, y2) == (if y2 == y_min && x_min <= x2 < x_max {
                value
            } else {
                g0.at(x2, y2)
            }));
            assert(g2.at(x2, y2) == (if y2 == y_max - 1 && x_min <= x2 < x_max {
                value
            } else {
                g1.at(x2, y2)
            }));
            assert(g3.at(x2, y2) == (if x2 == x_min && y_min + 1 <= y2 < y_max - 1 {
                value
            } else {
                g2.at(x2, y2)
            }));
            assert(map@.at(x2, y2) == (if x2 == x_max - 1 && y_min + 1 <= y2 < y_max - 1 {
                value
            } else {
                g3.at(x2, y2)
            }));
        }
    }

    let rect_size = Vector2u::new(x_max - x_min - 2, y_max - y_min - 2);
    if rect_size.x > 0 && rect_size.y > 0 {
        let rect_pos = Vector2u::new(x_min + 1, y_min + 1);
        Ok(Some(Rect2u::make(rect_pos, rect_size)))
    } else {
        Ok(None)
    }
}

/// Draws a horizontal line on the given grid, at the given y coordinate and
/// with the given value. Returns the rectangles above and below the drawn
/// line, if possible.
///
/// # Errors
///
/// Returns an error if the y coordinate is outside grid bounds.
pub fn h_line<T: Copy>(map: &mut Grid<T>, y: u32, value: T) -> (r: Result<
    (Option<Rect2u>, Option<Rect2u>),
    RegenError,
>)
    requires
        old(map)@.wf(),
    ensures
        (old(map)@.width == 0 || y >= old(map)@.height) ==> r == Err::<
            (Option<Rect2u>, Option<Rect2u>),
            RegenError,
        >(RegenError::OutOfBounds) && final(map)@ == old(map)@,
        (old(map)@.width > 0 && y < old(map)@.height) ==> (r matches Ok(pair) && {
            &&& painted(
                old(map)@,
                final(map)@,
                |x2: int, y2: int| y2 == y && 0 <= x2 < old(map)@.width,
                value,
            )
            &&& y > 0 ==> (pair.0 matches Some(above) && rect_is(
                above,
                0,
                0,
                old(map)@.width,
                y as int,
            ))
            &&& y == 0 ==> pair.0 is None
            &&& y < old(map)@.height - 1 ==> (pair.1 matches Some(below) && rect_is(
                below,
                0,
                y + 1,
                old(map)@.width,
                old(map)@.height - y - 1,
            ))
            &&& y == old(map)@.height - 1 ==> pair.1 is None
        }),
{
    let full = Rect2u::make(Vector2::new(0, 0), map.size());
    h_line_rect(map, &full, y, value)
}

/// Draws a horizontal line on the given grid, within the given rectangle, at
/// the given y coordinate and with the given value. Returns the
/// sub-rectangles above and below the drawn line, if possible.
///
/// # Errors
///
/// Returns an error if the y coordinate or the rectangle is outside grid
/// bounds.
pub fn h_line_rect<T: Copy>(map: &mut Grid<T>, rect: &Rect2u, y: u32, value: T) -> (r: Result<
    (Option<Rect2u>, Option<Rect2u>),
    RegenError,
>)
    requires
        old(map)@.wf(),
    ensures
        !(spec_grid_contains_rect(old(map)@, *rect) && y < rect.spec_size().y) ==> r == Err::<
            (Option<Rect2u>, Option<Rect2u>),
            RegenError,
        >(RegenError::OutOfBounds) && final(map)@ == old(map)@,
        (spec_grid_contains_rect(old(map)@, *rect) && y < rect.spec_size().y) ==> (r matches Ok(
            pair,
        ) && {
            let x0 = rect.spec_position().x as int;
            let y0 = rect.spec_position().y as int;
            let w = rect.spec_size().x as int;
            let h = rect.spec_size().y as int;
            &&& painted(
                old(map)@,
                final(map)@,
                |x2: int, y2: int| y2 == y0 + y && x0 <= x2 < x0 + w,
                value,
            )
            &&& y > 0 ==> (pair.0 matches Some(above) && rect_is(above, x0, y0, w, y as int))
            &&& y == 0 ==> pair.0 is None
            &&& y < h - 1 ==> (pair.1 matches Some(below) && rect_is(
                below,
                x0,
                y0 + y + 1,
                w,
                h - y - 1,
            ))
            &&& y == h - 1 ==> pair.1 is None
        }),
{
    let pos = rect.position();
    let sz = rect.size();
    let contained = (pos.x as u64) < (map.size().x as u64) && (pos.y as u64) < (map.size().y
        as u64) && 1 <= (pos.x as u64) + (sz.x as u64) && (pos.x as u64) + (sz.x as u64) <= (
    map.size().x as u64) && 1 <= (pos.y as u64) + (sz.y as u64) && (pos.y as u64) + (sz.y as u64)
        <= (map.size().y as u64);
    let rect_out_of_bounds = !contained;
    let y_out_of_bounds = y >= sz.y;

    if rect_out_of_bounds || y_out_of_bounds {
        Err(RegenError::OutOfBounds)
    } else {
        let x_min = pos.x;
        let x_max = pos.x + sz.x;
        h_line_unsafe(map, pos.y + y, x_min, x_max, value);

        Ok((rect2_utils::get_rect_above(rect, y)?, rect2_utils::get_rect_below(rect, y)?))
    }
}

/// Draws a vertical line on the given grid, at the given x coordinate and
/// with the given value. Returns the rectangles left and right of the drawn
/// line, if possible.
///
/// # Errors
///
/// Returns an error if the x coordinate is outside grid bounds.
pub fn v_line<T: Copy>(map: &mut Grid<T>, x: u32, value: T) -> (r: Result<
    (Option<Rect2u>, Option<Rect2u>),
    RegenError,
>)
    requires
        old(map)@.wf(),
    ensures
        (old(map)@.height == 0 || x >= old(map)@.width) ==> r == Err::<
            (Option<Rect2u>, Option<Rect2u>),
            RegenError,
        >(RegenError::OutOfBounds) && final(map)@ == old(map)@,
        (old(map)@.height > 0 && x < old(map)@.width) ==> (r matches Ok(pair) && {
            &&& painted(
                old(map)@,
                final(map)@,
                |x2: int, y2: int| x2 == x && 0 <= y2 < old(map)@.height,
                value,
            )
            &&& x > 0 ==> (pair.0 matches Some(left) && rect_is(
                left,
                0,
                0,
                x as int,
                old(map)@.height,
            ))
            &&& x == 0 ==> pair.0 is None
            &&& x < old(map)@.width - 1 ==> (pair.1 matches Some(right) && rect_is(
                right,
                x + 1,
                0,
                old(map)@.width - x - 1,
                old(map)@.height,
            ))
            &&& x == old(map)@.width - 1 ==> pair.1 is None
        }),
{
    let full = Rect2u::make(Vector2::new(0, 0), map.size());
    v_line_rect(map, &full, x, value)
}

/// Draws a vertical line on the given grid, within the given rectangle, at
/// the given x coordinate and with the given value. Returns the
/// sub-rectangles left and right of the drawn line, if possible.
///
/// # Errors
///
/// Returns an error if the x coordinate or the rectangle is outside grid
/// bounds.
pub fn v_line_rect<T: Copy>(map: &mut Grid<T>, rect: &Rect2u, x: u32, value: T) -> (r: Result<
    (Option<Rect2u>, Option<Rect2u>),
    RegenError,
>)
    requires
        old(map)@.wf(),
    ensures
        !(spec_grid_contains_rect(old(map)@, *rect) && x < rect.spec_size().x) ==> r == Err::<
            (Option<Rect2u>, Option<Rect2u>),
            RegenError,
        >(RegenError::OutOfBounds) && final(map)@ == old(map)@,
        (spec_grid_contains_rect(old(map)@, *rect) && x < rect.spec_size().x) ==> (r matches Ok(
            pair,
        ) && {
            let x0 = rect.spec_position().x as int;
            let y0 = rect.spec_position().y as int;
            let w = rect.spec_size().x as int;
            let h = rect.spec_size().y as int;
            &&& painted(
                old(map)@,
                final(map)@,
                |x2: int, y2: int| x2 == x0 + x && y0 <= y2 < y0 + h,
                value,
            )
            &&& x > 0 ==> (pair.0 matches Some(left) && rect_is(left, x0, y0, x as int, h))
            &&& x == 0 ==> pair.0 is None
            &&& x < w - 1 ==> (pair.1 matches Some(right) && rect_is(
                right,
                x0 + x + 1,
                y0,
                w - x - 1,
                h,
            ))
            &&& x == w - 1 ==> pair.1 is None
        }),
{
    let pos = rect.position();
    let sz = rect.size();
    let contained = (pos.x as u64) < (map.size().x as u64) && (pos.y as u64) < (map.size().y
        as u64) && 1 <= (pos.x as u64) + (sz.x as u64) && (pos.x as u64) + (sz.x as u64) <= (
    map.size().x as u64) && 1 <= (pos.y as u64) + (sz.y as u64) && (pos.y as u64) + (sz.y as u64)
        <= (map.size().y as u64);
    let rect_out_of_bounds = !contained;
    let x_out_of_bounds = x >= sz.x;

    if rect_out_of_bounds || x_out_of_bounds {
        Err(RegenError::OutOfBounds)
    } else {
        let y_min = pos.y;
        let y_max = pos.y + sz.y;
        v_line_unsafe(map, pos.x + x, y_min, y_max, value);

        Ok((rect2_utils::get_rect_left(rect, x)?, rect2_utils::get_rect_right(rect, x)?))
    }
}

} // verus!
