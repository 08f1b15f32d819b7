use vstd::prelude::*;
use vstd::std_specs::cmp::PartialEqSpec;

use crate::grid::{Grid, GridView};
use crate::rect2::Rect2u;
use crate::tisu_error::TisuError;
use crate::vector2::{Vector2, Vector2u};

verus! {

/// A cell counts as transparent when it lies outside the grid or its value
/// equals the transparent sentinel, under the cell type's own equality.
pub open spec fn transparent_at<T: PartialEq>(g: GridView<T>, t: T, x: int, y: int) -> bool {
    !g.in_bounds(x, y) || g.at(x, y).eq_spec(&t)
}

/// A cell starts a rectangle when it is not transparent while the cells
/// directly left of it and directly above it are.
pub open spec fn rect_start_at<T: PartialEq>(g: GridView<T>, t: T, x: int, y: int) -> bool {
    &&& !transparent_at(g, t, x, y)
    &&& transparent_at(g, t, x - 1, y)
    &&& transparent_at(g, t, x, y - 1)
}

/// Position `(x1, y1)` comes strictly before `(x2, y2)` in row-major order.
pub open spec fn rm_before(x1: int, y1: int, x2: int, y2: int) -> bool {
    y1 < y2 || (y1 == y2 && x1 < x2)
}

/// No rectangle start lies at or after `(fx, fy)` and strictly before
/// `(px, py)`, in row-major order.
pub open spec fn no_start_between<T: PartialEq>(
    g: GridView<T>,
    t: T,
    fx: int,
    fy: int,
    px: int,
    py: int,
) -> bool {
    forall|qx: int, qy: int|
        !rm_before(qx, qy, fx, fy) && rm_before(qx, qy, px, py) ==> !rect_start_at(g, t, qx, qy)
}

/// Checks if the cell of the given grid at the given coordinates is
/// transparent.
pub fn is_field_transparent<T: PartialEq>(map: &Grid<T>, transparent_value: &T, field: Vector2u) -> (r:
    bool)
    requires
        map@.wf(),
        T::obeys_eq_spec(),
    ensures
        r == transparent_at(map@, *transparent_value, field.x as int, field.y as int),
{
    if field.x >= map.size().x || field.y >= map.size().y {
        return true;
    }
    *map.cell(field.x, field.y) == *transparent_value
}

/// Checks if the cell of the given grid at the given coordinates is the start
/// of a rectangle.
pub fn is_rect_start<T: PartialEq>(map: &Grid<T>, transparent_value: &T, field: Vector2u) -> (r:
    bool)
    requires
        map@.wf(),
        T::obeys_eq_spec(),
    ensures
        r == rect_start_at(map@, *transparent_value, field.x as int, field.y as int),
{
    if is_field_transparent(map, transparent_value, field) {
        return false;
    }
    let left_transparent = field.x == 0 || is_field_transparent(
        map,
        transparent_value,
        Vector2::new(field.x - 1, field.y),
    );
    let above_transparent = field.y == 0 || is_field_transparent(
        map,
        transparent_value,
        Vector2::new(field.x, field.y - 1),
    );
    left_transparent && above_transparent
}

/// Returns the starting coordinates of the first rectangle at or after the
/// given position in row-major scan order.
///
/// # Errors
///
/// Returns an error if no rectangle start remains.
pub fn find_rect_start<T: PartialEq>(map: &Grid<T>, transparent_value: &T, from: Vector2u) -> (r:
    Result<Vector2u, TisuError>)
    requires
        map@.wf(),
        T::obeys_eq_spec(),
    ensures
        (r matches Ok(p) ==> {
            &&& rect_start_at(map@, *transparent_value, p.x as int, p.y as int)
            &&& !rm_before(p.x as int, p.y as int, from.x as int, from.y as int)
            &&& no_start_between(
                map@,
                *transparent_value,
                from.x as int,
                from.y as int,
                p.x as int,
                p.y as int,
            )
        }),
        (r matches Err(e) ==> e == TisuError::NotFound && forall|qx: int, qy: int|
            !rm_before(qx, qy, from.x as int, from.y as int) ==> !rect_start_at(
                map@,
                *transparent_value,
                qx,
                qy,
            )),
{
    let ghost g = map@;
    let ghost t = *transparent_value;
    let mut it = from;
    while it.y < map.size().y
        invariant
            map@.wf(),
            T::obeys_eq_spec(),
            g == map@,
            t == *transparent_value,
            it.y >= from.y,
            it.y == from.y ==> it.x == from.x,
            it.y > from.y ==> it.x == 0,
            no_start_between(g, t, from.x as int, from.y as int, it.x as int, it.y as int),
        decreases map@.height - it.y,
    {
        let ghost row = it.y;
        while it.x < map.size().x
            invariant
                map@.wf(),
                T::obeys_eq_spec(),
                g == map@,
                t == *transparent_value,
                it.y == row,
                it.y < map@.height,
                it.y >= from.y,
                it.y == from.y ==> it.x >= from.x,
                no_start_between(g, t, from.x as int, from.y as int, it.x as int, it.y as int),
            decreases map@.width - it.x,
        {
            if is_rect_start(map, transparent_value, it) {
                return Ok(it);
            }
            proof {
                assert forall|qx: int, qy: int|
                    !rm_before(qx, qy, from.x as int, from.y as int) && rm_before(
                        qx,
                        qy,
                        it.x + 1,
                        it.y as int,
                    ) implies !rect_start_at(g, t, qx, qy) by {
                    if qx == it.x as int && qy == it.y as int {
                    } else {
                        assert(rm_before(qx, qy, it.x as int, it.y as int));
                    }
                }
            }
            it.x += 1;
        }
        proof {
            assert forall|qx: int, qy: int|
                !rm_before(qx, qy, from.x as int, from.y as int) && rm_before(
                    qx,
                    qy,
                    0,
                    it.y + 1,
                ) implies !rect_start_at(g, t, qx, qy) by {
                if !rm_before(qx, qy, it.x as int, it.y as int) {
                    assert(!g.in_bounds(qx, qy));
                }
            }
        }
        it.y += 1;
        it.x = 0;
    }
    proof {
        assert forall|qx: int, qy: int|
            !rm_before(qx, qy, from.x as int, from.y as int) implies !rect_start_at(g, t, qx, qy)
        by {
            if rm_before(qx, qy, it.x as int, it.y as int) {
            } else {
                assert(qy >= it.y >= g.height);
                assert(!g.in_bounds(qx, qy));
            }
        }
    }
    Err(TisuError::NotFound)
}

/// The x coordinate of the first transparent cell at or right of `(x, y)`.
/// The cell at `(g.width, y)` is out of bounds and so always transparent.
pub open spec fn first_transparent_right<T: PartialEq>(g: GridView<T>, t: T, x: int, y: int) -> int
    decreases g.width - x,
{
    if transparent_at(g, t, x, y) {
        x
    } else {
        first_transparent_right(g, t, x + 1, y)
    }
}

/// The y coordinate of the first transparent cell at or below `(x, y)`.
pub open spec fn first_transparent_down<T: PartialEq>(g: GridView<T>, t: T, x: int, y: int) -> int
    decreases g.height - y,
{
    if transparent_at(g, t, x, y) {
        y
    } else {
        first_transparent_down(g, t, x, y + 1)
    }
}

/// The size that `find_rect_size` reports for the given start cell: the
/// distances to the first transparent cell rightwards and downwards, or zero
/// if the start cell itself is transparent.
pub open spec fn spec_rect_size<T: PartialEq>(g: GridView<T>, t: T, x: int, y: int) -> (int, int) {
    if transparent_at(g, t, x, y) {
        (0, 0)
    } else {
        (first_transparent_right(g, t, x, y) - x, first_transparent_down(g, t, x, y) - y)
    }
}

/// An interval of non-transparent cells ending at a transparent one pins down
/// `first_transparent_right`.
pub proof fn lemma_first_right_pinned<T: PartialEq>(g: GridView<T>, t: T, x0: int, y: int, x: int)
    requires
        x0 <= x,
        transparent_at(g, t, x, y),
        forall|d: int| x0 <= d < x ==> !transparent_at(g, t, d, y),
    ensures
        first_transparent_right(g, t, x0, y) == x,
    decreases x - x0,
{
    if x0 < x {
        lemma_first_right_pinned(g, t, x0 + 1, y, x);
    }
}

/// An interval of non-transparent cells ending at a transparent one pins down
/// `first_transparent_down`.
pub proof fn lemma_first_down_pinned<T: PartialEq>(g: GridView<T>, t: T, x: int, y0: int, y: int)
    requires
        y0 <= y,
        transparent_at(g, t, x, y),
        forall|d: int| y0 <= d < y ==> !transparent_at(g, t, x, d),
    ensures
        first_transparent_down(g, t, x, y0) == y,
    decreases y - y0,
{
    if y0 < y {
        lemma_first_down_pinned(g, t, x, y0 + 1, y);
    }
}

/// Bounds on `first_transparent_right` for an in-bounds column.
pub proof fn lemma_first_right_bounds<T: PartialEq>(g: GridView<T>, t: T, x: int, y: int)
    requires
        0 <= x <= g.width,
    ensures
        x <= first_transparent_right(g, t, x, y) <= g.width,
        transparent_at(g, t, first_transparent_right(g, t, x, y), y),
        forall|d: int| x <= d < first_transparent_right(g, t, x, y) ==> !transparent_at(g, t, d, y),
    decreases g.width - x,
{
    if !transparent_at(g, t, x, y) {
        lemma_first_right_bounds(g, t, x + 1, y);
    }
}

/// Bounds on `first_transparent_down` for an in-bounds row.
pub proof fn lemma_first_down_bounds<T: PartialEq>(g: GridView<T>, t: T, x: int, y: int)
    requires
        0 <= y <= g.height,
    ensures
        y <= first_transparent_down(g, t, x, y) <= g.height,
        transparent_at(g, t, x, first_transparent_down(g, t, x, y)),
        forall|d: int| y <= d < first_transparent_down(g, t, x, y) ==> !transparent_at(g, t, x, d),
    decreases g.height - y,
{
    if !transparent_at(g, t, x, y) {
        lemma_first_down_bounds(g, t, x, y + 1);
    }
}

/// Returns the size of the rectangle that starts at the given coordinates.
pub fn find_rect_size<T: PartialEq>(map: &Grid<T>, transparent_value: &T, field: Vector2u) -> (r:
    Vector2u)
    requires
        map@.wf(),
        T::obeys_eq_spec(),
    ensures
        r.x == spec_rect_size(map@, *transparent_value, field.x as int, field.y as int).0,
        r.y == spec_rect_size(map@, *transparent_value, field.x as int, field.y as int).1,
{
    let ghost g = map@;
    let ghost t = *transparent_value;
    if is_field_transparent(map, transparent_value, field) {
        return Vector2::new(0, 0);
    }

    let mut x = field.x;
    while x < map.size().x && !is_field_transparent(map, transparent_value, Vector2::new(x, field.y))
        invariant
            map@.wf(),
            T::obeys_eq_spec(),
            g == map@,
            t == *transparent_value,
            field.x <= x <= map@.width,
            forall|d: int| field.x <= d < x ==> !transparent_at(g, t, d, field.y as int),
        decreases map@.width - x,
    {
        x += 1;
    }
    proof {
        lemma_first_right_pinned(g, t, field.x as int, field.y as int, x as int);
    }

    let mut y = field.y;
    while y < map.size().y && !is_field_transparent(map, transparent_value, Vector2::new(field.x, y))
        invariant
            map@.wf(),
            T::obeys_eq_spec(),
            g == map@,
            t == *transparent_value,
            field.y <= y <= map@.height,
            forall|d: int| field.y <= d < y ==> !transparent_at(g, t, field.x as int, d),
        decreases map@.height - y,
    {
        y += 1;
    }
    proof {
        lemma_first_down_pinned(g, t, field.x as int, field.y as int, y as int);
    }

    Vector2::new(x - field.x, y - field.y)
}

/// The first rectangle start at or after `(fx, fy)` in row-major scan order,
/// if any.
pub open spec fn first_start_from<T: PartialEq>(
    g: GridView<T>,
    t: T,
    fx: int,
    fy: int,
) -> Option<(int, int)>
    decreases g.height - fy, g.width - fx,
{
    if fy >= g.height {
        None
    } else if fx >= g.width {
        first_start_from(g, t, 0, fy + 1)
    } else if rect_start_at(g, t, fx, fy) {
        Some((fx, fy))
    } else {
        first_start_from(g, t, fx + 1, fy)
    }
}

/// What `first_start_from` finds is a start, comes at or after the scan
/// position, and nothing before it in the scanned range is a start; when it
/// finds nothing, no start remains.
pub proof fn lemma_first_start_from_props<T: PartialEq>(g: GridView<T>, t: T, fx: int, fy: int)
    requires
        g.wf(),
        0 <= fx,
        0 <= fy,
    ensures
        match first_start_from(g, t, fx, fy) {
            Some(s) => {
                &&& rect_start_at(g, t, s.0, s.1)
                &&& 0 <= s.0 < g.width
                &&& 0 <= s.1 < g.height
                &&& !rm_before(s.0, s.1, fx, fy)
                &&& no_start_between(g, t, fx, fy, s.0, s.1)
            },
            None => forall|qx: int, qy: int|
                !rm_before(qx, qy, fx, fy) ==> !rect_start_at(g, t, qx, qy),
        },
    decreases g.height - fy, g.width - fx,
{
    if fy >= g.height {
        assert forall|qx: int, qy: int| !rm_before(qx, qy, fx, fy) implies !rect_start_at(
            g,
            t,
            qx,
            qy,
        ) by {
            assert(qy >= fy || (qy == fy && qx >= fx)) by {}
            assert(!g.in_bounds(qx, qy));
        }
    } else if fx >= g.width {
        lemma_first_start_from_props(g, t, 0, fy + 1);
        match first_start_from(g, t, 0, fy + 1) {
            Some(s) => {
                assert forall|qx: int, qy: int|
                    !rm_before(qx, qy, fx, fy) && rm_before(qx, qy, s.0, s.1) implies
                    !rect_start_at(g, t, qx, qy) by {
                    if rm_before(qx, qy, 0, fy + 1) {
                        if qy == fy + 1 {
                            assert(qx < 0);
                        } else {
                            assert(qy == fy && qx >= fx);
                        }
                        assert(!g.in_bounds(qx, qy));
                    }
                }
            },
            None => {
                assert forall|qx: int, qy: int| !rm_before(qx, qy, fx, fy) implies !rect_start_at(
                    g,
                    t,
                    qx,
                    qy,
                ) by {
                    if rm_before(qx, qy, 0, fy + 1) {
                        if qy == fy + 1 {
                            assert(qx < 0);
                        } else {
                            assert(qy == fy && qx >= fx);
                        }
                        assert(!g.in_bounds(qx, qy));
                    }
                }
            },
        }
    } else if rect_start_at(g, t, fx, fy) {
    } else {
        lemma_first_start_from_props(g, t, fx + 1, fy);
        match first_start_from(g, t, fx + 1, fy) {
            Some(s) => {
                assert forall|qx: int, qy: int|
                    !rm_before(qx, qy, fx, fy) && rm_before(qx, qy, s.0, s.1) implies
                    !rect_start_at(g, t, qx, qy) by {
                    if rm_before(qx, qy, fx + 1, fy) {
                        assert(qx == fx && qy == fy);
                    }
                }
            },
            None => {
                assert forall|qx: int, qy: int| !rm_before(qx, qy, fx, fy) implies !rect_start_at(
                    g,
                    t,
                    qx,
                    qy,
                ) by {
                    if rm_before(qx, qy, fx + 1, fy) {
                        assert(qx == fx && qy == fy);
                    }
                }
            },
        }
    }
}

/// A found start together with an emptied scan range pins `first_start_from`.
pub proof fn lemma_first_start_pinned<T: PartialEq>(
    g: GridView<T>,
    t: T,
    fx: int,
    fy: int,
    px: int,
    py: int,
)
    requires
        g.wf(),
        0 <= fx,
        0 <= fy,
        rect_start_at(g, t, px, py),
        !rm_before(px, py, fx, fy),
        no_start_between(g, t, fx, fy, px, py),
    ensures
        first_start_from(g, t, fx, fy) == Some((px, py)),
{
    lemma_first_start_from_props(g, t, fx, fy);
    match first_start_from(g, t, fx, fy) {
        Some(s) => {
            if rm_before(s.0, s.1, px, py) {
                assert(!rect_start_at(g, t, s.0, s.1));
            } else if rm_before(px, py, s.0, s.1) {
                assert(!rect_start_at(g, t, px, py));
            } else {
                assert(s.0 == px && s.1 == py);
            }
        },
        None => {
            assert(!rect_start_at(g, t, px, py));
        },
    }
}

/// The rectangles that the segment scan reports from `(fx, fy)` on, each as
/// position and size.
pub open spec fn spec_segments_from<T: PartialEq>(g: GridView<T>, t: T, fx: int, fy: int) -> Seq<
    ((int, int), (int, int)),
>
    decreases g.height - fy, g.width + 1 - fx,
    when 0 <= fx && 0 <= fy && g.wf()
    via spec_segments_from_decreases::<T>
{
    match first_start_from(g, t, fx, fy) {
        None => Seq::empty(),
        Some(s) => {
            let size = spec_rect_size(g, t, s.0, s.1);
            seq![(s, size)] + spec_segments_from(g, t, s.0 + size.0, s.1)
        },
    }
}

#[via_fn]
proof fn spec_segments_from_decreases<T: PartialEq>(g: GridView<T>, t: T, fx: int, fy: int) {
    match first_start_from(g, t, fx, fy) {
        None => {},
        Some(s) => {
            lemma_first_start_from_props(g, t, fx, fy);
            lemma_first_right_bounds(g, t, s.0, s.1);
        },
    }
}

/// Every reported segment starts at an in-bounds rectangle start and fits
/// inside the grid, with both side lengths at least one.
pub proof fn lemma_segments_props<T: PartialEq>(g: GridView<T>, t: T, fx: int, fy: int)
    requires
        g.wf(),
        0 <= fx,
        0 <= fy,
    ensures
        forall|i: int|
            0 <= i < spec_segments_from(g, t, fx, fy).len() ==> {
                let seg = #[trigger] spec_segments_from(g, t, fx, fy)[i];
                &&& rect_start_at(g, t, seg.0.0, seg.0.1)
                &&& 0 <= seg.0.0 < g.width
                &&& 0 <= seg.0.1 < g.height
                &&& 1 <= seg.1.0 && seg.0.0 + seg.1.0 <= g.width
                &&& 1 <= seg.1.1 && seg.0.1 + seg.1.1 <= g.height
            },
    decreases g.height - fy, g.width + 1 - fx,
{
    let segs = spec_segments_from(g, t, fx, fy);
    match first_start_from(g, t, fx, fy) {
        None => {},
        Some(s) => {
            lemma_first_start_from_props(g, t, fx, fy);
            lemma_first_right_bounds(g, t, s.0, s.1);
            lemma_first_down_bounds(g, t, s.0, s.1);
            let size = spec_rect_size(g, t, s.0, s.1);
            lemma_segments_props(g, t, s.0 + size.0, s.1);
            let rest = spec_segments_from(g, t, s.0 + size.0, s.1);
            assert forall|i: int| 0 <= i < segs.len() implies {
                let seg = #[trigger] segs[i];
                &&& rect_start_at(g, t, seg.0.0, seg.0.1)
                &&& 0 <= seg.0.0 < g.width
                &&& 0 <= seg.0.1 < g.height
                &&& 1 <= seg.1.0 && seg.0.0 + seg.1.0 <= g.width
                &&& 1 <= seg.1.1 && seg.0.1 + seg.1.1 <= g.height
            } by {
                if i == 0 {
                    assert(segs[0] == (s, size));
                } else {
                    assert(segs[i] == rest[i - 1]);
                }
            }
        },
    }
}

/// Returns a vector of rectangles in the given grid separated by transparent
/// cells, in row-major discovery order.
pub fn extract_segments<T: PartialEq>(map: &Grid<T>, transparent_value: &T) -> (r: Vec<Rect2u>)
    requires
        map@.wf(),
        T::obeys_eq_spec(),
    ensures
        ({
            let segs = spec_segments_from(map@, *transparent_value, 0, 0);
            &&& r@.len() == segs.len()
            &&& forall|i: int|
                0 <= i < segs.len() ==> crate::rect2_utils::rect_is(
                    #[trigger] r@[i],
                    segs[i].0.0,
                    segs[i].0.1,
                    segs[i].1.0,
                    segs[i].1.1,
                )
        }),
{
    let ghost g = map@;
    let ghost t = *transparent_value;
    let ghost full = spec_segments_from(g, t, 0, 0);

    let mut result: Vec<Rect2u> = Vec::new();
    let mut it = Vector2::new(0u32, 0u32);
    loop
        invariant
            map@.wf(),
            T::obeys_eq_spec(),
            g == map@,
            t == *transparent_value,
            full == spec_segments_from(g, t, 0, 0),
            0 <= it.x <= map@.width,
            spec_segments_from(g, t, it.x as int, it.y as int) == full.skip(result@.len() as int),
            result@.len() <= full.len(),
            forall|i: int|
                0 <= i < result@.len() ==> crate::rect2_utils::rect_is(
                    #[trigger] result@[i],
                    full[i].0.0,
                    full[i].0.1,
                    full[i].1.0,
                    full[i].1.1,
                ),
        ensures
            result@.len() == full.len(),
            forall|i: int|
                0 <= i < result@.len() ==> crate::rect2_utils::rect_is(
                    #[trigger] result@[i],
                    full[i].0.0,
                    full[i].0.1,
                    full[i].1.0,
                    full[i].1.1,
                ),
        decreases map@.height - it.y, map@.width + 1 - it.x,
    {
        let ghost remaining = spec_segments_from(g, t, it.x as int, it.y as int);
        match find_rect_start(map, transparent_value, it) {
            Err(_) => {
                proof {
                    lemma_first_start_from_props(g, t, it.x as int, it.y as int);
                    if first_start_from(g, t, it.x as int, it.y as int) is Some {
                        let s = first_start_from(g, t, it.x as int, it.y as int)->Some_0;
                        assert(!rect_start_at(g, t, s.0, s.1));
                    }
                    assert(remaining =~= Seq::empty());
                    assert(result@.len() == full.len());
                }
                break ;
            },
            Ok(rect_start) => {
                proof {
                    lemma_first_start_pinned(
                        g,
                        t,
                        it.x as int,
                        it.y as int,
                        rect_start.x as int,
                        rect_start.y as int,
                    );
                    lemma_first_right_bounds(g, t, rect_start.x as int, rect_start.y as int);
                    lemma_first_down_bounds(g, t, rect_start.x as int, rect_start.y as int);
                }
                it = rect_start;
                let rect_size = find_rect_size(map, transparent_value, it);
                match Rect2u::new(it, rect_size) {
                    Ok(rect) => {
                        result.push(rect);
                    },
                    Err(_) => {
                        proof {
                            assert(false);
                        }
                    },
                }
                proof {
                    assert(remaining[0] == (
                        (it.x as int, it.y as int),
                        (rect_size.x as int, rect_size.y as int),
                    ));
                    assert(remaining.skip(1) == spec_segments_from(
                        g,
                        t,
                        it.x + rect_size.x,
                        it.y as int,
                    ));
                    assert(full.skip(result@.len() as int) =~= remaining.skip(1));
                }
                it.x += rect_size.x;
            },
        }
    }
    result
}

/// The region holds the cell.
pub open spec fn seg_contains(seg: ((int, int), (int, int)), cx: int, cy: int) -> bool {
    seg.0.0 <= cx < seg.0.0 + seg.1.0 && seg.0.1 <= cy < seg.0.1 + seg.1.1
}

/// Some listed region holds the cell.
pub open spec fn spec_covered(rects: Seq<((int, int), (int, int))>, cx: int, cy: int) -> bool {
    exists|i: int| 0 <= i < rects.len() && #[trigger] seg_contains(rects[i], cx, cy)
}

/// Every listed region lies inside the grid and spans at least one cell on
/// each axis.
pub open spec fn spec_rects_in_grid<T>(g: GridView<T>, rects: Seq<((int, int), (int, int))>) -> bool {
    forall|i: int|
        0 <= i < rects.len() ==> {
            let seg = #[trigger] rects[i];
            &&& 0 <= seg.0.0
            &&& 0 <= seg.0.1
            &&& 1 <= seg.1.0 && seg.0.0 + seg.1.0 <= g.width
            &&& 1 <= seg.1.1 && seg.0.1 + seg.1.1 <= g.height
        }
}

/// Any two listed regions are separated by at least one cell of gap on some
/// axis.
pub open spec fn spec_rects_separated(rects: Seq<((int, int), (int, int))>) -> bool {
    forall|i: int, j: int|
        0 <= i < rects.len() && 0 <= j < rects.len() && i != j ==> {
            let a = #[trigger] rects[i];
            let b = #[trigger] rects[j];
            ||| a.0.0 + a.1.0 < b.0.0
            ||| b.0.0 + b.1.0 < a.0.0
            ||| a.0.1 + a.1.1 < b.0.1
            ||| b.0.1 + b.1.1 < a.0.1
        }
}

/// The grid paints exactly the listed regions: a cell differs from the
/// transparent sentinel precisely when a region holds it.
pub open spec fn spec_rects_paint<T: PartialEq>(
    g: GridView<T>,
    t: T,
    rects: Seq<((int, int), (int, int))>,
) -> bool {
    forall|cx: int, cy: int|
        g.in_bounds(cx, cy) ==> ((!(#[trigger] g.at(cx, cy)).eq_spec(&t)) <==> spec_covered(
            rects,
            cx,
            cy,
        ))
}

/// The regions are listed in strict row-major order of their corners.
pub open spec fn spec_rects_sorted(rects: Seq<((int, int), (int, int))>) -> bool {
    forall|i: int, j: int|
        0 <= i < j < rects.len() ==> rm_before(
            (#[trigger] rects[i]).0.0,
            rects[i].0.1,
            (#[trigger] rects[j]).0.0,
            rects[j].0.1,
        )
}

/// A cell bordering one region on any side belongs to no region.
proof fn lemma_adjacent_not_covered(
    rects: Seq<((int, int), (int, int))>,
    i: int,
    cx: int,
    cy: int,
)
    requires
        spec_rects_separated(rects),
        forall|m: int| 0 <= m < rects.len() ==> (#[trigger] rects[m]).1.0 >= 1 && rects[m].1.1 >= 1,
        0 <= i < rects.len(),
        ((cx == rects[i].0.0 - 1 || cx == rects[i].0.0 + rects[i].1.0) && rects[i].0.1 <= cy
            < rects[i].0.1 + rects[i].1.1) || ((cy == rects[i].0.1 - 1 || cy == rects[i].0.1
            + rects[i].1.1) && rects[i].0.0 <= cx < rects[i].0.0 + rects[i].1.0),
    ensures
        !spec_covered(rects, cx, cy),
{
    if spec_covered(rects, cx, cy) {
        let j = choose|j: int| 0 <= j < rects.len() && #[trigger] seg_contains(rects[j], cx, cy);
        assert(!seg_contains(rects[i], cx, cy));
        assert(j != i);
        let a = rects[i];
        let b = rects[j];
        assert(a.0.0 + a.1.0 < b.0.0 || b.0.0 + b.1.0 < a.0.0 || a.0.1 + a.1.1 < b.0.1 || b.0.1
            + b.1.1 < a.0.1);
        assert(false);
    }
}

/// A cell of a painted grid is transparent exactly when no region holds it.
proof fn lemma_painted_transparent<T: PartialEq>(
    g: GridView<T>,
    t: T,
    rects: Seq<((int, int), (int, int))>,
    cx: int,
    cy: int,
)
    requires
        spec_rects_paint(g, t, rects),
        spec_rects_in_grid(g, rects),
    ensures
        transparent_at(g, t, cx, cy) <==> !spec_covered(rects, cx, cy),
{
    if !g.in_bounds(cx, cy) {
        if spec_covered(rects, cx, cy) {
            let j = choose|j: int|
                0 <= j < rects.len() && #[trigger] seg_contains(rects[j], cx, cy);
            assert(g.in_bounds(cx, cy));
        }
    }
}

/// Over a painted grid, the rectangle starts are exactly the region corners.
proof fn lemma_start_iff_corner<T: PartialEq>(
    g: GridView<T>,
    t: T,
    rects: Seq<((int, int), (int, int))>,
    cx: int,
    cy: int,
)
    requires
        spec_rects_paint(g, t, rects),
        spec_rects_in_grid(g, rects),
        spec_rects_separated(rects),
    ensures
        rect_start_at(g, t, cx, cy) <==> exists|i: int|
            0 <= i < rects.len() && (#[trigger] rects[i]).0 == (cx, cy),
{
    lemma_painted_transparent(g, t, rects, cx, cy);
    lemma_painted_transparent(g, t, rects, cx - 1, cy);
    lemma_painted_transparent(g, t, rects, cx, cy - 1);
    if rect_start_at(g, t, cx, cy) {
        let i = choose|i: int| 0 <= i < rects.len() && #[trigger] seg_contains(rects[i], cx, cy);
        if cx > rects[i].0.0 {
            assert(seg_contains(rects[i], cx - 1, cy));
            assert(false);
        }
        if cy > rects[i].0.1 {
            assert(seg_contains(rects[i], cx, cy - 1));
            assert(false);
        }
        assert(rects[i].0 == (cx, cy));
    }
    if exists|i: int| 0 <= i < rects.len() && (#[trigger] rects[i]).0 == (cx, cy) {
        let i = choose|i: int| 0 <= i < rects.len() && (#[trigger] rects[i]).0 == (cx, cy);
        assert(seg_contains(rects[i], cx, cy));
        assert(spec_covered(rects, cx, cy)) by {
            assert(0 <= i < rects.len() && seg_contains(rects[i], cx, cy));
        }
        if spec_covered(rects, cx - 1, cy) {
            lemma_adjacent_not_covered(rects, i, cx - 1, cy);
        }
        if spec_covered(rects, cx, cy - 1) {
            lemma_adjacent_not_covered(rects, i, cx, cy - 1);
        }
        assert(rect_start_at(g, t, cx, cy));
    }
}

/// The scan of a painted grid reads off a region's exact size at its corner.
proof fn lemma_size_at_corner<T: PartialEq>(
    g: GridView<T>,
    t: T,
    rects: Seq<((int, int), (int, int))>,
    i: int,
)
    requires
        g.wf(),
        spec_rects_paint(g, t, rects),
        spec_rects_in_grid(g, rects),
        spec_rects_separated(rects),
        0 <= i < rects.len(),
    ensures
        spec_rect_size(g, t, rects[i].0.0, rects[i].0.1) == rects[i].1,
{
    let x0 = rects[i].0.0;
    let y0 = rects[i].0.1;
    let w = rects[i].1.0;
    let h = rects[i].1.1;
    assert forall|d: int| x0 <= d < x0 + w implies !transparent_at(g, t, d, y0) by {
        lemma_painted_transparent(g, t, rects, d, y0);
        assert(seg_contains(rects[i], d, y0));
    }
    lemma_painted_transparent(g, t, rects, x0 + w, y0);
    lemma_adjacent_not_covered(rects, i, x0 + w, y0);
    lemma_first_right_pinned(g, t, x0, y0, x0 + w);
    assert forall|d: int| y0 <= d < y0 + h implies !transparent_at(g, t, x0, d) by {
        lemma_painted_transparent(g, t, rects, x0, d);
        assert(seg_contains(rects[i], x0, d));
    }
    lemma_painted_transparent(g, t, rects, x0, y0 + h);
    lemma_adjacent_not_covered(rects, i, x0, y0 + h);
    lemma_first_down_pinned(g, t, x0, y0, y0 + h);
    lemma_painted_transparent(g, t, rects, x0, y0);
    assert(seg_contains(rects[i], x0, y0));
}

/// The scan position from which region `k` is the next to be found: the
/// start of the grid, or just right of the previous region's corner row.
pub open spec fn spec_resume_pos(rects: Seq<((int, int), (int, int))>, k: int) -> (int, int) {
    if k == 0 {
        (0, 0)
    } else {
        (rects[k - 1].0.0 + rects[k - 1].1.0, rects[k - 1].0.1)
    }
}

/// From the `k`-th resume position on, the scan reports exactly the regions
/// from `k` on.
proof fn lemma_round_trip_from<T: PartialEq>(
    g: GridView<T>,
    t: T,
    rects: Seq<((int, int), (int, int))>,
    k: int,
)
    requires
        g.wf(),
        spec_rects_paint(g, t, rects),
        spec_rects_in_grid(g, rects),
        spec_rects_separated(rects),
        spec_rects_sorted(rects),
        0 <= k <= rects.len(),
    ensures
        spec_segments_from(g, t, spec_resume_pos(rects, k).0, spec_resume_pos(rects, k).1)
            =~= rects.skip(k),
    decreases rects.len() - k,
{
    let pos = spec_resume_pos(rects, k);
    let fx = pos.0;
    let fy = pos.1;
    assert(0 <= fx && 0 <= fy);
    // No start lies at or after the resume position but before corner k,
    // and for k == rects.len() no start lies at or after it at all.
    assert forall|qx: int, qy: int|
        !rm_before(qx, qy, fx, fy) && rect_start_at(g, t, qx, qy) implies exists|j: int|
        k <= j < rects.len() && (#[trigger] rects[j]).0 == (qx, qy) by {
        lemma_start_iff_corner(g, t, rects, qx, qy);
        let j = choose|j: int| 0 <= j < rects.len() && (#[trigger] rects[j]).0 == (qx, qy);
        if j < k {
            if j < k - 1 {
                assert(rm_before(rects[j].0.0, rects[j].0.1, rects[k - 1].0.0, rects[k - 1].0.1));
            }
            assert(rm_before(qx, qy, fx, fy));
        }
        assert(k <= j < rects.len() && rects[j].0 == (qx, qy));
    }
    if k == rects.len() {
        lemma_first_start_from_props(g, t, fx, fy);
        match first_start_from(g, t, fx, fy) {
            Some(s) => {
                assert(rect_start_at(g, t, s.0, s.1));
                assert(false);
            },
            None => {},
        }
        assert(spec_segments_from(g, t, fx, fy) =~= rects.skip(k));
    } else {
        let cx = rects[k].0.0;
        let cy = rects[k].0.1;
        // Corner k is a start at or after the resume position.
        lemma_start_iff_corner(g, t, rects, cx, cy);
        assert(rect_start_at(g, t, cx, cy)) by {
            assert(0 <= k < rects.len() && rects[k].0 == (cx, cy));
        }
        assert(!rm_before(cx, cy, fx, fy)) by {
            if k > 0 {
                assert(rm_before(rects[k - 1].0.0, rects[k - 1].0.1, cx, cy));
                if cy == rects[k - 1].0.1 {
                    let a = rects[k - 1];
                    let b = rects[k];
                    assert(a.0.0 + a.1.0 < b.0.0 || b.0.0 + b.1.0 < a.0.0 || a.0.1 + a.1.1 < b.0.1
                        || b.0.1 + b.1.1 < a.0.1);
                }
            }
        }
        // Nothing between the resume position and corner k is a start.
        assert forall|qx: int, qy: int|
            !rm_before(qx, qy, fx, fy) && rm_before(qx, qy, cx, cy) implies !rect_start_at(
            g,
            t,
            qx,
            qy,
        ) by {
            if rect_start_at(g, t, qx, qy) {
                let j = choose|j: int|
                    k <= j < rects.len() && (#[trigger] rects[j]).0 == (qx, qy);
                if j > k {
                    assert(rm_before(cx, cy, qx, qy));
                }
                assert(false);
            }
        }
        lemma_first_start_pinned(g, t, fx, fy, cx, cy);
        lemma_size_at_corner(g, t, rects, k);
        lemma_round_trip_from(g, t, rects, k + 1);
        let rest = spec_segments_from(
            g,
            t,
            spec_resume_pos(rects, k + 1).0,
            spec_resume_pos(rects, k + 1).1,
        );
        assert(spec_segments_from(g, t, fx, fy) == seq![(rects[k].0, rects[k].1)] + rest);
        assert forall|m: int| 0 <= m < rects.len() - k implies spec_segments_from(g, t, fx, fy)[m]
            == rects.skip(k)[m] by {
            if m == 0 {
                assert(spec_segments_from(g, t, fx, fy)[0] == (rects[k].0, rects[k].1));
                assert(rects.skip(k)[0] == rects[k]);
            } else {
                assert(spec_segments_from(g, t, fx, fy)[m] == rest[m - 1]);
                assert(rest =~= rects.skip(k + 1));
                assert(rects.skip(k + 1)[m - 1] == rects.skip(k)[m]);
            }
        }
        assert(spec_segments_from(g, t, fx, fy).len() == 1 + rest.len());
    }
}

/// The segmenter round trip: when a grid is painted by disjoint solid
/// rectangles, each at least one cell wide and high, separated from one
/// another by at least one transparent cell of gap on some axis, listed in
/// row-major order of their corners over an otherwise transparent
/// background, then the segment scan recovers exactly those rectangles, in
/// that order.
pub proof fn lemma_segmenter_round_trip<T: PartialEq>(
    g: GridView<T>,
    t: T,
    rects: Seq<((int, int), (int, int))>,
)
    requires
        g.wf(),
        spec_rects_paint(g, t, rects),
        spec_rects_in_grid(g, rects),
        spec_rects_separated(rects),
        spec_rects_sorted(rects),
    ensures
        spec_segments_from(g, t, 0, 0) == rects,
{
    lemma_round_trip_from(g, t, rects, 0);
    assert(rects.skip(0) =~= rects);
}

} // verus!
