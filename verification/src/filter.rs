use vstd::prelude::*;
use vstd::std_specs::cmp::PartialEqSpec;

use crate::grid::{Grid, GridView};
use crate::sampler::{spec_draw, spec_next_state, spec_state_after, Sampler};
use crate::tisu_error::TisuError;
use crate::vector2::{Vector2, Vector2u};

verus! {

/// Scale of the fixed-point probability: this value stands for certainty,
/// zero for impossibility.
pub const PROBABILITY_ONE: u32 = 1_000_000;

/// Filter property that defines where the filter will be applied (source or
/// destination)
#[derive(Clone, Copy, PartialEq, Eq, Structural, Debug, Default)]
pub enum PatternMatching {
    #[default]
    Source,
    Destination,
}

/// Filter properties.
#[derive(Clone, Copy, PartialEq, Eq, Structural, Debug)]
pub struct FilterProperties {
    /// Chance of the filter being applied on each pattern match, as a
    /// fixed-point fraction with denominator `PROBABILITY_ONE`. Zero means
    /// the filter never applies; `PROBABILITY_ONE` or more means it always
    /// does.
    pub probability: u32,
    /// Defines where the filter will be applied (source or destination).
    pub pattern_matching: PatternMatching,
    /// If true, the filter will be applied only once per cell. Once a filter
    /// has been applied to a cell, that cell will not take part in any
    /// further pattern matches of the same pass.
    pub only_once: bool,
    /// If true, consumers of authored filter layers leave this one unused.
    pub ignore: bool,
}

impl Default for FilterProperties {
    fn default() -> (r: Self)
        ensures
            r == (FilterProperties {
                probability: PROBABILITY_ONE,
                pattern_matching: PatternMatching::Source,
                only_once: false,
                ignore: false,
            }),
    {
        Self {
            probability: PROBABILITY_ONE,
            pattern_matching: PatternMatching::Source,
            only_once: false,
            ignore: false,
        }
    }
}

/// The mathematical model of a filter: its pattern and substitute grids, its
/// wildcard value and its properties.
pub struct FilterView<T> {
    pub pattern: GridView<T>,
    pub substitute: GridView<T>,
    pub wildcard: T,
    pub properties: FilterProperties,
}

impl<T> FilterView<T> {
    /// Well-formedness: both grids are well formed and share one size.
    pub open spec fn wf(self) -> bool {
        &&& self.pattern.wf()
        &&& self.substitute.wf()
        &&& self.pattern.width == self.substitute.width
        &&& self.pattern.height == self.substitute.height
    }
}

/// One pattern cell accepts one input cell: the two are equal, or the pattern
/// cell equals the wildcard.
pub open spec fn spec_fields_match<T: PartialEq>(input_field: T, pattern_field: T, wildcard: T) -> bool {
    input_field.eq_spec(&pattern_field) || pattern_field.eq_spec(&wildcard)
}

/// Whether the application mask marks the cell as already substituted. Cells
/// outside the mask, and every cell when there is no mask, count as untouched.
pub open spec fn spec_already_applied(mask: Option<GridView<bool>>, x: int, y: int) -> bool {
    match mask {
        Some(m) => m.in_bounds(x, y) && m.at(x, y),
        None => false,
    }
}

/// The view of an optional application mask.
pub open spec fn view_opt(mask: Option<Grid<bool>>) -> Option<GridView<bool>> {
    match mask {
        Some(m) => Some(m@),
        None => None,
    }
}

/// An optional application mask is well formed when the grid it holds is.
pub open spec fn mask_wf(mask: Option<GridView<bool>>) -> bool {
    match mask {
        Some(m) => m.wf(),
        None => true,
    }
}

/// One pattern cell passes at one anchor position: the input cell it
/// addresses is in bounds, unmarked by the mask, and accepted by the pattern
/// cell.
pub open spec fn spec_cell_ok<T: PartialEq>(
    fv: FilterView<T>,
    input: GridView<T>,
    mask: Option<GridView<bool>>,
    ax: int,
    ay: int,
    px: int,
    py: int,
) -> bool {
    &&& !spec_already_applied(mask, ax + px, ay + py)
    &&& input.in_bounds(ax + px, ay + py)
    &&& spec_fields_match(input.at(ax + px, ay + py), fv.pattern.at(px, py), fv.wildcard)
}

/// The deterministic pattern test at one anchor position: every pattern cell
/// must address an input cell that the mask has not marked and whose value
/// the pattern cell accepts.
pub open spec fn spec_pattern_matches_at<T: PartialEq>(
    fv: FilterView<T>,
    input: GridView<T>,
    mask: Option<GridView<bool>>,
    ax: int,
    ay: int,
) -> bool {
    forall|px: int, py: int|
        0 <= px < fv.pattern.width && 0 <= py < fv.pattern.height ==> #[trigger] spec_cell_ok(
            fv,
            input,
            mask,
            ax,
            ay,
            px,
            py,
        )
}

/// Grid filter: pattern, substitute, wildcard and properties.
#[derive(Clone, PartialEq, Debug)]
pub struct Filter<T> {
    /// Defines to which cells the substitute will be applied to.
    pattern: Grid<T>,
    /// Applied to cells that match the filter pattern.
    substitute: Grid<T>,
    /// Cell value that represents a wildcard, which can affect pattern
    /// matching and substitute application.
    wildcard: T,
    /// Filter properties that can affect pattern matching or substitute
    /// application.
    properties: FilterProperties,
}

impl<T> View for Filter<T> {
    type V = FilterView<T>;

    closed spec fn view(&self) -> FilterView<T> {
        FilterView {
            pattern: self.pattern@,
            substitute: self.substitute@,
            wildcard: self.wildcard,
            properties: self.properties,
        }
    }
}

impl<T> Filter<T> {
    /// Creates a filter with the given pattern grid, substitute grid and
    /// wildcard value.
    ///
    /// # Errors
    ///
    /// Returns an error if the given pattern and substitute don't have equal
    /// sizes.
    pub fn new(pattern: Grid<T>, substitute: Grid<T>, wildcard: T) -> (r: Result<Self, TisuError>)
        requires
            pattern@.wf(),
            substitute@.wf(),
        ensures
            (pattern@.width != substitute@.width || pattern@.height != substitute@.height) <==> r
                is Err,
            r is Err ==> r == Err::<Self, TisuError>(TisuError::InvalidMapSize),
            r matches Ok(f) ==> f@ == (FilterView {
                pattern: pattern@,
                substitute: substitute@,
                wildcard: wildcard,
                properties: FilterProperties {
                    probability: PROBABILITY_ONE,
                    pattern_matching: PatternMatching::Source,
                    only_once: false,
                    ignore: false,
                },
            }) && f@.wf(),
    {
        if pattern.size() != substitute.size() {
            Err(TisuError::InvalidMapSize)
        } else {
            Ok(
                Self {
                    pattern,
                    substitute,
                    wildcard,
                    properties: FilterProperties::default(),
                },
            )
        }
    }

    /// Creates a filter with the given pattern grid, substitute grid,
    /// wildcard value and filter properties.
    ///
    /// # Errors
    ///
    /// Returns an error if the given pattern and substitute don't have equal
    /// sizes.
    pub fn new_with_properties(
        pattern: Grid<T>,
        substitute: Grid<T>,
        wildcard: T,
        properties: FilterProperties,
    ) -> (r: Result<Self, TisuError>)
        requires
            pattern@.wf(),
            substitute@.wf(),
        ensures
            (pattern@.width != substitute@.width || pattern@.height != substitute@.height) <==> r
                is Err,
            r is Err ==> r == Err::<Self, TisuError>(TisuError::InvalidMapSize),
            r matches Ok(f) ==> f@ == (FilterView {
                pattern: pattern@,
                substitute: substitute@,
                wildcard: wildcard,
                properties: properties,
            }) && f@.wf(),
    {
        if pattern.size() != substitute.size() {
            Err(TisuError::InvalidMapSize)
        } else {
            Ok(Self { pattern, substitute, wildcard, properties })
        }
    }

    /// Returns the filter pattern grid.
    pub fn pattern(&self) -> (r: &Grid<T>)
        ensures
            r@ == self@.pattern,
    {
        &self.pattern
    }

    /// Returns the filter substitute grid.
    pub fn substitute(&self) -> (r: &Grid<T>)
        ensures
            r@ == self@.substitute,
    {
        &self.substitute
    }
}

impl<T: PartialEq> Filter<T> {
    /// Decides whether one input cell satisfies one pattern cell.
    fn fields_match(&self, input_field: &T, pattern_field: &T) -> (r: bool)
        requires
            T::obeys_eq_spec(),
        ensures
            r == spec_fields_match(*input_field, *pattern_field, self@.wildcard),
    {
        input_field == pattern_field || pattern_field == &self.wildcard
    }

    /// Reads the application mask, treating absent cells as untouched.
    fn already_applied(application_map: &Option<Grid<bool>>, point: Vector2u) -> (r: bool)
        requires
            mask_wf(view_opt(*application_map)),
        ensures
            r == spec_already_applied(view_opt(*application_map), point.x as int, point.y as int),
    {
        match application_map {
            None => false,
            Some(application_map) => match application_map.get(point) {
                Err(_) => false,
                Ok(already_applied) => *already_applied,
            },
        }
    }

    /// The deterministic pattern test: no probability draw, every cell of the
    /// pattern checked against the input and the mask.
    fn cells_match(
        &self,
        input: &Grid<T>,
        position: Vector2u,
        application_map: &Option<Grid<bool>>,
    ) -> (r: bool)
        requires
            self@.wf(),
            input@.wf(),
            T::obeys_eq_spec(),
            mask_wf(view_opt(*application_map)),
            position.x + self@.pattern.width <= u32::MAX,
            position.y + self@.pattern.height <= u32::MAX,
        ensures
            r == spec_pattern_matches_at(
                self@,
                input@,
                view_opt(*application_map),
                position.x as int,
                position.y as int,
            ),
    {
        let ghost fv = self@;
        let ghost mask = view_opt(*application_map);
        let pw = self.pattern.size().x;
        let ph = self.pattern.size().y;
        let mut x: u32 = 0;
        while x < pw
            invariant
                0 <= x <= pw,
                self@.wf(),
                input@.wf(),
                T::obeys_eq_spec(),
                fv == self@,
                mask == view_opt(*application_map),
                mask_wf(mask),
                pw == self@.pattern.width,
                ph == self@.pattern.height,
                position.x + pw <= u32::MAX,
                position.y + ph <= u32::MAX,
                forall|px: int, py: int|
                    0 <= px < x && 0 <= py < ph ==> #[trigger] spec_cell_ok(
                        fv,
                        input@,
                        mask,
                        position.x as int,
                        position.y as int,
                        px,
                        py,
                    ),
            decreases pw - x,
        {
            let mut y: u32 = 0;
            while y < ph
                invariant
                    0 <= x < pw,
                    0 <= y <= ph,
                    self@.wf(),
                    input@.wf(),
                    T::obeys_eq_spec(),
                    fv == self@,
                    mask == view_opt(*application_map),
                    mask_wf(mask),
                    pw == self@.pattern.width,
                    ph == self@.pattern.height,
                    position.x + pw <= u32::MAX,
                    position.y + ph <= u32::MAX,
                    forall|px: int, py: int|
                        0 <= px < x && 0 <= py < ph ==> #[trigger] spec_cell_ok(
                            fv,
                            input@,
                            mask,
                            position.x as int,
                            position.y as int,
                            px,
                            py,
                        ),
                    forall|py: int|
                        0 <= py < y ==> #[trigger] spec_cell_ok(
                            fv,
                            input@,
                            mask,
                            position.x as int,
                            position.y as int,
                            x as int,
                            py,
                        ),
                decreases ph - y,
            {
                let point = Vector2::new(position.x + x, position.y + y);
                if Self::already_applied(application_map, point) {
                    proof {
                        assert(!spec_cell_ok(
                            fv,
                            input@,
                            mask,
                            position.x as int,
                            position.y as int,
                            x as int,
                            y as int,
                        ));
                    }
                    return false;
                }
                if point.x >= input.size().x || point.y >= input.size().y {
                    proof {
                        assert(!spec_cell_ok(
                            fv,
                            input@,
                            mask,
                            position.x as int,
                            position.y as int,
                            x as int,
                            y as int,
                        ));
                    }
                    return false;
                }
                let input_field = input.cell(point.x, point.y);
                let pattern_field = self.pattern.cell(x, y);
                if !self.fields_match(input_field, pattern_field) {
                    proof {
                        assert(!spec_cell_ok(
                            fv,
                            input@,
                            mask,
                            position.x as int,
                            position.y as int,
                            x as int,
                            y as int,
                        ));
                    }
                    return false;
                }
                proof {
                    assert(spec_cell_ok(
                        fv,
                        input@,
                        mask,
                        position.x as int,
                        position.y as int,
                        x as int,
                        y as int,
                    ));
                }
                y += 1;
            }
            proof {
                assert forall|px: int, py: int| 0 <= px < x + 1 && 0 <= py < ph implies #[trigger] spec_cell_ok(
                    fv,
                    input@,
                    mask,
                    position.x as int,
                    position.y as int,
                    px,
                    py,
                ) by {}
            }
            x += 1;
        }
        true
    }

    /// Checks if the filter pattern matches at the given position in the
    /// given input grid. A probability draw below the filter's probability is
    /// part of the test: with probability zero the test never passes, with
    /// `PROBABILITY_ONE` or more the outcome is the plain pattern test.
    pub fn pattern_matches(&self, input: &Grid<T>, position: Vector2u) -> (r: bool)
        requires
            self@.wf(),
            input@.wf(),
            T::obeys_eq_spec(),
            position.x + self@.pattern.width <= u32::MAX,
            position.y + self@.pattern.height <= u32::MAX,
        ensures
            r ==> spec_pattern_matches_at(
                self@,
                input@,
                None,
                position.x as int,
                position.y as int,
            ),
            self@.properties.probability >= PROBABILITY_ONE ==> r == spec_pattern_matches_at(
                self@,
                input@,
                None,
                position.x as int,
                position.y as int,
            ),
            self@.properties.probability == 0 ==> !r,
    {
        let no_mask: Option<Grid<bool>> = None;
        let mut sampler = Sampler::from_entropy();
        self.pattern_matches_masked(input, position, &no_mask, &mut sampler)
    }

    /// The pattern test with the probability draw taken from the given
    /// sampler: the sampler advances by one draw, and the test passes
    /// exactly when that draw lies below the filter's probability and every
    /// pattern cell accepts the input cell at its offset.
    pub fn pattern_matches_with_sampler(
        &self,
        input: &Grid<T>,
        position: Vector2u,
        sampler: &mut Sampler,
    ) -> (r: bool)
        requires
            self@.wf(),
            input@.wf(),
            T::obeys_eq_spec(),
            position.x + self@.pattern.width <= u32::MAX,
            position.y + self@.pattern.height <= u32::MAX,
        ensures
            final(sampler).spec_state() == spec_next_state(old(sampler).spec_state()),
            r == ((spec_draw(old(sampler).spec_state(), PROBABILITY_ONE as u64)
                < self@.properties.probability as u64) && spec_pattern_matches_at(
                self@,
                input@,
                None,
                position.x as int,
                position.y as int,
            )),
    {
        let no_mask: Option<Grid<bool>> = None;
        self.pattern_matches_masked(input, position, &no_mask, sampler)
    }

    /// The pattern test with an optional application mask, probability draw
    /// included: the sampler advances by one draw, and the test passes
    /// exactly when that draw lies below the probability and every pattern
    /// cell accepts its input cell.
    fn pattern_matches_masked(
        &self,
        input: &Grid<T>,
        position: Vector2u,
        application_map: &Option<Grid<bool>>,
        sampler: &mut Sampler,
    ) -> (r: bool)
        requires
            self@.wf(),
            input@.wf(),
            T::obeys_eq_spec(),
            mask_wf(view_opt(*application_map)),
            position.x + self@.pattern.width <= u32::MAX,
            position.y + self@.pattern.height <= u32::MAX,
        ensures
            final(sampler).spec_state() == spec_next_state(old(sampler).spec_state()),
            r == ((spec_draw(old(sampler).spec_state(), PROBABILITY_ONE as u64)
                < self@.properties.probability as u64) && spec_pattern_matches_at(
                self@,
                input@,
                view_opt(*application_map),
                position.x as int,
                position.y as int,
            )),
    {
        let sample = sampler.next_below(PROBABILITY_ONE);
        if sample >= self.properties.probability {
            return false;
        }
        self.cells_match(input, position, application_map)
    }
}

/// The value a destination cell holds after one substitution at anchor
/// `(ax, ay)`: the substitute cell for its offset, unless that cell is the
/// wildcard or the offset lies outside the substitute window.
pub open spec fn spec_sub_cell_value<T: PartialEq>(
    fv: FilterView<T>,
    dest: GridView<T>,
    ax: int,
    ay: int,
    x: int,
    y: int,
) -> T {
    if ax <= x < ax + fv.substitute.width && ay <= y < ay + fv.substitute.height && !fv.substitute.at(
        x - ax,
        y - ay,
    ).eq_spec(&fv.wildcard) {
        fv.substitute.at(x - ax, y - ay)
    } else {
        dest.at(x, y)
    }
}

/// The destination grid after one substitution at anchor `(ax, ay)`.
pub open spec fn spec_substituted<T: PartialEq>(
    fv: FilterView<T>,
    dest: GridView<T>,
    ax: int,
    ay: int,
) -> GridView<T> {
    GridView {
        width: dest.width,
        height: dest.height,
        cells: Seq::new(
            dest.cells.len(),
            |i: int| spec_sub_cell_value(fv, dest, ax, ay, i % dest.width, i / dest.width),
        ),
    }
}

/// The application mask after one substitution at anchor `(ax, ay)`: every
/// cell of the substitute window that lies inside the mask is marked.
pub open spec fn spec_marked<T: PartialEq>(
    fv: FilterView<T>,
    mask: GridView<bool>,
    ax: int,
    ay: int,
) -> GridView<bool> {
    GridView {
        width: mask.width,
        height: mask.height,
        cells: Seq::new(
            mask.cells.len(),
            |i: int| if ax <= i % mask.width < ax + fv.substitute.width && ay <= i / mask.width < ay
                + fv.substitute.height {
                true
            } else {
                mask.cells[i]
            },
        ),
    }
}

/// `spec_marked` lifted to an optional mask.
pub open spec fn spec_marked_opt<T: PartialEq>(
    fv: FilterView<T>,
    mask: Option<GridView<bool>>,
    ax: int,
    ay: int,
) -> Option<GridView<bool>> {
    match mask {
        None => None,
        Some(m) => Some(spec_marked(fv, m, ax, ay)),
    }
}

/// Cellwise reading of `spec_substituted`.
pub proof fn lemma_substituted_at<T: PartialEq>(
    fv: FilterView<T>,
    dest: GridView<T>,
    ax: int,
    ay: int,
)
    requires
        dest.wf(),
    ensures
        spec_substituted(fv, dest, ax, ay).wf(),
        spec_substituted(fv, dest, ax, ay).width == dest.width,
        spec_substituted(fv, dest, ax, ay).height == dest.height,
        forall|x: int, y: int|
            dest.in_bounds(x, y) ==> #[trigger] spec_substituted(fv, dest, ax, ay).at(x, y)
                == spec_sub_cell_value(fv, dest, ax, ay, x, y),
{
    let r = spec_substituted(fv, dest, ax, ay);
    assert forall|x: int, y: int| dest.in_bounds(x, y) implies #[trigger] r.at(x, y)
        == spec_sub_cell_value(fv, dest, ax, ay, x, y) by {
        crate::grid::lemma_idx_bounds(dest, x, y);
        vstd::arithmetic::div_mod::lemma_fundamental_div_mod_converse(
            dest.idx(x, y),
            dest.width,
            y,
            x,
        );
    }
}

/// Cellwise reading of `spec_marked`.
pub proof fn lemma_marked_at<T: PartialEq>(fv: FilterView<T>, mask: GridView<bool>, ax: int, ay: int)
    requires
        mask.wf(),
    ensures
        spec_marked(fv, mask, ax, ay).wf(),
        spec_marked(fv, mask, ax, ay).width == mask.width,
        spec_marked(fv, mask, ax, ay).height == mask.height,
        forall|x: int, y: int|
            mask.in_bounds(x, y) ==> #[trigger] spec_marked(fv, mask, ax, ay).at(x, y) == (if ax
                <= x < ax + fv.substitute.width && ay <= y < ay + fv.substitute.height {
                true
            } else {
                mask.at(x, y)
            }),
{
    let r = spec_marked(fv, mask, ax, ay);
    assert forall|x: int, y: int| mask.in_bounds(x, y) implies #[trigger] r.at(x, y) == (if ax <= x
        < ax + fv.substitute.width && ay <= y < ay + fv.substitute.height {
        true
    } else {
        mask.at(x, y)
    }) by {
        crate::grid::lemma_idx_bounds(mask, x, y);
        vstd::arithmetic::div_mod::lemma_fundamental_div_mod_converse(
            mask.idx(x, y),
            mask.width,
            y,
            x,
        );
    }
}

impl<T: PartialEq + Copy> Filter<T> {
    /// Applies the filter substitute to the given input grid at the given
    /// position. Substitute cells equal to the wildcard leave the input cell
    /// untouched, and cells falling outside the input are skipped.
    pub fn apply_substitute(&self, input: &mut Grid<T>, position: Vector2u)
        requires
            self@.wf(),
            old(input)@.wf(),
            T::obeys_eq_spec(),
            position.x + self@.pattern.width <= u32::MAX,
            position.y + self@.pattern.height <= u32::MAX,
        ensures
            final(input)@ == spec_substituted(
                self@,
                old(input)@,
                position.x as int,
                position.y as int,
            ),
            final(input)@.wf(),
    {
        let ghost fv = self@;
        let ghost d0 = old(input)@;
        let sw = self.pattern.size().x;
        let sh = self.pattern.size().y;
        let mut x: u32 = 0;
        while x < sw
            invariant
                0 <= x <= sw,
                self@.wf(),
                input@.wf(),
                T::obeys_eq_spec(),
                fv == self@,
                sw == fv.substitute.width,
                sh == fv.substitute.height,
                position.x + sw <= u32::MAX,
                position.y + sh <= u32::MAX,
                input@.width == d0.width,
                input@.height == d0.height,
                forall|x2: int, y2: int|
                    d0.in_bounds(x2, y2) ==> #[trigger] input@.at(x2, y2) == (if position.x <= x2
                        < position.x + x && position.y <= y2 < position.y + sh && !fv.substitute.at(
                        x2 - position.x,
                        y2 - position.y,
                    ).eq_spec(&fv.wildcard) {
                        fv.substitute.at(x2 - position.x, y2 - position.y)
                    } else {
                        d0.at(x2, y2)
                    }),
            decreases sw - x,
        {
            let mut y: u32 = 0;
            while y < sh
                invariant
                    0 <= x < sw,
                    0 <= y <= sh,
                    self@.wf(),
                    input@.wf(),
                    T::obeys_eq_spec(),
                    fv == self@,
                    sw == fv.substitute.width,
                    sh == fv.substitute.height,
                    position.x + sw <= u32::MAX,
                    position.y + sh <= u32::MAX,
                    input@.width == d0.width,
                    input@.height == d0.height,
                    forall|x2: int, y2: int|
                        d0.in_bounds(x2, y2) ==> #[trigger] input@.at(x2, y2) == (if (position.x
                            <= x2 < position.x + x && position.y <= y2 < position.y + sh) || (x2
                            == position.x + x && position.y <= y2 < position.y + y) {
                            if !fv.substitute.at(x2 - position.x, y2 - position.y).eq_spec(
                                &fv.wildcard,
                            ) {
                                fv.substitute.at(x2 - position.x, y2 - position.y)
                            } else {
                                d0.at(x2, y2)
                            }
                        } else {
                            d0.at(x2, y2)
                        }),
                decreases sh - y,
            {
                let substitute_field = self.substitute.cell(x, y);
                let target = Vector2::new(position.x + x, position.y + y);
                let ghost pre = input@;
                if !(substitute_field == &self.wildcard) && target.x < input.size().x && target.y
                    < input.size().y {
                    let value = *self.substitute.cell(x, y);
                    proof {
                        crate::grid::lemma_with_cell_frame(
                            pre,
                            target.x as int,
                            target.y as int,
                            value,
                        );
                    }
                    input.put(target.x, target.y, value);
                }
                proof {
                    assert forall|x2: int, y2: int| d0.in_bounds(x2, y2) implies #[trigger] input@.at(
                        x2,
                        y2,
                    ) == (if (position.x <= x2 < position.x + x && position.y <= y2 < position.y
                        + sh) || (x2 == position.x + x && position.y <= y2 < position.y + y + 1) {
                        if !fv.substitute.at(x2 - position.x, y2 - position.y).eq_spec(
                            &fv.wildcard,
                        ) {
                            fv.substitute.at(x2 - position.x, y2 - position.y)
                        } else {
                            d0.at(x2, y2)
                        }
                    } else {
                        d0.at(x2, y2)
                    }) by {
                        if x2 == target.x as int && y2 == target.y as int {
                        } else {
                            assert(input@.at(x2, y2) == pre.at(x2, y2));
                        }
                    }
                }
                y += 1;
            }
            x += 1;
        }
        proof {
            lemma_substituted_at(fv, d0, position.x as int, position.y as int);
            input@.lemma_ext_equal(spec_substituted(fv, d0, position.x as int, position.y as int));
        }
    }

    /// Marks every cell of the window that lies inside the mask grid.
    fn mark_window(map: &mut Grid<bool>, position: Vector2u, w: u32, h: u32)
        requires
            old(map)@.wf(),
            position.x + w <= u32::MAX,
            position.y + h <= u32::MAX,
        ensures
            final(map)@.wf(),
            final(map)@.width == old(map)@.width,
            final(map)@.height == old(map)@.height,
            forall|x2: int, y2: int|
                old(map)@.in_bounds(x2, y2) ==> #[trigger] final(map)@.at(x2, y2) == (if position.x
                    <= x2 < position.x + w && position.y <= y2 < position.y + h {
                    true
                } else {
                    old(map)@.at(x2, y2)
                }),
    {
        let ghost m0 = old(map)@;
        let mut x: u32 = 0;
        while x < w
            invariant
                0 <= x <= w,
                map@.wf(),
                map@.width == m0.width,
                map@.height == m0.height,
                position.x + w <= u32::MAX,
                position.y + h <= u32::MAX,
                forall|x2: int, y2: int|
                    m0.in_bounds(x2, y2) ==> #[trigger] map@.at(x2, y2) == (if position.x <= x2
                        < position.x + x && position.y <= y2 < position.y + h {
                        true
                    } else {
                        m0.at(x2, y2)
                    }),
            decreases w - x,
        {
            let mut y: u32 = 0;
            while y < h
                invariant
                    0 <= x < w,
                    0 <= y <= h,
                    map@.wf(),
                    map@.width == m0.width,
                    map@.height == m0.height,
                    position.x + w <= u32::MAX,
                    position.y + h <= u32::MAX,
                    forall|x2: int, y2: int|
                        m0.in_bounds(x2, y2) ==> #[trigger] map@.at(x2, y2) == (if (position.x
                            <= x2 < position.x + x && position.y <= y2 < position.y + h) || (x2
                            == position.x + x && position.y <= y2 < position.y + y) {
                            true
                        } else {
                            m0.at(x2, y2)
                        }),
                decreases h - y,
            {
                let target = Vector2::new(position.x + x, position.y + y);
                let ghost pre = map@;
                if target.x < map.size().x && target.y < map.size().y {
                    proof {
                        crate::grid::lemma_with_cell_frame(
                            pre,
                            target.x as int,
                            target.y as int,
                            true,
                        );
                    }
                    map.put(target.x, target.y, true);
                }
                proof {
                    assert forall|x2: int, y2: int| m0.in_bounds(x2, y2) implies #[trigger] map@.at(
                        x2,
                        y2,
                    ) == (if (position.x <= x2 < position.x + x && position.y <= y2 < position.y
                        + h) || (x2 == position.x + x && position.y <= y2 < position.y + y + 1) {
                        true
                    } else {
                        m0.at(x2, y2)
                    }) by {
                        if x2 == target.x as int && y2 == target.y as int {
                        } else {
                            assert(map@.at(x2, y2) == pre.at(x2, y2));
                        }
                    }
                }
                y += 1;
            }
            x += 1;
        }
    }

    /// The substitution step of one matched anchor: writes the substitute
    /// into the input grid and, when an application mask is present, marks
    /// the whole window as applied in it.
    fn apply_substitute_masked(
        &self,
        input: &mut Grid<T>,
        position: Vector2u,
        application_map: &mut Option<Grid<bool>>,
    )
        requires
            self@.wf(),
            old(input)@.wf(),
            T::obeys_eq_spec(),
            mask_wf(view_opt(*old(application_map))),
            position.x + self@.pattern.width <= u32::MAX,
            position.y + self@.pattern.height <= u32::MAX,
        ensures
            final(input)@ == spec_substituted(
                self@,
                old(input)@,
                position.x as int,
                position.y as int,
            ),
            final(input)@.wf(),
            view_opt(*final(application_map)) == spec_marked_opt(
                self@,
                view_opt(*old(application_map)),
                position.x as int,
                position.y as int,
            ),
            mask_wf(view_opt(*final(application_map))),
    {
        self.apply_substitute(input, position);
        let w = self.pattern.size().x;
        let h = self.pattern.size().y;
        match application_map {
            None => {
            },
            Some(m) => {
                let ghost m0 = m@;
                Self::mark_window(m, position, w, h);
                proof {
                    lemma_marked_at(self@, m0, position.x as int, position.y as int);
                    m@.lemma_ext_equal(
                        spec_marked(self@, m0, position.x as int, position.y as int),
                    );
                }
            },
        }
    }
}

/// The number of anchor rows of one pass: one anchor for every vertical
/// offset at which the pattern still fits.
pub open spec fn spec_anchor_rows<T: PartialEq>(fv: FilterView<T>, source: GridView<T>) -> int {
    source.height - fv.pattern.height + 1
}

/// The number of anchor columns of one pass.
pub open spec fn spec_anchor_cols<T: PartialEq>(fv: FilterView<T>, source: GridView<T>) -> int {
    source.width - fv.pattern.width + 1
}

/// The number of anchors of one pass.
pub open spec fn spec_anchor_count<T: PartialEq>(fv: FilterView<T>, source: GridView<T>) -> int {
    spec_anchor_cols(fv, source) * spec_anchor_rows(fv, source)
}

/// The sizes a filter application needs: source and destination agree, and
/// the pattern fits into them.
pub open spec fn spec_size_ok<T: PartialEq>(
    fv: FilterView<T>,
    source: GridView<T>,
    dest: GridView<T>,
) -> bool {
    &&& source.width == dest.width
    &&& source.height == dest.height
    &&& fv.pattern.width <= source.width
    &&& fv.pattern.height <= source.height
}

/// The application mask a pass starts with: all clear when the filter applies
/// only once per cell, absent otherwise.
pub open spec fn spec_init_mask<T: PartialEq>(fv: FilterView<T>, source: GridView<T>) -> Option<
    GridView<bool>,
> {
    if fv.properties.only_once {
        Some(
            GridView {
                width: source.width,
                height: source.height,
                cells: Seq::new(source.cells.len(), |i: int| false),
            },
        )
    } else {
        None
    }
}

/// One anchor of the pass: when its gate is open and the pattern matches the
/// chosen input, the substitute is written and the mask marked; otherwise
/// destination and mask stay as they are.
pub open spec fn spec_step<T: PartialEq>(
    fv: FilterView<T>,
    source: GridView<T>,
    dest: GridView<T>,
    mask: Option<GridView<bool>>,
    ax: int,
    ay: int,
    gate: bool,
) -> (GridView<T>, Option<GridView<bool>>) {
    let input = if fv.properties.pattern_matching is Destination {
        dest
    } else {
        source
    };
    if gate && spec_pattern_matches_at(fv, input, mask, ax, ay) {
        (spec_substituted(fv, dest, ax, ay), spec_marked_opt(fv, mask, ax, ay))
    } else {
        (dest, mask)
    }
}

/// The first `k` anchors of one pass, applied in order. Anchors walk the
/// grid column by column: anchor `k` sits at `(k / rows, k % rows)` where
/// `rows` counts the anchor rows, and each anchor consumes one gate.
pub open spec fn spec_sweep<T: PartialEq>(
    fv: FilterView<T>,
    source: GridView<T>,
    dest0: GridView<T>,
    mask0: Option<GridView<bool>>,
    gates: Seq<bool>,
    k: nat,
) -> (GridView<T>, Option<GridView<bool>>)
    decreases k,
{
    if k == 0 {
        (dest0, mask0)
    } else {
        let prev = spec_sweep(fv, source, dest0, mask0, gates, (k - 1) as nat);
        let rows = spec_anchor_rows(fv, source);
        spec_step(
            fv,
            source,
            prev.0,
            prev.1,
            (k - 1) as int / rows,
            (k - 1) as int % rows,
            gates[k - 1],
        )
    }
}

/// The gates a sampler with the given starting state opens during a pass:
/// one draw per anchor, and a gate is open exactly when its draw lies below
/// the probability.
pub open spec fn spec_sampler_gates(state: u64, probability: u32, n: nat) -> Seq<bool> {
    Seq::new(
        n,
        |i: int| spec_draw(spec_state_after(state, i as nat), PROBABILITY_ONE as u64)
            < probability as u64,
    )
}

/// What the probability promises of every gate: zero keeps them all shut,
/// `PROBABILITY_ONE` or more opens them all.
pub open spec fn spec_gates_ok(probability: u32, gates: Seq<bool>) -> bool {
    &&& probability == 0 ==> forall|i: int| 0 <= i < gates.len() ==> !gates[i]
    &&& probability >= PROBABILITY_ONE ==> forall|i: int| 0 <= i < gates.len() ==> gates[i]
}

/// The relation `Filter::apply` establishes between the destination before
/// and after the call: some admissible gate sequence drives the sweep from
/// the one to the other.
pub open spec fn spec_filter_applies<T: PartialEq>(
    fv: FilterView<T>,
    source: GridView<T>,
    d0: GridView<T>,
    d1: GridView<T>,
) -> bool {
    exists|gates: Seq<bool>|
        {
            &&& gates.len() == spec_anchor_count(fv, source)
            &&& #[trigger] spec_gates_ok(fv.properties.probability, gates)
            &&& d1 == spec_sweep(
                fv,
                source,
                d0,
                spec_init_mask(fv, source),
                gates,
                spec_anchor_count(fv, source) as nat,
            ).0
        }
}

/// The sweep with every gate open: the deterministic outcome of a pass whose
/// probability is `PROBABILITY_ONE` or more.
pub open spec fn spec_full_sweep<T: PartialEq>(
    fv: FilterView<T>,
    source: GridView<T>,
    d0: GridView<T>,
) -> GridView<T> {
    spec_sweep(
        fv,
        source,
        d0,
        spec_init_mask(fv, source),
        Seq::new(spec_anchor_count(fv, source) as nat, |i: int| true),
        spec_anchor_count(fv, source) as nat,
    ).0
}

/// The sweep preserves well-formedness and the sizes of the destination and
/// of the mask.
pub proof fn lemma_sweep_wf<T: PartialEq>(
    fv: FilterView<T>,
    source: GridView<T>,
    d0: GridView<T>,
    m0: Option<GridView<bool>>,
    gates: Seq<bool>,
    k: nat,
)
    requires
        d0.wf(),
        mask_wf(m0),
    ensures
        ({
            let (d, m) = spec_sweep(fv, source, d0, m0, gates, k);
            &&& d.wf()
            &&& d.width == d0.width
            &&& d.height == d0.height
            &&& mask_wf(m)
            &&& m is Some <==> m0 is Some
            &&& m is Some ==> m->Some_0.width == m0->Some_0.width && m->Some_0.height
                == m0->Some_0.height
        }),
    decreases k,
{
    if k > 0 {
        lemma_sweep_wf(fv, source, d0, m0, gates, (k - 1) as nat);
        let prev = spec_sweep(fv, source, d0, m0, gates, (k - 1) as nat);
        let rows = spec_anchor_rows(fv, source);
        let ax = (k - 1) as int / rows;
        let ay = (k - 1) as int % rows;
        lemma_substituted_at(fv, prev.0, ax, ay);
        match prev.1 {
            Some(m) => {
                lemma_marked_at(fv, m, ax, ay);
            },
            None => {},
        }
    }
}

/// With every gate shut the sweep changes nothing.
pub proof fn lemma_sweep_gates_shut<T: PartialEq>(
    fv: FilterView<T>,
    source: GridView<T>,
    d0: GridView<T>,
    m0: Option<GridView<bool>>,
    gates: Seq<bool>,
    k: nat,
)
    requires
        forall|i: int| 0 <= i < k ==> !gates[i],
    ensures
        spec_sweep(fv, source, d0, m0, gates, k) == (d0, m0),
    decreases k,
{
    if k > 0 {
        lemma_sweep_gates_shut(fv, source, d0, m0, gates, (k - 1) as nat);
    }
}

/// The sweep reads only the gates it consumes: gate sequences that agree on
/// the first `k` entries drive it to the same place.
pub proof fn lemma_sweep_gates_prefix<T: PartialEq>(
    fv: FilterView<T>,
    source: GridView<T>,
    d0: GridView<T>,
    m0: Option<GridView<bool>>,
    g1: Seq<bool>,
    g2: Seq<bool>,
    k: nat,
)
    requires
        forall|i: int| 0 <= i < k ==> g1[i] == g2[i],
    ensures
        spec_sweep(fv, source, d0, m0, g1, k) == spec_sweep(fv, source, d0, m0, g2, k),
    decreases k,
{
    if k > 0 {
        lemma_sweep_gates_prefix(fv, source, d0, m0, g1, g2, (k - 1) as nat);
    }
}

impl<T: PartialEq + Copy> Filter<T> {
    /// Applies the filter to the given grid, drawing its probability samples
    /// from the given sampler: every anchor position is tried in column-major
    /// order, and each match writes the substitute into the destination. With
    /// probability zero the destination is left untouched; with probability
    /// `PROBABILITY_ONE` or more the outcome is the deterministic full sweep.
    ///
    /// # Errors
    ///
    /// Returns an error if the source and destination sizes differ or are
    /// smaller than that of the pattern and substitute grids.
    pub fn apply_with_sampler(
        &self,
        source: &Grid<T>,
        destination: &mut Grid<T>,
        sampler: &mut Sampler,
    ) -> (r: Result<(), TisuError>)
        requires
            self@.wf(),
            source@.wf(),
            old(destination)@.wf(),
            T::obeys_eq_spec(),
        ensures
            final(destination)@.wf(),
            final(destination)@.width == old(destination)@.width,
            final(destination)@.height == old(destination)@.height,
            !spec_size_ok(self@, source@, old(destination)@) <==> r is Err,
            r is Err ==> r == Err::<(), TisuError>(TisuError::InvalidMapSize)
                && final(destination)@ == old(destination)@,
            r is Ok ==> spec_filter_applies(
                self@,
                source@,
                old(destination)@,
                final(destination)@,
            ),
            (r is Ok && self@.properties.probability == 0) ==> final(destination)@ == old(
                destination,
            )@,
            (r is Ok && self@.properties.probability >= PROBABILITY_ONE) ==> final(destination)@
                == spec_full_sweep(self@, source@, old(destination)@),
            r is Err ==> final(sampler).spec_state() == old(sampler).spec_state(),
            r is Ok ==> final(sampler).spec_state() == spec_state_after(
                old(sampler).spec_state(),
                spec_anchor_count(self@, source@) as nat,
            ),
            r is Ok ==> final(destination)@ == spec_sweep(
                self@,
                source@,
                old(destination)@,
                spec_init_mask(self@, source@),
                spec_sampler_gates(
                    old(sampler).spec_state(),
                    self@.properties.probability,
                    spec_anchor_count(self@, source@) as nat,
                ),
                spec_anchor_count(self@, source@) as nat,
            ).0,
    {
        if source.size() != destination.size() || source.size().x < self.pattern.size().x
            || source.size().y < self.pattern.size().y {
            return Err(TisuError::InvalidMapSize);
        }

        let ghost s0 = sampler.spec_state();
        let ghost fv = self@;
        let ghost d0 = old(destination)@;
        let ghost m0 = spec_init_mask(fv, source@);

        let mut application_map: Option<Grid<bool>> = if self.properties.only_once {
            Some(Grid::new(source.size()))
        } else {
            None
        };
        proof {
            match &application_map {
                Some(m) => {
                    assert(m0 matches Some(mm) && m@.cells =~= mm.cells);
                },
                None => {},
            }
            assert(view_opt(application_map) == m0);
        }

        let nx = source.size().x - self.pattern.size().x;
        let ny = source.size().y - self.pattern.size().y;
        let ghost rows = ny as int + 1;
        let ghost count = (nx as int + 1) * rows;
        let ghost mut gates: Seq<bool> = Seq::empty();

        let mut x: u64 = 0;
        while x <= nx as u64
            invariant
                0 <= x <= nx as u64 + 1,
                self@.wf(),
                source@.wf(),
                destination@.wf(),
                T::obeys_eq_spec(),
                fv == self@,
                spec_size_ok(fv, source@, d0),
                d0.wf(),
                m0 == spec_init_mask(fv, source@),
                nx == source@.width - fv.pattern.width,
                ny == source@.height - fv.pattern.height,
                rows == spec_anchor_rows(fv, source@),
                count == spec_anchor_count(fv, source@),
                destination@.width == d0.width,
                destination@.height == d0.height,
                mask_wf(view_opt(application_map)),
                gates.len() == x * rows,
                spec_gates_ok(fv.properties.probability, gates),
                sampler.spec_state() == spec_state_after(s0, gates.len()),
                gates == spec_sampler_gates(s0, fv.properties.probability, gates.len()),
                destination@ == spec_sweep(fv, source@, d0, m0, gates, gates.len()).0,
                view_opt(application_map) == spec_sweep(fv, source@, d0, m0, gates, gates.len()).1,
            decreases nx as u64 + 1 - x,
        {
            let ghost col = x as int;
            let mut y: u64 = 0;
            while y <= ny as u64
                invariant
                    0 <= x <= nx as u64,
                    0 <= y <= ny as u64 + 1,
                    col == x as int,
                    self@.wf(),
                    source@.wf(),
                    destination@.wf(),
                    T::obeys_eq_spec(),
                    fv == self@,
                    spec_size_ok(fv, source@, d0),
                    d0.wf(),
                    m0 == spec_init_mask(fv, source@),
                    nx == source@.width - fv.pattern.width,
                    ny == source@.height - fv.pattern.height,
                    rows == spec_anchor_rows(fv, source@),
                    count == spec_anchor_count(fv, source@),
                    destination@.width == d0.width,
                    destination@.height == d0.height,
                    mask_wf(view_opt(application_map)),
                    gates.len() == x * rows + y,
                    spec_gates_ok(fv.properties.probability, gates),
                    sampler.spec_state() == spec_state_after(s0, gates.len()),
                    gates == spec_sampler_gates(s0, fv.properties.probability, gates.len()),
                    destination@ == spec_sweep(fv, source@, d0, m0, gates, gates.len()).0,
                    view_opt(application_map) == spec_sweep(
                        fv,
                        source@,
                        d0,
                        m0,
                        gates,
                        gates.len(),
                    ).1,
                decreases ny as u64 + 1 - y,
            {
                let point = Vector2::new(x as u32, y as u32);
                let ghost pre_dest = destination@;
                let ghost pre_mask = view_opt(application_map);
                let ghost pre_state = sampler.spec_state();
                let matched = match self.properties.pattern_matching {
                    PatternMatching::Destination => self.pattern_matches_masked(
                        destination,
                        point,
                        &application_map,
                        sampler,
                    ),
                    PatternMatching::Source => self.pattern_matches_masked(
                        source,
                        point,
                        &application_map,
                        sampler,
                    ),
                };
                let ghost gate = spec_draw(pre_state, PROBABILITY_ONE as u64)
                    < fv.properties.probability as u64;
                if matched {
                    self.apply_substitute_masked(destination, point, &mut application_map);
                }
                proof {
                    let ghost old_gates = gates;
                    gates = gates.push(gate);
                    let k = (gates.len() - 1) as nat;
                    assert(pre_state == spec_state_after(s0, k));
                    assert(spec_state_after(s0, (k + 1) as nat) == spec_next_state(
                        spec_state_after(s0, k),
                    ));
                    assert(gates =~= spec_sampler_gates(
                        s0,
                        fv.properties.probability,
                        gates.len(),
                    ));
                    lemma_sweep_gates_prefix(fv, source@, d0, m0, old_gates, gates, k);
                    vstd::arithmetic::div_mod::lemma_fundamental_div_mod_converse(
                        k as int,
                        rows,
                        x as int,
                        y as int,
                    );
                    assert(gates[k as int] == gate);
                    assert(spec_sweep(fv, source@, d0, m0, gates, k) == (pre_dest, pre_mask));
                    assert((destination@, view_opt(application_map)) == spec_step(
                        fv,
                        source@,
                        pre_dest,
                        pre_mask,
                        x as int,
                        y as int,
                        gate,
                    ));
                }
                y += 1;
            }
            proof {
                assert(x as int * rows + (ny as int + 1) == (x as int + 1) * rows) by (nonlinear_arith)
                    requires rows == ny as int + 1;
            }
            x += 1;
        }
        proof {
            assert(gates.len() == (nx as int + 1) * rows);
            assert(gates.len() == count);
            assert(spec_filter_applies(fv, source@, d0, destination@)) by {
                assert(gates.len() == spec_anchor_count(fv, source@));
                assert(spec_gates_ok(fv.properties.probability, gates));
                assert(destination@ == spec_sweep(
                    fv,
                    source@,
                    d0,
                    spec_init_mask(fv, source@),
                    gates,
                    spec_anchor_count(fv, source@) as nat,
                ).0);
            }
            if fv.properties.probability == 0 {
                lemma_sweep_gates_shut(fv, source@, d0, m0, gates, gates.len());
            }
            if fv.properties.probability >= PROBABILITY_ONE {
                let all_open = Seq::new(spec_anchor_count(fv, source@) as nat, |i: int| true);
                assert(gates =~= all_open);
            }
            assert(gates == spec_sampler_gates(
                s0,
                fv.properties.probability,
                spec_anchor_count(fv, source@) as nat,
            ));
            assert(sampler.spec_state() == spec_state_after(
                s0,
                spec_anchor_count(fv, source@) as nat,
            ));
        }
        Ok(())
    }

    /// Applies the filter to the given grid with a sampler seeded from
    /// entropy; see `apply_with_sampler`.
    ///
    /// # Errors
    ///
    /// Returns an error if the source and destination sizes differ or are
    /// smaller than that of the pattern and substitute grids.
    pub fn apply(&self, source: &Grid<T>, destination: &mut Grid<T>) -> (r: Result<(), TisuError>)
        requires
            self@.wf(),
            source@.wf(),
            old(destination)@.wf(),
            T::obeys_eq_spec(),
        ensures
            final(destination)@.wf(),
            final(destination)@.width == old(destination)@.width,
            final(destination)@.height == old(destination)@.height,
            !spec_size_ok(self@, source@, old(destination)@) <==> r is Err,
            r is Err ==> r == Err::<(), TisuError>(TisuError::InvalidMapSize)
                && final(destination)@ == old(destination)@,
            r is Ok ==> spec_filter_applies(
                self@,
                source@,
                old(destination)@,
                final(destination)@,
            ),
            (r is Ok && self@.properties.probability == 0) ==> final(destination)@ == old(
                destination,
            )@,
            (r is Ok && self@.properties.probability >= PROBABILITY_ONE) ==> final(destination)@
                == spec_full_sweep(self@, source@, old(destination)@),
    {
        let mut sampler = Sampler::from_entropy();
        self.apply_with_sampler(source, destination, &mut sampler)
    }
}

/// The views of a sequence of filters.
pub open spec fn spec_filter_views<T>(filters: Seq<Filter<T>>) -> Seq<FilterView<T>> {
    filters.map_values(|f: Filter<T>| f@)
}

/// Every filter of the sequence is well formed.
pub open spec fn spec_collection_wf<T>(filters: Seq<Filter<T>>) -> bool {
    forall|i: int| 0 <= i < filters.len() ==> (#[trigger] filters[i])@.wf()
}

/// The relation `FilterCollection::apply` establishes: the filters' passes
/// run in order, each one starting from the destination the one before left.
pub open spec fn spec_collection_applies<T: PartialEq>(
    views: Seq<FilterView<T>>,
    source: GridView<T>,
    d0: GridView<T>,
    d1: GridView<T>,
) -> bool
    decreases views.len(),
{
    if views.len() == 0 {
        d1 == d0
    } else {
        exists|mid: GridView<T>|
            #[trigger] spec_filter_applies(views[0], source, d0, mid) && spec_collection_applies(
                views.skip(1),
                source,
                mid,
                d1,
            )
    }
}

/// The deterministic outcome of applying every filter's full sweep in order.
pub open spec fn spec_collection_full_sweep<T: PartialEq>(
    views: Seq<FilterView<T>>,
    source: GridView<T>,
    d0: GridView<T>,
) -> GridView<T>
    decreases views.len(),
{
    if views.len() == 0 {
        d0
    } else {
        spec_collection_full_sweep(views.skip(1), source, spec_full_sweep(views[0], source, d0))
    }
}

/// Extending an applied prefix by one more applied filter.
pub proof fn lemma_collection_applies_snoc<T: PartialEq>(
    views: Seq<FilterView<T>>,
    source: GridView<T>,
    d0: GridView<T>,
    mid: GridView<T>,
    d1: GridView<T>,
    i: int,
)
    requires
        0 <= i < views.len(),
        spec_collection_applies(views.take(i), source, d0, mid),
        spec_filter_applies(views[i], source, mid, d1),
    ensures
        spec_collection_applies(views.take(i + 1), source, d0, d1),
    decreases i,
{
    if i == 0 {
        assert(views.take(1)[0] == views[0]);
        assert(views.take(1).skip(1) =~= views.take(0));
        assert(mid == d0);
        assert(spec_filter_applies(views.take(1)[0], source, d0, d1));
        assert(spec_collection_applies(views.take(1).skip(1), source, d1, d1));
    } else {
        let t = views.take(i);
        assert(t.len() == i > 0);
        let mid0 = choose|m: GridView<T>|
            #[trigger] spec_filter_applies(t[0], source, d0, m) && spec_collection_applies(
                t.skip(1),
                source,
                m,
                mid,
            );
        assert(t.skip(1) =~= views.skip(1).take(i - 1));
        assert(views.skip(1)[i - 1] == views[i]);
        lemma_collection_applies_snoc(views.skip(1), source, mid0, mid, d1, i - 1);
        assert(views.skip(1).take(i) =~= views.take(i + 1).skip(1));
        assert(views.take(i + 1)[0] == views[0]);
        assert(t[0] == views[0]);
        assert(spec_filter_applies(views.take(i + 1)[0], source, d0, mid0)
            && spec_collection_applies(views.take(i + 1).skip(1), source, mid0, d1));
    }
}

/// Extending a deterministic prefix fold by one more full sweep.
pub proof fn lemma_collection_full_snoc<T: PartialEq>(
    views: Seq<FilterView<T>>,
    source: GridView<T>,
    d0: GridView<T>,
    i: int,
)
    requires
        0 <= i < views.len(),
    ensures
        spec_collection_full_sweep(views.take(i + 1), source, d0) == spec_full_sweep(
            views[i],
            source,
            spec_collection_full_sweep(views.take(i), source, d0),
        ),
    decreases i,
{
    if i == 0 {
        assert(views.take(1)[0] == views[0]);
        let sub = views.take(1).skip(1);
        assert(sub.len() == 0);
        let d1 = spec_full_sweep(views.take(1)[0], source, d0);
        assert(spec_collection_full_sweep(sub, source, d1) == d1);
        assert(spec_collection_full_sweep(views.take(1), source, d0) == d1);
        assert(views.take(0).len() == 0);
        assert(spec_collection_full_sweep(views.take(0), source, d0) == d0);
    } else {
        let d0b = spec_full_sweep(views[0], source, d0);
        assert(views.take(i + 1)[0] == views[0]);
        assert(views.take(i)[0] == views[0]);
        assert(views.take(i + 1).skip(1) =~= views.skip(1).take(i));
        assert(views.take(i).skip(1) =~= views.skip(1).take(i - 1));
        assert(views.skip(1)[i - 1] == views[i]);
        lemma_collection_full_snoc(views.skip(1), source, d0b, i - 1);
    }
}

/// The destination and sampler state after every filter's pass, the one
/// sampler threaded through the passes in filter order.
pub open spec fn spec_collection_seeded_sweep<T: PartialEq>(
    views: Seq<FilterView<T>>,
    source: GridView<T>,
    d0: GridView<T>,
    state: u64,
) -> (GridView<T>, u64)
    decreases views.len(),
{
    if views.len() == 0 {
        (d0, state)
    } else {
        let prev = spec_collection_seeded_sweep(views.drop_last(), source, d0, state);
        let last = views.last();
        let n = spec_anchor_count(last, source) as nat;
        (
            spec_sweep(
                last,
                source,
                prev.0,
                spec_init_mask(last, source),
                spec_sampler_gates(prev.1, last.properties.probability, n),
                n,
            ).0,
            spec_state_after(prev.1, n),
        )
    }
}

/// A collection of grid filters
pub struct FilterCollection<T> {
    /// Vector containing the filters
    pub filters: Vec<Filter<T>>,
    pub properties: FilterProperties,
}

impl<T> Default for FilterCollection<T> {
    fn default() -> (r: Self)
        ensures
            r.filters@.len() == 0,
            r.properties == (FilterProperties {
                probability: PROBABILITY_ONE,
                pattern_matching: PatternMatching::Source,
                only_once: false,
                ignore: false,
            }),
    {
        Self { filters: Vec::new(), properties: FilterProperties::default() }
    }
}

impl<T> FilterCollection<T> {
    /// Creates a filter collection from the given filters.
    pub fn new(filters: Vec<Filter<T>>) -> (r: Self)
        ensures
            r.filters == filters,
            r.properties == (FilterProperties {
                probability: PROBABILITY_ONE,
                pattern_matching: PatternMatching::Source,
                only_once: false,
                ignore: false,
            }),
    {
        Self { filters, properties: FilterProperties::default() }
    }

    /// Creates a filter collection from the given filters and filter
    /// collection properties.
    pub fn new_with_properties(filters: Vec<Filter<T>>, properties: FilterProperties) -> (r: Self)
        ensures
            r.filters == filters,
            r.properties == properties,
    {
        Self { filters, properties }
    }

    /// Appends a filter to the collection.
    pub fn push(&mut self, filter: Filter<T>)
        ensures
            final(self).filters@ == old(self).filters@.push(filter),
            final(self).properties == old(self).properties,
    {
        self.filters.push(filter);
    }
}

impl<T: PartialEq + Copy> FilterCollection<T> {
    /// Applies all the filters from the collection to the given grid, in
    /// order, each pass reading the same source and writing the one
    /// destination. An empty collection leaves the destination untouched.
    ///
    /// # Errors
    ///
    /// Returns an error, and stops at the first filter that raises it, if
    /// that filter's pattern does not fit the grids or their sizes differ.
    pub fn apply_with_sampler(
        &self,
        source: &Grid<T>,
        destination: &mut Grid<T>,
        sampler: &mut Sampler,
    ) -> (r: Result<(), TisuError>)
        requires
            spec_collection_wf(self.filters@),
            source@.wf(),
            old(destination)@.wf(),
            T::obeys_eq_spec(),
        ensures
            final(destination)@.wf(),
            final(destination)@.width == old(destination)@.width,
            final(destination)@.height == old(destination)@.height,
            (r is Ok) <==> (forall|i: int|
                0 <= i < self.filters@.len() ==> spec_size_ok(
                    #[trigger] spec_filter_views(self.filters@)[i],
                    source@,
                    old(destination)@,
                )),
            r is Ok ==> spec_collection_applies(
                spec_filter_views(self.filters@),
                source@,
                old(destination)@,
                final(destination)@,
            ),
            r is Err ==> r == Err::<(), TisuError>(TisuError::InvalidMapSize) && exists|j: int|
                {
                    &&& 0 <= j < self.filters@.len()
                    &&& !spec_size_ok(
                        #[trigger] spec_filter_views(self.filters@)[j],
                        source@,
                        old(destination)@,
                    )
                    &&& forall|i: int|
                        0 <= i < j ==> spec_size_ok(
                            spec_filter_views(self.filters@)[i],
                            source@,
                            old(destination)@,
                        )
                    &&& spec_collection_applies(
                        spec_filter_views(self.filters@).take(j),
                        source@,
                        old(destination)@,
                        final(destination)@,
                    )
                },
            self.filters@.len() == 0 ==> (r is Ok && final(destination)@ == old(destination)@),
            (r is Ok && forall|i: int|
                0 <= i < self.filters@.len() ==> (#[trigger] spec_filter_views(
                    self.filters@,
                )[i]).properties.probability >= PROBABILITY_ONE) ==> final(destination)@
                == spec_collection_full_sweep(
                spec_filter_views(self.filters@),
                source@,
                old(destination)@,
            ),
            r is Ok ==> (final(destination)@, final(sampler).spec_state())
                == spec_collection_seeded_sweep(
                spec_filter_views(self.filters@),
                source@,
                old(destination)@,
                old(sampler).spec_state(),
            ),
    {
        let ghost views = spec_filter_views(self.filters@);
        let ghost d0 = old(destination)@;
        let ghost s0 = sampler.spec_state();
        let n = self.filters.len();
        let mut i: usize = 0;
        while i < n
            invariant
                0 <= i <= n,
                n == self.filters@.len(),
                d0 == old(destination)@,
                views == spec_filter_views(self.filters@),
                spec_collection_wf(self.filters@),
                source@.wf(),
                destination@.wf(),
                d0.wf(),
                T::obeys_eq_spec(),
                destination@.width == d0.width,
                destination@.height == d0.height,
                forall|j: int| 0 <= j < i ==> spec_size_ok(#[trigger] views[j], source@, d0),
                spec_collection_applies(views.take(i as int), source@, d0, destination@),
                (forall|j: int|
                    0 <= j < i ==> (#[trigger] views[j]).properties.probability
                        >= PROBABILITY_ONE) ==> destination@ == spec_collection_full_sweep(
                    views.take(i as int),
                    source@,
                    d0,
                ),
                (destination@, sampler.spec_state()) == spec_collection_seeded_sweep(
                    views.take(i as int),
                    source@,
                    d0,
                    s0,
                ),
            decreases n - i,
        {
            let ghost pre = destination@;
            let ghost pre_state = sampler.spec_state();
            match self.filters[i].apply_with_sampler(source, destination, sampler) {
                Err(e) => {
                    proof {
                        assert(views[i as int] == self.filters@[i as int]@);
                        assert(!spec_size_ok(views[i as int], source@, pre));
                        assert(!spec_size_ok(views[i as int], source@, d0));
                    }
                    return Err(e);
                },
                Ok(()) => {
                    proof {
                        assert(views[i as int] == self.filters@[i as int]@);
                        lemma_collection_applies_snoc(
                            views,
                            source@,
                            d0,
                            pre,
                            destination@,
                            i as int,
                        );
                        if forall|j: int|
                            0 <= j < i + 1 ==> (#[trigger] views[j]).properties.probability
                                >= PROBABILITY_ONE {
                            lemma_collection_full_snoc(views, source@, d0, i as int);
                        }
                        assert(views.take(i + 1).drop_last() =~= views.take(i as int));
                        assert(views.take(i + 1).last() == views[i as int]);
                        assert((destination@, sampler.spec_state())
                            == spec_collection_seeded_sweep(
                            views.take(i + 1),
                            source@,
                            d0,
                            s0,
                        ));
                    }
                },
            }
            i += 1;
        }
        proof {
            assert(views.take(n as int) =~= views);
        }
        Ok(())
    }

    /// Applies all the filters from the collection with a sampler seeded
    /// from entropy; see `apply_with_sampler`.
    ///
    /// # Errors
    ///
    /// Returns an error, and stops at the first filter that raises it, if
    /// that filter's pattern does not fit the grids or their sizes differ.
    pub fn apply(&self, source: &Grid<T>, destination: &mut Grid<T>) -> (r: Result<(), TisuError>)
        requires
            spec_collection_wf(self.filters@),
            source@.wf(),
            old(destination)@.wf(),
            T::obeys_eq_spec(),
        ensures
            final(destination)@.wf(),
            final(destination)@.width == old(destination)@.width,
            final(destination)@.height == old(destination)@.height,
            (r is Ok) <==> (forall|i: int|
                0 <= i < self.filters@.len() ==> spec_size_ok(
                    #[trigger] spec_filter_views(self.filters@)[i],
                    source@,
                    old(destination)@,
                )),
            r is Ok ==> spec_collection_applies(
                spec_filter_views(self.filters@),
                source@,
                old(destination)@,
                final(destination)@,
            ),
            r is Err ==> r == Err::<(), TisuError>(TisuError::InvalidMapSize) && exists|j: int|
                {
                    &&& 0 <= j < self.filters@.len()
                    &&& !spec_size_ok(
                        #[trigger] spec_filter_views(self.filters@)[j],
                        source@,
                        old(destination)@,
                    )
                    &&& forall|i: int|
                        0 <= i < j ==> spec_size_ok(
                            spec_filter_views(self.filters@)[i],
                            source@,
                            old(destination)@,
                        )
                    &&& spec_collection_applies(
                        spec_filter_views(self.filters@).take(j),
                        source@,
                        old(destination)@,
                        final(destination)@,
                    )
                },
            self.filters@.len() == 0 ==> (r is Ok && final(destination)@ == old(destination)@),
            (r is Ok && forall|i: int|
                0 <= i < self.filters@.len() ==> (#[trigger] spec_filter_views(
                    self.filters@,
                )[i]).properties.probability >= PROBABILITY_ONE) ==> final(destination)@
                == spec_collection_full_sweep(
                spec_filter_views(self.filters@),
                source@,
                old(destination)@,
            ),
    {
        let mut sampler = Sampler::from_entropy();
        self.apply_with_sampler(source, destination, &mut sampler)
    }
}

/// A pattern cell equal to the wildcard matches any input value at its
/// offset.
pub proof fn lemma_wildcard_pattern_matches_any<T: PartialEq>(
    input_field: T,
    pattern_field: T,
    wildcard: T,
)
    requires
        pattern_field.eq_spec(&wildcard),
    ensures
        spec_fields_match(input_field, pattern_field, wildcard),
{
}

/// A substitute cell equal to the wildcard never overwrites the destination
/// cell under it: substitution leaves that cell exactly as it was.
pub proof fn lemma_wildcard_substitute_preserves<T: PartialEq>(
    fv: FilterView<T>,
    dest: GridView<T>,
    ax: int,
    ay: int,
    x: int,
    y: int,
)
    requires
        dest.wf(),
        dest.in_bounds(x, y),
        ax <= x < ax + fv.substitute.width,
        ay <= y < ay + fv.substitute.height,
        fv.substitute.at(x - ax, y - ay).eq_spec(&fv.wildcard),
    ensures
        spec_substituted(fv, dest, ax, ay).at(x, y) == dest.at(x, y),
{
    lemma_substituted_at(fv, dest, ax, ay);
}

/// The certainty half of the probability law, read anchor by anchor: with
/// every gate open, no application mask, and matching against the source,
/// anchor `k` of the sweep substitutes at its position exactly when the
/// pattern matches the source there, and otherwise leaves the destination as
/// it stood. Together with the cellwise reading of `spec_substituted`, a
/// matching anchor writes every non-wildcard substitute cell at its offsets
/// and nothing else.
pub proof fn lemma_full_sweep_anchor<T: PartialEq>(
    fv: FilterView<T>,
    source: GridView<T>,
    d0: GridView<T>,
    k: nat,
)
    requires
        d0.wf(),
        !fv.properties.only_once,
        fv.properties.pattern_matching is Source,
        spec_size_ok(fv, source, d0),
        k < spec_anchor_count(fv, source),
    ensures
        ({
            let gates = Seq::new(spec_anchor_count(fv, source) as nat, |i: int| true);
            let prev = spec_sweep(fv, source, d0, spec_init_mask(fv, source), gates, k).0;
            let rows = spec_anchor_rows(fv, source);
            let ax = k as int / rows;
            let ay = k as int % rows;
            spec_sweep(fv, source, d0, spec_init_mask(fv, source), gates, (k + 1) as nat).0 == (
            if spec_pattern_matches_at(fv, source, Option::<GridView<bool>>::None, ax, ay) {
                spec_substituted(fv, prev, ax, ay)
            } else {
                prev
            })
        }),
{
    let gates = Seq::new(spec_anchor_count(fv, source) as nat, |i: int| true);
    let m0 = spec_init_mask(fv, source);
    assert(m0 is None);
    lemma_sweep_wf(fv, source, d0, m0, gates, k);
    assert(spec_sweep(fv, source, d0, m0, gates, k).1 is None);
    assert(gates[k as int]);
}

/// Anchor `k` of the sweep overwrites cell `(x, y)`: its gate is open, the
/// pattern matches at its position, and the cell lies under a non-wildcard
/// substitute cell of the window.
pub open spec fn spec_sweep_writes_cell<T: PartialEq>(
    fv: FilterView<T>,
    source: GridView<T>,
    d0: GridView<T>,
    m0: Option<GridView<bool>>,
    gates: Seq<bool>,
    k: nat,
    x: int,
    y: int,
) -> bool {
    let prev = spec_sweep(fv, source, d0, m0, gates, k);
    let rows = spec_anchor_rows(fv, source);
    let ax = k as int / rows;
    let ay = k as int % rows;
    let input = if fv.properties.pattern_matching is Destination {
        prev.0
    } else {
        source
    };
    &&& gates[k as int]
    &&& spec_pattern_matches_at(fv, input, prev.1, ax, ay)
    &&& ax <= x < ax + fv.substitute.width
    &&& ay <= y < ay + fv.substitute.height
    &&& !fv.substitute.at(x - ax, y - ay).eq_spec(&fv.wildcard)
    &&& prev.0.in_bounds(x, y)
}

/// A mask cell the sweep has marked stays marked.
proof fn lemma_sweep_mask_monotone<T: PartialEq>(
    fv: FilterView<T>,
    source: GridView<T>,
    d0: GridView<T>,
    m0: Option<GridView<bool>>,
    gates: Seq<bool>,
    k1: nat,
    k2: nat,
    x: int,
    y: int,
)
    requires
        d0.wf(),
        mask_wf(m0),
        k1 <= k2,
        spec_already_applied(spec_sweep(fv, source, d0, m0, gates, k1).1, x, y),
    ensures
        spec_already_applied(spec_sweep(fv, source, d0, m0, gates, k2).1, x, y),
    decreases k2,
{
    if k2 > k1 {
        lemma_sweep_mask_monotone(fv, source, d0, m0, gates, k1, (k2 - 1) as nat, x, y);
        lemma_sweep_wf(fv, source, d0, m0, gates, (k2 - 1) as nat);
        let prev = spec_sweep(fv, source, d0, m0, gates, (k2 - 1) as nat);
        let rows = spec_anchor_rows(fv, source);
        let ax = (k2 - 1) as int / rows;
        let ay = (k2 - 1) as int % rows;
        match prev.1 {
            Some(m) => {
                lemma_marked_at(fv, m, ax, ay);
            },
            None => {},
        }
    }
}

/// The only-once law: with `only_once` set, no grid cell is overwritten more
/// than once within a single filter's pass, whatever the probability draws
/// were. Once one anchor's substitution has touched a cell, the application
/// mask keeps every later anchor whose window covers that cell from matching.
pub proof fn lemma_only_once<T: PartialEq>(
    fv: FilterView<T>,
    source: GridView<T>,
    d0: GridView<T>,
    gates: Seq<bool>,
    i: nat,
    j: nat,
    x: int,
    y: int,
)
    requires
        fv.wf(),
        source.wf(),
        d0.wf(),
        spec_size_ok(fv, source, d0),
        fv.properties.only_once,
        i < j,
        spec_sweep_writes_cell(fv, source, d0, spec_init_mask(fv, source), gates, i, x, y),
    ensures
        !spec_sweep_writes_cell(fv, source, d0, spec_init_mask(fv, source), gates, j, x, y),
{
    let m0 = spec_init_mask(fv, source);
    assert(mask_wf(m0));
    let rows = spec_anchor_rows(fv, source);
    lemma_sweep_wf(fv, source, d0, m0, gates, i);
    let prev_i = spec_sweep(fv, source, d0, m0, gates, i);
    let axi = i as int / rows;
    let ayi = i as int % rows;
    let mi = prev_i.1->Some_0;
    lemma_marked_at(fv, mi, axi, ayi);
    assert(spec_sweep(fv, source, d0, m0, gates, (i + 1) as nat).1 == spec_marked_opt(
        fv,
        prev_i.1,
        axi,
        ayi,
    ));
    assert(spec_already_applied(spec_sweep(fv, source, d0, m0, gates, (i + 1) as nat).1, x, y));
    lemma_sweep_mask_monotone(fv, source, d0, m0, gates, (i + 1) as nat, j, x, y);
    if spec_sweep_writes_cell(fv, source, d0, m0, gates, j, x, y) {
        let prev_j = spec_sweep(fv, source, d0, m0, gates, j);
        lemma_sweep_wf(fv, source, d0, m0, gates, j);
        let axj = j as int / rows;
        let ayj = j as int % rows;
        let input_j = if fv.properties.pattern_matching is Destination {
            prev_j.0
        } else {
            source
        };
        assert(spec_cell_ok(fv, input_j, prev_j.1, axj, ayj, x - axj, y - ayj));
        assert(false);
    }
}

} // verus!
