use vstd::prelude::*;

use crate::rect2::Rect2u;
use crate::regen_error::RegenError;
use crate::vector2::{Vector2, Vector2u};

verus! {

/// The mathematical model of a grid: two dimensions and the cells, row-major.
pub struct GridView<T> {
    pub width: int,
    pub height: int,
    pub cells: Seq<T>,
}

impl<T> GridView<T> {
    /// Well-formedness: the buffer holds exactly `width * height` cells, the
    /// dimensions fit in `u32`, and the cell count fits in `usize`.
    pub open spec fn wf(self) -> bool {
        &&& 0 <= self.width <= u32::MAX
        &&& 0 <= self.height <= u32::MAX
        &&& self.width * self.height <= usize::MAX
        &&& self.cells.len() == self.width * self.height
    }

    /// Whether `(x, y)` addresses a cell of the grid.
    pub open spec fn in_bounds(self, x: int, y: int) -> bool {
        0 <= x < self.width && 0 <= y < self.height
    }

    /// The row-major buffer index of `(x, y)`.
    pub open spec fn idx(self, x: int, y: int) -> int {
        y * self.width + x
    }

    /// The cell at `(x, y)`.
    pub open spec fn at(self, x: int, y: int) -> T {
        self.cells[self.idx(x, y)]
    }

    /// The same grid with the cell at `(x, y)` replaced.
    pub open spec fn with_cell(self, x: int, y: int, value: T) -> GridView<T> {
        GridView { cells: self.cells.update(self.idx(x, y), value), ..self }
    }

    /// Two grids of one size whose cells agree everywhere are equal.
    pub proof fn lemma_ext_equal(self, other: GridView<T>)
        requires
            self.wf(),
            other.wf(),
            self.width == other.width,
            self.height == other.height,
            forall|x: int, y: int|
                self.in_bounds(x, y) ==> self.at(x, y) == #[trigger] other.at(x, y),
        ensures
            self == other,
    {
        assert forall|i: int| 0 <= i < self.cells.len() implies self.cells[i] == other.cells[i] by {
            let y = i / self.width;
            let x = i % self.width;
            lemma_idx_of_flat(self, i);
            assert(other.at(x, y) == other.cells[i]);
            assert(self.at(x, y) == self.cells[i]);
        }
        assert(self.cells =~= other.cells);
    }
}

/// A row-major index within a well-formed grid addresses an in-bounds cell,
/// found back by division and remainder.
pub proof fn lemma_idx_of_flat<T>(g: GridView<T>, i: int)
    requires
        g.wf(),
        0 <= i < g.cells.len(),
    ensures
        g.in_bounds(i % g.width, i / g.width),
        g.idx(i % g.width, i / g.width) == i,
{
    assert(g.width * g.height == g.cells.len());
    assert(g.width > 0) by {
        if g.width == 0 {
            assert(g.width * g.height == 0);
        }
    }
    vstd::arithmetic::div_mod::lemma_fundamental_div_mod(i, g.width);
    vstd::arithmetic::div_mod::lemma_mod_bound(i, g.width);
    assert(i / g.width < g.height) by {
        if i / g.width >= g.height {
            vstd::arithmetic::mul::lemma_mul_inequality(g.height, i / g.width, g.width);
            assert(g.height * g.width <= (i / g.width) * g.width);
            vstd::arithmetic::mul::lemma_mul_is_commutative(g.height, g.width);
            vstd::arithmetic::mul::lemma_mul_is_commutative(i / g.width, g.width);
        }
    }
    assert(i / g.width >= 0) by {
        vstd::arithmetic::div_mod::lemma_div_is_ordered(0, i, g.width);
    }
}

/// The row-major index of an in-bounds cell lies within the buffer.
pub proof fn lemma_idx_bounds<T>(g: GridView<T>, x: int, y: int) by (nonlinear_arith)
    requires
        g.wf(),
        g.in_bounds(x, y),
    ensures
        0 <= g.idx(x, y) < g.cells.len(),
        g.idx(x, y) < usize::MAX as int + 1,
{
}

/// Distinct in-bounds cells have distinct row-major indices.
pub proof fn lemma_idx_injective<T>(g: GridView<T>, x1: int, y1: int, x2: int, y2: int) by (nonlinear_arith)
    requires
        g.wf(),
        g.in_bounds(x1, y1),
        g.in_bounds(x2, y2),
        g.idx(x1, y1) == g.idx(x2, y2),
    ensures
        x1 == x2 && y1 == y2,
{
}

/// A row-major index built from a row below `y` lies below the index of row
/// `y`'s first cell.
pub proof fn lemma_row_major_lt(yy: int, xx: int, y: int, m: int) by (nonlinear_arith)
    requires
        0 <= yy < y,
        0 <= xx < m,
    ensures
        0 <= yy * m + xx < y * m,
{
}

/// Replacing one cell leaves the grid's size and every other cell unchanged.
pub proof fn lemma_with_cell_frame<T>(g: GridView<T>, x: int, y: int, value: T)
    requires
        g.wf(),
        g.in_bounds(x, y),
    ensures
        g.with_cell(x, y, value).wf(),
        g.with_cell(x, y, value).width == g.width,
        g.with_cell(x, y, value).height == g.height,
        g.with_cell(x, y, value).at(x, y) == value,
        forall|x2: int, y2: int|
            g.in_bounds(x2, y2) && (x2 != x || y2 != y) ==> g.with_cell(x, y, value).at(x2, y2)
                == g.at(x2, y2),
{
    lemma_idx_bounds(g, x, y);
    assert forall|x2: int, y2: int|
        g.in_bounds(x2, y2) && (x2 != x || y2 != y) implies g.with_cell(x, y, value).at(x2, y2)
        == g.at(x2, y2) by {
        lemma_idx_bounds(g, x2, y2);
        if g.idx(x2, y2) == g.idx(x, y) {
            lemma_idx_injective(g, x2, y2, x, y);
        }
    }
}

/// The containment test `extract_segment` makes: the rectangle's position and
/// far corner both lie inside the grid.
pub open spec fn spec_grid_contains_rect<T>(g: GridView<T>, rect: Rect2u) -> bool {
    let x0 = rect.spec_position().x as int;
    let y0 = rect.spec_position().y as int;
    let w = rect.spec_size().x as int;
    let h = rect.spec_size().y as int;
    &&& x0 < g.width
    &&& y0 < g.height
    &&& 1 <= x0 + w <= g.width
    &&& 1 <= y0 + h <= g.height
}

/// The sub-grid of `g` with corner `(x0, y0)` and the given side lengths, as
/// a value.
pub open spec fn spec_segment_grid<T>(g: GridView<T>, x0: int, y0: int, w: int, h: int) -> GridView<
    T,
> {
    GridView {
        width: w,
        height: h,
        cells: Seq::new((w * h) as nat, |i: int| g.at(x0 + i % w, y0 + i / w)),
    }
}

/// A well-formed grid whose cells copy a window of `g` equals the
/// corresponding segment grid.
pub proof fn lemma_segment_grid_eq<T>(g: GridView<T>, out: GridView<T>, x0: int, y0: int)
    requires
        out.wf(),
        forall|x: int, y: int|
            out.in_bounds(x, y) ==> #[trigger] out.at(x, y) == g.at(x0 + x, y0 + y),
    ensures
        out == spec_segment_grid(g, x0, y0, out.width, out.height),
{
    let sg = spec_segment_grid(g, x0, y0, out.width, out.height);
    assert(sg.cells.len() == out.cells.len());
    assert forall|i: int| 0 <= i < out.cells.len() implies out.cells[i] == sg.cells[i] by {
        lemma_idx_of_flat(out, i);
        let x = i % out.width;
        let y = i / out.width;
        assert(out.at(x, y) == out.cells[i]);
        assert(sg.cells[i] == g.at(x0 + x, y0 + y));
    }
    assert(out.cells =~= sg.cells);
}

/// A generic grid of cells with a fixed size
#[derive(Debug, Clone, PartialEq)]
pub struct Grid<T> {
    /// Size of the grid
    size: Vector2u,
    /// Vector containing the grid's cells
    data: Vec<T>,
}

impl<T> View for Grid<T> {
    type V = GridView<T>;

    closed spec fn view(&self) -> GridView<T> {
        GridView { width: self.size.x as int, height: self.size.y as int, cells: self.data@ }
    }
}

impl<T> Grid<T> {
    /// Creates a grid of a given size, every cell holding the cell type's
    /// default value.
    pub fn new(size: Vector2u) -> (r: Self) where T: Default
        requires
            size.x * size.y <= usize::MAX,
        ensures
            r@.wf(),
            r@.width == size.x,
            r@.height == size.y,
            forall|i: int|
                0 <= i < r@.cells.len() ==> call_ensures(
                    <T as Default>::default,
                    (),
                    #[trigger] r@.cells[i],
                ),
    {
        let count: usize = (size.x as usize) * (size.y as usize);
        let mut data: Vec<T> = Vec::new();
        while data.len() < count
            invariant
                data.len() <= count,
                count == size.x * size.y,
                forall|i: int|
                    0 <= i < data.len() ==> call_ensures(
                        <T as Default>::default,
                        (),
                        #[trigger] data@[i],
                    ),
            decreases count - data.len(),
        {
            data.push(T::default());
        }
        Self { size, data }
    }

    /// Creates a grid of size M x N using the given row data.
    ///
    /// # Errors
    ///
    /// Returns an error if the given data buffer is empty, or if a dimension
    /// does not fit the grid's size type.
    pub fn from_data<const M: usize, const N: usize>(data: [[T; M]; N]) -> (r: Result<
        Self,
        RegenError,
    >) where T: Copy
        requires
            M * N <= usize::MAX,
        ensures
            N == 0 ==> r == Err::<Self, RegenError>(RegenError::InvalidArgument),
            (N > 0 && (M > u32::MAX || N > u32::MAX)) ==> r == Err::<Self, RegenError>(
                RegenError::Unexpected,
            ),
            (0 < N <= u32::MAX && M <= u32::MAX) ==> (r matches Ok(g) && {
                &&& g@.wf()
                &&& g@.width == M
                &&& g@.height == N
                &&& forall|x: int, y: int|
                    0 <= x < M && 0 <= y < N ==> #[trigger] g@.at(x, y) == data@[y]@[x]
            }),
    {
        if N == 0 {
            return Err(RegenError::InvalidArgument);
        }
        if M > u32::MAX as usize || N > u32::MAX as usize {
            return Err(RegenError::Unexpected);
        }
        let width: u32 = M as u32;
        let height: u32 = N as u32;
        let mut cells: Vec<T> = Vec::new();
        let mut y: usize = 0;
        while y < N
            invariant
                0 <= y <= N,
                M * N <= usize::MAX,
                cells.len() == y * M,
                forall|yy: int, xx: int|
                    0 <= yy < y && 0 <= xx < M ==> #[trigger] cells@[yy * M + xx] == data@[yy]@[xx],
            decreases N - y,
        {
            let ghost prev_len = cells.len() as int;
            let mut x: usize = 0;
            proof {
                assert((y + 1) * M <= N * M && y * M + M == (y + 1) * M && N * M == M * N)
                    by (nonlinear_arith)
                    requires 0 <= y < N;
            }
            while x < M
                invariant
                    0 <= x <= M,
                    0 <= y < N,
                    prev_len == y * M,
                    prev_len + M <= usize::MAX,
                    cells.len() == prev_len + x,
                    forall|yy: int, xx: int|
                        0 <= yy < y && 0 <= xx < M ==> #[trigger] cells@[yy * M + xx]
                            == data@[yy]@[xx],
                    forall|xx: int|
                        0 <= xx < x ==> #[trigger] cells@[prev_len + xx] == data@[y as int]@[xx],
                decreases M - x,
            {
                cells.push(data[y][x]);
                x += 1;
                proof {
                    assert forall|yy: int, xx: int|
                        0 <= yy < y && 0 <= xx < M implies #[trigger] cells@[yy * M + xx]
                        == data@[yy]@[xx] by {
                        lemma_row_major_lt(yy, xx, y as int, M as int);
                    }
                }
            }
            proof {
                assert forall|yy: int, xx: int|
                    0 <= yy < y + 1 && 0 <= xx < M implies #[trigger] cells@[yy * M + xx]
                    == data@[yy]@[xx] by {
                    if yy == y {
                        assert(yy * M + xx == prev_len + xx);
                        assert(cells@[prev_len + xx] == data@[yy]@[xx]);
                    }
                }
            }
            y += 1;
        }
        proof {
            assert(N * M == M * N) by (nonlinear_arith);
            assert forall|x: int, yy: int| 0 <= x < M && 0 <= yy < N implies cells@[yy * M + x]
                == data@[yy]@[x] by {}
        }
        let g = Self { size: Vector2::new(width, height), data: cells };
        proof {
            assert forall|x: int, yy: int| 0 <= x < M && 0 <= yy < N implies #[trigger] g@.at(
                x,
                yy,
            ) == data@[yy]@[x] by {
                assert(g@.idx(x, yy) == yy * M + x);
            }
        }
        Ok(g)
    }

    /// Returns the size of the grid.
    pub fn size(&self) -> (r: Vector2u)
        ensures
            r.x == self@.width,
            r.y == self@.height,
    {
        self.size
    }

    /// Returns a reference to the grid's cells, row-major.
    pub fn data(&self) -> (r: &[T])
        ensures
            r@ == self@.cells,
    {
        self.data.as_slice()
    }

    /// Returns a mutable reference to the grid's cells, row-major.
    pub fn mut_data(&mut self) -> (r: &mut [T])
        ensures
            r@ == old(self)@.cells,
            final(self)@.cells == final(r)@,
            final(self)@.width == old(self)@.width,
            final(self)@.height == old(self)@.height,
    {
        self.data.as_mut_slice()
    }

    /// Returns the value of the cell at the given position.
    ///
    /// # Errors
    ///
    /// Returns an error if the given position is out of grid bounds.
    pub fn get(&self, point: Vector2u) -> (r: Result<&T, RegenError>)
        requires
            self@.wf(),
        ensures
            self@.in_bounds(point.x as int, point.y as int) ==> (r matches Ok(v) && *v == self@.at(
                point.x as int,
                point.y as int,
            )),
            !self@.in_bounds(point.x as int, point.y as int) ==> r == Err::<&T, RegenError>(
                RegenError::OutOfBounds,
            ),
    {
        if point.x >= self.size.x || point.y >= self.size.y {
            Err(RegenError::OutOfBounds)
        } else {
            Ok(self.cell(point.x, point.y))
        }
    }

    /// Sets the cell at the given position to the given value.
    ///
    /// # Errors
    ///
    /// Returns an error if the given position is out of grid bounds.
    pub fn set(&mut self, point: Vector2u, value: T) -> (r: Result<(), RegenError>)
        requires
            old(self)@.wf(),
        ensures
            final(self)@.wf(),
            old(self)@.in_bounds(point.x as int, point.y as int) ==> r == Ok::<(), RegenError>(())
                && final(self)@ == old(self)@.with_cell(point.x as int, point.y as int, value),
            !old(self)@.in_bounds(point.x as int, point.y as int) ==> r == Err::<(), RegenError>(
                RegenError::OutOfBounds,
            ) && final(self)@ == old(self)@,
    {
        if point.x >= self.size.x || point.y >= self.size.y {
            Err(RegenError::OutOfBounds)
        } else {
            self.put(point.x, point.y, value);
            Ok(())
        }
    }

    /// Maps the cell values to type G using the given mapper.
    pub fn map<G, F: Fn(&T) -> G>(&self, mapper: F) -> (r: Grid<G>)
        requires
            self@.wf(),
            forall|i: int|
                0 <= i < self@.cells.len() ==> call_requires(mapper, (&self@.cells[i],)),
        ensures
            r@.wf(),
            r@.width == self@.width,
            r@.height == self@.height,
            forall|i: int|
                0 <= i < self@.cells.len() ==> call_ensures(
                    mapper,
                    (&self@.cells[i],),
                    #[trigger] r@.cells[i],
                ),
    {
        let mut out: Vec<G> = Vec::new();
        let n = self.data.len();
        let mut i: usize = 0;
        while i < n
            invariant
                0 <= i <= n,
                n == self@.cells.len(),
                self@.wf(),
                out.len() == i,
                forall|j: int|
                    0 <= j < self@.cells.len() ==> call_requires(mapper, (&self@.cells[j],)),
                forall|j: int|
                    0 <= j < i ==> call_ensures(mapper, (&self@.cells[j],), #[trigger] out@[j]),
            decreases n - i,
        {
            let value = mapper(&self.data[i]);
            out.push(value);
            i += 1;
        }
        Grid { size: self.size, data: out }
    }

    /// Extracts a rectangular segment of the grid as a separate grid.
    ///
    /// # Errors
    ///
    /// Returns an error if the given rectangle exceeds grid bounds.
    pub fn extract_segment(&self, segment_rect: Rect2u) -> (r: Result<Grid<T>, RegenError>) where
        T: Copy + Default,

        requires
            self@.wf(),
        ensures
            !spec_grid_contains_rect(self@, segment_rect) ==> r == Err::<Grid<T>, RegenError>(
                RegenError::InvalidArgument,
            ),
            spec_grid_contains_rect(self@, segment_rect) ==> (r matches Ok(g) && {
                let x0 = segment_rect.spec_position().x as int;
                let y0 = segment_rect.spec_position().y as int;
                &&& g@.wf()
                &&& g@.width == segment_rect.spec_size().x
                &&& g@.height == segment_rect.spec_size().y
                &&& forall|x: int, y: int|
                    g@.in_bounds(x, y) ==> #[trigger] g@.at(x, y) == self@.at(x0 + x, y0 + y)
            }),
    {
        let pos = segment_rect.position();
        let sz = segment_rect.size();
        let contained = (pos.x as u64) < (self.size.x as u64) && (pos.y as u64) < (self.size.y
            as u64) && 1 <= (pos.x as u64) + (sz.x as u64) && (pos.x as u64) + (sz.x as u64)
            <= (self.size.x as u64) && 1 <= (pos.y as u64) + (sz.y as u64) && (pos.y as u64) + (sz.y
            as u64) <= (self.size.y as u64);
        if !contained {
            return Err(RegenError::InvalidArgument);
        }
        proof {
            assert(sz.x * sz.y <= self@.width * self@.height) by (nonlinear_arith)
                requires
                    0 <= sz.x <= self@.width,
                    0 <= sz.y <= self@.height,
            ;
        }
        let mut segment: Grid<T> = Grid::new(sz);
        let mut x: u32 = 0;
        while x < sz.x
            invariant
                0 <= x <= sz.x,
                self@.wf(),
                segment@.wf(),
                segment@.width == sz.x,
                segment@.height == sz.y,
                spec_grid_contains_rect(self@, segment_rect),
                pos == segment_rect.spec_position(),
                sz == segment_rect.spec_size(),
                forall|xx: int, yy: int|
                    0 <= xx < x && 0 <= yy < sz.y ==> #[trigger] segment@.at(xx, yy) == self@.at(
                        pos.x + xx,
                        pos.y + yy,
                    ),
            decreases sz.x - x,
        {
            let mut y: u32 = 0;
            while y < sz.y
                invariant
                    0 <= x < sz.x,
                    0 <= y <= sz.y,
                    self@.wf(),
                    segment@.wf(),
                    segment@.width == sz.x,
                    segment@.height == sz.y,
                    spec_grid_contains_rect(self@, segment_rect),
                    pos == segment_rect.spec_position(),
                    sz == segment_rect.spec_size(),
                    forall|xx: int, yy: int|
                        0 <= xx < x && 0 <= yy < sz.y ==> #[trigger] segment@.at(xx, yy)
                            == self@.at(pos.x + xx, pos.y + yy),
                    forall|yy: int|
                        0 <= yy < y ==> #[trigger] segment@.at(x as int, yy) == self@.at(
                            pos.x + x,
                            pos.y + yy,
                        ),
                decreases sz.y - y,
            {
                let value = *self.cell(pos.x + x, pos.y + y);
                let ghost pre = segment@;
                proof {
                    lemma_with_cell_frame(pre, x as int, y as int, value);
                }
                segment.put(x, y, value);
                proof {
                    assert(segment@ == pre.with_cell(x as int, y as int, value));
                    assert forall|xx: int, yy: int|
                        0 <= xx < x && 0 <= yy < sz.y implies #[trigger] segment@.at(xx, yy)
                        == self@.at(pos.x + xx, pos.y + yy) by {
                        assert(pre.at(xx, yy) == self@.at(pos.x + xx, pos.y + yy));
                        assert(segment@.at(xx, yy) == pre.at(xx, yy));
                    }
                    assert forall|yy: int| 0 <= yy < y + 1 implies #[trigger] segment@.at(
                        x as int,
                        yy,
                    ) == self@.at(pos.x + x, pos.y + yy) by {
                        if yy < y {
                            assert(pre.at(x as int, yy) == self@.at(pos.x + x, pos.y + yy));
                            assert(segment@.at(x as int, yy) == pre.at(x as int, yy));
                        } else {
                            assert(segment@.at(x as int, yy) == value);
                        }
                    }
                }
                y += 1;
            }
            x += 1;
        }
        Ok(segment)
    }

    /// Reads an in-bounds cell.
    pub(crate) fn cell(&self, x: u32, y: u32) -> (r: &T)
        requires
            self@.wf(),
            self@.in_bounds(x as int, y as int),
        ensures
            *r == self@.at(x as int, y as int),
    {
        proof {
            lemma_idx_bounds(self@, x as int, y as int);
        }
        let i = self.idx(Vector2::new(x, y));
        &self.data[i]
    }

    /// Overwrites an in-bounds cell.
    pub(crate) fn put(&mut self, x: u32, y: u32, value: T)
        requires
            old(self)@.wf(),
            old(self)@.in_bounds(x as int, y as int),
        ensures
            final(self)@ == old(self)@.with_cell(x as int, y as int, value),
            final(self)@.wf(),
    {
        proof {
            lemma_idx_bounds(old(self)@, x as int, y as int);
        }
        let i = self.idx(Vector2::new(x, y));
        self.data[i] = value;
    }

    /// The row-major buffer index of an in-bounds position.
    fn idx(&self, point: Vector2u) -> (r: usize)
        requires
            self@.wf(),
            self@.in_bounds(point.x as int, point.y as int),
        ensures
            r == self@.idx(point.x as int, point.y as int),
    {
        proof {
            lemma_idx_bounds(self@, point.x as int, point.y as int);
        }
        (point.y as usize) * (self.size.x as usize) + (point.x as usize)
    }
}

} // verus!
