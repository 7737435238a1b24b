//! The sample grid: a rectangular field of states and the cells in it.

use vstd::prelude::*;
use crate::cell::{Cell, Sample};
use crate::error::ContourError;
use crate::source::{random_sample, seeded_state, spec_seeded_state};

verus! {

/// A rectangular field of sample states, stored column by column: the state
/// of the sample at `(x, y)` is `states[x][y]`.
///
/// The view of a grid is that field, a `Seq<Seq<bool>>`; the contracts of
/// this module are stated over it.
#[derive(Debug, PartialEq, Eq)]
pub struct SampleGrid {
    columns: Vec<Vec<bool>>,
}

/// What every grid's field satisfies: at least one column, at least one row,
/// all columns of one height, and both dimensions within `i32`.
pub open spec fn spec_is_field(states: Seq<Seq<bool>>) -> bool {
    &&& 1 <= states.len() <= i32::MAX
    &&& 1 <= states[0].len() <= i32::MAX
    &&& forall|x: int| 0 <= x < states.len() ==> (#[trigger] states[x]).len() == states[0].len()
}

/// The number of columns of a field.
pub open spec fn spec_width(states: Seq<Seq<bool>>) -> int {
    states.len() as int
}

/// The number of rows of a field.
pub open spec fn spec_height(states: Seq<Seq<bool>>) -> int {
    states[0].len() as int
}

/// Whether `(x, y)` is a lattice point of the field.
pub open spec fn spec_has_sample(states: Seq<Seq<bool>>, x: int, y: int) -> bool {
    0 <= x < spec_width(states) && 0 <= y < spec_height(states)
}

/// The sample at `(x, y)`.
pub open spec fn spec_sample(states: Seq<Seq<bool>>, x: int, y: int) -> Sample {
    Sample { x: x as i32, y: y as i32, state: states[x][y] }
}

/// Whether `(x, y)` is the bottom left corner of a cell of the field, that
/// is, whether `(x + 1, y + 1)` is a lattice point too.
pub open spec fn spec_has_cell(states: Seq<Seq<bool>>, x: int, y: int) -> bool {
    0 <= x <= spec_width(states) - 2 && 0 <= y <= spec_height(states) - 2
}

/// The cell whose bottom left corner is `(x, y)`.
pub open spec fn spec_cell(states: Seq<Seq<bool>>, x: int, y: int) -> Cell {
    Cell {
        bot_left: spec_sample(states, x, y),
        bot_right: spec_sample(states, x + 1, y),
        top_right: spec_sample(states, x + 1, y + 1),
        top_left: spec_sample(states, x, y + 1),
    }
}

/// The field is `width` by `height` and every state in it is one that
/// `generator` can return for the coordinates of its sample.
pub open spec fn spec_filled_by<F: Fn(i32, i32) -> bool>(
    states: Seq<Seq<bool>>,
    width: int,
    height: int,
    generator: F,
) -> bool {
    &&& spec_is_field(states)
    &&& spec_width(states) == width
    &&& spec_height(states) == height
    &&& forall|x: int, y: int|
        0 <= x < width && 0 <= y < height ==> call_ensures(
            generator,
            (x as i32, y as i32),
            #[trigger] states[x][y],
        )
}

/// How many cells a sweep takes along an axis of `n` samples: the origins
/// `0`, `stride`, `2 * stride`, ... for which the sample one full stride
/// further on is still on the axis.
pub open spec fn spec_sweep_count(n: int, stride: int) -> int {
    if n >= 1 && stride >= 1 {
        (n - 1) / stride
    } else {
        0
    }
}

/// The cells of a sweep with the given stride, in the order in which they are
/// taken: `x` in the outer loop, `y` in the inner loop, both from zero up in
/// steps of `stride`.
pub open spec fn spec_sweep(states: Seq<Seq<bool>>, stride: int) -> Seq<Cell> {
    let across = spec_sweep_count(spec_width(states), stride);
    let up = spec_sweep_count(spec_height(states), stride);
    Seq::new(
        (across * up) as nat,
        |i: int| spec_cell(states, (i / up) * stride, (i % up) * stride),
    )
}

/// Along an axis of `n` samples, the origin `k * stride` is taken by a sweep
/// exactly when `k` is below [`spec_sweep_count`].
pub proof fn lemma_sweep_count(n: int, stride: int, k: int)
    requires
        n >= 1,
        stride >= 1,
        k >= 0,
    ensures
        0 <= spec_sweep_count(n, stride) <= n - 1,
        k < spec_sweep_count(n, stride) <==> k * stride + stride < n,
{
    let q = (n - 1) / stride;
    let r = (n - 1) % stride;
    vstd::arithmetic::div_mod::lemma_fundamental_div_mod(n - 1, stride);
    vstd::arithmetic::div_mod::lemma_mod_bound(n - 1, stride);
    assert(0 <= q <= n - 1 && (k < q <==> k * stride + stride < n)) by (nonlinear_arith)
        requires
            n - 1 == stride * q + r,
            0 <= r < stride,
            n >= 1,
            k >= 0,
    ;
}

/// The place of the cell with origin `(kx * stride, ky * stride)` in a sweep.
pub proof fn lemma_sweep_index(states: Seq<Seq<bool>>, stride: int, kx: int, ky: int)
    requires
        spec_is_field(states),
        stride >= 1,
        0 <= kx < spec_sweep_count(spec_width(states), stride),
        0 <= ky < spec_sweep_count(spec_height(states), stride),
    ensures
        0 <= kx * spec_sweep_count(spec_height(states), stride) + ky < spec_sweep(
            states,
            stride,
        ).len(),
        spec_sweep(states, stride)[kx * spec_sweep_count(spec_height(states), stride) + ky]
            == spec_cell(states, kx * stride, ky * stride),
        spec_has_cell(states, kx * stride, ky * stride),
{
    let across = spec_sweep_count(spec_width(states), stride);
    let up = spec_sweep_count(spec_height(states), stride);
    let i = kx * up + ky;
    lemma_flat_index(across, up, kx, ky);
    lemma_sweep_count(spec_width(states), stride, kx);
    lemma_sweep_count(spec_height(states), stride, ky);
    assert(0 <= kx * stride && 0 <= ky * stride) by (nonlinear_arith)
        requires
            0 <= kx,
            0 <= ky,
            1 <= stride,
    ;
}

/// Row and column of the flat index `kx * up + ky`.
proof fn lemma_flat_index(across: int, up: int, kx: int, ky: int)
    requires
        0 <= kx < across,
        0 <= ky < up,
    ensures
        0 <= kx * up + ky < across * up,
        (kx * up + ky) / up == kx,
        (kx * up + ky) % up == ky,
{
    vstd::arithmetic::div_mod::lemma_fundamental_div_mod_converse(kx * up + ky, up, kx, ky);
    assert(0 <= kx * up + ky < across * up) by (nonlinear_arith)
        requires
            0 <= kx < across,
            0 <= ky < up,
    ;
}

/// The field is `width` by `height` and every state in it is the one that
/// the seed gives to its sample.
pub open spec fn spec_seeded_field(
    states: Seq<Seq<bool>>,
    width: int,
    height: int,
    seed: u64,
) -> bool {
    &&& spec_is_field(states)
    &&& spec_width(states) == width
    &&& spec_height(states) == height
    &&& forall|x: int, y: int|
        0 <= x < width && 0 <= y < height ==> #[trigger] states[x][y] == spec_seeded_state(
            seed,
            x as i32,
            y as i32,
        )
}

impl View for SampleGrid {
    type V = Seq<Seq<bool>>;

    closed spec fn view(&self) -> Seq<Seq<bool>> {
        Seq::new(self.columns@.len(), |x: int| self.columns@[x]@)
    }
}

impl SampleGrid {
    #[verifier::type_invariant]
    spec fn well_formed(self) -> bool {
        spec_is_field(self@)
    }

    /// Builds a `width` by `height` grid and asks `generator` once for the
    /// state of every sample, column by column and bottom to top.
    ///
    /// Fails with `InvalidDimension`, without asking `generator` anything, if
    /// `width` or `height` is below one.
    pub fn build<F: Fn(i32, i32) -> bool>(width: i32, height: i32, generator: F) -> (r: Result<
        SampleGrid,
        ContourError,
    >)
        requires
            forall|x: i32, y: i32|
                0 <= x < width && 0 <= y < height ==> call_requires(generator, (x, y)),
        ensures
            width >= 1 && height >= 1 ==> r is Ok && spec_filled_by(
                r->Ok_0@,
                width as int,
                height as int,
                generator,
            ),
            width < 1 || height < 1 ==> r is Err && r->Err_0 == ContourError::InvalidDimension,
    {
        if width < 1 || height < 1 {
            return Err(ContourError::InvalidDimension);
        }
        let mut columns: Vec<Vec<bool>> = Vec::new();
        let mut x: i32 = 0;
        while x < width
            invariant
                0 <= x <= width,
                1 <= height,
                columns@.len() == x,
                forall|i: int| 0 <= i < x ==> (#[trigger] columns@[i])@.len() == height,
                forall|i: int, j: int|
                    0 <= i < x && 0 <= j < height ==> call_ensures(
                        generator,
                        (i as i32, j as i32),
                        #[trigger] columns@[i]@[j],
                    ),
                forall|i: i32, j: i32|
                    0 <= i < width && 0 <= j < height ==> call_requires(generator, (i, j)),
            decreases width - x,
        {
            let mut column: Vec<bool> = Vec::new();
            let mut y: i32 = 0;
            while y < height
                invariant
                    0 <= x < width,
                    0 <= y <= height,
                    column@.len() == y,
                    forall|j: int|
                        0 <= j < y ==> call_ensures(
                            generator,
                            (x, j as i32),
                            #[trigger] column@[j],
                        ),
                    forall|i: i32, j: i32|
                        0 <= i < width && 0 <= j < height ==> call_requires(generator, (i, j)),
                decreases height - y,
            {
                let state = generator(x, y);
                column.push(state);
                y += 1;
            }
            columns.push(column);
            x += 1;
        }
        let grid = SampleGrid { columns };
        assert(spec_filled_by(grid@, width as int, height as int, generator));
        Ok(grid)
    }

    /// Builds a `width` by `height` grid of fair coin flips, one for every
    /// sample, from the thread's random generator.  No two calls need agree
    /// on any state.
    ///
    /// Fails with `InvalidDimension` if `width` or `height` is below one.
    pub fn random(width: i32, height: i32) -> (r: Result<SampleGrid, ContourError>)
        ensures
            width >= 1 && height >= 1 ==> r is Ok && spec_is_field(r->Ok_0@) && spec_width(
                r->Ok_0@,
            ) == width && spec_height(r->Ok_0@) == height,
            width < 1 || height < 1 ==> r is Err && r->Err_0 == ContourError::InvalidDimension,
    {
        let generator = |x: i32, y: i32| -> (state: bool) { random_sample(x, y).state };
        SampleGrid::build(width, height, generator)
    }

    /// Builds the `width` by `height` random field that belongs to `seed`.
    /// The state of a sample depends on the seed and on the sample's
    /// coordinates alone: the same seed gives the same field again, and a
    /// larger grid with the same seed agrees with a smaller one wherever they
    /// overlap.
    ///
    /// Fails with `InvalidDimension` if `width` or `height` is below one.
    pub fn seeded(width: i32, height: i32, seed: u64) -> (r: Result<SampleGrid, ContourError>)
        ensures
            width >= 1 && height >= 1 ==> r is Ok && spec_seeded_field(
                r->Ok_0@,
                width as int,
                height as int,
                seed,
            ),
            width < 1 || height < 1 ==> r is Err && r->Err_0 == ContourError::InvalidDimension,
    {
        let generator = |x: i32, y: i32| -> (state: bool)
            ensures
                state == spec_seeded_state(seed, x, y),
            { seeded_state(seed, x, y) };
        SampleGrid::build(width, height, generator)
    }

    /// The number of columns.
    pub fn width(&self) -> (w: i32)
        ensures
            w == spec_width(self@),
            spec_is_field(self@),
    {
        proof {
            use_type_invariant(self);
        }
        self.columns.len() as i32
    }

    /// The number of rows.
    pub fn height(&self) -> (h: i32)
        ensures
            h == spec_height(self@),
            spec_is_field(self@),
    {
        proof {
            use_type_invariant(self);
        }
        self.columns[0].len() as i32
    }

    /// The sample at `(x, y)`, or `OutOfRange` if the grid has no such sample.
    pub fn sample_at(&self, x: i32, y: i32) -> (r: Result<Sample, ContourError>)
        ensures
            spec_is_field(self@),
            spec_has_sample(self@, x as int, y as int) ==> r == Ok::<Sample, ContourError>(
                spec_sample(self@, x as int, y as int),
            ),
            !spec_has_sample(self@, x as int, y as int) ==> r == Err::<Sample, ContourError>(
                ContourError::OutOfRange,
            ),
    {
        proof {
            use_type_invariant(self);
        }
        if 0 <= x && x < self.width() && 0 <= y && y < self.height() {
            Ok(self.sample(x, y))
        } else {
            Err(ContourError::OutOfRange)
        }
    }

    /// The cell whose bottom left corner is `(x, y)`, or `OutOfRange` if the
    /// grid has no sample at `(x + 1, y + 1)`, or none at `(x, y)`.
    pub fn cell_at(&self, x: i32, y: i32) -> (r: Result<Cell, ContourError>)
        ensures
            spec_is_field(self@),
            spec_has_cell(self@, x as int, y as int) ==> r == Ok::<Cell, ContourError>(
                spec_cell(self@, x as int, y as int),
            ),
            !spec_has_cell(self@, x as int, y as int) ==> r == Err::<Cell, ContourError>(
                ContourError::OutOfRange,
            ),
    {
        proof {
            use_type_invariant(self);
        }
        if 0 <= x && x < self.width() - 1 && 0 <= y && y < self.height() - 1 {
            Ok(self.cell(x, y))
        } else {
            Err(ContourError::OutOfRange)
        }
    }

    /// The cells of a sweep over the whole grid, in the order of the sweep.
    ///
    /// With stride 1 these are all the cells of the grid, each overlapping its
    /// neighbours by one row or column of samples.  With a larger stride the
    /// cells lie apart, and a cell is taken only where the grid reaches a
    /// full stride beyond its origin.
    pub fn cells(&self, stride: u32) -> (cells: Vec<Cell>)
        requires
            stride >= 1,
        ensures
            spec_is_field(self@),
            cells@ == spec_sweep(self@, stride as int),
    {
        let width = self.width() as i64;
        let height = self.height() as i64;
        let step = stride as i64;
        let ghost across = spec_sweep_count(width as int, step as int);
        let ghost up = spec_sweep_count(height as int, step as int);
        let mut cells: Vec<Cell> = Vec::new();
        let mut x: i64 = 0;
        let ghost mut kx: int = 0;
        proof {
            lemma_sweep_count(width as int, step as int, 0);
            lemma_sweep_count(height as int, step as int, 0);
        }
        while x + step < width
            invariant
                spec_is_field(self@),
                width == spec_width(self@),
                height == spec_height(self@),
                1 <= step <= u32::MAX,
                across == spec_sweep_count(width as int, step as int),
                up == spec_sweep_count(height as int, step as int),
                0 <= up,
                0 <= kx <= across,
                x == kx * step,
                0 <= x < width,
                cells@.len() == kx * up,
                forall|i: int|
                    0 <= i < cells@.len() ==> #[trigger] cells@[i] == spec_cell(
                        self@,
                        (i / up) * step,
                        (i % up) * step,
                    ),
            decreases width - x,
        {
            proof {
                lemma_sweep_count(width as int, step as int, kx);
            }
            let mut y: i64 = 0;
            let ghost mut ky: int = 0;
            while y + step < height
                invariant
                    spec_is_field(self@),
                    width == spec_width(self@),
                    height == spec_height(self@),
                    1 <= step <= u32::MAX,
                    across == spec_sweep_count(width as int, step as int),
                    up == spec_sweep_count(height as int, step as int),
                    0 <= kx < across,
                    x == kx * step,
                    0 <= x,
                    x + step < width,
                    0 <= ky <= up,
                    y == ky * step,
                    0 <= y < height,
                    cells@.len() == kx * up + ky,
                    forall|i: int|
                        0 <= i < cells@.len() ==> #[trigger] cells@[i] == spec_cell(
                            self@,
                            (i / up) * step,
                            (i % up) * step,
                        ),
                decreases height - y,
            {
                proof {
                    lemma_sweep_count(height as int, step as int, ky);
                    lemma_flat_index(across, up, kx, ky);
                }
                cells.push(self.cell(x as i32, y as i32));
                y += step;
                proof {
                    assert((ky + 1) * step == ky * step + step) by (nonlinear_arith);
                    ky = ky + 1;
                }
            }
            proof {
                lemma_sweep_count(height as int, step as int, ky);
                assert((kx + 1) * up == kx * up + up) by (nonlinear_arith);
                assert((kx + 1) * step == kx * step + step) by (nonlinear_arith);
            }
            x += step;
            proof {
                kx = kx + 1;
            }
        }
        proof {
            lemma_sweep_count(width as int, step as int, kx);
            assert(cells@ =~= spec_sweep(self@, stride as int));
        }
        cells
    }

    fn sample(&self, x: i32, y: i32) -> (sample: Sample)
        requires
            spec_has_sample(self@, x as int, y as int),
        ensures
            sample == spec_sample(self@, x as int, y as int),
    {
        proof {
            use_type_invariant(self);
            assert(self@[x as int].len() == self@[0].len());
        }
        Sample { x, y, state: self.columns[x as usize][y as usize] }
    }

    fn cell(&self, x: i32, y: i32) -> (cell: Cell)
        requires
            spec_has_cell(self@, x as int, y as int),
        ensures
            cell == spec_cell(self@, x as int, y as int),
    {
        proof {
            use_type_invariant(self);
        }
        Cell {
            bot_left: self.sample(x, y),
            bot_right: self.sample(x + 1, y),
            top_right: self.sample(x + 1, y + 1),
            top_left: self.sample(x, y + 1),
        }
    }
}

} // verus!
