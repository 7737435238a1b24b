//! The full sweep: every cell of a grid with its segments.

use vstd::prelude::*;
use crate::cell::Cell;
use crate::contour::{segments_for, spec_segments_for, Segment};
use crate::grid::{
    lemma_sweep_index, spec_cell, spec_filled_by, spec_has_cell, spec_height, spec_is_field,
    spec_seeded_field, spec_sweep, spec_sweep_count, spec_width, SampleGrid,
};

verus! {

/// One cell of a sweep and the segments of the contour inside it.
#[derive(Debug, PartialEq, Eq)]
pub struct CellContour {
    pub cell: Cell,
    pub segments: Vec<Segment>,
}

impl View for CellContour {
    type V = (Cell, Seq<Segment>);

    open spec fn view(&self) -> (Cell, Seq<Segment>) {
        (self.cell, self.segments@)
    }
}

/// The views of a sequence of cell contours, one by one.
pub open spec fn spec_contour_views(contours: Seq<CellContour>) -> Seq<(Cell, Seq<Segment>)> {
    Seq::new(contours.len(), |i: int| contours[i]@)
}

/// What a sweep over a field gives: each cell of [`spec_sweep`], in order,
/// with its segments.
pub open spec fn spec_contours(states: Seq<Seq<bool>>, stride: int, tile_size: u16) -> Seq<
    (Cell, Seq<Segment>),
> {
    Seq::new(
        spec_sweep(states, stride).len(),
        |i: int|
            (
                spec_sweep(states, stride)[i],
                spec_segments_for(spec_sweep(states, stride)[i], tile_size),
            ),
    )
}

/// Sweeps the grid with the given stride and looks every cell up in the case
/// table.  The result lists the cells in the order of the sweep, each exactly
/// once and each with its segments.
pub fn extract(grid: &SampleGrid, stride: u32, tile_size: u16) -> (contours: Vec<CellContour>)
    requires
        stride >= 1,
    ensures
        spec_is_field(grid@),
        contours@.len() == spec_sweep(grid@, stride as int).len(),
        spec_contour_views(contours@) == spec_contours(grid@, stride as int, tile_size),
{
    let cells = grid.cells(stride);
    let mut contours: Vec<CellContour> = Vec::new();
    let mut i: usize = 0;
    while i < cells.len()
        invariant
            i <= cells.len(),
            contours@.len() == i,
            forall|j: int|
                0 <= j < i ==> (#[trigger] contours@[j])@ == (
                    cells@[j],
                    spec_segments_for(cells@[j], tile_size),
                ),
        decreases cells.len() - i,
    {
        let cell = cells[i];
        let segments = segments_for(&cell, tile_size);
        contours.push(CellContour { cell, segments });
        i += 1;
    }
    assert(spec_contour_views(contours@) =~= spec_contours(grid@, stride as int, tile_size));
    contours
}

/// A sweep with stride 1 takes every cell of the field exactly once: there
/// are `(width - 1) * (height - 1)` places in it, and the cell at `(x, y)`
/// stands at place `x * (height - 1) + y`, a different place for every cell.
pub proof fn lemma_dense_sweep_takes_every_cell(states: Seq<Seq<bool>>, x: int, y: int)
    requires
        spec_is_field(states),
        spec_has_cell(states, x, y),
    ensures
        spec_sweep(states, 1).len() == (spec_width(states) - 1) * (spec_height(states) - 1),
        0 <= x * (spec_height(states) - 1) + y < spec_sweep(states, 1).len(),
        spec_sweep(states, 1)[x * (spec_height(states) - 1) + y] == spec_cell(states, x, y),
        forall|i: int, j: int|
            spec_has_cell(states, i, j) && (i != x || j != y) ==> i * (spec_height(states) - 1) + j
                != x * (spec_height(states) - 1) + y,
{
    let up = spec_height(states) - 1;
    assert(spec_sweep_count(spec_width(states), 1) == spec_width(states) - 1);
    assert(spec_sweep_count(spec_height(states), 1) == up);
    lemma_sweep_index(states, 1, x, y);
    assert forall|i: int, j: int| spec_has_cell(states, i, j) && (i != x || j != y) implies i * up
        + j != x * up + y by {
        assert(i * up + j != x * up + y) by (nonlinear_arith)
            requires
                0 <= j < up,
                0 <= y < up,
                i != x || j != y,
        ;
    }
}

/// In a sweep with a stride of two or more, two different cells have no
/// sample in common: their origins lie at least a stride apart along one
/// axis, and a cell covers only two samples along each.
pub proof fn lemma_tiled_cells_lie_apart(
    states: Seq<Seq<bool>>,
    stride: int,
    kx: int,
    ky: int,
    lx: int,
    ly: int,
)
    requires
        spec_is_field(states),
        stride >= 2,
        0 <= kx < spec_sweep_count(spec_width(states), stride),
        0 <= ky < spec_sweep_count(spec_height(states), stride),
        0 <= lx < spec_sweep_count(spec_width(states), stride),
        0 <= ly < spec_sweep_count(spec_height(states), stride),
        kx != lx || ky != ly,
    ensures
        ({
            let up = spec_sweep_count(spec_height(states), stride);
            let a = spec_sweep(states, stride)[kx * up + ky];
            let b = spec_sweep(states, stride)[lx * up + ly];
            ||| a.top_right.x < b.bot_left.x
            ||| b.top_right.x < a.bot_left.x
            ||| a.top_right.y < b.bot_left.y
            ||| b.top_right.y < a.bot_left.y
        }),
{
    lemma_sweep_index(states, stride, kx, ky);
    lemma_sweep_index(states, stride, lx, ly);
    assert(kx < lx ==> kx * stride + 2 <= lx * stride) by (nonlinear_arith)
        requires
            stride >= 2,
    ;
    assert(lx < kx ==> lx * stride + 2 <= kx * stride) by (nonlinear_arith)
        requires
            stride >= 2,
    ;
    assert(ky < ly ==> ky * stride + 2 <= ly * stride) by (nonlinear_arith)
        requires
            stride >= 2,
    ;
    assert(ly < ky ==> ly * stride + 2 <= ky * stride) by (nonlinear_arith)
        requires
            stride >= 2,
    ;
}

/// Building twice with the same generator gives the same grid and the same
/// contours, provided the generator answers each coordinate in one way only.
pub proof fn lemma_rebuild_is_identical<F: Fn(i32, i32) -> bool>(
    first: Seq<Seq<bool>>,
    second: Seq<Seq<bool>>,
    width: int,
    height: int,
    generator: F,
    stride: int,
    tile_size: u16,
)
    requires
        spec_filled_by(first, width, height, generator),
        spec_filled_by(second, width, height, generator),
        forall|x: i32, y: i32, a: bool, b: bool|
            call_ensures(generator, (x, y), a) && call_ensures(generator, (x, y), b) ==> a == b,
    ensures
        first == second,
        spec_contours(first, stride, tile_size) == spec_contours(second, stride, tile_size),
{
    assert forall|x: int| 0 <= x < width implies first[x] =~= second[x] by {
        assert(first[x].len() == first[0].len());
        assert(second[x].len() == second[0].len());
        assert forall|y: int| 0 <= y < height implies first[x][y] == second[x][y] by {
            assert(call_ensures(generator, (x as i32, y as i32), first[x][y]));
            assert(call_ensures(generator, (x as i32, y as i32), second[x][y]));
        }
    }
    assert(first =~= second);
}

/// Building twice with the same seed gives the same grid and the same
/// contours.
pub proof fn lemma_seeded_rebuild_is_identical(
    first: Seq<Seq<bool>>,
    second: Seq<Seq<bool>>,
    width: int,
    height: int,
    seed: u64,
    stride: int,
    tile_size: u16,
)
    requires
        spec_seeded_field(first, width, height, seed),
        spec_seeded_field(second, width, height, seed),
    ensures
        first == second,
        spec_contours(first, stride, tile_size) == spec_contours(second, stride, tile_size),
{
    assert forall|x: int| 0 <= x < width implies first[x] =~= second[x] by {
        assert(first[x].len() == first[0].len());
        assert(second[x].len() == second[0].len());
    }
    assert(first =~= second);
}

} // verus!
