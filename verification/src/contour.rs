//! The case table: from a configuration code to the segments of one cell.

use vstd::prelude::*;
use crate::cell::{Cell, Edge, Sample};
use crate::error::ContourError;

verus! {

/// A point of the plane in half world units: `x2` is twice the world `x`,
/// `y2` is twice the world `y`.  The world coordinate of a sample is its
/// lattice coordinate times the tile size, so the midpoint of two samples is
/// a whole number of half units.
#[derive(Clone, Copy, Debug, PartialEq, Eq, Structural)]
pub struct Point {
    pub x2: i64,
    pub y2: i64,
}

/// A straight piece of contour inside one cell.
#[derive(Clone, Copy, Debug, PartialEq, Eq, Structural)]
pub struct Segment {
    pub start: Point,
    pub end: Point,
}

/// One entry of the case table: the contour enters the cell through the
/// midpoint of `from` and leaves it through the midpoint of `to`.
#[derive(Clone, Copy, Debug, PartialEq, Eq, Structural)]
pub struct Crossing {
    pub from: Edge,
    pub to: Edge,
}

/// The arithmetic midpoint of two samples, scaled by the tile size.
pub open spec fn spec_midpoint(a: Sample, b: Sample, tile_size: u16) -> Point {
    Point { x2: ((a.x + b.x) * tile_size) as i64, y2: ((a.y + b.y) * tile_size) as i64 }
}

/// The midpoint never leaves the range of `i64`, so the coordinates of
/// [`spec_midpoint`] are the plain products.
pub proof fn lemma_midpoint_exact(a: Sample, b: Sample, tile_size: u16)
    ensures
        spec_midpoint(a, b, tile_size).x2 == (a.x + b.x) * tile_size,
        spec_midpoint(a, b, tile_size).y2 == (a.y + b.y) * tile_size,
{
    lemma_scaled_sum_fits(a.x, b.x, tile_size);
    lemma_scaled_sum_fits(a.y, b.y, tile_size);
}

proof fn lemma_scaled_sum_fits(p: i32, q: i32, tile_size: u16)
    ensures
        -0x1_0000_0000_0000 <= (p + q) * tile_size <= 0x1_0000_0000_0000,
{
    let s: int = p + q;
    let t: int = tile_size as int;
    assert(-0x1_0000_0000 <= s <= 0x1_0000_0000);
    assert(0 <= t <= 0x1_0000);
    assert(-0x1_0000_0000_0000 <= s * t <= 0x1_0000_0000_0000) by (nonlinear_arith)
        requires
            -0x1_0000_0000 <= s <= 0x1_0000_0000,
            0 <= t <= 0x1_0000,
    ;
}

/// Computes [`spec_midpoint`].
pub fn midpoint(a: &Sample, b: &Sample, tile_size: u16) -> (p: Point)
    ensures
        p == spec_midpoint(*a, *b, tile_size),
{
    proof {
        lemma_scaled_sum_fits(a.x, b.x, tile_size);
        lemma_scaled_sum_fits(a.y, b.y, tile_size);
    }
    let t: i64 = tile_size as i64;
    Point { x2: (a.x as i64 + b.x as i64) * t, y2: (a.y as i64 + b.y as i64) * t }
}

impl Cell {
    /// The two corners that an edge joins.
    pub open spec fn spec_edge_ends(self, edge: Edge) -> (Sample, Sample) {
        match edge {
            Edge::Bottom => (self.bot_left, self.bot_right),
            Edge::Left => (self.bot_left, self.top_left),
            Edge::Top => (self.top_left, self.top_right),
            Edge::Right => (self.bot_right, self.top_right),
        }
    }

    /// The midpoint of an edge, scaled by the tile size.
    pub open spec fn spec_edge_midpoint(self, edge: Edge, tile_size: u16) -> Point {
        spec_midpoint(self.spec_edge_ends(edge).0, self.spec_edge_ends(edge).1, tile_size)
    }

    /// Computes [`Cell::spec_edge_midpoint`].
    pub fn edge_midpoint(&self, edge: Edge, tile_size: u16) -> (p: Point)
        ensures
            p == self.spec_edge_midpoint(edge, tile_size),
    {
        match edge {
            Edge::Bottom => midpoint(&self.bot_left, &self.bot_right, tile_size),
            Edge::Left => midpoint(&self.bot_left, &self.top_left, tile_size),
            Edge::Top => midpoint(&self.top_left, &self.top_right, tile_size),
            Edge::Right => midpoint(&self.bot_right, &self.top_right, tile_size),
        }
    }
}

/// The case table.  Codes 0 and 15 describe a uniform cell and have no entry.
/// The two saddle codes, 5 and 10, have two entries each, paired so that the
/// two pieces do not cross.  Every other code has one entry, which it shares
/// with its complement.
pub open spec fn spec_crossings(code: int) -> Seq<Crossing> {
    if code == 1 || code == 14 {
        seq![Crossing { from: Edge::Left, to: Edge::Bottom }]
    } else if code == 2 || code == 13 {
        seq![Crossing { from: Edge::Bottom, to: Edge::Right }]
    } else if code == 3 || code == 12 {
        seq![Crossing { from: Edge::Left, to: Edge::Right }]
    } else if code == 4 || code == 11 {
        seq![Crossing { from: Edge::Top, to: Edge::Right }]
    } else if code == 5 {
        seq![
            Crossing { from: Edge::Left, to: Edge::Top },
            Crossing { from: Edge::Bottom, to: Edge::Right },
        ]
    } else if code == 6 || code == 9 {
        seq![Crossing { from: Edge::Bottom, to: Edge::Top }]
    } else if code == 7 || code == 8 {
        seq![Crossing { from: Edge::Left, to: Edge::Top }]
    } else if code == 10 {
        seq![
            Crossing { from: Edge::Left, to: Edge::Bottom },
            Crossing { from: Edge::Top, to: Edge::Right },
        ]
    } else {
        seq![]
    }
}

/// The segment that one entry of the table stands for in a given cell.
pub open spec fn spec_segment(cell: Cell, crossing: Crossing, tile_size: u16) -> Segment {
    Segment {
        start: cell.spec_edge_midpoint(crossing.from, tile_size),
        end: cell.spec_edge_midpoint(crossing.to, tile_size),
    }
}

/// The segments of a cell under a given code: one per entry of the table, in
/// the order of the table.
pub open spec fn spec_segments_for_code(cell: Cell, code: int, tile_size: u16) -> Seq<Segment> {
    Seq::new(
        spec_crossings(code).len(),
        |i: int| spec_segment(cell, spec_crossings(code)[i], tile_size),
    )
}

/// The segments of a cell under its own configuration code.
pub open spec fn spec_segments_for(cell: Cell, tile_size: u16) -> Seq<Segment> {
    spec_segments_for_code(cell, cell.spec_config_code(), tile_size)
}

/// The entries of the case table for a code between 0 and 15.
fn table_entry(code: u8) -> (table: Vec<Crossing>)
    requires
        code <= 15,
    ensures
        table@ == spec_crossings(code as int),
{
    let table = if code == 0 || code == 15 {
        Vec::new()
    } else if code == 1 || code == 14 {
        vec![Crossing { from: Edge::Left, to: Edge::Bottom }]
    } else if code == 2 || code == 13 {
        vec![Crossing { from: Edge::Bottom, to: Edge::Right }]
    } else if code == 3 || code == 12 {
        vec![Crossing { from: Edge::Left, to: Edge::Right }]
    } else if code == 4 || code == 11 {
        vec![Crossing { from: Edge::Top, to: Edge::Right }]
    } else if code == 5 {
        vec![
            Crossing { from: Edge::Left, to: Edge::Top },
            Crossing { from: Edge::Bottom, to: Edge::Right },
        ]
    } else if code == 6 || code == 9 {
        vec![Crossing { from: Edge::Bottom, to: Edge::Top }]
    } else if code == 7 || code == 8 {
        vec![Crossing { from: Edge::Left, to: Edge::Top }]
    } else {
        vec![
            Crossing { from: Edge::Left, to: Edge::Bottom },
            Crossing { from: Edge::Top, to: Edge::Right },
        ]
    };
    assert(table@ =~= spec_crossings(code as int));
    table
}

/// Places every entry of `table` on the edges of `cell`.
fn place(cell: &Cell, table: &Vec<Crossing>, tile_size: u16) -> (segments: Vec<Segment>)
    ensures
        segments@ == Seq::new(table@.len(), |i: int| spec_segment(*cell, table@[i], tile_size)),
{
    let mut segments: Vec<Segment> = Vec::new();
    let mut i: usize = 0;
    while i < table.len()
        invariant
            i <= table.len(),
            segments@.len() == i,
            forall|j: int|
                0 <= j < i ==> segments@[j] == spec_segment(*cell, table@[j], tile_size),
        decreases table.len() - i,
    {
        let crossing = table[i];
        let start = cell.edge_midpoint(crossing.from, tile_size);
        let end = cell.edge_midpoint(crossing.to, tile_size);
        segments.push(Segment { start, end });
        i += 1;
    }
    assert(segments@ =~= Seq::new(
        table@.len(),
        |i: int| spec_segment(*cell, table@[i], tile_size),
    ));
    segments
}

/// Looks a configuration code up in the case table.
///
/// A code above 15 cannot come out of [`Cell::config_code`]; it is refused
/// rather than answered with an empty list.
pub fn crossings(code: u8) -> (r: Result<Vec<Crossing>, ContourError>)
    ensures
        code <= 15 ==> r is Ok && r->Ok_0@ == spec_crossings(code as int),
        code > 15 ==> r == Err::<Vec<Crossing>, ContourError>(ContourError::InvalidConfiguration),
{
    if code > 15 {
        Err(ContourError::InvalidConfiguration)
    } else {
        Ok(table_entry(code))
    }
}

/// The segments of `cell` under the table entry for `code`, with endpoints on
/// the midpoints of the cell's edges, scaled by `tile_size`.
pub fn segments_for_code(cell: &Cell, code: u8, tile_size: u16) -> (r: Result<
    Vec<Segment>,
    ContourError,
>)
    ensures
        code <= 15 ==> r is Ok && r->Ok_0@ == spec_segments_for_code(
            *cell,
            code as int,
            tile_size,
        ),
        code > 15 ==> r == Err::<Vec<Segment>, ContourError>(ContourError::InvalidConfiguration),
{
    if code > 15 {
        Err(ContourError::InvalidConfiguration)
    } else {
        let table = table_entry(code);
        Ok(place(cell, &table, tile_size))
    }
}

/// The segments of `cell` under its own configuration code.
pub fn segments_for(cell: &Cell, tile_size: u16) -> (segments: Vec<Segment>)
    ensures
        segments@ == spec_segments_for(*cell, tile_size),
{
    let table = table_entry(cell.config_code());
    place(cell, &table, tile_size)
}

/// Two edges that face each other across the cell.  A piece of contour
/// between opposite edges cuts the cell in two.
pub open spec fn spec_opposite(a: Edge, b: Edge) -> bool {
    ||| a == Edge::Left && b == Edge::Right
    ||| a == Edge::Right && b == Edge::Left
    ||| a == Edge::Bottom && b == Edge::Top
    ||| a == Edge::Top && b == Edge::Bottom
}

/// At both ends of `upper` the value `y - x` is larger than at both ends of
/// `lower`: a rising diagonal runs between the two segments, so they have no
/// point in common.
pub open spec fn spec_apart_along_rising_diagonal(upper: Segment, lower: Segment) -> bool {
    &&& upper.start.y2 - upper.start.x2 > lower.start.y2 - lower.start.x2
    &&& upper.start.y2 - upper.start.x2 > lower.end.y2 - lower.end.x2
    &&& upper.end.y2 - upper.end.x2 > lower.start.y2 - lower.start.x2
    &&& upper.end.y2 - upper.end.x2 > lower.end.y2 - lower.end.x2
}

/// At both ends of `lower` the value `x + y` is smaller than at both ends of
/// `upper`: a falling diagonal runs between the two segments, so they have no
/// point in common.
pub open spec fn spec_apart_along_falling_diagonal(lower: Segment, upper: Segment) -> bool {
    &&& lower.start.x2 + lower.start.y2 < upper.start.x2 + upper.start.y2
    &&& lower.start.x2 + lower.start.y2 < upper.end.x2 + upper.end.y2
    &&& lower.end.x2 + lower.end.y2 < upper.start.x2 + upper.start.y2
    &&& lower.end.x2 + lower.end.y2 < upper.end.x2 + upper.end.y2
}

/// In a cell taken from the lattice at `(x, y)`, the midpoint of each edge in
/// half world units.
pub proof fn lemma_edge_midpoints_of_lattice_cell(cell: Cell, x: int, y: int, tile_size: u16)
    requires
        cell.spec_is_at(x, y),
    ensures
        cell.spec_edge_midpoint(Edge::Left, tile_size).x2 == 2 * x * tile_size,
        cell.spec_edge_midpoint(Edge::Left, tile_size).y2 == (2 * y + 1) * tile_size,
        cell.spec_edge_midpoint(Edge::Right, tile_size).x2 == (2 * x + 2) * tile_size,
        cell.spec_edge_midpoint(Edge::Right, tile_size).y2 == (2 * y + 1) * tile_size,
        cell.spec_edge_midpoint(Edge::Bottom, tile_size).x2 == (2 * x + 1) * tile_size,
        cell.spec_edge_midpoint(Edge::Bottom, tile_size).y2 == 2 * y * tile_size,
        cell.spec_edge_midpoint(Edge::Top, tile_size).x2 == (2 * x + 1) * tile_size,
        cell.spec_edge_midpoint(Edge::Top, tile_size).y2 == (2 * y + 2) * tile_size,
{
    lemma_midpoint_exact(cell.bot_left, cell.top_left, tile_size);
    lemma_midpoint_exact(cell.bot_right, cell.top_right, tile_size);
    lemma_midpoint_exact(cell.bot_left, cell.bot_right, tile_size);
    lemma_midpoint_exact(cell.top_left, cell.top_right, tile_size);
}

/// The world position of a sample, in half world units.
pub open spec fn spec_position(sample: Sample, tile_size: u16) -> Point {
    spec_midpoint(sample, sample, tile_size)
}

/// Every endpoint is the midpoint of an edge and never a corner: in a cell
/// taken from the lattice, with a tile size above zero, no segment of any code
/// starts or ends at the position of one of the four samples of the cell.
pub proof fn lemma_endpoints_are_never_corners(
    cell: Cell,
    x: int,
    y: int,
    code: int,
    tile_size: u16,
    i: int,
)
    requires
        cell.spec_is_at(x, y),
        tile_size > 0,
        0 <= i < spec_segments_for_code(cell, code, tile_size).len(),
    ensures
        ({
            let segment = spec_segments_for_code(cell, code, tile_size)[i];
            let entry = spec_crossings(code)[i];
            &&& segment.start == cell.spec_edge_midpoint(entry.from, tile_size)
            &&& segment.end == cell.spec_edge_midpoint(entry.to, tile_size)
            &&& forall|corner: Sample|
                corner == cell.bot_left || corner == cell.bot_right || corner == cell.top_right
                    || corner == cell.top_left ==> segment.start != #[trigger] spec_position(
                    corner,
                    tile_size,
                ) && segment.end != spec_position(corner, tile_size)
        }),
{
    lemma_edge_midpoints_of_lattice_cell(cell, x, y, tile_size);
    lemma_midpoint_exact(cell.bot_left, cell.bot_left, tile_size);
    lemma_midpoint_exact(cell.bot_right, cell.bot_right, tile_size);
    lemma_midpoint_exact(cell.top_right, cell.top_right, tile_size);
    lemma_midpoint_exact(cell.top_left, cell.top_left, tile_size);
    let t = tile_size as int;
    let xt = x * t;
    let yt = y * t;
    assert(2 * x * t == 2 * xt && (2 * x + 1) * t == 2 * xt + t && (2 * x + 2) * t == 2 * xt + 2
        * t && (x + x) * t == 2 * xt && (x + 1 + (x + 1)) * t == 2 * xt + 2 * t)
        by (nonlinear_arith)
        requires
            xt == x * t,
    ;
    assert(2 * y * t == 2 * yt && (2 * y + 1) * t == 2 * yt + t && (2 * y + 2) * t == 2 * yt + 2
        * t && (y + y) * t == 2 * yt && (y + 1 + (y + 1)) * t == 2 * yt + 2 * t)
        by (nonlinear_arith)
        requires
            yt == y * t,
    ;
}

/// Complement symmetry of the table: a code and the code of the complemented
/// states, `15 - code`, have the same entries and so give the same segments in
/// every cell.  The two saddle codes are left out: they are each other's
/// complement and are resolved in opposite ways.
pub proof fn lemma_complement_symmetry(cell: Cell, code: int, tile_size: u16)
    requires
        0 <= code <= 15,
        code != 5,
        code != 10,
    ensures
        spec_crossings(15 - code) == spec_crossings(code),
        spec_segments_for_code(cell, 15 - code, tile_size) == spec_segments_for_code(
            cell,
            code,
            tile_size,
        ),
{
    assert(spec_crossings(15 - code) =~= spec_crossings(code));
    assert(spec_segments_for_code(cell, 15 - code, tile_size) =~= spec_segments_for_code(
        cell,
        code,
        tile_size,
    ));
}

/// Complement symmetry of cells: turning every corner of a cell around turns
/// its code `c` into `15 - c` and, unless the cell is a saddle, leaves its
/// segments as they were.
pub proof fn lemma_complemented_cell(cell: Cell, tile_size: u16)
    ensures
        cell.spec_complement().spec_config_code() == 15 - cell.spec_config_code(),
        cell.spec_config_code() != 5 && cell.spec_config_code() != 10 ==> spec_segments_for(
            cell.spec_complement(),
            tile_size,
        ) == spec_segments_for(cell, tile_size),
{
    let c = cell.spec_config_code();
    if c != 5 && c != 10 {
        lemma_complement_symmetry(cell, c, tile_size);
    }
    assert(spec_segments_for(cell.spec_complement(), tile_size) =~= spec_segments_for_code(
        cell,
        15 - c,
        tile_size,
    ));
}

/// Codes 0 and 15 have no segment, in any cell: a cell whose corners all agree
/// is crossed by no contour.
pub proof fn lemma_uniform_codes_are_empty(cell: Cell, tile_size: u16)
    ensures
        spec_segments_for_code(cell, 0, tile_size) == Seq::<Segment>::empty(),
        spec_segments_for_code(cell, 15, tile_size) == Seq::<Segment>::empty(),
        cell.spec_config_code() == 0 || cell.spec_config_code() == 15 ==> spec_segments_for(
            cell,
            tile_size,
        ).len() == 0,
        cell.spec_config_code() == 0 || cell.spec_config_code() == 15 <==> cell.bot_left.state
            == cell.bot_right.state && cell.bot_right.state == cell.top_right.state
            && cell.top_right.state == cell.top_left.state,
{
    assert(spec_segments_for_code(cell, 0, tile_size) =~= Seq::<Segment>::empty());
    assert(spec_segments_for_code(cell, 15, tile_size) =~= Seq::<Segment>::empty());
}

/// The codes with one corner apart from the other three (1, 2, 4, 8 and their
/// complements 14, 13, 11, 7) have exactly one segment, and the complement
/// has the same one.
pub proof fn lemma_corner_codes_have_one_segment(cell: Cell, code: int, tile_size: u16)
    requires
        code == 1 || code == 2 || code == 4 || code == 7 || code == 8 || code == 11 || code == 13
            || code == 14,
    ensures
        spec_segments_for_code(cell, code, tile_size).len() == 1,
        spec_segments_for_code(cell, 15 - code, tile_size) == spec_segments_for_code(
            cell,
            code,
            tile_size,
        ),
        !spec_opposite(spec_crossings(code)[0].from, spec_crossings(code)[0].to),
{
    lemma_complement_symmetry(cell, code, tile_size);
}

/// Codes 3 and 12 have exactly one segment, from the left edge to the right
/// edge; codes 6 and 9 have exactly one, from the bottom edge to the top edge.
pub proof fn lemma_bisecting_codes(cell: Cell, tile_size: u16)
    ensures
        spec_segments_for_code(cell, 3, tile_size) == seq![
            spec_segment(cell, Crossing { from: Edge::Left, to: Edge::Right }, tile_size),
        ],
        spec_segments_for_code(cell, 12, tile_size) == spec_segments_for_code(cell, 3, tile_size),
        spec_segments_for_code(cell, 6, tile_size) == seq![
            spec_segment(cell, Crossing { from: Edge::Bottom, to: Edge::Top }, tile_size),
        ],
        spec_segments_for_code(cell, 9, tile_size) == spec_segments_for_code(cell, 6, tile_size),
{
    assert(spec_segments_for_code(cell, 3, tile_size) =~= seq![
        spec_segment(cell, Crossing { from: Edge::Left, to: Edge::Right }, tile_size),
    ]);
    assert(spec_segments_for_code(cell, 6, tile_size) =~= seq![
        spec_segment(cell, Crossing { from: Edge::Bottom, to: Edge::Top }, tile_size),
    ]);
    lemma_complement_symmetry(cell, 3, tile_size);
    lemma_complement_symmetry(cell, 6, tile_size);
}

/// In a cell taken from the lattice at `(x, y)` the segment of codes 3 and 12
/// is the horizontal line at half height and the segment of codes 6 and 9 is
/// the vertical line at half width, each from one side of the cell to the
/// other: both cut the cell into two equal halves.
pub proof fn lemma_bisecting_segments_halve_the_cell(cell: Cell, x: int, y: int, tile_size: u16)
    requires
        cell.spec_is_at(x, y),
    ensures
        ({
            let across = spec_segments_for_code(cell, 3, tile_size)[0];
            &&& across.start.y2 == (2 * y + 1) * tile_size
            &&& across.end.y2 == (2 * y + 1) * tile_size
            &&& across.start.x2 == 2 * x * tile_size
            &&& across.end.x2 == (2 * x + 2) * tile_size
        }),
        ({
            let upright = spec_segments_for_code(cell, 6, tile_size)[0];
            &&& upright.start.x2 == (2 * x + 1) * tile_size
            &&& upright.end.x2 == (2 * x + 1) * tile_size
            &&& upright.start.y2 == 2 * y * tile_size
            &&& upright.end.y2 == (2 * y + 2) * tile_size
        }),
{
    lemma_edge_midpoints_of_lattice_cell(cell, x, y, tile_size);
}

/// The saddle codes, 5 and 10, have exactly two segments each.  Code 5 joins
/// left to top and bottom to right; code 10 joins left to bottom and top to
/// right.  Either way the two segments use four different edges, and neither
/// joins two opposite edges: this is never the pairing left to right with
/// bottom to top, whose segments would cross.
pub proof fn lemma_saddle_codes(cell: Cell, code: int, tile_size: u16)
    requires
        code == 5 || code == 10,
    ensures
        spec_crossings(5) == seq![
            Crossing { from: Edge::Left, to: Edge::Top },
            Crossing { from: Edge::Bottom, to: Edge::Right },
        ],
        spec_crossings(10) == seq![
            Crossing { from: Edge::Left, to: Edge::Bottom },
            Crossing { from: Edge::Top, to: Edge::Right },
        ],
        spec_segments_for_code(cell, code, tile_size).len() == 2,
        ({
            let first = spec_crossings(code)[0];
            let second = spec_crossings(code)[1];
            &&& first.from != first.to && first.from != second.from && first.from != second.to
            &&& first.to != second.from && first.to != second.to && second.from != second.to
            &&& !spec_opposite(first.from, first.to)
            &&& !spec_opposite(second.from, second.to)
        }),
{
    assert(spec_crossings(5) =~= seq![
        Crossing { from: Edge::Left, to: Edge::Top },
        Crossing { from: Edge::Bottom, to: Edge::Right },
    ]);
    assert(spec_crossings(10) =~= seq![
        Crossing { from: Edge::Left, to: Edge::Bottom },
        Crossing { from: Edge::Top, to: Edge::Right },
    ]);
}

/// In a cell taken from the lattice, with a tile size above zero, the two
/// segments of a saddle code have no endpoint in common, and a diagonal of the
/// cell runs strictly between them: the rising one for code 5, the falling one
/// for code 10.  So the two segments do not meet.
pub proof fn lemma_saddle_segments_stay_apart(cell: Cell, x: int, y: int, tile_size: u16)
    requires
        cell.spec_is_at(x, y),
        tile_size > 0,
    ensures
        ({
            let five = spec_segments_for_code(cell, 5, tile_size);
            &&& spec_apart_along_rising_diagonal(five[0], five[1])
            &&& five[0].start != five[1].start && five[0].start != five[1].end
            &&& five[0].end != five[1].start && five[0].end != five[1].end
        }),
        ({
            let ten = spec_segments_for_code(cell, 10, tile_size);
            &&& spec_apart_along_falling_diagonal(ten[0], ten[1])
            &&& ten[0].start != ten[1].start && ten[0].start != ten[1].end
            &&& ten[0].end != ten[1].start && ten[0].end != ten[1].end
        }),
{
    lemma_edge_midpoints_of_lattice_cell(cell, x, y, tile_size);
    let t = tile_size as int;
    let xt = x * t;
    let yt = y * t;
    assert(2 * x * t == 2 * xt && (2 * x + 1) * t == 2 * xt + t && (2 * x + 2) * t == 2 * xt + 2
        * t) by (nonlinear_arith)
        requires
            xt == x * t,
    ;
    assert(2 * y * t == 2 * yt && (2 * y + 1) * t == 2 * yt + t && (2 * y + 2) * t == 2 * yt + 2
        * t) by (nonlinear_arith)
        requires
            yt == y * t,
    ;
}

} // verus!
