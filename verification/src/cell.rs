use vstd::prelude::*;

verus! {

/// One lattice point and its state.
#[derive(Clone, Copy, Debug, PartialEq, Eq, Structural)]
pub struct Sample {
    pub x: i32,
    pub y: i32,
    pub state: bool,
}

/// One side of a cell.  The name of a side also stands for the midpoint of
/// that side, which is where a contour may cross it.
#[derive(Clone, Copy, Debug, PartialEq, Eq, Structural)]
pub enum Edge {
    /// Between `bot_left` and `bot_right`.
    Bottom,
    /// Between `bot_left` and `top_left`.
    Left,
    /// Between `top_left` and `top_right`.
    Top,
    /// Between `bot_right` and `top_right`.
    Right,
}

/// A 2x2 neighbourhood of samples, named by corner.
///
/// In a cell taken from a grid at `(x, y)` the corners are the samples at
/// `(x, y)`, `(x + 1, y)`, `(x + 1, y + 1)` and `(x, y + 1)`, in the order of
/// the fields.
#[derive(Clone, Copy, Debug, PartialEq, Eq, Structural)]
pub struct Cell {
    pub bot_left: Sample,
    pub bot_right: Sample,
    pub top_right: Sample,
    pub top_left: Sample,
}

/// The value of one bit of a configuration code.
pub open spec fn bit(on: bool) -> int {
    if on {
        1
    } else {
        0
    }
}

impl Cell {
    /// The configuration code as a number: bit 0 is `bot_left`, bit 1 is
    /// `bot_right`, bit 2 is `top_right`, bit 3 is `top_left`.
    pub open spec fn spec_config_code(self) -> int {
        bit(self.bot_left.state) + 2 * bit(self.bot_right.state) + 4 * bit(self.top_right.state)
            + 8 * bit(self.top_left.state)
    }

    /// The cell with every corner turned around: "on" becomes "off" and "off"
    /// becomes "on", each sample staying where it is.
    pub open spec fn spec_complement(self) -> Cell {
        Cell {
            bot_left: Sample { state: !self.bot_left.state, ..self.bot_left },
            bot_right: Sample { state: !self.bot_right.state, ..self.bot_right },
            top_right: Sample { state: !self.top_right.state, ..self.top_right },
            top_left: Sample { state: !self.top_left.state, ..self.top_left },
        }
    }

    /// The corners of this cell are the lattice points `(x, y)`, `(x + 1, y)`,
    /// `(x + 1, y + 1)` and `(x, y + 1)`.
    pub open spec fn spec_is_at(self, x: int, y: int) -> bool {
        &&& self.bot_left.x == x && self.bot_left.y == y
        &&& self.bot_right.x == x + 1 && self.bot_right.y == y
        &&& self.top_right.x == x + 1 && self.top_right.y == y + 1
        &&& self.top_left.x == x && self.top_left.y == y + 1
    }

    /// Packs the four corner states into a code between 0 and 15.
    pub fn config_code(&self) -> (code: u8)
        ensures
            code as int == self.spec_config_code(),
            code <= 15,
    {
        let bl: u8 = if self.bot_left.state { 1 } else { 0 };
        let br: u8 = if self.bot_right.state { 1 } else { 0 };
        let tr: u8 = if self.top_right.state { 1 } else { 0 };
        let tl: u8 = if self.top_left.state { 1 } else { 0 };
        assert(bl <= 1 && br <= 1 && tr <= 1 && tl <= 1 ==> (tl << 3 | tr << 2 | br << 1 | bl)
            == bl + 2 * br + 4 * tr + 8 * tl) by (bit_vector);
        tl << 3 | tr << 2 | br << 1 | bl
    }
}

/// The configuration code is one-to-one: it lies between 0 and 15, each
/// corner state can be read off its bit, and so two cells have the same code
/// exactly when their corners agree in state, corner by corner.
pub proof fn lemma_config_code_is_one_to_one(a: Cell, b: Cell)
    ensures
        0 <= a.spec_config_code() <= 15,
        a.bot_left.state == (a.spec_config_code() % 2 == 1),
        a.bot_right.state == ((a.spec_config_code() / 2) % 2 == 1),
        a.top_right.state == ((a.spec_config_code() / 4) % 2 == 1),
        a.top_left.state == ((a.spec_config_code() / 8) % 2 == 1),
        a.spec_config_code() == b.spec_config_code() <==> {
            &&& a.bot_left.state == b.bot_left.state
            &&& a.bot_right.state == b.bot_right.state
            &&& a.top_right.state == b.top_right.state
            &&& a.top_left.state == b.top_left.state
        },
{
}

} // verus!
