use vstd::prelude::*;

verus! {

/// Everything that can go wrong in this library.  Each of these reports a
/// mistake of the caller; none of them is transient.
#[derive(Clone, Copy, Debug, PartialEq, Eq, Structural)]
pub enum ContourError {
    /// A grid was asked for with a width or a height below one.
    InvalidDimension,
    /// A sample or a cell was looked up outside the grid.
    OutOfRange,
    /// A configuration code above 15 was handed to the case table.
    InvalidConfiguration,
}

} // verus!
