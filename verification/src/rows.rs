//! Row classes of the bitwise row section of a subarray.

use vstd::prelude::*;

verus! {

/// Equivalent to either a DCC row or a T row in the bitwise row section. A DCC
/// row always refers to the non-inverted row.
#[derive(Clone, Copy, PartialEq, Eq, Structural, Debug)]
pub enum BitwiseRow {
    /// A true-cell row, by index.
    T(u8),
}

} // verus!
