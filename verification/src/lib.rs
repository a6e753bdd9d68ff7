//! A compiler back end that lowers a majority-inverter graph (MIG) — a Boolean
//! network whose only gates are three-input majority and inversion — into a
//! straight-line program of DRAM row operations: triple-row activation (TRA)
//! for majority, activate-activate-precharge (AAP) row copies, and in-place
//! negation.
//!
//! The crate covers the row allocator / compiler and the cost model used by an
//! e-graph extractor to choose among equivalent MIG nodes. The e-graph engine
//! itself, logging, timing and foreign-function glue are outside collaborators
//! and are not part of this library.

use vstd::prelude::*;

pub mod architecture;
pub mod compilation;
pub mod extraction;
pub mod mig;
pub mod program;
pub mod rows;

use crate::rows::BitwiseRow;

verus! {

/// An operand of a bitwise row operation.
#[derive(Clone, Copy, PartialEq, Eq, Structural, Debug)]
pub enum BitwiseOperand {
    /// A true-cell row, by index.
    T(u8),
}

impl BitwiseOperand {
    /// The row the operand refers to.
    pub fn row(&self) -> (r: BitwiseRow)
        ensures
            *self matches BitwiseOperand::T(t) && r == BitwiseRow::T(t),
    {
        match self {
            BitwiseOperand::T(t) => BitwiseRow::T(*t),
        }
    }

    /// Whether the operand reads the inverted row; a T row never does.
    pub fn inverted(&self) -> (r: bool)
        ensures
            r == false,
    {
        false
    }
}

impl From<BitwiseRow> for BitwiseOperand {
    fn from(value: BitwiseRow) -> (r: Self) {
        match value {
            BitwiseRow::T(t) => BitwiseOperand::T(t),
        }
    }
}

impl vstd::std_specs::convert::FromSpecImpl<BitwiseRow> for BitwiseOperand {
    open spec fn obeys_from_spec() -> bool {
        true
    }

    open spec fn from_spec(value: BitwiseRow) -> Self {
        match value {
            BitwiseRow::T(t) => BitwiseOperand::T(t),
        }
    }
}

} // verus!
