//! Why a comparison cannot be laid out or rendered.

use vstd::prelude::*;

verus! {

/// Why a comparison cannot be laid out or rendered.
#[derive(Clone, Copy, Debug, PartialEq, Eq, Structural)]
pub enum DiffError {
    /// The two texts hold more characters together than the line-level edit
    /// script can be computed for.
    InputTooLarge,
    /// The total width leaves no column for content beside the gutters.
    BudgetTooSmall,
    /// A character that is no whitespace is wider than the budget of a side.
    CharacterTooWide,
    /// The width of a row does not fit the machine's word.
    WidthOverflow,
}

} // verus!
