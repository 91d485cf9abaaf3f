use vstd::prelude::*;

verus! {

/// Direction of the ORDER BY clause of a SELECT.
#[derive(Clone, Copy, Debug, PartialEq, Eq, Structural)]
pub enum OrderBy {
    /// `ORDER BY ... ASC`
    Ascending,
    /// `ORDER BY ... DESC`
    Descending,
}

/// The LIMIT clause of a SELECT.
#[derive(Clone, Copy, Debug, PartialEq, Eq, Structural)]
pub enum Limit {
    /// `LIMIT ALL`
    All,
    /// `LIMIT n`
    Count(u32),
}

} // verus!
