//! Conversion between calendar years and the registry's own year identifiers.

use vstd::prelude::*;

verus! {

/// Offset between a calendar year and the Buddhist-era year of the registry.
pub const BUDDHIST_ERA_OFFSET: i32 = 543;

/// The registry numbers its yearly files by the Buddhist-era year less this base.
pub const SOURCE_YEAR_BASE: i32 = 2500;

/// The registry's identifier of a calendar year, as a mathematical integer.
pub open spec fn source_year(year: int) -> int {
    year + BUDDHIST_ERA_OFFSET as int - SOURCE_YEAR_BASE as int
}

/// Maps a calendar year to the identifier that the registry uses for it.
///
/// The only inputs left out are those whose identifier does not fit in an `i32`.
pub fn convert_to_thai_year(year: i32) -> (thai_year: i32)
    requires
        source_year(year as int) >= i32::MIN,
    ensures
        thai_year == year + 543 - 2500,
        thai_year == source_year(year as int),
{
    year - (SOURCE_YEAR_BASE - BUDDHIST_ERA_OFFSET)
}

} // verus!
