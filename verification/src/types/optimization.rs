//! The two markers of an optimized container header.

use vstd::prelude::*;

verus! {

/// Introduces the element kind of a strongly-typed container (`$`).
pub const TYPE_MARKER: u8 = 0x24;

/// Introduces the element count of a strongly-typed container (`#`).
pub const COUNT_MARKER: u8 = 0x23;

} // verus!
