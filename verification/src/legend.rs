//! Codes by which a terrain layout names the material of a cell.

use vstd::prelude::*;

verus! {

/// Nothing stands on the cell.
pub const EMPTY: u8 = 0;

/// A permanent block, which no blast enters.
pub const BLOCK: u8 = 1;

/// A brick, which a blast destroys and does not pass.
pub const BRICK: u8 = 2;

} // verus!
