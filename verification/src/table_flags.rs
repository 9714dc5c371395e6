//! Deprecation switches for output tables.
//!
//! The configuration carries a bitset of tables that are no longer
//! served; after extraction the transform stage clears the collections
//! of any table marked here, so they are neither published nor written.

use vstd::prelude::*;

verus! {

/// Bit for the `table_items` table.
pub const TABLE_ITEMS: u64 = 0x1;

/// Bit for the `table_metadatas` table.
pub const TABLE_METADATAS: u64 = 0x2;

/// Bit for the `signatures` table.
pub const SIGNATURES: u64 = 0x4;

/// A set of deprecated tables, as a bitset over the flag constants.
#[derive(Clone, Copy, PartialEq, Eq, Structural, Debug)]
pub struct TableFlags {
    pub bits: u64,
}

impl TableFlags {
    /// Whether a table's flag is set.
    pub open spec fn spec_contains(self, flag: u64) -> bool {
        self.bits & flag != 0
    }

    pub fn empty() -> (r: TableFlags)
        ensures
            r.bits == 0,
    {
        TableFlags { bits: 0 }
    }

    pub fn from_bits(bits: u64) -> (r: TableFlags)
        ensures
            r.bits == bits,
    {
        TableFlags { bits }
    }

    pub fn contains(&self, flag: u64) -> (r: bool)
        ensures
            r == self.spec_contains(flag),
    {
        self.bits & flag != 0
    }
}

} // verus!
