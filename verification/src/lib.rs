//! Compile-time platform-coverage bookkeeping.
//!
//! A build that annotates trait implementations with the operating systems
//! they support needs three pieces of pure logic: parsing comma-separated
//! platform lists, accumulating (trait, platform-list) facts in a registry,
//! and checking declared coverage requirements against the union of the
//! registered facts. This crate holds that logic, verified; the surrounding
//! macro expansion only moves tokens in and out of it.

use vstd::prelude::*;

pub mod emit;
pub mod enforce;
pub mod registry;
pub mod tags;
pub mod text;

verus! {

/// True when `c` carries Unicode's White_Space property — the set that
/// `str::trim` strips, and the one stripped around platform tags here.
pub open spec fn is_space_char(c: char) -> bool {
    let n = c as int;
    (0x9 <= n && n <= 0xD) || n == 0x20 || n == 0x85 || n == 0xA0 || n == 0x1680 || (0x2000 <= n
        && n <= 0x200A) || n == 0x2028 || n == 0x2029 || n == 0x202F || n == 0x205F || n == 0x3000
}

/// Whitespace test shared by the tag parser.
pub fn char_is_space(c: char) -> (r: bool)
    ensures
        r == is_space_char(c),
{
    let n = c as u32;
    (0x9 <= n && n <= 0xD) || n == 0x20 || n == 0x85 || n == 0xA0 || n == 0x1680 || (0x2000 <= n
        && n <= 0x200A) || n == 0x2028 || n == 0x2029 || n == 0x202F || n == 0x205F || n == 0x3000
}

} // verus!
