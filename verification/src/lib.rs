//! Model of a datacenter's physical network fabric.
//!
//! The crate describes switches, routers and firewalls with their ports, the
//! links between ports, and derives from them the connectivity graph of a
//! network plane and the canonical topology that graph implements.

use vstd::prelude::*;

pub mod model;
pub mod settings;

verus! {

/// Adds two integers whose sum fits in an `i32`.
pub fn add_two(a: i32, b: i32) -> (sum: i32)
    requires
        i32::MIN <= a + b <= i32::MAX,
    ensures
        sum == a + b,
{
    a + b
}

} // verus!
