//! Orders of the Mathieu groups.

use vstd::prelude::*;

verus! {

pub const M11_ORDER: u64 = 7_920;

pub const M12_ORDER: u64 = 95_040;

pub const M22_ORDER: u64 = 443_520;

pub const M23_ORDER: u64 = 10_200_960;

pub const M24_ORDER: u64 = 244_823_040;

} // verus!
