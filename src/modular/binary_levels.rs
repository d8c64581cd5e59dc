//! Exponents of notable levels of the binary tree.

use vstd::prelude::*;

verus! {

pub const BOOLEAN: u32 = 1;

pub const QUATERNION: u32 = 2;

pub const OCTONION: u32 = 3;

pub const SEDENION: u32 = 4;

pub const INSTRUCTION: u32 = 5;

pub const COMPUTING: u32 = 6;

pub const ASCII: u32 = 7;

pub const BYTE: u32 = 8;

pub const KILOBYTE: u32 = 10;

pub const UNICODE: u32 = 16;

pub const MEGABYTE: u32 = 20;

pub const MATHIEU: u32 = 24;

pub const FUNDAMENTAL: u32 = 46;

} // verus!
