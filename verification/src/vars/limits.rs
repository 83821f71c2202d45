//! Quantity limits of the standard requests.
use vstd::prelude::*;

verus! {

pub const READ_COILS_MIN: u16 = 0x0001;

pub const READ_COILS_MAX: u16 = 0x07d0;

pub const READ_REGISTERS_MIN: u16 = 0x0001;

pub const READ_REGISTERS_MAX: u16 = 0x007d;

pub const WRITE_COILS_MAX: u16 = 0x07b0;

pub const WRITE_REGISTERS_MAX: u16 = 0x007b;

pub const RW_REGISTERS_WRITE_MAX: u16 = 0x0079;

} // verus!
