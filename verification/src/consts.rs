//! Protocol constants: the per-function maxima for length fields, in item
//! counts, and the frame size cap in bytes.

use vstd::prelude::*;

verus! {

pub const READ_COILS_MAX_LEN: u16 = 2000;

pub const READ_DISCRETE_INPUTS_MAX_LEN: u16 = 2000;

pub const READ_HOLDING_REGISTERS_MAX_LEN: u16 = 125;

pub const READ_INPUT_REGISTERS_MAX_LEN: u16 = 125;

pub const WRITE_MULTIPLE_COILS_MAX_LEN: u16 = 1968;

pub const WRITE_MULTIPLE_HOLDING_REGISTERS_MAX_LEN: u16 = 123;

} // verus!
