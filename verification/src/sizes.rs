//! Widths, in bytes, of the fixed-size operands that follow some opcodes.
use vstd::prelude::*;

verus! {

pub const PROTO_LEN: usize = 1;
pub const FRAME_LEN: usize = 8;
pub const BININT1_LEN: usize = 1;
pub const BININT2_LEN: usize = 2;
pub const BININT4_LEN: usize = 4;
pub const BINFLOAT_LEN: usize = 8;
pub const BINUNICODE_LEN: usize = 4;
pub const SHORT_BINBYTES_LEN: usize = 1;
pub const BINGET_LEN: usize = 1;
pub const LONG_BINGET_LEN: usize = 4;
pub const BINPUT_LEN: usize = 1;
pub const LONG_BINPUT_LEN: usize = 4;

} // verus!
