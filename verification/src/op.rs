//! Opcode bytes of the pickle format, protocols 0 to 5.
use vstd::prelude::*;

verus! {

pub const MARK: u8 = 0x28; // '('
pub const STOP: u8 = 0x2e; // '.'
pub const POP: u8 = 0x30; // '0'
pub const POP_MARK: u8 = 0x31; // '1'
pub const DUP: u8 = 0x32; // '2'
pub const FLOAT: u8 = 0x46; // 'F'
pub const INT: u8 = 0x49; // 'I'
pub const BININT: u8 = 0x4a; // 'J'
pub const BININT1: u8 = 0x4b; // 'K'
pub const LONG: u8 = 0x4c; // 'L'
pub const BININT2: u8 = 0x4d; // 'M'
pub const NONE: u8 = 0x4e; // 'N'
pub const PERSID: u8 = 0x50; // 'P'
pub const BINPERSID: u8 = 0x51; // 'Q'
pub const REDUCE: u8 = 0x52; // 'R'
pub const STRING: u8 = 0x53; // 'S'
pub const BINSTRING: u8 = 0x54; // 'T'
pub const SHORT_BINSTRING: u8 = 0x55; // 'U'
pub const UNICODE: u8 = 0x56; // 'V'
pub const BINUNICODE: u8 = 0x58; // 'X'
pub const APPEND: u8 = 0x61; // 'a'
pub const BUILD: u8 = 0x62; // 'b'
pub const GLOBAL: u8 = 0x63; // 'c'
pub const DICT: u8 = 0x64; // 'd'
pub const EMPTY_DICT: u8 = 0x7d; // '}'
pub const APPENDS: u8 = 0x65; // 'e'
pub const GET: u8 = 0x67; // 'g'
pub const BINGET: u8 = 0x68; // 'h'
pub const INST: u8 = 0x69; // 'i'
pub const LONG_BINGET: u8 = 0x6a; // 'j'
pub const LIST: u8 = 0x6c; // 'l'
pub const EMPTY_LIST: u8 = 0x5d; // ']'
pub const OBJ: u8 = 0x6f; // 'o'
pub const PUT: u8 = 0x70; // 'p'
pub const BINPUT: u8 = 0x71; // 'q'
pub const LONG_BINPUT: u8 = 0x72; // 'r'
pub const SETITEM: u8 = 0x73; // 's'
pub const TUPLE: u8 = 0x74; // 't'
pub const EMPTY_TUPLE: u8 = 0x29; // ')'
pub const SETITEMS: u8 = 0x75; // 'u'
pub const BINFLOAT: u8 = 0x47; // 'G'

// Protocol 2
pub const PROTO: u8 = 0x80;
pub const NEWOBJ: u8 = 0x81;
pub const EXT1: u8 = 0x82;
pub const EXT2: u8 = 0x83;
pub const EXT4: u8 = 0x84;
pub const TUPLE1: u8 = 0x85;
pub const TUPLE2: u8 = 0x86;
pub const TUPLE3: u8 = 0x87;
pub const NEWTRUE: u8 = 0x88;
pub const NEWFALSE: u8 = 0x89;
pub const LONG1: u8 = 0x8a;
pub const LONG4: u8 = 0x8b;

// Protocol 3
pub const BINBYTES: u8 = 0x42;
pub const SHORT_BINBYTES: u8 = 0x43;

// Protocol 4
pub const SHORT_BINUNICODE: u8 = 0x8c;
pub const BINUNICODE8: u8 = 0x8d;
pub const BINBYTES8: u8 = 0x8e;
pub const EMPTY_SET: u8 = 0x8f;
pub const ADDITEMS: u8 = 0x90;
pub const FROZENSET: u8 = 0x91;
pub const NEWOBJ_EX: u8 = 0x92;
pub const STACK_GLOBAL: u8 = 0x93;
pub const MEMOIZE: u8 = 0x94;
pub const FRAME: u8 = 0x95;

// Protocol 5
pub const BYTEARRAY8: u8 = 0x96;
pub const NEXT_BUFFER: u8 = 0x97;
pub const READONLY_BUFFER: u8 = 0x98;

} // verus!
