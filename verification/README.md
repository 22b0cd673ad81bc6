# unpickler

A reader for Python's pickle format, verified with Verus.

`unpickle` runs the pickle stack machine over a byte buffer and returns the
protocol number, the last frame header and the value on top of the stack at
the first `STOP`, or the first error met. Strings and byte strings borrow
from the input; floats are kept as their IEEE-754 bit patterns.

Handled opcodes: `STOP`, `PROTO`, `FRAME`, `NONE`, `NEWTRUE`, `NEWFALSE`,
`BININT1`, `BININT2`, `BININT`, `BINFLOAT`, `LONG1`, `SHORT_BINUNICODE`,
`BINUNICODE`, `SHORT_BINBYTES`, `BINBYTES`, the empty containers, `TUPLE1`
to `TUPLE3`, `MARK`, `TUPLE`, `FROZENSET`, `APPEND`, `APPENDS`, `SETITEM`,
`SETITEMS`, `ADDITEMS`, `MEMOIZE`, `BINGET`, `LONG_BINGET`, `BINPUT`,
`LONG_BINPUT`, `GLOBAL`, `STACK_GLOBAL`, `REDUCE`, `NEWOBJ`, `NEWOBJ_EX`,
`BUILD`, `DUP`, `POP`, `POP_MARK` and `BINPERSID`. Every other byte gives
`UnsupportedOpcode`.

Layout:

- `src/machine.rs`: the machine as a mathematical object (state, one opcode,
  a whole run); `unpickle_spec` is what a run over given bytes yields.
- `src/unpickle.rs`: the error type and its message, the stack helpers
  `pop_value` and `pop_to_mark`, and the executable machine, one method per
  opcode, each proved to do what `machine.rs` says; `unpickle` and
  `unpickle_checked`.
- `src/value.rs`: the value types and their models.
- `src/laws.rs`: properties that span several opcodes or runs.
- `src/op.rs`, `src/sizes.rs`: opcode bytes and operand widths.
- `app/`: the same API with `f64` floats, `None` and `Set` under their usual
  names, and an `Error` that implements `Display` and `std::error::Error`.
