//! The pickle machine as a mathematical object: its state, what one opcode
//! does to it, and what a whole run over a byte string yields.
use vstd::prelude::*;
use vstd::utf8::valid_utf8;

use crate::op;
use crate::unpickle::Error;
use crate::value::{Unpickled, Value};

verus! {

/// The state of the machine between two opcodes.
#[verifier::ext_equal]
pub struct Machine {
    /// Index of the next byte to read.
    pub pos: int,
    /// The value stack; its last element is the top.
    pub stack: Seq<Value>,
    /// Stack heights recorded by `MARK`, the most recent last.
    pub marks: Seq<usize>,
    /// The memo that `PUT`-like opcodes write and `GET`-like opcodes read.
    pub memo: Seq<Value>,
    pub proto: u8,
    pub frame: Seq<u8>,
}

/// What one opcode leads to.
pub enum Outcome {
    /// The machine goes on with the next opcode.
    Running(Machine),
    /// The run is over, with a value (`STOP`) or an error.
    Finished(Result<Unpickled, Error>),
    /// A mark lies above the top of the stack when it is popped, so the
    /// stack cannot be split there: `unpickle` requires that this never
    /// happens, and `unpickle_checked` returns `None`.
    Crashed,
}

/// The state before the first opcode.
pub open spec fn initial_machine() -> Machine {
    Machine {
        pos: 0,
        stack: Seq::empty(),
        marks: Seq::empty(),
        memo: Seq::empty(),
        proto: 0,
        frame: Seq::new(8, |i: int| 0u8),
    }
}

pub open spec fn fail(e: Error) -> Outcome {
    Outcome::Finished(Err(e))
}

// ---------------------------------------------------------------------
// Reading operands

/// Little-endian unsigned value of two bytes.
pub open spec fn le_u16(b: Seq<u8>) -> int {
    b[0] + 0x100 * b[1]
}

/// Little-endian unsigned value of four bytes.
pub open spec fn le_u32(b: Seq<u8>) -> int {
    b[0] + 0x100 * b[1] + 0x1_0000 * b[2] + 0x100_0000 * b[3]
}

/// Little-endian two's-complement value of four bytes.
pub open spec fn le_i32(b: Seq<u8>) -> int {
    if le_u32(b) >= 0x8000_0000 {
        le_u32(b) - 0x1_0000_0000
    } else {
        le_u32(b)
    }
}

/// Big-endian unsigned value of eight bytes.
pub open spec fn be_u64(b: Seq<u8>) -> int {
    0x100_0000_0000_0000 * b[0] + 0x1_0000_0000_0000 * b[1] + 0x100_0000_0000 * b[2]
        + 0x1_0000_0000 * b[3] + 0x100_0000 * b[4] + 0x1_0000 * b[5] + 0x100 * b[6] + b[7]
}

/// The `len` bytes at `pos` and the position after them, or
/// `TruncatedOpcode` where the data ends before them.
pub open spec fn read_fixed(data: Seq<u8>, pos: int, len: int, op: u8) -> Result<(Seq<u8>, int), Error> {
    if pos + len > data.len() {
        Err(Error::TruncatedOpcode(op))
    } else {
        Ok((data.subrange(pos, pos + len), pos + len))
    }
}

/// A byte string preceded by its length, which takes `width` bytes (1, or 4
/// in little-endian order): the string and the position after it.
pub open spec fn read_prefixed(data: Seq<u8>, pos: int, width: int, op: u8) -> Result<(Seq<u8>, int), Error> {
    match read_fixed(data, pos, width, op) {
        Err(e) => Err(e),
        Ok((prefix, start)) => {
            let n = if width == 1 { prefix[0] as int } else { le_u32(prefix) };
            if start + n > data.len() {
                Err(Error::TruncatedData { op, expected_len: n as usize })
            } else {
                Ok((data.subrange(start, start + n), start + n))
            }
        },
    }
}

/// `i` is the index of the first newline byte of `s`.
pub open spec fn is_first_newline(s: Seq<u8>, i: int) -> bool {
    &&& 0 <= i < s.len()
    &&& s[i] == 0x0a
    &&& forall|j: int| 0 <= j < i ==> s[j] != 0x0a
}

/// The index of the first newline byte of `s`, if it has one.
pub open spec fn first_newline(s: Seq<u8>) -> Option<int> {
    if exists|i: int| is_first_newline(s, i) {
        Some(choose|i: int| is_first_newline(s, i))
    } else {
        None
    }
}

// ---------------------------------------------------------------------
// Opcodes

pub open spec fn with_pos(m: Machine, pos: int) -> Machine {
    Machine { pos, ..m }
}

pub open spec fn push(m: Machine, v: Value) -> Machine {
    Machine { stack: m.stack.push(v), ..m }
}

/// `m` without the top of its stack.
pub open spec fn drop_top(m: Machine) -> Machine {
    Machine { stack: m.stack.drop_last(), ..m }
}

/// `m` without its last mark and the values above it.
pub open spec fn below_mark(m: Machine) -> Machine {
    Machine { stack: m.stack.subrange(0, m.marks.last() as int), marks: m.marks.drop_last(), ..m }
}

/// `STOP`: the run ends with the top of the stack.
pub open spec fn op_stop(m: Machine) -> Outcome {
    if m.stack.len() == 0 {
        fail(Error::EmptyStack)
    } else {
        Outcome::Finished(Ok(Unpickled { proto: m.proto, frame: m.frame, root: m.stack.last() }))
    }
}

pub open spec fn op_proto(data: Seq<u8>, m: Machine, op: u8) -> Outcome {
    match read_fixed(data, m.pos, 1, op) {
        Err(e) => fail(e),
        Ok((b, pos)) => Outcome::Running(Machine { pos, proto: b[0], ..m }),
    }
}

pub open spec fn op_frame(data: Seq<u8>, m: Machine, op: u8) -> Outcome {
    match read_fixed(data, m.pos, 8, op) {
        Err(e) => fail(e),
        Ok((b, pos)) => Outcome::Running(Machine { pos, frame: b, ..m }),
    }
}

/// The integer opcodes: `BININT1`, `BININT2` and `BININT`.
pub open spec fn op_int(data: Seq<u8>, m: Machine, op: u8, len: int) -> Outcome {
    match read_fixed(data, m.pos, len, op) {
        Err(e) => fail(e),
        Ok((b, pos)) => {
            let v = if len == 1 { b[0] as int } else if len == 2 { le_u16(b) } else { le_i32(b) };
            Outcome::Running(push(with_pos(m, pos), Value::Int(v as i64)))
        },
    }
}

pub open spec fn op_binfloat(data: Seq<u8>, m: Machine, op: u8) -> Outcome {
    match read_fixed(data, m.pos, 8, op) {
        Err(e) => fail(e),
        Ok((b, pos)) => Outcome::Running(push(with_pos(m, pos), Value::Float(be_u64(b) as u64))),
    }
}

/// The length-prefixed opcodes: `LONG1`, the byte strings and the strings,
/// which must be UTF-8.
pub open spec fn op_prefixed(data: Seq<u8>, m: Machine, op: u8, width: int) -> Outcome {
    match read_prefixed(data, m.pos, width, op) {
        Err(e) => fail(e),
        Ok((b, pos)) => if op == op::LONG1 {
            Outcome::Running(push(with_pos(m, pos), Value::BigInt(b)))
        } else if op == op::SHORT_BINBYTES || op == op::BINBYTES {
            Outcome::Running(push(with_pos(m, pos), Value::Bytes(b)))
        } else if valid_utf8(b) {
            Outcome::Running(push(with_pos(m, pos), Value::String(b)))
        } else {
            fail(Error::InvalidUtf8)
        },
    }
}

/// `TUPLE1`, `TUPLE2`, `TUPLE3`: the top `n` values become a tuple.
pub open spec fn op_small_tuple(m: Machine, op: u8, n: int) -> Outcome {
    if m.stack.len() < n {
        fail(Error::StackUnderflow { op })
    } else {
        let k = m.stack.len() - n;
        Outcome::Running(
            push(Machine { stack: m.stack.subrange(0, k), ..m }, Value::Tuple(m.stack.subrange(k, m.stack.len() as int))),
        )
    }
}

/// The memo after `memo[idx] = v`, grown with `None` values first where
/// it is too short.
pub open spec fn memo_put(memo: Seq<Value>, idx: int, v: Value) -> Seq<Value> {
    if idx < memo.len() {
        memo.update(idx, v)
    } else {
        (memo + Seq::new((idx - memo.len()) as nat, |i: int| Value::NoneValue)).push(v)
    }
}

/// `BINGET`, `LONG_BINGET`: push a copy of a memo entry.
pub open spec fn op_get(data: Seq<u8>, m: Machine, op: u8, len: int) -> Outcome {
    match read_fixed(data, m.pos, len, op) {
        Err(e) => fail(e),
        Ok((b, pos)) => {
            let idx = if len == 1 { b[0] as int } else { le_u32(b) };
            if idx >= m.memo.len() {
                fail(Error::IndexOutOfRange { op })
            } else {
                Outcome::Running(push(with_pos(m, pos), m.memo[idx]))
            }
        },
    }
}

/// `BINPUT`, `LONG_BINPUT`: store a copy of the top in the memo.
pub open spec fn op_put(data: Seq<u8>, m: Machine, op: u8, len: int) -> Outcome {
    match read_fixed(data, m.pos, len, op) {
        Err(e) => fail(e),
        Ok((b, pos)) => {
            let idx = if len == 1 { b[0] as int } else { le_u32(b) };
            if m.stack.len() == 0 {
                fail(Error::NoValueOnStack)
            } else {
                Outcome::Running(Machine { pos, memo: memo_put(m.memo, idx, m.stack.last()), ..m })
            }
        },
    }
}

pub open spec fn op_memoize(m: Machine) -> Outcome {
    if m.stack.len() == 0 {
        fail(Error::NoValueOnStack)
    } else {
        Outcome::Running(Machine { memo: m.memo.push(m.stack.last()), ..m })
    }
}

pub open spec fn op_dup(m: Machine) -> Outcome {
    if m.stack.len() == 0 {
        fail(Error::NoValueOnStack)
    } else {
        Outcome::Running(push(m, m.stack.last()))
    }
}

/// `POP` drops the top, and does nothing on an empty stack.
pub open spec fn op_pop(m: Machine) -> Outcome {
    if m.stack.len() == 0 {
        Outcome::Running(m)
    } else {
        Outcome::Running(Machine { stack: m.stack.drop_last(), ..m })
    }
}

pub open spec fn op_binpersid(m: Machine, op: u8) -> Outcome {
    if m.stack.len() == 0 {
        fail(Error::StackUnderflow { op })
    } else {
        Outcome::Running(m)
    }
}

/// Which of the mark-consuming opcodes is meant.
pub open spec fn mark_error(op: u8) -> Error {
    if op == op::SETITEMS {
        Error::SetitemsWithoutDict { op }
    } else if op == op::APPENDS {
        Error::AppendsWithoutList { op }
    } else {
        Error::AdditemsWithoutSet { op }
    }
}

/// Consecutive values paired as dictionary entries; an odd last key gets
/// `None` as its value.
pub open spec fn pair_up(items: Seq<Value>) -> Seq<(Value, Value)>
    decreases items.len(),
{
    if items.len() == 0 {
        Seq::empty()
    } else if items.len() == 1 {
        seq![(items[0], Value::NoneValue)]
    } else {
        seq![(items[0], items[1])] + pair_up(items.subrange(2, items.len() as int))
    }
}

/// The top of the stack after the items above the last mark were added to
/// it, or `None` where it is not a container of the kind that `op` fills.
pub open spec fn extend_top(top: Value, op: u8, items: Seq<Value>) -> Option<Value> {
    if op == op::SETITEMS {
        match top {
            Value::Dict(entries) => Some(Value::Dict(entries + pair_up(items))),
            _ => None,
        }
    } else if op == op::APPENDS {
        match top {
            Value::List(list) => Some(Value::List(list + items)),
            _ => None,
        }
    } else {
        match top {
            Value::MutableSet(set) => Some(Value::MutableSet(set + items)),
            _ => None,
        }
    }
}

/// The opcodes that take the values above the last mark: `SETITEMS`,
/// `APPENDS`, `ADDITEMS`, `FROZENSET`, `TUPLE` and `POP_MARK`.
pub open spec fn op_to_mark(m: Machine, op: u8) -> Outcome {
    if m.marks.len() == 0 {
        fail(Error::NoMarkFound { op })
    } else if m.marks.last() > m.stack.len() {
        Outcome::Crashed
    } else {
        let mark = m.marks.last() as int;
        let items = m.stack.subrange(mark, m.stack.len() as int);
        let below = below_mark(m);
        if op == op::FROZENSET {
            Outcome::Running(push(below, Value::FrozenSet(items)))
        } else if op == op::TUPLE {
            Outcome::Running(push(below, Value::Tuple(items)))
        } else if op == op::POP_MARK {
            Outcome::Running(below)
        } else if below.stack.len() == 0 {
            fail(mark_error(op))
        } else {
            match extend_top(below.stack.last(), op, items) {
                None => fail(mark_error(op)),
                Some(v) => Outcome::Running(
                    Machine { stack: below.stack.update(below.stack.len() - 1, v), ..below },
                ),
            }
        }
    }
}

/// `SETITEM`: the top two values become an entry of the dictionary below.
pub open spec fn op_setitem(m: Machine, op: u8) -> Outcome {
    if m.stack.len() < 2 {
        fail(Error::StackUnderflow { op })
    } else {
        let n = m.stack.len();
        let rest = m.stack.subrange(0, n - 2);
        let entry = (m.stack[n - 2], m.stack[n - 1]);
        if rest.len() == 0 {
            fail(Error::SetitemWithoutDict { op })
        } else {
            match rest.last() {
                Value::Dict(entries) => Outcome::Running(
                    Machine { stack: rest.update(rest.len() - 1, Value::Dict(entries.push(entry))), ..m },
                ),
                _ => fail(Error::SetitemWithoutDict { op }),
            }
        }
    }
}

/// `APPEND`: the top value is appended to the list below.
pub open spec fn op_append(m: Machine, op: u8) -> Outcome {
    if m.stack.len() == 0 {
        fail(Error::StackUnderflow { op })
    } else {
        let rest = m.stack.drop_last();
        if rest.len() == 0 {
            fail(Error::AppendsWithoutList { op })
        } else {
            match rest.last() {
                Value::List(list) => Outcome::Running(
                    Machine { stack: rest.update(rest.len() - 1, Value::List(list.push(m.stack.last()))), ..m },
                ),
                _ => fail(Error::AppendsWithoutList { op }),
            }
        }
    }
}

/// `BUILD`: the top value becomes the state of the object below.
pub open spec fn op_build(m: Machine, op: u8) -> Outcome {
    if m.stack.len() == 0 {
        fail(Error::StackUnderflow { op })
    } else {
        let rest = m.stack.drop_last();
        if rest.len() == 0 {
            fail(Error::BuildWithoutObject { op })
        } else {
            match rest.last() {
                Value::Object { module, attr, args, state } => Outcome::Running(
                    Machine {
                        stack: rest.update(
                            rest.len() - 1,
                            Value::Object { module, attr, args, state: Box::new(m.stack.last()) },
                        ),
                        ..m
                    },
                ),
                _ => fail(Error::BuildWithoutObject { op }),
            }
        }
    }
}

/// `STACK_GLOBAL`: two strings on the stack name a global.
pub open spec fn op_stack_global(m: Machine, op: u8) -> Outcome {
    if m.stack.len() < 2 {
        fail(Error::StackUnderflow { op })
    } else {
        let n = m.stack.len();
        match (m.stack[n - 2], m.stack[n - 1]) {
            (Value::String(module), Value::String(attr)) => Outcome::Running(
                push(Machine { stack: m.stack.subrange(0, n - 2), ..m }, Value::Global { module, attr }),
            ),
            _ => fail(Error::InvalidGlobal { op }),
        }
    }
}

/// The arguments of a call: the items of a tuple, or the one value itself.
pub open spec fn call_args(v: Value) -> Seq<Value> {
    match v {
        Value::Tuple(items) => items,
        _ => seq![v],
    }
}

/// `REDUCE`, `NEWOBJ` (`n` = 2) and `NEWOBJ_EX` (`n` = 3, the keyword
/// arguments on top are dropped): a global and its arguments become an
/// object with a `None` state.
pub open spec fn op_call(m: Machine, op: u8, n: int) -> Outcome {
    if m.stack.len() < n {
        fail(Error::StackUnderflow { op })
    } else {
        let k = m.stack.len() - n;
        match m.stack[k] {
            Value::Global { module, attr } => Outcome::Running(
                push(
                    Machine { stack: m.stack.subrange(0, k), ..m },
                    Value::Object {
                        module,
                        attr,
                        args: call_args(m.stack[k + 1]),
                        state: Box::new(Value::NoneValue),
                    },
                ),
            ),
            _ => fail(Error::ReduceWithoutCallable { op }),
        }
    }
}

/// `GLOBAL`: a module name and an attribute name, each ended by a newline.
pub open spec fn op_global(data: Seq<u8>, m: Machine) -> Outcome {
    let rest = data.subrange(m.pos, data.len() as int);
    match first_newline(rest) {
        None => fail(Error::Eof),
        Some(i) => {
            let after = rest.subrange(i + 1, rest.len() as int);
            match first_newline(after) {
                None => fail(Error::Eof),
                Some(j) => {
                    let module = rest.subrange(0, i);
                    let attr = after.subrange(0, j);
                    if !valid_utf8(module) || !valid_utf8(attr) {
                        fail(Error::InvalidUtf8)
                    } else {
                        Outcome::Running(push(with_pos(m, m.pos + i + 1 + j + 1), Value::Global { module, attr }))
                    }
                },
            }
        },
    }
}

/// What the opcode `op` does to `m`, whose position is just past `op`.
pub open spec fn apply(data: Seq<u8>, m: Machine, op: u8) -> Outcome {
    if op == op::STOP {
        op_stop(m)
    } else if op == op::PROTO {
        op_proto(data, m, op)
    } else if op == op::FRAME {
        op_frame(data, m, op)
    } else if op == op::NONE {
        Outcome::Running(push(m, Value::NoneValue))
    } else if op == op::NEWTRUE {
        Outcome::Running(push(m, Value::Bool(true)))
    } else if op == op::NEWFALSE {
        Outcome::Running(push(m, Value::Bool(false)))
    } else if op == op::BININT1 {
        op_int(data, m, op, 1)
    } else if op == op::BININT2 {
        op_int(data, m, op, 2)
    } else if op == op::BININT {
        op_int(data, m, op, 4)
    } else if op == op::BINFLOAT {
        op_binfloat(data, m, op)
    } else if op == op::LONG1 || op == op::SHORT_BINUNICODE || op == op::SHORT_BINBYTES {
        op_prefixed(data, m, op, 1)
    } else if op == op::BINUNICODE || op == op::BINBYTES {
        op_prefixed(data, m, op, 4)
    } else if op == op::EMPTY_LIST {
        Outcome::Running(push(m, Value::List(Seq::empty())))
    } else if op == op::EMPTY_TUPLE {
        Outcome::Running(push(m, Value::Tuple(Seq::empty())))
    } else if op == op::EMPTY_DICT {
        Outcome::Running(push(m, Value::Dict(Seq::empty())))
    } else if op == op::EMPTY_SET {
        Outcome::Running(push(m, Value::MutableSet(Seq::empty())))
    } else if op == op::TUPLE1 {
        op_small_tuple(m, op, 1)
    } else if op == op::TUPLE2 {
        op_small_tuple(m, op, 2)
    } else if op == op::TUPLE3 {
        op_small_tuple(m, op, 3)
    } else if op == op::MARK {
        Outcome::Running(Machine { marks: m.marks.push(m.stack.len() as usize), ..m })
    } else if op == op::MEMOIZE {
        op_memoize(m)
    } else if op == op::BINGET {
        op_get(data, m, op, 1)
    } else if op == op::LONG_BINGET {
        op_get(data, m, op, 4)
    } else if op == op::SETITEM {
        op_setitem(m, op)
    } else if op == op::SETITEMS || op == op::APPENDS || op == op::ADDITEMS || op == op::FROZENSET || op == op::TUPLE
        || op == op::POP_MARK {
        op_to_mark(m, op)
    } else if op == op::GLOBAL {
        op_global(data, m)
    } else if op == op::STACK_GLOBAL {
        op_stack_global(m, op)
    } else if op == op::REDUCE || op == op::NEWOBJ {
        op_call(m, op, 2)
    } else if op == op::NEWOBJ_EX {
        op_call(m, op, 3)
    } else if op == op::BUILD {
        op_build(m, op)
    } else if op == op::BINPUT {
        op_put(data, m, op, 1)
    } else if op == op::LONG_BINPUT {
        op_put(data, m, op, 4)
    } else if op == op::APPEND {
        op_append(m, op)
    } else if op == op::DUP {
        op_dup(m)
    } else if op == op::POP {
        op_pop(m)
    } else if op == op::BINPERSID {
        op_binpersid(m, op)
    } else {
        fail(Error::UnsupportedOpcode(op))
    }
}

/// One step: read the opcode at `m.pos` and apply it.
pub open spec fn step(data: Seq<u8>, m: Machine) -> Outcome {
    apply(data, with_pos(m, m.pos + 1), data[m.pos])
}

/// Every step that keeps the machine running moves it forward.
pub proof fn lemma_step_advances(data: Seq<u8>, m: Machine)
    requires
        0 <= m.pos < data.len(),
    ensures
        step(data, m) matches Outcome::Running(m2) ==> m.pos < m2.pos <= data.len(),
{
    let m1 = with_pos(m, m.pos + 1);
    let op = data[m.pos];
    if op == op::GLOBAL {
        let rest = data.subrange(m1.pos, data.len() as int);
        if let Some(i) = first_newline(rest) {
            let after = rest.subrange(i + 1, rest.len() as int);
            if let Some(j) = first_newline(after) {
                lemma_first_newline(rest);
                lemma_first_newline(after);
            }
        }
    }
}

/// `first_newline` gives the index of the first newline, and `None` only
/// where there is none.
pub proof fn lemma_first_newline(s: Seq<u8>)
    ensures
        first_newline(s) matches Some(i) ==> is_first_newline(s, i),
        first_newline(s) is None ==> forall|j: int| 0 <= j < s.len() ==> s[j] != 0x0a,
{
    if first_newline(s) is None {
        assert forall|j: int| 0 <= j < s.len() implies s[j] != 0x0a by {
            if s[j] == 0x0a {
                lemma_some_first_newline(s, j);
            }
        }
    }
}

proof fn lemma_some_first_newline(s: Seq<u8>, j: int)
    requires
        0 <= j < s.len(),
        s[j] == 0x0a,
    ensures
        exists|i: int| is_first_newline(s, i),
    decreases j,
{
    if forall|l: int| 0 <= l < j ==> s[l] != 0x0a {
        assert(is_first_newline(s, j));
    } else {
        let l = choose|l: int| 0 <= l < j && s[l] == 0x0a;
        lemma_some_first_newline(s, l);
    }
}

/// The result of running the machine from `m` to the end: `None` where it
/// crashes, else the value at `STOP` or the error met on the way.
pub open spec fn run(data: Seq<u8>, m: Machine) -> Option<Result<Unpickled, Error>>
    decreases data.len() - m.pos,
{
    if m.pos < 0 || m.pos >= data.len() {
        Some(Err(Error::Eof))
    } else {
        match step(data, m) {
            Outcome::Running(m2) => {
                proof {
                    lemma_step_advances(data, m);
                }
                run(data, m2)
            },
            Outcome::Finished(r) => Some(r),
            Outcome::Crashed => None,
        }
    }
}

/// What unpickling `data` yields: `None` where it crashes.
pub open spec fn unpickle_spec(data: Seq<u8>) -> Option<Result<Unpickled, Error>> {
    run(data, initial_machine())
}

} // verus!
