//! What single opcodes do, stated directly over the bytes they read and the
//! stack, marks and memo they find: each law gives the machine after the
//! opcode in terms of the machine before it.
use vstd::prelude::*;
use vstd::utf8::valid_utf8;

use crate::machine::{op_global, with_pos, first_newline, is_first_newline, lemma_first_newline, pair_up, step, Machine, Outcome};
use crate::op;
use crate::unpickle::Error;
use crate::value::Value;

verus! {

/// Consecutive items as entries: the `i`-th entry is `(s[2i], s[2i + 1])`,
/// and `(s[2i], None)` for an unpaired last item.
proof fn lemma_pair_up(s: Seq<Value>)
    ensures
        pair_up(s).len() == (s.len() + 1) / 2,
        forall|i: int|
            0 <= i && 2 * i < s.len() ==> #[trigger] pair_up(s)[i] == (
                s[2 * i],
                if 2 * i + 1 < s.len() { s[2 * i + 1] } else { Value::NoneValue },
            ),
    decreases s.len(),
{
    if s.len() >= 2 {
        let rest = s.subrange(2, s.len() as int);
        lemma_pair_up(rest);
        assert forall|i: int| 0 <= i && 2 * i < s.len() implies #[trigger] pair_up(s)[i] == (
            s[2 * i],
            if 2 * i + 1 < s.len() { s[2 * i + 1] } else { Value::NoneValue },
        ) by {
            if i > 0 {
                assert(pair_up(s)[i] == pair_up(rest)[i - 1]);
                assert(rest[2 * (i - 1)] == s[2 * i]);
                if 2 * i + 1 < s.len() {
                    assert(rest[2 * (i - 1) + 1] == s[2 * i + 1]);
                }
            }
        }
    }
}

/// `SETITEMS` adds to the dictionary below the last mark the values above
/// the mark, taken two by two as key and value, in order, after the
/// entries it had; only an unpaired last key gets `None` as its value.
/// The values and the mark leave the stack.
pub proof fn law_setitems(data: Seq<u8>, m: Machine, entries: Seq<(Value, Value)>)
    requires
        0 <= m.pos < data.len(),
        data[m.pos] == op::SETITEMS,
        m.marks.len() > 0,
        0 < m.marks.last() <= m.stack.len(),
        m.stack[m.marks.last() - 1] == Value::Dict(entries),
    ensures
        ({
            let mark = m.marks.last() as int;
            let n = m.stack.len() - mark;
            step(data, m) matches Outcome::Running(m2) && {
                &&& m2.pos == m.pos + 1
                &&& m2.marks == m.marks.drop_last()
                &&& m2.memo == m.memo
                &&& m2.stack.len() == mark
                &&& m2.stack.subrange(0, mark - 1) == m.stack.subrange(0, mark - 1)
                &&& m2.stack[mark - 1] matches Value::Dict(e2) && {
                    &&& e2.len() == entries.len() + (n + 1) / 2
                    &&& forall|j: int| 0 <= j < entries.len() ==> e2[j] == entries[j]
                    &&& forall|j: int|
                        entries.len() <= j < e2.len() ==> #[trigger] e2[j] == (
                            m.stack[mark + 2 * (j - entries.len())],
                            if 2 * (j - entries.len()) + 1 < n {
                                m.stack[mark + 2 * (j - entries.len()) + 1]
                            } else {
                                Value::NoneValue
                            },
                        )
                }
            }
        }),
{
    let mark = m.marks.last() as int;
    let items = m.stack.subrange(mark, m.stack.len() as int);
    lemma_pair_up(items);
    let m2 = step(data, m)->Running_0;
    assert(m2.stack.subrange(0, mark - 1) =~= m.stack.subrange(0, mark - 1));
    let e2 = m2.stack[mark - 1]->Dict_0;
    assert forall|j: int| entries.len() <= j < e2.len() implies #[trigger] e2[j] == (
        m.stack[mark + 2 * (j - entries.len())],
        if 2 * (j - entries.len()) + 1 < items.len() {
            m.stack[mark + 2 * (j - entries.len()) + 1]
        } else {
            Value::NoneValue
        },
    ) by {
        let i = j - entries.len();
        assert(pair_up(items)[i] == e2[j]);
    }
}

/// `SETITEM` adds the entry (second value from the top, top value) to the
/// dictionary below them, after the entries it had.
pub proof fn law_setitem(data: Seq<u8>, m: Machine, entries: Seq<(Value, Value)>)
    requires
        0 <= m.pos < data.len(),
        data[m.pos] == op::SETITEM,
        m.stack.len() >= 3,
        m.stack[m.stack.len() - 3] == Value::Dict(entries),
    ensures
        ({
            let n = m.stack.len();
            step(data, m) matches Outcome::Running(m2) && {
                &&& m2.pos == m.pos + 1
                &&& m2.stack == m.stack.subrange(0, n - 3).push(
                    Value::Dict(entries.push((m.stack[n - 2], m.stack[n - 1]))),
                )
                &&& m2.marks == m.marks
                &&& m2.memo == m.memo
            }
        }),
{
    let n = m.stack.len();
    let m2 = step(data, m)->Running_0;
    assert(m2.stack =~= m.stack.subrange(0, n - 3).push(
        Value::Dict(entries.push((m.stack[n - 2], m.stack[n - 1]))),
    ));
}

/// `ADDITEMS` leaves the set below the last mark holding what it held,
/// then the values above the mark, in order; `APPENDS` does the same for a
/// list. The values and the mark leave the stack.
pub proof fn law_additems_and_appends(data: Seq<u8>, m: Machine, old_items: Seq<Value>)
    requires
        0 <= m.pos < data.len(),
        data[m.pos] == op::ADDITEMS || data[m.pos] == op::APPENDS,
        m.marks.len() > 0,
        0 < m.marks.last() <= m.stack.len(),
        data[m.pos] == op::ADDITEMS ==> m.stack[m.marks.last() - 1] == Value::MutableSet(old_items),
        data[m.pos] == op::APPENDS ==> m.stack[m.marks.last() - 1] == Value::List(old_items),
    ensures
        ({
            let mark = m.marks.last() as int;
            let added = m.stack.subrange(mark, m.stack.len() as int);
            let grown = if data[m.pos] == op::ADDITEMS {
                Value::MutableSet(old_items + added)
            } else {
                Value::List(old_items + added)
            };
            step(data, m) matches Outcome::Running(m2) && {
                &&& m2.pos == m.pos + 1
                &&& m2.stack == m.stack.subrange(0, mark - 1).push(grown)
                &&& m2.marks == m.marks.drop_last()
                &&& m2.memo == m.memo
            }
        }),
{
    let mark = m.marks.last() as int;
    let m2 = step(data, m)->Running_0;
    assert(m2.stack =~= m.stack.subrange(0, mark - 1).push(m2.stack[mark - 1]));
}

/// `APPEND` appends the top value to the list below it.
pub proof fn law_append(data: Seq<u8>, m: Machine, list: Seq<Value>)
    requires
        0 <= m.pos < data.len(),
        data[m.pos] == op::APPEND,
        m.stack.len() >= 2,
        m.stack[m.stack.len() - 2] == Value::List(list),
    ensures
        step(data, m) matches Outcome::Running(m2) && {
            &&& m2.pos == m.pos + 1
            &&& m2.stack == m.stack.subrange(0, m.stack.len() - 2).push(Value::List(list.push(m.stack.last())))
            &&& m2.marks == m.marks
            &&& m2.memo == m.memo
        },
{
    let m2 = step(data, m)->Running_0;
    assert(m2.stack =~= m.stack.subrange(0, m.stack.len() - 2).push(Value::List(list.push(m.stack.last()))));
}

/// `REDUCE` and `NEWOBJ` turn a global and its argument into an object of
/// that global with a `None` state: the arguments are the items of the
/// argument where it is a tuple, in the same order, and the argument alone
/// otherwise. `NEWOBJ_EX` does the same with the keyword arguments on top
/// dropped.
pub proof fn law_call(data: Seq<u8>, m: Machine, module: Seq<u8>, attr: Seq<u8>)
    requires
        0 <= m.pos < data.len(),
        data[m.pos] == op::REDUCE || data[m.pos] == op::NEWOBJ || data[m.pos] == op::NEWOBJ_EX,
        m.stack.len() >= 3,
        ({
            let k = if data[m.pos] == op::NEWOBJ_EX { m.stack.len() - 3 } else { m.stack.len() - 2 };
            m.stack[k] == Value::Global { module, attr }
        }),
    ensures
        ({
            let k = if data[m.pos] == op::NEWOBJ_EX { m.stack.len() - 3 } else { m.stack.len() - 2 };
            let arg = m.stack[k + 1];
            step(data, m) matches Outcome::Running(m2) && {
                &&& m2.pos == m.pos + 1
                &&& m2.marks == m.marks
                &&& m2.memo == m.memo
                &&& m2.stack.len() == k + 1
                &&& m2.stack.subrange(0, k) == m.stack.subrange(0, k)
                &&& m2.stack[k] matches Value::Object { module: mo, attr: at, args, state }
                &&& mo == module
                &&& at == attr
                &&& *state == Value::NoneValue
                &&& (arg matches Value::Tuple(items) ==> (args.len() == items.len() && forall|i: int|
                    0 <= i < items.len() ==> args[i] == items[i]))
                &&& (!(arg is Tuple) ==> args == seq![arg])
            }
        }),
{
    let k = if data[m.pos] == op::NEWOBJ_EX { m.stack.len() - 3 } else { m.stack.len() - 2 };
    let m2 = step(data, m)->Running_0;
    assert(m2.stack.subrange(0, k) =~= m.stack.subrange(0, k));
}

/// The payload of the opcodes with a one-byte length `p`
/// (`SHORT_BINBYTES`, `LONG1`, `SHORT_BINUNICODE`) is exactly the `p`
/// bytes after the length, and the machine moves past them; where fewer
/// than `p` bytes are left the error says how many were wanted.
pub proof fn law_short_payload(data: Seq<u8>, m: Machine)
    requires
        0 <= m.pos,
        m.pos + 2 <= data.len(),
        data[m.pos] == op::SHORT_BINBYTES || data[m.pos] == op::LONG1 || data[m.pos] == op::SHORT_BINUNICODE,
    ensures
        ({
            let opc = data[m.pos];
            let p = data[m.pos + 1] as int;
            let start = m.pos + 2;
            let payload = data.subrange(start, start + p);
            if start + p > data.len() {
                step(data, m) == Outcome::Finished(
                    Err::<crate::value::Unpickled, Error>(Error::TruncatedData { op: opc, expected_len: p as usize }),
                )
            } else if opc == op::SHORT_BINUNICODE && !valid_utf8(payload) {
                step(data, m) == Outcome::Finished(Err::<crate::value::Unpickled, Error>(Error::InvalidUtf8))
            } else {
                let v = if opc == op::SHORT_BINBYTES {
                    Value::Bytes(payload)
                } else if opc == op::LONG1 {
                    Value::BigInt(payload)
                } else {
                    Value::String(payload)
                };
                step(data, m) == Outcome::Running(
                    Machine { pos: start + p, stack: m.stack.push(v), ..m },
                )
            }
        }),
{
}

/// The payload of the opcodes with a four-byte little-endian length `n`
/// (`BINBYTES`, `BINUNICODE`) is exactly the `n` bytes after the length,
/// and the machine moves past them.
pub proof fn law_long_payload(data: Seq<u8>, m: Machine)
    requires
        0 <= m.pos,
        m.pos + 5 <= data.len(),
        data[m.pos] == op::BINBYTES || data[m.pos] == op::BINUNICODE,
    ensures
        ({
            let opc = data[m.pos];
            let n = data[m.pos + 1] + 0x100 * data[m.pos + 2] + 0x1_0000 * data[m.pos + 3] + 0x100_0000
                * data[m.pos + 4];
            let start = m.pos + 5;
            let payload = data.subrange(start, start + n);
            if start + n > data.len() {
                step(data, m) == Outcome::Finished(
                    Err::<crate::value::Unpickled, Error>(Error::TruncatedData { op: opc, expected_len: n as usize }),
                )
            } else if opc == op::BINUNICODE && !valid_utf8(payload) {
                step(data, m) == Outcome::Finished(Err::<crate::value::Unpickled, Error>(Error::InvalidUtf8))
            } else {
                let v = if opc == op::BINBYTES { Value::Bytes(payload) } else { Value::String(payload) };
                step(data, m) == Outcome::Running(
                    Machine { pos: start + n, stack: m.stack.push(v), ..m },
                )
            }
        }),
{
    let b = data.subrange(m.pos + 1, m.pos + 5);
    assert(b[0] == data[m.pos + 1] && b[1] == data[m.pos + 2] && b[2] == data[m.pos + 3] && b[3] == data[m.pos + 4]);
}

/// The memo index of `BINGET` and `BINPUT` is their operand byte; that of
/// `LONG_BINGET` and `LONG_BINPUT` is their four operand bytes read as a
/// little-endian number.
pub open spec fn memo_index(data: Seq<u8>, pos: int) -> int {
    if data[pos] == op::BINGET || data[pos] == op::BINPUT {
        data[pos + 1] as int
    } else {
        data[pos + 1] + 0x100 * data[pos + 2] + 0x1_0000 * data[pos + 3] + 0x100_0000 * data[pos + 4]
    }
}

/// `BINGET` and `LONG_BINGET` push the memo entry at their index and move
/// past their operand, or fail with `IndexOutOfRange` where the memo is
/// not that long.
pub proof fn law_memo_get(data: Seq<u8>, m: Machine)
    requires
        0 <= m.pos,
        data[m.pos] == op::BINGET && m.pos + 2 <= data.len() || data[m.pos] == op::LONG_BINGET && m.pos + 5
            <= data.len(),
    ensures
        ({
            let idx = memo_index(data, m.pos);
            let width = if data[m.pos] == op::BINGET { 1int } else { 4int };
            if idx < m.memo.len() {
                step(data, m) == Outcome::Running(
                    Machine { pos: m.pos + 1 + width, stack: m.stack.push(m.memo[idx]), ..m },
                )
            } else {
                step(data, m) == Outcome::Finished(
                    Err::<crate::value::Unpickled, Error>(Error::IndexOutOfRange { op: data[m.pos] }),
                )
            }
        }),
{
    if data[m.pos] == op::LONG_BINGET {
        let b = data.subrange(m.pos + 1, m.pos + 5);
        assert(b[0] == data[m.pos + 1] && b[1] == data[m.pos + 2] && b[2] == data[m.pos + 3] && b[3]
            == data[m.pos + 4]);
    }
}

/// `BINPUT` and `LONG_BINPUT` store the top of the stack in the memo at
/// their index: entries below the index that were there stay, entries that
/// were missing below it become `None`, entries above it stay, and the
/// stack is unchanged.
pub proof fn law_memo_put(data: Seq<u8>, m: Machine)
    requires
        0 <= m.pos,
        data[m.pos] == op::BINPUT && m.pos + 2 <= data.len() || data[m.pos] == op::LONG_BINPUT && m.pos + 5
            <= data.len(),
        m.stack.len() > 0,
    ensures
        ({
            let idx = memo_index(data, m.pos);
            let width = if data[m.pos] == op::BINPUT { 1int } else { 4int };
            step(data, m) matches Outcome::Running(m2) && {
                &&& m2.pos == m.pos + 1 + width
                &&& m2.stack == m.stack
                &&& m2.marks == m.marks
                &&& m2.memo.len() == if idx < m.memo.len() { m.memo.len() as int } else { idx + 1 }
                &&& m2.memo[idx] == m.stack.last()
                &&& forall|j: int| 0 <= j < m2.memo.len() && j != idx ==> m2.memo[j] == if j < m.memo.len() {
                    m.memo[j]
                } else {
                    Value::NoneValue
                }
            }
        }),
{
    if data[m.pos] == op::LONG_BINPUT {
        let b = data.subrange(m.pos + 1, m.pos + 5);
        assert(b[0] == data[m.pos + 1] && b[1] == data[m.pos + 2] && b[2] == data[m.pos + 3] && b[3]
            == data[m.pos + 4]);
    }
}

/// `BININT1`, `BININT2` and `BININT` push the integer of their 1, 2 or 4
/// operand bytes, little-endian, the last one read as signed 32-bit.
pub proof fn law_ints(data: Seq<u8>, m: Machine)
    requires
        0 <= m.pos,
        data[m.pos] == op::BININT1 && m.pos + 2 <= data.len() || data[m.pos] == op::BININT2 && m.pos + 3
            <= data.len() || data[m.pos] == op::BININT && m.pos + 5 <= data.len(),
    ensures
        ({
            let p = m.pos;
            let u = data[p + 1] + 0x100 * data[p + 2] + 0x1_0000 * data[p + 3] + 0x100_0000 * data[p + 4];
            let (v, width) = if data[p] == op::BININT1 {
                (data[p + 1] as int, 1int)
            } else if data[p] == op::BININT2 {
                (data[p + 1] + 0x100 * data[p + 2], 2int)
            } else {
                (if u >= 0x8000_0000 { u - 0x1_0000_0000 } else { u }, 4int)
            };
            step(data, m) == Outcome::Running(
                Machine { pos: p + 1 + width, stack: m.stack.push(Value::Int(v as i64)), ..m },
            )
        }),
{
    let p = m.pos;
    if data[p] == op::BININT2 {
        let b = data.subrange(p + 1, p + 3);
        assert(b[0] == data[p + 1] && b[1] == data[p + 2]);
    } else if data[p] == op::BININT {
        let b = data.subrange(p + 1, p + 5);
        assert(b[0] == data[p + 1] && b[1] == data[p + 2] && b[2] == data[p + 3] && b[3] == data[p + 4]);
    }
}

/// `BINFLOAT` pushes the float whose bit pattern is its eight operand
/// bytes, big-endian.
pub proof fn law_binfloat(data: Seq<u8>, m: Machine)
    requires
        0 <= m.pos,
        m.pos + 9 <= data.len(),
        data[m.pos] == op::BINFLOAT,
    ensures
        ({
            let p = m.pos;
            let bits = 0x100_0000_0000_0000 * data[p + 1] + 0x1_0000_0000_0000 * data[p + 2] + 0x100_0000_0000
                * data[p + 3] + 0x1_0000_0000 * data[p + 4] + 0x100_0000 * data[p + 5] + 0x1_0000 * data[p + 6]
                + 0x100 * data[p + 7] + data[p + 8];
            step(data, m) == Outcome::Running(
                Machine { pos: p + 9, stack: m.stack.push(Value::Float(bits as u64)), ..m },
            )
        }),
{
    let p = m.pos;
    let b = data.subrange(p + 1, p + 9);
    assert(b[0] == data[p + 1] && b[1] == data[p + 2] && b[2] == data[p + 3] && b[3] == data[p + 4]);
    assert(b[4] == data[p + 5] && b[5] == data[p + 6] && b[6] == data[p + 7] && b[7] == data[p + 8]);
}

/// `PROTO` records its operand byte as the protocol, `FRAME` its eight
/// operand bytes as the frame header; nothing else changes.
pub proof fn law_proto_and_frame(data: Seq<u8>, m: Machine)
    requires
        0 <= m.pos,
        data[m.pos] == op::PROTO && m.pos + 2 <= data.len() || data[m.pos] == op::FRAME && m.pos + 9
            <= data.len(),
    ensures
        data[m.pos] == op::PROTO ==> step(data, m) == Outcome::Running(
            Machine { pos: m.pos + 2, proto: data[m.pos + 1], ..m },
        ),
        data[m.pos] == op::FRAME ==> step(data, m) == Outcome::Running(
            Machine { pos: m.pos + 9, frame: data.subrange(m.pos + 1, m.pos + 9), ..m },
        ),
{
}

/// The opcodes without operand that push a constant: `NONE`, `NEWTRUE`,
/// `NEWFALSE` and the four empty containers.
pub proof fn law_constants(data: Seq<u8>, m: Machine)
    requires
        0 <= m.pos < data.len(),
    ensures
        ({
            let opc = data[m.pos];
            let v = if opc == op::NONE {
                Some(Value::NoneValue)
            } else if opc == op::NEWTRUE {
                Some(Value::Bool(true))
            } else if opc == op::NEWFALSE {
                Some(Value::Bool(false))
            } else if opc == op::EMPTY_LIST {
                Some(Value::List(Seq::empty()))
            } else if opc == op::EMPTY_TUPLE {
                Some(Value::Tuple(Seq::empty()))
            } else if opc == op::EMPTY_DICT {
                Some(Value::Dict(Seq::empty()))
            } else if opc == op::EMPTY_SET {
                Some(Value::MutableSet(Seq::empty()))
            } else {
                None
            };
            v matches Some(x) ==> step(data, m) == Outcome::Running(
                Machine { pos: m.pos + 1, stack: m.stack.push(x), ..m },
            )
        }),
{
}

/// `TUPLE1`, `TUPLE2` and `TUPLE3` replace the top 1, 2 or 3 values by one
/// tuple of them, the deepest first.
pub proof fn law_small_tuples(data: Seq<u8>, m: Machine, k: int)
    requires
        0 <= m.pos < data.len(),
        data[m.pos] == op::TUPLE1 && k == 1 || data[m.pos] == op::TUPLE2 && k == 2 || data[m.pos] == op::TUPLE3
            && k == 3,
        m.stack.len() >= k,
    ensures
        ({
            let n = m.stack.len();
            step(data, m) matches Outcome::Running(m2) && {
                &&& m2.pos == m.pos + 1
                &&& m2.marks == m.marks
                &&& m2.memo == m.memo
                &&& m2.stack.len() == n - k + 1
                &&& forall|j: int| 0 <= j < n - k ==> m2.stack[j] == m.stack[j]
                &&& m2.stack[n - k] matches Value::Tuple(items)
                &&& items.len() == k
                &&& forall|i: int| 0 <= i < k ==> items[i] == m.stack[n - k + i]
            }
        }),
{
}

/// `MARK` records the height of the stack; `TUPLE` and `FROZENSET`
/// replace the values above the last mark by one tuple or frozen set of
/// them, in order, and `POP_MARK` drops them; the mark goes in each case.
pub proof fn law_marks(data: Seq<u8>, m: Machine)
    requires
        0 <= m.pos < data.len(),
        data[m.pos] == op::MARK || (data[m.pos] == op::TUPLE || data[m.pos] == op::FROZENSET || data[m.pos]
            == op::POP_MARK) && m.marks.len() > 0 && m.marks.last() <= m.stack.len(),
    ensures
        data[m.pos] == op::MARK ==> step(data, m) == Outcome::Running(
            Machine { pos: m.pos + 1, marks: m.marks.push(m.stack.len() as usize), ..m },
        ),
        data[m.pos] != op::MARK ==> ({
            let mark = m.marks.last() as int;
            let above = m.stack.subrange(mark, m.stack.len() as int);
            let below = m.stack.subrange(0, mark);
            let stack2 = if data[m.pos] == op::TUPLE {
                below.push(Value::Tuple(above))
            } else if data[m.pos] == op::FROZENSET {
                below.push(Value::FrozenSet(above))
            } else {
                below
            };
            step(data, m) == Outcome::Running(
                Machine { pos: m.pos + 1, stack: stack2, marks: m.marks.drop_last(), ..m },
            )
        }),
{
}

/// An opcode that takes values above the last mark finds no mark:
/// `NoMarkFound`.
pub proof fn law_no_mark(data: Seq<u8>, m: Machine)
    requires
        0 <= m.pos < data.len(),
        data[m.pos] == op::TUPLE || data[m.pos] == op::FROZENSET || data[m.pos] == op::POP_MARK || data[m.pos]
            == op::SETITEMS || data[m.pos] == op::APPENDS || data[m.pos] == op::ADDITEMS,
        m.marks.len() == 0,
    ensures
        step(data, m) == Outcome::Finished(
            Err::<crate::value::Unpickled, Error>(Error::NoMarkFound { op: data[m.pos] }),
        ),
{
}

/// `MEMOIZE` appends the top value to the memo; `DUP` pushes it again;
/// `POP` drops it; `BINPERSID` leaves the stack as it is. On an empty
/// stack `MEMOIZE` and `DUP` fail with `NoValueOnStack`, `BINPERSID` with
/// `StackUnderflow`, and `POP` does nothing.
pub proof fn law_top_of_stack(data: Seq<u8>, m: Machine)
    requires
        0 <= m.pos < data.len(),
        data[m.pos] == op::MEMOIZE || data[m.pos] == op::DUP || data[m.pos] == op::POP || data[m.pos]
            == op::BINPERSID,
    ensures
        ({
            let opc = data[m.pos];
            let m1 = Machine { pos: m.pos + 1, ..m };
            if m.stack.len() == 0 {
                step(data, m) == if opc == op::POP {
                    Outcome::Running(m1)
                } else if opc == op::BINPERSID {
                    Outcome::Finished(Err::<crate::value::Unpickled, Error>(Error::StackUnderflow { op: opc }))
                } else {
                    Outcome::Finished(Err::<crate::value::Unpickled, Error>(Error::NoValueOnStack))
                }
            } else {
                step(data, m) == Outcome::Running(
                    if opc == op::MEMOIZE {
                        Machine { memo: m.memo.push(m.stack.last()), ..m1 }
                    } else if opc == op::DUP {
                        Machine { stack: m.stack.push(m.stack.last()), ..m1 }
                    } else if opc == op::POP {
                        Machine { stack: m.stack.drop_last(), ..m1 }
                    } else {
                        m1
                    },
                )
            }
        }),
{
}

/// `STACK_GLOBAL` turns the two strings on top, module name below
/// attribute name, into a global; anything else there is `InvalidGlobal`.
pub proof fn law_stack_global(data: Seq<u8>, m: Machine)
    requires
        0 <= m.pos < data.len(),
        data[m.pos] == op::STACK_GLOBAL,
        m.stack.len() >= 2,
    ensures
        ({
            let n = m.stack.len();
            match (m.stack[n - 2], m.stack[n - 1]) {
                (Value::String(module), Value::String(attr)) => step(data, m) == Outcome::Running(
                    Machine {
                        pos: m.pos + 1,
                        stack: m.stack.subrange(0, n - 2).push(Value::Global { module, attr }),
                        ..m
                    },
                ),
                _ => step(data, m) == Outcome::Finished(
                    Err::<crate::value::Unpickled, Error>(Error::InvalidGlobal { op: op::STACK_GLOBAL }),
                ),
            }
        }),
{
}

/// `BUILD` makes the top value the state of the object below it, keeping
/// its global and arguments.
pub proof fn law_build(data: Seq<u8>, m: Machine, module: Seq<u8>, attr: Seq<u8>, args: Seq<Value>, state: Value)
    requires
        0 <= m.pos < data.len(),
        data[m.pos] == op::BUILD,
        m.stack.len() >= 2,
        m.stack[m.stack.len() - 2] == (Value::Object { module, attr, args, state: Box::new(state) }),
    ensures
        ({
            let n = m.stack.len();
            step(data, m) == Outcome::Running(
                Machine {
                    pos: m.pos + 1,
                    stack: m.stack.subrange(0, n - 2).push(
                        Value::Object { module, attr, args, state: Box::new(m.stack[n - 1]) },
                    ),
                    ..m
                },
            )
        }),
{
    let n = m.stack.len();
    let m2 = step(data, m)->Running_0;
    assert(m2.stack =~= m.stack.subrange(0, n - 2).push(
        Value::Object { module, attr, args, state: Box::new(m.stack[n - 1]) },
    ));
}

proof fn lemma_op_global(data: Seq<u8>, m: Machine, i: int, j: int)
    requires
        1 <= m.pos,
        0 <= i,
        0 <= j,
        m.pos + i + 1 + j < data.len(),
        data[m.pos + i] == 0x0a,
        data[m.pos + i + 1 + j] == 0x0a,
        forall|k: int| m.pos <= k < m.pos + i ==> data[k] != 0x0a,
        forall|k: int| m.pos + i + 1 <= k < m.pos + i + 1 + j ==> data[k] != 0x0a,
    ensures
        ({
            let module = data.subrange(m.pos, m.pos + i);
            let attr = data.subrange(m.pos + i + 1, m.pos + i + 1 + j);
            if valid_utf8(module) && valid_utf8(attr) {
                op_global(data, m) == Outcome::Running(
                    Machine { pos: m.pos + i + 1 + j + 1, stack: m.stack.push(Value::Global { module, attr }), ..m },
                )
            } else {
                op_global(data, m) == Outcome::Finished(Err::<crate::value::Unpickled, Error>(Error::InvalidUtf8))
            }
        }),
{
    let p = m.pos;
    let rest = data.subrange(p, data.len() as int);
    assert(is_first_newline(rest, i));
    lemma_first_newline(rest);
    let k = first_newline(rest)->0;
    if k < i {
        assert(rest[k] == data[p + k]);
    }
    if k > i {
        assert(rest[i] == data[p + i]);
    }
    let after = rest.subrange(i + 1, rest.len() as int);
    assert(is_first_newline(after, j));
    lemma_first_newline(after);
    let l = first_newline(after)->0;
    if l < j {
        assert(after[l] == data[p + i + 1 + l]);
    }
    if l > j {
        assert(after[j] == data[p + i + 1 + j]);
    }
    assert(rest.subrange(0, i) =~= data.subrange(p, p + i));
    assert(after.subrange(0, j) =~= data.subrange(p + i + 1, p + i + 1 + j));
}

/// `GLOBAL` reads a module name up to the first newline after it and an
/// attribute name up to the next newline, both UTF-8, pushes the global
/// they name and moves past the second newline.
pub proof fn law_global(data: Seq<u8>, m: Machine, i: int, j: int)
    requires
        0 <= m.pos,
        data[m.pos] == op::GLOBAL,
        0 <= i,
        0 <= j,
        m.pos + 1 + i + 1 + j < data.len(),
        data[m.pos + 1 + i] == 0x0a,
        data[m.pos + 1 + i + 1 + j] == 0x0a,
        forall|k: int| m.pos + 1 <= k < m.pos + 1 + i ==> data[k] != 0x0a,
        forall|k: int| m.pos + 1 + i + 1 <= k < m.pos + 1 + i + 1 + j ==> data[k] != 0x0a,
    ensures
        ({
            let module = data.subrange(m.pos + 1, m.pos + 1 + i);
            let attr = data.subrange(m.pos + 1 + i + 1, m.pos + 1 + i + 1 + j);
            if valid_utf8(module) && valid_utf8(attr) {
                step(data, m) == Outcome::Running(
                    Machine {
                        pos: m.pos + 1 + i + 1 + j + 1,
                        stack: m.stack.push(Value::Global { module, attr }),
                        ..m
                    },
                )
            } else {
                step(data, m) == Outcome::Finished(Err::<crate::value::Unpickled, Error>(Error::InvalidUtf8))
            }
        }),
{
    let m1 = with_pos(m, m.pos + 1);
    assert(step(data, m) == op_global(data, m1));
    lemma_op_global(data, m1, i, j);
}

/// `STOP` ends the run with the top of the stack, the protocol and the
/// frame header, or with `EmptyStack`.
pub proof fn law_stop(data: Seq<u8>, m: Machine)
    requires
        0 <= m.pos < data.len(),
        data[m.pos] == op::STOP,
    ensures
        m.stack.len() == 0 ==> step(data, m) == Outcome::Finished(
            Err::<crate::value::Unpickled, Error>(Error::EmptyStack),
        ),
        m.stack.len() > 0 ==> step(data, m) == Outcome::Finished(
            Ok::<crate::value::Unpickled, Error>(
                crate::value::Unpickled { proto: m.proto, frame: m.frame, root: m.stack.last() },
            ),
        ),
{
}

/// The opcodes the machine handles.
pub open spec fn handled(b: u8) -> bool {
    b == op::MARK || b == op::EMPTY_TUPLE || b == op::STOP || b == op::POP || b == op::POP_MARK || b == op::DUP
        || b == op::BINBYTES || b == op::SHORT_BINBYTES || b == op::BINFLOAT || b == op::BININT || b
        == op::BININT1 || b == op::BININT2 || b == op::NONE || b == op::BINPERSID || b == op::REDUCE || b
        == op::BINUNICODE || b == op::EMPTY_LIST || b == op::APPEND || b == op::BUILD || b == op::GLOBAL
        || b == op::APPENDS || b == op::BINGET || b == op::LONG_BINGET || b == op::BINPUT || b
        == op::LONG_BINPUT || b == op::SETITEM || b == op::TUPLE || b == op::SETITEMS || b == op::EMPTY_DICT
        || b == op::PROTO || b == op::NEWOBJ || b == op::TUPLE1 || b == op::TUPLE2 || b == op::TUPLE3 || b
        == op::NEWTRUE || b == op::NEWFALSE || b == op::LONG1 || b == op::SHORT_BINUNICODE || b
        == op::EMPTY_SET || b == op::ADDITEMS || b == op::FROZENSET || b == op::NEWOBJ_EX || b
        == op::STACK_GLOBAL || b == op::MEMOIZE || b == op::FRAME
}

/// Any other byte ends the run with `UnsupportedOpcode`.
pub proof fn law_unsupported(data: Seq<u8>, m: Machine)
    requires
        0 <= m.pos < data.len(),
        !handled(data[m.pos]),
    ensures
        step(data, m) == Outcome::Finished(
            Err::<crate::value::Unpickled, Error>(Error::UnsupportedOpcode(data[m.pos])),
        ),
{
}

/// An opcode that consumes values finds too few on the stack:
/// `StackUnderflow`.
pub proof fn law_stack_underflow(data: Seq<u8>, m: Machine)
    requires
        0 <= m.pos < data.len(),
        ({
            let b = data[m.pos];
            let need = if b == op::TUPLE1 || b == op::APPEND || b == op::BUILD || b == op::BINPERSID {
                1int
            } else if b == op::TUPLE2 || b == op::SETITEM || b == op::STACK_GLOBAL || b == op::REDUCE || b
                == op::NEWOBJ {
                2
            } else if b == op::TUPLE3 || b == op::NEWOBJ_EX {
                3
            } else {
                0
            };
            need > 0 && m.stack.len() < need
        }),
    ensures
        step(data, m) == Outcome::Finished(
            Err::<crate::value::Unpickled, Error>(Error::StackUnderflow { op: data[m.pos] }),
        ),
{
}

/// The width of the fixed operand, or of the length prefix, that follows
/// an opcode; 0 for the others.
pub open spec fn operand_width(b: u8) -> int {
    if b == op::PROTO || b == op::BININT1 || b == op::BINGET || b == op::BINPUT || b == op::LONG1 || b
        == op::SHORT_BINUNICODE || b == op::SHORT_BINBYTES {
        1
    } else if b == op::BININT2 {
        2
    } else if b == op::BININT || b == op::LONG_BINGET || b == op::LONG_BINPUT || b == op::BINUNICODE || b
        == op::BINBYTES {
        4
    } else if b == op::FRAME || b == op::BINFLOAT {
        8
    } else {
        0
    }
}

/// An opcode whose operand, or length prefix, runs past the end of the
/// data: `TruncatedOpcode`.
pub proof fn law_truncated_operand(data: Seq<u8>, m: Machine)
    requires
        0 <= m.pos < data.len(),
        operand_width(data[m.pos]) > 0,
        m.pos + 1 + operand_width(data[m.pos]) > data.len(),
    ensures
        step(data, m) == Outcome::Finished(
            Err::<crate::value::Unpickled, Error>(Error::TruncatedOpcode(data[m.pos])),
        ),
{
}

/// `BINPUT` and `LONG_BINPUT` on an empty stack: `NoValueOnStack`.
pub proof fn law_memo_put_empty_stack(data: Seq<u8>, m: Machine)
    requires
        0 <= m.pos,
        data[m.pos] == op::BINPUT && m.pos + 2 <= data.len() || data[m.pos] == op::LONG_BINPUT && m.pos + 5
            <= data.len(),
        m.stack.len() == 0,
    ensures
        step(data, m) == Outcome::Finished(Err::<crate::value::Unpickled, Error>(Error::NoValueOnStack)),
{
}

/// The values above the last mark go to a container of the wrong kind, or
/// to none: `SETITEMS` needs a dictionary (`SetitemsWithoutDict`),
/// `APPENDS` a list (`AppendsWithoutList`), `ADDITEMS` a set
/// (`AdditemsWithoutSet`).
pub proof fn law_mark_container_missing(data: Seq<u8>, m: Machine)
    requires
        0 <= m.pos < data.len(),
        data[m.pos] == op::SETITEMS || data[m.pos] == op::APPENDS || data[m.pos] == op::ADDITEMS,
        m.marks.len() > 0,
        m.marks.last() <= m.stack.len(),
        ({
            let mark = m.marks.last() as int;
            let b = data[m.pos];
            mark == 0 || (b == op::SETITEMS && !(m.stack[mark - 1] is Dict)) || (b == op::APPENDS
                && !(m.stack[mark - 1] is List)) || (b == op::ADDITEMS && !(m.stack[mark - 1] is MutableSet))
        }),
    ensures
        ({
            let b = data[m.pos];
            let e = if b == op::SETITEMS {
                Error::SetitemsWithoutDict { op: b }
            } else if b == op::APPENDS {
                Error::AppendsWithoutList { op: b }
            } else {
                Error::AdditemsWithoutSet { op: b }
            };
            step(data, m) == Outcome::Finished(Err::<crate::value::Unpickled, Error>(e))
        }),
{
}

/// `SETITEM` without a dictionary below its two values
/// (`SetitemWithoutDict`), `APPEND` without a list below its value
/// (`AppendsWithoutList`), `BUILD` without an object below its value
/// (`BuildWithoutObject`).
pub proof fn law_container_missing(data: Seq<u8>, m: Machine)
    requires
        0 <= m.pos < data.len(),
        ({
            let b = data[m.pos];
            let n = m.stack.len();
            (b == op::SETITEM && n >= 2 && (n == 2 || !(m.stack[n - 3] is Dict))) || (b == op::APPEND && n >= 1
                && (n == 1 || !(m.stack[n - 2] is List))) || (b == op::BUILD && n >= 1 && (n == 1 || !(m.stack[n
                - 2] is Object)))
        }),
    ensures
        ({
            let b = data[m.pos];
            let e = if b == op::SETITEM {
                Error::SetitemWithoutDict { op: b }
            } else if b == op::APPEND {
                Error::AppendsWithoutList { op: b }
            } else {
                Error::BuildWithoutObject { op: b }
            };
            step(data, m) == Outcome::Finished(Err::<crate::value::Unpickled, Error>(e))
        }),
{
}

/// `REDUCE`, `NEWOBJ` and `NEWOBJ_EX` whose callable is not a global:
/// `ReduceWithoutCallable`.
pub proof fn law_call_without_global(data: Seq<u8>, m: Machine)
    requires
        0 <= m.pos < data.len(),
        data[m.pos] == op::REDUCE || data[m.pos] == op::NEWOBJ || data[m.pos] == op::NEWOBJ_EX,
        m.stack.len() >= 3,
        ({
            let k = if data[m.pos] == op::NEWOBJ_EX { m.stack.len() - 3 } else { m.stack.len() - 2 };
            !(m.stack[k] is Global)
        }),
    ensures
        step(data, m) == Outcome::Finished(
            Err::<crate::value::Unpickled, Error>(Error::ReduceWithoutCallable { op: data[m.pos] }),
        ),
{
}

} // verus!
