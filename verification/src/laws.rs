//! Properties of the pickle machine that span several opcodes or runs.
use vstd::prelude::*;

use crate::machine::{
    first_newline, initial_machine, is_first_newline, le_u32, lemma_first_newline, lemma_step_advances,
    op_dup, op_global, op_pop, op_to_mark, push, read_fixed, read_prefixed, run, step, unpickle_spec,
    with_pos, Machine, Outcome,
};
use crate::op;
use crate::unpickle::Error;
use crate::value::{Unpickled, Value};

verus! {

proof fn lemma_read_fixed_extend(data: Seq<u8>, extra: Seq<u8>, pos: int, len: int, op: u8)
    requires
        0 <= pos,
        0 <= len,
    ensures
        read_fixed(data, pos, len, op) is Ok ==> read_fixed(data + extra, pos, len, op) == read_fixed(data, pos, len, op),
{
    if read_fixed(data, pos, len, op) is Ok {
        assert((data + extra).subrange(pos, pos + len) =~= data.subrange(pos, pos + len));
    }
}

proof fn lemma_read_prefixed_extend(data: Seq<u8>, extra: Seq<u8>, pos: int, width: int, op: u8)
    requires
        0 <= pos,
        width == 1 || width == 4,
    ensures
        read_prefixed(data, pos, width, op) is Ok ==> read_prefixed(data + extra, pos, width, op) == read_prefixed(data, pos, width, op),
{
    lemma_read_fixed_extend(data, extra, pos, width, op);
    if read_prefixed(data, pos, width, op) is Ok {
        let (prefix, start) = read_fixed(data, pos, width, op)->Ok_0;
        let n = if width == 1 { prefix[0] as int } else { le_u32(prefix) };
        assert((data + extra).subrange(start, start + n) =~= data.subrange(start, start + n));
    }
}

proof fn lemma_first_newline_extend(s: Seq<u8>, extra: Seq<u8>)
    ensures
        first_newline(s) is Some ==> first_newline(s + extra) == first_newline(s),
{
    lemma_first_newline(s);
    lemma_first_newline(s + extra);
    if let Some(i) = first_newline(s) {
        assert(is_first_newline(s + extra, i));
        let k = first_newline(s + extra)->0;
        if k < i {
            assert((s + extra)[k] == s[k]);
        }
        if k > i {
            assert((s + extra)[i] == s[i]);
        }
    }
}

proof fn lemma_global_extend(data: Seq<u8>, extra: Seq<u8>, m: Machine)
    requires
        0 <= m.pos <= data.len(),
    ensures
        op_global(data, m) is Running ==> op_global(data + extra, m) == op_global(data, m),
{
    let rest = data.subrange(m.pos, data.len() as int);
    let rest2 = (data + extra).subrange(m.pos, (data + extra).len() as int);
    assert(rest2 =~= rest + extra);
    lemma_first_newline_extend(rest, extra);
    lemma_first_newline(rest);
    if let Some(i) = first_newline(rest) {
        let after = rest.subrange(i + 1, rest.len() as int);
        let after2 = rest2.subrange(i + 1, rest2.len() as int);
        assert(after2 =~= after + extra);
        lemma_first_newline_extend(after, extra);
        lemma_first_newline(after);
        if let Some(j) = first_newline(after) {
            assert(rest2.subrange(0, i) =~= rest.subrange(0, i));
            assert(after2.subrange(0, j) =~= after.subrange(0, j));
        }
    }
}

/// One step that goes on, or that ends with a value, reads only bytes it
/// finds in `data`: bytes appended after them change nothing.
proof fn lemma_step_extend(data: Seq<u8>, extra: Seq<u8>, m: Machine)
    requires
        0 <= m.pos < data.len(),
    ensures
        (step(data, m) is Running || (step(data, m) matches Outcome::Finished(Ok(_))))
            ==> step(data + extra, m) == step(data, m),
{
    let m1 = with_pos(m, m.pos + 1);
    let op = data[m.pos];
    assert((data + extra)[m.pos] == op);
    lemma_read_fixed_extend(data, extra, m1.pos, 1, op);
    lemma_read_fixed_extend(data, extra, m1.pos, 2, op);
    lemma_read_fixed_extend(data, extra, m1.pos, 4, op);
    lemma_read_fixed_extend(data, extra, m1.pos, 8, op);
    lemma_read_prefixed_extend(data, extra, m1.pos, 1, op);
    lemma_read_prefixed_extend(data, extra, m1.pos, 4, op);
    lemma_global_extend(data, extra, m1);
}

proof fn lemma_run_extend(data: Seq<u8>, extra: Seq<u8>, m: Machine, v: Unpickled)
    requires
        0 <= m.pos,
        run(data, m) == Some(Ok::<Unpickled, Error>(v)),
    ensures
        run(data + extra, m) == Some(Ok::<Unpickled, Error>(v)),
    decreases data.len() - m.pos,
{
    lemma_step_extend(data, extra, m);
    lemma_step_advances(data, m);
    if let Outcome::Running(m2) = step(data, m) {
        lemma_run_extend(data, extra, m2, v);
    }
}

/// A stream is read up to its `STOP` and no further: where `data` yields a
/// value, `data` followed by any bytes yields the same value.
pub proof fn law_bytes_after_stop_are_ignored(data: Seq<u8>, extra: Seq<u8>)
    requires
        unpickle_spec(data) matches Some(Ok(_)),
    ensures
        unpickle_spec(data + extra) == unpickle_spec(data),
{
    let v = unpickle_spec(data)->0->Ok_0;
    lemma_run_extend(data, extra, initial_machine(), v);
}

/// What `BINPUT` stores under an index, `BINGET` under the same index
/// pushes back: the two opcodes in a row leave the top of the stack
/// duplicated, and the value in the memo.
pub proof fn law_memo_get_returns_put(data: Seq<u8>, m: Machine, idx: u8)
    requires
        0 <= m.pos,
        m.pos + 4 <= data.len(),
        data[m.pos] == op::BINPUT,
        data[m.pos + 1] == idx,
        data[m.pos + 2] == op::BINGET,
        data[m.pos + 3] == idx,
        m.stack.len() > 0,
    ensures
        step(data, m) matches Outcome::Running(m2) && step(data, m2) matches Outcome::Running(m3) && {
            &&& m3.pos == m.pos + 4
            &&& m3.stack == m.stack.push(m.stack.last())
            &&& m3.memo[idx as int] == m.stack.last()
        },
{
    let m1 = with_pos(m, m.pos + 1);
    assert(data.subrange(m1.pos, m1.pos + 1)[0] == idx);
    let m2 = step(data, m)->Running_0;
    assert(data.subrange(m2.pos + 1, m2.pos + 2)[0] == idx);
}

/// `MARK`, any values, then `TUPLE`: the values pushed since the mark
/// become one tuple, and the mark is gone.
pub proof fn law_tuple_collects_values_since_mark(m: Machine, vs: Seq<Value>)
    requires
        m.stack.len() <= usize::MAX,
    ensures
        ({
            let marked = Machine { marks: m.marks.push(m.stack.len() as usize), ..m };
            op_to_mark(Machine { stack: m.stack + vs, ..marked }, op::TUPLE)
                == Outcome::Running(push(m, Value::Tuple(vs)))
        }),
{
    let marked = Machine { marks: m.marks.push(m.stack.len() as usize), ..m };
    let full = Machine { stack: m.stack + vs, ..marked };
    assert(full.stack.subrange(0, m.stack.len() as int) =~= m.stack);
    assert(full.stack.subrange(m.stack.len() as int, full.stack.len() as int) =~= vs);
    assert(full.marks.drop_last() =~= m.marks);
}

/// `POP` undoes `DUP`.
pub proof fn law_pop_undoes_dup(m: Machine)
    requires
        m.stack.len() > 0,
    ensures
        op_dup(m) matches Outcome::Running(m2) && op_pop(m2) == Outcome::Running(m),
{
    let m2 = op_dup(m)->Running_0;
    assert(m2.stack.drop_last() =~= m.stack);
}

} // verus!
