//! How runs are put together from steps, and what the models of values
//! keep of them.
use vstd::prelude::*;

use crate::machine::{run, step, unpickle_spec, Machine, Outcome};
use crate::op;
use crate::unpickle::Error;
use crate::value::{lemma_models_of, lemma_pair_models_of, str_bytes, PickleData, PickleValue, Unpickled, Value};

verus! {

/// A run starts at the first byte, with empty stack, marks and memo,
/// protocol 0 and a frame header of eight zero bytes.
pub proof fn law_run_start(data: Seq<u8>)
    ensures
        exists|m: Machine|
            #![trigger run(data, m)]
            {
                &&& m.pos == 0
                &&& m.stack.len() == 0
                &&& m.marks.len() == 0
                &&& m.memo.len() == 0
                &&& m.proto == 0
                &&& m.frame.len() == 8
                &&& forall|i: int| 0 <= i < 8 ==> m.frame[i] == 0
                &&& unpickle_spec(data) == run(data, m)
            },
{
    let m = crate::machine::initial_machine();
    assert(unpickle_spec(data) == run(data, m));
}

/// A run that reaches the end of the data ends with `Eof`; otherwise it
/// takes one step and goes on from there, ends with what the step ends
/// with, or crashes where the step does.
pub proof fn law_run_step(data: Seq<u8>, m: Machine)
    requires
        0 <= m.pos,
    ensures
        m.pos >= data.len() ==> run(data, m) == Some(Err::<Unpickled, Error>(Error::Eof)),
        m.pos < data.len() ==> match step(data, m) {
            Outcome::Running(m2) => run(data, m) == run(data, m2),
            Outcome::Finished(r) => run(data, m) == Some(r),
            Outcome::Crashed => run(data, m) is None,
        },
{
}

/// Popping a mark that lies above the top of the stack crashes the run.
pub proof fn law_mark_above_stack(data: Seq<u8>, m: Machine)
    requires
        0 <= m.pos < data.len(),
        data[m.pos] == op::TUPLE || data[m.pos] == op::FROZENSET || data[m.pos] == op::POP_MARK || data[m.pos]
            == op::SETITEMS || data[m.pos] == op::APPENDS || data[m.pos] == op::ADDITEMS,
        m.marks.len() > 0,
        m.marks.last() > m.stack.len(),
    ensures
        step(data, m) is Crashed,
        run(data, m) is None,
{
}

/// The model of a value keeps what it holds: numbers, flags and bit
/// patterns as they are, strings as their UTF-8 bytes, byte strings as
/// their bytes, and the items of containers one by one, in order.
pub proof fn law_value_model(v: PickleValue)
    ensures
        match v {
            PickleValue::NoneValue => v@ == Value::NoneValue,
            PickleValue::Bool(b) => v@ == Value::Bool(b),
            PickleValue::Int(i) => v@ == Value::Int(i),
            PickleValue::BigInt(b) => v@ == Value::BigInt(b@),
            PickleValue::Float(f) => v@ == Value::Float(f),
            PickleValue::String(s) => v@ == Value::String(str_bytes(s)),
            PickleValue::Bytes(b) => v@ == Value::Bytes(b@),
            PickleValue::List(items) => v@ matches Value::List(xs) && xs.len() == items@.len() && forall|i: int|
                0 <= i < xs.len() ==> xs[i] == items@[i]@,
            PickleValue::Tuple(items) => v@ matches Value::Tuple(xs) && xs.len() == items@.len() && forall|i: int|
                0 <= i < xs.len() ==> xs[i] == items@[i]@,
            PickleValue::MutableSet(items) => v@ matches Value::MutableSet(xs) && xs.len() == items@.len()
                && forall|i: int| 0 <= i < xs.len() ==> xs[i] == items@[i]@,
            PickleValue::FrozenSet(items) => v@ matches Value::FrozenSet(xs) && xs.len() == items@.len()
                && forall|i: int| 0 <= i < xs.len() ==> xs[i] == items@[i]@,
            PickleValue::Dict(entries) => v@ matches Value::Dict(xs) && xs.len() == entries@.len() && forall|i: int|
                0 <= i < xs.len() ==> xs[i] == (entries@[i].0@, entries@[i].1@),
            PickleValue::Object { module, attr, args, state } => v@ matches Value::Object {
                module: mo,
                attr: at,
                args: xs,
                state: st,
            } && mo == str_bytes(module) && at == str_bytes(attr) && *st == (*state)@ && xs.len() == args@.len()
                && forall|i: int| 0 <= i < xs.len() ==> xs[i] == args@[i]@,
            PickleValue::Global { module, attr } => v@ == Value::Global {
                module: str_bytes(module),
                attr: str_bytes(attr),
            },
        },
{
    match v {
        PickleValue::List(items) => lemma_models_of(items@),
        PickleValue::Tuple(items) => lemma_models_of(items@),
        PickleValue::MutableSet(items) => lemma_models_of(items@),
        PickleValue::FrozenSet(items) => lemma_models_of(items@),
        PickleValue::Dict(entries) => lemma_pair_models_of(entries@),
        PickleValue::Object { args, .. } => lemma_models_of(args@),
        _ => {},
    }
}

/// The model of a whole result keeps its protocol, its frame header byte
/// by byte and the model of its root.
pub proof fn law_data_model(d: PickleData)
    ensures
        d@.proto == d.proto,
        d@.frame.len() == 8,
        forall|i: int| 0 <= i < 8 ==> d@.frame[i] == d.frame[i],
        d@.root == d.root@,
{
}

} // verus!
