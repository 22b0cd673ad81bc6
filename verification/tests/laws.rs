use unpickler::op;
use unpickler::{unpickle, PickleValue};

#[test]
fn law_trailing_bytes_change_nothing() {
    let data = vec![op::BININT1, 4, op::DUP, op::TUPLE2, op::STOP];
    let base = unpickle(&data).unwrap();
    for extra in [vec![], vec![0xff], vec![op::STOP], vec![op::BININT, 1]] {
        let mut longer = data.clone();
        longer.extend_from_slice(&extra);
        assert_eq!(unpickle(&longer).unwrap(), base);
    }
}

#[test]
fn law_memo_get_after_put() {
    let data = [op::BININT2, 0x10, 0x27, op::BINPUT, 5, op::BINGET, 5, op::TUPLE2, op::STOP];
    assert_eq!(
        unpickle(&data).unwrap().root,
        PickleValue::Tuple(vec![PickleValue::Int(10000), PickleValue::Int(10000)])
    );
}

#[test]
fn law_tuple_since_mark() {
    let data = [
        op::NONE, op::MARK, op::BININT1, 1, op::NEWFALSE, op::EMPTY_LIST, op::TUPLE, op::TUPLE2, op::STOP,
    ];
    assert_eq!(
        unpickle(&data).unwrap().root,
        PickleValue::Tuple(vec![
            PickleValue::NoneValue,
            PickleValue::Tuple(vec![PickleValue::Int(1), PickleValue::Bool(false), PickleValue::List(vec![])]),
        ])
    );
}

#[test]
fn law_pop_undoes_dup() {
    let with = [op::BININT1, 8, op::BININT1, 9, op::DUP, op::POP, op::TUPLE2, op::STOP];
    let without = [op::BININT1, 8, op::BININT1, 9, op::TUPLE2, op::STOP];
    assert_eq!(unpickle(&with).unwrap(), unpickle(&without).unwrap());
}
