use unpickler::op;
use unpickler::unpickle::Error;
use unpickler::{unpickle, unpickle_checked, PickleData, PickleValue};

fn root(data: &[u8]) -> PickleValue<'_> {
    unpickle(data).expect("stream should load").root
}

fn err(data: &[u8]) -> Error {
    unpickle(data).expect_err("stream should fail")
}

#[test]
fn proto_int_stop() {
    let data = [op::PROTO, 2, op::BININT1, 5, op::STOP];
    let d = unpickle(&data).unwrap();
    assert_eq!(
        d,
        PickleData { proto: 2, frame: [0; 8], root: PickleValue::Int(5) }
    );
}

#[test]
fn frame_is_recorded() {
    let data = [op::FRAME, 1, 2, 3, 4, 5, 6, 7, 8, op::NONE, op::STOP];
    let d = unpickle(&data).unwrap();
    assert_eq!(d.frame, [1, 2, 3, 4, 5, 6, 7, 8]);
    assert_eq!(d.proto, 0);
    assert_eq!(d.root, PickleValue::NoneValue);
}

#[test]
fn later_proto_and_frame_win() {
    let data = [
        op::PROTO, 2, op::FRAME, 1, 1, 1, 1, 1, 1, 1, 1, op::PROTO, 4, op::FRAME, 9, 0, 0, 0, 0, 0, 0, 0,
        op::NONE, op::STOP,
    ];
    let d = unpickle(&data).unwrap();
    assert_eq!(d.proto, 4);
    assert_eq!(d.frame, [9, 0, 0, 0, 0, 0, 0, 0]);
}

#[test]
fn bools() {
    assert_eq!(root(&[op::NEWTRUE, op::STOP]), PickleValue::Bool(true));
    assert_eq!(root(&[op::NEWFALSE, op::STOP]), PickleValue::Bool(false));
}

#[test]
fn binint1_is_unsigned() {
    assert_eq!(root(&[op::BININT1, 0xff, op::STOP]), PickleValue::Int(255));
}

#[test]
fn binint2_little_endian() {
    assert_eq!(root(&[op::BININT2, 0x34, 0x12, op::STOP]), PickleValue::Int(0x1234));
    assert_eq!(root(&[op::BININT2, 0xff, 0xff, op::STOP]), PickleValue::Int(65535));
}

#[test]
fn binint_signed_little_endian() {
    assert_eq!(root(&[op::BININT, 0x78, 0x56, 0x34, 0x12, op::STOP]), PickleValue::Int(0x12345678));
    assert_eq!(root(&[op::BININT, 0xff, 0xff, 0xff, 0xff, op::STOP]), PickleValue::Int(-1));
    assert_eq!(root(&[op::BININT, 0, 0, 0, 0x80, op::STOP]), PickleValue::Int(-2147483648));
}

#[test]
fn binfloat_big_endian_bits() {
    let bytes = 1.5f64.to_be_bytes();
    let mut data = vec![op::BINFLOAT];
    data.extend_from_slice(&bytes);
    data.push(op::STOP);
    match root(&data) {
        PickleValue::Float(bits) => assert_eq!(f64::from_bits(bits), 1.5),
        other => panic!("unexpected {:?}", other),
    }
    let neg = (-2.25f64).to_be_bytes();
    let mut data = vec![op::BINFLOAT];
    data.extend_from_slice(&neg);
    data.push(op::STOP);
    assert_eq!(root(&data), PickleValue::Float((-2.25f64).to_bits()));
}

#[test]
fn short_binunicode_string() {
    let data = [op::SHORT_BINUNICODE, 2, b'h', b'i', op::STOP];
    assert_eq!(root(&data), PickleValue::String("hi"));
}

#[test]
fn binunicode_multibyte_string() {
    let s = "é€";
    let mut data = vec![op::BINUNICODE];
    data.extend_from_slice(&(s.len() as u32).to_le_bytes());
    data.extend_from_slice(s.as_bytes());
    data.push(op::STOP);
    assert_eq!(root(&data), PickleValue::String("é€"));
}

#[test]
fn invalid_utf8_is_rejected() {
    assert_eq!(err(&[op::SHORT_BINUNICODE, 1, 0xff, op::STOP]), Error::InvalidUtf8);
    assert_eq!(err(&[op::BINUNICODE, 2, 0, 0, 0, 0xc3, 0x28, op::STOP]), Error::InvalidUtf8);
}

#[test]
fn bytes_and_long1() {
    assert_eq!(root(&[op::SHORT_BINBYTES, 3, 1, 2, 3, op::STOP]), PickleValue::Bytes(&[1, 2, 3]));
    assert_eq!(root(&[op::BINBYTES, 2, 0, 0, 0, 0xff, 0x00, op::STOP]), PickleValue::Bytes(&[0xff, 0]));
    assert_eq!(root(&[op::LONG1, 2, 0xff, 0x7f, op::STOP]), PickleValue::BigInt(&[0xff, 0x7f]));
    assert_eq!(root(&[op::SHORT_BINBYTES, 0, op::STOP]), PickleValue::Bytes(&[]));
}

#[test]
fn empty_containers() {
    assert_eq!(root(&[op::EMPTY_LIST, op::STOP]), PickleValue::List(vec![]));
    assert_eq!(root(&[op::EMPTY_TUPLE, op::STOP]), PickleValue::Tuple(vec![]));
    assert_eq!(root(&[op::EMPTY_DICT, op::STOP]), PickleValue::Dict(vec![]));
    assert_eq!(root(&[op::EMPTY_SET, op::STOP]), PickleValue::MutableSet(vec![]));
}

#[test]
fn small_tuples_keep_order() {
    let data = [op::BININT1, 1, op::BININT1, 2, op::BININT1, 3, op::TUPLE3, op::STOP];
    assert_eq!(
        root(&data),
        PickleValue::Tuple(vec![PickleValue::Int(1), PickleValue::Int(2), PickleValue::Int(3)])
    );
    let data = [op::BININT1, 1, op::BININT1, 2, op::TUPLE2, op::STOP];
    assert_eq!(root(&data), PickleValue::Tuple(vec![PickleValue::Int(1), PickleValue::Int(2)]));
    let data = [op::NONE, op::TUPLE1, op::STOP];
    assert_eq!(root(&data), PickleValue::Tuple(vec![PickleValue::NoneValue]));
}

#[test]
fn mark_tuple() {
    let data = [op::NONE, op::MARK, op::BININT1, 7, op::NEWTRUE, op::TUPLE, op::STOP];
    assert_eq!(root(&data), PickleValue::Tuple(vec![PickleValue::Int(7), PickleValue::Bool(true)]));
    let d = unpickle(&[op::NONE, op::MARK, op::TUPLE, op::TUPLE2, op::STOP]).unwrap();
    assert_eq!(d.root, PickleValue::Tuple(vec![PickleValue::NoneValue, PickleValue::Tuple(vec![])]));
}

#[test]
fn list_append_and_appends() {
    let data = [
        op::EMPTY_LIST, op::BININT1, 1, op::APPEND, op::MARK, op::BININT1, 2, op::BININT1, 3, op::APPENDS,
        op::STOP,
    ];
    assert_eq!(
        root(&data),
        PickleValue::List(vec![PickleValue::Int(1), PickleValue::Int(2), PickleValue::Int(3)])
    );
}

#[test]
fn dict_setitem_and_setitems() {
    let data = [
        op::EMPTY_DICT, op::BININT1, 1, op::BININT1, 10, op::SETITEM, op::MARK, op::BININT1, 2,
        op::BININT1, 20, op::BININT1, 3, op::SETITEMS, op::STOP,
    ];
    assert_eq!(
        root(&data),
        PickleValue::Dict(vec![
            (PickleValue::Int(1), PickleValue::Int(10)),
            (PickleValue::Int(2), PickleValue::Int(20)),
            (PickleValue::Int(3), PickleValue::NoneValue),
        ])
    );
}

#[test]
fn sets() {
    let data = [op::EMPTY_SET, op::MARK, op::BININT1, 4, op::BININT1, 5, op::ADDITEMS, op::STOP];
    assert_eq!(root(&data), PickleValue::MutableSet(vec![PickleValue::Int(4), PickleValue::Int(5)]));
    let data = [op::MARK, op::BININT1, 4, op::FROZENSET, op::STOP];
    assert_eq!(root(&data), PickleValue::FrozenSet(vec![PickleValue::Int(4)]));
}

#[test]
fn memo_memoize_and_get() {
    let data = [op::BININT1, 9, op::MEMOIZE, op::POP, op::BINGET, 0, op::STOP];
    assert_eq!(root(&data), PickleValue::Int(9));
    let data = [op::BININT1, 9, op::MEMOIZE, op::POP, op::LONG_BINGET, 0, 0, 0, 0, op::STOP];
    assert_eq!(root(&data), PickleValue::Int(9));
}

#[test]
fn memo_put_grows_memo() {
    let data = [
        op::BININT1, 9, op::BINPUT, 3, op::POP, op::BINGET, 3, op::BINGET, 1, op::TUPLE2, op::STOP,
    ];
    assert_eq!(root(&data), PickleValue::Tuple(vec![PickleValue::Int(9), PickleValue::NoneValue]));
    let data = [op::BININT1, 9, op::LONG_BINPUT, 2, 1, 0, 0, op::POP, op::LONG_BINGET, 2, 1, 0, 0, op::STOP];
    assert_eq!(root(&data), PickleValue::Int(9));
}

#[test]
fn memo_put_overwrites() {
    let data = [
        op::BININT1, 1, op::BINPUT, 0, op::BININT1, 2, op::BINPUT, 0, op::BINGET, 0, op::STOP,
    ];
    assert_eq!(root(&data), PickleValue::Int(2));
}

#[test]
fn memo_copy_is_independent() {
    // the list stored in the memo does not see the later append
    let data = [
        op::EMPTY_LIST, op::MEMOIZE, op::BININT1, 1, op::APPEND, op::BINGET, 0, op::TUPLE2, op::STOP,
    ];
    assert_eq!(
        root(&data),
        PickleValue::Tuple(vec![PickleValue::List(vec![PickleValue::Int(1)]), PickleValue::List(vec![])])
    );
}

#[test]
fn global_opcode() {
    let mut data = vec![op::GLOBAL];
    data.extend_from_slice(b"builtins\nset\n");
    data.push(op::STOP);
    assert_eq!(root(&data), PickleValue::Global { module: "builtins", attr: "set" });
}

#[test]
fn stack_global_and_reduce() {
    let data = [
        op::SHORT_BINUNICODE, 1, b'm', op::SHORT_BINUNICODE, 1, b'f', op::STACK_GLOBAL, op::BININT1, 1,
        op::TUPLE1, op::REDUCE, op::STOP,
    ];
    assert_eq!(
        root(&data),
        PickleValue::Object {
            module: "m",
            attr: "f",
            args: vec![PickleValue::Int(1)],
            state: Box::new(PickleValue::NoneValue),
        }
    );
}

#[test]
fn reduce_with_non_tuple_args() {
    let mut data = vec![op::GLOBAL];
    data.extend_from_slice(b"m\nf\n");
    data.extend_from_slice(&[op::BININT1, 5, op::NEWOBJ, op::STOP]);
    assert_eq!(
        root(&data),
        PickleValue::Object {
            module: "m",
            attr: "f",
            args: vec![PickleValue::Int(5)],
            state: Box::new(PickleValue::NoneValue),
        }
    );
}

#[test]
fn newobj_ex_drops_kwargs_and_build_sets_state() {
    let mut data = vec![op::GLOBAL];
    data.extend_from_slice(b"m\nC\n");
    data.extend_from_slice(&[
        op::EMPTY_TUPLE, op::EMPTY_DICT, op::NEWOBJ_EX, op::BININT1, 3, op::BUILD, op::STOP,
    ]);
    assert_eq!(
        root(&data),
        PickleValue::Object {
            module: "m",
            attr: "C",
            args: vec![],
            state: Box::new(PickleValue::Int(3)),
        }
    );
}

#[test]
fn dup_pop_popmark_binpersid() {
    assert_eq!(root(&[op::BININT1, 1, op::DUP, op::TUPLE2, op::STOP]),
        PickleValue::Tuple(vec![PickleValue::Int(1), PickleValue::Int(1)]));
    assert_eq!(root(&[op::BININT1, 1, op::BININT1, 2, op::POP, op::STOP]), PickleValue::Int(1));
    assert_eq!(root(&[op::POP, op::NONE, op::STOP]), PickleValue::NoneValue);
    assert_eq!(root(&[op::NONE, op::MARK, op::BININT1, 1, op::POP_MARK, op::STOP]), PickleValue::NoneValue);
    assert_eq!(root(&[op::BININT1, 1, op::BINPERSID, op::STOP]), PickleValue::Int(1));
}

#[test]
fn bytes_after_stop_are_not_read() {
    assert_eq!(root(&[op::NONE, op::STOP, 0xff, 0xff]), PickleValue::NoneValue);
}

#[test]
fn first_stop_ends_the_stream() {
    assert_eq!(root(&[op::BININT1, 1, op::STOP, op::BININT1, 2, op::STOP]), PickleValue::Int(1));
}

#[test]
fn clone_keeps_value() {
    let d = unpickle(&[op::EMPTY_LIST, op::SHORT_BINUNICODE, 1, b'x', op::APPEND, op::STOP]).unwrap();
    let c = d.clone();
    assert_eq!(c, d);
    assert_eq!(c.root.clone(), PickleValue::List(vec![PickleValue::String("x")]));
}

#[test]
fn checked_agrees_with_unpickle() {
    let data = [op::BININT1, 3, op::STOP];
    assert_eq!(unpickle_checked(&data), Some(unpickle(&data)));
    let data = [op::BININT1];
    assert_eq!(unpickle_checked(&data), Some(Err(Error::TruncatedOpcode(op::BININT1))));
}

#[test]
fn checked_reports_mark_above_stack() {
    // the mark records height 1, then the stack is emptied below it
    let data = [op::NONE, op::MARK, op::POP, op::TUPLE, op::STOP];
    assert_eq!(unpickle_checked(&data), None);
}
