use unpickler::op;
use unpickler::unpickle;
use unpickler::unpickle::Error;

fn err(data: &[u8]) -> Error {
    unpickle(data).expect_err("stream should fail")
}

#[test]
fn empty_input_is_eof() {
    assert_eq!(err(&[]), Error::Eof);
}

#[test]
fn missing_stop_is_eof() {
    assert_eq!(err(&[op::NONE]), Error::Eof);
}

#[test]
fn stop_on_empty_stack() {
    assert_eq!(err(&[op::STOP]), Error::EmptyStack);
}

#[test]
fn truncated_operands() {
    assert_eq!(err(&[op::PROTO]), Error::TruncatedOpcode(op::PROTO));
    assert_eq!(err(&[op::FRAME, 1, 2, 3]), Error::TruncatedOpcode(op::FRAME));
    assert_eq!(err(&[op::BININT2, 1]), Error::TruncatedOpcode(op::BININT2));
    assert_eq!(err(&[op::BININT, 1, 2, 3]), Error::TruncatedOpcode(op::BININT));
    assert_eq!(err(&[op::BINFLOAT, 0, 0, 0, 0, 0, 0, 0]), Error::TruncatedOpcode(op::BINFLOAT));
    assert_eq!(err(&[op::BINUNICODE, 1, 0]), Error::TruncatedOpcode(op::BINUNICODE));
    assert_eq!(err(&[op::BINGET]), Error::TruncatedOpcode(op::BINGET));
}

#[test]
fn truncated_data() {
    assert_eq!(
        err(&[op::SHORT_BINBYTES, 5, 1, 2]),
        Error::TruncatedData { op: op::SHORT_BINBYTES, expected_len: 5 }
    );
    assert_eq!(
        err(&[op::BINBYTES, 0, 1, 0, 0, 1]),
        Error::TruncatedData { op: op::BINBYTES, expected_len: 256 }
    );
    assert_eq!(
        err(&[op::LONG1, 1]),
        Error::TruncatedData { op: op::LONG1, expected_len: 1 }
    );
}

#[test]
fn unsupported_opcode() {
    assert_eq!(err(&[op::INT]), Error::UnsupportedOpcode(op::INT));
    assert_eq!(err(&[0xff]), Error::UnsupportedOpcode(0xff));
}

#[test]
fn memo_index_out_of_range() {
    assert_eq!(err(&[op::BINGET, 0, op::STOP]), Error::IndexOutOfRange { op: op::BINGET });
    assert_eq!(
        err(&[op::NONE, op::MEMOIZE, op::LONG_BINGET, 1, 0, 0, 0, op::STOP]),
        Error::IndexOutOfRange { op: op::LONG_BINGET }
    );
}

#[test]
fn stack_underflow() {
    assert_eq!(err(&[op::TUPLE1]), Error::StackUnderflow { op: op::TUPLE1 });
    assert_eq!(err(&[op::NONE, op::TUPLE2]), Error::StackUnderflow { op: op::TUPLE2 });
    assert_eq!(err(&[op::NONE, op::SETITEM]), Error::StackUnderflow { op: op::SETITEM });
    assert_eq!(err(&[op::APPEND]), Error::StackUnderflow { op: op::APPEND });
    assert_eq!(err(&[op::BUILD]), Error::StackUnderflow { op: op::BUILD });
    assert_eq!(err(&[op::NONE, op::REDUCE]), Error::StackUnderflow { op: op::REDUCE });
    assert_eq!(err(&[op::NONE, op::NONE, op::NEWOBJ_EX]), Error::StackUnderflow { op: op::NEWOBJ_EX });
    assert_eq!(err(&[op::NONE, op::STACK_GLOBAL]), Error::StackUnderflow { op: op::STACK_GLOBAL });
    assert_eq!(err(&[op::BINPERSID]), Error::StackUnderflow { op: op::BINPERSID });
}

#[test]
fn no_value_on_stack() {
    assert_eq!(err(&[op::MEMOIZE]), Error::NoValueOnStack);
    assert_eq!(err(&[op::DUP]), Error::NoValueOnStack);
    assert_eq!(err(&[op::BINPUT, 0]), Error::NoValueOnStack);
    assert_eq!(err(&[op::LONG_BINPUT, 0, 0, 0, 0]), Error::NoValueOnStack);
}

#[test]
fn no_mark_found() {
    assert_eq!(err(&[op::TUPLE]), Error::NoMarkFound { op: op::TUPLE });
    assert_eq!(err(&[op::EMPTY_LIST, op::APPENDS]), Error::NoMarkFound { op: op::APPENDS });
    assert_eq!(err(&[op::POP_MARK]), Error::NoMarkFound { op: op::POP_MARK });
}

#[test]
fn containers_of_the_wrong_kind() {
    assert_eq!(
        err(&[op::EMPTY_LIST, op::NONE, op::NONE, op::SETITEM]),
        Error::SetitemWithoutDict { op: op::SETITEM }
    );
    assert_eq!(err(&[op::NONE, op::NONE, op::SETITEM]), Error::SetitemWithoutDict { op: op::SETITEM });
    assert_eq!(
        err(&[op::EMPTY_LIST, op::MARK, op::SETITEMS]),
        Error::SetitemsWithoutDict { op: op::SETITEMS }
    );
    assert_eq!(err(&[op::MARK, op::SETITEMS]), Error::SetitemsWithoutDict { op: op::SETITEMS });
    assert_eq!(
        err(&[op::EMPTY_DICT, op::MARK, op::APPENDS]),
        Error::AppendsWithoutList { op: op::APPENDS }
    );
    assert_eq!(err(&[op::EMPTY_DICT, op::NONE, op::APPEND]), Error::AppendsWithoutList { op: op::APPEND });
    assert_eq!(
        err(&[op::EMPTY_LIST, op::MARK, op::ADDITEMS]),
        Error::AdditemsWithoutSet { op: op::ADDITEMS }
    );
    assert_eq!(err(&[op::NONE, op::NONE, op::BUILD]), Error::BuildWithoutObject { op: op::BUILD });
}

#[test]
fn reduce_without_callable() {
    assert_eq!(err(&[op::NONE, op::EMPTY_TUPLE, op::REDUCE]), Error::ReduceWithoutCallable { op: op::REDUCE });
    assert_eq!(err(&[op::NONE, op::EMPTY_TUPLE, op::NEWOBJ]), Error::ReduceWithoutCallable { op: op::NEWOBJ });
}

#[test]
fn invalid_global() {
    assert_eq!(err(&[op::NONE, op::NONE, op::STACK_GLOBAL]), Error::InvalidGlobal { op: op::STACK_GLOBAL });
}

#[test]
fn global_without_newlines_is_eof() {
    let mut data = vec![op::GLOBAL];
    data.extend_from_slice(b"mod");
    assert_eq!(err(&data), Error::Eof);
    let mut data = vec![op::GLOBAL];
    data.extend_from_slice(b"mod\nattr");
    assert_eq!(err(&data), Error::Eof);
}

#[test]
fn global_with_invalid_utf8() {
    let data = [op::GLOBAL, 0xff, b'\n', b'a', b'\n', op::STOP];
    assert_eq!(err(&data), Error::InvalidUtf8);
    let data = [op::GLOBAL, b'a', b'\n', 0xfe, b'\n', op::STOP];
    assert_eq!(err(&data), Error::InvalidUtf8);
}

#[test]
fn first_error_wins() {
    // the unsupported opcode comes before the truncated one
    assert_eq!(err(&[op::INT, op::BININT]), Error::UnsupportedOpcode(op::INT));
}
