use unpickler::unpickle::Error;
use unpickler::{unpickle, PickleData, PickleValue};

#[test]
fn small_tuples_of_ints() {
    assert_eq!(
        unpickle(b"K\x01K\x02K\x03\x87.").unwrap(),
        PickleData {
            proto: 0,
            frame: [0; 8],
            root: PickleValue::Tuple(vec![PickleValue::Int(1), PickleValue::Int(2), PickleValue::Int(3)]),
        }
    );
    assert_eq!(
        unpickle(b"K\x01K\x02\x86.").unwrap().root,
        PickleValue::Tuple(vec![PickleValue::Int(1), PickleValue::Int(2)])
    );
}

#[test]
fn scalars_and_strings_after_mark() {
    let data = b"(K\xffM\xff\xffJ\xff\xff\xff\xffG?\xf0\x00\x00\x00\x00\x00\x00\x8c\x02hiX\x02\x00\x00\x00yoC\x01\xffB\x00\x00\x00\x00\x8a\x02\x00\x80t.";
    assert_eq!(
        unpickle(data).unwrap().root,
        PickleValue::Tuple(vec![
            PickleValue::Int(255),
            PickleValue::Int(65535),
            PickleValue::Int(-1),
            PickleValue::Float(1.0f64.to_bits()),
            PickleValue::String("hi"),
            PickleValue::String("yo"),
            PickleValue::Bytes(&[255]),
            PickleValue::Bytes(&[]),
            PickleValue::BigInt(&[0, 128]),
        ])
    );
}

#[test]
fn proto_frame_and_bools() {
    assert_eq!(
        unpickle(b"\x80\x04\x95\x05\x00\x00\x00\x00\x00\x00\x00K\x01\x88\x89\x86.").unwrap(),
        PickleData {
            proto: 4,
            frame: [5, 0, 0, 0, 0, 0, 0, 0],
            root: PickleValue::Tuple(vec![PickleValue::Bool(true), PickleValue::Bool(false)]),
        }
    );
    assert_eq!(unpickle(b"N.").unwrap().root, PickleValue::NoneValue);
}

#[test]
fn containers() {
    assert_eq!(
        unpickle(b"(}K\x01K\x02s(K\x03K\x04K\x01u](K\x01K\x02eK\x03a\x8f(K\x04\x90(K\x05\x91t.").unwrap().root,
        PickleValue::Tuple(vec![
            PickleValue::Dict(vec![
                (PickleValue::Int(1), PickleValue::Int(2)),
                (PickleValue::Int(3), PickleValue::Int(4)),
                (PickleValue::Int(1), PickleValue::NoneValue),
            ]),
            PickleValue::List(vec![PickleValue::Int(1), PickleValue::Int(2), PickleValue::Int(3)]),
            PickleValue::MutableSet(vec![PickleValue::Int(4)]),
            PickleValue::FrozenSet(vec![PickleValue::Int(5)]),
        ])
    );
}

#[test]
fn globals_and_objects() {
    assert_eq!(
        unpickle(b"cmod\nattr\n)\x81\x8c\x01m\x8c\x01a\x93K\x01R}b\x86.").unwrap().root,
        PickleValue::Tuple(vec![
            PickleValue::Object {
                module: "mod",
                attr: "attr",
                args: vec![],
                state: Box::new(PickleValue::NoneValue),
            },
            PickleValue::Object {
                module: "m",
                attr: "a",
                args: vec![PickleValue::Int(1)],
                state: Box::new(PickleValue::Dict(vec![])),
            },
        ])
    );
}

#[test]
fn memo_and_dup() {
    assert_eq!(
        unpickle(b"(]q\x01K\x01ah\x01h\x00K\x07\x94j\x02\x00\x00\x00\x32t.").unwrap().root,
        PickleValue::Tuple(vec![
            PickleValue::List(vec![PickleValue::Int(1)]),
            PickleValue::List(vec![]),
            PickleValue::NoneValue,
            PickleValue::Int(7),
            PickleValue::Int(7),
            PickleValue::Int(7),
        ])
    );
}

#[test]
fn unhandled_bytes_are_unsupported() {
    assert_eq!(unpickle(b"I01\n."), Err(Error::UnsupportedOpcode(0x49)));
    assert_eq!(unpickle(b"(l."), Err(Error::UnsupportedOpcode(0x6c)));
}

#[test]
fn error_cases() {
    let u = |d: &'static [u8]| unpickle(d);
    assert_eq!(u(b""), Err(Error::Eof));
    assert_eq!(u(b"N"), Err(Error::Eof));
    assert_eq!(u(b"cm\na."), Err(Error::Eof));
    assert_eq!(u(b"."), Err(Error::EmptyStack));
    assert_eq!(u(b"K"), Err(Error::TruncatedOpcode(0x4b)));
    assert_eq!(u(b"X\x01\x00\x00"), Err(Error::TruncatedOpcode(0x58)));
    assert_eq!(u(b"\x8c\x05ab."), Err(Error::TruncatedData { op: 0x8c, expected_len: 5 }));
    assert_eq!(u(b"\x8c\x01\xff."), Err(Error::InvalidUtf8));
    assert_eq!(u(b"\x85."), Err(Error::StackUnderflow { op: 0x85 }));
    assert_eq!(u(b"t."), Err(Error::NoMarkFound { op: 0x74 }));
    assert_eq!(u(b"]K\x01K\x02s."), Err(Error::SetitemWithoutDict { op: 0x73 }));
    assert_eq!(u(b"](K\x01u."), Err(Error::SetitemsWithoutDict { op: 0x75 }));
    assert_eq!(u(b"}K\x01a."), Err(Error::AppendsWithoutList { op: 0x61 }));
    assert_eq!(u(b"](\x90."), Err(Error::AdditemsWithoutSet { op: 0x90 }));
    assert_eq!(u(b"K\x01)R."), Err(Error::ReduceWithoutCallable { op: 0x52 }));
    assert_eq!(u(b"]Nb."), Err(Error::BuildWithoutObject { op: 0x62 }));
    assert_eq!(u(b"K\x01K\x02\x93."), Err(Error::InvalidGlobal { op: 0x93 }));
    assert_eq!(u(b"2."), Err(Error::NoValueOnStack));
    assert_eq!(u(b"q\x00."), Err(Error::NoValueOnStack));
    assert_eq!(u(b"h\x00."), Err(Error::IndexOutOfRange { op: 0x68 }));
    assert_eq!(u(b"j\x00\x00\x00\x00."), Err(Error::IndexOutOfRange { op: 0x6a }));
    assert_eq!(u(b"0N.").unwrap().root, PickleValue::NoneValue);
}
