use unpickler::unpickle::Error;

#[test]
fn unsupported_opcode_message() {
    assert_eq!(Error::UnsupportedOpcode(0x05).message(), "unsupported opcode: 0x05");
    assert_eq!(Error::UnsupportedOpcode(0xff).message(), "unsupported opcode: 0xff");
    assert_eq!(Error::UnsupportedOpcode(0xa0).message(), "unsupported opcode: 0xa0");
    assert_eq!(Error::UnsupportedOpcode(0).message(), "unsupported opcode: 0x00");
}

#[test]
fn other_messages_use_debug_text() {
    let cases: Vec<Error> = vec![
        Error::TruncatedOpcode(0),
        Error::TruncatedOpcode(255),
        Error::TruncatedData { op: 88, expected_len: 0 },
        Error::TruncatedData { op: 9, expected_len: 1234567890 },
        Error::TruncatedData { op: 9, expected_len: usize::MAX },
        Error::Eof,
        Error::EmptyStack,
        Error::InvalidUtf8,
        Error::IndexOutOfRange { op: 104 },
        Error::StackUnderflow { op: 10 },
        Error::NoValueOnStack,
        Error::NoMarkFound { op: 116 },
        Error::SetitemWithoutDict { op: 115 },
        Error::SetitemsWithoutDict { op: 117 },
        Error::AppendsWithoutList { op: 101 },
        Error::AdditemsWithoutSet { op: 144 },
        Error::ReduceWithoutCallable { op: 82 },
        Error::BuildWithoutObject { op: 98 },
        Error::InvalidGlobal { op: 147 },
    ];
    for e in cases {
        assert_eq!(e.message(), format!("UnpickleError: {:?}", e));
    }
}

#[test]
fn exact_texts() {
    assert_eq!(Error::Eof.message(), "UnpickleError: Eof");
    assert_eq!(
        Error::TruncatedData { op: 66, expected_len: 300 }.message(),
        "UnpickleError: TruncatedData { op: 66, expected_len: 300 }"
    );
    assert_eq!(Error::TruncatedOpcode(40).message(), "UnpickleError: TruncatedOpcode(40)");
    assert_eq!(Error::NoMarkFound { op: 116 }.message(), "UnpickleError: NoMarkFound { op: 116 }");
}
