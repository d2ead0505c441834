use vinter_trace::text::{lift_option, parse_trace_file_text, parse_trace_line};
use vinter_trace::{get_trace_entry, Metadata, TraceEntry, TraceEntryMPK, TraceError};

fn lines(v: &[&str]) -> Vec<String> {
    v.iter().map(|s| s.to_string()).collect()
}

#[test]
fn write_line_parses_all_columns() {
    let r = parse_trace_line(0, "write,4096,8,aabbccddeeff0011,true").unwrap().unwrap();
    match r {
        TraceEntry::Write { id, address, size, content, non_temporal, metadata } => {
            assert_eq!(id, 0);
            assert_eq!(address, 4096);
            assert_eq!(size, 8);
            assert_eq!(content, vec![0xaa, 0xbb, 0xcc, 0xdd, 0xee, 0xff, 0x00, 0x11]);
            assert!(non_temporal);
            assert_eq!(metadata, Metadata { pc: 0, in_kernel: false, kernel_stacktrace: vec![] });
        }
        other => panic!("{:?}", other),
    }
}

#[test]
fn write_line_with_wrong_arity_is_an_error() {
    assert_eq!(
        parse_trace_line(0, "write,4096,8,aabb"),
        Err(TraceError::WrongArity { line: 1, expected: 5 })
    );
}

#[test]
fn flush_without_address_is_skipped() {
    assert_eq!(parse_trace_line(0, "insn,clwb,,unused"), Ok(None));
    let out = parse_trace_file_text(&lines(&["insn,clwb,,unused"]));
    assert!(out.is_empty());
}

#[test]
fn unsupported_mnemonic_is_named() {
    assert_eq!(
        parse_trace_line(0, "insn,cpuid,100,x"),
        Err(TraceError::UnsupportedInstruction { line: 1, mnemonic: "cpuid".to_string() })
    );
}

#[test]
fn fence_mnemonics() {
    for m in ["mfence", "sfence", "wbinvd", "xchg"] {
        let line = format!("insn,{},,x", m);
        match parse_trace_line(3, &line) {
            Ok(Some(TraceEntry::Fence { id, mnemonic, .. })) => {
                assert_eq!(id, 3);
                assert_eq!(mnemonic, m);
            }
            other => panic!("{:?}", other),
        }
    }
}

#[test]
fn flush_with_address() {
    match parse_trace_line(1, "insn,clflush,640,x") {
        Ok(Some(TraceEntry::Flush { id, mnemonic, address, .. })) => {
            assert_eq!((id, address), (1, 640));
            assert_eq!(mnemonic, "clflush");
        }
        other => panic!("{:?}", other),
    }
}

#[test]
fn insn_with_bad_address_is_an_error() {
    assert_eq!(
        parse_trace_line(0, "insn,mfence,12x,y"),
        Err(TraceError::InvalidNumber { line: 1, column: 2 })
    );
    assert_eq!(
        parse_trace_line(0, "insn,clwb,5"),
        Err(TraceError::WrongArity { line: 1, expected: 4 })
    );
}

#[test]
fn read_line() {
    match parse_trace_line(4, "read,+16,2,0AfF") {
        Ok(Some(TraceEntry::Read { id, address, size, content })) => {
            assert_eq!((id, address, size), (4, 16, 2));
            assert_eq!(content, vec![0x0a, 0xff]);
        }
        other => panic!("{:?}", other),
    }
    assert_eq!(
        parse_trace_line(0, "read,1,2"),
        Err(TraceError::WrongArity { line: 1, expected: 4 })
    );
}

#[test]
fn hypercall_line() {
    match parse_trace_line(2, "hypercall,checkpoint,7") {
        Ok(Some(TraceEntry::Hypercall { id, action, value })) => {
            assert_eq!(id, 2);
            assert_eq!(action, "checkpoint");
            assert_eq!(value, "7");
        }
        other => panic!("{:?}", other),
    }
    assert_eq!(
        parse_trace_line(0, "hypercall,a"),
        Err(TraceError::WrongArity { line: 1, expected: 3 })
    );
}

#[test]
fn non_temporal_flag_ignores_case() {
    for (flag, v) in [("TRUE", true), ("True", true), ("false", false), ("FaLsE", false)] {
        let line = format!("write,1,1,00,{}", flag);
        match parse_trace_line(0, &line) {
            Ok(Some(TraceEntry::Write { non_temporal, .. })) => assert_eq!(non_temporal, v),
            other => panic!("{:?}", other),
        }
    }
    assert_eq!(
        parse_trace_line(0, "write,1,1,00,yes"),
        Err(TraceError::InvalidNtFlag { line: 1, flag: "yes".to_string() })
    );
}

#[test]
fn bad_hex_is_an_error() {
    assert_eq!(
        parse_trace_line(0, "write,1,1,abc,true"),
        Err(TraceError::InvalidHex { line: 1, column: 3 })
    );
    assert_eq!(
        parse_trace_line(0, "read,1,1,zz"),
        Err(TraceError::InvalidHex { line: 1, column: 3 })
    );
}

#[test]
fn numbers() {
    assert_eq!(
        parse_trace_line(0, "write,12a,1,00,true"),
        Err(TraceError::InvalidNumber { line: 1, column: 1 })
    );
    assert_eq!(
        parse_trace_line(0, "write,1,,00,true"),
        Err(TraceError::InvalidNumber { line: 1, column: 2 })
    );
    assert_eq!(
        parse_trace_line(0, "write,18446744073709551616,1,00,true"),
        Err(TraceError::InvalidNumber { line: 1, column: 1 })
    );
    assert_eq!(
        parse_trace_line(0, "write,+,1,00,true"),
        Err(TraceError::InvalidNumber { line: 1, column: 1 })
    );
    match parse_trace_line(0, "write,18446744073709551615,1,00,true") {
        Ok(Some(TraceEntry::Write { address, .. })) => assert_eq!(address, u64::MAX),
        other => panic!("{:?}", other),
    }
}

#[test]
fn unsupported_operation_is_named() {
    assert_eq!(
        parse_trace_line(6, "jump,1"),
        Err(TraceError::UnsupportedOperation { line: 7, op: "jump".to_string() })
    );
}

#[test]
fn empty_line_yields_nothing() {
    assert_eq!(parse_trace_line(0, ""), Ok(None));
}

#[test]
fn ids_follow_line_index() {
    let out = parse_trace_file_text(&lines(&["write,1,1,00,false", "insn,clwb,,x", "hypercall,a,b"]));
    assert_eq!(out.len(), 2);
    match &out[0] {
        Ok(TraceEntry::Write { id, .. }) => assert_eq!(*id, 0),
        other => panic!("{:?}", other),
    }
    match &out[1] {
        Ok(TraceEntry::Hypercall { id, .. }) => assert_eq!(*id, 2),
        other => panic!("{:?}", other),
    }
}

#[test]
fn first_error_ends_the_results() {
    let out = parse_trace_file_text(&lines(&[
        "write,1,1,00,false",
        "bogus",
        "hypercall,a,b",
        "alsobogus",
    ]));
    assert_eq!(out.len(), 2);
    assert!(out[0].is_ok());
    assert_eq!(out[1], Err(TraceError::UnsupportedOperation { line: 2, op: "bogus".to_string() }));
}

#[test]
fn lift_option_cases() {
    assert_eq!(lift_option::<u8>(Ok(None)), None);
    assert_eq!(lift_option::<u8>(Ok(Some(3))), Some(Ok(3)));
    assert_eq!(
        lift_option::<u8>(Err(TraceError::Overflow { offset: 1 })),
        Some(Err(TraceError::Overflow { offset: 1 }))
    );
}

#[test]
fn wire_entry_converts_field_for_field() {
    let e = TraceEntryMPK::Flush {
        id: 9,
        mnemonic: "clwb".to_string(),
        address: 0x40,
        metadata: Metadata { pc: 1, in_kernel: true, kernel_stacktrace: vec![2, 3] },
    };
    assert_eq!(
        get_trace_entry(e),
        TraceEntry::Flush {
            id: 9,
            mnemonic: "clwb".to_string(),
            address: 0x40,
            metadata: Metadata { pc: 1, in_kernel: true, kernel_stacktrace: vec![2, 3] },
        }
    );
}
