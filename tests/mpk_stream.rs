use vinter_trace::{parse_trace_file_bin_mpk, BinTraceIterator, TraceEntry, TraceError};

fn header(amount: u64) -> Vec<u8> {
    let mut h = vec![0u8; 64];
    h[8..16].copy_from_slice(&amount.to_le_bytes());
    h
}

fn record(
    entry_type: u32,
    mnemonic: u32,
    id: u32,
    size: u64,
    value: u64,
    address: u64,
    flags: u64,
) -> Vec<u8> {
    let mut r = Vec::new();
    r.extend_from_slice(&entry_type.to_le_bytes());
    r.extend_from_slice(&mnemonic.to_le_bytes());
    r.extend_from_slice(&id.to_le_bytes());
    r.extend_from_slice(&0u32.to_le_bytes());
    r.extend_from_slice(&(size << 1).to_le_bytes());
    r.extend_from_slice(&value.to_le_bytes());
    r.extend_from_slice(&address.to_le_bytes());
    r.extend_from_slice(&flags.to_le_bytes());
    r
}

fn stream(amount: u64, records: &[Vec<u8>]) -> BinTraceIterator {
    let mut data = header(amount);
    for r in records {
        data.extend_from_slice(r);
    }
    parse_trace_file_bin_mpk(data).unwrap()
}

fn drain(it: &mut BinTraceIterator) -> Vec<Result<TraceEntry, TraceError>> {
    let mut out = Vec::new();
    while let Some(x) = it.next() {
        out.push(x);
        assert!(out.len() < 1000);
    }
    out
}

fn write_of(e: &Result<TraceEntry, TraceError>) -> (u64, u64, u64, Vec<u8>, bool) {
    match e {
        Ok(TraceEntry::Write { id, address, size, content, non_temporal, .. }) => {
            (*id, *address, *size, content.clone(), *non_temporal)
        }
        other => panic!("not a write: {:?}", other),
    }
}

#[test]
fn plain_write_takes_low_bytes_of_value() {
    let mut it = stream(1, &[record(0, 0, 0, 4, 0x1122_3344_5566_7788, 0x1000, 0)]);
    let out = drain(&mut it);
    assert_eq!(out.len(), 1);
    assert_eq!(write_of(&out[0]), (0, 0x1000, 4, vec![0x88, 0x77, 0x66, 0x55], false));
    match &out[0] {
        Ok(TraceEntry::Write { metadata, .. }) => {
            assert_eq!(metadata.pc, 0);
            assert!(!metadata.in_kernel);
            assert!(metadata.kernel_stacktrace.is_empty());
        }
        _ => unreachable!(),
    }
}

#[test]
fn repeat_record_expands_into_run() {
    // element size code 1 (two bytes), three elements
    let mut it = stream(3, &[record(0, 0, 0, 3, 0xAABB, 0x2000, 4 | 1)]);
    let out = drain(&mut it);
    assert_eq!(out.len(), 3);
    for (i, e) in out.iter().enumerate() {
        let i = i as u64;
        assert_eq!(write_of(e), (i, 0x2000 + 2 * i, 2, vec![0xBB, 0xAA], true));
    }
}

#[test]
fn repeat_element_sizes() {
    for (code, elem) in [(0u64, 1u64), (1, 2), (2, 4), (3, 8)] {
        let mut it = stream(2, &[record(0, 0, 0, 2, 0x0102_0304_0506_0708, 0x10, 4 | code)]);
        let out = drain(&mut it);
        assert_eq!(out.len(), 2);
        let (_, a1, size, content, nt) = write_of(&out[1]);
        assert_eq!(a1, 0x10 + elem);
        assert_eq!(size, elem);
        assert_eq!(content.len() as u64, elem);
        assert_eq!(content[0], 0x08);
        assert!(nt);
    }
}

#[test]
fn ids_stay_contiguous_across_runs() {
    let mut it = stream(
        7,
        &[
            record(0, 0, 0, 1, 1, 0x100, 0),
            record(0, 0, 1, 3, 2, 0x200, 4),
            record(1, 1, 2, 0, 0, 0, 0),
            record(0, 0, 3, 2, 3, 0x300, 4 | 3),
        ],
    );
    let out = drain(&mut it);
    assert_eq!(out.len(), 7);
    for (i, e) in out.iter().enumerate() {
        let id = match e {
            Ok(TraceEntry::Write { id, .. }) => *id,
            Ok(TraceEntry::Fence { id, .. }) => *id,
            other => panic!("unexpected {:?}", other),
        };
        assert_eq!(id, i as u64);
    }
}

#[test]
fn count_of_three_with_a_write_and_a_run_of_two_yields_three_entries() {
    let mut it = stream(
        3,
        &[record(0, 0, 0, 8, 0x0807060504030201, 0x100, 0), record(0, 0, 1, 2, 0xab, 0x200, 4)],
    );
    let out = drain(&mut it);
    assert_eq!(out.len(), 3);
    assert_eq!(write_of(&out[0]), (0, 0x100, 8, vec![1, 2, 3, 4, 5, 6, 7, 8], false));
    assert_eq!(write_of(&out[1]), (1, 0x200, 1, vec![0xab], true));
    assert_eq!(write_of(&out[2]), (2, 0x201, 1, vec![0xab], true));
    assert!(it.next().is_none());
}

#[test]
fn count_stops_inside_a_run() {
    let mut it = stream(2, &[record(0, 0, 0, 5, 0xab, 0x200, 4)]);
    let out = drain(&mut it);
    assert_eq!(out.len(), 2);
    assert!(out.iter().all(|e| e.is_ok()));
}

#[test]
fn records_standing_for_fewer_entries_than_the_count_is_an_error() {
    let mut it = stream(4, &[record(0, 0, 0, 1, 7, 0x40, 0), record(0, 0, 1, 2, 9, 0x80, 4)]);
    let out = drain(&mut it);
    assert_eq!(out.len(), 4);
    assert!(out[..3].iter().all(|e| e.is_ok()));
    assert_eq!(out[3], Err(TraceError::Truncated { offset: 64 + 2 * 48 }));
}

#[test]
fn stops_at_count_even_with_more_bytes() {
    let mut it = stream(1, &[record(0, 0, 0, 1, 7, 0x40, 0), record(0, 0, 1, 1, 9, 0x80, 0)]);
    let out = drain(&mut it);
    assert_eq!(out.len(), 1);
}

#[test]
fn truncated_stream_is_an_error() {
    let mut it = stream(2, &[record(0, 0, 0, 1, 7, 0x40, 0)]);
    let out = drain(&mut it);
    assert_eq!(out.len(), 2);
    assert!(out[0].is_ok());
    assert_eq!(out[1], Err(TraceError::Truncated { offset: 112 }));
    assert!(it.next().is_none());
}

#[test]
fn partial_record_is_an_error() {
    let mut data = header(1);
    data.extend_from_slice(&record(0, 0, 0, 1, 7, 0x40, 0)[..30]);
    let mut it = parse_trace_file_bin_mpk(data).unwrap();
    assert_eq!(it.next(), Some(Err(TraceError::Truncated { offset: 64 })));
    assert_eq!(it.next(), None);
}

#[test]
fn short_header_is_an_error() {
    assert_eq!(
        parse_trace_file_bin_mpk(vec![0u8; 10]).err(),
        Some(TraceError::Truncated { offset: 10 })
    );
}

#[test]
fn zero_count_yields_nothing() {
    let mut it = stream(0, &[record(0, 0, 0, 1, 7, 0x40, 0)]);
    assert!(it.next().is_none());
}

#[test]
fn unknown_variant_is_an_error() {
    let mut it = stream(1, &[record(7, 0, 0, 1, 0, 0, 0)]);
    assert_eq!(it.next(), Some(Err(TraceError::UnexpectedVariant { found: 7, offset: 64 })));
    assert_eq!(it.next(), None);
}

#[test]
fn empty_run_is_an_error() {
    let mut it = stream(1, &[record(0, 0, 0, 0, 0, 0, 4)]);
    assert_eq!(it.next(), Some(Err(TraceError::EmptyRepeat { offset: 64 })));
}

#[test]
fn oversized_write_is_an_error() {
    let mut it = stream(1, &[record(0, 0, 0, 9, 0, 0, 0)]);
    assert_eq!(it.next(), Some(Err(TraceError::OversizedValue { size: 9, offset: 64 })));
}

#[test]
fn run_past_the_address_space_is_an_error() {
    let mut it = stream(1, &[record(0, 0, 0, 3, 0, u64::MAX - 8, 4 | 3)]);
    assert_eq!(it.next(), Some(Err(TraceError::Overflow { offset: 64 })));
}

#[test]
fn fences_flushes_reads_and_hypercalls() {
    let mut it = stream(
        5,
        &[
            record(1, 1, 0, 0, 0, 0, 0),
            record(1, 5, 1, 0, 0, 0, 0),
            record(2, 1, 2, 0, 0, 0xdead, 0),
            record(3, 0, 3, 2, 0xABCD, 0x80, 0),
            record(4, 0, 4, 0, 12345, 0, 0),
        ],
    );
    let out = drain(&mut it);
    assert_eq!(out.len(), 5);
    match &out[0] {
        Ok(TraceEntry::Fence { id, mnemonic, .. }) => {
            assert_eq!(*id, 0);
            assert_eq!(mnemonic, "sfence");
        }
        other => panic!("{:?}", other),
    }
    match &out[1] {
        Ok(TraceEntry::Fence { mnemonic, .. }) => assert_eq!(mnemonic, "not implemented"),
        other => panic!("{:?}", other),
    }
    match &out[2] {
        Ok(TraceEntry::Flush { id, mnemonic, address, .. }) => {
            assert_eq!(*id, 2);
            assert_eq!(mnemonic, "clwb");
            assert_eq!(*address, 0xdead);
        }
        other => panic!("{:?}", other),
    }
    match &out[3] {
        Ok(TraceEntry::Read { id, address, size, content }) => {
            assert_eq!((*id, *address, *size), (3, 0x80, 2));
            assert_eq!(content, &vec![0xCD, 0xAB]);
        }
        other => panic!("{:?}", other),
    }
    match &out[4] {
        Ok(TraceEntry::Hypercall { id, action, value }) => {
            assert_eq!(*id, 4);
            assert_eq!(action, "checkpoint");
            assert_eq!(value, "12345");
        }
        other => panic!("{:?}", other),
    }
}

#[test]
fn reserved_location_bit_is_ignored() {
    let mut data = header(1);
    let mut r = record(0, 0, 0, 2, 0x0102, 0x10, 0);
    r[16] |= 1;
    data.extend_from_slice(&r);
    let mut it = parse_trace_file_bin_mpk(data).unwrap();
    let e = it.next().unwrap();
    assert_eq!(write_of(&e), (0, 0x10, 2, vec![0x02, 0x01], false));
}

#[test]
fn ids_stay_contiguous_from_a_later_first_id() {
    let mut it = stream(
        5,
        &[
            record(0, 0, 40, 1, 1, 0x100, 0),
            record(0, 0, 41, 3, 2, 0x200, 4),
            record(1, 1, 42, 0, 0, 0, 0),
        ],
    );
    let out = drain(&mut it);
    assert_eq!(out.len(), 5);
    for (i, e) in out.iter().enumerate() {
        let id = match e {
            Ok(TraceEntry::Write { id, .. }) => *id,
            Ok(TraceEntry::Fence { id, .. }) => *id,
            other => panic!("unexpected {:?}", other),
        };
        assert_eq!(id, 40 + i as u64);
    }
}
