use std::io::Write;
use vinter_trace::{
    decode_entry, encode_entry, parse_trace_file_bin_panda, Metadata, TraceEntry, TraceError,
};

fn cfg() -> bincode::config::Configuration {
    bincode::config::standard()
}

fn sample_entries() -> Vec<TraceEntry> {
    vec![
        TraceEntry::Write {
            id: 0,
            address: 4096,
            size: 2,
            content: vec![0xaa, 0xbb],
            non_temporal: true,
            metadata: Metadata { pc: 0x4000_1234, in_kernel: true, kernel_stacktrace: vec![1, 300, 70000, 1 << 40] },
        },
        TraceEntry::Fence { id: 250, mnemonic: "sfence".to_string(), metadata: Metadata::default() },
        TraceEntry::Flush {
            id: 251,
            mnemonic: "clwb".to_string(),
            address: u64::MAX,
            metadata: Metadata::default(),
        },
        TraceEntry::Read { id: 65535, address: 65536, size: 0, content: vec![] },
        TraceEntry::Hypercall { id: 1 << 33, action: "checkpoint".to_string(), value: "näive ✓".to_string() },
    ]
}

#[test]
fn every_entry_decodes_back_to_itself() {
    for e in sample_entries() {
        let mut bytes = encode_entry(&e);
        let len = bytes.len();
        bytes.extend_from_slice(&[9, 9, 9]);
        assert_eq!(decode_entry(&bytes, 0), Some((e, len)));
    }
}

#[test]
fn write_layout_matches_bincode() {
    let e = TraceEntry::Write {
        id: 300,
        address: 4096,
        size: 8,
        content: vec![1, 2, 3, 4, 5, 6, 7, 8],
        non_temporal: false,
        metadata: Metadata { pc: 70000, in_kernel: true, kernel_stacktrace: vec![5, 1 << 40] },
    };
    let expected = bincode::encode_to_vec(
        (
            0u32,
            300u64,
            4096u64,
            8u64,
            vec![1u8, 2, 3, 4, 5, 6, 7, 8],
            false,
            (70000u64, true, vec![5u64, 1 << 40]),
        ),
        cfg(),
    )
    .unwrap();
    assert_eq!(encode_entry(&e), expected);
}

#[test]
fn string_variants_match_bincode() {
    let fence = TraceEntry::Fence { id: 7, mnemonic: "mfence".to_string(), metadata: Metadata::default() };
    let expected = bincode::encode_to_vec(
        (1u32, 7u64, "mfence".to_string(), (0u64, false, Vec::<u64>::new())),
        cfg(),
    )
    .unwrap();
    assert_eq!(encode_entry(&fence), expected);

    let hc = TraceEntry::Hypercall { id: 2, action: "checkpoint".to_string(), value: "é".to_string() };
    let expected =
        bincode::encode_to_vec((4u32, 2u64, "checkpoint".to_string(), "é".to_string()), cfg()).unwrap();
    assert_eq!(encode_entry(&hc), expected);

    let read = TraceEntry::Read { id: 1, address: 1 << 35, size: 1, content: vec![0xff] };
    let expected = bincode::encode_to_vec((3u32, 1u64, 1u64 << 35, 1u64, vec![0xffu8]), cfg()).unwrap();
    assert_eq!(encode_entry(&read), expected);
}

#[test]
fn integer_widths() {
    for x in [0u64, 250, 251, 65535, 65536, 0xffff_ffff, 0x1_0000_0000, u64::MAX] {
        let e = TraceEntry::Read { id: x, address: 0, size: 0, content: vec![] };
        let bytes = encode_entry(&e);
        let expected = bincode::encode_to_vec((3u32, x, 0u64, 0u64, Vec::<u8>::new()), cfg()).unwrap();
        assert_eq!(bytes, expected);
    }
    let e = TraceEntry::Read { id: 251, address: 0, size: 0, content: vec![] };
    assert_eq!(encode_entry(&e), vec![3, 251, 251, 0, 0, 0, 0]);
}

#[test]
fn stream_yields_entries_until_bytes_end() {
    let entries = sample_entries();
    let mut data = Vec::new();
    for e in &entries {
        data.extend_from_slice(&encode_entry(e));
    }
    let mut it = parse_trace_file_bin_panda(data);
    let mut out = Vec::new();
    while let Some(x) = it.next() {
        out.push(x.unwrap());
    }
    assert_eq!(out, entries);
    assert_eq!(it.next(), None);
}

#[test]
fn empty_stream_yields_nothing() {
    let mut it = parse_trace_file_bin_panda(vec![]);
    assert_eq!(it.next(), None);
}

#[test]
fn cut_entry_is_an_error_then_nothing() {
    let first = encode_entry(&sample_entries()[1]);
    let mut data = first.clone();
    let second = encode_entry(&sample_entries()[0]);
    data.extend_from_slice(&second[..second.len() - 1]);
    let mut it = parse_trace_file_bin_panda(data);
    assert!(matches!(it.next(), Some(Ok(TraceEntry::Fence { .. }))));
    assert_eq!(it.next(), Some(Err(TraceError::MalformedRecord { offset: first.len() })));
    assert_eq!(it.next(), None);
}

#[test]
fn bad_variant_bool_or_utf8_is_an_error() {
    assert_eq!(decode_entry(&[5, 0], 0), None);
    // a write whose non-temporal byte is 2
    assert_eq!(decode_entry(&[0, 0, 0, 0, 0, 2, 0, 0, 0], 0), None);
    // a fence whose mnemonic is not UTF-8
    assert_eq!(decode_entry(&[1, 0, 1, 0xff, 0, 0, 0], 0), None);
    let mut it = parse_trace_file_bin_panda(vec![9]);
    assert_eq!(it.next(), Some(Err(TraceError::MalformedRecord { offset: 0 })));
}

#[test]
fn variant_index_refuses_the_eight_byte_marker() {
    let mut bytes = vec![253u8];
    bytes.extend_from_slice(&[0u8; 8]);
    bytes.extend_from_slice(&[0u8; 8]);
    assert_eq!(decode_entry(&bytes, 0), None);
    assert!(matches!(decode_entry(&bytes[8..], 0), Some((TraceEntry::Write { .. }, 9))));
}

#[test]
fn framed_stream_is_decompressed_then_decoded() {
    let entries = sample_entries();
    let mut plain = Vec::new();
    for e in &entries {
        plain.extend_from_slice(&encode_entry(e));
    }
    let mut framed = Vec::new();
    {
        let mut w = snap::write::FrameEncoder::new(&mut framed);
        w.write_all(&plain).unwrap();
        w.flush().unwrap();
    }
    assert_ne!(framed, plain);
    let mut it = vinter_trace::parse_trace_file_bin_panda_framed(&framed).unwrap();
    let mut out = Vec::new();
    while let Some(x) = it.next() {
        out.push(x.unwrap());
    }
    assert_eq!(out, entries);
}

#[test]
fn corrupt_frame_is_an_error() {
    let r = vinter_trace::parse_trace_file_bin_panda_framed(&[0xff, 1, 2, 3, 4, 5, 6, 7]);
    assert_eq!(r.err(), Some(TraceError::MalformedRecord { offset: 0 }));
}
