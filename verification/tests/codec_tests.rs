use mouse_capture::csv::{csv_header, decode_chunks, render_csv};
use mouse_capture::record::{decode_chunk, encode_record, record_width, Record};

fn sample_records() -> Vec<Record> {
    vec![
        Record { button: 1, dx: 5, dy: -3 },
        Record { button: 0, dx: -128, dy: 127 },
        Record { button: 255, dx: 0, dy: 0 },
        Record { button: 4, dx: -1, dy: 1 },
    ]
}

fn encode_all(records: &[Record], four_byte: bool) -> Vec<u8> {
    let mut bytes = Vec::new();
    for r in records {
        bytes.extend_from_slice(&encode_record(r, four_byte));
    }
    bytes
}

#[test]
fn record_width_by_mode() {
    assert_eq!(record_width(false), 3);
    assert_eq!(record_width(true), 4);
}

#[test]
fn encode_three_byte_frame() {
    let r = Record { button: 9, dx: -2, dy: 3 };
    assert_eq!(encode_record(&r, false), vec![9, 0xfe, 3]);
}

#[test]
fn encode_four_byte_frame_pads_with_zero() {
    let r = Record { button: 9, dx: -2, dy: 3 };
    assert_eq!(encode_record(&r, true), vec![9, 0xfe, 3, 0]);
}

#[test]
fn decode_reads_signed_deltas() {
    let bytes = vec![7u8, 0xff, 0x80];
    let records = decode_chunk(&bytes, false);
    assert_eq!(records.len(), 1);
    assert_eq!(records[0].button, 7);
    assert_eq!(records[0].dx, -1);
    assert_eq!(records[0].dy, -128);
}

#[test]
fn round_trip_three_byte() {
    let records = sample_records();
    let bytes = encode_all(&records, false);
    let decoded = decode_chunk(&bytes, false);
    assert_eq!(decoded, records);
}

#[test]
fn round_trip_four_byte() {
    let records = sample_records();
    let bytes = encode_all(&records, true);
    let decoded = decode_chunk(&bytes, true);
    assert_eq!(decoded, records);
}

#[test]
fn partial_trailing_record_is_end_of_data() {
    let records = sample_records();
    let mut bytes = encode_all(&records, false);
    let whole = decode_chunk(&bytes, false);
    // two bytes of a fifth record: record_width - 1 past the last boundary
    bytes.push(42);
    bytes.push(43);
    let truncated = decode_chunk(&bytes, false);
    assert_eq!(truncated, whole);
}

#[test]
fn partial_trailing_record_four_byte() {
    let records = sample_records();
    let mut bytes = encode_all(&records, true);
    let whole = decode_chunk(&bytes, true);
    bytes.push(1);
    bytes.push(2);
    bytes.push(3);
    let truncated = decode_chunk(&bytes, true);
    assert_eq!(truncated, whole);
}

#[test]
fn empty_chunk_decodes_to_nothing() {
    let bytes: Vec<u8> = Vec::new();
    assert_eq!(decode_chunk(&bytes, false).len(), 0);
    let short = vec![1u8, 2u8];
    assert_eq!(decode_chunk(&short, false).len(), 0);
}

#[test]
fn decode_chunks_keeps_chunk_order() {
    let a = vec![1u8, 0, 0, 2, 0, 0];
    let b = vec![3u8, 0, 0];
    let records = decode_chunks(&vec![a, b], false);
    let buttons: Vec<u8> = records.iter().map(|r| r.button).collect();
    assert_eq!(buttons, vec![1, 2, 3]);
}

#[test]
fn csv_header_is_fixed() {
    assert_eq!(csv_header(), b"button,dx,dy\n".to_vec());
}

#[test]
fn csv_output_exact() {
    let records = vec![
        Record { button: 1, dx: 5, dy: -3 },
        Record { button: 255, dx: -128, dy: 127 },
        Record { button: 0, dx: 0, dy: 0 },
    ];
    let out = render_csv(&records);
    assert_eq!(out, b"button,dx,dy\n1,5,-3\n255,-128,127\n0,0,0\n".to_vec());
}

#[test]
fn dump_is_idempotent() {
    let records = sample_records();
    let first = render_csv(&records);
    let second = render_csv(&records);
    assert_eq!(first, second);
}
