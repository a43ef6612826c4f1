use lcov_rs::errors::{
    MAGIC_MISMATCH, MALFORMED_STRING, MISSING_FUNCTION_CONTEXT, RECORD_LENGTH_MISMATCH,
};
use lcov_rs::data::decode_data;
use lcov_rs::notes::decode_notes;
use lcov_rs::text::read_utf8;
use lcov_rs::ParseError;

fn push_u32(out: &mut Vec<u8>, v: u32) {
    out.extend_from_slice(&v.to_le_bytes());
}

fn push_u64(out: &mut Vec<u8>, v: u64) {
    out.extend_from_slice(&v.to_le_bytes());
}

fn push_str(out: &mut Vec<u8>, s: &str) {
    let words = (s.len() + 4) / 4;
    push_u32(out, words as u32);
    out.extend_from_slice(s.as_bytes());
    for _ in 0..(4 * words - s.len()) {
        out.push(0);
    }
}

fn notes_header(out: &mut Vec<u8>) {
    push_u32(out, 0x67636e6f);
    out.extend_from_slice(b"A93*");
    push_u32(out, 0xdeadbeef);
}

fn data_header(out: &mut Vec<u8>) {
    push_u32(out, 0x67636461);
    out.extend_from_slice(b"A93*");
    push_u32(out, 0xdeadbeef);
}

fn function_record(out: &mut Vec<u8>, identifier: u32, name: &str, path: &str, line: u32) {
    let mut payload = Vec::new();
    push_u32(&mut payload, identifier);
    push_u32(&mut payload, 0x11111111);
    push_u32(&mut payload, 0x22222222);
    push_str(&mut payload, name);
    push_str(&mut payload, path);
    push_u32(&mut payload, line);
    push_u32(out, 0x01000000);
    push_u32(out, (payload.len() / 4) as u32);
    out.extend_from_slice(&payload);
}

fn blocks_record(out: &mut Vec<u8>, n: u32) {
    push_u32(out, 0x01410000);
    push_u32(out, n);
    for _ in 0..n {
        push_u32(out, 0);
    }
}

fn arcs_record(out: &mut Vec<u8>, source: u32, arcs: &[(u32, u32)]) {
    push_u32(out, 0x01430000);
    push_u32(out, (1 + 2 * arcs.len()) as u32);
    push_u32(out, source);
    for &(dest, flags) in arcs {
        push_u32(out, dest);
        push_u32(out, flags);
    }
}

fn lines_record(out: &mut Vec<u8>, block: u32, path: &str, lines: &[u32]) {
    let mut payload = Vec::new();
    push_u32(&mut payload, block);
    push_u32(&mut payload, 0);
    push_str(&mut payload, path);
    for &l in lines {
        push_u32(&mut payload, l);
    }
    push_u32(&mut payload, 0);
    push_u32(&mut payload, 0);
    push_u32(out, 0x01450000);
    push_u32(out, (payload.len() / 4) as u32);
    out.extend_from_slice(&payload);
}

#[test]
fn string_decode_strips_nul_padding() {
    let field = [b'a', b'b', 0, 0, 0, 0, 0, 0];
    assert_eq!(read_utf8(&field).unwrap(), "ab");
}

#[test]
fn string_decode_empty_field() {
    let field: [u8; 0] = [];
    assert_eq!(read_utf8(&field).unwrap(), "");
}

#[test]
fn string_decode_all_nul_field() {
    let field = [0u8, 0, 0, 0];
    assert_eq!(read_utf8(&field).unwrap(), "");
}

#[test]
fn string_decode_rejects_invalid_utf8() {
    let field = [0xffu8, 0xfe, 0, 0];
    assert_eq!(read_utf8(&field).unwrap_err(), ParseError::new(MALFORMED_STRING));
}

#[test]
fn notes_decode_one_function() {
    let mut bytes = Vec::new();
    notes_header(&mut bytes);
    function_record(&mut bytes, 7, "main", "src/app.c", 3);
    blocks_record(&mut bytes, 3);
    arcs_record(&mut bytes, 0, &[(1, 0), (2, 1)]);
    lines_record(&mut bytes, 1, "src/app.c", &[4, 5]);
    push_u32(&mut bytes, 0);
    push_u32(&mut bytes, 0);
    let model = decode_notes(&bytes).unwrap();
    assert_eq!(model.version, "A93*");
    assert_eq!(model.functions.len(), 1);
    let f = &model.functions[0];
    assert_eq!(f.identifier, 7);
    assert_eq!(f.name, "main");
    assert_eq!(f.src_path, "src/app.c");
    assert_eq!(f.line_number, 3);
    assert_eq!(f.blocks.len(), 3);
    assert_eq!(f.arcs.len(), 2);
    assert_eq!(f.arcs[0].source_block, 0);
    assert_eq!(f.arcs[0].destination_block, 1);
    assert!(!f.arcs[0].is_on_tree());
    assert_eq!(f.arcs[1].destination_block, 2);
    assert!(f.arcs[1].is_on_tree());
    assert_eq!(f.lines.len(), 2);
    assert_eq!(f.lines[0].block, 1);
    assert_eq!(f.lines[0].line_number, 4);
    assert_eq!(f.lines[0].src_path, "src/app.c");
    assert_eq!(f.lines[1].line_number, 5);
    assert_eq!(model.source_paths, vec!["src/app.c".to_string()]);
}

#[test]
fn notes_decode_skips_unknown_records_and_stops_at_sentinel() {
    let mut bytes = Vec::new();
    notes_header(&mut bytes);
    function_record(&mut bytes, 1, "f", "a.c", 1);
    // an unrecognized tag with two payload words is skipped whole
    push_u32(&mut bytes, 0x0badf00d);
    push_u32(&mut bytes, 2);
    push_u32(&mut bytes, 0x12345678);
    push_u32(&mut bytes, 0x9abcdef0);
    // the zero tag ends the stream even with trailing bytes
    push_u32(&mut bytes, 0);
    push_u32(&mut bytes, 0);
    bytes.extend_from_slice(&[1, 2, 3]);
    let model = decode_notes(&bytes).unwrap();
    assert_eq!(model.functions.len(), 1);
}

#[test]
fn notes_decode_rejects_wrong_magic() {
    let mut bytes = Vec::new();
    data_header(&mut bytes);
    let e = decode_notes(&bytes).unwrap_err();
    assert_eq!(e.code, MAGIC_MISMATCH);
}

#[test]
fn notes_decode_rejects_short_header() {
    let bytes = [0x6fu8, 0x6e];
    let e = decode_notes(&bytes).unwrap_err();
    assert_eq!(e.code, MAGIC_MISMATCH);
}

#[test]
fn notes_decode_rejects_truncated_record() {
    let mut bytes = Vec::new();
    notes_header(&mut bytes);
    push_u32(&mut bytes, 0x01000000);
    push_u32(&mut bytes, 100);  // declares far more payload than remains
    push_u32(&mut bytes, 7);
    let e = decode_notes(&bytes).unwrap_err();
    assert_eq!(e.code, RECORD_LENGTH_MISMATCH);
}

#[test]
fn notes_decode_rejects_blocks_before_function() {
    let mut bytes = Vec::new();
    notes_header(&mut bytes);
    blocks_record(&mut bytes, 2);
    let e = decode_notes(&bytes).unwrap_err();
    assert_eq!(e.code, MISSING_FUNCTION_CONTEXT);
}

#[test]
fn notes_decode_rejects_line_number_before_filename_switch() {
    let mut bytes = Vec::new();
    notes_header(&mut bytes);
    function_record(&mut bytes, 1, "f", "a.c", 1);
    // a lines record whose first entry is a line number, with no filename
    let mut payload = Vec::new();
    push_u32(&mut payload, 0);  // block index
    push_u32(&mut payload, 9);  // line number with no current source path
    push_u32(&mut payload, 0);
    push_u32(&mut payload, 0);
    push_u32(&mut bytes, 0x01450000);
    push_u32(&mut bytes, (payload.len() / 4) as u32);
    bytes.extend_from_slice(&payload);
    let e = decode_notes(&bytes).unwrap_err();
    assert_eq!(e.code, MALFORMED_STRING);
}

#[test]
fn notes_decode_collects_sorted_distinct_paths() {
    let mut bytes = Vec::new();
    notes_header(&mut bytes);
    function_record(&mut bytes, 1, "f", "z.c", 1);
    blocks_record(&mut bytes, 1);
    lines_record(&mut bytes, 0, "a.h", &[10]);
    function_record(&mut bytes, 2, "g", "m.c", 5);
    blocks_record(&mut bytes, 1);
    lines_record(&mut bytes, 0, "m.c", &[6]);
    push_u32(&mut bytes, 0);
    push_u32(&mut bytes, 0);
    let model = decode_notes(&bytes).unwrap();
    assert_eq!(
        model.source_paths,
        vec!["a.h".to_string(), "m.c".to_string(), "z.c".to_string()]
    );
}

#[test]
fn data_decode_counts() {
    let mut bytes = Vec::new();
    data_header(&mut bytes);
    push_u32(&mut bytes, 0x01000000);
    push_u32(&mut bytes, 3);
    push_u32(&mut bytes, 7);  // identifier
    push_u32(&mut bytes, 0x11111111);
    push_u32(&mut bytes, 0x22222222);
    push_u32(&mut bytes, 0x01a10000);
    push_u32(&mut bytes, 4);
    push_u64(&mut bytes, 5);
    push_u64(&mut bytes, 0x1_0000_0001);
    push_u32(&mut bytes, 0);
    push_u32(&mut bytes, 0);
    let model = decode_data(&bytes).unwrap();
    assert_eq!(model.version, "A93*");
    assert_eq!(model.functions.len(), 1);
    assert_eq!(model.functions[0].identifier, 7);
    assert_eq!(model.functions[0].counts, vec![5, 0x1_0000_0001]);
}

#[test]
fn data_decode_rejects_wrong_magic() {
    let mut bytes = Vec::new();
    notes_header(&mut bytes);
    let e = decode_data(&bytes).unwrap_err();
    assert_eq!(e.code, MAGIC_MISMATCH);
}

#[test]
fn data_decode_rejects_counts_before_function() {
    let mut bytes = Vec::new();
    data_header(&mut bytes);
    push_u32(&mut bytes, 0x01a10000);
    push_u32(&mut bytes, 2);
    push_u64(&mut bytes, 1);
    let e = decode_data(&bytes).unwrap_err();
    assert_eq!(e.code, MISSING_FUNCTION_CONTEXT);
}

#[test]
fn parse_error_carries_its_code() {
    let e = ParseError::new(5);
    assert_eq!(e.code, 5);
}
