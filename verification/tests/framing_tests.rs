use lcov_rs::errors::RECORD_LENGTH_MISMATCH;
use lcov_rs::data::decode_data;
use lcov_rs::notes::decode_notes;

fn push_u32(out: &mut Vec<u8>, v: u32) {
    out.extend_from_slice(&v.to_le_bytes());
}

fn push_u64(out: &mut Vec<u8>, v: u64) {
    out.extend_from_slice(&v.to_le_bytes());
}

fn push_padded(out: &mut Vec<u8>, s: &str) {
    let words = (s.len() + 4) / 4;
    push_u32(out, words as u32);
    out.extend_from_slice(s.as_bytes());
    for _ in 0..(4 * words - s.len()) {
        out.push(0);
    }
}

fn notes_with_function(bytes: &mut Vec<u8>) {
    push_u32(bytes, 0x67636e6f);
    bytes.extend_from_slice(b"A93*");
    push_u32(bytes, 0);
    let mut payload = Vec::new();
    push_u32(&mut payload, 1);
    push_u32(&mut payload, 1);
    push_u32(&mut payload, 2);
    push_padded(&mut payload, "f");
    push_padded(&mut payload, "a.c");
    push_u32(&mut payload, 1);
    push_u32(bytes, 0x01000000);
    push_u32(bytes, (payload.len() / 4) as u32);
    bytes.extend_from_slice(&payload);
}

#[test]
fn arcs_record_with_broken_pairing_is_rejected() {
    // the payload after the source block is not a whole number of
    // destination-and-flags pairs
    let mut bytes = Vec::new();
    notes_with_function(&mut bytes);
    push_u32(&mut bytes, 0x01430000);
    push_u32(&mut bytes, 2);
    push_u32(&mut bytes, 0);  // source block
    push_u32(&mut bytes, 1);  // half of a pair
    let e = decode_notes(&bytes).unwrap_err();
    assert_eq!(e.code, RECORD_LENGTH_MISMATCH);
}

#[test]
fn function_record_with_oversized_declared_length_is_rejected() {
    // the record declares one more payload word than its decoder consumes
    let mut bytes = Vec::new();
    push_u32(&mut bytes, 0x67636e6f);
    bytes.extend_from_slice(b"A93*");
    push_u32(&mut bytes, 0);
    let mut payload = Vec::new();
    push_u32(&mut payload, 1);
    push_u32(&mut payload, 1);
    push_u32(&mut payload, 2);
    push_padded(&mut payload, "f");
    push_padded(&mut payload, "a.c");
    push_u32(&mut payload, 1);
    push_u32(&mut payload, 0xffffffff);  // trailing junk the decoder never reads
    push_u32(&mut bytes, 0x01000000);
    push_u32(&mut bytes, (payload.len() / 4) as u32);
    bytes.extend_from_slice(&payload);
    let e = decode_notes(&bytes).unwrap_err();
    assert_eq!(e.code, RECORD_LENGTH_MISMATCH);
}

#[test]
fn lines_record_with_bytes_after_terminator_is_rejected() {
    let mut bytes = Vec::new();
    notes_with_function(&mut bytes);
    let mut payload = Vec::new();
    push_u32(&mut payload, 0);  // block
    push_u32(&mut payload, 0);  // filename switch
    push_padded(&mut payload, "a.c");
    push_u32(&mut payload, 9);  // a line number
    push_u32(&mut payload, 0);  // terminator
    push_u32(&mut payload, 0);
    push_u32(&mut payload, 7);  // a word past the end of the record
    push_u32(&mut bytes, 0x01450000);
    push_u32(&mut bytes, (payload.len() / 4) as u32);
    bytes.extend_from_slice(&payload);
    let e = decode_notes(&bytes).unwrap_err();
    assert_eq!(e.code, RECORD_LENGTH_MISMATCH);
}

#[test]
fn counts_record_with_half_a_count_is_rejected() {
    let mut bytes = Vec::new();
    push_u32(&mut bytes, 0x67636461);
    bytes.extend_from_slice(b"A93*");
    push_u32(&mut bytes, 0);
    push_u32(&mut bytes, 0x01000000);
    push_u32(&mut bytes, 3);
    push_u32(&mut bytes, 1);
    push_u32(&mut bytes, 1);
    push_u32(&mut bytes, 2);
    push_u32(&mut bytes, 0x01a10000);
    push_u32(&mut bytes, 3);  // twelve bytes is not a whole number of counts
    push_u64(&mut bytes, 5);
    push_u32(&mut bytes, 9);
    let e = decode_data(&bytes).unwrap_err();
    assert_eq!(e.code, RECORD_LENGTH_MISMATCH);
}

#[test]
fn blocks_accumulate_across_records() {
    let mut bytes = Vec::new();
    notes_with_function(&mut bytes);
    for _ in 0..2 {
        push_u32(&mut bytes, 0x01410000);
        push_u32(&mut bytes, 2);
        push_u32(&mut bytes, 0);
        push_u32(&mut bytes, 0);
    }
    push_u32(&mut bytes, 0);
    push_u32(&mut bytes, 0);
    let model = decode_notes(&bytes).unwrap();
    assert_eq!(model.functions[0].blocks.len(), 4);
}

#[test]
fn arcs_accumulate_across_records_in_declaration_order() {
    let mut bytes = Vec::new();
    notes_with_function(&mut bytes);
    push_u32(&mut bytes, 0x01410000);
    push_u32(&mut bytes, 3);
    for _ in 0..3 {
        push_u32(&mut bytes, 0);
    }
    push_u32(&mut bytes, 0x01430000);
    push_u32(&mut bytes, 3);
    push_u32(&mut bytes, 0);
    push_u32(&mut bytes, 1);
    push_u32(&mut bytes, 0);
    push_u32(&mut bytes, 0x01430000);
    push_u32(&mut bytes, 3);
    push_u32(&mut bytes, 1);
    push_u32(&mut bytes, 2);
    push_u32(&mut bytes, 1);
    push_u32(&mut bytes, 0);
    push_u32(&mut bytes, 0);
    let model = decode_notes(&bytes).unwrap();
    let arcs = &model.functions[0].arcs;
    assert_eq!(arcs.len(), 2);
    assert_eq!((arcs[0].source_block, arcs[0].destination_block), (0, 1));
    assert!(!arcs[0].is_on_tree());
    assert_eq!((arcs[1].source_block, arcs[1].destination_block), (1, 2));
    assert!(arcs[1].is_on_tree());
}
