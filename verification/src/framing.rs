//! The tagged-record framer shared by the notes and data decoders.
//!
//! Both files are a sequence of records after a twelve-byte header. A record
//! starts with an eight-byte record header: a four-byte tag and a four-byte
//! payload length counted in 32-bit words. The framer exposes the tag and the
//! payload length in bytes, and refuses a record that runs past the buffer.

use vstd::prelude::*;
use crate::errors::{ParseError, RECORD_LENGTH_MISMATCH};
use crate::le::{le32, read_u32_at};

verus! {

/// What the framer yields at `offset`: the record's tag and its payload
/// length in bytes, or a corruption error when the record header or the
/// declared payload runs past the end of the buffer.
pub open spec fn spec_frame(b: Seq<u8>, offset: int) -> Result<(int, int), ParseError> {
    if offset + 8 > b.len() {
        Err(ParseError { code: RECORD_LENGTH_MISMATCH })
    } else {
        let tag = le32(b, offset);
        let len = 4 * le32(b, offset + 4);
        if offset + 8 + len > b.len() {
            Err(ParseError { code: RECORD_LENGTH_MISMATCH })
        } else {
            Ok((tag, len))
        }
    }
}

/// Reads one record header: the tag and the payload length in bytes. On
/// success the whole record, header and payload, lies within the buffer.
pub fn read_record_header(buffer: &[u8], offset: usize) -> (r: Result<(u32, usize), ParseError>)
    ensures
        r matches Ok((tag, len)) ==> spec_frame(buffer@, offset as int) == Ok::<
            (int, int),
            ParseError,
        >((tag as int, len as int)) && offset + 8 + len <= buffer@.len(),
        r matches Err(e) ==> spec_frame(buffer@, offset as int) == Err::<(int, int), ParseError>(e),
{
    if buffer.len() < 8 || offset > buffer.len() - 8 {
        return Err(ParseError::new(RECORD_LENGTH_MISMATCH));
    }
    let tag = read_u32_at(buffer, offset);
    let words = read_u32_at(buffer, offset + 4);
    proof {
        crate::le::lemma_le32_bounds(buffer@, offset + 4);
    }
    let len64: u64 = (words as u64) * 4;
    if len64 > (buffer.len() - offset - 8) as u64 {
        return Err(ParseError::new(RECORD_LENGTH_MISMATCH));
    }
    Ok((tag, len64 as usize))
}

/// The offset where the record stream ends when records are framed one after
/// another from `offset`, with no regard to tags; `None` when some record
/// runs past the buffer.
pub open spec fn spec_stream_end(b: Seq<u8>, offset: int) -> Option<int>
    decreases b.len() - offset,
{
    if offset >= b.len() {
        Some(offset)
    } else {
        match spec_frame(b, offset) {
            Err(_) => None,
            Ok((tag, len)) => spec_stream_end(b, offset + 8 + len),
        }
    }
}

/// Round-trip framing: whenever the framer accepts every record, the sum of
/// the consumed lengths (eight header bytes plus the declared payload of
/// each record) is exactly the length of the buffer minus the starting
/// offset — framing neither loses nor invents bytes.
pub proof fn lemma_framing_consumes_all(b: Seq<u8>, offset: int)
    requires
        0 <= offset <= b.len(),
        spec_stream_end(b, offset) is Some,
    ensures
        spec_stream_end(b, offset) == Some(b.len() as int),
    decreases b.len() - offset,
{
    if offset < b.len() {
        match spec_frame(b, offset) {
            Err(_) => {},
            Ok((_tag, len)) => {
                lemma_framing_consumes_all(b, offset + 8 + len);
            },
        }
    }
}

/// The four bytes that hold `v` little-endian.
pub open spec fn spec_le32_bytes(v: int) -> Seq<u8> {
    seq![
        (v % 256) as u8,
        ((v / 256) % 256) as u8,
        ((v / 65536) % 256) as u8,
        ((v / 16777216) % 256) as u8,
    ]
}

/// A synthetically constructed record: an eight-byte header holding the
/// tag and the payload length in 32-bit words, then the payload.
pub open spec fn spec_record_bytes(tag: int, payload: Seq<u8>) -> Seq<u8> {
    spec_le32_bytes(tag) + spec_le32_bytes(payload.len() as int / 4) + payload
}

/// A sequence of synthetically constructed records, one after another.
pub open spec fn spec_records_bytes(records: Seq<(int, Seq<u8>)>) -> Seq<u8>
    decreases records.len(),
{
    if records.len() == 0 {
        Seq::empty()
    } else {
        spec_record_bytes(records[0].0, records[0].1) + spec_records_bytes(records.drop_first())
    }
}

/// A record that the format can carry: a tag that fits four bytes and a
/// payload of whole 32-bit words whose word count fits four bytes.
pub open spec fn wf_record(r: (int, Seq<u8>)) -> bool {
    0 <= r.0 < 0x1_0000_0000 && r.1.len() % 4 == 0 && r.1.len() / 4 < 0x1_0000_0000
}

/// Reading four little-endian bytes gives back the value they were made
/// from.
proof fn lemma_le32_bytes_value(v: int, b: Seq<u8>, o: int)
    requires
        0 <= v < 0x1_0000_0000,
        0 <= o,
        o + 4 <= b.len(),
        b[o] == spec_le32_bytes(v)[0],
        b[o + 1] == spec_le32_bytes(v)[1],
        b[o + 2] == spec_le32_bytes(v)[2],
        b[o + 3] == spec_le32_bytes(v)[3],
    ensures
        le32(b, o) == v,
{
    vstd::arithmetic::div_mod::lemma_fundamental_div_mod(v, 256);
    vstd::arithmetic::div_mod::lemma_fundamental_div_mod(v / 256, 256);
    vstd::arithmetic::div_mod::lemma_fundamental_div_mod(v / 65536, 256);
    vstd::arithmetic::div_mod::lemma_div_denominator(v, 256, 256);
    vstd::arithmetic::div_mod::lemma_div_denominator(v, 65536, 256);
    vstd::arithmetic::div_mod::lemma_mod_bound(v, 256);
    vstd::arithmetic::div_mod::lemma_mod_bound(v / 256, 256);
    vstd::arithmetic::div_mod::lemma_mod_bound(v / 65536, 256);
    assert(v / 16777216 < 256) by {
        assert(16777216 * 256 == 0x1_0000_0000);
        if v / 16777216 >= 256 {
            vstd::arithmetic::div_mod::lemma_fundamental_div_mod(v, 16777216);
            vstd::arithmetic::div_mod::lemma_mod_bound(v, 16777216);
            assert(v == 16777216 * (v / 16777216) + v % 16777216);
            assert(16777216 * (v / 16777216) >= 16777216 * 256) by (nonlinear_arith)
                requires
                    v / 16777216 >= 256,
            ;
        }
    }
    assert(v / 16777216 >= 0) by {
        vstd::arithmetic::div_mod::lemma_fundamental_div_mod(v, 16777216);
        vstd::arithmetic::div_mod::lemma_mod_bound(v, 16777216);
        assert(v == 16777216 * (v / 16777216) + v % 16777216);
        if v / 16777216 < 0 {
            assert(16777216 * (v / 16777216) <= -16777216) by (nonlinear_arith)
                requires
                    v / 16777216 < 0,
            ;
        }
    }
    assert((v / 65536) / 256 == v / 16777216) by {
        assert(65536 * 256 == 16777216);
    }
    assert((v / 256) / 256 == v / 65536) by {
        assert(256 * 256 == 65536);
    }
    assert(v == (v % 256) + 256 * ((v / 256) % 256) + 65536 * ((v / 65536) % 256) + 16777216 * (v
        / 16777216)) by {
        assert(v == 256 * (v / 256) + v % 256);
        assert(v / 256 == 256 * ((v / 256) / 256) + (v / 256) % 256);
        assert(v / 65536 == 256 * ((v / 65536) / 256) + (v / 65536) % 256);
    }
    assert(b[o] == v % 256 && b[o + 1] == (v / 256) % 256 && b[o + 2] == (v / 65536) % 256 && b[o
        + 3] == v / 16777216);
}

/// Round-trip framing for synthetically constructed records: the framer
/// accepts every record, reads back each record's declared length, and
/// ends exactly at the end of the buffer — so the consumed lengths sum to
/// the buffer length minus the prefix (the file header) that the records
/// follow.
pub proof fn lemma_framing_round_trip(prefix: Seq<u8>, records: Seq<(int, Seq<u8>)>)
    requires
        forall|i: int| 0 <= i < records.len() ==> wf_record(#[trigger] records[i]),
    ensures
        spec_stream_end(prefix + spec_records_bytes(records), prefix.len() as int) == Some(
            (prefix + spec_records_bytes(records)).len() as int,
        ),
    decreases records.len(),
{
    let b = prefix + spec_records_bytes(records);
    let off = prefix.len() as int;
    if records.len() == 0 {
        assert(b =~= prefix);
    } else {
        let tag = records[0].0;
        let payload = records[0].1;
        let rest = records.drop_first();
        let enc0 = spec_record_bytes(tag, payload);
        assert(wf_record(records[0]));
        assert(b =~= (prefix + enc0) + spec_records_bytes(rest));
        assert forall|k: int| 0 <= k < enc0.len() implies b[off + k] == enc0[k] by {
            assert(spec_records_bytes(records) == enc0 + spec_records_bytes(rest));
        }
        lemma_le32_bytes_value(tag, b, off);
        lemma_le32_bytes_value(payload.len() as int / 4, b, off + 4);
        vstd::arithmetic::div_mod::lemma_fundamental_div_mod(payload.len() as int, 4);
        assert(4 * (payload.len() as int / 4) == payload.len());
        assert(spec_frame(b, off) == Ok::<(int, int), ParseError>((tag, payload.len() as int)));
        lemma_framing_round_trip(prefix + enc0, rest);
        assert(spec_stream_end(b, off + 8 + payload.len()) == Some(b.len() as int)) by {
            assert((prefix + enc0).len() == off + 8 + payload.len());
            assert((prefix + enc0) + spec_records_bytes(rest) =~= b);
        }
    }
}

} // verus!
