//! Decoder for the data file: per-function raw execution counts.

use vstd::prelude::*;
use vstd::slice::slice_subrange;
use crate::errors::{
    ParseError, MAGIC_MISMATCH, MISSING_FUNCTION_CONTEXT, RECORD_LENGTH_MISMATCH,
};
use crate::framing::{read_record_header, spec_frame};
use crate::le::{le32, le64, lemma_le64_bounds, read_u32_at, read_u64_at};
use crate::model::{
    CountsRecord, CountsRecordView, DataFunction, DataFunctionView, DataModel, DataModelView,
    FunctionReference, Record,
};
use crate::text::{read_utf8, spec_read_utf8};
use crate::{GCDA_MAGIC, TAG_COUNTS, TAG_END_FILE, TAG_FUNCTION};

verus! {

/// What the data file's twelve-byte header decodes to: the version field,
/// after the magic number has been checked.
pub open spec fn spec_parse_data_header(b: Seq<u8>) -> Result<Seq<char>, ParseError> {
    if b.len() < 12 {
        Err(ParseError { code: MAGIC_MISMATCH })
    } else if le32(b, 0) != GCDA_MAGIC {
        Err(ParseError { code: MAGIC_MISMATCH })
    } else {
        spec_read_utf8(b.subrange(4, 8))
    }
}

/// Validates the data magic number and reads the version field; the stamp
/// word that completes the twelve-byte header is skipped.
pub fn parse_gcda_header(buffer: &[u8]) -> (r: Result<Record<String>, ParseError>)
    ensures
        r matches Ok(rec) ==> rec.length == 12 && spec_parse_data_header(buffer@) == Ok::<
            Seq<char>,
            ParseError,
        >(rec.record@),
        r matches Err(e) ==> spec_parse_data_header(buffer@) == Err::<Seq<char>, ParseError>(e),
{
    if buffer.len() < 12 {
        return Err(ParseError::new(MAGIC_MISMATCH));
    }
    let magic = read_u32_at(buffer, 0);
    if magic != GCDA_MAGIC {
        return Err(ParseError::new(MAGIC_MISMATCH));
    }
    let version_bytes = slice_subrange(buffer, 4, 8);
    match read_utf8(version_bytes) {
        Ok(s) => Ok(Record { length: 12, record: s.to_owned() }),
        Err(e) => Err(e),
    }
}

/// What a function reference record's payload decodes to: the identifier
/// and the two checksums that tie the data back to the notes file.
pub open spec fn spec_parse_function_ref(p: Seq<u8>) -> Result<(int, FunctionReference), ParseError> {
    if p.len() < 12 {
        Err(ParseError { code: RECORD_LENGTH_MISMATCH })
    } else {
        Ok(
            (
                12,
                FunctionReference {
                    identifier: le32(p, 0) as u32,
                    line_number_checksum: le32(p, 4) as u32,
                    config_checksum: le32(p, 8) as u32,
                },
            ),
        )
    }
}

/// Decodes a function reference record of the data file.
pub fn parse_function_reference(buffer: &[u8]) -> (r: Result<Record<FunctionReference>, ParseError>)
    ensures
        r matches Ok(rec) ==> spec_parse_function_ref(buffer@) == Ok::<
            (int, FunctionReference),
            ParseError,
        >((rec.length as int, rec.record)),
        r matches Err(e) ==> spec_parse_function_ref(buffer@) == Err::<
            (int, FunctionReference),
            ParseError,
        >(e),
{
    if buffer.len() < 12 {
        return Err(ParseError::new(RECORD_LENGTH_MISMATCH));
    }
    let identifier = read_u32_at(buffer, 0);
    let line_number_checksum = read_u32_at(buffer, 4);
    let config_checksum = read_u32_at(buffer, 8);
    Ok(
        Record {
            length: 12,
            record: FunctionReference { identifier, line_number_checksum, config_checksum },
        },
    )
}

/// What a counts record's payload decodes to: one unsigned 64-bit count per
/// eight payload bytes, in order.
pub open spec fn spec_parse_counts(p: Seq<u8>) -> Result<(int, Seq<u64>), ParseError> {
    if p.len() % 8 != 0 {
        Err(ParseError { code: RECORD_LENGTH_MISMATCH })
    } else {
        Ok((p.len() as int, Seq::new((p.len() / 8) as nat, |i: int| le64(p, 8 * i) as u64)))
    }
}

/// Decodes a counts record: the raw execution counts recorded for the
/// current function's instrumented arcs.
pub fn parse_counts_record(buffer: &[u8], function_id: u32) -> (r: Result<
    Record<CountsRecord>,
    ParseError,
>)
    ensures
        r matches Ok(rec) ==> spec_parse_counts(buffer@) == Ok::<(int, Seq<u64>), ParseError>(
            (rec.length as int, rec.record@.counts),
        ) && rec.record@.function_id == function_id,
        r matches Err(e) ==> spec_parse_counts(buffer@) == Err::<(int, Seq<u64>), ParseError>(e),
{
    if buffer.len() % 8 != 0 {
        return Err(ParseError::new(RECORD_LENGTH_MISMATCH));
    }
    let n = buffer.len() / 8;
    let mut counts: Vec<u64> = Vec::new();
    let mut i: usize = 0;
    while i < n
        invariant
            n == buffer@.len() / 8,
            buffer@.len() % 8 == 0,
            buffer@.len() <= usize::MAX,
            i <= n,
            counts@.len() == i,
            forall|j: int| 0 <= j < i ==> counts@[j] == le64(buffer@, 8 * j) as u64,
        decreases n - i,
    {
        proof {
            assert(8 * i + 8 <= 8 * (buffer@.len() / 8) <= buffer@.len());
            lemma_le64_bounds(buffer@, 8 * i as int);
        }
        let c = read_u64_at(buffer, 8 * i);
        counts.push(c);
        i = i + 1;
    }
    proof {
        assert(counts@ =~= spec_parse_counts(buffer@).unwrap().1);
    }
    Ok(Record { length: buffer.len(), record: CountsRecord { function_id, counts } })
}

/// The state change that one data record makes: a function reference opens
/// a new current function; a counts record appends to the current function
/// and is a fatal error without one; any other tag is skipped.
pub open spec fn spec_apply_data_record(
    tag: int,
    p: Seq<u8>,
    len: int,
    acc: Seq<DataFunctionView>,
) -> Result<Seq<DataFunctionView>, ParseError> {
    if tag == TAG_FUNCTION {
        match spec_parse_function_ref(p) {
            Err(e) => Err(e),
            Ok((consumed, fr)) => {
                if consumed != len {
                    Err(ParseError { code: RECORD_LENGTH_MISMATCH })
                } else {
                    Ok(
                        acc.push(
                            DataFunctionView {
                                identifier: fr.identifier,
                                line_number_checksum: fr.line_number_checksum,
                                config_checksum: fr.config_checksum,
                                counts: Seq::empty(),
                            },
                        ),
                    )
                }
            },
        }
    } else if tag == TAG_COUNTS {
        if acc.len() == 0 {
            Err(ParseError { code: MISSING_FUNCTION_CONTEXT })
        } else {
            match spec_parse_counts(p) {
                Err(e) => Err(e),
                Ok((_consumed, counts)) => Ok(
                    acc.update(
                        acc.len() - 1,
                        DataFunctionView { counts: acc.last().counts + counts, ..acc.last() },
                    ),
                ),
            }
        }
    } else {
        Ok(acc)
    }
}

/// The data record stream, one record at a time from `offset`, applying
/// each record to the decoder state until the stream or the buffer ends.
pub open spec fn spec_data_loop(
    b: Seq<u8>,
    offset: int,
    acc: Seq<DataFunctionView>,
) -> Result<Seq<DataFunctionView>, ParseError>
    decreases b.len() - offset,
{
    if offset >= b.len() {
        Ok(acc)
    } else {
        match spec_frame(b, offset) {
            Err(e) => Err(e),
            Ok((tag, len)) => {
                if tag == TAG_END_FILE {
                    Ok(acc)
                } else {
                    match spec_apply_data_record(
                        tag,
                        b.subrange(offset + 8, offset + 8 + len),
                        len,
                        acc,
                    ) {
                        Err(e) => Err(e),
                        Ok(acc2) => spec_data_loop(b, offset + 8 + len, acc2),
                    }
                }
            },
        }
    }
}

/// What a whole data file decodes to.
pub open spec fn spec_decode_data(b: Seq<u8>) -> Result<DataModelView, ParseError> {
    match spec_parse_data_header(b) {
        Err(e) => Err(e),
        Ok(version) => match spec_data_loop(b, 12, Seq::empty()) {
            Err(e) => Err(e),
            Ok(functions) => Ok(DataModelView { version, functions }),
        },
    }
}

/// Applies one data record to the decoder state, exactly as the record
/// stream specification does.
fn apply_data_record(
    functions: &mut Vec<DataFunction>,
    tag: u32,
    payload: &[u8],
    len: usize,
) -> (r: Result<(), ParseError>)
    ensures
        r matches Ok(()) ==> spec_apply_data_record(
            tag as int,
            payload@,
            len as int,
            old(functions)@.map_values(|f: DataFunction| f@),
        ) == Ok::<Seq<DataFunctionView>, ParseError>(
            final(functions)@.map_values(|f: DataFunction| f@),
        ),
        r matches Err(e) ==> spec_apply_data_record(
            tag as int,
            payload@,
            len as int,
            old(functions)@.map_values(|f: DataFunction| f@),
        ) == Err::<Seq<DataFunctionView>, ParseError>(e),
{
    let ghost accv = old(functions)@.map_values(|f: DataFunction| f@);
    if tag == TAG_FUNCTION {
        let parsed = match parse_function_reference(payload) {
            Ok(p) => p,
            Err(e) => {
                return Err(e);
            },
        };
        if parsed.length != len {
            return Err(ParseError::new(RECORD_LENGTH_MISMATCH));
        }
        let fr = parsed.record;
        functions.push(
            DataFunction {
                identifier: fr.identifier,
                line_number_checksum: fr.line_number_checksum,
                config_checksum: fr.config_checksum,
                counts: Vec::new(),
            },
        );
        proof {
            let fv = functions@.last()@;
            assert(fv.counts =~= Seq::<u64>::empty());
            assert(functions@.map_values(|f: DataFunction| f@) =~= accv.push(
                DataFunctionView {
                    identifier: fr.identifier,
                    line_number_checksum: fr.line_number_checksum,
                    config_checksum: fr.config_checksum,
                    counts: Seq::empty(),
                },
            ));
        }
        Ok(())
    } else if tag == TAG_COUNTS {
        if functions.len() == 0 {
            return Err(ParseError::new(MISSING_FUNCTION_CONTEXT));
        }
        let mut df = functions.pop().unwrap();
        let ghost dbefore = df@;
        let parsed = match parse_counts_record(payload, df.identifier) {
            Ok(p) => p,
            Err(e) => {
                functions.push(df);
                proof {
                    assert(functions@.map_values(|f: DataFunction| f@) =~= accv);
                }
                return Err(e);
            },
        };
        let cv = parsed.record.counts;
        let mut k: usize = 0;
        proof {
            assert(df.counts@ =~= dbefore.counts + cv@.take(0));
        }
        while k < cv.len()
            invariant
                k <= cv@.len(),
                df.counts@ == dbefore.counts + cv@.take(k as int),
                df.identifier == dbefore.identifier,
                df.line_number_checksum == dbefore.line_number_checksum,
                df.config_checksum == dbefore.config_checksum,
            decreases cv@.len() - k,
        {
            df.counts.push(cv[k]);
            proof {
                assert(df.counts@ =~= dbefore.counts + cv@.take(k + 1));
            }
            k = k + 1;
        }
        functions.push(df);
        proof {
            assert(cv@.take(cv@.len() as int) =~= cv@);
            assert(functions@.map_values(|f: DataFunction| f@) =~= accv.update(
                accv.len() - 1,
                DataFunctionView { counts: accv.last().counts + cv@, ..accv.last() },
            ));
        }
        Ok(())
    } else {
        // a record with an unrecognized tag, such as the merge tags of
        // multi-run data files, is skipped whole
        Ok(())
    }
}

/// Decodes a whole data file: the header, then the record stream.
pub fn decode_data(bytes: &[u8]) -> (r: Result<DataModel, ParseError>)
    ensures
        r matches Ok(m) ==> spec_decode_data(bytes@) == Ok::<DataModelView, ParseError>(m@),
        r matches Err(e) ==> spec_decode_data(bytes@) == Err::<DataModelView, ParseError>(e),
{
    let total = bytes.len();
    let header = match parse_gcda_header(bytes) {
        Ok(h) => h,
        Err(e) => {
            return Err(e);
        },
    };
    let version = header.record;
    let mut offset: usize = 12;
    let mut functions: Vec<DataFunction> = Vec::new();
    proof {
        assert(functions@.map_values(|f: DataFunction| f@) =~= Seq::<DataFunctionView>::empty());
    }
    loop
        invariant
            12 <= offset <= bytes@.len(),
            total == bytes@.len(),
            bytes@.len() <= usize::MAX,
            spec_parse_data_header(bytes@) == Ok::<Seq<char>, ParseError>(version@),
            spec_data_loop(
                bytes@,
                offset as int,
                functions@.map_values(|f: DataFunction| f@),
            ) == spec_data_loop(bytes@, 12, Seq::empty()),
        ensures
            spec_data_loop(bytes@, 12, Seq::empty()) == Ok::<Seq<DataFunctionView>, ParseError>(
                functions@.map_values(|f: DataFunction| f@),
            ),
        decreases bytes@.len() - offset,
    {
        if offset >= total {
            break;
        }
        let (tag, len) = match read_record_header(bytes, offset) {
            Ok(t) => t,
            Err(e) => {
                return Err(e);
            },
        };
        if tag == TAG_END_FILE {
            break;
        }
        let payload = slice_subrange(bytes, offset + 8, offset + 8 + len);
        match apply_data_record(&mut functions, tag, payload, len) {
            Ok(()) => {},
            Err(e) => {
                return Err(e);
            },
        }
        offset = offset + 8 + len;
    }
    Ok(DataModel { version, functions })
}

} // verus!
