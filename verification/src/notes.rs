//! Decoder for the notes file: per-function control-flow graphs.

use vstd::prelude::*;
use vstd::slice::slice_subrange;
use crate::errors::{
    ParseError, MAGIC_MISMATCH, MALFORMED_STRING, MISSING_FUNCTION_CONTEXT,
    RECORD_LENGTH_MISMATCH,
};
use crate::framing::{read_record_header, spec_frame};
use crate::le::{le32, lemma_le32_bounds, read_u32_at};
use crate::paths::{dedup_consecutive, sort_paths, spec_dedup, spec_sort_paths};
use crate::{GCNO_MAGIC, TAG_ARCS, TAG_BLOCKS, TAG_END_FILE, TAG_FUNCTION, TAG_LINES};
use crate::model::{
    ArcDestinationRecord, ArcNotes, ArcRecord, ArcRecordView, BlockNotes, BlockRecord,
    FunctionNotes, FunctionNotesView, FunctionRecord, FunctionRecordView, LineRecord,
    LineRecordView, NotesModel, NotesModelView, Record,
};
use crate::text::{read_utf8, spec_read_utf8};

verus! {

/// What a function definition record's payload decodes to: the consumed
/// byte count and the function's identity, or the error that stops the run.
pub open spec fn spec_parse_function_def(p: Seq<u8>) -> Result<
    (int, FunctionRecordView),
    ParseError,
> {
    if p.len() < 16 {
        Err(ParseError { code: RECORD_LENGTH_MISMATCH })
    } else {
        let name_len = 4 * le32(p, 12);
        if 16 + name_len > p.len() {
            Err(ParseError { code: MALFORMED_STRING })
        } else {
            match spec_read_utf8(p.subrange(16, 16 + name_len)) {
                Err(e) => Err(e),
                Ok(name) => {
                    if 20 + name_len > p.len() {
                        Err(ParseError { code: RECORD_LENGTH_MISMATCH })
                    } else {
                        let path_len = 4 * le32(p, 16 + name_len);
                        if 20 + name_len + path_len > p.len() {
                            Err(ParseError { code: MALFORMED_STRING })
                        } else {
                            match spec_read_utf8(
                                p.subrange(20 + name_len, 20 + name_len + path_len),
                            ) {
                                Err(e) => Err(e),
                                Ok(path) => {
                                    if 24 + name_len + path_len > p.len() {
                                        Err(ParseError { code: RECORD_LENGTH_MISMATCH })
                                    } else {
                                        Ok(
                                            (
                                                24 + name_len + path_len,
                                                FunctionRecordView {
                                                    identifier: le32(p, 0) as u32,
                                                    line_number_checksum: le32(p, 4) as u32,
                                                    config_checksum: le32(p, 8) as u32,
                                                    src_path: path,
                                                    name: name,
                                                    line_number: le32(
                                                        p,
                                                        20 + name_len + path_len,
                                                    ) as u32,
                                                },
                                            ),
                                        )
                                    }
                                },
                            }
                        }
                    }
                },
            }
        }
    }
}

/// Decodes a function definition record: identifier, the two checksums, the
/// length-prefixed name and source path, and the starting line number.
pub fn parse_function_definition(buffer: &[u8]) -> (r: Result<Record<FunctionRecord>, ParseError>)
    ensures
        r matches Ok(rec) ==> spec_parse_function_def(buffer@) == Ok::<
            (int, FunctionRecordView),
            ParseError,
        >((rec.length as int, rec.record@)),
        r matches Err(e) ==> spec_parse_function_def(buffer@) == Err::<
            (int, FunctionRecordView),
            ParseError,
        >(e),
{
    if buffer.len() < 16 {
        return Err(ParseError::new(RECORD_LENGTH_MISMATCH));
    }
    let identifier = read_u32_at(buffer, 0);
    let line_number_checksum = read_u32_at(buffer, 4);
    let config_checksum = read_u32_at(buffer, 8);
    let name_words = read_u32_at(buffer, 12);
    proof {
        lemma_le32_bounds(buffer@, 12);
    }
    let name_len64: u64 = (name_words as u64) * 4;
    if name_len64 > (buffer.len() - 16) as u64 {
        return Err(ParseError::new(MALFORMED_STRING));
    }
    let name_len: usize = name_len64 as usize;
    let name_bytes = slice_subrange(buffer, 16, 16 + name_len);
    let name = match read_utf8(name_bytes) {
        Ok(s) => s,
        Err(e) => {
            return Err(e);
        },
    };
    if buffer.len() - 16 - name_len < 4 {
        return Err(ParseError::new(RECORD_LENGTH_MISMATCH));
    }
    let path_words = read_u32_at(buffer, 16 + name_len);
    proof {
        lemma_le32_bounds(buffer@, 16 + name_len as int);
    }
    let path_len64: u64 = (path_words as u64) * 4;
    if path_len64 > (buffer.len() - 20 - name_len) as u64 {
        return Err(ParseError::new(MALFORMED_STRING));
    }
    let path_len: usize = path_len64 as usize;
    let path_bytes = slice_subrange(buffer, 20 + name_len, 20 + name_len + path_len);
    let src_path = match read_utf8(path_bytes) {
        Ok(s) => s,
        Err(e) => {
            return Err(e);
        },
    };
    if buffer.len() - 20 - name_len - path_len < 4 {
        return Err(ParseError::new(RECORD_LENGTH_MISMATCH));
    }
    let line_number = read_u32_at(buffer, 20 + name_len + path_len);
    Ok(
        Record {
            length: 24 + name_len + path_len,
            record: FunctionRecord {
                identifier,
                line_number_checksum,
                config_checksum,
                src_path: src_path.to_owned(),
                name: name.to_owned(),
                line_number,
            },
        },
    )
}

/// What a blocks record's payload decodes to: one entry per 32-bit word.
pub open spec fn spec_parse_blocks(p: Seq<u8>) -> Seq<BlockRecord> {
    Seq::new((p.len() / 4) as nat, |i: int| BlockRecord { flags: le32(p, 4 * i) as u32 })
}

/// Decodes a blocks record: each remaining word declares one more block of
/// the current function.
pub fn parse_blocks_record(buffer: &[u8]) -> (r: Record<Vec<BlockRecord>>)
    ensures
        r.length == buffer@.len(),
        r.record@ == spec_parse_blocks(buffer@),
{
    let n = buffer.len() / 4;
    let mut records: Vec<BlockRecord> = Vec::new();
    let mut i: usize = 0;
    while i < n
        invariant
            n == buffer@.len() / 4,
            buffer@.len() <= usize::MAX,
            i <= n,
            records@.len() == i,
            forall|j: int|
                0 <= j < i ==> records@[j] == (BlockRecord { flags: le32(buffer@, 4 * j) as u32 }),
        decreases n - i,
    {
        proof {
            assert(4 * i + 4 <= 4 * (buffer@.len() / 4) <= buffer@.len());
            lemma_le32_bounds(buffer@, 4 * i as int);
        }
        let flags = read_u32_at(buffer, 4 * i);
        records.push(BlockRecord { flags });
        i = i + 1;
    }
    proof {
        assert(records@ =~= spec_parse_blocks(buffer@));
    }
    Record { length: buffer.len(), record: records }
}

/// What an arcs record's payload decodes to: the source block and one
/// destination-and-flags pair per remaining eight bytes.
pub open spec fn spec_parse_arcs(p: Seq<u8>) -> Result<(int, ArcRecordView), ParseError> {
    if p.len() < 4 || (p.len() - 4) % 8 != 0 {
        Err(ParseError { code: RECORD_LENGTH_MISMATCH })
    } else {
        Ok(
            (
                p.len() as int,
                ArcRecordView {
                    source_block: le32(p, 0) as u32,
                    arcs: Seq::new(
                        ((p.len() - 4) / 8) as nat,
                        |i: int|
                            ArcDestinationRecord {
                                destination_block: le32(p, 4 + 8 * i) as u32,
                                flags: le32(p, 8 + 8 * i) as u32,
                            },
                    ),
                },
            ),
        )
    }
}

/// Decodes an arcs record: the source block, then destination block and
/// flag word for each outgoing arc it declares.
pub fn parse_arcs_record(buffer: &[u8]) -> (r: Result<Record<ArcRecord>, ParseError>)
    ensures
        r matches Ok(rec) ==> spec_parse_arcs(buffer@) == Ok::<(int, ArcRecordView), ParseError>(
            (rec.length as int, rec.record@),
        ),
        r matches Err(e) ==> spec_parse_arcs(buffer@) == Err::<(int, ArcRecordView), ParseError>(e),
{
    if buffer.len() < 4 || (buffer.len() - 4) % 8 != 0 {
        return Err(ParseError::new(RECORD_LENGTH_MISMATCH));
    }
    let source_block = read_u32_at(buffer, 0);
    let n = (buffer.len() - 4) / 8;
    let mut arcs: Vec<ArcDestinationRecord> = Vec::new();
    let mut i: usize = 0;
    while i < n
        invariant
            n == (buffer@.len() - 4) / 8,
            buffer@.len() >= 4,
            buffer@.len() <= usize::MAX,
            i <= n,
            arcs@.len() == i,
            forall|j: int|
                0 <= j < i ==> arcs@[j] == (ArcDestinationRecord {
                    destination_block: le32(buffer@, 4 + 8 * j) as u32,
                    flags: le32(buffer@, 8 + 8 * j) as u32,
                }),
        decreases n - i,
    {
        proof {
            assert(8 * i + 8 <= 8 * ((buffer@.len() - 4) / 8) <= buffer@.len() - 4);
            lemma_le32_bounds(buffer@, 4 + 8 * i as int);
            lemma_le32_bounds(buffer@, 8 + 8 * i as int);
        }
        let destination_block = read_u32_at(buffer, 4 + 8 * i);
        let flags = read_u32_at(buffer, 8 + 8 * i);
        arcs.push(ArcDestinationRecord { destination_block, flags });
        i = i + 1;
    }
    proof {
        assert(arcs@ =~= spec_parse_arcs(buffer@).unwrap().1.arcs);
    }
    Ok(Record { length: buffer.len(), record: ArcRecord { source_block, arcs } })
}

/// The view of an optional current source path.
pub open spec fn spec_opt_path(o: Option<String>) -> Option<Seq<char>> {
    match o {
        None => None,
        Some(s) => Some(s@),
    }
}

/// One step at a time through a lines record's payload after the leading
/// block index: a nonzero word is a line number attributed under the current
/// source path; a zero word announces a length-prefixed filename switch; a
/// switch of length zero terminates the record.
pub open spec fn spec_lines_loop(
    p: Seq<u8>,
    offset: int,
    block: u32,
    cur: Option<Seq<char>>,
    acc: Seq<LineRecordView>,
) -> Result<(int, Seq<LineRecordView>), ParseError>
    decreases p.len() - offset,
{
    if offset + 4 > p.len() {
        Err(ParseError { code: RECORD_LENGTH_MISMATCH })
    } else {
        let v = le32(p, offset);
        if v != 0 {
            match cur {
                None => Err(ParseError { code: MALFORMED_STRING }),
                Some(path) => spec_lines_loop(
                    p,
                    offset + 4,
                    block,
                    cur,
                    acc.push(
                        LineRecordView { src_path: path, block: block, line_number: v as u32 },
                    ),
                ),
            }
        } else if offset + 8 > p.len() {
            Err(ParseError { code: RECORD_LENGTH_MISMATCH })
        } else {
            let sl = 4 * le32(p, offset + 4);
            if sl == 0 {
                Ok((offset + 8, acc))
            } else if offset + 8 + sl > p.len() {
                Err(ParseError { code: MALFORMED_STRING })
            } else {
                match spec_read_utf8(p.subrange(offset + 8, offset + 8 + sl)) {
                    Err(e) => Err(e),
                    Ok(path) => spec_lines_loop(p, offset + 8 + sl, block, Some(path), acc),
                }
            }
        }
    }
}

/// What a lines record's payload decodes to: the consumed byte count and the
/// line attributions for the block the record names.
pub open spec fn spec_parse_lines(p: Seq<u8>) -> Result<(int, Seq<LineRecordView>), ParseError> {
    if p.len() < 4 {
        Err(ParseError { code: RECORD_LENGTH_MISMATCH })
    } else {
        spec_lines_loop(p, 4, le32(p, 0) as u32, None, Seq::empty())
    }
}

/// Decodes a lines record: the block index, then line numbers under the
/// source path that the record's filename switches establish.
pub fn parse_lines_record(buffer: &[u8]) -> (r: Result<Record<Vec<LineRecord>>, ParseError>)
    ensures
        r matches Ok(rec) ==> spec_parse_lines(buffer@) == Ok::<
            (int, Seq<LineRecordView>),
            ParseError,
        >((rec.length as int, rec.record@.map_values(|l: LineRecord| l@))),
        r matches Err(e) ==> spec_parse_lines(buffer@) == Err::<
            (int, Seq<LineRecordView>),
            ParseError,
        >(e),
{
    if buffer.len() < 4 {
        return Err(ParseError::new(RECORD_LENGTH_MISMATCH));
    }
    let block = read_u32_at(buffer, 0);
    let mut offset: usize = 4;
    let mut current: Option<String> = None;
    let mut records: Vec<LineRecord> = Vec::new();
    proof {
        assert(records@.map_values(|l: LineRecord| l@) =~= Seq::<LineRecordView>::empty());
        crate::le::lemma_le32_bounds(buffer@, 0);
    }
    loop
        invariant
            4 <= offset <= buffer@.len(),
            buffer@.len() <= usize::MAX,
            block == le32(buffer@, 0) as u32,
            buffer@.len() >= 4,
            spec_lines_loop(
                buffer@,
                offset as int,
                block,
                spec_opt_path(current),
                records@.map_values(|l: LineRecord| l@),
            ) == spec_parse_lines(buffer@),
        decreases buffer@.len() - offset,
    {
        if buffer.len() - offset < 4 {
            return Err(ParseError::new(RECORD_LENGTH_MISMATCH));
        }
        let v = read_u32_at(buffer, offset);
        if v != 0 {
            match &current {
                None => {
                    return Err(ParseError::new(MALFORMED_STRING));
                },
                Some(path) => {
                    let ghost before = records@.map_values(|l: LineRecord| l@);
                    records.push(
                        LineRecord { src_path: path.clone(), block, line_number: v },
                    );
                    proof {
                        assert(records@.map_values(|l: LineRecord| l@) =~= before.push(
                            LineRecordView {
                                src_path: path@,
                                block: block,
                                line_number: v as u32,
                            },
                        ));
                    }
                },
            }
            offset = offset + 4;
        } else {
            if buffer.len() - offset < 8 {
                return Err(ParseError::new(RECORD_LENGTH_MISMATCH));
            }
            let words = read_u32_at(buffer, offset + 4);
            proof {
                lemma_le32_bounds(buffer@, offset as int + 4);
            }
            let sl64: u64 = (words as u64) * 4;
            if sl64 == 0 {
                return Ok(Record { length: offset + 8, record: records });
            }
            if sl64 > (buffer.len() - offset - 8) as u64 {
                return Err(ParseError::new(MALFORMED_STRING));
            }
            let sl: usize = sl64 as usize;
            let path_bytes = slice_subrange(buffer, offset + 8, offset + 8 + sl);
            match read_utf8(path_bytes) {
                Ok(s) => {
                    current = Some(s.to_owned());
                },
                Err(e) => {
                    return Err(e);
                },
            }
            offset = offset + 8 + sl;
        }
    }
}

/// What the notes file's twelve-byte header decodes to: the version field,
/// after the magic number has been checked.
pub open spec fn spec_parse_notes_header(b: Seq<u8>) -> Result<Seq<char>, ParseError> {
    if b.len() < 12 {
        Err(ParseError { code: MAGIC_MISMATCH })
    } else if le32(b, 0) != GCNO_MAGIC {
        Err(ParseError { code: MAGIC_MISMATCH })
    } else {
        spec_read_utf8(b.subrange(4, 8))
    }
}

/// Validates the notes magic number and reads the version field; the stamp
/// word that completes the twelve-byte header is skipped.
pub fn parse_gcno_header(buffer: &[u8]) -> (r: Result<Record<String>, ParseError>)
    ensures
        r matches Ok(rec) ==> rec.length == 12 && spec_parse_notes_header(buffer@) == Ok::<
            Seq<char>,
            ParseError,
        >(rec.record@),
        r matches Err(e) ==> spec_parse_notes_header(buffer@) == Err::<Seq<char>, ParseError>(e),
{
    if buffer.len() < 12 {
        return Err(ParseError::new(MAGIC_MISMATCH));
    }
    let magic = read_u32_at(buffer, 0);
    if magic != GCNO_MAGIC {
        return Err(ParseError::new(MAGIC_MISMATCH));
    }
    let version_bytes = slice_subrange(buffer, 4, 8);
    match read_utf8(version_bytes) {
        Ok(s) => Ok(Record { length: 12, record: s.to_owned() }),
        Err(e) => Err(e),
    }
}

/// A freshly opened function graph, before any blocks, arcs or lines
/// records have been attached to it.
pub open spec fn spec_new_function(r: FunctionRecordView) -> FunctionNotesView {
    FunctionNotesView {
        identifier: r.identifier,
        line_number_checksum: r.line_number_checksum,
        config_checksum: r.config_checksum,
        src_path: r.src_path,
        name: r.name,
        line_number: r.line_number,
        blocks: Seq::empty(),
        arcs: Seq::empty(),
        lines: Seq::empty(),
    }
}

/// The current function with one more blocks record appended.
pub open spec fn spec_add_blocks(f: FunctionNotesView, recs: Seq<BlockRecord>) -> FunctionNotesView {
    FunctionNotesView {
        blocks: f.blocks + recs.map_values(|r: BlockRecord| BlockNotes { flags: r.flags }),
        ..f
    }
}

/// The current function with one more arcs record appended: each declared
/// destination becomes an arc out of the record's source block.
pub open spec fn spec_add_arcs(f: FunctionNotesView, ar: ArcRecordView) -> FunctionNotesView {
    FunctionNotesView {
        arcs: f.arcs + ar.arcs.map_values(
            |d: ArcDestinationRecord|
                ArcNotes {
                    source_block: ar.source_block,
                    destination_block: d.destination_block,
                    flags: d.flags,
                },
        ),
        ..f
    }
}

/// The current function with one more lines record appended.
pub open spec fn spec_add_lines(f: FunctionNotesView, ls: Seq<LineRecordView>) -> FunctionNotesView {
    FunctionNotesView { lines: f.lines + ls, ..f }
}

/// The state change that one record makes: a function record opens a new
/// current function; blocks, arcs and lines records attach to the current
/// function and are a fatal error without one; any other tag is skipped.
/// Every decoder must consume exactly the declared record length `len`.
pub open spec fn spec_apply_record(
    tag: int,
    p: Seq<u8>,
    len: int,
    acc: Seq<FunctionNotesView>,
) -> Result<Seq<FunctionNotesView>, ParseError> {
    if tag == TAG_FUNCTION {
        match spec_parse_function_def(p) {
            Err(e) => Err(e),
            Ok((consumed, rec)) => {
                if consumed != len {
                    Err(ParseError { code: RECORD_LENGTH_MISMATCH })
                } else {
                    Ok(acc.push(spec_new_function(rec)))
                }
            },
        }
    } else if tag == TAG_BLOCKS {
        if acc.len() == 0 {
            Err(ParseError { code: MISSING_FUNCTION_CONTEXT })
        } else {
            Ok(acc.update(acc.len() - 1, spec_add_blocks(acc.last(), spec_parse_blocks(p))))
        }
    } else if tag == TAG_ARCS {
        if acc.len() == 0 {
            Err(ParseError { code: MISSING_FUNCTION_CONTEXT })
        } else {
            match spec_parse_arcs(p) {
                Err(e) => Err(e),
                Ok((consumed, ar)) => {
                    if consumed != len {
                        Err(ParseError { code: RECORD_LENGTH_MISMATCH })
                    } else {
                        Ok(acc.update(acc.len() - 1, spec_add_arcs(acc.last(), ar)))
                    }
                },
            }
        }
    } else if tag == TAG_LINES {
        if acc.len() == 0 {
            Err(ParseError { code: MISSING_FUNCTION_CONTEXT })
        } else {
            match spec_parse_lines(p) {
                Err(e) => Err(e),
                Ok((consumed, ls)) => {
                    if consumed != len {
                        Err(ParseError { code: RECORD_LENGTH_MISMATCH })
                    } else {
                        Ok(acc.update(acc.len() - 1, spec_add_lines(acc.last(), ls)))
                    }
                },
            }
        }
    } else {
        Ok(acc)
    }
}

/// The notes record stream, one record at a time from `offset`, applying
/// each record to the decoder state until the stream or the buffer ends.
pub open spec fn spec_notes_loop(
    b: Seq<u8>,
    offset: int,
    acc: Seq<FunctionNotesView>,
) -> Result<Seq<FunctionNotesView>, ParseError>
    decreases b.len() - offset,
{
    if offset >= b.len() {
        Ok(acc)
    } else {
        match spec_frame(b, offset) {
            Err(e) => Err(e),
            Ok((tag, len)) => {
                if tag == TAG_END_FILE {
                    Ok(acc)
                } else {
                    match spec_apply_record(tag, b.subrange(offset + 8, offset + 8 + len), len, acc) {
                        Err(e) => Err(e),
                        Ok(acc2) => spec_notes_loop(b, offset + 8 + len, acc2),
                    }
                }
            },
        }
    }
}


/// The source paths that one function graph mentions: its own path, then
/// the path of each of its line attributions.
pub open spec fn spec_function_paths(f: FunctionNotesView) -> Seq<Seq<char>> {
    seq![f.src_path] + f.lines.map_values(|l: LineRecordView| l.src_path)
}

/// All source paths that a sequence of function graphs mentions, in order.
pub open spec fn spec_all_paths(fs: Seq<FunctionNotesView>) -> Seq<Seq<char>>
    decreases fs.len(),
{
    if fs.len() == 0 {
        Seq::empty()
    } else {
        spec_all_paths(fs.drop_last()) + spec_function_paths(fs.last())
    }
}

/// The derived source path list: every mentioned path, sorted ascending by
/// UTF-8 bytes, with duplicates removed.
pub open spec fn spec_source_paths(fs: Seq<FunctionNotesView>) -> Seq<Seq<char>> {
    spec_dedup(spec_sort_paths(spec_all_paths(fs)))
}

/// What a whole notes file decodes to.
pub open spec fn spec_decode_notes(b: Seq<u8>) -> Result<NotesModelView, ParseError> {
    match spec_parse_notes_header(b) {
        Err(e) => Err(e),
        Ok(version) => match spec_notes_loop(b, 12, Seq::empty()) {
            Err(e) => Err(e),
            Ok(functions) => Ok(
                NotesModelView { version, functions, source_paths: spec_source_paths(functions) },
            ),
        },
    }
}

/// Collects every source path mentioned by the functions, in order.
fn collect_source_paths(functions: &Vec<FunctionNotes>) -> (r: Vec<String>)
    ensures
        r@.map_values(|s: String| s@) == spec_all_paths(
            functions@.map_values(|f: FunctionNotes| f@),
        ),
{
    let ghost fv = functions@.map_values(|f: FunctionNotes| f@);
    let mut out: Vec<String> = Vec::new();
    let mut i: usize = 0;
    proof {
        assert(out@.map_values(|s: String| s@) =~= spec_all_paths(fv.take(0)));
    }
    while i < functions.len()
        invariant
            i <= functions@.len(),
            fv == functions@.map_values(|f: FunctionNotes| f@),
            fv.len() == functions@.len(),
            out@.map_values(|s: String| s@) == spec_all_paths(fv.take(i as int)),
        decreases functions@.len() - i,
    {
        let ghost before = out@.map_values(|s: String| s@);
        let f = &functions[i];
        proof {
            assert(fv[i as int] == functions@[i as int]@);
        }
        out.push(f.src_path.clone());
        let mut j: usize = 0;
        proof {
            assert(out@.map_values(|s: String| s@) =~= before + seq![fv[i as int].src_path]
                + fv[i as int].lines.take(0).map_values(|l: LineRecordView| l.src_path));
        }
        while j < f.lines.len()
            invariant
                j <= f.lines@.len(),
                fv == functions@.map_values(|f: FunctionNotes| f@),
                fv.len() == functions@.len(),
                i < functions@.len(),
                f == functions@[i as int],
                fv[i as int] == functions@[i as int]@,
                before == spec_all_paths(fv.take(i as int)),
                fv[i as int].lines.len() == f.lines@.len(),
                out@.map_values(|s: String| s@) == before + seq![fv[i as int].src_path] + fv[
                    i as int
                ].lines.take(j as int).map_values(|l: LineRecordView| l.src_path),
            decreases f.lines@.len() - j,
        {
            let ghost mid = out@.map_values(|s: String| s@);
            out.push(f.lines[j].src_path.clone());
            proof {
                assert(fv[i as int].lines[j as int] == f.lines@[j as int]@);
                assert(out@.map_values(|s: String| s@) =~= mid + seq![fv[i as int].lines[j as int].src_path]);
                assert(fv[i as int].lines.take(j + 1).map_values(
                    |l: LineRecordView| l.src_path,
                ) =~= fv[i as int].lines.take(j as int).map_values(|l: LineRecordView| l.src_path)
                    + seq![fv[i as int].lines[j as int].src_path]);
            }
            j = j + 1;
        }
        proof {
            assert(fv[i as int].lines.take(fv[i as int].lines.len() as int) =~= fv[i as int].lines);
            assert(fv.take(i + 1).drop_last() =~= fv.take(i as int));
            assert(fv.take(i + 1).last() == fv[i as int]);
            assert(out@.map_values(|s: String| s@) =~= spec_all_paths(fv.take(i + 1)));
        }
        i = i + 1;
    }
    proof {
        assert(fv.take(fv.len() as int) =~= fv);
    }
    out
}


/// Appends the blocks that a blocks record declares to the function.
fn append_blocks(f: &mut FunctionNotes, recs: &Vec<BlockRecord>)
    ensures
        final(f)@ == spec_add_blocks(old(f)@, recs@),
{
    let ghost fbefore = old(f)@;
    let mut k: usize = 0;
    proof {
        assert(f.blocks@ =~= fbefore.blocks + recs@.take(0).map_values(
            |r: BlockRecord| BlockNotes { flags: r.flags },
        ));
    }
    while k < recs.len()
        invariant
            k <= recs@.len(),
            f.blocks@ == fbefore.blocks + recs@.take(k as int).map_values(
                |r: BlockRecord| BlockNotes { flags: r.flags },
            ),
            f.identifier == fbefore.identifier,
            f.line_number_checksum == fbefore.line_number_checksum,
            f.config_checksum == fbefore.config_checksum,
            f.src_path@ == fbefore.src_path,
            f.name@ == fbefore.name,
            f.line_number == fbefore.line_number,
            f.arcs@ == fbefore.arcs,
            f.lines@.map_values(|l: LineRecord| l@) == fbefore.lines,
        decreases recs@.len() - k,
    {
        f.blocks.push(BlockNotes { flags: recs[k].flags });
        proof {
            assert(recs@.take(k + 1).map_values(
                |r: BlockRecord| BlockNotes { flags: r.flags },
            ) =~= recs@.take(k as int).map_values(
                |r: BlockRecord| BlockNotes { flags: r.flags },
            ).push(BlockNotes { flags: recs@[k as int].flags }));
            assert(f.blocks@ =~= fbefore.blocks + recs@.take(k + 1).map_values(
                |r: BlockRecord| BlockNotes { flags: r.flags },
            ));
        }
        k = k + 1;
    }
    proof {
        assert(recs@.take(recs@.len() as int) =~= recs@);
    }
}

/// Appends the arcs that an arcs record declares to the function, each one
/// out of the record's source block.
fn append_arcs(f: &mut FunctionNotes, ar: &ArcRecord)
    ensures
        final(f)@ == spec_add_arcs(old(f)@, ar@),
{
    let ghost fbefore = old(f)@;
    let ghost arcmap = |d: ArcDestinationRecord|
        ArcNotes {
            source_block: ar@.source_block,
            destination_block: d.destination_block,
            flags: d.flags,
        };
    let mut k: usize = 0;
    proof {
        assert(f.arcs@ =~= fbefore.arcs + ar.arcs@.take(0).map_values(arcmap));
    }
    while k < ar.arcs.len()
        invariant
            k <= ar.arcs@.len(),
            arcmap == (|d: ArcDestinationRecord|
                ArcNotes {
                    source_block: ar@.source_block,
                    destination_block: d.destination_block,
                    flags: d.flags,
                }),
            f.arcs@ == fbefore.arcs + ar.arcs@.take(k as int).map_values(arcmap),
            f.identifier == fbefore.identifier,
            f.line_number_checksum == fbefore.line_number_checksum,
            f.config_checksum == fbefore.config_checksum,
            f.src_path@ == fbefore.src_path,
            f.name@ == fbefore.name,
            f.line_number == fbefore.line_number,
            f.blocks@ == fbefore.blocks,
            f.lines@.map_values(|l: LineRecord| l@) == fbefore.lines,
        decreases ar.arcs@.len() - k,
    {
        let d = ar.arcs[k];
        f.arcs.push(
            ArcNotes {
                source_block: ar.source_block,
                destination_block: d.destination_block,
                flags: d.flags,
            },
        );
        proof {
            assert(ar.arcs@.take(k + 1).map_values(arcmap) =~= ar.arcs@.take(
                k as int,
            ).map_values(arcmap).push(arcmap(ar.arcs@[k as int])));
            assert(f.arcs@ =~= fbefore.arcs + ar.arcs@.take(k + 1).map_values(arcmap));
        }
        k = k + 1;
    }
    proof {
        assert(ar.arcs@.take(ar.arcs@.len() as int) =~= ar.arcs@);
    }
}

/// Appends the line attributions that a lines record declares.
fn append_lines(f: &mut FunctionNotes, recs: &Vec<LineRecord>)
    ensures
        final(f)@ == spec_add_lines(old(f)@, recs@.map_values(|l: LineRecord| l@)),
{
    let ghost fbefore = old(f)@;
    let ghost ls = recs@.map_values(|l: LineRecord| l@);
    let mut k: usize = 0;
    proof {
        assert(f.lines@.map_values(|l: LineRecord| l@) =~= fbefore.lines + ls.take(0));
    }
    while k < recs.len()
        invariant
            k <= recs@.len(),
            ls == recs@.map_values(|l: LineRecord| l@),
            ls.len() == recs@.len(),
            f.lines@.map_values(|l: LineRecord| l@) == fbefore.lines + ls.take(k as int),
            f.identifier == fbefore.identifier,
            f.line_number_checksum == fbefore.line_number_checksum,
            f.config_checksum == fbefore.config_checksum,
            f.src_path@ == fbefore.src_path,
            f.name@ == fbefore.name,
            f.line_number == fbefore.line_number,
            f.blocks@ == fbefore.blocks,
            f.arcs@ == fbefore.arcs,
        decreases recs@.len() - k,
    {
        let l = &recs[k];
        let ghost lview = l@;
        f.lines.push(
            LineRecord { src_path: l.src_path.clone(), block: l.block, line_number: l.line_number },
        );
        proof {
            assert(ls[k as int] == recs@[k as int]@);
            assert((LineRecord {
                src_path: recs@[k as int].src_path,
                block: recs@[k as int].block,
                line_number: recs@[k as int].line_number,
            })@ == lview);
            assert(f.lines@.map_values(|l: LineRecord| l@) =~= (fbefore.lines + ls.take(
                k as int,
            )).push(ls[k as int]));
            assert((fbefore.lines + ls.take(k as int)).push(ls[k as int]) =~= fbefore.lines
                + ls.take(k + 1));
        }
        k = k + 1;
    }
    proof {
        assert(ls.take(ls.len() as int) =~= ls);
    }
}
/// Applies one record to the decoder state, exactly as the record stream
/// specification does.
fn apply_record(
    functions: &mut Vec<FunctionNotes>,
    tag: u32,
    payload: &[u8],
    len: usize,
) -> (r: Result<(), ParseError>)
    ensures
        r matches Ok(()) ==> spec_apply_record(
            tag as int,
            payload@,
            len as int,
            old(functions)@.map_values(|f: FunctionNotes| f@),
        ) == Ok::<Seq<FunctionNotesView>, ParseError>(
            final(functions)@.map_values(|f: FunctionNotes| f@),
        ),
        r matches Err(e) ==> spec_apply_record(
            tag as int,
            payload@,
            len as int,
            old(functions)@.map_values(|f: FunctionNotes| f@),
        ) == Err::<Seq<FunctionNotesView>, ParseError>(e) && final(functions)@ == old(functions)@,
{
    let ghost accv = old(functions)@.map_values(|f: FunctionNotes| f@);
    if tag == TAG_FUNCTION {
        let parsed = match parse_function_definition(payload) {
            Ok(p) => p,
            Err(e) => {
                return Err(e);
            },
        };
        if parsed.length != len {
            return Err(ParseError::new(RECORD_LENGTH_MISMATCH));
        }
        let ghost recv = parsed.record@;
        let rec = parsed.record;
        functions.push(
            FunctionNotes {
                identifier: rec.identifier,
                line_number_checksum: rec.line_number_checksum,
                config_checksum: rec.config_checksum,
                src_path: rec.src_path,
                name: rec.name,
                line_number: rec.line_number,
                blocks: Vec::new(),
                arcs: Vec::new(),
                lines: Vec::new(),
            },
        );
        proof {
            let fv = functions@.last()@;
            assert(fv.blocks =~= Seq::<BlockNotes>::empty());
            assert(fv.arcs =~= Seq::<ArcNotes>::empty());
            assert(fv.lines =~= Seq::<LineRecordView>::empty());
            assert(fv == spec_new_function(recv));
            assert(functions@.map_values(|f: FunctionNotes| f@) =~= accv.push(
                spec_new_function(recv),
            ));
        }
        Ok(())
    } else if tag == TAG_BLOCKS {
        if functions.len() == 0 {
            return Err(ParseError::new(MISSING_FUNCTION_CONTEXT));
        }
        let parsed = parse_blocks_record(payload);
        let mut f = functions.pop().unwrap();
        append_blocks(&mut f, &parsed.record);
        functions.push(f);
        proof {
            assert(functions@.map_values(|f: FunctionNotes| f@) =~= accv.update(
                accv.len() - 1,
                spec_add_blocks(accv.last(), spec_parse_blocks(payload@)),
            ));
        }
        Ok(())
    } else if tag == TAG_ARCS {
        if functions.len() == 0 {
            return Err(ParseError::new(MISSING_FUNCTION_CONTEXT));
        }
        let parsed = match parse_arcs_record(payload) {
            Ok(p) => p,
            Err(e) => {
                return Err(e);
            },
        };
        if parsed.length != len {
            return Err(ParseError::new(RECORD_LENGTH_MISMATCH));
        }
        let mut f = functions.pop().unwrap();
        append_arcs(&mut f, &parsed.record);
        functions.push(f);
        proof {
            assert(functions@.map_values(|f: FunctionNotes| f@) =~= accv.update(
                accv.len() - 1,
                spec_add_arcs(accv.last(), parsed.record@),
            ));
        }
        Ok(())
    } else if tag == TAG_LINES {
        if functions.len() == 0 {
            return Err(ParseError::new(MISSING_FUNCTION_CONTEXT));
        }
        let parsed = match parse_lines_record(payload) {
            Ok(p) => p,
            Err(e) => {
                return Err(e);
            },
        };
        if parsed.length != len {
            return Err(ParseError::new(RECORD_LENGTH_MISMATCH));
        }
        let mut f = functions.pop().unwrap();
        append_lines(&mut f, &parsed.record);
        functions.push(f);
        proof {
            assert(functions@.map_values(|f: FunctionNotes| f@) =~= accv.update(
                accv.len() - 1,
                spec_add_lines(accv.last(), parsed.record@.map_values(|l: LineRecord| l@)),
            ));
        }
        Ok(())
    } else {
        // a record with an unrecognized tag is skipped whole
        Ok(())
    }
}

/// Decodes a whole notes file: the header, then the record stream, then the
/// derived source path list.
pub fn decode_notes(bytes: &[u8]) -> (r: Result<NotesModel, ParseError>)
    ensures
        r matches Ok(m) ==> spec_decode_notes(bytes@) == Ok::<NotesModelView, ParseError>(m@),
        r matches Err(e) ==> spec_decode_notes(bytes@) == Err::<NotesModelView, ParseError>(e),
{
    let total = bytes.len();
    let header = match parse_gcno_header(bytes) {
        Ok(h) => h,
        Err(e) => {
            return Err(e);
        },
    };
    let version = header.record;
    let mut offset: usize = 12;
    let mut functions: Vec<FunctionNotes> = Vec::new();
    proof {
        assert(functions@.map_values(|f: FunctionNotes| f@) =~= Seq::<FunctionNotesView>::empty());
    }
    loop
        invariant
            12 <= offset <= bytes@.len(),
            total == bytes@.len(),
            bytes@.len() <= usize::MAX,
            spec_parse_notes_header(bytes@) == Ok::<Seq<char>, ParseError>(version@),
            spec_notes_loop(
                bytes@,
                offset as int,
                functions@.map_values(|f: FunctionNotes| f@),
            ) == spec_notes_loop(bytes@, 12, Seq::empty()),
        ensures
            spec_notes_loop(bytes@, 12, Seq::empty()) == Ok::<Seq<FunctionNotesView>, ParseError>(
                functions@.map_values(|f: FunctionNotes| f@),
            ),
        decreases bytes@.len() - offset,
    {
        if offset >= total {
            break;
        }
        let (tag, len) = match read_record_header(bytes, offset) {
            Ok(t) => t,
            Err(e) => {
                return Err(e);
            },
        };
        if tag == TAG_END_FILE {
            break;
        }
        let payload = slice_subrange(bytes, offset + 8, offset + 8 + len);
        match apply_record(&mut functions, tag, payload, len) {
            Ok(()) => {},
            Err(e) => {
                return Err(e);
            },
        }
        offset = offset + 8 + len;
    }
    let all = collect_source_paths(&functions);
    let sorted = sort_paths(all);
    let source_paths = dedup_consecutive(sorted);
    Ok(NotesModel { version, functions, source_paths })
}

} // verus!
