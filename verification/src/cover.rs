//! Joining the notes and data models into resolved per-line and
//! per-function coverage, grouped by source path.

use vstd::prelude::*;
use crate::errors::{ParseError, CHECKSUM_MISMATCH};
use crate::model::{
    ArcNotes, CoverageModel, CoverageModelView, DataFunction, DataFunctionView, DataModel,
    DataModelView, FileCoverage, FileCoverageView, FunctionCoverage, FunctionCoverageView,
    FunctionNotes, FunctionNotesView, LineCount, LineRecordView, NotesModel, NotesModelView,
};
use crate::resolve::{
    in_sum64, in_sum_exec, out_sum64, out_sum_exec, resolve_function_counts, spec_resolve_function,
};

verus! {

/// A nonnegative sum clamped into an unsigned 64-bit count.
pub open spec fn sat64(v: int) -> u64 {
    if v >= 0xFFFF_FFFF_FFFF_FFFF {
        0xFFFF_FFFF_FFFF_FFFFu64
    } else if v <= 0 {
        0u64
    } else {
        v as u64
    }
}

/// Per-block execution counts: the entry block executes as often as flow
/// leaves it, every other block as often as flow reaches it.
pub open spec fn spec_block_counts(arcs: Seq<ArcNotes>, rc: Seq<u64>, nblocks: nat) -> Seq<u64> {
    Seq::new(
        nblocks,
        |b: int|
            sat64(
                if b == 0 {
                    out_sum64(arcs, rc, b, arcs.len() as int)
                } else {
                    in_sum64(arcs, rc, b, arcs.len() as int)
                },
            ),
    )
}

/// Computes the per-block execution counts.
fn block_counts(arcs: &Vec<ArcNotes>, rc: &Vec<u64>, nblocks: usize) -> (r: Vec<u64>)
    requires
        rc@.len() == arcs@.len(),
    ensures
        r@ == spec_block_counts(arcs@, rc@, nblocks as nat),
{
    let mut out: Vec<u64> = Vec::new();
    let mut b: usize = 0;
    while b < nblocks
        invariant
            rc@.len() == arcs@.len(),
            b <= nblocks,
            out@.len() == b,
            forall|m: int| 0 <= m < b ==> out@[m] == spec_block_counts(arcs@, rc@, nblocks as nat)[m],
        decreases nblocks - b,
    {
        let s: u128 = if b == 0 {
            out_sum_exec(arcs, rc, b)
        } else {
            in_sum_exec(arcs, rc, b)
        };
        let c: u64 = if s >= 0xFFFF_FFFF_FFFF_FFFFu128 {
            0xFFFF_FFFF_FFFF_FFFFu64
        } else {
            s as u64
        };
        out.push(c);
        b = b + 1;
    }
    proof {
        assert(out@ =~= spec_block_counts(arcs@, rc@, nblocks as nat));
    }
    out
}

/// Line counts sorted strictly ascending by line number.
pub open spec fn lines_sorted(ls: Seq<LineCount>) -> bool {
    forall|i: int, j: int| 0 <= i < j < ls.len() ==> ls[i].line_number < ls[j].line_number
}

/// The source paths of the coverage entries, in order.
pub open spec fn cov_paths(files: Seq<FileCoverageView>) -> Seq<Seq<char>> {
    files.map_values(|f: FileCoverageView| f.src_path)
}

/// Every coverage entry's line list is sorted.
pub open spec fn cov_lines_sorted(files: Seq<FileCoverageView>) -> bool {
    forall|i: int| 0 <= i < files.len() ==> lines_sorted(files[i].lines)
}

/// The first coverage entry for source path `p`, scanning from `i`; the
/// entry count when there is none.
pub open spec fn spec_find_file(files: Seq<FileCoverageView>, p: Seq<char>, i: int) -> int
    decreases files.len() - i,
{
    if i >= files.len() {
        files.len() as int
    } else if files[i].src_path == p {
        i
    } else {
        spec_find_file(files, p, i + 1)
    }
}

/// The found index lies between the scan start and the entry count, and
/// an index below the entry count names an entry with the sought path.
pub proof fn lemma_find_file_bounds(files: Seq<FileCoverageView>, p: Seq<char>, i: int)
    requires
        0 <= i <= files.len(),
    ensures
        i <= spec_find_file(files, p, i) <= files.len(),
        spec_find_file(files, p, i) < files.len() ==> files[spec_find_file(files, p, i)].src_path
            == p,
    decreases files.len() - i,
{
    if i < files.len() && !(files[i].src_path == p) {
        lemma_find_file_bounds(files, p, i + 1);
    }
}

/// Finds the coverage entry for a source path.
fn find_file(files: &Vec<FileCoverage>, p: &String) -> (r: usize)
    ensures
        r == spec_find_file(files@.map_values(|f: FileCoverage| f@), p@, 0),
        r <= files@.len(),
{
    let ghost fv = files@.map_values(|f: FileCoverage| f@);
    let mut i: usize = 0;
    while i < files.len()
        invariant
            i <= files@.len(),
            fv == files@.map_values(|f: FileCoverage| f@),
            fv.len() == files@.len(),
            spec_find_file(fv, p@, 0) == spec_find_file(fv, p@, i as int),
        decreases files@.len() - i,
    {
        if files[i].src_path.eq(p) {
            proof {
                assert(fv[i as int] == files@[i as int]@);
            }
            return i;
        }
        proof {
            assert(fv[i as int] == files@[i as int]@);
        }
        i = i + 1;
    }
    files.len()
}

/// The line-count list with `c` executions added to line `ln`: counts of
/// the same line add (saturating); a new line enters keeping the list
/// sorted ascending by line number.
pub open spec fn spec_add_line(lines: Seq<LineCount>, ln: u32, c: u64) -> Seq<LineCount>
    decreases lines.len(),
{
    if lines.len() == 0 {
        seq![LineCount { line_number: ln, count: c }]
    } else if (ln as int) < lines[0].line_number {
        seq![LineCount { line_number: ln, count: c }] + lines
    } else if ln == lines[0].line_number {
        seq![LineCount { line_number: ln, count: lines[0].count.saturating_add(c) }]
            + lines.drop_first()
    } else {
        seq![lines[0]] + spec_add_line(lines.drop_first(), ln, c)
    }
}

/// When the first `j` entries are below `ln` and the entry at `j` (if any)
/// is not, adding hits line `j` exactly.
proof fn lemma_add_line_at(lines: Seq<LineCount>, ln: u32, c: u64, j: int)
    requires
        0 <= j <= lines.len(),
        forall|k: int| 0 <= k < j ==> lines[k].line_number < ln,
        j < lines.len() ==> ln <= lines[j].line_number,
    ensures
        spec_add_line(lines, ln, c) == if j < lines.len() && lines[j].line_number == ln {
            lines.update(
                j,
                LineCount { line_number: ln, count: lines[j].count.saturating_add(c) },
            )
        } else {
            lines.take(j) + seq![LineCount { line_number: ln, count: c }] + lines.skip(j)
        },
    decreases lines.len(),
{
    if lines.len() == 0 {
        assert(spec_add_line(lines, ln, c) =~= lines.take(j) + seq![
            LineCount { line_number: ln, count: c },
        ] + lines.skip(j));
    } else if j == 0 {
        if lines[0].line_number == ln {
            assert(spec_add_line(lines, ln, c) =~= lines.update(
                0,
                LineCount { line_number: ln, count: lines[0].count.saturating_add(c) },
            ));
        } else {
            assert((ln as int) < lines[0].line_number);
            assert(spec_add_line(lines, ln, c) =~= lines.take(0) + seq![
                LineCount { line_number: ln, count: c },
            ] + lines.skip(0));
        }
    } else {
        let tail = lines.drop_first();
        assert(forall|k: int| 0 <= k < j - 1 ==> tail[k] == lines[k + 1]);
        assert(j - 1 < tail.len() ==> ln <= tail[j - 1].line_number) by {
            if j - 1 < tail.len() {
                assert(tail[j - 1] == lines[j]);
            }
        }
        lemma_add_line_at(tail, ln, c, j - 1);
        if j < lines.len() && lines[j].line_number == ln {
            assert(tail[j - 1] == lines[j]);
            assert(spec_add_line(lines, ln, c) =~= lines.update(
                j,
                LineCount { line_number: ln, count: lines[j].count.saturating_add(c) },
            ));
        } else {
            assert(spec_add_line(lines, ln, c) =~= lines.take(j) + seq![
                LineCount { line_number: ln, count: c },
            ] + lines.skip(j));
        }
    }
}

/// Adds `c` executions of line `ln` to the sorted line-count list.
fn add_line(lines: &mut Vec<LineCount>, ln: u32, c: u64)
    ensures
        final(lines)@ == spec_add_line(old(lines)@, ln, c),
{
    let ghost s = old(lines)@;
    let mut j: usize = 0;
    while j < lines.len() && lines[j].line_number < ln
        invariant
            j <= lines@.len(),
            lines@ == s,
            forall|k: int| 0 <= k < j ==> s[k].line_number < ln,
        decreases lines@.len() - j,
    {
        j = j + 1;
    }
    proof {
        lemma_add_line_at(s, ln, c, j as int);
    }
    if j < lines.len() && lines[j].line_number == ln {
        let merged = lines[j].count.saturating_add(c);
        lines.set(j, LineCount { line_number: ln, count: merged });
    } else {
        lines.insert(j, LineCount { line_number: ln, count: c });
        proof {
            assert(lines@ =~= s.take(j as int) + seq![LineCount { line_number: ln, count: c }]
                + s.skip(j as int));
        }
    }
}

/// The coverage list with one resolved function appended under its source
/// path; a function whose path has no entry contributes nothing.
pub open spec fn spec_append_function(
    files: Seq<FileCoverageView>,
    f: FunctionNotesView,
    count: u64,
) -> Seq<FileCoverageView> {
    let idx = spec_find_file(files, f.src_path, 0);
    if idx < files.len() {
        files.update(
            idx,
            FileCoverageView {
                functions: files[idx].functions.push(
                    FunctionCoverageView { name: f.name, start_line: f.line_number, count },
                ),
                ..files[idx]
            },
        )
    } else {
        files
    }
}

/// The coverage list with `c` executions of line `ln` added under source
/// path `p`; a path with no entry contributes nothing.
pub open spec fn spec_add_line_hit(
    files: Seq<FileCoverageView>,
    p: Seq<char>,
    ln: u32,
    c: u64,
) -> Seq<FileCoverageView> {
    let idx = spec_find_file(files, p, 0);
    if idx < files.len() {
        files.update(
            idx,
            FileCoverageView { lines: spec_add_line(files[idx].lines, ln, c), ..files[idx] },
        )
    } else {
        files
    }
}

/// The first `k` line attributions of a function folded into the coverage:
/// each one adds its block's execution count to its line, under its own
/// source path; an attribution naming a block that does not exist
/// contributes nothing.
pub open spec fn spec_accumulate_lines(
    files: Seq<FileCoverageView>,
    lines: Seq<LineRecordView>,
    k: int,
    bc: Seq<u64>,
) -> Seq<FileCoverageView>
    decreases k,
{
    if k <= 0 {
        files
    } else {
        let prev = spec_accumulate_lines(files, lines, k - 1, bc);
        let l = lines[k - 1];
        if (l.block as int) < bc.len() {
            spec_add_line_hit(prev, l.src_path, l.line_number, bc[l.block as int])
        } else {
            prev
        }
    }
}

/// The first data-file entry for function `id`, scanning from `i`; the
/// entry count when there is none.
pub open spec fn spec_find_data(ds: Seq<DataFunctionView>, id: u32, i: int) -> int
    decreases ds.len() - i,
{
    if i >= ds.len() {
        ds.len() as int
    } else if ds[i].identifier == id {
        i
    } else {
        spec_find_data(ds, id, i + 1)
    }
}

/// The raw counts recorded for function `id`: those of the first data-file
/// entry with that identifier, or none when the data file has no entry.
pub open spec fn spec_counts_for(ds: Seq<DataFunctionView>, id: u32) -> Seq<u64> {
    let i = spec_find_data(ds, id, 0);
    if i < ds.len() {
        ds[i].counts
    } else {
        Seq::empty()
    }
}

/// Whether the data file's checksums for this function, when it has an
/// entry at all, match the notes file's.
pub open spec fn spec_checksum_ok(f: FunctionNotesView, ds: Seq<DataFunctionView>) -> bool {
    let i = spec_find_data(ds, f.identifier, 0);
    i < ds.len() ==> (ds[i].line_number_checksum == f.line_number_checksum
        && ds[i].config_checksum == f.config_checksum)
}

/// One function joined into the coverage: checksums verified, arc counts
/// resolved, the function's hit count recorded under its path, and every
/// line attribution added.
pub open spec fn spec_resolve_step(
    files: Seq<FileCoverageView>,
    f: FunctionNotesView,
    d: DataModelView,
) -> Result<Seq<FileCoverageView>, ParseError> {
    if !spec_checksum_ok(f, d.functions) {
        Err(ParseError { code: CHECKSUM_MISMATCH })
    } else {
        match spec_resolve_function(f, spec_counts_for(d.functions, f.identifier)) {
            Err(e) => Err(e),
            Ok(rc) => {
                let bc = spec_block_counts(f.arcs, rc, f.blocks.len());
                let entry = if f.blocks.len() > 0 {
                    bc[0]
                } else {
                    0u64
                };
                Ok(
                    spec_accumulate_lines(
                        spec_append_function(files, f, entry),
                        f.lines,
                        f.lines.len() as int,
                        bc,
                    ),
                )
            },
        }
    }
}

/// The functions of the notes file joined into the coverage one at a time,
/// in declaration order.
pub open spec fn spec_resolve_loop(
    files: Seq<FileCoverageView>,
    functions: Seq<FunctionNotesView>,
    i: int,
    d: DataModelView,
) -> Result<Seq<FileCoverageView>, ParseError>
    decreases functions.len() - i,
{
    if i >= functions.len() {
        Ok(files)
    } else {
        match spec_resolve_step(files, functions[i], d) {
            Err(e) => Err(e),
            Ok(files2) => spec_resolve_loop(files2, functions, i + 1, d),
        }
    }
}

/// One empty coverage entry per source path, in the given (sorted) order.
pub open spec fn spec_init_files(paths: Seq<Seq<char>>) -> Seq<FileCoverageView> {
    paths.map_values(
        |p: Seq<char>| FileCoverageView { src_path: p, functions: Seq::empty(), lines: Seq::empty() },
    )
}

/// What resolving a notes model against a data model yields: the coverage
/// of every source path, or the first error.
pub open spec fn spec_resolve(n: NotesModelView, d: DataModelView) -> Result<
    CoverageModelView,
    ParseError,
> {
    match spec_resolve_loop(spec_init_files(n.source_paths), n.functions, 0, d) {
        Err(e) => Err(e),
        Ok(files) => Ok(CoverageModelView { files }),
    }
}

/// Finds the data-file entry for a function identifier.
fn find_data(ds: &Vec<DataFunction>, id: u32) -> (r: usize)
    ensures
        r == spec_find_data(ds@.map_values(|f: DataFunction| f@), id, 0),
        r <= ds@.len(),
{
    let ghost dv = ds@.map_values(|f: DataFunction| f@);
    let mut i: usize = 0;
    while i < ds.len()
        invariant
            i <= ds@.len(),
            dv == ds@.map_values(|f: DataFunction| f@),
            dv.len() == ds@.len(),
            spec_find_data(dv, id, 0) == spec_find_data(dv, id, i as int),
        decreases ds@.len() - i,
    {
        if ds[i].identifier == id {
            proof {
                assert(dv[i as int] == ds@[i as int]@);
            }
            return i;
        }
        proof {
            assert(dv[i as int] == ds@[i as int]@);
        }
        i = i + 1;
    }
    ds.len()
}

/// Records one resolved function's hit count under its source path.
fn push_function_cov(files: &mut Vec<FileCoverage>, f: &FunctionNotes, entry: u64)
    ensures
        final(files)@.map_values(|x: FileCoverage| x@) == spec_append_function(
            old(files)@.map_values(|x: FileCoverage| x@),
            f@,
            entry,
        ),
{
    let ghost filesv = old(files)@.map_values(|x: FileCoverage| x@);
    let idx = find_file(files, &f.src_path);
    if idx < files.len() {
        let mut file = files.remove(idx);
        proof {
            assert(filesv[idx as int] == old(files)@[idx as int]@);
        }
        file.functions.push(
            FunctionCoverage { name: f.name.clone(), start_line: f.line_number, count: entry },
        );
        let ghost nf = file@;
        proof {
            assert(nf.functions =~= filesv[idx as int].functions.push(
                FunctionCoverageView { name: f@.name, start_line: f@.line_number, count: entry },
            ));
            assert(nf == (FileCoverageView {
                functions: filesv[idx as int].functions.push(
                    FunctionCoverageView {
                        name: f@.name,
                        start_line: f@.line_number,
                        count: entry,
                    },
                ),
                ..filesv[idx as int]
            }));
        }
        files.insert(idx, file);
        proof {
            assert(files@ =~= old(files)@.update(idx as int, files@[idx as int]));
            assert(files@[idx as int]@ == nf);
            let newv = files@.map_values(|x: FileCoverage| x@);
            assert forall|m: int| 0 <= m < newv.len() implies newv[m] == spec_append_function(
                filesv,
                f@,
                entry,
            )[m] by {
                assert(newv[m] == files@[m]@);
                assert(filesv[m] == old(files)@[m]@);
                if m != idx {
                    assert(files@[m] == old(files)@[m]);
                }
            }
            assert(newv =~= spec_append_function(filesv, f@, entry));
        }
    }
}

/// Adds `c` executions of line `ln` under source path `p`.
fn add_line_hit(files: &mut Vec<FileCoverage>, p: &String, ln: u32, c: u64)
    ensures
        final(files)@.map_values(|x: FileCoverage| x@) == spec_add_line_hit(
            old(files)@.map_values(|x: FileCoverage| x@),
            p@,
            ln,
            c,
        ),
{
    let ghost filesv = old(files)@.map_values(|x: FileCoverage| x@);
    let idx = find_file(files, p);
    if idx < files.len() {
        let mut file = files.remove(idx);
        proof {
            assert(filesv[idx as int] == old(files)@[idx as int]@);
        }
        add_line(&mut file.lines, ln, c);
        let ghost nf = file@;
        proof {
            assert(nf == (FileCoverageView {
                lines: spec_add_line(filesv[idx as int].lines, ln, c),
                ..filesv[idx as int]
            }));
        }
        files.insert(idx, file);
        proof {
            assert(files@ =~= old(files)@.update(idx as int, files@[idx as int]));
            assert(files@[idx as int]@ == nf);
            let newv = files@.map_values(|x: FileCoverage| x@);
            assert forall|m: int| 0 <= m < newv.len() implies newv[m] == spec_add_line_hit(
                filesv,
                p@,
                ln,
                c,
            )[m] by {
                assert(newv[m] == files@[m]@);
                assert(filesv[m] == old(files)@[m]@);
                if m != idx {
                    assert(files@[m] == old(files)@[m]);
                }
            }
            assert(newv =~= spec_add_line_hit(filesv, p@, ln, c));
        }
    }
}

/// Joins one function into the coverage, exactly as the specification
/// does. On an error the coverage is left untouched: no partial counts of
/// a failed function ever enter it.
fn resolve_step(files: &mut Vec<FileCoverage>, f: &FunctionNotes, data: &DataModel) -> (r: Result<
    (),
    ParseError,
>)
    ensures
        r matches Ok(()) ==> spec_resolve_step(
            old(files)@.map_values(|x: FileCoverage| x@),
            f@,
            data@,
        ) == Ok::<Seq<FileCoverageView>, ParseError>(
            final(files)@.map_values(|x: FileCoverage| x@),
        ),
        r matches Err(e) ==> spec_resolve_step(
            old(files)@.map_values(|x: FileCoverage| x@),
            f@,
            data@,
        ) == Err::<Seq<FileCoverageView>, ParseError>(e) && final(files)@ == old(files)@,
{
    let ghost filesv = old(files)@.map_values(|x: FileCoverage| x@);
    let di = find_data(&data.functions, f.identifier);
    let empty: Vec<u64> = Vec::new();
    let raw: &Vec<u64> = if di < data.functions.len() {
        let dref = &data.functions[di];
        if dref.line_number_checksum != f.line_number_checksum || dref.config_checksum
            != f.config_checksum {
            proof {
                assert(data@.functions[di as int] == data.functions@[di as int]@);
            }
            return Err(ParseError::new(CHECKSUM_MISMATCH));
        }
        &dref.counts
    } else {
        &empty
    };
    proof {
        if di < data.functions.len() {
            assert(data@.functions[di as int] == data.functions@[di as int]@);
        }
        assert(raw@ == spec_counts_for(data@.functions, f@.identifier));
    }
    let rc = match resolve_function_counts(f, raw) {
        Ok(rc) => rc,
        Err(e) => {
            return Err(e);
        },
    };
    let bc = block_counts(&f.arcs, &rc, f.blocks.len());
    let entry: u64 = if f.blocks.len() > 0 {
        bc[0]
    } else {
        0
    };
    push_function_cov(files, f, entry);
    let ghost files1 = spec_append_function(filesv, f@, entry);
    let mut k: usize = 0;
    while k < f.lines.len()
        invariant
            k <= f.lines@.len(),
            f@.lines.len() == f.lines@.len(),
            bc@ == spec_block_counts(f@.arcs, rc@, f@.blocks.len()),
            files@.map_values(|x: FileCoverage| x@) == spec_accumulate_lines(
                files1,
                f@.lines,
                k as int,
                bc@,
            ),
        decreases f.lines@.len() - k,
    {
        let l = &f.lines[k];
        proof {
            assert(f@.lines[k as int] == f.lines@[k as int]@);
        }
        if (l.block as usize) < bc.len() {
            let c = bc[l.block as usize];
            add_line_hit(files, &l.src_path, l.line_number, c);
        }
        k = k + 1;
    }
    Ok(())
}

/// Joins the two decoded models: resolves every function's arc counts and
/// accumulates per-line and per-function hit counts, grouped by source
/// path, the paths in the notes model's (sorted) order.
pub fn resolve(notes: &NotesModel, data: &DataModel) -> (r: Result<CoverageModel, ParseError>)
    ensures
        r matches Ok(c) ==> spec_resolve(notes@, data@) == Ok::<CoverageModelView, ParseError>(c@),
        r matches Err(e) ==> spec_resolve(notes@, data@) == Err::<CoverageModelView, ParseError>(
            e,
        ),
{
    let mut files: Vec<FileCoverage> = Vec::new();
    let mut i: usize = 0;
    let ghost pv = notes@.source_paths;
    proof {
        assert(files@.map_values(|x: FileCoverage| x@) =~= spec_init_files(pv.take(0)));
    }
    while i < notes.source_paths.len()
        invariant
            i <= notes.source_paths@.len(),
            pv == notes@.source_paths,
            pv.len() == notes.source_paths@.len(),
            files@.len() == i,
            files@.map_values(|x: FileCoverage| x@) == spec_init_files(pv.take(i as int)),
        decreases notes.source_paths@.len() - i,
    {
        let ghost before = files@;
        files.push(
            FileCoverage {
                src_path: notes.source_paths[i].clone(),
                functions: Vec::new(),
                lines: Vec::new(),
            },
        );
        proof {
            assert(pv[i as int] == notes.source_paths@[i as int]@);
            let fv = files@.last()@;
            assert(fv.functions =~= Seq::<FunctionCoverageView>::empty());
            assert(fv.lines =~= Seq::<LineCount>::empty());
            assert(fv == (FileCoverageView {
                src_path: pv[i as int],
                functions: Seq::empty(),
                lines: Seq::empty(),
            }));
            let newv = files@.map_values(|x: FileCoverage| x@);
            assert forall|m: int| 0 <= m < newv.len() implies newv[m] == spec_init_files(
                pv.take(i + 1),
            )[m] by {
                assert(newv[m] == files@[m]@);
                if m < i {
                    assert(files@[m] == before[m]);
                    assert(before.map_values(|x: FileCoverage| x@)[m] == before[m]@);
                }
            }
            assert(newv =~= spec_init_files(pv.take(i + 1)));
        }
        i = i + 1;
    }
    proof {
        assert(pv.take(pv.len() as int) =~= pv);
    }
    let ghost init = spec_init_files(notes@.source_paths);
    let mut j: usize = 0;
    while j < notes.functions.len()
        invariant
            j <= notes.functions@.len(),
            notes@.functions.len() == notes.functions@.len(),
            init == spec_init_files(notes@.source_paths),
            spec_resolve_loop(
                files@.map_values(|x: FileCoverage| x@),
                notes@.functions,
                j as int,
                data@,
            ) == spec_resolve_loop(init, notes@.functions, 0, data@),
        decreases notes.functions@.len() - j,
    {
        proof {
            assert(notes@.functions[j as int] == notes.functions@[j as int]@);
        }
        match resolve_step(&mut files, &notes.functions[j], data) {
            Ok(()) => {},
            Err(e) => {
                return Err(e);
            },
        }
        j = j + 1;
    }
    Ok(CoverageModel { files })
}

} // verus!
