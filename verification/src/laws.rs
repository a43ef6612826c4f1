//! The library's laws: properties of whole runs, stated over the
//! specification functions that the executable functions are proved
//! against.

use vstd::prelude::*;
use crate::cover::{
    cov_lines_sorted, cov_paths, lines_sorted, spec_accumulate_lines, spec_add_line,
    spec_add_line_hit, spec_append_function, spec_init_files, spec_resolve, spec_resolve_loop,
    spec_resolve_step,
};
use crate::errors::{ParseError, COUNT_ARITY_MISMATCH};
use crate::model::{
    DataModelView, FileCoverageView, FunctionNotesView, LineCount, LineRecordView, NotesModelView,
};
use crate::notes::{spec_all_paths, spec_decode_notes, spec_function_paths};
use crate::paths::{
    lemma_dedup_strict, lemma_sort_paths_sorted, paths_strictly_sorted, spec_dedup,
    spec_sort_paths,
};
use crate::resolve::{spec_conservation, spec_instrumented, spec_resolve_function};

verus! {

/// Conservation invariant: when the flow resolver succeeds on a function
/// graph, every block other than the entry block receives exactly as much
/// flow as it passes on.
pub proof fn lemma_conservation(f: FunctionNotesView, raw: Seq<u64>)
    requires
        spec_resolve_function(f, raw) is Ok,
    ensures
        spec_conservation(
            f.arcs,
            spec_resolve_function(f, raw).unwrap(),
            f.blocks.len() as int,
        ),
{
}

/// Determinism: resolution is a function of the two models' mathematical
/// values alone, so resolving the same pair twice yields identical
/// coverage.
pub proof fn lemma_resolve_deterministic(
    n1: NotesModelView,
    d1: DataModelView,
    n2: NotesModelView,
    d2: DataModelView,
)
    requires
        n1 == n2,
        d1 == d2,
    ensures
        spec_resolve(n1, d1) == spec_resolve(n2, d2),
{
}

/// Arity check: a function whose raw-count sequence does not pair off with
/// its instrumented arcs resolves to the count-arity error, and to nothing
/// else.
pub proof fn lemma_arity_mismatch(f: FunctionNotesView, raw: Seq<u64>)
    requires
        spec_instrumented(f.arcs, f.arcs.len() as int) != raw.len(),
    ensures
        spec_resolve_function(f, raw) == Err::<Seq<u64>, ParseError>(
            ParseError { code: COUNT_ARITY_MISMATCH },
        ),
{
}

/// Conversely, a resolution that succeeded consumed exactly one raw count
/// per instrumented arc.
pub proof fn lemma_resolved_arity(f: FunctionNotesView, raw: Seq<u64>)
    requires
        spec_resolve_function(f, raw) is Ok,
    ensures
        spec_instrumented(f.arcs, f.arcs.len() as int) == raw.len(),
{
}

/// Adding a count keeps the line list sorted; every entry is either at or
/// above the added line, or was already present at the front's height.
proof fn lemma_add_line_sorted(ls: Seq<LineCount>, ln: u32, c: u64)
    requires
        lines_sorted(ls),
    ensures
        lines_sorted(spec_add_line(ls, ln, c)),
        forall|m: int|
            0 <= m < spec_add_line(ls, ln, c).len() ==> spec_add_line(ls, ln, c)[m].line_number
                >= ln || (ls.len() > 0 && spec_add_line(ls, ln, c)[m].line_number
                >= ls[0].line_number),
    decreases ls.len(),
{
    let r = spec_add_line(ls, ln, c);
    if ls.len() == 0 {
        assert(r =~= seq![LineCount { line_number: ln, count: c }]);
    } else if (ln as int) < ls[0].line_number {
        assert(r =~= seq![LineCount { line_number: ln, count: c }] + ls);
        assert forall|i: int, j: int| 0 <= i < j < r.len() implies r[i].line_number
            < r[j].line_number by {
            if i > 0 {
                assert(r[i] == ls[i - 1]);
                assert(r[j] == ls[j - 1]);
            } else {
                assert(r[j] == ls[j - 1]);
                if j > 1 {
                    assert(ls[0].line_number < ls[j - 1].line_number);
                }
            }
        }
    } else if ln == ls[0].line_number {
        assert(r =~= seq![LineCount { line_number: ln, count: ls[0].count.saturating_add(c) }]
            + ls.drop_first());
        assert forall|i: int, j: int| 0 <= i < j < r.len() implies r[i].line_number
            < r[j].line_number by {
            if i > 0 {
                assert(r[i] == ls[i]);
                assert(r[j] == ls[j]);
            } else {
                assert(r[j] == ls[j]);
            }
        }
    } else {
        let tail = ls.drop_first();
        assert(lines_sorted(tail)) by {
            assert forall|i: int, j: int| 0 <= i < j < tail.len() implies tail[i].line_number
                < tail[j].line_number by {
                assert(tail[i] == ls[i + 1]);
                assert(tail[j] == ls[j + 1]);
            }
        }
        lemma_add_line_sorted(tail, ln, c);
        let rt = spec_add_line(tail, ln, c);
        assert(r =~= seq![ls[0]] + rt);
        assert forall|i: int, j: int| 0 <= i < j < r.len() implies r[i].line_number
            < r[j].line_number by {
            if i == 0 {
                assert(r[j] == rt[j - 1]);
                if tail.len() > 0 {
                    assert(tail[0] == ls[1]);
                    assert(ls[0].line_number < ls[1].line_number);
                }
            } else {
                assert(r[i] == rt[i - 1]);
                assert(r[j] == rt[j - 1]);
            }
        }
        assert forall|m: int| 0 <= m < r.len() implies r[m].line_number >= ln || (ls.len() > 0
            && r[m].line_number >= ls[0].line_number) by {
            if m > 0 {
                assert(r[m] == rt[m - 1]);
                if tail.len() > 0 && rt[m - 1].line_number >= tail[0].line_number {
                    assert(tail[0] == ls[1]);
                }
            }
        }
    }
}

/// Adding a line hit changes no source path and keeps every line list
/// sorted.
proof fn lemma_add_line_hit_preserves(files: Seq<FileCoverageView>, p: Seq<char>, ln: u32, c: u64)
    requires
        cov_lines_sorted(files),
    ensures
        cov_lines_sorted(spec_add_line_hit(files, p, ln, c)),
        cov_paths(spec_add_line_hit(files, p, ln, c)) == cov_paths(files),
{
    let r = spec_add_line_hit(files, p, ln, c);
    let idx = crate::cover::spec_find_file(files, p, 0);
    crate::cover::lemma_find_file_bounds(files, p, 0);
    if idx < files.len() {
        lemma_add_line_sorted(files[idx].lines, ln, c);
        assert forall|i: int| 0 <= i < r.len() implies lines_sorted(r[i].lines) by {
            if i != idx {
                assert(r[i] == files[i]);
            }
        }
        assert(cov_paths(r) =~= cov_paths(files));
    } else {
        assert(cov_paths(r) =~= cov_paths(files));
    }
}

/// Recording a function's hit count changes no source path and no line
/// list.
proof fn lemma_append_function_preserves(
    files: Seq<FileCoverageView>,
    f: FunctionNotesView,
    count: u64,
)
    requires
        cov_lines_sorted(files),
    ensures
        cov_lines_sorted(spec_append_function(files, f, count)),
        cov_paths(spec_append_function(files, f, count)) == cov_paths(files),
{
    let r = spec_append_function(files, f, count);
    let idx = crate::cover::spec_find_file(files, f.src_path, 0);
    crate::cover::lemma_find_file_bounds(files, f.src_path, 0);
    if idx < files.len() {
        assert forall|i: int| 0 <= i < r.len() implies lines_sorted(r[i].lines) by {
            if i != idx {
                assert(r[i] == files[i]);
            } else {
                assert(r[i].lines == files[i].lines);
            }
        }
        assert(cov_paths(r) =~= cov_paths(files));
    } else {
        assert(cov_paths(r) =~= cov_paths(files));
    }
}

/// Accumulating a function's line attributions changes no source path and
/// keeps every line list sorted.
proof fn lemma_accumulate_preserves(
    files: Seq<FileCoverageView>,
    lines: Seq<LineRecordView>,
    k: int,
    bc: Seq<u64>,
)
    requires
        cov_lines_sorted(files),
    ensures
        cov_lines_sorted(spec_accumulate_lines(files, lines, k, bc)),
        cov_paths(spec_accumulate_lines(files, lines, k, bc)) == cov_paths(files),
    decreases k,
{
    if k > 0 {
        lemma_accumulate_preserves(files, lines, k - 1, bc);
        let prev = spec_accumulate_lines(files, lines, k - 1, bc);
        let l = lines[k - 1];
        if (l.block as int) < bc.len() {
            lemma_add_line_hit_preserves(prev, l.src_path, l.line_number, bc[l.block as int]);
        }
    }
}

/// One resolution step changes no source path and keeps every line list
/// sorted.
proof fn lemma_resolve_step_preserves(
    files: Seq<FileCoverageView>,
    f: FunctionNotesView,
    d: DataModelView,
)
    requires
        cov_lines_sorted(files),
        spec_resolve_step(files, f, d) is Ok,
    ensures
        cov_lines_sorted(spec_resolve_step(files, f, d).unwrap()),
        cov_paths(spec_resolve_step(files, f, d).unwrap()) == cov_paths(files),
{
    let rc = spec_resolve_function(f, crate::cover::spec_counts_for(d.functions, f.identifier));
    match rc {
        Err(_) => {},
        Ok(rcv) => {
            let bc = crate::cover::spec_block_counts(f.arcs, rcv, f.blocks.len());
            let entry = if f.blocks.len() > 0 {
                bc[0]
            } else {
                0u64
            };
            lemma_append_function_preserves(files, f, entry);
            lemma_accumulate_preserves(
                spec_append_function(files, f, entry),
                f.lines,
                f.lines.len() as int,
                bc,
            );
        },
    }
}

/// The whole resolution loop changes no source path and keeps every line
/// list sorted.
proof fn lemma_resolve_loop_preserves(
    files: Seq<FileCoverageView>,
    functions: Seq<FunctionNotesView>,
    i: int,
    d: DataModelView,
)
    requires
        cov_lines_sorted(files),
        spec_resolve_loop(files, functions, i, d) is Ok,
    ensures
        cov_lines_sorted(spec_resolve_loop(files, functions, i, d).unwrap()),
        cov_paths(spec_resolve_loop(files, functions, i, d).unwrap()) == cov_paths(files),
    decreases functions.len() - i,
{
    if i < functions.len() {
        match spec_resolve_step(files, functions[i], d) {
            Err(_) => {},
            Ok(files2) => {
                lemma_resolve_step_preserves(files, functions[i], d);
                lemma_resolve_loop_preserves(files2, functions, i + 1, d);
            },
        }
    }
}

/// Tracefile ordering: the coverage that resolution produces lists one
/// entry per source path of the notes model, in that same order — sorted
/// ascending when the notes model's path list is sorted — and the lines of
/// every entry are sorted strictly ascending by line number.
pub proof fn lemma_resolve_ordering(n: NotesModelView, d: DataModelView)
    requires
        spec_resolve(n, d) is Ok,
    ensures
        cov_paths(spec_resolve(n, d).unwrap().files) == n.source_paths,
        cov_lines_sorted(spec_resolve(n, d).unwrap().files),
{
    let init = spec_init_files(n.source_paths);
    assert(cov_paths(init) =~= n.source_paths);
    assert(cov_lines_sorted(init)) by {
        assert forall|i: int| 0 <= i < init.len() implies lines_sorted(init[i].lines) by {
            assert(init[i].lines.len() == 0);
        }
    }
    lemma_resolve_loop_preserves(init, n.functions, 0, d);
}

/// Every source path that the functions mention occurs in the collected
/// path list.
proof fn lemma_all_paths_contains(fs: Seq<FunctionNotesView>)
    ensures
        forall|i: int|
            #![trigger fs[i].src_path]
            0 <= i < fs.len() ==> spec_all_paths(fs).contains(fs[i].src_path),
        forall|i: int, j: int|
            #![trigger fs[i].lines[j]]
            0 <= i < fs.len() && 0 <= j < fs[i].lines.len() ==> spec_all_paths(fs).contains(
                fs[i].lines[j].src_path,
            ),
    decreases fs.len(),
{
    if fs.len() > 0 {
        let front = fs.drop_last();
        lemma_all_paths_contains(front);
        let all = spec_all_paths(fs);
        let base = spec_all_paths(front);
        let last = fs[fs.len() - 1];
        assert(all == base + spec_function_paths(last));
        assert forall|i: int| 0 <= i < fs.len() implies all.contains(#[trigger] fs[i].src_path) by {
            if i < fs.len() - 1 {
                assert(front[i] == fs[i]);
                assert(base.contains(fs[i].src_path));
                let k = choose|k: int| 0 <= k < base.len() && base[k] == fs[i].src_path;
                assert(all[k] == fs[i].src_path);
            } else {
                assert(all[base.len() as int] == spec_function_paths(last)[0]);
                assert(spec_function_paths(last)[0] == last.src_path);
            }
        }
        assert forall|i: int, j: int|
            0 <= i < fs.len() && 0 <= j < fs[i].lines.len() implies all.contains(
            (#[trigger] fs[i].lines[j]).src_path,
        ) by {
            if i < fs.len() - 1 {
                assert(front[i] == fs[i]);
                assert(base.contains(fs[i].lines[j].src_path));
                let k = choose|k: int| 0 <= k < base.len() && base[k] == fs[i].lines[j].src_path;
                assert(all[k] == fs[i].lines[j].src_path);
            } else {
                let lp = last.lines.map_values(|l: LineRecordView| l.src_path);
                assert(spec_function_paths(last)[1 + j] == lp[j]);
                assert(all[base.len() + 1 + j] == lp[j]);
                assert(lp[j] == fs[i].lines[j].src_path);
            }
        }
    }
}

/// The derived source path list of a decoded notes model is sorted
/// strictly ascending and contains every path that any function or line
/// attribution mentions.
pub proof fn lemma_decoded_paths(b: Seq<u8>, m: NotesModelView)
    requires
        spec_decode_notes(b) == Ok::<NotesModelView, ParseError>(m),
    ensures
        paths_strictly_sorted(m.source_paths),
        forall|i: int|
            #![trigger m.functions[i].src_path]
            0 <= i < m.functions.len() ==> m.source_paths.contains(m.functions[i].src_path),
        forall|i: int, j: int|
            #![trigger m.functions[i].lines[j]]
            0 <= i < m.functions.len() && 0 <= j < m.functions[i].lines.len()
                ==> m.source_paths.contains(m.functions[i].lines[j].src_path),
{
    let all = spec_all_paths(m.functions);
    let sorted = spec_sort_paths(all);
    lemma_sort_paths_sorted(all);
    lemma_dedup_strict(sorted);
    assert(m.source_paths == spec_dedup(sorted));
    lemma_all_paths_contains(m.functions);
    assert forall|i: int| 0 <= i < m.functions.len() implies m.source_paths.contains(
        (#[trigger] m.functions[i]).src_path,
    ) by {
        assert(all.contains(m.functions[i].src_path));
        assert(sorted.contains(m.functions[i].src_path));
    }
    assert forall|i: int, j: int|
        0 <= i < m.functions.len() && 0 <= j < m.functions[i].lines.len()
            implies m.source_paths.contains((#[trigger] m.functions[i].lines[j]).src_path) by {
        assert(all.contains(m.functions[i].lines[j].src_path));
        assert(sorted.contains(m.functions[i].lines[j].src_path));
    }
}

/// A path among the coverage entries' paths has an entry: looking it up
/// cannot run off the end.
proof fn lemma_contained_path_found(files: Seq<FileCoverageView>, p: Seq<char>, i: int)
    requires
        0 <= i <= files.len(),
        exists|k: int| i <= k < files.len() && files[k].src_path == p,
    ensures
        crate::cover::spec_find_file(files, p, i) < files.len(),
    decreases files.len() - i,
{
    if !(files[i].src_path == p) {
        let k = choose|k: int| i <= k < files.len() && files[k].src_path == p;
        assert(i + 1 <= k);
        lemma_contained_path_found(files, p, i + 1);
    }
}

/// Completeness: resolving a decoded notes model accounts for every
/// function — the coverage holds an entry for every source path that any
/// function or line attribution of the notes model mentions, so no
/// contribution is dropped for want of an entry.
pub proof fn lemma_resolution_is_complete(b: Seq<u8>, m: NotesModelView, d: DataModelView)
    requires
        spec_decode_notes(b) == Ok::<NotesModelView, ParseError>(m),
        spec_resolve(m, d) is Ok,
    ensures
        forall|i: int|
            #![trigger m.functions[i].src_path]
            0 <= i < m.functions.len() ==> crate::cover::spec_find_file(
                spec_resolve(m, d).unwrap().files,
                m.functions[i].src_path,
                0,
            ) < spec_resolve(m, d).unwrap().files.len(),
{
    lemma_decoded_paths(b, m);
    lemma_resolve_ordering(m, d);
    let files = spec_resolve(m, d).unwrap().files;
    assert forall|i: int| 0 <= i < m.functions.len() implies crate::cover::spec_find_file(
        files,
        (#[trigger] m.functions[i]).src_path,
        0,
    ) < files.len() by {
        let p = m.functions[i].src_path;
        assert(m.source_paths.contains(p));
        let k = choose|k: int| 0 <= k < m.source_paths.len() && m.source_paths[k] == p;
        assert(cov_paths(files)[k] == p);
        assert(files[k].src_path == p);
        lemma_contained_path_found(files, p, 0);
    }
}

} // verus!
