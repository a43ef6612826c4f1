//! The report emitter: renders resolved coverage as a text tracefile.
//!
//! For each source path, in the model's (sorted) order: an `SF:` header;
//! `FN:` and `FNDA:` for each function in declaration order; `DA:` for each
//! line in ascending order; the found and hit line totals `LF:` and `LH:`;
//! and the record terminator.

use vstd::prelude::*;
use vstd::string::StringExecFns;
use crate::model::{
    CoverageModel, CoverageModelView, FileCoverage, FileCoverageView, FunctionCoverageView,
    LineCount,
};
use crate::text::{dec_str, u32_to_dec, u64_to_dec};

verus! {

/// The two report lines of one function: its starting line and name, then
/// its execution count and name.
pub open spec fn spec_render_function(fc: FunctionCoverageView) -> Seq<char> {
    "FN:"@ + dec_str(fc.start_line as int) + ","@ + fc.name + "\n"@ + "FNDA:"@ + dec_str(
        fc.count as int,
    ) + ","@ + fc.name + "\n"@
}

/// The report lines of the first `k` functions, in order.
pub open spec fn spec_render_functions(fs: Seq<FunctionCoverageView>, k: int) -> Seq<char>
    decreases k,
{
    if k <= 0 {
        Seq::empty()
    } else {
        spec_render_functions(fs, k - 1) + spec_render_function(fs[k - 1])
    }
}

/// The report line of one source line: its number and execution count.
pub open spec fn spec_render_line(l: LineCount) -> Seq<char> {
    "DA:"@ + dec_str(l.line_number as int) + ","@ + dec_str(l.count as int) + "\n"@
}

/// The report lines of the first `k` source lines, in order.
pub open spec fn spec_render_lines(ls: Seq<LineCount>, k: int) -> Seq<char>
    decreases k,
{
    if k <= 0 {
        Seq::empty()
    } else {
        spec_render_lines(ls, k - 1) + spec_render_line(ls[k - 1])
    }
}

/// How many of the first `k` lines were executed at all.
pub open spec fn spec_hit_lines(ls: Seq<LineCount>, k: int) -> int
    decreases k,
{
    if k <= 0 {
        0
    } else {
        spec_hit_lines(ls, k - 1) + if ls[k - 1].count > 0 {
            1int
        } else {
            0int
        }
    }
}

/// One source path's record: header, functions, lines, line totals, and
/// the terminator.
pub open spec fn spec_render_file(f: FileCoverageView) -> Seq<char> {
    "SF:"@ + f.src_path + "\n"@ + spec_render_functions(f.functions, f.functions.len() as int)
        + spec_render_lines(f.lines, f.lines.len() as int) + "LF:"@ + dec_str(f.lines.len() as int)
        + "\n"@ + "LH:"@ + dec_str(spec_hit_lines(f.lines, f.lines.len() as int)) + "\n"@
        + "end_of_record\n"@
}

/// The records of the first `k` source paths, in order.
pub open spec fn spec_render_files(fs: Seq<FileCoverageView>, k: int) -> Seq<char>
    decreases k,
{
    if k <= 0 {
        Seq::empty()
    } else {
        spec_render_files(fs, k - 1) + spec_render_file(fs[k - 1])
    }
}

/// The whole tracefile.
pub open spec fn spec_render(c: CoverageModelView) -> Seq<char> {
    spec_render_files(c.files, c.files.len() as int)
}

/// Renders one source path's record onto the output.
fn render_file_into(out: &mut String, file: &FileCoverage)
    ensures
        final(out)@ == old(out)@ + spec_render_file(file@),
{
    let ghost start = old(out)@;
    out.append("SF:");
    out.append(file.src_path.as_str());
    out.append("\n");
    let ghost head = start + "SF:"@ + file@.src_path + "\n"@;
    proof {
        assert(out@ == head);
    }
    let mut j: usize = 0;
    while j < file.functions.len()
        invariant
            j <= file.functions@.len(),
            file@.functions.len() == file.functions@.len(),
            out@ == head + spec_render_functions(file@.functions, j as int),
        decreases file.functions@.len() - j,
    {
        let fc = &file.functions[j];
        proof {
            assert(file@.functions[j as int] == file.functions@[j as int]@);
        }
        out.append("FN:");
        let start_line = u32_to_dec(fc.start_line);
        out.append(start_line.as_str());
        out.append(",");
        out.append(fc.name.as_str());
        out.append("\n");
        out.append("FNDA:");
        let count = u64_to_dec(fc.count);
        out.append(count.as_str());
        out.append(",");
        out.append(fc.name.as_str());
        out.append("\n");
        proof {
            assert(out@ == head + spec_render_functions(file@.functions, j + 1));
        }
        j = j + 1;
    }
    let ghost head2 = head + spec_render_functions(file@.functions, file@.functions.len() as int);
    let mut k: usize = 0;
    while k < file.lines.len()
        invariant
            k <= file.lines@.len(),
            file@.lines.len() == file.lines@.len(),
            file@.lines == file.lines@,
            out@ == head2 + spec_render_lines(file@.lines, k as int),
        decreases file.lines@.len() - k,
    {
        let l = file.lines[k];
        out.append("DA:");
        let line_number = u32_to_dec(l.line_number);
        out.append(line_number.as_str());
        out.append(",");
        let count = u64_to_dec(l.count);
        out.append(count.as_str());
        out.append("\n");
        proof {
            assert(out@ == head2 + spec_render_lines(file@.lines, k + 1));
        }
        k = k + 1;
    }
    let mut hits: u64 = 0;
    let mut k: usize = 0;
    while k < file.lines.len()
        invariant
            k <= file.lines@.len(),
            file@.lines.len() == file.lines@.len(),
            file@.lines == file.lines@,
            hits == spec_hit_lines(file@.lines, k as int),
            hits <= k,
        decreases file.lines@.len() - k,
    {
        if file.lines[k].count > 0 {
            hits = hits + 1;
        }
        k = k + 1;
    }
    out.append("LF:");
    let found = u64_to_dec(file.lines.len() as u64);
    out.append(found.as_str());
    out.append("\n");
    out.append("LH:");
    let hit = u64_to_dec(hits);
    out.append(hit.as_str());
    out.append("\n");
    out.append("end_of_record\n");
    proof {
        assert(out@ == start + spec_render_file(file@));
    }
}

/// Renders the whole tracefile.
pub fn render(cov: &CoverageModel) -> (r: String)
    ensures
        r@ == spec_render(cov@),
{
    let mut out = String::new();
    let mut i: usize = 0;
    while i < cov.files.len()
        invariant
            i <= cov.files@.len(),
            cov@.files.len() == cov.files@.len(),
            out@ == spec_render_files(cov@.files, i as int),
        decreases cov.files@.len() - i,
    {
        proof {
            assert(cov@.files[i as int] == cov.files@[i as int]@);
        }
        render_file_into(&mut out, &cov.files[i]);
        i = i + 1;
    }
    out
}

} // verus!
