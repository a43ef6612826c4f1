//! The flow resolver: reconstructs every arc's execution count from the raw
//! counts of the instrumented arcs and the flow-conservation constraint that
//! every block other than the entry block passes on exactly the flow it
//! receives.
//!
//! The raw counts are bound, in notes-declaration order, to the arcs that
//! are not on the spanning tree. The remaining counts are propagated: a
//! conservation equation with exactly one unresolved incident arc determines
//! that arc, and passes over all blocks repeat until everything is resolved
//! or no progress is possible. A graph that leaves an arc unresolved, or
//! whose fully resolved counts violate conservation, is rejected.

use vstd::prelude::*;
use crate::errors::{ParseError, COUNT_ARITY_MISMATCH, UNRESOLVABLE_FLOW_GRAPH};
use crate::model::{ArcNotes, FunctionNotes, FunctionNotesView};

verus! {

/// What a possibly-unresolved arc contributes to a sum: nothing until it is
/// resolved.
pub open spec fn opt_val(c: Option<u64>) -> int {
    match c {
        Some(v) => v as int,
        None => 0,
    }
}

/// Sum of the resolved counts of the arcs among the first `k` that end at
/// block `b`.
pub open spec fn in_sum(arcs: Seq<ArcNotes>, counts: Seq<Option<u64>>, b: int, k: int) -> int
    decreases k,
{
    if k <= 0 {
        0
    } else {
        in_sum(arcs, counts, b, k - 1) + if arcs[k - 1].destination_block == b {
            opt_val(counts[k - 1])
        } else {
            0
        }
    }
}

/// Sum of the resolved counts of the arcs among the first `k` that leave
/// block `b`.
pub open spec fn out_sum(arcs: Seq<ArcNotes>, counts: Seq<Option<u64>>, b: int, k: int) -> int
    decreases k,
{
    if k <= 0 {
        0
    } else {
        out_sum(arcs, counts, b, k - 1) + if arcs[k - 1].source_block == b {
            opt_val(counts[k - 1])
        } else {
            0
        }
    }
}

/// How many of the first `k` arcs that end at block `b` are unresolved.
pub open spec fn unknown_in(arcs: Seq<ArcNotes>, counts: Seq<Option<u64>>, b: int, k: int) -> int
    decreases k,
{
    if k <= 0 {
        0
    } else {
        unknown_in(arcs, counts, b, k - 1) + if arcs[k - 1].destination_block == b && counts[k
            - 1] is None {
            1int
        } else {
            0int
        }
    }
}

/// How many of the first `k` arcs that leave block `b` are unresolved.
pub open spec fn unknown_out(arcs: Seq<ArcNotes>, counts: Seq<Option<u64>>, b: int, k: int) -> int
    decreases k,
{
    if k <= 0 {
        0
    } else {
        unknown_out(arcs, counts, b, k - 1) + if arcs[k - 1].source_block == b && counts[k
            - 1] is None {
            1int
        } else {
            0int
        }
    }
}

/// The first unresolved arc incident to block `b`, scanning from `i`; the
/// arc count when there is none.
pub open spec fn find_unknown(arcs: Seq<ArcNotes>, counts: Seq<Option<u64>>, b: int, i: int) -> int
    decreases arcs.len() - i,
{
    if i >= arcs.len() {
        arcs.len() as int
    } else if (arcs[i].source_block == b || arcs[i].destination_block == b) && counts[i] is None {
        i
    } else {
        find_unknown(arcs, counts, b, i + 1)
    }
}

/// One attempt at block `b`'s conservation equation: when exactly one
/// incident arc term is unresolved (a self-loop counts as two terms), the
/// equation determines it, provided the value fits an unsigned 64-bit
/// count; otherwise nothing changes.
pub open spec fn spec_solve_block(arcs: Seq<ArcNotes>, counts: Seq<Option<u64>>, b: int) -> Seq<
    Option<u64>,
> {
    let ui = unknown_in(arcs, counts, b, arcs.len() as int);
    let uo = unknown_out(arcs, counts, b, arcs.len() as int);
    if ui + uo == 1 {
        let idx = find_unknown(arcs, counts, b, 0);
        let isum = in_sum(arcs, counts, b, arcs.len() as int);
        let osum = out_sum(arcs, counts, b, arcs.len() as int);
        let v = if ui == 1 {
            osum - isum
        } else {
            isum - osum
        };
        if 0 <= v < 0x1_0000_0000_0000_0000 {
            counts.update(idx, Some(v as u64))
        } else {
            counts
        }
    } else {
        counts
    }
}

/// One pass: the conservation equation of every block but the entry block,
/// in ascending block order.
pub open spec fn spec_pass(
    arcs: Seq<ArcNotes>,
    counts: Seq<Option<u64>>,
    b: int,
    nblocks: int,
) -> Seq<Option<u64>>
    decreases nblocks - b,
{
    if b >= nblocks {
        counts
    } else {
        spec_pass(arcs, spec_solve_block(arcs, counts, b), b + 1, nblocks)
    }
}

/// Repeated passes. One pass per arc suffices to reach the fixed point: a
/// pass that changes anything resolves at least one arc, and a pass that
/// changes nothing is final.
pub open spec fn spec_fix(
    arcs: Seq<ArcNotes>,
    counts: Seq<Option<u64>>,
    nblocks: int,
    fuel: nat,
) -> Seq<Option<u64>>
    decreases fuel,
{
    if fuel == 0 {
        counts
    } else {
        spec_fix(arcs, spec_pass(arcs, counts, 1, nblocks), nblocks, (fuel - 1) as nat)
    }
}

/// How many of the first `k` arcs are instrumented (not on the spanning
/// tree), and so carry a raw count.
pub open spec fn spec_instrumented(arcs: Seq<ArcNotes>, k: int) -> int
    decreases k,
{
    if k <= 0 {
        0
    } else {
        spec_instrumented(arcs, k - 1) + if arcs[k - 1].spec_on_tree() {
            0int
        } else {
            1int
        }
    }
}

/// The initial assignment: the `i`-th instrumented arc takes the `i`-th raw
/// count; spanning-tree arcs start unresolved.
pub open spec fn spec_init_counts(arcs: Seq<ArcNotes>, raw: Seq<u64>) -> Seq<Option<u64>> {
    Seq::new(
        arcs.len(),
        |i: int|
            if arcs[i].spec_on_tree() {
                None
            } else {
                Some(raw[spec_instrumented(arcs, i)])
            },
    )
}

/// Sum of the counts of the arcs among the first `k` that end at block `b`,
/// all counts resolved.
pub open spec fn in_sum64(arcs: Seq<ArcNotes>, counts: Seq<u64>, b: int, k: int) -> int
    decreases k,
{
    if k <= 0 {
        0
    } else {
        in_sum64(arcs, counts, b, k - 1) + if arcs[k - 1].destination_block == b {
            counts[k - 1] as int
        } else {
            0
        }
    }
}

/// Sum of the counts of the arcs among the first `k` that leave block `b`,
/// all counts resolved.
pub open spec fn out_sum64(arcs: Seq<ArcNotes>, counts: Seq<u64>, b: int, k: int) -> int
    decreases k,
{
    if k <= 0 {
        0
    } else {
        out_sum64(arcs, counts, b, k - 1) + if arcs[k - 1].source_block == b {
            counts[k - 1] as int
        } else {
            0
        }
    }
}

/// Flow conservation: every block but the entry block receives exactly the
/// flow it passes on.
pub open spec fn spec_conservation(arcs: Seq<ArcNotes>, counts: Seq<u64>, nblocks: int) -> bool {
    forall|b: int|
        1 <= b < nblocks ==> in_sum64(arcs, counts, b, arcs.len() as int) == out_sum64(
            arcs,
            counts,
            b,
            arcs.len() as int,
        )
}

/// What resolving one function yields: one count per arc, or the error that
/// stops the run. The raw counts must pair off exactly with the
/// instrumented arcs; propagation must resolve every arc; and the resolved
/// counts must satisfy every conservation equation.
pub open spec fn spec_resolve_function(f: FunctionNotesView, raw: Seq<u64>) -> Result<
    Seq<u64>,
    ParseError,
> {
    if spec_instrumented(f.arcs, f.arcs.len() as int) != raw.len() {
        Err(ParseError { code: COUNT_ARITY_MISMATCH })
    } else {
        let fixed = spec_fix(
            f.arcs,
            spec_init_counts(f.arcs, raw),
            f.blocks.len() as int,
            f.arcs.len() as nat,
        );
        if exists|i: int| 0 <= i < fixed.len() && fixed[i] is None {
            Err(ParseError { code: UNRESOLVABLE_FLOW_GRAPH })
        } else {
            let rc = fixed.map_values(|c: Option<u64>| c.unwrap());
            if !spec_conservation(f.arcs, rc, f.blocks.len() as int) {
                Err(ParseError { code: UNRESOLVABLE_FLOW_GRAPH })
            } else {
                Ok(rc)
            }
        }
    }
}

/// A partial sum of at most `i` unsigned 64-bit terms stays below the
/// 128-bit bound.
proof fn lemma_partial_sum_bound(i: int)
    requires
        0 <= i <= 0x1_0000_0000_0000_0000,
    ensures
        i * 0xFFFF_FFFF_FFFF_FFFF < 0x1_0000_0000_0000_0000_0000_0000_0000_0000,
{
    assert(i * 0xFFFF_FFFF_FFFF_FFFF <= 0x1_0000_0000_0000_0000 * 0xFFFF_FFFF_FFFF_FFFF)
        by (nonlinear_arith)
        requires
            0 <= i <= 0x1_0000_0000_0000_0000,
    ;
}

/// Attempts block `b`'s conservation equation, exactly as the
/// specification does.
fn solve_block(arcs: &Vec<ArcNotes>, counts: &mut Vec<Option<u64>>, b: usize)
    requires
        old(counts)@.len() == arcs@.len(),
    ensures
        final(counts)@ == spec_solve_block(arcs@, old(counts)@, b as int),
        final(counts)@.len() == arcs@.len(),
{
    let n = arcs.len();
    let mut ui: usize = 0;
    let mut uo: usize = 0;
    let mut isum: u128 = 0;
    let mut osum: u128 = 0;
    let mut fu: usize = 0;
    let mut found = false;
    let mut i: usize = 0;
    while i < n
        invariant
            n == arcs@.len(),
            counts@.len() == arcs@.len(),
            counts@ == old(counts)@,
            i <= n,
            n <= usize::MAX,
            ui == unknown_in(arcs@, counts@, b as int, i as int),
            uo == unknown_out(arcs@, counts@, b as int, i as int),
            isum == in_sum(arcs@, counts@, b as int, i as int),
            osum == out_sum(arcs@, counts@, b as int, i as int),
            isum <= i * 0xFFFF_FFFF_FFFF_FFFF,
            osum <= i * 0xFFFF_FFFF_FFFF_FFFF,
            ui <= i,
            uo <= i,
            found == (ui + uo > 0),
            found ==> fu < n && counts@[fu as int] is None && (arcs@[fu as int].source_block == b
                || arcs@[fu as int].destination_block == b),
            !found ==> find_unknown(arcs@, counts@, b as int, 0) == find_unknown(
                arcs@,
                counts@,
                b as int,
                i as int,
            ),
            found ==> find_unknown(arcs@, counts@, b as int, 0) == fu as int,
        decreases n - i,
    {
        let a = arcs[i];
        let is_in = (a.destination_block as u64) == (b as u64);
        let is_out = (a.source_block as u64) == (b as u64);
        proof {
            lemma_partial_sum_bound(i + 1);
        }
        match counts[i] {
            None => {
                if is_in || is_out {
                    if !found {
                        fu = i;
                        found = true;
                    }
                    if is_in {
                        ui = ui + 1;
                    }
                    if is_out {
                        uo = uo + 1;
                    }
                }
            },
            Some(v) => {
                if is_in {
                    isum = isum + (v as u128);
                }
                if is_out {
                    osum = osum + (v as u128);
                }
            },
        }
        i = i + 1;
    }
    if (ui == 1 && uo == 0) || (ui == 0 && uo == 1) {
        if ui == 1 {
            if osum >= isum {
                let d = osum - isum;
                if d <= 0xFFFF_FFFF_FFFF_FFFFu128 {
                    counts.set(fu, Some(d as u64));
                }
            }
        } else {
            if isum >= osum {
                let d = isum - osum;
                if d <= 0xFFFF_FFFF_FFFF_FFFFu128 {
                    counts.set(fu, Some(d as u64));
                }
            }
        }
    }
}

/// Runs one pass over every block but the entry block, exactly as the
/// specification does.
fn do_pass(arcs: &Vec<ArcNotes>, counts: &mut Vec<Option<u64>>, nblocks: usize)
    requires
        old(counts)@.len() == arcs@.len(),
    ensures
        final(counts)@ == spec_pass(arcs@, old(counts)@, 1, nblocks as int),
        final(counts)@.len() == arcs@.len(),
{
    let mut b: usize = 1;
    while b < nblocks
        invariant
            1 <= b,
            counts@.len() == arcs@.len(),
            spec_pass(arcs@, counts@, b as int, nblocks as int) == spec_pass(
                arcs@,
                old(counts)@,
                1,
                nblocks as int,
            ),
        decreases nblocks - b,
    {
        solve_block(arcs, counts, b);
        b = b + 1;
    }
}

/// Instrumented arcs are counted in prefix order.
proof fn lemma_instrumented_monotone(arcs: Seq<ArcNotes>, i: int, k: int)
    requires
        0 <= i <= k <= arcs.len(),
    ensures
        spec_instrumented(arcs, i) <= spec_instrumented(arcs, k),
        spec_instrumented(arcs, k) <= k,
        spec_instrumented(arcs, i) >= 0,
    decreases k,
{
    if k > 0 {
        if i == k {
            lemma_instrumented_monotone(arcs, 0, k - 1);
        } else {
            lemma_instrumented_monotone(arcs, i, k - 1);
        }
    }
}

/// Resolves every arc count of one function from its raw counts, exactly
/// as the specification does.
pub fn resolve_function_counts(f: &FunctionNotes, raw: &Vec<u64>) -> (r: Result<
    Vec<u64>,
    ParseError,
>)
    ensures
        r matches Ok(rc) ==> spec_resolve_function(f@, raw@) == Ok::<Seq<u64>, ParseError>(rc@)
            && rc@.len() == f@.arcs.len(),
        r matches Err(e) ==> spec_resolve_function(f@, raw@) == Err::<Seq<u64>, ParseError>(e),
{
    let n = f.arcs.len();
    let mut cnt: usize = 0;
    let mut i: usize = 0;
    while i < n
        invariant
            n == f.arcs@.len(),
            i <= n,
            cnt <= i,
            cnt == spec_instrumented(f.arcs@, i as int),
        decreases n - i,
    {
        if !f.arcs[i].is_on_tree() {
            cnt = cnt + 1;
        }
        i = i + 1;
    }
    if cnt != raw.len() {
        return Err(ParseError::new(COUNT_ARITY_MISMATCH));
    }
    let mut counts: Vec<Option<u64>> = Vec::new();
    let mut j: usize = 0;
    let mut i: usize = 0;
    while i < n
        invariant
            n == f.arcs@.len(),
            i <= n,
            j == spec_instrumented(f.arcs@, i as int),
            spec_instrumented(f.arcs@, n as int) == raw@.len(),
            counts@.len() == i,
            forall|m: int| 0 <= m < i ==> counts@[m] == spec_init_counts(f.arcs@, raw@)[m],
        decreases n - i,
    {
        proof {
            lemma_instrumented_monotone(f.arcs@, i as int, n as int);
        }
        if f.arcs[i].is_on_tree() {
            counts.push(None);
        } else {
            proof {
                lemma_instrumented_monotone(f.arcs@, i + 1, n as int);
            }
            counts.push(Some(raw[j]));
            j = j + 1;
        }
        i = i + 1;
    }
    proof {
        assert(counts@ =~= spec_init_counts(f.arcs@, raw@));
    }
    let ghost init = spec_init_counts(f.arcs@, raw@);
    let nblocks = f.blocks.len();
    let mut pass: usize = 0;
    while pass < n
        invariant
            n == f.arcs@.len(),
            pass <= n,
            counts@.len() == n,
            spec_fix(f.arcs@, counts@, nblocks as int, (n - pass) as nat) == spec_fix(
                f.arcs@,
                init,
                nblocks as int,
                n as nat,
            ),
        decreases n - pass,
    {
        do_pass(&f.arcs, &mut counts, nblocks);
        pass = pass + 1;
    }
    let ghost fixed = spec_fix(f.arcs@, init, nblocks as int, n as nat);
    proof {
        assert(counts@ == fixed);
    }
    let mut rc: Vec<u64> = Vec::new();
    let mut i: usize = 0;
    while i < n
        invariant
            n == f.arcs@.len(),
            i <= n,
            counts@ == fixed,
            counts@.len() == n,
            nblocks == f.blocks@.len(),
            spec_instrumented(f.arcs@, n as int) == raw@.len(),
            fixed == spec_fix(
                f.arcs@,
                spec_init_counts(f.arcs@, raw@),
                nblocks as int,
                n as nat,
            ),
            rc@.len() == i,
            forall|m: int| 0 <= m < i ==> counts@[m] == Some(rc@[m]),
        decreases n - i,
    {
        match counts[i] {
            None => {
                proof {
                    assert(fixed[i as int] is None);
                    assert(exists|m: int| 0 <= m < fixed.len() && fixed[m] is None);
                }
                return Err(ParseError::new(UNRESOLVABLE_FLOW_GRAPH));
            },
            Some(v) => {
                rc.push(v);
                proof {
                    assert(counts@[i as int] == Some(rc@[i as int]));
                }
            },
        }
        i = i + 1;
    }
    proof {
        assert forall|m: int| 0 <= m < fixed.len() implies fixed[m] is Some by {
            assert(counts@[m] == Some(rc@[m]));
        }
        assert(rc@ =~= fixed.map_values(|c: Option<u64>| c.unwrap()));
    }
    let mut b: usize = 1;
    while b < nblocks
        invariant
            1 <= b,
            n == f.arcs@.len(),
            nblocks == f.blocks@.len(),
            rc@.len() == n,
            rc@ == fixed.map_values(|c: Option<u64>| c.unwrap()),
            !(exists|m: int| 0 <= m < fixed.len() && fixed[m] is None),
            counts@ == fixed,
            spec_instrumented(f.arcs@, n as int) == raw@.len(),
            fixed == spec_fix(
                f.arcs@,
                spec_init_counts(f.arcs@, raw@),
                nblocks as int,
                n as nat,
            ),
            forall|m: int|
                1 <= m < b ==> in_sum64(f.arcs@, rc@, m, n as int) == out_sum64(
                    f.arcs@,
                    rc@,
                    m,
                    n as int,
                ),
        decreases nblocks - b,
    {
        let isum = in_sum_exec(&f.arcs, &rc, b);
        let osum = out_sum_exec(&f.arcs, &rc, b);
        if isum != osum {
            proof {
                assert(in_sum64(f.arcs@, rc@, b as int, n as int) != out_sum64(
                    f.arcs@,
                    rc@,
                    b as int,
                    n as int,
                ));
                assert(!spec_conservation(f.arcs@, rc@, nblocks as int));
            }
            return Err(ParseError::new(UNRESOLVABLE_FLOW_GRAPH));
        }
        b = b + 1;
    }
    proof {
        assert(spec_conservation(f.arcs@, rc@, nblocks as int));
    }
    Ok(rc)
}

/// Sums the counts of the arcs into block `b`.
pub(crate) fn in_sum_exec(arcs: &Vec<ArcNotes>, rc: &Vec<u64>, b: usize) -> (s: u128)
    requires
        rc@.len() == arcs@.len(),
    ensures
        s == in_sum64(arcs@, rc@, b as int, arcs@.len() as int),
{
    let n = arcs.len();
    let mut s: u128 = 0;
    let mut i: usize = 0;
    while i < n
        invariant
            n == arcs@.len(),
            rc@.len() == arcs@.len(),
            i <= n,
            n <= usize::MAX,
            s == in_sum64(arcs@, rc@, b as int, i as int),
            s <= i * 0xFFFF_FFFF_FFFF_FFFF,
        decreases n - i,
    {
        proof {
            lemma_partial_sum_bound(i + 1);
        }
        if (arcs[i].destination_block as u64) == (b as u64) {
            s = s + (rc[i] as u128);
        }
        i = i + 1;
    }
    s
}

/// Sums the counts of the arcs out of block `b`.
pub(crate) fn out_sum_exec(arcs: &Vec<ArcNotes>, rc: &Vec<u64>, b: usize) -> (s: u128)
    requires
        rc@.len() == arcs@.len(),
    ensures
        s == out_sum64(arcs@, rc@, b as int, arcs@.len() as int),
{
    let n = arcs.len();
    let mut s: u128 = 0;
    let mut i: usize = 0;
    while i < n
        invariant
            n == arcs@.len(),
            rc@.len() == arcs@.len(),
            i <= n,
            n <= usize::MAX,
            s == out_sum64(arcs@, rc@, b as int, i as int),
            s <= i * 0xFFFF_FFFF_FFFF_FFFF,
        decreases n - i,
    {
        proof {
            lemma_partial_sum_bound(i + 1);
        }
        if (arcs[i].source_block as u64) == (b as u64) {
            s = s + (rc[i] as u128);
        }
        i = i + 1;
    }
    s
}

} // verus!
