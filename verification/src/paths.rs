//! The sorted, duplicate-free list of source paths that a notes file
//! mentions, ordered lexicographically by UTF-8 bytes.

use vstd::prelude::*;
use crate::text::{lemma_text_lt_trichotomy, str_lt, text_lt};
use itertools::Itertools;

verus! {

/// `x` placed into the sorted sequence `s`: before the first element that
/// `x` precedes, after every element equal to it.
pub open spec fn spec_insert_path(s: Seq<Seq<char>>, x: Seq<char>) -> Seq<Seq<char>>
    decreases s.len(),
{
    if s.len() == 0 {
        seq![x]
    } else if text_lt(x, s[0]) {
        seq![x] + s
    } else {
        seq![s[0]] + spec_insert_path(s.drop_first(), x)
    }
}

/// Insertion sort of a sequence of paths.
pub open spec fn spec_sort_paths(s: Seq<Seq<char>>) -> Seq<Seq<char>>
    decreases s.len(),
{
    if s.len() == 0 {
        Seq::empty()
    } else {
        spec_insert_path(spec_sort_paths(s.drop_last()), s.last())
    }
}

/// The sequence with runs of consecutive equal elements collapsed to one.
pub open spec fn spec_dedup(s: Seq<Seq<char>>) -> Seq<Seq<char>>
    decreases s.len(),
{
    if s.len() <= 1 {
        s
    } else if s[0] == s[1] {
        spec_dedup(s.drop_first())
    } else {
        seq![s[0]] + spec_dedup(s.drop_first())
    }
}

/// Every element is at or before every later element.
pub open spec fn paths_sorted(s: Seq<Seq<char>>) -> bool {
    forall|i: int, j: int| 0 <= i < j < s.len() ==> !text_lt(s[j], s[i])
}

/// Every element is strictly before every later element.
pub open spec fn paths_strictly_sorted(s: Seq<Seq<char>>) -> bool {
    forall|i: int, j: int| 0 <= i < j < s.len() ==> text_lt(s[i], s[j])
}

/// Inserting into a sorted sequence keeps it sorted, adds exactly the new
/// element, and grows the length by one.
proof fn lemma_insert_path_sorted(s: Seq<Seq<char>>, x: Seq<char>)
    requires
        paths_sorted(s),
    ensures
        paths_sorted(spec_insert_path(s, x)),
        spec_insert_path(s, x).len() == s.len() + 1,
        forall|p: Seq<char>|
            #![trigger spec_insert_path(s, x).contains(p)]
            #![trigger s.contains(p)]
            spec_insert_path(s, x).contains(p) <==> (s.contains(p) || p == x),
    decreases s.len(),
{
    let r = spec_insert_path(s, x);
    if s.len() == 0 {
        assert(r =~= seq![x]);
        assert(r.contains(x)) by {
            assert(r[0] == x);
        }
        assert forall|p: Seq<char>| r.contains(p) implies (s.contains(p) || p == x) by {
            let k = choose|k: int| 0 <= k < r.len() && r[k] == p;
            assert(k == 0);
        }
    } else if text_lt(x, s[0]) {
        assert(r =~= seq![x] + s);
        assert forall|i: int, j: int| 0 <= i < j < r.len() implies !text_lt(r[j], r[i]) by {
            if i == 0 {
                if j == 1 {
                    lemma_text_lt_trichotomy(x, s[0]);
                } else {
                    lemma_text_lt_trichotomy(r[j], x);
                    if text_lt(r[j], x) {
                        crate::text::lemma_text_lt_transitive(r[j], x, s[0]);
                        assert(!text_lt(s[j - 1], s[0]));
                        assert(false);
                    }
                }
            }
        }
        assert(r.contains(x)) by {
            assert(r[0] == x);
        }
        assert forall|p: Seq<char>| s.contains(p) implies r.contains(p) by {
            let k = choose|k: int| 0 <= k < s.len() && s[k] == p;
            assert(r[k + 1] == p);
        }
        assert forall|p: Seq<char>| r.contains(p) implies (s.contains(p) || p == x) by {
            let k = choose|k: int| 0 <= k < r.len() && r[k] == p;
            if k > 0 {
                assert(s[k - 1] == p);
            }
        }
    } else {
        let tail = s.drop_first();
        assert(paths_sorted(tail)) by {
            assert forall|i: int, j: int| 0 <= i < j < tail.len() implies !text_lt(
                tail[j],
                tail[i],
            ) by {
                assert(tail[j] == s[j + 1]);
                assert(tail[i] == s[i + 1]);
            }
        }
        lemma_insert_path_sorted(tail, x);
        let rt = spec_insert_path(tail, x);
        assert(r =~= seq![s[0]] + rt);
        // s[0] does not come after x (this branch), nor after any element of
        // the tail (sortedness), so it may stay in front
        assert forall|i: int, j: int| 0 <= i < j < r.len() implies !text_lt(r[j], r[i]) by {
            if i == 0 {
                assert(rt.contains(r[j])) by {
                    assert(rt[j - 1] == r[j]);
                }
                if r[j] == x {
                    lemma_text_lt_trichotomy(x, s[0]);
                } else {
                    assert(tail.contains(r[j]));
                    let k = choose|k: int| 0 <= k < tail.len() && tail[k] == r[j];
                    assert(tail[k] == s[k + 1]);
                    assert(!text_lt(s[k + 1], s[0]));
                }
            } else {
                assert(rt[j - 1] == r[j]);
                assert(rt[i - 1] == r[i]);
            }
        }
        assert forall|p: Seq<char>| r.contains(p) implies (s.contains(p) || p == x) by {
            let k = choose|k: int| 0 <= k < r.len() && r[k] == p;
            if k > 0 {
                assert(rt[k - 1] == p);
                assert(rt.contains(p));
                if tail.contains(p) {
                    let m = choose|m: int| 0 <= m < tail.len() && tail[m] == p;
                    assert(s[m + 1] == p);
                }
            }
        }
        assert forall|p: Seq<char>| (s.contains(p) || p == x) implies r.contains(p) by {
            if p == x {
                assert(rt.contains(p));
                let m = choose|m: int| 0 <= m < rt.len() && rt[m] == p;
                assert(r[m + 1] == p);
            } else {
                let k = choose|k: int| 0 <= k < s.len() && s[k] == p;
                if k == 0 {
                    assert(r[0] == p);
                } else {
                    assert(tail[k - 1] == p);
                    assert(tail.contains(p));
                    assert(rt.contains(p));
                    let m = choose|m: int| 0 <= m < rt.len() && rt[m] == p;
                    assert(r[m + 1] == p);
                }
            }
        }
    }
}

/// Sorting sorts, and neither adds nor removes path values.
pub proof fn lemma_sort_paths_sorted(s: Seq<Seq<char>>)
    ensures
        paths_sorted(spec_sort_paths(s)),
        spec_sort_paths(s).len() == s.len(),
        forall|p: Seq<char>|
            #![trigger spec_sort_paths(s).contains(p)]
            #![trigger s.contains(p)]
            spec_sort_paths(s).contains(p) <==> s.contains(p),
    decreases s.len(),
{
    if s.len() == 0 {
    } else {
        lemma_sort_paths_sorted(s.drop_last());
        lemma_insert_path_sorted(spec_sort_paths(s.drop_last()), s.last());
        assert forall|p: Seq<char>| s.contains(p) implies (s.drop_last().contains(p) || p
            == s.last()) by {
            let k = choose|k: int| 0 <= k < s.len() && s[k] == p;
            if k < s.len() - 1 {
                assert(s.drop_last()[k] == p);
            }
        }
        assert forall|p: Seq<char>| (s.drop_last().contains(p) || p == s.last()) implies s.contains(
            p,
        ) by {
            if s.drop_last().contains(p) {
                let k = choose|k: int| 0 <= k < s.drop_last().len() && s.drop_last()[k] == p;
                assert(s[k] == p);
            } else {
                assert(s[s.len() - 1] == p);
            }
        }
    }
}

/// Collapsing runs of a sorted sequence leaves it strictly sorted, with the
/// same set of path values.
pub proof fn lemma_dedup_strict(s: Seq<Seq<char>>)
    requires
        paths_sorted(s),
    ensures
        paths_strictly_sorted(spec_dedup(s)),
        forall|p: Seq<char>|
            #![trigger spec_dedup(s).contains(p)]
            #![trigger s.contains(p)]
            spec_dedup(s).contains(p) <==> s.contains(p),
    decreases s.len(),
{
    let d = spec_dedup(s);
    if s.len() <= 1 {
    } else {
        let tail = s.drop_first();
        assert(paths_sorted(tail)) by {
            assert forall|i: int, j: int| 0 <= i < j < tail.len() implies !text_lt(
                tail[j],
                tail[i],
            ) by {
                assert(tail[j] == s[j + 1]);
                assert(tail[i] == s[i + 1]);
            }
        }
        lemma_dedup_strict(tail);
        let dt = spec_dedup(tail);
        assert forall|p: Seq<char>| s.contains(p) implies (p == s[0] || tail.contains(p)) by {
            let k = choose|k: int| 0 <= k < s.len() && s[k] == p;
            if k > 0 {
                assert(tail[k - 1] == p);
            }
        }
        assert forall|p: Seq<char>| tail.contains(p) implies s.contains(p) by {
            let k = choose|k: int| 0 <= k < tail.len() && tail[k] == p;
            assert(s[k + 1] == p);
        }
        if s[0] == s[1] {
            assert(tail.contains(s[0])) by {
                assert(tail[0] == s[1]);
            }
        } else {
            assert(d =~= seq![s[0]] + dt);
            // every element of the deduplicated tail is a tail element, and
            // no tail element can equal s[0] here: it would force s[1] to
            // equal s[0] as well, which this branch excludes
            assert forall|i: int, j: int| 0 <= i < j < d.len() implies text_lt(d[i], d[j]) by {
                if i == 0 {
                    assert(dt[j - 1] == d[j]);
                    assert(dt.contains(d[j]));
                    assert(tail.contains(d[j]));
                    let k = choose|k: int| 0 <= k < tail.len() && tail[k] == d[j];
                    assert(tail[k] == s[k + 1]);
                    assert(!text_lt(s[k + 1], s[0]));
                    lemma_text_lt_trichotomy(s[0], s[k + 1]);
                    if s[0] == s[k + 1] {
                        if k == 0 {
                            assert(false);
                        } else {
                            assert(!text_lt(s[k + 1], s[1]));
                            assert(!text_lt(s[1], s[0]));
                            lemma_text_lt_trichotomy(s[0], s[1]);
                            assert(text_lt(s[0], s[1]));
                            assert(false);
                        }
                    }
                } else {
                    assert(dt[j - 1] == d[j]);
                    assert(dt[i - 1] == d[i]);
                }
            }
            assert forall|p: Seq<char>| d.contains(p) implies s.contains(p) by {
                let k = choose|k: int| 0 <= k < d.len() && d[k] == p;
                if k > 0 {
                    assert(dt[k - 1] == p);
                    assert(dt.contains(p));
                }
            }
            assert forall|p: Seq<char>| s.contains(p) implies d.contains(p) by {
                if p == s[0] {
                    assert(d[0] == p);
                } else {
                    assert(tail.contains(p));
                    assert(dt.contains(p));
                    let m = choose|m: int| 0 <= m < dt.len() && dt[m] == p;
                    assert(d[m + 1] == p);
                }
            }
        }
    }
}

/// Places `x` into the sorted vector `out`, after any elements equal to it.
fn insert_in_order(out: &mut Vec<String>, x: String)
    ensures
        final(out)@.map_values(|s: String| s@) == spec_insert_path(
            old(out)@.map_values(|s: String| s@),
            x@,
        ),
{
    let ghost s = old(out)@.map_values(|t: String| t@);
    let mut j: usize = 0;
    while j < out.len() && !str_lt(x.as_str(), out[j].as_str())
        invariant
            j <= out@.len(),
            out@ == old(out)@,
            s == old(out)@.map_values(|t: String| t@),
            s.len() == out@.len(),
            forall|k: int| 0 <= k < j ==> !text_lt(x@, s[k]),
        decreases out@.len() - j,
    {
        assert(s[j as int] == out@[j as int]@);
        j = j + 1;
    }
    proof {
        assert(j < out@.len() ==> text_lt(x@, s[j as int])) by {
            if j < out@.len() {
                assert(s[j as int] == out@[j as int]@);
            }
        }
        lemma_insert_path_at(s, x@, j as int);
    }
    out.insert(j, x);
    proof {
        assert(final(out)@.map_values(|t: String| t@) =~= s.take(j as int) + seq![x@] + s.skip(
            j as int,
        ));
    }
}

/// When the first `j` elements do not come after `x` and the element at `j`
/// (if any) does, insertion places `x` exactly at position `j`.
proof fn lemma_insert_path_at(s: Seq<Seq<char>>, x: Seq<char>, j: int)
    requires
        0 <= j <= s.len(),
        forall|k: int| 0 <= k < j ==> !text_lt(x, s[k]),
        j < s.len() ==> text_lt(x, s[j]),
    ensures
        spec_insert_path(s, x) == s.take(j) + seq![x] + s.skip(j),
    decreases s.len(),
{
    if s.len() == 0 {
        assert(spec_insert_path(s, x) =~= s.take(j) + seq![x] + s.skip(j));
    } else if j == 0 {
        assert(text_lt(x, s[0]));
        assert(spec_insert_path(s, x) =~= s.take(0) + seq![x] + s.skip(0));
    } else {
        let tail = s.drop_first();
        assert(forall|k: int| 0 <= k < j - 1 ==> tail[k] == s[k + 1]);
        assert(j - 1 < tail.len() ==> text_lt(x, tail[j - 1])) by {
            if j - 1 < tail.len() {
                assert(tail[j - 1] == s[j]);
            }
        }
        lemma_insert_path_at(tail, x, j - 1);
        assert(spec_insert_path(s, x) =~= s.take(j) + seq![x] + s.skip(j)) by {
            assert(spec_insert_path(s, x) == seq![s[0]] + (tail.take(j - 1) + seq![x] + tail.skip(
                j - 1,
            )));
            assert(seq![s[0]] + (tail.take(j - 1) + seq![x] + tail.skip(j - 1)) =~= s.take(j)
                + seq![x] + s.skip(j));
        }
    }
}

/// Insertion sort over owned strings.
pub fn sort_paths(paths: Vec<String>) -> (r: Vec<String>)
    ensures
        r@.map_values(|s: String| s@) == spec_sort_paths(paths@.map_values(|s: String| s@)),
{
    let ghost s = paths@.map_values(|t: String| t@);
    let mut out: Vec<String> = Vec::new();
    let mut i: usize = 0;
    proof {
        assert(Seq::<Seq<char>>::empty() =~= spec_sort_paths(s.take(0)));
        assert(out@.map_values(|t: String| t@) =~= Seq::<Seq<char>>::empty());
    }
    while i < paths.len()
        invariant
            i <= paths@.len(),
            s == paths@.map_values(|t: String| t@),
            s.len() == paths@.len(),
            out@.map_values(|t: String| t@) == spec_sort_paths(s.take(i as int)),
        decreases paths@.len() - i,
    {
        let x = paths[i].clone();
        proof {
            assert(s[i as int] == paths@[i as int]@);
        }
        insert_in_order(&mut out, x);
        proof {
            assert(s.take(i + 1).drop_last() =~= s.take(i as int));
            assert(s.take(i + 1).last() == s[i as int]);
        }
        i = i + 1;
    }
    proof {
        assert(s.take(s.len() as int) =~= s);
    }
    out
}

/// Relies on itertools' `Itertools::dedup`: it removes duplicates from runs
/// of consecutive equal elements, keeping one element of each run, in order.
#[verifier::external_body]
pub(crate) fn dedup_consecutive(paths: Vec<String>) -> (r: Vec<String>)
    ensures
        r@.map_values(|s: String| s@) == spec_dedup(paths@.map_values(|s: String| s@)),
{
    paths.into_iter().dedup().collect()
}

} // verus!
