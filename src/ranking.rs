use vstd::prelude::*;
use vstd::relations::injective_on;
use vstd::set_lib::{lemma_int_range, lemma_map_size, lemma_subset_equality, set_int_range};
use crate::error::DbError;
use crate::score::{is_nan, is_nan_bits, rank_of, score_rank};

verus! {

/// Entry `j` comes before entry `i` in the result order: a higher score, or an
/// equal score and an earlier position.
pub open spec fn ahead(s: Seq<(u64, u32)>, j: int, i: int) -> bool {
    score_rank(s[j].1) > score_rank(s[i].1) || (score_rank(s[j].1) == score_rank(s[i].1) && j < i)
}

/// How many of the first `hi` entries come before entry `i`.
pub open spec fn count_ahead(s: Seq<(u64, u32)>, i: int, hi: int) -> int
    decreases hi,
{
    if hi <= 0 {
        0
    } else {
        count_ahead(s, i, hi - 1) + if ahead(s, hi - 1, i) { 1int } else { 0int }
    }
}

/// Where entry `i` stands once all entries are ordered by decreasing score,
/// equal scores keeping their original order.
pub open spec fn result_position(s: Seq<(u64, u32)>, i: int) -> int {
    count_ahead(s, i, s.len() as int)
}

/// Some entry holds a NaN score.
pub open spec fn has_nan(s: Seq<(u64, u32)>) -> bool {
    exists|i: int| 0 <= i < s.len() && #[trigger] is_nan_bits(s[i].1)
}

/// The entries' scores never increase along the sequence.
pub open spec fn sorted_by_score(s: Seq<(u64, u32)>) -> bool {
    forall|a: int, b: int| 0 <= a < b < s.len() ==> score_rank(s[a].1) >= score_rank(s[b].1)
}

pub open spec fn min_len(k: int, n: int) -> int {
    if k < n { k } else { n }
}

proof fn lemma_count_bounds(s: Seq<(u64, u32)>, i: int, hi: int)
    requires
        0 <= i < s.len(),
        0 <= hi <= s.len(),
    ensures
        0 <= count_ahead(s, i, hi) <= hi,
        i < hi ==> count_ahead(s, i, hi) < hi,
    decreases hi,
{
    if hi > 0 {
        lemma_count_bounds(s, i, hi - 1);
    }
}

proof fn lemma_count_monotone(s: Seq<(u64, u32)>, i: int, i2: int, hi: int)
    requires
        0 <= i < s.len(),
        0 <= i2 < s.len(),
        0 <= hi <= s.len(),
        ahead(s, i, i2),
    ensures
        count_ahead(s, i, hi) <= count_ahead(s, i2, hi),
        i < hi ==> count_ahead(s, i, hi) < count_ahead(s, i2, hi),
    decreases hi,
{
    if hi > 0 {
        lemma_count_monotone(s, i, i2, hi - 1);
    }
}

/// Entries ahead of another stand earlier in the result order.
proof fn lemma_position_order(s: Seq<(u64, u32)>, i: int, i2: int)
    requires
        0 <= i < s.len(),
        0 <= i2 < s.len(),
        ahead(s, i, i2),
    ensures
        result_position(s, i) < result_position(s, i2),
{
    lemma_count_monotone(s, i, i2, s.len() as int);
}

proof fn lemma_position_distinct(s: Seq<(u64, u32)>, i: int, i2: int)
    requires
        0 <= i < s.len(),
        0 <= i2 < s.len(),
        i != i2,
    ensures
        result_position(s, i) != result_position(s, i2),
{
    if ahead(s, i, i2) {
        lemma_position_order(s, i, i2);
    } else {
        lemma_position_order(s, i2, i);
    }
}

/// Each place of the result order is taken by some entry.
proof fn lemma_position_onto(s: Seq<(u64, u32)>, p: int)
    requires
        0 <= p < s.len(),
    ensures
        exists|i: int| 0 <= i < s.len() && result_position(s, i) == p,
{
    let n = s.len() as int;
    let f = |i: int| result_position(s, i);
    let dom = set_int_range(0, n);
    let img = dom.map(f);
    lemma_int_range(0, n);
    assert forall|a: int, b: int| dom.contains(a) && dom.contains(b) && f(a) == f(b) implies a == b by {
        if a != b {
            lemma_position_distinct(s, a, b);
        }
    }
    assert(injective_on(f, dom));
    lemma_map_size(dom, img, f);
    assert forall|q: int| img.contains(q) implies dom.contains(q) by {
        let i = choose|i: int| dom.contains(i) && f(i) == q;
        lemma_count_bounds(s, i, n);
    }
    lemma_subset_equality(img, dom);
    assert(dom.contains(p));
    assert(img.contains(p));
    let i = choose|i: int| dom.contains(i) && f(i) == p;
    assert(0 <= i < s.len() && result_position(s, i) == p);
}

/// The first `min(k, n)` entries of `entries` in the result order: scores
/// decreasing, equal scores in their original order. A NaN score anywhere
/// rejects the whole call.
pub fn top_k(entries: &Vec<(u64, u32)>, k: usize) -> (r: Result<Vec<(u64, u32)>, DbError>)
    ensures
        r is Err <==> has_nan(entries@),
        r matches Err(e) ==> e == DbError::UnsupportedNumericState,
        r matches Ok(v) ==> {
            &&& v@.len() == min_len(k as int, entries@.len() as int)
            &&& forall|i: int|
                0 <= i < entries@.len() && 0 <= #[trigger] result_position(entries@, i) < v@.len()
                    ==> v@[result_position(entries@, i)] == entries@[i]
            &&& sorted_by_score(v@)
        },
{
    let n = entries.len();
    let mut c: usize = 0;
    while c < n
        invariant
            n == entries@.len(),
            c <= n,
            forall|j: int| 0 <= j < c ==> !is_nan_bits(#[trigger] entries@[j].1),
        decreases n - c,
    {
        if is_nan(entries[c].1) {
            return Err(DbError::UnsupportedNumericState);
        }
        c = c + 1;
    }
    let m: usize = if k < n { k } else { n };
    let mut out: Vec<(u64, u32)> = Vec::new();
    while out.len() < m
        invariant
            out@.len() <= m,
        decreases m - out@.len(),
    {
        out.push((0, 0));
    }
    let mut i: usize = 0;
    while i < n
        invariant
            n == entries@.len(),
            m <= n,
            i <= n,
            out@.len() == m,
            forall|i2: int|
                0 <= i2 < i && 0 <= #[trigger] result_position(entries@, i2) < m
                    ==> out@[result_position(entries@, i2)] == entries@[i2],
        decreases n - i,
    {
        let ri = rank_of(entries[i].1);
        let mut p: usize = 0;
        let mut j: usize = 0;
        while j < n
            invariant
                n == entries@.len(),
                i < n,
                j <= n,
                ri == score_rank(entries@[i as int].1),
                p == count_ahead(entries@, i as int, j as int),
                p <= j,
            decreases n - j,
        {
            let rj = rank_of(entries[j].1);
            if rj > ri || (rj == ri && j < i) {
                p = p + 1;
            }
            j = j + 1;
        }
        if p < m {
            proof {
                assert forall|i2: int| 0 <= i2 < i implies result_position(entries@, i2) != p by {
                    lemma_position_distinct(entries@, i2, i as int);
                }
            }
            out.set(p, entries[i]);
        }
        proof {
            assert(p == result_position(entries@, i as int));
            assert forall|i2: int|
                0 <= i2 < i + 1 && 0 <= #[trigger] result_position(entries@, i2) < m
                    implies out@[result_position(entries@, i2)] == entries@[i2] by {
                lemma_count_bounds(entries@, i2, n as int);
            }
        }
        i = i + 1;
    }
    proof {
        let s = entries@;
        assert forall|a: int, b: int| 0 <= a < b < out@.len() implies score_rank(out@[a].1) >= score_rank(out@[b].1) by {
            lemma_position_onto(s, a);
            lemma_position_onto(s, b);
            let ia = choose|x: int| 0 <= x < s.len() && result_position(s, x) == a;
            let ib = choose|x: int| 0 <= x < s.len() && result_position(s, x) == b;
            assert(out@[a] == s[ia]);
            assert(out@[b] == s[ib]);
            if score_rank(s[ia].1) < score_rank(s[ib].1) {
                lemma_position_order(s, ib, ia);
            }
        }
    }
    Ok(out)
}

} // verus!
