//! Fuzzy ranking: normalised Levenshtein similarity and a ranking kept in
//! descending order by sorted insertion.

use vstd::prelude::*;
use crate::text::{char_vec, lower_of, lowercase};

verus! {

pub open spec fn min_nat(x: nat, y: nat) -> nat {
    if x <= y { x } else { y }
}

pub open spec fn max_nat(x: nat, y: nat) -> nat {
    if x >= y { x } else { y }
}

/// Levenshtein distance: the fewest single-character insertions, deletions
/// and substitutions that turn `a` into `b`.
pub open spec fn edit_distance(a: Seq<char>, b: Seq<char>) -> nat
    decreases a.len() + b.len(),
{
    if a.len() == 0 {
        b.len()
    } else if b.len() == 0 {
        a.len()
    } else {
        let cost: nat = if a.last() == b.last() { 0 } else { 1 };
        min_nat(
            edit_distance(a.drop_last(), b.drop_last()) + cost,
            min_nat(edit_distance(a.drop_last(), b) + 1, edit_distance(a, b.drop_last()) + 1),
        )
    }
}

/// A similarity score: the fraction `num / den`, with `den > 0`.
#[derive(Clone, Copy, Debug, PartialEq, Eq, Structural)]
pub struct Score {
    pub num: usize,
    pub den: usize,
}

impl Score {
    pub open spec fn wf(self) -> bool {
        self.den > 0 && self.num <= self.den
    }

    /// `self <= other` as fractions.
    pub open spec fn le(self, other: Score) -> bool {
        self.num as int * other.den as int <= other.num as int * self.den as int
    }

    /// `self` and `other` are the same fraction.
    pub open spec fn same(self, other: Score) -> bool {
        self.num as int * other.den as int == other.num as int * self.den as int
    }

    /// Compares `self <= other` as fractions.
    pub fn is_le(&self, other: &Score) -> (r: bool)
        ensures
            r == self.le(*other),
    {
        proof {
            assert(self.num as int * other.den as int <= usize::MAX as int * usize::MAX as int)
                by (nonlinear_arith);
            assert(other.num as int * self.den as int <= usize::MAX as int * usize::MAX as int)
                by (nonlinear_arith);
            assert(usize::MAX as int * usize::MAX as int <= u128::MAX as int) by (nonlinear_arith)
                requires usize::MAX <= u64::MAX;
        }
        (self.num as u128) * (other.den as u128) <= (other.num as u128) * (self.den as u128)
    }
}

/// Fraction comparison is transitive over positive denominators.
pub proof fn lemma_le_trans(a: Score, b: Score, c: Score)
    requires
        a.den > 0,
        b.den > 0,
        c.den > 0,
        a.le(b),
        b.le(c),
    ensures
        a.le(c),
{
    let (an, ad, bn, bd, cn, cd) = (a.num as int, a.den as int, b.num as int, b.den as int,
        c.num as int, c.den as int);
    assert(an * cd * bd <= cn * ad * bd) by (nonlinear_arith)
        requires an * bd <= bn * ad, bn * cd <= cn * bd, ad > 0, cd > 0, bd > 0;
    assert(an * cd <= cn * ad) by (nonlinear_arith)
        requires an * cd * bd <= cn * ad * bd, bd > 0;
}

/// The similarity of two texts, compared without regard to case:
/// `(m - d) / m` where `m` is the longer length and `d` the edit distance.
/// An empty text is similar to nothing: its score is `0 / 1`.
pub open spec fn similarity_spec(a: Seq<char>, b: Seq<char>) -> Score {
    score_of(lower_of(a), lower_of(b))
}

/// The similarity of two texts taken as they are: `(m - d) / m` where `m`
/// is the longer length and `d` the edit distance; `0 / 1` when either is
/// empty.
pub open spec fn score_of(a: Seq<char>, b: Seq<char>) -> Score {
    if a.len() == 0 || b.len() == 0 {
        Score { num: 0, den: 1 }
    } else {
        let m = max_nat(a.len(), b.len());
        Score { num: (m - edit_distance(a, b)) as usize, den: m as usize }
    }
}

proof fn lemma_edit_distance_bound(a: Seq<char>, b: Seq<char>)
    ensures
        edit_distance(a, b) <= max_nat(a.len(), b.len()),
        edit_distance(a, b) >= if a.len() >= b.len() { a.len() - b.len() } else { b.len() - a.len() },
    decreases a.len() + b.len(),
{
    if a.len() > 0 && b.len() > 0 {
        lemma_edit_distance_bound(a.drop_last(), b.drop_last());
        lemma_edit_distance_bound(a.drop_last(), b);
        lemma_edit_distance_bound(a, b.drop_last());
    }
}

/// Edit distance does not depend on which text comes first.
pub proof fn lemma_edit_distance_symmetric(a: Seq<char>, b: Seq<char>)
    ensures
        edit_distance(a, b) == edit_distance(b, a),
    decreases a.len() + b.len(),
{
    if a.len() > 0 && b.len() > 0 {
        lemma_edit_distance_symmetric(a.drop_last(), b.drop_last());
        lemma_edit_distance_symmetric(a.drop_last(), b);
        lemma_edit_distance_symmetric(a, b.drop_last());
    }
}

/// A text is at distance zero from itself.
pub proof fn lemma_edit_distance_self(a: Seq<char>)
    ensures
        edit_distance(a, a) == 0,
    decreases a.len(),
{
    if a.len() > 0 {
        lemma_edit_distance_self(a.drop_last());
    }
}

/// Similarity is symmetric: `similarity(a, b) == similarity(b, a)`.
pub proof fn lemma_similarity_symmetric(a: Seq<char>, b: Seq<char>)
    ensures
        similarity_spec(a, b) == similarity_spec(b, a),
{
    lemma_edit_distance_symmetric(lower_of(a), lower_of(b));
}

/// A non-empty text is fully similar to itself: its score is one.
pub proof fn lemma_score_self(s: Seq<char>)
    requires
        s.len() > 0,
    ensures
        score_of(s, s).num == score_of(s, s).den,
{
    lemma_edit_distance_self(s);
}

/// Levenshtein distance by the single-row dynamic programme.
fn edit_dist(a: &Vec<char>, b: &Vec<char>) -> (d: usize)
    ensures
        d == edit_distance(a@, b@),
{
    let l1 = a.len();
    let mut dist: Vec<usize> = Vec::new();
    let mut j: usize = 0;
    while j < l1
        invariant
            l1 == a@.len(),
            j <= l1,
            dist@.len() == j,
            forall|k: int| 0 <= k < j ==> #[trigger] dist@[k] == k,
        decreases l1 - j,
    {
        dist.push(j);
        j += 1;
    }
    dist.push(l1);
    assert forall|k: int| 0 <= k <= l1 implies #[trigger] dist@[k] == edit_distance(
        a@.subrange(0, k),
        b@.subrange(0, 0),
    ) by {
        assert(dist@[k] == k);
    }
    let l2 = b.len();
    let mut row: usize = 0;
    while row < l2
        invariant
            l1 == a@.len(),
            l2 == b@.len(),
            row <= b@.len(),
            dist@.len() == l1 + 1,
            forall|k: int|
                0 <= k <= l1 ==> #[trigger] dist@[k] == edit_distance(
                    a@.subrange(0, k),
                    b@.subrange(0, row as int),
                ),
        decreases b@.len() - row,
    {
        let c2 = b[row];
        let ghost bp = b@.subrange(0, row as int);
        let ghost bn = b@.subrange(0, row + 1);
        assert(bn.drop_last() =~= bp);
        assert(a@.subrange(0, 0).len() == 0);
        let mut prev_sub = dist[0];
        dist.set(0, row + 1);
        let mut col: usize = 0;
        while col < l1
            invariant
                l1 == a@.len(),
                l2 == b@.len(),
                row < b@.len(),
                c2 == b@[row as int],
                bp == b@.subrange(0, row as int),
                bn == b@.subrange(0, row + 1),
                bn.drop_last() == bp,
                col <= l1,
                dist@.len() == l1 + 1,
                prev_sub == edit_distance(a@.subrange(0, col as int), bp),
                forall|k: int|
                    0 <= k <= col ==> #[trigger] dist@[k] == edit_distance(a@.subrange(0, k), bn),
                forall|k: int|
                    col < k <= l1 ==> #[trigger] dist@[k] == edit_distance(a@.subrange(0, k), bp),
            decreases l1 - col,
        {
            let c1 = a[col];
            let ghost ap = a@.subrange(0, col as int);
            let ghost an = a@.subrange(0, col + 1);
            assert(an.drop_last() =~= ap);
            proof {
                lemma_edit_distance_bound(ap, bn);
                lemma_edit_distance_bound(an, bp);
                lemma_edit_distance_bound(ap, bp);
            }
            proof {
                lemma_edit_distance_bound(an, bn);
            }
            let m0 = if dist[col] <= dist[col + 1] { dist[col] } else { dist[col + 1] };
            let m = if prev_sub <= m0 {
                if c1 == c2 { prev_sub } else { prev_sub + 1 }
            } else {
                m0 + 1
            };
            prev_sub = dist[col + 1];
            dist.set(col + 1, m);
            col += 1;
        }
        row += 1;
    }
    assert(a@.subrange(0, l1 as int) =~= a@);
    assert(b@.subrange(0, row as int) =~= b@);
    dist[l1]
}

/// Scores how similar `a` and `b` are, without regard to case.
pub fn similarity(a: &str, b: &str) -> (r: Score)
    ensures
        r == similarity_spec(a@, b@),
        r.wf(),
        a@ == b@ && a@.len() > 0 ==> r.num == r.den,
{
    let la = lowercase(a);
    let lb = lowercase(b);
    score_folded(la.as_str(), lb.as_str())
}

/// Scores how similar `a` and `b` are, comparing characters exactly; for
/// texts already in one case.
pub fn score_folded(a: &str, b: &str) -> (r: Score)
    ensures
        r == score_of(a@, b@),
        r.wf(),
        a@ == b@ && a@.len() > 0 ==> r.num == r.den,
{
    proof {
        if a@ == b@ && a@.len() > 0 {
            lemma_score_self(a@);
        }
    }
    let va = char_vec(a);
    let vb = char_vec(b);
    if va.len() == 0 || vb.len() == 0 {
        Score { num: 0, den: 1 }
    } else {
        let d = edit_dist(&va, &vb);
        proof {
            lemma_edit_distance_bound(va@, vb@);
        }
        let m = if va.len() >= vb.len() { va.len() } else { vb.len() };
        Score { num: m - d, den: m }
    }
}

/// One ranked candidate: its score and its position among the candidates.
#[derive(Clone, Copy, Debug, PartialEq, Eq, Structural)]
pub struct FuzzyRes {
    pub rank: Score,
    pub index: usize,
}

/// Scores are in descending order, and equal scores keep the candidates'
/// order.
pub open spec fn sorted_desc(s: Seq<FuzzyRes>) -> bool {
    forall|i: int, j: int|
        0 <= i < j < s.len() ==> {
            &&& (#[trigger] s[j]).rank.le((#[trigger] s[i]).rank)
            &&& s[i].rank.le(s[j].rank) ==> s[i].index < s[j].index
        }
}

/// Some entry of `s` is candidate `k`.
pub open spec fn has_index(s: Seq<FuzzyRes>, k: int) -> bool {
    exists|i: int| 0 <= i < s.len() && (#[trigger] s[i]).index == k
}

/// The similarity of each key to the query `q`, regardless of case.
pub open spec fn sim_scores(q: Seq<char>, keys: Seq<String>) -> Seq<Score> {
    keys.map_values(|k: String| similarity_spec(q, k@))
}

/// The similarity of each key to the query `q`, comparing characters exactly.
pub open spec fn folded_scores(q: Seq<char>, keys: Seq<String>) -> Seq<Score> {
    keys.map_values(|k: String| score_of(q, k@))
}

/// `s` ranks the first `n` candidates, whose scores are `scores`: each of
/// them appears, with its score, and the order is `sorted_desc`.
pub open spec fn ranked_by(scores: Seq<Score>, s: Seq<FuzzyRes>, n: int) -> bool {
    &&& s.len() == n
    &&& forall|i: int|
        0 <= i < s.len() ==> {
            &&& (#[trigger] s[i]).index < n
            &&& s[i].rank == scores[s[i].index as int]
            &&& s[i].rank.wf()
        }
    &&& forall|k: int| 0 <= k < n ==> #[trigger] has_index(s, k)
    &&& sorted_desc(s)
}

/// Where a new score goes in a descending ranking: after every score at
/// least as high, before every lower one.
fn insertion_point(out: &Vec<FuzzyRes>, rank: Score) -> (pos: usize)
    requires
        rank.den > 0,
        forall|i: int| 0 <= i < out@.len() ==> (#[trigger] out@[i]).rank.den > 0,
        sorted_desc(out@),
    ensures
        pos <= out@.len(),
        forall|i: int| 0 <= i < pos ==> rank.le((#[trigger] out@[i]).rank),
        forall|i: int| pos <= i < out@.len() ==> !rank.le((#[trigger] out@[i]).rank),
{
    let mut lo: usize = 0;
    let mut hi: usize = out.len();
    while lo < hi
        invariant
            lo <= hi <= out@.len(),
            rank.den > 0,
            forall|i: int| 0 <= i < out@.len() ==> (#[trigger] out@[i]).rank.den > 0,
            sorted_desc(out@),
            forall|i: int| 0 <= i < lo ==> rank.le((#[trigger] out@[i]).rank),
            forall|i: int| hi <= i < out@.len() ==> !rank.le((#[trigger] out@[i]).rank),
        decreases hi - lo,
    {
        let mid = lo + (hi - lo) / 2;
        if rank.is_le(&out[mid].rank) {
            assert forall|i: int| 0 <= i <= mid implies rank.le((#[trigger] out@[i]).rank) by {
                if i < mid {
                    lemma_le_trans(rank, out@[mid as int].rank, out@[i].rank);
                }
            }
            lo = mid + 1;
        } else {
            assert forall|i: int| mid <= i < out@.len() implies !rank.le((#[trigger] out@[i]).rank) by {
                if mid < i && rank.le(out@[i].rank) {
                    lemma_le_trans(rank, out@[i].rank, out@[mid as int].rank);
                }
            }
            hi = mid;
        }
    }
    lo
}

/// Ranks candidates by their scores, best first; equal scores keep the
/// candidates' order.
fn rank_scores(scores: &Vec<Score>) -> (r: Vec<FuzzyRes>)
    requires
        forall|i: int| 0 <= i < scores@.len() ==> (#[trigger] scores@[i]).wf(),
    ensures
        ranked_by(scores@, r@, scores@.len() as int),
{
    let mut out: Vec<FuzzyRes> = Vec::new();
    let mut n: usize = 0;
    while n < scores.len()
        invariant
            n <= scores@.len(),
            forall|i: int| 0 <= i < scores@.len() ==> (#[trigger] scores@[i]).wf(),
            ranked_by(scores@, out@, n as int),
        decreases scores@.len() - n,
    {
        let res = FuzzyRes { rank: scores[n], index: n };
        let pos = insertion_point(&out, res.rank);
        let ghost old_out = out@;
        out.insert(pos, res);
        proof {
            old_out.insert_ensures(pos as int, res);
            let s = out@;
            assert forall|i: int| 0 <= i < s.len() implies {
                &&& (#[trigger] s[i]).index < n + 1
                &&& s[i].rank == scores@[s[i].index as int]
                &&& s[i].rank.wf()
            } by {
                if i > pos {
                    assert(s[i] == old_out[i - 1]);
                }
            }
            assert forall|k: int| 0 <= k < n + 1 implies #[trigger] has_index(s, k) by {
                if k == n {
                    assert(s[pos as int].index == k);
                } else {
                    assert(has_index(old_out, k));
                    let i0 = choose|i: int| 0 <= i < old_out.len() && (#[trigger] old_out[i]).index == k;
                    if i0 < pos {
                        assert(s[i0].index == k);
                    } else {
                        assert(s[i0 + 1] == old_out[i0]);
                        assert(s[i0 + 1].index == k);
                    }
                }
            }
            assert forall|i: int, j: int| 0 <= i < j < s.len() implies {
                &&& (#[trigger] s[j]).rank.le((#[trigger] s[i]).rank)
                &&& s[i].rank.le(s[j].rank) ==> s[i].index < s[j].index
            } by {
                if j < pos {
                } else if j == pos {
                    assert(s[i].index < n);
                } else if i < pos {
                    let jj = j - 1;
                    assert(s[j] == old_out[jj]);
                    if s[i].rank.le(s[j].rank) {
                        assert(res.rank.le(s[i].rank));
                        lemma_le_trans(res.rank, s[i].rank, s[j].rank);
                        assert(false);
                    }
                    assert(s[j].rank.le(s[i].rank)) by {
                        assert(!res.rank.le(old_out[jj].rank));
                        assert(old_out[jj].rank.num * res.rank.den <= res.rank.num * old_out[jj].rank.den);
                        lemma_le_trans(s[j].rank, res.rank, s[i].rank);
                    }
                } else if i == pos {
                    assert(s[j] == old_out[j - 1]);
                } else {
                    assert(s[j] == old_out[j - 1]);
                    assert(s[i] == old_out[i - 1]);
                }
            }
        }
        n += 1;
    }
    out
}

/// Splits a ranking into its head and the rest.
fn split_head(out: Vec<FuzzyRes>) -> (r: Option<(FuzzyRes, Vec<FuzzyRes>)>)
    ensures
        r is None <==> out@.len() == 0,
        r matches Some((best, rest)) ==> seq![best] + rest@ == out@,
{
    let mut out = out;
    if out.len() == 0 {
        None
    } else {
        let ghost all = out@;
        let best = out.remove(0);
        assert(seq![best] + out@ =~= all);
        Some((best, out))
    }
}

/// Ranks every key against `value` without regard to case, best first.
/// Returns the best candidate and the others, or `None` when there are no
/// keys.
pub fn fuzzy_rank(value: &str, keys: &Vec<String>) -> (r: Option<(FuzzyRes, Vec<FuzzyRes>)>)
    ensures
        r is None <==> keys@.len() == 0,
        r matches Some((best, rest)) ==> ranked_by(sim_scores(value@, keys@), seq![best] + rest@, keys@.len() as int),
{
    let mut scores: Vec<Score> = Vec::new();
    let mut i: usize = 0;
    while i < keys.len()
        invariant
            i <= keys@.len(),
            scores@ == sim_scores(value@, keys@.subrange(0, i as int)),
            forall|k: int| 0 <= k < scores@.len() ==> (#[trigger] scores@[k]).wf(),
        decreases keys@.len() - i,
    {
        scores.push(similarity(value, keys[i].as_str()));
        i += 1;
        assert(scores@ =~= sim_scores(value@, keys@.subrange(0, i as int)));
    }
    assert(keys@.subrange(0, i as int) =~= keys@);
    split_head(rank_scores(&scores))
}

/// Ranks every key against `value`, comparing characters exactly; for a
/// query and keys already in one case. Best first, as `fuzzy_rank`.
pub fn rank_folded(value: &str, keys: &Vec<String>) -> (r: Option<(FuzzyRes, Vec<FuzzyRes>)>)
    ensures
        r is None <==> keys@.len() == 0,
        r matches Some((best, rest)) ==> ranked_by(folded_scores(value@, keys@), seq![best] + rest@, keys@.len() as int),
{
    let mut scores: Vec<Score> = Vec::new();
    let mut i: usize = 0;
    while i < keys.len()
        invariant
            i <= keys@.len(),
            scores@ == folded_scores(value@, keys@.subrange(0, i as int)),
            forall|k: int| 0 <= k < scores@.len() ==> (#[trigger] scores@[k]).wf(),
        decreases keys@.len() - i,
    {
        scores.push(score_folded(value, keys[i].as_str()));
        i += 1;
        assert(scores@ =~= folded_scores(value@, keys@.subrange(0, i as int)));
    }
    assert(keys@.subrange(0, i as int) =~= keys@);
    split_head(rank_scores(&scores))
}

/// `b` is the best of the candidates whose scores are `scores`: none
/// scores higher, and none that scores as high comes earlier.
pub open spec fn is_best(scores: Seq<Score>, b: FuzzyRes) -> bool {
    &&& b.index < scores.len()
    &&& b.rank == scores[b.index as int]
    &&& forall|k: int|
        0 <= k < scores.len() ==> {
            &&& (#[trigger] scores[k]).le(b.rank)
            &&& b.rank.le(scores[k]) ==> b.index <= k
        }
}

/// The head of a ranking is the best candidate, and the ranking, head first,
/// never rises.
pub proof fn lemma_rank_head_is_best(scores: Seq<Score>, best: FuzzyRes, rest: Seq<FuzzyRes>)
    requires
        ranked_by(scores, seq![best] + rest, scores.len() as int),
    ensures
        is_best(scores, best),
        forall|k: int| 0 <= k < scores.len() ==> (#[trigger] scores[k]).wf(),
        forall|i: int| 0 <= i < rest.len() ==> (#[trigger] rest[i]).rank.le(best.rank),
        forall|i: int, j: int| 0 <= i < j < rest.len() ==> (#[trigger] rest[j]).rank.le((#[trigger] rest[i]).rank),
{
    let s = seq![best] + rest;
    assert(s[0] == best);
    assert forall|k: int| 0 <= k < scores.len() implies {
        &&& (#[trigger] scores[k]).le(best.rank)
        &&& best.rank.le(scores[k]) ==> best.index <= k
        &&& scores[k].wf()
    } by {
        assert(has_index(s, k));
        let i = choose|i: int| 0 <= i < s.len() && (#[trigger] s[i]).index == k;
        if i > 0 {
            assert(s[i].rank.le(s[0].rank));
        }
    }
    assert forall|i: int| 0 <= i < rest.len() implies (#[trigger] rest[i]).rank.le(best.rank) by {
        assert(s[i + 1] == rest[i]);
    }
    assert forall|i: int, j: int| 0 <= i < j < rest.len() implies (#[trigger] rest[j]).rank.le(
        (#[trigger] rest[i]).rank,
    ) by {
        assert(s[i + 1] == rest[i]);
        assert(s[j + 1] == rest[j]);
    }
}

/// The best candidate for `value`, if its score reaches `threshold`.
pub fn fuzzy_best(value: &str, keys: &Vec<String>, threshold: Score) -> (r: Option<FuzzyRes>)
    requires
        threshold.den > 0,
    ensures
        r is None <==> forall|k: int|
            0 <= k < keys@.len() ==> !threshold.le(#[trigger] sim_scores(value@, keys@)[k]),
        r matches Some(b) ==> is_best(sim_scores(value@, keys@), b) && threshold.le(b.rank),
{
    match fuzzy_rank(value, keys) {
        None => None,
        Some((best, rest)) => {
            proof {
                lemma_rank_head_is_best(sim_scores(value@, keys@), best, rest@);
                let s = seq![best] + rest@;
                assert(s[0] == best);
            }
            if threshold.is_le(&best.rank) {
                Some(best)
            } else {
                proof {
                    assert forall|k: int| 0 <= k < keys@.len() implies !threshold.le(
                        #[trigger] sim_scores(value@, keys@)[k],
                    ) by {
                        let sk = sim_scores(value@, keys@)[k];
                        if threshold.le(sk) {
                            lemma_le_trans(threshold, sk, best.rank);
                        }
                    }
                }
                None
            }
        }
    }
}

} // verus!
