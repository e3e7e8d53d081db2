//! Branch-to-worktree resolution: exact match first, then fuzzy scoring
//! with a stable descending sort, then data for interactive disambiguation.
//!
//! The strict order of the passes: an exact branch-name match returns its
//! path at once, with no scoring and no prompt; otherwise every record is
//! scored fuzzily against the token, records without a positive score are
//! discarded, a single survivor is returned directly, and several survivors
//! are handed back sorted by descending score — ties keep inventory order —
//! for a single-select prompt that the (unverified) caller runs.

use crate::inventory::{RecordV, WorktreeRecord};
use crate::text::str_eq;
use vstd::prelude::*;

verus! {

/// What the fuzzy matcher returns for a token against one candidate string:
/// `None` when the token does not match at all, otherwise the match score
/// (higher is better). The value depends on the two strings alone.
pub uninterp spec fn fuzzy_score_of(token: Seq<char>, candidate: Seq<char>) -> Option<u16>;

/// Relies on `nucleo_matcher::pattern::Atom::score`, called with a fresh
/// matcher built from `Config::DEFAULT` and a smart-case,
/// smart-normalization fuzzy atom: the score is a pure function of the
/// token and the candidate string. The matcher documents that haystacks
/// are limited to fewer than 2^32 codepoints and that it panics beyond
/// that, so longer candidates are excluded here.
#[verifier::external_body]
fn fuzzy_score(token: &str, candidate: &str) -> (r: Option<u16>)
    requires
        candidate@.len() < 0x1_0000_0000,
    ensures
        r == fuzzy_score_of(token@, candidate@),
{
    let mut matcher = nucleo_matcher::Matcher::new(nucleo_matcher::Config::DEFAULT);
    let atom = nucleo_matcher::pattern::Atom::new(
        token,
        nucleo_matcher::pattern::CaseMatching::Smart,
        nucleo_matcher::pattern::Normalization::Smart,
        nucleo_matcher::pattern::AtomKind::Fuzzy,
        false,
    );
    let mut buf = Vec::new();
    atom.score(nucleo_matcher::Utf32Str::new(candidate, &mut buf), &mut matcher)
}

/// One fuzzy candidate: the matched record, its positive score, and the
/// position the record had in the inventory (which keeps ties stable).
pub struct Candidate {
    pub score: u16,
    pub inv_index: usize,
    pub branch: String,
    pub path: String,
}

/// Mathematical image of a candidate.
pub struct CandidateV {
    pub score: u16,
    pub inv_index: int,
    pub branch: Seq<char>,
    pub path: Seq<char>,
}

impl View for Candidate {
    type V = CandidateV;

    open spec fn view(&self) -> CandidateV {
        CandidateV {
            score: self.score,
            inv_index: self.inv_index as int,
            branch: self.branch@,
            path: self.path@,
        }
    }
}

impl DeepView for Candidate {
    type V = CandidateV;

    open spec fn deep_view(&self) -> CandidateV {
        self@
    }
}

impl Candidate {
    /// An identical copy (the string fields are cloned).
    fn duplicate(&self) -> (c: Candidate)
        ensures
            c == *self,
    {
        Candidate {
            score: self.score,
            inv_index: self.inv_index,
            branch: self.branch.clone(),
            path: self.path.clone(),
        }
    }
}

/// Path of the first record whose branch equals the token exactly.
pub open spec fn exact_path(recs: Seq<RecordV>, token: Seq<char>) -> Option<Seq<char>>
    decreases recs.len(),
{
    if recs.len() == 0 {
        None
    } else if recs[0].branch == token {
        Some(recs[0].path)
    } else {
        exact_path(recs.skip(1), token)
    }
}

/// The positively-scored fuzzy candidates of `recs` against `token`, in
/// inventory order, each tagged with its inventory position.
pub open spec fn scored_candidates(recs: Seq<RecordV>, token: Seq<char>) -> Seq<CandidateV>
    decreases recs.len(),
{
    if recs.len() == 0 {
        Seq::empty()
    } else {
        let prefix = scored_candidates(recs.drop_last(), token);
        let last = recs.last();
        match fuzzy_score_of(token, last.branch) {
            Some(s) => if s > 0 {
                prefix.push(
                    CandidateV {
                        score: s,
                        inv_index: recs.len() - 1,
                        branch: last.branch,
                        path: last.path,
                    },
                )
            } else {
                prefix
            },
            None => prefix,
        }
    }
}

/// Insert `c` into the descending-sorted `s` behind every element whose
/// score is at least `c.score`, so that equal scores keep their order.
pub open spec fn insert_by_score(s: Seq<CandidateV>, c: CandidateV) -> Seq<CandidateV>
    decreases s.len(),
{
    if s.len() == 0 {
        seq![c]
    } else if s[0].score < c.score {
        seq![c] + s
    } else {
        seq![s[0]] + insert_by_score(s.skip(1), c)
    }
}

/// Stable sort of the candidates by descending score: candidates are taken
/// in inventory order and each is placed behind existing equal scores.
pub open spec fn sort_candidates(s: Seq<CandidateV>) -> Seq<CandidateV>
    decreases s.len(),
{
    if s.len() == 0 {
        Seq::empty()
    } else {
        insert_by_score(sort_candidates(s.drop_last()), s.last())
    }
}

/// `h` must stand before `x` in the presented list: a strictly higher
/// score, or an equal score and an earlier inventory position.
pub open spec fn precedes(h: CandidateV, x: CandidateV) -> bool {
    h.score > x.score || (h.score == x.score && h.inv_index < x.inv_index)
}

/// Every pair of positions is ordered: strictly greater score first, and
/// at equal scores the candidate from earlier in the inventory first.
pub open spec fn stably_ordered(s: Seq<CandidateV>) -> bool {
    forall|p: int, q: int| 0 <= p < q < s.len() ==> precedes(s[p], s[q])
}

/// Outcome of resolving a token against the inventory.
pub enum Resolution {
    /// Exactly one worktree was determined; its path.
    Found { path: String },
    /// Several fuzzy candidates remain: present their branch names for
    /// single-select disambiguation, best score first.
    Ambiguous { candidates: Vec<Candidate> },
    /// Nothing matched.
    NotFound,
}

/// What `resolve_worktree` owes for a given inventory and token.
pub open spec fn resolution_ok(recs: Seq<RecordV>, token: Seq<char>, r: Resolution) -> bool {
    let sorted = sort_candidates(scored_candidates(recs, token));
    match exact_path(recs, token) {
        Some(p) => r matches Resolution::Found { path } && path@ == p,
        None => if sorted.len() == 0 {
            r is NotFound
        } else if sorted.len() == 1 {
            r matches Resolution::Found { path } && path@ == sorted[0].path
        } else {
            r matches Resolution::Ambiguous { candidates } && candidates.deep_view() == sorted
        },
    }
}

/// Resolve a user token against the inventory: the exact pass wins
/// outright; otherwise the positively-scored fuzzy candidates decide —
/// none is `NotFound`, one is `Found`, several are `Ambiguous` with the
/// candidates stably sorted by descending score.
///
/// Branch names must stay below the fuzzy matcher's documented limit of
/// 2^32 codepoints; beyond it the matcher would panic.
pub fn resolve_worktree(records: &Vec<WorktreeRecord>, token: &str) -> (r: Resolution)
    requires
        forall|k: int| 0 <= k < records.deep_view().len() ==> (#[trigger] records.deep_view()[k]).branch.len()
            < 0x1_0000_0000,
    ensures
        resolution_ok(records.deep_view(), token@, r),
{
    let n = records.len();
    let ghost recs = records.deep_view();
    proof {
        assert(recs.len() == records@.len());
        assert(recs.skip(0) =~= recs);
    }
    // Exact pass: the first record whose branch equals the token, verbatim.
    let mut i: usize = 0;
    while i < n
        invariant
            n == records@.len(),
            recs == records.deep_view(),
            i <= n,
            exact_path(recs.skip(i as int), token@) == exact_path(recs, token@),
        decreases n - i,
    {
        let rec = &records[i];
        proof {
            assert(recs.skip(i as int)[0] == recs[i as int]);
            assert(recs[i as int] == records@[i as int]@);
        }
        if str_eq(rec.branch.as_str(), token) {
            return Resolution::Found { path: rec.path.clone() };
        }
        proof {
            assert(recs.skip(i as int).skip(1) =~= recs.skip(i as int + 1));
        }
        i += 1;
    }
    proof {
        assert(recs.skip(n as int) =~= Seq::<RecordV>::empty());
    }
    // Fuzzy pass: keep the positively-scored records, in inventory order.
    let mut scored: Vec<Candidate> = Vec::new();
    let mut i: usize = 0;
    proof {
        assert(recs.take(0) =~= Seq::<RecordV>::empty());
        assert(scored.deep_view() =~= Seq::<CandidateV>::empty());
    }
    while i < n
        invariant
            n == records@.len(),
            recs == records.deep_view(),
            forall|k: int| 0 <= k < recs.len() ==> (#[trigger] recs[k]).branch.len()
                < 0x1_0000_0000,
            i <= n,
            scored.deep_view() == scored_candidates(recs.take(i as int), token@),
        decreases n - i,
    {
        let rec = &records[i];
        proof {
            assert(recs[i as int] == records@[i as int]@);
            assert(rec.branch@.len() < 0x1_0000_0000);
            assert(recs.take(i as int + 1).drop_last() =~= recs.take(i as int));
            assert(recs.take(i as int + 1).last() == recs[i as int]);
        }
        let ghost prev = scored.deep_view();
        match fuzzy_score(token, rec.branch.as_str()) {
            Some(s) => {
                if s > 0 {
                    let cand = Candidate {
                        score: s,
                        inv_index: i,
                        branch: rec.branch.clone(),
                        path: rec.path.clone(),
                    };
                    let ghost cv = cand@;
                    scored.push(cand);
                    proof {
                        assert(scored.deep_view() =~= prev.push(cv));
                    }
                }
            },
            None => {},
        }
        i += 1;
    }
    proof {
        assert(recs.take(n as int) =~= recs);
    }
    // Stable insertion sort, descending by score.
    let ghost scored_all = scored.deep_view();
    let m = scored.len();
    let mut sorted: Vec<Candidate> = Vec::new();
    let mut j: usize = 0;
    proof {
        assert(scored_all.take(0) =~= Seq::<CandidateV>::empty());
        assert(sorted.deep_view() =~= Seq::<CandidateV>::empty());
    }
    while j < m
        invariant
            m == scored@.len(),
            scored_all == scored.deep_view(),
            j <= m,
            sorted.deep_view() == sort_candidates(scored_all.take(j as int)),
        decreases m - j,
    {
        let c = scored[j].duplicate();
        let ghost cv = c@;
        proof {
            assert(cv == scored_all[j as int]);
        }
        let ghost before = sorted.deep_view();
        let mut k: usize = 0;
        while k < sorted.len() && sorted[k].score >= c.score
            invariant
                cv == c@,
                before == sorted.deep_view(),
                k <= sorted@.len(),
                before.len() == sorted@.len(),
                forall|t: int| 0 <= t < k ==> before[t].score >= cv.score,
            decreases sorted@.len() - k,
        {
            proof {
                assert(sorted@[k as int].score >= c.score);
                assert(before[k as int] == sorted@[k as int]@);
                assert(before[k as int].score >= cv.score);
            }
            k += 1;
        }
        proof {
            assert(k == before.len() || before[k as int].score < cv.score);
        }
        sorted.insert(k, c);
        proof {
            lemma_insert_at_pos(before, cv, k as int);
            assert(sorted.deep_view() =~= before.take(k as int) + seq![cv] + before.skip(
                k as int,
            ));
            assert(scored_all.take(j as int + 1).drop_last() =~= scored_all.take(j as int));
            assert(scored_all.take(j as int + 1).last() == scored_all[j as int]);
            assert(sorted.deep_view() == sort_candidates(scored_all.take(j as int + 1)));
        }
        j += 1;
    }
    proof {
        assert(scored_all.take(m as int) =~= scored_all);
    }
    if sorted.len() == 0 {
        Resolution::NotFound
    } else if sorted.len() == 1 {
        let ghost sdv = sorted.deep_view();
        let c = sorted.remove(0);
        proof {
            assert(c@ == sdv[0]);
        }
        Resolution::Found { path: c.path }
    } else {
        Resolution::Ambiguous { candidates: sorted }
    }
}

/// Inserting at the first position whose score is strictly below `c.score`
/// is exactly what `insert_by_score` does.
proof fn lemma_insert_at_pos(s: Seq<CandidateV>, c: CandidateV, k: int)
    requires
        0 <= k <= s.len(),
        forall|t: int| 0 <= t < k ==> s[t].score >= c.score,
        k == s.len() || s[k].score < c.score,
    ensures
        insert_by_score(s, c) =~= s.take(k) + seq![c] + s.skip(k),
    decreases s.len(),
{
    if k == 0 {
        if s.len() == 0 {
            assert(insert_by_score(s, c) =~= s.take(0) + seq![c] + s.skip(0));
        } else {
            assert(s[0].score < c.score);
            assert(insert_by_score(s, c) =~= s.take(0) + seq![c] + s.skip(0));
        }
    } else {
        assert(s[0].score >= c.score);
        lemma_insert_at_pos(s.skip(1), c, k - 1);
        assert(s.skip(1).take(k - 1) =~= s.take(k).skip(1));
        assert(s.skip(1).skip(k - 1) =~= s.skip(k));
        assert(insert_by_score(s, c) =~= s.take(k) + seq![c] + s.skip(k));
    }
}

/// Exact match always wins: when `j` is the first position whose branch
/// equals the token, the exact pass yields that record's path, whatever
/// near-matches stand elsewhere in the inventory — so by `resolution_ok`
/// the resolution is `Found` with that path, and the fuzzy scores and the
/// prompt play no part.
pub proof fn lemma_exact_match_wins(recs: Seq<RecordV>, token: Seq<char>, j: int)
    requires
        0 <= j < recs.len(),
        recs[j].branch == token,
        forall|k: int| 0 <= k < j ==> (#[trigger] recs[k]).branch != token,
    ensures
        exact_path(recs, token) == Some(recs[j].path),
    decreases j,
{
    if j == 0 {
    } else {
        assert(recs[0].branch != token);
        assert forall|k: int| 0 <= k < j - 1 implies (#[trigger] recs.skip(1)[k]).branch
            != token by {
            assert(recs.skip(1)[k] == recs[k + 1]);
        }
        assert(recs.skip(1)[j - 1] == recs[j]);
        lemma_exact_match_wins(recs.skip(1), token, j - 1);
    }
}

proof fn lemma_insert_props(s: Seq<CandidateV>, c: CandidateV)
    requires
        stably_ordered(s),
        forall|t: int| 0 <= t < s.len() ==> (#[trigger] s[t]).inv_index < c.inv_index,
    ensures
        insert_by_score(s, c).len() == s.len() + 1,
        stably_ordered(insert_by_score(s, c)),
        forall|q: int| 0 <= q < insert_by_score(s, c).len() ==> ((#[trigger] insert_by_score(s, c)[q])
            == c || exists|t: int| 0 <= t < s.len() && insert_by_score(s, c)[q] == s[t]),
    decreases s.len(),
{
    let r = insert_by_score(s, c);
    if s.len() == 0 {
        assert(r =~= seq![c]);
    } else if s[0].score < c.score {
        assert(r =~= seq![c] + s);
        assert forall|p: int, q: int| 0 <= p < q < r.len() implies precedes(r[p], r[q]) by {
            if p == 0 {
                assert(r[q] == s[q - 1]);
                if q - 1 > 0 {
                    assert(precedes(s[0], s[q - 1]));
                }
                assert(s[q - 1].score <= s[0].score);
            } else {
                assert(r[p] == s[p - 1] && r[q] == s[q - 1]);
                assert(precedes(s[p - 1], s[q - 1]));
            }
        }
        assert forall|q: int| 0 <= q < r.len() implies ((#[trigger] r[q]) == c || exists|t: int|
            0 <= t < s.len() && r[q] == s[t]) by {
            if q > 0 {
                assert(r[q] == s[q - 1]);
            }
        }
    } else {
        let s1 = s.skip(1);
        let r1 = insert_by_score(s1, c);
        assert(r =~= seq![s[0]] + r1);
        assert forall|p: int, q: int| 0 <= p < q < s1.len() implies precedes(s1[p], s1[q]) by {
            assert(s1[p] == s[p + 1] && s1[q] == s[q + 1]);
        }
        assert forall|t: int| 0 <= t < s1.len() implies (#[trigger] s1[t]).inv_index
            < c.inv_index by {
            assert(s1[t] == s[t + 1]);
        }
        lemma_insert_props(s1, c);
        assert forall|p: int, q: int| 0 <= p < q < r.len() implies precedes(r[p], r[q]) by {
            if p == 0 {
                assert(r[q] == r1[q - 1]);
                if r1[q - 1] == c {
                    assert(s[0].score >= c.score);
                    assert(s[0].inv_index < c.inv_index);
                } else {
                    let t = choose|t: int| 0 <= t < s1.len() && r1[q - 1] == s1[t];
                    assert(r1[q - 1] == s[t + 1]);
                    assert(precedes(s[0], s[t + 1]));
                }
            } else {
                assert(r[p] == r1[p - 1] && r[q] == r1[q - 1]);
                assert(precedes(r1[p - 1], r1[q - 1]));
            }
        }
        assert forall|q: int| 0 <= q < r.len() implies ((#[trigger] r[q]) == c || exists|t: int|
            0 <= t < s.len() && r[q] == s[t]) by {
            if q == 0 {
                assert(r[0] == s[0]);
            } else {
                assert(r[q] == r1[q - 1]);
                if r1[q - 1] != c {
                    let t = choose|t: int| 0 <= t < s1.len() && r1[q - 1] == s1[t];
                    assert(r[q] == s[t + 1]);
                }
            }
        }
    }
}

proof fn lemma_sort_props(s: Seq<CandidateV>)
    requires
        forall|p: int, q: int| 0 <= p < q < s.len() ==> s[p].inv_index < s[q].inv_index,
    ensures
        sort_candidates(s).len() == s.len(),
        stably_ordered(sort_candidates(s)),
        forall|q: int| 0 <= q < s.len() ==> exists|t: int| 0 <= t < s.len() && (#[trigger]
        sort_candidates(s)[q]) == s[t],
    decreases s.len(),
{
    if s.len() > 0 {
        let d = s.drop_last();
        let last = s.last();
        assert forall|p: int, q: int| 0 <= p < q < d.len() implies d[p].inv_index
            < d[q].inv_index by {
            assert(d[p] == s[p] && d[q] == s[q]);
        }
        lemma_sort_props(d);
        let sd = sort_candidates(d);
        assert forall|t: int| 0 <= t < sd.len() implies (#[trigger] sd[t]).inv_index
            < last.inv_index by {
            let w = choose|w: int| 0 <= w < d.len() && sd[t] == d[w];
            assert(d[w] == s[w]);
            assert(s[w].inv_index < s[s.len() - 1].inv_index);
        }
        lemma_insert_props(sd, last);
        let r = sort_candidates(s);
        assert(r == insert_by_score(sd, last));
        assert forall|q: int| 0 <= q < s.len() implies exists|t: int| 0 <= t < s.len() && (
        #[trigger] r[q]) == s[t] by {
            if r[q] == last {
                assert(r[q] == s[s.len() - 1]);
            } else {
                let t = choose|t: int| 0 <= t < sd.len() && r[q] == sd[t];
                let w = choose|w: int| 0 <= w < d.len() && sd[t] == d[w];
                assert(r[q] == s[w]);
            }
        }
    }
}

proof fn lemma_scored_indices(recs: Seq<RecordV>, token: Seq<char>)
    ensures
        forall|t: int| 0 <= t < scored_candidates(recs, token).len() ==> 0 <= (
        #[trigger] scored_candidates(recs, token)[t]).inv_index < recs.len(),
        forall|p: int, q: int| 0 <= p < q < scored_candidates(recs, token).len() ==>
            scored_candidates(recs, token)[p].inv_index < scored_candidates(
                recs,
                token,
            )[q].inv_index,
    decreases recs.len(),
{
    if recs.len() > 0 {
        lemma_scored_indices(recs.drop_last(), token);
        let prefix = scored_candidates(recs.drop_last(), token);
        let sc = scored_candidates(recs, token);
        assert(forall|t: int| 0 <= t < prefix.len() ==> 0 <= (#[trigger] prefix[t]).inv_index
            < recs.len() - 1);
        if sc == prefix {
            assert forall|t: int| 0 <= t < sc.len() implies 0 <= (#[trigger] sc[t]).inv_index
                < recs.len() by {
                assert(sc[t] == prefix[t]);
            }
            assert forall|p: int, q: int| 0 <= p < q < sc.len() implies sc[p].inv_index
                < sc[q].inv_index by {
                assert(sc[p] == prefix[p] && sc[q] == prefix[q]);
            }
        } else {
            assert(sc.len() == prefix.len() + 1 && sc.last().inv_index == recs.len() - 1
                && forall|t: int| 0 <= t < prefix.len() ==> sc[t] == prefix[t]);
            assert forall|t: int| 0 <= t < sc.len() implies 0 <= (#[trigger] sc[t]).inv_index
                < recs.len() by {
                if t < prefix.len() {
                    assert(sc[t] == prefix[t]);
                }
            }
            assert forall|p: int, q: int| 0 <= p < q < sc.len() implies sc[p].inv_index
                < sc[q].inv_index by {
                assert(sc[p] == prefix[p]);
                if q < prefix.len() {
                    assert(sc[q] == prefix[q]);
                }
            }
        }
    }
}

/// Fuzzy ordering is stable under ties: the candidate list that resolution
/// presents for disambiguation is ordered by strictly descending score, and
/// of two candidates with equal score the one that appeared earlier in the
/// inventory stands first.
pub proof fn lemma_fuzzy_order_stable(recs: Seq<RecordV>, token: Seq<char>)
    ensures
        stably_ordered(sort_candidates(scored_candidates(recs, token))),
{
    lemma_scored_indices(recs, token);
    lemma_sort_props(scored_candidates(recs, token));
}

/// Path of the first candidate whose branch equals the selected label.
pub open spec fn selected_path(cands: Seq<CandidateV>, selected: Seq<char>) -> Option<Seq<char>>
    decreases cands.len(),
{
    if cands.len() == 0 {
        None
    } else if cands[0].branch == selected {
        Some(cands[0].path)
    } else {
        selected_path(cands.skip(1), selected)
    }
}

/// After the user picks a label in the disambiguation list, the path of the
/// first candidate carrying that branch name.
pub fn path_for_selection(cands: &Vec<Candidate>, selected: &str) -> (r: Option<String>)
    ensures
        match r {
            Some(p) => selected_path(cands.deep_view(), selected@) == Some(p@),
            None => selected_path(cands.deep_view(), selected@) is None,
        },
{
    let n = cands.len();
    let ghost cs = cands.deep_view();
    proof {
        assert(cs.skip(0) =~= cs);
    }
    let mut i: usize = 0;
    while i < n
        invariant
            n == cands@.len(),
            cs == cands.deep_view(),
            i <= n,
            selected_path(cs.skip(i as int), selected@) == selected_path(cs, selected@),
        decreases n - i,
    {
        let c = &cands[i];
        proof {
            assert(cs.skip(i as int)[0] == cs[i as int]);
            assert(cs[i as int] == cands@[i as int]@);
        }
        if str_eq(c.branch.as_str(), selected) {
            return Some(c.path.clone());
        }
        proof {
            assert(cs.skip(i as int).skip(1) =~= cs.skip(i as int + 1));
        }
        i += 1;
    }
    proof {
        assert(cs.skip(n as int) =~= Seq::<CandidateV>::empty());
    }
    None
}

} // verus!
