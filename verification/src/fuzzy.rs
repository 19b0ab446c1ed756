//! Fuzzy filtering of a listing against a search query.
use vstd::prelude::*;
use crate::nav::FileEntry;
use nucleo_matcher::pattern::{AtomKind, CaseMatching, Normalization, Pattern};

verus! {

#[verifier::external_type_specification]
#[verifier::external_body]
pub struct ExMatcher(nucleo_matcher::Matcher);

/// What nucleo's fuzzy pattern for `query` (case ignored, smart Unicode
/// normalisation) scores against `name`, with the default matcher
/// configuration: `None` when it does not match.
pub uninterp spec fn fuzzy_score(query: Seq<char>, name: Seq<char>) -> Option<u32>;

/// Calls `Matcher::new` with the default configuration.
#[verifier::external_body]
fn new_matcher() -> (r: nucleo_matcher::Matcher) {
    nucleo_matcher::Matcher::new(nucleo_matcher::Config::DEFAULT)
}

/// Calls `Pattern::score` for the pattern that `Pattern::new` builds from
/// `query` (case ignored, smart normalisation, fuzzy atoms) on `name`; the
/// result is `fuzzy_score(query, name)`. The matcher is only scratch space:
/// every matcher here is one `new_matcher` made, with the default
/// configuration.
#[verifier::external_body]
fn pattern_score(matcher: &mut nucleo_matcher::Matcher, query: &str, name: &str) -> (r: Option<u32>)
    ensures
        r == fuzzy_score(query@, name@),
{
    let pattern = Pattern::new(query, CaseMatching::Ignore, Normalization::Smart, AtomKind::Fuzzy);
    let mut buf = Vec::new();
    pattern.score(nucleo_matcher::Utf32Str::new(name, &mut buf), matcher)
}

/// Position `i` ranks above position `j` under the scores `s`: a higher
/// score, or the same score and an earlier position.
pub open spec fn outranks(s: Seq<Option<u32>>, i: usize, j: usize) -> bool {
    s[i as int]->0 > s[j as int]->0 || (s[i as int]->0 == s[j as int]->0 && i < j)
}

/// `r` lists exactly the positions that have a score, best first: higher
/// scores first, equal scores by position.
pub open spec fn ranked(r: Seq<usize>, s: Seq<Option<u32>>) -> bool {
    &&& forall|k: int| 0 <= k < r.len() ==> #[trigger] r[k] < s.len() && s[r[k] as int] is Some
    &&& forall|i: int| 0 <= i < s.len() && #[trigger] s[i] is Some ==> r.contains(i as usize)
    &&& forall|a: int, b: int| 0 <= a < b < r.len() ==> outranks(s, r[a], r[b])
}

/// The ranking of the scores `s`: the one sequence that `ranked` admits
/// (see `lemma_ranked_unique`).
pub open spec fn rank_order(s: Seq<Option<u32>>) -> Seq<usize> {
    choose|r: Seq<usize>| ranked(r, s)
}

/// Dropping the best position of a ranking ranks what is left once that
/// position has lost its score.
proof fn lemma_ranked_tail(r: Seq<usize>, s: Seq<Option<u32>>)
    requires
        ranked(r, s),
        r.len() > 0,
        s.len() <= usize::MAX,
    ensures
        ranked(r.drop_first(), s.update(r[0] as int, None)),
{
    let p = r[0];
    let s2 = s.update(p as int, None);
    let t = r.drop_first();
    assert forall|k: int| 0 <= k < t.len() implies #[trigger] t[k] < s2.len() && s2[t[k] as int] is Some by {
        assert(t[k] == r[k + 1]);
        assert(outranks(s, r[0], r[k + 1]));
    }
    assert forall|i: int| 0 <= i < s2.len() && #[trigger] s2[i] is Some implies t.contains(i as usize) by {
        assert(s[i] is Some);
        assert(r.contains(i as usize));
        let w = choose|w: int| 0 <= w < r.len() && r[w] == i as usize;
        assert(w != 0);
        assert(t[w - 1] == i as usize);
    }
    assert forall|a: int, b: int| 0 <= a < b < t.len() implies outranks(s2, t[a], t[b]) by {
        assert(outranks(s, r[0], r[a + 1]));
        assert(outranks(s, r[0], r[b + 1]));
        assert(outranks(s, r[a + 1], r[b + 1]));
    }
}

/// A ranking is determined by its scores: two sequences that both rank `s`
/// are the same.
pub proof fn lemma_ranked_unique(r1: Seq<usize>, r2: Seq<usize>, s: Seq<Option<u32>>)
    requires
        ranked(r1, s),
        ranked(r2, s),
        s.len() <= usize::MAX,
    ensures
        r1 == r2,
    decreases r1.len(),
{
    if r1.len() == 0 {
        if r2.len() > 0 {
            assert(s[r2[0] as int] is Some);
            assert(r1.contains(r2[0]));
        }
        assert(r1 =~= r2);
    } else {
        let p = r1[0];
        assert(s[p as int] is Some);
        assert(r2.contains(p));
        let j = choose|j: int| 0 <= j < r2.len() && r2[j] == p;
        let q = r2[0];
        assert(s[q as int] is Some);
        assert(r1.contains(q));
        let i = choose|i: int| 0 <= i < r1.len() && r1[i] == q;
        if j > 0 {
            assert(outranks(s, q, p));
            if i > 0 {
                assert(outranks(s, p, q));
            }
        }
        assert(p == q);
        lemma_ranked_tail(r1, s);
        lemma_ranked_tail(r2, s);
        lemma_ranked_unique(r1.drop_first(), r2.drop_first(), s.update(p as int, None));
        assert(r1 =~= seq![p] + r1.drop_first());
        assert(r2 =~= seq![p] + r2.drop_first());
    }
}

/// Whatever ranks `s` is its ranking.
pub proof fn lemma_rank_order(r: Seq<usize>, s: Seq<Option<u32>>)
    requires
        ranked(r, s),
        s.len() <= usize::MAX,
    ensures
        r == rank_order(s),
{
    assert(ranked(rank_order(s), s));
    lemma_ranked_unique(r, rank_order(s), s);
}

/// How many of the leading positions of `r` rank above position `i`.
pub open spec fn ahead(r: Seq<usize>, s: Seq<Option<u32>>, i: usize) -> nat
    decreases r.len(),
{
    if r.len() == 0 {
        0
    } else if outranks(s, r[0], i) {
        1 + ahead(r.drop_first(), s, i)
    } else {
        0
    }
}

/// In a sequence sorted by rank, the positions that rank above `i` come
/// first, and `i` ranks above all the others.
proof fn lemma_ahead(r: Seq<usize>, s: Seq<Option<u32>>, i: usize)
    requires
        forall|k: int| 0 <= k < r.len() ==> #[trigger] r[k] < i && s[r[k] as int] is Some,
        forall|a: int, b: int| 0 <= a < b < r.len() ==> outranks(s, r[a], r[b]),
        s[i as int] is Some,
    ensures
        ahead(r, s, i) <= r.len(),
        forall|k: int| 0 <= k < ahead(r, s, i) ==> outranks(s, #[trigger] r[k], i),
        forall|k: int| ahead(r, s, i) <= k < r.len() ==> outranks(s, i, #[trigger] r[k]),
    decreases r.len(),
{
    if r.len() > 0 {
        let t = r.drop_first();
        assert forall|a: int, b: int| 0 <= a < b < t.len() implies outranks(s, t[a], t[b]) by {
            assert(outranks(s, r[a + 1], r[b + 1]));
        }
        lemma_ahead(t, s, i);
        if outranks(s, r[0], i) {
            assert forall|k: int| 0 <= k < ahead(r, s, i) implies outranks(s, #[trigger] r[k], i) by {
                if k > 0 {
                    assert(r[k] == t[k - 1]);
                }
            }
            assert forall|k: int| ahead(r, s, i) <= k < r.len() implies outranks(s, i, #[trigger] r[k]) by {
                assert(r[k] == t[k - 1]);
            }
        } else {
            assert forall|k: int| 0 <= k < r.len() implies outranks(s, i, #[trigger] r[k]) by {
                if k > 0 {
                    assert(outranks(s, r[0], r[k]));
                }
            }
        }
    }
}

/// Some sequence ranks the first `n` scores of `s`.
proof fn lemma_prefix_ranking(s: Seq<Option<u32>>, n: nat) -> (r: Seq<usize>)
    requires
        n <= s.len(),
        s.len() <= usize::MAX,
    ensures
        ranked(r, s.take(n as int)),
    decreases n,
{
    if n == 0 {
        let r = Seq::<usize>::empty();
        assert forall|i: int| 0 <= i < s.take(0).len() && #[trigger] s.take(0)[i] is Some implies r.contains(
            i as usize,
        ) by {}
        r
    } else {
        let r0 = lemma_prefix_ranking(s, (n - 1) as nat);
        let t0 = s.take(n - 1);
        let t = s.take(n as int);
        let i = (n - 1) as usize;
        assert forall|k: int| 0 <= k < n - 1 implies #[trigger] t[k] == t0[k] by {}
        assert forall|a: usize, b: usize| a < n - 1 && b < n - 1 implies #[trigger] outranks(t, a, b)
            == outranks(t0, a, b) by {
            assert(t[a as int] == t0[a as int]);
            assert(t[b as int] == t0[b as int]);
        }
        if t[n - 1] is None {
            assert forall|k: int| 0 <= k < r0.len() implies #[trigger] r0[k] < t.len() && t[r0[k] as int] is Some by {
                assert(t[r0[k] as int] == t0[r0[k] as int]);
            }
            assert forall|j: int| 0 <= j < t.len() && #[trigger] t[j] is Some implies r0.contains(j as usize) by {
                assert(t0[j] is Some);
            }
            assert forall|a: int, b: int| 0 <= a < b < r0.len() implies outranks(t, r0[a], r0[b]) by {
                assert(outranks(t0, r0[a], r0[b]));
            }
            r0
        } else {
            assert forall|a: int, b: int| 0 <= a < b < r0.len() implies outranks(t, r0[a], r0[b]) by {
                assert(outranks(t0, r0[a], r0[b]));
            }
            assert forall|k: int| 0 <= k < r0.len() implies #[trigger] r0[k] < i && t[r0[k] as int] is Some by {
                assert(t[r0[k] as int] == t0[r0[k] as int]);
            }
            lemma_ahead(r0, t, i);
            let p = ahead(r0, t, i) as int;
            let r = r0.insert(p, i);
            r0.insert_ensures(p, i);
            assert forall|k: int| 0 <= k < r.len() implies #[trigger] r[k] < t.len() && t[r[k] as int] is Some by {
                if k < p {
                    assert(r[k] == r0[k]);
                } else if k > p {
                    assert(r[k] == r0[k - 1]);
                }
            }
            assert forall|j: int| 0 <= j < t.len() && #[trigger] t[j] is Some implies r.contains(j as usize) by {
                if j == i {
                    assert(r[p] == i);
                } else {
                    assert(t0[j] is Some);
                    assert(r0.contains(j as usize));
                    let w = choose|w: int| 0 <= w < r0.len() && r0[w] == j as usize;
                    if w < p {
                        assert(r[w] == r0[w]);
                    } else {
                        assert(r[w + 1] == r0[w]);
                    }
                }
            }
            assert forall|a: int, b: int| 0 <= a < b < r.len() implies outranks(t, r[a], r[b]) by {
                if b < p {
                    assert(r[a] == r0[a] && r[b] == r0[b]);
                } else if b == p {
                    assert(r[a] == r0[a]);
                } else if a < p {
                    assert(r[a] == r0[a] && r[b] == r0[b - 1]);
                } else if a == p {
                    assert(r[b] == r0[b - 1]);
                } else {
                    assert(r[a] == r0[a - 1] && r[b] == r0[b - 1]);
                }
            }
            r
        }
    }
}

/// Every list of scores has a ranking: `rank_order` ranks it.
pub proof fn lemma_ranking_exists(s: Seq<Option<u32>>)
    requires
        s.len() <= usize::MAX,
    ensures
        ranked(rank_order(s), s),
{
    let r = lemma_prefix_ranking(s, s.len());
    assert(s.take(s.len() as int) =~= s);
}

/// The positions that have a score, best first (see `ranked`).
pub fn rank_by_score(scores: &Vec<Option<u32>>) -> (r: Vec<usize>)
    ensures
        ranked(r@, scores@),
{
    let ghost s = scores@;
    let mut out: Vec<usize> = Vec::new();
    let mut i: usize = 0;
    while i < scores.len()
        invariant
            i <= s.len(),
            s == scores@,
            forall|k: int| 0 <= k < out@.len() ==> #[trigger] out@[k] < i && s[out@[k] as int] is Some,
            forall|j: int| 0 <= j < i && #[trigger] s[j] is Some ==> out@.contains(j as usize),
            forall|a: int, b: int| 0 <= a < b < out@.len() ==> outranks(s, out@[a], out@[b]),
        decreases s.len() - i,
    {
        if let Some(si) = scores[i] {
            let mut p = out.len();
            while p > 0 && better(scores, i, out[p - 1])
                invariant
                    0 <= p <= out@.len(),
                    i < s.len(),
                    s == scores@,
                    s[i as int] is Some,
                    forall|k: int| 0 <= k < out@.len() ==> #[trigger] out@[k] < i && s[out@[k] as int] is Some,
                    forall|q: int| p <= q < out@.len() ==> outranks(s, i, #[trigger] out@[q]),
                decreases p,
            {
                p = p - 1;
            }
            let ghost o = out@;
            out.insert(p, i);
            proof {
                o.insert_ensures(p as int, i);
                assert forall|k: int| 0 <= k < out@.len() implies #[trigger] out@[k] < i + 1 && s[out@[k] as int] is Some by {
                    if k > p as int {
                        assert(out@[k] == o[k - 1]);
                    }
                }
                assert forall|j: int| 0 <= j < i + 1 && #[trigger] s[j] is Some implies out@.contains(j as usize) by {
                    if j == i {
                        assert(out@[p as int] == i);
                    } else {
                        assert(o.contains(j as usize));
                        let w = choose|w: int| 0 <= w < o.len() && o[w] == j as usize;
                        if w < p {
                            assert(out@[w] == o[w]);
                        } else {
                            assert(out@[w + 1] == o[w]);
                        }
                    }
                }
                assert forall|a: int, b: int| 0 <= a < b < out@.len() implies outranks(s, out@[a], out@[b]) by {
                    if b < p {
                        assert(out@[a] == o[a] && out@[b] == o[b]);
                    } else if b == p {
                        assert(out@[a] == o[a]);
                        assert(o[a] < i);
                        assert(!outranks(s, i, o[p - 1]));
                        if a < p - 1 {
                            assert(outranks(s, o[a], o[p - 1]));
                        }
                    } else if a < p {
                        assert(out@[a] == o[a] && out@[b] == o[b - 1]);
                        assert(outranks(s, o[a], o[b - 1]));
                    } else if a == p {
                        assert(out@[b] == o[b - 1]);
                        assert(outranks(s, i, o[b - 1]));
                    } else {
                        assert(out@[a] == o[a - 1] && out@[b] == o[b - 1]);
                        assert(outranks(s, o[a - 1], o[b - 1]));
                    }
                }
            }
        } else {
            assert forall|j: int| 0 <= j < i + 1 && #[trigger] s[j] is Some implies out@.contains(j as usize) by {}
        }
        i = i + 1;
    }
    out
}

fn better(scores: &Vec<Option<u32>>, i: usize, j: usize) -> (r: bool)
    requires
        i < scores@.len(),
        j < scores@.len(),
        scores@[i as int] is Some,
        scores@[j as int] is Some,
    ensures
        r == outranks(scores@, i, j),
{
    match (scores[i], scores[j]) {
        (Some(a), Some(b)) => a > b || (a == b && i < j),
        _ => false,
    }
}

/// The score of each entry for `query`: all equal when the query is empty,
/// else the fuzzy score of its name.
pub open spec fn entry_scores(entries: Seq<FileEntry>, query: Seq<char>) -> Seq<Option<u32>> {
    Seq::new(
        entries.len(),
        |i: int| if query.len() == 0 {
            Some(0u32)
        } else {
            fuzzy_score(query, entries[i].name@)
        },
    )
}

/// Filter entries by fuzzy-matching against the query. Returns indices into
/// `entries`, ordered by score (best first), equal scores in listing order;
/// an empty query keeps every entry.
pub fn filter_entries(entries: &[FileEntry], query: &str) -> (r: Vec<usize>)
    ensures
        ranked(r@, entry_scores(entries@, query@)),
        query@.len() == 0 ==> r@ == Seq::new(entries@.len(), |i: int| i as usize),
{
    if query.is_empty() {
        let mut all: Vec<usize> = Vec::new();
        let mut i: usize = 0;
        while i < entries.len()
            invariant
                i <= entries@.len(),
                all@ == Seq::new(i as nat, |k: int| k as usize),
            decreases entries@.len() - i,
        {
            all.push(i);
            i = i + 1;
            assert(all@ =~= Seq::new(i as nat, |k: int| k as usize));
        }
        let ghost s = entry_scores(entries@, query@);
        assert forall|j: int| 0 <= j < s.len() && #[trigger] s[j] is Some implies all@.contains(j as usize) by {
            assert(all@[j] == j as usize);
        }
        return all;
    }
    let mut matcher = new_matcher();
    let mut scores: Vec<Option<u32>> = Vec::new();
    let mut i: usize = 0;
    while i < entries.len()
        invariant
            i <= entries@.len(),
            query@.len() > 0,
            scores@ == entry_scores(entries@, query@).take(i as int),
        decreases entries@.len() - i,
    {
        scores.push(pattern_score(&mut matcher, query, entries[i].name.as_str()));
        i = i + 1;
        assert(scores@ =~= entry_scores(entries@, query@).take(i as int));
    }
    assert(scores@ =~= entry_scores(entries@, query@));
    rank_by_score(&scores)
}

} // verus!
