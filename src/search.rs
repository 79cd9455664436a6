//! Ranked search over the AMSAT entries.
//!
//! The query and every name are compared in their search form (ASCII lower
//! case, without punctuation and white space). Three phases run in order;
//! the first that finds anything gives the result, ordered by descending
//! score, entries of equal score in store order. Scores are in units of
//! 1/10000. A fuzzy phase over string similarity, for when all three find
//! nothing, is the caller's: it needs floating point.
use vstd::prelude::*;

use crate::amsat_name::{normalize_for_search, normalized, views};
use crate::entry::AmsatEntry;
use crate::text::{chars_of, contains_chars, has_piece, same_chars};

verus! {

/// How a search matched.
#[derive(Debug, Clone, Copy, PartialEq, Eq, Structural)]
pub enum AmsatMatchType {
    /// The API name or one of its aliases.
    ExactApiName,
    /// The base name, e.g. `iss` for every `ISS-*` entry.
    BaseName,
    /// One name contains the other.
    Contains,
    /// String similarity.
    Fuzzy,
}

/// One search hit.
#[derive(Debug, Clone)]
pub struct AmsatSearchResult {
    /// Position of the entry in the searched list.
    pub index: usize,
    /// The entry's API name.
    pub api_name: String,
    pub match_type: AmsatMatchType,
    /// Score in units of 1/10000.
    pub score: u32,
}

pub ghost struct SearchHit {
    pub index: int,
    pub api_name: Seq<char>,
    pub match_type: AmsatMatchType,
    pub score: int,
}

impl View for AmsatSearchResult {
    type V = SearchHit;

    open spec fn view(&self) -> SearchHit {
        SearchHit {
            index: self.index as int,
            api_name: self.api_name@,
            match_type: self.match_type,
            score: self.score as int,
        }
    }
}

pub open spec fn hits_view(v: Seq<AmsatSearchResult>) -> Seq<SearchHit> {
    v.map_values(|r: AmsatSearchResult| r@)
}

/// Some alias has search form `q`.
pub open spec fn alias_equals(aliases: Seq<Seq<char>>, q: Seq<char>) -> bool {
    exists|i: int| 0 <= i < aliases.len() && normalized(#[trigger] aliases[i]) == q
}

/// `a` contains `b` or `b` contains `a`.
pub open spec fn overlaps(a: Seq<char>, b: Seq<char>) -> bool {
    has_piece(a, b) || has_piece(b, a)
}

/// `|q| / max(1, |n|)` in units of 1/10000, at most `cap`.
pub open spec fn ratio_score(q: Seq<char>, n: Seq<char>, cap: int) -> int {
    let d = if n.len() == 0 {
        1
    } else {
        n.len() as int
    };
    let s = (q.len() as int * 10000) / d;
    if s > cap {
        cap
    } else {
        s
    }
}

/// The first alias from `i` on whose search form overlaps `q`.
pub open spec fn first_overlap(aliases: Seq<Seq<char>>, q: Seq<char>, i: int) -> Option<int>
    decreases aliases.len() - i,
{
    if i < 0 || i >= aliases.len() {
        None
    } else if overlaps(normalized(aliases[i]), q) {
        Some(i)
    } else {
        first_overlap(aliases, q, i + 1)
    }
}

/// The score of an entry in a phase, where it matches there: phase 1 on
/// the API name (1.0) or an alias (0.99); phase 2 on the base name (0.95);
/// phase 3 where names overlap.
pub open spec fn phase_score(e: AmsatEntry, q: Seq<char>, phase: int) -> Option<int> {
    let n = normalized(e.api_name@);
    let als = views(e.aliases@);
    if phase == 1 {
        if n == q {
            Some(10000)
        } else if alias_equals(als, q) {
            Some(9900)
        } else {
            None
        }
    } else if phase == 2 {
        if normalized(e.satellite_base_name@) == q {
            Some(9500)
        } else {
            None
        }
    } else if overlaps(n, q) {
        if has_piece(n, seq!['f', 'm']) && has_piece(q, seq!['f', 'm']) {
            Some(9800)
        } else {
            Some(ratio_score(q, n, 9000))
        }
    } else {
        match first_overlap(als, q, 0) {
            Some(i) => Some(ratio_score(q, normalized(als[i]), 8900)),
            None => None,
        }
    }
}

pub open spec fn phase_kind(phase: int) -> AmsatMatchType {
    if phase == 1 {
        AmsatMatchType::ExactApiName
    } else if phase == 2 {
        AmsatMatchType::BaseName
    } else {
        AmsatMatchType::Contains
    }
}

/// The hits of a phase, in store order.
pub open spec fn phase_hits(entries: Seq<AmsatEntry>, q: Seq<char>, phase: int) -> Seq<SearchHit>
    decreases entries.len(),
{
    if entries.len() == 0 {
        Seq::empty()
    } else {
        let prev = phase_hits(entries.drop_last(), q, phase);
        let e = entries.last();
        match phase_score(e, q, phase) {
            Some(s) => prev.push(
                SearchHit {
                    index: entries.len() - 1,
                    api_name: e.api_name@,
                    match_type: phase_kind(phase),
                    score: s,
                },
            ),
            None => prev,
        }
    }
}

/// Insert `h` after every hit of at least its score.
pub open spec fn insert_by_score(s: Seq<SearchHit>, h: SearchHit) -> Seq<SearchHit>
    decreases s.len(),
{
    if s.len() == 0 {
        seq![h]
    } else if s[0].score < h.score {
        seq![h] + s
    } else {
        seq![s[0]] + insert_by_score(s.drop_first(), h)
    }
}

/// The hits ordered by descending score, hits of equal score in their order.
pub open spec fn sort_by_score(s: Seq<SearchHit>) -> Seq<SearchHit>
    decreases s.len(),
{
    if s.len() == 0 {
        s
    } else {
        insert_by_score(sort_by_score(s.drop_last()), s.last())
    }
}

/// The result of searching `entries` for `query`.
pub open spec fn search_result(entries: Seq<AmsatEntry>, query: Seq<char>) -> Seq<SearchHit> {
    let q = normalized(query);
    if q.len() == 0 {
        Seq::empty()
    } else if phase_hits(entries, q, 1).len() > 0 {
        sort_by_score(phase_hits(entries, q, 1))
    } else if phase_hits(entries, q, 2).len() > 0 {
        sort_by_score(phase_hits(entries, q, 2))
    } else {
        sort_by_score(phase_hits(entries, q, 3))
    }
}

pub open spec fn scores_descending(s: Seq<SearchHit>) -> bool {
    forall|i: int, j: int| 0 <= i < j < s.len() ==> #[trigger] s[i].score >= #[trigger] s[j].score
}

proof fn lemma_insert_by_score_sorted(s: Seq<SearchHit>, h: SearchHit)
    requires
        scores_descending(s),
    ensures
        scores_descending(insert_by_score(s, h)),
        insert_by_score(s, h).len() == s.len() + 1,
        forall|k: int| 0 <= k < insert_by_score(s, h).len() ==> #[trigger] insert_by_score(s, h)[k] == h || s.contains(insert_by_score(s, h)[k]),
    decreases s.len(),
{
    let r = insert_by_score(s, h);
    if s.len() == 0 {
    } else if s[0].score < h.score {
        assert forall|i: int, j: int| 0 <= i < j < r.len() implies #[trigger] r[i].score >= #[trigger] r[j].score by {
            if i == 0 {
                assert(r[j] == s[j - 1]);
                if j > 1 {
                    assert(s[0].score >= s[j - 1].score);
                }
            } else {
                assert(r[i] == s[i - 1] && r[j] == s[j - 1]);
            }
        }
        assert forall|k: int| 0 <= k < r.len() implies #[trigger] r[k] == h || s.contains(r[k]) by {
            if k > 0 {
                assert(r[k] == s[k - 1]);
            }
        }
    } else {
        let t = s.drop_first();
        assert(scores_descending(t)) by {
            assert forall|i: int, j: int| 0 <= i < j < t.len() implies #[trigger] t[i].score >= #[trigger] t[j].score by {
                assert(t[i] == s[i + 1] && t[j] == s[j + 1]);
            }
        }
        lemma_insert_by_score_sorted(t, h);
        let tail = insert_by_score(t, h);
        assert forall|k: int| 0 <= k < r.len() implies #[trigger] r[k] == h || s.contains(r[k]) by {
            if k == 0 {
                assert(r[0] == s[0]);
            } else {
                assert(r[k] == tail[k - 1]);
                if tail[k - 1] != h {
                    assert(t.contains(tail[k - 1]));
                    let m = choose|m: int| 0 <= m < t.len() && t[m] == tail[k - 1];
                    assert(s[m + 1] == t[m]);
                }
            }
        }
        assert forall|i: int, j: int| 0 <= i < j < r.len() implies #[trigger] r[i].score >= #[trigger] r[j].score by {
            if i == 0 {
                assert(r[j] == tail[j - 1]);
                if tail[j - 1] == h {
                } else {
                    assert(t.contains(tail[j - 1]));
                    let m = choose|m: int| 0 <= m < t.len() && t[m] == tail[j - 1];
                    assert(s[m + 1] == t[m]);
                    assert(s[0].score >= s[m + 1].score);
                }
            } else {
                assert(r[i] == tail[i - 1] && r[j] == tail[j - 1]);
            }
        }
    }
}

/// Sorting by score gives descending scores.
pub proof fn lemma_sort_by_score_descending(s: Seq<SearchHit>)
    ensures
        scores_descending(sort_by_score(s)),
        sort_by_score(s).len() == s.len(),
    decreases s.len(),
{
    if s.len() > 0 {
        lemma_sort_by_score_descending(s.drop_last());
        lemma_insert_by_score_sorted(sort_by_score(s.drop_last()), s.last());
    }
}

/// Search results come in order of non-increasing score.
pub proof fn lemma_search_scores_descending(entries: Seq<AmsatEntry>, query: Seq<char>)
    ensures
        scores_descending(search_result(entries, query)),
{
    let q = normalized(query);
    lemma_sort_by_score_descending(phase_hits(entries, q, 1));
    lemma_sort_by_score_descending(phase_hits(entries, q, 2));
    lemma_sort_by_score_descending(phase_hits(entries, q, 3));
}

proof fn lemma_insert_at(s: Seq<SearchHit>, h: SearchHit, j: int)
    requires
        0 <= j <= s.len(),
        forall|k: int| 0 <= k < j ==> #[trigger] s[k].score >= h.score,
        j == s.len() || s[j].score < h.score,
    ensures
        insert_by_score(s, h) == s.insert(j, h),
    decreases s.len(),
{
    if s.len() == 0 {
        assert(s.insert(j, h) =~= seq![h]);
    } else if s[0].score < h.score {
        assert(j == 0);
        assert(s.insert(0, h) =~= seq![h] + s);
    } else {
        assert(j > 0);
        let t = s.drop_first();
        assert forall|k: int| 0 <= k < j - 1 implies #[trigger] t[k].score >= h.score by {
            assert(t[k] == s[k + 1]);
        }
        if j - 1 < t.len() {
            assert(t[j - 1] == s[j]);
        }
        lemma_insert_at(t, h, j - 1);
        assert(s.insert(j, h) =~= seq![s[0]] + t.insert(j - 1, h));
    }
}

fn insert_hit(out: &mut Vec<AmsatSearchResult>, h: AmsatSearchResult)
    ensures
        hits_view(final(out)@) == insert_by_score(hits_view(old(out)@), h@),
{
    let ghost s = hits_view(out@);
    let mut j: usize = 0;
    while j < out.len() && out[j].score >= h.score
        invariant
            j <= out@.len(),
            s == hits_view(out@),
            forall|k: int| 0 <= k < j ==> #[trigger] s[k].score >= h@.score,
        decreases out.len() - j,
    {
        assert(s[j as int] == out@[j as int]@);
        j = j + 1;
    }
    proof {
        if j < out@.len() {
            assert(s[j as int] == out@[j as int]@);
        }
        lemma_insert_at(s, h@, j as int);
    }
    let ghost hv = h@;
    out.insert(j, h);
    assert(hits_view(out@) =~= s.insert(j as int, hv));
}

fn normalized_chars(s: &String) -> (r: Vec<char>)
    ensures
        r@ == normalized(s@),
{
    let n = normalize_for_search(s.as_str());
    chars_of(n.as_str())
}

fn min_u128(a: u128, b: u128) -> (r: u128)
    ensures
        r == if a > b {
            b
        } else {
            a
        },
{
    if a > b {
        b
    } else {
        a
    }
}

fn ratio(q: &[char], n: &[char], cap: u32) -> (r: u32)
    requires
        cap <= 10000,
    ensures
        r as int == ratio_score(q@, n@, cap as int),
{
    let d: u128 = if n.len() == 0 {
        1
    } else {
        n.len() as u128
    };
    let ql = q.len();
    assert(ql as int * 10000 <= u128::MAX) by (nonlinear_arith)
        requires
            ql <= usize::MAX,
            usize::MAX <= u64::MAX,
    ;
    let s = (ql as u128) * 10000 / d;
    min_u128(s, cap as u128) as u32
}

fn entry_phase_score(e: &AmsatEntry, q: &[char], phase: u8) -> (r: Option<u32>)
    requires
        1 <= phase <= 3,
    ensures
        match r {
            Some(s) => phase_score(*e, q@, phase as int) == Some(s as int),
            None => phase_score(*e, q@, phase as int) is None,
        },
{
    let n = normalized_chars(&e.api_name);
    let ghost als = views(e.aliases@);
    if phase == 1 {
        if same_chars(&n, q) {
            return Some(10000);
        }
        let mut i: usize = 0;
        while i < e.aliases.len()
            invariant
                i <= e.aliases@.len() == als.len(),
                als == views(e.aliases@),
                normalized(e.api_name@) != q@,
                phase == 1,
                forall|k: int| 0 <= k < i ==> normalized(#[trigger] als[k]) != q@,
            decreases e.aliases.len() - i,
        {
            let a = normalized_chars(&e.aliases[i]);
            assert(als[i as int] == e.aliases@[i as int]@);
            if same_chars(&a, q) {
                assert(normalized(als[i as int]) == q@);
                return Some(9900);
            }
            i = i + 1;
        }
        None
    } else if phase == 2 {
        let b = normalized_chars(&e.satellite_base_name);
        if same_chars(&b, q) {
            Some(9500)
        } else {
            None
        }
    } else {
        if contains_chars(&n, q) || contains_chars(q, &n) {
            let fm = vec!['f', 'm'];
            if contains_chars(&n, &fm) && contains_chars(q, &fm) {
                return Some(9800);
            }
            return Some(ratio(q, &n, 9000));
        }
        let mut i: usize = 0;
        while i < e.aliases.len()
            invariant
                i <= e.aliases@.len() == als.len(),
                als == views(e.aliases@),
                first_overlap(als, q@, 0) == first_overlap(als, q@, i as int),
                !overlaps(normalized(e.api_name@), q@),
                phase == 3,
            decreases e.aliases.len() - i,
        {
            let a = normalized_chars(&e.aliases[i]);
            assert(als[i as int] == e.aliases@[i as int]@);
            if contains_chars(&a, q) || contains_chars(q, &a) {
                assert(first_overlap(als, q@, i as int) == Some(i as int));
                return Some(ratio(q, &a, 8900));
            }
            i = i + 1;
        }
        None
    }
}

fn collect_phase(entries: &Vec<AmsatEntry>, q: &[char], phase: u8) -> (r: Vec<AmsatSearchResult>)
    requires
        1 <= phase <= 3,
    ensures
        hits_view(r@) == sort_by_score(phase_hits(entries@, q@, phase as int)),
        phase_hits(entries@, q@, phase as int).len() == 0 ==> r@.len() == 0,
{
    let mut out: Vec<AmsatSearchResult> = Vec::new();
    let mut i: usize = 0;
    while i < entries.len()
        invariant
            i <= entries@.len(),
            1 <= phase <= 3,
            hits_view(out@) == sort_by_score(phase_hits(entries@.subrange(0, i as int), q@, phase as int)),
        decreases entries.len() - i,
    {
        let ghost pre = entries@.subrange(0, i + 1);
        assert(pre.drop_last() =~= entries@.subrange(0, i as int));
        assert(pre.last() == entries@[i as int]);
        let e = &entries[i];
        match entry_phase_score(e, q, phase) {
            Some(score) => {
                let kind = if phase == 1 {
                    AmsatMatchType::ExactApiName
                } else if phase == 2 {
                    AmsatMatchType::BaseName
                } else {
                    AmsatMatchType::Contains
                };
                let hit = AmsatSearchResult {
                    index: i,
                    api_name: e.api_name.clone(),
                    match_type: kind,
                    score,
                };
                let ghost prev = phase_hits(entries@.subrange(0, i as int), q@, phase as int);
                assert(phase_hits(pre, q@, phase as int) == prev.push(hit@));
                assert(prev.push(hit@).drop_last() =~= prev);
                insert_hit(&mut out, hit);
            },
            None => {},
        }
        i = i + 1;
    }
    assert(entries@.subrange(0, entries@.len() as int) =~= entries@);
    proof {
        lemma_sort_by_score_descending(phase_hits(entries@, q@, phase as int));
    }
    out
}

/// Search the entries for `query`: exact names first, then base names,
/// then overlapping names; an empty search form finds nothing.
pub fn search_amsat_entries(query: &str, entries: &Vec<AmsatEntry>) -> (r: Vec<AmsatSearchResult>)
    ensures
        hits_view(r@) == search_result(entries@, query@),
        scores_descending(hits_view(r@)),
{
    proof {
        lemma_search_scores_descending(entries@, query@);
    }
    let qn = normalize_for_search(query);
    let q = chars_of(qn.as_str());
    if q.len() == 0 {
        assert(hits_view(Seq::<AmsatSearchResult>::empty()) =~= Seq::empty());
        return Vec::new();
    }
    let first = collect_phase(entries, &q, 1);
    if first.len() > 0 {
        return first;
    }
    let second = collect_phase(entries, &q, 2);
    if second.len() > 0 {
        return second;
    }
    collect_phase(entries, &q, 3)
}

} // verus!
