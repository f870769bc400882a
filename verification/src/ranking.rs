//! Ranking filtered lists: matches sorted by score, best first, and the
//! selection kept on the same entry when the list is rebuilt.
use vstd::prelude::*;
use crate::search::{token_spec, token_score};
use crate::text::{chars_of, lowercase, to_lowercase, trim, utf8_bytes};

verus! {

/// `a` ranks before `b`: a higher score, or the same score and a lower
/// index.
pub open spec fn ranked_before(a: (int, usize), b: (int, usize)) -> bool {
    a.0 > b.0 || (a.0 == b.0 && a.1 < b.1)
}

/// Where `x` goes in the ranked `s`: before the first match it ranks
/// before.
pub open spec fn rank_pos(s: Seq<(int, usize)>, x: (int, usize)) -> nat
    decreases s.len(),
{
    if s.len() == 0 {
        0
    } else if ranked_before(x, s[0]) {
        0
    } else {
        1 + rank_pos(s.drop_first(), x)
    }
}

pub open spec fn rank_insert(s: Seq<(int, usize)>, x: (int, usize)) -> Seq<(int, usize)> {
    let p = rank_pos(s, x);
    s.take(p as int) + seq![x] + s.skip(p as int)
}

/// The matches `ms` ranked: by score, best first, equal scores by index.
pub open spec fn rank_all(ms: Seq<(int, usize)>) -> Seq<(int, usize)>
    decreases ms.len(),
{
    if ms.len() == 0 {
        Seq::empty()
    } else {
        rank_insert(rank_all(ms.drop_last()), ms.last())
    }
}

/// The indices of ranked matches, in order.
pub open spec fn indices_of(ms: Seq<(int, usize)>) -> Seq<usize> {
    ms.map_values(|m: (int, usize)| m.1)
}

pub open spec fn score_view(ms: Seq<(i64, usize)>) -> Seq<(int, usize)> {
    ms.map_values(|m: (i64, usize)| (m.0 as int, m.1))
}

proof fn lemma_rank_pos_bound(s: Seq<(int, usize)>, x: (int, usize))
    ensures
        rank_pos(s, x) <= s.len(),
    decreases s.len(),
{
    if s.len() > 0 && !ranked_before(x, s[0]) {
        lemma_rank_pos_bound(s.drop_first(), x);
    }
}

fn rank_into(v: &mut Vec<(i64, usize)>, x: (i64, usize))
    ensures
        score_view(final(v)@) == rank_insert(score_view(old(v)@), (x.0 as int, x.1)),
{
    let ghost xs = (x.0 as int, x.1);
    let mut p: usize = 0;
    assert(score_view(v@).skip(0) == score_view(v@));
    while p < v.len() && !(x.0 > v[p].0 || (x.0 == v[p].0 && x.1 < v[p].1))
        invariant
            p <= v.len(),
            v@ == old(v)@,
            xs == (x.0 as int, x.1),
            rank_pos(score_view(v@), xs) == p + rank_pos(score_view(v@).skip(p as int), xs),
        decreases v.len() - p,
    {
        assert(score_view(v@).skip(p as int)[0] == score_view(v@)[p as int]);
        assert(score_view(v@).skip(p as int).drop_first() == score_view(v@).skip(p + 1));
        p = p + 1;
    }
    proof {
        if p < v.len() {
            assert(score_view(v@).skip(p as int)[0] == score_view(v@)[p as int]);
        } else {
            assert(score_view(v@).skip(p as int).len() == 0);
        }
    }
    v.insert(p, x);
    assert(score_view(v@) =~= score_view(old(v)@).take(p as int) + seq![xs] + score_view(
        old(v)@,
    ).skip(p as int));
}

/// The indices of the matches `ms`, ranked (see `rank_all`).
pub fn ranked_indices(ms: &Vec<(i64, usize)>) -> (r: Vec<usize>)
    ensures
        r@ == indices_of(rank_all(score_view(ms@))),
{
    let ghost sv = score_view(ms@);
    let mut sorted: Vec<(i64, usize)> = Vec::new();
    let mut k: usize = 0;
    assert(sv.take(0) == Seq::<(int, usize)>::empty());
    assert(score_view(sorted@) == Seq::<(int, usize)>::empty());
    while k < ms.len()
        invariant
            k <= ms.len(),
            sv == score_view(ms@),
            score_view(sorted@) == rank_all(sv.take(k as int)),
        decreases ms.len() - k,
    {
        assert(sv.take(k + 1).drop_last() == sv.take(k as int));
        assert(sv.take(k + 1).last() == (ms@[k as int].0 as int, ms@[k as int].1));
        rank_into(&mut sorted, ms[k]);
        k = k + 1;
    }
    assert(sv.take(sv.len() as int) == sv);
    let mut r: Vec<usize> = Vec::new();
    let mut i: usize = 0;
    while i < sorted.len()
        invariant
            i <= sorted.len(),
            r@ == indices_of(score_view(sorted@)).take(i as int),
        decreases sorted.len() - i,
    {
        r.push(sorted[i].1);
        i = i + 1;
        assert(r@ == indices_of(score_view(sorted@)).take(i as int));
    }
    assert(indices_of(score_view(sorted@)).take(sorted@.len() as int) == indices_of(
        score_view(sorted@),
    ));
    r
}

// ---------------------------------------------------------------------------
// Keeping the selection
// ---------------------------------------------------------------------------

/// The entry on row `sel` of `filtered`, if there is such a row.
pub open spec fn entry_at(filtered: Seq<usize>, sel: Option<usize>) -> Option<usize> {
    match sel {
        Some(s) => if s < filtered.len() {
            Some(filtered[s as int])
        } else {
            None
        },
        None => None,
    }
}

/// The first row from `k` on showing entry `e`.
pub open spec fn row_of(filtered: Seq<usize>, e: usize, k: nat) -> Option<nat>
    decreases filtered.len() - k,
{
    if k >= filtered.len() {
        None
    } else if filtered[k as int] == e {
        Some(k)
    } else {
        row_of(filtered, e, k + 1)
    }
}

/// The row selected in the rebuilt list `filtered`: none when it is empty,
/// else the row of the entry selected before when it is still listed, else
/// the first row.
pub open spec fn keep_selection(filtered: Seq<usize>, prev: Option<usize>) -> Option<usize> {
    if filtered.len() == 0 {
        None
    } else {
        match prev {
            Some(e) => match row_of(filtered, e, 0) {
                Some(i) => Some(i as usize),
                None => Some(0usize),
            },
            None => Some(0usize),
        }
    }
}

/// The entry on row `sel` of `filtered` (see `entry_at`).
pub fn entry_on_row(filtered: &Vec<usize>, sel: Option<usize>) -> (r: Option<usize>)
    ensures
        r == entry_at(filtered@, sel),
{
    match sel {
        Some(s) => if s < filtered.len() {
            Some(filtered[s])
        } else {
            None
        },
        None => None,
    }
}

/// The selection for the rebuilt list (see `keep_selection`).
pub fn reselect(filtered: &Vec<usize>, prev: Option<usize>) -> (r: Option<usize>)
    ensures
        r == keep_selection(filtered@, prev),
{
    if filtered.len() == 0 {
        return None;
    }
    match prev {
        Some(e) => {
            let mut i: usize = 0;
            while i < filtered.len()
                invariant
                    i <= filtered.len(),
                    prev == Some(e),
                    row_of(filtered@, e, 0) == row_of(filtered@, e, i as nat),
                decreases filtered.len() - i,
            {
                if filtered[i] == e {
                    return Some(i);
                }
                i = i + 1;
            }
            Some(0)
        },
        None => Some(0),
    }
}

/// Moves a selection in a list of `len` rows by `delta`, staying on the
/// list; none when the list is empty.
pub open spec fn moved_selection(len: nat, sel: Option<usize>, delta: int) -> Option<usize> {
    if len == 0 {
        None
    } else {
        let cur: int = match sel {
            Some(s) => s as int,
            None => 0,
        };
        let next = cur + delta;
        Some(
            (if next < 0 {
                0
            } else if next > len - 1 {
                len - 1
            } else {
                next
            }) as usize,
        )
    }
}

/// `moved_selection` for an `i32` step, as the pickers compute it.
pub fn move_in_list(len: usize, sel: Option<usize>, delta: i32) -> (r: Option<usize>)
    requires
        len <= 0x8000_0000,
        ({
            let cur: int = match sel {
                Some(s) => s as int,
                None => 0,
            };
            cur <= i32::MAX && i32::MIN <= cur + delta <= i32::MAX
        }),
    ensures
        r == moved_selection(len as nat, sel, delta as int),
{
    if len == 0 {
        return None;
    }
    let cur: i32 = match sel {
        Some(s) => s as i32,
        None => 0,
    };
    let last: i32 = (len - 1) as i32;
    let next: i32 = cur + delta;
    let clamped: i32 = if next < 0 {
        0
    } else if next > last {
        last
    } else {
        next
    };
    Some(clamped as usize)
}

// ---------------------------------------------------------------------------
// Scoring an entry against the tokens of a query
// ---------------------------------------------------------------------------

/// Whether the texts are small enough for the `i32` scores: a haystack
/// under 2^31 bytes and tokens of at most 0x500_0000 characters.
pub open spec fn scorable(hay: Seq<char>, toks: Seq<Seq<char>>) -> bool {
    &&& 4 * hay.len() < 0x8000_0000
    &&& toks.len() < 0x1000_0000
    &&& forall|i: int| 0 <= i < toks.len() ==> (#[trigger] toks[i]).len() <= 0x500_0000
}

/// The total score of `toks[..k]` against `hay`: the sum of their token
/// scores, or `None` when one of them does not match.
pub open spec fn total_score(hay: Seq<char>, toks: Seq<Seq<char>>, k: nat) -> Option<int>
    decreases k,
{
    if k == 0 {
        Some(0)
    } else {
        match total_score(hay, toks, (k - 1) as nat) {
            None => None,
            Some(s) => match token_spec(hay, toks[k - 1]) {
                None => None,
                Some(t) => Some(s + t),
            },
        }
    }
}

/// The total score of the tokens `toks` against the lower-cased text
/// `text`: 0 for no tokens; `None` when one token does not match, or when
/// the texts are too large to score.
pub open spec fn text_score(text: Seq<char>, toks: Seq<Seq<char>>) -> Option<int> {
    let hay = lowercase(text);
    if toks.len() == 0 {
        Some(0)
    } else if scorable(hay, toks) {
        total_score(hay, toks, toks.len())
    } else {
        None
    }
}

proof fn lemma_total_stays_none(hay: Seq<char>, toks: Seq<Seq<char>>, k: nat, m: nat)
    requires
        k <= m,
        total_score(hay, toks, k) is None,
    ensures
        total_score(hay, toks, m) is None,
    decreases m - k,
{
    if k < m {
        lemma_total_stays_none(hay, toks, k, (m - 1) as nat);
    }
}

proof fn lemma_token_spec_bounds(hay: Seq<char>, tok: Seq<char>)
    requires
        tok.len() <= 0x500_0000,
    ensures
        token_spec(hay, tok) matches Some(t) ==> -0x8000_0000 < t < 0x8000_0000,
{
    crate::text::lemma_trim_len(tok);
    let t = trim(tok);
    if t.len() > 0 {
        crate::search::lemma_gap_score_bounds(hay, trim(t), 0, 0, None);
        crate::text::lemma_trim_len(t);
    }
}

/// The total score of `toks` against the lower-cased `text` (see
/// `text_score`).
pub fn score_text(text: &str, toks: &Vec<String>) -> (r: Option<i64>)
    ensures
        match (r, text_score(text@, crate::text::strs(toks@))) {
            (Some(a), Some(b)) => a as int == b,
            (None, None) => true,
            _ => false,
        },
        r matches Some(a) ==> -0x800_0000_0000_0000 <= a <= 0x800_0000_0000_0000,
{
    let ghost ts = crate::text::strs(toks@);
    if toks.len() == 0 {
        return Some(0);
    }
    let lower = to_lowercase(text);
    let hv = chars_of(lower.as_str());
    if hv.len() >= 0x2000_0000 || toks.len() >= 0x1000_0000 {
        return None;
    }
    let mut i: usize = 0;
    while i < toks.len()
        invariant
            i <= toks.len(),
            ts == crate::text::strs(toks@),
            forall|j: int| 0 <= j < i ==> (#[trigger] ts[j]).len() <= 0x500_0000,
        decreases toks.len() - i,
    {
        let n = chars_of(toks[i].as_str()).len();
        assert(ts[i as int] == toks@[i as int]@);
        if n > 0x500_0000 {
            assert(ts[i as int].len() > 0x500_0000);
            assert(!scorable(lowercase(text@), ts));
            return None;
        }
        i = i + 1;
    }
    assert(scorable(lower@, ts));
    let mut total: i64 = 0;
    let mut k: usize = 0;
    while k < toks.len()
        invariant
            k <= toks.len(),
            0 < toks.len() < 0x1000_0000,
            ts == crate::text::strs(toks@),
            scorable(lower@, ts),
            lower@ == lowercase(text@),
            total_score(lower@, ts, k as nat) == Some(total as int),
            -0x8000_0000 * k <= total <= 0x8000_0000 * k,
        decreases toks.len() - k,
    {
        proof {
            lemma_token_spec_bounds(lower@, ts[k as int]);
            crate::text::lemma_trim_len(ts[k as int]);
        }
        assert(ts[k as int] == toks@[k as int]@);
        let s = match token_score(lower.as_str(), toks[k].as_str()) {
            Some(s) => s,
            None => {
                proof {
                    lemma_total_stays_none(lower@, ts, (k + 1) as nat, ts.len());
                }
                return None;
            },
        };
        total = total + s as i64;
        k = k + 1;
    }
    assert(-0x8000_0000 * k >= -0x800_0000_0000_0000 && 0x8000_0000 * k <= 0x800_0000_0000_0000)
        by (nonlinear_arith)
        requires
            k < 0x1000_0000,
    ;
    Some(total)
}


/// The matches of `texts[..k]` for the tokens `toks`, with their scores:
/// every text, scoring 0, when there are no tokens.
pub open spec fn scored(texts: Seq<Seq<char>>, toks: Seq<Seq<char>>, k: nat) -> Seq<(int, usize)>
    decreases k,
{
    if k == 0 {
        Seq::empty()
    } else {
        let rest = scored(texts, toks, (k - 1) as nat);
        match text_score(texts[k - 1], toks) {
            Some(s) => rest.push((s, (k - 1) as usize)),
            None => rest,
        }
    }
}

/// The indices of the texts that match the tokens, best first.
pub open spec fn filter_rank(texts: Seq<Seq<char>>, toks: Seq<Seq<char>>) -> Seq<usize> {
    indices_of(rank_all(scored(texts, toks, texts.len())))
}

/// The indices of `texts` that match `toks`, ranked (see `filter_rank`).
pub fn rank_texts(texts: &Vec<String>, toks: &Vec<String>) -> (r: Vec<usize>)
    ensures
        r@ == filter_rank(crate::text::strs(texts@), crate::text::strs(toks@)),
{
    let ghost ts = crate::text::strs(texts@);
    let ghost ks = crate::text::strs(toks@);
    let mut ms: Vec<(i64, usize)> = Vec::new();
    let mut i: usize = 0;
    assert(score_view(ms@) == Seq::<(int, usize)>::empty());
    while i < texts.len()
        invariant
            i <= texts.len(),
            ts == crate::text::strs(texts@),
            ks == crate::text::strs(toks@),
            score_view(ms@) == scored(ts, ks, i as nat),
        decreases texts.len() - i,
    {
        assert(ts[i as int] == texts@[i as int]@);
        let ghost before = ms@;
        match score_text(texts[i].as_str(), toks) {
            Some(s) => {
                ms.push((s, i));
                assert(score_view(ms@) == score_view(before).push((s as int, i)));
            },
            None => {},
        }
        i = i + 1;
    }
    ranked_indices(&ms)
}


/// The matches among `scores[..k]` (the entries that have a score), with
/// their indices.
pub open spec fn matches_of(scores: Seq<Option<int>>, k: nat) -> Seq<(int, usize)>
    decreases k,
{
    if k == 0 {
        Seq::empty()
    } else {
        let rest = matches_of(scores, (k - 1) as nat);
        match scores[k - 1] {
            Some(s) => rest.push((s, (k - 1) as usize)),
            None => rest,
        }
    }
}

/// The indices of the entries that have a score, best first.
pub open spec fn rank_scores(scores: Seq<Option<int>>) -> Seq<usize> {
    indices_of(rank_all(matches_of(scores, scores.len())))
}

pub open spec fn opt_view(s: Seq<Option<i64>>) -> Seq<Option<int>> {
    s.map_values(
        |o: Option<i64>|
            match o {
                Some(x) => Some(x as int),
                None => None,
            },
    )
}

/// The indices of the entries that have a score, ranked (see
/// `rank_scores`).
pub fn ranked_by_score(scores: &Vec<Option<i64>>) -> (r: Vec<usize>)
    ensures
        r@ == rank_scores(opt_view(scores@)),
{
    let ghost sv = opt_view(scores@);
    let mut ms: Vec<(i64, usize)> = Vec::new();
    let mut i: usize = 0;
    assert(score_view(ms@) == Seq::<(int, usize)>::empty());
    while i < scores.len()
        invariant
            i <= scores.len(),
            sv == opt_view(scores@),
            score_view(ms@) == matches_of(sv, i as nat),
        decreases scores.len() - i,
    {
        let ghost before = ms@;
        match scores[i] {
            Some(s) => {
                ms.push((s, i));
                assert(score_view(ms@) == score_view(before).push((s as int, i)));
            },
            None => {},
        }
        i = i + 1;
    }
    ranked_indices(&ms)
}


// ---------------------------------------------------------------------------
// Laws
// ---------------------------------------------------------------------------

proof fn lemma_ranked_before_trans(a: (int, usize), b: (int, usize), c: (int, usize))
    requires
        ranked_before(a, b),
        ranked_before(b, c),
    ensures
        ranked_before(a, c),
{
}

/// No entry of `s` ranks before an earlier one.
pub open spec fn rank_ordered(s: Seq<(int, usize)>) -> bool {
    forall|i: int, j: int| 0 <= i < j < s.len() ==> !ranked_before(#[trigger] s[j], #[trigger] s[i])
}

proof fn lemma_rank_pos_props(s: Seq<(int, usize)>, x: (int, usize))
    ensures
        rank_pos(s, x) <= s.len(),
        forall|k: int| 0 <= k < rank_pos(s, x) ==> !ranked_before(x, #[trigger] s[k]),
        rank_pos(s, x) < s.len() ==> ranked_before(x, s[rank_pos(s, x) as int]),
    decreases s.len(),
{
    if s.len() > 0 && !ranked_before(x, s[0]) {
        lemma_rank_pos_props(s.drop_first(), x);
        assert forall|k: int| 0 <= k < rank_pos(s, x) implies !ranked_before(x, #[trigger] s[k]) by {
            if k > 0 {
                assert(s[k] == s.drop_first()[k - 1]);
            }
        }
    }
}

proof fn lemma_rank_insert_ordered(s: Seq<(int, usize)>, x: (int, usize))
    requires
        rank_ordered(s),
    ensures
        rank_ordered(rank_insert(s, x)),
        rank_insert(s, x).to_multiset() =~= s.to_multiset().insert(x),
{
    lemma_rank_pos_props(s, x);
    let p = rank_pos(s, x) as int;
    let r = rank_insert(s, x);
    assert forall|i: int, j: int| 0 <= i < j < r.len() implies !ranked_before(
        #[trigger] r[j],
        #[trigger] r[i],
    ) by {
        if j < p {
            assert(r[i] == s[i] && r[j] == s[j]);
        } else if j == p {
            assert(r[i] == s[i] && r[j] == x);
        } else if i == p {
            assert(r[j] == s[j - 1] && r[i] == x);
            if ranked_before(s[j - 1], x) {
                if j - 1 > p {
                    lemma_ranked_before_trans(s[j - 1], x, s[p]);
                    assert(!ranked_before(s[j - 1], s[p]));
                }
            }
        } else if i < p {
            assert(r[i] == s[i] && r[j] == s[j - 1]);
        } else {
            assert(r[i] == s[i - 1] && r[j] == s[j - 1]);
        }
    }
    vstd::seq_lib::lemma_multiset_commutative(s.take(p) + seq![x], s.skip(p));
    vstd::seq_lib::lemma_multiset_commutative(s.take(p), seq![x]);
    vstd::seq_lib::lemma_multiset_commutative(s.take(p), s.skip(p));
    assert(s.take(p) + s.skip(p) == s);
    assert(seq![x].to_multiset() =~= vstd::multiset::Multiset::empty().insert(x)) by {
        assert(seq![x] == Seq::<(int, usize)>::empty().push(x));
        Seq::<(int, usize)>::empty().to_multiset_ensures();
    }
}

proof fn lemma_rank_all_ordered(ms: Seq<(int, usize)>)
    ensures
        rank_ordered(rank_all(ms)),
        rank_all(ms).to_multiset() =~= ms.to_multiset(),
    decreases ms.len(),
{
    if ms.len() == 0 {
        assert(rank_all(ms) =~= ms);
    } else {
        lemma_rank_all_ordered(ms.drop_last());
        lemma_rank_insert_ordered(rank_all(ms.drop_last()), ms.last());
        assert(ms.drop_last().push(ms.last()) == ms);
        ms.drop_last().to_multiset_ensures();
    }
}

/// A ranked list holds exactly the matches, and never an entry before one
/// that ranks before it (a higher score, or the same score and a lower
/// index): best first.
pub proof fn law_ranking_is_sorted(ms: Seq<(int, usize)>)
    ensures
        rank_all(ms).to_multiset() == ms.to_multiset(),
        forall|i: int, j: int|
            0 <= i < j < rank_all(ms).len() ==> !ranked_before(
                #[trigger] rank_all(ms)[j],
                #[trigger] rank_all(ms)[i],
            ),
{
    lemma_rank_all_ordered(ms);
}

/// When the entry selected before is still listed, the rebuilt list keeps
/// it selected.
pub proof fn law_selection_follows_entry(filtered: Seq<usize>, e: usize)
    requires
        filtered.len() <= usize::MAX,
        filtered.contains(e),
    ensures
        keep_selection(filtered, Some(e)) matches Some(i) && i < filtered.len() && filtered[i as int]
            == e,
{
    let w = choose|w: int| 0 <= w < filtered.len() && filtered[w] == e;
    lemma_row_of_found(filtered, e, 0, w);
}

proof fn lemma_row_of_found(filtered: Seq<usize>, e: usize, k: nat, w: int)
    requires
        k <= w < filtered.len(),
        filtered[w] == e,
    ensures
        row_of(filtered, e, k) matches Some(i) && i < filtered.len() && filtered[i as int] == e,
    decreases w - k,
{
    if filtered[k as int] != e {
        lemma_row_of_found(filtered, e, k + 1, w);
    }
}


proof fn lemma_rank_all_of_ordered(ms: Seq<(int, usize)>)
    requires
        forall|i: int, j: int| 0 <= i < j < ms.len() ==> ranked_before(#[trigger] ms[i], #[trigger] ms[j]),
    ensures
        rank_all(ms) == ms,
    decreases ms.len(),
{
    if ms.len() > 0 {
        let s = ms.drop_last();
        let x = ms.last();
        lemma_rank_all_of_ordered(s);
        lemma_rank_pos_props(s, x);
        if rank_pos(s, x) < s.len() {
            let p = rank_pos(s, x) as int;
            assert(ranked_before(s[p], x));
        }
        assert(s.take(s.len() as int) + seq![x] + s.skip(s.len() as int) == ms);
    }
}

proof fn lemma_scored_no_tokens(texts: Seq<Seq<char>>, k: nat)
    requires
        k <= texts.len() <= usize::MAX,
    ensures
        scored(texts, Seq::empty(), k) == Seq::new(k, |i: int| (0int, i as usize)),
    decreases k,
{
    if k > 0 {
        lemma_scored_no_tokens(texts, (k - 1) as nat);
        assert(Seq::new((k - 1) as nat, |i: int| (0int, i as usize)).push((0int, (k - 1) as usize))
            == Seq::new(k, |i: int| (0int, i as usize)));
    }
}

proof fn lemma_matches_all_zero(scores: Seq<Option<int>>, k: nat)
    requires
        k <= scores.len() <= usize::MAX,
        forall|i: int| 0 <= i < scores.len() ==> scores[i] == Some(0int),
    ensures
        matches_of(scores, k) == Seq::new(k, |i: int| (0int, i as usize)),
    decreases k,
{
    if k > 0 {
        lemma_matches_all_zero(scores, (k - 1) as nat);
        assert(Seq::new((k - 1) as nat, |i: int| (0int, i as usize)).push((0int, (k - 1) as usize))
            == Seq::new(k, |i: int| (0int, i as usize)));
    }
}

/// With no tokens every text is listed, in its own order.
pub proof fn law_no_tokens_lists_all(texts: Seq<Seq<char>>)
    requires
        texts.len() <= usize::MAX,
    ensures
        filter_rank(texts, Seq::empty()) == Seq::new(texts.len(), |i: int| i as usize),
{
    lemma_scored_no_tokens(texts, texts.len());
    let ms = Seq::new(texts.len(), |i: int| (0int, i as usize));
    lemma_rank_all_of_ordered(ms);
    assert(indices_of(ms) == Seq::new(texts.len(), |i: int| i as usize));
}

/// When every entry scores 0 (no filter), every entry is listed, in its
/// own order.
pub proof fn law_equal_scores_keep_order(scores: Seq<Option<int>>)
    requires
        scores.len() <= usize::MAX,
        forall|i: int| 0 <= i < scores.len() ==> scores[i] == Some(0int),
    ensures
        rank_scores(scores) == Seq::new(scores.len(), |i: int| i as usize),
{
    lemma_matches_all_zero(scores, scores.len());
    let ms = Seq::new(scores.len(), |i: int| (0int, i as usize));
    lemma_rank_all_of_ordered(ms);
    assert(indices_of(ms) == Seq::new(scores.len(), |i: int| i as usize));
}

} // verus!
