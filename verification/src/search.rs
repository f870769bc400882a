//! The filter queries of the log and picker views: splitting a query into
//! tokens, reading `author:` and `ref:` filters, and scoring a text against
//! a token.
use vstd::prelude::*;
use crate::branch::{byte_at, find_from};
use crate::text::{strs, chars_of, find_sub, has_prefix, is_whitespace, is_ws, string_of, trim, trim_chars, trim_string, utf8_bytes};

verus! {

// ---------------------------------------------------------------------------
// Splitting a query
// ---------------------------------------------------------------------------

/// Where the splitter stands: the tokens so far, the token being read, and
/// the quote it is inside of, if any.
pub struct SplitState {
    pub out: Seq<Seq<char>>,
    pub cur: Seq<char>,
    pub quote: Option<char>,
}

/// `t` added to `out` when it is not empty.
pub open spec fn push_nonempty(out: Seq<Seq<char>>, t: Seq<char>) -> Seq<Seq<char>> {
    if t.len() > 0 {
        out.push(t)
    } else {
        out
    }
}

/// One character read: inside quotes everything is kept until the closing
/// quote; outside, a quote opens, white space ends the token (trimmed), and
/// anything else is kept.
pub open spec fn split_step(st: SplitState, ch: char) -> SplitState {
    match st.quote {
        Some(q) => SplitState {
            out: st.out,
            cur: st.cur.push(ch),
            quote: if ch == q {
                None
            } else {
                Some(q)
            },
        },
        None => if ch == '"' || ch == '\'' {
            SplitState { out: st.out, cur: st.cur.push(ch), quote: Some(ch) }
        } else if is_ws(ch) {
            SplitState { out: push_nonempty(st.out, trim(st.cur)), cur: Seq::empty(), quote: None }
        } else {
            SplitState { out: st.out, cur: st.cur.push(ch), quote: None }
        },
    }
}

pub open spec fn split_fold(s: Seq<char>) -> SplitState
    decreases s.len(),
{
    if s.len() == 0 {
        SplitState { out: Seq::empty(), cur: Seq::empty(), quote: None }
    } else {
        split_step(split_fold(s.drop_last()), s.last())
    }
}

/// The tokens of a query: split at white space outside quotes, each
/// trimmed, none empty; quotes stay in the tokens.
pub open spec fn query_tokens(s: Seq<char>) -> Seq<Seq<char>> {
    let st = split_fold(s);
    push_nonempty(st.out, trim(st.cur))
}

/// Splits a filter query into tokens (see `query_tokens`).
pub fn split_query_tokens(input: &str) -> (r: Vec<String>)
    ensures
        strs(r@) == query_tokens(input@),
{
    let v = chars_of(input);
    let mut out: Vec<String> = Vec::new();
    let mut cur: Vec<char> = Vec::new();
    let mut quote: Option<char> = None;
    let mut i: usize = 0;
    assert(v@.take(0) == Seq::<char>::empty());
    assert(strs(out@) == Seq::<Seq<char>>::empty());
    while i < v.len()
        invariant
            i <= v.len(),
            v@ == input@,
            split_fold(v@.take(i as int)) == (SplitState { out: strs(out@), cur: cur@, quote }),
        decreases v.len() - i,
    {
        let ch = v[i];
        assert(v@.take(i + 1).drop_last() == v@.take(i as int));
        assert(v@.take(i + 1).last() == ch);
        match quote {
            Some(q) => {
                cur.push(ch);
                if ch == q {
                    quote = None;
                }
            },
            None => {
                if ch == '"' || ch == '\'' {
                    quote = Some(ch);
                    cur.push(ch);
                } else if is_whitespace(ch) {
                    let t = trim_chars(&cur);
                    if t.len() > 0 {
                        let ghost before = out@;
                        out.push(string_of(&t));
                        assert(strs(out@) == strs(before).push(t@));
                    }
                    cur = Vec::new();
                } else {
                    cur.push(ch);
                }
            },
        }
        i = i + 1;
    }
    assert(v@.take(v@.len() as int) == v@);
    let t = trim_chars(&cur);
    if t.len() > 0 {
        let ghost before = out@;
        out.push(string_of(&t));
        assert(strs(out@) == strs(before).push(t@));
    }
    out
}


// ---------------------------------------------------------------------------
// Reading a log filter
// ---------------------------------------------------------------------------

/// A log filter query: author filters, ref filters, and plain tokens.
pub struct LogFilterQuery {
    pub author: Vec<String>,
    pub refs: Vec<String>,
    pub tokens: Vec<String>,
}

/// The three lists of a filter, as texts.
pub struct FilterV {
    pub author: Seq<Seq<char>>,
    pub refs: Seq<Seq<char>>,
    pub tokens: Seq<Seq<char>>,
}

impl LogFilterQuery {
    pub open spec fn view_v(&self) -> FilterV {
        FilterV {
            author: strs(self.author@),
            refs: strs(self.refs@),
            tokens: strs(self.tokens@),
        }
    }
}

/// `s` trimmed, without the quotes around it when it is quoted with `"` or
/// `'` at both ends.
pub open spec fn strip_quotes(s: Seq<char>) -> Seq<char> {
    let t = trim(s);
    if t.len() >= 2 && ((t[0] == '"' && t.last() == '"') || (t[0] == '\'' && t.last() == '\'')) {
        t.subrange(1, t.len() - 1)
    } else {
        t
    }
}

/// One token read into the filter: `@name`, `author:name` or `a:name` adds
/// an author, `ref:name` or `tag:name` a ref (each unquoted, and only when
/// not empty), anything else is a plain token; blank tokens are skipped.
pub open spec fn filter_step(q: FilterV, raw: Seq<char>) -> FilterV {
    let t = trim(raw);
    if t.len() == 0 {
        q
    } else if has_prefix(t, "@"@) {
        FilterV { author: push_nonempty(q.author, strip_quotes(t.skip("@"@.len() as int))), ..q }
    } else if has_prefix(t, "author:"@) {
        FilterV { author: push_nonempty(q.author, strip_quotes(t.skip("author:"@.len() as int))), ..q }
    } else if has_prefix(t, "a:"@) {
        FilterV { author: push_nonempty(q.author, strip_quotes(t.skip("a:"@.len() as int))), ..q }
    } else if has_prefix(t, "ref:"@) {
        FilterV { refs: push_nonempty(q.refs, strip_quotes(t.skip("ref:"@.len() as int))), ..q }
    } else if has_prefix(t, "tag:"@) {
        FilterV { refs: push_nonempty(q.refs, strip_quotes(t.skip("tag:"@.len() as int))), ..q }
    } else {
        FilterV { tokens: q.tokens.push(t), ..q }
    }
}

pub open spec fn filter_fold(ts: Seq<Seq<char>>) -> FilterV
    decreases ts.len(),
{
    if ts.len() == 0 {
        FilterV { author: Seq::empty(), refs: Seq::empty(), tokens: Seq::empty() }
    } else {
        filter_step(filter_fold(ts.drop_last()), ts.last())
    }
}

/// What a log filter query holds (see `filter_step`).
pub open spec fn log_filter(input: Seq<char>) -> FilterV {
    filter_fold(query_tokens(input))
}

/// `v` without the prefix `p`, when it starts with it.
fn strip_prefix_chars(v: &Vec<char>, p: &str) -> (r: Option<Vec<char>>)
    ensures
        match r {
            Some(x) => has_prefix(v@, p@) && x@ == v@.skip(p@.len() as int),
            None => !has_prefix(v@, p@),
        },
{
    if crate::text::starts_with(v, p) {
        let n = chars_of(p).len();
        let x = crate::text::sub_chars(v, n, v.len());
        assert(x@ == v@.skip(n as int));
        Some(x)
    } else {
        None
    }
}

/// `strip_quotes` on characters.
fn strip_quotes_chars(v: &Vec<char>) -> (r: Vec<char>)
    ensures
        r@ == strip_quotes(v@),
{
    let t = trim_chars(v);
    let n = t.len();
    if n >= 2 && ((t[0] == '"' && t[n - 1] == '"') || (t[0] == '\'' && t[n - 1] == '\'')) {
        crate::text::sub_chars(&t, 1, n - 1)
    } else {
        t
    }
}

/// Adds `t` to `out` when it is not empty.
fn push_if_any(out: &mut Vec<String>, t: &Vec<char>)
    ensures
        strs(final(out)@) == push_nonempty(strs(old(out)@), t@),
{
    if t.len() > 0 {
        out.push(string_of(t));
        assert(strs(out@) == strs(old(out)@).push(t@));
    }
}

/// Reads a log filter query (see `filter_step`).
pub fn parse_log_filter_query(input: &str) -> (r: LogFilterQuery)
    ensures
        r.view_v() == log_filter(input@),
{
    let raws = split_query_tokens(input);
    let mut q = LogFilterQuery { author: Vec::new(), refs: Vec::new(), tokens: Vec::new() };
    let ghost ts = strs(raws@);
    let mut k: usize = 0;
    assert(ts.take(0) == Seq::<Seq<char>>::empty());
    assert(strs(q.author@) =~= Seq::<Seq<char>>::empty());
    assert(strs(q.refs@) =~= Seq::<Seq<char>>::empty());
    assert(strs(q.tokens@) =~= Seq::<Seq<char>>::empty());
    while k < raws.len()
        invariant
            k <= raws.len(),
            ts == strs(raws@),
            ts == query_tokens(input@),
            q.view_v() == filter_fold(ts.take(k as int)),
        decreases raws.len() - k,
    {
        assert(ts.take(k + 1).drop_last() == ts.take(k as int));
        assert(ts.take(k + 1).last() == raws@[k as int]@);
        let raw = chars_of(raws[k].as_str());
        let t = trim_chars(&raw);
        let ghost before = q.view_v();
        if t.len() > 0 {
            if let Some(rest) = strip_prefix_chars(&t, "@") {
                let a = strip_quotes_chars(&rest);
                push_if_any(&mut q.author, &a);
            } else if let Some(rest) = strip_prefix_chars(&t, "author:") {
                let a = strip_quotes_chars(&rest);
                push_if_any(&mut q.author, &a);
            } else if let Some(rest) = strip_prefix_chars(&t, "a:") {
                let a = strip_quotes_chars(&rest);
                push_if_any(&mut q.author, &a);
            } else if let Some(rest) = strip_prefix_chars(&t, "ref:") {
                let a = strip_quotes_chars(&rest);
                push_if_any(&mut q.refs, &a);
            } else if let Some(rest) = strip_prefix_chars(&t, "tag:") {
                let a = strip_quotes_chars(&rest);
                push_if_any(&mut q.refs, &a);
            } else {
                let ghost before = q.tokens@;
                q.tokens.push(string_of(&t));
                assert(strs(q.tokens@) == strs(before).push(t@));
            }
        }
        assert(q.view_v().author == filter_step(before, raw@).author);
        assert(q.view_v().refs == filter_step(before, raw@).refs);
        assert(q.view_v().tokens == filter_step(before, raw@).tokens);
        k = k + 1;
    }
    assert(ts.take(ts.len() as int) == ts);
    q
}


// ---------------------------------------------------------------------------
// Scoring
// ---------------------------------------------------------------------------

/// The score of matching the characters of `n` from `k` on, in order, in
/// `h` from character `p` on, `prev` being the byte offset of the previous
/// match: 10 per character; 15 more when it directly follows the previous
/// match, else less the bytes skipped since it (at most 30); for the first
/// match `30 - offset` more when that is positive. `None` when some
/// character is not found.
pub open spec fn gap_score_from(h: Seq<char>, n: Seq<char>, k: nat, p: nat, prev: Option<nat>) -> Option<
    int,
>
    decreases n.len() - k,
{
    if k >= n.len() {
        Some(0)
    } else {
        match find_from(h, p, n[k as int]) {
            None => None,
            Some(j) => {
                let idx = byte_at(h, j);
                let bonus: int = match prev {
                    Some(q) => if idx == q + 1 {
                        15
                    } else {
                        let gap: int = if idx > q + 1 {
                            idx - q - 1
                        } else {
                            0
                        };
                        if gap < 30 {
                            -gap
                        } else {
                            -30
                        }
                    },
                    None => if idx < 30 {
                        30 - idx
                    } else {
                        0
                    },
                };
                match gap_score_from(h, n, k + 1, j + 1, Some(idx)) {
                    Some(rest) => Some(10 + bonus + rest),
                    None => None,
                }
            },
        }
    }
}

/// The fuzzy score of `needle` (trimmed) in `haystack`; an empty needle
/// scores 0.
pub open spec fn gap_score(haystack: Seq<char>, needle: Seq<char>) -> Option<int> {
    let n = trim(needle);
    if n.len() == 0 {
        Some(0)
    } else {
        gap_score_from(haystack, n, 0, 0, None)
    }
}

/// Bounds of a fuzzy score: at least -20 and at most 25 per character
/// (15 more for the first match).
pub proof fn lemma_gap_score_bounds(h: Seq<char>, n: Seq<char>, k: nat, p: nat, prev: Option<nat>)
    requires
        k <= n.len(),
    ensures
        gap_score_from(h, n, k, p, prev) matches Some(v) ==> -20 * (n.len() - k) <= v <= 25 * (
        n.len() - k) + if prev is None {
            15int
        } else {
            0
        },
    decreases n.len() - k,
{
    if k < n.len() {
        match find_from(h, p, n[k as int]) {
            None => {},
            Some(j) => {
                lemma_gap_score_bounds(h, n, k + 1, j + 1, Some(byte_at(h, j)));
            },
        }
    }
}

proof fn lemma_find_from(h: Seq<char>, p: nat, c: char, j: nat)
    requires
        p <= j <= h.len(),
        forall|m: int| p <= m < j ==> h[m] != c,
        j < h.len() ==> h[j as int] == c,
    ensures
        find_from(h, p, c) == (if j < h.len() {
            Some(j)
        } else {
            None::<nat>
        }),
    decreases j - p,
{
    if p < j {
        lemma_find_from(h, p + 1, c, j);
    }
}

/// The fuzzy score of `needle` in `haystack` (see `gap_score`).
#[verifier::spinoff_prover]
#[verifier::rlimit(40)]
fn fuzzy_score(haystack: &str, needle: &str) -> (r: Option<i32>)
    requires
        4 * haystack@.len() < 0x8000_0000,
        trim(needle@).len() <= 0x500_0000,
    ensures
        match (r, gap_score(haystack@, needle@)) {
            (Some(a), Some(b)) => a as int == b,
            (None, None) => true,
            _ => false,
        },
{
    let t = trim_string(needle);
    let n = chars_of(t.as_str());
    proof {
        crate::text::lemma_utf8_bytes_le(haystack@);
    }
    if n.len() == 0 {
        return Some(0);
    }
    let h = chars_of(haystack);
    let mut score: i32 = 0;
    let mut last: Option<usize> = None;
    let mut pos: usize = 0;
    let mut pos_bytes: usize = 0;
    let mut k: usize = 0;
    let ghost total = gap_score(haystack@, needle@);
    while k < n.len()
        invariant
            k <= n.len(),
            n@ == trim(needle@),
            h@ == haystack@,
            n.len() <= 0x500_0000,
            4 * h@.len() < 0x8000_0000,
            utf8_bytes(h@) <= 4 * h@.len(),
            pos <= h.len(),
            pos_bytes == byte_at(h@, pos as nat),
            k == 0 ==> last is None && pos == 0 && score == 0,
            k > 0 ==> last is Some,
            total == gap_score(haystack@, needle@),
            -20 * k <= score <= 30 + 25 * k,
            total == match gap_score_from(
                h@,
                n@,
                k as nat,
                pos as nat,
                match last {
                    Some(q) => Some(q as nat),
                    None => None,
                },
            ) {
                Some(rest) => Some(score + rest),
                None => None,
            },
        decreases n.len() - k,
    {
        let ch = n[k];
        let mut j = pos;
        let mut jb = pos_bytes;
        while j < h.len() && h[j] != ch
            invariant
                pos <= j <= h.len(),
                h@ == haystack@,
                4 * h@.len() < 0x8000_0000,
                jb == byte_at(h@, j as nat),
                forall|m: int| pos <= m < j ==> h@[m] != ch,
            decreases h.len() - j,
        {
            proof {
                assert(h@.take(j + 1).drop_last() == h@.take(j as int));
                crate::text::lemma_utf8_bytes_mono(h@, j + 1, h@.len() as int);
                crate::text::lemma_utf8_bytes_le(h@);
                assert(h@.take(h@.len() as int) == h@);
            }
            jb = jb + crate::text::char_utf8_len(h[j]);
            j = j + 1;
        }
        proof {
            lemma_find_from(h@, pos as nat, ch, j as nat);
        }
        if j == h.len() {
            proof {
                let lastv: Option<nat> = match last {
                    Some(q) => Some(q as nat),
                    None => None,
                };
                assert(find_from(h@, pos as nat, n@[k as int]) is None);
                assert(gap_score_from(h@, n@, k as nat, pos as nat, lastv) is None);
            }
            return None;
        }
        let idx = jb;
        proof {
            crate::text::lemma_utf8_bytes_mono(h@, j as int, h@.len() as int);
            assert(h@.take(h@.len() as int) == h@);
        }
        let bonus: i32 = match last {
            Some(prev) => if idx > prev && idx - prev == 1 {
                15
            } else if idx > prev && idx - prev - 1 > 0 {
                let gap = idx - prev - 1;
                if gap < 30 {
                    0 - gap as i32
                } else {
                    -30
                }
            } else {
                0
            },
            None => if idx < 30 {
                30 - idx as i32
            } else {
                0
            },
        };
        assert(-30 <= bonus <= 30 && (k > 0 ==> bonus <= 15));
        score = score + 10 + bonus;
        last = Some(idx);
        proof {
            assert(h@.take(j + 1).drop_last() == h@.take(j as int));
            assert(h@.take(j + 1).last() == h@[j as int]);
        }
        pos_bytes = jb + crate::text::char_utf8_len(h[j]);
        pos = j + 1;
        k = k + 1;
    }
    Some(score)
}

/// How well `token` (trimmed) matches `haystack`: 0 for an empty token;
/// `200 + 5 * length` when the haystack holds it; else its fuzzy score,
/// except that a token of four or more characters scoring under ten per
/// character does not match.
pub open spec fn token_spec(haystack: Seq<char>, token: Seq<char>) -> Option<int> {
    let t = trim(token);
    if t.len() == 0 {
        Some(0)
    } else if find_sub(haystack, t) >= 0 {
        Some(200 + 5 * t.len() as int)
    } else {
        match gap_score(haystack, t) {
            None => None,
            Some(score) => if t.len() >= 4 && score < t.len() * 10 {
                None
            } else {
                Some(score)
            },
        }
    }
}

/// How well `token` matches `haystack` (see `token_spec`).
pub fn token_score(haystack: &str, token: &str) -> (r: Option<i32>)
    requires
        4 * haystack@.len() < 0x8000_0000,
        trim(token@).len() <= 0x500_0000,
    ensures
        match (r, token_spec(haystack@, token@)) {
            (Some(a), Some(b)) => a as int == b,
            (None, None) => true,
            _ => false,
        },
{
    let t = trim_string(token);
    let tv = chars_of(t.as_str());
    if tv.len() == 0 {
        return Some(0);
    }
    let hv = chars_of(haystack);
    let at = crate::text::find_str_from(&hv, 0, &tv);
    assert(hv@.skip(0) == hv@);
    let len = tv.len() as i32;
    if at < hv.len() {
        return Some(200 + len * 5);
    }
    proof {
        crate::text::lemma_trim_len(t@);
    }
    let score = match fuzzy_score(haystack, t.as_str()) {
        Some(s) => s,
        None => {
            return None;
        },
    };
    if len >= 4 && score < len * 10 {
        None
    } else {
        Some(score)
    }
}


// ---------------------------------------------------------------------------
// Decorations
// ---------------------------------------------------------------------------

/// `str::split(", ")`: the pieces between the occurrences of `", "`.
pub open spec fn split_comma(s: Seq<char>) -> Seq<Seq<char>>
    decreases s.len(),
{
    let i = find_sub(s, seq![',', ' ']);
    if i < 0 || i + 2 > s.len() {
        seq![s]
    } else {
        seq![s.take(i)] + split_comma(s.skip(i + 2))
    }
}

/// The refs that one piece of a decoration adds: `HEAD -> b` gives `HEAD`
/// and `b`, `tag: t` gives `tag:t`, anything else itself (pieces trimmed,
/// blank ones dropped).
pub open spec fn deco_piece(part: Seq<char>) -> Seq<Seq<char>> {
    let t = trim(part);
    if t.len() == 0 {
        Seq::empty()
    } else if has_prefix(t, "HEAD -> "@) {
        push_nonempty(seq!["HEAD"@], trim(t.skip("HEAD -> "@.len() as int)))
    } else if has_prefix(t, "tag: "@) {
        let r = trim(t.skip("tag: "@.len() as int));
        if r.len() > 0 {
            seq!["tag:"@ + r]
        } else {
            Seq::empty()
        }
    } else {
        seq![t]
    }
}

pub open spec fn deco_fold(parts: Seq<Seq<char>>) -> Seq<Seq<char>>
    decreases parts.len(),
{
    if parts.len() == 0 {
        Seq::empty()
    } else {
        deco_fold(parts.drop_last()) + deco_piece(parts.last())
    }
}

/// The refs of a `git log --decorate` decoration such as
/// `(HEAD -> main, origin/main, tag: v1)`: the text trimmed and without its
/// parentheses, split at `", "`, each piece read by `deco_piece`.
pub open spec fn decoration_refs(decoration: Seq<char>) -> Seq<Seq<char>> {
    let d = trim(decoration);
    if d.len() == 0 {
        Seq::empty()
    } else {
        let text = if d.len() >= 2 && d[0] == '(' && d.last() == ')' {
            d.subrange(1, d.len() - 1)
        } else {
            d
        };
        deco_fold(split_comma(text))
    }
}

/// The pieces of `v` between the occurrences of `", "` (see `split_comma`).
fn split_at_commas(v: &Vec<char>) -> (r: Vec<Vec<char>>)
    ensures
        r@.map_values(|x: Vec<char>| x@) == split_comma(v@),
{
    let sep: Vec<char> = vec![',', ' '];
    assert(sep@ == seq![',', ' ']);
    let mut r: Vec<Vec<char>> = Vec::new();
    let mut start: usize = 0;
    assert(v@.skip(0) == v@);
    assert(r@.map_values(|x: Vec<char>| x@) == Seq::<Seq<char>>::empty());
    loop
        invariant
            start <= v.len(),
            sep@ == seq![',', ' '],
            split_comma(v@) == r@.map_values(|x: Vec<char>| x@) + split_comma(v@.skip(start as int)),
        decreases v.len() - start,
    {
        let ghost rest = v@.skip(start as int);
        let e = crate::text::find_str_from(v, start, &sep);
        let ghost old_r = r@;
        if e == v.len() || v.len() - e < 2 {
            let piece = crate::text::sub_chars(v, start, v.len());
            assert(v@.subrange(start as int, v@.len() as int) == rest);
            r.push(piece);
            assert(r@.map_values(|x: Vec<char>| x@) == old_r.map_values(|x: Vec<char>| x@).push(
                rest,
            ));
            return r;
        }
        let piece = crate::text::sub_chars(v, start, e);
        assert(v@.subrange(start as int, e as int) == rest.take(e - start));
        assert(rest.skip(e - start + 2) == v@.skip(e + 2));
        r.push(piece);
        assert(r@.map_values(|x: Vec<char>| x@) == old_r.map_values(|x: Vec<char>| x@).push(
            rest.take(e - start),
        ));
        start = e + 2;
    }
}

/// The refs named by a decoration (see `decoration_refs`).
pub fn git_decoration_tokens(decoration: &str) -> (r: Vec<String>)
    ensures
        strs(r@) == decoration_refs(decoration@),
{
    let d = trim_chars(&chars_of(decoration));
    let mut out: Vec<String> = Vec::new();
    if d.len() == 0 {
        assert(strs(out@) == Seq::<Seq<char>>::empty());
        return out;
    }
    let n = d.len();
    let text = if n >= 2 && d[0] == '(' && d[n - 1] == ')' {
        crate::text::sub_chars(&d, 1, n - 1)
    } else {
        d
    };
    let parts = split_at_commas(&text);
    let ghost ps = parts@.map_values(|x: Vec<char>| x@);
    let mut k: usize = 0;
    assert(ps.take(0) == Seq::<Seq<char>>::empty());
    assert(strs(out@) == Seq::<Seq<char>>::empty());
    while k < parts.len()
        invariant
            k <= parts.len(),
            ps == parts@.map_values(|x: Vec<char>| x@),
            strs(out@) == deco_fold(ps.take(k as int)),
        decreases parts.len() - k,
    {
        assert(ps.take(k + 1).drop_last() == ps.take(k as int));
        assert(ps.take(k + 1).last() == parts@[k as int]@);
        let t = trim_chars(&parts[k]);
        let ghost before = strs(out@);
        if t.len() > 0 {
            if let Some(rest) = strip_prefix_chars(&t, "HEAD -> ") {
                out.push("HEAD".to_owned());
                assert(strs(out@) == before.push("HEAD"@));
                let r = trim_chars(&rest);
                push_if_any(&mut out, &r);
                assert(strs(out@) == before + push_nonempty(seq!["HEAD"@], r@));
            } else if let Some(rest) = strip_prefix_chars(&t, "tag: ") {
                let r = trim_chars(&rest);
                if r.len() > 0 {
                    let mut s = "tag:".to_owned();
                    crate::text::push_chars(&mut s, &r);
                    out.push(s);
                    assert(strs(out@) == before.push("tag:"@ + r@));
                }
            } else {
                out.push(string_of(&t));
                assert(strs(out@) == before.push(t@));
            }
        }
        assert(strs(out@) == before + deco_piece(parts@[k as int]@));
        k = k + 1;
    }
    assert(ps.take(ps.len() as int) == ps);
    out
}

} // verus!
