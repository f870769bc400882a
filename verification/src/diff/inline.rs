//! Word-level change highlighting between a deleted and an added line, and the
//! pairing of deleted with added lines that look alike.
use vstd::prelude::*;
use crate::diff::model::InlineSpan;
use crate::diff::width::width_bounded;
use crate::text::{
    char_utf8_len, chars_eq, chars_of, is_whitespace, is_ws, lemma_utf8_bytes_le,
    lemma_utf8_bytes_push, strs, sub_chars, utf8_bytes, utf8_len,
};

verus! {

// ---------------------------------------------------------------------------
// Character classes
// ---------------------------------------------------------------------------

/// What `char::is_alphanumeric` returns for a character.
pub uninterp spec fn unicode_alphanumeric(c: char) -> bool;

pub open spec fn is_ascii_alnum(c: char) -> bool {
    let u = c as u32;
    (0x30 <= u <= 0x39) || (0x41 <= u <= 0x5A) || (0x61 <= u <= 0x7A)
}

/// Calls `char::is_alphanumeric` (the Unicode `Alphabetic` or `Numeric`
/// property); within ASCII that is exactly the digits and the letters.
/// Beyond ASCII the answer is only named.
#[verifier::external_body]
fn is_alphanumeric(c: char) -> (r: bool)
    ensures
        r == unicode_alphanumeric(c),
        (c as u32) < 0x80 ==> (r <==> is_ascii_alnum(c)),
{
    c.is_alphanumeric()
}

/// `char::is_ascii_punctuation`.
pub open spec fn is_ascii_punct(c: char) -> bool {
    let u = c as u32;
    (0x21 <= u <= 0x2F) || (0x3A <= u <= 0x40) || (0x5B <= u <= 0x60) || (0x7B <= u <= 0x7E)
}

#[derive(Clone, Copy, Debug, PartialEq, Eq, Structural)]
pub enum TokenKind {
    Word,
    Punctuation,
    Symbol,
}

pub open spec fn kind_of(c: char) -> TokenKind {
    if unicode_alphanumeric(c) || c == '_' {
        TokenKind::Word
    } else if is_ascii_punct(c) {
        TokenKind::Punctuation
    } else {
        TokenKind::Symbol
    }
}

fn token_kind(ch: char) -> (r: TokenKind)
    ensures
        r == kind_of(ch),
{
    let u = ch as u32;
    if is_alphanumeric(ch) || ch == '_' {
        TokenKind::Word
    } else if (0x21 <= u && u <= 0x2F) || (0x3A <= u && u <= 0x40) || (0x5B <= u && u <= 0x60) || (
    0x7B <= u && u <= 0x7E) {
        TokenKind::Punctuation
    } else {
        TokenKind::Symbol
    }
}

// ---------------------------------------------------------------------------
// Tokens
// ---------------------------------------------------------------------------

/// A token: its text, its byte range in the line, and its kind.
pub struct TokV {
    pub text: Seq<char>,
    pub start: usize,
    pub end: usize,
    pub kind: TokenKind,
}

#[derive(Clone, Debug)]
pub struct Token {
    pub text: Vec<char>,
    pub start: usize,
    pub end: usize,
    pub kind: TokenKind,
}

impl View for Token {
    type V = TokV;

    open spec fn view(&self) -> TokV {
        TokV { text: self.text@, start: self.start, end: self.end, kind: self.kind }
    }
}

pub open spec fn toks_v(t: Seq<Token>) -> Seq<TokV> {
    t.map_values(|x: Token| x@)
}

/// Whether `c` continues a word.
pub open spec fn is_word_char(c: char) -> bool {
    !is_ws(c) && kind_of(c) == TokenKind::Word
}

/// Length of the run of word characters at the start of `s`.
pub open spec fn word_run(s: Seq<char>) -> nat
    decreases s.len(),
{
    if s.len() == 0 || !is_word_char(s[0]) {
        0
    } else {
        1 + word_run(s.drop_first())
    }
}

/// Tokens of `s`, whose first character is at byte `b` of the line: white
/// space separates tokens, a run of word characters (alphanumerics and `_`)
/// is one token, and every other character is a token of its own.
pub open spec fn tokens_from(s: Seq<char>, b: nat) -> Seq<TokV>
    decreases s.len(),
{
    if s.len() == 0 {
        Seq::empty()
    } else if is_ws(s[0]) {
        tokens_from(s.drop_first(), b + utf8_len(s[0]))
    } else if kind_of(s[0]) == TokenKind::Word {
        let n = word_run(s);
        let e = b + utf8_bytes(s.take(n as int));
        if n == 0 {
            Seq::empty()
        } else {
            proof {
                lemma_word_run_le(s);
            }
            seq![TokV { text: s.take(n as int), start: b as usize, end: e as usize, kind: TokenKind::Word }]
                + tokens_from(s.skip(n as int), e)
        }
    } else {
        let e = b + utf8_len(s[0]);
        seq![TokV { text: seq![s[0]], start: b as usize, end: e as usize, kind: kind_of(s[0]) }]
            + tokens_from(s.drop_first(), e)
    }
}

pub open spec fn tokenize(s: Seq<char>) -> Seq<TokV> {
    tokens_from(s, 0)
}

pub proof fn lemma_word_run_le(s: Seq<char>)
    ensures
        word_run(s) <= s.len(),
    decreases s.len(),
{
    if s.len() > 0 {
        lemma_word_run_le(s.drop_first());
    }
}

proof fn lemma_word_run(s: Seq<char>, k: int)
    requires
        0 <= k <= s.len(),
        forall|m: int| 0 <= m < k ==> is_word_char(s[m]),
        k < s.len() ==> !is_word_char(s[k]),
    ensures
        word_run(s) == k,
    decreases k,
{
    if k > 0 {
        lemma_word_run(s.drop_first(), k - 1);
    }
}

proof fn lemma_utf8_bytes_range(v: Seq<char>, i: int, j: int)
    requires
        0 <= i <= j <= v.len(),
    ensures
        utf8_bytes(v.take(j)) == utf8_bytes(v.take(i)) + utf8_bytes(v.subrange(i, j)),
    decreases j - i,
{
    if i < j {
        lemma_utf8_bytes_range(v, i, j - 1);
        assert(v.take(j) == v.take(j - 1).push(v[j - 1]));
        assert(v.subrange(i, j) == v.subrange(i, j - 1).push(v[j - 1]));
        lemma_utf8_bytes_push(v.take(j - 1), v[j - 1]);
        lemma_utf8_bytes_push(v.subrange(i, j - 1), v[j - 1]);
    } else {
        assert(v.subrange(i, j) == Seq::<char>::empty());
    }
}

/// Splits `v` into tokens.
#[verifier::rlimit(50)]
fn tokenize_chars(v: &Vec<char>) -> (r: Vec<Token>)
    requires
        width_bounded(v@),
    ensures
        toks_v(r@) == tokenize(v@),
        forall|k: int| 0 <= k < r.len() ==> (#[trigger] r@[k]).start < r@[k].end <= utf8_bytes(v@),
{
    let mut toks: Vec<Token> = Vec::new();
    let mut i: usize = 0;
    let mut b: usize = 0;
    proof {
        lemma_utf8_bytes_le(v@);
        assert(v@.skip(0) == v@);
        assert(v@.take(0) == Seq::<char>::empty());
        assert(toks_v(toks@) == Seq::<TokV>::empty());
    }
    while i < v.len()
        invariant
            0 <= i <= v.len(),
            width_bounded(v@),
            utf8_bytes(v@) <= 4 * v@.len(),
            b == utf8_bytes(v@.take(i as int)),
            tokenize(v@) == toks_v(toks@) + tokens_from(v@.skip(i as int), b as nat),
            forall|k: int| 0 <= k < toks.len() ==> (#[trigger] toks@[k]).start < toks@[k].end <= b,
        decreases v.len() - i,
    {
        let ch = v[i];
        let l = char_utf8_len(ch);
        let ghost rest = v@.skip(i as int);
        proof {
            assert(rest[0] == ch);
            assert(rest.drop_first() == v@.skip(i + 1));
            assert(v@.take(i + 1) == v@.take(i as int).push(ch));
            lemma_utf8_bytes_push(v@.take(i as int), ch);
            lemma_utf8_bytes_mono(v@, i + 1, v@.len() as int);
            assert(v@.take(v@.len() as int) == v@);
        }
        if is_whitespace(ch) {
            b = b + l;
            i = i + 1;
            continue;
        }
        let kind = token_kind(ch);
        let start = b;
        let mut j: usize = i + 1;
        let mut e: usize = b + l;
        if kind == TokenKind::Word {
            while j < v.len() && !is_whitespace(v[j]) && token_kind(v[j]) == TokenKind::Word
                invariant
                    i < j <= v.len(),
                    width_bounded(v@),
                    utf8_bytes(v@) <= 4 * v@.len(),
                    e == utf8_bytes(v@.take(j as int)),
                    forall|m: int| i <= m < j ==> is_word_char(v@[m]),
                decreases v.len() - j,
            {
                let l2 = char_utf8_len(v[j]);
                proof {
                    assert(v@.take(j + 1) == v@.take(j as int).push(v@[j as int]));
                    lemma_utf8_bytes_push(v@.take(j as int), v@[j as int]);
                    lemma_utf8_bytes_mono(v@, j + 1, v@.len() as int);
                    assert(v@.take(v@.len() as int) == v@);
                }
                e = e + l2;
                j = j + 1;
            }
            proof {
                lemma_word_run(rest, j - i);
                assert(rest.take(j - i) == v@.subrange(i as int, j as int));
                lemma_utf8_bytes_range(v@, i as int, j as int);
                assert(rest.skip(j - i) == v@.skip(j as int));
            }
        }
        let text = sub_chars(v, i, j);
        proof {
            if kind != TokenKind::Word {
                assert(text@ == seq![ch]);
            }
            lemma_utf8_bytes_mono(v@, j as int, v@.len() as int);
        }
        let ghost old_toks = toks@;
        toks.push(Token { text, start, end: e, kind });
        proof {
            assert(toks_v(toks@) == toks_v(old_toks).push(toks@[toks@.len() - 1]@));
        }
        b = e;
        i = j;
    }
    proof {
        assert(v@.take(v@.len() as int) == v@);
    }
    toks
}

proof fn lemma_utf8_bytes_mono(s: Seq<char>, i: int, j: int)
    requires
        0 <= i <= j <= s.len(),
    ensures
        utf8_bytes(s.take(i)) <= utf8_bytes(s.take(j)),
{
    crate::text::lemma_utf8_bytes_mono(s, i, j);
}

// ---------------------------------------------------------------------------
// Longest common subsequence of token texts
// ---------------------------------------------------------------------------

pub open spec fn texts(t: Seq<TokV>) -> Seq<Seq<char>> {
    t.map_values(|x: TokV| x.text)
}

pub open spec fn tv(x: Seq<Vec<char>>) -> Seq<Seq<char>> {
    x.map_values(|y: Vec<char>| y@)
}

/// Length of a longest common subsequence of `a[i..]` and `b[j..]`.
pub open spec fn lcs(a: Seq<Seq<char>>, b: Seq<Seq<char>>, i: int, j: int) -> nat
    decreases a.len() - i, b.len() - j,
{
    if i < 0 || j < 0 || i >= a.len() || j >= b.len() {
        0
    } else if a[i] == b[j] {
        lcs(a, b, i + 1, j + 1) + 1
    } else {
        let x = lcs(a, b, i + 1, j);
        let y = lcs(a, b, i, j + 1);
        if x >= y {
            x
        } else {
            y
        }
    }
}

pub proof fn lemma_lcs_bound(a: Seq<Seq<char>>, b: Seq<Seq<char>>, i: int, j: int)
    requires
        0 <= i <= a.len(),
        0 <= j <= b.len(),
    ensures
        lcs(a, b, i, j) <= a.len() - i,
        lcs(a, b, i, j) <= b.len() - j,
    decreases a.len() - i, b.len() - j,
{
    if i < a.len() && j < b.len() {
        lemma_lcs_bound(a, b, i + 1, j + 1);
        lemma_lcs_bound(a, b, i + 1, j);
        lemma_lcs_bound(a, b, i, j + 1);
    }
}

/// Table `rows` with `rows[a.len() - i][j] == lcs(a, b, i, j)`.
fn lcs_rows(a: &Vec<Vec<char>>, b: &Vec<Vec<char>>) -> (rows: Vec<Vec<usize>>)
    ensures
        rows.len() == a.len() + 1,
        forall|k: int| 0 <= k <= a.len() ==> (#[trigger] rows@[k]).len() == b.len() + 1,
        forall|k: int, j: int|
            0 <= k <= a.len() && 0 <= j <= b.len() ==> (#[trigger] rows@[k]@[j]) == lcs(
                tv(a@),
                tv(b@),
                a.len() - k,
                j,
            ),
{
    let ghost ta = tv(a@);
    let ghost tb = tv(b@);
    let n = a.len();
    let m = b.len();
    let mut rows: Vec<Vec<usize>> = Vec::new();
    let mut last: Vec<usize> = Vec::new();
    last.push(0);
    let mut j: usize = 0;
    while j < m
        invariant
            0 <= j <= m,
            m == b.len(),
            last.len() == j + 1,
            forall|q: int| 0 <= q <= j ==> last@[q] == 0,
        decreases m - j,
    {
        last.push(0);
        j = j + 1;
    }
    proof {
        assert forall|q: int| 0 <= q <= m implies last@[q] == lcs(ta, tb, n as int, q) by {}
    }
    rows.push(last);
    let mut i: usize = n;
    while i > 0
        invariant
            0 <= i <= n,
            n == a.len(),
            m == b.len(),
            ta == tv(a@),
            tb == tv(b@),
            rows.len() == n - i + 1,
            forall|k: int| 0 <= k < rows.len() ==> (#[trigger] rows@[k]).len() == m + 1,
            forall|k: int, q: int|
                0 <= k < rows.len() && 0 <= q <= m ==> (#[trigger] rows@[k]@[q]) == lcs(
                    ta,
                    tb,
                    n - k,
                    q,
                ),
            forall|k: int, q: int|
                0 <= k < rows.len() && 0 <= q <= m ==> (#[trigger] rows@[k]@[q]) <= k,
        decreases i,
    {
        i = i - 1;
        let next = &rows[n - i - 1];
        let mut row: Vec<usize> = Vec::new();
        row.push(0);
        let mut q: usize = 0;
        while q < m
            invariant
                0 <= q <= m,
                row.len() == q + 1,
                forall|x: int| 0 <= x <= q ==> row@[x] == 0,
            decreases m - q,
        {
            row.push(0);
            q = q + 1;
        }
        let mut jj: usize = m;
        while jj > 0
            invariant
                0 <= jj <= m,
                i < n,
                n == a.len(),
                m == b.len(),
                ta == tv(a@),
                tb == tv(b@),
                row.len() == m + 1,
                next.len() == m + 1,
                forall|q: int| 0 <= q <= m ==> (#[trigger] next@[q]) == lcs(ta, tb, i + 1, q),
                forall|q: int| 0 <= q <= m ==> (#[trigger] next@[q]) <= n - i - 1,
                forall|q: int| jj <= q <= m ==> (#[trigger] row@[q]) == lcs(ta, tb, i as int, q),
                forall|q: int| jj <= q <= m ==> (#[trigger] row@[q]) <= n - i,
                row@[m as int] == 0,
            decreases jj,
        {
            jj = jj - 1;
            let v = if chars_eq(&a[i], &b[jj]) {
                next[jj + 1] + 1
            } else {
                let x = next[jj];
                let y = row[jj + 1];
                if x >= y {
                    x
                } else {
                    y
                }
            };
            proof {
                assert(ta[i as int] == a@[i as int]@);
                assert(tb[jj as int] == b@[jj as int]@);
            }
            row.set(jj, v);
        }
        proof {
            assert(lcs(ta, tb, i as int, m as int) == 0);
        }
        rows.push(row);
    }
    rows
}

// ---------------------------------------------------------------------------
// Token matching
// ---------------------------------------------------------------------------

#[derive(Clone, Copy, Debug, PartialEq, Eq, Structural)]
pub struct TokenPair {
    pub old_index: usize,
    pub new_index: usize,
}

/// Length of the common prefix of `a` and `b` once the first `k` agree.
pub open spec fn common_prefix(a: Seq<Seq<char>>, b: Seq<Seq<char>>, k: int) -> int
    decreases a.len() - k,
{
    if 0 <= k < a.len() && k < b.len() && a[k] == b[k] {
        common_prefix(a, b, k + 1)
    } else {
        k
    }
}

/// Length of the common suffix of `a` and `b` that stays clear of the first
/// `p` items, once the last `s` agree.
pub open spec fn common_suffix(a: Seq<Seq<char>>, b: Seq<Seq<char>>, p: int, s: int) -> int
    decreases a.len() - s,
{
    if 0 <= p && 0 <= s && a.len() - s > p && b.len() - s > p && a[a.len() - s - 1] == b[b.len() - s - 1] {
        common_suffix(a, b, p, s + 1)
    } else {
        s
    }
}

/// The matches found between the middle parts `ma[i..]` and `mb[j..]`
/// (which start at index `off` of the whole token lists): equal tokens are
/// matched, otherwise the side whose skip keeps the longer common subsequence
/// is skipped (the old side on a tie).
pub open spec fn match_walk(
    ma: Seq<Seq<char>>,
    mb: Seq<Seq<char>>,
    i: int,
    j: int,
    off: int,
) -> Seq<TokenPair>
    decreases ma.len() - i, mb.len() - j,
{
    if i < 0 || j < 0 || i >= ma.len() || j >= mb.len() {
        Seq::empty()
    } else if ma[i] == mb[j] {
        seq![TokenPair { old_index: (off + i) as usize, new_index: (off + j) as usize }]
            + match_walk(ma, mb, i + 1, j + 1, off)
    } else if lcs(ma, mb, i + 1, j) >= lcs(ma, mb, i, j + 1) {
        match_walk(ma, mb, i + 1, j, off)
    } else {
        match_walk(ma, mb, i, j + 1, off)
    }
}

/// Matched token pairs of two token texts: the common prefix, then a longest
/// common subsequence of the middle, then the common suffix.
pub open spec fn token_pairs(a: Seq<Seq<char>>, b: Seq<Seq<char>>) -> Seq<TokenPair> {
    let p = common_prefix(a, b, 0);
    let s = common_suffix(a, b, p, 0);
    let ma = a.subrange(p, a.len() - s);
    let mb = b.subrange(p, b.len() - s);
    Seq::new(p as nat, |k: int| TokenPair { old_index: k as usize, new_index: k as usize })
        + match_walk(ma, mb, 0, 0, p) + Seq::new(
        s as nat,
        |k: int|
            TokenPair {
                old_index: (a.len() - s + k) as usize,
                new_index: (b.len() - s + k) as usize,
            },
    )
}

pub open spec fn matched_old(pairs: Seq<TokenPair>, k: int) -> bool {
    exists|q: int| 0 <= q < pairs.len() && pairs[q].old_index == k
}

pub open spec fn matched_new(pairs: Seq<TokenPair>, k: int) -> bool {
    exists|q: int| 0 <= q < pairs.len() && pairs[q].new_index == k
}

pub open spec fn flags_agree(pairs: Seq<TokenPair>, om: Seq<bool>, nm: Seq<bool>) -> bool {
    &&& forall|k: int| 0 <= k < om.len() ==> (#[trigger] om[k] <==> matched_old(pairs, k))
    &&& forall|k: int| 0 <= k < nm.len() ==> (#[trigger] nm[k] <==> matched_new(pairs, k))
}

fn push_pair(pairs: &mut Vec<TokenPair>, om: &mut Vec<bool>, nm: &mut Vec<bool>, p: TokenPair)
    requires
        p.old_index < old(om).len(),
        p.new_index < old(nm).len(),
        flags_agree(old(pairs)@, old(om)@, old(nm)@),
    ensures
        final(pairs)@ == old(pairs)@.push(p),
        final(om).len() == old(om).len(),
        final(nm).len() == old(nm).len(),
        flags_agree(final(pairs)@, final(om)@, final(nm)@),
{
    let ghost op = pairs@;
    pairs.push(p);
    om.set(p.old_index, true);
    nm.set(p.new_index, true);
    assert forall|k: int| 0 <= k < om.len() implies (#[trigger] om@[k] <==> matched_old(
        pairs@,
        k,
    )) by {
        if k == p.old_index {
            assert(pairs@[pairs@.len() - 1].old_index == k);
        } else {
            if matched_old(pairs@, k) {
                let q = choose|q: int| 0 <= q < pairs@.len() && pairs@[q].old_index == k;
                assert(q < op.len());
                assert(op[q].old_index == k);
            }
            if matched_old(op, k) {
                let q = choose|q: int| 0 <= q < op.len() && op[q].old_index == k;
                assert(pairs@[q].old_index == k);
            }
        }
    }
    assert forall|k: int| 0 <= k < nm.len() implies (#[trigger] nm@[k] <==> matched_new(
        pairs@,
        k,
    )) by {
        if k == p.new_index {
            assert(pairs@[pairs@.len() - 1].new_index == k);
        } else {
            if matched_new(pairs@, k) {
                let q = choose|q: int| 0 <= q < pairs@.len() && pairs@[q].new_index == k;
                assert(q < op.len());
                assert(op[q].new_index == k);
            }
            if matched_new(op, k) {
                let q = choose|q: int| 0 <= q < op.len() && op[q].new_index == k;
                assert(pairs@[q].new_index == k);
            }
        }
    }
}

fn falses(n: usize) -> (r: Vec<bool>)
    ensures
        r.len() == n,
        forall|k: int| 0 <= k < n ==> !(#[trigger] r@[k]),
{
    let mut r: Vec<bool> = Vec::new();
    let mut i: usize = 0;
    while i < n
        invariant
            0 <= i <= n,
            r.len() == i,
            forall|k: int| 0 <= k < i ==> !(#[trigger] r@[k]),
        decreases n - i,
    {
        r.push(false);
        i = i + 1;
    }
    r
}

fn token_texts(t: &Vec<Token>, lo: usize, hi: usize) -> (r: Vec<Vec<char>>)
    requires
        lo <= hi <= t.len(),
    ensures
        tv(r@) == texts(toks_v(t@)).subrange(lo as int, hi as int),
{
    let mut r: Vec<Vec<char>> = Vec::new();
    let mut i: usize = lo;
    while i < hi
        invariant
            lo <= i <= hi <= t.len(),
            tv(r@) == texts(toks_v(t@)).subrange(lo as int, i as int),
        decreases hi - i,
    {
        let c = sub_chars(&t[i].text, 0, t[i].text.len());
        proof {
            assert(t@[i as int].text@.subrange(0, t@[i as int].text@.len() as int) == t@[i as int].text@);
        }
        let ghost old_r = r@;
        r.push(c);
        assert(tv(r@) == tv(old_r).push(c@));
        assert(texts(toks_v(t@)).subrange(lo as int, i + 1) == texts(toks_v(t@)).subrange(
            lo as int,
            i as int,
        ).push(t@[i as int].text@));
        i = i + 1;
    }
    r
}

/// Matches the tokens of two lines: which tokens of each side are matched,
/// and the matched pairs in order.
fn token_matches(old_tokens: &Vec<Token>, new_tokens: &Vec<Token>) -> (r: (
    Vec<bool>,
    Vec<bool>,
    Vec<TokenPair>,
))
    ensures
        r.2@ == token_pairs(texts(toks_v(old_tokens@)), texts(toks_v(new_tokens@))),
        r.0.len() == old_tokens.len(),
        r.1.len() == new_tokens.len(),
        flags_agree(r.2@, r.0@, r.1@),
        forall|q: int|
            0 <= q < r.2.len() ==> (#[trigger] r.2@[q]).old_index < old_tokens.len()
                && r.2@[q].new_index < new_tokens.len(),
{
    let ghost a = texts(toks_v(old_tokens@));
    let ghost b = texts(toks_v(new_tokens@));
    let n = old_tokens.len();
    let m = new_tokens.len();
    let all_old = token_texts(old_tokens, 0, n);
    let all_new = token_texts(new_tokens, 0, m);
    proof {
        assert(a.subrange(0, n as int) == a);
        assert(b.subrange(0, m as int) == b);
    }
    let mut old_matched = falses(n);
    let mut new_matched = falses(m);
    let mut pairs: Vec<TokenPair> = Vec::new();

    let mut prefix: usize = 0;
    while prefix < n && prefix < m && chars_eq(&all_old[prefix], &all_new[prefix])
        invariant
            0 <= prefix <= n,
            prefix <= m,
            n == old_tokens.len(),
            m == new_tokens.len(),
            tv(all_old@) == a,
            tv(all_new@) == b,
            all_old.len() == n,
            all_new.len() == m,
            common_prefix(a, b, 0) == common_prefix(a, b, prefix as int),
            old_matched.len() == n,
            new_matched.len() == m,
            pairs@ == Seq::new(
                prefix as nat,
                |k: int| TokenPair { old_index: k as usize, new_index: k as usize },
            ),
            flags_agree(pairs@, old_matched@, new_matched@),
            forall|q: int|
                0 <= q < pairs.len() ==> (#[trigger] pairs@[q]).old_index < n && pairs@[q].new_index < m,
        decreases n - prefix,
    {
        proof {
            assert(a[prefix as int] == all_old@[prefix as int]@);
            assert(b[prefix as int] == all_new@[prefix as int]@);
        }
        push_pair(
            &mut pairs,
            &mut old_matched,
            &mut new_matched,
            TokenPair { old_index: prefix, new_index: prefix },
        );
        prefix = prefix + 1;
        assert(pairs@ =~= Seq::new(
            prefix as nat,
            |k: int| TokenPair { old_index: k as usize, new_index: k as usize },
        ));
    }
    proof {
        if prefix < n && prefix < m {
            assert(a[prefix as int] == all_old@[prefix as int]@);
            assert(b[prefix as int] == all_new@[prefix as int]@);
        }
    }
    let ghost p = prefix as int;

    let mut suffix: usize = 0;
    while n - suffix > prefix && m - suffix > prefix && chars_eq(
        &all_old[n - suffix - 1],
        &all_new[m - suffix - 1],
    )
        invariant
            0 <= suffix,
            prefix + suffix <= n,
            prefix + suffix <= m,
            n == old_tokens.len(),
            m == new_tokens.len(),
            tv(all_old@) == a,
            tv(all_new@) == b,
            all_old.len() == n,
            all_new.len() == m,
            p == prefix,
            common_suffix(a, b, p, 0) == common_suffix(a, b, p, suffix as int),
        decreases n - suffix,
    {
        proof {
            assert(a[n - suffix - 1] == all_old@[n - suffix - 1]@);
            assert(b[m - suffix - 1] == all_new@[m - suffix - 1]@);
        }
        suffix = suffix + 1;
    }
    proof {
        if n - suffix > prefix && m - suffix > prefix {
            assert(a[n - suffix - 1] == all_old@[n - suffix - 1]@);
            assert(b[m - suffix - 1] == all_new@[m - suffix - 1]@);
        }
    }
    let ghost s = suffix as int;

    let middle_old = token_texts(old_tokens, prefix, n - suffix);
    let middle_new = token_texts(new_tokens, prefix, m - suffix);
    let ghost ma = a.subrange(p, n - s);
    let ghost mb = b.subrange(p, m - s);
    let rows = lcs_rows(&middle_old, &middle_new);
    let mo = middle_old.len();
    let mn = middle_new.len();
    assert(tv(middle_old@).len() == mo);
    assert(tv(middle_new@).len() == mn);

    let mut i: usize = 0;
    let mut j: usize = 0;
    let ghost head = pairs@;
    proof {
        assert(pairs@ == head + Seq::<TokenPair>::empty());
    }
    while i < mo && j < mn
        invariant
            0 <= i <= mo,
            0 <= j <= mn,
            mo == n - suffix - prefix,
            mn == m - suffix - prefix,
            prefix + suffix <= n,
            prefix + suffix <= m,
            n == old_tokens.len(),
            m == new_tokens.len(),
            tv(middle_old@) == ma,
            tv(middle_new@) == mb,
            middle_old.len() == mo,
            middle_new.len() == mn,
            p == prefix,
            s == suffix,
            rows.len() == mo + 1,
            forall|k: int| 0 <= k <= mo ==> (#[trigger] rows@[k]).len() == mn + 1,
            forall|k: int, q: int|
                0 <= k <= mo && 0 <= q <= mn ==> (#[trigger] rows@[k]@[q]) == lcs(
                    ma,
                    mb,
                    mo - k,
                    q,
                ),
            old_matched.len() == n,
            new_matched.len() == m,
            flags_agree(pairs@, old_matched@, new_matched@),
            match_walk(ma, mb, 0, 0, p) == (pairs@.subrange(head.len() as int, pairs@.len() as int))
                + match_walk(ma, mb, i as int, j as int, p),
            pairs@.subrange(0, head.len() as int) == head,
            head.len() <= pairs.len(),
            forall|q: int|
                0 <= q < pairs.len() ==> (#[trigger] pairs@[q]).old_index < n && pairs@[q].new_index < m,
        decreases (mo - i) + (mn - j),
    {
        proof {
            assert(ma[i as int] == middle_old@[i as int]@);
            assert(mb[j as int] == middle_new@[j as int]@);
        }
        if chars_eq(&middle_old[i], &middle_new[j]) {
            let ghost before = pairs@;
            push_pair(
                &mut pairs,
                &mut old_matched,
                &mut new_matched,
                TokenPair { old_index: prefix + i, new_index: prefix + j },
            );
            proof {
                assert(pairs@.subrange(head.len() as int, pairs@.len() as int) == before.subrange(
                    head.len() as int,
                    before.len() as int,
                ).push(TokenPair { old_index: (prefix + i) as usize, new_index: (prefix + j) as usize }));
                assert(pairs@.subrange(0, head.len() as int) == before.subrange(0, head.len() as int));
            }
            i = i + 1;
            j = j + 1;
        } else if rows[mo - i - 1][j] >= rows[mo - i][j + 1] {
            i = i + 1;
        } else {
            j = j + 1;
        }
    }
    proof {
        assert(match_walk(ma, mb, i as int, j as int, p) == Seq::<TokenPair>::empty());
    }
    let ghost mid_end = pairs@.len();
    let mut k: usize = 0;
    while k < suffix
        invariant
            0 <= k <= suffix,
            prefix + suffix <= n,
            prefix + suffix <= m,
            n == old_tokens.len(),
            m == new_tokens.len(),
            old_matched.len() == n,
            new_matched.len() == m,
            flags_agree(pairs@, old_matched@, new_matched@),
            mid_end <= pairs.len(),
            pairs@.subrange(0, mid_end as int) == head + match_walk(ma, mb, 0, 0, p),
            pairs@.subrange(mid_end as int, pairs@.len() as int) == Seq::new(
                k as nat,
                |q: int|
                    TokenPair {
                        old_index: (a.len() - s + q) as usize,
                        new_index: (b.len() - s + q) as usize,
                    },
            ),
            a.len() == n,
            b.len() == m,
            s == suffix,
            forall|q: int|
                0 <= q < pairs.len() ==> (#[trigger] pairs@[q]).old_index < n && pairs@[q].new_index < m,
        decreases suffix - k,
    {
        let ghost before = pairs@;
        push_pair(
            &mut pairs,
            &mut old_matched,
            &mut new_matched,
            TokenPair { old_index: n - suffix + k, new_index: m - suffix + k },
        );
        proof {
            assert(pairs@.subrange(0, mid_end as int) == before.subrange(0, mid_end as int));
            assert(pairs@.subrange(mid_end as int, pairs@.len() as int) == before.subrange(
                mid_end as int,
                before.len() as int,
            ).push(TokenPair { old_index: (n - suffix + k) as usize, new_index: (m - suffix + k) as usize }));
        }
        k = k + 1;
        assert(pairs@.subrange(mid_end as int, pairs@.len() as int) =~= Seq::new(
            k as nat,
            |q: int|
                TokenPair {
                    old_index: (a.len() - s + q) as usize,
                    new_index: (b.len() - s + q) as usize,
                },
        ));
    }
    proof {
        assert(pairs@ == pairs@.subrange(0, mid_end as int) + pairs@.subrange(mid_end as int, pairs@.len() as int));
        assert(common_prefix(a, b, p) == p);
        assert(common_suffix(a, b, p, s) == s);
        assert(pairs@ =~= token_pairs(a, b));
    }
    (old_matched, new_matched, pairs)
}

// ---------------------------------------------------------------------------
// The matched pairs form a longest common subsequence
// ---------------------------------------------------------------------------

/// The walk over the middle parts makes exactly as many matches as their
/// longest common subsequence has items.
proof fn lemma_walk_len(ma: Seq<Seq<char>>, mb: Seq<Seq<char>>, i: int, j: int, off: int)
    requires
        0 <= i <= ma.len(),
        0 <= j <= mb.len(),
    ensures
        match_walk(ma, mb, i, j, off).len() == lcs(ma, mb, i, j),
    decreases ma.len() - i, mb.len() - j,
{
    if i < ma.len() && j < mb.len() {
        if ma[i] == mb[j] {
            lemma_walk_len(ma, mb, i + 1, j + 1, off);
        } else if lcs(ma, mb, i + 1, j) >= lcs(ma, mb, i, j + 1) {
            lemma_walk_len(ma, mb, i + 1, j, off);
        } else {
            lemma_walk_len(ma, mb, i, j + 1, off);
        }
    }
}

/// Each match of the walk pairs equal items of the middle parts, and the
/// matches advance on both sides.
proof fn lemma_match_walk_pairs(ma: Seq<Seq<char>>, mb: Seq<Seq<char>>, i: int, j: int, off: int)
    requires
        0 <= i <= ma.len(),
        0 <= j <= mb.len(),
        0 <= off,
        off + ma.len() <= usize::MAX,
        off + mb.len() <= usize::MAX,
    ensures
        forall|q: int|
            0 <= q < match_walk(ma, mb, i, j, off).len() ==> {
                let x = #[trigger] match_walk(ma, mb, i, j, off)[q];
                &&& off + i <= x.old_index < off + ma.len()
                &&& off + j <= x.new_index < off + mb.len()
                &&& ma[x.old_index - off] == mb[x.new_index - off]
            },
        forall|q1: int, q2: int|
            0 <= q1 < q2 < match_walk(ma, mb, i, j, off).len() ==> {
                &&& (#[trigger] match_walk(ma, mb, i, j, off)[q1]).old_index
                    < (#[trigger] match_walk(ma, mb, i, j, off)[q2]).old_index
                &&& match_walk(ma, mb, i, j, off)[q1].new_index < match_walk(
                    ma,
                    mb,
                    i,
                    j,
                    off,
                )[q2].new_index
            },
    decreases ma.len() - i, mb.len() - j,
{
    if i < ma.len() && j < mb.len() {
        if ma[i] == mb[j] {
            lemma_match_walk_pairs(ma, mb, i + 1, j + 1, off);
            let rest = match_walk(ma, mb, i + 1, j + 1, off);
            let x = TokenPair { old_index: (off + i) as usize, new_index: (off + j) as usize };
            let w = match_walk(ma, mb, i, j, off);
            assert(w == seq![x] + rest);
            assert(w[0] == x);
            assert forall|q: int| 0 <= q < w.len() implies {
                &&& off + i <= (#[trigger] w[q]).old_index < off + ma.len()
                &&& off + j <= w[q].new_index < off + mb.len()
                &&& ma[w[q].old_index - off] == mb[w[q].new_index - off]
            } by {
                if q > 0 {
                    assert(w[q] == rest[q - 1]);
                }
            }
            assert forall|q1: int, q2: int| 0 <= q1 < q2 < w.len() implies {
                &&& (#[trigger] w[q1]).old_index < (#[trigger] w[q2]).old_index
                &&& w[q1].new_index < w[q2].new_index
            } by {
                assert(w[q2] == rest[q2 - 1]);
                if q1 > 0 {
                    assert(w[q1] == rest[q1 - 1]);
                }
            }
        } else if lcs(ma, mb, i + 1, j) >= lcs(ma, mb, i, j + 1) {
            lemma_match_walk_pairs(ma, mb, i + 1, j, off);
            assert(match_walk(ma, mb, i, j, off) == match_walk(ma, mb, i + 1, j, off));
        } else {
            lemma_match_walk_pairs(ma, mb, i, j + 1, off);
            assert(match_walk(ma, mb, i, j, off) == match_walk(ma, mb, i, j + 1, off));
        }
    }
}

/// A common prefix adds one to the longest common subsequence per item.
proof fn lemma_lcs_prefix(a: Seq<Seq<char>>, b: Seq<Seq<char>>, k: int)
    requires
        0 <= k <= a.len(),
        k <= b.len(),
    ensures
        k <= common_prefix(a, b, k) <= a.len(),
        common_prefix(a, b, k) <= b.len(),
        forall|q: int| k <= q < common_prefix(a, b, k) ==> a[q] == b[q],
        lcs(a, b, k, k) == (common_prefix(a, b, k) - k) + lcs(
            a,
            b,
            common_prefix(a, b, k),
            common_prefix(a, b, k),
        ),
    decreases a.len() - k,
{
    if k < a.len() && k < b.len() && a[k] == b[k] {
        lemma_lcs_prefix(a, b, k + 1);
    }
}

/// Appending one item to both sides adds one to the longest common
/// subsequence of any two tails.
proof fn lemma_lcs_push(u: Seq<Seq<char>>, v: Seq<Seq<char>>, c: Seq<char>, i: int, j: int)
    requires
        0 <= i <= u.len(),
        0 <= j <= v.len(),
    ensures
        lcs(u.push(c), v.push(c), i, j) == lcs(u, v, i, j) + 1,
    decreases u.len() - i + v.len() - j,
{
    let uu = u.push(c);
    let vv = v.push(c);
    if i == u.len() && j == v.len() {
    } else if i == u.len() {
        lemma_lcs_push(u, v, c, i, j + 1);
        if vv[j] == c {
            assert(lcs(uu, vv, i + 1, j + 1) == 0);
        } else {
            assert(lcs(uu, vv, i + 1, j) == 0);
        }
    } else if j == v.len() {
        lemma_lcs_push(u, v, c, i + 1, j);
        if uu[i] == c {
            assert(lcs(uu, vv, i + 1, j + 1) == 0);
        } else {
            assert(lcs(uu, vv, i, j + 1) == 0);
        }
    } else {
        assert(uu[i] == u[i] && vv[j] == v[j]);
        lemma_lcs_push(u, v, c, i + 1, j + 1);
        lemma_lcs_push(u, v, c, i + 1, j);
        lemma_lcs_push(u, v, c, i, j + 1);
    }
}

/// Dropping the first `p` items of both sides shifts the tails.
proof fn lemma_lcs_skip(u: Seq<Seq<char>>, v: Seq<Seq<char>>, p: int, i: int, j: int)
    requires
        0 <= p,
        0 <= i,
        0 <= j,
        p + i <= u.len(),
        p + j <= v.len(),
    ensures
        lcs(u, v, p + i, p + j) == lcs(u.skip(p), v.skip(p), i, j),
    decreases u.len() - i + v.len() - j,
{
    if p + i < u.len() && p + j < v.len() {
        assert(u.skip(p)[i] == u[p + i]);
        assert(v.skip(p)[j] == v[p + j]);
        lemma_lcs_skip(u, v, p, i + 1, j + 1);
        lemma_lcs_skip(u, v, p, i + 1, j);
        lemma_lcs_skip(u, v, p, i, j + 1);
    }
}

/// The item `k` places before the end of `a`.
pub open spec fn from_end(a: Seq<Seq<char>>, k: int) -> Seq<char> {
    a[a.len() - 1 - k]
}

/// What `common_suffix` finds: a run of equal items at the ends that stays
/// clear of the first `p`.
proof fn lemma_common_suffix(a: Seq<Seq<char>>, b: Seq<Seq<char>>, p: int, t: int)
    requires
        0 <= p,
        0 <= t,
        p + t <= a.len(),
        p + t <= b.len(),
        forall|k: int| 0 <= k < t ==> #[trigger] from_end(a, k) == from_end(b, k),
    ensures
        t <= common_suffix(a, b, p, t),
        p + common_suffix(a, b, p, t) <= a.len(),
        p + common_suffix(a, b, p, t) <= b.len(),
        forall|k: int|
            0 <= k < common_suffix(a, b, p, t) ==> #[trigger] from_end(a, k) == from_end(b, k),
    decreases a.len() - t,
{
    if a.len() - t > p && b.len() - t > p && a[a.len() - t - 1] == b[b.len() - t - 1] {
        lemma_common_suffix(a, b, p, t + 1);
    }
}

/// A common suffix of `s` items adds `s` to the longest common subsequence
/// of any two tails that start before it.
proof fn lemma_lcs_suffix(a: Seq<Seq<char>>, b: Seq<Seq<char>>, s: int, t: int, i: int, j: int)
    requires
        0 <= t <= s,
        s <= a.len(),
        s <= b.len(),
        forall|k: int| 0 <= k < s ==> #[trigger] from_end(a, k) == from_end(b, k),
        0 <= i <= a.len() - s,
        0 <= j <= b.len() - s,
    ensures
        lcs(a.subrange(0, a.len() - s + t), b.subrange(0, b.len() - s + t), i, j) == lcs(
            a.subrange(0, a.len() - s),
            b.subrange(0, b.len() - s),
            i,
            j,
        ) + t,
    decreases t,
{
    if t > 0 {
        lemma_lcs_suffix(a, b, s, t - 1, i, j);
        let u = a.subrange(0, a.len() - s + t - 1);
        let v = b.subrange(0, b.len() - s + t - 1);
        let k = s - t;
        assert(from_end(a, k) == from_end(b, k));
        let c = a[a.len() - s + t - 1];
        assert(a.subrange(0, a.len() - s + t) =~= u.push(c));
        assert(b.subrange(0, b.len() - s + t) =~= v.push(c));
        lemma_lcs_push(u, v, c, i, j);
    } else {
        assert(a.subrange(0, a.len() - s + t) =~= a.subrange(0, a.len() - s));
        assert(b.subrange(0, b.len() - s + t) =~= b.subrange(0, b.len() - s));
    }
}

/// The matched token pairs of two lines form a longest common subsequence
/// of their token texts: each pair joins equal tokens, the pairs advance on
/// both lines, and there are as many as the longest common subsequence has
/// items. So a token shared by both lines in order is never left unmatched
/// for want of a longer match.
pub proof fn law_token_pairs_longest(a: Seq<Seq<char>>, b: Seq<Seq<char>>)
    requires
        a.len() <= usize::MAX,
        b.len() <= usize::MAX,
    ensures
        token_pairs(a, b).len() == lcs(a, b, 0, 0),
        forall|q: int|
            0 <= q < token_pairs(a, b).len() ==> {
                let x = #[trigger] token_pairs(a, b)[q];
                &&& x.old_index < a.len()
                &&& x.new_index < b.len()
                &&& a[x.old_index as int] == b[x.new_index as int]
            },
        forall|q1: int, q2: int|
            0 <= q1 < q2 < token_pairs(a, b).len() ==> {
                &&& (#[trigger] token_pairs(a, b)[q1]).old_index < (#[trigger] token_pairs(
                    a,
                    b,
                )[q2]).old_index
                &&& token_pairs(a, b)[q1].new_index < token_pairs(a, b)[q2].new_index
            },
{
    lemma_lcs_prefix(a, b, 0);
    let p = common_prefix(a, b, 0);
    lemma_common_suffix(a, b, p, 0);
    let s = common_suffix(a, b, p, 0);
    let n = a.len();
    let m = b.len();
    let ma = a.subrange(p, n - s);
    let mb = b.subrange(p, m - s);
    lemma_walk_len(ma, mb, 0, 0, p);
    lemma_match_walk_pairs(ma, mb, 0, 0, p);
    lemma_lcs_suffix(a, b, s, s, p, p);
    assert(a.subrange(0, n - s + s) =~= a);
    assert(b.subrange(0, m - s + s) =~= b);
    let a0 = a.subrange(0, n - s);
    let b0 = b.subrange(0, m - s);
    lemma_lcs_skip(a0, b0, p, 0, 0);
    assert(a0.skip(p) =~= ma);
    assert(b0.skip(p) =~= mb);

    let head = Seq::new(p as nat, |k: int| TokenPair { old_index: k as usize, new_index: k as usize });
    let w = match_walk(ma, mb, 0, 0, p);
    let tail = Seq::new(
        s as nat,
        |k: int|
            TokenPair {
                old_index: (a.len() - s + k) as usize,
                new_index: (b.len() - s + k) as usize,
            },
    );
    let tp = token_pairs(a, b);
    assert(tp == head + w + tail);
    let hw = head.len() + w.len();
    // Where each pair comes from, and the range of indices it can take.
    assert forall|q: int| 0 <= q < tp.len() implies {
        &&& q < p ==> tp[q].old_index == q && tp[q].new_index == q
        &&& p <= q < hw ==> tp[q] == w[q - p]
        &&& hw <= q ==> tp[q].old_index == n - s + (q - hw) && tp[q].new_index == m - s + (q - hw)
    } by {
        if q < p {
            assert(tp[q] == head[q]);
        } else if q < hw {
            assert(tp[q] == w[q - p]);
        } else {
            assert(tp[q] == tail[q - hw]);
        }
    }
    assert forall|q: int| 0 <= q < tp.len() implies {
        let x = #[trigger] tp[q];
        &&& x.old_index < a.len()
        &&& x.new_index < b.len()
        &&& a[x.old_index as int] == b[x.new_index as int]
    } by {
        if q < p {
        } else if q < hw {
            let x = w[q - p];
            assert(ma[x.old_index - p] == a[x.old_index as int]);
            assert(mb[x.new_index - p] == b[x.new_index as int]);
        } else {
            let k = q - hw;
            assert(from_end(a, s - 1 - k) == from_end(b, s - 1 - k));
        }
    }
    assert forall|q1: int, q2: int| 0 <= q1 < q2 < tp.len() implies {
        &&& (#[trigger] tp[q1]).old_index < (#[trigger] tp[q2]).old_index
        &&& tp[q1].new_index < tp[q2].new_index
    } by {
        if p <= q1 < hw {
            assert(tp[q1] == w[q1 - p]);
        }
        if p <= q2 < hw {
            assert(tp[q2] == w[q2 - p]);
        }
    }
}

// ---------------------------------------------------------------------------
// Changed spans
// ---------------------------------------------------------------------------

/// Gaps of at most this many bytes between two changed spans may be bridged.
pub const MAX_COALESCE_GAP_BYTES: usize = 12;

pub open spec fn tok_span(t: TokV) -> InlineSpan {
    InlineSpan { start: t.start, end: t.end }
}

/// The byte ranges of the first `k` tokens that are not matched, in order.
pub open spec fn raw_spans(t: Seq<TokV>, m: Seq<bool>, k: int) -> Seq<InlineSpan>
    decreases k,
{
    if k <= 0 {
        Seq::empty()
    } else if m[k - 1] {
        raw_spans(t, m, k - 1)
    } else {
        raw_spans(t, m, k - 1).push(tok_span(t[k - 1]))
    }
}

/// Whether the tokens from index `k` on leave at most two tokens inside the
/// byte gap `[start, end)` (`gap` of them already counted).
pub open spec fn coalesce_from(t: Seq<TokV>, start: usize, end: usize, k: int, gap: nat) -> bool
    decreases t.len() - k,
{
    if k < 0 || k >= t.len() {
        true
    } else if t[k].start >= end {
        true
    } else if t[k].end <= start {
        coalesce_from(t, start, end, k + 1, gap)
    } else if gap + 1 > 2 {
        false
    } else {
        coalesce_from(t, start, end, k + 1, gap + 1)
    }
}

/// Whether the gap `[start, end)` between two changed spans is short enough
/// (at most twelve bytes and at most two tokens) to be highlighted with them.
pub open spec fn should_coalesce(t: Seq<TokV>, start: usize, end: usize) -> bool {
    if end >= start && end - start > MAX_COALESCE_GAP_BYTES {
        false
    } else {
        coalesce_from(t, start, end, 0, 0)
    }
}

/// Merges `rest` into `acc` from left to right: a span that starts within the
/// last span, or after a gap that may be bridged, extends it; any other span
/// is added after it.
pub open spec fn merge_rest(t: Seq<TokV>, rest: Seq<InlineSpan>, acc: Seq<InlineSpan>) -> Seq<
    InlineSpan,
>
    decreases rest.len(),
{
    if rest.len() == 0 || acc.len() == 0 {
        acc
    } else {
        let last = acc.last();
        let sp = rest[0];
        if sp.start <= last.end || should_coalesce(t, last.end, sp.start) {
            merge_rest(
                t,
                rest.drop_first(),
                acc.drop_last().push(
                    InlineSpan {
                        start: last.start,
                        end: if last.end >= sp.end {
                            last.end
                        } else {
                            sp.end
                        },
                    },
                ),
            )
        } else {
            merge_rest(t, rest.drop_first(), acc.push(sp))
        }
    }
}

pub open spec fn merge_spec(t: Seq<TokV>, spans: Seq<InlineSpan>) -> Seq<InlineSpan> {
    if spans.len() == 0 {
        Seq::empty()
    } else {
        merge_rest(t, spans.drop_first(), seq![spans[0]])
    }
}

/// The merged byte ranges of the unmatched tokens.
pub open spec fn changed_spec(t: Seq<TokV>, m: Seq<bool>) -> Seq<InlineSpan> {
    merge_spec(t, raw_spans(t, m, t.len() as int))
}

fn should_coalesce_inline_gap(tokens: &Vec<Token>, start: usize, end: usize) -> (r: bool)
    ensures
        r == should_coalesce(toks_v(tokens@), start, end),
{
    let ghost t = toks_v(tokens@);
    if end >= start && end - start > MAX_COALESCE_GAP_BYTES {
        return false;
    }
    let mut gap: usize = 0;
    let mut k: usize = 0;
    while k < tokens.len()
        invariant
            0 <= k <= tokens.len(),
            gap <= 2,
            t == toks_v(tokens@),
            should_coalesce(t, start, end) == coalesce_from(t, start, end, k as int, gap as nat),
        decreases tokens.len() - k,
    {
        assert(t[k as int] == tokens@[k as int]@);
        if tokens[k].start >= end {
            return true;
        }
        if tokens[k].end <= start {
            k = k + 1;
            continue;
        }
        if gap + 1 > 2 {
            return false;
        }
        gap = gap + 1;
        k = k + 1;
    }
    true
}

fn merge_inline_spans(tokens: &Vec<Token>, spans: Vec<InlineSpan>) -> (r: Vec<InlineSpan>)
    ensures
        r@ == merge_spec(toks_v(tokens@), spans@),
{
    let ghost t = toks_v(tokens@);
    if spans.len() == 0 {
        return Vec::new();
    }
    let mut merged: Vec<InlineSpan> = Vec::new();
    merged.push(spans[0]);
    let mut k: usize = 1;
    proof {
        assert(spans@.skip(1) == spans@.drop_first());
        assert(merged@ == seq![spans@[0]]);
    }
    while k < spans.len()
        invariant
            1 <= k <= spans.len(),
            merged.len() >= 1,
            t == toks_v(tokens@),
            merge_spec(t, spans@) == merge_rest(t, spans@.skip(k as int), merged@),
        decreases spans.len() - k,
    {
        let span = spans[k];
        let last = merged[merged.len() - 1];
        proof {
            assert(spans@.skip(k as int)[0] == span);
            assert(spans@.skip(k as int).drop_first() == spans@.skip(k + 1));
            assert(merged@.last() == last);
        }
        if span.start <= last.end || should_coalesce_inline_gap(tokens, last.end, span.start) {
            let end = if last.end >= span.end {
                last.end
            } else {
                span.end
            };
            let ghost before = merged@;
            let idx = merged.len() - 1;
            merged.set(idx, InlineSpan { start: last.start, end });
            assert(merged@ == before.drop_last().push(InlineSpan { start: last.start, end }));
        } else {
            merged.push(span);
        }
        k = k + 1;
    }
    proof {
        assert(spans@.skip(k as int).len() == 0);
    }
    merged
}

fn changed_spans(tokens: &Vec<Token>, matched: &Vec<bool>) -> (r: Vec<InlineSpan>)
    requires
        matched.len() == tokens.len(),
    ensures
        r@ == changed_spec(toks_v(tokens@), matched@),
{
    let ghost t = toks_v(tokens@);
    let mut spans: Vec<InlineSpan> = Vec::new();
    let mut k: usize = 0;
    while k < tokens.len()
        invariant
            0 <= k <= tokens.len(),
            matched.len() == tokens.len(),
            t == toks_v(tokens@),
            spans@ == raw_spans(t, matched@, k as int),
        decreases tokens.len() - k,
    {
        if !matched[k] {
            assert(t[k as int] == tokens@[k as int]@);
            spans.push(InlineSpan { start: tokens[k].start, end: tokens[k].end });
        }
        k = k + 1;
    }
    merge_inline_spans(tokens, spans)
}

// ---------------------------------------------------------------------------
// Counterpart spans
// ---------------------------------------------------------------------------

pub open spec fn overlaps(tok: TokV, spans: Seq<InlineSpan>) -> bool {
    exists|q: int| 0 <= q < spans.len() && tok.start < spans[q].end && tok.end > spans[q].start
}

/// For the first `k` matched pairs: the target-side word tokens whose
/// source-side partner overlaps a source span.
pub open spec fn counterpart_raw(
    ot: Seq<TokV>,
    nt: Seq<TokV>,
    pairs: Seq<TokenPair>,
    src: Seq<InlineSpan>,
    old_target: bool,
    k: int,
) -> Seq<InlineSpan>
    decreases k,
{
    if k <= 0 || k > pairs.len() {
        Seq::empty()
    } else {
        let prev = counterpart_raw(ot, nt, pairs, src, old_target, k - 1);
        let pr = pairs[k - 1];
        let source = if old_target {
            nt[pr.new_index as int]
        } else {
            ot[pr.old_index as int]
        };
        let target = if old_target {
            ot[pr.old_index as int]
        } else {
            nt[pr.new_index as int]
        };
        if target.kind != TokenKind::Word || !overlaps(source, src) {
            prev
        } else {
            prev.push(tok_span(target))
        }
    }
}

/// Spans to show on the side that has no change of its own: the words
/// matched to words inside the other side's changed spans, merged.
pub open spec fn counterpart_spec(
    ot: Seq<TokV>,
    nt: Seq<TokV>,
    pairs: Seq<TokenPair>,
    src: Seq<InlineSpan>,
    old_target: bool,
) -> Seq<InlineSpan> {
    merge_spec(
        if old_target {
            ot
        } else {
            nt
        },
        counterpart_raw(ot, nt, pairs, src, old_target, pairs.len() as int),
    )
}

fn token_overlaps_spans(token: &Token, spans: &Vec<InlineSpan>) -> (r: bool)
    ensures
        r == overlaps(token@, spans@),
{
    let mut q: usize = 0;
    while q < spans.len()
        invariant
            0 <= q <= spans.len(),
            forall|x: int|
                0 <= x < q ==> !(token.start < spans@[x].end && token.end > spans@[x].start),
        decreases spans.len() - q,
    {
        if token.start < spans[q].end && token.end > spans[q].start {
            return true;
        }
        q = q + 1;
    }
    false
}

fn counterpart_spans(
    old_tokens: &Vec<Token>,
    new_tokens: &Vec<Token>,
    pairs: &Vec<TokenPair>,
    source_spans: &Vec<InlineSpan>,
    old_target: bool,
) -> (r: Vec<InlineSpan>)
    requires
        forall|q: int|
            0 <= q < pairs.len() ==> (#[trigger] pairs@[q]).old_index < old_tokens.len()
                && pairs@[q].new_index < new_tokens.len(),
    ensures
        r@ == counterpart_spec(
            toks_v(old_tokens@),
            toks_v(new_tokens@),
            pairs@,
            source_spans@,
            old_target,
        ),
{
    let ghost ot = toks_v(old_tokens@);
    let ghost nt = toks_v(new_tokens@);
    let mut spans: Vec<InlineSpan> = Vec::new();
    let mut k: usize = 0;
    while k < pairs.len()
        invariant
            0 <= k <= pairs.len(),
            ot == toks_v(old_tokens@),
            nt == toks_v(new_tokens@),
            forall|q: int|
                0 <= q < pairs.len() ==> (#[trigger] pairs@[q]).old_index < old_tokens.len()
                    && pairs@[q].new_index < new_tokens.len(),
            spans@ == counterpart_raw(ot, nt, pairs@, source_spans@, old_target, k as int),
        decreases pairs.len() - k,
    {
        let pair = pairs[k];
        let (source, target) = if old_target {
            (&new_tokens[pair.new_index], &old_tokens[pair.old_index])
        } else {
            (&old_tokens[pair.old_index], &new_tokens[pair.new_index])
        };
        proof {
            assert(ot[pair.old_index as int] == old_tokens@[pair.old_index as int]@);
            assert(nt[pair.new_index as int] == new_tokens@[pair.new_index as int]@);
        }
        if target.kind != TokenKind::Word || !token_overlaps_spans(source, source_spans) {
            k = k + 1;
            continue;
        }
        spans.push(InlineSpan { start: target.start, end: target.end });
        k = k + 1;
    }
    let target_tokens = if old_target {
        old_tokens
    } else {
        new_tokens
    };
    merge_inline_spans(target_tokens, spans)
}

// ---------------------------------------------------------------------------
// Inline spans of a line pair
// ---------------------------------------------------------------------------

pub open spec fn matched_flags_old(pairs: Seq<TokenPair>, n: nat) -> Seq<bool> {
    Seq::new(n, |k: int| matched_old(pairs, k))
}

pub open spec fn matched_flags_new(pairs: Seq<TokenPair>, n: nat) -> Seq<bool> {
    Seq::new(n, |k: int| matched_new(pairs, k))
}

/// The changed byte ranges of an old line and of its new counterpart: the
/// merged ranges of the tokens that the other line does not match; when only
/// one side has such ranges, the other side highlights the words matched to
/// words inside them.
pub open spec fn inline_spans_spec(old: Seq<char>, new: Seq<char>) -> (Seq<InlineSpan>, Seq<
    InlineSpan,
>) {
    let ot = tokenize(old);
    let nt = tokenize(new);
    let pairs = token_pairs(texts(ot), texts(nt));
    let os0 = changed_spec(ot, matched_flags_old(pairs, ot.len()));
    let ns0 = changed_spec(nt, matched_flags_new(pairs, nt.len()));
    let ns1 = if os0.len() > 0 && ns0.len() == 0 {
        counterpart_spec(ot, nt, pairs, os0, false)
    } else {
        ns0
    };
    let os1 = if ns1.len() > 0 && os0.len() == 0 {
        counterpart_spec(ot, nt, pairs, ns1, true)
    } else {
        os0
    };
    (os1, ns1)
}

pub fn inline_spans(old_code: &str, new_code: &str) -> (r: (Vec<InlineSpan>, Vec<InlineSpan>))
    requires
        width_bounded(old_code@),
        width_bounded(new_code@),
    ensures
        r.0@ == inline_spans_spec(old_code@, new_code@).0,
        r.1@ == inline_spans_spec(old_code@, new_code@).1,
{
    let ov = chars_of(old_code);
    let nv = chars_of(new_code);
    let old_tokens = tokenize_chars(&ov);
    let new_tokens = tokenize_chars(&nv);
    let (old_matched, new_matched, pairs) = token_matches(&old_tokens, &new_tokens);
    proof {
        assert(toks_v(old_tokens@).len() == old_tokens.len());
        assert(toks_v(new_tokens@).len() == new_tokens.len());
        assert(old_matched@ =~= matched_flags_old(pairs@, old_tokens.len() as nat));
        assert(new_matched@ =~= matched_flags_new(pairs@, new_tokens.len() as nat));
    }
    let mut old_spans = changed_spans(&old_tokens, &old_matched);
    let mut new_spans = changed_spans(&new_tokens, &new_matched);
    if old_spans.len() > 0 && new_spans.len() == 0 {
        new_spans = counterpart_spans(&old_tokens, &new_tokens, &pairs, &old_spans, false);
    }
    if new_spans.len() > 0 && old_spans.len() == 0 {
        old_spans = counterpart_spans(&old_tokens, &new_tokens, &pairs, &new_spans, true);
    }
    (old_spans, new_spans)
}

// ---------------------------------------------------------------------------
// Pairing deleted with added lines
// ---------------------------------------------------------------------------

/// Similarities are fixed-point numbers: `SIMILARITY_SCALE` stands for 1.
pub const SIMILARITY_SCALE: u64 = 1_000_000;

/// Lines less similar than this (0.45) are never paired.
pub const MIN_INLINE_LINE_SIMILARITY: u64 = 450_000;

/// Added (up to 1) when two lines start with the same token (0.5).
pub const LEADING_TOKEN_MATCH_BONUS: u64 = 500_000;

#[derive(Clone, Copy, Debug, PartialEq, Eq, Structural)]
pub struct LinePair {
    pub delete_index: usize,
    pub add_index: usize,
}

/// The word tokens of `t`, in order.
pub open spec fn words(t: Seq<TokV>) -> Seq<TokV>
    decreases t.len(),
{
    if t.len() == 0 {
        Seq::empty()
    } else if t.last().kind == TokenKind::Word {
        words(t.drop_last()).push(t.last())
    } else {
        words(t.drop_last())
    }
}

/// How alike two lines are, from 0 to `SIMILARITY_SCALE`: twice the length of
/// a longest common subsequence of their tokens (their word tokens when both
/// have some) over the total number of those tokens, rounded down, plus
/// `LEADING_TOKEN_MATCH_BONUS` (capped at the scale) when the first tokens
/// agree. Lines without tokens score the full scale when equal, else 0.
pub open spec fn similarity(old: Seq<char>, new: Seq<char>) -> nat {
    let ot0 = tokenize(old);
    let nt0 = tokenize(new);
    let ow = words(ot0);
    let nw = words(nt0);
    let ot = if ow.len() > 0 && nw.len() > 0 {
        ow
    } else {
        ot0
    };
    let nt = if ow.len() > 0 && nw.len() > 0 {
        nw
    } else {
        nt0
    };
    if ot.len() == 0 || nt.len() == 0 {
        if old == new {
            SIMILARITY_SCALE as nat
        } else {
            0
        }
    } else {
        let common = lcs(texts(ot), texts(nt), 0, 0);
        let base: nat = ((2 * common * SIMILARITY_SCALE) as nat) / ((ot.len() + nt.len()) as nat);
        if ot[0].text == nt[0].text {
            if base + LEADING_TOKEN_MATCH_BONUS >= SIMILARITY_SCALE {
                SIMILARITY_SCALE as nat
            } else {
                (base + LEADING_TOKEN_MATCH_BONUS) as nat
            }
        } else {
            base as nat
        }
    }
}

fn copy_token(t: &Token) -> (r: Token)
    ensures
        r@ == t@,
{
    let text = sub_chars(&t.text, 0, t.text.len());
    assert(t.text@.subrange(0, t.text@.len() as int) == t.text@);
    Token { text, start: t.start, end: t.end, kind: t.kind }
}

fn similarity_tokens(tokens: &Vec<Token>) -> (r: Vec<Token>)
    ensures
        toks_v(r@) == words(toks_v(tokens@)),
{
    let mut r: Vec<Token> = Vec::new();
    let mut k: usize = 0;
    while k < tokens.len()
        invariant
            0 <= k <= tokens.len(),
            toks_v(r@) == words(toks_v(tokens@).take(k as int)),
        decreases tokens.len() - k,
    {
        proof {
            assert(toks_v(tokens@).take(k + 1).drop_last() == toks_v(tokens@).take(k as int));
            assert(toks_v(tokens@).take(k + 1).last() == tokens@[k as int]@);
        }
        if tokens[k].kind == TokenKind::Word {
            let t = copy_token(&tokens[k]);
            let ghost before = r@;
            r.push(t);
            assert(toks_v(r@) == toks_v(before).push(t@));
        }
        k = k + 1;
    }
    assert(toks_v(tokens@).take(tokens.len() as int) == toks_v(tokens@));
    r
}

proof fn lemma_scaled_ratio(c: nat, n: nat)
    requires
        n > 0,
        2 * c <= n,
    ensures
        (2 * c * 1_000_000nat) / n <= 1_000_000,
{
    assert((2 * c * 1_000_000nat) <= n * 1_000_000nat) by (nonlinear_arith)
        requires
            2 * c <= n,
    ;
    assert((2 * c * 1_000_000nat) / n <= 1_000_000) by (nonlinear_arith)
        requires
            (2 * c * 1_000_000nat) <= n * 1_000_000nat,
            n > 0,
    ;
}

fn line_similarity(old_code: &str, new_code: &str) -> (r: u64)
    requires
        width_bounded(old_code@),
        width_bounded(new_code@),
    ensures
        r == similarity(old_code@, new_code@),
        r <= SIMILARITY_SCALE,
{
    let ov = chars_of(old_code);
    let nv = chars_of(new_code);
    let ot0 = tokenize_chars(&ov);
    let nt0 = tokenize_chars(&nv);
    let ow = similarity_tokens(&ot0);
    let nw = similarity_tokens(&nt0);
    let use_words = ow.len() > 0 && nw.len() > 0;
    proof {
        assert(toks_v(ow@).len() == ow.len());
        assert(toks_v(nw@).len() == nw.len());
        assert(toks_v(ot0@).len() == ot0.len());
        assert(toks_v(nt0@).len() == nt0.len());
    }
    let (ot, nt) = if use_words {
        (ow, nw)
    } else {
        (ot0, nt0)
    };
    if ot.len() == 0 || nt.len() == 0 {
        return if chars_eq(&ov, &nv) {
            SIMILARITY_SCALE
        } else {
            0
        };
    }
    let ta = token_texts(&ot, 0, ot.len());
    let tb = token_texts(&nt, 0, nt.len());
    proof {
        assert(texts(toks_v(ot@)).subrange(0, ot.len() as int) == texts(toks_v(ot@)));
        assert(texts(toks_v(nt@)).subrange(0, nt.len() as int) == texts(toks_v(nt@)));
        assert(tv(ta@).len() == ta.len());
    }
    let rows = lcs_rows(&ta, &tb);
    let common = rows[ta.len()][0];
    proof {
        lemma_lcs_bound(tv(ta@), tv(tb@), 0, 0);
    }
    let total: u128 = ot.len() as u128 + nt.len() as u128;
    proof {
        lemma_scaled_ratio(common as nat, total as nat);
        assert(2 * (common as u128) * 1_000_000u128 <= total * 1_000_000u128) by (nonlinear_arith)
            requires
                2 * common <= total,
        ;
    }
    let base = ((2 * (common as u128) * (SIMILARITY_SCALE as u128)) / total) as u64;
    proof {
        assert(toks_v(ot@)[0].text == ot@[0].text@);
        assert(toks_v(nt@)[0].text == nt@[0].text@);
    }
    if chars_eq(&ot[0].text, &nt[0].text) {
        if base + LEADING_TOKEN_MATCH_BONUS >= SIMILARITY_SCALE {
            SIMILARITY_SCALE
        } else {
            base + LEADING_TOKEN_MATCH_BONUS
        }
    } else {
        base
    }
}

/// The best total similarity of a pairing of deletes `i..d` with adds `j..a`
/// that keeps order and pairs only lines at least `MIN_INLINE_LINE_SIMILARITY` alike.
pub open spec fn best_total(sc: Seq<Seq<nat>>, d: int, a: int, i: int, j: int) -> nat
    decreases d - i, a - j,
{
    if i < 0 || j < 0 || i >= d || j >= a {
        0
    } else {
        let x = best_total(sc, d, a, i + 1, j);
        let y = best_total(sc, d, a, i, j + 1);
        let m = if x >= y {
            x
        } else {
            y
        };
        let s = sc[i][j];
        if s >= MIN_INLINE_LINE_SIMILARITY && s + best_total(sc, d, a, i + 1, j + 1) > m {
            s + best_total(sc, d, a, i + 1, j + 1)
        } else {
            m
        }
    }
}

/// The pairs of a best pairing, found from the top left: a pair is taken
/// when it is allowed and does at least as well as skipping either line;
/// otherwise the delete is skipped when that does at least as well.
pub open spec fn best_walk(sc: Seq<Seq<nat>>, d: int, a: int, i: int, j: int) -> Seq<LinePair>
    decreases d - i, a - j,
{
    if i < 0 || j < 0 || i >= d || j >= a {
        Seq::empty()
    } else {
        let s = sc[i][j];
        let ps = s + best_total(sc, d, a, i + 1, j + 1);
        if s >= MIN_INLINE_LINE_SIMILARITY && ps >= best_total(sc, d, a, i + 1, j) && ps
            >= best_total(sc, d, a, i, j + 1) {
            seq![LinePair { delete_index: i as usize, add_index: j as usize }] + best_walk(
                sc,
                d,
                a,
                i + 1,
                j + 1,
            )
        } else if best_total(sc, d, a, i + 1, j) >= best_total(sc, d, a, i, j + 1) {
            best_walk(sc, d, a, i + 1, j)
        } else {
            best_walk(sc, d, a, i, j + 1)
        }
    }
}

/// The similarity of every delete with every add.
pub open spec fn score_matrix(deletes: Seq<Seq<char>>, adds: Seq<Seq<char>>) -> Seq<Seq<nat>> {
    Seq::new(
        deletes.len(),
        |i: int| Seq::new(adds.len(), |j: int| similarity(deletes[i], adds[j])),
    )
}


/// The pairs chosen between deleted and added lines.
pub open spec fn pairs_spec(deletes: Seq<Seq<char>>, adds: Seq<Seq<char>>) -> Seq<LinePair> {
    best_walk(score_matrix(deletes, adds), deletes.len() as int, adds.len() as int, 0, 0)
}

pub open spec fn lines_bounded(lines: Seq<Seq<char>>) -> bool {
    forall|i: int| 0 <= i < lines.len() ==> width_bounded(#[trigger] lines[i])
}

proof fn lemma_best_total_bound(sc: Seq<Seq<nat>>, d: int, a: int, i: int, j: int)
    requires
        0 <= i <= d,
        0 <= j <= a,
        sc.len() == d,
        forall|x: int, y: int| 0 <= x < d && 0 <= y < a ==> sc[x][y] <= SIMILARITY_SCALE,
    ensures
        best_total(sc, d, a, i, j) <= (d - i) * SIMILARITY_SCALE,
    decreases d - i, a - j,
{
    if i < d && j < a {
        lemma_best_total_bound(sc, d, a, i + 1, j);
        lemma_best_total_bound(sc, d, a, i, j + 1);
        lemma_best_total_bound(sc, d, a, i + 1, j + 1);
    }
}

fn best_line_pairs(scores: &Vec<Vec<u64>>, adds: usize) -> (r: Vec<LinePair>)
    requires
        forall|i: int| 0 <= i < scores.len() ==> (#[trigger] scores@[i]).len() == adds,
        forall|i: int, j: int|
            0 <= i < scores.len() && 0 <= j < adds ==> (#[trigger] scores@[i]@[j])
                <= SIMILARITY_SCALE,
    ensures
        r@ == best_walk(
            Seq::new(scores.len() as nat, |i: int| Seq::new(adds as nat, |j: int| scores@[i]@[j] as nat)),
            scores.len() as int,
            adds as int,
            0,
            0,
        ),
{
    let ghost sc = Seq::new(
        scores.len() as nat,
        |i: int| Seq::new(adds as nat, |j: int| scores@[i]@[j] as nat),
    );
    let d = scores.len();
    let a = adds;
    // rows[k] holds best_total(sc, d, a, d - k, _)
    let mut rows: Vec<Vec<u128>> = Vec::new();
    let mut last: Vec<u128> = Vec::new();
    last.push(0);
    let mut q: usize = 0;
    while q < a
        invariant
            0 <= q <= a,
            last.len() == q + 1,
            forall|x: int| 0 <= x <= q ==> last@[x] == 0,
        decreases a - q,
    {
        last.push(0);
        q = q + 1;
    }
    rows.push(last);
    let mut i: usize = d;
    while i > 0
        invariant
            0 <= i <= d,
            d == scores.len(),
            a == adds,
            sc == Seq::new(
                scores.len() as nat,
                |i: int| Seq::new(adds as nat, |j: int| scores@[i]@[j] as nat),
            ),
            forall|x: int| 0 <= x < scores.len() ==> (#[trigger] scores@[x]).len() == adds,
            forall|x: int, y: int|
                0 <= x < scores.len() && 0 <= y < adds ==> (#[trigger] scores@[x]@[y])
                    <= SIMILARITY_SCALE,
            rows.len() == d - i + 1,
            forall|k: int| 0 <= k < rows.len() ==> (#[trigger] rows@[k]).len() == a + 1,
            forall|k: int, y: int|
                0 <= k < rows.len() && 0 <= y <= a ==> (#[trigger] rows@[k]@[y]) == best_total(
                    sc,
                    d as int,
                    a as int,
                    d - k,
                    y,
                ),
        decreases i,
    {
        i = i - 1;
        let next = &rows[d - i - 1];
        let mut row: Vec<u128> = Vec::new();
        row.push(0);
        let mut q: usize = 0;
        while q < a
            invariant
                0 <= q <= a,
                row.len() == q + 1,
                forall|x: int| 0 <= x <= q ==> row@[x] == 0,
            decreases a - q,
        {
            row.push(0);
            q = q + 1;
        }
        let mut jj: usize = a;
        proof {
            assert(best_total(sc, d as int, a as int, i as int, a as int) == 0);
        }
        while jj > 0
            invariant
                0 <= jj <= a,
                i < d,
                d == scores.len(),
                a == adds,
                sc == Seq::new(
                    scores.len() as nat,
                    |i: int| Seq::new(adds as nat, |j: int| scores@[i]@[j] as nat),
                ),
                forall|x: int| 0 <= x < scores.len() ==> (#[trigger] scores@[x]).len() == adds,
                forall|x: int, y: int|
                    0 <= x < scores.len() && 0 <= y < adds ==> (#[trigger] scores@[x]@[y])
                        <= SIMILARITY_SCALE,
                row.len() == a + 1,
                next.len() == a + 1,
                forall|y: int|
                    0 <= y <= a ==> (#[trigger] next@[y]) == best_total(
                        sc,
                        d as int,
                        a as int,
                        i + 1,
                        y,
                    ),
                forall|y: int|
                    jj <= y <= a ==> (#[trigger] row@[y]) == best_total(
                        sc,
                        d as int,
                        a as int,
                        i as int,
                        y,
                    ),
            decreases jj,
        {
            jj = jj - 1;
            proof {
                lemma_best_total_bound(sc, d as int, a as int, i + 1, jj as int);
                lemma_best_total_bound(sc, d as int, a as int, i as int, jj + 1);
                lemma_best_total_bound(sc, d as int, a as int, i + 1, jj + 1);
                assert(sc[i as int][jj as int] == scores@[i as int]@[jj as int]);
            }
            let x = next[jj];
            let y = row[jj + 1];
            let m = if x >= y {
                x
            } else {
                y
            };
            let s = scores[i][jj] as u128;
            let v = if s >= MIN_INLINE_LINE_SIMILARITY as u128 && s + next[jj + 1] > m {
                s + next[jj + 1]
            } else {
                m
            };
            row.set(jj, v);
        }
        rows.push(row);
    }

    let mut pairs: Vec<LinePair> = Vec::new();
    let mut i: usize = 0;
    let mut j: usize = 0;
    proof {
        assert(pairs@ + best_walk(sc, d as int, a as int, 0, 0) == best_walk(sc, d as int, a as int, 0, 0));
    }
    while i < d && j < a
        invariant
            0 <= i <= d,
            0 <= j <= a,
            d == scores.len(),
            a == adds,
            sc == Seq::new(
                scores.len() as nat,
                |i: int| Seq::new(adds as nat, |j: int| scores@[i]@[j] as nat),
            ),
            forall|x: int| 0 <= x < scores.len() ==> (#[trigger] scores@[x]).len() == adds,
            forall|x: int, y: int|
                0 <= x < scores.len() && 0 <= y < adds ==> (#[trigger] scores@[x]@[y])
                    <= SIMILARITY_SCALE,
            rows.len() == d + 1,
            forall|k: int| 0 <= k < rows.len() ==> (#[trigger] rows@[k]).len() == a + 1,
            forall|k: int, y: int|
                0 <= k < rows.len() && 0 <= y <= a ==> (#[trigger] rows@[k]@[y]) == best_total(
                    sc,
                    d as int,
                    a as int,
                    d - k,
                    y,
                ),
            pairs@ + best_walk(sc, d as int, a as int, i as int, j as int) == best_walk(
                sc,
                d as int,
                a as int,
                0,
                0,
            ),
        decreases (d - i) + (a - j),
    {
        proof {
            assert(sc[i as int][j as int] == scores@[i as int]@[j as int]);
            lemma_best_total_bound(sc, d as int, a as int, i + 1, j + 1);
        }
        let s = scores[i][j] as u128;
        let pair_score = s + rows[d - i - 1][j + 1];
        if s >= MIN_INLINE_LINE_SIMILARITY as u128 && pair_score >= rows[d - i - 1][j]
            && pair_score >= rows[d - i][j + 1] {
            let ghost before = pairs@;
            pairs.push(LinePair { delete_index: i, add_index: j });
            assert(pairs@ == before.push(LinePair { delete_index: i, add_index: j }));
            assert(before + best_walk(sc, d as int, a as int, i as int, j as int) == pairs@
                + best_walk(sc, d as int, a as int, i + 1, j + 1));
            i = i + 1;
            j = j + 1;
        } else if rows[d - i - 1][j] >= rows[d - i][j + 1] {
            i = i + 1;
        } else {
            j = j + 1;
        }
    }
    proof {
        assert(best_walk(sc, d as int, a as int, i as int, j as int) == Seq::<LinePair>::empty());
        assert(pairs@ + Seq::<LinePair>::empty() == pairs@);
    }
    pairs
}

/// Pairs deleted lines with added lines that look alike, keeping order.
pub fn pair_changed_lines(deletes: &[String], adds: &[String]) -> (r: Vec<LinePair>)
    requires
        lines_bounded(strs(deletes@)),
        lines_bounded(strs(adds@)),
    ensures
        r@ == pairs_spec(strs(deletes@), strs(adds@)),
{
    if deletes.len() == 0 || adds.len() == 0 {
        return Vec::new();
    }
    let mut scores: Vec<Vec<u64>> = Vec::new();
    let mut i: usize = 0;
    while i < deletes.len()
        invariant
            0 <= i <= deletes.len(),
            lines_bounded(strs(deletes@)),
            lines_bounded(strs(adds@)),
            scores.len() == i,
            forall|x: int| 0 <= x < i ==> (#[trigger] scores@[x]).len() == adds.len(),
            forall|x: int, y: int|
                0 <= x < i && 0 <= y < adds.len() ==> (#[trigger] scores@[x]@[y]) as nat
                    == similarity(deletes@[x]@, adds@[y]@),
            forall|x: int, y: int|
                0 <= x < i && 0 <= y < adds.len() ==> (#[trigger] scores@[x]@[y])
                    <= SIMILARITY_SCALE,
        decreases deletes.len() - i,
    {
        let mut row: Vec<u64> = Vec::new();
        let mut j: usize = 0;
        while j < adds.len()
            invariant
                0 <= j <= adds.len(),
                i < deletes.len(),
                lines_bounded(strs(deletes@)),
                lines_bounded(strs(adds@)),
                row.len() == j,
                forall|y: int| 0 <= y < j ==> (#[trigger] row@[y]) as nat == similarity(
                    deletes@[i as int]@,
                    adds@[y]@,
                ),
                forall|y: int| 0 <= y < j ==> (#[trigger] row@[y]) <= SIMILARITY_SCALE,
            decreases adds.len() - j,
        {
            proof {
                assert(strs(deletes@)[i as int] == deletes@[i as int]@);
                assert(strs(adds@)[j as int] == adds@[j as int]@);
            }
            let sim = line_similarity(deletes[i].as_str(), adds[j].as_str());
            row.push(sim);
            j = j + 1;
        }
        scores.push(row);
        i = i + 1;
    }
    let r = best_line_pairs(&scores, adds.len());
    proof {
        assert(Seq::new(
            scores.len() as nat,
            |i: int| Seq::new(adds.len() as nat, |j: int| scores@[i]@[j] as nat),
        ) =~= score_matrix(strs(deletes@), strs(adds@))) by {
            assert forall|x: int| 0 <= x < deletes.len() implies Seq::new(
                adds.len() as nat,
                |j: int| scores@[x]@[j] as nat,
            ) =~= score_matrix(strs(deletes@), strs(adds@))[x] by {}
        }
    }
    r
}

/// The changed spans of every delete and add, and the chosen line pairs.
/// Only paired lines get spans.
pub fn pair_inline_spans(deletes: &[String], adds: &[String]) -> (r: (
    Vec<Vec<InlineSpan>>,
    Vec<Vec<InlineSpan>>,
    Vec<LinePair>,
))
    requires
        lines_bounded(strs(deletes@)),
        lines_bounded(strs(adds@)),
    ensures
        r.2@ == pairs_spec(strs(deletes@), strs(adds@)),
        r.0.len() == deletes.len(),
        r.1.len() == adds.len(),
        forall|k: int|
            0 <= k < deletes.len() ==> (#[trigger] r.0@[k])@ == paired_delete_spans(
                strs(deletes@),
                strs(adds@),
                k,
            ),
        forall|k: int|
            0 <= k < adds.len() ==> (#[trigger] r.1@[k])@ == paired_add_spans(strs(deletes@), strs(adds@), k),
{
    let mut delete_spans: Vec<Vec<InlineSpan>> = Vec::new();
    let mut add_spans: Vec<Vec<InlineSpan>> = Vec::new();
    let mut k: usize = 0;
    while k < deletes.len()
        invariant
            0 <= k <= deletes.len(),
            delete_spans.len() == k,
            forall|x: int| 0 <= x < k ==> (#[trigger] delete_spans@[x])@ == Seq::<InlineSpan>::empty(),
        decreases deletes.len() - k,
    {
        delete_spans.push(Vec::new());
        k = k + 1;
    }
    k = 0;
    while k < adds.len()
        invariant
            0 <= k <= adds.len(),
            add_spans.len() == k,
            forall|x: int| 0 <= x < k ==> (#[trigger] add_spans@[x])@ == Seq::<InlineSpan>::empty(),
        decreases adds.len() - k,
    {
        add_spans.push(Vec::new());
        k = k + 1;
    }
    let pairs = pair_changed_lines(deletes, adds);
    let ghost ps = pairs_spec(strs(deletes@), strs(adds@));
    proof {
        lemma_walk_pairs(
            score_matrix(strs(deletes@), strs(adds@)),
            deletes.len() as int,
            adds.len() as int,
            0,
            0,
        );
    }
    let mut q: usize = 0;
    while q < pairs.len()
        invariant
            0 <= q <= pairs.len(),
            pairs@ == ps,
            ps == pairs_spec(strs(deletes@), strs(adds@)),
            lines_bounded(strs(deletes@)),
            lines_bounded(strs(adds@)),
            delete_spans.len() == deletes.len(),
            add_spans.len() == adds.len(),
            forall|x: int|
                0 <= x < ps.len() ==> (#[trigger] ps[x]).delete_index < deletes.len()
                    && ps[x].add_index < adds.len(),
            forall|x: int, y: int|
                0 <= x < y < ps.len() ==> (#[trigger] ps[x]).delete_index
                    < (#[trigger] ps[y]).delete_index && ps[x].add_index < ps[y].add_index,
            forall|x: int|
                0 <= x < deletes.len() ==> (#[trigger] delete_spans@[x])@ == spans_upto_delete(
                    strs(deletes@),
                    strs(adds@),
                    ps,
                    q as int,
                    x,
                ),
            forall|x: int|
                0 <= x < adds.len() ==> (#[trigger] add_spans@[x])@ == spans_upto_add(
                    strs(deletes@),
                    strs(adds@),
                    ps,
                    q as int,
                    x,
                ),
        decreases pairs.len() - q,
    {
        let pair = pairs[q];
        proof {
            assert(strs(deletes@)[pair.delete_index as int] == deletes@[pair.delete_index as int]@);
            assert(strs(adds@)[pair.add_index as int] == adds@[pair.add_index as int]@);
        }
        let (old_spans, new_spans) = inline_spans(
            deletes[pair.delete_index].as_str(),
            adds[pair.add_index].as_str(),
        );
        delete_spans.set(pair.delete_index, old_spans);
        add_spans.set(pair.add_index, new_spans);
        q = q + 1;
    }
    proof {
        assert forall|x: int| 0 <= x < deletes.len() implies (#[trigger] delete_spans@[x])@
            == paired_delete_spans(strs(deletes@), strs(adds@), x) by {}
        assert forall|x: int| 0 <= x < adds.len() implies (#[trigger] add_spans@[x])@
            == paired_add_spans(strs(deletes@), strs(adds@), x) by {}
    }
    (delete_spans, add_spans, pairs)
}

/// Spans of delete `x` once the first `q` pairs have been handled.
pub open spec fn spans_upto_delete(
    deletes: Seq<Seq<char>>,
    adds: Seq<Seq<char>>,
    ps: Seq<LinePair>,
    q: int,
    x: int,
) -> Seq<InlineSpan> {
    if exists|k: int| 0 <= k < q && (#[trigger] ps[k]).delete_index == x {
        let k = choose|k: int| 0 <= k < q && (#[trigger] ps[k]).delete_index == x;
        inline_spans_spec(deletes[x], adds[ps[k].add_index as int]).0
    } else {
        Seq::empty()
    }
}

pub open spec fn spans_upto_add(
    deletes: Seq<Seq<char>>,
    adds: Seq<Seq<char>>,
    ps: Seq<LinePair>,
    q: int,
    x: int,
) -> Seq<InlineSpan> {
    if exists|k: int| 0 <= k < q && (#[trigger] ps[k]).add_index == x {
        let k = choose|k: int| 0 <= k < q && (#[trigger] ps[k]).add_index == x;
        inline_spans_spec(deletes[ps[k].delete_index as int], adds[x]).1
    } else {
        Seq::empty()
    }
}

/// Spans of delete `x`: those against its paired add, or none when unpaired.
pub open spec fn paired_delete_spans(deletes: Seq<Seq<char>>, adds: Seq<Seq<char>>, x: int) -> Seq<
    InlineSpan,
> {
    let ps = pairs_spec(deletes, adds);
    spans_upto_delete(deletes, adds, ps, ps.len() as int, x)
}

/// Spans of add `x`: those against its paired delete, or none when unpaired.
pub open spec fn paired_add_spans(deletes: Seq<Seq<char>>, adds: Seq<Seq<char>>, x: int) -> Seq<
    InlineSpan,
> {
    let ps = pairs_spec(deletes, adds);
    spans_upto_add(deletes, adds, ps, ps.len() as int, x)
}

/// The pairs of `best_walk` from `(i, j)` lie within range and strictly
/// increase on both sides.
pub proof fn lemma_walk_pairs(sc: Seq<Seq<nat>>, d: int, a: int, i: int, j: int)
    requires
        0 <= i,
        0 <= j,
        d <= usize::MAX,
        a <= usize::MAX,
    ensures
        forall|x: int|
            0 <= x < best_walk(sc, d, a, i, j).len() ==> i <= (#[trigger] best_walk(
                sc,
                d,
                a,
                i,
                j,
            )[x]).delete_index < d && j <= best_walk(sc, d, a, i, j)[x].add_index < a,
        forall|x: int, y: int|
            0 <= x < y < best_walk(sc, d, a, i, j).len() ==> (#[trigger] best_walk(
                sc,
                d,
                a,
                i,
                j,
            )[x]).delete_index < (#[trigger] best_walk(sc, d, a, i, j)[y]).delete_index
                && best_walk(sc, d, a, i, j)[x].add_index < best_walk(sc, d, a, i, j)[y].add_index,
    decreases d - i, a - j,
{
    if i < d && j < a {
        lemma_walk_pairs(sc, d, a, i + 1, j + 1);
        lemma_walk_pairs(sc, d, a, i + 1, j);
        lemma_walk_pairs(sc, d, a, i, j + 1);
        let w = best_walk(sc, d, a, i, j);
        let s = sc[i][j];
        let ps = s + best_total(sc, d, a, i + 1, j + 1);
        if s >= MIN_INLINE_LINE_SIMILARITY && ps >= best_total(sc, d, a, i + 1, j) && ps
            >= best_total(sc, d, a, i, j + 1) {
            let rest = best_walk(sc, d, a, i + 1, j + 1);
            let p = LinePair { delete_index: i as usize, add_index: j as usize };
            assert(w == seq![p] + rest);
            assert forall|x: int| 0 <= x < w.len() implies i <= (#[trigger] w[x]).delete_index < d
                && j <= w[x].add_index < a by {
                if x > 0 {
                    assert(w[x] == rest[x - 1]);
                }
            }
            assert forall|x: int, y: int| 0 <= x < y < w.len() implies (#[trigger] w[x]).delete_index
                < (#[trigger] w[y]).delete_index && w[x].add_index < w[y].add_index by {
                assert(w[y] == rest[y - 1]);
                if x > 0 {
                    assert(w[x] == rest[x - 1]);
                }
            }
        } else {
            let rest = if best_total(sc, d, a, i + 1, j) >= best_total(sc, d, a, i, j + 1) {
                best_walk(sc, d, a, i + 1, j)
            } else {
                best_walk(sc, d, a, i, j + 1)
            };
            assert(w == rest);
            assert forall|x: int| 0 <= x < w.len() implies i <= (#[trigger] w[x]).delete_index < d
                && j <= w[x].add_index < a by {
                assert(w[x] == rest[x]);
            }
            assert forall|x: int, y: int| 0 <= x < y < w.len() implies (#[trigger] w[x]).delete_index
                < (#[trigger] w[y]).delete_index && w[x].add_index < w[y].add_index by {
                assert(w[x] == rest[x]);
                assert(w[y] == rest[y]);
            }
        }
    }
}

/// Each chosen pair of lines carries the spans of its delete against its
/// add; a line left unpaired gets no spans.
pub proof fn law_paired_spans(deletes: Seq<Seq<char>>, adds: Seq<Seq<char>>)
    requires
        deletes.len() <= usize::MAX,
        adds.len() <= usize::MAX,
    ensures
        forall|k: int|
            0 <= k < pairs_spec(deletes, adds).len() ==> {
                let p = #[trigger] pairs_spec(deletes, adds)[k];
                &&& paired_delete_spans(deletes, adds, p.delete_index as int) == inline_spans_spec(
                    deletes[p.delete_index as int],
                    adds[p.add_index as int],
                ).0
                &&& paired_add_spans(deletes, adds, p.add_index as int) == inline_spans_spec(
                    deletes[p.delete_index as int],
                    adds[p.add_index as int],
                ).1
            },
        forall|x: int|
            (forall|k: int|
                0 <= k < pairs_spec(deletes, adds).len() ==> (#[trigger] pairs_spec(deletes, adds)[k]).delete_index
                    != x) ==> paired_delete_spans(deletes, adds, x) == Seq::<InlineSpan>::empty(),
        forall|x: int|
            (forall|k: int|
                0 <= k < pairs_spec(deletes, adds).len() ==> (#[trigger] pairs_spec(deletes, adds)[k]).add_index
                    != x) ==> paired_add_spans(deletes, adds, x) == Seq::<InlineSpan>::empty(),
{
    let ps = pairs_spec(deletes, adds);
    lemma_walk_pairs(score_matrix(deletes, adds), deletes.len() as int, adds.len() as int, 0, 0);
    assert forall|k: int| 0 <= k < ps.len() implies {
        let p = #[trigger] ps[k];
        &&& paired_delete_spans(deletes, adds, p.delete_index as int) == inline_spans_spec(
            deletes[p.delete_index as int],
            adds[p.add_index as int],
        ).0
        &&& paired_add_spans(deletes, adds, p.add_index as int) == inline_spans_spec(
            deletes[p.delete_index as int],
            adds[p.add_index as int],
        ).1
    } by {
        let p = ps[k];
        let q = ps.len() as int;
        assert(exists|m: int| 0 <= m < q && (#[trigger] ps[m]).delete_index == p.delete_index);
        let m = choose|m: int| 0 <= m < q && (#[trigger] ps[m]).delete_index == p.delete_index;
        if m < k {
            assert(ps[m].delete_index < ps[k].delete_index);
        } else if k < m {
            assert(ps[k].delete_index < ps[m].delete_index);
        }
        assert(m == k);
        assert(exists|m: int| 0 <= m < q && (#[trigger] ps[m]).add_index == p.add_index);
        let n = choose|n: int| 0 <= n < q && (#[trigger] ps[n]).add_index == p.add_index;
        if n < k {
            assert(ps[n].add_index < ps[k].add_index);
        } else if k < n {
            assert(ps[k].add_index < ps[n].add_index);
        }
        assert(n == k);
    }
}

} // verus!
