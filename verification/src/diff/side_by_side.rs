//! Side-by-side rows: deleted lines on the left, added lines on the right,
//! similar lines paired on one row with their changed spans.
use vstd::prelude::*;
use crate::diff::inline::{lines_bounded, pair_inline_spans, paired_add_spans, paired_delete_spans, pairs_spec, LinePair, lemma_walk_pairs, score_matrix};
use crate::diff::model::{
    empty_cell, rows_v, CellV, GitDiffCell, GitDiffCellKind, GitDiffRow, InlineSpan, RowV,
};
use crate::diff::width::{expand_spec, expand_tabs, width_bounded, expand_tab_chars};
use crate::text::{strs, chars_eq, str_starts_with,
    before_char, chars_of, find_str_from, has_prefix, index_of, next_word, next_word_bounds,
    parse_u32, parse_u32_chars, skip_ws, starts_with, find_char_in, trim, trim_chars,
    trim_start, find_sub, lemma_trim_start_at,
};

verus! {

broadcast use vstd::string::group_string_axioms;

/// The old and new start lines of a hunk header `@@ -a[,b] +c[,d] @@ ...`.
pub open spec fn hunk_header_spec(line: Seq<char>) -> Option<(u32, u32)> {
    let t = trim(line);
    if !has_prefix(t, "@@"@) {
        None
    } else {
        let r = trim_start(t.skip(2));
        let k = find_sub(r, "@@"@);
        if k < 0 {
            None
        } else {
            match next_word(r.take(k)) {
                None => None,
                Some((w1, rest)) => match next_word(rest) {
                    None => None,
                    Some((w2, _)) => if w1.len() > 0 && w1[0] == '-' && w2.len() > 0 && w2[0]
                        == '+' {
                        match (
                            parse_u32(before_char(w1.drop_first(), ',')),
                            parse_u32(before_char(w2.drop_first(), ',')),
                        ) {
                            (Some(o), Some(n)) => Some((o, n)),
                            _ => None,
                        }
                    } else {
                        None
                    },
                },
            }
        }
    }
}

/// Parses `v[lo..hi]` (a word starting with `sign`) up to its first comma.
fn parse_start(v: &Vec<char>, lo: usize, hi: usize, sign: char) -> (r: Option<u32>)
    requires
        lo <= hi <= v.len(),
    ensures
        ({
            let w = v@.subrange(lo as int, hi as int);
            r == (if w.len() > 0 && w[0] == sign {
                parse_u32(before_char(w.drop_first(), ','))
            } else {
                None
            })
        }),
{
    let ghost w = v@.subrange(lo as int, hi as int);
    if lo == hi || v[lo] != sign {
        return None;
    }
    let e = find_char_in(v, lo + 1, hi, ',');
    proof {
        assert(w.drop_first() == v@.subrange(lo + 1, hi as int));
        if e < hi {
            assert(v@.subrange(lo + 1, hi as int).take(e - lo - 1) == v@.subrange(lo + 1, e as int));
        }
    }
    parse_u32_chars(v, lo + 1, e)
}

pub fn parse_hunk_header(line: &str) -> (r: Option<(u32, u32)>)
    ensures
        r == hunk_header_spec(line@),
{
    let v = chars_of(line);
    let t = trim_chars(&v);
    if !starts_with(&t, "@@") {
        return None;
    }
    proof {
        reveal_strlit("@@");
    }
    let r0 = skip_ws(&t, 2, t.len());
    let ghost r = t@.subrange(r0 as int, t@.len() as int);
    proof {
        lemma_trim_start_at(t@.skip(2), r0 - 2);
        assert(t@.skip(2).skip(r0 - 2) == r);
        assert(t@.skip(r0 as int) == r);
    }
    let at = chars_of("@@");
    let k = find_str_from(&t, r0, &at);
    if k == t.len() {
        return None;
    }
    proof {
        assert(r.take(k - r0) == t@.subrange(r0 as int, k as int));
    }
    let w1 = next_word_bounds(&t, r0, k);
    let (a1, b1) = match w1 {
        Some(x) => x,
        None => {
            return None;
        },
    };
    let w2 = next_word_bounds(&t, b1, k);
    let (a2, b2) = match w2 {
        Some(x) => x,
        None => {
            return None;
        },
    };
    let o = parse_start(&t, a1, b1, '-');
    let n = parse_start(&t, a2, b2, '+');
    match (o, n) {
        (Some(o), Some(n)) => Some((o, n)),
        _ => None,
    }
}

// ---------------------------------------------------------------------------
// Rows
// ---------------------------------------------------------------------------

/// A pending changed line: its number and its text with tabs expanded.
pub open spec fn pend_v(p: Seq<(Option<u32>, String)>) -> Seq<(Option<u32>, Seq<char>)> {
    p.map_values(|x: (Option<u32>, String)| (x.0, x.1@))
}

pub open spec fn pend_texts(p: Seq<(Option<u32>, Seq<char>)>) -> Seq<Seq<char>> {
    p.map_values(|x: (Option<u32>, Seq<char>)| x.1)
}

/// The next line number, wrapping past `u32::MAX` as release builds do.
pub open spec fn bump(x: Option<u32>) -> Option<u32> {
    match x {
        Some(v) => Some(
            if v == u32::MAX {
                0u32
            } else {
                (v + 1) as u32
            },
        ),
        None => None,
    }
}

fn bump_exec(x: Option<u32>) -> (r: Option<u32>)
    ensures
        r == bump(x),
{
    match x {
        Some(v) => Some(v.wrapping_add(1)),
        None => None,
    }
}

pub open spec fn left_row(d: (Option<u32>, Seq<char>)) -> RowV {
    RowV::Split {
        old: CellV { line_no: d.0, text: d.1, kind: GitDiffCellKind::Delete, spans: Seq::empty() },
        new: empty_cell(),
    }
}

pub open spec fn right_row(a: (Option<u32>, Seq<char>)) -> RowV {
    RowV::Split {
        old: empty_cell(),
        new: CellV { line_no: a.0, text: a.1, kind: GitDiffCellKind::Add, spans: Seq::empty() },
    }
}

/// Deletes `lo..hi` shown alone on the left.
pub open spec fn left_rows(del: Seq<(Option<u32>, Seq<char>)>, lo: int, hi: int) -> Seq<RowV>
    decreases hi - lo,
{
    if lo < 0 || lo >= hi || lo >= del.len() {
        Seq::empty()
    } else {
        seq![left_row(del[lo])] + left_rows(del, lo + 1, hi)
    }
}

/// Adds `lo..hi` shown alone on the right.
pub open spec fn right_rows(add: Seq<(Option<u32>, Seq<char>)>, lo: int, hi: int) -> Seq<RowV>
    decreases hi - lo,
{
    if lo < 0 || lo >= hi || lo >= add.len() {
        Seq::empty()
    } else {
        seq![right_row(add[lo])] + right_rows(add, lo + 1, hi)
    }
}

/// A paired delete and add on one row, each with its changed spans.
pub open spec fn paired_row(
    del: Seq<(Option<u32>, Seq<char>)>,
    add: Seq<(Option<u32>, Seq<char>)>,
    p: LinePair,
) -> RowV {
    let dt = pend_texts(del);
    let at = pend_texts(add);
    RowV::Split {
        old: CellV {
            line_no: del[p.delete_index as int].0,
            text: del[p.delete_index as int].1,
            kind: GitDiffCellKind::Delete,
            spans: paired_delete_spans(dt, at, p.delete_index as int),
        },
        new: CellV {
            line_no: add[p.add_index as int].0,
            text: add[p.add_index as int].1,
            kind: GitDiffCellKind::Add,
            spans: paired_add_spans(dt, at, p.add_index as int),
        },
    }
}

/// Rows for pairs `q..`: unpaired deletes then unpaired adds before each
/// pair, the pair on one row, and the leftovers at the end.
pub open spec fn emit_rows(
    del: Seq<(Option<u32>, Seq<char>)>,
    add: Seq<(Option<u32>, Seq<char>)>,
    ps: Seq<LinePair>,
    q: int,
    di: int,
    ai: int,
) -> Seq<RowV>
    decreases ps.len() - q,
{
    if q < 0 || q >= ps.len() {
        left_rows(del, di, del.len() as int) + right_rows(add, ai, add.len() as int)
    } else {
        let p = ps[q];
        left_rows(del, di, p.delete_index as int) + right_rows(add, ai, p.add_index as int) + seq![
            paired_row(del, add, p),
        ] + emit_rows(del, add, ps, q + 1, p.delete_index + 1, p.add_index + 1)
    }
}

/// The rows for a run of deleted and added lines.
pub open spec fn flush_rows(del: Seq<(Option<u32>, Seq<char>)>, add: Seq<(Option<u32>, Seq<char>)>) -> Seq<
    RowV,
> {
    if del.len() == 0 && add.len() == 0 {
        Seq::empty()
    } else {
        emit_rows(del, add, pairs_spec(pend_texts(del), pend_texts(add)), 0, 0, 0)
    }
}

/// Lines whose tab-expanded text stays within the width bound.
pub open spec fn tab_bounded(s: Seq<char>) -> bool {
    16 * s.len() <= usize::MAX
}

pub open spec fn all_tab_bounded(lines: Seq<Seq<char>>) -> bool {
    forall|i: int| 0 <= i < lines.len() ==> tab_bounded(#[trigger] lines[i])
}

pub proof fn lemma_expand_len(s: Seq<char>)
    ensures
        expand_spec(s).len() <= 4 * s.len(),
    decreases s.len(),
{
    if s.len() > 0 {
        lemma_expand_len(s.drop_last());
    }
}

fn copy_spans(v: &Vec<InlineSpan>) -> (r: Vec<InlineSpan>)
    ensures
        r@ == v@,
{
    let mut r: Vec<InlineSpan> = Vec::new();
    let mut i: usize = 0;
    while i < v.len()
        invariant
            0 <= i <= v.len(),
            r@ == v@.take(i as int),
        decreases v.len() - i,
    {
        r.push(v[i]);
        i = i + 1;
        assert(r@ == v@.take(i as int));
    }
    assert(v@.take(v@.len() as int) == v@);
    r
}

fn copy_string(s: &String) -> (r: String)
    ensures
        r@ == s@,
{
    s.clone()
}

fn pending_texts(p: &Vec<(Option<u32>, String)>) -> (r: Vec<String>)
    ensures
        strs(r@) == pend_texts(pend_v(p@)),
{
    let mut r: Vec<String> = Vec::new();
    let mut i: usize = 0;
    while i < p.len()
        invariant
            0 <= i <= p.len(),
            strs(r@) == pend_texts(pend_v(p@)).take(i as int),
        decreases p.len() - i,
    {
        let t = copy_string(&p[i].1);
        let ghost before = r@;
        r.push(t);
        assert(strs(r@) == strs(before).push(t@));
        i = i + 1;
        assert(strs(r@) =~= pend_texts(pend_v(p@)).take(i as int));
    }
    assert(pend_texts(pend_v(p@)).take(p.len() as int) == pend_texts(pend_v(p@)));
    r
}

fn left_only_cell(line: &(Option<u32>, String)) -> (r: GitDiffRow)
    ensures
        r@ == left_row((line.0, line.1@)),
{
    GitDiffRow::Split {
        old: GitDiffCell::with_spans(line.0, copy_string(&line.1), GitDiffCellKind::Delete, Vec::new()),
        new: GitDiffCell::empty(),
    }
}

fn right_only_cell(line: &(Option<u32>, String)) -> (r: GitDiffRow)
    ensures
        r@ == right_row((line.0, line.1@)),
{
    GitDiffRow::Split {
        old: GitDiffCell::empty(),
        new: GitDiffCell::with_spans(line.0, copy_string(&line.1), GitDiffCellKind::Add, Vec::new()),
    }
}

proof fn lemma_left_rows_step(del: Seq<(Option<u32>, Seq<char>)>, lo: int, hi: int)
    requires
        0 <= lo < hi,
        lo < del.len(),
    ensures
        left_rows(del, lo, hi) == seq![left_row(del[lo])] + left_rows(del, lo + 1, hi),
{
}

proof fn lemma_right_rows_step(add: Seq<(Option<u32>, Seq<char>)>, lo: int, hi: int)
    requires
        0 <= lo < hi,
        lo < add.len(),
    ensures
        right_rows(add, lo, hi) == seq![right_row(add[lo])] + right_rows(add, lo + 1, hi),
{
}

fn push_row(rows: &mut Vec<GitDiffRow>, row: GitDiffRow)
    ensures
        rows_v(final(rows)@) == rows_v(old(rows)@).push(row@),
{
    rows.push(row);
    assert(rows_v(rows@) =~= rows_v(old(rows)@).push(row@));
}

fn flush_changes(
    rows: &mut Vec<GitDiffRow>,
    pending_del: &mut Vec<(Option<u32>, String)>,
    pending_add: &mut Vec<(Option<u32>, String)>,
)
    requires
        lines_bounded(pend_texts(pend_v(old(pending_del)@))),
        lines_bounded(pend_texts(pend_v(old(pending_add)@))),
    ensures
        rows_v(final(rows)@) == rows_v(old(rows)@) + flush_rows(
            pend_v(old(pending_del)@),
            pend_v(old(pending_add)@),
        ),
        final(pending_del)@.len() == 0,
        final(pending_add)@.len() == 0,
{
    let ghost del = pend_v(pending_del@);
    let ghost add = pend_v(pending_add@);
    if pending_del.len() == 0 && pending_add.len() == 0 {
        assert(rows_v(rows@) + Seq::<RowV>::empty() == rows_v(rows@));
        return;
    }
    let deletes = pending_texts(pending_del);
    let adds = pending_texts(pending_add);
    let (delete_spans, add_spans, pairs) = pair_inline_spans(&deletes, &adds);
    let ghost ps = pairs@;
    let ghost dt = pend_texts(del);
    let ghost at = pend_texts(add);
    proof {
        lemma_walk_pairs(score_matrix(dt, at), dt.len() as int, at.len() as int, 0, 0);
        assert(emit_rows(del, add, ps, 0, 0, 0) == flush_rows(del, add));
    }
    let ghost base = rows_v(rows@);
    let mut delete_index: usize = 0;
    let mut add_index: usize = 0;
    let mut q: usize = 0;
    while q < pairs.len()
        invariant
            0 <= q <= pairs.len(),
            ps == pairs@,
            ps == pairs_spec(dt, at),
            dt == pend_texts(del),
            at == pend_texts(add),
            del == pend_v(pending_del@),
            add == pend_v(pending_add@),
            strs(deletes@) == dt,
            strs(adds@) == at,
            delete_spans.len() == deletes.len(),
            add_spans.len() == adds.len(),
            forall|k: int|
                0 <= k < deletes.len() ==> (#[trigger] delete_spans@[k])@ == paired_delete_spans(
                    dt,
                    at,
                    k,
                ),
            forall|k: int|
                0 <= k < adds.len() ==> (#[trigger] add_spans@[k])@ == paired_add_spans(dt, at, k),
            forall|x: int|
                0 <= x < ps.len() ==> (#[trigger] ps[x]).delete_index < dt.len()
                    && ps[x].add_index < at.len(),
            forall|x: int, y: int|
                0 <= x < y < ps.len() ==> (#[trigger] ps[x]).delete_index
                    < (#[trigger] ps[y]).delete_index && ps[x].add_index < ps[y].add_index,
            q < ps.len() ==> delete_index <= ps[q as int].delete_index && add_index
                <= ps[q as int].add_index,
            delete_index <= del.len(),
            add_index <= add.len(),
            rows_v(rows@) + emit_rows(del, add, ps, q as int, delete_index as int, add_index as int)
                == base + flush_rows(del, add),
        decreases pairs.len() - q,
    {
        let pair = pairs[q];
        let ghost rest = emit_rows(del, add, ps, q + 1, pair.delete_index + 1, pair.add_index + 1);
        let ghost prow = paired_row(del, add, pair);
        while delete_index < pair.delete_index
            invariant
                delete_index <= pair.delete_index < del.len(),
                del == pend_v(pending_del@),
                rows_v(rows@) + left_rows(del, delete_index as int, pair.delete_index as int)
                    + right_rows(add, add_index as int, pair.add_index as int) + seq![prow] + rest
                    == base + flush_rows(del, add),
            decreases pair.delete_index - delete_index,
        {
            proof {
                lemma_left_rows_step(del, delete_index as int, pair.delete_index as int);
            }
            let row = left_only_cell(&pending_del[delete_index]);
            push_row(rows, row);
            delete_index = delete_index + 1;
        }
        while add_index < pair.add_index
            invariant
                add_index <= pair.add_index < add.len(),
                add == pend_v(pending_add@),
                rows_v(rows@) + right_rows(add, add_index as int, pair.add_index as int) + seq![prow]
                    + rest == base + flush_rows(del, add),
            decreases pair.add_index - add_index,
        {
            proof {
                lemma_right_rows_step(add, add_index as int, pair.add_index as int);
            }
            let row = right_only_cell(&pending_add[add_index]);
            push_row(rows, row);
            add_index = add_index + 1;
        }
        let old_cell = GitDiffCell::with_spans(
            pending_del[pair.delete_index].0,
            copy_string(&pending_del[pair.delete_index].1),
            GitDiffCellKind::Delete,
            copy_spans(&delete_spans[pair.delete_index]),
        );
        let new_cell = GitDiffCell::with_spans(
            pending_add[pair.add_index].0,
            copy_string(&pending_add[pair.add_index].1),
            GitDiffCellKind::Add,
            copy_spans(&add_spans[pair.add_index]),
        );
        let row = GitDiffRow::Split { old: old_cell, new: new_cell };
        proof {
            assert(row@ == prow);
        }
        push_row(rows, row);
        delete_index = pair.delete_index + 1;
        add_index = pair.add_index + 1;
        q = q + 1;
    }
    let ghost tail = right_rows(add, add_index as int, add.len() as int);
    while delete_index < pending_del.len()
        invariant
            delete_index <= pending_del.len(),
            del == pend_v(pending_del@),
            rows_v(rows@) + left_rows(del, delete_index as int, del.len() as int) + tail == base
                + flush_rows(del, add),
        decreases pending_del.len() - delete_index,
    {
        proof {
            lemma_left_rows_step(del, delete_index as int, del.len() as int);
        }
        let row = left_only_cell(&pending_del[delete_index]);
        push_row(rows, row);
        delete_index = delete_index + 1;
    }
    while add_index < pending_add.len()
        invariant
            add_index <= pending_add.len(),
            add == pend_v(pending_add@),
            rows_v(rows@) + right_rows(add, add_index as int, add.len() as int) == base
                + flush_rows(del, add),
        decreases pending_add.len() - add_index,
    {
        proof {
            lemma_right_rows_step(add, add_index as int, add.len() as int);
        }
        let row = right_only_cell(&pending_add[add_index]);
        push_row(rows, row);
        add_index = add_index + 1;
    }
    *pending_del = Vec::new();
    *pending_add = Vec::new();
}

/// Header lines shown as they are.
pub open spec fn is_meta_spec(l: Seq<char>) -> bool {
    ||| has_prefix(l, "diff --git "@)
    ||| has_prefix(l, "index "@)
    ||| has_prefix(l, "--- "@)
    ||| has_prefix(l, "+++ "@)
    ||| has_prefix(l, "rename "@)
    ||| has_prefix(l, "new file "@)
    ||| has_prefix(l, "deleted file "@)
    ||| has_prefix(l, "similarity index "@)
    ||| has_prefix(l, "Binary files "@)
    ||| has_prefix(l, "\\ No newline"@)
}

fn is_meta_line(line: &str) -> (r: bool)
    ensures
        r == is_meta_spec(line@),
{
    str_starts_with(line, "diff --git ") || str_starts_with(line, "index ") || str_starts_with(
        line,
        "--- ",
    ) || str_starts_with(line, "+++ ") || str_starts_with(line, "rename ") || str_starts_with(
        line,
        "new file ",
    ) || str_starts_with(line, "deleted file ") || str_starts_with(line, "similarity index ")
        || str_starts_with(line, "Binary files ") || str_starts_with(line, "\\ No newline")
}

/// The state of the side-by-side builder between lines.
pub struct SbsAcc {
    pub rows: Seq<RowV>,
    pub old_line: Option<u32>,
    pub new_line: Option<u32>,
    pub del: Seq<(Option<u32>, Seq<char>)>,
    pub add: Seq<(Option<u32>, Seq<char>)>,
}

/// The rows so far with the pending changes flushed.
pub open spec fn flushed(acc: SbsAcc) -> Seq<RowV> {
    acc.rows + flush_rows(acc.del, acc.add)
}

/// One diff line: headers, hunk headers and unknown lines flush the pending
/// changes and show as they are (a hunk header also resets the line
/// numbers); a context line flushes and shows on both sides; `-` and `+`
/// lines wait to be paired; empty lines are skipped.
pub open spec fn sbs_step(acc: SbsAcc, line: Seq<char>) -> SbsAcc {
    if is_meta_spec(line) {
        SbsAcc { rows: flushed(acc).push(RowV::Meta(line)), del: Seq::empty(), add: Seq::empty(), ..acc }
    } else if has_prefix(line, "@@"@) {
        let rows = flushed(acc).push(RowV::Meta(line));
        match hunk_header_spec(line) {
            Some((o, n)) => SbsAcc {
                rows,
                old_line: Some(o),
                new_line: Some(n),
                del: Seq::empty(),
                add: Seq::empty(),
            },
            None => SbsAcc { rows, del: Seq::empty(), add: Seq::empty(), ..acc },
        }
    } else if line.len() == 0 {
        acc
    } else if line[0] == ' ' {
        let text = expand_spec(line.drop_first());
        SbsAcc {
            rows: flushed(acc).push(
                RowV::Split {
                    old: CellV {
                        line_no: acc.old_line,
                        text,
                        kind: GitDiffCellKind::Context,
                        spans: Seq::empty(),
                    },
                    new: CellV {
                        line_no: acc.new_line,
                        text,
                        kind: GitDiffCellKind::Context,
                        spans: Seq::empty(),
                    },
                },
            ),
            old_line: bump(acc.old_line),
            new_line: bump(acc.new_line),
            del: Seq::empty(),
            add: Seq::empty(),
        }
    } else if line[0] == '-' {
        SbsAcc {
            old_line: bump(acc.old_line),
            del: acc.del.push((acc.old_line, expand_spec(line.drop_first()))),
            ..acc
        }
    } else if line[0] == '+' {
        SbsAcc {
            new_line: bump(acc.new_line),
            add: acc.add.push((acc.new_line, expand_spec(line.drop_first()))),
            ..acc
        }
    } else {
        SbsAcc { rows: flushed(acc).push(RowV::Meta(line)), del: Seq::empty(), add: Seq::empty(), ..acc }
    }
}

pub open spec fn sbs_start() -> SbsAcc {
    SbsAcc {
        rows: Seq::empty(),
        old_line: None,
        new_line: None,
        del: Seq::empty(),
        add: Seq::empty(),
    }
}

/// The builder state after the first `k` lines.
pub open spec fn sbs_fold(lines: Seq<Seq<char>>, k: int) -> SbsAcc
    decreases k,
{
    if k <= 0 {
        sbs_start()
    } else {
        sbs_step(sbs_fold(lines, k - 1), lines[k - 1])
    }
}

/// The side-by-side rows of a unified diff.
pub open spec fn sbs_spec(lines: Seq<Seq<char>>) -> Seq<RowV> {
    flushed(sbs_fold(lines, lines.len() as int))
}

fn text_after_marker(line: &str) -> (r: String)
    requires
        line@.len() > 0,
    ensures
        r@ == expand_spec(line@.drop_first()),
{
    let v = chars_of(line);
    let r = expand_tab_chars(&v, 1);
    assert(v@.skip(1) == line@.drop_first());
    r
}

proof fn lemma_pending_bounded(p: Seq<(Option<u32>, Seq<char>)>, x: (Option<u32>, Seq<char>))
    requires
        lines_bounded(pend_texts(p)),
        width_bounded(x.1),
    ensures
        lines_bounded(pend_texts(p.push(x))),
{
    assert(pend_texts(p.push(x)) == pend_texts(p).push(x.1));
}

pub fn build_side_by_side_rows(lines: &[String]) -> (rows: Vec<GitDiffRow>)
    requires
        all_tab_bounded(strs(lines@)),
    ensures
        rows_v(rows@) == sbs_spec(strs(lines@)),
{
    let ghost ls = strs(lines@);
    let mut rows: Vec<GitDiffRow> = Vec::new();
    let mut old_line: Option<u32> = None;
    let mut new_line: Option<u32> = None;
    let mut pending_del: Vec<(Option<u32>, String)> = Vec::new();
    let mut pending_add: Vec<(Option<u32>, String)> = Vec::new();
    let mut i: usize = 0;
    proof {
        assert(rows_v(rows@) == Seq::<RowV>::empty());
        assert(pend_v(pending_del@) == Seq::<(Option<u32>, Seq<char>)>::empty());
        assert(pend_v(pending_add@) == Seq::<(Option<u32>, Seq<char>)>::empty());
        assert(lines_bounded(pend_texts(pend_v(pending_del@))));
        assert(lines_bounded(pend_texts(pend_v(pending_add@))));
    }
    while i < lines.len()
        invariant
            0 <= i <= lines.len(),
            ls == strs(lines@),
            all_tab_bounded(ls),
            sbs_fold(ls, i as int) == (SbsAcc {
                rows: rows_v(rows@),
                old_line,
                new_line,
                del: pend_v(pending_del@),
                add: pend_v(pending_add@),
            }),
            lines_bounded(pend_texts(pend_v(pending_del@))),
            lines_bounded(pend_texts(pend_v(pending_add@))),
        decreases lines.len() - i,
    {
        let line = &lines[i];
        let ghost l = line@;
        let ghost acc0 = sbs_fold(ls, i as int);
        proof {
            assert(ls[i as int] == l);
            assert(tab_bounded(l));
            assert(sbs_fold(ls, i + 1) == sbs_step(acc0, l));
        }
        if is_meta_line(line.as_str()) {
            flush_changes(&mut rows, &mut pending_del, &mut pending_add);
            push_row(&mut rows, GitDiffRow::Meta(copy_string(line)));
        } else if str_starts_with(line.as_str(), "@@") {
            flush_changes(&mut rows, &mut pending_del, &mut pending_add);
            push_row(&mut rows, GitDiffRow::Meta(copy_string(line)));
            match parse_hunk_header(line.as_str()) {
                Some((o, n)) => {
                    old_line = Some(o);
                    new_line = Some(n);
                },
                None => {},
            }
        } else if line.as_str().is_empty() {
        } else {
            let v = chars_of(line.as_str());
            let first = v[0];
            if first == ' ' {
                flush_changes(&mut rows, &mut pending_del, &mut pending_add);
                let text = text_after_marker(line.as_str());
                let text2 = copy_string(&text);
                push_row(
                    &mut rows,
                    GitDiffRow::Split {
                        old: GitDiffCell::new(old_line, text, GitDiffCellKind::Context),
                        new: GitDiffCell::new(new_line, text2, GitDiffCellKind::Context),
                    },
                );
                old_line = bump_exec(old_line);
                new_line = bump_exec(new_line);
            } else if first == '-' {
                let line_no = old_line;
                old_line = bump_exec(old_line);
                let text = text_after_marker(line.as_str());
                proof {
                    lemma_expand_len(l.drop_first());
                    lemma_pending_bounded(pend_v(pending_del@), (line_no, text@));
                }
                let ghost before = pending_del@;
                pending_del.push((line_no, text));
                assert(pend_v(pending_del@) == pend_v(before).push((line_no, text@)));
            } else if first == '+' {
                let line_no = new_line;
                new_line = bump_exec(new_line);
                let text = text_after_marker(line.as_str());
                proof {
                    lemma_expand_len(l.drop_first());
                    lemma_pending_bounded(pend_v(pending_add@), (line_no, text@));
                }
                let ghost before = pending_add@;
                pending_add.push((line_no, text));
                assert(pend_v(pending_add@) == pend_v(before).push((line_no, text@)));
            } else {
                flush_changes(&mut rows, &mut pending_del, &mut pending_add);
                push_row(&mut rows, GitDiffRow::Meta(copy_string(line)));
            }
        }
        proof {
            assert(lines_bounded(pend_texts(pend_v(pending_del@))));
            assert(lines_bounded(pend_texts(pend_v(pending_add@))));
            if pending_del@.len() == 0 {
                assert(pend_v(pending_del@) == Seq::<(Option<u32>, Seq<char>)>::empty());
            }
            if pending_add@.len() == 0 {
                assert(pend_v(pending_add@) == Seq::<(Option<u32>, Seq<char>)>::empty());
            }
        }
        i = i + 1;
    }
    flush_changes(&mut rows, &mut pending_del, &mut pending_add);
    rows
}


// ---------------------------------------------------------------------------
// Laws
// ---------------------------------------------------------------------------

/// The lines a column of rows shows, top to bottom: the old side's cells
/// (`old`) or the new side's, leaving out headers and empty cells.
pub open spec fn column(rows: Seq<RowV>, old: bool) -> Seq<(Option<u32>, Seq<char>)>
    decreases rows.len(),
{
    if rows.len() == 0 {
        Seq::empty()
    } else {
        let here: Seq<(Option<u32>, Seq<char>)> = match rows[0] {
            RowV::Meta(_) => Seq::empty(),
            RowV::Split { old: o, new: n } => {
                let c = if old {
                    o
                } else {
                    n
                };
                if c.kind == GitDiffCellKind::Empty {
                    Seq::empty()
                } else {
                    seq![(c.line_no, c.text)]
                }
            },
        };
        here + column(rows.drop_first(), old)
    }
}

proof fn lemma_column_append(a: Seq<RowV>, b: Seq<RowV>, old: bool)
    ensures
        column(a + b, old) == column(a, old) + column(b, old),
    decreases a.len(),
{
    if a.len() > 0 {
        lemma_column_append(a.drop_first(), b, old);
        assert((a + b).drop_first() == a.drop_first() + b);
        assert((a + b)[0] == a[0]);
    } else {
        assert(a + b == b);
    }
}

proof fn lemma_column_left(del: Seq<(Option<u32>, Seq<char>)>, lo: int, hi: int)
    requires
        0 <= lo <= hi <= del.len(),
    ensures
        column(left_rows(del, lo, hi), true) == del.subrange(lo, hi),
        column(left_rows(del, lo, hi), false) == Seq::<(Option<u32>, Seq<char>)>::empty(),
    decreases hi - lo,
{
    if lo < hi {
        lemma_column_left(del, lo + 1, hi);
        let r = left_rows(del, lo, hi);
        assert(r.drop_first() == left_rows(del, lo + 1, hi));
        assert(del.subrange(lo, hi) == seq![del[lo]] + del.subrange(lo + 1, hi));
    } else {
        assert(del.subrange(lo, hi).len() == 0);
    }
}

proof fn lemma_column_right(add: Seq<(Option<u32>, Seq<char>)>, lo: int, hi: int)
    requires
        0 <= lo <= hi <= add.len(),
    ensures
        column(right_rows(add, lo, hi), false) == add.subrange(lo, hi),
        column(right_rows(add, lo, hi), true) == Seq::<(Option<u32>, Seq<char>)>::empty(),
    decreases hi - lo,
{
    if lo < hi {
        lemma_column_right(add, lo + 1, hi);
        let r = right_rows(add, lo, hi);
        assert(r.drop_first() == right_rows(add, lo + 1, hi));
        assert(add.subrange(lo, hi) == seq![add[lo]] + add.subrange(lo + 1, hi));
    } else {
        assert(add.subrange(lo, hi).len() == 0);
    }
}

proof fn lemma_column_emit(
    del: Seq<(Option<u32>, Seq<char>)>,
    add: Seq<(Option<u32>, Seq<char>)>,
    ps: Seq<LinePair>,
    q: int,
    di: int,
    ai: int,
)
    requires
        0 <= q <= ps.len(),
        0 <= di <= del.len(),
        0 <= ai <= add.len(),
        forall|x: int| q <= x < ps.len() ==> di <= (#[trigger] ps[x]).delete_index < del.len() && ai
            <= ps[x].add_index < add.len(),
        forall|x: int, y: int|
            q <= x < y < ps.len() ==> (#[trigger] ps[x]).delete_index < (#[trigger] ps[y]).delete_index
                && ps[x].add_index < ps[y].add_index,
    ensures
        column(emit_rows(del, add, ps, q, di, ai), true) == del.subrange(di, del.len() as int),
        column(emit_rows(del, add, ps, q, di, ai), false) == add.subrange(ai, add.len() as int),
    decreases ps.len() - q,
{
    if q >= ps.len() {
        lemma_column_left(del, di, del.len() as int);
        lemma_column_right(add, ai, add.len() as int);
        lemma_column_append(
            left_rows(del, di, del.len() as int),
            right_rows(add, ai, add.len() as int),
            true,
        );
        lemma_column_append(
            left_rows(del, di, del.len() as int),
            right_rows(add, ai, add.len() as int),
            false,
        );
    } else {
        let p = ps[q];
        let pd = p.delete_index as int;
        let pa = p.add_index as int;
        lemma_column_emit(del, add, ps, q + 1, pd + 1, pa + 1);
        let l = left_rows(del, di, pd);
        let r = right_rows(add, ai, pa);
        let m = seq![paired_row(del, add, p)];
        let rest = emit_rows(del, add, ps, q + 1, pd + 1, pa + 1);
        lemma_column_left(del, di, pd);
        lemma_column_right(add, ai, pa);
        lemma_column_append(l, r, true);
        lemma_column_append(l, r, false);
        lemma_column_append(l + r, m, true);
        lemma_column_append(l + r, m, false);
        lemma_column_append(l + r + m, rest, true);
        lemma_column_append(l + r + m, rest, false);
        assert(column(m, true) == seq![del[pd]]) by {
            assert(m.drop_first().len() == 0);
            assert(column(m.drop_first(), true).len() == 0);
            assert(m[0] == paired_row(del, add, p));
            assert((del[pd].0, del[pd].1) == del[pd]);
        }
        assert(column(m, false) == seq![add[pa]]) by {
            assert(m.drop_first().len() == 0);
            assert(column(m.drop_first(), false).len() == 0);
            assert(m[0] == paired_row(del, add, p));
            assert((add[pa].0, add[pa].1) == add[pa]);
        }
        assert(del.subrange(di, pd) + seq![del[pd]] + del.subrange(pd + 1, del.len() as int)
            == del.subrange(di, del.len() as int));
        assert(add.subrange(ai, pa) + seq![add[pa]] + add.subrange(pa + 1, add.len() as int)
            == add.subrange(ai, add.len() as int));
    }
}

/// Shown side by side, a run of deleted and added lines keeps every line:
/// the old column lists the deleted lines and the new column the added
/// ones, each in order and with its line number, whichever lines are
/// paired.
pub proof fn law_pairing_keeps_every_line(
    del: Seq<(Option<u32>, Seq<char>)>,
    add: Seq<(Option<u32>, Seq<char>)>,
)
    requires
        del.len() <= usize::MAX,
        add.len() <= usize::MAX,
    ensures
        column(flush_rows(del, add), true) == del,
        column(flush_rows(del, add), false) == add,
{
    if del.len() == 0 && add.len() == 0 {
        assert(del == Seq::<(Option<u32>, Seq<char>)>::empty());
        assert(add == Seq::<(Option<u32>, Seq<char>)>::empty());
    } else {
        let sc = score_matrix(pend_texts(del), pend_texts(add));
        lemma_walk_pairs(sc, del.len() as int, add.len() as int, 0, 0);
        lemma_column_emit(del, add, pairs_spec(pend_texts(del), pend_texts(add)), 0, 0, 0);
        assert(del.subrange(0, del.len() as int) == del);
        assert(add.subrange(0, add.len() as int) == add);
    }
}


/// The texts of column entries.
pub open spec fn texts_of(c: Seq<(Option<u32>, Seq<char>)>) -> Seq<Seq<char>> {
    c.map_values(|x: (Option<u32>, Seq<char>)| x.1)
}

/// The texts a side of a diff's first `k` lines shows: context lines on
/// both sides, deleted lines on the old side (`old`), added lines on the
/// new side, each without its marker and with tabs expanded.
pub open spec fn side_texts(lines: Seq<Seq<char>>, k: int, old: bool) -> Seq<Seq<char>>
    decreases k,
{
    if k <= 0 {
        Seq::empty()
    } else {
        let prev = side_texts(lines, k - 1, old);
        let line = lines[k - 1];
        if is_meta_spec(line) || has_prefix(line, "@@"@) || line.len() == 0 {
            prev
        } else if line[0] == ' ' || (old && line[0] == '-') || (!old && line[0] == '+') {
            prev.push(expand_spec(line.drop_first()))
        } else {
            prev
        }
    }
}

proof fn lemma_texts_append(a: Seq<(Option<u32>, Seq<char>)>, b: Seq<(Option<u32>, Seq<char>)>)
    ensures
        texts_of(a + b) == texts_of(a) + texts_of(b),
{
    assert(texts_of(a + b) =~= texts_of(a) + texts_of(b));
}

proof fn lemma_column_one(r: RowV, old: bool)
    ensures
        column(seq![r], old) == match r {
            RowV::Meta(_) => Seq::<(Option<u32>, Seq<char>)>::empty(),
            RowV::Split { old: o, new: n } => {
                let c = if old {
                    o
                } else {
                    n
                };
                if c.kind == GitDiffCellKind::Empty {
                    Seq::empty()
                } else {
                    seq![(c.line_no, c.text)]
                }
            },
        },
{
    assert(seq![r].drop_first().len() == 0);
    assert(column(seq![r].drop_first(), old).len() == 0);
}

proof fn lemma_fold_columns(lines: Seq<Seq<char>>, k: int, old: bool)
    requires
        0 <= k <= lines.len() <= usize::MAX,
    ensures
        sbs_fold(lines, k).del.len() <= k,
        sbs_fold(lines, k).add.len() <= k,
        texts_of(column(flushed(sbs_fold(lines, k)), old)) == side_texts(lines, k, old),
    decreases k,
{
    if k == 0 {
        assert(flushed(sbs_start()) == Seq::<RowV>::empty());
        assert(column(Seq::<RowV>::empty(), old).len() == 0);
        assert(texts_of(Seq::<(Option<u32>, Seq<char>)>::empty()).len() == 0);
    } else {
        lemma_fold_columns(lines, k - 1, old);
        let acc = sbs_fold(lines, k - 1);
        let line = lines[k - 1];
        let next = sbs_fold(lines, k);
        assert(next == sbs_step(acc, line));
        law_pairing_keeps_every_line(acc.del, acc.add);
        lemma_column_append(acc.rows, flush_rows(acc.del, acc.add), old);
        let f = flushed(acc);
        if is_meta_spec(line) || has_prefix(line, "@@"@) || (line.len() > 0 && line[0] != ' '
            && line[0] != '-' && line[0] != '+') {
            assert(next.del.len() == 0 && next.add.len() == 0);
            assert(flush_rows(next.del, next.add) == Seq::<RowV>::empty());
            assert(flushed(next) == f.push(RowV::Meta(line)));
            lemma_column_append(f, seq![RowV::Meta(line)], old);
            lemma_column_one(RowV::Meta(line), old);
            assert(f.push(RowV::Meta(line)) == f + seq![RowV::Meta(line)]);
            assert(column(flushed(next), old) == column(f, old) + Seq::<(Option<u32>, Seq<char>)>::empty());
            assert(column(f, old) + Seq::<(Option<u32>, Seq<char>)>::empty() == column(f, old));
        } else if line.len() == 0 {
        } else if line[0] == ' ' {
            let text = expand_spec(line.drop_first());
            let row = RowV::Split {
                old: CellV {
                    line_no: acc.old_line,
                    text,
                    kind: GitDiffCellKind::Context,
                    spans: Seq::empty(),
                },
                new: CellV {
                    line_no: acc.new_line,
                    text,
                    kind: GitDiffCellKind::Context,
                    spans: Seq::empty(),
                },
            };
            assert(next.del.len() == 0 && next.add.len() == 0);
            assert(flush_rows(next.del, next.add) == Seq::<RowV>::empty());
            assert(flushed(next) == f + seq![row]);
            lemma_column_append(f, seq![row], old);
            lemma_column_one(row, old);
            let cell = if old {
                (acc.old_line, text)
            } else {
                (acc.new_line, text)
            };
            lemma_texts_append(column(f, old), seq![cell]);
            assert(texts_of(seq![cell]) == seq![text]);
        } else if line[0] == '-' {
            let x = (acc.old_line, expand_spec(line.drop_first()));
            assert(next.del == acc.del.push(x));
            assert(next.rows == acc.rows && next.add == acc.add);
            law_pairing_keeps_every_line(next.del, next.add);
            lemma_column_append(next.rows, flush_rows(next.del, next.add), old);
            if old {
                lemma_texts_append(column(acc.rows, old), acc.del);
                lemma_texts_append(column(acc.rows, old), acc.del.push(x));
                assert(texts_of(acc.del.push(x)) == texts_of(acc.del).push(x.1));
            }
        } else {
            let x = (acc.new_line, expand_spec(line.drop_first()));
            assert(next.add == acc.add.push(x));
            assert(next.rows == acc.rows && next.del == acc.del);
            law_pairing_keeps_every_line(next.del, next.add);
            lemma_column_append(next.rows, flush_rows(next.del, next.add), old);
            if !old {
                lemma_texts_append(column(acc.rows, old), acc.add);
                lemma_texts_append(column(acc.rows, old), acc.add.push(x));
                assert(texts_of(acc.add.push(x)) == texts_of(acc.add).push(x.1));
            }
        }
    }
}

/// The side-by-side view of a diff shows every line of each version, in
/// order: the old column holds its context and deleted lines, the new
/// column its context and added lines (without markers, tabs expanded);
/// headers are shown across and empty lines skipped.
pub proof fn law_columns_hold_each_version(lines: Seq<Seq<char>>)
    requires
        lines.len() <= usize::MAX,
    ensures
        texts_of(column(sbs_spec(lines), true)) == side_texts(lines, lines.len() as int, true),
        texts_of(column(sbs_spec(lines), false)) == side_texts(lines, lines.len() as int, false),
{
    lemma_fold_columns(lines, lines.len() as int, true);
    lemma_fold_columns(lines, lines.len() as int, false);
}

// ---------------------------------------------------------------------------
// Line numbers of the rows
// ---------------------------------------------------------------------------

/// The numbers the new side of `rows` shows, in order: those of its context
/// and added cells.
pub open spec fn new_numbers(rows: Seq<RowV>) -> Seq<Option<u32>>
    decreases rows.len(),
{
    if rows.len() == 0 {
        Seq::empty()
    } else {
        new_numbers(rows.drop_last()) + match rows.last() {
            RowV::Split { old: _, new } => if new.kind == GitDiffCellKind::Context || new.kind
                == GitDiffCellKind::Add {
                seq![new.line_no]
            } else {
                Seq::empty()
            },
            RowV::Meta(_) => Seq::empty(),
        }
    }
}

/// The numbers the old side of `rows` shows, in order: those of its context
/// and deleted cells.
pub open spec fn old_numbers(rows: Seq<RowV>) -> Seq<Option<u32>>
    decreases rows.len(),
{
    if rows.len() == 0 {
        Seq::empty()
    } else {
        old_numbers(rows.drop_last()) + match rows.last() {
            RowV::Split { old, new: _ } => if old.kind == GitDiffCellKind::Context || old.kind
                == GitDiffCellKind::Delete {
                seq![old.line_no]
            } else {
                Seq::empty()
            },
            RowV::Meta(_) => Seq::empty(),
        }
    }
}

proof fn lemma_numbers_concat(x: Seq<RowV>, y: Seq<RowV>)
    ensures
        new_numbers(x + y) == new_numbers(x) + new_numbers(y),
        old_numbers(x + y) == old_numbers(x) + old_numbers(y),
    decreases y.len(),
{
    if y.len() == 0 {
        assert(x + y == x);
    } else {
        lemma_numbers_concat(x, y.drop_last());
        assert((x + y).drop_last() == x + y.drop_last());
        assert((x + y).last() == y.last());
    }
}

proof fn lemma_numbers_one(r: RowV)
    ensures
        new_numbers(seq![r]) == new_numbers(Seq::<RowV>::empty()) + match r {
            RowV::Split { old: _, new } => if new.kind == GitDiffCellKind::Context || new.kind
                == GitDiffCellKind::Add {
                seq![new.line_no]
            } else {
                Seq::<Option<u32>>::empty()
            },
            RowV::Meta(_) => Seq::<Option<u32>>::empty(),
        },
        old_numbers(seq![r]) == old_numbers(Seq::<RowV>::empty()) + match r {
            RowV::Split { old, new: _ } => if old.kind == GitDiffCellKind::Context || old.kind
                == GitDiffCellKind::Delete {
                seq![old.line_no]
            } else {
                Seq::<Option<u32>>::empty()
            },
            RowV::Meta(_) => Seq::<Option<u32>>::empty(),
        },
{
    assert(seq![r].drop_last() == Seq::<RowV>::empty());
}

/// The numbers of pending changed lines.
pub open spec fn pend_numbers(p: Seq<(Option<u32>, Seq<char>)>) -> Seq<Option<u32>> {
    p.map_values(|x: (Option<u32>, Seq<char>)| x.0)
}

proof fn lemma_left_rows_numbers(del: Seq<(Option<u32>, Seq<char>)>, lo: int, hi: int)
    requires
        0 <= lo <= hi <= del.len(),
    ensures
        new_numbers(left_rows(del, lo, hi)) == Seq::<Option<u32>>::empty(),
        old_numbers(left_rows(del, lo, hi)) == pend_numbers(del).subrange(lo, hi),
    decreases hi - lo,
{
    if lo < hi {
        lemma_left_rows_numbers(del, lo + 1, hi);
        lemma_numbers_concat(seq![left_row(del[lo])], left_rows(del, lo + 1, hi));
        lemma_numbers_one(left_row(del[lo]));
        assert(pend_numbers(del).subrange(lo, hi) == seq![del[lo].0] + pend_numbers(del).subrange(lo + 1, hi));
    } else {
        assert(pend_numbers(del).subrange(lo, hi) == Seq::<Option<u32>>::empty());
    }
}

proof fn lemma_right_rows_numbers(add: Seq<(Option<u32>, Seq<char>)>, lo: int, hi: int)
    requires
        0 <= lo <= hi <= add.len(),
    ensures
        old_numbers(right_rows(add, lo, hi)) == Seq::<Option<u32>>::empty(),
        new_numbers(right_rows(add, lo, hi)) == pend_numbers(add).subrange(lo, hi),
    decreases hi - lo,
{
    if lo < hi {
        lemma_right_rows_numbers(add, lo + 1, hi);
        lemma_numbers_concat(seq![right_row(add[lo])], right_rows(add, lo + 1, hi));
        lemma_numbers_one(right_row(add[lo]));
        assert(pend_numbers(add).subrange(lo, hi) == seq![add[lo].0] + pend_numbers(add).subrange(lo + 1, hi));
    } else {
        assert(pend_numbers(add).subrange(lo, hi) == Seq::<Option<u32>>::empty());
    }
}

proof fn lemma_emit_numbers(
    del: Seq<(Option<u32>, Seq<char>)>,
    add: Seq<(Option<u32>, Seq<char>)>,
    ps: Seq<LinePair>,
    q: int,
    di: int,
    ai: int,
)
    requires
        0 <= q <= ps.len(),
        0 <= di <= del.len(),
        0 <= ai <= add.len(),
        forall|x: int| 0 <= x < ps.len() ==> (#[trigger] ps[x]).delete_index < del.len() && ps[x].add_index < add.len(),
        forall|x: int, y: int|
            0 <= x < y < ps.len() ==> (#[trigger] ps[x]).delete_index < (#[trigger] ps[y]).delete_index
                && ps[x].add_index < ps[y].add_index,
        q < ps.len() ==> di <= ps[q].delete_index && ai <= ps[q].add_index,
    ensures
        new_numbers(emit_rows(del, add, ps, q, di, ai)) == pend_numbers(add).subrange(ai, add.len() as int),
        old_numbers(emit_rows(del, add, ps, q, di, ai)) == pend_numbers(del).subrange(di, del.len() as int),
    decreases ps.len() - q,
{
    if q >= ps.len() {
        lemma_left_rows_numbers(del, di, del.len() as int);
        lemma_right_rows_numbers(add, ai, add.len() as int);
        lemma_numbers_concat(left_rows(del, di, del.len() as int), right_rows(add, ai, add.len() as int));
    } else {
        let p = ps[q];
        let d = p.delete_index as int;
        let a = p.add_index as int;
        let lr = left_rows(del, di, d);
        let rr = right_rows(add, ai, a);
        let pr = paired_row(del, add, p);
        let rest = emit_rows(del, add, ps, q + 1, d + 1, a + 1);
        if q + 1 < ps.len() {
            assert(ps[q].delete_index < ps[q + 1].delete_index);
        }
        lemma_emit_numbers(del, add, ps, q + 1, d + 1, a + 1);
        lemma_left_rows_numbers(del, di, d);
        lemma_right_rows_numbers(add, ai, a);
        lemma_numbers_one(pr);
        lemma_numbers_concat(lr, rr);
        lemma_numbers_concat(lr + rr, seq![pr]);
        lemma_numbers_concat(lr + rr + seq![pr], rest);
        assert(pend_numbers(add).subrange(ai, add.len() as int) == pend_numbers(add).subrange(ai, a) + seq![
            add[a].0,
        ] + pend_numbers(add).subrange(a + 1, add.len() as int));
        assert(pend_numbers(del).subrange(di, del.len() as int) == pend_numbers(del).subrange(di, d) + seq![
            del[d].0,
        ] + pend_numbers(del).subrange(d + 1, del.len() as int));
    }
}

proof fn lemma_flush_numbers(del: Seq<(Option<u32>, Seq<char>)>, add: Seq<(Option<u32>, Seq<char>)>)
    requires
        del.len() <= usize::MAX,
        add.len() <= usize::MAX,
    ensures
        new_numbers(flush_rows(del, add)) == pend_numbers(add),
        old_numbers(flush_rows(del, add)) == pend_numbers(del),
{
    if del.len() == 0 && add.len() == 0 {
        assert(pend_numbers(add) == Seq::<Option<u32>>::empty());
        assert(pend_numbers(del) == Seq::<Option<u32>>::empty());
    } else {
        let dt = pend_texts(del);
        let at = pend_texts(add);
        lemma_walk_pairs(score_matrix(dt, at), dt.len() as int, at.len() as int, 0, 0);
        lemma_emit_numbers(del, add, pairs_spec(dt, at), 0, 0, 0);
        assert(pend_numbers(add).subrange(0, add.len() as int) == pend_numbers(add));
        assert(pend_numbers(del).subrange(0, del.len() as int) == pend_numbers(del));
    }
}

/// A hunk line shown on the new side: context or added.
pub open spec fn on_new_side(l: Seq<char>) -> bool {
    l[0] == ' ' || l[0] == '+'
}

/// A hunk line shown on the old side: context or deleted.
pub open spec fn on_old_side(l: Seq<char>) -> bool {
    l[0] == ' ' || l[0] == '-'
}

pub open spec fn count_new_side(b: Seq<Seq<char>>) -> nat
    decreases b.len(),
{
    if b.len() == 0 {
        0
    } else {
        count_new_side(b.drop_last()) + if on_new_side(b.last()) {
            1nat
        } else {
            0nat
        }
    }
}

pub open spec fn count_old_side(b: Seq<Seq<char>>) -> nat
    decreases b.len(),
{
    if b.len() == 0 {
        0
    } else {
        count_old_side(b.drop_last()) + if on_old_side(b.last()) {
            1nat
        } else {
            0nat
        }
    }
}

pub proof fn lemma_side_counts_le(b: Seq<Seq<char>>)
    ensures
        count_new_side(b) <= b.len(),
        count_old_side(b) <= b.len(),
    decreases b.len(),
{
    if b.len() > 0 {
        lemma_side_counts_le(b.drop_last());
    }
}

/// The lines numbered from `start` on, `c` of them.
pub open spec fn numbered(start: u32, c: nat) -> Seq<Option<u32>> {
    Seq::new(c, |k: int| Some((start + k) as u32))
}

/// Lines of a hunk body: context, deleted or added lines, none of them a
/// header.
pub open spec fn hunk_body(b: Seq<Seq<char>>) -> bool {
    forall|i: int|
        0 <= i < b.len() ==> (#[trigger] b[i]).len() > 0 && (b[i][0] == ' ' || b[i][0] == '+' || b[i][0]
            == '-') && !is_meta_spec(b[i]) && !has_prefix(b[i], "@@"@)
}

proof fn lemma_sbs_numbers_fold(hh: Seq<char>, b: Seq<Seq<char>>, j: int)
    requires
        has_prefix(hh, "@@"@),
        !is_meta_spec(hh),
        hunk_header_spec(hh) is Some,
        hunk_body(b),
        hunk_header_spec(hh).unwrap().0 + b.len() <= u32::MAX,
        hunk_header_spec(hh).unwrap().1 + b.len() <= u32::MAX,
        0 <= j <= b.len(),
    ensures
        ({
            let acc = sbs_fold(seq![hh] + b, 1 + j);
            let o = hunk_header_spec(hh).unwrap().0;
            let n = hunk_header_spec(hh).unwrap().1;
            &&& acc.new_line == Some((n + count_new_side(b.take(j))) as u32)
            &&& acc.old_line == Some((o + count_old_side(b.take(j))) as u32)
            &&& new_numbers(acc.rows) + pend_numbers(acc.add) == numbered(n, count_new_side(b.take(j)))
            &&& old_numbers(acc.rows) + pend_numbers(acc.del) == numbered(o, count_old_side(b.take(j)))
            &&& acc.add.len() <= j
            &&& acc.del.len() <= j
        }),
    decreases j,
{
    let ls = seq![hh] + b;
    let o = hunk_header_spec(hh).unwrap().0;
    let n = hunk_header_spec(hh).unwrap().1;
    if j == 0 {
        assert(ls[0] == hh);
        assert(sbs_fold(ls, 1) == sbs_step(sbs_fold(ls, 0), hh));
        assert(flush_rows(Seq::empty(), Seq::empty()) == Seq::<RowV>::empty());
        let acc = sbs_fold(ls, 1);
        assert(acc.rows == seq![RowV::Meta(hh)]);
        lemma_numbers_one(RowV::Meta(hh));
        assert(b.take(0) == Seq::<Seq<char>>::empty());
        assert(pend_numbers(acc.add) == Seq::<Option<u32>>::empty());
        assert(pend_numbers(acc.del) == Seq::<Option<u32>>::empty());
        assert(numbered(n, 0) == Seq::<Option<u32>>::empty());
        assert(numbered(o, 0) == Seq::<Option<u32>>::empty());
    } else {
        lemma_sbs_numbers_fold(hh, b, j - 1);
        let l = b[j - 1];
        assert(ls[1 + j - 1] == l);
        let acc0 = sbs_fold(ls, j);
        assert(sbs_fold(ls, 1 + j) == sbs_step(acc0, l));
        let acc = sbs_fold(ls, 1 + j);
        assert(b.take(j).drop_last() == b.take(j - 1));
        assert(b.take(j).last() == l);
        lemma_side_counts_le(b.take(j - 1));
        let cn = count_new_side(b.take(j - 1));
        let co = count_old_side(b.take(j - 1));
        if l[0] == ' ' {
            lemma_flush_numbers(acc0.del, acc0.add);
            lemma_numbers_concat(acc0.rows, flush_rows(acc0.del, acc0.add));
            let f = flushed(acc0);
            let cell_row = acc.rows.last();
            assert(acc.rows == f.push(cell_row));
            lemma_numbers_concat(f, seq![cell_row]);
            assert(f + seq![cell_row] == f.push(cell_row));
            lemma_numbers_one(cell_row);
            assert(pend_numbers(acc.add) == Seq::<Option<u32>>::empty());
            assert(pend_numbers(acc.del) == Seq::<Option<u32>>::empty());
            assert(numbered(n, cn + 1) == numbered(n, cn).push(Some((n + cn) as u32)));
            assert(numbered(o, co + 1) == numbered(o, co).push(Some((o + co) as u32)));
        } else if l[0] == '-' {
            assert(pend_numbers(acc.del) == pend_numbers(acc0.del).push(acc0.old_line));
            assert(numbered(o, co + 1) == numbered(o, co).push(Some((o + co) as u32)));
        } else {
            assert(pend_numbers(acc.add) == pend_numbers(acc0.add).push(acc0.new_line));
            assert(numbered(n, cn + 1) == numbered(n, cn).push(Some((n + cn) as u32)));
        }
    }
}

/// Within a hunk, each side's line numbers run on from the hunk header: the
/// k-th line shown on the new side (context or added) is numbered
/// `new_start + k`, and the k-th line shown on the old side (context or
/// deleted) `old_start + k`.
pub proof fn law_side_by_side_numbers(hh: Seq<char>, b: Seq<Seq<char>>)
    requires
        has_prefix(hh, "@@"@),
        !is_meta_spec(hh),
        hunk_header_spec(hh) is Some,
        hunk_body(b),
        hunk_header_spec(hh).unwrap().0 + b.len() <= u32::MAX,
        hunk_header_spec(hh).unwrap().1 + b.len() <= u32::MAX,
    ensures
        new_numbers(sbs_spec(seq![hh] + b)) == numbered(hunk_header_spec(hh).unwrap().1, count_new_side(b)),
        old_numbers(sbs_spec(seq![hh] + b)) == numbered(hunk_header_spec(hh).unwrap().0, count_old_side(b)),
{
    let ls = seq![hh] + b;
    lemma_sbs_numbers_fold(hh, b, b.len() as int);
    assert(b.take(b.len() as int) == b);
    assert(ls.len() == 1 + b.len());
    let acc = sbs_fold(ls, ls.len() as int);
    lemma_flush_numbers(acc.del, acc.add);
    lemma_numbers_concat(acc.rows, flush_rows(acc.del, acc.add));
}

} // verus!
