//! Unified rows: one row per diff line, with changed spans on paired lines.
use vstd::prelude::*;
use crate::diff::inline::{lines_bounded, pair_inline_spans, paired_add_spans, paired_delete_spans};
use crate::diff::model::{urows_v, InlineSpan, UnifiedDiffRow, UnifiedRowKind, URowV};
use crate::diff::side_by_side::{all_tab_bounded, lemma_expand_len, tab_bounded};
use crate::diff::width::{expand_spec, expand_tab_chars, width_bounded};
use crate::text::{chars_of, find_str_from, has_prefix, find_sub, starts_with, str_starts_with, strs};

verus! {

broadcast use vstd::string::group_string_axioms;

pub open spec fn meta_row(kind: UnifiedRowKind, text: Seq<char>) -> URowV {
    URowV { kind, text, marker: None, code: Seq::empty(), file_path: None, spans: Seq::empty() }
}

pub open spec fn code_row(kind: UnifiedRowKind, marker: char, code: Seq<char>, spans: Seq<InlineSpan>) -> URowV {
    URowV { kind, text: seq![marker] + code, marker: Some(marker), code, file_path: None, spans }
}

/// The path in a `diff --git a/<path> b/<path>` line: what follows `a/` up to
/// the first ` b/`.
pub open spec fn git_path_spec(l: Seq<char>) -> Option<Seq<char>> {
    if has_prefix(l, "diff --git a/"@) {
        let r = l.skip("diff --git a/"@.len() as int);
        let k = find_sub(r, " b/"@);
        Some(
            if k < 0 {
                r
            } else {
                r.take(k)
            },
        )
    } else {
        None
    }
}

pub fn diff_git_path(line: &str) -> (r: Option<&str>)
    ensures
        match r {
            Some(p) => git_path_spec(line@) == Some(p@),
            None => git_path_spec(line@) is None,
        },
{
    let v = chars_of(line);
    let pre = chars_of("diff --git a/");
    if !starts_with(&v, "diff --git a/") {
        return None;
    }
    let sep = chars_of(" b/");
    proof {
        reveal_strlit(" b/");
    }
    let k = find_str_from(&v, pre.len(), &sep);
    proof {
        assert(v@.skip(pre@.len() as int).take(k - pre@.len()) == v@.subrange(pre@.len() as int, k as int));
        assert(v@.skip(pre@.len() as int) == v@.subrange(pre@.len() as int, v@.len() as int));
    }
    Some(line.substring_char(pre.len(), k))
}

/// Header lines other than the `diff --git` line.
pub open spec fn is_metadata_spec(l: Seq<char>) -> bool {
    ||| has_prefix(l, "index "@)
    ||| has_prefix(l, "--- "@)
    ||| has_prefix(l, "+++ "@)
    ||| has_prefix(l, "rename "@)
    ||| has_prefix(l, "new file "@)
    ||| has_prefix(l, "deleted file "@)
    ||| has_prefix(l, "similarity index "@)
    ||| has_prefix(l, "Binary files "@)
}

fn is_metadata_line(line: &str) -> (r: bool)
    ensures
        r == is_metadata_spec(line@),
{
    str_starts_with(line, "index ") || str_starts_with(line, "--- ") || str_starts_with(line, "+++ ")
        || str_starts_with(line, "rename ") || str_starts_with(line, "new file ") || str_starts_with(
        line,
        "deleted file ",
    ) || str_starts_with(line, "similarity index ") || str_starts_with(line, "Binary files ")
}

/// Rows for a run of deleted and added lines: all deletes, then all adds,
/// each with the changed spans against its paired line.
pub open spec fn uflush(del: Seq<Seq<char>>, add: Seq<Seq<char>>) -> Seq<URowV> {
    Seq::new(
        del.len(),
        |k: int| code_row(UnifiedRowKind::Delete, '-', del[k], paired_delete_spans(del, add, k)),
    ) + Seq::new(
        add.len(),
        |k: int| code_row(UnifiedRowKind::Add, '+', add[k], paired_add_spans(del, add, k)),
    )
}

pub struct UAcc {
    pub rows: Seq<URowV>,
    pub del: Seq<Seq<char>>,
    pub add: Seq<Seq<char>>,
}

pub open spec fn uflushed(acc: UAcc) -> Seq<URowV> {
    acc.rows + uflush(acc.del, acc.add)
}

pub open spec fn ushow(acc: UAcc, row: URowV) -> UAcc {
    UAcc { rows: uflushed(acc).push(row), del: Seq::empty(), add: Seq::empty() }
}

/// One diff line of the unified view.
pub open spec fn unified_step(acc: UAcc, line: Seq<char>) -> UAcc {
    if has_prefix(line, "diff --git "@) {
        ushow(
            acc,
            URowV { file_path: git_path_spec(line), ..meta_row(UnifiedRowKind::File, line) },
        )
    } else if is_metadata_spec(line) {
        ushow(acc, meta_row(UnifiedRowKind::Meta, line))
    } else if has_prefix(line, "@@"@) {
        ushow(acc, meta_row(UnifiedRowKind::Hunk, line))
    } else if has_prefix(line, "\\ No newline"@) {
        ushow(acc, meta_row(UnifiedRowKind::NoNewline, line))
    } else if line.len() == 0 {
        ushow(acc, meta_row(UnifiedRowKind::Blank, Seq::empty()))
    } else if line[0] == ' ' {
        ushow(
            acc,
            code_row(UnifiedRowKind::Context, ' ', expand_spec(line.drop_first()), Seq::empty()),
        )
    } else if line[0] == '-' {
        UAcc { del: acc.del.push(expand_spec(line.drop_first())), ..acc }
    } else if line[0] == '+' {
        UAcc { add: acc.add.push(expand_spec(line.drop_first())), ..acc }
    } else {
        ushow(acc, meta_row(UnifiedRowKind::Preamble, line))
    }
}

pub open spec fn unified_fold(lines: Seq<Seq<char>>, k: int) -> UAcc
    decreases k,
{
    if k <= 0 {
        UAcc { rows: Seq::empty(), del: Seq::empty(), add: Seq::empty() }
    } else {
        unified_step(unified_fold(lines, k - 1), lines[k - 1])
    }
}

/// The unified rows of a diff.
pub open spec fn unified_spec(lines: Seq<Seq<char>>) -> Seq<URowV> {
    uflushed(unified_fold(lines, lines.len() as int))
}

fn push_urow(rows: &mut Vec<UnifiedDiffRow>, row: UnifiedDiffRow)
    ensures
        urows_v(final(rows)@) == urows_v(old(rows)@).push(row@),
{
    rows.push(row);
    assert(urows_v(rows@) =~= urows_v(old(rows)@).push(row@));
}

fn copy_spans(v: &Vec<InlineSpan>) -> (r: Vec<InlineSpan>)
    ensures
        r@ == v@,
{
    let mut r: Vec<InlineSpan> = Vec::new();
    let mut i: usize = 0;
    while i < v.len()
        invariant
            0 <= i <= v.len(),
            r@ == v@.take(i as int),
        decreases v.len() - i,
    {
        r.push(v[i]);
        i = i + 1;
        assert(r@ == v@.take(i as int));
    }
    assert(v@.take(v@.len() as int) == v@);
    r
}

fn flush_changes(rows: &mut Vec<UnifiedDiffRow>, deletes: &mut Vec<String>, adds: &mut Vec<String>)
    requires
        lines_bounded(strs(old(deletes)@)),
        lines_bounded(strs(old(adds)@)),
    ensures
        urows_v(final(rows)@) == urows_v(old(rows)@) + uflush(strs(old(deletes)@), strs(old(adds)@)),
        final(deletes)@.len() == 0,
        final(adds)@.len() == 0,
{
    let ghost del = strs(deletes@);
    let ghost add = strs(adds@);
    if deletes.len() == 0 && adds.len() == 0 {
        assert(uflush(del, add) =~= Seq::<URowV>::empty());
        assert(urows_v(rows@) + Seq::<URowV>::empty() == urows_v(rows@));
        return;
    }
    let (delete_spans, add_spans, _) = pair_inline_spans(deletes, adds);
    let ghost base = urows_v(rows@);
    let mut index: usize = 0;
    while index < deletes.len()
        invariant
            0 <= index <= deletes.len(),
            del == strs(deletes@),
            add == strs(adds@),
            delete_spans.len() == deletes.len(),
            forall|k: int|
                0 <= k < deletes.len() ==> (#[trigger] delete_spans@[k])@ == paired_delete_spans(
                    del,
                    add,
                    k,
                ),
            urows_v(rows@) == base + uflush(del, add).take(index as int),
        decreases deletes.len() - index,
    {
        let code = deletes[index].clone();
        let row = UnifiedDiffRow::code(
            UnifiedRowKind::Delete,
            '-',
            code,
            copy_spans(&delete_spans[index]),
        );
        proof {
            assert(del[index as int] == deletes@[index as int]@);
        }
        push_urow(rows, row);
        index = index + 1;
        assert(uflush(del, add).take(index as int) == uflush(del, add).take(index - 1).push(row@));
    }
    index = 0;
    while index < adds.len()
        invariant
            0 <= index <= adds.len(),
            del == strs(deletes@),
            add == strs(adds@),
            add_spans.len() == adds.len(),
            forall|k: int|
                0 <= k < adds.len() ==> (#[trigger] add_spans@[k])@ == paired_add_spans(
                    del,
                    add,
                    k,
                ),
            urows_v(rows@) == base + uflush(del, add).take(del.len() + index),
        decreases adds.len() - index,
    {
        let code = adds[index].clone();
        let row = UnifiedDiffRow::code(UnifiedRowKind::Add, '+', code, copy_spans(&add_spans[index]));
        proof {
            assert(add[index as int] == adds@[index as int]@);
        }
        push_urow(rows, row);
        index = index + 1;
        assert(uflush(del, add).take(del.len() + index) == uflush(del, add).take(
            del.len() + index - 1,
        ).push(row@));
    }
    assert(uflush(del, add).take(del.len() + adds.len()) == uflush(del, add));
    *deletes = Vec::new();
    *adds = Vec::new();
}

fn text_after_marker(line: &str) -> (r: String)
    requires
        line@.len() > 0,
    ensures
        r@ == expand_spec(line@.drop_first()),
{
    let v = chars_of(line);
    let r = expand_tab_chars(&v, 1);
    assert(v@.skip(1) == line@.drop_first());
    r
}

fn copy_string(s: &String) -> (r: String)
    ensures
        r@ == s@,
{
    s.clone()
}

pub fn build_unified_rows(lines: &[String]) -> (rows: Vec<UnifiedDiffRow>)
    requires
        all_tab_bounded(strs(lines@)),
    ensures
        urows_v(rows@) == unified_spec(strs(lines@)),
{
    let ghost ls = strs(lines@);
    let mut rows: Vec<UnifiedDiffRow> = Vec::new();
    let mut pending_del: Vec<String> = Vec::new();
    let mut pending_add: Vec<String> = Vec::new();
    let mut i: usize = 0;
    proof {
        assert(urows_v(rows@) == Seq::<URowV>::empty());
        assert(strs(pending_del@) == Seq::<Seq<char>>::empty());
        assert(strs(pending_add@) == Seq::<Seq<char>>::empty());
    }
    while i < lines.len()
        invariant
            0 <= i <= lines.len(),
            ls == strs(lines@),
            all_tab_bounded(ls),
            unified_fold(ls, i as int) == (UAcc {
                rows: urows_v(rows@),
                del: strs(pending_del@),
                add: strs(pending_add@),
            }),
            lines_bounded(strs(pending_del@)),
            lines_bounded(strs(pending_add@)),
        decreases lines.len() - i,
    {
        let line = &lines[i];
        let ghost l = line@;
        let ghost acc0 = unified_fold(ls, i as int);
        proof {
            assert(ls[i as int] == l);
            assert(tab_bounded(l));
            assert(unified_fold(ls, i + 1) == unified_step(acc0, l));
        }
        if str_starts_with(line.as_str(), "diff --git ") {
            flush_changes(&mut rows, &mut pending_del, &mut pending_add);
            let mut row = UnifiedDiffRow::meta(UnifiedRowKind::File, copy_string(line));
            row.file_path = match diff_git_path(line.as_str()) {
                Some(p) => Some(p.to_string()),
                None => None,
            };
            push_urow(&mut rows, row);
        } else if is_metadata_line(line.as_str()) {
            flush_changes(&mut rows, &mut pending_del, &mut pending_add);
            push_urow(&mut rows, UnifiedDiffRow::meta(UnifiedRowKind::Meta, copy_string(line)));
        } else if str_starts_with(line.as_str(), "@@") {
            flush_changes(&mut rows, &mut pending_del, &mut pending_add);
            push_urow(&mut rows, UnifiedDiffRow::meta(UnifiedRowKind::Hunk, copy_string(line)));
        } else if str_starts_with(line.as_str(), "\\ No newline") {
            flush_changes(&mut rows, &mut pending_del, &mut pending_add);
            push_urow(&mut rows, UnifiedDiffRow::meta(UnifiedRowKind::NoNewline, copy_string(line)));
        } else if line.as_str().is_empty() {
            flush_changes(&mut rows, &mut pending_del, &mut pending_add);
            push_urow(&mut rows, UnifiedDiffRow::meta(UnifiedRowKind::Blank, String::new()));
        } else {
            let v = chars_of(line.as_str());
            let first = v[0];
            if first == ' ' {
                flush_changes(&mut rows, &mut pending_del, &mut pending_add);
                let text = text_after_marker(line.as_str());
                push_urow(
                    &mut rows,
                    UnifiedDiffRow::code(UnifiedRowKind::Context, ' ', text, Vec::new()),
                );
            } else if first == '-' || first == '+' {
                let text = text_after_marker(line.as_str());
                proof {
                    lemma_expand_len(l.drop_first());
                }
                if first == '-' {
                    let ghost before = pending_del@;
                    pending_del.push(text);
                    assert(strs(pending_del@) == strs(before).push(expand_spec(l.drop_first())));
                } else {
                    let ghost before = pending_add@;
                    pending_add.push(text);
                    assert(strs(pending_add@) == strs(before).push(expand_spec(l.drop_first())));
                }
            } else {
                flush_changes(&mut rows, &mut pending_del, &mut pending_add);
                push_urow(&mut rows, UnifiedDiffRow::meta(UnifiedRowKind::Preamble, copy_string(line)));
            }
        }
        proof {
            if pending_del@.len() == 0 {
                assert(strs(pending_del@) == Seq::<Seq<char>>::empty());
            }
            if pending_add@.len() == 0 {
                assert(strs(pending_add@) == Seq::<Seq<char>>::empty());
            }
        }
        i = i + 1;
    }
    flush_changes(&mut rows, &mut pending_del, &mut pending_add);
    rows
}


// ---------------------------------------------------------------------------
// Laws
// ---------------------------------------------------------------------------

proof fn lemma_fold_rows(lines: Seq<Seq<char>>, k: int)
    requires
        0 <= k <= lines.len(),
    ensures
        uflushed(unified_fold(lines, k)).len() == k,
    decreases k,
{
    if k > 0 {
        lemma_fold_rows(lines, k - 1);
    }
}

/// The unified view has one row for each line of the diff.
pub proof fn law_one_row_per_line(lines: Seq<Seq<char>>)
    ensures
        unified_spec(lines).len() == lines.len(),
{
    lemma_fold_rows(lines, lines.len() as int);
}

} // verus!
