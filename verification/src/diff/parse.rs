//! A structured reading of a unified diff: preamble, files, hunks, lines.
use vstd::prelude::*;
use crate::diff::side_by_side::{hunk_header_spec, parse_hunk_header};
use crate::text::{chars_of, has_prefix, str_starts_with, strs};

verus! {

broadcast use vstd::string::group_string_axioms;

#[derive(Clone, Debug, PartialEq, Eq)]
pub struct ParsedDiffDocument {
    pub preamble: Vec<String>,
    pub files: Vec<ParsedDiffFile>,
}

#[derive(Clone, Debug, PartialEq, Eq)]
pub struct ParsedDiffFile {
    pub header: Vec<String>,
    pub old_name: Option<String>,
    pub new_name: Option<String>,
    pub hunks: Vec<ParsedDiffHunk>,
}

#[derive(Clone, Debug, PartialEq, Eq)]
pub struct ParsedDiffHunk {
    pub header: String,
    pub old_start: u32,
    pub new_start: u32,
    pub lines: Vec<ParsedDiffLine>,
}

#[derive(Clone, Copy, Debug, PartialEq, Eq, Structural)]
pub enum ParsedDiffLineKind {
    Context,
    Add,
    Delete,
    NoNewline,
}

#[derive(Clone, Debug, PartialEq, Eq)]
pub struct ParsedDiffLine {
    pub kind: ParsedDiffLineKind,
    pub old_line: Option<u32>,
    pub new_line: Option<u32>,
    pub text: String,
}

pub struct LineV {
    pub kind: ParsedDiffLineKind,
    pub old_line: Option<u32>,
    pub new_line: Option<u32>,
    pub text: Seq<char>,
}

pub struct HunkV {
    pub header: Seq<char>,
    pub old_start: u32,
    pub new_start: u32,
    pub lines: Seq<LineV>,
}

pub struct FileV {
    pub header: Seq<Seq<char>>,
    pub old_name: Option<Seq<char>>,
    pub new_name: Option<Seq<char>>,
    pub hunks: Seq<HunkV>,
}

pub struct DocV {
    pub preamble: Seq<Seq<char>>,
    pub files: Seq<FileV>,
}

impl View for ParsedDiffLine {
    type V = LineV;

    open spec fn view(&self) -> LineV {
        LineV { kind: self.kind, old_line: self.old_line, new_line: self.new_line, text: self.text@ }
    }
}

impl View for ParsedDiffHunk {
    type V = HunkV;

    open spec fn view(&self) -> HunkV {
        HunkV {
            header: self.header@,
            old_start: self.old_start,
            new_start: self.new_start,
            lines: self.lines@.map_values(|l: ParsedDiffLine| l@),
        }
    }
}

pub open spec fn opt_v(o: Option<String>) -> Option<Seq<char>> {
    match o {
        Some(s) => Some(s@),
        None => None,
    }
}

impl View for ParsedDiffFile {
    type V = FileV;

    open spec fn view(&self) -> FileV {
        FileV {
            header: strs(self.header@),
            old_name: opt_v(self.old_name),
            new_name: opt_v(self.new_name),
            hunks: self.hunks@.map_values(|h: ParsedDiffHunk| h@),
        }
    }
}

impl View for ParsedDiffDocument {
    type V = DocV;

    open spec fn view(&self) -> DocV {
        DocV {
            preamble: strs(self.preamble@),
            files: self.files@.map_values(|f: ParsedDiffFile| f@),
        }
    }
}

impl Default for ParsedDiffDocument {
    fn default() -> (r: Self)
        ensures
            r@.preamble.len() == 0,
            r@.files.len() == 0,
    {
        ParsedDiffDocument { preamble: Vec::new(), files: Vec::new() }
    }
}

impl Default for ParsedDiffFile {
    fn default() -> (r: Self)
        ensures
            r@.header.len() == 0,
            r@.old_name is None,
            r@.new_name is None,
            r@.hunks.len() == 0,
    {
        ParsedDiffFile { header: Vec::new(), old_name: None, new_name: None, hunks: Vec::new() }
    }
}

/// The parser's state between lines.
pub struct PState {
    pub doc: DocV,
    pub file: Option<FileV>,
    pub hunk: Option<HunkV>,
    pub old_line: u32,
    pub new_line: u32,
}

pub open spec fn inc(x: u32) -> u32 {
    if x == u32::MAX {
        0
    } else {
        (x + 1) as u32
    }
}

/// Closes the open hunk into the open file (the hunk is dropped when no
/// file is open).
pub open spec fn finish_hunk(st: PState) -> PState {
    match (st.file, st.hunk) {
        (Some(f), Some(h)) => PState {
            file: Some(FileV { hunks: f.hunks.push(h), ..f }),
            hunk: None,
            ..st
        },
        _ => PState { hunk: None, ..st },
    }
}

/// Closes the open file into the document.
pub open spec fn finish_file(st: PState) -> PState {
    match st.file {
        Some(f) => PState { doc: DocV { files: st.doc.files.push(f), ..st.doc }, file: None, ..st },
        None => st,
    }
}

pub open spec fn body_line(st: PState, h: HunkV, line: Seq<char>) -> PState {
    if line.len() > 0 && line[0] == '+' {
        PState {
            hunk: Some(
                HunkV {
                    lines: h.lines.push(
                        LineV {
                            kind: ParsedDiffLineKind::Add,
                            old_line: None,
                            new_line: Some(st.new_line),
                            text: line.drop_first(),
                        },
                    ),
                    ..h
                },
            ),
            new_line: inc(st.new_line),
            ..st
        }
    } else if line.len() > 0 && line[0] == '-' {
        PState {
            hunk: Some(
                HunkV {
                    lines: h.lines.push(
                        LineV {
                            kind: ParsedDiffLineKind::Delete,
                            old_line: Some(st.old_line),
                            new_line: None,
                            text: line.drop_first(),
                        },
                    ),
                    ..h
                },
            ),
            old_line: inc(st.old_line),
            ..st
        }
    } else if line.len() > 0 && line[0] == '\\' {
        PState {
            hunk: Some(
                HunkV {
                    lines: h.lines.push(
                        LineV {
                            kind: ParsedDiffLineKind::NoNewline,
                            old_line: None,
                            new_line: None,
                            text: line,
                        },
                    ),
                    ..h
                },
            ),
            ..st
        }
    } else {
        PState {
            hunk: Some(
                HunkV {
                    lines: h.lines.push(
                        LineV {
                            kind: ParsedDiffLineKind::Context,
                            old_line: Some(st.old_line),
                            new_line: Some(st.new_line),
                            text: if line.len() > 0 && line[0] == ' ' {
                                line.drop_first()
                            } else {
                                line
                            },
                        },
                    ),
                    ..h
                },
            ),
            old_line: inc(st.old_line),
            new_line: inc(st.new_line),
            ..st
        }
    }
}

/// A file header line: `--- ` and `+++ ` lines also name the old and new file.
pub open spec fn header_line(f: FileV, line: Seq<char>) -> FileV {
    let f1 = if has_prefix(line, "--- "@) {
        FileV { old_name: Some(line.skip(4)), ..f }
    } else {
        f
    };
    let f2 = if has_prefix(line, "+++ "@) {
        FileV { new_name: Some(line.skip(4)), ..f1 }
    } else {
        f1
    };
    FileV { header: f2.header.push(line), ..f2 }
}

/// One line of the diff.
pub open spec fn parse_step(st: PState, line: Seq<char>) -> PState {
    if has_prefix(line, "diff --git "@) {
        let s = finish_file(finish_hunk(st));
        PState {
            file: Some(
                FileV { header: seq![line], old_name: None, new_name: None, hunks: Seq::empty() },
            ),
            ..s
        }
    } else if st.file is None {
        PState { doc: DocV { preamble: st.doc.preamble.push(line), ..st.doc }, ..st }
    } else if has_prefix(line, "@@"@) {
        let s = finish_hunk(st);
        match hunk_header_spec(line) {
            Some((o, n)) => PState {
                hunk: Some(HunkV { header: line, old_start: o, new_start: n, lines: Seq::empty() }),
                old_line: o,
                new_line: n,
                ..s
            },
            None => PState {
                file: Some(
                    FileV { header: s.file.unwrap().header.push(line), ..s.file.unwrap() },
                ),
                ..s
            },
        }
    } else if st.hunk is Some {
        body_line(st, st.hunk.unwrap(), line)
    } else {
        PState { file: Some(header_line(st.file.unwrap(), line)), ..st }
    }
}

pub open spec fn parse_start() -> PState {
    PState {
        doc: DocV { preamble: Seq::empty(), files: Seq::empty() },
        file: None,
        hunk: None,
        old_line: 0,
        new_line: 0,
    }
}

pub open spec fn parse_fold(lines: Seq<Seq<char>>, k: int) -> PState
    decreases k,
{
    if k <= 0 {
        parse_start()
    } else {
        parse_step(parse_fold(lines, k - 1), lines[k - 1])
    }
}

/// The document read from the lines of a unified diff.
pub open spec fn parse_spec(lines: Seq<Seq<char>>) -> DocV {
    finish_file(finish_hunk(parse_fold(lines, lines.len() as int))).doc
}

/// Whether a hunk line stands for a line of the old file: every line but an
/// added line (`+`) and a `\` note.
pub open spec fn in_old(l: Seq<char>) -> bool {
    !(l.len() > 0 && (l[0] == '+' || l[0] == '\\'))
}

/// Whether a hunk line stands for a line of the new file: every line but a
/// deleted line (`-`) and a `\` note.
pub open spec fn in_new(l: Seq<char>) -> bool {
    !(l.len() > 0 && (l[0] == '-' || l[0] == '\\'))
}

/// How many lines of `b` stand for old-file lines.
pub open spec fn old_count(b: Seq<Seq<char>>) -> nat
    decreases b.len(),
{
    if b.len() == 0 {
        0
    } else {
        old_count(b.drop_last()) + if in_old(b.last()) {
            1nat
        } else {
            0nat
        }
    }
}

/// How many lines of `b` stand for new-file lines.
pub open spec fn new_count(b: Seq<Seq<char>>) -> nat
    decreases b.len(),
{
    if b.len() == 0 {
        0
    } else {
        new_count(b.drop_last()) + if in_new(b.last()) {
            1nat
        } else {
            0nat
        }
    }
}

proof fn lemma_counts_le(b: Seq<Seq<char>>)
    ensures
        old_count(b) <= b.len(),
        new_count(b) <= b.len(),
    decreases b.len(),
{
    if b.len() > 0 {
        lemma_counts_le(b.drop_last());
    }
}

/// The lines of a hunk body: none starts a file or a hunk.
pub open spec fn plain_body(b: Seq<Seq<char>>) -> bool {
    forall|i: int| 0 <= i < b.len() ==> !has_prefix(#[trigger] b[i], "diff --git "@) && !has_prefix(b[i], "@@"@)
}

/// A hunk header is not a file line.
proof fn lemma_hunk_line_not_file(l: Seq<char>)
    requires
        has_prefix(l, "@@"@),
    ensures
        !has_prefix(l, "diff --git "@),
{
    reveal_strlit("@@");
    reveal_strlit("diff --git ");
    assert(l.take(2)[0] == l[0]);
    if has_prefix(l, "diff --git "@) {
        assert(l.take(11)[0] == l[0]);
    }
}

/// The parser's state after the file line, the hunk header and the first
/// `j` body lines.
proof fn lemma_numbered_fold(d: Seq<char>, hh: Seq<char>, b: Seq<Seq<char>>, j: int)
    requires
        has_prefix(d, "diff --git "@),
        has_prefix(hh, "@@"@),
        hunk_header_spec(hh) is Some,
        plain_body(b),
        hunk_header_spec(hh).unwrap().0 + b.len() <= u32::MAX,
        hunk_header_spec(hh).unwrap().1 + b.len() <= u32::MAX,
        0 <= j <= b.len(),
    ensures
        ({
            let st = parse_fold(seq![d, hh] + b, 2 + j);
            let o = hunk_header_spec(hh).unwrap().0;
            let n = hunk_header_spec(hh).unwrap().1;
            &&& st.doc.files.len() == 0
            &&& st.file is Some
            &&& st.file->0.hunks.len() == 0
            &&& st.hunk is Some
            &&& st.hunk->0.lines.len() == j
            &&& st.old_line == o + old_count(b.take(j))
            &&& st.new_line == n + new_count(b.take(j))
            &&& forall|k: int|
                0 <= k < j ==> (#[trigger] st.hunk->0.lines[k]).old_line == (if in_old(b[k]) {
                    Some((o + old_count(b.take(k))) as u32)
                } else {
                    None
                }) && st.hunk->0.lines[k].new_line == (if in_new(b[k]) {
                    Some((n + new_count(b.take(k))) as u32)
                } else {
                    None
                })
        }),
    decreases j,
{
    let ls = seq![d, hh] + b;
    let o = hunk_header_spec(hh).unwrap().0;
    let n = hunk_header_spec(hh).unwrap().1;
    reveal_strlit("@@");
    reveal_strlit("diff --git ");
    if j == 0 {
        assert(ls[0] == d);
        assert(ls[1] == hh);
        assert(parse_fold(ls, 1) == parse_step(parse_fold(ls, 0), d));
        assert(parse_fold(ls, 2) == parse_step(parse_fold(ls, 1), hh));
        lemma_hunk_line_not_file(hh);
        assert(b.take(0) == Seq::<Seq<char>>::empty());
    } else {
        lemma_numbered_fold(d, hh, b, j - 1);
        let line = b[j - 1];
        assert(ls[2 + j - 1] == line);
        assert(parse_fold(ls, 2 + j) == parse_step(parse_fold(ls, 2 + j - 1), line));
        assert(!has_prefix(line, "diff --git "@) && !has_prefix(line, "@@"@));
        assert(b.take(j).drop_last() == b.take(j - 1));
        assert(b.take(j).last() == line);
        lemma_counts_le(b.take(j - 1));
        let st0 = parse_fold(ls, 2 + j - 1);
        let st = parse_fold(ls, 2 + j);
        assert(st == body_line(st0, st0.hunk->0, line));
        assert forall|k: int| 0 <= k < j implies (#[trigger] st.hunk->0.lines[k]).old_line == (if in_old(b[k]) {
            Some((o + old_count(b.take(k))) as u32)
        } else {
            None
        }) && st.hunk->0.lines[k].new_line == (if in_new(b[k]) {
            Some((n + new_count(b.take(k))) as u32)
        } else {
            None
        }) by {
            if k < j - 1 {
                assert(st.hunk->0.lines[k] == st0.hunk->0.lines[k]);
            } else {
                assert(k == j - 1);
            }
        }
    }
}

/// Within a hunk, the line numbers run on from the hunk header: the k-th
/// body line that stands for an old-file line is numbered from the old
/// start on (`old_start + k`), likewise on the new side, and the other
/// lines have no number on that side.
pub proof fn law_hunk_line_numbers(d: Seq<char>, hh: Seq<char>, b: Seq<Seq<char>>)
    requires
        has_prefix(d, "diff --git "@),
        has_prefix(hh, "@@"@),
        hunk_header_spec(hh) is Some,
        plain_body(b),
        hunk_header_spec(hh).unwrap().0 + b.len() <= u32::MAX,
        hunk_header_spec(hh).unwrap().1 + b.len() <= u32::MAX,
    ensures
        ({
            let doc = parse_spec(seq![d, hh] + b);
            let o = hunk_header_spec(hh).unwrap().0;
            let n = hunk_header_spec(hh).unwrap().1;
            &&& doc.files.len() == 1
            &&& doc.files[0].hunks.len() == 1
            &&& doc.files[0].hunks[0].old_start == o
            &&& doc.files[0].hunks[0].new_start == n
            &&& doc.files[0].hunks[0].lines.len() == b.len()
            &&& forall|k: int|
                0 <= k < b.len() ==> (#[trigger] doc.files[0].hunks[0].lines[k]).old_line == (if in_old(b[k]) {
                    Some((o + old_count(b.take(k))) as u32)
                } else {
                    None
                }) && doc.files[0].hunks[0].lines[k].new_line == (if in_new(b[k]) {
                    Some((n + new_count(b.take(k))) as u32)
                } else {
                    None
                })
        }),
{
    let ls = seq![d, hh] + b;
    lemma_numbered_fold(d, hh, b, b.len() as int);
    assert(ls.len() == 2 + b.len());
    lemma_start_kept(d, hh, b, b.len() as int);
}

proof fn lemma_start_kept(d: Seq<char>, hh: Seq<char>, b: Seq<Seq<char>>, j: int)
    requires
        has_prefix(d, "diff --git "@),
        has_prefix(hh, "@@"@),
        hunk_header_spec(hh) is Some,
        plain_body(b),
        hunk_header_spec(hh).unwrap().0 + b.len() <= u32::MAX,
        hunk_header_spec(hh).unwrap().1 + b.len() <= u32::MAX,
        0 <= j <= b.len(),
    ensures
        parse_fold(seq![d, hh] + b, 2 + j).hunk->0.old_start == hunk_header_spec(hh).unwrap().0,
        parse_fold(seq![d, hh] + b, 2 + j).hunk->0.new_start == hunk_header_spec(hh).unwrap().1,
    decreases j,
{
    let ls = seq![d, hh] + b;
    lemma_numbered_fold(d, hh, b, j);
    reveal_strlit("@@");
    reveal_strlit("diff --git ");
    if j == 0 {
        assert(ls[0] == d);
        assert(ls[1] == hh);
        assert(parse_fold(ls, 1) == parse_step(parse_fold(ls, 0), d));
        assert(parse_fold(ls, 2) == parse_step(parse_fold(ls, 1), hh));
        lemma_hunk_line_not_file(hh);
    } else {
        lemma_start_kept(d, hh, b, j - 1);
        lemma_numbered_fold(d, hh, b, j - 1);
        let line = b[j - 1];
        assert(ls[2 + j - 1] == line);
        assert(parse_fold(ls, 2 + j) == parse_step(parse_fold(ls, 2 + j - 1), line));
        assert(!has_prefix(line, "diff --git "@) && !has_prefix(line, "@@"@));
    }
}

pub open spec fn hunks_v(h: Seq<ParsedDiffHunk>) -> Seq<HunkV> {
    h.map_values(|x: ParsedDiffHunk| x@)
}

pub open spec fn files_v(f: Seq<ParsedDiffFile>) -> Seq<FileV> {
    f.map_values(|x: ParsedDiffFile| x@)
}

pub open spec fn lines_v(l: Seq<ParsedDiffLine>) -> Seq<LineV> {
    l.map_values(|x: ParsedDiffLine| x@)
}

fn push_string(v: &mut Vec<String>, s: String)
    ensures
        strs(final(v)@) == strs(old(v)@).push(s@),
{
    v.push(s);
    assert(strs(v@) =~= strs(old(v)@).push(s@));
}

fn copy_string(s: &String) -> (r: String)
    ensures
        r@ == s@,
{
    s.clone()
}

fn rest_after(line: &String, n: usize) -> (r: String)
    requires
        n <= line@.len(),
    ensures
        r@ == line@.skip(n as int),
{
    let s = line.as_str().substring_char(n, line.as_str().unicode_len());
    assert(line@.subrange(n as int, line@.len() as int) == line@.skip(n as int));
    s.to_string()
}

fn new_line_entry(kind: ParsedDiffLineKind, old_line: Option<u32>, new_line: Option<u32>, text: String) -> (r: ParsedDiffLine)
    ensures
        r@ == (LineV { kind, old_line, new_line, text: text@ }),
{
    ParsedDiffLine { kind, old_line, new_line, text }
}

pub fn parse_unified_diff(lines: &[String]) -> (doc: ParsedDiffDocument)
    ensures
        doc@ == parse_spec(strs(lines@)),
{
    let ghost ls = strs(lines@);
    let mut doc = ParsedDiffDocument { preamble: Vec::new(), files: Vec::new() };
    let mut file_open = false;
    let mut file = ParsedDiffFile { header: Vec::new(), old_name: None, new_name: None, hunks: Vec::new() };
    let mut hunk_open = false;
    let mut hunk = ParsedDiffHunk { header: String::new(), old_start: 0, new_start: 0, lines: Vec::new() };
    let mut old_line: u32 = 0;
    let mut new_line: u32 = 0;
    let mut i: usize = 0;
    proof {
        assert(doc@.preamble == Seq::<Seq<char>>::empty());
        assert(doc@.files == Seq::<FileV>::empty());
    }
    while i < lines.len()
        invariant
            0 <= i <= lines.len(),
            ls == strs(lines@),
            parse_fold(ls, i as int) == (PState {
                doc: doc@,
                file: if file_open {
                    Some(file@)
                } else {
                    None
                },
                hunk: if hunk_open {
                    Some(hunk@)
                } else {
                    None
                },
                old_line,
                new_line,
            }),
        decreases lines.len() - i,
    {
        let line = &lines[i];
        let ghost l = line@;
        let ghost st0 = parse_fold(ls, i as int);
        proof {
            assert(ls[i as int] == l);
            assert(parse_fold(ls, i + 1) == parse_step(st0, l));
        }
        if str_starts_with(line.as_str(), "diff --git ") {
            if hunk_open && file_open {
                let ghost before = file.hunks@;
                file.hunks.push(hunk);
                assert(hunks_v(file.hunks@) =~= hunks_v(before).push(hunk@));
            }
            hunk_open = false;
            hunk = ParsedDiffHunk { header: String::new(), old_start: 0, new_start: 0, lines: Vec::new() };
            if file_open {
                let ghost before = doc.files@;
                doc.files.push(file);
                assert(files_v(doc.files@) =~= files_v(before).push(file@));
            }
            let mut header: Vec<String> = Vec::new();
            push_string(&mut header, copy_string(line));
            assert(strs(header@) =~= seq![l]);
            file = ParsedDiffFile { header, old_name: None, new_name: None, hunks: Vec::new() };
            assert(hunks_v(file.hunks@) =~= Seq::<HunkV>::empty());
            file_open = true;
        } else if !file_open {
            push_string(&mut doc.preamble, copy_string(line));
        } else if str_starts_with(line.as_str(), "@@") {
            if hunk_open {
                let ghost before = file.hunks@;
                file.hunks.push(hunk);
                assert(hunks_v(file.hunks@) =~= hunks_v(before).push(hunk@));
            }
            hunk_open = false;
            hunk = ParsedDiffHunk { header: String::new(), old_start: 0, new_start: 0, lines: Vec::new() };
            match parse_hunk_header(line.as_str()) {
                Some((o, n)) => {
                    old_line = o;
                    new_line = n;
                    hunk = ParsedDiffHunk { header: copy_string(line), old_start: o, new_start: n, lines: Vec::new() };
                    assert(lines_v(hunk.lines@) =~= Seq::<LineV>::empty());
                    hunk_open = true;
                },
                None => {
                    push_string(&mut file.header, copy_string(line));
                },
            }
        } else if hunk_open {
            let v = chars_of(line.as_str());
            let ghost before = hunk.lines@;
            let entry = if v.len() > 0 && v[0] == '+' {
                let e = new_line_entry(ParsedDiffLineKind::Add, None, Some(new_line), rest_after(line, 1));
                new_line = new_line.wrapping_add(1);
                e
            } else if v.len() > 0 && v[0] == '-' {
                let e = new_line_entry(ParsedDiffLineKind::Delete, Some(old_line), None, rest_after(line, 1));
                old_line = old_line.wrapping_add(1);
                e
            } else if v.len() > 0 && v[0] == '\\' {
                new_line_entry(ParsedDiffLineKind::NoNewline, None, None, copy_string(line))
            } else {
                let text = if v.len() > 0 && v[0] == ' ' {
                    rest_after(line, 1)
                } else {
                    copy_string(line)
                };
                let e = new_line_entry(ParsedDiffLineKind::Context, Some(old_line), Some(new_line), text);
                old_line = old_line.wrapping_add(1);
                new_line = new_line.wrapping_add(1);
                e
            };
            hunk.lines.push(entry);
            assert(lines_v(hunk.lines@) =~= lines_v(before).push(entry@));
        } else {
            let ghost f0 = file@;
            if str_starts_with(line.as_str(), "--- ") {
                proof {
                    reveal_strlit("--- ");
                }
                file.old_name = Some(rest_after(line, 4));
            }
            if str_starts_with(line.as_str(), "+++ ") {
                proof {
                    reveal_strlit("+++ ");
                }
                file.new_name = Some(rest_after(line, 4));
            }
            push_string(&mut file.header, copy_string(line));
            assert(file@ == header_line(f0, l));
        }
        i = i + 1;
    }
    if hunk_open && file_open {
        let ghost before = file.hunks@;
        file.hunks.push(hunk);
        assert(hunks_v(file.hunks@) =~= hunks_v(before).push(hunk@));
    }
    if file_open {
        let ghost before = doc.files@;
        doc.files.push(file);
        assert(files_v(doc.files@) =~= files_v(before).push(file@));
    }
    doc
}

} // verus!
