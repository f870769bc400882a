//! Row and cell types produced by the diff renderers.
use vstd::prelude::*;
use crate::text::{chars_of, push_chars};

verus! {

#[derive(Clone, Copy, Debug, PartialEq, Eq, Structural)]
pub enum GitDiffCellKind {
    Context,
    Delete,
    Add,
    Empty,
}

/// A byte range `[start, end)` of a line that changed against its counterpart.
#[derive(Clone, Copy, Debug, PartialEq, Eq, Structural)]
pub struct InlineSpan {
    pub start: usize,
    pub end: usize,
}

#[derive(Clone, Debug, PartialEq, Eq)]
pub struct GitDiffCell {
    pub line_no: Option<u32>,
    pub text: String,
    pub kind: GitDiffCellKind,
    pub inline_spans: Vec<InlineSpan>,
}

impl GitDiffCell {
    pub fn new(line_no: Option<u32>, text: String, kind: GitDiffCellKind) -> (r: Self)
        ensures
            r.line_no == line_no,
            r.text@ == text@,
            r.kind == kind,
            r.inline_spans@ == Seq::<InlineSpan>::empty(),
    {
        Self { line_no, text, kind, inline_spans: Vec::new() }
    }

    pub fn with_spans(
        line_no: Option<u32>,
        text: String,
        kind: GitDiffCellKind,
        inline_spans: Vec<InlineSpan>,
    ) -> (r: Self)
        ensures
            r.line_no == line_no,
            r.text@ == text@,
            r.kind == kind,
            r.inline_spans@ == inline_spans@,
    {
        Self { line_no, text, kind, inline_spans }
    }

    pub fn empty() -> (r: Self)
        ensures
            r.line_no is None,
            r.text@ == Seq::<char>::empty(),
            r.kind == GitDiffCellKind::Empty,
            r.inline_spans@ == Seq::<InlineSpan>::empty(),
    {
        Self::new(None, String::new(), GitDiffCellKind::Empty)
    }
}

#[derive(Clone, Debug, PartialEq, Eq)]
pub enum GitDiffRow {
    Meta(String),
    Split { old: GitDiffCell, new: GitDiffCell },
}

/// What a cell shows: line number, text, kind and changed spans.
pub struct CellV {
    pub line_no: Option<u32>,
    pub text: Seq<char>,
    pub kind: GitDiffCellKind,
    pub spans: Seq<InlineSpan>,
}

impl View for GitDiffCell {
    type V = CellV;

    open spec fn view(&self) -> CellV {
        CellV { line_no: self.line_no, text: self.text@, kind: self.kind, spans: self.inline_spans@ }
    }
}

pub enum RowV {
    Meta(Seq<char>),
    Split { old: CellV, new: CellV },
}

impl View for GitDiffRow {
    type V = RowV;

    open spec fn view(&self) -> RowV {
        match self {
            GitDiffRow::Meta(t) => RowV::Meta(t@),
            GitDiffRow::Split { old, new } => RowV::Split { old: old@, new: new@ },
        }
    }
}

pub open spec fn rows_v(r: Seq<GitDiffRow>) -> Seq<RowV> {
    r.map_values(|x: GitDiffRow| x@)
}

/// The cell shown opposite a line that has no counterpart.
pub open spec fn empty_cell() -> CellV {
    CellV { line_no: None, text: Seq::empty(), kind: GitDiffCellKind::Empty, spans: Seq::empty() }
}

#[derive(Clone, Copy, Debug, PartialEq, Eq, Structural)]
pub enum UnifiedRowKind {
    File,
    Meta,
    Hunk,
    Context,
    Add,
    Delete,
    NoNewline,
    Blank,
    Preamble,
}

#[derive(Clone, Debug, PartialEq, Eq)]
pub struct UnifiedDiffRow {
    pub kind: UnifiedRowKind,
    pub text: String,
    pub marker: Option<char>,
    pub code: String,
    pub file_path: Option<String>,
    pub inline_spans: Vec<InlineSpan>,
}

/// What a unified row shows.
pub struct URowV {
    pub kind: UnifiedRowKind,
    pub text: Seq<char>,
    pub marker: Option<char>,
    pub code: Seq<char>,
    pub file_path: Option<Seq<char>>,
    pub spans: Seq<InlineSpan>,
}

impl View for UnifiedDiffRow {
    type V = URowV;

    open spec fn view(&self) -> URowV {
        URowV {
            kind: self.kind,
            text: self.text@,
            marker: self.marker,
            code: self.code@,
            file_path: match self.file_path {
                Some(p) => Some(p@),
                None => None,
            },
            spans: self.inline_spans@,
        }
    }
}

pub open spec fn urows_v(r: Seq<UnifiedDiffRow>) -> Seq<URowV> {
    r.map_values(|x: UnifiedDiffRow| x@)
}

impl UnifiedDiffRow {
    pub fn meta(kind: UnifiedRowKind, text: String) -> (r: Self)
        ensures
            r.kind == kind,
            r.text@ == text@,
            r.marker is None,
            r.code@ == Seq::<char>::empty(),
            r.file_path is None,
            r.inline_spans@ == Seq::<InlineSpan>::empty(),
    {
        Self {
            kind,
            text,
            marker: None,
            code: String::new(),
            file_path: None,
            inline_spans: Vec::new(),
        }
    }

    pub fn code(kind: UnifiedRowKind, marker: char, code: String, spans: Vec<InlineSpan>) -> (r: Self)
        ensures
            r.kind == kind,
            r.text@ == seq![marker] + code@,
            r.marker == Some(marker),
            r.code@ == code@,
            r.file_path is None,
            r.inline_spans@ == spans@,
    {
        let mut text = String::new();
        text.push(marker);
        let cv = chars_of(code.as_str());
        push_chars(&mut text, &cv);
        assert(Seq::<char>::empty().push(marker) == seq![marker]);
        Self { kind, text, marker: Some(marker), code, file_path: None, inline_spans: spans }
    }
}

} // verus!
