//! File previews: what a preview holds, and the decisions of loading one a
//! line at a time (skip to the first wanted line, read a window of lines,
//! stop at binary content or the size limit, look ahead for more).
//!
//! Reading, opening and cancellation belong to the caller, which performs
//! each step this module asks for and reports what happened.
use vstd::prelude::*;
use crate::text::{chars_of, push_str, utf8_bytes};

verus! {

broadcast use vstd::string::group_string_axioms;

/// Largest number of bytes loaded for a preview.
pub const MAX_PREVIEW_BYTES: usize = 10485760;

/// Lines read beyond the visible ones.
pub const BUFFER_LINES: usize = 50;

/// Cached preview content for a file.
#[derive(Clone, Debug)]
pub struct PreviewContent {
    /// The text content of the file.
    pub text: String,
    /// Whether the file appears to be binary.
    pub is_binary: bool,
    /// Whether the content was truncated at the size limit.
    pub truncated: bool,
}

/// Result of a preview load.
#[derive(Debug)]
pub enum PreviewResult {
    /// The whole file, from its first line.
    Ready { path: String, content: String, truncated: bool },
    /// A window of the file's lines.
    Partial {
        path: String,
        content: String,
        start_line: usize,
        lines_loaded: usize,
        has_more_before: bool,
        has_more_after: bool,
    },
    /// The file looks binary (it has control characters).
    Binary { path: String },
    /// Opening or reading failed.
    Error { path: String, error: String },
    /// The load was cancelled.
    Cancelled,
}

/// A control character other than tab, newline and carriage return.
pub open spec fn is_binary_char(c: char) -> bool {
    c < ' ' && c != '\t' && c != '\n' && c != '\r'
}

/// Whether the text has a control character other than tab, newline and
/// carriage return (a byte below 0x20 in UTF-8 is always such a character).
pub open spec fn binary_text(s: Seq<char>) -> bool {
    exists|i: int| 0 <= i < s.len() && is_binary_char(#[trigger] s[i])
}

pub fn is_binary_content(text: &str) -> (r: bool)
    ensures
        r == binary_text(text@),
{
    let v = chars_of(text);
    let mut i: usize = 0;
    while i < v.len()
        invariant
            i <= v.len(),
            v@ == text@,
            forall|j: int| 0 <= j < i ==> !is_binary_char(#[trigger] v@[j]),
        decreases v.len() - i,
    {
        let c = v[i];
        if c < ' ' && c != '\t' && c != '\n' && c != '\r' {
            assert(is_binary_char(v@[i as int]));
            return true;
        }
        i = i + 1;
    }
    false
}

// ---------------------------------------------------------------------------
// Loading
// ---------------------------------------------------------------------------

/// What the loader asks the caller to do next.
pub enum PreviewAction {
    /// Open the file (checking for cancellation before and after).
    Open,
    /// Read the next line, checking for cancellation first when
    /// `check_cancel` is set.
    ReadLine { check_cancel: bool },
    /// The load is over.
    Done(PreviewResult),
}

/// What happened when the caller performed the last action.
pub enum PreviewEvent {
    /// The load was cancelled.
    Cancelled,
    /// The file is open.
    Opened,
    /// Opening failed with this error.
    OpenFailed(String),
    /// A line was read: its text (with its line ending) and its size in bytes.
    Line(String, usize),
    /// The end of the file.
    Eof,
    /// Reading failed with this error.
    ReadFailed(String),
}

#[derive(Clone, Copy, Debug, PartialEq, Eq, Structural)]
pub enum PreviewPhase {
    Opening,
    Skipping,
    Reading,
    Probing,
    Finished,
}

/// A preview load in progress.
pub struct PreviewLoad {
    pub path: String,
    pub start_line: usize,
    pub target_lines: usize,
    pub phase: PreviewPhase,
    pub current_line: usize,
    pub lines_read: usize,
    pub total_bytes: usize,
    pub content: String,
}

/// What a load holds, as plain values.
pub struct LoadV {
    pub path: Seq<char>,
    pub start_line: nat,
    pub target_lines: nat,
    pub phase: PreviewPhase,
    pub current_line: nat,
    pub lines_read: nat,
    pub total_bytes: nat,
    pub content: Seq<char>,
}

pub enum ResultV {
    Ready { path: Seq<char>, content: Seq<char>, truncated: bool },
    Partial {
        path: Seq<char>,
        content: Seq<char>,
        start_line: nat,
        lines_loaded: nat,
        has_more_before: bool,
        has_more_after: bool,
    },
    Binary { path: Seq<char> },
    Error { path: Seq<char>, error: Seq<char> },
    Cancelled,
}

pub enum ActionV {
    Open,
    ReadLine(bool),
    Done(ResultV),
}

pub enum EventV {
    Cancelled,
    Opened,
    OpenFailed(Seq<char>),
    Line(Seq<char>, nat),
    Eof,
    ReadFailed(Seq<char>),
}

pub open spec fn load_v(l: PreviewLoad) -> LoadV {
    LoadV {
        path: l.path@,
        start_line: l.start_line as nat,
        target_lines: l.target_lines as nat,
        phase: l.phase,
        current_line: l.current_line as nat,
        lines_read: l.lines_read as nat,
        total_bytes: l.total_bytes as nat,
        content: l.content@,
    }
}

pub open spec fn result_v(r: PreviewResult) -> ResultV {
    match r {
        PreviewResult::Ready { path, content, truncated } => ResultV::Ready {
            path: path@,
            content: content@,
            truncated,
        },
        PreviewResult::Partial {
            path,
            content,
            start_line,
            lines_loaded,
            has_more_before,
            has_more_after,
        } => ResultV::Partial {
            path: path@,
            content: content@,
            start_line: start_line as nat,
            lines_loaded: lines_loaded as nat,
            has_more_before,
            has_more_after,
        },
        PreviewResult::Binary { path } => ResultV::Binary { path: path@ },
        PreviewResult::Error { path, error } => ResultV::Error { path: path@, error: error@ },
        PreviewResult::Cancelled => ResultV::Cancelled,
    }
}

pub open spec fn action_v(a: PreviewAction) -> ActionV {
    match a {
        PreviewAction::Open => ActionV::Open,
        PreviewAction::ReadLine { check_cancel } => ActionV::ReadLine(check_cancel),
        PreviewAction::Done(r) => ActionV::Done(result_v(r)),
    }
}

pub open spec fn event_v(e: PreviewEvent) -> EventV {
    match e {
        PreviewEvent::Cancelled => EventV::Cancelled,
        PreviewEvent::Opened => EventV::Opened,
        PreviewEvent::OpenFailed(m) => EventV::OpenFailed(m@),
        PreviewEvent::Line(l, n) => EventV::Line(l@, n as nat),
        PreviewEvent::Eof => EventV::Eof,
        PreviewEvent::ReadFailed(m) => EventV::ReadFailed(m@),
    }
}

/// Which events can answer the action asked for in each phase: opening is
/// answered by cancellation or the open's outcome; a checked read by
/// cancellation or the read's outcome; the final look-ahead by the read's
/// outcome only.
pub open spec fn event_fits(phase: PreviewPhase, e: EventV) -> bool {
    match phase {
        PreviewPhase::Opening => e is Cancelled || e is Opened || e is OpenFailed,
        PreviewPhase::Skipping | PreviewPhase::Reading => e is Cancelled || e is Line || e is Eof
            || e is ReadFailed,
        PreviewPhase::Probing => e is Line || e is Eof || e is ReadFailed,
        PreviewPhase::Finished => false,
    }
}

/// The load ends: a window when it does not start at the top or more
/// follows, else the whole file (truncated when the size limit was reached).
pub open spec fn finish_spec(s: LoadV, more: bool) -> (LoadV, ActionV) {
    (
        LoadV { phase: PreviewPhase::Finished, content: Seq::empty(), ..s },
        ActionV::Done(
            if s.start_line > 0 || more {
                ResultV::Partial {
                    path: s.path,
                    content: s.content,
                    start_line: s.start_line,
                    lines_loaded: s.lines_read,
                    has_more_before: s.start_line > 0,
                    has_more_after: more,
                }
            } else {
                ResultV::Ready {
                    path: s.path,
                    content: s.content,
                    truncated: s.total_bytes >= MAX_PREVIEW_BYTES,
                }
            },
        ),
    )
}

/// After the window: when it was cut short (full, or at the size limit),
/// look one line further without checking for cancellation.
pub open spec fn after_window_spec(s: LoadV) -> (LoadV, ActionV) {
    if s.lines_read >= s.target_lines || s.total_bytes >= MAX_PREVIEW_BYTES {
        (LoadV { phase: PreviewPhase::Probing, ..s }, ActionV::ReadLine(false))
    } else {
        finish_spec(s, false)
    }
}

/// The next read: skip lines until `start_line`, then read the window.
pub open spec fn read_next_spec(s: LoadV) -> (LoadV, ActionV) {
    if s.phase == PreviewPhase::Skipping && s.current_line < s.start_line {
        (s, ActionV::ReadLine(true))
    } else {
        let s2 = LoadV { phase: PreviewPhase::Reading, ..s };
        if s2.lines_read < s2.target_lines {
            (s2, ActionV::ReadLine(true))
        } else {
            after_window_spec(s2)
        }
    }
}

pub open spec fn finished(s: LoadV, r: ResultV) -> (LoadV, ActionV) {
    (LoadV { phase: PreviewPhase::Finished, ..s }, ActionV::Done(r))
}

/// One step of a load.
pub open spec fn step_spec(s: LoadV, e: EventV) -> (LoadV, ActionV) {
    match e {
        EventV::Cancelled => finished(s, ResultV::Cancelled),
        EventV::OpenFailed(m) => finished(
            s,
            ResultV::Error { path: s.path, error: "Could not open file: "@ + m },
        ),
        EventV::Opened => read_next_spec(LoadV { phase: PreviewPhase::Skipping, ..s }),
        EventV::Eof => if s.phase == PreviewPhase::Skipping {
            finished(
                s,
                ResultV::Partial {
                    path: s.path,
                    content: Seq::empty(),
                    start_line: s.start_line,
                    lines_loaded: 0,
                    has_more_before: s.start_line > 0,
                    has_more_after: false,
                },
            )
        } else {
            finish_spec(s, false)
        },
        EventV::ReadFailed(m) => if s.phase == PreviewPhase::Probing || (s.phase
            == PreviewPhase::Reading && s.content.len() > 0) {
            finish_spec(s, false)
        } else {
            finished(s, ResultV::Error { path: s.path, error: "Error reading file: "@ + m })
        },
        EventV::Line(l, n) => if s.phase == PreviewPhase::Skipping {
            read_next_spec(LoadV { current_line: s.current_line + 1, ..s })
        } else if s.phase == PreviewPhase::Reading {
            if binary_text(l) {
                finished(LoadV { total_bytes: s.total_bytes + n, ..s }, ResultV::Binary { path: s.path })
            } else {
                let s2 = LoadV {
                    total_bytes: s.total_bytes + n,
                    content: s.content + l,
                    lines_read: s.lines_read + 1,
                    ..s
                };
                if s2.total_bytes >= MAX_PREVIEW_BYTES {
                    after_window_spec(s2)
                } else if s2.lines_read < s2.target_lines {
                    (s2, ActionV::ReadLine(true))
                } else {
                    after_window_spec(s2)
                }
            }
        } else {
            finish_spec(s, n > 0)
        },
    }
}

impl PreviewLoad {
    /// The loader's invariant: counts within their limits.
    pub open spec fn well_formed(&self) -> bool {
        &&& self.current_line <= self.start_line
        &&& self.lines_read <= self.target_lines
        &&& (self.phase == PreviewPhase::Reading ==> self.total_bytes < MAX_PREVIEW_BYTES)
        &&& (self.phase == PreviewPhase::Opening || self.phase == PreviewPhase::Skipping) ==> (
        self.lines_read == 0 && self.total_bytes == 0)
        &&& self.phase == PreviewPhase::Skipping ==> self.current_line < self.start_line
        &&& self.phase == PreviewPhase::Reading ==> self.lines_read < self.target_lines
    }

    /// A load of `visible_lines` lines (and a buffer of more) of the file at
    /// `path`, from line `start_line` (counting from 0). It starts by asking
    /// for the file to be opened.
    pub fn new(path: String, start_line: usize, visible_lines: usize) -> (r: (Self, PreviewAction))
        requires
            visible_lines + BUFFER_LINES <= usize::MAX,
        ensures
            r.0.well_formed(),
            load_v(r.0) == (LoadV {
                path: path@,
                start_line: start_line as nat,
                target_lines: (visible_lines + BUFFER_LINES) as nat,
                phase: PreviewPhase::Opening,
                current_line: 0,
                lines_read: 0,
                total_bytes: 0,
                content: Seq::empty(),
            }),
            r.1 is Open,
    {
        (
            PreviewLoad {
                path,
                start_line,
                target_lines: visible_lines + BUFFER_LINES,
                phase: PreviewPhase::Opening,
                current_line: 0,
                lines_read: 0,
                total_bytes: 0,
                content: String::new(),
            },
            PreviewAction::Open,
        )
    }

    fn read_next(&mut self) -> (r: PreviewAction)
        requires
            old(self).phase == PreviewPhase::Skipping,
            old(self).current_line <= old(self).start_line,
            old(self).lines_read == 0 && old(self).total_bytes == 0,
        ensures
            final(self).well_formed(),
            (load_v(*final(self)), action_v(r)) == read_next_spec(load_v(*old(self))),
    {
        if self.phase == PreviewPhase::Skipping && self.current_line < self.start_line {
            return PreviewAction::ReadLine { check_cancel: true };
        }
        self.phase = PreviewPhase::Reading;
        if self.lines_read < self.target_lines {
            return PreviewAction::ReadLine { check_cancel: true };
        }
        self.after_window()
    }

    fn after_window(&mut self) -> (r: PreviewAction)
        requires
            old(self).lines_read <= old(self).target_lines,
            old(self).current_line <= old(self).start_line,
        ensures
            final(self).well_formed(),
            (load_v(*final(self)), action_v(r)) == after_window_spec(load_v(*old(self))),
    {
        if self.lines_read >= self.target_lines || self.total_bytes >= MAX_PREVIEW_BYTES {
            self.phase = PreviewPhase::Probing;
            PreviewAction::ReadLine { check_cancel: false }
        } else {
            PreviewAction::Done(self.finish(false))
        }
    }

    fn finish(&mut self, has_more_after: bool) -> (r: PreviewResult)
        requires
            old(self).lines_read <= old(self).target_lines,
            old(self).current_line <= old(self).start_line,
        ensures
            final(self).well_formed(),
            (load_v(*final(self)), ActionV::Done(result_v(r))) == finish_spec(
                load_v(*old(self)),
                has_more_after,
            ),
    {
        self.phase = PreviewPhase::Finished;
        let mut content = String::new();
        std::mem::swap(&mut content, &mut self.content);
        let path = self.path.clone();
        if self.start_line > 0 || has_more_after {
            PreviewResult::Partial {
                path,
                content,
                start_line: self.start_line,
                lines_loaded: self.lines_read,
                has_more_before: self.start_line > 0,
                has_more_after,
            }
        } else {
            PreviewResult::Ready {
                path,
                content,
                truncated: self.total_bytes >= MAX_PREVIEW_BYTES,
            }
        }
    }

    fn end_with(&mut self, r: PreviewResult) -> (a: PreviewAction)
        requires
            old(self).lines_read <= old(self).target_lines,
            old(self).current_line <= old(self).start_line,
        ensures
            final(self).well_formed(),
            (load_v(*final(self)), action_v(a)) == finished(load_v(*old(self)), result_v(r)),
    {
        self.phase = PreviewPhase::Finished;
        PreviewAction::Done(r)
    }

    /// Takes what happened on the last action and says what to do next.
    pub fn step(&mut self, event: PreviewEvent) -> (r: PreviewAction)
        requires
            old(self).well_formed(),
            event_fits(old(self).phase, event_v(event)),
            event matches PreviewEvent::Line(_, n) ==> n <= usize::MAX - MAX_PREVIEW_BYTES,
        ensures
            final(self).well_formed(),
            (load_v(*final(self)), action_v(r)) == step_spec(load_v(*old(self)), event_v(event)),
    {
        match event {
            PreviewEvent::Cancelled => self.end_with(PreviewResult::Cancelled),
            PreviewEvent::OpenFailed(e) => {
                let mut msg = "Could not open file: ".to_owned();
                push_str(&mut msg, e.as_str());
                let path = self.path.clone();
                self.end_with(PreviewResult::Error { path, error: msg })
            },
            PreviewEvent::Opened => {
                self.phase = PreviewPhase::Skipping;
                self.read_next()
            },
            PreviewEvent::Eof => {
                if self.phase == PreviewPhase::Skipping {
                    let path = self.path.clone();
                    let r = PreviewResult::Partial {
                        path,
                        content: String::new(),
                        start_line: self.start_line,
                        lines_loaded: 0,
                        has_more_before: self.start_line > 0,
                        has_more_after: false,
                    };
                    self.end_with(r)
                } else {
                    PreviewAction::Done(self.finish(false))
                }
            },
            PreviewEvent::ReadFailed(e) => {
                if self.phase == PreviewPhase::Probing || (self.phase == PreviewPhase::Reading
                    && !self.content.as_str().is_empty()) {
                    PreviewAction::Done(self.finish(false))
                } else {
                    let mut msg = "Error reading file: ".to_owned();
                    push_str(&mut msg, e.as_str());
                    let path = self.path.clone();
                    self.end_with(PreviewResult::Error { path, error: msg })
                }
            },
            PreviewEvent::Line(line, n) => {
                if self.phase == PreviewPhase::Skipping {
                    self.current_line = self.current_line + 1;
                    self.read_next()
                } else if self.phase == PreviewPhase::Reading {
                    self.total_bytes = self.total_bytes + n;
                    if is_binary_content(line.as_str()) {
                        let path = self.path.clone();
                        return self.end_with(PreviewResult::Binary { path });
                    }
                    push_str(&mut self.content, line.as_str());
                    self.lines_read = self.lines_read + 1;
                    if self.total_bytes >= MAX_PREVIEW_BYTES {
                        self.after_window()
                    } else if self.lines_read < self.target_lines {
                        PreviewAction::ReadLine { check_cancel: true }
                    } else {
                        self.after_window()
                    }
                } else {
                    PreviewAction::Done(self.finish(n > 0))
                }
            },
        }
    }
}

} // verus!
