//! Merge-conflict blocks: finding `<<<<<<<` / `=======` / `>>>>>>>` regions
//! in a file's lines and replacing one of them by a chosen side.
//!
//! A file is modelled by its lines (`lines_of` of its text); a block by the
//! indices of its three marker lines.
use vstd::prelude::*;
use crate::text::{has_prefix, lines_of, lines_vec, push_chars, starts_with, string_of, strs, sub_chars};

verus! {

broadcast use vstd::string::group_string_axioms;

#[derive(Clone, Copy, Debug, PartialEq, Eq, Structural)]
pub enum ConflictResolution {
    Ours,
    Theirs,
    Both,
}

#[derive(Clone, Debug)]
pub struct ConflictBlock {
    pub ours: Vec<String>,
    pub theirs: Vec<String>,
}

#[derive(Clone, Debug)]
pub struct ConflictFile {
    pub blocks: Vec<ConflictBlock>,
}

/// A block found in the lines: its opening marker, its separator and the
/// line just past its closing marker.
struct ParsedBlock {
    start_line: usize,
    sep_line: usize,
    end_line: usize,
}

/// Marker line positions of a block.
pub struct BlockV {
    pub start: nat,
    pub sep: nat,
    pub end: nat,
}

/// The texts of some character vectors.
pub open spec fn rows(v: Seq<Vec<char>>) -> Seq<Seq<char>> {
    v.map_values(|x: Vec<char>| x@)
}

/// First line at or after `j` that starts with `p`, or `ls.len()`.
pub open spec fn next_marker(ls: Seq<Seq<char>>, j: nat, p: Seq<char>) -> nat
    decreases ls.len() - j,
{
    if j >= ls.len() {
        ls.len()
    } else if has_prefix(ls[j as int], p) {
        j
    } else {
        next_marker(ls, j + 1, p)
    }
}

pub proof fn lemma_next_marker(ls: Seq<Seq<char>>, j: nat, p: Seq<char>)
    ensures
        j <= ls.len() ==> j <= next_marker(ls, j, p),
        next_marker(ls, j, p) <= ls.len(),
        next_marker(ls, j, p) < ls.len() ==> has_prefix(ls[next_marker(ls, j, p) as int], p),
    decreases ls.len() - j,
{
    if j < ls.len() && !has_prefix(ls[j as int], p) {
        lemma_next_marker(ls, j + 1, p);
    }
}

/// The conflict blocks of `ls` from line `i` on. A block opens at a line
/// starting with `<<<<<<<`, is split at the next line starting with `=======`
/// and closes at the next line starting with `>>>>>>>`; scanning resumes after
/// it. An unclosed block ends the scan.
pub open spec fn blocks_from(ls: Seq<Seq<char>>, i: nat) -> Seq<BlockV>
    decreases ls.len() - i,
{
    if i >= ls.len() {
        Seq::empty()
    } else if !has_prefix(ls[i as int], "<<<<<<<"@) {
        blocks_from(ls, i + 1)
    } else {
        let m = next_marker(ls, i + 1, "======="@);
        if m >= ls.len() {
            Seq::empty()
        } else {
            let e = next_marker(ls, m + 1, ">>>>>>>"@);
            if e >= ls.len() {
                Seq::empty()
            } else {
                proof {
                    lemma_next_marker(ls, i + 1, "======="@);
                    lemma_next_marker(ls, m + 1, ">>>>>>>"@);
                }
                seq![BlockV { start: i, sep: m, end: e + 1 }] + blocks_from(ls, e + 1)
            }
        }
    }
}

/// The conflict blocks of a file with lines `ls`.
pub open spec fn conflict_blocks(ls: Seq<Seq<char>>) -> Seq<BlockV> {
    blocks_from(ls, 0)
}

/// Lines of our side of `b`.
pub open spec fn ours_of(ls: Seq<Seq<char>>, b: BlockV) -> Seq<Seq<char>> {
    ls.subrange(b.start + 1 as int, b.sep as int)
}

/// Lines of their side of `b`.
pub open spec fn theirs_of(ls: Seq<Seq<char>>, b: BlockV) -> Seq<Seq<char>> {
    ls.subrange(b.sep + 1 as int, b.end - 1 as int)
}

/// What replaces block `b`: one side, or ours then theirs (with an empty line
/// between them when both are non-empty and ours ends in a non-empty line).
pub open spec fn replacement(ls: Seq<Seq<char>>, b: BlockV, res: ConflictResolution) -> Seq<
    Seq<char>,
> {
    let ours = ours_of(ls, b);
    let theirs = theirs_of(ls, b);
    match res {
        ConflictResolution::Ours => ours,
        ConflictResolution::Theirs => theirs,
        ConflictResolution::Both => ours + (if ours.len() > 0 && theirs.len() > 0 && ours.last().len()
            > 0 {
            seq![Seq::<char>::empty()]
        } else {
            Seq::empty()
        }) + theirs,
    }
}

/// The lines of the file once block `b` is resolved.
pub open spec fn resolved_lines(ls: Seq<Seq<char>>, b: BlockV, res: ConflictResolution) -> Seq<
    Seq<char>,
> {
    ls.take(b.start as int) + replacement(ls, b, res) + ls.skip(b.end as int)
}

/// Lines joined with `\n` between them.
pub open spec fn join_lines(ls: Seq<Seq<char>>) -> Seq<char>
    decreases ls.len(),
{
    if ls.len() == 0 {
        Seq::empty()
    } else if ls.len() == 1 {
        ls[0]
    } else {
        join_lines(ls.drop_last()) + seq!['\n'] + ls.last()
    }
}

/// Every block lies within the lines, its markers in order, and each block
/// ends before the next one starts.
pub open spec fn blocks_well_placed(ls: Seq<Seq<char>>, bs: Seq<BlockV>, from: nat) -> bool {
    &&& forall|k: int|
        0 <= k < bs.len() ==> from <= #[trigger] bs[k].start < bs[k].sep < bs[k].end - 1 < ls.len()
    &&& forall|k: int| 0 <= k < bs.len() - 1 ==> #[trigger] bs[k].end <= bs[k + 1].start
    &&& forall|k: int|
        0 <= k < bs.len() ==> {
            &&& has_prefix(ls[#[trigger] bs[k].start as int], "<<<<<<<"@)
            &&& has_prefix(ls[bs[k].sep as int], "======="@)
            &&& has_prefix(ls[bs[k].end - 1], ">>>>>>>"@)
        }
}

proof fn lemma_blocks_from_placed(ls: Seq<Seq<char>>, i: nat)
    ensures
        blocks_well_placed(ls, blocks_from(ls, i), i),
    decreases ls.len() - i,
{
    if i < ls.len() {
        if !has_prefix(ls[i as int], "<<<<<<<"@) {
            lemma_blocks_from_placed(ls, i + 1);
        } else {
            let m = next_marker(ls, i + 1, "======="@);
            lemma_next_marker(ls, i + 1, "======="@);
            if m < ls.len() {
                let e = next_marker(ls, m + 1, ">>>>>>>"@);
                lemma_next_marker(ls, m + 1, ">>>>>>>"@);
                if e < ls.len() {
                    lemma_blocks_from_placed(ls, e + 1);
                    let rest = blocks_from(ls, e + 1);
                    let bs = blocks_from(ls, i);
                    assert(bs == seq![BlockV { start: i, sep: m, end: e + 1 }] + rest);
                    assert forall|k: int| 0 <= k < bs.len() - 1 implies #[trigger] bs[k].end
                        <= bs[k + 1].start by {
                        if k > 0 {
                            assert(bs[k] == rest[k - 1]);
                            assert(bs[k + 1] == rest[k]);
                        } else {
                            assert(bs[1] == rest[0]);
                        }
                    }
                    assert forall|k: int| 0 <= k < bs.len() implies i <= #[trigger] bs[k].start
                        < bs[k].sep < bs[k].end - 1 < ls.len() by {
                        if k > 0 {
                            assert(bs[k] == rest[k - 1]);
                        }
                    }
                    assert forall|k: int| 0 <= k < bs.len() implies {
                        &&& has_prefix(ls[#[trigger] bs[k].start as int], "<<<<<<<"@)
                        &&& has_prefix(ls[bs[k].sep as int], "======="@)
                        &&& has_prefix(ls[bs[k].end - 1], ">>>>>>>"@)
                    } by {
                        if k > 0 {
                            assert(bs[k] == rest[k - 1]);
                        }
                    }
                }
            }
        }
    }
}

// ---------------------------------------------------------------------------
// Scanning
// ---------------------------------------------------------------------------

/// First line at or after `from` that starts with `p`, or `ls.len()`.
fn find_marker(ls: &Vec<Vec<char>>, from: usize, p: &str) -> (r: usize)
    requires
        from <= ls.len(),
    ensures
        r == next_marker(rows(ls@), from as nat, p@),
        from <= r <= ls.len(),
{
    let mut i = from;
    while i < ls.len() && !starts_with(&ls[i], p)
        invariant
            from <= i <= ls.len(),
            next_marker(rows(ls@), from as nat, p@) == next_marker(rows(ls@), i as nat, p@),
        decreases ls.len() - i,
    {
        i = i + 1;
    }
    i
}

spec fn parsed_v(b: ParsedBlock) -> BlockV {
    BlockV { start: b.start_line as nat, sep: b.sep_line as nat, end: b.end_line as nat }
}

/// The conflict blocks of the lines `ls`.
fn parse_blocks(ls: &Vec<Vec<char>>) -> (r: Vec<ParsedBlock>)
    ensures
        r@.map_values(|b: ParsedBlock| parsed_v(b)) == conflict_blocks(rows(ls@)),
{
    let ghost full = conflict_blocks(rows(ls@));
    let mut blocks: Vec<ParsedBlock> = Vec::new();
    let mut i: usize = 0;
    assert(blocks@.map_values(|b: ParsedBlock| parsed_v(b)) == Seq::<BlockV>::empty());
    while i < ls.len()
        invariant
            i <= ls.len(),
            full == conflict_blocks(rows(ls@)),
            blocks@.map_values(|b: ParsedBlock| parsed_v(b)) + blocks_from(rows(ls@), i as nat)
                == full,
        decreases ls.len() - i,
    {
        if !starts_with(&ls[i], "<<<<<<<") {
            i = i + 1;
        } else {
            let start = i;
            let m = find_marker(ls, i + 1, "=======");
            if m >= ls.len() {
                assert(blocks_from(rows(ls@), i as nat) == Seq::<BlockV>::empty());
                assert(blocks@.map_values(|b: ParsedBlock| parsed_v(b)) + Seq::<BlockV>::empty()
                    == blocks@.map_values(|b: ParsedBlock| parsed_v(b)));
                return blocks;
            }
            let e = find_marker(ls, m + 1, ">>>>>>>");
            if e >= ls.len() {
                assert(blocks_from(rows(ls@), i as nat) == Seq::<BlockV>::empty());
                assert(blocks@.map_values(|b: ParsedBlock| parsed_v(b)) + Seq::<BlockV>::empty()
                    == blocks@.map_values(|b: ParsedBlock| parsed_v(b)));
                return blocks;
            }
            let ghost before = blocks@.map_values(|b: ParsedBlock| parsed_v(b));
            let b = ParsedBlock { start_line: start, sep_line: m, end_line: e + 1 };
            blocks.push(b);
            assert(blocks@.map_values(|b: ParsedBlock| parsed_v(b)) == before.push(parsed_v(b)));
            assert(blocks_from(rows(ls@), i as nat) == seq![parsed_v(b)] + blocks_from(
                rows(ls@),
                (e + 1) as nat,
            ));
            assert(before + (seq![parsed_v(b)] + blocks_from(rows(ls@), (e + 1) as nat))
                == before.push(parsed_v(b)) + blocks_from(rows(ls@), (e + 1) as nat));
            i = e + 1;
        }
    }
    assert(blocks_from(rows(ls@), i as nat) == Seq::<BlockV>::empty());
    assert(blocks@.map_values(|b: ParsedBlock| parsed_v(b)) + Seq::<BlockV>::empty()
        == blocks@.map_values(|b: ParsedBlock| parsed_v(b)));
    blocks
}

/// The lines `ls[lo..hi]` as strings.
fn to_strings(ls: &Vec<Vec<char>>, lo: usize, hi: usize) -> (r: Vec<String>)
    requires
        lo <= hi <= ls.len(),
    ensures
        strs(r@) == rows(ls@).subrange(lo as int, hi as int),
{
    let mut r: Vec<String> = Vec::new();
    let mut i = lo;
    while i < hi
        invariant
            lo <= i <= hi <= ls.len(),
            strs(r@) == rows(ls@).subrange(lo as int, i as int),
        decreases hi - i,
    {
        let s = string_of(&ls[i]);
        let ghost before = r@;
        r.push(s);
        assert(strs(r@) == strs(before).push(s@));
        assert(rows(ls@).subrange(lo as int, i + 1) == rows(ls@).subrange(lo as int, i as int).push(
            ls@[i as int]@,
        ));
        i = i + 1;
    }
    r
}

/// The lines `src[lo..hi]` appended to `out`.
fn extend_rows(out: &mut Vec<Vec<char>>, src: &Vec<Vec<char>>, lo: usize, hi: usize)
    requires
        lo <= hi <= src.len(),
    ensures
        rows(final(out)@) == rows(old(out)@) + rows(src@).subrange(lo as int, hi as int),
{
    let mut i = lo;
    while i < hi
        invariant
            lo <= i <= hi <= src.len(),
            rows(out@) == rows(old(out)@) + rows(src@).subrange(lo as int, i as int),
        decreases hi - i,
    {
        let line = sub_chars(&src[i], 0, src[i].len());
        assert(src@[i as int]@.subrange(0, src@[i as int]@.len() as int) == src@[i as int]@);
        let ghost before = out@;
        out.push(line);
        assert(rows(out@) == rows(before).push(line@));
        assert(rows(src@).subrange(lo as int, i + 1) == rows(src@).subrange(lo as int, i as int).push(
            src@[i as int]@,
        ));
        i = i + 1;
    }
}

/// The lines joined with `\n`.
fn join_rows(v: &Vec<Vec<char>>) -> (r: String)
    ensures
        r@ == join_lines(rows(v@)),
{
    let mut r = String::new();
    let mut i: usize = 0;
    while i < v.len()
        invariant
            i <= v.len(),
            r@ == join_lines(rows(v@).take(i as int)),
        decreases v.len() - i,
    {
        assert(rows(v@).take(i + 1).drop_last() == rows(v@).take(i as int));
        if i > 0 {
            r.push('\n');
        }
        push_chars(&mut r, &v[i]);
        i = i + 1;
    }
    assert(rows(v@).take(v@.len() as int) == rows(v@));
    r
}

// ---------------------------------------------------------------------------
// Public operations
// ---------------------------------------------------------------------------

/// The conflict blocks of a file whose text is `text`.
pub fn load_conflicts(text: &str) -> (r: ConflictFile)
    ensures
        r.blocks.len() == conflict_blocks(lines_of(text@)).len(),
        forall|k: int|
            0 <= k < r.blocks.len() ==> {
                let b = #[trigger] conflict_blocks(lines_of(text@))[k];
                &&& strs(r.blocks[k].ours@) == ours_of(lines_of(text@), b)
                &&& strs(r.blocks[k].theirs@) == theirs_of(lines_of(text@), b)
            },
{
    let ls = lines_vec(text);
    let parsed = parse_blocks(&ls);
    let ghost bs = conflict_blocks(rows(ls@));
    proof {
        lemma_blocks_from_placed(rows(ls@), 0);
    }
    let mut blocks: Vec<ConflictBlock> = Vec::new();
    let mut k: usize = 0;
    while k < parsed.len()
        invariant
            k <= parsed.len(),
            rows(ls@) == lines_of(text@),
            bs == conflict_blocks(rows(ls@)),
            parsed@.map_values(|b: ParsedBlock| parsed_v(b)) == bs,
            blocks_well_placed(rows(ls@), bs, 0),
            blocks.len() == k,
            forall|j: int|
                0 <= j < k ==> {
                    &&& strs(blocks[j].ours@) == ours_of(rows(ls@), #[trigger] bs[j])
                    &&& strs(blocks[j].theirs@) == theirs_of(rows(ls@), bs[j])
                },
        decreases parsed.len() - k,
    {
        let p = &parsed[k];
        assert(parsed_v(*p) == bs[k as int]);
        assert(bs[k as int].start < bs[k as int].sep < bs[k as int].end - 1 < rows(ls@).len());
        let ours = to_strings(&ls, p.start_line + 1, p.sep_line);
        let theirs = to_strings(&ls, p.sep_line + 1, p.end_line - 1);
        blocks.push(ConflictBlock { ours, theirs });
        k = k + 1;
    }
    ConflictFile { blocks }
}

/// The text of the file once block `block_index` is resolved by `resolution`,
/// its lines joined with `\n`; an error when there is no such block.
pub fn apply_conflict_resolution(
    text: &str,
    block_index: usize,
    resolution: ConflictResolution,
) -> (r: Result<String, String>)
    ensures
        block_index >= conflict_blocks(lines_of(text@)).len() <==> r is Err,
        r is Err ==> r->Err_0@ == "Conflict block not found"@,
        r is Ok ==> r->Ok_0@ == join_lines(
            resolved_lines(
                lines_of(text@),
                conflict_blocks(lines_of(text@))[block_index as int],
                resolution,
            ),
        ),
{
    let ls = lines_vec(text);
    let parsed = parse_blocks(&ls);
    let ghost bs = conflict_blocks(rows(ls@));
    proof {
        lemma_blocks_from_placed(rows(ls@), 0);
    }
    if block_index >= parsed.len() {
        return Err("Conflict block not found".to_owned());
    }
    let target = &parsed[block_index];
    let ghost b = bs[block_index as int];
    assert(parsed_v(*target) == b);
    assert(b.start < b.sep < b.end - 1 < rows(ls@).len());
    let ghost lsv = rows(ls@);
    let mut out: Vec<Vec<char>> = Vec::new();
    extend_rows(&mut out, &ls, 0, target.start_line);
    let ours_lo = target.start_line + 1;
    let theirs_lo = target.sep_line + 1;
    let theirs_hi = target.end_line - 1;
    match resolution {
        ConflictResolution::Ours => {
            extend_rows(&mut out, &ls, ours_lo, target.sep_line);
        },
        ConflictResolution::Theirs => {
            extend_rows(&mut out, &ls, theirs_lo, theirs_hi);
        },
        ConflictResolution::Both => {
            extend_rows(&mut out, &ls, ours_lo, target.sep_line);
            if ours_lo < target.sep_line && theirs_lo < theirs_hi {
                if ls[target.sep_line - 1].len() > 0 {
                    let ghost before = out@;
                    out.push(Vec::new());
                    assert(rows(out@) == rows(before).push(Seq::<char>::empty()));
                }
            }
            extend_rows(&mut out, &ls, theirs_lo, theirs_hi);
        },
    }
    extend_rows(&mut out, &ls, target.end_line, ls.len());
    proof {
        assert(lsv.subrange(0, b.start as int) == lsv.take(b.start as int));
        assert(lsv.subrange(b.end as int, lsv.len() as int) == lsv.skip(b.end as int));
        let ours = ours_of(lsv, b);
        if ours.len() > 0 {
            assert(ours.last() == lsv[b.sep - 1]);
        }
        assert(rows(out@) == resolved_lines(lsv, b, resolution));
    }
    Ok(join_rows(&out))
}

// ---------------------------------------------------------------------------
// Laws
// ---------------------------------------------------------------------------

/// The blocks found in a file lie within it in order, do not overlap, and each
/// one's marker lines carry the three markers.
pub proof fn law_blocks_ordered(ls: Seq<Seq<char>>)
    ensures
        blocks_well_placed(ls, conflict_blocks(ls), 0),
{
    lemma_blocks_from_placed(ls, 0);
}

/// Resolving a block keeps every line before its opening marker and every
/// line after its closing marker, and puts the chosen side in between.
pub proof fn law_resolution_keeps_rest(ls: Seq<Seq<char>>, k: int, res: ConflictResolution)
    requires
        0 <= k < conflict_blocks(ls).len(),
    ensures
        ({
            let b = conflict_blocks(ls)[k];
            let out = resolved_lines(ls, b, res);
            &&& out.take(b.start as int) == ls.take(b.start as int)
            &&& out.skip(out.len() - (ls.len() - b.end)) == ls.skip(b.end as int)
            &&& res == ConflictResolution::Ours ==> out.subrange(
                b.start as int,
                out.len() - (ls.len() - b.end),
            ) == ours_of(ls, b)
            &&& res == ConflictResolution::Theirs ==> out.subrange(
                b.start as int,
                out.len() - (ls.len() - b.end),
            ) == theirs_of(ls, b)
        }),
{
    lemma_blocks_from_placed(ls, 0);
    let b = conflict_blocks(ls)[k];
    let out = resolved_lines(ls, b, res);
    let r = replacement(ls, b, res);
    assert(out.take(b.start as int) =~= ls.take(b.start as int));
    assert(out.skip(out.len() - (ls.len() - b.end)) =~= ls.skip(b.end as int));
    assert(out.subrange(b.start as int, out.len() - (ls.len() - b.end)) =~= r);
}

// ---------------------------------------------------------------------------
// The conflict view
// ---------------------------------------------------------------------------

/// The conflict view of the git panel: the conflicted file shown (by
/// path), its blocks once read, the block selected and the scroll.
pub struct ConflictUi {
    pub path: Option<String>,
    pub file: Option<ConflictFile>,
    pub selected_block: usize,
    pub scroll_y: u16,
}

/// What the conflict view needs for the selected entry.
pub enum ConflictLoad {
    /// Nothing to show: the view empties.
    Reset,
    /// The file shown is the one selected, already read.
    Keep,
    /// Read the conflicted file at this path (relative to the repository).
    Read(String),
}

impl ConflictUi {
    /// Whether the view shows the file at `p`, already read.
    pub open spec fn shows(&self, p: Seq<char>) -> bool {
        match self.path {
            Some(q) => q@ == p && self.file is Some,
            None => false,
        }
    }

    /// An empty view.
    pub fn new() -> (r: ConflictUi)
        ensures
            r.path is None,
            r.file is None,
            r.selected_block == 0,
            r.scroll_y == 0,
    {
        ConflictUi { path: None, file: None, selected_block: 0, scroll_y: 0 }
    }

    /// Empties the view.
    pub fn reset(&mut self)
        ensures
            final(self).path is None,
            final(self).file is None,
            final(self).selected_block == 0,
            final(self).scroll_y == 0,
    {
        self.path = None;
        self.file = None;
        self.selected_block = 0;
        self.scroll_y = 0;
    }

    /// What the view needs for the selected entry `selected` (`path`, and
    /// whether it is a conflict): no conflict or no repository empties the
    /// view; the file already read is kept; another is read.
    pub fn needed(&self, selected: Option<(&str, bool)>, has_repo: bool) -> (r: ConflictLoad)
        ensures
            match r {
                ConflictLoad::Reset => match selected {
                    None => true,
                    Some(x) => !x.1 || (!self.shows(x.0@) && !has_repo),
                },
                ConflictLoad::Keep => match selected {
                    None => false,
                    Some(x) => x.1 && self.shows(x.0@),
                },
                ConflictLoad::Read(p) => match selected {
                    None => false,
                    Some(x) => x.1 && p@ == x.0@ && has_repo && !self.shows(x.0@),
                },
            },
    {
        let (p, c) = match selected {
            None => {
                return ConflictLoad::Reset;
            },
            Some(x) => x,
        };
        if !c {
            return ConflictLoad::Reset;
        }
        let same = match &self.path {
            Some(q) => crate::text::str_eq(q.as_str(), p),
            None => false,
        };
        if same && self.file.is_some() {
            return ConflictLoad::Keep;
        }
        if !has_repo {
            return ConflictLoad::Reset;
        }
        let mut s = String::new();
        crate::text::push_str(&mut s, p);
        ConflictLoad::Read(s)
    }

    /// Shows the conflicted file at `path` as read (`Ok`) or not (`Err`,
    /// which is handed back for the status line): the first block, at the
    /// top.
    pub fn loaded(&mut self, path: String, result: Result<ConflictFile, String>) -> (err: Option<String>)
        ensures
            final(self).path == Some(path),
            final(self).selected_block == 0,
            final(self).scroll_y == 0,
            match result {
                Ok(f) => final(self).file == Some(f) && err is None,
                Err(e) => final(self).file is None && err == Some(e),
            },
    {
        self.path = Some(path);
        self.selected_block = 0;
        self.scroll_y = 0;
        match result {
            Ok(f) => {
                self.file = Some(f);
                None
            },
            Err(e) => {
                self.file = None;
                Some(e)
            },
        }
    }

    /// Moves the selected block by `delta`, stopping at either end, back at
    /// the top. Without a file read, or without blocks, the status that
    /// says so comes back and nothing moves.
    pub fn change_block(&mut self, delta: i32) -> (status: Option<String>)
        requires
            old(self).selected_block <= i32::MAX,
            i32::MIN <= old(self).selected_block + delta <= i32::MAX,
            old(self).file matches Some(f) ==> f.blocks@.len() <= 0x8000_0000,
        ensures
            match old(self).file {
                None => status matches Some(s) && s@ == "No conflicts loaded"@ && final(self).selected_block
                    == old(self).selected_block && final(self).scroll_y == old(self).scroll_y,
                Some(f) => if f.blocks@.len() == 0 {
                    status matches Some(s) && s@ == "No conflict markers found"@
                        && final(self).selected_block == old(self).selected_block
                        && final(self).scroll_y == old(self).scroll_y
                } else {
                    &&& status is None
                    &&& final(self).selected_block as int == crate::ranking::moved_selection(
                        f.blocks@.len(),
                        Some(old(self).selected_block),
                        delta as int,
                    ).unwrap() as int
                    &&& final(self).scroll_y == 0
                },
            },
            final(self).file == old(self).file,
            final(self).path == old(self).path,
    {
        let n = match &self.file {
            None => {
                return Some("No conflicts loaded".to_owned());
            },
            Some(f) => f.blocks.len(),
        };
        if n == 0 {
            return Some("No conflict markers found".to_owned());
        }
        let next = crate::ranking::move_in_list(n, Some(self.selected_block), delta);
        match next {
            Some(k) => {
                self.selected_block = k;
            },
            None => {},
        }
        self.scroll_y = 0;
        None
    }
}

} // verus!
