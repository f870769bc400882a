//! The stash and author pickers: a query, the entries that match it best
//! first, and the selected row.
use vstd::prelude::*;
use crate::git::{insert_name, lemma_insert_name_at};
use crate::git_ops::{CommitEntry, StashEntry};
use crate::search::{query_tokens, split_query_tokens};
use crate::ranking::{
    entry_at, entry_on_row, filter_rank, keep_selection, move_in_list, moved_selection, rank_texts,
    reselect,
};
use crate::text::{
    chars_of, has_prefix, is_whitespace, is_ws, lowercase, push_str, str_eq, str_lt, str_starts_with, strs,
    text_lt, to_lowercase, trim, trim_string, words,
};

verus! {

/// The tokens of a picker query: the words of the query trimmed and
/// lower-cased.
pub open spec fn query_words(query: Seq<char>) -> Seq<Seq<char>> {
    words(lowercase(trim(query)))
}

/// The tokens of a picker query (see `query_words`).
pub fn picker_tokens(query: &str) -> (r: Vec<String>)
    ensures
        strs(r@) == query_words(query@),
{
    let t = trim_string(query);
    let l = to_lowercase(t.as_str());
    let v = chars_of(l.as_str());
    let r = crate::text::words_of(&v, 0, v.len());
    assert(v@.subrange(0, v@.len() as int) == v@);
    r
}

/// What a stash is searched by: its selector and subject.
pub open spec fn stash_text(e: StashEntry) -> Seq<char> {
    e.selector@ + seq![' '] + e.subject@
}

pub open spec fn stash_texts(es: Seq<StashEntry>) -> Seq<Seq<char>> {
    es.map_values(|e: StashEntry| stash_text(e))
}

fn stash_text_of(e: &StashEntry) -> (r: String)
    ensures
        r@ == stash_text(*e),
{
    let mut t = e.selector.clone();
    t.push(' ');
    crate::text::push_str(&mut t, e.subject.as_str());
    t
}

fn texts_of_stashes(es: &Vec<StashEntry>) -> (r: Vec<String>)
    ensures
        strs(r@) == stash_texts(es@),
{
    let mut r: Vec<String> = Vec::new();
    let mut i: usize = 0;
    while i < es.len()
        invariant
            i <= es.len(),
            strs(r@) == stash_texts(es@).take(i as int),
        decreases es.len() - i,
    {
        let ghost before = r@;
        r.push(stash_text_of(&es[i]));
        assert(strs(r@) == strs(before).push(stash_text(es@[i as int])));
        i = i + 1;
        assert(stash_texts(es@).take(i as int) == stash_texts(es@).take(i - 1).push(
            stash_text(es@[i - 1]),
        ));
    }
    assert(stash_texts(es@).take(es@.len() as int) == stash_texts(es@));
    r
}

#[derive(Clone, Copy, Debug, PartialEq, Eq, Structural)]
pub enum StashConfirmAction {
    Pop,
    Drop,
}

/// The stash picker.
pub struct StashUi {
    pub open: bool,
    pub query: String,
    pub stashes: Vec<StashEntry>,
    pub filtered: Vec<usize>,
    pub selected: Option<usize>,
    pub confirm: Option<(StashConfirmAction, String)>,
    pub status: Option<String>,
}

impl StashUi {
    /// A closed picker with nothing in it.
    pub fn new() -> (r: StashUi)
        ensures
            !r.open,
            r.query@.len() == 0,
            r.stashes@.len() == 0,
            r.filtered@.len() == 0,
            r.selected is None,
            r.confirm is None,
            r.status is None,
    {
        StashUi {
            open: false,
            query: String::new(),
            stashes: Vec::new(),
            filtered: Vec::new(),
            selected: None,
            confirm: None,
            status: None,
        }
    }

    /// The stash on the selected row.
    pub fn selected_stash(&self) -> (r: Option<&StashEntry>)
        ensures
            match entry_at(self.filtered@, self.selected) {
                Some(i) => if i < self.stashes@.len() {
                    r == Some(&self.stashes@[i as int])
                } else {
                    r is None
                },
                None => r is None,
            },
    {
        match entry_on_row(&self.filtered, self.selected) {
            Some(i) => if i < self.stashes.len() {
                Some(&self.stashes[i])
            } else {
                None
            },
            None => None,
        }
    }

    /// Lists the stashes matching the query, best first, keeping the
    /// selected stash selected when it is still listed.
    pub fn update_filtered(&mut self)
        ensures
            final(self).filtered@ == filter_rank(
                stash_texts(old(self).stashes@),
                query_words(old(self).query@),
            ),
            final(self).selected == keep_selection(
                final(self).filtered@,
                entry_at(old(self).filtered@, old(self).selected),
            ),
            final(self).stashes@ == old(self).stashes@,
            final(self).query@ == old(self).query@,
            final(self).open == old(self).open,
            final(self).confirm == old(self).confirm,
            final(self).status == old(self).status,
    {
        let prev = entry_on_row(&self.filtered, self.selected);
        let toks = picker_tokens(self.query.as_str());
        let texts = texts_of_stashes(&self.stashes);
        self.filtered = rank_texts(&texts, &toks);
        self.selected = reselect(&self.filtered, prev);
    }

    /// Moves the selection by `delta` rows, staying on the list.
    pub fn move_selection(&mut self, delta: i32)
        requires
            old(self).filtered@.len() <= 0x8000_0000,
            ({
                let cur: int = match old(self).selected {
                    Some(s) => s as int,
                    None => 0,
                };
                cur <= i32::MAX && i32::MIN <= cur + delta <= i32::MAX
            }),
        ensures
            final(self).selected == moved_selection(
                old(self).filtered@.len(),
                old(self).selected,
                delta as int,
            ),
            final(self).filtered@ == old(self).filtered@,
            final(self).stashes@ == old(self).stashes@,
            final(self).query@ == old(self).query@,
    {
        self.selected = move_in_list(self.filtered.len(), self.selected, delta);
    }
}

/// What is done to a stash.
#[derive(Clone, Copy, Debug, PartialEq, Eq, Structural)]
pub enum StashOp {
    Apply,
    Pop,
    Drop,
}

/// The command that does `op` to the stash `selector`.
pub open spec fn stash_cmd(op: StashOp, selector: Seq<char>) -> Seq<char> {
    match op {
        StashOp::Apply => "git stash apply "@ + selector,
        StashOp::Pop => "git stash pop "@ + selector,
        StashOp::Drop => "git stash drop "@ + selector,
    }
}

/// The command that does `op` to the stash `selector`.
pub fn stash_command(op: StashOp, selector: &str) -> (r: String)
    ensures
        r@ == stash_cmd(op, selector@),
{
    let mut s = String::new();
    match op {
        StashOp::Apply => crate::text::push_str(&mut s, "git stash apply "),
        StashOp::Pop => crate::text::push_str(&mut s, "git stash pop "),
        StashOp::Drop => crate::text::push_str(&mut s, "git stash drop "),
    }
    crate::text::push_str(&mut s, selector);
    s
}

/// The stash operation a confirmation stands for.
pub open spec fn confirmed_op(a: StashConfirmAction) -> StashOp {
    match a {
        StashConfirmAction::Pop => StashOp::Pop,
        StashConfirmAction::Drop => StashOp::Drop,
    }
}

impl StashUi {
    /// Opens the picker on `stashes`: no query, no status, no confirmation,
    /// the stashes listed.
    pub fn open_with(&mut self, stashes: Vec<StashEntry>)
        ensures
            final(self).open,
            final(self).query@.len() == 0,
            final(self).status is None,
            final(self).confirm is None,
            final(self).stashes@ == stashes@,
            final(self).filtered@ == filter_rank(stash_texts(stashes@), query_words(Seq::empty())),
    {
        self.open = true;
        self.query = String::new();
        self.status = None;
        self.confirm = None;
        self.stashes = stashes;
        assert(self.query@ == Seq::<char>::empty());
        self.update_filtered();
    }

    /// Closes and empties the picker.
    pub fn close(&mut self)
        ensures
            !final(self).open,
            final(self).query@.len() == 0,
            final(self).stashes@.len() == 0,
            final(self).filtered@.len() == 0,
            final(self).selected is None,
            final(self).confirm is None,
            final(self).status is None,
    {
        self.open = false;
        self.query = String::new();
        self.stashes = Vec::new();
        self.filtered = Vec::new();
        self.selected = None;
        self.confirm = None;
        self.status = None;
    }

    /// Shows `msg` in the picker when it is open; else hands it back for
    /// the status line.
    pub fn note(&mut self, msg: String) -> (r: Option<String>)
        ensures
            old(self).open ==> final(self).status == Some(msg) && r is None,
            !old(self).open ==> final(self).status == old(self).status && r == Some(msg),
            final(self).open == old(self).open,
            final(self).selected == old(self).selected,
    {
        if self.open {
            self.status = Some(msg);
            None
        } else {
            Some(msg)
        }
    }
}

/// Why a stash command cannot run now, if it cannot: another job runs, or
/// there is no repository.
pub fn stash_blocked(busy: bool, has_repo: bool) -> (r: Option<String>)
    ensures
        busy ==> (r matches Some(s) && s@ == "Busy"@),
        !busy && !has_repo ==> (r matches Some(s) && s@ == "Not a git repository"@),
        !busy && has_repo ==> r is None,
{
    if busy {
        Some("Busy".to_owned())
    } else if !has_repo {
        Some("Not a git repository".to_owned())
    } else {
        None
    }
}

/// The author picker.
pub struct AuthorUi {
    pub open: bool,
    pub query: String,
    pub authors: Vec<String>,
    pub filtered: Vec<usize>,
    pub selected: Option<usize>,
    pub status: Option<String>,
}

impl AuthorUi {
    /// A closed picker with nothing in it.
    pub fn new() -> (r: AuthorUi)
        ensures
            !r.open,
            r.query@.len() == 0,
            r.authors@.len() == 0,
            r.filtered@.len() == 0,
            r.selected is None,
            r.status is None,
    {
        AuthorUi {
            open: false,
            query: String::new(),
            authors: Vec::new(),
            filtered: Vec::new(),
            selected: None,
            status: None,
        }
    }

    /// Replaces the authors, clears the query and lists them all.
    pub fn set_authors(&mut self, authors: Vec<String>)
        ensures
            final(self).authors@ == authors@,
            final(self).query@.len() == 0,
            final(self).filtered@ == filter_rank(strs(authors@), query_words(Seq::empty())),
            final(self).selected == keep_selection(
                final(self).filtered@,
                entry_at(old(self).filtered@, old(self).selected),
            ),
            final(self).open == old(self).open,
            final(self).status == old(self).status,
    {
        self.query = String::new();
        self.authors = authors;
        self.update_filtered();
    }

    /// The author on the selected row.
    pub fn selected_author(&self) -> (r: Option<&str>)
        ensures
            match entry_at(self.filtered@, self.selected) {
                Some(i) => if i < self.authors@.len() {
                    r matches Some(a) && a@ == self.authors@[i as int]@
                } else {
                    r is None
                },
                None => r is None,
            },
    {
        match entry_on_row(&self.filtered, self.selected) {
            Some(i) => if i < self.authors.len() {
                Some(self.authors[i].as_str())
            } else {
                None
            },
            None => None,
        }
    }

    /// Lists the authors matching the query, best first, keeping the
    /// selected author selected when still listed.
    pub fn update_filtered(&mut self)
        ensures
            final(self).filtered@ == filter_rank(
                strs(old(self).authors@),
                query_words(old(self).query@),
            ),
            final(self).selected == keep_selection(
                final(self).filtered@,
                entry_at(old(self).filtered@, old(self).selected),
            ),
            final(self).authors@ == old(self).authors@,
            final(self).query@ == old(self).query@,
            final(self).open == old(self).open,
            final(self).status == old(self).status,
    {
        let prev = entry_on_row(&self.filtered, self.selected);
        let toks = picker_tokens(self.query.as_str());
        self.filtered = rank_texts(&self.authors, &toks);
        self.selected = reselect(&self.filtered, prev);
    }

    /// Moves the selection by `delta` rows, staying on the list.
    pub fn move_selection(&mut self, delta: i32)
        requires
            old(self).filtered@.len() <= 0x8000_0000,
            ({
                let cur: int = match old(self).selected {
                    Some(s) => s as int,
                    None => 0,
                };
                cur <= i32::MAX && i32::MIN <= cur + delta <= i32::MAX
            }),
        ensures
            final(self).selected == moved_selection(
                old(self).filtered@.len(),
                old(self).selected,
                delta as int,
            ),
            final(self).filtered@ == old(self).filtered@,
            final(self).authors@ == old(self).authors@,
            final(self).query@ == old(self).query@,
    {
        self.selected = move_in_list(self.filtered.len(), self.selected, delta);
    }
}

// ---------------------------------------------------------------------------
// Filtering the log by an author
// ---------------------------------------------------------------------------

/// The filter token for `author`: `@` and the name, quoted when it holds
/// whitespace.
pub open spec fn author_token(author: Seq<char>) -> Seq<char> {
    if exists|i: int| 0 <= i < author.len() && is_ws(#[trigger] author[i]) {
        "@\""@ + author + "\""@
    } else {
        "@"@ + author
    }
}

/// Whether a (trimmed) filter token names an author.
pub open spec fn is_author_token(t: Seq<char>) -> bool {
    has_prefix(t, "@"@) || has_prefix(t, "author:"@) || has_prefix(t, "a:"@)
}

/// The tokens of `ts`, trimmed, without those naming an author.
pub open spec fn non_author_tokens(ts: Seq<Seq<char>>) -> Seq<Seq<char>>
    decreases ts.len(),
{
    if ts.len() == 0 {
        Seq::empty()
    } else {
        let r = non_author_tokens(ts.drop_last());
        let t = trim(ts.last());
        if is_author_token(t) {
            r
        } else {
            r.push(t)
        }
    }
}

/// The texts of `ts` joined by single spaces.
pub open spec fn spaced(ts: Seq<Seq<char>>) -> Seq<char>
    decreases ts.len(),
{
    if ts.len() == 0 {
        Seq::empty()
    } else if ts.len() == 1 {
        ts[0]
    } else {
        spaced(ts.drop_last()) + " "@ + ts.last()
    }
}

/// The filter `query` set to show `author`'s commits: its tokens, trimmed,
/// without those naming an author, then the author's token, joined by
/// spaces.
pub open spec fn with_author_spec(query: Seq<char>, author: Seq<char>) -> Seq<char> {
    spaced(non_author_tokens(query_tokens(query)).push(author_token(author)))
}

/// The filter `query` set to show `author`'s commits (see
/// `with_author_spec`).
pub fn with_author_filter(query: &str, author: &str) -> (r: String)
    ensures
        r@ == with_author_spec(query@, author@),
{
    let tokens = split_query_tokens(query);
    let ghost ts = query_tokens(query@);
    let mut kept: Vec<String> = Vec::new();
    let mut i: usize = 0;
    while i < tokens.len()
        invariant
            i <= tokens.len(),
            strs(tokens@) == ts,
            strs(kept@) == non_author_tokens(ts.take(i as int)),
        decreases tokens.len() - i,
    {
        assert(ts.take(i + 1).drop_last() == ts.take(i as int));
        let t = trim_string(tokens[i].as_str());
        let skip = str_starts_with(t.as_str(), "@") || str_starts_with(t.as_str(), "author:")
            || str_starts_with(t.as_str(), "a:");
        if !skip {
            let ghost before = kept@;
            kept.push(t);
            assert(strs(kept@) == strs(before).push(trim(ts[i as int])));
        }
        i = i + 1;
    }
    assert(ts.take(ts.len() as int) == ts);
    let av = chars_of(author);
    let mut has_ws = false;
    let mut j: usize = 0;
    while j < av.len()
        invariant
            j <= av.len(),
            av@ == author@,
            has_ws == exists|k: int| 0 <= k < j && is_ws(#[trigger] av@[k]),
        decreases av.len() - j,
    {
        if is_whitespace(av[j]) {
            has_ws = true;
        }
        j = j + 1;
    }
    let mut tok = String::new();
    if has_ws {
        push_str(&mut tok, "@\"");
        push_str(&mut tok, author);
        push_str(&mut tok, "\"");
    } else {
        push_str(&mut tok, "@");
        push_str(&mut tok, author);
    }
    let ghost before = kept@;
    kept.push(tok);
    assert(strs(kept@) == strs(before).push(author_token(author@)));
    let mut out = String::new();
    let mut k: usize = 0;
    while k < kept.len()
        invariant
            k <= kept.len(),
            out@ == spaced(strs(kept@).take(k as int)),
        decreases kept.len() - k,
    {
        let ghost ks = strs(kept@);
        let ghost prev = out@;
        assert(ks.take(k + 1).drop_last() == ks.take(k as int));
        assert(ks.take(k + 1).last() == kept@[k as int]@);
        if k > 0 {
            out.push(' ');
        }
        push_str(&mut out, kept[k].as_str());
        proof {
            if k == 0 {
                assert(prev == Seq::<char>::empty());
                assert(out@ == kept@[0]@);
            } else {
                assert(out@ == prev + " "@ + kept@[k as int]@) by {
                    reveal_strlit(" ");
                    assert(prev.push(' ') == prev + " "@);
                }
            }
        }
        k = k + 1;
    }
    assert(strs(kept@).take(kept@.len() as int) == strs(kept@));
    out
}

/// The authors of `history`: each name trimmed, blank ones left out,
/// sorted, without repeats.
pub open spec fn history_authors_spec(history: Seq<CommitEntry>) -> Seq<Seq<char>>
    decreases history.len(),
{
    if history.len() == 0 {
        Seq::empty()
    } else {
        let r = history_authors_spec(history.drop_last());
        let a = trim(history.last().author@);
        if a.len() == 0 {
            r
        } else {
            insert_name(r, a)
        }
    }
}

/// The authors the author picker offers (see `history_authors_spec`).
pub fn history_authors(history: &Vec<CommitEntry>) -> (r: Vec<String>)
    ensures
        strs(r@) == history_authors_spec(history@),
{
    let mut names: Vec<String> = Vec::new();
    let mut i: usize = 0;
    while i < history.len()
        invariant
            i <= history.len(),
            strs(names@) == history_authors_spec(history@.take(i as int)),
        decreases history.len() - i,
    {
        assert(history@.take(i + 1).drop_last() == history@.take(i as int));
        let a = trim_string(history[i].author.as_str());
        if a.as_str().unicode_len() > 0 {
            insert_text_unique(&mut names, a);
        }
        i = i + 1;
    }
    assert(history@.take(history@.len() as int) == history@);
    names
}

/// Inserts `d` into the sorted `names` unless it is there.
fn insert_text_unique(names: &mut Vec<String>, d: String)
    ensures
        strs(final(names)@) == insert_name(strs(old(names)@), d@),
{
    let ghost ns = strs(names@);
    let mut p: usize = 0;
    while p < names.len() && !str_eq(names[p].as_str(), d.as_str()) && !str_lt(d.as_str(), names[p].as_str())
        invariant
            p <= names.len(),
            names@ == old(names)@,
            ns == strs(names@),
            forall|j: int| 0 <= j < p ==> ns[j] != d@ && !text_lt(d@, #[trigger] ns[j]),
        decreases names.len() - p,
    {
        p = p + 1;
    }
    proof {
        lemma_insert_name_at(ns, d@, p as int);
    }
    if p < names.len() && str_eq(names[p].as_str(), d.as_str()) {
        return;
    }
    let ghost dv = d@;
    names.insert(p, d);
    assert(strs(names@) =~= ns.take(p as int) + seq![dv] + ns.skip(p as int));
}

} // verus!
