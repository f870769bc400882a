//! Branches: the entries listed by `git for-each-ref` and the branch picker.
use vstd::prelude::*;
use crate::text::{chars_of, index_of, lowercase, str_lt, text_lt, to_lowercase, trim, trim_string, utf8_bytes};

verus! {

#[derive(Clone, Debug)]
pub struct BranchEntry {
    pub name: String,
    pub is_current: bool,
    pub is_remote: bool,
    pub upstream: Option<String>,
    pub track: Option<String>,
}

/// What a branch entry holds, as plain values.
pub struct BranchV {
    pub name: Seq<char>,
    pub is_current: bool,
    pub is_remote: bool,
    pub upstream: Option<Seq<char>>,
    pub track: Option<Seq<char>>,
}

pub open spec fn opt_text(o: Option<String>) -> Option<Seq<char>> {
    match o {
        Some(s) => Some(s@),
        None => None,
    }
}

impl BranchEntry {
    pub open spec fn view_v(&self) -> BranchV {
        BranchV {
            name: self.name@,
            is_current: self.is_current,
            is_remote: self.is_remote,
            upstream: opt_text(self.upstream),
            track: opt_text(self.track),
        }
    }
}

#[derive(Clone, Debug)]
pub enum BranchListItem {
    Header(String),
    Branch { idx: usize, depth: usize },
}

/// The branch picker: the branches, the list shown for the query (headers
/// and branches), and the selected row.
#[derive(Clone, Debug)]
pub struct BranchUi {
    pub open: bool,
    pub query: String,
    pub branches: Vec<BranchEntry>,
    pub items: Vec<BranchListItem>,
    pub selected: Option<usize>,
    pub confirm_checkout: Option<String>,
    pub status: Option<String>,
}

// ---------------------------------------------------------------------------
// Fuzzy matching
// ---------------------------------------------------------------------------

/// Where the first `c` at or after character `p` of `h` is, or `None`.
pub open spec fn find_from(h: Seq<char>, p: nat, c: char) -> Option<nat>
    decreases h.len() - p,
{
    if p >= h.len() {
        None
    } else if h[p as int] == c {
        Some(p)
    } else {
        find_from(h, p + 1, c)
    }
}

/// Byte offset of character `i` of `h`.
pub open spec fn byte_at(h: Seq<char>, i: nat) -> nat {
    utf8_bytes(h.take(i as int))
}

/// The score of matching the characters of `n` from `k` on, in order, in
/// `h` from character `p` on, `prev` being the byte offset of the previous
/// match: 10 per character, 15 more when it directly follows the previous
/// match (by bytes), and for the first match `30 - offset` when that is
/// positive. `None` when some character is not found.
pub open spec fn fuzzy_from(h: Seq<char>, n: Seq<char>, k: nat, p: nat, prev: Option<nat>) -> Option<
    int,
>
    decreases n.len() - k,
{
    if k >= n.len() {
        Some(0)
    } else {
        match find_from(h, p, n[k as int]) {
            None => None,
            Some(j) => {
                let idx = byte_at(h, j);
                let bonus: int = match prev {
                    Some(q) => if idx == q + 1 {
                        15
                    } else {
                        0
                    },
                    None => if idx < 30 {
                        30 - idx
                    } else {
                        0
                    },
                };
                match fuzzy_from(h, n, k + 1, j + 1, Some(idx)) {
                    Some(rest) => Some(10 + bonus + rest),
                    None => None,
                }
            },
        }
    }
}

/// The fuzzy score of `needle` (trimmed) in `haystack`; an empty needle
/// scores 0.
pub open spec fn fuzzy_spec(haystack: Seq<char>, needle: Seq<char>) -> Option<int> {
    let n = trim(needle);
    if n.len() == 0 {
        Some(0)
    } else {
        fuzzy_from(haystack, n, 0, 0, None)
    }
}

proof fn lemma_find_from(h: Seq<char>, p: nat, c: char, j: nat)
    requires
        p <= j <= h.len(),
        forall|m: int| p <= m < j ==> h[m] != c,
        j < h.len() ==> h[j as int] == c,
    ensures
        find_from(h, p, c) == (if j < h.len() {
            Some(j)
        } else {
            None::<nat>
        }),
    decreases j - p,
{
    if p < j {
        lemma_find_from(h, p + 1, c, j);
    }
}

/// The fuzzy score of `needle` in `haystack`.
#[verifier::spinoff_prover]
#[verifier::rlimit(40)]
fn fuzzy_score(haystack: &str, needle: &str) -> (r: Option<i32>)
    requires
        4 * haystack@.len() < 0x8000_0000,
        trim(needle@).len() <= 0x500_0000,
    ensures
        match (r, fuzzy_spec(haystack@, needle@)) {
            (Some(a), Some(b)) => a as int == b,
            (None, None) => true,
            _ => false,
        },
{
    let t = trim_string(needle);
    let n = chars_of(t.as_str());
    proof {
        crate::text::lemma_utf8_bytes_le(haystack@);
    }
    if n.len() == 0 {
        return Some(0);
    }
    let h = chars_of(haystack);
    let mut score: i32 = 0;
    let mut last: Option<usize> = None;
    let mut pos: usize = 0;
    let mut pos_bytes: usize = 0;
    let mut k: usize = 0;
    let ghost total = fuzzy_spec(haystack@, needle@);
    while k < n.len()
        invariant
            k <= n.len(),
            n@ == trim(needle@),
            h@ == haystack@,
            n.len() <= 0x500_0000,
            4 * h@.len() < 0x8000_0000,
            utf8_bytes(h@) <= 4 * h@.len(),
            pos <= h.len(),
            pos_bytes == byte_at(h@, pos as nat),
            k == 0 ==> last is None && pos == 0 && score == 0,
            k > 0 ==> last is Some,
            total == fuzzy_spec(haystack@, needle@),
            0 <= score <= 30 + 25 * k,
            total == match fuzzy_from(
                h@,
                n@,
                k as nat,
                pos as nat,
                match last {
                    Some(q) => Some(q as nat),
                    None => None,
                },
            ) {
                Some(rest) => Some(score + rest),
                None => None,
            },
        decreases n.len() - k,
    {
        let ch = n[k];
        let mut j = pos;
        let mut jb = pos_bytes;
        while j < h.len() && h[j] != ch
            invariant
                pos <= j <= h.len(),
                h@ == haystack@,
                4 * h@.len() < 0x8000_0000,
                jb == byte_at(h@, j as nat),
                forall|m: int| pos <= m < j ==> h@[m] != ch,
            decreases h.len() - j,
        {
            proof {
                assert(h@.take(j + 1).drop_last() == h@.take(j as int));
                crate::text::lemma_utf8_bytes_mono(h@, j + 1, h@.len() as int);
                crate::text::lemma_utf8_bytes_le(h@);
                assert(h@.take(h@.len() as int) == h@);
            }
            jb = jb + crate::text::char_utf8_len(h[j]);
            j = j + 1;
        }
        proof {
            lemma_find_from(h@, pos as nat, ch, j as nat);
        }
        if j == h.len() {
            proof {
                let lastv: Option<nat> = match last {
                    Some(q) => Some(q as nat),
                    None => None,
                };
                assert(find_from(h@, pos as nat, n@[k as int]) is None);
                assert(fuzzy_from(h@, n@, k as nat, pos as nat, lastv) is None);
            }
            return None;
        }
        let idx = jb;
        proof {
            crate::text::lemma_utf8_bytes_mono(h@, j as int, h@.len() as int);
            assert(h@.take(h@.len() as int) == h@);
        }
        let bonus: i32 = match last {
            Some(prev) => if idx > prev && idx - prev == 1 {
                15
            } else {
                0
            },
            None => if idx < 30 {
                30 - idx as i32
            } else {
                0
            },
        };
        assert(0 <= bonus <= 30 && (k > 0 ==> bonus <= 15));
        score = score + 10 + bonus;
        last = Some(idx);
        proof {
            assert(h@.take(j + 1).drop_last() == h@.take(j as int));
            assert(h@.take(j + 1).last() == h@[j as int]);
        }
        pos_bytes = jb + crate::text::char_utf8_len(h[j]);
        pos = j + 1;
        k = k + 1;
    }
    Some(score)
}

// ---------------------------------------------------------------------------
// The picker's list
// ---------------------------------------------------------------------------

/// A row of the picker, as plain values.
pub enum ItemV {
    Header(Seq<char>),
    Branch(usize, usize),
}

impl BranchListItem {
    pub open spec fn view_item(&self) -> ItemV {
        match self {
            BranchListItem::Header(t) => ItemV::Header(t@),
            BranchListItem::Branch { idx, depth } => ItemV::Branch(*idx, *depth),
        }
    }
}

/// How many times `c` occurs in `s`.
pub open spec fn count_char(s: Seq<char>, c: char) -> nat
    decreases s.len(),
{
    if s.len() == 0 {
        0
    } else {
        count_char(s.drop_last(), c) + if s.last() == c {
            1nat
        } else {
            0nat
        }
    }
}

/// A remote branch name split at its first `/` into the remote and the
/// rest; a name without `/` is all remote.
pub open spec fn split_remote(name: Seq<char>) -> (Seq<char>, Seq<char>) {
    let i = index_of(name, '/');
    if i < 0 {
        (name, Seq::empty())
    } else {
        (name.take(i), name.skip(i + 1))
    }
}

/// Depth of a remote branch under its remote's header.
pub open spec fn remote_depth(rest: Seq<char>) -> nat {
    if rest.len() == 0 {
        1
    } else {
        1 + count_char(rest, '/')
    }
}

/// Whether a branch is listed for the query `q` (already trimmed and
/// lower-cased): every branch for an empty query, else those whose
/// lower-cased name holds the characters of `q` in order. A name or query
/// too long for the `i32` score is not listed.
pub open spec fn branch_matches(b: BranchV, q: Seq<char>) -> bool {
    q.len() == 0 || (4 * lowercase(b.name).len() < 0x8000_0000 && q.len() <= 0x500_0000
        && fuzzy_spec(lowercase(b.name), q) is Some)
}

/// The query as the picker matches it: trimmed, then lower-cased.
pub open spec fn query_key(query: Seq<char>) -> Seq<char> {
    lowercase(trim(query))
}

/// Indices below `k` of the branches listed for `q`, in order.
pub open spec fn matched_indices(bs: Seq<BranchV>, q: Seq<char>, k: nat) -> Seq<usize>
    decreases k,
{
    if k == 0 {
        Seq::empty()
    } else {
        let rest = matched_indices(bs, q, (k - 1) as nat);
        if branch_matches(bs[k - 1], q) {
            rest.push((k - 1) as usize)
        } else {
            rest
        }
    }
}

/// Local branches sort before remote ones, and by name within each.
pub open spec fn branch_before(a: BranchV, b: BranchV) -> bool {
    (!a.is_remote && b.is_remote) || (a.is_remote == b.is_remote && text_lt(a.name, b.name))
}

/// Where index `x` goes in the sorted `s`: before the first index whose
/// branch sorts after it.
pub open spec fn insert_pos(s: Seq<usize>, x: usize, bs: Seq<BranchV>) -> nat
    decreases s.len(),
{
    if s.len() == 0 {
        0
    } else if branch_before(bs[x as int], bs[s[0] as int]) {
        0
    } else {
        1 + insert_pos(s.drop_first(), x, bs)
    }
}

pub open spec fn insert_sorted(s: Seq<usize>, x: usize, bs: Seq<BranchV>) -> Seq<usize> {
    let p = insert_pos(s, x, bs);
    s.take(p as int) + seq![x] + s.skip(p as int)
}

/// The indices `s` sorted by their branches, stably (equal branches keep
/// their order).
pub open spec fn sort_indices(s: Seq<usize>, bs: Seq<BranchV>) -> Seq<usize>
    decreases s.len(),
{
    if s.len() == 0 {
        Seq::empty()
    } else {
        insert_sorted(sort_indices(s.drop_last(), bs), s.last(), bs)
    }
}

/// The indices of `s` whose branch is remote (`remote`) or local.
pub open spec fn keep_kind(s: Seq<usize>, bs: Seq<BranchV>, remote: bool) -> Seq<usize>
    decreases s.len(),
{
    if s.len() == 0 {
        Seq::empty()
    } else {
        let rest = keep_kind(s.drop_last(), bs, remote);
        if bs[s.last() as int].is_remote == remote {
            rest.push(s.last())
        } else {
            rest
        }
    }
}

/// Rows of the local branches `s`: each indented by the `/` in its name.
pub open spec fn local_rows(s: Seq<usize>, bs: Seq<BranchV>) -> Seq<ItemV>
    decreases s.len(),
{
    if s.len() == 0 {
        Seq::empty()
    } else {
        local_rows(s.drop_last(), bs).push(
            ItemV::Branch(s.last(), count_char(bs[s.last() as int].name, '/') as usize),
        )
    }
}

/// Rows of the remote branches `s`: a header for each remote where it
/// changes from the row before, then the branch under it.
pub open spec fn remote_rows(s: Seq<usize>, bs: Seq<BranchV>) -> Seq<ItemV>
    decreases s.len(),
{
    if s.len() == 0 {
        Seq::empty()
    } else {
        let p = s.drop_last();
        let (remote, rest) = split_remote(bs[s.last() as int].name);
        let head = if p.len() > 0 && split_remote(bs[p.last() as int].name).0 == remote {
            Seq::<ItemV>::empty()
        } else {
            seq![ItemV::Header(seq![' ', ' '] + remote)]
        };
        remote_rows(p, bs) + head + seq![ItemV::Branch(s.last(), remote_depth(rest) as usize)]
    }
}

/// The picker's rows for the sorted matches `sorted`: the local branches
/// under "Local", then the remote ones under "Remote".
pub open spec fn rows_of(sorted: Seq<usize>, bs: Seq<BranchV>) -> Seq<ItemV> {
    let locals = keep_kind(sorted, bs, false);
    let remotes = keep_kind(sorted, bs, true);
    (if locals.len() > 0 {
        seq![ItemV::Header("Local"@)] + local_rows(locals, bs)
    } else {
        Seq::empty()
    }) + (if remotes.len() > 0 {
        seq![ItemV::Header("Remote"@)] + remote_rows(remotes, bs)
    } else {
        Seq::empty()
    })
}

/// The branch on row `sel`, if that row is a branch.
pub open spec fn branch_on_row(items: Seq<ItemV>, bs: Seq<BranchV>, sel: Option<usize>) -> Option<
    BranchV,
> {
    match sel {
        None => None,
        Some(s) => if s < items.len() {
            match items[s as int] {
                ItemV::Branch(idx, _) => if idx < bs.len() {
                    Some(bs[idx as int])
                } else {
                    None
                },
                ItemV::Header(_) => None,
            }
        } else {
            None
        },
    }
}

/// The first index from `k` on of a branch named `name`.
pub open spec fn first_named(bs: Seq<BranchV>, name: Seq<char>, k: nat) -> Option<nat>
    decreases bs.len() - k,
{
    if k >= bs.len() {
        None
    } else if bs[k as int].name == name {
        Some(k)
    } else {
        first_named(bs, name, k + 1)
    }
}

/// The first row from `k` on that shows a branch (branch `p` when given).
pub open spec fn first_row(items: Seq<ItemV>, p: Option<usize>, k: nat) -> Option<nat>
    decreases items.len() - k,
{
    if k >= items.len() {
        None
    } else if (match items[k as int] {
        ItemV::Branch(idx, _) => p is None || p == Some(idx),
        ItemV::Header(_) => false,
    }) {
        Some(k)
    } else {
        first_row(items, p, k + 1)
    }
}

/// The row selected after the list is rebuilt as `items`: the row of the
/// branch that was selected (found again by name), else the first branch.
pub open spec fn reselect(items: Seq<ItemV>, bs: Seq<BranchV>, before: Option<BranchV>) -> Option<
    usize,
> {
    let prev = match before {
        Some(b) => first_named(bs, b.name, 0),
        None => None,
    };
    let again = match prev {
        Some(p) => first_row(items, Some(p as usize), 0),
        None => None,
    };
    match again {
        Some(i) => Some(i as usize),
        None => match first_row(items, None, 0) {
            Some(i) => Some(i as usize),
            None => None,
        },
    }
}

/// Moving down from row `i`: the first branch row at or after `i`, else
/// the last row.
pub open spec fn scan_down(items: Seq<ItemV>, i: nat) -> nat
    decreases items.len() - i,
{
    if i + 1 >= items.len() || items[i as int] is Branch {
        i
    } else {
        scan_down(items, i + 1)
    }
}

/// Moving up from row `i`: the last branch row at or before `i`, else
/// the first row.
pub open spec fn scan_up(items: Seq<ItemV>, i: nat) -> nat
    decreases i,
{
    if i == 0 || items[i as int] is Branch {
        i
    } else {
        scan_up(items, (i - 1) as nat)
    }
}

impl BranchEntry {
    /// A copy of the entry.
    pub fn copy(&self) -> (r: BranchEntry)
        ensures
            r.view_v() == self.view_v(),
    {
        BranchEntry {
            name: self.name.clone(),
            is_current: self.is_current,
            is_remote: self.is_remote,
            upstream: match &self.upstream {
                Some(u) => Some(u.clone()),
                None => None,
            },
            track: match &self.track {
                Some(t) => Some(t.clone()),
                None => None,
            },
        }
    }
}

impl BranchUi {
    pub open spec fn branch_views(&self) -> Seq<BranchV> {
        entry_views(self.branches@)
    }

    pub open spec fn item_views(&self) -> Seq<ItemV> {
        self.items@.map_values(|it: BranchListItem| it.view_item())
    }

    /// A closed picker with nothing in it.
    pub fn new() -> (r: BranchUi)
        ensures
            !r.open,
            r.query@.len() == 0,
            r.branches@.len() == 0,
            r.items@.len() == 0,
            r.selected is None,
            r.confirm_checkout is None,
            r.status is None,
    {
        BranchUi {
            open: false,
            query: String::new(),
            branches: Vec::new(),
            items: Vec::new(),
            selected: None,
            confirm_checkout: None,
            status: None,
        }
    }

    /// The branch on the selected row, if that row shows one.
    pub fn selected_branch(&self) -> (r: Option<BranchEntry>)
        ensures
            match (r, branch_on_row(self.item_views(), self.branch_views(), self.selected)) {
                (Some(a), Some(b)) => a.view_v() == b,
                (None, None) => true,
                _ => false,
            },
    {
        let sel = match self.selected {
            Some(s) => s,
            None => {
                return None;
            },
        };
        if sel >= self.items.len() {
            return None;
        }
        match &self.items[sel] {
            BranchListItem::Branch { idx, .. } => {
                if *idx < self.branches.len() {
                    Some(self.branches[*idx].copy())
                } else {
                    None
                }
            },
            BranchListItem::Header(_) => None,
        }
    }

    /// Moves the selection by `delta` rows, then on in that direction past
    /// headers to a branch, stopping at either end of the list.
    pub fn move_selection(&mut self, delta: i32)
        requires
            old(self).items@.len() <= 0x8000_0000,
            ({
                let cur: int = match old(self).selected {
                    Some(s) => s as int,
                    None => 0,
                };
                cur <= i32::MAX && i32::MIN <= cur + delta <= i32::MAX
            }),
        ensures
            ({
                let items = old(self).item_views();
                let cur: int = match old(self).selected {
                    Some(s) => s as int,
                    None => 0,
                };
                let last = items.len() - 1;
                let start: int = if cur + delta < 0 {
                    0
                } else if cur + delta > last {
                    last
                } else {
                    cur + delta
                };
                final(self).selected == if items.len() == 0 {
                    None
                } else if delta >= 0 {
                    Some(scan_down(items, start as nat) as usize)
                } else {
                    Some(scan_up(items, start as nat) as usize)
                }
            }),
            final(self).items@ == old(self).items@,
            final(self).branches@ == old(self).branches@,
            final(self).query@ == old(self).query@,
            final(self).open == old(self).open,
            final(self).confirm_checkout == old(self).confirm_checkout,
            final(self).status == old(self).status,
    {
        if self.items.len() == 0 {
            self.selected = None;
            return;
        }
        let ghost items = self.item_views();
        let len = self.items.len();
        let last: i32 = (len - 1) as i32;
        let cur: i32 = match self.selected {
            Some(s) => s as i32,
            None => 0,
        };
        let sum: i32 = cur + delta;
        let mut next: i32 = if sum < 0 {
            0
        } else if sum > last {
            last
        } else {
            sum
        };
        let ghost start: nat = next as nat;
        let down = delta >= 0;
        loop
            invariant
                0 <= next <= last,
                last as int == items.len() - 1,
                len == items.len(),
                items == self.item_views(),
                self.items@.len() == items.len(),
                down ==> scan_down(items, start) == scan_down(items, next as nat),
                !down ==> scan_up(items, start) == scan_up(items, next as nat),
            ensures
                0 <= next <= last,
                down ==> scan_down(items, start) == next as nat,
                !down ==> scan_up(items, start) == next as nat,
            decreases if down {
                last - next
            } else {
                next as int
            },
        {
            let is_branch = match &self.items[next as usize] {
                BranchListItem::Branch { .. } => true,
                BranchListItem::Header(_) => false,
            };
            assert(is_branch == (items[next as int] is Branch));
            if is_branch {
                break;
            }
            if next == 0 && !down {
                break;
            }
            if next == last && down {
                break;
            }
            if down {
                next = next + 1;
            } else {
                next = next - 1;
            }
        }
        self.selected = Some(next as usize);
    }
}


/// The views of a list of branch entries.
pub open spec fn entry_views(bs: Seq<BranchEntry>) -> Seq<BranchV> {
    bs.map_values(|b: BranchEntry| b.view_v())
}

/// The views of a list of rows.
pub open spec fn row_views(items: Seq<BranchListItem>) -> Seq<ItemV> {
    items.map_values(|it: BranchListItem| it.view_item())
}

/// The number of `c` in `v[lo..hi]`.
fn count_in(v: &Vec<char>, lo: usize, hi: usize, c: char) -> (r: usize)
    requires
        lo <= hi <= v.len(),
    ensures
        r == count_char(v@.subrange(lo as int, hi as int), c),
        r <= hi - lo,
{
    let mut n: usize = 0;
    let mut i: usize = lo;
    while i < hi
        invariant
            lo <= i <= hi <= v.len(),
            n == count_char(v@.subrange(lo as int, i as int), c),
            n <= i - lo,
        decreases hi - i,
    {
        assert(v@.subrange(lo as int, i + 1).drop_last() == v@.subrange(lo as int, i as int));
        if v[i] == c {
            n = n + 1;
        }
        i = i + 1;
    }
    n
}

fn branch_before_exec(a: &BranchEntry, b: &BranchEntry) -> (r: bool)
    ensures
        r == branch_before(a.view_v(), b.view_v()),
{
    (!a.is_remote && b.is_remote) || (a.is_remote == b.is_remote && str_lt(
        a.name.as_str(),
        b.name.as_str(),
    ))
}

proof fn lemma_insert_pos_bound(s: Seq<usize>, x: usize, bs: Seq<BranchV>)
    ensures
        insert_pos(s, x, bs) <= s.len(),
    decreases s.len(),
{
    if s.len() > 0 && !branch_before(bs[x as int], bs[s[0] as int]) {
        lemma_insert_pos_bound(s.drop_first(), x, bs);
    }
}

fn insert_index(v: &mut Vec<usize>, x: usize, es: &Vec<BranchEntry>, Ghost(bs): Ghost<Seq<BranchV>>)
    requires
        bs == entry_views(es@),
        x < es.len(),
        forall|i: int| 0 <= i < old(v)@.len() ==> old(v)@[i] < es.len(),
    ensures
        final(v)@ == insert_sorted(old(v)@, x, bs),
        forall|i: int| 0 <= i < final(v)@.len() ==> final(v)@[i] < es.len(),
{
    let mut p: usize = 0;
    assert(v@.skip(0) == v@);
    while p < v.len() && !branch_before_exec(&es[x], &es[v[p]])
        invariant
            p <= v.len(),
            v@ == old(v)@,
            x < es.len(),
            bs == entry_views(es@),
            forall|i: int| 0 <= i < v@.len() ==> v@[i] < es.len(),
            insert_pos(v@, x, bs) == p + insert_pos(v@.skip(p as int), x, bs),
        decreases v.len() - p,
    {
        assert(v@.skip(p as int)[0] == v@[p as int]);
        assert(v@.skip(p as int).drop_first() == v@.skip(p + 1));
        p = p + 1;
    }
    proof {
        if p < v.len() {
            assert(v@.skip(p as int)[0] == v@[p as int]);
        } else {
            assert(v@.skip(p as int).len() == 0);
        }
    }
    v.insert(p, x);
    assert(v@ =~= old(v)@.take(p as int) + seq![x] + old(v)@.skip(p as int));
}

/// The text of a remote's header: the remote, indented by two spaces.
fn remote_header(remote: &Vec<char>) -> (r: String)
    ensures
        r@ == seq![' ', ' '] + remote@,
{
    let mut t = String::new();
    t.push(' ');
    t.push(' ');
    crate::text::push_chars(&mut t, remote);
    t
}

/// Splits a name at its first `/` (see `split_remote`).
fn split_name(name: &Vec<char>) -> (r: (Vec<char>, Vec<char>))
    ensures
        (r.0@, r.1@) == split_remote(name@),
        r.1@.len() < name@.len() || r.1@.len() == 0,
{
    let i = crate::text::find_char_from(name, 0, '/');
    assert(name@.skip(0) == name@);
    if i == name.len() {
        let whole = crate::text::sub_chars(name, 0, name.len());
        assert(name@.subrange(0, name@.len() as int) == name@);
        (whole, Vec::new())
    } else {
        (crate::text::sub_chars(name, 0, i), crate::text::sub_chars(name, i + 1, name.len()))
    }
}


/// The indices of the branches listed for the query `q`, in order.
fn matching(branches: &Vec<BranchEntry>, q: &String, Ghost(bs): Ghost<Seq<BranchV>>) -> (r: Vec<usize>)
    requires
        bs == entry_views(branches@),
    ensures
        r@ == matched_indices(bs, q@, bs.len()),
        forall|i: int| 0 <= i < r@.len() ==> r@[i] < bs.len(),
{
    let qv = chars_of(q.as_str());
    let mut r: Vec<usize> = Vec::new();
    let mut i: usize = 0;
    while i < branches.len()
        invariant
            i <= branches.len(),
            qv@ == q@,
            bs == entry_views(branches@),
            r@ == matched_indices(bs, q@, i as nat),
            forall|j: int| 0 <= j < r@.len() ==> r@[j] < i,
        decreases branches.len() - i,
    {
        let keep = if qv.len() == 0 {
            true
        } else {
            let lower = to_lowercase(branches[i].name.as_str());
            let lv = chars_of(lower.as_str());
            if lv.len() < 0x2000_0000 && qv.len() <= 0x500_0000 {
                proof {
                    crate::text::lemma_trim_len(q@);
                }
                fuzzy_score(lower.as_str(), q.as_str()).is_some()
            } else {
                false
            }
        };
        assert(keep == branch_matches(bs[i as int], q@));
        if keep {
            r.push(i);
        }
        i = i + 1;
    }
    r
}

/// `s` sorted by branch (see `sort_indices`).
fn sorted_by_branch(s: &Vec<usize>, branches: &Vec<BranchEntry>, Ghost(bs): Ghost<Seq<BranchV>>) -> (r:
    Vec<usize>)
    requires
        bs == entry_views(branches@),
        forall|i: int| 0 <= i < s@.len() ==> s@[i] < branches.len(),
    ensures
        r@ == sort_indices(s@, bs),
        forall|i: int| 0 <= i < r@.len() ==> r@[i] < branches.len(),
{
    let mut sorted: Vec<usize> = Vec::new();
    let mut k: usize = 0;
    while k < s.len()
        invariant
            k <= s.len(),
            bs == entry_views(branches@),
            forall|i: int| 0 <= i < s@.len() ==> s@[i] < branches.len(),
            forall|i: int| 0 <= i < sorted@.len() ==> sorted@[i] < branches.len(),
            sorted@ == sort_indices(s@.take(k as int), bs),
        decreases s.len() - k,
    {
        assert(s@.take(k + 1).drop_last() == s@.take(k as int));
        insert_index(&mut sorted, s[k], branches, Ghost(bs));
        k = k + 1;
    }
    assert(s@.take(s@.len() as int) == s@);
    sorted
}

/// The local (`remote == false`) or remote indices of `s`, in order.
fn of_kind(s: &Vec<usize>, branches: &Vec<BranchEntry>, remote: bool, Ghost(bs): Ghost<Seq<BranchV>>) -> (r:
    Vec<usize>)
    requires
        bs == entry_views(branches@),
        forall|i: int| 0 <= i < s@.len() ==> s@[i] < branches.len(),
    ensures
        r@ == keep_kind(s@, bs, remote),
        forall|i: int| 0 <= i < r@.len() ==> r@[i] < branches.len(),
{
    let mut r: Vec<usize> = Vec::new();
    let mut k: usize = 0;
    while k < s.len()
        invariant
            k <= s.len(),
            bs == entry_views(branches@),
            forall|i: int| 0 <= i < s@.len() ==> s@[i] < branches.len(),
            forall|i: int| 0 <= i < r@.len() ==> r@[i] < branches.len(),
            r@ == keep_kind(s@.take(k as int), bs, remote),
        decreases s.len() - k,
    {
        assert(s@.take(k + 1).drop_last() == s@.take(k as int));
        if branches[s[k]].is_remote == remote {
            r.push(s[k]);
        }
        k = k + 1;
    }
    assert(s@.take(s@.len() as int) == s@);
    r
}


/// The picker's rows for the sorted indices `sorted` (see `rows_of`).
fn build_rows(sorted: &Vec<usize>, branches: &Vec<BranchEntry>, Ghost(bs): Ghost<Seq<BranchV>>) -> (r:
    Vec<BranchListItem>)
    requires
        bs == entry_views(branches@),
        forall|i: int| 0 <= i < sorted@.len() ==> sorted@[i] < branches.len(),
    ensures
        row_views(r@) == rows_of(sorted@, bs),
{
    let locals = of_kind(sorted, branches, false, Ghost(bs));
    let remotes = of_kind(sorted, branches, true, Ghost(bs));
    let mut items: Vec<BranchListItem> = Vec::new();
    if locals.len() > 0 {
        items.push(BranchListItem::Header("Local".to_owned()));
        let ghost start = row_views(items@);
        assert(start == seq![ItemV::Header("Local"@)]);
        let mut k: usize = 0;
        assert(locals@.take(0) == Seq::<usize>::empty());
        while k < locals.len()
            invariant
                k <= locals.len(),
                bs == entry_views(branches@),
                forall|i: int| 0 <= i < locals@.len() ==> locals@[i] < branches.len(),
                row_views(items@) == start + local_rows(locals@.take(k as int), bs),
            decreases locals.len() - k,
        {
            let idx = locals[k];
            let name = chars_of(branches[idx].name.as_str());
            let depth = count_in(&name, 0, name.len(), '/');
            assert(name@.subrange(0, name@.len() as int) == name@);
            assert(locals@.take(k + 1).drop_last() == locals@.take(k as int));
            let ghost before = items@;
            items.push(BranchListItem::Branch { idx, depth });
            assert(row_views(items@) == row_views(before).push(ItemV::Branch(idx, depth)));
            k = k + 1;
        }
        assert(locals@.take(locals@.len() as int) == locals@);
    }
    let ghost mid = row_views(items@);
    if remotes.len() > 0 {
        let ghost before_header = items@;
        items.push(BranchListItem::Header("Remote".to_owned()));
        let ghost start = row_views(items@);
        assert(start == mid + seq![ItemV::Header("Remote"@)]) by {
            assert(row_views(items@) == row_views(before_header).push(ItemV::Header("Remote"@)));
        }
        let mut current: Option<Vec<char>> = None;
        let mut k: usize = 0;
        assert(remotes@.take(0) == Seq::<usize>::empty());
        while k < remotes.len()
            invariant
                k <= remotes.len(),
                bs == entry_views(branches@),
                forall|i: int| 0 <= i < remotes@.len() ==> remotes@[i] < branches.len(),
                row_views(items@) == start + remote_rows(remotes@.take(k as int), bs),
                k == 0 ==> current is None,
                k > 0 ==> (current matches Some(c) && c@ == split_remote(
                    bs[remotes@[k - 1] as int].name,
                ).0),
            decreases remotes.len() - k,
        {
            let idx = remotes[k];
            let name = chars_of(branches[idx].name.as_str());
            let (remote, rest) = split_name(&name);
            let same = match &current {
                Some(c) => crate::text::chars_eq(c, &remote),
                None => false,
            };
            let ghost p = remotes@.take(k as int);
            assert(remotes@.take(k + 1).drop_last() == p);
            assert(remotes@.take(k + 1).last() == idx);
            let ghost before = items@;
            if !same {
                let header = remote_header(&remote);
                items.push(BranchListItem::Header(header));
            }
            proof {
                assert(rest@.subrange(0, rest@.len() as int) == rest@);
                crate::text::lemma_index_of_props(name@, '/');
            }
            let depth = if rest.len() == 0 {
                1
            } else {
                let c = count_in(&rest, 0, rest.len(), '/');
                assert(c < name.len());
                1 + c
            };
            let ghost mid_items = items@;
            items.push(BranchListItem::Branch { idx, depth });
            assert(row_views(items@) == row_views(mid_items).push(ItemV::Branch(idx, depth)));
            proof {
                if same {
                    assert(row_views(mid_items) == row_views(before));
                } else {
                    assert(row_views(mid_items) == row_views(before).push(
                        ItemV::Header(seq![' ', ' '] + remote@),
                    ));
                }
            }
            current = Some(remote);
            k = k + 1;
        }
        assert(remotes@.take(remotes@.len() as int) == remotes@);
    }
    proof {
        if remotes@.len() == 0 {
            assert(row_views(items@) == mid + Seq::<ItemV>::empty());
        }
        if locals@.len() == 0 {
            assert(mid == Seq::<ItemV>::empty());
        }
    }
    items
}


/// The first index of a branch named `name` (see `first_named`).
fn position_named(branches: &Vec<BranchEntry>, name: &String, Ghost(bs): Ghost<Seq<BranchV>>) -> (r:
    Option<usize>)
    requires
        bs == entry_views(branches@),
    ensures
        match (r, first_named(bs, name@, 0)) {
            (Some(a), Some(b)) => a == b,
            (None, None) => true,
            _ => false,
        },
{
    let mut i: usize = 0;
    while i < branches.len()
        invariant
            i <= branches.len(),
            bs == entry_views(branches@),
            first_named(bs, name@, 0) == first_named(bs, name@, i as nat),
        decreases branches.len() - i,
    {
        if branches[i].name == *name {
            return Some(i);
        }
        i = i + 1;
    }
    None
}

/// The first row showing a branch (branch `p` when given; see `first_row`).
fn first_branch_row(items: &Vec<BranchListItem>, p: Option<usize>) -> (r: Option<usize>)
    ensures
        match (r, first_row(row_views(items@), p, 0)) {
            (Some(a), Some(b)) => a == b,
            (None, None) => true,
            _ => false,
        },
{
    let ghost rows = row_views(items@);
    let mut i: usize = 0;
    while i < items.len()
        invariant
            i <= items.len(),
            rows == row_views(items@),
            first_row(rows, p, 0) == first_row(rows, p, i as nat),
        decreases items.len() - i,
    {
        let hit = match &items[i] {
            BranchListItem::Branch { idx, .. } => match p {
                None => true,
                Some(want) => *idx == want,
            },
            BranchListItem::Header(_) => false,
        };
        if hit {
            return Some(i);
        }
        i = i + 1;
    }
    None
}

impl BranchUi {
    /// Rebuilds the rows for the query: the branches whose lower-cased name
    /// fuzzily holds the trimmed, lower-cased query (all of them for an
    /// empty one), local before remote and by name, under their headers;
    /// then selects the row of the branch selected before (by name), or
    /// else the first branch.
    pub fn update_filtered(&mut self)
        ensures
            final(self).item_views() == rows_of(
                sort_indices(
                    matched_indices(
                        old(self).branch_views(),
                        query_key(old(self).query@),
                        old(self).branches@.len(),
                    ),
                    old(self).branch_views(),
                ),
                old(self).branch_views(),
            ),
            final(self).selected == reselect(
                final(self).item_views(),
                old(self).branch_views(),
                branch_on_row(old(self).item_views(), old(self).branch_views(), old(self).selected),
            ),
            final(self).branches@ == old(self).branches@,
            final(self).query@ == old(self).query@,
            final(self).open == old(self).open,
            final(self).confirm_checkout == old(self).confirm_checkout,
            final(self).status == old(self).status,
    {
        let t = trim_string(self.query.as_str());
        let q = to_lowercase(t.as_str());
        let ghost bs = self.branch_views();
        let prev = self.selected_branch();
        let prev_idx = match &prev {
            Some(b) => position_named(&self.branches, &b.name, Ghost(bs)),
            None => None,
        };
        let m = matching(&self.branches, &q, Ghost(bs));
        let sorted = sorted_by_branch(&m, &self.branches, Ghost(bs));
        self.items = build_rows(&sorted, &self.branches, Ghost(bs));
        let again = match prev_idx {
            Some(p) => first_branch_row(&self.items, Some(p)),
            None => None,
        };
        self.selected = match again {
            Some(i) => Some(i),
            None => first_branch_row(&self.items, None),
        };
    }

    /// Replaces the branches and rebuilds the rows (see `update_filtered`).
    pub fn set_branches(&mut self, branches: Vec<BranchEntry>)
        ensures
            final(self).branches@ == branches@,
            final(self).item_views() == rows_of(
                sort_indices(
                    matched_indices(
                        entry_views(branches@),
                        query_key(old(self).query@),
                        branches@.len(),
                    ),
                    entry_views(branches@),
                ),
                entry_views(branches@),
            ),
            final(self).selected == reselect(
                final(self).item_views(),
                entry_views(branches@),
                branch_on_row(old(self).item_views(), entry_views(branches@), old(self).selected),
            ),
            final(self).query@ == old(self).query@,
            final(self).open == old(self).open,
            final(self).confirm_checkout == old(self).confirm_checkout,
            final(self).status == old(self).status,
    {
        self.branches = branches;
        self.update_filtered();
    }
}


/// The command that checks out branch `b`: a remote branch is tracked.
pub open spec fn checkout_cmd(b: BranchV) -> Seq<char> {
    if b.is_remote {
        "git checkout --track "@ + b.name
    } else {
        "git checkout "@ + b.name
    }
}

/// The command that checks out branch `b` (see `checkout_cmd`).
pub fn checkout_command(b: &BranchEntry) -> (r: String)
    ensures
        r@ == checkout_cmd(b.view_v()),
{
    let mut s = String::new();
    if b.is_remote {
        crate::text::push_str(&mut s, "git checkout --track ");
    } else {
        crate::text::push_str(&mut s, "git checkout ");
    }
    crate::text::push_str(&mut s, b.name.as_str());
    s
}

/// The ref the log shows once branch `b` is picked: none (the current
/// branch) for the local current branch, else the branch's name.
pub fn log_ref(b: &BranchEntry) -> (r: Option<String>)
    ensures
        match r {
            Some(n) => !(!b.is_remote && b.is_current) && n@ == b.name@,
            None => !b.is_remote && b.is_current,
        },
{
    if !b.is_remote && b.is_current {
        None
    } else {
        let mut n = String::new();
        crate::text::push_str(&mut n, b.name.as_str());
        Some(n)
    }
}

impl BranchUi {
    /// Opens the picker on `branches`: no query, no confirmation, no
    /// status.
    pub fn open_with(&mut self, branches: Vec<BranchEntry>)
        ensures
            final(self).open,
            final(self).query@.len() == 0,
            final(self).confirm_checkout is None,
            final(self).status is None,
            final(self).branches@ == branches@,
            final(self).item_views() == rows_of(
                sort_indices(
                    matched_indices(entry_views(branches@), query_key(Seq::empty()), branches@.len()),
                    entry_views(branches@),
                ),
                entry_views(branches@),
            ),
    {
        self.open = true;
        self.query = String::new();
        self.confirm_checkout = None;
        self.status = None;
        assert(self.query@ == Seq::<char>::empty());
        self.set_branches(branches);
    }

    /// Closes and empties the picker.
    pub fn close(&mut self)
        ensures
            !final(self).open,
            final(self).query@.len() == 0,
            final(self).items@.len() == 0,
            final(self).branches@.len() == 0,
            final(self).confirm_checkout is None,
            final(self).status is None,
            final(self).selected is None,
    {
        self.open = false;
        self.query = String::new();
        self.items = Vec::new();
        self.branches = Vec::new();
        self.confirm_checkout = None;
        self.status = None;
        self.selected = None;
    }

    /// Checking out the selected branch: without a repository or a
    /// selection the picker's status says so; unless `force`d, a dirty work
    /// tree (`dirty`, as asked only when not forced) asks to confirm, and a
    /// failure to ask becomes the status; else the checkout command comes
    /// back (to run, the picker then closing).
    pub fn checkout_plan(&mut self, has_repo: bool, force: bool, dirty: Result<bool, String>) -> (r: Option<String>)
        ensures
            ({
                let sel = branch_on_row(old(self).item_views(), old(self).branch_views(), old(self).selected);
                if !has_repo {
                    r is None && (final(self).status matches Some(s) && s@ == "Not a git repository"@)
                        && final(self).confirm_checkout == old(self).confirm_checkout
                } else if sel is None {
                    r is None && (final(self).status matches Some(s) && s@ == "No branch selected"@)
                        && final(self).confirm_checkout == old(self).confirm_checkout
                } else if !force && dirty == Ok::<bool, String>(true) {
                    r is None && (final(self).confirm_checkout matches Some(n) && n@ == sel->0.name)
                        && final(self).status == old(self).status
                } else if !force && dirty is Err {
                    r is None && final(self).status == Some(dirty->Err_0)
                        && final(self).confirm_checkout == old(self).confirm_checkout
                } else {
                    (r matches Some(c) && c@ == checkout_cmd(sel->0)) && final(self).status == old(
                        self,
                    ).status && final(self).confirm_checkout == old(self).confirm_checkout
                }
            }),
            final(self).open == old(self).open,
            final(self).selected == old(self).selected,
            final(self).branches@ == old(self).branches@,
    {
        if !has_repo {
            self.status = Some("Not a git repository".to_owned());
            return None;
        }
        let branch = match self.selected_branch() {
            Some(b) => b,
            None => {
                self.status = Some("No branch selected".to_owned());
                return None;
            },
        };
        if !force {
            match dirty {
                Ok(true) => {
                    let mut n = String::new();
                    crate::text::push_str(&mut n, branch.name.as_str());
                    self.confirm_checkout = Some(n);
                    return None;
                },
                Ok(false) => {},
                Err(e) => {
                    self.status = Some(e);
                    return None;
                },
            }
        }
        Some(checkout_command(&branch))
    }
}

// ---------------------------------------------------------------------------
// Laws
// ---------------------------------------------------------------------------

proof fn lemma_first_row(items: Seq<ItemV>, p: Option<usize>, k: nat)
    ensures
        first_row(items, p, k) matches Some(i) ==> k <= i < items.len() && items[i as int] is Branch,
        (exists|m: int| k <= m < items.len() && #[trigger] items[m] is Branch && p is None)
            ==> first_row(items, p, k) is Some,
    decreases items.len() - k,
{
    if k < items.len() {
        lemma_first_row(items, p, k + 1);
        if p is None && items[k as int] !is Branch {
            assert forall|m: int| k < m < items.len() && #[trigger] items[m] is Branch implies
                k + 1 <= m by {}
        }
    }
}

/// After the list is rebuilt the selection is on a branch row, and it is
/// on one whenever the list shows any branch.
pub proof fn law_reselect_lands_on_branch(items: Seq<ItemV>, bs: Seq<BranchV>, before: Option<BranchV>)
    requires
        items.len() <= usize::MAX,
    ensures
        reselect(items, bs, before) matches Some(i) ==> i < items.len() && items[i as int] is Branch,
        (exists|m: int| 0 <= m < items.len() && #[trigger] items[m] is Branch) ==> reselect(
            items,
            bs,
            before,
        ) is Some,
{
    lemma_first_row(items, None, 0);
    let prev = match before {
        Some(b) => first_named(bs, b.name, 0),
        None => None,
    };
    match prev {
        Some(p) => lemma_first_row(items, Some(p as usize), 0),
        None => {},
    }
}

proof fn lemma_scan_down(items: Seq<ItemV>, i: nat)
    requires
        i < items.len(),
    ensures
        i <= scan_down(items, i) < items.len(),
    decreases items.len() - i,
{
    if !(i + 1 >= items.len() || items[i as int] is Branch) {
        lemma_scan_down(items, i + 1);
    }
}

proof fn lemma_scan_up(items: Seq<ItemV>, i: nat)
    ensures
        scan_up(items, i) <= i,
    decreases i,
{
    if !(i == 0 || items[i as int] is Branch) {
        lemma_scan_up(items, (i - 1) as nat);
    }
}

/// Moving the selection never leaves the list, and moves in the direction
/// asked for.
pub proof fn law_move_stays_on_list(items: Seq<ItemV>, start: nat)
    requires
        start < items.len(),
    ensures
        start <= scan_down(items, start) < items.len(),
        scan_up(items, start) <= start,
{
    lemma_scan_down(items, start);
    lemma_scan_up(items, start);
}

} // verus!
