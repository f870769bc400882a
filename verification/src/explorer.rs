//! The file explorer's listing: the entries of a directory in the order
//! shown, and which neighbours of the selection to load ahead.
use vstd::prelude::*;
use crate::text::{chars_of, lowercase, str_lt, text_lt, to_lowercase};

verus! {

/// An entry of a directory listing.
#[derive(Clone, Debug)]
pub struct FileEntry {
    pub name: String,
    pub path: String,
    pub is_dir: bool,
    pub is_symlink: bool,
    pub is_exec: bool,
    pub is_hidden: bool,
    pub size: u64,
}

/// An entry as plain values.
pub struct EntryV {
    pub name: Seq<char>,
    pub path: Seq<char>,
    pub is_dir: bool,
    pub is_symlink: bool,
    pub is_exec: bool,
    pub is_hidden: bool,
    pub size: u64,
}

impl FileEntry {
    pub open spec fn view_v(&self) -> EntryV {
        EntryV {
            name: self.name@,
            path: self.path@,
            is_dir: self.is_dir,
            is_symlink: self.is_symlink,
            is_exec: self.is_exec,
            is_hidden: self.is_hidden,
            size: self.size,
        }
    }
}

pub open spec fn entry_views(es: Seq<FileEntry>) -> Seq<EntryV> {
    es.map_values(|e: FileEntry| e.view_v())
}

/// `a` is listed before `b`: directories first, then by lower-cased name.
pub open spec fn listed_before(a: EntryV, b: EntryV) -> bool {
    (a.is_dir && !b.is_dir) || (a.is_dir == b.is_dir && text_lt(lowercase(a.name), lowercase(b.name)))
}

/// Where `x` goes in the sorted `s`: before the first entry listed after it.
pub open spec fn place_of(s: Seq<EntryV>, x: EntryV) -> nat
    decreases s.len(),
{
    if s.len() == 0 {
        0
    } else if listed_before(x, s[0]) {
        0
    } else {
        1 + place_of(s.drop_first(), x)
    }
}

/// `es` sorted for listing, stably (entries listed alike keep their order).
pub open spec fn sorted_listing(es: Seq<EntryV>) -> Seq<EntryV>
    decreases es.len(),
{
    if es.len() == 0 {
        Seq::empty()
    } else {
        let s = sorted_listing(es.drop_last());
        let p = place_of(s, es.last()) as int;
        s.take(p) + seq![es.last()] + s.skip(p)
    }
}

/// The entries shown (hidden ones only when asked for).
pub open spec fn shown(es: Seq<EntryV>, show_hidden: bool) -> Seq<EntryV>
    decreases es.len(),
{
    if es.len() == 0 {
        Seq::empty()
    } else {
        let rest = shown(es.drop_last(), show_hidden);
        if show_hidden || !es.last().is_hidden {
            rest.push(es.last())
        } else {
            rest
        }
    }
}

/// The `..` entry that leads up from the directory at `dir`.
pub open spec fn up_entry(dir: Seq<char>) -> EntryV {
    EntryV {
        name: ".."@,
        path: dir,
        is_dir: true,
        is_symlink: false,
        is_exec: false,
        is_hidden: false,
        size: 0,
    }
}

/// The listing of a directory: its entries (hidden ones only when asked
/// for) with directories first, each group by lower-cased name; led by a
/// `..` entry when the directory `dir` has a parent.
pub open spec fn listing(es: Seq<EntryV>, show_hidden: bool, dir: Seq<char>, has_parent: bool) -> Seq<
    EntryV,
> {
    let sorted = sorted_listing(shown(es, show_hidden));
    if has_parent {
        seq![up_entry(dir)] + sorted
    } else {
        sorted
    }
}

fn copy_entry(e: &FileEntry) -> (r: FileEntry)
    ensures
        r.view_v() == e.view_v(),
{
    FileEntry {
        name: e.name.clone(),
        path: e.path.clone(),
        is_dir: e.is_dir,
        is_symlink: e.is_symlink,
        is_exec: e.is_exec,
        is_hidden: e.is_hidden,
        size: e.size,
    }
}

/// Whether `a` is listed before `b` (see `listed_before`).
fn before_exec(a: &FileEntry, b: &FileEntry) -> (r: bool)
    ensures
        r == listed_before(a.view_v(), b.view_v()),
{
    if a.is_dir && !b.is_dir {
        return true;
    }
    if a.is_dir != b.is_dir {
        return false;
    }
    let la = to_lowercase(a.name.as_str());
    let lb = to_lowercase(b.name.as_str());
    str_lt(la.as_str(), lb.as_str())
}

fn place_into(v: &mut Vec<FileEntry>, x: FileEntry)
    ensures
        entry_views(final(v)@) == ({
            let s = entry_views(old(v)@);
            let p = place_of(s, x.view_v()) as int;
            s.take(p) + seq![x.view_v()] + s.skip(p)
        }),
{
    let ghost xs = x.view_v();
    let mut p: usize = 0;
    assert(entry_views(v@).skip(0) == entry_views(v@));
    while p < v.len() && !before_exec(&x, &v[p])
        invariant
            p <= v.len(),
            v@ == old(v)@,
            xs == x.view_v(),
            place_of(entry_views(v@), xs) == p + place_of(entry_views(v@).skip(p as int), xs),
        decreases v.len() - p,
    {
        assert(entry_views(v@).skip(p as int)[0] == entry_views(v@)[p as int]);
        assert(entry_views(v@).skip(p as int).drop_first() == entry_views(v@).skip(p + 1));
        p = p + 1;
    }
    proof {
        if p < v.len() {
            assert(entry_views(v@).skip(p as int)[0] == entry_views(v@)[p as int]);
        } else {
            assert(entry_views(v@).skip(p as int).len() == 0);
        }
    }
    v.insert(p, x);
    assert(entry_views(v@) =~= entry_views(old(v)@).take(p as int) + seq![xs] + entry_views(
        old(v)@,
    ).skip(p as int));
}

/// The listing of a directory (see `listing`).
pub fn arrange_files(items: Vec<FileEntry>, show_hidden: bool, dir: &str, has_parent: bool) -> (r: Vec<
    FileEntry,
>)
    ensures
        entry_views(r@) == listing(entry_views(items@), show_hidden, dir@, has_parent),
{
    let ghost es = entry_views(items@);
    let mut kept: Vec<FileEntry> = Vec::new();
    let mut i: usize = 0;
    assert(es.take(0) == Seq::<EntryV>::empty());
    assert(entry_views(kept@) == Seq::<EntryV>::empty());
    while i < items.len()
        invariant
            i <= items.len(),
            es == entry_views(items@),
            entry_views(kept@) == shown(es.take(i as int), show_hidden),
        decreases items.len() - i,
    {
        assert(es.take(i + 1).drop_last() == es.take(i as int));
        assert(es.take(i + 1).last() == items@[i as int].view_v());
        if show_hidden || !items[i].is_hidden {
            let ghost before = entry_views(kept@);
            kept.push(copy_entry(&items[i]));
            assert(entry_views(kept@) == before.push(items@[i as int].view_v()));
        }
        i = i + 1;
    }
    assert(es.take(es.len() as int) == es);
    let ghost ks = entry_views(kept@);
    let mut sorted: Vec<FileEntry> = Vec::new();
    let mut k: usize = 0;
    assert(ks.take(0) == Seq::<EntryV>::empty());
    assert(entry_views(sorted@) == Seq::<EntryV>::empty());
    while k < kept.len()
        invariant
            k <= kept.len(),
            ks == entry_views(kept@),
            entry_views(sorted@) == sorted_listing(ks.take(k as int)),
        decreases kept.len() - k,
    {
        assert(ks.take(k + 1).drop_last() == ks.take(k as int));
        assert(ks.take(k + 1).last() == kept@[k as int].view_v());
        place_into(&mut sorted, copy_entry(&kept[k]));
        k = k + 1;
    }
    assert(ks.take(ks.len() as int) == ks);
    if !has_parent {
        return sorted;
    }
    let up = FileEntry {
        name: "..".to_owned(),
        path: dir.to_owned(),
        is_dir: true,
        is_symlink: false,
        is_exec: false,
        is_hidden: false,
        size: 0,
    };
    let ghost tail = entry_views(sorted@);
    sorted.insert(0, up);
    assert(entry_views(sorted@) =~= seq![up_entry(dir@)] + tail);
    sorted
}

/// The extension of a file name, as `Path::extension` reads it: what
/// follows its last `.`, unless that `.` starts the name.
pub open spec fn extension_of(name: Seq<char>) -> Option<Seq<char>>
    decreases name.len(),
{
    if name.len() == 0 {
        None
    } else if name.last() == '.' {
        if name.len() == 1 {
            None
        } else {
            Some(Seq::empty())
        }
    } else {
        match extension_of(name.drop_last()) {
            Some(e) => Some(e.push(name.last())),
            None => None,
        }
    }
}

/// Image files, which are not loaded ahead.
pub open spec fn is_image_ext(e: Seq<char>) -> bool {
    e == "png"@ || e == "jpg"@ || e == "jpeg"@ || e == "gif"@ || e == "bmp"@ || e == "webp"@
}

/// Whether a file is loaded ahead of being selected: not a directory, not
/// an image (by its lower-cased extension), and not over 5 MiB (`size`,
/// when its size could be read).
pub open spec fn preload_spec(e: EntryV, size: Option<u64>) -> bool {
    &&& !e.is_dir
    &&& match extension_of(e.name) {
        Some(x) => !is_image_ext(lowercase(x)),
        None => true,
    }
    &&& match size {
        Some(n) => n <= 5 * 1024 * 1024,
        None => true,
    }
}

/// The extension of `v` (see `extension_of`).
fn extension_chars(v: &Vec<char>) -> (r: Option<Vec<char>>)
    ensures
        match (r, extension_of(v@)) {
            (Some(a), Some(b)) => a@ == b,
            (None, None) => true,
            _ => false,
        },
{
    let mut i: usize = v.len();
    proof {
        assert(v@.take(v@.len() as int) == v@);
        assert(v@.skip(v@.len() as int) == Seq::<char>::empty());
        match extension_of(v@) {
            Some(e) => assert(e + Seq::<char>::empty() == e),
            None => {},
        }
    }
    while i > 0 && v[i - 1] != '.'
        invariant
            i <= v.len(),
            forall|j: int| i <= j < v.len() ==> v@[j] != '.',
            extension_of(v@) == match extension_of(v@.take(i as int)) {
                Some(e) => Some(e + v@.skip(i as int)),
                None => None,
            },
        decreases i,
    {
        proof {
            assert(v@.take(i as int).drop_last() == v@.take(i - 1));
            assert(v@.take(i as int).last() == v@[i - 1]);
            assert(v@.skip(i - 1) == seq![v@[i - 1]] + v@.skip(i as int));
            match extension_of(v@.take(i - 1)) {
                Some(e) => {
                    assert(e.push(v@[i - 1]) + v@.skip(i as int) == e + v@.skip(i - 1));
                },
                None => {},
            }
        }
        i = i - 1;
    }
    if i <= 1 {
        proof {
            if i == 1 {
                assert(v@.take(1).last() == '.');
            } else {
                assert(v@.take(0).len() == 0);
            }
        }
        return None;
    }
    proof {
        assert(v@.take(i as int).last() == '.');
        assert(Seq::<char>::empty() + v@.skip(i as int) == v@.skip(i as int));
    }
    Some(crate::text::sub_chars(v, i, v.len()))
}

/// Whether `e` is loaded ahead (see `preload_spec`); `size` is its size as
/// read now.
pub fn should_preload(e: &FileEntry, size: Option<u64>) -> (r: bool)
    ensures
        r == preload_spec(e.view_v(), size),
{
    if e.is_dir {
        return false;
    }
    let v = chars_of(e.name.as_str());
    match extension_chars(&v) {
        Some(x) => {
            let xs = crate::text::string_of(&x);
            let low = to_lowercase(xs.as_str());
            let l = low.as_str();
            if crate::text::str_eq(l, "png") || crate::text::str_eq(l, "jpg") || crate::text::str_eq(
                l,
                "jpeg",
            ) || crate::text::str_eq(l, "gif") || crate::text::str_eq(l, "bmp")
                || crate::text::str_eq(l, "webp") {
                return false;
            }
        },
        None => {},
    }
    match size {
        Some(n) => n <= 5 * 1024 * 1024,
        None => true,
    }
}

/// The rows next to row `sel` of a list of `len` rows: the one before and
/// the one after, where there are such rows.
pub fn adjacent_rows(len: usize, sel: Option<usize>) -> (r: (Option<usize>, Option<usize>))
    ensures
        r == match sel {
            Some(i) => (
                if 0 < i && i - 1 < len {
                    Some((i - 1) as usize)
                } else {
                    None
                },
                if i + 1 < len {
                    Some((i + 1) as usize)
                } else {
                    None
                },
            ),
            None => (None, None),
        },
{
    match sel {
        Some(i) => {
            let prev = if i > 0 && i - 1 < len {
                Some(i - 1)
            } else {
                None
            };
            let next = if i < len && i + 1 < len {
                Some(i + 1)
            } else {
                None
            };
            (prev, next)
        },
        None => (None, None),
    }
}

/// The row of the entry named `name`, if any (the first such).
pub fn row_of_name(files: &Vec<FileEntry>, name: &str) -> (r: Option<usize>)
    ensures
        match r {
            Some(i) => i < files@.len() && files@[i as int].name@ == name@ && forall|j: int|
                0 <= j < i ==> files@[j].name@ != name@,
            None => forall|j: int| 0 <= j < files@.len() ==> files@[j].name@ != name@,
        },
{
    let mut i: usize = 0;
    while i < files.len()
        invariant
            i <= files.len(),
            forall|j: int| 0 <= j < i ==> files@[j].name@ != name@,
        decreases files.len() - i,
    {
        if crate::text::str_eq(files[i].name.as_str(), name) {
            return Some(i);
        }
        i = i + 1;
    }
    None
}

} // verus!
