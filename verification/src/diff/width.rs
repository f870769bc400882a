//! Display-column arithmetic for terminal rendering.
//!
//! A tab is four columns wide; every other character is as wide as
//! `unicode_width` says, and control characters take no column.
use vstd::prelude::*;
use crate::text::{
    char_utf8_len, chars_of, lemma_utf8_bytes_le, lemma_utf8_bytes_push, push_repeat, repeat_char,
    utf8_bytes, utf8_len,
};

verus! {

/// What `UnicodeWidthChar::width` returns for a character.
pub uninterp spec fn unicode_width(c: char) -> Option<usize>;

/// Calls `unicode_width::UnicodeWidthChar::width`. The crate's source returns
/// `None` for U+0000..U+001F and U+007F..U+009F, `Some(1)` for U+0020..U+007E,
/// and otherwise a table entry that is at most 3; which entry is not stated.
#[verifier::external_body]
fn unicode_char_width(c: char) -> (r: Option<usize>)
    ensures
        r == unicode_width(c),
        (c as u32) < 0x20 ==> r is None,
        0x20 <= (c as u32) < 0x7F ==> r == Some(1usize),
        0x7F <= (c as u32) < 0xA0 ==> r is None,
        r matches Some(w) ==> w <= 3,
{
    unicode_width::UnicodeWidthChar::width(c)
}

/// Columns taken by one character.
pub open spec fn char_w(c: char) -> nat {
    if c == '\t' {
        4
    } else {
        match unicode_width(c) {
            Some(w) => w as nat,
            None => 0,
        }
    }
}

/// Columns taken by a text.
pub open spec fn text_width(s: Seq<char>) -> nat
    decreases s.len(),
{
    if s.len() == 0 {
        0
    } else {
        text_width(s.drop_last()) + char_w(s.last())
    }
}

/// A text short enough that four columns per character fit in `usize`.
pub open spec fn width_bounded(s: Seq<char>) -> bool {
    4 * s.len() <= usize::MAX
}

/// How a character is shown: a tab as four spaces, anything else as itself.
pub open spec fn shown(c: char) -> Seq<char> {
    if c == '\t' {
        repeat_char(' ', 4)
    } else {
        seq![c]
    }
}

/// How a character is kept when cutting text: as shown when `expand` is set,
/// as itself otherwise.
pub open spec fn kept(c: char, expand: bool) -> Seq<char> {
    if expand {
        shown(c)
    } else {
        seq![c]
    }
}

pub proof fn lemma_text_width_push(s: Seq<char>, c: char)
    ensures
        text_width(s.push(c)) == text_width(s) + char_w(c),
{
    assert(s.push(c).drop_last() == s);
}

pub fn char_width(ch: char) -> (r: usize)
    ensures
        r == char_w(ch),
        r <= 4,
        (ch as u32) < 0x20 && ch != '\t' ==> r == 0,
        0x20 <= (ch as u32) < 0x7F ==> r == 1,
{
    if ch == '\t' {
        4
    } else {
        match unicode_char_width(ch) {
            Some(w) => w,
            None => 0,
        }
    }
}

/// Width in columns of `s`.
pub fn display_width(s: &str) -> (r: usize)
    requires
        width_bounded(s@),
    ensures
        r == text_width(s@),
{
    let v = chars_of(s);
    assert(v@.subrange(0, v@.len() as int) == v@);
    width_of_chars(&v, 0, v.len())
}

/// Width in columns of `v[lo..hi]`.
pub fn width_of_chars(v: &Vec<char>, lo: usize, hi: usize) -> (r: usize)
    requires
        lo <= hi <= v.len(),
        width_bounded(v@),
    ensures
        r == text_width(v@.subrange(lo as int, hi as int)),
        r <= 4 * (hi - lo),
{
    let mut sum: usize = 0;
    let mut i: usize = lo;
    while i < hi
        invariant
            lo <= i <= hi <= v.len(),
            width_bounded(v@),
            sum == text_width(v@.subrange(lo as int, i as int)),
            sum <= 4 * (i - lo),
        decreases hi - i,
    {
        let w = char_width(v[i]);
        proof {
            assert(v@.subrange(lo as int, i + 1) == v@.subrange(lo as int, i as int).push(v@[i as int]));
            lemma_text_width_push(v@.subrange(lo as int, i as int), v@[i as int]);
        }
        sum = sum + w;
        i = i + 1;
    }
    sum
}

/// The text `slice_chars` produces from `s` once `col` columns have been
/// passed and `taken` columns kept: characters wholly left of column `start`
/// are skipped, then characters are kept (tabs as four spaces) while they fit
/// in `max_len` columns, stopping once `max_len` columns are filled.
pub open spec fn slice_from(
    s: Seq<char>,
    start: nat,
    max_len: nat,
    col: nat,
    taken: nat,
    expand: bool,
) -> Seq<char>
    decreases s.len(),
{
    if s.len() == 0 {
        Seq::empty()
    } else {
        let c = s[0];
        let w = char_w(c);
        if col + w <= start {
            slice_from(s.drop_first(), start, max_len, col + w, taken, expand)
        } else if taken + w > max_len {
            Seq::empty()
        } else if taken + w >= max_len {
            kept(c, expand)
        } else {
            kept(c, expand) + slice_from(s.drop_first(), start, max_len, col + w, taken + w, expand)
        }
    }
}

/// The part of `s` seen through a window of `max_len` columns starting at
/// column `start`, tabs expanded when `expand` is set.
pub open spec fn slice_spec_as(s: Seq<char>, start: nat, max_len: nat, expand: bool) -> Seq<char> {
    if max_len == 0 {
        Seq::empty()
    } else {
        slice_from(s, start, max_len, 0, 0, expand)
    }
}

/// The part of `s` seen through a window of `max_len` columns starting at column `start`.
pub open spec fn slice_spec(s: Seq<char>, start: nat, max_len: nat) -> Seq<char> {
    slice_spec_as(s, start, max_len, true)
}

proof fn lemma_skip_first<A>(s: Seq<A>, i: int)
    requires
        0 <= i < s.len(),
    ensures
        s.skip(i).drop_first() == s.skip(i + 1),
        s.skip(i)[0] == s[i],
{
}

fn push_shown(out: &mut String, c: char, expand: bool)
    ensures
        final(out)@ == old(out)@ + kept(c, expand),
{
    if expand && c == '\t' {
        push_repeat(out, ' ', 4);
    } else {
        out.push(c);
        assert(old(out)@.push(c) == old(out)@ + seq![c]);
    }
}

pub fn slice_chars(s: &str, start: usize, max_len: usize) -> (r: String)
    requires
        width_bounded(s@),
    ensures
        r@ == slice_spec(s@, start as nat, max_len as nat),
{
    slice_chars_as(s, start, max_len, true)
}

/// `slice_chars`, with tabs kept as they are unless `expand` is set.
pub fn slice_chars_as(s: &str, start: usize, max_len: usize, expand: bool) -> (r: String)
    requires
        width_bounded(s@),
    ensures
        r@ == slice_spec_as(s@, start as nat, max_len as nat, expand),
{
    if max_len == 0 {
        return String::new();
    }
    let v = chars_of(s);
    let mut out = String::new();
    let mut col: usize = 0;
    let mut taken: usize = 0;
    let mut i: usize = 0;
    assert(v@.skip(0) == v@);
    while i < v.len()
        invariant
            0 <= i <= v.len(),
            v@ == s@,
            width_bounded(s@),
            col <= 4 * i,
            taken <= col,
            taken <= max_len,
            max_len > 0,
            slice_spec_as(s@, start as nat, max_len as nat, expand) == out@ + slice_from(
                v@.skip(i as int),
                start as nat,
                max_len as nat,
                col as nat,
                taken as nat,
                expand,
            ),
        decreases v.len() - i,
    {
        let ch = v[i];
        let w = char_width(ch);
        proof {
            lemma_skip_first(v@, i as int);
        }
        if col + w <= start {
            col = col + w;
            i = i + 1;
            continue;
        }
        if taken + w > max_len {
            assert(out@ + Seq::<char>::empty() == out@);
            return out;
        }
        let ghost before = out@;
        push_shown(&mut out, ch, expand);
        taken = taken + w;
        col = col + w;
        i = i + 1;
        if taken >= max_len {
            return out;
        }
        assert(before + (kept(ch, expand) + slice_from(v@.skip(i as int), start as nat, max_len as nat, col as nat, taken as nat, expand))
            == out@ + slice_from(v@.skip(i as int), start as nat, max_len as nat, col as nat, taken as nat, expand));
    }
    assert(out@ + Seq::<char>::empty() == out@);
    out
}

/// The longest prefix of `s` that fits in `width` columns (tabs shown as four
/// spaces), stopping as soon as `width` columns are filled.
pub open spec fn truncate_from(s: Seq<char>, width: nat, wsum: nat, expand: bool) -> Seq<char>
    decreases s.len(),
{
    if s.len() == 0 {
        Seq::empty()
    } else {
        let c = s[0];
        let w = char_w(c);
        if wsum + w > width {
            Seq::empty()
        } else if wsum + w >= width {
            kept(c, expand)
        } else {
            kept(c, expand) + truncate_from(s.drop_first(), width, wsum + w, expand)
        }
    }
}

pub open spec fn truncate_spec_as(s: Seq<char>, width: nat, expand: bool) -> Seq<char> {
    if width == 0 {
        Seq::empty()
    } else {
        truncate_from(s, width, 0, expand)
    }
}

pub open spec fn truncate_spec(s: Seq<char>, width: nat) -> Seq<char> {
    truncate_spec_as(s, width, true)
}

pub fn truncate_chars(v: &Vec<char>, width: usize, expand: bool) -> (r: String)
    requires
        width_bounded(v@),
    ensures
        r@ == truncate_spec_as(v@, width as nat, expand),
{
    if width == 0 {
        return String::new();
    }
    let mut out = String::new();
    let mut wsum: usize = 0;
    let mut i: usize = 0;
    assert(v@.skip(0) == v@);
    while i < v.len()
        invariant
            0 <= i <= v.len(),
            width_bounded(v@),
            wsum <= width,
            wsum <= 4 * i,
            width > 0,
            truncate_spec_as(v@, width as nat, expand) == out@ + truncate_from(
                v@.skip(i as int),
                width as nat,
                wsum as nat,
                expand,
            ),
        decreases v.len() - i,
    {
        let ch = v[i];
        let w = char_width(ch);
        proof {
            lemma_skip_first(v@, i as int);
        }
        if wsum + w > width {
            assert(out@ + Seq::<char>::empty() == out@);
            return out;
        }
        let ghost before = out@;
        push_shown(&mut out, ch, expand);
        wsum = wsum + w;
        i = i + 1;
        if wsum >= width {
            return out;
        }
        assert(before + (kept(ch, expand) + truncate_from(v@.skip(i as int), width as nat, wsum as nat, expand))
            == out@ + truncate_from(v@.skip(i as int), width as nat, wsum as nat, expand));
    }
    assert(out@ + Seq::<char>::empty() == out@);
    out
}

pub fn truncate_to_width(s: &str, width: usize) -> (r: String)
    requires
        width_bounded(s@),
    ensures
        r@ == truncate_spec(s@, width as nat),
{
    let v = chars_of(s);
    truncate_chars(&v, width, true)
}

/// `truncate_to_width`, with tabs kept as they are unless `expand` is set.
pub fn truncate_to_width_as(s: &str, width: usize, expand: bool) -> (r: String)
    requires
        width_bounded(s@),
    ensures
        r@ == truncate_spec_as(s@, width as nat, expand),
{
    let v = chars_of(s);
    truncate_chars(&v, width, expand)
}

/// `s` cut (tabs kept as they are unless `expand` is set) or padded with
/// spaces to fill `width` columns.
pub open spec fn pad_spec_as(s: Seq<char>, width: nat, expand: bool) -> Seq<char> {
    if width == 0 {
        Seq::empty()
    } else if text_width(s) >= width {
        truncate_spec_as(s, width, expand)
    } else {
        s + repeat_char(' ', (width - text_width(s)) as nat)
    }
}

/// `s` cut or padded with spaces to exactly fill `width` columns when it is narrower.
pub open spec fn pad_spec(s: Seq<char>, width: nat) -> Seq<char> {
    pad_spec_as(s, width, true)
}

pub fn pad_to_width(s: String, width: usize) -> (r: String)
    requires
        width_bounded(s@),
    ensures
        r@ == pad_spec(s@, width as nat),
        0 < width && text_width(s@) < width ==> text_width(r@) == width,
{
    // The width table makes a space one column wide; asking it brings that
    // fact to the proof below.
    let _ = char_width(' ');
    proof {
        if 0 < width && text_width(s@) < width {
            let n = (width - text_width(s@)) as nat;
            lemma_spaces_width(n);
            law_width_additive(s@, repeat_char(' ', n));
        }
    }
    pad_to_width_as(s, width, true)
}

/// `pad_to_width`, with tabs kept as they are unless `expand` is set.
pub fn pad_to_width_as(s: String, width: usize, expand: bool) -> (r: String)
    requires
        width_bounded(s@),
    ensures
        r@ == pad_spec_as(s@, width as nat, expand),
{
    let mut s = s;
    if width == 0 {
        return String::new();
    }
    let v = chars_of(s.as_str());
    let w = width_of_chars(&v, 0, v.len());
    assert(v@.subrange(0, v@.len() as int) == v@);
    if w >= width {
        return truncate_chars(&v, width, expand);
    }
    push_repeat(&mut s, ' ', width - w);
    s
}

/// Byte offset of the first character of `s` that reaches past column
/// `target`, once `col` columns and `byte` bytes precede `s`; the end of the
/// text when none does.
pub open spec fn byte_for_col_from(s: Seq<char>, target: nat, col: nat, byte: nat) -> nat
    decreases s.len(),
{
    if s.len() == 0 {
        byte
    } else if col + char_w(s[0]) > target {
        byte
    } else {
        byte_for_col_from(s.drop_first(), target, col + char_w(s[0]), byte + utf8_len(s[0]))
    }
}

pub open spec fn byte_for_col(s: Seq<char>, target: nat) -> nat {
    if target == 0 {
        0
    } else {
        byte_for_col_from(s, target, 0, 0)
    }
}

/// The byte offset of the first character that does not fit within
/// `target_col` columns (the text's byte length when all fit).
pub fn byte_index_for_col(s: &str, target_col: usize) -> (r: usize)
    requires
        width_bounded(s@),
    ensures
        r == byte_for_col(s@, target_col as nat),
{
    if target_col == 0 {
        return 0;
    }
    let v = chars_of(s);
    let mut col: usize = 0;
    let mut byte: usize = 0;
    let mut i: usize = 0;
    assert(v@.skip(0) == v@);
    proof {
        lemma_utf8_bytes_le(v@);
        assert(v@.take(0) == Seq::<char>::empty());
    }
    while i < v.len()
        invariant
            0 <= i <= v.len(),
            v@ == s@,
            width_bounded(s@),
            col <= 4 * i,
            col <= target_col,
            byte == utf8_bytes(v@.take(i as int)),
            byte <= 4 * i,
            byte_for_col(s@, target_col as nat) == byte_for_col_from(
                v@.skip(i as int),
                target_col as nat,
                col as nat,
                byte as nat,
            ),
        decreases v.len() - i,
    {
        let ch = v[i];
        let w = char_width(ch);
        proof {
            lemma_skip_first(v@, i as int);
        }
        if col + w > target_col {
            return byte;
        }
        col = col + w;
        let b = char_utf8_len(ch);
        proof {
            assert(v@.take(i + 1) == v@.take(i as int).push(ch));
            lemma_utf8_bytes_push(v@.take(i as int), ch);
        }
        byte = byte + b;
        i = i + 1;
    }
    byte
}

/// Columns taken by the characters of `s` that begin before byte `target`,
/// once `byte` bytes precede `s`.
pub open spec fn col_for_byte_from(s: Seq<char>, target: nat, byte: nat) -> nat
    decreases s.len(),
{
    if s.len() == 0 || byte >= target {
        0
    } else {
        char_w(s[0]) + col_for_byte_from(s.drop_first(), target, byte + utf8_len(s[0]))
    }
}

/// The display column at which byte `target_byte` of `s` starts.
pub fn col_for_byte(s: &str, target_byte: usize) -> (r: usize)
    requires
        width_bounded(s@),
    ensures
        r == col_for_byte_from(s@, target_byte as nat, 0),
{
    let v = chars_of(s);
    let mut col: usize = 0;
    let mut byte: usize = 0;
    let mut i: usize = 0;
    assert(v@.skip(0) == v@);
    proof {
        assert(v@.take(0) == Seq::<char>::empty());
    }
    while i < v.len()
        invariant
            0 <= i <= v.len(),
            v@ == s@,
            width_bounded(s@),
            col <= 4 * i,
            byte == utf8_bytes(v@.take(i as int)),
            byte <= 4 * i,
            col_for_byte_from(s@, target_byte as nat, 0) == col + col_for_byte_from(
                v@.skip(i as int),
                target_byte as nat,
                byte as nat,
            ),
        decreases v.len() - i,
    {
        let ch = v[i];
        proof {
            lemma_skip_first(v@, i as int);
        }
        if byte >= target_byte {
            return col;
        }
        let w = char_width(ch);
        col = col + w;
        let b = char_utf8_len(ch);
        proof {
            assert(v@.take(i + 1) == v@.take(i as int).push(ch));
            lemma_utf8_bytes_push(v@.take(i as int), ch);
        }
        byte = byte + b;
        i = i + 1;
    }
    col
}

/// `s` with every tab replaced by four spaces.
pub open spec fn expand_spec(s: Seq<char>) -> Seq<char>
    decreases s.len(),
{
    if s.len() == 0 {
        Seq::empty()
    } else {
        expand_spec(s.drop_last()) + shown(s.last())
    }
}

pub fn expand_tab_chars(v: &Vec<char>, lo: usize) -> (r: String)
    requires
        lo <= v.len(),
    ensures
        r@ == expand_spec(v@.skip(lo as int)),
{
    let mut out = String::new();
    let mut i: usize = lo;
    assert(v@.subrange(lo as int, lo as int) == Seq::<char>::empty());
    while i < v.len()
        invariant
            lo <= i <= v.len(),
            out@ == expand_spec(v@.subrange(lo as int, i as int)),
        decreases v.len() - i,
    {
        push_shown(&mut out, v[i], true);
        assert(v@.subrange(lo as int, i + 1).drop_last() == v@.subrange(lo as int, i as int));
        i = i + 1;
    }
    assert(v@.subrange(lo as int, v@.len() as int) == v@.skip(lo as int));
    out
}

pub fn expand_tabs(s: &str) -> (r: String)
    ensures
        r@ == expand_spec(s@),
        !r@.contains('\t'),
        text_width(r@) == text_width(s@),
        expand_spec(r@) == r@,
{
    // The width table makes a space one column wide; asking it brings that
    // fact to the proof below.
    let _ = char_width(' ');
    proof {
        law_expand_tabs_idempotent(s@);
        lemma_expand_width(s@);
    }
    let v = chars_of(s);
    assert(v@.skip(0) == v@);
    expand_tab_chars(&v, 0)
}

// ---------------------------------------------------------------------------
// Laws
// ---------------------------------------------------------------------------

proof fn lemma_byte_for_col_boundary(s: Seq<char>, target: nat, col: nat, k: int)
    requires
        0 <= k <= s.len(),
    ensures
        exists|j: int|
            k <= j <= s.len() && byte_for_col_from(s.skip(k), target, col, utf8_bytes(s.take(k)))
                == utf8_bytes(s.take(j)),
    decreases s.len() - k,
{
    let t = s.skip(k);
    let b = utf8_bytes(s.take(k));
    if t.len() == 0 || col + char_w(t[0]) > target {
        assert(byte_for_col_from(t, target, col, b) == utf8_bytes(s.take(k)));
    } else {
        assert(t.drop_first() == s.skip(k + 1));
        assert(s.take(k + 1) == s.take(k).push(s[k]));
        lemma_utf8_bytes_push(s.take(k), s[k]);
        lemma_byte_for_col_boundary(s, target, col + char_w(t[0]), k + 1);
    }
}

proof fn lemma_col_at_byte(s: Seq<char>, target: nat, col: nat, k: int)
    requires
        0 <= k <= s.len(),
    ensures
        ({
            let b = byte_for_col_from(s.skip(k), target, col, utf8_bytes(s.take(k)));
            col <= target ==> col + col_for_byte_from(s.skip(k), b, utf8_bytes(s.take(k))) <= target
        }),
    decreases s.len() - k,
{
    let t = s.skip(k);
    let b0 = utf8_bytes(s.take(k));
    let b = byte_for_col_from(t, target, col, b0);
    if t.len() == 0 || col + char_w(t[0]) > target {
        assert(b == b0);
    } else {
        assert(t.drop_first() == s.skip(k + 1));
        assert(s.take(k + 1) == s.take(k).push(s[k]));
        lemma_utf8_bytes_push(s.take(k), s[k]);
        lemma_col_at_byte(s, target, col + char_w(t[0]), k + 1);
        lemma_byte_for_col_ge(s, target, col + char_w(t[0]), k + 1);
    }
}

proof fn lemma_byte_for_col_ge(s: Seq<char>, target: nat, col: nat, k: int)
    requires
        0 <= k <= s.len(),
    ensures
        byte_for_col_from(s.skip(k), target, col, utf8_bytes(s.take(k))) >= utf8_bytes(s.take(k)),
    decreases s.len() - k,
{
    let t = s.skip(k);
    if t.len() == 0 || col + char_w(t[0]) > target {
    } else {
        assert(t.drop_first() == s.skip(k + 1));
        assert(s.take(k + 1) == s.take(k).push(s[k]));
        lemma_utf8_bytes_push(s.take(k), s[k]);
        lemma_byte_for_col_ge(s, target, col + char_w(t[0]), k + 1);
    }
}

/// The byte offset that `byte_index_for_col` returns always falls between two
/// characters (it is the UTF-8 length of a prefix), and the column at which
/// that byte starts is never past the requested column.
pub proof fn law_byte_index_for_col_boundary(s: Seq<char>, target: nat)
    ensures
        exists|j: int| 0 <= j <= s.len() && byte_for_col(s, target) == utf8_bytes(s.take(j)),
        col_for_byte_from(s, byte_for_col(s, target), 0) <= target,
{
    assert(s.skip(0) == s);
    assert(s.take(0) == Seq::<char>::empty());
    if target == 0 {
        assert(byte_for_col(s, target) == utf8_bytes(s.take(0)));
    } else {
        lemma_byte_for_col_boundary(s, target, 0, 0);
        lemma_col_at_byte(s, target, 0, 0);
    }
}

// ---------------------------------------------------------------------------
// Laws of widths
// ---------------------------------------------------------------------------

/// Widths add up over concatenation: the empty text takes no column and a
/// tab takes four.
pub proof fn law_width_additive(a: Seq<char>, b: Seq<char>)
    ensures
        text_width(a + b) == text_width(a) + text_width(b),
        text_width(Seq::<char>::empty()) == 0,
        text_width(seq!['\t']) == 4,
    decreases b.len(),
{
    assert(seq!['\t'].drop_last() == Seq::<char>::empty());
    if b.len() > 0 {
        law_width_additive(a, b.drop_last());
        assert((a + b).drop_last() == a + b.drop_last());
        assert((a + b).last() == b.last());
    } else {
        assert(a + b == a);
    }
}

/// Byte lengths add up over concatenation.
proof fn lemma_utf8_additive(a: Seq<char>, b: Seq<char>)
    ensures
        utf8_bytes(a + b) == utf8_bytes(a) + utf8_bytes(b),
    decreases b.len(),
{
    if b.len() > 0 {
        lemma_utf8_additive(a, b.drop_last());
        assert((a + b).drop_last() == a + b.drop_last());
        assert((a + b).last() == b.last());
    } else {
        assert(a + b == a);
    }
}

proof fn lemma_col_past_end(s: Seq<char>, target: nat, byte: nat)
    requires
        byte + utf8_bytes(s) <= target,
    ensures
        col_for_byte_from(s, target, byte) == text_width(s),
    decreases s.len(),
{
    if s.len() > 0 {
        let rest = s.drop_first();
        assert(seq![s[0]] + rest == s);
        lemma_utf8_additive(seq![s[0]], rest);
        law_width_additive(seq![s[0]], rest);
        assert(seq![s[0]].drop_last() == Seq::<char>::empty());
        assert(utf8_len(s[0]) >= 1);
        lemma_col_past_end(rest, target, byte + utf8_len(s[0]));
    }
}

/// Byte 0 starts at column 0, and any byte at or past the end of `s` starts
/// at its full width.
pub proof fn law_col_for_byte_ends(s: Seq<char>, target: nat)
    ensures
        col_for_byte_from(s, 0, 0) == 0,
        target >= utf8_bytes(s) ==> col_for_byte_from(s, target, 0) == text_width(s),
{
    if target >= utf8_bytes(s) {
        lemma_col_past_end(s, target, 0);
    }
}

/// Expanding tabs leaves no tab, and expanding again changes nothing.
pub proof fn law_expand_tabs_idempotent(s: Seq<char>)
    ensures
        !expand_spec(s).contains('\t'),
        expand_spec(expand_spec(s)) == expand_spec(s),
{
    lemma_expand_no_tab(s);
    lemma_expand_fixed(expand_spec(s));
}

proof fn lemma_expand_no_tab(s: Seq<char>)
    ensures
        !expand_spec(s).contains('\t'),
    decreases s.len(),
{
    if s.len() > 0 {
        lemma_expand_no_tab(s.drop_last());
        let a = expand_spec(s.drop_last());
        let b = shown(s.last());
        assert forall|i: int| 0 <= i < (a + b).len() implies (a + b)[i] != '\t' by {
            if i < a.len() {
                assert((a + b)[i] == a[i]);
            } else {
                assert((a + b)[i] == b[i - a.len()]);
            }
        }
    }
}

proof fn lemma_expand_fixed(t: Seq<char>)
    requires
        !t.contains('\t'),
    ensures
        expand_spec(t) == t,
    decreases t.len(),
{
    if t.len() > 0 {
        assert(!t.drop_last().contains('\t')) by {
            assert forall|i: int| 0 <= i < t.drop_last().len() implies t.drop_last()[i] != '\t' by {
                assert(t.drop_last()[i] == t[i]);
            }
        }
        lemma_expand_fixed(t.drop_last());
        assert(t.last() != '\t') by {
            assert(t[t.len() - 1] == t.last());
        }
        assert(t.drop_last() + seq![t.last()] == t);
    }
}

/// With a space one column wide, `n` spaces take `n` columns.
proof fn lemma_spaces_width(n: nat)
    requires
        char_w(' ') == 1,
    ensures
        text_width(repeat_char(' ', n)) == n,
    decreases n,
{
    if n > 0 {
        lemma_spaces_width((n - 1) as nat);
        assert(repeat_char(' ', n).drop_last() == repeat_char(' ', (n - 1) as nat));
    }
}

/// With a space one column wide, expanding tabs keeps the width.
proof fn lemma_expand_width(s: Seq<char>)
    requires
        char_w(' ') == 1,
    ensures
        text_width(expand_spec(s)) == text_width(s),
    decreases s.len(),
{
    if s.len() > 0 {
        lemma_expand_width(s.drop_last());
        law_width_additive(expand_spec(s.drop_last()), shown(s.last()));
        if s.last() == '\t' {
            lemma_spaces_width(4);
        } else {
            assert(seq![s.last()].drop_last() == Seq::<char>::empty());
        }
    }
}

} // verus!
