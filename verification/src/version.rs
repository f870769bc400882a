//! Comparing release versions.
use vstd::prelude::*;
use crate::text::{chars_of, keep_some, parse_u32, split_char};

verus! {

/// The numeric parts of a version: its `.`-separated pieces that read as
/// `u32` numbers, in order (others are skipped).
pub open spec fn version_parts(v: Seq<char>) -> Seq<u32> {
    keep_some(split_char(v, '.'), |p: Seq<char>| parse_u32(p))
}

/// Part `i`, or 0 past the end.
pub open spec fn part_or_zero(s: Seq<u32>, i: int) -> u32 {
    if 0 <= i < s.len() {
        s[i]
    } else {
        0
    }
}

/// Whether `a` is above `b` comparing parts from `i` on, missing parts
/// counting as 0: the first part that differs decides.
pub open spec fn newer_from(a: Seq<u32>, b: Seq<u32>, i: nat) -> bool
    decreases (if a.len() > b.len() {
        a.len()
    } else {
        b.len()
    }) - i,
{
    if i >= a.len() && i >= b.len() {
        false
    } else if part_or_zero(a, i as int) > part_or_zero(b, i as int) {
        true
    } else if part_or_zero(a, i as int) < part_or_zero(b, i as int) {
        false
    } else {
        newer_from(a, b, i + 1)
    }
}

/// The numeric parts of the version `v` (see `version_parts`).
fn parts_of(v: &str) -> (r: Vec<u32>)
    ensures
        r@ == version_parts(v@),
{
    let cs = chars_of(v);
    let pieces = crate::text::split_chars(&cs, '.', 0);
    let ghost ps = pieces@.map_values(|x: Vec<char>| x@);
    let mut r: Vec<u32> = Vec::new();
    let mut k: usize = 0;
    assert(ps.take(0) == Seq::<Seq<char>>::empty());
    while k < pieces.len()
        invariant
            k <= pieces.len(),
            ps == pieces@.map_values(|x: Vec<char>| x@),
            ps == split_char(v@, '.'),
            r@ == keep_some(ps.take(k as int), |p: Seq<char>| parse_u32(p)),
        decreases pieces.len() - k,
    {
        proof {
            crate::text::lemma_keep_some_step(ps, |p: Seq<char>| parse_u32(p), k as int);
        }
        let piece = &pieces[k];
        let n = crate::text::parse_u32_chars(piece, 0, piece.len());
        assert(piece@.subrange(0, piece@.len() as int) == piece@);
        assert(ps[k as int] == piece@);
        if let Some(x) = n {
            r.push(x);
        }
        k = k + 1;
    }
    assert(ps.take(ps.len() as int) == ps);
    r
}

/// Whether version `new` is newer than `current`: their numeric parts
/// compared in order, missing parts counting as 0 (so "0.4.1" is newer
/// than "0.3.7", and "1.0" is not newer than "1.0.0").
pub fn is_newer_version(new: &str, current: &str) -> (r: bool)
    ensures
        r == newer_from(version_parts(new@), version_parts(current@), 0),
{
    let a = parts_of(new);
    let b = parts_of(current);
    let n = if a.len() > b.len() {
        a.len()
    } else {
        b.len()
    };
    let mut i: usize = 0;
    while i < n
        invariant
            i <= n,
            n == (if a.len() > b.len() {
                a.len()
            } else {
                b.len()
            }),
            a@ == version_parts(new@),
            b@ == version_parts(current@),
            newer_from(a@, b@, 0) == newer_from(a@, b@, i as nat),
        decreases n - i,
    {
        let x = if i < a.len() {
            a[i]
        } else {
            0
        };
        let y = if i < b.len() {
            b[i]
        } else {
            0
        };
        assert(x == part_or_zero(a@, i as int) && y == part_or_zero(b@, i as int));
        if x > y {
            return true;
        }
        if x < y {
            return false;
        }
        i = i + 1;
    }
    false
}


proof fn lemma_newer_from_asym(a: Seq<u32>, b: Seq<u32>, i: nat)
    ensures
        !(newer_from(a, b, i) && newer_from(b, a, i)),
        !newer_from(a, a, i),
    decreases (if a.len() > b.len() {
        a.len()
    } else {
        b.len()
    }) - i,
{
    if !(i >= a.len() && i >= b.len()) && part_or_zero(a, i as int) == part_or_zero(b, i as int) {
        lemma_newer_from_asym(a, b, i + 1);
    }
    if i < a.len() {
        lemma_newer_from_asym(a, a, i + 1);
    }
}

/// No version is newer than itself, and of two versions at most one is
/// newer than the other.
pub proof fn law_newer_is_strict(a: Seq<char>, b: Seq<char>)
    ensures
        !newer_from(version_parts(a), version_parts(a), 0),
        !(newer_from(version_parts(a), version_parts(b), 0) && newer_from(
            version_parts(b),
            version_parts(a),
            0,
        )),
{
    lemma_newer_from_asym(version_parts(a), version_parts(b), 0);
    lemma_newer_from_asym(version_parts(a), version_parts(a), 0);
}

} // verus!
