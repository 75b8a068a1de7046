//! Lexicographic ordering on text, the basis of every sorting invariant in
//! the crate: recipe contents and tree siblings are ordered by kind first and
//! then by name, where names compare lexicographically by character.

use vstd::prelude::*;

verus! {

/// `a` is lexicographically at most `b`, comparing character by character.
pub open spec fn lex_le(a: Seq<char>, b: Seq<char>) -> bool
    decreases a.len(),
{
    if a.len() == 0 {
        true
    } else if b.len() == 0 {
        false
    } else if (a[0] as u32) < (b[0] as u32) {
        true
    } else if (b[0] as u32) < (a[0] as u32) {
        false
    } else {
        lex_le(a.skip(1), b.skip(1))
    }
}

/// Orders pairs of a numeric kind rank and a name: lower ranks first, and
/// names lexicographically within one rank.
pub open spec fn rank_le(ra: int, na: Seq<char>, rb: int, nb: Seq<char>) -> bool {
    ra < rb || (ra == rb && lex_le(na, nb))
}

pub proof fn lemma_lex_le_refl(a: Seq<char>)
    ensures
        lex_le(a, a),
    decreases a.len(),
{
    if a.len() != 0 {
        lemma_lex_le_refl(a.skip(1));
    }
}

pub proof fn lemma_lex_le_total(a: Seq<char>, b: Seq<char>)
    ensures
        lex_le(a, b) || lex_le(b, a),
    decreases a.len(),
{
    if a.len() != 0 && b.len() != 0 && !((a[0] as u32) < (b[0] as u32)) && !((b[0] as u32) < (
    a[0] as u32)) {
        lemma_lex_le_total(a.skip(1), b.skip(1));
    }
}

pub proof fn lemma_lex_le_trans(a: Seq<char>, b: Seq<char>, c: Seq<char>)
    requires
        lex_le(a, b),
        lex_le(b, c),
    ensures
        lex_le(a, c),
    decreases a.len(),
{
    if a.len() != 0 && b.len() != 0 && c.len() != 0 && a[0] as u32 == b[0] as u32 && b[0] as u32
        == c[0] as u32 {
        lemma_lex_le_trans(a.skip(1), b.skip(1), c.skip(1));
    }
}

pub proof fn lemma_rank_le_total(ra: int, na: Seq<char>, rb: int, nb: Seq<char>)
    ensures
        rank_le(ra, na, rb, nb) || rank_le(rb, nb, ra, na),
{
    lemma_lex_le_total(na, nb);
}

pub proof fn lemma_rank_le_trans(
    ra: int,
    na: Seq<char>,
    rb: int,
    nb: Seq<char>,
    rc: int,
    nc: Seq<char>,
)
    requires
        rank_le(ra, na, rb, nb),
        rank_le(rb, nb, rc, nc),
    ensures
        rank_le(ra, na, rc, nc),
{
    if ra == rb && rb == rc {
        lemma_lex_le_trans(na, nb, nc);
    }
}

/// Decides `lex_le` on string slices.
pub fn str_le(a: &str, b: &str) -> (r: bool)
    ensures
        r == lex_le(a@, b@),
    decreases a@.len(),
{
    let alen = a.unicode_len();
    let blen = b.unicode_len();
    if alen == 0 {
        true
    } else if blen == 0 {
        false
    } else {
        let ca = a.get_char(0);
        let cb = b.get_char(0);
        if (ca as u32) < (cb as u32) {
            true
        } else if (cb as u32) < (ca as u32) {
            false
        } else {
            let ra = a.substring_char(1, alen);
            let rb = b.substring_char(1, blen);
            assert(ra@ =~= a@.skip(1));
            assert(rb@ =~= b@.skip(1));
            str_le(ra, rb)
        }
    }
}

/// `a` is a prefix of `b`.
pub open spec fn is_prefix(a: Seq<char>, b: Seq<char>) -> bool {
    a.len() <= b.len() && (forall|k: int| 0 <= k < a.len() ==> a[k] == b[k])
}

/// Decides `is_prefix` on string slices.
pub fn is_prefix_str(a: &str, b: &str) -> (r: bool)
    ensures
        r == is_prefix(a@, b@),
{
    let alen = a.unicode_len();
    let blen = b.unicode_len();
    if alen > blen {
        return false;
    }
    let mut i: usize = 0;
    while i < alen
        invariant
            i <= alen,
            alen == a@.len(),
            blen == b@.len(),
            alen <= blen,
            forall|k: int| 0 <= k < i ==> a@[k] == b@[k],
        decreases alen - i,
    {
        if a.get_char(i) != b.get_char(i) {
            return false;
        }
        i += 1;
    }
    true
}

/// Decides character-for-character equality on string slices.
pub fn str_eq(a: &str, b: &str) -> (r: bool)
    ensures
        r == (a@ =~= b@),
{
    let sa = a.to_owned();
    let sb = b.to_owned();
    let r = sa == sb;
    proof {
        if a@ =~= b@ {
            assert(sa@ == sb@);
        }
    }
    r
}

} // verus!
