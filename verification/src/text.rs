//! Byte-string utilities shared by the scanning, matching and scoring logic.
//!
//! All text handled by this crate is ASCII-oriented: titles, executable
//! paths and archive names are compared byte by byte after ASCII case
//! folding, exactly as the heuristics require.  Text is therefore carried
//! as `Vec<u8>` throughout the library.

use vstd::prelude::*;

verus! {

/// Lower bound of the ASCII upper-case letters ('A').
pub const UPPER_A: u8 = 65;
/// Upper bound of the ASCII upper-case letters ('Z').
pub const UPPER_Z: u8 = 90;
/// Distance between an ASCII upper-case letter and its lower-case form.
pub const CASE_GAP: u8 = 32;

/// ASCII case folding of a single byte: upper-case letters are mapped to
/// their lower-case form, all other bytes are unchanged.
pub open spec fn lower_byte(b: u8) -> u8 {
    if UPPER_A <= b && b <= UPPER_Z {
        (b + CASE_GAP) as u8
    } else {
        b
    }
}

/// Byte-wise ASCII case folding of a whole byte string.
pub open spec fn lower(s: Seq<u8>) -> Seq<u8> {
    s.map_values(|b: u8| lower_byte(b))
}

/// `p` occurs in `s` starting at position `i`.
pub open spec fn matches_at(s: Seq<u8>, p: Seq<u8>, i: int) -> bool {
    0 <= i && i + p.len() <= s.len() && s.subrange(i, i + p.len() as int) == p
}

/// `p` occurs somewhere in `s` as a contiguous run.
pub open spec fn contains_seq(s: Seq<u8>, p: Seq<u8>) -> bool {
    exists|i: int| matches_at(s, p, i)
}

/// `s` begins with `p`.
pub open spec fn starts_with_seq(s: Seq<u8>, p: Seq<u8>) -> bool {
    p.len() <= s.len() && s.subrange(0, p.len() as int) == p
}

/// `s` ends with `p`.
pub open spec fn ends_with_seq(s: Seq<u8>, p: Seq<u8>) -> bool {
    p.len() <= s.len() && s.subrange(s.len() - p.len(), s.len() as int) == p
}

/// The byte is an ASCII decimal digit.
pub open spec fn is_digit(b: u8) -> bool {
    48 <= b && b <= 57
}

/// The byte is an ASCII letter.
pub open spec fn is_alpha(b: u8) -> bool {
    (65 <= b && b <= 90) || (97 <= b && b <= 122)
}

/// The byte is an ASCII letter or digit.
pub open spec fn is_alnum(b: u8) -> bool {
    is_digit(b) || is_alpha(b)
}

/// The byte is printable ASCII other than space (the `is_ascii_graphic`
/// range).
pub open spec fn is_graphic(b: u8) -> bool {
    33 <= b && b <= 126
}

pub fn lower_byte_exec(b: u8) -> (r: u8)
    ensures
        r == lower_byte(b),
{
    if UPPER_A <= b && b <= UPPER_Z {
        b + CASE_GAP
    } else {
        b
    }
}

/// ASCII case folding of a byte string.
pub fn to_lower(s: &[u8]) -> (r: Vec<u8>)
    ensures
        r@ == lower(s@),
{
    let mut r: Vec<u8> = Vec::new();
    let mut i: usize = 0;
    while i < s.len()
        invariant
            i <= s.len(),
            r@ == lower(s@.subrange(0, i as int)),
        decreases s.len() - i,
    {
        r.push(lower_byte_exec(s[i]));
        proof {
            assert(s@.subrange(0, i + 1) =~= s@.subrange(0, i as int).push(s@[i as int]));
            assert(lower(s@.subrange(0, i + 1)) =~= lower(s@.subrange(0, i as int)).push(
                lower_byte(s@[i as int]),
            ));
        }
        i = i + 1;
    }
    proof {
        assert(s@.subrange(0, s@.len() as int) =~= s@);
    }
    r
}

pub fn is_digit_exec(b: u8) -> (r: bool)
    ensures
        r == is_digit(b),
{
    48 <= b && b <= 57
}

pub fn is_alpha_exec(b: u8) -> (r: bool)
    ensures
        r == is_alpha(b),
{
    (65 <= b && b <= 90) || (97 <= b && b <= 122)
}

pub fn is_alnum_exec(b: u8) -> (r: bool)
    ensures
        r == is_alnum(b),
{
    is_digit_exec(b) || is_alpha_exec(b)
}

pub fn is_graphic_exec(b: u8) -> (r: bool)
    ensures
        r == is_graphic(b),
{
    33 <= b && b <= 126
}

/// Byte-string equality.
pub fn seq_eq(a: &[u8], b: &[u8]) -> (r: bool)
    ensures
        r == (a@ == b@),
{
    if a.len() != b.len() {
        proof {
            assert(a@ != b@);
        }
        return false;
    }
    let mut i: usize = 0;
    while i < a.len()
        invariant
            a@.len() == b@.len(),
            i <= a.len(),
            forall|j: int| 0 <= j < i ==> a@[j] == b@[j],
        decreases a.len() - i,
    {
        if a[i] != b[i] {
            return false;
        }
        i = i + 1;
    }
    proof {
        assert(a@ =~= b@);
    }
    true
}

/// `p` occurs in `s` starting at `i` (bounds already known to hold).
fn matches_at_exec(s: &[u8], p: &[u8], i: usize) -> (r: bool)
    requires
        i + p@.len() <= s@.len(),
    ensures
        r == matches_at(s@, p@, i as int),
{
    let n = s.len();
    let m = p.len();
    let mut j: usize = 0;
    while j < m
        invariant
            n == s@.len(),
            m == p@.len(),
            i + m <= n,
            j <= m,
            forall|k: int| 0 <= k < j ==> s@[i + k] == p@[k],
        decreases m - j,
    {
        if s[i + j] != p[j] {
            proof {
                assert(s@.subrange(i as int, i + p@.len()) != p@) by {
                    assert(s@.subrange(i as int, i + p@.len())[j as int] != p@[j as int]);
                }
            }
            return false;
        }
        j = j + 1;
    }
    proof {
        assert(s@.subrange(i as int, i + p@.len()) =~= p@);
    }
    true
}

/// Substring search: does `p` occur anywhere in `s`?
pub fn contains_bytes(s: &[u8], p: &[u8]) -> (r: bool)
    ensures
        r == contains_seq(s@, p@),
{
    let n = s.len();
    let m = p.len();
    if m > n {
        proof {
            assert(forall|i: int| !matches_at(s@, p@, i));
        }
        return false;
    }
    if m == 0 {
        proof {
            assert(matches_at(s@, p@, 0)) by {
                assert(s@.subrange(0, 0) =~= p@);
            }
        }
        return true;
    }
    let mut i: usize = 0;
    let last: usize = n - m;
    while i <= last
        invariant
            n == s@.len(),
            m == p@.len(),
            0 < m <= n,
            last == n - m,
            i <= last + 1,
            forall|k: int| 0 <= k < i ==> !matches_at(s@, p@, k),
        decreases last - i + 1,
    {
        if matches_at_exec(s, p, i) {
            return true;
        }
        i = i + 1;
    }
    proof {
        assert(forall|k: int| matches_at(s@, p@, k) ==> 0 <= k <= last);
    }
    false
}

/// Does `s` begin with `p`?
pub fn starts_with_bytes(s: &[u8], p: &[u8]) -> (r: bool)
    ensures
        r == starts_with_seq(s@, p@),
{
    if p.len() > s.len() {
        return false;
    }
    matches_at_exec(s, p, 0)
}

/// Does `s` end with `p`?
pub fn ends_with_bytes(s: &[u8], p: &[u8]) -> (r: bool)
    ensures
        r == ends_with_seq(s@, p@),
{
    if p.len() > s.len() {
        return false;
    }
    let r = matches_at_exec(s, p, s.len() - p.len());
    proof {
        assert(matches_at(s@, p@, s@.len() - p@.len()) == ends_with_seq(s@, p@));
    }
    r
}

/// Helper for `rfind_end_seq`: the end of the last occurrence of `p` in
/// `s` that starts at or before `i`.
pub open spec fn rfind_end_from(s: Seq<u8>, p: Seq<u8>, i: int) -> Option<int>
    decreases i + 1,
{
    if i < 0 {
        None
    } else if matches_at(s, p, i) {
        Some(i + p.len() as int)
    } else if i == 0 {
        None
    } else {
        rfind_end_from(s, p, i - 1)
    }
}

/// Index just past the last occurrence of `p` in `s`, `None` when `p`
/// does not occur.
pub open spec fn rfind_end_seq(s: Seq<u8>, p: Seq<u8>) -> Option<int> {
    if p.len() > s.len() {
        None
    } else {
        rfind_end_from(s, p, s.len() - p.len())
    }
}

/// Index just past the last occurrence of `p` in `s`, if any: the largest
/// `e` such that `p` ends at `e`.
pub fn rfind_end(s: &[u8], p: &[u8]) -> (r: Option<usize>)
    ensures
        match r {
            Some(e) => {
                &&& p@.len() <= e <= s@.len()
                &&& matches_at(s@, p@, e - p@.len())
                &&& forall|k: int| e - p@.len() < k ==> !matches_at(s@, p@, k)
                &&& rfind_end_seq(s@, p@) == Some(e as int)
            },
            None => !contains_seq(s@, p@) && rfind_end_seq(s@, p@) is None,
        },
{
    let n = s.len();
    let m = p.len();
    if m > n {
        proof {
            assert(forall|i: int| !matches_at(s@, p@, i));
        }
        return None;
    }
    let mut i: usize = n - m;
    loop
        invariant
            n == s@.len(),
            m == p@.len(),
            m <= n,
            i <= n - m,
            forall|k: int| i < k ==> !matches_at(s@, p@, k),
            rfind_end_seq(s@, p@) == rfind_end_from(s@, p@, i as int),
        decreases i + 1,
    {
        if matches_at_exec(s, p, i) {
            proof {
                assert(rfind_end_from(s@, p@, i as int) == Some(i + p@.len() as int));
            }
            return Some(i + m);
        }
        if i == 0 {
            proof {
                assert(forall|k: int| matches_at(s@, p@, k) ==> k > 0);
                assert(rfind_end_from(s@, p@, 0) is None);
            }
            return None;
        }
        proof {
            assert(rfind_end_from(s@, p@, i as int) == rfind_end_from(s@, p@, i - 1));
        }
        i = i - 1;
    }
}

/// Lexicographic order on byte strings, with shorter prefixes first.
pub open spec fn lex_le(a: Seq<u8>, b: Seq<u8>) -> bool
    decreases a.len(),
{
    if a.len() == 0 {
        true
    } else if b.len() == 0 {
        false
    } else if a.first() < b.first() {
        true
    } else if a.first() > b.first() {
        false
    } else {
        lex_le(a.drop_first(), b.drop_first())
    }
}

/// `lex_le` is reflexive.
pub proof fn lemma_lex_le_refl(a: Seq<u8>)
    ensures
        lex_le(a, a),
    decreases a.len(),
{
    if a.len() != 0 {
        lemma_lex_le_refl(a.drop_first());
    }
}

/// `lex_le` is total: two byte strings are always comparable.
pub proof fn lemma_lex_le_total(a: Seq<u8>, b: Seq<u8>)
    ensures
        lex_le(a, b) || lex_le(b, a),
    decreases a.len(),
{
    if a.len() != 0 && b.len() != 0 && a.first() == b.first() {
        lemma_lex_le_total(a.drop_first(), b.drop_first());
    }
}

/// `lex_le` is antisymmetric: mutual order means equality.
pub proof fn lemma_lex_le_antisym(a: Seq<u8>, b: Seq<u8>)
    requires
        lex_le(a, b),
        lex_le(b, a),
    ensures
        a == b,
    decreases a.len(),
{
    if a.len() == 0 {
        assert(b.len() == 0);
        assert(a =~= b);
    } else {
        lemma_lex_le_antisym(a.drop_first(), b.drop_first());
        assert(a =~= seq![a.first()] + a.drop_first());
        assert(b =~= seq![b.first()] + b.drop_first());
    }
}

/// `lex_le` is transitive.
pub proof fn lemma_lex_le_trans(a: Seq<u8>, b: Seq<u8>, c: Seq<u8>)
    requires
        lex_le(a, b),
        lex_le(b, c),
    ensures
        lex_le(a, c),
    decreases a.len(),
{
    if a.len() != 0 && b.len() != 0 && c.len() != 0 && a.first() == b.first() && b.first()
        == c.first() {
        lemma_lex_le_trans(a.drop_first(), b.drop_first(), c.drop_first());
    }
}

/// Lexicographic comparison of two byte strings.
pub fn lex_le_exec(a: &[u8], b: &[u8]) -> (r: bool)
    ensures
        r == lex_le(a@, b@),
    decreases a@.len(),
{
    let an = a.len();
    let bn = b.len();
    let mut i: usize = 0;
    proof {
        assert(a@.skip(0) =~= a@);
        assert(b@.skip(0) =~= b@);
    }
    loop
        invariant
            an == a@.len(),
            bn == b@.len(),
            i <= an,
            i <= bn,
            lex_le(a@, b@) == lex_le(a@.skip(i as int), b@.skip(i as int)),
        decreases an - i,
    {
        if i == an {
            proof {
                assert(lex_le(a@.skip(i as int), b@.skip(i as int)));
            }
            return true;
        }
        if i == bn {
            proof {
                assert(!lex_le(a@.skip(i as int), b@.skip(i as int)));
            }
            return false;
        }
        let x = a[i];
        let y = b[i];
        proof {
            assert(a@.skip(i as int).first() == a@[i as int]);
            assert(b@.skip(i as int).first() == b@[i as int]);
            assert(a@.skip(i as int).drop_first() =~= a@.skip(i + 1));
            assert(b@.skip(i as int).drop_first() =~= b@.skip(i + 1));
        }
        if x < y {
            return true;
        }
        if x > y {
            return false;
        }
        i = i + 1;
    }
}

/// Copy of the range `[from, to)` of `s`.
pub fn subvec(s: &[u8], from: usize, to: usize) -> (r: Vec<u8>)
    requires
        from <= to <= s@.len(),
    ensures
        r@ == s@.subrange(from as int, to as int),
{
    let mut r: Vec<u8> = Vec::new();
    let mut i: usize = from;
    while i < to
        invariant
            from <= i <= to <= s@.len(),
            r@ == s@.subrange(from as int, i as int),
        decreases to - i,
    {
        r.push(s[i]);
        proof {
            assert(s@.subrange(from as int, i + 1) =~= s@.subrange(from as int, i as int).push(
                s@[i as int],
            ));
        }
        i = i + 1;
    }
    r
}

/// The views of a list of byte strings.
pub open spec fn list_views(list: Seq<Vec<u8>>) -> Seq<Seq<u8>> {
    list.map_values(|v: Vec<u8>| v@)
}

/// Is the byte string among the listed ones?
pub fn list_contains(list: &Vec<Vec<u8>>, x: &[u8]) -> (r: bool)
    ensures
        r == list_views(list@).contains(x@),
{
    let n = list.len();
    let mut i: usize = 0;
    while i < n
        invariant
            n == list@.len(),
            i <= n,
            forall|j: int| 0 <= j < i ==> #[trigger] list_views(list@)[j] != x@,
        decreases n - i,
    {
        if seq_eq(list[i].as_slice(), x) {
            proof {
                assert(list_views(list@)[i as int] == x@);
            }
            return true;
        }
        i = i + 1;
    }
    false
}

} // verus!
