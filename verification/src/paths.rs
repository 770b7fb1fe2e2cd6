//! Byte-level path handling.
//!
//! Host paths are byte strings with `/` separators; recovered Windows
//! paths use `\` and a drive prefix.  The helpers here split paths into
//! segments, read file names and extensions, and map a recovered
//! `C:\...` path into a compatibility-layer prefix.

use vstd::prelude::*;
use crate::text::{
    contains_bytes, contains_seq, lower, lower_byte, lower_byte_exec, rfind_end, rfind_end_seq,
    seq_eq, subvec, to_lower,
};
use vstd::string::StringSliceAdditionalSpecFns;

verus! {

/// Path separator of host paths (`/`).
pub const SEP: u8 = 47;

/// Backslash, the separator of Windows paths.
pub const BACKSLASH: u8 = 92;

/// Append `cur` to `acc` when it is a non-empty segment.
pub open spec fn flush_segment(acc: Seq<Seq<u8>>, cur: Seq<u8>) -> Seq<Seq<u8>> {
    if cur.len() > 0 {
        acc.push(cur)
    } else {
        acc
    }
}

/// The slash-separated segments of `p` from position `i` on.
pub open spec fn segments_from(p: Seq<u8>, i: int, cur: Seq<u8>, acc: Seq<Seq<u8>>) -> Seq<Seq<u8>>
    decreases p.len() - i,
{
    if !(0 <= i < p.len()) {
        flush_segment(acc, cur)
    } else if p[i] == SEP {
        segments_from(p, i + 1, Seq::empty(), flush_segment(acc, cur))
    } else {
        segments_from(p, i + 1, cur.push(p[i]), acc)
    }
}

/// The non-empty slash-separated segments of a host path.
pub open spec fn segments_of(p: Seq<u8>) -> Seq<Seq<u8>> {
    segments_from(p, 0, Seq::empty(), Seq::empty())
}

/// The file name of a host path: its last segment, empty when there is
/// none.
pub open spec fn file_name_of(p: Seq<u8>) -> Seq<u8> {
    if segments_of(p).len() == 0 {
        Seq::empty()
    } else {
        segments_of(p).last()
    }
}

/// The extension of a file name: what follows the last dot, provided
/// something other than the dot precedes it.
pub open spec fn extension_of(name: Seq<u8>) -> Option<Seq<u8>> {
    match rfind_end_seq(name, ".".spec_bytes()) {
        Some(e) => if e - 1 > 0 {
            Some(name.subrange(e, name.len() as int))
        } else {
            None
        },
        None => None,
    }
}

/// The stem of a file name: what precedes its extension's dot.
pub open spec fn file_stem_of(name: Seq<u8>) -> Seq<u8> {
    match rfind_end_seq(name, ".".spec_bytes()) {
        Some(e) => if e - 1 > 0 {
            name.subrange(0, e - 1)
        } else {
            name
        },
        None => name,
    }
}

/// The path names an `.exe` file (case-insensitively).
pub open spec fn is_exe_path(p: Seq<u8>) -> bool {
    match extension_of(file_name_of(p)) {
        Some(x) => lower(x) == "exe".spec_bytes(),
        None => false,
    }
}

/// The views of a vector of byte strings.
pub open spec fn seg_views(v: Seq<Vec<u8>>) -> Seq<Seq<u8>> {
    v.map_values(|x: Vec<u8>| x@)
}

/// Split a host path into its non-empty slash-separated segments.
pub fn segments(p: &[u8]) -> (r: Vec<Vec<u8>>)
    ensures
        seg_views(r@) == segments_of(p@),
{
    let n = p.len();
    let mut r: Vec<Vec<u8>> = Vec::new();
    let mut cur: Vec<u8> = Vec::new();
    let mut i: usize = 0;
    proof {
        assert(seg_views(r@) =~= Seq::<Seq<u8>>::empty());
        assert(cur@ =~= Seq::<u8>::empty());
    }
    while i < n
        invariant
            n == p@.len(),
            i <= n,
            segments_of(p@) == segments_from(p@, i as int, cur@, seg_views(r@)),
        decreases n - i,
    {
        let b = p[i];
        if b == SEP {
            if cur.len() > 0 {
                proof {
                    assert(seg_views(r@.push(cur)) =~= seg_views(r@).push(cur@));
                }
                r.push(cur);
            }
            cur = Vec::new();
        } else {
            cur.push(b);
        }
        i = i + 1;
    }
    if cur.len() > 0 {
        proof {
            assert(seg_views(r@.push(cur)) =~= seg_views(r@).push(cur@));
        }
        r.push(cur);
    }
    r
}

/// The file name of a host path, empty when it has no segment.
pub fn file_name(p: &[u8]) -> (r: Vec<u8>)
    ensures
        r@ == file_name_of(p@),
{
    let mut segs = segments(p);
    if segs.len() == 0 {
        Vec::new()
    } else {
        let last = segs.remove(segs.len() - 1);
        proof {
            assert(last@ == seg_views(segs@.push(last))[segs@.push(last).len() - 1]);
        }
        last
    }
}

/// The stem of a file name.
pub fn file_stem(name: &[u8]) -> (r: Vec<u8>)
    ensures
        r@ == file_stem_of(name@),
{
    match rfind_end(name, ".".as_bytes()) {
        Some(e) => if e > 1 {
            subvec(name, 0, e - 1)
        } else {
            subvec(name, 0, name.len())
        },
        None => subvec(name, 0, name.len()),
    }
}

/// Does the path name an `.exe` file (case-insensitively)?
pub fn is_exe_file(p: &[u8]) -> (r: bool)
    ensures
        r == is_exe_path(p@),
{
    let name = file_name(p);
    match rfind_end(name.as_slice(), ".".as_bytes()) {
        Some(e) => if e > 1 {
            let ext = subvec(name.as_slice(), e, name.len());
            let low = to_lower(ext.as_slice());
            seq_eq(low.as_slice(), "exe".as_bytes())
        } else {
            false
        },
        None => false,
    }
}

/// Does the path carry this extension (case-insensitively)?
pub fn has_extension(p: &[u8], ext: &[u8]) -> (r: bool)
    ensures
        r == (match extension_of(file_name_of(p@)) {
            Some(x) => lower(x) == lower(ext@),
            None => false,
        }),
{
    let name = file_name(p);
    match rfind_end(name.as_slice(), ".".as_bytes()) {
        Some(e) => if e > 1 {
            let x = subvec(name.as_slice(), e, name.len());
            let low = to_lower(x.as_slice());
            let elow = to_lower(ext);
            seq_eq(low.as_slice(), elow.as_slice())
        } else {
            false
        },
        None => false,
    }
}

/// Does the path, case folded, contain the needle?
pub fn path_contains_case_insensitive(p: &[u8], needle: &[u8]) -> (r: bool)
    ensures
        r == contains_seq(lower(p@), lower(needle@)),
{
    let low = to_lower(p);
    let nlow = to_lower(needle);
    contains_bytes(low.as_slice(), nlow.as_slice())
}

/// The segments of `d` are a leading run of the segments of `p`: the
/// path lies inside the directory.
pub open spec fn within_dir(p: Seq<u8>, d: Seq<u8>) -> bool {
    let ps = segments_of(p);
    let ds = segments_of(d);
    ds.len() <= ps.len() && ps.subrange(0, ds.len() as int) == ds
}

/// Does the path lie inside the directory, compared segment by segment?
pub fn path_within_dir(p: &[u8], d: &[u8]) -> (r: bool)
    ensures
        r == within_dir(p@, d@),
{
    let ps = segments(p);
    let ds = segments(d);
    let dn = ds.len();
    if dn > ps.len() {
        return false;
    }
    let mut i: usize = 0;
    while i < dn
        invariant
            dn == ds@.len(),
            dn <= ps@.len(),
            i <= dn,
            seg_views(ps@) == segments_of(p@),
            seg_views(ds@) == segments_of(d@),
            forall|k: int| 0 <= k < i ==> seg_views(ps@)[k] == seg_views(ds@)[k],
        decreases dn - i,
    {
        if !seq_eq(ps[i].as_slice(), ds[i].as_slice()) {
            proof {
                assert(segments_of(p@).subrange(0, dn as int)[i as int] != segments_of(
                    d@,
                )[i as int]);
            }
            return false;
        }
        i = i + 1;
    }
    proof {
        assert(segments_of(p@).subrange(0, dn as int) =~= segments_of(d@));
    }
    true
}

/// Drop this leading byte, repeatedly.
pub open spec fn drop_leading(s: Seq<u8>, b: u8) -> Seq<u8>
    decreases s.len(),
{
    if s.len() > 0 && s.first() == b {
        drop_leading(s.drop_first(), b)
    } else {
        s
    }
}

/// Drop this trailing byte, repeatedly.
pub open spec fn drop_trailing(s: Seq<u8>, b: u8) -> Seq<u8>
    decreases s.len(),
{
    if s.len() > 0 && s.last() == b {
        drop_trailing(s.drop_last(), b)
    } else {
        s
    }
}

/// ASCII whitespace.
pub open spec fn is_space(b: u8) -> bool {
    b == 32 || b == 9 || b == 10 || b == 13 || b == 11 || b == 12
}

/// Drop leading ASCII whitespace.
pub open spec fn drop_leading_ws(s: Seq<u8>) -> Seq<u8>
    decreases s.len(),
{
    if s.len() > 0 && is_space(s.first()) {
        drop_leading_ws(s.drop_first())
    } else {
        s
    }
}

/// Drop trailing ASCII whitespace.
pub open spec fn drop_trailing_ws(s: Seq<u8>) -> Seq<u8>
    decreases s.len(),
{
    if s.len() > 0 && is_space(s.last()) {
        drop_trailing_ws(s.drop_last())
    } else {
        s
    }
}

/// A recovered Windows path, stripped of surrounding quotes and
/// whitespace.
pub open spec fn trimmed_input(s: Seq<u8>) -> Seq<u8> {
    drop_trailing_ws(drop_leading_ws(drop_trailing(drop_leading(s, 34), 34)))
}

pub fn is_space_exec(b: u8) -> (r: bool)
    ensures
        r == is_space(b),
{
    b == 32 || b == 9 || b == 10 || b == 13 || b == 11 || b == 12
}

/// Strip surrounding quotes, then surrounding whitespace.
pub fn trim_input(s: &[u8]) -> (r: Vec<u8>)
    ensures
        r@ == trimmed_input(s@),
{
    let n = s.len();
    let mut lo: usize = 0;
    let mut hi: usize = n;
    proof {
        assert(s@.skip(0) =~= s@);
    }
    while lo < hi && s[lo] == 34
        invariant
            n == s@.len(),
            lo <= hi <= n,
            hi == n,
            drop_leading(s@, 34) == drop_leading(s@.skip(lo as int), 34),
        decreases hi - lo,
    {
        proof {
            assert(s@.skip(lo as int).first() == s@[lo as int]);
            assert(s@.skip(lo as int).drop_first() =~= s@.skip(lo + 1));
            assert(drop_leading(s@.skip(lo as int), 34) == drop_leading(s@.skip(lo + 1), 34));
        }
        lo = lo + 1;
    }
    while hi > lo && s[hi - 1] == 34
        invariant
            n == s@.len(),
            lo <= hi <= n,
            drop_leading(s@, 34) == drop_leading(s@.skip(lo as int), 34),
            drop_trailing(drop_leading(s@, 34), 34) == drop_trailing(
                s@.subrange(lo as int, hi as int),
                34,
            ),
            lo < hi ==> s@[lo as int] != 34,
        decreases hi - lo,
    {
        proof {
            assert(s@.subrange(lo as int, hi as int).last() == s@[hi - 1]);
            assert(s@.subrange(lo as int, hi as int).drop_last() =~= s@.subrange(
                lo as int,
                hi - 1,
            ));
            assert(drop_trailing(s@.subrange(lo as int, hi as int), 34) == drop_trailing(
                s@.subrange(lo as int, hi - 1),
                34,
            ));
        }
        hi = hi - 1;
    }
    proof {
        if lo < hi {
            assert(s@.subrange(lo as int, hi as int).first() == s@[lo as int]);
            assert(s@.subrange(lo as int, hi as int).last() == s@[hi - 1]);
        } else {
            assert(s@.subrange(lo as int, hi as int) =~= Seq::<u8>::empty());
        }
        assert(drop_leading(s@, 34) == s@.skip(lo as int));
        assert(s@.skip(lo as int) =~= s@.subrange(lo as int, n as int));
        assert(drop_trailing(drop_leading(s@, 34), 34) == s@.subrange(lo as int, hi as int));
    }
    // Now strip whitespace from the quote-stripped range.
    while lo < hi && is_space_exec(s[lo])
        invariant
            n == s@.len(),
            lo <= hi <= n,
            drop_leading_ws(drop_trailing(drop_leading(s@, 34), 34)) == drop_leading_ws(
                s@.subrange(lo as int, hi as int),
            ),
        decreases hi - lo,
    {
        proof {
            assert(s@.subrange(lo as int, hi as int).first() == s@[lo as int]);
            assert(s@.subrange(lo as int, hi as int).drop_first() =~= s@.subrange(
                lo + 1,
                hi as int,
            ));
            assert(drop_leading_ws(s@.subrange(lo as int, hi as int)) == drop_leading_ws(
                s@.subrange(lo + 1, hi as int),
            ));
        }
        lo = lo + 1;
    }
    while hi > lo && is_space_exec(s[hi - 1])
        invariant
            n == s@.len(),
            lo <= hi <= n,
            trimmed_input(s@) == drop_trailing_ws(s@.subrange(lo as int, hi as int)),
            lo < hi ==> !is_space(s@[lo as int]),
        decreases hi - lo,
    {
        proof {
            assert(s@.subrange(lo as int, hi as int).last() == s@[hi - 1]);
            assert(s@.subrange(lo as int, hi as int).drop_last() =~= s@.subrange(
                lo as int,
                hi - 1,
            ));
            assert(drop_trailing_ws(s@.subrange(lo as int, hi as int)) == drop_trailing_ws(
                s@.subrange(lo as int, hi - 1),
            ));
        }
        hi = hi - 1;
    }
    proof {
        if lo < hi {
            assert(s@.subrange(lo as int, hi as int).first() == s@[lo as int]);
            assert(s@.subrange(lo as int, hi as int).last() == s@[hi - 1]);
        } else {
            assert(s@.subrange(lo as int, hi as int) =~= Seq::<u8>::empty());
        }
        assert(trimmed_input(s@) == s@.subrange(lo as int, hi as int));
    }
    subvec(s, lo, hi)
}

/// Strip surrounding ASCII whitespace.
pub fn trim_ws(s: &[u8]) -> (r: Vec<u8>)
    ensures
        r@ == drop_trailing_ws(drop_leading_ws(s@)),
{
    let n = s.len();
    let mut lo: usize = 0;
    let mut hi: usize = n;
    proof {
        assert(s@.subrange(0, n as int) =~= s@);
    }
    while lo < hi && is_space_exec(s[lo])
        invariant
            n == s@.len(),
            lo <= hi <= n,
            hi == n,
            drop_leading_ws(s@) == drop_leading_ws(s@.subrange(lo as int, hi as int)),
        decreases hi - lo,
    {
        proof {
            assert(s@.subrange(lo as int, hi as int).first() == s@[lo as int]);
            assert(s@.subrange(lo as int, hi as int).drop_first() =~= s@.subrange(
                lo + 1,
                hi as int,
            ));
            assert(drop_leading_ws(s@.subrange(lo as int, hi as int)) == drop_leading_ws(
                s@.subrange(lo + 1, hi as int),
            ));
        }
        lo = lo + 1;
    }
    proof {
        if lo < hi {
            assert(s@.subrange(lo as int, hi as int).first() == s@[lo as int]);
        } else {
            assert(s@.subrange(lo as int, hi as int) =~= Seq::<u8>::empty());
        }
        assert(drop_leading_ws(s@) == s@.subrange(lo as int, hi as int));
    }
    while hi > lo && is_space_exec(s[hi - 1])
        invariant
            n == s@.len(),
            lo <= hi <= n,
            drop_trailing_ws(drop_leading_ws(s@)) == drop_trailing_ws(
                s@.subrange(lo as int, hi as int),
            ),
        decreases hi - lo,
    {
        proof {
            assert(s@.subrange(lo as int, hi as int).last() == s@[hi - 1]);
            assert(s@.subrange(lo as int, hi as int).drop_last() =~= s@.subrange(
                lo as int,
                hi - 1,
            ));
            assert(drop_trailing_ws(s@.subrange(lo as int, hi as int)) == drop_trailing_ws(
                s@.subrange(lo as int, hi - 1),
            ));
        }
        hi = hi - 1;
    }
    proof {
        if lo < hi {
            assert(s@.subrange(lo as int, hi as int).last() == s@[hi - 1]);
        } else {
            assert(s@.subrange(lo as int, hi as int) =~= Seq::<u8>::empty());
        }
        assert(drop_trailing_ws(drop_leading_ws(s@)) == s@.subrange(lo as int, hi as int));
    }
    subvec(s, lo, hi)
}

/// The directory part of a path: everything before the last separator,
/// `None` for a bare name.
pub open spec fn parent_dir_of(p: Seq<u8>) -> Option<Seq<u8>> {
    match rfind_end_seq(p, seq![SEP]) {
        Some(e) => Some(p.subrange(0, e - 1)),
        None => None,
    }
}

/// The directory part of a path.
pub fn parent_dir(p: &[u8]) -> (r: Option<Vec<u8>>)
    ensures
        match r {
            Some(d) => parent_dir_of(p@) == Some(d@),
            None => parent_dir_of(p@) is None,
        },
{
    let mut sep: Vec<u8> = Vec::new();
    sep.push(SEP);
    proof {
        assert(sep@ =~= seq![SEP]);
    }
    match rfind_end(p, sep.as_slice()) {
        Some(e) => Some(subvec(p, 0, e - 1)),
        None => None,
    }
}

/// Forward slashes turned into backslashes.
pub open spec fn to_backslashes(s: Seq<u8>) -> Seq<u8> {
    s.map_values(|b: u8| if b == SEP { BACKSLASH } else { b })
}

/// Backslashes turned into forward slashes.
pub open spec fn to_slashes(s: Seq<u8>) -> Seq<u8> {
    s.map_values(|b: u8| if b == BACKSLASH { SEP } else { b })
}

/// The host path of a recovered Windows path inside a prefix, `None`
/// when the path is too short or not rooted at the system drive: the
/// trimmed input must begin `c:\` (case-insensitively, either slash),
/// and the rest is joined under the prefix's `drive_c` subtree.
pub open spec fn host_path_of(prefix: Seq<u8>, wp: Seq<u8>) -> Option<Seq<u8>> {
    let t = trimmed_input(wp);
    if t.len() < 3 {
        None
    } else {
        let norm = to_backslashes(t);
        if lower_byte(norm[0]) == 99 && norm[1] == 58 && norm[2] == BACKSLASH {
            Some(prefix + "/drive_c/".spec_bytes() + to_slashes(norm.skip(3)))
        } else {
            None
        }
    }
}

/// Append a borrowed byte string.
pub fn push_all(dst: &mut Vec<u8>, src: &[u8])
    ensures
        final(dst)@ == old(dst)@ + src@,
{
    let n = src.len();
    let mut i: usize = 0;
    proof {
        assert(dst@ =~= dst@ + src@.subrange(0, 0));
    }
    while i < n
        invariant
            n == src@.len(),
            i <= n,
            dst@ == old(dst)@ + src@.subrange(0, i as int),
        decreases n - i,
    {
        dst.push(src[i]);
        proof {
            assert(old(dst)@ + src@.subrange(0, i + 1) =~= (old(dst)@ + src@.subrange(
                0,
                i as int,
            )).push(src@[i as int]));
        }
        i = i + 1;
    }
    proof {
        assert(src@.subrange(0, n as int) =~= src@);
    }
}

/// Map a recovered Windows path to the corresponding host path inside
/// the prefix.
pub fn windows_path_to_host(prefix: &[u8], windows_path: &[u8]) -> (r: Option<Vec<u8>>)
    ensures
        match r {
            Some(v) => host_path_of(prefix@, windows_path@) == Some(v@),
            None => host_path_of(prefix@, windows_path@) is None,
        },
{
    let t = trim_input(windows_path);
    if t.len() < 3 {
        return None;
    }
    let n = t.len();
    let mut norm: Vec<u8> = Vec::new();
    let mut i: usize = 0;
    proof {
        assert(norm@ =~= to_backslashes(t@.subrange(0, 0)));
    }
    while i < n
        invariant
            n == t@.len(),
            i <= n,
            norm@ == to_backslashes(t@.subrange(0, i as int)),
        decreases n - i,
    {
        let b = t[i];
        norm.push(if b == SEP {
            BACKSLASH
        } else {
            b
        });
        proof {
            assert(to_backslashes(t@.subrange(0, i + 1)) =~= to_backslashes(
                t@.subrange(0, i as int),
            ).push(if t@[i as int] == SEP {
                BACKSLASH
            } else {
                t@[i as int]
            }));
        }
        i = i + 1;
    }
    proof {
        assert(t@.subrange(0, n as int) =~= t@);
    }
    if !(lower_byte_exec(norm[0]) == 99 && norm[1] == 58 && norm[2] == BACKSLASH) {
        return None;
    }
    let mut out: Vec<u8> = Vec::new();
    push_all(&mut out, prefix);
    push_all(&mut out, "/drive_c/".as_bytes());
    let mut j: usize = 3;
    let ghost base = out@;
    proof {
        assert(base =~= base + to_slashes(norm@.subrange(3, 3)));
    }
    while j < n
        invariant
            n == norm@.len(),
            3 <= j <= n,
            out@ == base + to_slashes(norm@.subrange(3, j as int)),
        decreases n - j,
    {
        let b = norm[j];
        out.push(if b == BACKSLASH {
            SEP
        } else {
            b
        });
        proof {
            assert(base + to_slashes(norm@.subrange(3, j + 1)) =~= (base + to_slashes(
                norm@.subrange(3, j as int),
            )).push(if norm@[j as int] == BACKSLASH {
                SEP
            } else {
                norm@[j as int]
            }));
        }
        j = j + 1;
    }
    proof {
        assert(norm@.subrange(3, n as int) =~= norm@.skip(3));
        assert(out@ == prefix@ + "/drive_c/".spec_bytes() + to_slashes(norm@.skip(3)));
    }
    Some(out)
}

/// The first name of `base`, `base-1`, `base-2`, ... not yet taken;
/// `base` itself when all numbered variants are taken.
pub open spec fn numbered_name(base: Seq<u8>, idx: int) -> Seq<u8> {
    base + "-".spec_bytes() + digits_of(idx)
}

/// Decimal digits of a non-negative number.
pub open spec fn digits_of(n: int) -> Seq<u8>
    decreases n,
{
    if n <= 0 {
        Seq::empty()
    } else {
        digits_of(n / 10).push((48 + n % 10) as u8)
    }
}

/// Decimal rendering of a positive counter.
pub fn render_counter(n: u64) -> (r: Vec<u8>)
    requires
        0 < n,
    ensures
        r@ == digits_of(n as int),
{
    let mut digits_rev: Vec<u8> = Vec::new();
    let mut m = n;
    proof {
        assert(digits_rev@.reverse() =~= Seq::<u8>::empty());
        assert(digits_of(n as int) =~= digits_of(n as int) + digits_rev@.reverse());
    }
    while m > 0
        invariant
            digits_of(n as int) == digits_of(m as int) + digits_rev@.reverse(),
        decreases m,
    {
        let d: u8 = 48 + (m % 10) as u8;
        let ghost old_rev = digits_rev@;
        digits_rev.push(d);
        proof {
            assert(digits_rev@.reverse() =~= seq![d] + old_rev.reverse());
            assert(digits_of(m as int) == digits_of(m as int / 10).push(d));
            assert(digits_of(m as int / 10) + digits_rev@.reverse() =~= digits_of(m as int)
                + old_rev.reverse());
        }
        m = m / 10;
    }
    proof {
        assert(digits_of(0) =~= Seq::<u8>::empty());
        assert(digits_of(n as int) =~= digits_rev@.reverse());
    }
    let dn = digits_rev.len();
    let mut r: Vec<u8> = Vec::new();
    let mut k: usize = dn;
    proof {
        assert(r@ =~= digits_rev@.reverse().subrange(0, 0));
    }
    while k > 0
        invariant
            dn == digits_rev@.len(),
            k <= dn,
            r@ == digits_rev@.reverse().subrange(0, (dn - k) as int),
        decreases k,
    {
        r.push(digits_rev[k - 1]);
        proof {
            assert(digits_rev@.reverse()[dn - k] == digits_rev@[k - 1]);
            assert(digits_rev@.reverse().subrange(0, (dn - (k - 1)) as int)
                =~= digits_rev@.reverse().subrange(0, (dn - k) as int).push(digits_rev@[k - 1]));
        }
        k = k - 1;
    }
    proof {
        assert(digits_rev@.reverse().subrange(0, dn as int) =~= digits_rev@.reverse());
    }
    r
}

} // verus!
