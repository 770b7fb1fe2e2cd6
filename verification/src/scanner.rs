//! Heuristic scanning of Windows shortcut files.
//!
//! A shortcut file is treated as an opaque byte blob.  Printable runs are
//! recovered in two decodings (8-bit ASCII and 16-bit little-endian), and
//! each run is scanned for `<letter>:\` drive-rooted paths that mention an
//! `.exe` extension.  The scanner also detects shortcuts that merely point
//! at a URL.

use vstd::prelude::*;
use crate::text::{
    contains_bytes, contains_seq, is_alnum, is_alpha, is_alpha_exec, is_graphic, is_graphic_exec,
    lemma_lex_le_antisym, lemma_lex_le_refl, lemma_lex_le_total, lemma_lex_le_trans, lex_le,
    lex_le_exec, lower, rfind_end, rfind_end_seq, subvec, to_lower,
};
use vstd::string::StringSliceAdditionalSpecFns;

verus! {

/// Minimum length of a printable run that is kept as a recovered string.
pub const MIN_RUN_LEN: usize = 6;

/// A byte that may appear in a recovered string: printable ASCII or space.
pub open spec fn is_printable(b: u8) -> bool {
    is_graphic(b) || b == 32
}

/// A byte that may appear inside a drive-rooted path candidate.
pub open spec fn is_path_byte(b: u8) -> bool {
    is_alnum(b) || b == 92 || b == 47 || b == 46 || b == 95 || b == 45 || b == 32 || b == 40
        || b == 41
}

/// Append `cur` to `acc` when it is long enough to count as a recovered
/// string.
pub open spec fn flush_run(acc: Seq<Seq<u8>>, cur: Seq<u8>) -> Seq<Seq<u8>> {
    if cur.len() >= MIN_RUN_LEN {
        acc.push(cur)
    } else {
        acc
    }
}

/// The printable runs of `s` from position `i` on, given a run `cur`
/// already in progress and runs `acc` already recovered.
pub open spec fn ascii_runs_from(s: Seq<u8>, i: int, cur: Seq<u8>, acc: Seq<Seq<u8>>) -> Seq<
    Seq<u8>,
>
    decreases s.len() - i,
{
    if !(0 <= i < s.len()) {
        flush_run(acc, cur)
    } else if is_printable(s[i]) {
        ascii_runs_from(s, i + 1, cur.push(s[i]), acc)
    } else {
        ascii_runs_from(s, i + 1, Seq::empty(), flush_run(acc, cur))
    }
}

/// All printable ASCII runs of length at least `MIN_RUN_LEN` in `s`, in
/// order of appearance.
pub open spec fn ascii_sequences(s: Seq<u8>) -> Seq<Seq<u8>> {
    ascii_runs_from(s, 0, Seq::empty(), Seq::empty())
}

/// The 16-bit little-endian printable runs of `s` from position `i` on.
/// A code unit belongs to a run when its high byte is zero and its low
/// byte is printable; a zero code unit or a malformed pair ends the run.
pub open spec fn utf16_runs_from(s: Seq<u8>, i: int, cur: Seq<u8>, acc: Seq<Seq<u8>>) -> Seq<
    Seq<u8>,
>
    decreases s.len() - i,
{
    if !(0 <= i && i + 1 < s.len()) {
        flush_run(acc, cur)
    } else if s[i + 1] == 0 && s[i] == 0 {
        utf16_runs_from(s, i + 2, Seq::empty(), flush_run(acc, cur))
    } else if s[i + 1] == 0 && is_printable(s[i]) {
        utf16_runs_from(s, i + 2, cur.push(s[i]), acc)
    } else {
        utf16_runs_from(s, i + 1, Seq::empty(), flush_run(acc, cur))
    }
}

/// All 16-bit little-endian printable runs of `s`, decoded to bytes.
pub open spec fn utf16_sequences(s: Seq<u8>) -> Seq<Seq<u8>> {
    utf16_runs_from(s, 0, Seq::empty(), Seq::empty())
}

/// Both decodings of a shortcut blob, ASCII runs first.
pub open spec fn recovered_sequences(s: Seq<u8>) -> Seq<Seq<u8>> {
    ascii_sequences(s) + utf16_sequences(s)
}

/// A `<letter>:\` drive root begins at position `i` of `s`, with room for
/// the scan to continue.
pub open spec fn drive_root_at(s: Seq<u8>, i: int) -> bool {
    0 <= i && i + 2 < s.len() && is_alpha(s[i]) && s[i + 1] == 58 && s[i + 2] == 92
}

/// First position at or after `j` whose byte may not appear in a path
/// (or the end of `s`).
pub open spec fn path_run_end(s: Seq<u8>, j: int) -> int
    decreases s.len() - j,
{
    if !(0 <= j < s.len()) {
        j
    } else if is_path_byte(s[j]) {
        path_run_end(s, j + 1)
    } else {
        j
    }
}

pub proof fn lemma_path_run_end_bounds(s: Seq<u8>, j: int)
    requires
        0 <= j <= s.len(),
    ensures
        j <= path_run_end(s, j) <= s.len(),
    decreases s.len() - j,
{
    if 0 <= j < s.len() && is_path_byte(s[j]) {
        lemma_path_run_end_bounds(s, j + 1);
    }
}

/// The `.exe` extension, as bytes.
pub open spec fn exe_ext() -> Seq<u8> {
    ".exe".spec_bytes()
}

/// The candidate kept from the greedy path run `s[i..end]`: the run cut
/// just after the last case-insensitive `.exe`, or nothing when the run
/// never mentions that extension.
pub open spec fn exe_candidate(s: Seq<u8>, i: int, end: int) -> Option<Seq<u8>> {
    match rfind_end_seq(lower(s.subrange(i, end)), exe_ext()) {
        Some(e) => Some(s.subrange(i, i + e)),
        None => None,
    }
}

/// The drive-rooted `.exe` paths found in `s` from position `i` on.
pub open spec fn exe_paths_from(s: Seq<u8>, i: int, acc: Seq<Seq<u8>>) -> Seq<Seq<u8>>
    decreases s.len() - i via exe_paths_from_decreases
{
    if !(0 <= i && i + 2 < s.len()) {
        acc
    } else if drive_root_at(s, i) {
        let end = path_run_end(s, i + 3);
        let acc2 = match exe_candidate(s, i, end) {
            Some(c) => acc.push(c),
            None => acc,
        };
        exe_paths_from(s, end, acc2)
    } else {
        exe_paths_from(s, i + 1, acc)
    }
}

#[via_fn]
proof fn exe_paths_from_decreases(s: Seq<u8>, i: int, acc: Seq<Seq<u8>>) {
    if 0 <= i && i + 2 < s.len() && drive_root_at(s, i) {
        lemma_path_run_end_bounds(s, i + 3);
    }
}

/// The drive-rooted `.exe` paths recovered from one piece of text.
pub open spec fn exe_paths_of_text(s: Seq<u8>) -> Seq<Seq<u8>> {
    exe_paths_from(s, 0, Seq::empty())
}

/// A recovered path of the whole shortcut blob: found by the path scan in
/// one of the recovered strings of either decoding.
pub open spec fn is_recovered_path(s: Seq<u8>, p: Seq<u8>) -> bool {
    exists|k: int|
        0 <= k < recovered_sequences(s).len() && exe_paths_of_text(
            #[trigger] recovered_sequences(s)[k],
        ).contains(p)
}

/// The views of a vector of byte strings.
pub open spec fn views_of(v: Seq<Vec<u8>>) -> Seq<Seq<u8>> {
    v.map_values(|x: Vec<u8>| x@)
}

/// All printable ASCII runs of length at least `MIN_RUN_LEN`.
pub fn extract_ascii_sequences(bytes: &[u8]) -> (r: Vec<Vec<u8>>)
    ensures
        views_of(r@) == ascii_sequences(bytes@),
{
    let n = bytes.len();
    let mut r: Vec<Vec<u8>> = Vec::new();
    let mut cur: Vec<u8> = Vec::new();
    let mut i: usize = 0;
    proof {
        assert(views_of(r@) =~= Seq::<Seq<u8>>::empty());
        assert(cur@ =~= Seq::<u8>::empty());
    }
    while i < n
        invariant
            n == bytes@.len(),
            i <= n,
            ascii_sequences(bytes@) == ascii_runs_from(bytes@, i as int, cur@, views_of(r@)),
        decreases n - i,
    {
        let b = bytes[i];
        if is_graphic_exec(b) || b == 32 {
            cur.push(b);
        } else {
            if cur.len() >= MIN_RUN_LEN {
                proof {
                    assert(views_of(r@.push(cur)) =~= views_of(r@).push(cur@));
                }
                r.push(cur);
            }
            cur = Vec::new();
        }
        i = i + 1;
    }
    if cur.len() >= MIN_RUN_LEN {
        proof {
            assert(views_of(r@.push(cur)) =~= views_of(r@).push(cur@));
        }
        r.push(cur);
    }
    r
}

/// All 16-bit little-endian printable runs, decoded to bytes.
pub fn extract_utf16le_sequences(bytes: &[u8]) -> (r: Vec<Vec<u8>>)
    ensures
        views_of(r@) == utf16_sequences(bytes@),
{
    let n = bytes.len();
    let mut r: Vec<Vec<u8>> = Vec::new();
    let mut cur: Vec<u8> = Vec::new();
    let mut i: usize = 0;
    proof {
        assert(views_of(r@) =~= Seq::<Seq<u8>>::empty());
        assert(cur@ =~= Seq::<u8>::empty());
    }
    while n > 0 && i < n - 1
        invariant
            n == bytes@.len(),
            i <= n,
            utf16_sequences(bytes@) == utf16_runs_from(bytes@, i as int, cur@, views_of(r@)),
        decreases n - i,
    {
        let b0 = bytes[i];
        let b1 = bytes[i + 1];
        if b1 == 0 && b0 == 0 {
            if cur.len() >= MIN_RUN_LEN {
                proof {
                    assert(views_of(r@.push(cur)) =~= views_of(r@).push(cur@));
                }
                r.push(cur);
            }
            cur = Vec::new();
            i = i + 2;
        } else if b1 == 0 && (is_graphic_exec(b0) || b0 == 32) {
            cur.push(b0);
            i = i + 2;
        } else {
            if cur.len() >= MIN_RUN_LEN {
                proof {
                    assert(views_of(r@.push(cur)) =~= views_of(r@).push(cur@));
                }
                r.push(cur);
            }
            cur = Vec::new();
            i = i + 1;
        }
    }
    if cur.len() >= MIN_RUN_LEN {
        proof {
            assert(views_of(r@.push(cur)) =~= views_of(r@).push(cur@));
        }
        r.push(cur);
    }
    r
}

/// The drive-rooted `.exe` path candidates recovered from one piece of
/// text, in order of appearance.
pub fn extract_windows_paths_from_text(text: &[u8]) -> (r: Vec<Vec<u8>>)
    ensures
        views_of(r@) == exe_paths_of_text(text@),
{
    let n = text.len();
    let mut r: Vec<Vec<u8>> = Vec::new();
    let mut i: usize = 0;
    proof {
        assert(views_of(r@) =~= Seq::<Seq<u8>>::empty());
    }
    while n > 2 && i < n - 2
        invariant
            n == text@.len(),
            i <= n,
            exe_paths_of_text(text@) == exe_paths_from(text@, i as int, views_of(r@)),
        decreases n - i,
    {
        let b0 = text[i];
        if is_alpha_exec(b0) && text[i + 1] == 58 && text[i + 2] == 92 {
            // Greedy scan of path-legal bytes after the drive root.
            let mut end: usize = i + 3;
            while end < n && is_path_byte_exec(text[end])
                invariant
                    n == text@.len(),
                    i + 3 <= end <= n,
                    path_run_end(text@, i + 3) == path_run_end(text@, end as int),
                decreases n - end,
            {
                end = end + 1;
            }
            proof {
                assert(path_run_end(text@, end as int) == end);
            }
            let cand = subvec(text, i, end);
            let lowered = to_lower(cand.as_slice());
            let ext = ".exe".as_bytes();
            match rfind_end(lowered.as_slice(), ext) {
                Some(e) => {
                    let kept = subvec(text, i, i + e);
                    proof {
                        assert(views_of(r@.push(kept)) =~= views_of(r@).push(kept@));
                    }
                    r.push(kept);
                },
                None => {},
            }
            i = end;
        } else {
            i = i + 1;
        }
    }
    r
}

fn is_path_byte_exec(b: u8) -> (r: bool)
    ensures
        r == is_path_byte(b),
{
    crate::text::is_alnum_exec(b) || b == 92 || b == 47 || b == 46 || b == 95 || b == 45 || b == 32
        || b == 40 || b == 41
}

/// The byte strings are in ascending lexicographic order.
pub open spec fn sorted_lex(ss: Seq<Seq<u8>>) -> bool {
    forall|i: int, j: int| 0 <= i < j < ss.len() ==> lex_le(ss[i], ss[j])
}

/// No byte string occurs twice.
pub open spec fn distinct_seqs(ss: Seq<Seq<u8>>) -> bool {
    forall|i: int, j: int| 0 <= i < j < ss.len() ==> ss[i] != ss[j]
}

/// Selection sort of byte strings into ascending lexicographic order.
fn sort_byte_strings(v: Vec<Vec<u8>>) -> (r: Vec<Vec<u8>>)
    ensures
        sorted_lex(views_of(r@)),
        views_of(r@).to_multiset() == views_of(v@).to_multiset(),
{
    broadcast use vstd::seq_lib::group_to_multiset_ensures;

    let ghost orig = views_of(v@).to_multiset();
    let mut rest = v;
    let mut out: Vec<Vec<u8>> = Vec::new();
    proof {
        assert(views_of(out@) =~= Seq::<Seq<u8>>::empty());
        assert(views_of(out@).to_multiset().add(views_of(rest@).to_multiset()) =~= orig);
    }
    while rest.len() > 0
        invariant
            sorted_lex(views_of(out@)),
            forall|i: int, j: int|
                0 <= i < out@.len() && 0 <= j < rest@.len() ==> lex_le(
                    views_of(out@)[i],
                    views_of(rest@)[j],
                ),
            views_of(out@).to_multiset().add(views_of(rest@).to_multiset()) == orig,
        decreases rest@.len(),
    {
        let n = rest.len();
        let mut m: usize = 0;
        let mut k: usize = 1;
        proof {
            lemma_lex_le_refl(views_of(rest@)[0]);
        }
        while k < n
            invariant
                n == rest@.len(),
                m < n,
                k <= n,
                forall|t: int| 0 <= t < k ==> lex_le(views_of(rest@)[m as int], views_of(rest@)[t]),
            decreases n - k,
        {
            if lex_le_exec(rest[k].as_slice(), rest[m].as_slice()) {
                proof {
                    assert forall|t: int| 0 <= t < k implies lex_le(
                        views_of(rest@)[k as int],
                        views_of(rest@)[t],
                    ) by {
                        lemma_lex_le_trans(
                            views_of(rest@)[k as int],
                            views_of(rest@)[m as int],
                            views_of(rest@)[t],
                        );
                    }
                    lemma_lex_le_refl(views_of(rest@)[k as int]);
                }
                m = k;
            } else {
                proof {
                    lemma_lex_le_total(views_of(rest@)[k as int], views_of(rest@)[m as int]);
                }
            }
            k = k + 1;
        }
        let ghost old_out = views_of(out@);
        let ghost old_rest = views_of(rest@);
        let e = rest.remove(m);
        out.push(e);
        proof {
            assert(e@ == old_rest[m as int]);
            assert(views_of(out@) =~= old_out.push(e@));
            assert(views_of(rest@) =~= old_rest.remove(m as int));
            vstd::seq_lib::to_multiset_build(old_out, e@);
            vstd::seq_lib::to_multiset_remove(old_rest, m as int);
            assert(views_of(out@).to_multiset() =~= old_out.to_multiset().insert(e@));
            assert(views_of(rest@).to_multiset() =~= old_rest.to_multiset().remove(e@));
            assert(old_rest.contains(e@));
            vstd::seq_lib::to_multiset_contains(old_rest, e@);
            assert(old_rest.to_multiset().contains(e@));
            assert(views_of(out@).to_multiset().add(views_of(rest@).to_multiset()) =~= old_out.to_multiset().add(
                old_rest.to_multiset(),
            ));
            // Every element still waiting is at least the minimum just moved.
            assert forall|i: int, j: int|
                0 <= i < out@.len() && 0 <= j < rest@.len() implies lex_le(
                views_of(out@)[i],
                views_of(rest@)[j],
            ) by {
                assert(views_of(rest@)[j] == if j < m { old_rest[j] } else {
                    old_rest[j + 1]
                });
            }
        }
    }
    out
}

/// Collapse adjacent duplicates of a sorted vector of byte strings.
fn dedup_sorted(v: Vec<Vec<u8>>) -> (r: Vec<Vec<u8>>)
    requires
        sorted_lex(views_of(v@)),
    ensures
        sorted_lex(views_of(r@)),
        distinct_seqs(views_of(r@)),
        forall|p: Seq<u8>| views_of(r@).contains(p) <==> views_of(v@).contains(p),
{
    let n = v.len();
    let mut out: Vec<Vec<u8>> = Vec::new();
    let mut i: usize = 0;
    proof {
        assert(views_of(out@) =~= Seq::<Seq<u8>>::empty());
    }
    while i < n
        invariant
            n == v@.len(),
            i <= n,
            sorted_lex(views_of(v@)),
            sorted_lex(views_of(out@)),
            distinct_seqs(views_of(out@)),
            i > 0 ==> out@.len() > 0 && views_of(out@).last() == views_of(v@)[i - 1],
            forall|p: Seq<u8>|
                views_of(out@).contains(p) <==> exists|k: int|
                    0 <= k < i && views_of(v@)[k] == p,
        decreases n - i,
    {
        let ghost old_out = views_of(out@);
        let e = crate::text::subvec(v[i].as_slice(), 0, v[i].len());
        proof {
            assert(e@ =~= views_of(v@)[i as int]);
        }
        let keep: bool = if out.len() == 0 {
            true
        } else {
            !crate::text::seq_eq(out[out.len() - 1].as_slice(), e.as_slice())
        };
        if keep {
            proof {
                // The newcomer differs from everything already kept: all
                // kept strings precede the current last, which precedes it.
                if out@.len() > 0 {
                    assert(old_out.contains(old_out[0]));
                    assert(i > 0);
                    let last = old_out.last();
                    assert(views_of(v@)[i - 1] == last);
                    assert(lex_le(views_of(v@)[i - 1], views_of(v@)[i as int]));
                    assert(lex_le(last, e@));
                    assert forall|t: int| 0 <= t < old_out.len() implies lex_le(
                        old_out[t],
                        last,
                    ) by {
                        if t < old_out.len() - 1 {
                            assert(lex_le(old_out[t], old_out[old_out.len() - 1]));
                        } else {
                            lemma_lex_le_refl(last);
                        }
                    }
                    assert forall|t: int| 0 <= t < old_out.len() implies old_out[t] != e@ by {
                        assert(lex_le(old_out[t], last));
                        if old_out[t] == e@ {
                            lemma_lex_le_antisym(last, e@);
                        }
                    }
                    assert forall|t: int| 0 <= t < old_out.len() implies lex_le(
                        old_out[t],
                        e@,
                    ) by {
                        lemma_lex_le_trans(old_out[t], last, e@);
                    }
                }
            }
            out.push(e);
            proof {
                assert(views_of(out@) =~= old_out.push(views_of(v@)[i as int]));
            }
        }
        proof {
            assert forall|p: Seq<u8>| views_of(out@).contains(p) implies exists|k: int|
                0 <= k < i + 1 && views_of(v@)[k] == p by {
                let w = choose|w: int| 0 <= w < views_of(out@).len() && views_of(out@)[w] == p;
                if w < old_out.len() {
                    assert(old_out.contains(p));
                } else {
                    assert(views_of(v@)[i as int] == p);
                }
            }
            assert forall|p: Seq<u8>|
                (exists|k: int| 0 <= k < i + 1 && views_of(v@)[k] == p) implies views_of(
                out@,
            ).contains(p) by {
                let k = choose|k: int| 0 <= k < i + 1 && views_of(v@)[k] == p;
                if k < i {
                    assert(old_out.contains(p));
                    let w = choose|w: int| 0 <= w < old_out.len() && old_out[w] == p;
                    assert(views_of(out@)[w] == p);
                } else {
                    if keep {
                        assert(views_of(out@).last() == p);
                    } else {
                        assert(old_out.last() == e@);
                        assert(old_out.contains(p));
                        let w = choose|w: int| 0 <= w < old_out.len() && old_out[w] == p;
                        assert(views_of(out@)[w] == p);
                    }
                }
            }
        }
        i = i + 1;
    }
    proof {
        assert forall|p: Seq<u8>| views_of(v@).contains(p) implies exists|k: int|
            0 <= k < n && views_of(v@)[k] == p by {
        }
    }
    out
}

/// All drive-rooted `.exe` paths of a shortcut blob, over both decodings,
/// sorted and deduplicated.
pub fn extract_windows_exe_paths(bytes: &[u8]) -> (r: Vec<Vec<u8>>)
    ensures
        sorted_lex(views_of(r@)),
        distinct_seqs(views_of(r@)),
        forall|p: Seq<u8>| views_of(r@).contains(p) <==> is_recovered_path(bytes@, p),
{
    broadcast use vstd::seq_lib::group_to_multiset_ensures;

    let mut runs = extract_ascii_sequences(bytes);
    let mut runs_u = extract_utf16le_sequences(bytes);
    let ghost runs_a_v = views_of(runs@);
    runs.append(&mut runs_u);
    proof {
        assert(views_of(runs@) =~= recovered_sequences(bytes@));
    }
    let rn = runs.len();
    let mut all: Vec<Vec<u8>> = Vec::new();
    let mut i: usize = 0;
    proof {
        assert(views_of(all@) =~= Seq::<Seq<u8>>::empty());
    }
    while i < rn
        invariant
            rn == runs@.len(),
            i <= rn,
            views_of(runs@) == recovered_sequences(bytes@),
            forall|p: Seq<u8>|
                views_of(all@).contains(p) <==> exists|k: int|
                    0 <= k < i && exe_paths_of_text(#[trigger] views_of(runs@)[k]).contains(p),
        decreases rn - i,
    {
        let ghost old_all = views_of(all@);
        let mut found = extract_windows_paths_from_text(runs[i].as_slice());
        let ghost found_v = views_of(found@);
        all.append(&mut found);
        proof {
            assert(views_of(all@) =~= old_all + found_v);
            assert forall|p: Seq<u8>| views_of(all@).contains(p) implies exists|k: int|
                0 <= k < i + 1 && exe_paths_of_text(#[trigger] views_of(runs@)[k]).contains(
                    p,
                ) by {
                let w = choose|w: int| 0 <= w < views_of(all@).len() && views_of(all@)[w] == p;
                if w < old_all.len() {
                    assert(old_all[w] == p);
                    assert(old_all.contains(p));
                } else {
                    assert(found_v[w - old_all.len()] == p);
                    assert(exe_paths_of_text(views_of(runs@)[i as int]).contains(p));
                }
            }
            assert forall|p: Seq<u8>|
                (exists|k: int|
                    0 <= k < i + 1 && exe_paths_of_text(#[trigger] views_of(runs@)[k]).contains(
                        p,
                    )) implies views_of(all@).contains(p) by {
                let k = choose|k: int|
                    0 <= k < i + 1 && exe_paths_of_text(#[trigger] views_of(runs@)[k]).contains(p);
                if k < i {
                    assert(old_all.contains(p));
                    let w = choose|w: int| 0 <= w < old_all.len() && old_all[w] == p;
                    assert(views_of(all@)[w] == p);
                } else {
                    let w = choose|w: int| 0 <= w < found_v.len() && found_v[w] == p;
                    assert(views_of(all@)[old_all.len() + w] == p);
                }
            }
        }
        i = i + 1;
    }
    let ghost all_v = views_of(all@);
    let sorted = sort_byte_strings(all);
    let ghost sorted_v = views_of(sorted@);
    let r = dedup_sorted(sorted);
    proof {
        assert forall|p: Seq<u8>| views_of(r@).contains(p) <==> is_recovered_path(
            bytes@,
            p,
        ) by {
            assert(sorted_v.contains(p) <==> sorted_v.to_multiset().count(p) > 0);
            assert(all_v.contains(p) <==> all_v.to_multiset().count(p) > 0);
            assert(all_v.contains(p) <==> (exists|k: int|
                0 <= k < rn && exe_paths_of_text(#[trigger] views_of(runs@)[k]).contains(p)));
            assert((exists|k: int|
                0 <= k < rn && exe_paths_of_text(#[trigger] views_of(runs@)[k]).contains(p))
                <==> is_recovered_path(bytes@, p)) by {
                if exists|k: int|
                    0 <= k < rn && exe_paths_of_text(#[trigger] views_of(runs@)[k]).contains(p) {
                    let k = choose|k: int|
                        0 <= k < rn && exe_paths_of_text(#[trigger] views_of(runs@)[k]).contains(
                            p,
                        );
                    assert(recovered_sequences(bytes@)[k] == views_of(runs@)[k]);
                    assert(exe_paths_of_text(recovered_sequences(bytes@)[k]).contains(p));
                }
                if is_recovered_path(bytes@, p) {
                    let k = choose|k: int|
                        0 <= k < recovered_sequences(bytes@).len() && exe_paths_of_text(
                            #[trigger] recovered_sequences(bytes@)[k],
                        ).contains(p);
                    assert(views_of(runs@)[k] == recovered_sequences(bytes@)[k]);
                    assert(exe_paths_of_text(views_of(runs@)[k]).contains(p));
                }
            }
        }
    }
    r
}

/// The URL scheme prefixes that mark a shortcut as a web link.
pub open spec fn has_url(s: Seq<u8>) -> bool {
    exists|k: int|
        0 <= k < recovered_sequences(s).len() && (contains_seq(
            lower(#[trigger] recovered_sequences(s)[k]),
            "http://".spec_bytes(),
        ) || contains_seq(lower(recovered_sequences(s)[k]), "https://".spec_bytes()))
}

/// Does any recovered string of the shortcut blob mention an
/// `http://`/`https://` URL (case-insensitively)?
pub fn contains_http_url(bytes: &[u8]) -> (r: bool)
    ensures
        r == has_url(bytes@),
{
    let mut runs = extract_ascii_sequences(bytes);
    let mut runs_u = extract_utf16le_sequences(bytes);
    runs.append(&mut runs_u);
    proof {
        assert(views_of(runs@) =~= recovered_sequences(bytes@));
    }
    let rn = runs.len();
    let mut i: usize = 0;
    while i < rn
        invariant
            rn == runs@.len(),
            i <= rn,
            views_of(runs@) == recovered_sequences(bytes@),
            forall|k: int|
                0 <= k < i ==> !(contains_seq(
                    lower(#[trigger] views_of(runs@)[k]),
                    "http://".spec_bytes(),
                ) || contains_seq(lower(views_of(runs@)[k]), "https://".spec_bytes())),
        decreases rn - i,
    {
        let lowered = to_lower(runs[i].as_slice());
        if contains_bytes(lowered.as_slice(), "http://".as_bytes()) || contains_bytes(
            lowered.as_slice(),
            "https://".as_bytes(),
        ) {
            proof {
                assert(recovered_sequences(bytes@)[i as int] == views_of(runs@)[i as int]);
                assert(contains_seq(lower(recovered_sequences(bytes@)[i as int]), "http://".spec_bytes())
                    || contains_seq(
                    lower(recovered_sequences(bytes@)[i as int]),
                    "https://".spec_bytes(),
                ));
            }
            return true;
        }
        i = i + 1;
    }
    proof {
        assert forall|k: int| 0 <= k < recovered_sequences(bytes@).len() implies !(contains_seq(
            lower(#[trigger] recovered_sequences(bytes@)[k]),
            "http://".spec_bytes(),
        ) || contains_seq(lower(recovered_sequences(bytes@)[k]), "https://".spec_bytes())) by {
            assert(recovered_sequences(bytes@)[k] == views_of(runs@)[k]);
        }
    }
    false
}

} // verus!
