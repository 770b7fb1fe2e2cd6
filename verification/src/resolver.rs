//! Choosing the game executable among candidate files.
//!
//! Candidates recovered from shortcuts or from walking the installation
//! are filtered through a blocklist of known non-game executables and
//! scored; the highest score wins, earlier discovery breaking ties.

use vstd::prelude::*;
use crate::catalog::normalized;
use crate::paths::{
    file_name, file_name_of, file_stem, file_stem_of, is_exe_file, is_exe_path, path_within_dir,
    push_all,
    segments, segments_of, seg_views, within_dir,
};
use crate::text::{
    contains_bytes, contains_seq, lower, seq_eq, starts_with_bytes, starts_with_seq, subvec,
    to_lower,
};
use vstd::string::StringSliceAdditionalSpecFns;

verus! {

/// An executable candidate: its host path, the shortcut it came from (if
/// any), and its score.
#[derive(Debug)]
pub struct ExeCandidate {
    pub path: Vec<u8>,
    pub shortcut: Option<Vec<u8>>,
    pub score: i64,
}

/// A file name that is exactly one of the known non-game executables.
pub open spec fn is_blocked_name(name: Seq<u8>) -> bool {
    ||| name == "uninstall.exe".spec_bytes()
    ||| name == "uninstaller.exe".spec_bytes()
    ||| name == "setup.exe".spec_bytes()
    ||| name == "dxsetup.exe".spec_bytes()
    ||| name == "explorer.exe".spec_bytes()
    ||| name == "rundll32.exe".spec_bytes()
    ||| name == "cmd.exe".spec_bytes()
    ||| name == "powershell.exe".spec_bytes()
    ||| name == "iexplore.exe".spec_bytes()
    ||| name == "chrome.exe".spec_bytes()
    ||| name == "msedge.exe".spec_bytes()
    ||| name == "firefox.exe".spec_bytes()
    ||| name == "opera.exe".spec_bytes()
    ||| name == "brave.exe".spec_bytes()
}

/// A path segment that marks a system directory.
pub open spec fn is_system_segment(seg: Seq<u8>) -> bool {
    ||| lower(seg) == "windows".spec_bytes()
    ||| lower(seg) == "system32".spec_bytes()
    ||| lower(seg) == "syswow64".spec_bytes()
}

/// The blocklist: a candidate whose case-folded file name is a known
/// non-game executable, smells of an uninstaller or redistributable, or
/// which lies under a system directory, is never considered.
pub open spec fn is_ignored_path(p: Seq<u8>) -> bool {
    let name = lower(file_name_of(p));
    ||| is_blocked_name(name)
    ||| starts_with_seq(name, "unins".spec_bytes())
    ||| contains_seq(name, "uninstall".spec_bytes())
    ||| contains_seq(name, "redist".spec_bytes())
    ||| contains_seq(name, "vcredist".spec_bytes())
    ||| exists|k: int|
        0 <= k < segments_of(p).len() && is_system_segment(#[trigger] segments_of(p)[k])
}

/// Is the candidate blocked?
pub fn is_ignored_exe(path: &[u8]) -> (r: bool)
    ensures
        r == is_ignored_path(path@),
{
    let name_raw = file_name(path);
    let name = to_lower(name_raw.as_slice());
    let exact = seq_eq(name.as_slice(), "uninstall.exe".as_bytes()) || seq_eq(
        name.as_slice(),
        "uninstaller.exe".as_bytes(),
    ) || seq_eq(name.as_slice(), "setup.exe".as_bytes()) || seq_eq(
        name.as_slice(),
        "dxsetup.exe".as_bytes(),
    ) || seq_eq(name.as_slice(), "explorer.exe".as_bytes()) || seq_eq(
        name.as_slice(),
        "rundll32.exe".as_bytes(),
    ) || seq_eq(name.as_slice(), "cmd.exe".as_bytes()) || seq_eq(
        name.as_slice(),
        "powershell.exe".as_bytes(),
    ) || seq_eq(name.as_slice(), "iexplore.exe".as_bytes()) || seq_eq(
        name.as_slice(),
        "chrome.exe".as_bytes(),
    ) || seq_eq(name.as_slice(), "msedge.exe".as_bytes()) || seq_eq(
        name.as_slice(),
        "firefox.exe".as_bytes(),
    ) || seq_eq(name.as_slice(), "opera.exe".as_bytes()) || seq_eq(
        name.as_slice(),
        "brave.exe".as_bytes(),
    );
    if exact {
        return true;
    }
    if starts_with_bytes(name.as_slice(), "unins".as_bytes()) || contains_bytes(
        name.as_slice(),
        "uninstall".as_bytes(),
    ) {
        return true;
    }
    if contains_bytes(name.as_slice(), "redist".as_bytes()) || contains_bytes(
        name.as_slice(),
        "vcredist".as_bytes(),
    ) {
        return true;
    }
    let segs = segments(path);
    let sn = segs.len();
    let mut k: usize = 0;
    while k < sn
        invariant
            sn == segs@.len(),
            k <= sn,
            seg_views(segs@) == segments_of(path@),
            forall|t: int| 0 <= t < k ==> !is_system_segment(#[trigger] segments_of(path@)[t]),
        decreases sn - k,
    {
        let seg_low = to_lower(segs[k].as_slice());
        if seq_eq(seg_low.as_slice(), "windows".as_bytes()) || seq_eq(
            seg_low.as_slice(),
            "system32".as_bytes(),
        ) || seq_eq(seg_low.as_slice(), "syswow64".as_bytes()) {
            proof {
                assert(is_system_segment(segments_of(path@)[k as int]));
            }
            return true;
        }
        k = k + 1;
    }
    false
}

/// Points when the condition holds.
pub open spec fn bonus(cond: bool, points: int) -> int {
    if cond {
        points
    } else {
        0
    }
}

/// Bonus for a normalized name against the normalized capsule title:
/// full points for an exact match, partial points for containment.
pub open spec fn name_bonus(cand_n: Seq<u8>, title_n: Seq<u8>, exact: int, part: int) -> int {
    if title_n.len() > 0 && cand_n.len() > 0 {
        if cand_n == title_n {
            exact
        } else if contains_seq(cand_n, title_n) {
            part
        } else {
            0
        }
    } else {
        0
    }
}

/// The heaviest penalties: marks of uninstallers and redistributables.
pub open spec fn heavy_penalty_of(p_low: Seq<u8>) -> int {
    bonus(contains_seq(p_low, "unins".spec_bytes()), 80) + bonus(
        contains_seq(p_low, "uninstall".spec_bytes()),
        80,
    ) + bonus(contains_seq(p_low, "dxsetup".spec_bytes()), 80) + bonus(
        contains_seq(p_low, "directx".spec_bytes()),
        80,
    ) + bonus(contains_seq(p_low, "vcredist".spec_bytes()), 80) + bonus(
        contains_seq(p_low, "redist".spec_bytes()),
        80,
    )
}

/// Middling penalties: marks of setup and support tooling.
pub open spec fn mid_penalty_of(p_low: Seq<u8>) -> int {
    bonus(contains_seq(p_low, "setup".spec_bytes()), 25) + bonus(
        contains_seq(p_low, "installer".spec_bytes()),
        25,
    ) + bonus(contains_seq(p_low, "support".spec_bytes()), 25) + bonus(
        contains_seq(p_low, "helper".spec_bytes()),
        25,
    ) + bonus(contains_seq(p_low, "crash".spec_bytes()), 25)
}

/// Light penalties: marks of launchers and updaters.
pub open spec fn light_penalty_of(p_low: Seq<u8>) -> int {
    bonus(contains_seq(p_low, "launcher".spec_bytes()), 15) + bonus(
        contains_seq(p_low, "patcher".spec_bytes()),
        15,
    ) + bonus(contains_seq(p_low, "updater".spec_bytes()), 15)
}

/// Accumulated penalty for suspicious substrings of the case-folded
/// path; each keyword counts once.
pub open spec fn penalty_of(p_low: Seq<u8>) -> int {
    heavy_penalty_of(p_low) + mid_penalty_of(p_low) + light_penalty_of(p_low)
}

/// The view of an optional byte string.
pub open spec fn opt_bytes_view(o: Option<Vec<u8>>) -> Option<Seq<u8>> {
    match o {
        Some(v) => Some(v@),
        None => None,
    }
}

/// The score of a candidate: points for being a regular file, for
/// arriving via a shortcut, for resembling the capsule title (and the
/// shortcut resembling it), and for lying in the declared game
/// directory; penalties for suspicious path substrings.
pub open spec fn candidate_score(
    p: Seq<u8>,
    shortcut: Option<Seq<u8>>,
    title: Seq<u8>,
    game_dir: Option<Seq<u8>>,
    is_file: bool,
) -> int {
    let title_n = normalized(title);
    let stem_n = normalized(file_stem_of(file_name_of(p)));
    bonus(is_file, 100) + bonus(shortcut is Some, 20) + name_bonus(stem_n, title_n, 40, 25) + (
    match shortcut {
        Some(sc) => name_bonus(normalized(file_stem_of(file_name_of(sc))), title_n, 25, 15),
        None => 0,
    }) + (match game_dir {
        Some(d) => bonus(within_dir(p, d), 30),
        None => 0,
    }) - penalty_of(lower(p))
}

/// The heavy penalties of a case-folded path.
fn heavy_penalty_exec(p_low: &[u8]) -> (pen: i64)
    ensures
        pen as int == heavy_penalty_of(p_low@),
        0 <= pen <= 480,
{
    let b01 = contains_bytes(p_low, "unins".as_bytes());
    let b02 = contains_bytes(p_low, "uninstall".as_bytes());
    let b03 = contains_bytes(p_low, "dxsetup".as_bytes());
    let b04 = contains_bytes(p_low, "directx".as_bytes());
    let b05 = contains_bytes(p_low, "vcredist".as_bytes());
    let b06 = contains_bytes(p_low, "redist".as_bytes());
    pts(b01, 80) + pts(b02, 80) + pts(b03, 80) + pts(b04, 80) + pts(b05, 80) + pts(b06, 80)
}

/// The middling penalties of a case-folded path.
fn mid_penalty_exec(p_low: &[u8]) -> (pen: i64)
    ensures
        pen as int == mid_penalty_of(p_low@),
        0 <= pen <= 125,
{
    let b07 = contains_bytes(p_low, "setup".as_bytes());
    let b08 = contains_bytes(p_low, "installer".as_bytes());
    let b09 = contains_bytes(p_low, "support".as_bytes());
    let b10 = contains_bytes(p_low, "helper".as_bytes());
    let b11 = contains_bytes(p_low, "crash".as_bytes());
    pts(b07, 25) + pts(b08, 25) + pts(b09, 25) + pts(b10, 25) + pts(b11, 25)
}

/// The light penalties of a case-folded path.
fn light_penalty_exec(p_low: &[u8]) -> (pen: i64)
    ensures
        pen as int == light_penalty_of(p_low@),
        0 <= pen <= 45,
{
    let b12 = contains_bytes(p_low, "launcher".as_bytes());
    let b13 = contains_bytes(p_low, "patcher".as_bytes());
    let b14 = contains_bytes(p_low, "updater".as_bytes());
    pts(b12, 15) + pts(b13, 15) + pts(b14, 15)
}

/// The accumulated penalty of a case-folded path.
fn penalty_exec(p_low: &[u8]) -> (pen: i64)
    ensures
        pen as int == penalty_of(p_low@),
        0 <= pen <= 800,
{
    heavy_penalty_exec(p_low) + mid_penalty_exec(p_low) + light_penalty_exec(p_low)
}

/// Points when the flag is set.
fn pts(flag: bool, points: i64) -> (r: i64)
    requires
        0 <= points <= 100,
    ensures
        r as int == bonus(flag, points as int),
        0 <= r <= points,
{
    if flag {
        points
    } else {
        0
    }
}

/// The title-similarity bonus of a normalized name.
fn name_bonus_exec(cand_n: &[u8], title_n: &[u8], exact: i64, part: i64) -> (b: i64)
    requires
        0 <= part <= exact <= 100,
    ensures
        b as int == name_bonus(cand_n@, title_n@, exact as int, part as int),
        0 <= b <= exact,
{
    if title_n.len() > 0 && cand_n.len() > 0 {
        if seq_eq(cand_n, title_n) {
            exact
        } else if contains_bytes(cand_n, title_n) {
            part
        } else {
            0
        }
    } else {
        0
    }
}

/// Score one candidate.
pub fn score_exe_candidate(
    path: &[u8],
    shortcut: &Option<Vec<u8>>,
    capsule_name: &[u8],
    game_dir: &Option<Vec<u8>>,
    is_file: bool,
) -> (score: i64)
    ensures
        score as int == candidate_score(
            path@,
            opt_bytes_view(*shortcut),
            capsule_name@,
            opt_bytes_view(*game_dir),
            is_file,
        ),
{
    let mut score: i64 = 0;
    if is_file {
        score = score + 100;
    }
    if shortcut.is_some() {
        score = score + 20;
    }

    let title_n = crate::catalog::normalize_title(capsule_name);
    let name = file_name(path);
    let stem = file_stem(name.as_slice());
    let stem_n = crate::catalog::normalize_title(stem.as_slice());
    score = score + name_bonus_exec(stem_n.as_slice(), title_n.as_slice(), 40, 25);

    match shortcut {
        Some(sc) => {
            let sname = file_name(sc.as_slice());
            let sstem = file_stem(sname.as_slice());
            let sstem_n = crate::catalog::normalize_title(sstem.as_slice());
            score = score + name_bonus_exec(sstem_n.as_slice(), title_n.as_slice(), 25, 15);
        },
        None => {},
    }

    match game_dir {
        Some(d) => {
            if path_within_dir(path, d.as_slice()) {
                score = score + 30;
            }
        },
        None => {},
    }

    let p_low = to_lower(path);
    let pen = penalty_exec(p_low.as_slice());
    score = score - pen;
    score
}

fn copy_opt_bytes(o: &Option<Vec<u8>>) -> (r: Option<Vec<u8>>)
    ensures
        opt_bytes_view(r) == opt_bytes_view(*o),
{
    match o {
        Some(v) => Some(subvec(v.as_slice(), 0, v.len())),
        None => None,
    }
}

/// Filter candidate paths through the extension check and the blocklist,
/// and score the survivors.  The paths are expected to name existing
/// regular files; every survivor is scored as such.
pub fn filter_and_score(
    paths: &Vec<Vec<u8>>,
    shortcut: &Option<Vec<u8>>,
    capsule_name: &[u8],
    game_dir: &Option<Vec<u8>>,
) -> (r: Vec<ExeCandidate>)
    ensures
        forall|i: int|
            0 <= i < r@.len() ==> {
                let c = #[trigger] r@[i];
                &&& is_exe_path(c.path@)
                &&& !is_ignored_path(c.path@)
                &&& (exists|k: int| 0 <= k < paths@.len() && #[trigger] paths@[k]@ == c.path@)
                &&& opt_bytes_view(c.shortcut) == opt_bytes_view(*shortcut)
                &&& c.score as int == candidate_score(
                    c.path@,
                    opt_bytes_view(*shortcut),
                    capsule_name@,
                    opt_bytes_view(*game_dir),
                    true,
                )
            },
        forall|k: int|
            0 <= k < paths@.len() && is_exe_path(#[trigger] paths@[k]@) && !is_ignored_path(
                paths@[k]@,
            ) ==> exists|i: int| 0 <= i < r@.len() && (#[trigger] r@[i]).path@ == paths@[k]@,
{
    let n = paths.len();
    let mut r: Vec<ExeCandidate> = Vec::new();
    let mut k: usize = 0;
    while k < n
        invariant
            n == paths@.len(),
            k <= n,
            forall|i: int|
                0 <= i < r@.len() ==> {
                    let c = #[trigger] r@[i];
                    &&& is_exe_path(c.path@)
                    &&& !is_ignored_path(c.path@)
                    &&& (exists|t: int| 0 <= t < paths@.len() && #[trigger] paths@[t]@ == c.path@)
                    &&& opt_bytes_view(c.shortcut) == opt_bytes_view(*shortcut)
                    &&& c.score as int == candidate_score(
                        c.path@,
                        opt_bytes_view(*shortcut),
                        capsule_name@,
                        opt_bytes_view(*game_dir),
                        true,
                    )
                },
            forall|t: int|
                0 <= t < k && is_exe_path(#[trigger] paths@[t]@) && !is_ignored_path(paths@[t]@)
                    ==> exists|i: int| 0 <= i < r@.len() && (#[trigger] r@[i]).path@ == paths@[t]@,
        decreases n - k,
    {
        let ghost old_r = r@;
        let p = &paths[k];
        if is_exe_file(p.as_slice()) && !is_ignored_exe(p.as_slice()) {
            let score = score_exe_candidate(p.as_slice(), shortcut, capsule_name, game_dir, true);
            let cand = ExeCandidate {
                path: subvec(p.as_slice(), 0, p.len()),
                shortcut: copy_opt_bytes(shortcut),
                score,
            };
            r.push(cand);
            proof {
                assert(r@[r@.len() - 1].path@ == paths@[k as int]@);
                assert forall|t: int|
                    0 <= t < k + 1 && is_exe_path(#[trigger] paths@[t]@) && !is_ignored_path(
                        paths@[t]@,
                    ) implies exists|i: int|
                    0 <= i < r@.len() && (#[trigger] r@[i]).path@ == paths@[t]@ by {
                    if t < k {
                        let i = choose|i: int|
                            0 <= i < old_r.len() && (#[trigger] old_r[i]).path@ == paths@[t]@;
                        assert(r@[i].path@ == paths@[t]@);
                    } else {
                        assert(r@[r@.len() - 1].path@ == paths@[t]@);
                    }
                }
            }
        }
        k = k + 1;
    }
    r
}

/// Index of the winning candidate: the first one with the highest score.
/// `None` only when there are no candidates.
pub fn pick_best(cands: &Vec<ExeCandidate>) -> (r: Option<usize>)
    ensures
        match r {
            Some(i) => {
                &&& 0 <= i < cands@.len()
                &&& forall|j: int| 0 <= j < cands@.len() ==> (#[trigger] cands@[j]).score
                    <= cands@[i as int].score
                &&& forall|j: int| 0 <= j < i ==> (#[trigger] cands@[j]).score < cands@[
                    i as int
                ].score
            },
            None => cands@.len() == 0,
        },
{
    let n = cands.len();
    if n == 0 {
        return None;
    }
    let mut best: usize = 0;
    let mut j: usize = 1;
    while j < n
        invariant
            n == cands@.len(),
            best < j <= n,
            forall|t: int| 0 <= t < j ==> (#[trigger] cands@[t]).score <= cands@[best as int].score,
            forall|t: int| 0 <= t < best ==> (#[trigger] cands@[t]).score < cands@[
                best as int
            ].score,
        decreases n - j,
    {
        if cands[j].score > cands[best].score {
            best = j;
        }
        j = j + 1;
    }
    Some(best)
}

/// The shortcut folders of one user profile inside the prefix: the
/// desktop and the start menu, with its program list.
pub open spec fn user_shortcut_roots(prefix: Seq<u8>, user: Seq<u8>) -> Seq<Seq<u8>> {
    let base = prefix + "/drive_c/users/".spec_bytes() + user;
    seq![
        base + "/Desktop".spec_bytes(),
        base + "/Start Menu".spec_bytes(),
        base + "/Start Menu/Programs".spec_bytes(),
    ]
}

/// The folders scanned for shortcuts: three per user profile, in
/// profile order.
pub open spec fn shortcut_roots_spec(prefix: Seq<u8>, users: Seq<Seq<u8>>) -> Seq<Seq<u8>>
    decreases users.len(),
{
    if users.len() == 0 {
        Seq::empty()
    } else {
        shortcut_roots_spec(prefix, users.drop_last()) + user_shortcut_roots(prefix, users.last())
    }
}

/// The views of a list of paths.
pub open spec fn path_views(v: Seq<Vec<u8>>) -> Seq<Seq<u8>> {
    v.map_values(|x: Vec<u8>| x@)
}

/// The shortcut folders to scan, given the user profiles found inside
/// the prefix.
pub fn shortcut_roots(prefix: &[u8], users: &Vec<Vec<u8>>) -> (r: Vec<Vec<u8>>)
    ensures
        path_views(r@) == shortcut_roots_spec(prefix@, path_views(users@)),
{
    let n = users.len();
    let mut r: Vec<Vec<u8>> = Vec::new();
    let mut i: usize = 0;
    proof {
        assert(path_views(users@).subrange(0, 0) =~= Seq::<Seq<u8>>::empty());
        assert(path_views(r@) =~= shortcut_roots_spec(prefix@, path_views(users@).subrange(0, 0)));
    }
    while i < n
        invariant
            n == users@.len(),
            i <= n,
            path_views(r@) == shortcut_roots_spec(prefix@, path_views(users@).subrange(0, i as int)),
        decreases n - i,
    {
        proof {
            assert(path_views(users@).subrange(0, i + 1).drop_last() =~= path_views(
                users@,
            ).subrange(0, i as int));
            assert(path_views(users@).subrange(0, i + 1).last() == users@[i as int]@);
        }
        let mut base: Vec<u8> = Vec::new();
        push_all(&mut base, prefix);
        push_all(&mut base, "/drive_c/users/".as_bytes());
        push_all(&mut base, users[i].as_slice());
        let mut desktop = subvec(base.as_slice(), 0, base.len());
        push_all(&mut desktop, "/Desktop".as_bytes());
        let mut menu = subvec(base.as_slice(), 0, base.len());
        push_all(&mut menu, "/Start Menu".as_bytes());
        let mut programs = subvec(base.as_slice(), 0, base.len());
        push_all(&mut programs, "/Start Menu/Programs".as_bytes());
        let ghost old_v = path_views(r@);
        r.push(desktop);
        r.push(menu);
        r.push(programs);
        proof {
            assert(path_views(r@) =~~= old_v + user_shortcut_roots(prefix@, users@[i as int]@));
        }
        i = i + 1;
    }
    proof {
        assert(path_views(users@).subrange(0, n as int) =~= path_views(users@));
    }
    r
}

/// The likely installation roots, tried before falling back to the
/// whole drive: the declared game directory when set, then the program
/// and storefront folders.
pub fn preferred_search_roots(prefix: &[u8], game_dir: &Option<Vec<u8>>) -> (r: Vec<Vec<u8>>)
    ensures
        ({
            let tail = seq![
                prefix@ + "/drive_c/Program Files".spec_bytes(),
                prefix@ + "/drive_c/Program Files (x86)".spec_bytes(),
                prefix@ + "/drive_c/GOG Games".spec_bytes(),
                prefix@ + "/drive_c/Games".spec_bytes(),
            ];
            path_views(r@) == match *game_dir {
                Some(g) => seq![g@] + tail,
                None => tail,
            }
        }),
{
    let mut r: Vec<Vec<u8>> = Vec::new();
    match game_dir {
        Some(g) => {
            r.push(subvec(g.as_slice(), 0, g.len()));
        },
        None => {},
    }
    let mut a: Vec<u8> = Vec::new();
    push_all(&mut a, prefix);
    push_all(&mut a, "/drive_c/Program Files".as_bytes());
    r.push(a);
    let mut b: Vec<u8> = Vec::new();
    push_all(&mut b, prefix);
    push_all(&mut b, "/drive_c/Program Files (x86)".as_bytes());
    r.push(b);
    let mut c: Vec<u8> = Vec::new();
    push_all(&mut c, prefix);
    push_all(&mut c, "/drive_c/GOG Games".as_bytes());
    r.push(c);
    let mut d: Vec<u8> = Vec::new();
    push_all(&mut d, prefix);
    push_all(&mut d, "/drive_c/Games".as_bytes());
    r.push(d);
    proof {
        match game_dir {
            Some(g) => {
                assert(path_views(r@) =~~= seq![g@] + seq![
                    prefix@ + "/drive_c/Program Files".spec_bytes(),
                    prefix@ + "/drive_c/Program Files (x86)".spec_bytes(),
                    prefix@ + "/drive_c/GOG Games".spec_bytes(),
                    prefix@ + "/drive_c/Games".spec_bytes(),
                ]);
            },
            None => {
                assert(path_views(r@) =~~= seq![
                    prefix@ + "/drive_c/Program Files".spec_bytes(),
                    prefix@ + "/drive_c/Program Files (x86)".spec_bytes(),
                    prefix@ + "/drive_c/GOG Games".spec_bytes(),
                    prefix@ + "/drive_c/Games".spec_bytes(),
                ]);
            },
        }
    }
    r
}

/// The whole compatibility-layer drive, the last resort of the walk.
pub fn drive_c_root(prefix: &[u8]) -> (r: Vec<u8>)
    ensures
        r@ == prefix@ + "/drive_c".spec_bytes(),
{
    let mut r: Vec<u8> = Vec::new();
    push_all(&mut r, prefix);
    push_all(&mut r, "/drive_c".as_bytes());
    r
}

/// An exactly-blocked uninstaller name is always ignored.
pub proof fn lemma_exact_uninstaller_ignored(p: Seq<u8>)
    requires
        lower(file_name_of(p)) == "uninstall.exe".spec_bytes(),
    ensures
        is_ignored_path(p),
{
}

/// A candidate whose file name mentions `vcredist` is always ignored.
pub proof fn lemma_vcredist_name_ignored(p: Seq<u8>)
    requires
        contains_seq(lower(file_name_of(p)), "vcredist".spec_bytes()),
    ensures
        is_ignored_path(p),
{
}

/// A candidate under a `system32` directory is always ignored.
pub proof fn lemma_system_dir_ignored(p: Seq<u8>, k: int)
    requires
        0 <= k < segments_of(p).len(),
        lower(segments_of(p)[k]) == "system32".spec_bytes(),
    ensures
        is_ignored_path(p),
{
    assert(is_system_segment(segments_of(p)[k]));
}

/// Blocked candidates never win: the survivors of filtering carry no
/// ignored path, whatever score any candidate reaches.
pub proof fn lemma_blocked_never_wins(cands: Seq<ExeCandidate>, i: int)
    requires
        forall|t: int| 0 <= t < cands.len() ==> !is_ignored_path((#[trigger] cands[t]).path@),
        0 <= i < cands.len(),
    ensures
        !is_ignored_path(cands[i].path@),
{
}

/// Discovery through a shortcut is worth at least 20 points, all else
/// equal.
pub proof fn lemma_shortcut_scores_higher(
    p: Seq<u8>,
    sc: Seq<u8>,
    title: Seq<u8>,
    game_dir: Option<Seq<u8>>,
    is_file: bool,
)
    ensures
        candidate_score(p, Some(sc), title, game_dir, is_file) >= candidate_score(
            p,
            None,
            title,
            game_dir,
            is_file,
        ) + 20,
{
    let title_n = normalized(title);
    let sstem_n = normalized(file_stem_of(file_name_of(sc)));
    assert(name_bonus(sstem_n, title_n, 25, 15) >= 0);
}

} // verus!
