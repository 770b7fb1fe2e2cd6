//! Capsules and their durable metadata.
//!
//! A capsule is one managed game: a directory, a compatibility-layer
//! home beneath it, and a metadata record that survives restarts.  The
//! helpers here construct and update that record, derive the on-disk
//! layout paths, and carry the naming heuristics used when a game is
//! added.

use vstd::prelude::*;
use crate::catalog::normalized;
use crate::paths::{
    drop_leading_ws, drop_trailing_ws, file_stem_of, is_space, push_all, segments, segments_of,
    seg_views, trim_ws, numbered_name, render_counter,
};
use crate::text::{
    list_contains, list_views, seq_eq, starts_with_bytes, starts_with_seq, subvec,
};
use vstd::string::StringSliceAdditionalSpecFns;
use vstd::string::StrSliceExecFns;

verus! {

/// Where a capsule stands in its installation lifecycle.
#[derive(PartialEq, Eq, Structural, Clone, Copy, Debug)]
pub enum InstallState {
    Installing,
    Installed,
}

/// How a game is added: by running an installer, or by adopting an
/// existing installation.
#[derive(PartialEq, Eq, Structural, Clone, Copy, Debug)]
pub enum AddGameMode {
    Installer,
    Existing,
}

/// One launchable executable: its path, arguments, display label and
/// the shortcut it was discovered through, if any.
#[derive(Debug)]
pub struct ExecutableEntry {
    pub path: Vec<u8>,
    pub args: Vec<u8>,
    pub label: Vec<u8>,
    pub original_shortcut: Option<Vec<u8>>,
}

/// The executables of a capsule: the main one and auxiliary tools.
#[derive(Debug)]
pub struct ExecutableConfig {
    pub main: ExecutableEntry,
    pub tools: Vec<ExecutableEntry>,
}

/// The durable record of a capsule.
#[derive(Debug)]
pub struct CapsuleMetadata {
    pub name: Vec<u8>,
    pub executables: ExecutableConfig,
    pub install_state: InstallState,
    pub installer_path: Option<Vec<u8>>,
    pub game_id: Option<Vec<u8>>,
    pub store: Option<Vec<u8>>,
    pub game_dir: Option<Vec<u8>>,
    pub install_vcredist: bool,
    pub install_dxweb: bool,
    pub protonfixes_disable: bool,
    pub xalia_enabled: bool,
    pub protonfixes_tricks: Vec<Vec<u8>>,
    pub protonfixes_replace_cmds: Vec<Vec<u8>>,
    pub protonfixes_dxvk_sets: Vec<Vec<u8>>,
    pub env_vars: Vec<(Vec<u8>, Vec<u8>)>,
    pub redistributables_installed: Vec<Vec<u8>>,
}

/// A capsule: its identity, directory, compatibility-layer home, and
/// metadata.
#[derive(Debug)]
pub struct Capsule {
    pub name: Vec<u8>,
    pub capsule_dir: Vec<u8>,
    pub home_path: Vec<u8>,
    pub metadata: CapsuleMetadata,
}

impl CapsuleMetadata {
    /// A fresh record for a capsule of this name: everything empty or
    /// off, the main entry labeled for launching, and the lifecycle
    /// starting at `Installing`.
    pub fn default_named(name: Vec<u8>) -> (r: CapsuleMetadata)
        ensures
            r.name@ == name@,
            r.executables.main.path@ == Seq::<u8>::empty(),
            r.executables.main.args@ == Seq::<u8>::empty(),
            r.executables.main.label@ == "Launch".spec_bytes(),
            r.executables.main.original_shortcut is None,
            r.executables.tools@.len() == 0,
            r.install_state == InstallState::Installing,
            r.installer_path is None,
            r.game_id is None,
            r.store is None,
            r.game_dir is None,
            !r.install_vcredist,
            !r.install_dxweb,
            !r.protonfixes_disable,
            !r.xalia_enabled,
            r.protonfixes_tricks@.len() == 0,
            r.protonfixes_replace_cmds@.len() == 0,
            r.protonfixes_dxvk_sets@.len() == 0,
            r.env_vars@.len() == 0,
            r.redistributables_installed@.len() == 0,
    {
        CapsuleMetadata {
            name,
            executables: ExecutableConfig {
                main: ExecutableEntry {
                    path: Vec::new(),
                    args: Vec::new(),
                    label: "Launch".as_bytes_vec(),
                    original_shortcut: None,
                },
                tools: Vec::new(),
            },
            install_state: InstallState::Installing,
            installer_path: None,
            game_id: None,
            store: None,
            game_dir: None,
            install_vcredist: false,
            install_dxweb: false,
            protonfixes_disable: false,
            xalia_enabled: false,
            protonfixes_tricks: Vec::new(),
            protonfixes_replace_cmds: Vec::new(),
            protonfixes_dxvk_sets: Vec::new(),
            env_vars: Vec::new(),
            redistributables_installed: Vec::new(),
        }
    }

    /// Is this dependency already recorded as installed?
    pub fn is_dependency_installed(&self, dep: &[u8]) -> (r: bool)
        ensures
            r == list_views(self.redistributables_installed@).contains(dep@),
    {
        list_contains(&self.redistributables_installed, dep)
    }

    /// Should the dependency dialog be offered: some selected dependency
    /// is not installed yet.
    pub fn should_prompt_dependencies(&self) -> (r: bool)
        ensures
            r == ({
                let deps = list_views(self.redistributables_installed@);
                ||| (self.install_vcredist && !deps.contains("vcredist".spec_bytes()))
                ||| (self.install_dxweb && !deps.contains("dxweb".spec_bytes()))
            }),
    {
        if !self.install_vcredist && !self.install_dxweb {
            return false;
        }
        let vcredist_pending = self.install_vcredist && !self.is_dependency_installed(
            "vcredist".as_bytes(),
        );
        let dxweb_pending = self.install_dxweb && !self.is_dependency_installed(
            "dxweb".as_bytes(),
        );
        vcredist_pending || dxweb_pending
    }

    /// Record freshly installed dependencies, skipping ones already
    /// recorded.
    pub fn record_dependencies(&mut self, installed: &Vec<Vec<u8>>)
        ensures
            list_views(final(self).redistributables_installed@) == add_deps(
                list_views(old(self).redistributables_installed@),
                list_views(installed@),
            ),
            final(self).name@ == old(self).name@,
            final(self).install_state == old(self).install_state,
    {
        let n = installed.len();
        let mut i: usize = 0;
        proof {
            assert(list_views(installed@).skip(0) =~= list_views(installed@));
        }
        while i < n
            invariant
                n == installed@.len(),
                i <= n,
                add_deps(
                    list_views(old(self).redistributables_installed@),
                    list_views(installed@),
                ) == add_deps(
                    list_views(self.redistributables_installed@),
                    list_views(installed@).skip(i as int),
                ),
                self.name@ == old(self).name@,
                self.install_state == old(self).install_state,
            decreases n - i,
        {
            proof {
                assert(list_views(installed@).skip(i as int).first() == installed@[i as int]@);
                assert(list_views(installed@).skip(i as int).drop_first() =~= list_views(
                    installed@,
                ).skip(i + 1));
            }
            if !list_contains(&self.redistributables_installed, installed[i].as_slice()) {
                let d = subvec(installed[i].as_slice(), 0, installed[i].len());
                let ghost old_list = list_views(self.redistributables_installed@);
                proof {
                    assert(d@ =~= installed@[i as int]@);
                    assert(list_views(self.redistributables_installed@.push(d)) =~= old_list.push(
                        d@,
                    ));
                }
                self.redistributables_installed.push(d);
            }
            i = i + 1;
        }
        proof {
            assert(list_views(installed@).skip(n as int) =~= Seq::<Seq<u8>>::empty());
        }
    }
}

/// The dependency list after recording a batch: each new name appended
/// once, in order of arrival.
pub open spec fn add_deps(cur: Seq<Seq<u8>>, ds: Seq<Seq<u8>>) -> Seq<Seq<u8>>
    decreases ds.len(),
{
    if ds.len() == 0 {
        cur
    } else {
        add_deps(
            if cur.contains(ds.first()) {
                cur
            } else {
                cur.push(ds.first())
            },
            ds.drop_first(),
        )
    }
}

impl Capsule {
    /// The compatibility-layer home directory of a capsule image: the
    /// image's own path with `.home` appended.
    pub fn get_home_path(appimage_path: &[u8]) -> (r: Vec<u8>)
        ensures
            r@ == appimage_path@ + ".home".spec_bytes(),
    {
        let mut r: Vec<u8> = Vec::new();
        push_all(&mut r, appimage_path);
        push_all(&mut r, ".home".as_bytes());
        r
    }
}

/// The home directory of a capsule under its directory: the image name
/// plus `.AppImage.home`.
pub fn home_path_for(capsule_dir: &[u8], name: &[u8]) -> (r: Vec<u8>)
    ensures
        r@ == capsule_dir@ + "/".spec_bytes() + name@ + ".AppImage.home".spec_bytes(),
{
    let mut r: Vec<u8> = Vec::new();
    push_all(&mut r, capsule_dir);
    push_all(&mut r, "/".as_bytes());
    push_all(&mut r, name);
    push_all(&mut r, ".AppImage.home".as_bytes());
    r
}

/// The compatibility-layer prefix of a capsule: `prefix` under its
/// home.
pub fn prefix_path_for(capsule_dir: &[u8], name: &[u8]) -> (r: Vec<u8>)
    ensures
        r@ == capsule_dir@ + "/".spec_bytes() + name@ + ".AppImage.home".spec_bytes()
            + "/prefix".spec_bytes(),
{
    let mut r = home_path_for(capsule_dir, name);
    push_all(&mut r, "/prefix".as_bytes());
    r
}

/// The byte survives sanitizing: it is not an ASCII control character.
pub open spec fn keeps_byte(b: u8) -> bool {
    !(b < 32 || b == 127)
}

/// A slash of either kind becomes an underscore.
pub open spec fn scrub_byte(b: u8) -> u8 {
    if b == 47 || b == 92 {
        95
    } else {
        b
    }
}

/// The sanitized form of a byte string: control bytes dropped, slashes
/// replaced by underscores.
pub open spec fn scrubbed(s: Seq<u8>) -> Seq<u8>
    decreases s.len(),
{
    if s.len() == 0 {
        Seq::empty()
    } else {
        let rest = scrubbed(s.drop_last());
        if keeps_byte(s.last()) {
            rest.push(scrub_byte(s.last()))
        } else {
            rest
        }
    }
}

/// A display name as stored: surrounding whitespace removed, slashes
/// replaced, control bytes dropped.
pub open spec fn sanitized(s: Seq<u8>) -> Seq<u8> {
    scrubbed(drop_trailing_ws(drop_leading_ws(s)))
}

/// Sanitize a user-entered capsule name.
pub fn sanitize_name(name: &[u8]) -> (r: Vec<u8>)
    ensures
        r@ == sanitized(name@),
{
    let t = trim_ws(name);
    let n = t.len();
    let mut r: Vec<u8> = Vec::new();
    let mut i: usize = 0;
    proof {
        assert(t@.subrange(0, 0) =~= Seq::<u8>::empty());
    }
    while i < n
        invariant
            n == t@.len(),
            i <= n,
            r@ == scrubbed(t@.subrange(0, i as int)),
        decreases n - i,
    {
        let b = t[i];
        proof {
            assert(t@.subrange(0, i + 1).drop_last() =~= t@.subrange(0, i as int));
            assert(t@.subrange(0, i + 1).last() == t@[i as int]);
        }
        if !(b < 32 || b == 127) {
            if b == 47 || b == 92 {
                r.push(95);
            } else {
                r.push(b);
            }
        }
        i = i + 1;
    }
    proof {
        assert(t@.subrange(0, n as int) =~= t@);
    }
    r
}

/// Some byte is not whitespace: the string does not trim away to
/// nothing.
pub open spec fn nonblank(s: Seq<u8>) -> bool {
    exists|i: int| 0 <= i < s.len() && !is_space(#[trigger] s[i])
}

/// Is some byte of the string not whitespace?
pub fn is_nonblank(s: &[u8]) -> (r: bool)
    ensures
        r == nonblank(s@),
{
    let n = s.len();
    let mut i: usize = 0;
    while i < n
        invariant
            n == s@.len(),
            i <= n,
            forall|j: int| 0 <= j < i ==> is_space(#[trigger] s@[j]),
        decreases n - i,
    {
        if !crate::paths::is_space_exec(s[i]) {
            return true;
        }
        i = i + 1;
    }
    false
}

/// An installer stem that names the installer rather than the game.
pub open spec fn is_generic_installer_stem_spec(stem: Seq<u8>) -> bool {
    let nm = normalized(stem);
    ||| nm.len() == 0
    ||| nm == "setup".spec_bytes()
    ||| nm == "installer".spec_bytes()
    ||| nm == "install".spec_bytes()
    ||| nm == "gog".spec_bytes()
    ||| nm == "gogsetup".spec_bytes()
    ||| nm == "goginstaller".spec_bytes()
    ||| nm == "setupx64".spec_bytes()
    ||| nm == "setupx86".spec_bytes()
    ||| nm == "update".spec_bytes()
    ||| nm == "patch".spec_bytes()
    ||| (starts_with_seq(nm, "setup".spec_bytes()) && nm.len() <= 10)
}

/// Does the stem look like a generic installer name?
pub fn is_generic_installer_stem(stem: &[u8]) -> (r: bool)
    ensures
        r == is_generic_installer_stem_spec(stem@),
{
    let nm = crate::catalog::normalize_title(stem);
    if nm.len() == 0 {
        return true;
    }
    if seq_eq(nm.as_slice(), "setup".as_bytes()) || seq_eq(nm.as_slice(), "installer".as_bytes())
        || seq_eq(nm.as_slice(), "install".as_bytes()) || seq_eq(nm.as_slice(), "gog".as_bytes())
        || seq_eq(nm.as_slice(), "gogsetup".as_bytes()) || seq_eq(
        nm.as_slice(),
        "goginstaller".as_bytes(),
    ) || seq_eq(nm.as_slice(), "setupx64".as_bytes()) || seq_eq(
        nm.as_slice(),
        "setupx86".as_bytes(),
    ) || seq_eq(nm.as_slice(), "update".as_bytes()) || seq_eq(nm.as_slice(), "patch".as_bytes()) {
        return true;
    }
    if starts_with_bytes(nm.as_slice(), "setup".as_bytes()) && nm.len() <= 10 {
        return true;
    }
    false
}

/// A folder name that names a container rather than the game.
pub open spec fn is_generic_container_spec(name: Seq<u8>) -> bool {
    let nm = normalized(name);
    ||| nm == "downloads".spec_bytes()
    ||| nm == "download".spec_bytes()
    ||| nm == "desktop".spec_bytes()
    ||| nm == "installers".spec_bytes()
    ||| nm == "installer".spec_bytes()
    ||| nm == "setup".spec_bytes()
}

/// Does the folder name look like a generic container?
pub fn is_generic_container_name(name: &[u8]) -> (r: bool)
    ensures
        r == is_generic_container_spec(name@),
{
    let nm = crate::catalog::normalize_title(name);
    seq_eq(nm.as_slice(), "downloads".as_bytes()) || seq_eq(nm.as_slice(), "download".as_bytes())
        || seq_eq(nm.as_slice(), "desktop".as_bytes()) || seq_eq(
        nm.as_slice(),
        "installers".as_bytes(),
    ) || seq_eq(nm.as_slice(), "installer".as_bytes()) || seq_eq(
        nm.as_slice(),
        "setup".as_bytes(),
    )
}

/// The default capsule name suggested for a chosen path: the parent
/// folder when it is meaningful, else the file stem (which, for an
/// installer, must not be a generic installer name); the choice is
/// sanitized and must not be blank.
pub open spec fn default_name_spec(mode: AddGameMode, p: Seq<u8>) -> Option<Seq<u8>> {
    let segs = segments_of(p);
    let stem = if segs.len() > 0 && nonblank(file_stem_of(segs.last())) {
        Some(file_stem_of(segs.last()))
    } else {
        None
    };
    let parent = if segs.len() >= 2 && nonblank(segs[segs.len() - 2]) {
        Some(segs[segs.len() - 2])
    } else {
        None
    };
    let parent_ok = match parent {
        Some(pp) => !is_generic_container_spec(pp),
        None => false,
    };
    let candidate = match mode {
        AddGameMode::Existing => if parent_ok {
            parent
        } else {
            stem
        },
        AddGameMode::Installer => if parent_ok {
            parent
        } else {
            match stem {
                Some(st) => if is_generic_installer_stem_spec(st) {
                    None
                } else {
                    Some(st)
                },
                None => None,
            }
        },
    };
    match candidate {
        Some(c) => if nonblank(sanitized(c)) {
            Some(sanitized(c))
        } else {
            None
        },
        None => None,
    }
}

/// Suggest a capsule name for a chosen installer or game path.
pub fn default_game_name_for_path(mode: AddGameMode, p: &[u8]) -> (r: Option<Vec<u8>>)
    ensures
        match r {
            Some(v) => default_name_spec(mode, p@) == Some(v@),
            None => default_name_spec(mode, p@) is None,
        },
{
    let segs = segments(p);
    let sn = segs.len();
    let stem: Option<Vec<u8>> = if sn > 0 {
        let st = crate::paths::file_stem(segs[sn - 1].as_slice());
        proof {
            assert(seg_views(segs@)[sn - 1] == segments_of(p@).last());
        }
        if is_nonblank(st.as_slice()) {
            Some(st)
        } else {
            None
        }
    } else {
        None
    };
    let parent: Option<Vec<u8>> = if sn >= 2 {
        let pp = subvec(segs[sn - 2].as_slice(), 0, segs[sn - 2].len());
        proof {
            assert(pp@ =~= seg_views(segs@)[sn - 2]);
            assert(seg_views(segs@)[sn - 2] == segments_of(p@)[sn - 2]);
        }
        if is_nonblank(pp.as_slice()) {
            Some(pp)
        } else {
            None
        }
    } else {
        None
    };
    let parent_ok: bool = match &parent {
        Some(pp) => !is_generic_container_name(pp.as_slice()),
        None => false,
    };
    let candidate: Option<Vec<u8>> = match mode {
        AddGameMode::Existing => if parent_ok {
            parent
        } else {
            stem
        },
        AddGameMode::Installer => if parent_ok {
            parent
        } else {
            match stem {
                Some(st) => if is_generic_installer_stem(st.as_slice()) {
                    None
                } else {
                    Some(st)
                },
                None => None,
            }
        },
    };
    match candidate {
        Some(c) => {
            let s = sanitize_name(c.as_slice());
            if is_nonblank(s.as_slice()) {
                Some(s)
            } else {
                None
            }
        },
        None => None,
    }
}

/// The relative game folder chosen for an adopted game: the trimmed
/// input, unless it is blank or absolute, in which case the capsule
/// name stands in.
pub open spec fn relative_folder_spec(name: Seq<u8>, input: Seq<u8>) -> Seq<u8> {
    let t = drop_trailing_ws(drop_leading_ws(input));
    if t.len() == 0 || t[0] == 47 {
        name
    } else {
        t
    }
}

/// Resolve the user's game-folder input against the capsule name.
pub fn resolve_relative_game_folder(name: &[u8], input: &[u8]) -> (r: Vec<u8>)
    ensures
        r@ == relative_folder_spec(name@, input@),
{
    let t = trim_ws(input);
    if t.len() == 0 || t[0] == 47 {
        subvec(name, 0, name.len())
    } else {
        t
    }
}

/// The first free name: `base` when untaken, else `base-1`, `base-2`,
/// and so on; after 999 numbered attempts `base` itself stands.
pub fn unique_name(base: &[u8], taken: &Vec<Vec<u8>>) -> (r: Vec<u8>)
    ensures
        !list_views(taken@).contains(base@) ==> r@ == base@,
        list_views(taken@).contains(base@) ==> (r@ == base@ && (forall|idx: int|
            1 <= idx < 1000 ==> list_views(taken@).contains(
                #[trigger] numbered_name(base@, idx),
            ))) || (exists|idx: int|
            1 <= idx < 1000 && r@ == numbered_name(base@, idx) && !list_views(taken@).contains(
                r@,
            ) && forall|j: int|
                1 <= j < idx ==> list_views(taken@).contains(#[trigger] numbered_name(base@, j))),
{
    if !list_contains(taken, base) {
        let r = subvec(base, 0, base.len());
        proof {
            assert(r@ =~= base@);
        }
        return r;
    }
    let mut idx: u64 = 1;
    while idx < 1000
        invariant
            1 <= idx <= 1000,
            list_views(taken@).contains(base@),
            forall|j: int|
                1 <= j < idx ==> list_views(taken@).contains(#[trigger] numbered_name(base@, j)),
        decreases 1000 - idx,
    {
        let digits = render_counter(idx);
        let mut cand: Vec<u8> = Vec::new();
        push_all(&mut cand, base);
        push_all(&mut cand, "-".as_bytes());
        push_all(&mut cand, digits.as_slice());
        proof {
            assert(cand@ =~= numbered_name(base@, idx as int));
        }
        if !list_contains(taken, cand.as_slice()) {
            return cand;
        }
        idx = idx + 1;
    }
    let r = subvec(base, 0, base.len());
    proof {
        assert(r@ =~= base@);
    }
    r
}

/// Why adopting an existing game fails.
#[derive(PartialEq, Eq, Structural, Clone, Copy, Debug)]
pub enum CapsuleError {
    /// The chosen executable does not lie inside the chosen folder.
    ExecutableOutsideSource,
}

/// The executable lies strictly inside the directory, byte-wise: the
/// directory is a proper prefix followed by a separator.
pub open spec fn inside_dir(exe: Seq<u8>, dir: Seq<u8>) -> bool {
    &&& dir.len() < exe.len()
    &&& exe.subrange(0, dir.len() as int) == dir
    &&& exe[dir.len() as int] == 47
}

/// What adopting an existing game will do.
#[derive(Debug)]
pub struct ExistingGamePlan {
    pub relative_exe: Vec<u8>,
    pub new_exe_path: Vec<u8>,
    pub metadata: CapsuleMetadata,
}

/// Plan the adoption of an existing installation: the chosen executable
/// must lie inside the source folder; its path relative to that folder
/// is re-rooted under the destination directory, and the metadata is
/// drawn up as installed.
pub fn plan_existing_game(
    name: &[u8],
    dest_dir: &[u8],
    source_dir: &[u8],
    exe_path: &[u8],
    game_id: Option<Vec<u8>>,
    store: Option<Vec<u8>>,
) -> (r: Result<ExistingGamePlan, CapsuleError>)
    ensures
        match r {
            Ok(plan) => {
                &&& inside_dir(exe_path@, source_dir@)
                &&& plan.relative_exe@ == exe_path@.skip(source_dir@.len() as int + 1)
                &&& plan.new_exe_path@ == dest_dir@ + "/".spec_bytes() + plan.relative_exe@
                &&& plan.metadata.name@ == name@
                &&& plan.metadata.install_state == InstallState::Installed
                &&& plan.metadata.executables.main.path@ == plan.new_exe_path@
                &&& opt_bytes_eq(plan.metadata.game_id, game_id)
                &&& opt_bytes_eq(plan.metadata.store, store)
                &&& (match plan.metadata.game_dir {
                    Some(d) => d@ == dest_dir@,
                    None => false,
                })
                &&& plan.metadata.installer_path is None
            },
            Err(e) => e == CapsuleError::ExecutableOutsideSource && !inside_dir(
                exe_path@,
                source_dir@,
            ),
        },
{
    let sn = source_dir.len();
    let en = exe_path.len();
    let inside: bool = if sn < en {
        let head = subvec(exe_path, 0, sn);
        let boundary = exe_path[sn] == 47;
        seq_eq(head.as_slice(), source_dir) && boundary
    } else {
        false
    };
    if !inside {
        return Err(CapsuleError::ExecutableOutsideSource);
    }
    let relative_exe = subvec(exe_path, sn + 1, en);
    proof {
        assert(relative_exe@ =~= exe_path@.skip(source_dir@.len() as int + 1));
    }
    let mut new_exe_path: Vec<u8> = Vec::new();
    push_all(&mut new_exe_path, dest_dir);
    push_all(&mut new_exe_path, "/".as_bytes());
    push_all(&mut new_exe_path, relative_exe.as_slice());
    let mut metadata = CapsuleMetadata::default_named(subvec(name, 0, name.len()));
    proof {
        assert(metadata.name@ =~= name@);
    }
    metadata.install_state = InstallState::Installed;
    metadata.executables.main.path = subvec(new_exe_path.as_slice(), 0, new_exe_path.len());
    proof {
        assert(metadata.executables.main.path@ =~= new_exe_path@);
    }
    metadata.game_id = game_id;
    metadata.store = store;
    metadata.game_dir = Some(subvec(dest_dir, 0, dest_dir.len()));
    proof {
        match &metadata.game_dir {
            Some(d) => assert(d@ =~= dest_dir@),
            None => (),
        }
    }
    Ok(ExistingGamePlan { relative_exe, new_exe_path, metadata })
}

/// Optional byte strings carry the same content.
pub open spec fn opt_bytes_eq(a: Option<Vec<u8>>, b: Option<Vec<u8>>) -> bool {
    match (a, b) {
        (Some(x), Some(y)) => x@ == y@,
        (None, None) => true,
        _ => false,
    }
}

/// Draw up the record of a capsule about to run its installer: the
/// lifecycle starts at `Installing`, the installer path is remembered
/// for resumption, and the default game directory lies under the
/// prefix.
pub fn plan_installer_capsule(
    name: &[u8],
    capsule_dir: &[u8],
    installer_path: &[u8],
    game_id: Option<Vec<u8>>,
    store: Option<Vec<u8>>,
) -> (r: CapsuleMetadata)
    ensures
        r.name@ == name@,
        r.install_state == InstallState::Installing,
        (match r.installer_path {
            Some(p) => p@ == installer_path@,
            None => false,
        }),
        opt_bytes_eq(r.game_id, game_id),
        opt_bytes_eq(r.store, store),
        (match r.game_dir {
            Some(d) => d@ == capsule_dir@ + "/".spec_bytes() + name@
                + ".AppImage.home".spec_bytes() + "/prefix".spec_bytes() + "/games/".spec_bytes()
                + name@,
            None => false,
        }),
        r.executables.main.path@ == Seq::<u8>::empty(),
{
    let mut metadata = CapsuleMetadata::default_named(subvec(name, 0, name.len()));
    proof {
        assert(metadata.name@ =~= name@);
    }
    metadata.installer_path = Some(subvec(installer_path, 0, installer_path.len()));
    proof {
        match &metadata.installer_path {
            Some(p) => assert(p@ =~= installer_path@),
            None => (),
        }
    }
    metadata.game_id = game_id;
    metadata.store = store;
    let mut game_dir = prefix_path_for(capsule_dir, name);
    push_all(&mut game_dir, "/games/".as_bytes());
    push_all(&mut game_dir, name);
    metadata.game_dir = Some(game_dir);
    metadata
}

impl CapsuleMetadata {
    /// Apply the settings dialog: the executable path and tuning fields
    /// are replaced; a non-blank executable path marks the capsule
    /// installed.
    pub fn apply_settings(
        &mut self,
        exe_path: Vec<u8>,
        game_id: Option<Vec<u8>>,
        store: Option<Vec<u8>>,
        install_vcredist: bool,
        install_dxweb: bool,
        protonfixes_disable: bool,
        xalia_enabled: bool,
        protonfixes_tricks: Vec<Vec<u8>>,
        protonfixes_replace_cmds: Vec<Vec<u8>>,
        protonfixes_dxvk_sets: Vec<Vec<u8>>,
    )
        ensures
            final(self).executables.main.path@ == exe_path@,
            nonblank(exe_path@) ==> final(self).install_state == InstallState::Installed,
            !nonblank(exe_path@) ==> final(self).install_state == old(self).install_state,
            opt_bytes_eq(final(self).game_id, game_id),
            opt_bytes_eq(final(self).store, store),
            final(self).install_vcredist == install_vcredist,
            final(self).install_dxweb == install_dxweb,
            final(self).protonfixes_disable == protonfixes_disable,
            final(self).xalia_enabled == xalia_enabled,
            list_views(final(self).protonfixes_tricks@) == list_views(protonfixes_tricks@),
            list_views(final(self).protonfixes_replace_cmds@) == list_views(
                protonfixes_replace_cmds@,
            ),
            list_views(final(self).protonfixes_dxvk_sets@) == list_views(protonfixes_dxvk_sets@),
            final(self).name@ == old(self).name@,
    {
        if is_nonblank(exe_path.as_slice()) {
            self.install_state = InstallState::Installed;
        }
        self.executables.main.path = exe_path;
        self.game_id = game_id;
        self.store = store;
        self.install_vcredist = install_vcredist;
        self.install_dxweb = install_dxweb;
        self.protonfixes_disable = protonfixes_disable;
        self.xalia_enabled = xalia_enabled;
        self.protonfixes_tricks = protonfixes_tricks;
        self.protonfixes_replace_cmds = protonfixes_replace_cmds;
        self.protonfixes_dxvk_sets = protonfixes_dxvk_sets;
    }

    /// Accept the installation as finished, whatever the executable
    /// state.
    pub fn mark_install_complete(&mut self)
        ensures
            final(self).install_state == InstallState::Installed,
            final(self).executables.main.path@ == old(self).executables.main.path@,
            final(self).name@ == old(self).name@,
    {
        self.install_state = InstallState::Installed;
    }

    /// Record the resolver's winning guess as the main executable.
    pub fn set_main_executable(&mut self, path: Vec<u8>, shortcut: Option<Vec<u8>>)
        ensures
            final(self).executables.main.path@ == path@,
            opt_bytes_eq(final(self).executables.main.original_shortcut, shortcut),
            final(self).install_state == old(self).install_state,
            final(self).name@ == old(self).name@,
    {
        self.executables.main.path = path;
        self.executables.main.original_shortcut = shortcut;
    }
}

} // verus!
