//! Installing and locating versioned runtime directories.
//!
//! A release carries assets; the archive asset is chosen by suffix,
//! cached by file name, extracted into a staging directory and moved
//! into the runtime root by a single rename.  Installed runtimes are the
//! directories under that root whose names follow the release naming
//! convention.

use vstd::prelude::*;
use sha2::Digest;
use crate::text::{
    ends_with_bytes, ends_with_seq, lemma_lex_le_refl, lemma_lex_le_total, lemma_lex_le_trans,
    lex_le, lex_le_exec, lower, seq_eq, starts_with_bytes, starts_with_seq, subvec, to_lower,
};
use crate::paths::push_all;
use vstd::string::StringSliceAdditionalSpecFns;

verus! {

/// A runtime release: its tag, human name, publication timestamp and
/// downloadable assets.
#[derive(Debug)]
pub struct ProtonRelease {
    pub tag_name: Vec<u8>,
    pub name: Vec<u8>,
    pub published_at: Vec<u8>,
    pub assets: Vec<GitHubAsset>,
}

/// One downloadable artifact of a release.
#[derive(Debug)]
pub struct GitHubAsset {
    pub name: Vec<u8>,
    pub browser_download_url: Vec<u8>,
    pub size: u64,
}

/// Why an installation cannot proceed.
#[derive(PartialEq, Eq, Structural, Clone, Copy, Debug)]
pub enum RuntimeError {
    /// The release list was empty.
    NoReleases,
    /// No asset of the release is a `.tar.gz` archive.
    NoArchiveAsset,
}

/// Manages the runtime root directory.
#[derive(Debug)]
pub struct RuntimeManager {
    pub runtimes_dir: Vec<u8>,
}

/// The archive suffix that identifies the installable asset.
pub open spec fn archive_suffix() -> Seq<u8> {
    ".tar.gz".spec_bytes()
}

/// The suffix of the checksum asset.
pub open spec fn checksum_suffix() -> Seq<u8> {
    ".sha512sum".spec_bytes()
}

/// The naming convention of installed runtime directories.
pub open spec fn runtime_prefix() -> Seq<u8> {
    "GE-Proton".spec_bytes()
}

/// SHA-256 of a byte string, as sha2 computes it.
pub uninterp spec fn sha256_of(data: Seq<u8>) -> Seq<u8>;

/// The lower-case hex digit of a value below 16.
pub open spec fn hex_digit(n: u8) -> u8 {
    if n < 10 {
        (48 + n) as u8
    } else {
        (87 + n) as u8
    }
}

/// Lower-case hex encoding: two digits per byte, high nibble first.
pub open spec fn hex_of(data: Seq<u8>) -> Seq<u8>
    decreases data.len(),
{
    if data.len() == 0 {
        Seq::empty()
    } else {
        seq![hex_digit(data.first() / 16), hex_digit(data.first() % 16)] + hex_of(
            data.drop_first(),
        )
    }
}

/// Relies on sha2's `Sha256`: the digest depends on the bytes alone and
/// is 32 bytes long.
#[verifier::external_body]
fn sha256_digest(data: &[u8]) -> (r: Vec<u8>)
    ensures
        r@ == sha256_of(data@),
        r@.len() == 32,
{
    let mut hasher = sha2::Sha256::new();
    hasher.update(data);
    hasher.finalize().to_vec()
}

/// Relies on hex::encode: two lower-case hex digits per byte, high
/// nibble first.
#[verifier::external_body]
fn hex_encode(data: &[u8]) -> (r: Vec<u8>)
    ensures
        r@ == hex_of(data@),
{
    hex::encode(data).into_bytes()
}

impl RuntimeManager {
    /// A manager over the given runtime root directory.
    pub fn new(runtimes_dir: Vec<u8>) -> (r: RuntimeManager)
        ensures
            r.runtimes_dir@ == runtimes_dir@,
    {
        RuntimeManager { runtimes_dir }
    }

    /// The newest release: the first of the list, which the release feed
    /// orders newest first.
    pub fn get_latest_release(releases: Vec<ProtonRelease>) -> (r: Result<
        ProtonRelease,
        RuntimeError,
    >)
        ensures
            match r {
                Ok(rel) => releases@.len() > 0 && rel == releases@[0],
                Err(e) => e == RuntimeError::NoReleases && releases@.len() == 0,
            },
    {
        let mut releases = releases;
        if releases.len() == 0 {
            Err(RuntimeError::NoReleases)
        } else {
            Ok(releases.remove(0))
        }
    }

    /// Index of the first `.tar.gz` asset of the release.
    pub fn find_targz_asset(release: &ProtonRelease) -> (r: Option<usize>)
        ensures
            match r {
                Some(i) => {
                    &&& 0 <= i < release.assets@.len()
                    &&& ends_with_seq(release.assets@[i as int].name@, archive_suffix())
                    &&& forall|j: int|
                        0 <= j < i ==> !ends_with_seq(
                            (#[trigger] release.assets@[j]).name@,
                            archive_suffix(),
                        )
                },
                None => forall|j: int|
                    0 <= j < release.assets@.len() ==> !ends_with_seq(
                        (#[trigger] release.assets@[j]).name@,
                        archive_suffix(),
                    ),
            },
    {
        let n = release.assets.len();
        let mut i: usize = 0;
        while i < n
            invariant
                n == release.assets@.len(),
                i <= n,
                forall|j: int|
                    0 <= j < i ==> !ends_with_seq(
                        (#[trigger] release.assets@[j]).name@,
                        archive_suffix(),
                    ),
            decreases n - i,
        {
            if ends_with_bytes(release.assets[i].name.as_slice(), ".tar.gz".as_bytes()) {
                return Some(i);
            }
            i = i + 1;
        }
        None
    }

    /// Index of the first checksum asset of the release.
    pub fn find_checksum_asset(release: &ProtonRelease) -> (r: Option<usize>)
        ensures
            match r {
                Some(i) => {
                    &&& 0 <= i < release.assets@.len()
                    &&& ends_with_seq(release.assets@[i as int].name@, checksum_suffix())
                    &&& forall|j: int|
                        0 <= j < i ==> !ends_with_seq(
                            (#[trigger] release.assets@[j]).name@,
                            checksum_suffix(),
                        )
                },
                None => forall|j: int|
                    0 <= j < release.assets@.len() ==> !ends_with_seq(
                        (#[trigger] release.assets@[j]).name@,
                        checksum_suffix(),
                    ),
            },
    {
        let n = release.assets.len();
        let mut i: usize = 0;
        while i < n
            invariant
                n == release.assets@.len(),
                i <= n,
                forall|j: int|
                    0 <= j < i ==> !ends_with_seq(
                        (#[trigger] release.assets@[j]).name@,
                        checksum_suffix(),
                    ),
            decreases n - i,
        {
            if ends_with_bytes(release.assets[i].name.as_slice(), ".sha512sum".as_bytes()) {
                return Some(i);
            }
            i = i + 1;
        }
        None
    }

    /// The lower-case hex SHA-256 digest of the bytes.
    pub fn calculate_sha256(&self, data: &[u8]) -> (r: Vec<u8>)
        ensures
            r@ == hex_of(sha256_of(data@)),
    {
        let digest = sha256_digest(data);
        hex_encode(digest.as_slice())
    }

    /// Does the digest of the bytes match the expected hex digest,
    /// case-insensitively?
    pub fn verify_checksum(&self, data: &[u8], expected_sha256: &[u8]) -> (r: bool)
        ensures
            r == (lower(hex_of(sha256_of(data@))) == lower(expected_sha256@)),
    {
        let actual = self.calculate_sha256(data);
        let actual_low = to_lower(actual.as_slice());
        let expected_low = to_lower(expected_sha256);
        seq_eq(actual_low.as_slice(), expected_low.as_slice())
    }

    /// The names of installed runtimes among the entries of the runtime
    /// root: those following the release naming convention.
    pub fn list_installed(&self, entries: &Vec<Vec<u8>>) -> (r: Vec<Vec<u8>>)
        ensures
            name_views(r@) == installed_of(name_views(entries@)),
    {
        let n = entries.len();
        let mut r: Vec<Vec<u8>> = Vec::new();
        let mut i: usize = 0;
        proof {
            assert(name_views(r@) =~= Seq::<Seq<u8>>::empty());
            assert(name_views(entries@).subrange(0, 0) =~= Seq::<Seq<u8>>::empty());
            assert(installed_of(name_views(entries@).subrange(0, 0)) =~= Seq::<Seq<u8>>::empty());
        }
        while i < n
            invariant
                n == entries@.len(),
                i <= n,
                name_views(r@) == installed_of(name_views(entries@).subrange(0, i as int)),
            decreases n - i,
        {
            proof {
                assert(name_views(entries@).subrange(0, i + 1).drop_last() =~= name_views(
                    entries@,
                ).subrange(0, i as int));
                assert(name_views(entries@).subrange(0, i + 1).last() == entries@[i as int]@);
            }
            if starts_with_bytes(entries[i].as_slice(), "GE-Proton".as_bytes()) {
                let e = subvec(entries[i].as_slice(), 0, entries[i].len());
                proof {
                    assert(e@ =~= entries@[i as int]@);
                    assert(name_views(r@.push(e)) =~= name_views(r@).push(e@));
                }
                r.push(e);
            }
            i = i + 1;
        }
        proof {
            assert(name_views(entries@).subrange(0, n as int) =~= name_views(entries@));
        }
        r
    }

    /// The path of the latest installed runtime: the lexicographically
    /// greatest name following the naming convention, joined under the
    /// runtime root; `None` when none is installed.
    pub fn latest_installed(&self, entries: &Vec<Vec<u8>>) -> (r: Option<Vec<u8>>)
        ensures
            match r {
                Some(p) => exists|i: int|
                    #![trigger installed_of(name_views(entries@))[i]]
                    {
                        let names = installed_of(name_views(entries@));
                        &&& 0 <= i < names.len()
                        &&& p@ == self.runtimes_dir@ + "/".spec_bytes() + names[i]
                        &&& forall|j: int| 0 <= j < names.len() ==> lex_le(#[trigger] names[j], names[i])
                    },
                None => installed_of(name_views(entries@)).len() == 0,
            },
    {
        let names = self.list_installed(entries);
        let n = names.len();
        if n == 0 {
            return None;
        }
        let mut best: usize = 0;
        let mut i: usize = 1;
        proof {
            lemma_lex_le_refl(name_views(names@)[0]);
        }
        while i < n
            invariant
                n == names@.len(),
                best < i <= n,
                name_views(names@) == installed_of(name_views(entries@)),
                forall|j: int|
                    0 <= j < i ==> lex_le(
                        #[trigger] name_views(names@)[j],
                        name_views(names@)[best as int],
                    ),
            decreases n - i,
        {
            if lex_le_exec(names[best].as_slice(), names[i].as_slice()) {
                proof {
                    assert forall|j: int| 0 <= j < i + 1 implies lex_le(
                        #[trigger] name_views(names@)[j],
                        name_views(names@)[i as int],
                    ) by {
                        if j < i {
                            lemma_lex_le_trans(
                                name_views(names@)[j],
                                name_views(names@)[best as int],
                                name_views(names@)[i as int],
                            );
                        } else {
                            lemma_lex_le_refl(name_views(names@)[i as int]);
                        }
                    }
                }
                best = i;
            } else {
                proof {
                    lemma_lex_le_total(
                        name_views(names@)[best as int],
                        name_views(names@)[i as int],
                    );
                }
            }
            i = i + 1;
        }
        Some(self.get_proton_path(names[best].as_slice()))
    }

    /// The path of a runtime version under the runtime root.
    pub fn get_proton_path(&self, version: &[u8]) -> (r: Vec<u8>)
        ensures
            r@ == self.runtimes_dir@ + "/".spec_bytes() + version@,
    {
        let mut r: Vec<u8> = Vec::new();
        push_all(&mut r, self.runtimes_dir.as_slice());
        push_all(&mut r, "/".as_bytes());
        push_all(&mut r, version);
        r
    }

    /// Is this version present among the entries of the runtime root?
    pub fn is_installed(&self, entries: &Vec<Vec<u8>>, version: &[u8]) -> (r: bool)
        ensures
            r == name_views(entries@).contains(version@),
    {
        let n = entries.len();
        let mut i: usize = 0;
        while i < n
            invariant
                n == entries@.len(),
                i <= n,
                forall|j: int| 0 <= j < i ==> name_views(entries@)[j] != version@,
            decreases n - i,
        {
            if seq_eq(entries[i].as_slice(), version) {
                proof {
                    assert(name_views(entries@)[i as int] == version@);
                }
                return true;
            }
            i = i + 1;
        }
        false
    }
}

/// What extraction left in the staging directory: whether a
/// subdirectory named after the release tag exists, and otherwise the
/// first subdirectory found, if any.
#[derive(Debug)]
pub struct ExtractLayout {
    pub has_tag_dir: bool,
    pub first_subdir: Option<Vec<u8>>,
}

/// Decisions about the download cache before an installation.
#[derive(Debug)]
pub struct CachePlan {
    /// Remove the completed cache file first.
    pub evict_cached: bool,
    /// Remove the partial sidecar first.
    pub evict_partial: bool,
    /// A download is needed (nothing cached, or the wrong size).
    pub need_download: bool,
    /// Bytes already on disk that the download will resume from.
    pub resume_bytes: u64,
}

impl RuntimeManager {
    /// Decide how to use the download cache: a reinstall evicts both the
    /// cached archive and any partial; a cached file is reused only when
    /// its size matches the expectation; resumption starts from the
    /// partial, or from an undersized cached file.
    pub fn cache_plan(
        reinstall: bool,
        cached_size: Option<u64>,
        partial_size: Option<u64>,
        expected: Option<u64>,
    ) -> (r: CachePlan)
        ensures
            r.evict_cached == reinstall,
            r.evict_partial == reinstall,
            ({
                let cached = if reinstall {
                    None
                } else {
                    cached_size
                };
                let partial = if reinstall {
                    None
                } else {
                    partial_size
                };
                &&& r.need_download == (match cached {
                    Some(c) => match expected {
                        Some(e) => c != e,
                        None => false,
                    },
                    None => true,
                })
                &&& r.resume_bytes == (match partial {
                    Some(p) => p,
                    None => match (cached, expected) {
                        (Some(c), Some(e)) => if c < e {
                            c
                        } else {
                            0u64
                        },
                        _ => 0u64,
                    },
                })
            }),
    {
        let cached: Option<u64> = if reinstall {
            None
        } else {
            cached_size
        };
        let partial: Option<u64> = if reinstall {
            None
        } else {
            partial_size
        };
        let need_download: bool = match &cached {
            Some(c) => match &expected {
                Some(e) => *c != *e,
                None => false,
            },
            None => true,
        };
        let resume_bytes: u64 = match partial {
            Some(p) => p,
            None => match (cached, expected) {
                (Some(c), Some(e)) => if c < e {
                    c
                } else {
                    0
                },
                _ => 0,
            },
        };
        CachePlan { evict_cached: reinstall, evict_partial: reinstall, need_download, resume_bytes }
    }

    /// The private staging directory for this release tag, under the
    /// runtime root.
    pub fn staging_dir(&self, tag: &[u8]) -> (r: Vec<u8>)
        ensures
            r@ == self.runtimes_dir@ + "/.staging-".spec_bytes() + tag@,
    {
        let mut r: Vec<u8> = Vec::new();
        push_all(&mut r, self.runtimes_dir.as_slice());
        push_all(&mut r, "/.staging-".as_bytes());
        push_all(&mut r, tag);
        r
    }

    /// Run the placement step of an installation: resolve the extracted
    /// root's name and decide what happens to the runtime root.  The
    /// entries of the runtime root are passed in and handed back,
    /// updated exactly as the installation updates the filesystem.
    pub fn run_install(
        &self,
        release: &ProtonRelease,
        reinstall: bool,
        installed: Vec<Vec<u8>>,
        layout: &ExtractLayout,
    ) -> (r: Result<InstallOutcome, RuntimeError>)
        ensures
            ({
                let s = install_spec(
                    release.tag_name@,
                    release.assets@,
                    reinstall,
                    name_views(installed@),
                    layout.has_tag_dir,
                    opt_name_view(layout.first_subdir),
                );
                match r {
                    Ok(out) => {
                        &&& s is Ok
                        &&& out.name@ == spec_ok(s).name
                        &&& name_views(out.installed@) == spec_ok(s).installed
                        &&& out.replaced == spec_ok(s).replaced
                        &&& out.already == spec_ok(s).already
                        &&& out.path@ == self.runtimes_dir@ + "/".spec_bytes() + spec_ok(s).name
                    },
                    Err(e) => s == Err::<InstallModel, RuntimeError>(e),
                }
            }),
    {
        let has_archive = match Self::find_targz_asset(release) {
            Some(_) => true,
            None => false,
        };
        if !has_archive {
            proof {
                assert(forall|j: int|
                    0 <= j < release.assets@.len() ==> !ends_with_seq(
                        (#[trigger] release.assets@[j]).name@,
                        archive_suffix(),
                    ));
            }
            return Err(RuntimeError::NoArchiveAsset);
        }
        let name: Vec<u8> = if layout.has_tag_dir {
            subvec(release.tag_name.as_slice(), 0, release.tag_name.len())
        } else {
            match &layout.first_subdir {
                Some(d) => subvec(d.as_slice(), 0, d.len()),
                None => subvec(release.tag_name.as_slice(), 0, release.tag_name.len()),
            }
        };
        proof {
            assert(name@ =~= extracted_name_spec(
                release.tag_name@,
                layout.has_tag_dir,
                opt_name_view(layout.first_subdir),
            ));
        }
        let path = self.get_proton_path(name.as_slice());
        let present = contains_name(&installed, name.as_slice());
        if present && !reinstall {
            return Ok(
                InstallOutcome { name, path, installed, replaced: false, already: true },
            );
        }
        let mut kept: Vec<Vec<u8>> = remove_name(installed, name.as_slice());
        let out_name = subvec(name.as_slice(), 0, name.len());
        proof {
            assert(out_name@ =~= name@);
            assert(name_views(kept@.push(name)) =~= name_views(kept@).push(name@));
        }
        kept.push(name);
        Ok(InstallOutcome { name: out_name, path, installed: kept, replaced: present, already: false })
    }
}

/// The outcome of an installation: the resolved runtime name and path,
/// the updated entries of the runtime root, and what happened.
#[derive(Debug)]
pub struct InstallOutcome {
    pub name: Vec<u8>,
    pub path: Vec<u8>,
    pub installed: Vec<Vec<u8>>,
    pub replaced: bool,
    pub already: bool,
}

/// The model of an installation outcome.
pub struct InstallModel {
    pub name: Seq<u8>,
    pub installed: Seq<Seq<u8>>,
    pub replaced: bool,
    pub already: bool,
}

/// The view of an optional name.
pub open spec fn opt_name_view(o: Option<Vec<u8>>) -> Option<Seq<u8>> {
    match o {
        Some(v) => Some(v@),
        None => None,
    }
}

/// Some asset of the release is the installable archive.
pub open spec fn has_archive_asset(assets: Seq<GitHubAsset>) -> bool {
    exists|j: int|
        0 <= j < assets.len() && ends_with_seq((#[trigger] assets[j]).name@, archive_suffix())
}

/// The name of the extracted root: the release tag when extraction
/// produced a directory of that name, otherwise the first subdirectory
/// found, otherwise the tag again (the staging root itself carries the
/// payload).
pub open spec fn extracted_name_spec(
    tag: Seq<u8>,
    has_tag_dir: bool,
    first_subdir: Option<Seq<u8>>,
) -> Seq<u8> {
    if has_tag_dir {
        tag
    } else {
        match first_subdir {
            Some(d) => d,
            None => tag,
        }
    }
}

/// The names with every occurrence of one name removed, order kept.
pub open spec fn without_name(names: Seq<Seq<u8>>, name: Seq<u8>) -> Seq<Seq<u8>>
    decreases names.len(),
{
    if names.len() == 0 {
        Seq::empty()
    } else {
        let rest = without_name(names.drop_last(), name);
        if names.last() == name {
            rest
        } else {
            rest.push(names.last())
        }
    }
}

/// The placement step of an installation, as a function of the release,
/// the runtime root's entries and the extraction layout.  Without
/// `reinstall`, an already-present name is reported as such and nothing
/// is written; with it, the existing directory is replaced.
pub open spec fn install_spec(
    tag: Seq<u8>,
    assets: Seq<GitHubAsset>,
    reinstall: bool,
    installed: Seq<Seq<u8>>,
    has_tag_dir: bool,
    first_subdir: Option<Seq<u8>>,
) -> Result<InstallModel, RuntimeError> {
    if !has_archive_asset(assets) {
        Err(RuntimeError::NoArchiveAsset)
    } else {
        let name = extracted_name_spec(tag, has_tag_dir, first_subdir);
        if installed.contains(name) && !reinstall {
            Ok(InstallModel { name, installed, replaced: false, already: true })
        } else {
            Ok(
                InstallModel {
                    name,
                    installed: without_name(installed, name).push(name),
                    replaced: installed.contains(name),
                    already: false,
                },
            )
        }
    }
}

/// The payload of a model result known to be `Ok`.
pub open spec fn spec_ok(r: Result<InstallModel, RuntimeError>) -> InstallModel
    recommends
        r is Ok,
{
    match r {
        Ok(m) => m,
        Err(_) => InstallModel {
            name: Seq::empty(),
            installed: Seq::empty(),
            replaced: false,
            already: false,
        },
    }
}

/// Is the name among the entries?
fn contains_name(names: &Vec<Vec<u8>>, name: &[u8]) -> (r: bool)
    ensures
        r == name_views(names@).contains(name@),
{
    let n = names.len();
    let mut i: usize = 0;
    while i < n
        invariant
            n == names@.len(),
            i <= n,
            forall|j: int| 0 <= j < i ==> name_views(names@)[j] != name@,
        decreases n - i,
    {
        if seq_eq(names[i].as_slice(), name) {
            proof {
                assert(name_views(names@)[i as int] == name@);
            }
            return true;
        }
        i = i + 1;
    }
    false
}

/// The entries with every occurrence of one name removed.
fn remove_name(names: Vec<Vec<u8>>, name: &[u8]) -> (r: Vec<Vec<u8>>)
    ensures
        name_views(r@) == without_name(name_views(names@), name@),
{
    let n = names.len();
    let mut r: Vec<Vec<u8>> = Vec::new();
    let mut i: usize = 0;
    proof {
        assert(name_views(r@) =~= Seq::<Seq<u8>>::empty());
        assert(name_views(names@).subrange(0, 0) =~= Seq::<Seq<u8>>::empty());
        assert(without_name(name_views(names@).subrange(0, 0), name@) =~= Seq::<Seq<u8>>::empty());
    }
    let names_v = names;
    while i < n
        invariant
            n == names_v@.len(),
            i <= n,
            name_views(r@) == without_name(name_views(names_v@).subrange(0, i as int), name@),
        decreases n - i,
    {
        proof {
            assert(name_views(names_v@).subrange(0, i + 1).drop_last() =~= name_views(
                names_v@,
            ).subrange(0, i as int));
            assert(name_views(names_v@).subrange(0, i + 1).last() == names_v@[i as int]@);
        }
        if !seq_eq(names_v[i].as_slice(), name) {
            let e = subvec(names_v[i].as_slice(), 0, names_v[i].len());
            proof {
                assert(e@ =~= names_v@[i as int]@);
                assert(name_views(r@.push(e)) =~= name_views(r@).push(e@));
            }
            r.push(e);
        }
        i = i + 1;
    }
    proof {
        assert(name_views(names_v@).subrange(0, n as int) =~= name_views(names_v@));
    }
    r
}

/// Installing an already-installed release without `reinstall` returns
/// the existing name and writes nothing: running the placement step
/// again on its own outcome changes nothing.
pub proof fn lemma_reinstall_idempotent(
    tag: Seq<u8>,
    assets: Seq<GitHubAsset>,
    installed: Seq<Seq<u8>>,
    has_tag_dir: bool,
    first_subdir: Option<Seq<u8>>,
)
    requires
        install_spec(tag, assets, false, installed, has_tag_dir, first_subdir) is Ok,
    ensures
        ({
            let r1 = spec_ok(install_spec(tag, assets, false, installed, has_tag_dir, first_subdir));
            let second = install_spec(tag, assets, false, r1.installed, has_tag_dir, first_subdir);
            &&& second is Ok
            &&& spec_ok(second).name == r1.name
            &&& spec_ok(second).installed == r1.installed
            &&& spec_ok(second).already
            &&& !spec_ok(second).replaced
        }),
{
    let r1 = spec_ok(install_spec(tag, assets, false, installed, has_tag_dir, first_subdir));
    let name = extracted_name_spec(tag, has_tag_dir, first_subdir);
    if !installed.contains(name) {
        assert(r1.installed.last() == name);
        assert(r1.installed.contains(name));
    }
}

/// Installing with `reinstall` replaces the existing directory: the
/// outcome carries the same name, present in the runtime root, and the
/// replacement is reported whenever the name was already there.
pub proof fn lemma_reinstall_replaces(
    tag: Seq<u8>,
    assets: Seq<GitHubAsset>,
    installed: Seq<Seq<u8>>,
    has_tag_dir: bool,
    first_subdir: Option<Seq<u8>>,
)
    requires
        has_archive_asset(assets),
    ensures
        ({
            let name = extracted_name_spec(tag, has_tag_dir, first_subdir);
            let r = install_spec(tag, assets, true, installed, has_tag_dir, first_subdir);
            &&& r is Ok
            &&& spec_ok(r).name == name
            &&& spec_ok(r).replaced == installed.contains(name)
            &&& spec_ok(r).installed.contains(name)
        }),
{
    let name = extracted_name_spec(tag, has_tag_dir, first_subdir);
    let r = spec_ok(install_spec(tag, assets, true, installed, has_tag_dir, first_subdir));
    assert(r.installed.last() == name);
    assert(r.installed.contains(name));
}

/// The share of the progress scale given to the download phase.
pub const DOWNLOAD_SPAN_PERMILLE: u32 = 900;

/// The progress value reported while extracting.
pub const EXTRACT_PERMILLE: u32 = 950;

/// The progress value reported when the installation is complete.
pub const DONE_PERMILLE: u32 = 1000;

/// The download phase's progress in permille of the whole installation:
/// the downloaded share of the total, scaled into the download span.
pub fn download_phase_permille(downloaded: u64, total: u64) -> (r: u32)
    requires
        0 < total,
        downloaded <= total,
    ensures
        r as int == downloaded as int * 900 / total as int,
        r <= 900,
{
    let w: u128 = (downloaded as u128) * 900 / (total as u128);
    proof {
        assert((downloaded as int) * 900 / (total as int) <= 900) by (nonlinear_arith)
            requires
                0 < total as int,
                downloaded as int <= total as int,
        ;
        assert((downloaded as int) * 900 >= 0) by (nonlinear_arith)
            requires
                downloaded as int >= 0,
        ;
    }
    w as u32
}

/// The views of a vector of names.
pub open spec fn name_views(v: Seq<Vec<u8>>) -> Seq<Seq<u8>> {
    v.map_values(|x: Vec<u8>| x@)
}

/// The names that follow the runtime naming convention, in order.
pub open spec fn installed_of(names: Seq<Seq<u8>>) -> Seq<Seq<u8>>
    decreases names.len(),
{
    if names.len() == 0 {
        Seq::empty()
    } else {
        let rest = installed_of(names.drop_last());
        if starts_with_seq(names.last(), runtime_prefix()) {
            rest.push(names.last())
        } else {
            rest
        }
    }
}

} // verus!
