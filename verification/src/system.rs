//! System readiness checks and setup decisions.
//!
//! The surrounding application probes the machine (commands on the
//! path, driver output, installed runtimes); the verdicts are computed
//! here from those plain observations, together with the package lists
//! and the selection of the right launcher artifact.

use vstd::prelude::*;
use crate::text::{contains_bytes, contains_seq, ends_with_bytes, ends_with_seq, lower, starts_with_bytes, starts_with_seq, to_lower};
use crate::paths::push_all;
use vstd::string::StringSliceAdditionalSpecFns;
use vstd::string::StrSliceExecFns;

verus! {

/// Overall readiness of the machine.
#[derive(PartialEq, Eq, Structural, Clone, Copy, Debug)]
pub enum SystemStatus {
    /// Everything needed is present.
    AllInstalled,
    /// Some components are missing.
    PartiallyInstalled,
    /// Critical components are missing.
    NothingInstalled,
}

/// The outcome of a system check.
#[derive(Debug)]
pub struct SystemCheck {
    pub status: SystemStatus,
    pub vulkan_installed: bool,
    pub mesa_installed: bool,
    pub proton_installed: bool,
    pub missing_apt_packages: Vec<Vec<u8>>,
}

/// The views of a list of package names.
pub open spec fn pkg_views(v: Seq<Vec<u8>>) -> Seq<Seq<u8>> {
    v.map_values(|x: Vec<u8>| x@)
}

/// The packages reported missing when the graphics stack is incomplete.
pub open spec fn missing_packages_spec(vulkan_installed: bool, mesa_installed: bool) -> Seq<
    Seq<u8>,
> {
    let vulkan = if !vulkan_installed {
        seq![
            "vulkan-tools".spec_bytes(),
            "libvulkan1".spec_bytes(),
            "libvulkan1:i386".spec_bytes(),
        ]
    } else {
        Seq::empty()
    };
    let mesa = if !mesa_installed {
        seq![
            "mesa-vulkan-drivers".spec_bytes(),
            "mesa-vulkan-drivers:i386".spec_bytes(),
            "libgl1-mesa-dri:amd64".spec_bytes(),
            "libgl1-mesa-dri:i386".spec_bytes(),
            "libgl1-mesa-glx:amd64".spec_bytes(),
            "libgl1-mesa-glx:i386".spec_bytes(),
        ]
    } else {
        Seq::empty()
    };
    vulkan + mesa
}

/// The overall status: green when drivers and a runtime are present,
/// orange when one side is, red when neither.
pub open spec fn status_of(
    vulkan_installed: bool,
    mesa_installed: bool,
    proton_installed: bool,
) -> SystemStatus {
    let apt_ok = vulkan_installed && mesa_installed;
    if apt_ok && proton_installed {
        SystemStatus::AllInstalled
    } else if apt_ok || proton_installed {
        SystemStatus::PartiallyInstalled
    } else {
        SystemStatus::NothingInstalled
    }
}

impl SystemCheck {
    /// Judge the machine from the three probes: whether the Vulkan
    /// tooling answered, whether Mesa drivers were seen, and whether a
    /// runtime is installed.
    pub fn check(vulkan_installed: bool, mesa_installed: bool, proton_installed: bool) -> (r:
        SystemCheck)
        ensures
            r.status == status_of(vulkan_installed, mesa_installed, proton_installed),
            r.vulkan_installed == vulkan_installed,
            r.mesa_installed == mesa_installed,
            r.proton_installed == proton_installed,
            pkg_views(r.missing_apt_packages@) == missing_packages_spec(
                vulkan_installed,
                mesa_installed,
            ),
    {
        let mut missing: Vec<Vec<u8>> = Vec::new();
        if !vulkan_installed {
            missing.push("vulkan-tools".as_bytes_vec());
            missing.push("libvulkan1".as_bytes_vec());
            missing.push("libvulkan1:i386".as_bytes_vec());
        }
        if !mesa_installed {
            missing.push("mesa-vulkan-drivers".as_bytes_vec());
            missing.push("mesa-vulkan-drivers:i386".as_bytes_vec());
            missing.push("libgl1-mesa-dri:amd64".as_bytes_vec());
            missing.push("libgl1-mesa-dri:i386".as_bytes_vec());
            missing.push("libgl1-mesa-glx:amd64".as_bytes_vec());
            missing.push("libgl1-mesa-glx:i386".as_bytes_vec());
        }
        proof {
            assert(pkg_views(missing@) =~~= missing_packages_spec(
                vulkan_installed,
                mesa_installed,
            ));
        }
        let apt_ok = vulkan_installed && mesa_installed;
        let status = if apt_ok && proton_installed {
            SystemStatus::AllInstalled
        } else if apt_ok || proton_installed {
            SystemStatus::PartiallyInstalled
        } else {
            SystemStatus::NothingInstalled
        };
        SystemCheck {
            status,
            vulkan_installed,
            mesa_installed,
            proton_installed,
            missing_apt_packages: missing,
        }
    }

    /// The operator-facing summary of the status.
    pub fn status_message(&self) -> (r: Vec<u8>)
        ensures
            self.status == SystemStatus::AllInstalled ==> r@ == "System Ready".spec_bytes(),
            self.status == SystemStatus::PartiallyInstalled ==> r@ == "Setup Incomplete".spec_bytes(),
            self.status == SystemStatus::NothingInstalled ==> r@ == "Setup Required".spec_bytes(),
    {
        match self.status {
            SystemStatus::AllInstalled => "System Ready".as_bytes_vec(),
            SystemStatus::PartiallyInstalled => "Setup Incomplete".as_bytes_vec(),
            SystemStatus::NothingInstalled => "Setup Required".as_bytes_vec(),
        }
    }

    /// The configuration directory, under the home directory.
    pub fn get_linuxboy_dir(home: &[u8]) -> (r: Vec<u8>)
        ensures
            r@ == home@ + "/.linuxboy".spec_bytes(),
    {
        let mut r: Vec<u8> = Vec::new();
        push_all(&mut r, home);
        push_all(&mut r, "/.linuxboy".as_bytes());
        r
    }

    /// The runtime root, under the configuration directory.
    pub fn get_runtimes_dir(home: &[u8]) -> (r: Vec<u8>)
        ensures
            r@ == home@ + "/.linuxboy".spec_bytes() + "/runtimes".spec_bytes(),
    {
        let mut r = Self::get_linuxboy_dir(home);
        push_all(&mut r, "/runtimes".as_bytes());
        r
    }
}

/// A directory entry of the runtime root that counts as an installed
/// runtime: its case-folded name follows either naming convention.
pub open spec fn is_runtime_entry(name: Seq<u8>) -> bool {
    ||| starts_with_seq(lower(name), "proton-ge-".spec_bytes())
    ||| starts_with_seq(lower(name), "ge-proton".spec_bytes())
}

/// Does a directory entry name an installed runtime?
pub fn is_runtime_entry_name(name: &[u8]) -> (r: bool)
    ensures
        r == is_runtime_entry(name@),
{
    let low = to_lower(name);
    starts_with_bytes(low.as_slice(), "proton-ge-".as_bytes()) || starts_with_bytes(
        low.as_slice(),
        "ge-proton".as_bytes(),
    )
}

/// The Vulkan tooling packages offered by the setup flow.
pub fn vulkan_packages() -> (r: Vec<Vec<u8>>)
    ensures
        pkg_views(r@) == seq![
            "vulkan-tools".spec_bytes(),
            "libvulkan1".spec_bytes(),
            "libvulkan1:i386".spec_bytes(),
        ],
{
    let mut r: Vec<Vec<u8>> = Vec::new();
    r.push("vulkan-tools".as_bytes_vec());
    r.push("libvulkan1".as_bytes_vec());
    r.push("libvulkan1:i386".as_bytes_vec());
    proof {
        assert(pkg_views(r@) =~~= seq![
            "vulkan-tools".spec_bytes(),
            "libvulkan1".spec_bytes(),
            "libvulkan1:i386".spec_bytes(),
        ]);
    }
    r
}

/// The Mesa driver packages offered by the setup flow.
pub fn mesa_packages() -> (r: Vec<Vec<u8>>)
    ensures
        pkg_views(r@) == seq![
            "mesa-vulkan-drivers".spec_bytes(),
            "mesa-vulkan-drivers:i386".spec_bytes(),
            "libgl1-mesa-dri:amd64".spec_bytes(),
            "libgl1-mesa-dri:i386".spec_bytes(),
            "libglx-mesa0:amd64".spec_bytes(),
            "libglx-mesa0:i386".spec_bytes(),
        ],
{
    let mut r: Vec<Vec<u8>> = Vec::new();
    r.push("mesa-vulkan-drivers".as_bytes_vec());
    r.push("mesa-vulkan-drivers:i386".as_bytes_vec());
    r.push("libgl1-mesa-dri:amd64".as_bytes_vec());
    r.push("libgl1-mesa-dri:i386".as_bytes_vec());
    r.push("libglx-mesa0:amd64".as_bytes_vec());
    r.push("libglx-mesa0:i386".as_bytes_vec());
    proof {
        assert(pkg_views(r@) =~~= seq![
            "mesa-vulkan-drivers".spec_bytes(),
            "mesa-vulkan-drivers:i386".spec_bytes(),
            "libgl1-mesa-dri:amd64".spec_bytes(),
            "libgl1-mesa-dri:i386".spec_bytes(),
            "libglx-mesa0:amd64".spec_bytes(),
            "libglx-mesa0:i386".spec_bytes(),
        ]);
    }
    r
}

/// The Debian architecture name of a machine architecture, for the
/// launcher package.
pub fn deb_arch(arch: &[u8]) -> (r: Option<Vec<u8>>)
    ensures
        arch@ == "x86_64".spec_bytes() ==> (match r {
            Some(v) => v@ == "amd64".spec_bytes(),
            None => false,
        }),
        arch@ != "x86_64".spec_bytes() && arch@ == "aarch64".spec_bytes() ==> (match r {
            Some(v) => v@ == "arm64".spec_bytes(),
            None => false,
        }),
        arch@ != "x86_64".spec_bytes() && arch@ != "aarch64".spec_bytes() && arch@
            == "arm".spec_bytes() ==> (match r {
            Some(v) => v@ == "armhf".spec_bytes(),
            None => false,
        }),
        arch@ != "x86_64".spec_bytes() && arch@ != "aarch64".spec_bytes() && arch@
            != "arm".spec_bytes() ==> r is None,
{
    if crate::text::seq_eq(arch, "x86_64".as_bytes()) {
        Some("amd64".as_bytes_vec())
    } else if crate::text::seq_eq(arch, "aarch64".as_bytes()) {
        Some("arm64".as_bytes_vec())
    } else if crate::text::seq_eq(arch, "arm".as_bytes()) {
        Some("armhf".as_bytes_vec())
    } else {
        None
    }
}

/// One downloadable artifact of a launcher release.
#[derive(Debug)]
pub struct UmuAsset {
    pub name: Vec<u8>,
    pub browser_download_url: Vec<u8>,
    pub size: u64,
}

/// The asset fits the machine exactly: a Debian package of the
/// launcher, built for this architecture and Debian version.
pub open spec fn umu_exact_match(name: Seq<u8>, needle: Seq<u8>) -> bool {
    &&& ends_with_seq(name, ".deb".spec_bytes())
    &&& contains_seq(name, "python3-umu-launcher".spec_bytes())
    &&& contains_seq(name, needle)
}

/// The asset is the architecture-independent fallback package for this
/// Debian version.
pub open spec fn umu_fallback_match(name: Seq<u8>, needle: Seq<u8>) -> bool {
    &&& ends_with_seq(name, ".deb".spec_bytes())
    &&& contains_seq(name, "umu-launcher".spec_bytes())
    &&& contains_seq(name, needle)
}

/// The needle of the exact package: `_{arch}_debian-{version}`.
pub fn umu_exact_needle(debian_version: &[u8], arch: &[u8]) -> (r: Vec<u8>)
    ensures
        r@ == "_".spec_bytes() + arch@ + "_debian-".spec_bytes() + debian_version@,
{
    let mut r: Vec<u8> = Vec::new();
    push_all(&mut r, "_".as_bytes());
    push_all(&mut r, arch);
    push_all(&mut r, "_debian-".as_bytes());
    push_all(&mut r, debian_version);
    r
}

/// The needle of the fallback package: `_all_debian-{version}`.
pub fn umu_fallback_needle(debian_version: &[u8]) -> (r: Vec<u8>)
    ensures
        r@ == "_all_debian-".spec_bytes() + debian_version@,
{
    let mut r: Vec<u8> = Vec::new();
    push_all(&mut r, "_all_debian-".as_bytes());
    push_all(&mut r, debian_version);
    r
}

/// Index of the launcher package to install: the first exact match for
/// this architecture and Debian version, else the first
/// architecture-independent fallback, else nothing.
pub fn select_umu_asset(assets: &Vec<UmuAsset>, debian_version: &[u8], arch: &[u8]) -> (r: Option<
    usize,
>)
    ensures
        ({
            let exact = "_".spec_bytes() + arch@ + "_debian-".spec_bytes() + debian_version@;
            let fallback = "_all_debian-".spec_bytes() + debian_version@;
            match r {
                Some(i) => {
                    &&& 0 <= i < assets@.len()
                    &&& (umu_exact_match(assets@[i as int].name@, exact) || (umu_fallback_match(
                        assets@[i as int].name@,
                        fallback,
                    ) && forall|j: int|
                        0 <= j < assets@.len() ==> !umu_exact_match(
                            (#[trigger] assets@[j]).name@,
                            exact,
                        )))
                    &&& forall|j: int|
                        0 <= j < i ==> !umu_exact_match((#[trigger] assets@[j]).name@, exact)
                },
                None => forall|j: int|
                    0 <= j < assets@.len() ==> !umu_exact_match(
                        (#[trigger] assets@[j]).name@,
                        exact,
                    ) && !umu_fallback_match(assets@[j].name@, fallback),
            }
        }),
{
    let exact = umu_exact_needle(debian_version, arch);
    let fallback = umu_fallback_needle(debian_version);
    let n = assets.len();
    let mut i: usize = 0;
    while i < n
        invariant
            n == assets@.len(),
            exact@ == "_".spec_bytes() + arch@ + "_debian-".spec_bytes() + debian_version@,
            i <= n,
            forall|j: int| 0 <= j < i ==> !umu_exact_match((#[trigger] assets@[j]).name@, exact@),
        decreases n - i,
    {
        let name = assets[i].name.as_slice();
        if ends_with_bytes(name, ".deb".as_bytes()) && contains_bytes(
            name,
            "python3-umu-launcher".as_bytes(),
        ) && contains_bytes(name, exact.as_slice()) {
            return Some(i);
        }
        i = i + 1;
    }
    let mut k: usize = 0;
    while k < n
        invariant
            n == assets@.len(),
            exact@ == "_".spec_bytes() + arch@ + "_debian-".spec_bytes() + debian_version@,
            fallback@ == "_all_debian-".spec_bytes() + debian_version@,
            k <= n,
            forall|j: int| 0 <= j < n ==> !umu_exact_match((#[trigger] assets@[j]).name@, exact@),
            forall|j: int|
                0 <= j < k ==> !umu_fallback_match((#[trigger] assets@[j]).name@, fallback@),
        decreases n - k,
    {
        let name = assets[k].name.as_slice();
        if ends_with_bytes(name, ".deb".as_bytes()) && contains_bytes(
            name,
            "umu-launcher".as_bytes(),
        ) && contains_bytes(name, fallback.as_slice()) {
            return Some(k);
        }
        k = k + 1;
    }
    None
}

/// The views of a list of key/value pairs.
pub open spec fn kv_views(v: Seq<(Vec<u8>, Vec<u8>)>) -> Seq<(Seq<u8>, Seq<u8>)> {
    v.map_values(|p: (Vec<u8>, Vec<u8>)| (p.0@, p.1@))
}

/// Position of the first `=` in a line, from `i` on.
pub open spec fn eq_pos_from(s: Seq<u8>, i: int) -> Option<int>
    decreases s.len() - i,
{
    if !(0 <= i < s.len()) {
        None
    } else if s[i] == 61 {
        Some(i)
    } else {
        eq_pos_from(s, i + 1)
    }
}

/// A value as stored in the release identification file: whitespace
/// trimmed, then surrounding quotes removed.
pub open spec fn cleaned_value(v: Seq<u8>) -> Seq<u8> {
    crate::paths::drop_trailing(
        crate::paths::drop_leading(
            crate::paths::drop_trailing_ws(crate::paths::drop_leading_ws(v)),
            34,
        ),
        34,
    )
}

/// What one line of the release identification file contributes: a
/// key/value pair split at the first `=`, unless the line is blank, a
/// comment, or carries no `=`.
pub open spec fn parsed_line(line: Seq<u8>) -> Option<(Seq<u8>, Seq<u8>)> {
    let t = crate::paths::drop_trailing_ws(crate::paths::drop_leading_ws(line));
    if t.len() == 0 || t[0] == 35 {
        None
    } else {
        match eq_pos_from(t, 0) {
            Some(d) => Some((t.subrange(0, d), cleaned_value(t.subrange(d + 1, t.len() as int)))),
            None => None,
        }
    }
}

/// The key/value pairs of the file from position `i` on, line by line.
pub open spec fn os_release_from(
    s: Seq<u8>,
    i: int,
    cur: Seq<u8>,
    acc: Seq<(Seq<u8>, Seq<u8>)>,
) -> Seq<(Seq<u8>, Seq<u8>)>
    decreases s.len() - i,
{
    if !(0 <= i < s.len()) {
        match parsed_line(cur) {
            Some(kv) => acc.push(kv),
            None => acc,
        }
    } else if s[i] == 10 {
        os_release_from(s, i + 1, Seq::empty(), match parsed_line(cur) {
            Some(kv) => acc.push(kv),
            None => acc,
        })
    } else {
        os_release_from(s, i + 1, cur.push(s[i]), acc)
    }
}

/// The key/value pairs of a release identification file, in file order.
pub open spec fn os_release_pairs(s: Seq<u8>) -> Seq<(Seq<u8>, Seq<u8>)> {
    os_release_from(s, 0, Seq::empty(), Seq::empty())
}

/// Strip whitespace, then surrounding quotes, from a value.
fn clean_value(v: &[u8]) -> (r: Vec<u8>)
    ensures
        r@ == cleaned_value(v@),
{
    let t = crate::paths::trim_ws(v);
    let n = t.len();
    let mut lo: usize = 0;
    let mut hi: usize = n;
    proof {
        assert(t@.subrange(0, n as int) =~= t@);
    }
    while lo < hi && t[lo] == 34
        invariant
            n == t@.len(),
            lo <= hi <= n,
            hi == n,
            crate::paths::drop_leading(t@, 34) == crate::paths::drop_leading(
                t@.subrange(lo as int, hi as int),
                34,
            ),
        decreases hi - lo,
    {
        proof {
            assert(t@.subrange(lo as int, hi as int).first() == t@[lo as int]);
            assert(t@.subrange(lo as int, hi as int).drop_first() =~= t@.subrange(
                lo + 1,
                hi as int,
            ));
            assert(crate::paths::drop_leading(t@.subrange(lo as int, hi as int), 34)
                == crate::paths::drop_leading(t@.subrange(lo + 1, hi as int), 34));
        }
        lo = lo + 1;
    }
    proof {
        if lo < hi {
            assert(t@.subrange(lo as int, hi as int).first() == t@[lo as int]);
        } else {
            assert(t@.subrange(lo as int, hi as int) =~= Seq::<u8>::empty());
        }
        assert(crate::paths::drop_leading(t@, 34) == t@.subrange(lo as int, hi as int));
    }
    while hi > lo && t[hi - 1] == 34
        invariant
            n == t@.len(),
            lo <= hi <= n,
            cleaned_value(v@) == crate::paths::drop_trailing(
                t@.subrange(lo as int, hi as int),
                34,
            ),
        decreases hi - lo,
    {
        proof {
            assert(t@.subrange(lo as int, hi as int).last() == t@[hi - 1]);
            assert(t@.subrange(lo as int, hi as int).drop_last() =~= t@.subrange(
                lo as int,
                hi - 1,
            ));
            assert(crate::paths::drop_trailing(t@.subrange(lo as int, hi as int), 34)
                == crate::paths::drop_trailing(t@.subrange(lo as int, hi - 1), 34));
        }
        hi = hi - 1;
    }
    proof {
        if lo < hi {
            assert(t@.subrange(lo as int, hi as int).last() == t@[hi - 1]);
        } else {
            assert(t@.subrange(lo as int, hi as int) =~= Seq::<u8>::empty());
        }
        assert(cleaned_value(v@) == t@.subrange(lo as int, hi as int));
    }
    crate::text::subvec(t.as_slice(), lo, hi)
}

/// Parse one line into its key/value pair, if it carries one.
fn parse_line(line: &[u8]) -> (r: Option<(Vec<u8>, Vec<u8>)>)
    ensures
        match r {
            Some(kv) => parsed_line(line@) == Some((kv.0@, kv.1@)),
            None => parsed_line(line@) is None,
        },
{
    let t = crate::paths::trim_ws(line);
    let n = t.len();
    if n == 0 || t[0] == 35 {
        return None;
    }
    let mut i: usize = 0;
    while i < n
        invariant
            n == t@.len(),
            t@ == crate::paths::drop_trailing_ws(crate::paths::drop_leading_ws(line@)),
            n > 0 && t@[0] != 35,
            i <= n,
            eq_pos_from(t@, 0) == eq_pos_from(t@, i as int),
        decreases n - i,
    {
        if t[i] == 61 {
            proof {
                assert(eq_pos_from(t@, i as int) == Some(i as int));
            }
            let key = crate::text::subvec(t.as_slice(), 0, i);
            let raw = crate::text::subvec(t.as_slice(), i + 1, n);
            let value = clean_value(raw.as_slice());
            proof {
                assert(raw@ =~= t@.subrange(i + 1, t@.len() as int));
            }
            return Some((key, value));
        }
        proof {
            assert(eq_pos_from(t@, i as int) == eq_pos_from(t@, i + 1));
        }
        i = i + 1;
    }
    proof {
        assert(eq_pos_from(t@, n as int) is None);
    }
    None
}

/// Parse a release identification file into its key/value pairs, in
/// file order.
pub fn parse_os_release(contents: &[u8]) -> (r: Vec<(Vec<u8>, Vec<u8>)>)
    ensures
        kv_views(r@) == os_release_pairs(contents@),
{
    let n = contents.len();
    let mut r: Vec<(Vec<u8>, Vec<u8>)> = Vec::new();
    let mut cur: Vec<u8> = Vec::new();
    let mut i: usize = 0;
    proof {
        assert(kv_views(r@) =~= Seq::<
            (Seq<u8>, Seq<u8>),
        >::empty());
        assert(cur@ =~= Seq::<u8>::empty());
    }
    while i < n
        invariant
            n == contents@.len(),
            i <= n,
            os_release_pairs(contents@) == os_release_from(
                contents@,
                i as int,
                cur@,
                kv_views(r@),
            ),
        decreases n - i,
    {
        let b = contents[i];
        if b == 10 {
            match parse_line(cur.as_slice()) {
                Some(kv) => {
                    let ghost old_v = kv_views(r@);
                    let ghost kv0 = kv.0@;
                    let ghost kv1 = kv.1@;
                    r.push(kv);
                    proof {
                        assert(kv_views(r@) =~= old_v.push(
                            (kv0, kv1),
                        ));
                    }
                },
                None => {},
            }
            cur = Vec::new();
        } else {
            cur.push(b);
        }
        i = i + 1;
    }
    match parse_line(cur.as_slice()) {
        Some(kv) => {
            let ghost old_v = kv_views(r@);
            let ghost kv0 = kv.0@;
            let ghost kv1 = kv.1@;
            r.push(kv);
            proof {
                assert(kv_views(r@) =~= old_v.push(
                    (kv0, kv1),
                ));
            }
        },
        None => {},
    }
    r
}

/// The value of a key among parsed pairs: the last occurrence wins, as
/// a map built by insertion would have it.
pub fn os_release_value(pairs: &Vec<(Vec<u8>, Vec<u8>)>, key: &[u8]) -> (r: Option<Vec<u8>>)
    ensures
        match r {
            Some(v) => exists|i: int|
                #![trigger kv_views(pairs@)[i]]
                {
                    &&& 0 <= i < kv_views(pairs@).len()
                    &&& kv_views(pairs@)[i] == (key@, v@)
                    &&& forall|j: int|
                        i < j < kv_views(pairs@).len() ==> (#[trigger] kv_views(pairs@)[j]).0
                            != key@
                },
            None => forall|j: int|
                0 <= j < pairs@.len() ==> (#[trigger] kv_views(pairs@)[j]).0 != key@,
        },
{
    let n = pairs.len();
    let mut i: usize = n;
    while i > 0
        invariant
            n == pairs@.len(),
            i <= n,
            forall|j: int| i <= j < n ==> (#[trigger] kv_views(pairs@)[j]).0 != key@,
        decreases i,
    {
        i = i - 1;
        if crate::text::seq_eq(pairs[i].0.as_slice(), key) {
            let v = crate::text::subvec(pairs[i].1.as_slice(), 0, pairs[i].1.len());
            proof {
                assert(v@ =~= pairs@[i as int].1@);
                assert(kv_views(pairs@)[i as int] == (key@, v@));
            }
            return Some(v);
        }
    }
    None
}

} // verus!
