//! Supervision of external processes.
//!
//! Every spawned installer, game or dependency run lives in its own
//! process group; the registry here tracks at most one group per capsule
//! and track.  The registry is owned by the single state owner and is
//! mutated only in response to received events: a completion for a key
//! that is no longer tracked changes nothing.  The environment and
//! argument lists of every supervised invocation are also built here.

use vstd::prelude::*;
use crate::capsule::CapsuleMetadata;
use crate::paths::{drop_leading_ws, drop_trailing_ws, push_all, trim_ws};
use crate::text::list_views;
use vstd::string::StringSliceAdditionalSpecFns;
use vstd::string::StrSliceExecFns;

verus! {

/// The two supervision tracks of a capsule.
#[derive(PartialEq, Eq, Structural, Clone, Copy, Debug)]
pub enum Track {
    Install,
    Play,
}

/// The lifecycle of one track.
#[derive(PartialEq, Eq, Structural, Clone, Copy, Debug)]
pub enum TrackState {
    Idle,
    Running,
    Completed(bool),
}

/// What happens on a track.
#[derive(PartialEq, Eq, Structural, Clone, Copy, Debug)]
pub enum TrackEvent {
    Spawned,
    Finished(bool),
    Kill,
}

/// An event that does not apply in the current state.
#[derive(PartialEq, Eq, Structural, Clone, Copy, Debug)]
pub enum TrackError {
    InvalidTransition,
}

/// One step of a track's lifecycle: only `Idle` may start running;
/// from `Running`, completion keeps the reported success and a kill is
/// a completion without success.
pub fn track_step(s: TrackState, e: TrackEvent) -> (r: Result<TrackState, TrackError>)
    ensures
        match (s, e) {
            (TrackState::Idle, TrackEvent::Spawned) => r == Ok::<TrackState, TrackError>(
                TrackState::Running,
            ),
            (TrackState::Running, TrackEvent::Finished(ok)) => r == Ok::<TrackState, TrackError>(
                TrackState::Completed(ok),
            ),
            (TrackState::Running, TrackEvent::Kill) => r == Ok::<TrackState, TrackError>(
                TrackState::Completed(false),
            ),
            _ => r == Err::<TrackState, TrackError>(TrackError::InvalidTransition),
        },
{
    match (s, e) {
        (TrackState::Idle, TrackEvent::Spawned) => Ok(TrackState::Running),
        (TrackState::Running, TrackEvent::Finished(ok)) => Ok(TrackState::Completed(ok)),
        (TrackState::Running, TrackEvent::Kill) => Ok(TrackState::Completed(false)),
        _ => Err(TrackError::InvalidTransition),
    }
}

/// How often a key occurs among the tracked pairs.
pub open spec fn key_count(s: Seq<(u64, i32)>, k: u64) -> int
    decreases s.len(),
{
    if s.len() == 0 {
        0
    } else {
        key_count(s.drop_last(), k) + if s.last().0 == k {
            1int
        } else {
            0int
        }
    }
}

/// The key is tracked.
pub open spec fn tracks_key(s: Seq<(u64, i32)>, k: u64) -> bool {
    key_count(s, k) > 0
}

/// The pairs with every entry of one key removed, order kept.
pub open spec fn without_key(s: Seq<(u64, i32)>, k: u64) -> Seq<(u64, i32)>
    decreases s.len(),
{
    if s.len() == 0 {
        Seq::empty()
    } else {
        let rest = without_key(s.drop_last(), k);
        if s.last().0 == k {
            rest
        } else {
            rest.push(s.last())
        }
    }
}

/// A key count is never negative.
pub proof fn lemma_key_count_nonneg(s: Seq<(u64, i32)>, k: u64)
    ensures
        key_count(s, k) >= 0,
    decreases s.len(),
{
    if s.len() > 0 {
        lemma_key_count_nonneg(s.drop_last(), k);
    }
}

/// Removing an untracked key changes nothing.
pub proof fn lemma_without_absent(s: Seq<(u64, i32)>, k: u64)
    requires
        !tracks_key(s, k),
    ensures
        without_key(s, k) == s,
    decreases s.len(),
{
    if s.len() > 0 {
        lemma_key_count_nonneg(s.drop_last(), k);
        assert(!tracks_key(s.drop_last(), k));
        lemma_without_absent(s.drop_last(), k);
        assert(s.last().0 != k);
        assert(without_key(s, k) =~= s);
    }
}

/// The removed key is gone; other keys keep their counts.
pub proof fn lemma_without_key_counts(s: Seq<(u64, i32)>, k: u64, other: u64)
    ensures
        key_count(without_key(s, k), k) == 0,
        other != k ==> key_count(without_key(s, k), other) == key_count(s, other),
    decreases s.len(),
{
    if s.len() > 0 {
        lemma_without_key_counts(s.drop_last(), k, other);
        if s.last().0 != k {
            assert(without_key(s, k).drop_last() =~= without_key(s.drop_last(), k));
        }
    }
}

/// The registry of live process groups, keyed by capsule identity, one
/// list per track, plus the capsules whose installs are being prepared
/// and those running dependency setups.
#[derive(Debug)]
pub struct Registry {
    pub installs: Vec<(u64, i32)>,
    pub games: Vec<(u64, i32)>,
    pub preparing: Vec<u64>,
    pub deps: Vec<u64>,
}

/// Every key is tracked at most once per track.
pub open spec fn registry_wf(r: Registry) -> bool {
    &&& forall|k: u64| #[trigger] key_count(r.installs@, k) <= 1
    &&& forall|k: u64| #[trigger] key_count(r.games@, k) <= 1
}

impl Registry {
    /// An empty registry.
    pub fn new() -> (r: Registry)
        ensures
            registry_wf(r),
            r.installs@.len() == 0,
            r.games@.len() == 0,
            r.preparing@.len() == 0,
            r.deps@.len() == 0,
    {
        let r = Registry {
            installs: Vec::new(),
            games: Vec::new(),
            preparing: Vec::new(),
            deps: Vec::new(),
        };
        proof {
            assert forall|k: u64| #[trigger] key_count(r.installs@, k) <= 1 by {
                assert(key_count(r.installs@, k) == 0);
            }
            assert forall|k: u64| #[trigger] key_count(r.games@, k) <= 1 by {
                assert(key_count(r.games@, k) == 0);
            }
        }
        r
    }

    /// The tracked pairs of one track.
    pub open spec fn of_track(self, t: Track) -> Seq<(u64, i32)> {
        match t {
            Track::Install => self.installs@,
            Track::Play => self.games@,
        }
    }

    /// The group id tracked for a key, if any.
    pub fn lookup(&self, t: Track, key: u64) -> (r: Option<i32>)
        ensures
            match r {
                Some(pgid) => exists|i: int|
                    0 <= i < self.of_track(t).len() && #[trigger] self.of_track(t)[i] == (
                        key,
                        pgid,
                    ),
                None => !tracks_key(self.of_track(t), key),
            },
    {
        let list: &Vec<(u64, i32)> = match t {
            Track::Install => &self.installs,
            Track::Play => &self.games,
        };
        let n = list.len();
        let mut i: usize = 0;
        while i < n
            invariant
                n == list@.len(),
                i <= n,
                list@ == self.of_track(t),
                forall|j: int| 0 <= j < i ==> (#[trigger] list@[j]).0 != key,
            decreases n - i,
        {
            if list[i].0 == key {
                return Some(list[i].1);
            }
            i = i + 1;
        }
        proof {
            lemma_no_key_no_count(list@, key, n as int);
        }
        None
    }

    /// A spawn succeeded: record the fresh group against the key,
    /// replacing any stale entry, and drop the key from the preparing
    /// set when the install track is concerned.
    pub fn on_started(&mut self, t: Track, key: u64, pgid: i32)
        requires
            registry_wf(*old(self)),
        ensures
            registry_wf(*final(self)),
            final(self).of_track(t) == without_key(old(self).of_track(t), key).push((key, pgid)),
            key_count(final(self).of_track(t), key) == 1,
            forall|k: u64|
                k != key ==> #[trigger] key_count(final(self).of_track(t), k) == key_count(
                    old(self).of_track(t),
                    k,
                ),
            final(self).of_track(other_track(t)) == old(self).of_track(other_track(t)),
            t == Track::Install ==> final(self).preparing@ == remove_id(old(self).preparing@, key),
            t == Track::Play ==> final(self).preparing@ == old(self).preparing@,
            final(self).deps@ == old(self).deps@,
    {
        proof {
            lemma_without_key_counts(self.of_track(t), key, key);
        }
        match t {
            Track::Install => {
                let cleaned = remove_pairs(&self.installs, key);
                let mut list = cleaned;
                list.push((key, pgid));
                self.installs = list;
                let kept = remove_ids(&self.preparing, key);
                self.preparing = kept;
            },
            Track::Play => {
                let cleaned = remove_pairs(&self.games, key);
                let mut list = cleaned;
                list.push((key, pgid));
                self.games = list;
            },
        }
        proof {
            let now = self.of_track(t);
            let old_t = old(self).of_track(t);
            assert(now.drop_last() =~= without_key(old_t, key));
            assert forall|k: u64| #[trigger] key_count(now, k) <= 1 by {
                lemma_without_key_counts(old_t, key, k);
            }
            assert forall|k: u64|
                k != key implies #[trigger] key_count(self.of_track(t), k) == key_count(
                old_t,
                k,
            ) by {
                lemma_without_key_counts(old_t, key, k);
            }
            match t {
                Track::Install => {
                    assert forall|k: u64| #[trigger] key_count(self.games@, k) <= 1 by {
                        assert(key_count(old(self).games@, k) <= 1);
                    }
                },
                Track::Play => {
                    assert forall|k: u64| #[trigger] key_count(self.installs@, k) <= 1 by {
                        assert(key_count(old(self).installs@, k) <= 1);
                    }
                },
            }
        }
    }

    /// A completion message arrived: the key's entry leaves the
    /// registry.  A key that is no longer tracked — killed earlier, or
    /// never started — changes nothing.
    pub fn on_finished(&mut self, t: Track, key: u64)
        requires
            registry_wf(*old(self)),
        ensures
            registry_wf(*final(self)),
            final(self).of_track(t) == without_key(old(self).of_track(t), key),
            !tracks_key(old(self).of_track(t), key) ==> final(self).of_track(t) == old(
                self,
            ).of_track(t),
            final(self).of_track(other_track(t)) == old(self).of_track(other_track(t)),
            t == Track::Install ==> final(self).preparing@ == remove_id(old(self).preparing@, key),
            t == Track::Play ==> final(self).preparing@ == old(self).preparing@,
            final(self).deps@ == old(self).deps@,
    {
        match t {
            Track::Install => {
                let cleaned = remove_pairs(&self.installs, key);
                self.installs = cleaned;
                let kept = remove_ids(&self.preparing, key);
                self.preparing = kept;
            },
            Track::Play => {
                let cleaned = remove_pairs(&self.games, key);
                self.games = cleaned;
            },
        }
        proof {
            let old_t = old(self).of_track(t);
            if !tracks_key(old_t, key) {
                lemma_without_absent(old_t, key);
            }
            match t {
                Track::Install => {
                    assert forall|k: u64| #[trigger] key_count(self.installs@, k) <= 1 by {
                        lemma_without_key_counts(old(self).installs@, key, k);
                        assert(key_count(old(self).installs@, k) <= 1);
                    }
                    assert forall|k: u64| #[trigger] key_count(self.games@, k) <= 1 by {
                        assert(key_count(old(self).games@, k) <= 1);
                    }
                },
                Track::Play => {
                    assert forall|k: u64| #[trigger] key_count(self.games@, k) <= 1 by {
                        lemma_without_key_counts(old(self).games@, key, k);
                        assert(key_count(old(self).games@, k) <= 1);
                    }
                    assert forall|k: u64| #[trigger] key_count(self.installs@, k) <= 1 by {
                        assert(key_count(old(self).installs@, k) <= 1);
                    }
                },
            }
        }
    }

    /// A kill request: hand back the tracked group id, dropping the
    /// entry at once; nothing is tracked afterwards for the key, and a
    /// later completion for it will find nothing to change.
    pub fn kill(&mut self, t: Track, key: u64) -> (r: Option<i32>)
        requires
            registry_wf(*old(self)),
        ensures
            registry_wf(*final(self)),
            final(self).of_track(t) == without_key(old(self).of_track(t), key),
            !tracks_key(final(self).of_track(t), key),
            match r {
                Some(pgid) => exists|i: int|
                    0 <= i < old(self).of_track(t).len() && #[trigger] old(self).of_track(t)[i]
                        == (key, pgid),
                None => !tracks_key(old(self).of_track(t), key),
            },
            final(self).of_track(other_track(t)) == old(self).of_track(other_track(t)),
            final(self).preparing@ == old(self).preparing@,
            final(self).deps@ == old(self).deps@,
    {
        let found = self.lookup(t, key);
        match t {
            Track::Install => {
                let cleaned = remove_pairs(&self.installs, key);
                self.installs = cleaned;
            },
            Track::Play => {
                let cleaned = remove_pairs(&self.games, key);
                self.games = cleaned;
            },
        }
        proof {
            let old_t = old(self).of_track(t);
            lemma_without_key_counts(old_t, key, key);
            match t {
                Track::Install => {
                    assert forall|k: u64| #[trigger] key_count(self.installs@, k) <= 1 by {
                        lemma_without_key_counts(old(self).installs@, key, k);
                        assert(key_count(old(self).installs@, k) <= 1);
                    }
                    assert forall|k: u64| #[trigger] key_count(self.games@, k) <= 1 by {
                        assert(key_count(old(self).games@, k) <= 1);
                    }
                },
                Track::Play => {
                    assert forall|k: u64| #[trigger] key_count(self.games@, k) <= 1 by {
                        lemma_without_key_counts(old(self).games@, key, k);
                        assert(key_count(old(self).games@, k) <= 1);
                    }
                    assert forall|k: u64| #[trigger] key_count(self.installs@, k) <= 1 by {
                        assert(key_count(old(self).installs@, k) <= 1);
                    }
                },
            }
        }
        found
    }

    /// Is a group tracked for the key?
    pub fn is_active(&self, t: Track, key: u64) -> (r: bool)
        ensures
            r == tracks_key(self.of_track(t), key),
    {
        match self.lookup(t, key) {
            Some(_) => {
                proof {
                    lemma_count_at_index(self.of_track(t), key);
                }
                true
            },
            None => false,
        }
    }
}

/// The other track.
pub open spec fn other_track(t: Track) -> Track {
    match t {
        Track::Install => Track::Play,
        Track::Play => Track::Install,
    }
}

/// The ids with every occurrence of one id removed.
pub open spec fn remove_id(s: Seq<u64>, k: u64) -> Seq<u64>
    decreases s.len(),
{
    if s.len() == 0 {
        Seq::empty()
    } else {
        let rest = remove_id(s.drop_last(), k);
        if s.last() == k {
            rest
        } else {
            rest.push(s.last())
        }
    }
}

/// No entry up to `n` carries the key, so the count is zero.
proof fn lemma_no_key_no_count(s: Seq<(u64, i32)>, k: u64, n: int)
    requires
        n == s.len(),
        forall|j: int| 0 <= j < n ==> (#[trigger] s[j]).0 != k,
    ensures
        !tracks_key(s, k),
    decreases s.len(),
{
    if s.len() > 0 {
        lemma_no_key_no_count(s.drop_last(), k, n - 1);
    }
}

/// An entry with the key makes the count positive.
proof fn lemma_count_at_index(s: Seq<(u64, i32)>, k: u64)
    ensures
        (exists|i: int| 0 <= i < s.len() && (#[trigger] s[i]).0 == k) ==> tracks_key(s, k),
    decreases s.len(),
{
    if s.len() > 0 {
        lemma_count_at_index(s.drop_last(), k);
        lemma_key_count_nonneg(s.drop_last(), k);
        if exists|i: int| 0 <= i < s.len() && (#[trigger] s[i]).0 == k {
            let i = choose|i: int| 0 <= i < s.len() && (#[trigger] s[i]).0 == k;
            if i < s.len() - 1 {
                assert(s.drop_last()[i].0 == k);
            }
        }
    }
}

/// The pairs of the list whose key differs.
fn remove_pairs(list: &Vec<(u64, i32)>, key: u64) -> (r: Vec<(u64, i32)>)
    ensures
        r@ == without_key(list@, key),
{
    let n = list.len();
    let mut r: Vec<(u64, i32)> = Vec::new();
    let mut i: usize = 0;
    proof {
        assert(list@.subrange(0, 0) =~= Seq::<(u64, i32)>::empty());
        assert(r@ =~= without_key(list@.subrange(0, 0), key));
    }
    while i < n
        invariant
            n == list@.len(),
            i <= n,
            r@ == without_key(list@.subrange(0, i as int), key),
        decreases n - i,
    {
        proof {
            assert(list@.subrange(0, i + 1).drop_last() =~= list@.subrange(0, i as int));
            assert(list@.subrange(0, i + 1).last() == list@[i as int]);
        }
        if list[i].0 != key {
            r.push(list[i]);
        }
        i = i + 1;
    }
    proof {
        assert(list@.subrange(0, n as int) =~= list@);
    }
    r
}

/// The ids of the list that differ from the key.
fn remove_ids(list: &Vec<u64>, key: u64) -> (r: Vec<u64>)
    ensures
        r@ == remove_id(list@, key),
{
    let n = list.len();
    let mut r: Vec<u64> = Vec::new();
    let mut i: usize = 0;
    proof {
        assert(list@.subrange(0, 0) =~= Seq::<u64>::empty());
        assert(r@ =~= remove_id(list@.subrange(0, 0), key));
    }
    while i < n
        invariant
            n == list@.len(),
            i <= n,
            r@ == remove_id(list@.subrange(0, i as int), key),
        decreases n - i,
    {
        proof {
            assert(list@.subrange(0, i + 1).drop_last() =~= list@.subrange(0, i as int));
            assert(list@.subrange(0, i + 1).last() == list@[i as int]);
        }
        if list[i] != key {
            r.push(list[i]);
        }
        i = i + 1;
    }
    proof {
        assert(list@.subrange(0, n as int) =~= list@);
    }
    r
}

/// Supervision in one piece: spawning tracks exactly one group for the
/// key; a kill leaves the key untracked at once; and a completion
/// observed after the kill changes nothing, because removal of an
/// untracked key is the identity.
pub proof fn lemma_supervision_round(s: Seq<(u64, i32)>, key: u64, pgid: i32)
    requires
        forall|k: u64| #[trigger] key_count(s, k) <= 1,
        !tracks_key(s, key),
    ensures
        ({
            let spawned = without_key(s, key).push((key, pgid));
            let killed = without_key(spawned, key);
            &&& key_count(spawned, key) == 1
            &&& killed == s
            &&& without_key(killed, key) == killed
        }),
{
    lemma_without_absent(s, key);
    let spawned = without_key(s, key).push((key, pgid));
    assert(spawned.drop_last() =~= s);
    lemma_without_key_counts(s, key, key);
    let killed = without_key(spawned, key);
    assert(killed =~= without_key(s, key));
    lemma_without_absent(s, key);
    lemma_without_key_counts(killed, key, key);
    assert(key_count(killed, key) == key_count(s, key)) by {
        lemma_without_absent(s, key);
    }
    lemma_without_absent(killed, key);
}

/// Surrounding whitespace removed.
pub open spec fn trimmed(s: Seq<u8>) -> Seq<u8> {
    drop_trailing_ws(drop_leading_ws(s))
}

/// The user's environment overrides as applied: keys are trimmed, and a
/// key that trims away to nothing is dropped.
pub open spec fn kept_env(vars: Seq<(Vec<u8>, Vec<u8>)>) -> Seq<(Seq<u8>, Seq<u8>)>
    decreases vars.len(),
{
    if vars.len() == 0 {
        Seq::empty()
    } else {
        let rest = kept_env(vars.drop_last());
        if trimmed(vars.last().0@).len() > 0 {
            rest.push((trimmed(vars.last().0@), vars.last().1@))
        } else {
            rest
        }
    }
}

/// The catalog identity handed to the launcher: the trimmed id, or the
/// default when absent or blank.
pub open spec fn game_id_env(game_id: Option<Vec<u8>>) -> Seq<u8> {
    match game_id {
        Some(g) => if trimmed(g@).len() > 0 {
            trimmed(g@)
        } else {
            "umu-default".spec_bytes()
        },
        None => "umu-default".spec_bytes(),
    }
}

/// The storefront handed to the launcher: the trimmed store, or `none`.
pub open spec fn store_env(store: Option<Vec<u8>>) -> Seq<u8> {
    match store {
        Some(v) => if trimmed(v@).len() > 0 {
            trimmed(v@)
        } else {
            "none".spec_bytes()
        },
        None => "none".spec_bytes(),
    }
}

/// The environment of every supervised invocation: the prefix, the
/// runtime, the catalog identity and store, the UI-automation toggle,
/// the optional fixes switch, then the user overrides (later entries
/// win).
pub open spec fn base_env_spec(prefix: Seq<u8>, proton: Seq<u8>, m: CapsuleMetadata) -> Seq<
    (Seq<u8>, Seq<u8>),
> {
    let head = seq![
        ("WINEPREFIX".spec_bytes(), prefix),
        ("PROTONPATH".spec_bytes(), proton),
        ("GAMEID".spec_bytes(), game_id_env(m.game_id)),
        ("STORE".spec_bytes(), store_env(m.store)),
        (
            "PROTON_USE_XALIA".spec_bytes(),
            if m.xalia_enabled {
                "1".spec_bytes()
            } else {
                "0".spec_bytes()
            },
        ),
    ];
    let head2 = if m.protonfixes_disable {
        head.push(("PROTONFIXES_DISABLE".spec_bytes(), "1".spec_bytes()))
    } else {
        head
    };
    head2 + kept_env(m.env_vars@)
}

/// The views of a list of environment pairs.
pub open spec fn pair_views(v: Seq<(Vec<u8>, Vec<u8>)>) -> Seq<(Seq<u8>, Seq<u8>)> {
    v.map_values(|p: (Vec<u8>, Vec<u8>)| (p.0@, p.1@))
}

fn trim_key(k: &Vec<u8>) -> (r: Vec<u8>)
    ensures
        r@ == trimmed(k@),
{
    trim_ws(k.as_slice())
}

fn push_pair(out: &mut Vec<(Vec<u8>, Vec<u8>)>, name: &str, value: Vec<u8>)
    ensures
        pair_views(final(out)@) == pair_views(old(out)@).push((name.spec_bytes(), value@)),
{
    let key = name.as_bytes_vec();
    let ghost old_v = pair_views(out@);
    out.push((key, value));
    proof {
        assert(pair_views(out@) =~= old_v.push((name.spec_bytes(), value@)));
    }
}

/// Build the launcher environment for a capsule.
pub fn build_env(prefix: &[u8], proton: &[u8], m: &CapsuleMetadata) -> (r: Vec<(Vec<u8>, Vec<u8>)>)
    ensures
        pair_views(r@) == base_env_spec(prefix@, proton@, *m),
{
    let mut r: Vec<(Vec<u8>, Vec<u8>)> = Vec::new();
    push_pair(&mut r, "WINEPREFIX", crate::text::subvec(prefix, 0, prefix.len()));
    push_pair(&mut r, "PROTONPATH", crate::text::subvec(proton, 0, proton.len()));
    let gid: Vec<u8> = match &m.game_id {
        Some(g) => {
            let t = trim_ws(g.as_slice());
            if t.len() > 0 {
                t
            } else {
                "umu-default".as_bytes_vec()
            }
        },
        None => "umu-default".as_bytes_vec(),
    };
    push_pair(&mut r, "GAMEID", gid);
    let st: Vec<u8> = match &m.store {
        Some(v) => {
            let t = trim_ws(v.as_slice());
            if t.len() > 0 {
                t
            } else {
                "none".as_bytes_vec()
            }
        },
        None => "none".as_bytes_vec(),
    };
    push_pair(&mut r, "STORE", st);
    let xalia: Vec<u8> = if m.xalia_enabled {
        "1".as_bytes_vec()
    } else {
        "0".as_bytes_vec()
    };
    push_pair(&mut r, "PROTON_USE_XALIA", xalia);
    if m.protonfixes_disable {
        push_pair(&mut r, "PROTONFIXES_DISABLE", "1".as_bytes_vec());
    }
    let ghost head2 = pair_views(r@);
    let n = m.env_vars.len();
    let mut i: usize = 0;
    proof {
        assert(m.env_vars@.subrange(0, 0) =~= Seq::<(Vec<u8>, Vec<u8>)>::empty());
        assert(pair_views(r@) =~= head2 + kept_env(m.env_vars@.subrange(0, 0)));
    }
    while i < n
        invariant
            n == m.env_vars@.len(),
            i <= n,
            pair_views(r@) == head2 + kept_env(m.env_vars@.subrange(0, i as int)),
        decreases n - i,
    {
        proof {
            assert(m.env_vars@.subrange(0, i + 1).drop_last() =~= m.env_vars@.subrange(
                0,
                i as int,
            ));
            assert(m.env_vars@.subrange(0, i + 1).last() == m.env_vars@[i as int]);
        }
        let key = trim_key(&m.env_vars[i].0);
        if key.len() > 0 {
            let value = crate::text::subvec(m.env_vars[i].1.as_slice(), 0, m.env_vars[i].1.len());
            let ghost old_v = pair_views(r@);
            proof {
                assert(value@ =~= m.env_vars@[i as int].1@);
            }
            r.push((key, value));
            proof {
                assert(pair_views(r@) =~= old_v.push(
                    (trimmed(m.env_vars@[i as int].0@), m.env_vars@[i as int].1@),
                ));
                assert(pair_views(r@) =~= head2 + kept_env(m.env_vars@.subrange(0, i + 1)));
            }
        }
        i = i + 1;
    }
    proof {
        assert(m.env_vars@.subrange(0, n as int) =~= m.env_vars@);
        assert(pair_views(r@) =~~= base_env_spec(prefix@, proton@, *m));
    }
    r
}

/// Add the override that keeps UI automation out of installers and
/// dependency runs; the last entry wins over the base value.
pub fn disable_xalia(env: Vec<(Vec<u8>, Vec<u8>)>) -> (r: Vec<(Vec<u8>, Vec<u8>)>)
    ensures
        pair_views(r@) == pair_views(env@).push(
            ("PROTON_USE_XALIA".spec_bytes(), "0".spec_bytes()),
        ),
{
    let mut r = env;
    push_pair(&mut r, "PROTON_USE_XALIA", "0".as_bytes_vec());
    r
}

/// Non-empty whitespace-delimited words.
pub open spec fn split_ws_from(s: Seq<u8>, i: int, cur: Seq<u8>, acc: Seq<Seq<u8>>) -> Seq<Seq<u8>>
    decreases s.len() - i,
{
    if !(0 <= i < s.len()) {
        if cur.len() > 0 {
            acc.push(cur)
        } else {
            acc
        }
    } else if crate::paths::is_space(s[i]) {
        split_ws_from(s, i + 1, Seq::empty(), if cur.len() > 0 {
            acc.push(cur)
        } else {
            acc
        })
    } else {
        split_ws_from(s, i + 1, cur.push(s[i]), acc)
    }
}

/// The whitespace-delimited words of a byte string.
pub open spec fn split_ws(s: Seq<u8>) -> Seq<Seq<u8>> {
    split_ws_from(s, 0, Seq::empty(), Seq::empty())
}

/// The views of a list of arguments.
pub open spec fn arg_views(v: Seq<Vec<u8>>) -> Seq<Seq<u8>> {
    v.map_values(|x: Vec<u8>| x@)
}

/// Split a byte string on whitespace.
pub fn split_whitespace(s: &[u8]) -> (r: Vec<Vec<u8>>)
    ensures
        arg_views(r@) == split_ws(s@),
{
    let n = s.len();
    let mut r: Vec<Vec<u8>> = Vec::new();
    let mut cur: Vec<u8> = Vec::new();
    let mut i: usize = 0;
    proof {
        assert(arg_views(r@) =~= Seq::<Seq<u8>>::empty());
        assert(cur@ =~= Seq::<u8>::empty());
    }
    while i < n
        invariant
            n == s@.len(),
            i <= n,
            split_ws(s@) == split_ws_from(s@, i as int, cur@, arg_views(r@)),
        decreases n - i,
    {
        let b = s[i];
        if crate::paths::is_space_exec(b) {
            if cur.len() > 0 {
                proof {
                    assert(arg_views(r@.push(cur)) =~= arg_views(r@).push(cur@));
                }
                r.push(cur);
            }
            cur = Vec::new();
        } else {
            cur.push(b);
        }
        i = i + 1;
    }
    if cur.len() > 0 {
        proof {
            assert(arg_views(r@.push(cur)) =~= arg_views(r@).push(cur@));
        }
        r.push(cur);
    }
    r
}

/// Each byte string with a fixed prefix attached.
pub open spec fn prefixed_all(prefix: Seq<u8>, xs: Seq<Seq<u8>>) -> Seq<Seq<u8>> {
    xs.map_values(|x: Seq<u8>| prefix + x)
}

/// The launcher arguments of a game run: the executable, its
/// whitespace-split arguments, then the fixes options, each behind its
/// flag.
pub open spec fn game_args_spec(m: CapsuleMetadata) -> Seq<Seq<u8>> {
    seq![m.executables.main.path@] + split_ws(trimmed(m.executables.main.args@)) + prefixed_all(
        "-pf_tricks=".spec_bytes(),
        arg_views(m.protonfixes_tricks@),
    ) + prefixed_all("-pf_replace_cmd=".spec_bytes(), arg_views(m.protonfixes_replace_cmds@))
        + prefixed_all("-pf_dxvk_set=".spec_bytes(), arg_views(m.protonfixes_dxvk_sets@))
}

fn push_prefixed(out: &mut Vec<Vec<u8>>, prefix: &str, items: &Vec<Vec<u8>>)
    ensures
        arg_views(final(out)@) == arg_views(old(out)@) + prefixed_all(
            prefix.spec_bytes(),
            arg_views(items@),
        ),
{
    let n = items.len();
    let mut i: usize = 0;
    proof {
        assert(arg_views(items@).subrange(0, 0) =~= Seq::<Seq<u8>>::empty());
        assert(arg_views(out@) =~= arg_views(out@) + prefixed_all(
            prefix.spec_bytes(),
            arg_views(items@).subrange(0, 0),
        ));
    }
    while i < n
        invariant
            n == items@.len(),
            i <= n,
            arg_views(out@) == arg_views(old(out)@) + prefixed_all(
                prefix.spec_bytes(),
                arg_views(items@).subrange(0, i as int),
            ),
        decreases n - i,
    {
        let mut a: Vec<u8> = Vec::new();
        push_all(&mut a, prefix.as_bytes());
        push_all(&mut a, items[i].as_slice());
        let ghost old_v = arg_views(out@);
        out.push(a);
        proof {
            assert(arg_views(out@) =~= old_v.push(
                prefix.spec_bytes() + arg_views(items@)[i as int],
            ));
            assert(prefixed_all(prefix.spec_bytes(), arg_views(items@).subrange(0, i + 1))
                =~= prefixed_all(prefix.spec_bytes(), arg_views(items@).subrange(0, i as int)).push(
                prefix.spec_bytes() + arg_views(items@)[i as int],
            ));
            assert(arg_views(out@) =~= arg_views(old(out)@) + prefixed_all(
                prefix.spec_bytes(),
                arg_views(items@).subrange(0, i + 1),
            ));
        }
        i = i + 1;
    }
    proof {
        assert(arg_views(items@).subrange(0, n as int) =~= arg_views(items@));
    }
}

/// The arguments of a supervised game run.
pub fn game_command_args(m: &CapsuleMetadata) -> (r: Vec<Vec<u8>>)
    ensures
        arg_views(r@) == game_args_spec(*m),
{
    let mut r: Vec<Vec<u8>> = Vec::new();
    let exe = crate::text::subvec(
        m.executables.main.path.as_slice(),
        0,
        m.executables.main.path.len(),
    );
    let ghost empty_args = arg_views(r@);
    proof {
        assert(exe@ =~= m.executables.main.path@);
    }
    r.push(exe);
    proof {
        assert(arg_views(r@) =~= seq![m.executables.main.path@]);
    }
    let args_trimmed = trim_ws(m.executables.main.args.as_slice());
    let mut words = split_whitespace(args_trimmed.as_slice());
    let ghost with_exe = arg_views(r@);
    let n = words.len();
    let mut i: usize = 0;
    proof {
        assert(arg_views(words@).subrange(0, 0) =~= Seq::<Seq<u8>>::empty());
        assert(arg_views(r@) =~= with_exe + arg_views(words@).subrange(0, 0));
    }
    while i < n
        invariant
            n == words@.len(),
            i <= n,
            arg_views(r@) == with_exe + arg_views(words@).subrange(0, i as int),
        decreases n - i,
    {
        let w = crate::text::subvec(words[i].as_slice(), 0, words[i].len());
        let ghost old_v = arg_views(r@);
        proof {
            assert(w@ =~= arg_views(words@)[i as int]);
        }
        r.push(w);
        proof {
            assert(arg_views(r@) =~= old_v.push(arg_views(words@)[i as int]));
            assert(arg_views(words@).subrange(0, i + 1) =~= arg_views(words@).subrange(
                0,
                i as int,
            ).push(arg_views(words@)[i as int]));
        }
        i = i + 1;
    }
    proof {
        assert(arg_views(words@).subrange(0, n as int) =~= arg_views(words@));
    }
    push_prefixed(&mut r, "-pf_tricks=", &m.protonfixes_tricks);
    push_prefixed(&mut r, "-pf_replace_cmd=", &m.protonfixes_replace_cmds);
    push_prefixed(&mut r, "-pf_dxvk_set=", &m.protonfixes_dxvk_sets);
    proof {
        assert(arg_views(r@) =~= game_args_spec(*m));
    }
    r
}

/// The harmless command that forces prefix and runtime initialization.
pub fn preflight_args() -> (r: Vec<Vec<u8>>)
    ensures
        arg_views(r@) == seq!["cmd".spec_bytes(), "/c".spec_bytes(), "exit".spec_bytes()],
{
    let mut r: Vec<Vec<u8>> = Vec::new();
    r.push("cmd".as_bytes_vec());
    r.push("/c".as_bytes_vec());
    r.push("exit".as_bytes_vec());
    proof {
        assert(arg_views(r@) =~= seq!["cmd".spec_bytes(), "/c".spec_bytes(), "exit".spec_bytes()]);
    }
    r
}

/// A dependency installation to run.
#[derive(PartialEq, Eq, Structural, Clone, Copy, Debug)]
pub enum DepKind {
    Vcredist,
    Dxweb,
}

/// The name a dependency is recorded under.
pub fn dep_name(k: DepKind) -> (r: Vec<u8>)
    ensures
        k == DepKind::Vcredist ==> r@ == "vcredist".spec_bytes(),
        k == DepKind::Dxweb ==> r@ == "dxweb".spec_bytes(),
{
    match k {
        DepKind::Vcredist => "vcredist".as_bytes_vec(),
        DepKind::Dxweb => "dxweb".as_bytes_vec(),
    }
}

/// The dependency installers to run for a capsule: each selected
/// dependency whose installer is cached and which is not yet recorded
/// (unless forced), redistributable first.
pub fn dependency_tasks(
    m: &CapsuleMetadata,
    install_vcredist: bool,
    install_dxweb: bool,
    force: bool,
    vcredist_cached: bool,
    dxweb_cached: bool,
) -> (r: Vec<DepKind>)
    ensures
        ({
            let deps = list_views(m.redistributables_installed@);
            let want_v = install_vcredist && (force || !deps.contains("vcredist".spec_bytes()))
                && vcredist_cached;
            let want_d = install_dxweb && (force || !deps.contains("dxweb".spec_bytes()))
                && dxweb_cached;
            r@ == if want_v && want_d {
                seq![DepKind::Vcredist, DepKind::Dxweb]
            } else if want_v {
                seq![DepKind::Vcredist]
            } else if want_d {
                seq![DepKind::Dxweb]
            } else {
                Seq::<DepKind>::empty()
            }
        }),
{
    let mut r: Vec<DepKind> = Vec::new();
    let want_v = install_vcredist && (force || !m.is_dependency_installed("vcredist".as_bytes()))
        && vcredist_cached;
    let want_d = install_dxweb && (force || !m.is_dependency_installed("dxweb".as_bytes()))
        && dxweb_cached;
    if want_v {
        r.push(DepKind::Vcredist);
    }
    if want_d {
        r.push(DepKind::Dxweb);
    }
    proof {
        if want_v && want_d {
            assert(r@ =~= seq![DepKind::Vcredist, DepKind::Dxweb]);
        } else if want_v {
            assert(r@ =~= seq![DepKind::Vcredist]);
        } else if want_d {
            assert(r@ =~= seq![DepKind::Dxweb]);
        } else {
            assert(r@ =~= Seq::<DepKind>::empty());
        }
    }
    r
}

/// The name of the scratch directory one DirectX extraction uses,
/// derived from a nanosecond timestamp.
pub fn dx_temp_dir_name(nanos: u64) -> (r: Vec<u8>)
    requires
        0 < nanos,
    ensures
        r@ == "linuxboy-dxredist-".spec_bytes() + crate::paths::digits_of(nanos as int),
{
    let mut r: Vec<u8> = Vec::new();
    push_all(&mut r, "linuxboy-dxredist-".as_bytes());
    let digits = crate::paths::render_counter(nanos);
    push_all(&mut r, digits.as_slice());
    r
}

/// The host-side scratch directory of one DirectX extraction.
pub fn dx_host_temp_dir(prefix: &[u8], dirname: &[u8]) -> (r: Vec<u8>)
    ensures
        r@ == prefix@ + "/drive_c/linuxboy-temp/".spec_bytes() + dirname@,
{
    let mut r: Vec<u8> = Vec::new();
    push_all(&mut r, prefix);
    push_all(&mut r, "/drive_c/linuxboy-temp/".as_bytes());
    push_all(&mut r, dirname);
    r
}

/// The same scratch directory as the installer sees it, on the system
/// drive.
pub fn dx_windows_temp_dir(dirname: &[u8]) -> (r: Vec<u8>)
    ensures
        r@ == "C:\\\\linuxboy-temp\\\\".spec_bytes() + dirname@,
{
    let mut r: Vec<u8> = Vec::new();
    push_all(&mut r, "C:\\\\linuxboy-temp\\\\".as_bytes());
    push_all(&mut r, dirname);
    r
}

/// The arguments that unpack the DirectX redistributable quietly into
/// the scratch directory.
pub fn dx_extract_args(redist_path: &[u8], windows_temp_dir: &[u8]) -> (r: Vec<Vec<u8>>)
    ensures
        arg_views(r@) == seq![
            redist_path@,
            "/Q".spec_bytes(),
            "/T:".spec_bytes() + windows_temp_dir@,
            "/C".spec_bytes(),
        ],
{
    let mut r: Vec<Vec<u8>> = Vec::new();
    r.push(crate::text::subvec(redist_path, 0, redist_path.len()));
    r.push("/Q".as_bytes_vec());
    let mut t: Vec<u8> = Vec::new();
    push_all(&mut t, "/T:".as_bytes());
    push_all(&mut t, windows_temp_dir);
    r.push(t);
    r.push("/C".as_bytes_vec());
    proof {
        assert(arg_views(r@) =~~= seq![
            redist_path@,
            "/Q".spec_bytes(),
            "/T:".spec_bytes() + windows_temp_dir@,
            "/C".spec_bytes(),
        ]);
    }
    r
}

/// The arguments that run the unpacked DirectX setup silently.
pub fn dx_install_args(dxsetup_path: &[u8]) -> (r: Vec<Vec<u8>>)
    ensures
        arg_views(r@) == seq![dxsetup_path@, "/silent".spec_bytes()],
{
    let mut r: Vec<Vec<u8>> = Vec::new();
    r.push(crate::text::subvec(dxsetup_path, 0, dxsetup_path.len()));
    r.push("/silent".as_bytes_vec());
    proof {
        assert(arg_views(r@) =~~= seq![dxsetup_path@, "/silent".spec_bytes()]);
    }
    r
}

} // verus!
