//! The resumable download engine.
//!
//! The engine's decisions — when an existing file is reused, when a
//! partial is resumed, discarded or restarted, and when a finished
//! transfer is accepted — are modeled here over in-memory bytes: the
//! remote content is a byte string, the destination and the `.part`
//! sidecar are optional byte strings.  The surrounding application
//! performs the same steps against the real network and filesystem,
//! using the planning functions at the end of this module.

use vstd::prelude::*;

verus! {

/// Bytes are appended to the partial file in chunks of this size, with
/// a progress report after each chunk.
pub const CHUNK_SIZE: usize = 8192;

/// Why a fetch failed.
#[derive(PartialEq, Eq, Structural, Clone, Copy, Debug)]
pub enum FetchError {
    /// The server did not answer with a success status.
    Status,
    /// Fewer bytes arrived than the expected size.
    Incomplete,
    /// More bytes arrived than the expected size; the partial file is
    /// destroyed.
    SizeMismatch,
}

/// The files after a fetch, and its result.
pub struct FetchOutcomeModel {
    pub dest: Option<Seq<u8>>,
    pub part: Option<Seq<u8>>,
    pub result: Result<int, FetchError>,
}

/// An expected size of zero means no expectation.
pub open spec fn eff_expected(expected: Option<u64>) -> Option<u64> {
    match expected {
        Some(e) => if e > 0 {
            Some(e)
        } else {
            None
        },
        None => None,
    }
}

/// The bytes a server answering a range request from `from` serves.
pub open spec fn served_from(content: Seq<u8>, from: int) -> Seq<u8> {
    if from <= content.len() {
        content.skip(from)
    } else {
        Seq::empty()
    }
}

/// The bytes of an optional file, empty when absent.
pub open spec fn bytes_or_empty(o: Option<Seq<u8>>) -> Seq<u8> {
    match o {
        Some(s) => s,
        None => Seq::empty(),
    }
}

/// Length of an optional file.
pub open spec fn len_of(o: Option<Seq<u8>>) -> int {
    match o {
        Some(s) => s.len() as int,
        None => 0,
    }
}

/// The whole fetch, as a function of the files on disk, the remote
/// content, and the server's behaviour.
///
/// An existing destination of the expected size is reused untouched; a
/// smaller one becomes the partial (replacing any), a larger one is
/// destroyed.  An oversized partial is discarded.  The transfer resumes
/// from the partial's length; a server that does not honor the range
/// restarts from zero with the partial discarded.  Finally, with a known
/// expected size, a short transfer fails keeping the partial, an
/// oversized one fails destroying it, and an exact one is renamed into
/// place.
pub open spec fn run_fetch_spec(
    dest: Option<Seq<u8>>,
    part: Option<Seq<u8>>,
    content: Seq<u8>,
    server_ok: bool,
    supports_range: bool,
    expected: Option<u64>,
) -> FetchOutcomeModel {
    let e_opt = eff_expected(expected);
    if dest is Some && e_opt is None {
        FetchOutcomeModel { dest, part, result: Ok(len_of(dest)) }
    } else if dest is Some && e_opt is Some && len_of(dest) == eff_val(e_opt) {
        FetchOutcomeModel { dest, part, result: Ok(eff_val(e_opt)) }
    } else {
        let part1 = if dest is Some && e_opt is Some && len_of(dest) < eff_val(e_opt) {
            dest
        } else {
            part
        };
        let part2 = if e_opt is Some && len_of(part1) > eff_val(e_opt) {
            None
        } else {
            part1
        };
        if !server_ok {
            FetchOutcomeModel { dest: None, part: part2, result: Err(FetchError::Status) }
        } else {
            let restart = len_of(part2) > 0 && !supports_range;
            let part3 = if restart {
                None
            } else {
                part2
            };
            let from = len_of(part3);
            let served = served_from(content, from);
            let attempted = bytes_or_empty(part3) + served;
            let downloaded = from + served.len();
            match e_opt {
                Some(e) => if downloaded < e {
                    FetchOutcomeModel {
                        dest: None,
                        part: Some(attempted),
                        result: Err(FetchError::Incomplete),
                    }
                } else if downloaded > e {
                    FetchOutcomeModel {
                        dest: None,
                        part: None,
                        result: Err(FetchError::SizeMismatch),
                    }
                } else {
                    FetchOutcomeModel { dest: Some(attempted), part: None, result: Ok(e as int) }
                },
                None => FetchOutcomeModel {
                    dest: Some(attempted),
                    part: None,
                    result: Ok(downloaded),
                },
            }
        }
    }
}

/// The value of an effective expected size known to be present.
pub open spec fn eff_val(e_opt: Option<u64>) -> int {
    match e_opt {
        Some(e) => e as int,
        None => 0,
    }
}

/// The files after a fetch, over real byte vectors, with the progress
/// reports made along the way.
#[derive(Debug)]
pub struct FetchOutcome {
    pub dest: Option<Vec<u8>>,
    pub part: Option<Vec<u8>>,
    pub result: Result<u64, FetchError>,
    pub events: Vec<(u64, u64)>,
}

/// View of an optional byte vector.
pub open spec fn ov(o: Option<Vec<u8>>) -> Option<Seq<u8>> {
    match o {
        Some(v) => Some(v@),
        None => None,
    }
}

/// Fetch remote content onto a destination, resuming a partial.
///
/// This is the engine run over in-memory values: the result is exactly
/// `run_fetch_spec` of the inputs.  Progress is reported after every
/// chunk as `(downloaded, total)` pairs; `total` is the expected size
/// when known, otherwise what the server declared plus the bytes already
/// on disk.
#[verifier::rlimit(100)]
pub fn fetch(
    dest: Option<Vec<u8>>,
    part: Option<Vec<u8>>,
    content: &Vec<u8>,
    server_ok: bool,
    supports_range: bool,
    expected: Option<u64>,
) -> (r: FetchOutcome)
    requires
        len_of(ov(dest)) + content@.len() < u64::MAX,
        len_of(ov(part)) + content@.len() < u64::MAX,
    ensures
        ({
            let s = run_fetch_spec(ov(dest), ov(part), content@, server_ok, supports_range, expected);
            &&& ov(r.dest) == s.dest
            &&& ov(r.part) == s.part
            &&& match (r.result, s.result) {
                (Ok(n), Ok(m)) => n as int == m,
                (Err(a), Err(b)) => a == b,
                _ => false,
            }
        }),
        // Progress only ever grows, against one fixed total.
        forall|i: int, j: int|
            0 <= i < j < r.events@.len() ==> (#[trigger] r.events@[i]).0 <= (
            #[trigger] r.events@[j]).0,
        forall|i: int, j: int|
            0 <= i < r.events@.len() && 0 <= j < r.events@.len() ==> (#[trigger] r.events@[i]).1
                == (#[trigger] r.events@[j]).1,
{
    let ghost s = run_fetch_spec(ov(dest), ov(part), content@, server_ok, supports_range, expected);
    let e_opt: Option<u64> = match expected {
        Some(e) => if e > 0 {
            Some(e)
        } else {
            None
        },
        None => None,
    };

    // An existing destination may satisfy the fetch or feed the partial.
    let mut part_now: Option<Vec<u8>> = part;
    match (dest, &e_opt) {
        (Some(d), None) => {
            let n = d.len() as u64;
            let mut events: Vec<(u64, u64)> = Vec::new();
            return FetchOutcome { dest: Some(d), part: part_now, result: Ok(n), events };
        },
        (Some(d), Some(e)) => {
            if d.len() as u64 == *e {
                let mut events: Vec<(u64, u64)> = Vec::new();
                events.push((*e, *e));
                return FetchOutcome { dest: Some(d), part: part_now, result: Ok(*e), events };
            }
            if (d.len() as u64) < *e {
                part_now = Some(d);
            }
            // A larger destination is simply destroyed.
        },
        (None, _) => {},
    }

    // An oversized partial cannot be resumed.
    match (&part_now, &e_opt) {
        (Some(p), Some(e)) => {
            if p.len() as u64 > *e {
                part_now = None;
            }
        },
        _ => {},
    }

    if !server_ok {
        return FetchOutcome {
            dest: None,
            part: part_now,
            result: Err(FetchError::Status),
            events: Vec::new(),
        };
    }

    // A server that ignores the range request forces a restart.
    let part_len: usize = match &part_now {
        Some(p) => p.len(),
        None => 0,
    };
    if part_len > 0 && !supports_range {
        part_now = None;
    }

    let mut acc: Vec<u8> = match part_now {
        Some(p) => p,
        None => Vec::new(),
    };
    let from: usize = acc.len();
    let ghost from_spec = acc@;

    let segment: u64 = if from <= content.len() {
        (content.len() - from) as u64
    } else {
        0
    };
    let total: u64 = match &e_opt {
        Some(e) => *e,
        None => if segment > 0 {
            from as u64 + segment
        } else {
            0
        },
    };

    let mut downloaded: u64 = from as u64;
    let mut events: Vec<(u64, u64)> = Vec::new();
    events.push((downloaded, total));
    proof {
        assert(events@ =~= seq![(downloaded, total)]);
    }

    let mut pos: usize = if from <= content.len() {
        from
    } else {
        content.len()
    };
    let ghost start = pos as int;
    proof {
        assert(acc@ =~= from_spec + content@.subrange(start, start));
    }
    while pos < content.len()
        invariant
            0 <= start <= pos <= content@.len(),
            acc@ == from_spec + content@.subrange(start, pos as int),
            downloaded == from_spec.len() + pos - start,
            from_spec.len() + content@.len() < u64::MAX,
            events@.len() > 0,
            events@.last().0 == downloaded,
            forall|i: int| 0 <= i < events@.len() ==> (#[trigger] events@[i]).1 == total,
            forall|i: int, j: int|
                0 <= i < j < events@.len() ==> (#[trigger] events@[i]).0 <= (
                #[trigger] events@[j]).0,
        decreases content@.len() - pos,
    {
        let end = if content.len() - pos > CHUNK_SIZE {
            pos + CHUNK_SIZE
        } else {
            content.len()
        };
        let mut k = pos;
        while k < end
            invariant
                0 <= start <= pos <= k <= end <= content@.len(),
                acc@ == from_spec + content@.subrange(start, k as int),
            decreases end - k,
        {
            acc.push(content[k]);
            proof {
                assert(from_spec + content@.subrange(start, k + 1) =~= (from_spec
                    + content@.subrange(start, k as int)).push(content@[k as int]));
            }
            k = k + 1;
        }
        let ghost old_events = events@;
        downloaded = downloaded + (end - pos) as u64;
        events.push((downloaded, total));
        proof {
            assert forall|i: int, j: int|
                0 <= i < j < events@.len() implies (#[trigger] events@[i]).0 <= (
                #[trigger] events@[j]).0 by {
                if j == events@.len() - 1 {
                    assert(events@[i] == old_events[i]);
                    if i < old_events.len() - 1 {
                        assert(old_events[i].0 <= old_events[old_events.len() - 1].0);
                    }
                } else {
                    assert(events@[i] == old_events[i]);
                    assert(events@[j] == old_events[j]);
                }
            }
        }
        pos = end;
    }
    proof {
        assert(content@.subrange(start, content@.len() as int) =~= served_from(
            content@,
            from_spec.len() as int,
        ));
    }

    match e_opt {
        Some(e) => {
            if downloaded < e {
                FetchOutcome {
                    dest: None,
                    part: Some(acc),
                    result: Err(FetchError::Incomplete),
                    events,
                }
            } else if downloaded > e {
                FetchOutcome { dest: None, part: None, result: Err(FetchError::SizeMismatch), events }
            } else {
                FetchOutcome { dest: Some(acc), part: None, result: Ok(e), events }
            }
        },
        None => {
            let n = downloaded;
            FetchOutcome { dest: Some(acc), part: None, result: Ok(n), events }
        },
    }
}

/// Resuming from a truncated partial yields the same final file as one
/// uninterrupted fetch: both succeed and place exactly the remote
/// content at the destination.
pub proof fn lemma_resume_matches_fresh(content: Seq<u8>, k: int)
    requires
        0 <= k < content.len(),
        0 < content.len() <= u64::MAX,
    ensures
        ({
            let expected = Some(content.len() as u64);
            let fresh = run_fetch_spec(None, None, content, true, true, expected);
            let resumed = run_fetch_spec(
                None,
                Some(content.subrange(0, k)),
                content,
                true,
                true,
                expected,
            );
            &&& fresh.result == Ok::<int, FetchError>(content.len() as int)
            &&& resumed.result == Ok::<int, FetchError>(content.len() as int)
            &&& fresh.dest == Some(content)
            &&& resumed.dest == fresh.dest
        }),
{
    let expected = Some(content.len() as u64);
    assert(served_from(content, 0) =~= content);
    assert(Seq::<u8>::empty() + content =~= content);
    assert(content.subrange(0, k) + content.skip(k) =~= content);
}

/// A restart forced by a server that ignores ranges still yields the
/// remote content exactly.
pub proof fn lemma_restart_matches_fresh(content: Seq<u8>, k: int)
    requires
        0 <= k < content.len(),
        0 < content.len() <= u64::MAX,
    ensures
        ({
            let expected = Some(content.len() as u64);
            let restarted = run_fetch_spec(
                None,
                Some(content.subrange(0, k)),
                content,
                true,
                false,
                expected,
            );
            &&& restarted.result == Ok::<int, FetchError>(content.len() as int)
            &&& restarted.dest == Some(content)
        }),
{
    assert(served_from(content, 0) =~= content);
    assert(Seq::<u8>::empty() + content =~= content);
}

/// Completeness: with a known expected size, a fetch either succeeds
/// with exactly that many bytes delivered at the destination, or fails
/// leaving no file at the destination.
pub proof fn lemma_fetch_completeness(
    dest: Option<Seq<u8>>,
    part: Option<Seq<u8>>,
    content: Seq<u8>,
    server_ok: bool,
    supports_range: bool,
    e: u64,
)
    requires
        e > 0,
    ensures
        ({
            let s = run_fetch_spec(dest, part, content, server_ok, supports_range, Some(e));
            match s.result {
                Ok(n) => n == e && s.dest is Some && len_of(s.dest) == e,
                Err(_) => s.dest is None,
            }
        }),
{
}

/// A fetch that actually transfers (the destination was not already
/// complete) leaves no partial behind on success: it is renamed into
/// place.
pub proof fn lemma_success_consumes_partial(
    part: Option<Seq<u8>>,
    content: Seq<u8>,
    server_ok: bool,
    supports_range: bool,
    e: u64,
)
    requires
        e > 0,
    ensures
        ({
            let s = run_fetch_spec(None, part, content, server_ok, supports_range, Some(e));
            s.result is Ok ==> s.part is None
        }),
{
}

/// What an existing destination means for the fetch.
#[derive(PartialEq, Eq, Structural, Clone, Copy, Debug)]
pub enum DestPlan {
    /// No expectation: keep the file and succeed at once.
    KeepWithoutExpected,
    /// The file already has the expected size: succeed at once.
    AlreadyComplete,
    /// The file is smaller: move it to the `.part` sidecar and resume.
    MoveToPartial,
    /// The file is larger: destroy it and start over.
    DeleteAndRestart,
}

/// Decide what to do with an existing destination file.
pub fn plan_existing_dest(dest_len: u64, expected: Option<u64>) -> (r: DestPlan)
    ensures
        eff_expected(expected) is None ==> r == DestPlan::KeepWithoutExpected,
        forall|e: u64|
            eff_expected(expected) == Some(e) ==> r == (if dest_len == e {
                DestPlan::AlreadyComplete
            } else if dest_len < e {
                DestPlan::MoveToPartial
            } else {
                DestPlan::DeleteAndRestart
            }),
{
    match expected {
        Some(e) => {
            if e == 0 {
                DestPlan::KeepWithoutExpected
            } else if dest_len == e {
                DestPlan::AlreadyComplete
            } else if dest_len < e {
                DestPlan::MoveToPartial
            } else {
                DestPlan::DeleteAndRestart
            }
        },
        None => DestPlan::KeepWithoutExpected,
    }
}

/// Decide what to resume from, given the partial's length: an oversized
/// partial is discarded (the second component says to delete it).
pub fn plan_partial(part_len: u64, expected: Option<u64>) -> (r: (u64, bool))
    ensures
        ({
            match eff_expected(expected) {
                Some(e) => if part_len > e {
                    r == (0u64, true)
                } else {
                    r == (part_len, false)
                },
                None => r == (part_len, false),
            }
        }),
{
    match expected {
        Some(e) => {
            if e > 0 && part_len > e {
                (0, true)
            } else {
                (part_len, false)
            }
        },
        None => (part_len, false),
    }
}

/// Decide how to react to the server's answer to a range request: when
/// the range was not honored, restart from zero and delete the partial.
pub fn after_range_response(offset: u64, got_partial_content: bool) -> (r: (u64, bool))
    ensures
        offset > 0 && !got_partial_content ==> r == (0u64, true),
        offset == 0 || got_partial_content ==> r == (offset, false),
{
    if offset > 0 && !got_partial_content {
        (0, true)
    } else {
        (offset, false)
    }
}

/// The progress total: the expected size when known, otherwise the
/// server-declared segment length plus the bytes already on disk; zero
/// when nothing is known.
pub fn total_for_progress(expected: Option<u64>, existing: u64, segment: u64) -> (r: u64)
    requires
        existing + segment <= u64::MAX,
    ensures
        ({
            match eff_expected(expected) {
                Some(e) => r == e,
                None => r == (if segment > 0 {
                    existing + segment
                } else {
                    0
                }),
            }
        }),
{
    match expected {
        Some(e) => if e > 0 {
            e
        } else {
            if segment > 0 {
                existing + segment
            } else {
                0
            }
        },
        None => if segment > 0 {
            existing + segment
        } else {
            0
        },
    }
}

/// Judge a finished transfer against the expected size: too little is
/// an incomplete transfer, too much a size mismatch (and the partial
/// must be destroyed), an exact match is accepted.
pub fn finish_check(downloaded: u64, expected: Option<u64>) -> (r: Result<(), FetchError>)
    ensures
        ({
            match eff_expected(expected) {
                Some(e) => if downloaded < e {
                    r == Err::<(), FetchError>(FetchError::Incomplete)
                } else if downloaded > e {
                    r == Err::<(), FetchError>(FetchError::SizeMismatch)
                } else {
                    r == Ok::<(), FetchError>(())
                },
                None => r == Ok::<(), FetchError>(()),
            }
        }),
{
    match expected {
        Some(e) => {
            if e == 0 {
                Ok(())
            } else if downloaded < e {
                Err(FetchError::Incomplete)
            } else if downloaded > e {
                Err(FetchError::SizeMismatch)
            } else {
                Ok(())
            }
        },
        None => Ok(()),
    }
}

} // verus!
