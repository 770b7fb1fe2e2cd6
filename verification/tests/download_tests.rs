use linuxboy::download::{
    after_range_response, fetch, finish_check, plan_existing_dest, plan_partial,
    total_for_progress, DestPlan, FetchError,
};

const CONTENT: &[u8] = b"the whole remote archive body";

#[test]
fn fresh_fetch_delivers_the_content() {
    let content = CONTENT.to_vec();
    let expected = Some(content.len() as u64);
    let out = fetch(None, None, &content, true, true, expected);
    assert_eq!(out.result, Ok(content.len() as u64));
    assert_eq!(out.dest, Some(content));
    assert_eq!(out.part, None);
}

#[test]
fn resumed_fetch_matches_fresh_fetch() {
    let content = CONTENT.to_vec();
    let expected = Some(content.len() as u64);
    let fresh = fetch(None, None, &content, true, true, expected);
    let partial = content[..10].to_vec();
    let resumed = fetch(None, Some(partial), &content, true, true, expected);
    assert_eq!(resumed.result, Ok(content.len() as u64));
    assert_eq!(resumed.dest, fresh.dest);
    assert_eq!(resumed.dest, Some(content));
}

#[test]
fn refused_range_restarts_and_still_matches() {
    let content = CONTENT.to_vec();
    let expected = Some(content.len() as u64);
    let partial = content[..7].to_vec();
    let out = fetch(None, Some(partial), &content, true, false, expected);
    assert_eq!(out.result, Ok(content.len() as u64));
    assert_eq!(out.dest, Some(content));
}

#[test]
fn short_transfer_is_incomplete_and_keeps_the_partial() {
    let content = CONTENT.to_vec();
    let expected = Some(content.len() as u64 + 5);
    let out = fetch(None, None, &content, true, true, expected);
    assert_eq!(out.result, Err(FetchError::Incomplete));
    assert_eq!(out.dest, None);
    assert_eq!(out.part, Some(content));
}

#[test]
fn oversized_transfer_is_a_size_mismatch_and_destroys_the_partial() {
    let content = CONTENT.to_vec();
    let out = fetch(None, None, &content, true, true, Some(5));
    assert_eq!(out.result, Err(FetchError::SizeMismatch));
    assert_eq!(out.dest, None);
    assert_eq!(out.part, None);
}

#[test]
fn status_failure_leaves_no_destination() {
    let content = CONTENT.to_vec();
    let partial = content[..3].to_vec();
    let out = fetch(None, Some(partial.clone()), &content, false, true, Some(content.len() as u64));
    assert_eq!(out.result, Err(FetchError::Status));
    assert_eq!(out.dest, None);
    assert_eq!(out.part, Some(partial));
}

#[test]
fn complete_destination_is_reused() {
    let content = CONTENT.to_vec();
    let existing = vec![9u8; content.len()];
    let out = fetch(Some(existing.clone()), None, &content, true, true, Some(content.len() as u64));
    assert_eq!(out.result, Ok(content.len() as u64));
    assert_eq!(out.dest, Some(existing));
}

#[test]
fn oversized_partial_is_discarded_before_the_request() {
    let content = CONTENT.to_vec();
    let oversized = vec![7u8; content.len() + 3];
    let out = fetch(None, Some(oversized), &content, true, true, Some(content.len() as u64));
    assert_eq!(out.result, Ok(content.len() as u64));
    assert_eq!(out.dest, Some(content));
}

#[test]
fn progress_totals_follow_the_expectation() {
    assert_eq!(total_for_progress(Some(100), 10, 90), 100);
    assert_eq!(total_for_progress(None, 10, 90), 100);
    assert_eq!(total_for_progress(None, 10, 0), 0);
    assert_eq!(total_for_progress(Some(0), 10, 0), 0);
}

#[test]
fn destination_plans_cover_all_sizes() {
    assert_eq!(plan_existing_dest(50, None), DestPlan::KeepWithoutExpected);
    assert_eq!(plan_existing_dest(50, Some(0)), DestPlan::KeepWithoutExpected);
    assert_eq!(plan_existing_dest(50, Some(50)), DestPlan::AlreadyComplete);
    assert_eq!(plan_existing_dest(49, Some(50)), DestPlan::MoveToPartial);
    assert_eq!(plan_existing_dest(51, Some(50)), DestPlan::DeleteAndRestart);
}

#[test]
fn partial_plans_discard_oversized_partials() {
    assert_eq!(plan_partial(10, Some(50)), (10, false));
    assert_eq!(plan_partial(60, Some(50)), (0, true));
    assert_eq!(plan_partial(60, None), (60, false));
}

#[test]
fn range_responses_decide_the_offset() {
    assert_eq!(after_range_response(10, true), (10, false));
    assert_eq!(after_range_response(10, false), (0, true));
    assert_eq!(after_range_response(0, false), (0, false));
}

#[test]
fn finish_checks_name_each_error() {
    assert_eq!(finish_check(49, Some(50)), Err(FetchError::Incomplete));
    assert_eq!(finish_check(51, Some(50)), Err(FetchError::SizeMismatch));
    assert_eq!(finish_check(50, Some(50)), Ok(()));
    assert_eq!(finish_check(123, None), Ok(()));
}

#[test]
fn progress_events_are_reported_per_chunk() {
    let content = vec![5u8; 20000];
    let out = fetch(None, None, &content, true, true, Some(20000));
    assert_eq!(out.result, Ok(20000));
    assert_eq!(out.events.first(), Some(&(0u64, 20000u64)));
    assert_eq!(out.events.last(), Some(&(20000u64, 20000u64)));
    assert!(out.events.len() >= 3);
}
