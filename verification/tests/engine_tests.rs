use consult_parcels::aggregator::ResultAggregator;
use consult_parcels::controller::{AppState, Checkpoint};
use consult_parcels::engine::BatchEngine;
use consult_parcels::parcel::{ParcelData, ParcelResponse};
use consult_parcels::parsing::parse_parcel_data;

fn ids(n: usize) -> Vec<String> {
    (0..n).map(|i| format!("code{}", i)).collect()
}

fn record(code: &str) -> ParcelData {
    let c: Vec<char> = code.chars().collect();
    let html: Vec<char> = Vec::new();
    parse_parcel_data(&html, &c)
}

/// Drives every lane that is still active for one item, in lane order,
/// consulting the controller the way a lane worker does. Returns the
/// envelopes produced in this sweep.
fn sweep(engine: &mut BatchEngine, state: &AppState) -> Vec<ParcelResponse> {
    let mut out = Vec::new();
    for lane in 0..engine.lanes.len() {
        if engine.lanes[lane].done || engine.lanes[lane].pos >= engine.lanes[lane].items.len() {
            continue;
        }
        match state.wait_if_paused() {
            Checkpoint::Stop => {
                engine.abandon(lane);
            }
            Checkpoint::Block => {
                // a real lane would suspend here and re-check when woken
            }
            Checkpoint::Proceed => {
                let code = engine.current_item(lane).clone();
                let data = record(&code);
                out.push(engine.on_success(lane, data));
            }
        }
    }
    out
}

fn all_settled(engine: &BatchEngine) -> bool {
    engine
        .lanes
        .iter()
        .all(|l| l.done || l.pos >= l.items.len())
}

#[test]
fn scenario_all_succeed_twenty_envelopes() {
    // Scenario: 20 identifiers across 10 lanes, every lookup succeeds.
    let state = AppState::new();
    let mut engine = BatchEngine::start_batch(ids(20), 10);
    assert_eq!(engine.lanes.len(), 10);
    for lane in &engine.lanes {
        assert_eq!(lane.items.len(), 2);
    }
    let mut envelopes = Vec::new();
    while !all_settled(&engine) {
        envelopes.extend(sweep(&mut engine, &state));
    }
    assert_eq!(envelopes.len(), 20);
    assert_eq!(engine.current_count, 20);
    // every envelope carries the fixed total and the counts are exactly 1..=20
    let mut counts: Vec<usize> = envelopes.iter().map(|e| e.current_count).collect();
    for e in &envelopes {
        assert_eq!(e.total_count, 20);
        assert!(e.current_count >= 1 && e.current_count <= 20);
    }
    counts.sort();
    let expected: Vec<usize> = (1..=20).collect();
    assert_eq!(counts, expected);
}

#[test]
fn progress_counts_strictly_increase() {
    let state = AppState::new();
    let mut engine = BatchEngine::start_batch(ids(9), 4);
    let mut seen: Vec<usize> = Vec::new();
    while !all_settled(&engine) {
        for e in sweep(&mut engine, &state) {
            seen.push(e.current_count);
        }
    }
    for w in seen.windows(2) {
        assert!(w[0] < w[1]);
    }
    assert!(seen.iter().all(|&c| c <= 9));
    assert_eq!(*seen.last().unwrap(), 9);
}

#[test]
fn scenario_one_failure_single_notification_lane_dies() {
    // Scenario: 20 identifiers, the first item of one lane fails.
    let mut state = AppState::new();
    let mut engine = BatchEngine::start_batch(ids(20), 10);

    // lane 2 fails on its first item
    let emit = engine.on_failure(2, &mut state);
    assert!(emit);
    assert!(state.has_error);
    assert!(state.paused);
    assert!(engine.lanes[2].done);
    assert_eq!(engine.lanes[2].pos, 0);

    // a concurrent failure on another lane emits nothing further
    let emit_again = engine.on_failure(7, &mut state);
    assert!(!emit_again);
    assert!(state.has_error);

    // the other lanes now block at their next checkpoint
    assert_eq!(state.wait_if_paused(), Checkpoint::Block);
    let produced = sweep(&mut engine, &state);
    assert!(produced.is_empty());
    assert_eq!(engine.current_count, 0);
}

#[test]
fn scenario_resume_after_failure_survivors_continue() {
    // Scenario: after a failure and pause, the operator resumes; the failed
    // lane stays dead, the surviving lanes finish their items.
    let mut state = AppState::new();
    let mut engine = BatchEngine::start_batch(ids(20), 10);

    let emit = engine.on_failure(0, &mut state);
    assert!(emit);
    assert_eq!(state.wait_if_paused(), Checkpoint::Block);

    state.resume();
    assert!(!state.has_error);
    assert!(!state.paused);
    assert_eq!(state.wait_if_paused(), Checkpoint::Proceed);

    let mut envelopes = Vec::new();
    while !all_settled(&engine) {
        envelopes.extend(sweep(&mut engine, &state));
    }
    // lane 0 held 2 of the 20 items and contributed nothing
    assert_eq!(envelopes.len(), 18);
    assert_eq!(engine.current_count, 18);
    assert!(engine.lanes[0].done);
    assert_eq!(engine.lanes[0].pos, 0);
}

#[test]
fn scenario_cancel_stops_lanes_and_forwarding() {
    // Scenario: the operator cancels mid-run.
    let mut state = AppState::new();
    let mut engine = BatchEngine::start_batch(ids(20), 10);
    let mut agg = ResultAggregator::new();

    // one sweep completes one item per lane; the envelopes are forwarded
    let first = sweep(&mut engine, &state);
    assert_eq!(first.len(), 10);
    for e in &first {
        assert!(agg.receive(state.cancelled, e));
    }
    assert_eq!(agg.forwarded.len(), 10);

    state.cancel();

    // every lane abandons its remaining items at the next checkpoint
    let after = sweep(&mut engine, &state);
    assert!(after.is_empty());
    assert!(engine.lanes.iter().all(|l| l.done));
    assert_eq!(engine.current_count, 10);

    // an envelope already in the conduit is not forwarded once the
    // aggregator observes cancellation, nor is anything after it
    let leftover = &first[0];
    assert!(!agg.receive(state.cancelled, leftover));
    assert!(agg.stopped);
    assert!(!agg.receive(false, leftover));
    assert_eq!(agg.forwarded.len(), 10);

    // cancelling again is a no-op
    state.cancel();
    assert!(state.cancelled);
}

#[test]
fn reset_allows_a_fresh_batch() {
    let mut state = AppState::new();
    let mut engine = BatchEngine::start_batch(ids(4), 2);
    engine.on_failure(1, &mut state);
    state.cancel();

    state.reset();
    assert!(!state.paused);
    assert!(!state.cancelled);
    assert!(!state.has_error);

    // a new batch over the same input behaves as a first run
    let mut engine2 = BatchEngine::start_batch(ids(4), 2);
    let mut envelopes = Vec::new();
    while !all_settled(&engine2) {
        envelopes.extend(sweep(&mut engine2, &state));
    }
    assert_eq!(envelopes.len(), 4);
    assert_eq!(engine2.current_count, 4);
    assert_eq!(engine2.total_count, 4);
}

#[test]
fn envelope_carries_record_and_counts() {
    let mut engine = BatchEngine::start_batch(ids(3), 3);
    let data = record("code0");
    let env = engine.on_success(0, data);
    assert_eq!(env.total_count, 3);
    assert_eq!(env.current_count, 1);
    assert_eq!(env.data.parcel_code, "code0");
    assert_eq!(engine.lanes[0].pos, 1);
}
