//! Tests for the event ring buffer, the pagination rule and the sync
//! decision.

use pulse_node::api::{ApiResponse, PaginationParams, page_bounds};
use pulse_node::events::{EventLog, MAX_EVENTS, NodeEvent};
use pulse_node::network::sync_request_for;

fn started(ts: u64) -> NodeEvent {
    NodeEvent::NodeStarted { timestamp: ts, version: String::from("1"), chain_height: 0 }
}

#[test]
fn test_event_log_ring() {
    let mut log = EventLog::new();
    for i in 0..(MAX_EVENTS as u64 + 10) {
        log.push(started(i));
    }
    // The buffer stays bounded and keeps the newest events.
    let latest = log.latest(1);
    assert_eq!(latest.len(), 1);
    assert_eq!(latest[0].timestamp(), MAX_EVENTS as u64 + 9);
    let all = log.latest(MAX_EVENTS + 50);
    assert_eq!(all.len(), MAX_EVENTS);
}

#[test]
fn test_event_log_latest_order() {
    let mut log = EventLog::new();
    log.push(started(1));
    log.push(started(2));
    log.push(started(3));
    let latest = log.latest(2);
    assert_eq!(latest.len(), 2);
    assert_eq!(latest[0].timestamp(), 3);
    assert_eq!(latest[1].timestamp(), 2);
}

#[test]
fn test_event_log_since() {
    let mut log = EventLog::new();
    log.push(started(5));
    log.push(started(10));
    log.push(started(15));
    let recent = log.since(9);
    assert_eq!(recent.len(), 2);
    assert!(recent.iter().all(|e| e.timestamp() > 9));
}

#[test]
fn test_api_response_envelopes() {
    let ok = ApiResponse::ok(7u64);
    assert!(ok.success);
    assert_eq!(ok.data, Some(7));
    let err = ApiResponse::err(String::from("bad input"));
    assert!(!err.success);
    assert_eq!(err.error.as_deref(), Some("bad input"));
}

#[test]
fn test_page_bounds_defaults() {
    // No parameters: the last 50 blocks.
    let (offset, limit) = page_bounds(120, &PaginationParams { offset: None, limit: None });
    assert_eq!(limit, 50);
    assert_eq!(offset, 70);
    // The limit is capped at 200.
    let (_, limit2) = page_bounds(1000, &PaginationParams { offset: Some(0), limit: Some(500) });
    assert_eq!(limit2, 200);
    // A short chain starts at zero.
    let (offset3, _) = page_bounds(10, &PaginationParams { offset: None, limit: None });
    assert_eq!(offset3, 0);
}

#[test]
fn test_sync_decision() {
    // One ahead: no sync needed; further ahead: ask from the next height.
    assert!(sync_request_for(5, 6).is_none());
    let req = sync_request_for(5, 9).unwrap();
    assert_eq!(req.from_height, 6);
}
