//! The event queue and events as documents.

use edge_agent_core::event::{Event, EventQueue};
use edge_agent_core::json::Json;

fn event(kind: &str, payload: Json, priority: u8, source: &str) -> Event {
    Event {
        kind: kind.to_string(),
        payload,
        priority,
        source: source.to_string(),
    }
}

#[test]
fn priority_ordering_higher_runs_first() {
    let mut q = EventQueue::default();
    q.push(event("low", Json::string("low_task"), 1, "sensor"));
    q.push(event("high", Json::string("high_task"), 10, "voice"));
    q.push(event("mid", Json::string("mid_task"), 5, "timer"));

    assert_eq!(q.len(), 3);
    assert!(!q.is_empty());

    assert_eq!(q.pop().unwrap().kind, "high");
    assert_eq!(q.pop().unwrap().kind, "mid");
    assert_eq!(q.pop().unwrap().kind, "low");
    assert!(q.pop().is_none());
    assert!(q.is_empty());
}

#[test]
fn fifo_ordering_for_equal_priorities() {
    let mut q = EventQueue::default();
    q.push(event("first", Json::parse("1").unwrap(), 5, "app"));
    q.push(event("second", Json::parse("2").unwrap(), 5, "app"));
    q.push(event("third", Json::parse("3").unwrap(), 5, "app"));

    assert_eq!(q.pop().unwrap().kind, "first");
    assert_eq!(q.pop().unwrap().kind, "second");
    assert_eq!(q.pop().unwrap().kind, "third");
    assert!(q.pop().is_none());
}

#[test]
fn empty_queue_behavior() {
    let mut q = EventQueue::default();
    assert!(q.is_empty());
    assert_eq!(q.len(), 0);
    assert!(q.pop().is_none());
}

#[test]
fn late_urgent_event_overtakes_in_order() {
    let mut q = EventQueue::default();
    q.push(event("a", Json::null(), 1, ""));
    q.push(event("b", Json::null(), 9, ""));
    q.push(event("c", Json::null(), 9, ""));
    assert_eq!(q.pop().unwrap().kind, "b");
    q.push(event("d", Json::null(), 9, ""));
    assert_eq!(q.pop().unwrap().kind, "c");
    assert_eq!(q.pop().unwrap().kind, "d");
    assert_eq!(q.pop().unwrap().kind, "a");
}

#[test]
fn event_as_document() {
    let e = event("command", Json::string("say \"hi\"\n"), 7, "voice");
    let expected = "{\"kind\":\"command\",\"payload\":\"say \\\"hi\\\"\\n\",\"priority\":7,\"source\":\"voice\"}";
    assert_eq!(e.to_json().text, expected);
    let read: serde_json::Value = serde_json::from_str(&e.to_json().text).unwrap();
    assert_eq!(read.to_string(), expected);
}
