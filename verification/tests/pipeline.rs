use std::cell::RefCell;

use alert_layer::handler::AlertHandler;
use alert_layer::level::Level;
use alert_layer::visitor::FieldValue;
use alert_layer::{AlertLayer, Outcome};

struct RecordingHandler {
    calls: RefCell<Vec<(Level, String)>>,
}

impl RecordingHandler {
    fn new() -> RecordingHandler {
        RecordingHandler { calls: RefCell::new(Vec::new()) }
    }
}

impl AlertHandler for RecordingHandler {
    type Error = ();

    fn handle_alert(&self, level: &Level, msg: &str) -> Result<(), ()> {
        self.calls.borrow_mut().push((*level, msg.to_string()));
        Ok(())
    }
}

struct FailingHandler;

impl AlertHandler for FailingHandler {
    type Error = String;

    fn handle_alert(&self, _level: &Level, _msg: &str) -> Result<(), String> {
        Err(String::from("delivery refused"))
    }
}

fn disk_full_fields() -> Vec<(String, FieldValue)> {
    vec![
        (String::from("alert"), FieldValue::Bool(true)),
        (String::from("message"), FieldValue::Str(String::from("disk full"))),
    ]
}

#[test]
fn test_expected_message() {
    let mut layer = AlertLayer::new(Level::Warn, 1_000, 100);
    let fields = vec![
        (String::from("alert"), FieldValue::Bool(true)),
        (String::from("message"), FieldValue::Str(String::from("test message"))),
    ];
    let record = alert_layer::visitor::classify(Level::Error, Level::Warn, fields).unwrap();
    assert!(record.message() == "test message");

    let fields = vec![
        (String::from("alert"), FieldValue::Bool(true)),
        (String::from("message"), FieldValue::Str(String::from("test message"))),
    ];
    assert_eq!(layer.on_event(Level::Error, fields, 0), Outcome::Enqueued);
    let (level, msg) = layer.pop_next().unwrap();
    assert_eq!(level, Level::Error);
    assert_eq!(msg, "ERROR: test message");
}

#[test]
fn duplicate_within_window_delivered_once() {
    let mut layer = AlertLayer::new(Level::Warn, 1_800_000, 100);
    assert_eq!(layer.on_event(Level::Error, disk_full_fields(), 0), Outcome::Enqueued);
    assert_eq!(layer.on_event(Level::Error, disk_full_fields(), 500), Outcome::Suppressed);

    let handler = RecordingHandler::new();
    assert!(layer.dispatch_next(&handler).is_some());
    assert!(layer.dispatch_next(&handler).is_none());

    let calls = handler.calls.borrow();
    assert_eq!(calls.len(), 1);
    assert_eq!(calls[0].0, Level::Error);
    assert_eq!(calls[0].1, "ERROR: disk full");
}

#[test]
fn repeat_after_window_delivered_again() {
    let mut layer = AlertLayer::new(Level::Warn, 1_000, 100);
    assert_eq!(layer.on_event(Level::Error, disk_full_fields(), 0), Outcome::Enqueued);
    assert_eq!(layer.on_event(Level::Error, disk_full_fields(), 1_100), Outcome::Enqueued);

    let handler = RecordingHandler::new();
    assert!(layer.dispatch_next(&handler).is_some());
    assert!(layer.dispatch_next(&handler).is_some());
    assert!(layer.dispatch_next(&handler).is_none());

    let calls = handler.calls.borrow();
    assert_eq!(calls.len(), 2);
    assert_eq!(calls[0].1, "ERROR: disk full");
    assert_eq!(calls[1].1, "ERROR: disk full");
}

#[test]
fn below_severity_bound_never_delivered() {
    let mut layer = AlertLayer::new(Level::Warn, 1_000, 100);
    let fields = vec![
        (String::from("alert"), FieldValue::Bool(true)),
        (String::from("message"), FieldValue::Str(String::from("noisy"))),
    ];
    assert_eq!(layer.on_event(Level::Info, fields, 0), Outcome::Dropped);
    assert_eq!(layer.queue_len(), 0);

    let handler = RecordingHandler::new();
    assert!(layer.dispatch_next(&handler).is_none());
    assert_eq!(handler.calls.borrow().len(), 0);
}

#[test]
fn not_an_alert_is_dropped() {
    let mut layer = AlertLayer::new(Level::Warn, 1_000, 100);
    let fields = vec![(String::from("message"), FieldValue::Str(String::from("plain log")))];
    assert_eq!(layer.on_event(Level::Error, fields, 0), Outcome::Dropped);
    assert_eq!(layer.queue_len(), 0);
}

#[test]
fn full_queue_drops_excess_alerts() {
    let mut layer = AlertLayer::new(Level::Warn, 1_800_000, 1);
    let alert = |key: &str| {
        vec![
            (String::from("alert"), FieldValue::Bool(true)),
            (String::from("dedup_key"), FieldValue::Str(String::from(key))),
        ]
    };
    assert_eq!(layer.on_event(Level::Error, alert("a"), 0), Outcome::Enqueued);
    assert_eq!(layer.on_event(Level::Error, alert("b"), 1), Outcome::DroppedBackpressure);
    assert_eq!(layer.on_event(Level::Error, alert("c"), 2), Outcome::DroppedBackpressure);
    assert_eq!(layer.queue_len(), 1);

    let handler = RecordingHandler::new();
    assert!(layer.dispatch_next(&handler).is_some());
    assert!(layer.dispatch_next(&handler).is_none());
    assert_eq!(handler.calls.borrow().len(), 1);
}

#[test]
fn same_dedup_key_different_messages_are_duplicates() {
    let mut layer = AlertLayer::new(Level::Warn, 1_800_000, 100);
    let alert = |msg: &str| {
        vec![
            (String::from("alert"), FieldValue::Bool(true)),
            (String::from("message"), FieldValue::Str(String::from(msg))),
            (String::from("dedup_key"), FieldValue::Str(String::from("shared"))),
        ]
    };
    assert_eq!(layer.on_event(Level::Error, alert("first text"), 0), Outcome::Enqueued);
    assert_eq!(layer.on_event(Level::Error, alert("second text"), 1), Outcome::Suppressed);
}

#[test]
fn same_message_different_dedup_keys_are_distinct() {
    let mut layer = AlertLayer::new(Level::Warn, 1_800_000, 100);
    let alert = |key: &str| {
        vec![
            (String::from("alert"), FieldValue::Bool(true)),
            (String::from("message"), FieldValue::Str(String::from("same text"))),
            (String::from("dedup_key"), FieldValue::Str(String::from(key))),
        ]
    };
    assert_eq!(layer.on_event(Level::Error, alert("one"), 0), Outcome::Enqueued);
    assert_eq!(layer.on_event(Level::Error, alert("two"), 1), Outcome::Enqueued);
    assert_eq!(layer.queue_len(), 2);
}

#[test]
fn failed_delivery_is_terminal_for_that_record() {
    let mut layer = AlertLayer::new(Level::Warn, 1_800_000, 100);
    assert_eq!(layer.on_event(Level::Error, disk_full_fields(), 0), Outcome::Enqueued);

    let handler = FailingHandler;
    let result = layer.dispatch_next(&handler).unwrap();
    assert_eq!(result, Err(String::from("delivery refused")));
    assert_eq!(layer.queue_len(), 0);
    assert!(layer.dispatch_next(&handler).is_none());
}

#[test]
fn deliveries_keep_enqueue_order() {
    let mut layer = AlertLayer::new(Level::Warn, 1_800_000, 100);
    let alert = |key: &str, msg: &str| {
        vec![
            (String::from("alert"), FieldValue::Bool(true)),
            (String::from("message"), FieldValue::Str(String::from(msg))),
            (String::from("dedup_key"), FieldValue::Str(String::from(key))),
        ]
    };
    assert_eq!(layer.on_event(Level::Warn, alert("a", "first"), 0), Outcome::Enqueued);
    assert_eq!(layer.on_event(Level::Error, alert("b", "second"), 1), Outcome::Enqueued);

    let handler = RecordingHandler::new();
    assert!(layer.dispatch_next(&handler).is_some());
    assert!(layer.dispatch_next(&handler).is_some());
    let calls = handler.calls.borrow();
    assert_eq!(calls[0].1, "WARN: first");
    assert_eq!(calls[1].1, "ERROR: second");
}
