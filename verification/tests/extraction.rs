use alert_layer::level::Level;
use alert_layer::visitor::{classify, AlertVisitor, FieldValue};

#[test]
fn filtered_severity_skips_field_work() {
    let fields = vec![(String::from("alert"), FieldValue::Bool(true))];
    assert!(classify(Level::Info, Level::Warn, fields).is_none());
    let fields = vec![(String::from("alert"), FieldValue::Bool(true))];
    assert!(classify(Level::Warn, Level::Warn, fields).is_some());
}

#[test]
fn missing_message_falls_back() {
    let record = classify(Level::Error, Level::Warn, Vec::new()).unwrap();
    assert!(!record.is_alert());
    assert!(record.message() == "alert missing message");
}

#[test]
fn boolean_and_opaque_values_coerce_to_text() {
    let fields = vec![
        (String::from("message"), FieldValue::Bool(true)),
        (String::from("count"), FieldValue::Opaque(String::from("3"))),
    ];
    let record = classify(Level::Error, Level::Warn, fields).unwrap();
    assert!(record.message() == "true");
}

#[test]
fn alert_field_present_under_any_value_marks_alert() {
    let fields = vec![(String::from("alert"), FieldValue::Bool(false))];
    let record = classify(Level::Error, Level::Warn, fields).unwrap();
    assert!(record.is_alert());

    let fields = vec![(String::from("alert"), FieldValue::Str(String::from("yes")))];
    let record = classify(Level::Error, Level::Warn, fields).unwrap();
    assert!(record.is_alert());
}

#[test]
fn repeated_name_keeps_last_value() {
    let fields = vec![
        (String::from("message"), FieldValue::Str(String::from("old"))),
        (String::from("message"), FieldValue::Str(String::from("new"))),
    ];
    let record = classify(Level::Error, Level::Warn, fields).unwrap();
    assert!(record.message() == "new");
}

#[test]
fn permuted_fields_give_identical_records() {
    let forwards = vec![
        (String::from("alert"), FieldValue::Bool(true)),
        (String::from("message"), FieldValue::Str(String::from("disk full"))),
        (String::from("dedup_key"), FieldValue::Str(String::from("disk"))),
    ];
    let backwards = vec![
        (String::from("dedup_key"), FieldValue::Str(String::from("disk"))),
        (String::from("message"), FieldValue::Str(String::from("disk full"))),
        (String::from("alert"), FieldValue::Bool(true)),
    ];
    let a = classify(Level::Error, Level::Warn, forwards).unwrap();
    let b = classify(Level::Error, Level::Warn, backwards).unwrap();
    assert_eq!(a.is_alert(), b.is_alert());
    assert!(a.message() == b.message());
    assert_eq!(a.dedup_key(), b.dedup_key());
    assert_eq!(a.level(), b.level());
}

#[test]
fn explicit_dedup_key_overrides_message() {
    let with_key = |msg: &str, key: &str| {
        let mut v = AlertVisitor::new(Level::Error);
        v.record_str(String::from("message"), msg);
        v.record_str(String::from("dedup_key"), key);
        v
    };
    let message_only = |msg: &str| {
        let mut v = AlertVisitor::new(Level::Error);
        v.record_str(String::from("message"), msg);
        v
    };
    assert_eq!(
        with_key("one text", "shared").dedup_key(),
        with_key("other text", "shared").dedup_key(),
    );
    assert_ne!(
        with_key("same text", "one").dedup_key(),
        with_key("same text", "two").dedup_key(),
    );
    assert_eq!(
        message_only("same text").dedup_key(),
        with_key("same text", "same text").dedup_key(),
    );
    assert_ne!(
        message_only("a text").dedup_key(),
        message_only("b text").dedup_key(),
    );
}

#[test]
fn visitor_records_through_each_channel() {
    let mut v = AlertVisitor::new(Level::Warn);
    assert!(!v.is_alert());
    v.record_bool(String::from("alert"), true);
    assert!(v.is_alert());
    v.record_debug(String::from("message"), String::from("rendered"));
    assert!(v.message() == "rendered");
    v.insert(String::from("message"), String::from("replaced"));
    assert!(v.message() == "replaced");
    assert_eq!(*v.level(), Level::Warn);
}
