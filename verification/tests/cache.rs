use alert_layer::cache::DedupCache;
use alert_layer::handler::format_alert_message;
use alert_layer::level::Level;

#[test]
fn first_occurrence_admitted_repeats_suppressed() {
    let mut cache = DedupCache::new();
    let key = [7u8; 32];
    assert!(cache.try_admit(&key, 0, 1_000));
    assert!(!cache.try_admit(&key, 1, 1_000));
    assert!(!cache.try_admit(&key, 500, 1_000));
    assert!(!cache.try_admit(&key, 1_000, 1_000));
}

#[test]
fn readmitted_after_window_elapsed() {
    let mut cache = DedupCache::new();
    let key = [7u8; 32];
    assert!(cache.try_admit(&key, 0, 1_000));
    assert!(cache.try_admit(&key, 1_001, 1_000));
    assert!(!cache.try_admit(&key, 1_500, 1_000));
}

#[test]
fn purge_removes_exactly_expired_entries() {
    let mut cache = DedupCache::new();
    let ka = [1u8; 32];
    let kb = [2u8; 32];
    assert!(cache.try_admit(&ka, 0, 100));
    assert!(cache.try_admit(&kb, 50, 100));

    cache.purge(100);

    assert!(cache.try_admit(&ka, 100, 100));
    assert!(!cache.try_admit(&kb, 120, 100));
}

#[test]
fn without_purge_boundary_repeat_stays_suppressed() {
    let mut cache = DedupCache::new();
    let key = [1u8; 32];
    assert!(cache.try_admit(&key, 0, 100));
    assert!(!cache.try_admit(&key, 100, 100));
}

#[test]
fn distinct_keys_do_not_interfere() {
    let mut cache = DedupCache::new();
    let ka = [0u8; 32];
    let mut kb = [0u8; 32];
    kb[31] = 1;
    assert!(cache.try_admit(&ka, 0, 1_000));
    assert!(cache.try_admit(&kb, 1, 1_000));
    assert!(!cache.try_admit(&ka, 2, 1_000));
    assert!(!cache.try_admit(&kb, 3, 1_000));
}

#[test]
fn formats_severity_then_message() {
    assert_eq!(format_alert_message(Level::Error, "disk full"), "ERROR: disk full");
    assert_eq!(format_alert_message(Level::Warn, "low space"), "WARN: low space");
    assert_eq!(format_alert_message(Level::Trace, ""), "TRACE: ");
    assert_eq!(format_alert_message(Level::Debug, "x"), "DEBUG: x");
    assert_eq!(format_alert_message(Level::Info, "y"), "INFO: y");
}

#[test]
fn severity_order_is_trace_to_error() {
    let levels = [Level::Trace, Level::Debug, Level::Info, Level::Warn, Level::Error];
    for (i, a) in levels.iter().enumerate() {
        for (j, b) in levels.iter().enumerate() {
            assert_eq!(a.at_least(*b), i >= j);
        }
    }
    assert_eq!(Level::Error.as_str(), "ERROR");
    assert_eq!(Level::Trace.as_str(), "TRACE");
}
