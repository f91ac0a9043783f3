use oxideye::codec::{parse_snapshot, render_snapshot};
use oxideye::persist::{apply_flush, capture_delta, resolve_snapshot_path};
use oxideye::processing::process_event;
use oxideye::types::{InputEvent, PointerTracker, SnapshotRecord, StatsConfig, Stats};

/// The capture bridge's part of a pointer move, as the daemon runs it.
fn pointer_move(
    stats: &mut Stats,
    tracker: &mut PointerTracker,
    last: &mut (f64, f64),
    x: f64,
    y: f64,
) {
    let distance = ((x - last.0).powi(2) + (y - last.1).powi(2)).sqrt();
    let event = InputEvent::PointerMove { whole_distance: distance as u64 };
    if process_event(event, stats, tracker) {
        *last = (x, y);
    }
}

const SAMPLE_TEXT: &str = "{\"timestamp\":1,\"mouse_distance\":5,\"wheel_spins\":2,\"button_presses\":3,\"key_presses\":4}";

fn sample_record() -> SnapshotRecord {
    SnapshotRecord {
        timestamp: 1,
        mouse_distance: 5,
        wheel_spins: 2,
        button_presses: 3,
        key_presses: 4,
    }
}

#[test]
fn renders_stable_field_order() {
    assert_eq!(render_snapshot(&sample_record()), SAMPLE_TEXT);
}

#[test]
fn parses_rendered_text() {
    assert_eq!(parse_snapshot(SAMPLE_TEXT), Some(sample_record()));
}

#[test]
fn round_trips_extreme_values() {
    let rec = SnapshotRecord {
        timestamp: i64::MAX,
        mouse_distance: 0,
        wheel_spins: 10,
        button_presses: 1_000_000_000_000,
        key_presses: 9,
    };
    let text = render_snapshot(&rec);
    assert_eq!(parse_snapshot(text.as_str()), Some(rec));
}

#[test]
fn rejects_foreign_text() {
    assert_eq!(parse_snapshot(""), None);
    assert_eq!(parse_snapshot("{}"), None);
    assert_eq!(parse_snapshot("not a snapshot"), None);
    // leading zeros are not canonical
    assert_eq!(
        parse_snapshot(
            "{\"timestamp\":01,\"mouse_distance\":5,\"wheel_spins\":2,\"button_presses\":3,\"key_presses\":4}"
        ),
        None
    );
    // negative counters never occur in a snapshot
    assert_eq!(
        parse_snapshot(
            "{\"timestamp\":-1,\"mouse_distance\":5,\"wheel_spins\":2,\"button_presses\":3,\"key_presses\":4}"
        ),
        None
    );
    // a value beyond the machine integer range
    assert_eq!(
        parse_snapshot(
            "{\"timestamp\":9223372036854775808,\"mouse_distance\":5,\"wheel_spins\":2,\"button_presses\":3,\"key_presses\":4}"
        ),
        None
    );
    // trailing content
    let mut text = String::from(SAMPLE_TEXT);
    text.push(' ');
    assert_eq!(parse_snapshot(text.as_str()), None);
}

#[test]
fn first_sample_contributes_zero() {
    let mut stats = Stats::default();
    let mut tracker = PointerTracker::default();
    let mut last = (0.0, 0.0);
    pointer_move(&mut stats, &mut tracker, &mut last, 100.0, 200.0);
    assert_eq!(stats.mouse_distance, 0);
    // the next sample is measured from the recorded reference
    pointer_move(&mut stats, &mut tracker, &mut last, 103.0, 204.0);
    assert_eq!(stats.mouse_distance, 5);
}

#[test]
fn subthreshold_sample_keeps_reference() {
    let mut stats = Stats::default();
    let mut tracker = PointerTracker::default();
    let mut last = (0.0, 0.0);
    pointer_move(&mut stats, &mut tracker, &mut last, 0.0, 0.0);
    pointer_move(&mut stats, &mut tracker, &mut last, 0.0, 0.5);
    assert_eq!(stats.mouse_distance, 0);
    assert_eq!(last, (0.0, 0.0));
    // a later sample is measured from the original reference point
    pointer_move(&mut stats, &mut tracker, &mut last, 3.0, 4.0);
    assert_eq!(stats.mouse_distance, 5);
}

#[test]
fn ignored_event_is_a_no_op() {
    let mut stats = Stats::default();
    let mut tracker = PointerTracker::default();
    process_event(InputEvent::Ignored, &mut stats, &mut tracker);
    assert_eq!(stats, Stats::default());
}

#[test]
fn wheel_magnitude_at_extremes() {
    assert_eq!(
        oxideye::processing::calculate_wheel_spins(i64::MIN + 1, 0),
        i64::MAX
    );
}

#[test]
fn capture_delta_resets_counters() {
    let mut stats = Stats {
        mouse_distance: 12,
        wheel_distance: 34,
        button_presses: 5,
        key_presses: 6,
    };
    let delta = capture_delta(&mut stats, 777);
    assert_eq!(delta.timestamp, 777);
    assert_eq!(delta.mouse_distance, 12);
    assert_eq!(delta.wheel_spins, 34);
    assert_eq!(delta.button_presses, 5);
    assert_eq!(delta.key_presses, 6);
    assert_eq!(stats, Stats::default());
}

#[test]
fn end_to_end_flush_from_empty_file() {
    let mut stats = Stats::default();
    let mut tracker = PointerTracker::default();
    let mut last = (0.0, 0.0);
    pointer_move(&mut stats, &mut tracker, &mut last, 0.0, 0.0);
    pointer_move(&mut stats, &mut tracker, &mut last, 3.0, 4.0);
    process_event(InputEvent::WheelScroll { delta_x: 3, delta_y: -4 }, &mut stats, &mut tracker);
    process_event(InputEvent::ButtonDown, &mut stats, &mut tracker);
    process_event(InputEvent::KeyDown, &mut stats, &mut tracker);

    let delta = capture_delta(&mut stats, 1234);
    assert_eq!(stats, Stats::default());

    let text = apply_flush("", &delta).unwrap();
    assert_eq!(
        parse_snapshot(text.as_str()),
        Some(SnapshotRecord {
            timestamp: 1234,
            mouse_distance: 5,
            wheel_spins: 7,
            button_presses: 1,
            key_presses: 1,
        })
    );
}

#[test]
fn idle_flushes_change_only_timestamp() {
    let text0 = render_snapshot(&sample_record());
    let idle1 = SnapshotRecord { timestamp: 50, ..SnapshotRecord::default() };
    let text1 = apply_flush(text0.as_str(), &idle1).unwrap();
    assert_eq!(
        parse_snapshot(text1.as_str()),
        Some(SnapshotRecord { timestamp: 50, ..sample_record() })
    );
    let idle2 = SnapshotRecord { timestamp: 60, ..SnapshotRecord::default() };
    let text2 = apply_flush(text1.as_str(), &idle2).unwrap();
    assert_eq!(
        parse_snapshot(text2.as_str()),
        Some(SnapshotRecord { timestamp: 60, ..sample_record() })
    );
}

#[test]
fn flush_accumulates_over_existing_file() {
    let base = render_snapshot(&sample_record());
    let delta = SnapshotRecord {
        timestamp: 9,
        mouse_distance: 10,
        wheel_spins: 0,
        button_presses: 1,
        key_presses: 0,
    };
    let text = apply_flush(base.as_str(), &delta).unwrap();
    assert_eq!(
        parse_snapshot(text.as_str()),
        Some(SnapshotRecord {
            timestamp: 9,
            mouse_distance: 15,
            wheel_spins: 2,
            button_presses: 4,
            key_presses: 4,
        })
    );
}

#[test]
fn flush_treats_foreign_content_as_fresh_base() {
    let delta = SnapshotRecord { timestamp: 7, key_presses: 2, ..SnapshotRecord::default() };
    let text = apply_flush("some old notes\n", &delta).unwrap();
    assert_eq!(
        parse_snapshot(text.as_str()),
        Some(SnapshotRecord { timestamp: 7, key_presses: 2, ..SnapshotRecord::default() })
    );
}

#[test]
fn flush_refuses_counter_overflow() {
    let base = render_snapshot(&SnapshotRecord {
        timestamp: 1,
        mouse_distance: i64::MAX,
        wheel_spins: 0,
        button_presses: 0,
        key_presses: 0,
    });
    let delta = SnapshotRecord { timestamp: 2, mouse_distance: 1, ..SnapshotRecord::default() };
    assert_eq!(apply_flush(base.as_str(), &delta), None);
}

#[test]
fn resolves_segmented_path() {
    let cfg = StatsConfig { dir: String::from("/var/lib/stats"), postfix: String::from(".json") };
    let path = resolve_snapshot_path(&cfg, "2024-01-02");
    assert_eq!(path, "/var/lib/stats/2024-01-02.json");
}
