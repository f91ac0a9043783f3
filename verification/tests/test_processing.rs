use oxideye::processing::{calculate_wheel_spins, process_event};
use oxideye::types::{InputEvent, PointerTracker, Stats};

struct TestContext {
    stats: Stats,
    tracker: PointerTracker,
    last_mouse_pos: (f64, f64),
}

impl TestContext {
    fn new() -> Self {
        Self {
            stats: Stats::default(),
            tracker: PointerTracker::default(),
            last_mouse_pos: (0.0, 0.0),
        }
    }

    /// The capture bridge's part of a pointer move: measure the sample's
    /// distance from the reference position, hand the truncated distance to
    /// the aggregator, and move the reference when told to.
    fn pointer_move(&mut self, x: f64, y: f64) {
        let distance = ((x - self.last_mouse_pos.0).powi(2) + (y - self.last_mouse_pos.1).powi(2))
            .sqrt();
        let event = InputEvent::PointerMove { whole_distance: distance as u64 };
        if process_event(event, &mut self.stats, &mut self.tracker) {
            self.last_mouse_pos = (x, y);
        }
    }
}

impl Drop for TestContext {
    fn drop(&mut self) {
        println!(
            "TestContext teardown -> mouse: {}, wheel: {}, buttons: {}, keys: {}",
            self.stats.mouse_distance,
            self.stats.wheel_distance,
            self.stats.button_presses,
            self.stats.key_presses,
        );
    }
}

#[test]
fn test_processing_test_calculate_wheel_spins() {
    assert_eq!(calculate_wheel_spins(5, -2), 7);
    assert_eq!(calculate_wheel_spins(0, 0), 0);
}

#[test]
fn test_processing_test_process_mouse_move() {
    let mut ctx = TestContext::new();

    ctx.pointer_move(0.0, 0.0);
    assert_eq!(ctx.stats.mouse_distance, 0);

    ctx.pointer_move(3.0, 4.0);
    assert_eq!(ctx.stats.mouse_distance, 5);
}

#[test]
fn test_processing_test_process_wheel_event() {
    let mut ctx = TestContext::new();

    process_event(
        InputEvent::WheelScroll { delta_x: 3, delta_y: -4 },
        &mut ctx.stats,
        &mut ctx.tracker,
    );
    assert_eq!(ctx.stats.wheel_distance, 7);
}

#[test]
fn test_processing_test_process_button_press() {
    let mut ctx = TestContext::new();

    process_event(InputEvent::ButtonDown, &mut ctx.stats, &mut ctx.tracker);
    assert_eq!(ctx.stats.button_presses, 1);
}

#[test]
fn test_processing_test_process_key_press() {
    let mut ctx = TestContext::new();

    process_event(InputEvent::KeyDown, &mut ctx.stats, &mut ctx.tracker);
    assert_eq!(ctx.stats.key_presses, 1);
}
