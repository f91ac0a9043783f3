//! Data model: in-memory counters, pointer-tracking state, typed input
//! events, snapshot records, and the configuration surface.

use vstd::prelude::*;

verus! {

/// The in-memory counter record owned by the aggregation pipeline.
///
/// Invariant between flushes: every counter is non-negative and only grows;
/// a flush captures the four values and resets them to zero in one step.
#[derive(Clone, Copy, PartialEq, Eq, Structural, Debug)]
pub struct Stats {
    pub mouse_distance: i64,
    pub wheel_distance: i64,
    pub button_presses: i64,
    pub key_presses: i64,
}

impl Stats {
    /// Counters never go negative.
    pub open spec fn wf(self) -> bool {
        &&& 0 <= self.mouse_distance
        &&& 0 <= self.wheel_distance
        &&& 0 <= self.button_presses
        &&& 0 <= self.key_presses
    }

    /// All four counters are zero, as right after a flush or at start.
    pub open spec fn all_zero(self) -> bool {
        &&& self.mouse_distance == 0
        &&& self.wheel_distance == 0
        &&& self.button_presses == 0
        &&& self.key_presses == 0
    }
}

impl Default for Stats {
    /// A fresh counter record holds zero in every field.
    fn default() -> (s: Stats)
        ensures
            s.all_zero(),
    {
        Stats { mouse_distance: 0, wheel_distance: 0, button_presses: 0, key_presses: 0 }
    }
}

/// Ephemeral pointer-tracking state, private to the aggregator.
///
/// Only the "has a reference position been recorded since (re)start" flag is
/// kept here; the reference coordinates themselves stay with the capture
/// bridge, which measures each new sample's distance from them and is told by
/// the aggregator when to move them.
#[derive(Clone, Copy, PartialEq, Eq, Structural, Debug)]
pub struct PointerTracker {
    pub has_reference: bool,
}

impl Default for PointerTracker {
    /// At (re)start no reference position has been recorded yet.
    fn default() -> (t: PointerTracker)
        ensures
            !t.has_reference,
    {
        PointerTracker { has_reference: false }
    }
}

/// One typed input notification, as the aggregator consumes it.
///
/// On a pointer move, `whole_distance` is the Euclidean distance from the
/// current reference position to the new sample, truncated toward zero to an
/// integer; the capture bridge computes it from the device coordinates. It
/// carries no information on the first sample after (re)start, when no
/// reference position exists yet.
#[derive(Clone, Copy, PartialEq, Eq, Structural, Debug)]
pub enum InputEvent {
    PointerMove { whole_distance: u64 },
    WheelScroll { delta_x: i64, delta_y: i64 },
    ButtonDown,
    KeyDown,
    /// Any other notification kind (releases and the like): observed, but by
    /// policy it has no counter effect.
    Ignored,
}

/// One snapshot record: the cumulative on-disk totals, or one flush delta.
///
/// `timestamp` is the epoch time of the most recent successful flush; the
/// four counters are sums of all previously merged deltas.
#[derive(Clone, Copy, PartialEq, Eq, Structural, Debug)]
pub struct SnapshotRecord {
    pub timestamp: i64,
    pub mouse_distance: i64,
    pub wheel_spins: i64,
    pub button_presses: i64,
    pub key_presses: i64,
}

impl SnapshotRecord {
    /// Every field of a snapshot is non-negative.
    pub open spec fn wf(self) -> bool {
        &&& 0 <= self.timestamp
        &&& 0 <= self.mouse_distance
        &&& 0 <= self.wheel_spins
        &&& 0 <= self.button_presses
        &&& 0 <= self.key_presses
    }

    /// The empty record: the merge base when no parsable snapshot exists yet.
    pub open spec fn spec_empty() -> SnapshotRecord {
        SnapshotRecord {
            timestamp: 0,
            mouse_distance: 0,
            wheel_spins: 0,
            button_presses: 0,
            key_presses: 0,
        }
    }
}

impl Default for SnapshotRecord {
    /// A fresh snapshot record holds zero in every field.
    fn default() -> (r: SnapshotRecord)
        ensures
            r == SnapshotRecord::spec_empty(),
    {
        SnapshotRecord {
            timestamp: 0,
            mouse_distance: 0,
            wheel_spins: 0,
            button_presses: 0,
            key_presses: 0,
        }
    }
}

/// Snapshot placement: date-segmented files under `dir`, each named after the
/// calendar day with `postfix` appended.
#[derive(Clone, Debug)]
pub struct StatsConfig {
    pub dir: String,
    pub postfix: String,
}

/// The recognized configuration surface.
#[derive(Clone, Debug)]
pub struct Config {
    pub stats: StatsConfig,
}

/// The daemon control surface: start the pipeline or stop a running daemon.
#[derive(Clone, Debug)]
pub enum Commands {
    Start { config: String, log_file: String, log_level: String, period_ms: u64 },
    Stop,
}

/// A parsed command line.
#[derive(Clone, Debug)]
pub struct Cli {
    pub command: Commands,
}

} // verus!
