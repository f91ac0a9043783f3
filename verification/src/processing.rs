//! Per-event reduction rules and the merge rule for flush deltas.

use vstd::prelude::*;

use crate::types::{InputEvent, PointerTracker, SnapshotRecord, Stats};

verus! {

/// Magnitude contributed by one wheel-scroll notification: |delta_x| + |delta_y|.
pub open spec fn wheel_magnitude(delta_x: int, delta_y: int) -> int {
    (if delta_x < 0 {
        -delta_x
    } else {
        delta_x
    }) + (if delta_y < 0 {
        -delta_y
    } else {
        delta_y
    })
}

/// Wheel-scroll magnitude of one notification, with no filtering.
pub fn calculate_wheel_spins(delta_x: i64, delta_y: i64) -> (spins: i64)
    requires
        i64::MIN < delta_x,
        i64::MIN < delta_y,
        wheel_magnitude(delta_x as int, delta_y as int) <= i64::MAX,
    ensures
        spins == wheel_magnitude(delta_x as int, delta_y as int),
{
    let ax = if delta_x < 0 {
        -delta_x
    } else {
        delta_x
    };
    let ay = if delta_y < 0 {
        -delta_y
    } else {
        delta_y
    };
    ax + ay
}

/// Applies one event's effect to the counter record.
///
/// Pointer moves follow the jitter filter: the first sample since (re)start
/// only records a reference position and contributes zero distance; a sample
/// whose truncated distance from the reference is zero (that is, below the
/// 1.0 threshold) is discarded without touching the reference; any other
/// sample adds its truncated distance and moves the reference. The returned
/// flag tells the capture bridge whether to adopt the sample's coordinates as
/// the new reference position. Every other event kind either increments
/// exactly one counter or is a no-op, and no event can fail.
pub fn process_event(event: InputEvent, s: &mut Stats, tracker: &mut PointerTracker) -> (reference_moved: bool)
    requires
        old(s).wf(),
        match event {
            InputEvent::PointerMove { whole_distance } => old(tracker).has_reference ==> old(
                s,
            ).mouse_distance + whole_distance <= i64::MAX,
            InputEvent::WheelScroll { delta_x, delta_y } => {
                &&& i64::MIN < delta_x
                &&& i64::MIN < delta_y
                &&& old(s).wheel_distance + wheel_magnitude(delta_x as int, delta_y as int)
                    <= i64::MAX
            },
            InputEvent::ButtonDown => old(s).button_presses < i64::MAX,
            InputEvent::KeyDown => old(s).key_presses < i64::MAX,
            InputEvent::Ignored => true,
        },
    ensures
        final(s).wf(),
        match event {
            InputEvent::PointerMove { whole_distance } => {
                if !old(tracker).has_reference {
                    &&& *final(s) == *old(s)
                    &&& final(tracker).has_reference
                    &&& reference_moved
                } else if whole_distance == 0 {
                    &&& *final(s) == *old(s)
                    &&& *final(tracker) == *old(tracker)
                    &&& !reference_moved
                } else {
                    &&& final(s).mouse_distance == old(s).mouse_distance + whole_distance
                    &&& final(s).wheel_distance == old(s).wheel_distance
                    &&& final(s).button_presses == old(s).button_presses
                    &&& final(s).key_presses == old(s).key_presses
                    &&& *final(tracker) == *old(tracker)
                    &&& reference_moved
                }
            },
            InputEvent::WheelScroll { delta_x, delta_y } => {
                &&& final(s).wheel_distance == old(s).wheel_distance + wheel_magnitude(
                    delta_x as int,
                    delta_y as int,
                )
                &&& final(s).mouse_distance == old(s).mouse_distance
                &&& final(s).button_presses == old(s).button_presses
                &&& final(s).key_presses == old(s).key_presses
                &&& *final(tracker) == *old(tracker)
                &&& !reference_moved
            },
            InputEvent::ButtonDown => {
                &&& final(s).button_presses == old(s).button_presses + 1
                &&& final(s).mouse_distance == old(s).mouse_distance
                &&& final(s).wheel_distance == old(s).wheel_distance
                &&& final(s).key_presses == old(s).key_presses
                &&& *final(tracker) == *old(tracker)
                &&& !reference_moved
            },
            InputEvent::KeyDown => {
                &&& final(s).key_presses == old(s).key_presses + 1
                &&& final(s).mouse_distance == old(s).mouse_distance
                &&& final(s).wheel_distance == old(s).wheel_distance
                &&& final(s).button_presses == old(s).button_presses
                &&& *final(tracker) == *old(tracker)
                &&& !reference_moved
            },
            InputEvent::Ignored => {
                &&& *final(s) == *old(s)
                &&& *final(tracker) == *old(tracker)
                &&& !reference_moved
            },
        },
{
    match event {
        InputEvent::PointerMove { whole_distance } => {
            if !tracker.has_reference {
                tracker.has_reference = true;
                true
            } else if whole_distance == 0 {
                false
            } else {
                s.mouse_distance = s.mouse_distance + (whole_distance as i64);
                true
            }
        },
        InputEvent::WheelScroll { delta_x, delta_y } => {
            s.wheel_distance = s.wheel_distance + calculate_wheel_spins(delta_x, delta_y);
            false
        },
        InputEvent::ButtonDown => {
            s.button_presses = s.button_presses + 1;
            false
        },
        InputEvent::KeyDown => {
            s.key_presses = s.key_presses + 1;
            false
        },
        InputEvent::Ignored => false,
    }
}

/// The merged record: the delta's timestamp replaces the base's, and each
/// counter is the base value plus the delta value.
pub open spec fn spec_merge(existing: SnapshotRecord, update: SnapshotRecord) -> SnapshotRecord {
    SnapshotRecord {
        timestamp: update.timestamp,
        mouse_distance: (existing.mouse_distance + update.mouse_distance) as i64,
        wheel_spins: (existing.wheel_spins + update.wheel_spins) as i64,
        button_presses: (existing.button_presses + update.button_presses) as i64,
        key_presses: (existing.key_presses + update.key_presses) as i64,
    }
}

/// The four counter sums of a merge stay within the machine integer range.
pub open spec fn merge_fits(existing: SnapshotRecord, update: SnapshotRecord) -> bool {
    &&& i64::MIN <= existing.mouse_distance + update.mouse_distance <= i64::MAX
    &&& i64::MIN <= existing.wheel_spins + update.wheel_spins <= i64::MAX
    &&& i64::MIN <= existing.button_presses + update.button_presses <= i64::MAX
    &&& i64::MIN <= existing.key_presses + update.key_presses <= i64::MAX
}

/// One counter under the merge rule: an increment of zero leaves the base
/// untouched, any other increment is added on top of it.
fn merge_counter(base: i64, add: i64) -> (merged: i64)
    requires
        i64::MIN <= base + add <= i64::MAX,
    ensures
        merged == base + add,
{
    if add == 0 {
        base
    } else {
        base + add
    }
}

/// Merges the latest flush delta (`update`) into the running totals
/// (`existing`): the timestamp is always replaced, the counters accumulate.
pub fn merge_stats(existing: SnapshotRecord, update: &SnapshotRecord) -> (merged: SnapshotRecord)
    requires
        merge_fits(existing, *update),
    ensures
        merged == spec_merge(existing, *update),
{
    SnapshotRecord {
        timestamp: update.timestamp,
        mouse_distance: merge_counter(existing.mouse_distance, update.mouse_distance),
        wheel_spins: merge_counter(existing.wheel_spins, update.wheel_spins),
        button_presses: merge_counter(existing.button_presses, update.button_presses),
        key_presses: merge_counter(existing.key_presses, update.key_presses),
    }
}

/// Merging into the empty base yields exactly the delta's values.
pub proof fn lemma_merge_into_empty(update: SnapshotRecord)
    ensures
        spec_merge(SnapshotRecord::spec_empty(), update) == update,
{
}

/// A delta counter of zero leaves the corresponding base counter unchanged.
pub proof fn lemma_merge_zero_counter_keeps_base(existing: SnapshotRecord, update: SnapshotRecord)
    ensures
        update.mouse_distance == 0 ==> spec_merge(existing, update).mouse_distance
            == existing.mouse_distance,
        update.wheel_spins == 0 ==> spec_merge(existing, update).wheel_spins
            == existing.wheel_spins,
        update.button_presses == 0 ==> spec_merge(existing, update).button_presses
            == existing.button_presses,
        update.key_presses == 0 ==> spec_merge(existing, update).key_presses
            == existing.key_presses,
{
}

/// A flush that captured no events (an all-zero delta) changes only the
/// timestamp of the totals; applying it twice, as two consecutive idle flush
/// cycles do, still changes nothing but the timestamp.
pub proof fn lemma_idle_flush_changes_only_timestamp(existing: SnapshotRecord, update: SnapshotRecord)
    requires
        update.mouse_distance == 0,
        update.wheel_spins == 0,
        update.button_presses == 0,
        update.key_presses == 0,
    ensures
        spec_merge(existing, update) == (SnapshotRecord {
            timestamp: update.timestamp,
            ..existing
        }),
{
}

} // verus!
