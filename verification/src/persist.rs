//! The computational steps of one flush cycle: capture-and-reset of the
//! counters, snapshot path resolution, and folding a delta into snapshot
//! text.

use vstd::prelude::*;
use vstd::string::StringExecFns;

use crate::codec::{lemma_render_injective, parse_snapshot, render_snapshot, spec_render};
use crate::processing::{merge_fits, merge_stats, spec_merge};
use crate::types::{SnapshotRecord, Stats, StatsConfig};

verus! {

/// The merge base that a snapshot text denotes: the unique well-formed record
/// the text renders, or the empty record where the text is no snapshot at all
/// (an empty or missing file, a truncated write, foreign content).
pub open spec fn spec_base_of(text: Seq<char>) -> SnapshotRecord {
    if exists|rec: SnapshotRecord| rec.wf() && text == spec_render(rec) {
        choose|rec: SnapshotRecord| rec.wf() && text == spec_render(rec)
    } else {
        SnapshotRecord::spec_empty()
    }
}

/// Reading back a rendered record yields that record.
pub proof fn lemma_snapshot_text_round_trip(rec: SnapshotRecord)
    requires
        rec.wf(),
    ensures
        spec_base_of(spec_render(rec)) == rec,
{
    let text = spec_render(rec);
    assert(rec.wf() && text == spec_render(rec));
    let picked = choose|r2: SnapshotRecord| r2.wf() && text == spec_render(r2);
    assert(picked.wf() && text == spec_render(picked));
    lemma_render_injective(picked, rec);
}

/// Captures the current counters together with the flush timestamp as one
/// delta and resets every counter to zero, in a single step. Run under the
/// exclusion mechanism shared with the aggregator, this is the atomic
/// read-and-reset that keeps deltas from being double-counted or skipped.
pub fn capture_delta(s: &mut Stats, timestamp: i64) -> (delta: SnapshotRecord)
    requires
        old(s).wf(),
        0 <= timestamp,
    ensures
        final(s).all_zero(),
        delta.wf(),
        delta.timestamp == timestamp,
        delta.mouse_distance == old(s).mouse_distance,
        delta.wheel_spins == old(s).wheel_distance,
        delta.button_presses == old(s).button_presses,
        delta.key_presses == old(s).key_presses,
{
    let delta = SnapshotRecord {
        timestamp,
        mouse_distance: s.mouse_distance,
        wheel_spins: s.wheel_distance,
        button_presses: s.button_presses,
        key_presses: s.key_presses,
    };
    s.mouse_distance = 0;
    s.wheel_distance = 0;
    s.button_presses = 0;
    s.key_presses = 0;
    delta
}

/// Two consecutive flushes that captured no events change nothing on disk
/// but the timestamp: folding an all-zero delta into a snapshot text yields
/// the text of the same record with only the timestamp replaced, and folding
/// a second one does the same again.
pub proof fn lemma_idle_flushes_leave_totals_on_disk(base: SnapshotRecord, t1: i64, t2: i64)
    requires
        base.wf(),
        0 <= t1,
        0 <= t2,
    ensures
        ({
            let idle1 = SnapshotRecord { timestamp: t1, ..SnapshotRecord::spec_empty() };
            let idle2 = SnapshotRecord { timestamp: t2, ..SnapshotRecord::spec_empty() };
            let disk1 = spec_render(spec_merge(spec_base_of(spec_render(base)), idle1));
            let disk2 = spec_render(spec_merge(spec_base_of(disk1), idle2));
            &&& disk1 == spec_render(SnapshotRecord { timestamp: t1, ..base })
            &&& disk2 == spec_render(SnapshotRecord { timestamp: t2, ..base })
        }),
{
    let step1 = SnapshotRecord { timestamp: t1, ..base };
    lemma_snapshot_text_round_trip(base);
    lemma_snapshot_text_round_trip(step1);
}

/// Folds one flush delta into the text of the target snapshot file.
///
/// The existing text is read back as a record, with the empty record standing
/// in where the text is empty or no parsable snapshot; the delta is merged
/// into that base; and the merged record's text is returned, to be written
/// back in place of the old contents. Where a counter sum would leave the
/// machine integer range, nothing is produced.
pub fn apply_flush(text: &str, delta: &SnapshotRecord) -> (out: Option<String>)
    requires
        delta.wf(),
    ensures
        match out {
            Some(t) => {
                &&& merge_fits(spec_base_of(text@), *delta)
                &&& t@ == spec_render(spec_merge(spec_base_of(text@), *delta))
            },
            None => !merge_fits(spec_base_of(text@), *delta),
        },
{
    let base = match parse_snapshot(text) {
        Some(rec) => {
            proof {
                assert(rec.wf() && text@ == spec_render(rec));
                let picked = choose|r2: SnapshotRecord| r2.wf() && text@ == spec_render(r2);
                assert(picked.wf() && text@ == spec_render(picked));
                lemma_render_injective(picked, rec);
            }
            rec
        },
        None => {
            proof {
                assert(!exists|r2: SnapshotRecord| r2.wf() && text@ == spec_render(r2));
            }
            SnapshotRecord::default()
        },
    };
    if base.mouse_distance > i64::MAX - delta.mouse_distance {
        return None;
    }
    if base.wheel_spins > i64::MAX - delta.wheel_spins {
        return None;
    }
    if base.button_presses > i64::MAX - delta.button_presses {
        return None;
    }
    if base.key_presses > i64::MAX - delta.key_presses {
        return None;
    }
    let merged = merge_stats(base, delta);
    Some(render_snapshot(&merged))
}

/// The target snapshot file for one flush in date-segmented mode: the
/// configured directory, the calendar day, and the configured postfix.
pub fn resolve_snapshot_path(cfg: &StatsConfig, date: &str) -> (path: String)
    ensures
        path@ == cfg.dir@ + "/"@ + date@ + cfg.postfix@,
{
    let mut path = cfg.dir.clone();
    path.append("/");
    path.append(date);
    path.append(cfg.postfix.as_str());
    path
}

} // verus!
