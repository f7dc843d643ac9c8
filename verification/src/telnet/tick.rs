//! The beat of the world.

use vstd::prelude::*;

use crate::engine::Engine;
use crate::store::StoreError;

verus! {

/// Advance the world once and take an interval snapshot if one is due. The tick
/// is both the game quantum and the command-processing beat: each tick drains
/// the intent queue. Snapshot cadence is independent (clock-gated in
/// `maybe_snapshot`). Tells whether a snapshot was committed.
pub fn beat(engine: &mut Engine) -> (r: Result<bool, StoreError>)
    requires
        old(engine)@.tick < u64::MAX,
        old(engine)@.drain_count < u64::MAX,
    ensures
        exists|now: i64|
            #[trigger] (old(engine)@.time)(now) && old(engine)@.ticked().snapshotted(
                final(engine)@,
                now,
                r,
            ),
{
    let _ = engine.tick();
    engine.maybe_snapshot()
}

} // verus!
