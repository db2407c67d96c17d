//! The decisions of the background scheduler: what one cycle does with the
//! settings that it finds.
//!
//! The scheduler itself is a loop that never ends: it reads the settings,
//! asks [`plan_cycle`] what to do, mirrors if told to, sleeps for as long as
//! told, and begins again. Whether the mirror succeeds plays no part in
//! what follows it.

use crate::state::{Settings, SyncState};
use vstd::prelude::*;

verus! {

/// The seconds that the scheduler waits after a cycle in which monitoring
/// was off, so that switching it on takes effect soon.
pub const IDLE_WAIT_SECONDS: u64 = 1;

/// A mirror that the scheduler is to run.
#[derive(Clone, Debug, PartialEq, Eq)]
pub struct MirrorJob {
    pub source: String,
    pub destination: String,
}

/// What the scheduler does in one cycle: the mirror to run first, if any,
/// and the seconds to sleep afterwards.
#[derive(Clone, Debug, PartialEq, Eq)]
pub struct Cycle {
    pub job: Option<MirrorJob>,
    pub wait_seconds: u64,
}

impl Settings {
    /// Both folders are chosen.
    pub open spec fn configured(self) -> bool {
        self.source.len() > 0 && self.destination.len() > 0
    }

    /// A cycle that finds these settings mirrors: monitoring is on and both
    /// folders are chosen.
    pub open spec fn mirrors(self) -> bool {
        self.monitoring && self.configured()
    }

    /// The seconds that a cycle that finds these settings sleeps: the
    /// interval while monitoring is on, whether or not it mirrored, and
    /// the idle wait while it is off.
    pub open spec fn wait(self) -> u64 {
        if self.monitoring {
            self.interval
        } else {
            IDLE_WAIT_SECONDS
        }
    }
}

/// Plans one cycle from the settings as they stand at its start.
///
/// The cycle mirrors exactly when monitoring is on and both folders are
/// chosen, and then from and into the folders as they stand now. The sleep
/// is fixed now as well: an interval that is set while the mirror runs
/// takes effect with the next cycle.
pub fn plan_cycle(state: &SyncState) -> (cycle: Cycle)
    ensures
        cycle.wait_seconds == state@.wait(),
        match cycle.job {
            Some(job) => state@.mirrors() && job.source@ == state@.source && job.destination@
                == state@.destination,
            None => !state@.mirrors(),
        },
{
    let (monitoring, interval, source, destination) = state.get_snapshot();
    if monitoring {
        let configured = !source.as_str().is_empty() && !destination.as_str().is_empty();
        let job = if configured {
            Some(MirrorJob { source, destination })
        } else {
            None
        };
        Cycle { job, wait_seconds: interval }
    } else {
        Cycle { job: None, wait_seconds: IDLE_WAIT_SECONDS }
    }
}

/// The number of mirrors that the scheduler starts over successive cycles,
/// given the settings that each cycle finds.
pub open spec fn mirrors_started(samples: Seq<Settings>) -> nat
    decreases samples.len(),
{
    if samples.len() == 0 {
        0
    } else {
        let earlier = mirrors_started(samples.drop_last());
        if samples.last().mirrors() {
            earlier + 1
        } else {
            earlier
        }
    }
}

/// The seconds that the scheduler sleeps over successive cycles, given the
/// settings that each cycle finds.
pub open spec fn seconds_slept(samples: Seq<Settings>) -> nat
    decreases samples.len(),
{
    if samples.len() == 0 {
        0
    } else {
        seconds_slept(samples.drop_last()) + samples.last().wait() as nat
    }
}

/// One more cycle adds its own mirror, if it mirrors, and its own sleep to
/// those of the cycles before it.
proof fn lemma_one_more_cycle(samples: Seq<Settings>, cycle: int)
    requires
        0 <= cycle < samples.len(),
    ensures
        mirrors_started(samples.take(cycle + 1)) == mirrors_started(samples.take(cycle)) + (
        if samples[cycle].mirrors() {
            1nat
        } else {
            0nat
        }),
        seconds_slept(samples.take(cycle + 1)) == seconds_slept(samples.take(cycle))
            + samples[cycle].wait(),
{
    assert(samples.take(cycle + 1).drop_last() =~= samples.take(cycle));
}

/// While monitoring is off nothing is mirrored, however long that lasts:
/// over any number of cycles that all find monitoring off, no mirror is
/// started, and each of them sleeps the idle wait.
pub proof fn law_no_mirror_while_monitoring_is_off(samples: Seq<Settings>)
    requires
        forall|i: int| 0 <= i < samples.len() ==> !(#[trigger] samples[i]).monitoring,
    ensures
        mirrors_started(samples) == 0,
        seconds_slept(samples) == samples.len() * IDLE_WAIT_SECONDS,
    decreases samples.len(),
{
    if samples.len() > 0 {
        law_no_mirror_while_monitoring_is_off(samples.drop_last());
    }
}

/// While a folder is missing nothing is mirrored: over any number of cycles
/// that all find the source or the destination empty, no mirror is started,
/// whether monitoring is on or off.
pub proof fn law_no_mirror_without_folders(samples: Seq<Settings>)
    requires
        forall|i: int| 0 <= i < samples.len() ==> !(#[trigger] samples[i]).configured(),
    ensures
        mirrors_started(samples) == 0,
    decreases samples.len(),
{
    if samples.len() > 0 {
        law_no_mirror_without_folders(samples.drop_last());
    }
}

/// Switching monitoring on takes effect with the next cycle, one idle wait
/// later: where a cycle finds monitoring off and the next one finds it on
/// with both folders chosen, the scheduler sleeps the idle wait between the
/// two, and the second one starts a mirror.
pub proof fn law_switching_on_takes_effect_next_cycle(samples: Seq<Settings>, cycle: int)
    requires
        0 <= cycle,
        cycle + 1 < samples.len(),
        !samples[cycle].monitoring,
        samples[cycle + 1].mirrors(),
    ensures
        seconds_slept(samples.take(cycle + 1)) == seconds_slept(samples.take(cycle))
            + IDLE_WAIT_SECONDS,
        mirrors_started(samples.take(cycle + 2)) == mirrors_started(samples.take(cycle + 1)) + 1,
{
    lemma_one_more_cycle(samples, cycle);
    lemma_one_more_cycle(samples, cycle + 1);
}

/// Switching monitoring off stops the mirrors: where every cycle from
/// `cycle` on finds monitoring off, no mirror is started after the ones
/// that the cycles before `cycle` started.
pub proof fn law_switching_off_stops_mirrors(samples: Seq<Settings>, cycle: int)
    requires
        0 <= cycle <= samples.len(),
        forall|i: int| cycle <= i < samples.len() ==> !(#[trigger] samples[i]).monitoring,
    ensures
        mirrors_started(samples) == mirrors_started(samples.take(cycle)),
    decreases samples.len() - cycle,
{
    if cycle < samples.len() {
        lemma_one_more_cycle(samples, cycle);
        law_switching_off_stops_mirrors(samples, cycle + 1);
    } else {
        assert(samples.take(cycle) =~= samples);
    }
}

/// While monitoring is on and both folders are chosen every cycle mirrors,
/// and two mirrors are one interval apart, not counting the time that a
/// mirror itself takes: over cycles that all find the settings so, as many
/// mirrors are started as there are cycles, and the sleep after each is the
/// interval that it found.
pub proof fn law_every_active_cycle_mirrors(samples: Seq<Settings>)
    requires
        forall|i: int| 0 <= i < samples.len() ==> (#[trigger] samples[i]).mirrors(),
    ensures
        mirrors_started(samples) == samples.len(),
        forall|i: int|
            0 <= i < samples.len() ==> (#[trigger] samples[i]).wait() == samples[i].interval,
    decreases samples.len(),
{
    if samples.len() > 0 {
        law_every_active_cycle_mirrors(samples.drop_last());
    }
}

} // verus!
