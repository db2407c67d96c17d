//! The settings that the command surface writes and the scheduler reads.

use vstd::prelude::*;

verus! {

/// The seconds between two cycles of the scheduler until another interval
/// is set.
pub const DEFAULT_POLL_INTERVAL_SECONDS: u64 = 5;

/// The four settings as a mathematical value.
pub struct Settings {
    /// Whether the scheduler is to mirror.
    pub monitoring: bool,
    /// The seconds that the scheduler waits after a cycle in which
    /// monitoring was on.
    pub interval: u64,
    /// The folder to mirror from; empty while none is chosen.
    pub source: Seq<char>,
    /// The folder to mirror into; empty while none is chosen.
    pub destination: Seq<char>,
}

impl Settings {
    /// The settings of a process that has just started: monitoring off, the
    /// default interval, no folders.
    pub open spec fn initial() -> Settings {
        Settings {
            monitoring: false,
            interval: DEFAULT_POLL_INTERVAL_SECONDS,
            source: Seq::empty(),
            destination: Seq::empty(),
        }
    }
}

/// The settings of one process. Each operation reads or writes them in one
/// piece, so whoever shares a `SyncState` behind a lock, and holds the lock
/// for one operation at a time, never sees a setting half written.
pub struct SyncState {
    is_monitoring: bool,
    polling_frequency: u64,
    source_folder: String,
    destination_folder: String,
}

impl View for SyncState {
    type V = Settings;

    closed spec fn view(&self) -> Settings {
        Settings {
            monitoring: self.is_monitoring,
            interval: self.polling_frequency,
            source: self.source_folder@,
            destination: self.destination_folder@,
        }
    }
}

impl SyncState {
    /// The settings of a process that has just started.
    pub fn new() -> (state: SyncState)
        ensures
            state@ == Settings::initial(),
    {
        SyncState {
            is_monitoring: false,
            polling_frequency: DEFAULT_POLL_INTERVAL_SECONDS,
            source_folder: String::new(),
            destination_folder: String::new(),
        }
    }

    /// All four settings as they stand: the monitoring flag, the interval
    /// in seconds, the source folder and the destination folder.
    pub fn get_snapshot(&self) -> (snapshot: (bool, u64, String, String))
        ensures
            snapshot.0 == self@.monitoring,
            snapshot.1 == self@.interval,
            snapshot.2@ == self@.source,
            snapshot.3@ == self@.destination,
    {
        (
            self.is_monitoring,
            self.polling_frequency,
            self.source_folder.clone(),
            self.destination_folder.clone(),
        )
    }

    /// Switches monitoring on or off and leaves the rest alone.
    pub fn set_monitoring(&mut self, enabled: bool)
        ensures
            final(self)@ == (Settings { monitoring: enabled, ..old(self)@ }),
    {
        self.is_monitoring = enabled;
    }

    /// Sets the interval and leaves the rest alone.
    pub fn set_poll_interval(&mut self, seconds: u64)
        ensures
            final(self)@ == (Settings { interval: seconds, ..old(self)@ }),
    {
        self.polling_frequency = seconds;
    }

    /// Sets the source folder and leaves the rest alone.
    pub fn set_source(&mut self, path: String)
        ensures
            final(self)@ == (Settings { source: path@, ..old(self)@ }),
    {
        self.source_folder = path;
    }

    /// Sets the destination folder and leaves the rest alone.
    pub fn set_destination(&mut self, path: String)
        ensures
            final(self)@ == (Settings { destination: path@, ..old(self)@ }),
    {
        self.destination_folder = path;
    }
}

} // verus!
