//! When the cleaner works: it wakes at intervals, has the dead peers
//! removed, and replaces the connection-id secret when its time has come.

use crate::connection_id::rotation_due;
use vstd::prelude::*;

verus! {

/// What the cleaner is to do now.
#[derive(Clone, Copy, Debug, PartialEq, Eq)]
pub struct CleanerTick {
    /// Have every shard and every connection table cleaned.
    pub clean: bool,
    /// Give the connection validators a fresh secret.
    pub rotate_secret: bool,
}

/// The cleaner's clock.
#[derive(Clone, Copy, Debug, PartialEq, Eq)]
pub struct Cleaner {
    last_cleaning: u64,
    last_rotation: u64,
}

impl Cleaner {
    /// The time of the last cleaning pass.
    pub closed spec fn last_cleaning(&self) -> u64 {
        self.last_cleaning
    }

    /// The time at which the secret was last replaced.
    pub closed spec fn last_rotation(&self) -> u64 {
        self.last_rotation
    }

    /// Whether a cleaning pass is due at `now`: the cleaning interval has
    /// passed since the last one.
    pub open spec fn cleaning_due(&self, now: u64, cleaning_interval: u64) -> bool {
        now >= self.last_cleaning() && now - self.last_cleaning() >= cleaning_interval
    }

    /// Whether the secret is to be replaced at `now`: a cleaning pass is due
    /// and half the lifetime of a connection id has passed since the secret
    /// was last replaced.
    pub open spec fn rotation_due(
        &self,
        now: u64,
        cleaning_interval: u64,
        connection_id_lifetime: u64,
    ) -> bool {
        self.cleaning_due(now, cleaning_interval) && now >= self.last_rotation() && now
            - self.last_rotation() >= connection_id_lifetime / 2
    }

    /// A cleaner that starts at `now`.
    pub fn new(now: u64) -> (cleaner: Cleaner)
        ensures
            cleaner.last_cleaning() == now,
            cleaner.last_rotation() == now,
    {
        Cleaner { last_cleaning: now, last_rotation: now }
    }

    /// What is to be done at `now`, and the clock after it.
    pub fn tick(&mut self, now: u64, cleaning_interval: u64, connection_id_lifetime: u64) -> (tick:
        CleanerTick)
        ensures
            tick.clean == old(self).cleaning_due(now, cleaning_interval),
            tick.rotate_secret == old(self).rotation_due(
                now,
                cleaning_interval,
                connection_id_lifetime,
            ),
            final(self).last_cleaning() == if tick.clean {
                now
            } else {
                old(self).last_cleaning()
            },
            final(self).last_rotation() == if tick.rotate_secret {
                now
            } else {
                old(self).last_rotation()
            },
    {
        let clean = now >= self.last_cleaning && now - self.last_cleaning >= cleaning_interval;
        let rotate_secret = clean && rotation_due(self.last_rotation, now, connection_id_lifetime);
        if clean {
            self.last_cleaning = now;
        }
        if rotate_secret {
            self.last_rotation = now;
        }
        CleanerTick { clean, rotate_secret }
    }
}

} // verus!
