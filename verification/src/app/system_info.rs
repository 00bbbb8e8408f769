//! How many processor cores the work may use.

use vstd::prelude::*;
use crate::numeric::{min_int, max_int};

verus! {

/// Cores allowed when the machine does not say how many it has.
pub const DEFAULT_MAX_CORES: u32 = 4;

/// `sysinfo::System::physical_core_count` (sysinfo crate): the machine's physical cores, or
/// `None` when they cannot be found. It depends on the machine; nothing is stated of it.
#[verifier::external_body]
fn physical_core_count() -> Option<usize> {
    sysinfo::System::physical_core_count().ok()
}

/// The machine's physical cores, when known, and how many of them the work may use.
pub struct CoreLimits {
    available_physical_cores: Option<u32>,
    max_allowed_cores: u32,
}

impl CoreLimits {
    pub closed spec fn available(&self) -> Option<u32> {
        self.available_physical_cores
    }

    pub closed spec fn allowed(&self) -> u32 {
        self.max_allowed_cores
    }

    /// Limits for a machine of `physical_cores` cores: all of them may be used, or four when
    /// the count is unknown.
    pub fn new(physical_cores: Option<u32>) -> (c: CoreLimits)
        ensures
            c.available() == physical_cores,
            c.allowed() == match physical_cores {
                Some(n) => n,
                None => DEFAULT_MAX_CORES,
            },
    {
        let max_allowed_cores = match physical_cores {
            Some(n) => n,
            None => DEFAULT_MAX_CORES,
        };
        CoreLimits { available_physical_cores: physical_cores, max_allowed_cores }
    }

    /// Limits for this machine, as `new` makes them from the physical core count (taken
    /// modulo 2^32 like an `as u32` cast).
    pub fn detect() -> (c: CoreLimits)
        ensures
            c.available() matches Some(n) ==> c.allowed() == n,
            c.available() is None ==> c.allowed() == DEFAULT_MAX_CORES,
    {
        let cores = match physical_core_count() {
            Some(n) => Some(n as u32),
            None => None,
        };
        Self::new(cores)
    }

    /// Allows `cores` cores: at least one, and no more than the machine has when that is known.
    pub fn set_max_allowed_cores(&mut self, cores: u32)
        ensures
            final(self).available() == old(self).available(),
            final(self).allowed() == match old(self).available() {
                Some(n) => min_int(max_int(cores as int, 1), n as int),
                None => max_int(cores as int, 1),
            },
    {
        let mut max_cores = if cores > 1 { cores } else { 1 };
        if let Some(available) = self.available_physical_cores {
            if available < max_cores {
                max_cores = available;
            }
        }
        self.max_allowed_cores = max_cores;
    }

    pub fn max_allowed_cores(&self) -> (n: u32)
        ensures
            n == self.allowed(),
    {
        self.max_allowed_cores
    }

    pub fn available_physical_cores(&self) -> (n: Option<u32>)
        ensures
            n == self.available(),
    {
        self.available_physical_cores
    }
}

/// Whether the drive figures are due for a refresh: `elapsed` since the last one, out of
/// an `interval` between two (both in nanoseconds), has run out.
pub fn drive_refresh_due(elapsed: u128, interval: u128) -> (due: bool)
    ensures
        due == (elapsed >= interval),
{
    elapsed >= interval
}

/// The disk that holds the working directory most deeply: of the disks whose mount point the
/// directory lies under (`holds`), the one whose mount point has the most components
/// (`depths`), the last of them where several have as many, as `Iterator::max_by_key` picks;
/// `None` when no disk holds it.
pub fn deepest_mount(holds: &[bool], depths: &[usize]) -> (r: Option<usize>)
    requires
        holds@.len() == depths@.len(),
    ensures
        match r {
            None => forall|i: int| 0 <= i < holds@.len() ==> !#[trigger] holds@[i],
            Some(k) => {
                &&& k < holds@.len()
                &&& holds@[k as int]
                &&& forall|i: int| 0 <= i < holds@.len() && #[trigger] holds@[i] ==> depths@[i] <= depths@[k as int]
                &&& forall|i: int| k < i < holds@.len() && #[trigger] holds@[i] ==> depths@[i] < depths@[k as int]
            },
        },
{
    let mut best: Option<usize> = None;
    let mut i: usize = 0;
    while i < holds.len()
        invariant
            holds@.len() == depths@.len(),
            i <= holds@.len(),
            match best {
                None => forall|j: int| 0 <= j < i ==> !#[trigger] holds@[j],
                Some(k) => {
                    &&& k < i
                    &&& holds@[k as int]
                    &&& forall|j: int| 0 <= j < i && #[trigger] holds@[j] ==> depths@[j] <= depths@[k as int]
                    &&& forall|j: int| k < j < i && #[trigger] holds@[j] ==> depths@[j] < depths@[k as int]
                },
            },
        decreases holds@.len() - i,
    {
        if holds[i] {
            match best {
                None => {
                    best = Some(i);
                },
                Some(k) => {
                    if depths[i] >= depths[k] {
                        best = Some(i);
                    }
                },
            }
        }
        i += 1;
    }
    best
}

} // verus!
