//! Monitors that watch the progress of the fuzzing loop.

use vstd::prelude::*;

verus! {

#[verifier::external_type_specification]
#[verifier::external_body]
pub struct ExSystemTime(std::time::SystemTime);

/// `std::time::SystemTime::now()`: the clock's reading, of which nothing is stated.
#[verifier::external_body]
fn now() -> std::time::SystemTime {
    std::time::SystemTime::now()
}

/// What a monitor has to report: `delta_iters` iterations ran since the previous report, which
/// was made at `since`, and `num_iters` ran in all.
pub struct MonitorReport {
    pub num_iters: u64,
    pub delta_iters: u64,
    pub since: std::time::SystemTime,
}

/// Watches the fuzzing loop, which tells it on every turn how many iterations have run.
pub trait Monitor: Sized {
    /// Whether the monitor can be told that `num_iters` iterations have run.
    spec fn accepts(&self, num_iters: u64) -> bool;

    fn init() -> Self;

    /// Called on every turn of the loop; returns what is to be reported, if anything.
    fn on_loop(&mut self, num_iters: u64) -> Option<MonitorReport>
        requires
            old(self).accepts(num_iters),
    ;
}

/// A monitor that reports nothing.
pub struct NullMonitor;

/// A monitor that reports each time more than `N` iterations have run since its previous
/// report.
pub struct IterationMonitor<const N: u64> {
    last_time: std::time::SystemTime,
    last_report: u64,
}

impl Monitor for NullMonitor {
    open spec fn accepts(&self, num_iters: u64) -> bool {
        true
    }

    fn init() -> Self {
        NullMonitor
    }

    fn on_loop(&mut self, num_iters: u64) -> (report: Option<MonitorReport>)
        ensures
            report is None,
    {
        None
    }
}

impl<const N: u64> IterationMonitor<N> {
    /// The iteration count at the previous report (0 before the first).
    pub closed spec fn reported(&self) -> u64 {
        self.last_report
    }

    /// When the previous report was made (or the monitor started).
    pub closed spec fn reported_at(&self) -> std::time::SystemTime {
        self.last_time
    }
}

impl<const N: u64> Monitor for IterationMonitor<N> {
    /// The iteration count never goes back below the one last reported.
    open spec fn accepts(&self, num_iters: u64) -> bool {
        num_iters >= self.reported()
    }

    fn init() -> (m: Self)
        ensures
            m.reported() == 0,
    {
        IterationMonitor { last_time: now(), last_report: 0 }
    }

    fn on_loop(&mut self, num_iters: u64) -> (report: Option<MonitorReport>)
        ensures
            num_iters - old(self).reported() > N ==> (report matches Some(r) && r.num_iters
                == num_iters && r.delta_iters == num_iters - old(self).reported() && r.since
                == old(self).reported_at()) && final(self).reported() == num_iters,
            num_iters - old(self).reported() <= N ==> report is None && *final(self) == *old(self),
    {
        let delta_iters = num_iters - self.last_report;
        if delta_iters > N {
            let mut since = now();
            std::mem::swap(&mut self.last_time, &mut since);
            self.last_report = num_iters;
            Some(MonitorReport { num_iters, delta_iters, since })
        } else {
            None
        }
    }
}

} // verus!
