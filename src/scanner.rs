//! State of an active topology scan: its interface, reply timeout, whether
//! it runs, and its progress.
use vstd::prelude::*;

verus! {

pub const DEFAULT_SCAN_TIMEOUT_MS: u64 = 1000;

pub struct TopologyScanner {
    pub interface_name: String,
    pub timeout_ms: u64,
    pub running: bool,
    /// Percent of the targets probed, 0 to 100.
    pub progress: u32,
}

pub struct InterfaceInfo {
    pub name: String,
    pub mac: Option<String>,
    pub ipv4_addresses: Vec<String>,
    pub ipv6_addresses: Vec<String>,
    pub is_up: bool,
    pub is_running: bool,
}

impl TopologyScanner {
    pub fn new(interface: &str) -> (r: TopologyScanner)
        ensures
            r.interface_name@ == interface@,
            r.timeout_ms == DEFAULT_SCAN_TIMEOUT_MS,
            !r.running,
            r.progress == 0,
    {
        TopologyScanner {
            interface_name: String::from_str(interface),
            timeout_ms: DEFAULT_SCAN_TIMEOUT_MS,
            running: false,
            progress: 0,
        }
    }

    pub fn with_timeout(self, timeout_ms: u64) -> (r: TopologyScanner)
        ensures
            r.timeout_ms == timeout_ms,
            r.interface_name == self.interface_name,
            r.running == self.running,
            r.progress == self.progress,
    {
        TopologyScanner { timeout_ms, ..self }
    }

    pub fn get_progress(&self) -> (r: u32)
        ensures
            r == self.progress,
    {
        self.progress
    }

    pub fn is_running(&self) -> (r: bool)
        ensures
            r == self.running,
    {
        self.running
    }

    /// Asks a running scan to stop.
    pub fn stop(&mut self)
        ensures
            !final(self).running,
            final(self).progress == old(self).progress,
            final(self).timeout_ms == old(self).timeout_ms,
            final(self).interface_name == old(self).interface_name,
    {
        self.running = false;
    }

    /// Progress after probing `done` of `total` targets, in whole percent.
    pub fn set_progress(&mut self, done: u32, total: u32)
        requires
            done <= total,
        ensures
            final(self).progress == (if total == 0 { 100 } else { done as int * 100 / total as int }),
            final(self).running == old(self).running,
    {
        if total == 0 {
            self.progress = 100;
        } else {
            let q: u64 = (done as u64 * 100) / total as u64;
            assert(q <= 100) by (nonlinear_arith)
                requires q == (done * 100) / (total as int), done <= total, total > 0;
            self.progress = q as u32;
        }
    }
}

} // verus!
