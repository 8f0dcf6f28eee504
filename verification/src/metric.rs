//! Request statistics, gathered around the service and reported by the
//! embedding program.

use vstd::prelude::*;

verus! {

/// The statistics of the server so far: request and response counters and
/// the fastest and slowest observed handling times, in microseconds.
#[derive(Debug)]
pub struct Stats {
    pub slowest_req: Option<u64>,
    pub fastest_req: Option<u64>,
    pub num_req_bytes: u32,
    pub num_resp_bytes: u32,
    pub num_reqs: u32,
    pub num_ipv4: u32,
    pub num_ipv6: u32,
    pub num_udp: u32,
}

/// Saturating addition on the counters.
pub open spec fn sat_add(a: u32, b: u32) -> u32 {
    if a + b > u32::MAX {
        u32::MAX
    } else {
        (a + b) as u32
    }
}

impl Stats {
    /// Fresh statistics: every counter zero, no time observed yet.
    pub fn new() -> (r: Stats)
        ensures
            r.slowest_req is None,
            r.fastest_req is None,
            r.num_req_bytes == 0,
            r.num_resp_bytes == 0,
            r.num_reqs == 0,
            r.num_ipv4 == 0,
            r.num_ipv6 == 0,
            r.num_udp == 0,
    {
        Stats {
            slowest_req: None,
            fastest_req: None,
            num_req_bytes: 0,
            num_resp_bytes: 0,
            num_reqs: 0,
            num_ipv4: 0,
            num_ipv6: 0,
            num_udp: 0,
        }
    }

    /// Accounts one received request.
    pub fn record_request(&mut self, bytes: u32, udp: bool, ipv4: bool)
        ensures
            final(self).num_reqs == sat_add(old(self).num_reqs, 1),
            final(self).num_req_bytes == sat_add(old(self).num_req_bytes, bytes),
            final(self).num_udp == (if udp {
                sat_add(old(self).num_udp, 1)
            } else {
                old(self).num_udp
            }),
            final(self).num_ipv4 == (if ipv4 {
                sat_add(old(self).num_ipv4, 1)
            } else {
                old(self).num_ipv4
            }),
            final(self).num_ipv6 == (if ipv4 {
                old(self).num_ipv6
            } else {
                sat_add(old(self).num_ipv6, 1)
            }),
            final(self).num_resp_bytes == old(self).num_resp_bytes,
            final(self).fastest_req == old(self).fastest_req,
            final(self).slowest_req == old(self).slowest_req,
    {
        self.num_reqs = saturating_add_u32(self.num_reqs, 1);
        self.num_req_bytes = saturating_add_u32(self.num_req_bytes, bytes);
        if udp {
            self.num_udp = saturating_add_u32(self.num_udp, 1);
        }
        if ipv4 {
            self.num_ipv4 = saturating_add_u32(self.num_ipv4, 1);
        } else {
            self.num_ipv6 = saturating_add_u32(self.num_ipv6, 1);
        }
    }

    /// Accounts one sent response and its handling time.
    pub fn record_response(&mut self, bytes: u32, duration_micros: u64)
        ensures
            final(self).num_resp_bytes == sat_add(old(self).num_resp_bytes, bytes),
            final(self).fastest_req == Some(
                match old(self).fastest_req {
                    Some(f) => if duration_micros < f {
                        duration_micros
                    } else {
                        f
                    },
                    None => duration_micros,
                },
            ),
            final(self).slowest_req == Some(
                match old(self).slowest_req {
                    Some(sl) => if duration_micros > sl {
                        duration_micros
                    } else {
                        sl
                    },
                    None => duration_micros,
                },
            ),
            final(self).num_reqs == old(self).num_reqs,
            final(self).num_req_bytes == old(self).num_req_bytes,
            final(self).num_udp == old(self).num_udp,
            final(self).num_ipv4 == old(self).num_ipv4,
            final(self).num_ipv6 == old(self).num_ipv6,
    {
        self.num_resp_bytes = saturating_add_u32(self.num_resp_bytes, bytes);
        self.fastest_req = Some(
            match self.fastest_req {
                Some(f) => if duration_micros < f {
                    duration_micros
                } else {
                    f
                },
                None => duration_micros,
            },
        );
        self.slowest_req = Some(
            match self.slowest_req {
                Some(sl) => if duration_micros > sl {
                    duration_micros
                } else {
                    sl
                },
                None => duration_micros,
            },
        );
    }
}

/// Adds without wrapping: the counters stick at their maximum.
fn saturating_add_u32(a: u32, b: u32) -> (r: u32)
    ensures
        r == sat_add(a, b),
{
    if a <= u32::MAX - b {
        a + b
    } else {
        u32::MAX
    }
}

} // verus!
