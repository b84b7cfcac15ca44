//! Which local ports the development server may take.
use vstd::prelude::*;

verus! {

/// Tries ports from a preferred one upward.
#[derive(PartialEq, Eq, Structural, Clone, Copy, Debug)]
pub struct PortManager {
    pub preferred_port: u16,
    pub max_attempts: u16,
}

/// The ports to try: from the preferred one, as many as allowed, never past
/// the last port number.
pub open spec fn candidate_range(preferred: int, attempts: int) -> (int, int) {
    (preferred, if preferred + attempts <= 65535 {
        preferred + attempts
    } else {
        65535
    })
}

impl PortManager {
    pub fn new(preferred_port: u16) -> (r: PortManager)
        ensures
            r.preferred_port == preferred_port,
            r.max_attempts == 100,
    {
        PortManager { preferred_port, max_attempts: 100 }
    }

    /// The ports to try, in order.
    pub fn candidate_ports(&self) -> (r: Vec<u16>)
        ensures
            ({
                let (lo, hi) = candidate_range(self.preferred_port as int, self.max_attempts as int);
                &&& r@.len() == if hi > lo {
                    hi - lo
                } else {
                    0
                }
                &&& forall|i: int| 0 <= i < r@.len() ==> (#[trigger] r@[i]) == lo + i
            }),
    {
        let lo = self.preferred_port;
        let hi: u16 = if (self.preferred_port as u32) + (self.max_attempts as u32) <= 65535 {
            self.preferred_port + self.max_attempts
        } else {
            65535
        };
        let mut r: Vec<u16> = Vec::new();
        let mut p: u16 = lo;
        while p < hi
            invariant
                lo <= p <= hi || (hi < lo && p == lo),
                r@.len() == p - lo,
                forall|i: int| 0 <= i < r@.len() ==> (#[trigger] r@[i]) == lo + i,
            decreases hi - p,
        {
            r.push(p);
            p = p + 1;
        }
        r
    }
}

} // verus!
