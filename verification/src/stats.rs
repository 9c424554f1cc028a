use vstd::prelude::*;

verus! {

/// Mathematical model of the shared counters: four monotonically
/// increasing tallies.
pub ghost struct StatsModel {
    pub total_packets: nat,
    pub http_packets: nat,
    pub modified_packets: nat,
    pub total_bytes: nat,
}

/// The shared counters: every captured datagram bumps `total_packets` and
/// `total_bytes`, every payload classified as HTTP bumps `http_packets`,
/// and every fired rule bumps `modified_packets`.
pub struct ProxyStats {
    pub total_packets: u64,
    pub http_packets: u64,
    pub modified_packets: u64,
    pub total_bytes: u64,
}

impl View for ProxyStats {
    type V = StatsModel;

    open spec fn view(&self) -> StatsModel {
        StatsModel {
            total_packets: self.total_packets as nat,
            http_packets: self.http_packets as nat,
            modified_packets: self.modified_packets as nat,
            total_bytes: self.total_bytes as nat,
        }
    }
}

impl ProxyStats {
    /// Fresh counters, all zero.
    pub fn new() -> (r: Self)
        ensures
            r@.total_packets == 0,
            r@.http_packets == 0,
            r@.modified_packets == 0,
            r@.total_bytes == 0,
    {
        ProxyStats { total_packets: 0, http_packets: 0, modified_packets: 0, total_bytes: 0 }
    }
}

} // verus!
