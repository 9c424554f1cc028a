use vstd::prelude::*;
use crate::headers::{
    ipv4_ok, parse_ipv4, parse_tcp, payload, payload_ok, spec_ipv4, spec_payload, spec_tcp,
    tcp_ok,
};
use crate::http::{is_http_request, lossy_bytes, spec_is_http_request};
use crate::rebuild::{rebuild_packet, spec_rebuild, spec_rebuild_ok};
use crate::rules::{
    apply_rules, default_rules, spec_apply, spec_default_table, ModificationRule,
};
use crate::stats::{ProxyStats, StatsModel};

verus! {

/// The transparent HTTP mangler: an ordered rule table and the TCP port
/// whose traffic it rewrites.
pub struct GatewayProxy {
    pub rules: Vec<ModificationRule>,
    pub target_port: u16,
}

/// A datagram is counted as an HTTP packet: it carries an IPv4 header,
/// the TCP protocol, the target destination port, a nonempty payload, and
/// that payload is classified as an HTTP request.
pub open spec fn spec_counts_http(b: Seq<u8>, port: u16) -> bool {
    let ip_len = spec_ipv4(b).header_len as int;
    let tcp_len = spec_tcp(b, ip_len).header_len as int;
    &&& ipv4_ok(b)
    &&& spec_ipv4(b).protocol == 6
    &&& tcp_ok(b, ip_len)
    &&& spec_tcp(b, ip_len).dest == port
    &&& payload_ok(b, ip_len, tcp_len)
    &&& spec_is_http_request(spec_payload(b, ip_len, tcp_len))
}

/// The payload of a counted datagram.
pub open spec fn spec_pkt_payload(b: Seq<u8>) -> Seq<u8> {
    let ip_len = spec_ipv4(b).header_len as int;
    let tcp_len = spec_tcp(b, ip_len).header_len as int;
    spec_payload(b, ip_len, tcp_len)
}

/// A rule fires on the datagram: it is counted as HTTP and the rule table
/// matches its payload.
pub open spec fn spec_rule_fires(rules: Seq<ModificationRule>, b: Seq<u8>, port: u16) -> bool {
    spec_counts_http(b, port) && spec_apply(
        rules,
        spec_pkt_payload(b),
        lossy_bytes(spec_pkt_payload(b)),
    ).1
}

/// How one processed datagram moves the counters: every datagram bumps
/// `total_packets` and `total_bytes`; a counted HTTP datagram bumps
/// `http_packets`; a fired rule bumps `modified_packets`.
pub open spec fn spec_step(
    s: StatsModel,
    rules: Seq<ModificationRule>,
    b: Seq<u8>,
    port: u16,
) -> StatsModel {
    StatsModel {
        total_packets: s.total_packets + 1,
        total_bytes: s.total_bytes + b.len(),
        http_packets: s.http_packets + if spec_counts_http(b, port) {
            1nat
        } else {
            0nat
        },
        modified_packets: s.modified_packets + if spec_rule_fires(rules, b, port) {
            1nat
        } else {
            0nat
        },
    }
}

/// What processing one datagram emits: a rebuilt datagram exactly when a
/// rule fired and the original could be rebuilt around the transformed
/// payload; nothing otherwise.
pub open spec fn spec_process_result(
    rules: Seq<ModificationRule>,
    b: Seq<u8>,
    port: u16,
) -> Option<Seq<u8>> {
    if !spec_rule_fires(rules, b, port) {
        Option::None
    } else {
        let np = spec_apply(rules, spec_pkt_payload(b), lossy_bytes(spec_pkt_payload(b))).0;
        if spec_rebuild_ok(b, np.len() as int) {
            Option::Some(spec_rebuild(b, np))
        } else {
            Option::None
        }
    }
}

/// What processing one link frame emits: frames of at most the link
/// header length are dropped; otherwise the link header is kept verbatim
/// in front of whatever the datagram pipeline emits.
pub open spec fn spec_frame_result(
    rules: Seq<ModificationRule>,
    frame: Seq<u8>,
    port: u16,
) -> Option<Seq<u8>> {
    if frame.len() <= 14 {
        Option::None
    } else {
        match spec_process_result(rules, frame.skip(14), port) {
            Option::Some(p) => Option::Some(frame.take(14) + p),
            Option::None => Option::None,
        }
    }
}

/// How one link frame moves the counters: a frame of at most the link
/// header length moves nothing; otherwise its datagram is counted.
pub open spec fn spec_frame_step(
    s: StatsModel,
    rules: Seq<ModificationRule>,
    frame: Seq<u8>,
    port: u16,
) -> StatsModel {
    if frame.len() <= 14 {
        s
    } else {
        spec_step(s, rules, frame.skip(14), port)
    }
}

impl GatewayProxy {
    /// A proxy over the default rule table, filtering on `target_port`.
    pub fn new(target_port: u16) -> (r: Self)
        ensures
            r.target_port == target_port,
            spec_default_table(r.rules@),
    {
        GatewayProxy { rules: default_rules(), target_port }
    }

    /// Drive one datagram through the pipeline: count it, parse its
    /// headers, filter on protocol and port, detect HTTP, run the rule
    /// table, and rebuild the datagram when a rule fired.
    pub fn process_packet(&self, data: &[u8], stats: &mut ProxyStats) -> (r: Option<Vec<u8>>)
        requires
            old(stats)@.total_packets < u64::MAX,
            old(stats)@.http_packets < u64::MAX,
            old(stats)@.modified_packets < u64::MAX,
            old(stats)@.total_bytes + data@.len() <= u64::MAX,
        ensures
            final(stats)@ == spec_step(old(stats)@, self.rules@, data@, self.target_port),
            r is Some <==> spec_process_result(self.rules@, data@, self.target_port) is Some,
            r matches Some(v) ==> spec_process_result(self.rules@, data@, self.target_port)
                == Some(v@),
    {
        stats.total_packets = stats.total_packets + 1;
        stats.total_bytes = stats.total_bytes + data.len() as u64;
        let ip_hdr = match parse_ipv4(data) {
            Some(h) => h,
            None => {
                return None;
            },
        };
        let ip_len = ip_hdr.header_len;
        if ip_hdr.protocol != 6 {
            return None;
        }
        let tcp_hdr = match parse_tcp(data, ip_len) {
            Some(h) => h,
            None => {
                return None;
            },
        };
        let tcp_len = tcp_hdr.header_len;
        if tcp_hdr.dest != self.target_port {
            return None;
        }
        let pl = match payload(data, ip_len, tcp_len) {
            Some(p) => p,
            None => {
                return None;
            },
        };
        if !is_http_request(pl) {
            return None;
        }
        stats.http_packets = stats.http_packets + 1;
        let (np, modified) = apply_rules(&self.rules, pl, stats);
        if modified {
            rebuild_packet(data, np.as_slice())
        } else {
            None
        }
    }

    /// Drive one captured link frame through the pipeline: drop it when
    /// it holds no datagram, otherwise process the datagram after the
    /// 14-byte link header and re-attach that header in front of a
    /// rebuilt datagram.
    pub fn process_frame(&self, frame: &[u8], stats: &mut ProxyStats) -> (r: Option<Vec<u8>>)
        requires
            old(stats)@.total_packets < u64::MAX,
            old(stats)@.http_packets < u64::MAX,
            old(stats)@.modified_packets < u64::MAX,
            old(stats)@.total_bytes + frame@.len() <= u64::MAX,
        ensures
            final(stats)@ == spec_frame_step(old(stats)@, self.rules@, frame@, self.target_port),
            r is Some <==> spec_frame_result(self.rules@, frame@, self.target_port) is Some,
            r matches Some(v) ==> spec_frame_result(self.rules@, frame@, self.target_port)
                == Some(v@),
    {
        if frame.len() <= 14 {
            return None;
        }
        let ip_data = vstd::slice::slice_subrange(frame, 14, frame.len());
        proof {
            assert(ip_data@ =~= frame@.skip(14));
        }
        match self.process_packet(ip_data, stats) {
            Some(pkt) => {
                let mut out: Vec<u8> = Vec::new();
                out.extend_from_slice(vstd::slice::slice_subrange(frame, 0, 14));
                out.extend_from_slice(pkt.as_slice());
                proof {
                    assert(out@ =~= frame@.take(14) + pkt@);
                }
                Some(out)
            },
            None => None,
        }
    }
}


/// A datagram that is not TCP is no action for the pipeline: with a valid
/// IPv4 header whose protocol is not TCP, nothing is emitted and
/// `http_packets` does not move, though `total_packets` and `total_bytes`
/// do.
pub proof fn lemma_non_tcp_no_action(
    s: StatsModel,
    rules: Seq<ModificationRule>,
    b: Seq<u8>,
    port: u16,
)
    requires
        ipv4_ok(b),
        spec_ipv4(b).protocol != 6,
    ensures
        spec_process_result(rules, b, port) is None,
        spec_step(s, rules, b, port).http_packets == s.http_packets,
        spec_step(s, rules, b, port).modified_packets == s.modified_packets,
        spec_step(s, rules, b, port).total_packets == s.total_packets + 1,
        spec_step(s, rules, b, port).total_bytes == s.total_bytes + b.len(),
{
}

// ---------------------------------------------------------------------------
// Accumulated counters over a run of datagrams
// ---------------------------------------------------------------------------

/// The counters after a whole sequence of datagrams is processed in
/// order.
pub open spec fn spec_stats_after(
    s: StatsModel,
    rules: Seq<ModificationRule>,
    packets: Seq<Seq<u8>>,
    port: u16,
) -> StatsModel
    decreases packets.len(),
{
    if packets.len() == 0 {
        s
    } else {
        spec_stats_after(spec_step(s, rules, packets[0], port), rules, packets.skip(1), port)
    }
}

/// How many of the datagrams are counted as HTTP.
pub open spec fn spec_count_http(packets: Seq<Seq<u8>>, port: u16) -> nat
    decreases packets.len(),
{
    if packets.len() == 0 {
        0
    } else {
        (if spec_counts_http(packets[0], port) {
            1nat
        } else {
            0nat
        }) + spec_count_http(packets.skip(1), port)
    }
}

/// On how many of the datagrams a rule fires.
pub open spec fn spec_count_fired(
    rules: Seq<ModificationRule>,
    packets: Seq<Seq<u8>>,
    port: u16,
) -> nat
    decreases packets.len(),
{
    if packets.len() == 0 {
        0
    } else {
        (if spec_rule_fires(rules, packets[0], port) {
            1nat
        } else {
            0nat
        }) + spec_count_fired(rules, packets.skip(1), port)
    }
}

/// The bytes the datagrams hold in all.
pub open spec fn spec_sum_len(packets: Seq<Seq<u8>>) -> nat
    decreases packets.len(),
{
    if packets.len() == 0 {
        0
    } else {
        packets[0].len() + spec_sum_len(packets.skip(1))
    }
}

/// The counters tally a run exactly: after any sequence of datagrams,
/// `total_packets` has grown by their number, `total_bytes` by their
/// combined length, `http_packets` by the number counted as HTTP, and
/// `modified_packets` by the number on which a rule fired.
pub proof fn lemma_stats_accumulate(
    s: StatsModel,
    rules: Seq<ModificationRule>,
    packets: Seq<Seq<u8>>,
    port: u16,
)
    ensures
        spec_stats_after(s, rules, packets, port).total_packets == s.total_packets
            + packets.len(),
        spec_stats_after(s, rules, packets, port).total_bytes == s.total_bytes + spec_sum_len(
            packets,
        ),
        spec_stats_after(s, rules, packets, port).http_packets == s.http_packets
            + spec_count_http(packets, port),
        spec_stats_after(s, rules, packets, port).modified_packets == s.modified_packets
            + spec_count_fired(rules, packets, port),
    decreases packets.len(),
{
    if packets.len() > 0 {
        lemma_stats_accumulate(spec_step(s, rules, packets[0], port), rules, packets.skip(1), port);
    }
}

} // verus!
