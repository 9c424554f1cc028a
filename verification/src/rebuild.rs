use vstd::prelude::*;
use crate::checksum::{checksum_range, lemma_checksum_verification, lemma_sum16_bound, spec_checksum, sum16};
use crate::headers::{be16, ipv4_ok, parse_ipv4, parse_tcp, spec_ipv4, spec_tcp, tcp_ok};

verus! {

/// A datagram can be rebuilt around a replacement payload: both headers
/// parse, each declares at least its minimal fixed length, the declared
/// headers lie within the captured bytes, and the rebuilt buffer fits in
/// a machine length.
pub open spec fn spec_rebuild_ok(b: Seq<u8>, np_len: int) -> bool {
    &&& ipv4_ok(b)
    &&& tcp_ok(b, spec_ipv4(b).header_len as int)
    &&& 20 <= spec_ipv4(b).header_len
    &&& 20 <= spec_tcp(b, spec_ipv4(b).header_len as int).header_len
    &&& spec_ipv4(b).header_len + spec_tcp(b, spec_ipv4(b).header_len as int).header_len
        <= b.len()
    &&& spec_ipv4(b).header_len + spec_tcp(b, spec_ipv4(b).header_len as int).header_len + np_len
        <= usize::MAX
}

/// The rebuilt datagram: both original headers verbatim, then the new
/// payload; the total-length field rewritten to the new length (reduced
/// to 16 bits); the IPv4 checksum recomputed over the header bytes with
/// its field zeroed first; the TCP checksum recomputed over the TCP
/// header and payload with its field zeroed first, without the
/// pseudo-header (see `lemma_rebuild_verification`).
pub open spec fn spec_rebuild(b: Seq<u8>, np: Seq<u8>) -> Seq<u8>
    recommends
        spec_rebuild_ok(b, np.len() as int),
{
    let ip_len = spec_ipv4(b).header_len as int;
    let tcp_len = spec_tcp(b, ip_len).header_len as int;
    let total = ip_len + tcp_len + np.len();
    let tl = total % 0x10000;
    let base = b.take(ip_len + tcp_len) + np;
    let s1 = base.update(2, (tl / 256) as u8).update(3, (tl % 256) as u8);
    let z1 = s1.update(10, 0u8).update(11, 0u8);
    let c1 = spec_checksum(z1.take(ip_len));
    let s2 = z1.update(10, (c1 / 256) as u8).update(11, (c1 % 256) as u8);
    let z2 = s2.update(ip_len + 16, 0u8).update(ip_len + 17, 0u8);
    let c2 = spec_checksum(z2.skip(ip_len));
    z2.update(ip_len + 16, (c2 / 256) as u8).update(ip_len + 17, (c2 % 256) as u8)
}

/// What the rebuilt datagram guarantees: its length is the two header
/// lengths plus the payload length; its total-length field spells that
/// length reduced to 16 bits; its payload is the replacement payload;
/// every header byte outside the three rewritten fields is kept; and both
/// rewritten checksums satisfy the verification identity: the folded
/// one's-complement sum over the span each covers is `0xFFFF`. The TCP
/// checksum deliberately covers the TCP header and payload alone, without
/// the pseudo-header the TCP specification prescribes, so the identity
/// holds over exactly that span.
pub proof fn lemma_rebuild_verification(b: Seq<u8>, np: Seq<u8>)
    requires
        spec_rebuild_ok(b, np.len() as int),
    ensures
        ({
            let ip_len = spec_ipv4(b).header_len as int;
            let tcp_len = spec_tcp(b, ip_len).header_len as int;
            let pkt = spec_rebuild(b, np);
            &&& pkt.len() == ip_len + tcp_len + np.len()
            &&& be16(pkt, 2) == (ip_len + tcp_len + np.len()) % 0x10000
            &&& sum16(pkt.take(ip_len)) == 0xFFFF
            &&& sum16(pkt.skip(ip_len)) == 0xFFFF
            &&& pkt.skip(ip_len + tcp_len) =~= np
            &&& forall|k: int|
                0 <= k < ip_len + tcp_len && k != 2 && k != 3 && k != 10 && k != 11 && k != ip_len
                    + 16 && k != ip_len + 17 ==> pkt[k] == b[k]
        }),
{
    let ip_len = spec_ipv4(b).header_len as int;
    let tcp_len = spec_tcp(b, ip_len).header_len as int;
    let total = ip_len + tcp_len + np.len();
    let tl = total % 0x10000;
    let base = b.take(ip_len + tcp_len) + np;
    let s1 = base.update(2, (tl / 256) as u8).update(3, (tl % 256) as u8);
    let z1 = s1.update(10, 0u8).update(11, 0u8);
    let c1 = spec_checksum(z1.take(ip_len));
    let s2 = z1.update(10, (c1 / 256) as u8).update(11, (c1 % 256) as u8);
    let z2 = s2.update(ip_len + 16, 0u8).update(ip_len + 17, 0u8);
    let c2 = spec_checksum(z2.skip(ip_len));
    let pkt = z2.update(ip_len + 16, (c2 / 256) as u8).update(ip_len + 17, (c2 % 256) as u8);
    assert(pkt.len() == total);
    // The total-length field is not touched by the later updates.
    assert(pkt[2] == (tl / 256) as u8);
    assert(pkt[3] == (tl % 256) as u8);
    lemma_sum16_bound(z1.take(ip_len));
    lemma_sum16_bound(z2.skip(ip_len));
    assert(be16(pkt, 2) == tl);
    // IPv4 header checksum identity.
    assert(z1.take(ip_len)[10] == 0);
    assert(z1.take(ip_len)[11] == 0);
    lemma_checksum_verification(z1.take(ip_len), 10);
    assert(s2.take(ip_len) =~= z1.take(ip_len).update(10, (c1 / 256) as u8).update(
        11,
        (c1 % 256) as u8,
    ));
    assert(pkt.take(ip_len) =~= s2.take(ip_len));
    assert(sum16(pkt.take(ip_len)) == 0xFFFF);
    // TCP checksum identity over the header-and-payload span.
    assert(z2.skip(ip_len).len() == tcp_len + np.len());
    assert(z2.skip(ip_len)[16] == z2[ip_len + 16]);
    assert(z2.skip(ip_len)[16] == 0);
    assert(z2.skip(ip_len)[17] == 0);
    lemma_checksum_verification(z2.skip(ip_len), 16);
    assert(pkt.skip(ip_len) =~= z2.skip(ip_len).update(16, (c2 / 256) as u8).update(
        17,
        (c2 % 256) as u8,
    ));
    assert(sum16(pkt.skip(ip_len)) == 0xFFFF);
    // The replacement payload is kept verbatim.
    assert(pkt.skip(ip_len + tcp_len) =~= np);
}

/// Rebuild a datagram around a replacement payload: copy both headers,
/// append the payload, rewrite the total-length field, and recompute both
/// checksums. Absent exactly when the original datagram's headers cannot
/// be re-read or lie outside the captured bytes.
pub fn rebuild_packet(data: &[u8], new_payload: &[u8]) -> (r: Option<Vec<u8>>)
    ensures
        r is Some <==> spec_rebuild_ok(data@, new_payload@.len() as int),
        r matches Some(v) ==> v@ == spec_rebuild(data@, new_payload@),
{
    let ip_hdr = match parse_ipv4(data) {
        Some(h) => h,
        None => {
            return None;
        },
    };
    let ip_len = ip_hdr.header_len;
    let tcp_hdr = match parse_tcp(data, ip_len) {
        Some(h) => h,
        None => {
            return None;
        },
    };
    let tcp_len = tcp_hdr.header_len;
    if ip_len < 20 || tcp_len < 20 {
        return None;
    }
    if ip_len > data.len() || tcp_len > data.len() - ip_len {
        return None;
    }
    if new_payload.len() > usize::MAX - ip_len - tcp_len {
        return None;
    }
    let total = ip_len + tcp_len + new_payload.len();
    let ghost ip_l = ip_len as int;
    let ghost tcp_l = tcp_len as int;
    let mut pkt: Vec<u8> = Vec::new();
    pkt.extend_from_slice(vstd::slice::slice_subrange(data, 0, ip_len + tcp_len));
    pkt.extend_from_slice(new_payload);
    let ghost base = data@.take(ip_l + tcp_l) + new_payload@;
    proof {
        assert(pkt@ =~= base);
    }
    let tl: u16 = (total % 0x10000) as u16;
    let ghost tli = (ip_l + tcp_l + new_payload@.len()) % 0x10000;
    pkt[2] = (tl / 256) as u8;
    pkt[3] = (tl % 256) as u8;
    let ghost s1 = base.update(2, (tli / 256) as u8).update(3, (tli % 256) as u8);
    proof {
        assert(pkt@ =~= s1);
    }
    pkt[10] = 0;
    pkt[11] = 0;
    let ghost z1 = s1.update(10, 0u8).update(11, 0u8);
    proof {
        assert(pkt@ =~= z1);
    }
    let c1 = checksum_range(pkt.as_slice(), 0, ip_len);
    proof {
        assert(pkt@.subrange(0, ip_l) =~= z1.take(ip_l));
    }
    pkt[10] = (c1 / 256) as u8;
    pkt[11] = (c1 % 256) as u8;
    let ghost c1i = spec_checksum(z1.take(ip_l));
    let ghost s2 = z1.update(10, (c1i / 256) as u8).update(11, (c1i % 256) as u8);
    proof {
        assert(pkt@ =~= s2);
    }
    pkt[ip_len + 16] = 0;
    pkt[ip_len + 17] = 0;
    let ghost z2 = s2.update(ip_l + 16, 0u8).update(ip_l + 17, 0u8);
    proof {
        assert(pkt@ =~= z2);
    }
    let c2 = checksum_range(pkt.as_slice(), ip_len, total);
    proof {
        assert(pkt@.subrange(ip_l, total as int) =~= z2.skip(ip_l));
    }
    pkt[ip_len + 16] = (c2 / 256) as u8;
    pkt[ip_len + 17] = (c2 % 256) as u8;
    let ghost c2i = spec_checksum(z2.skip(ip_l));
    proof {
        assert(pkt@ =~= z2.update(ip_l + 16, (c2i / 256) as u8).update(
            ip_l + 17,
            (c2i % 256) as u8,
        ));
        assert(pkt@ == spec_rebuild(data@, new_payload@));
    }
    Some(pkt)
}

} // verus!
