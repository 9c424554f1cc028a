use vstd::prelude::*;

verus! {

/// Big-endian 16-bit field at offset `i`.
pub open spec fn be16(b: Seq<u8>, i: int) -> u16
    recommends
        0 <= i,
        i + 2 <= b.len(),
{
    (b[i] * 256 + b[i + 1]) as u16
}

/// Big-endian 32-bit field at offset `i`.
pub open spec fn be32(b: Seq<u8>, i: int) -> u32
    recommends
        0 <= i,
        i + 4 <= b.len(),
{
    (b[i] * 0x1000000 + b[i + 1] * 0x10000 + b[i + 2] * 0x100 + b[i + 3]) as u32
}

/// The fixed part of an IPv4 header, read out of the datagram bytes.
/// `header_len` is the full declared header length in bytes, options
/// included: four times the header-length nibble.
pub struct Ipv4Header {
    pub version: u8,
    pub header_len: usize,
    pub total_len: u16,
    pub protocol: u8,
    pub checksum: u16,
    pub saddr: u32,
    pub daddr: u32,
}

/// The fixed part of a TCP header. `header_len` is the full declared
/// header length in bytes: four times the data-offset nibble.
pub struct TcpHeader {
    pub source: u16,
    pub dest: u16,
    pub seq: u32,
    pub ack_seq: u32,
    pub header_len: usize,
    pub flags: u8,
    pub checksum: u16,
}

/// The minimal fixed IPv4 header size in bytes.
pub open spec fn ipv4_min_len() -> int {
    20
}

/// The minimal fixed TCP header size in bytes.
pub open spec fn tcp_min_len() -> int {
    20
}

/// A buffer holds a parsable IPv4 header: the minimal fixed header is
/// present and the version nibble is 4.
pub open spec fn ipv4_ok(b: Seq<u8>) -> bool {
    b.len() >= ipv4_min_len() && b[0] / 16 == 4
}

/// The IPv4 header fields as the bytes spell them.
pub open spec fn spec_ipv4(b: Seq<u8>) -> Ipv4Header
    recommends
        b.len() >= ipv4_min_len(),
{
    Ipv4Header {
        version: (b[0] / 16) as u8,
        header_len: ((b[0] % 16) * 4) as usize,
        total_len: be16(b, 2),
        protocol: b[9],
        checksum: be16(b, 10),
        saddr: be32(b, 12),
        daddr: be32(b, 16),
    }
}

/// A TCP header can be read at offset `ip_len`: the minimal fixed header
/// fits in the remaining bytes.
pub open spec fn tcp_ok(b: Seq<u8>, ip_len: int) -> bool {
    0 <= ip_len && b.len() >= ip_len + tcp_min_len()
}

/// The TCP header fields at offset `ip_len`, as the bytes spell them.
pub open spec fn spec_tcp(b: Seq<u8>, ip_len: int) -> TcpHeader
    recommends
        tcp_ok(b, ip_len),
{
    TcpHeader {
        source: be16(b, ip_len),
        dest: be16(b, ip_len + 2),
        seq: be32(b, ip_len + 4),
        ack_seq: be32(b, ip_len + 8),
        header_len: ((b[ip_len + 12] / 16) * 4) as usize,
        flags: b[ip_len + 13],
        checksum: be16(b, ip_len + 16),
    }
}

/// Read the IPv4 header at the front of a datagram. Absent when fewer
/// bytes than the minimal fixed header are present or the version nibble
/// is not 4; never reads out of bounds.
pub fn parse_ipv4(data: &[u8]) -> (r: Option<Ipv4Header>)
    ensures
        r == if ipv4_ok(data@) {
            Some(spec_ipv4(data@))
        } else {
            Option::<Ipv4Header>::None
        },
{
    if data.len() < 20 {
        return None;
    }
    if data[0] / 16 != 4 {
        return None;
    }
    Some(
        Ipv4Header {
            version: data[0] / 16,
            header_len: ((data[0] % 16) as usize) * 4,
            total_len: (data[2] as u16) * 256 + (data[3] as u16),
            protocol: data[9],
            checksum: (data[10] as u16) * 256 + (data[11] as u16),
            saddr: (data[12] as u32) * 0x1000000 + (data[13] as u32) * 0x10000 + (
            data[14] as u32) * 0x100 + (data[15] as u32),
            daddr: (data[16] as u32) * 0x1000000 + (data[17] as u32) * 0x10000 + (
            data[18] as u32) * 0x100 + (data[19] as u32),
        },
    )
}

/// Read the TCP header that follows an IPv4 header of `ip_len` bytes.
/// Absent when fewer bytes than the minimal fixed TCP header remain;
/// never reads out of bounds.
pub fn parse_tcp(data: &[u8], ip_len: usize) -> (r: Option<TcpHeader>)
    ensures
        r == if tcp_ok(data@, ip_len as int) {
            Some(spec_tcp(data@, ip_len as int))
        } else {
            Option::<TcpHeader>::None
        },
{
    if data.len() < ip_len {
        return None;
    }
    if data.len() - ip_len < 20 {
        return None;
    }
    Some(
        TcpHeader {
            source: (data[ip_len] as u16) * 256 + (data[ip_len + 1] as u16),
            dest: (data[ip_len + 2] as u16) * 256 + (data[ip_len + 3] as u16),
            seq: (data[ip_len + 4] as u32) * 0x1000000 + (data[ip_len + 5] as u32) * 0x10000 + (
            data[ip_len + 6] as u32) * 0x100 + (data[ip_len + 7] as u32),
            ack_seq: (data[ip_len + 8] as u32) * 0x1000000 + (data[ip_len + 9] as u32) * 0x10000 + (
            data[ip_len + 10] as u32) * 0x100 + (data[ip_len + 11] as u32),
            header_len: ((data[ip_len + 12] / 16) as usize) * 4,
            flags: data[ip_len + 13],
            checksum: (data[ip_len + 16] as u16) * 256 + (data[ip_len + 17] as u16),
        },
    )
}

/// A payload follows the two headers: the combined header length is
/// strictly below the captured length.
pub open spec fn payload_ok(b: Seq<u8>, ip_len: int, tcp_len: int) -> bool {
    0 <= ip_len && 0 <= tcp_len && ip_len + tcp_len < b.len()
}

/// The payload bytes after the two headers.
pub open spec fn spec_payload(b: Seq<u8>, ip_len: int, tcp_len: int) -> Seq<u8>
    recommends
        payload_ok(b, ip_len, tcp_len),
{
    b.skip(ip_len + tcp_len)
}

/// The bytes following the two headers; absent when the combined header
/// length reaches or passes the end of the captured bytes.
pub fn payload<'a>(data: &'a [u8], ip_len: usize, tcp_len: usize) -> (r: Option<&'a [u8]>)
    ensures
        r is Some <==> payload_ok(data@, ip_len as int, tcp_len as int),
        r matches Some(p) ==> p@ == spec_payload(data@, ip_len as int, tcp_len as int),
{
    if ip_len >= data.len() {
        return None;
    }
    if tcp_len >= data.len() - ip_len {
        return None;
    }
    let p = vstd::slice::slice_subrange(data, ip_len + tcp_len, data.len());
    proof {
        assert(p@ =~= spec_payload(data@, ip_len as int, tcp_len as int));
    }
    Some(p)
}

} // verus!
