//! Which packets are captured: segments to one port.
use vstd::prelude::*;

use crate::utils::parse;
use crate::utils::parse::{bytes_at, bytes_from, read_u16, read_u32};

verus! {

/// How long the header of an Ethernet frame is.
pub const ETH_HDR_LEN: usize = 14;

/// The mark of the Internet protocol, version 4.
pub const ETH_P_IP: u16 = 0x0800;

/// The mark of the Internet protocol, version 6.
pub const ETH_P_IPV6: u16 = 0x86DD;

/// The mark of TCP.
pub const IPPROTO_TCP: u8 = 6;

/// A header reaches over the end of the bytes.
#[derive(Debug, Clone, Copy, PartialEq, Eq, Structural)]
pub struct OutOfBounds;

/// What an Internet header says: the sender, where the TCP header starts, and how
/// many bytes there are from there on.
pub struct IpInfo {
    pub is_v6: u8,
    pub src_ip: [u8; 16],
    pub tcp_hdr_off: usize,
    pub ip_payload_len: u32,
}

/// What an Internet header says.
#[verifier::ext_equal]
pub struct IpInfoView {
    pub is_v6: u8,
    pub src_ip: Seq<u8>,
    pub tcp_hdr_off: int,
    pub ip_payload_len: int,
}

impl View for IpInfo {
    type V = IpInfoView;

    open spec fn view(&self) -> IpInfoView {
        IpInfoView {
            is_v6: self.is_v6,
            src_ip: self.src_ip@,
            tcp_hdr_off: self.tcp_hdr_off as int,
            ip_payload_len: self.ip_payload_len as int,
        }
    }
}

/// How long the Internet header of version 4 says that it is.
pub open spec fn ihl(d: Seq<u8>) -> int {
    (d[14] % 16) * 4
}

/// The Internet header of version 4 in a frame, if it is of a TCP segment.
pub open spec fn v4_info(d: Seq<u8>) -> Option<IpInfoView> {
    let total = parse::be16(d.subrange(16, 18));
    if ihl(d) < 20 || d[23] != IPPROTO_TCP || total < ihl(d) {
        None
    } else {
        Some(
            IpInfoView {
                is_v6: 0,
                src_ip: d.subrange(26, 30) + seq![0u8, 0, 0, 0, 0, 0, 0, 0, 0, 0, 0, 0],
                tcp_hdr_off: 14 + ihl(d),
                ip_payload_len: total - ihl(d),
            },
        )
    }
}

/// The Internet header of version 6 in a frame, if it is of a TCP segment.
pub open spec fn v6_info(d: Seq<u8>) -> Option<IpInfoView> {
    if d[20] != IPPROTO_TCP {
        None
    } else {
        Some(
            IpInfoView {
                is_v6: 1,
                src_ip: d.subrange(22, 38),
                tcp_hdr_off: 54,
                ip_payload_len: parse::be16(d.subrange(18, 20)),
            },
        )
    }
}

/// The Internet header in a frame, if it is of a TCP segment.
pub open spec fn ip_info(d: Seq<u8>) -> Result<Option<IpInfoView>, OutOfBounds> {
    if d.len() < 14 {
        Err(OutOfBounds)
    } else {
        let proto = parse::be16(d.subrange(12, 14));
        if proto == ETH_P_IP {
            if d.len() < 34 {
                Err(OutOfBounds)
            } else {
                Ok(v4_info(d))
            }
        } else if proto == ETH_P_IPV6 {
            if d.len() < 54 {
                Err(OutOfBounds)
            } else {
                Ok(v6_info(d))
            }
        } else {
            Ok(None)
        }
    }
}

/// The bytes at a place, if they are all there.
fn check_bounds(data: &[u8], offset: usize, len: usize) -> (r: Result<&[u8], OutOfBounds>)
    requires
        offset + len <= usize::MAX,
    ensures
        match r {
            Ok(b) => offset + len <= data@.len() && b@ == data@.subrange(
                offset as int,
                offset + len,
            ),
            Err(e) => offset + len > data@.len(),
        },
{
    if offset + len > data.len() {
        return Err(OutOfBounds);
    }
    Ok(bytes_at(data, offset, len))
}

/// Reads the Internet header in a frame, if it is of a TCP segment.
pub fn parse_ip(data: &[u8]) -> (r: Result<Option<IpInfo>, OutOfBounds>)
    ensures
        match r {
            Ok(Some(i)) => ip_info(data@) == Ok::<Option<IpInfoView>, OutOfBounds>(Some(i@)),
            Ok(None) => ip_info(data@) == Ok::<Option<IpInfoView>, OutOfBounds>(None),
            Err(e) => ip_info(data@) == Err::<Option<IpInfoView>, OutOfBounds>(e),
        },
{
    let eth_proto: u16 = match check_bounds(data, 12, 2) {
        Ok(b) => read_u16(b),
        Err(e) => {
            return Err(e);
        },
    };
    if eth_proto == ETH_P_IP {
        let ip = match check_bounds(data, ETH_HDR_LEN, 20) {
            Ok(b) => b,
            Err(e) => {
                return Err(e);
            },
        };
        let ihl: usize = (ip[0] % 16) as usize * 4;
        if ihl < 20 {
            return Ok(None);
        }
        if ip[9] != IPPROTO_TCP {
            return Ok(None);
        }
        let ip_total_len: u16 = read_u16(bytes_at(ip, 2, 2));
        assert(ip@.subrange(2, 4) =~= data@.subrange(16, 18));
        if (ip_total_len as usize) < ihl {
            return Ok(None);
        }
        let src_ip: [u8; 16] = [
            ip[12], ip[13], ip[14], ip[15], 0, 0, 0, 0, 0, 0, 0, 0, 0, 0, 0, 0,
        ];
        assert(src_ip@ =~= v4_info(data@)->0.src_ip);
        Ok(
            Some(
                IpInfo {
                    is_v6: 0,
                    src_ip,
                    tcp_hdr_off: ETH_HDR_LEN + ihl,
                    ip_payload_len: ip_total_len as u32 - ihl as u32,
                },
            ),
        )
    } else if eth_proto == ETH_P_IPV6 {
        let ip = match check_bounds(data, ETH_HDR_LEN, 40) {
            Ok(b) => b,
            Err(e) => {
                return Err(e);
            },
        };
        if ip[6] != IPPROTO_TCP {
            return Ok(None);
        }
        let payload_len: u16 = read_u16(bytes_at(ip, 4, 2));
        assert(ip@.subrange(4, 6) =~= data@.subrange(18, 20));
        let src_ip: [u8; 16] = [
            ip[8], ip[9], ip[10], ip[11], ip[12], ip[13], ip[14], ip[15], ip[16], ip[17], ip[18],
            ip[19], ip[20], ip[21], ip[22], ip[23],
        ];
        assert(src_ip@ =~= v6_info(data@)->0.src_ip);
        Ok(
            Some(
                IpInfo {
                    is_v6: 1,
                    src_ip,
                    tcp_hdr_off: ETH_HDR_LEN + 40,
                    ip_payload_len: payload_len as u32,
                },
            ),
        )
    } else {
        Ok(None)
    }
}

/// A segment to capture: who sent it, its number and flags, and where its bytes lie
/// in the frame.
pub struct Segment {
    pub src_ip: [u8; 16],
    pub is_v6: u8,
    pub src_port: u16,
    pub seq: u32,
    pub flags: u8,
    pub payload_off: usize,
    pub payload_len: usize,
}

/// A segment to capture.
#[verifier::ext_equal]
pub struct SegmentView {
    pub src_ip: Seq<u8>,
    pub is_v6: u8,
    pub src_port: int,
    pub seq: int,
    pub flags: u8,
    pub payload_off: int,
    pub payload_len: int,
}

impl View for Segment {
    type V = SegmentView;

    open spec fn view(&self) -> SegmentView {
        SegmentView {
            src_ip: self.src_ip@,
            is_v6: self.is_v6,
            src_port: self.src_port as int,
            seq: self.seq as int,
            flags: self.flags,
            payload_off: self.payload_off as int,
            payload_len: self.payload_len as int,
        }
    }
}

/// The segment to the given port in a frame, by its Internet header and the first
/// bytes of its TCP header.
pub open spec fn segment_of(ip: IpInfoView, tcp: Seq<u8>, port: u16) -> Option<SegmentView> {
    let doff = (tcp[12] / 16) * 4;
    if parse::be16(tcp.skip(2)) != port || doff < 20 || ip.ip_payload_len < doff {
        None
    } else {
        Some(
            SegmentView {
                src_ip: ip.src_ip,
                is_v6: ip.is_v6,
                src_port: parse::be16(tcp),
                seq: parse::be32(tcp.skip(4)),
                flags: tcp[13],
                payload_off: ip.tcp_hdr_off + doff,
                payload_len: ip.ip_payload_len - doff,
            },
        )
    }
}

/// The segment to the given port in a frame.
pub open spec fn segment_in(d: Seq<u8>, port: u16) -> Result<Option<SegmentView>, OutOfBounds> {
    match ip_info(d) {
        Err(e) => Err(e),
        Ok(None) => Ok(None),
        Ok(Some(ip)) => if ip.tcp_hdr_off + 14 > d.len() {
            Err(OutOfBounds)
        } else {
            Ok(segment_of(ip, d.subrange(ip.tcp_hdr_off, ip.tcp_hdr_off + 14), port))
        },
    }
}

/// Reads the segment to the given port in a frame. A frame without one is not
/// captured, and neither is one whose headers are not all there.
pub fn try_tc_capture(data: &[u8], dst_port: u16) -> (r: Result<Option<Segment>, OutOfBounds>)
    ensures
        match r {
            Ok(Some(s)) => segment_in(data@, dst_port) == Ok::<Option<SegmentView>, OutOfBounds>(
                Some(s@),
            ),
            Ok(None) => segment_in(data@, dst_port) == Ok::<Option<SegmentView>, OutOfBounds>(
                None,
            ),
            Err(e) => segment_in(data@, dst_port) == Err::<Option<SegmentView>, OutOfBounds>(e),
        },
{
    let ip = match parse_ip(data) {
        Ok(Some(ip)) => ip,
        Ok(None) => {
            return Ok(None);
        },
        Err(e) => {
            return Err(e);
        },
    };
    assert(ip@.tcp_hdr_off <= 14 + 60 && ip@.ip_payload_len <= 0xFFFF);
    let tcp = match check_bounds(data, ip.tcp_hdr_off, 14) {
        Ok(b) => b,
        Err(e) => {
            return Err(e);
        },
    };
    let src_port: u16 = read_u16(tcp);
    if read_u16(bytes_from(tcp, 2)) != dst_port {
        return Ok(None);
    }
    let seq: u32 = read_u32(bytes_from(tcp, 4));
    let doff: usize = (tcp[12] / 16) as usize * 4;
    if doff < 20 {
        return Ok(None);
    }
    let flags: u8 = tcp[13];
    if (ip.ip_payload_len as usize) < doff {
        return Ok(None);
    }
    Ok(
        Some(
            Segment {
                src_ip: ip.src_ip,
                is_v6: ip.is_v6,
                src_port,
                seq,
                flags,
                payload_off: ip.tcp_hdr_off + doff,
                payload_len: ip.ip_payload_len as usize - doff,
            },
        ),
    )
}

} // verus!
