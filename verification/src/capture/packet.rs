//! Packets of a network: where they come from, and what they carry.
use etherparse::{NetSlice, SlicedPacket, TransportSlice};
use vstd::prelude::*;

use crate::capture::tcp_handler::TcpSegment;
use crate::utils::addr::{Addr, Ip};
use crate::utils::parse;
use crate::utils::parse::{bytes_from, read_u16};

verus! {

/// What a segment says of itself.
#[verifier::ext_equal]
pub struct TcpInfoView {
    pub source_port: u16,
    pub destination_port: u16,
    pub sequence_number: u32,
    pub syn: bool,
    pub payload: Seq<u8>,
}

/// What is known of a packet: the address that it comes from, and the segment that
/// it carries.
#[verifier::ext_equal]
pub struct PacketView {
    pub ip: Option<Ip>,
    pub tcp: Option<TcpInfoView>,
}

/// What a segment says of itself.
pub struct TcpInfo<'a> {
    pub source_port: u16,
    pub destination_port: u16,
    pub sequence_number: u32,
    pub syn: bool,
    pub payload: &'a [u8],
}

impl<'a> View for TcpInfo<'a> {
    type V = TcpInfoView;

    open spec fn view(&self) -> TcpInfoView {
        TcpInfoView {
            source_port: self.source_port,
            destination_port: self.destination_port,
            sequence_number: self.sequence_number,
            syn: self.syn,
            payload: self.payload@,
        }
    }
}

/// A packet: the address that it comes from, and the segment that it carries.
pub struct Packet<'a> {
    pub ip: Option<Ip>,
    pub tcp: Option<TcpInfo<'a>>,
}

impl<'a> View for Packet<'a> {
    type V = PacketView;

    open spec fn view(&self) -> PacketView {
        PacketView {
            ip: self.ip,
            tcp: match self.tcp {
                Some(t) => Some(t@),
                None => None,
            },
        }
    }
}

/// The view of a packet, if there is one.
pub open spec fn packet_view(p: Option<Packet<'_>>) -> Option<PacketView> {
    match p {
        Some(q) => Some(q@),
        None => None,
    }
}

/// What `etherparse::SlicedPacket::from_ip` finds in bytes: the source of the
/// Internet header, and the TCP header with its payload.
pub uninterp spec fn ip_packet(b: Seq<u8>) -> Option<PacketView>;

/// What `etherparse::SlicedPacket::from_ethernet` finds in bytes.
pub uninterp spec fn ethernet_packet(b: Seq<u8>) -> Option<PacketView>;

/// What `etherparse::SlicedPacket::from_linux_sll` finds in bytes.
pub uninterp spec fn linux_sll_packet(b: Seq<u8>) -> Option<PacketView>;

/// Calls `etherparse::SlicedPacket::from_ip`, and takes the source address of the
/// Internet header and the fields of the TCP header. Believed: that these depend on
/// the bytes alone. Nothing more is said of which bytes are a packet.
#[verifier::external_body]
fn from_ip(data: &[u8]) -> (r: Option<Packet<'_>>)
    ensures
        packet_view(r) == ip_packet(data@),
{
    let p = SlicedPacket::from_ip(data).ok()?;
    let ip = match p.net {
        Some(NetSlice::Ipv4(h)) => Some(Ip::V4(u32::from_be_bytes(h.header().source()))),
        Some(NetSlice::Ipv6(h)) => Some(Ip::V6(u128::from_be_bytes(h.header().source()))),
        None => None,
    };
    let tcp = match p.transport {
        Some(TransportSlice::Tcp(t)) => Some(TcpInfo { source_port: t.source_port(),
            destination_port: t.destination_port(), sequence_number: t.sequence_number(),
            syn: t.syn(), payload: t.payload() }),
        _ => None,
    };
    Some(Packet { ip, tcp })
}

/// Calls `etherparse::SlicedPacket::from_ethernet`, and takes the source address of
/// the Internet header and the fields of the TCP header. Believed: that these depend
/// on the bytes alone. Nothing more is said of which bytes are a packet.
#[verifier::external_body]
fn from_ethernet(data: &[u8]) -> (r: Option<Packet<'_>>)
    ensures
        packet_view(r) == ethernet_packet(data@),
{
    let p = SlicedPacket::from_ethernet(data).ok()?;
    let ip = match p.net {
        Some(NetSlice::Ipv4(h)) => Some(Ip::V4(u32::from_be_bytes(h.header().source()))),
        Some(NetSlice::Ipv6(h)) => Some(Ip::V6(u128::from_be_bytes(h.header().source()))),
        None => None,
    };
    let tcp = match p.transport {
        Some(TransportSlice::Tcp(t)) => Some(TcpInfo { source_port: t.source_port(),
            destination_port: t.destination_port(), sequence_number: t.sequence_number(),
            syn: t.syn(), payload: t.payload() }),
        _ => None,
    };
    Some(Packet { ip, tcp })
}

/// Calls `etherparse::SlicedPacket::from_linux_sll`, and takes the source address of
/// the Internet header and the fields of the TCP header. Believed: that these depend
/// on the bytes alone. Nothing more is said of which bytes are a packet.
#[verifier::external_body]
fn from_linux_sll(data: &[u8]) -> (r: Option<Packet<'_>>)
    ensures
        packet_view(r) == linux_sll_packet(data@),
{
    let p = SlicedPacket::from_linux_sll(data).ok()?;
    let ip = match p.net {
        Some(NetSlice::Ipv4(h)) => Some(Ip::V4(u32::from_be_bytes(h.header().source()))),
        Some(NetSlice::Ipv6(h)) => Some(Ip::V6(u128::from_be_bytes(h.header().source()))),
        None => None,
    };
    let tcp = match p.transport {
        Some(TransportSlice::Tcp(t)) => Some(TcpInfo { source_port: t.source_port(),
            destination_port: t.destination_port(), sequence_number: t.sequence_number(),
            syn: t.syn(), payload: t.payload() }),
        _ => None,
    };
    Some(Packet { ip, tcp })
}

/// How long the header of the second version of a Linux cooked capture is.
pub const SLL2_LEN: usize = 20;

/// The mark of the Internet protocol, version 4.
pub const ETH_P_IP: u16 = 0x0800;

/// The mark of the Internet protocol, version 6.
pub const ETH_P_IPV6: u16 = 0x86DD;

/// Whether bytes look like a cooked capture of the second version: they start with a
/// mark of the Internet protocol, and go on behind the header.
pub open spec fn looks_cooked(b: Seq<u8>) -> bool {
    &&& b.len() > SLL2_LEN
    &&& (parse::be16(b) == ETH_P_IPV6 || parse::be16(b) == ETH_P_IP)
}

/// Which of the readings of bytes holds: as Internet packet behind a cooked header,
/// where the bytes look like that, else as Ethernet frame, else as cooked capture of
/// the first version, else as Internet packet.
pub open spec fn chosen(
    b: Seq<u8>,
    behind: Option<PacketView>,
    ethernet: Option<PacketView>,
    sll: Option<PacketView>,
    ip: Option<PacketView>,
) -> Option<PacketView> {
    if looks_cooked(b) && behind is Some {
        behind
    } else if ethernet is Some {
        ethernet
    } else if sll is Some {
        sll
    } else {
        ip
    }
}

/// The packet that bytes hold.
pub open spec fn packet_in(b: Seq<u8>) -> Option<PacketView> {
    chosen(
        b,
        ip_packet(b.skip(SLL2_LEN as int)),
        ethernet_packet(b),
        linux_sll_packet(b),
        ip_packet(b),
    )
}

/// Reads a packet.
pub fn parse_packet(packet_data: &[u8]) -> (r: Option<Packet<'_>>)
    ensures
        packet_view(r) == packet_in(packet_data@),
{
    if packet_data.len() > SLL2_LEN {
        let protocol: u16 = read_u16(packet_data);
        if protocol == ETH_P_IPV6 || protocol == ETH_P_IP {
            let behind = from_ip(bytes_from(packet_data, SLL2_LEN));
            if behind.is_some() {
                return behind;
            }
        }
    }
    let ethernet = from_ethernet(packet_data);
    if ethernet.is_some() {
        return ethernet;
    }
    let sll = from_linux_sll(packet_data);
    if sll.is_some() {
        return sll;
    }
    from_ip(packet_data)
}

/// The sender of a segment and the segment.
pub open spec fn sent(p: PacketView) -> Option<(Addr, TcpInfoView)> {
    match (p.ip, p.tcp) {
        (Some(ip), Some(tcp)) => Some((Addr { ip, port: tcp.source_port }, tcp)),
        _ => None,
    }
}

/// The sender of a segment to the given port, and the segment.
pub open spec fn sent_to(p: PacketView, port: u16) -> Option<(Addr, TcpInfoView)> {
    match sent(p) {
        Some((addr, tcp)) => if tcp.destination_port == port {
            Some((addr, tcp))
        } else {
            None
        },
        None => None,
    }
}

/// The view of a sender and a segment, if there is one.
pub open spec fn sent_view(p: Option<(Addr, TcpInfo<'_>)>) -> Option<(Addr, TcpInfoView)> {
    match p {
        Some((addr, tcp)) => Some((addr, tcp@)),
        None => None,
    }
}

/// The sender of a segment and the segment.
pub fn sender(packet: Packet<'_>) -> (r: Option<(Addr, TcpInfo<'_>)>)
    ensures
        sent_view(r) == sent(packet@),
{
    match packet.ip {
        Some(ip) => match packet.tcp {
            Some(tcp) => {
                let addr = Addr::new(ip, tcp.source_port);
                Some((addr, tcp))
            },
            None => None,
        },
        None => None,
    }
}

/// The sender of a segment to the given port, and the segment.
pub fn filter_packet(packet: Packet<'_>, port: u16) -> (r: Option<(Addr, TcpInfo<'_>)>)
    ensures
        sent_view(r) == sent_to(packet@, port),
{
    match sender(packet) {
        Some((addr, tcp)) => if tcp.destination_port == port {
            Some((addr, tcp))
        } else {
            None
        },
        None => None,
    }
}

/// A block of a capture file, as far as it matters here.
pub enum CapturedBlock<'a> {
    /// A packet of the first format, with seconds and microseconds.
    Legacy { ts_sec: u32, ts_usec: u32, data: &'a [u8] },
    /// A packet of the second format, with a time in two halves.
    Enhanced { ts_high: u32, ts_low: u32, data: &'a [u8] },
    /// A packet without a time.
    Simple { data: &'a [u8] },
    /// No packet.
    Other,
}

impl<'a> CapturedBlock<'a> {
    /// The bytes of the packet of a block, and its time.
    pub open spec fn packet(self) -> Option<(Seq<u8>, u64)> {
        match self {
            CapturedBlock::Legacy { ts_sec, ts_usec, data } => Some(
                (data@, (ts_sec * 1_000_000 + ts_usec) as u64),
            ),
            CapturedBlock::Enhanced { ts_high, ts_low, data } => Some(
                (data@, (ts_high * 0x1_0000_0000 + ts_low) as u64),
            ),
            CapturedBlock::Simple { data } => Some((data@, 0)),
            CapturedBlock::Other => None,
        }
    }

    /// The bytes of the packet of a block, and its time.
    pub fn read(self) -> (r: Option<(&'a [u8], u64)>)
        ensures
            match r {
                Some((data, ts)) => self.packet() == Some((data@, ts)),
                None => self.packet() is None,
            },
    {
        match self {
            CapturedBlock::Legacy { ts_sec, ts_usec, data } => {
                Some((data, ts_sec as u64 * 1_000_000 + ts_usec as u64))
            },
            CapturedBlock::Enhanced { ts_high, ts_low, data } => {
                proof {
                    assert(((ts_high as u64) << 32) | (ts_low as u64) == (ts_high as u64)
                        * 0x1_0000_0000 + ts_low as u64) by (bit_vector);
                }
                Some((data, ((ts_high as u64) << 32) | (ts_low as u64)))
            },
            CapturedBlock::Simple { data } => Some((data, 0)),
            CapturedBlock::Other => None,
        }
    }
}

/// A segment, who sent it, when, and to which port.
pub struct TsPacket<'a> {
    pub addr: Addr,
    pub ts: u64,
    pub destination_port: u16,
    pub tcp: TcpSegment<'a>,
}

/// A segment, who sent it, when, and to which port.
#[verifier::ext_equal]
pub struct TsPacketView {
    pub addr: Addr,
    pub ts: u64,
    pub destination_port: u16,
    pub seq: u32,
    pub syn: bool,
    pub payload: Seq<u8>,
}

impl<'a> View for TsPacket<'a> {
    type V = TsPacketView;

    open spec fn view(&self) -> TsPacketView {
        TsPacketView {
            addr: self.addr,
            ts: self.ts,
            destination_port: self.destination_port,
            seq: self.tcp.sequence_number,
            syn: self.tcp.syn,
            payload: self.tcp.payload@,
        }
    }
}

/// A segment with its sender and a time.
pub open spec fn stamped(p: Option<(Addr, TcpInfoView)>, ts: u64) -> Option<TsPacketView> {
    match p {
        Some((addr, tcp)) => Some(
            TsPacketView {
                addr,
                ts,
                destination_port: tcp.destination_port,
                seq: tcp.sequence_number,
                syn: tcp.syn,
                payload: tcp.payload,
            },
        ),
        None => None,
    }
}

/// The view of a segment, if there is one.
pub open spec fn ts_view(p: Option<TsPacket<'_>>) -> Option<TsPacketView> {
    match p {
        Some(q) => Some(q@),
        None => None,
    }
}

/// A segment with its sender and a time.
pub fn stamp(p: Option<(Addr, TcpInfo<'_>)>, ts: u64) -> (r: Option<TsPacket<'_>>)
    ensures
        ts_view(r) == stamped(sent_view(p), ts),
{
    match p {
        Some((addr, tcp)) => Some(
            TsPacket {
                addr,
                ts,
                destination_port: tcp.destination_port,
                tcp: TcpSegment {
                    sequence_number: tcp.sequence_number,
                    syn: tcp.syn,
                    payload: tcp.payload,
                },
            },
        ),
        None => None,
    }
}

} // verus!
