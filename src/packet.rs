use vstd::prelude::*;
use etherparse::IpHeader as Ip;
use etherparse::TransportHeader as Tp;

verus! {

/// The fields of a TCP header that request pairing reads.
#[derive(Clone, Copy, Debug, PartialEq, Eq)]
pub struct TcpSegment {
    pub source_port: u16,
    pub destination_port: u16,
    pub syn: bool,
    pub fin: bool,
}

/// The network layer of a decoded packet.
#[derive(Clone, Copy, Debug)]
pub enum Network {
    Absent,
    Ipv4,
    Ipv6 { source: [u8; 16], destination: [u8; 16] },
}

/// The transport layer of a decoded packet.
#[derive(Clone, Copy, Debug)]
pub enum Transport {
    Absent,
    Udp,
    Tcp(TcpSegment),
}

/// The headers of one decoded Ethernet frame.
#[derive(Clone, Copy, Debug)]
pub struct Headers {
    pub network: Network,
    pub transport: Transport,
}

/// The headers that etherparse decodes from an Ethernet frame, or `None`
/// where it cannot decode the frame.
pub uninterp spec fn decoded_headers(data: Seq<u8>) -> Option<Headers>;

/// Relies on etherparse::PacketHeaders::from_ethernet_slice to decode the
/// link, network and transport headers of a frame; the result depends on
/// the bytes alone.
#[verifier::external_body]
pub(crate) fn decode_ethernet(data: &[u8]) -> (r: Option<Headers>)
    ensures
        r == decoded_headers(data@),
{
    let h = etherparse::PacketHeaders::from_ethernet_slice(data).ok()?;
    let network = match h.ip {
        None => Network::Absent,
        Some(Ip::Version4(_)) => Network::Ipv4,
        Some(Ip::Version6(ip)) => Network::Ipv6 { source: ip.source, destination: ip.destination },
    };
    let transport = match h.transport {
        None => Transport::Absent,
        Some(Tp::Udp(_)) => Transport::Udp,
        Some(Tp::Tcp(t)) => Transport::Tcp(
            TcpSegment { source_port: t.source_port, destination_port: t.destination_port, syn: t.syn, fin: t.fin },
        ),
    };
    Some(Headers { network, transport })
}

/// A segment to the interactive port that opens a connection starts a request.
pub open spec fn is_start(port: u16, tcp: TcpSegment) -> bool {
    tcp.destination_port == port && tcp.syn
}

/// A segment from the interactive port that closes a connection ends a request.
pub open spec fn is_end(port: u16, tcp: TcpSegment) -> bool {
    tcp.source_port == port && tcp.fin
}

/// How a segment drives request pairing. Both may hold at once (a segment
/// from and to the interactive port with both flags set); the start is then
/// handled before the end.
#[derive(Clone, Copy, Debug, PartialEq, Eq)]
pub struct Events {
    pub start: bool,
    pub end: bool,
}

/// Classifies a TCP segment with respect to the interactive port.
pub fn classify(port: u16, tcp: &TcpSegment) -> (r: Events)
    ensures
        r.start == is_start(port, *tcp),
        r.end == is_end(port, *tcp),
{
    Events {
        start: tcp.destination_port == port && tcp.syn,
        end: tcp.source_port == port && tcp.fin,
    }
}

} // verus!
