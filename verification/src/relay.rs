//! Relay decisions: the authentication exchange values, IPv4/UDP checks with
//! source canonicalization, and the per-datagram routing verdict.

use vstd::prelude::*;

use crate::auth::{
    ip_of_peer, law_peer_id_matches_one_address, peer_id_for_ip, peer_id_of, TicketClaims,
    VirtualIpError, LAST_PEER_ID,
};
use crate::checksum::{
    be16_bytes, checksum_of, has_udp_checksum, header_refreshed, law_refresh_touches_only_checksums,
    law_refreshed_packet_verifies, refresh_in_bounds, refresh_ipv4_udp_checksums, refreshed,
    udp_pseudo, with_be16, word_sum,
};
use crate::ipv4::{dotted_quad, ipv4_of, law_parse_formatted_address, parse_ipv4};
use crate::registry::{lookup_outcome, network_of, Networks, PeerRegistry, RegisteredPeer};
use crate::text::utf8;
use crate::wire::{
    decode_bytes, encode_parts, parts_error, FrameParts, WireError, WireFrame,
};

verus! {

/// What a client sends on the authentication stream.
#[derive(Clone, Debug)]
pub struct AuthRequest {
    pub ticket: String,
}

/// What the relay answers once a ticket is accepted.
#[derive(Clone, Debug)]
pub struct AuthResponse {
    pub accepted: bool,
    pub peer_id: u32,
    pub network_id: String,
}

#[derive(Clone, Copy, Debug, PartialEq, Eq)]
pub enum RouteError {
    NotIpv4Udp,
    HeaderLength,
    NotCompleteUdp,
    Fragmented,
    TicketIpInvalid,
    VirtualIp(VirtualIpError),
    SourceMismatch,
    DestinationMismatch,
    UdpLength,
    PortZero,
    SpoofedSource,
}

pub open spec fn route_error_text(e: RouteError) -> &'static str {
    match e {
        RouteError::NotIpv4Udp => "payload is not a complete IPv4 UDP packet",
        RouteError::HeaderLength => "IPv4 header length is invalid",
        RouteError::NotCompleteUdp => "only complete UDP packets are accepted",
        RouteError::Fragmented => "fragmented packets are not accepted",
        RouteError::TicketIpInvalid => "ticket IP is invalid",
        RouteError::VirtualIp(VirtualIpError::OutsideRange) => "virtual IP is outside 100.64.0.0/10",
        RouteError::VirtualIp(VirtualIpError::Reserved) => "virtual IP is reserved",
        RouteError::SourceMismatch => "ticket source does not match authenticated peer",
        RouteError::DestinationMismatch => "packet destination does not match frame destination",
        RouteError::UdpLength => "UDP length is invalid",
        RouteError::PortZero => "UDP port zero is invalid",
        RouteError::SpoofedSource => "packet source is another virtual address",
    }
}

impl RouteError {
    pub fn message(&self) -> (r: &'static str)
        ensures
            r == route_error_text(*self),
    {
        match self {
            RouteError::NotIpv4Udp => "payload is not a complete IPv4 UDP packet",
            RouteError::HeaderLength => "IPv4 header length is invalid",
            RouteError::NotCompleteUdp => "only complete UDP packets are accepted",
            RouteError::Fragmented => "fragmented packets are not accepted",
            RouteError::TicketIpInvalid => "ticket IP is invalid",
            RouteError::VirtualIp(VirtualIpError::OutsideRange) => "virtual IP is outside 100.64.0.0/10",
            RouteError::VirtualIp(VirtualIpError::Reserved) => "virtual IP is reserved",
            RouteError::SourceMismatch => "ticket source does not match authenticated peer",
            RouteError::DestinationMismatch => "packet destination does not match frame destination",
            RouteError::UdpLength => "UDP length is invalid",
            RouteError::PortZero => "UDP port zero is invalid",
            RouteError::SpoofedSource => "packet source is another virtual address",
        }
    }
}

/// Copies a byte slice into an owned buffer.
pub fn bytes(data: &[u8]) -> (r: Vec<u8>)
    ensures
        r@ == data@,
{
    vstd::slice::slice_to_vec(data)
}

impl AuthResponse {
    /// The answer to a client whose ticket carried these claims.
    pub fn for_claims(claims: &TicketClaims) -> (r: AuthResponse)
        ensures
            r.accepted,
            r.peer_id == claims.peer_id,
            r.network_id@ == claims.network_id@,
    {
        AuthResponse { accepted: true, peer_id: claims.peer_id, network_id: claims.network_id.clone() }
    }
}

/// A client only proceeds on an answer that says the ticket was accepted.
pub fn accepted_response(response: AuthResponse) -> (r: Option<AuthResponse>)
    ensures
        r is Some <==> response.accepted,
        r matches Some(a) ==> a == response,
{
    if response.accepted {
        Some(response)
    } else {
        None
    }
}

/// Seconds left before a ticket expiring at `exp` ends, if any are left.
pub fn ticket_lifetime(exp: u64, now: u64) -> (r: Option<u64>)
    ensures
        r == (if exp > now {
            Some((exp - now) as u64)
        } else {
            None::<u64>
        }),
{
    let lifetime = exp.saturating_sub(now);
    if lifetime == 0 {
        None
    } else {
        Some(lifetime)
    }
}

// ---------------------------------------------------------------------------
// Routed packets

pub open spec fn be16_at(p: Seq<u8>, i: int) -> int {
    (p[i] as int) * 256 + (p[i + 1] as int)
}

/// IPv4 header length in bytes, from the IHL nibble.
pub open spec fn ihl_bytes(p: Seq<u8>) -> int {
    ((p[0] % 16) as int) * 4
}

/// An address inside 100.64.0.0/10, the range virtual peers are given.
pub open spec fn in_virtual_range(a: Seq<u8>) -> bool {
    a[0] == 100 && 64 <= a[1] <= 127
}

/// Bytes 12..16 of the packet replaced by `src`.
pub open spec fn with_source(p: Seq<u8>, src: Seq<u8>) -> Seq<u8> {
    p.take(12) + src + p.skip(16)
}

/// The payload the relay forwards for a frame to `dst_peer` sent by the peer
/// authenticated with virtual address text `ip_text` and id `peer_id`: only
/// complete, unfragmented IPv4 UDP packets from that peer's address to the
/// frame's destination peer are accepted. A packet whose IPv4 source is
/// another address of the virtual range is refused as spoofed; one whose
/// source lies outside that range (the physical address a device stack may
/// leave there) has it rewritten to the authenticated address and its
/// checksums refreshed.
pub open spec fn normalized_payload(ip_text: Seq<u8>, peer_id: u32, dst_peer: u32, p: Seq<u8>) -> Result<
    Seq<u8>,
    RouteError,
> {
    if p.len() < 28 || p[0] / 16 != 4 {
        Err(RouteError::NotIpv4Udp)
    } else if ihl_bytes(p) < 20 || p.len() < ihl_bytes(p) + 8 {
        Err(RouteError::HeaderLength)
    } else if be16_at(p, 2) != p.len() || p[9] != 17 {
        Err(RouteError::NotCompleteUdp)
    } else if be16_at(p, 6) % 16384 != 0 {
        Err(RouteError::Fragmented)
    } else {
        let hl = ihl_bytes(p);
        match ipv4_of(ip_text) {
            None => Err(RouteError::TicketIpInvalid),
            Some(src) => match peer_id_of(src) {
                Err(e) => Err(RouteError::VirtualIp(e)),
                Ok(s) => if s != peer_id {
                    Err(RouteError::SourceMismatch)
                } else {
                    match peer_id_of(p.subrange(16, 20)) {
                        Err(e) => Err(RouteError::VirtualIp(e)),
                        Ok(d) => if d != dst_peer {
                            Err(RouteError::DestinationMismatch)
                        } else {
                            let udp_len = be16_at(p, hl + 4);
                            if udp_len < 8 || hl + udp_len != p.len() {
                                Err(RouteError::UdpLength)
                            } else if be16_at(p, hl) == 0 || be16_at(p, hl + 2) == 0 {
                                Err(RouteError::PortZero)
                            } else if p.subrange(12, 16) == src {
                                Ok(p)
                            } else if in_virtual_range(p.subrange(12, 16)) {
                                Err(RouteError::SpoofedSource)
                            } else {
                                Ok(refreshed(with_source(p, src), hl, udp_len))
                            }
                        },
                    }
                },
            },
        }
    }
}

proof fn lemma_word_sum_bound(b: Seq<u8>)
    ensures
        2 * word_sum(b) <= 65535 * (b.len() + 1),
    decreases b.len(),
{
    if b.len() >= 2 {
        lemma_word_sum_bound(b.skip(2));
    }
}

/// Checks a routed packet and canonicalizes its source address.
pub fn normalize_routed_packet(claims: &TicketClaims, frame: WireFrame) -> (r: Result<
    WireFrame,
    RouteError,
>)
    ensures
        match r {
            Ok(f) => normalized_payload(
                utf8(claims.virtual_ip@),
                claims.peer_id,
                frame.dst_peer,
                frame.payload@,
            ) == Ok::<Seq<u8>, RouteError>(f.payload@) && f.flags == frame.flags && f.dst_peer
                == frame.dst_peer && f.sequence == frame.sequence,
            Err(e) => normalized_payload(
                utf8(claims.virtual_ip@),
                claims.peer_id,
                frame.dst_peer,
                frame.payload@,
            ) == Err::<Seq<u8>, RouteError>(e),
        },
{
    let WireFrame { flags, dst_peer, sequence, payload } = frame;
    let mut packet = payload;
    let ghost p = packet@;
    let len = packet.len();
    if len < 28 || packet[0] >> 4 != 4 {
        proof {
            let b = p[0];
            assert(b >> 4 == b / 16) by (bit_vector);
        }
        return Err(RouteError::NotIpv4Udp);
    }
    proof {
        let b = p[0];
        assert(b >> 4 == b / 16) by (bit_vector);
        assert(b & 0x0f == b % 16) by (bit_vector);
    }
    let header_len = ((packet[0] & 0x0f) as usize) * 4;
    if header_len < 20 || len < header_len + 8 {
        return Err(RouteError::HeaderLength);
    }
    let total_len = (packet[2] as usize) * 256 + (packet[3] as usize);
    if total_len != len || packet[9] != 17 {
        return Err(RouteError::NotCompleteUdp);
    }
    let fragment: u16 = (packet[6] as u16) * 256 + (packet[7] as u16);
    proof {
        assert(fragment & 0x3fff == fragment % 16384) by (bit_vector);
    }
    if fragment & 0x3fff != 0 {
        return Err(RouteError::Fragmented);
    }
    let destination: [u8; 4] = [packet[16], packet[17], packet[18], packet[19]];
    assert(destination@ =~= p.subrange(16, 20));
    let ip_text = claims.virtual_ip.as_str().as_bytes();
    let claimed_source = match parse_ipv4(ip_text) {
        Some(ip) => ip,
        None => {
            return Err(RouteError::TicketIpInvalid);
        },
    };
    match peer_id_for_ip(claimed_source) {
        Err(e) => {
            return Err(RouteError::VirtualIp(e));
        },
        Ok(id) => {
            if id != claims.peer_id {
                return Err(RouteError::SourceMismatch);
            }
        },
    }
    match peer_id_for_ip(destination) {
        Err(e) => {
            return Err(RouteError::VirtualIp(e));
        },
        Ok(id) => {
            if id != dst_peer {
                return Err(RouteError::DestinationMismatch);
            }
        },
    }
    let udp_len = (packet[header_len + 4] as usize) * 256 + (packet[header_len + 5] as usize);
    if udp_len < 8 || header_len + udp_len != len {
        return Err(RouteError::UdpLength);
    }
    let source_port = (packet[header_len] as usize) * 256 + (packet[header_len + 1] as usize);
    let destination_port = (packet[header_len + 2] as usize) * 256 + (packet[header_len + 3] as usize);
    if source_port == 0 || destination_port == 0 {
        return Err(RouteError::PortZero);
    }
    let same_source = packet[12] == claimed_source[0] && packet[13] == claimed_source[1]
        && packet[14] == claimed_source[2] && packet[15] == claimed_source[3];
    if !same_source {
        assert(!(p.subrange(12, 16) =~= claimed_source@));
        if packet[12] == 100 && 64 <= packet[13] && packet[13] <= 127 {
            return Err(RouteError::SpoofedSource);
        }
        packet.set(12, claimed_source[0]);
        packet.set(13, claimed_source[1]);
        packet.set(14, claimed_source[2]);
        packet.set(15, claimed_source[3]);
        let ghost q = packet@;
        assert(q =~= with_source(p, claimed_source@));
        proof {
            let hl = header_len as int;
            let h = header_refreshed(q, hl);
            lemma_word_sum_bound(with_be16(q, 10, 0).take(hl));
            lemma_word_sum_bound(udp_pseudo(with_be16(h, hl + 6, 0), hl, udp_len as int));
            assert(refresh_in_bounds(q, hl, udp_len as int));
        }
        refresh_ipv4_udp_checksums(&mut packet, header_len, udp_len);
    } else {
        assert(p.subrange(12, 16) =~= claimed_source@);
    }
    Ok(WireFrame { flags, dst_peer, sequence, payload: packet })
}

/// Why a datagram from an authenticated peer is not forwarded.
#[derive(Clone, Copy, Debug, PartialEq, Eq)]
pub enum DropReason {
    InvalidFrame(WireError),
    SelfDirected,
    InvalidPacket(RouteError),
    Unencodable(WireError),
}

/// A datagram to hand to the destination peer's connection.
#[derive(Debug)]
pub struct Forward {
    pub dst_peer: u32,
    pub datagram: Vec<u8>,
}

/// What the relay does with datagram `b` received from the peer
/// authenticated with virtual address text `ip_text` and id `peer_id`: the
/// destination peer and the bytes to send it, or why it is dropped.
pub open spec fn route_verdict(ip_text: Seq<u8>, peer_id: u32, b: Seq<u8>) -> Result<
    (u32, Seq<u8>),
    DropReason,
> {
    match decode_bytes(b) {
        Err(e) => Err(DropReason::InvalidFrame(e)),
        Ok(p) => if p.1 == peer_id {
            Err(DropReason::SelfDirected)
        } else {
            match normalized_payload(ip_text, peer_id, p.1, p.3) {
                Err(e) => Err(DropReason::InvalidPacket(e)),
                Ok(q) => {
                    let np: FrameParts = (p.0, p.1, p.2, q);
                    match parts_error(np) {
                        Some(e) => Err(DropReason::Unencodable(e)),
                        None => Ok((p.1, encode_parts(np))),
                    }
                },
            }
        },
    }
}

/// Decides the fate of one datagram received from an authenticated peer.
pub fn route_datagram(claims: &TicketClaims, encoded: Vec<u8>) -> (r: Result<Forward, DropReason>)
    ensures
        match r {
            Ok(f) => route_verdict(utf8(claims.virtual_ip@), claims.peer_id, encoded@) == Ok::<
                (u32, Seq<u8>),
                DropReason,
            >((f.dst_peer, f.datagram@)),
            Err(e) => route_verdict(utf8(claims.virtual_ip@), claims.peer_id, encoded@) == Err::<
                (u32, Seq<u8>),
                DropReason,
            >(e),
        },
{
    let frame = match WireFrame::decode(encoded) {
        Ok(frame) => frame,
        Err(e) => {
            return Err(DropReason::InvalidFrame(e));
        },
    };
    if frame.dst_peer == claims.peer_id {
        return Err(DropReason::SelfDirected);
    }
    let frame = match normalize_routed_packet(claims, frame) {
        Ok(frame) => frame,
        Err(e) => {
            return Err(DropReason::InvalidPacket(e));
        },
    };
    match frame.encode() {
        Ok(datagram) => Ok(Forward { dst_peer: frame.dst_peer, datagram }),
        Err(e) => Err(DropReason::Unencodable(e)),
    }
}

/// Where one datagram `b` from the peer authenticated with virtual address
/// text `ip_text`, id `peer_id` and network `network_id` is delivered, given
/// the registrations `m`: the connection registered under the routed
/// destination peer in the sender's own network, with the bytes to send it;
/// nothing when the datagram is dropped or that peer is not connected.
pub open spec fn delivery<C>(
    m: Networks<C>,
    network_id: Seq<char>,
    ip_text: Seq<u8>,
    peer_id: u32,
    b: Seq<u8>,
) -> Option<(RegisteredPeer<C>, Seq<u8>)> {
    match route_verdict(ip_text, peer_id, b) {
        Err(_) => None,
        Ok((dst, d)) => match lookup_outcome(m, network_id, dst) {
            None => None,
            Some(e) => Some((e, d)),
        },
    }
}

/// Routes one datagram received from the peer authenticated with `claims`
/// to the connection of its destination peer in the same network: the
/// connection and the bytes to send it, nothing when that peer is not
/// connected, or why the datagram is dropped.
pub fn route_to_peer<'a, C>(
    registry: &'a PeerRegistry<C>,
    claims: &TicketClaims,
    encoded: Vec<u8>,
) -> (r: Result<Option<(&'a RegisteredPeer<C>, Vec<u8>)>, DropReason>)
    ensures
        match route_verdict(utf8(claims.virtual_ip@), claims.peer_id, encoded@) {
            Err(e) => r == Err::<Option<(&'a RegisteredPeer<C>, Vec<u8>)>, DropReason>(e),
            Ok(_) => r is Ok,
        },
        match delivery(
            registry@,
            claims.network_id@,
            utf8(claims.virtual_ip@),
            claims.peer_id,
            encoded@,
        ) {
            None => r is Err || r matches Ok(None),
            Some((e, d)) => r matches Ok(Some((p, out))) && *p == e && out@ == d,
        },
{
    let forward = route_datagram(claims, encoded)?;
    match registry.lookup(claims.network_id.as_str(), forward.dst_peer) {
        Some(peer) => Ok(Some((peer, forward.datagram))),
        None => Ok(None),
    }
}

/// A destination connection takes a datagram only up to the size it
/// accepts; a connection that accepts none takes nothing.
pub fn datagram_fits(len: usize, limit: Option<usize>) -> (r: bool)
    ensures
        r == (limit matches Some(l) && len <= l),
{
    match limit {
        Some(l) => len <= l,
        None => false,
    }
}

proof fn lemma_normalized_keeps_fields(ip_text: Seq<u8>, peer_id: u32, dst_peer: u32, p: Seq<u8>)
    requires
        normalized_payload(ip_text, peer_id, dst_peer, p) is Ok,
    ensures
        ({
            let q = normalized_payload(ip_text, peer_id, dst_peer, p)->Ok_0;
            let hl = ihl_bytes(p);
            let src = ipv4_of(ip_text)->Some_0;
            &&& q.len() == p.len()
            &&& q.subrange(12, 16) == src
            &&& forall|k: int|
                0 <= k < p.len() && !(10 <= k < 16) && k != hl + 6 && k != hl + 7
                    ==> #[trigger] q[k] == p[k]
        }),
{
    let q = normalized_payload(ip_text, peer_id, dst_peer, p)->Ok_0;
    let hl = ihl_bytes(p);
    let src = ipv4_of(ip_text)->Some_0;
    if p.subrange(12, 16) != src {
        let x = with_source(p, src);
        let udp_len = be16_at(p, hl + 4);
        assert(x.len() == p.len());
        assert forall|k: int|
            0 <= k < p.len() && !(10 <= k < 16) && k != hl + 6 && k != hl + 7 implies #[trigger] q[k]
                == p[k] by {
            law_refresh_touches_only_checksums(x, hl, udp_len, k);
        }
        assert forall|k: int| 12 <= k < 16 implies #[trigger] q[k] == src[k - 12] by {
            law_refresh_touches_only_checksums(x, hl, udp_len, k);
        }
        law_refresh_touches_only_checksums(x, hl, udp_len, 0);
        assert(q.subrange(12, 16) =~= src);
    }
}

/// Anti-spoofing: every datagram the relay forwards is a well-formed frame
/// to a peer other than the sender, carrying a complete IPv4 UDP packet
/// whose source is the sender's authenticated virtual address and whose
/// destination is the destination peer's virtual address.
pub proof fn law_forwarded_packets_are_authentic(ip_text: Seq<u8>, peer_id: u32, b: Seq<u8>)
    requires
        route_verdict(ip_text, peer_id, b) is Ok,
    ensures
        ({
            let (dst, out) = route_verdict(ip_text, peer_id, b)->Ok_0;
            let f = decode_bytes(out)->Ok_0;
            &&& decode_bytes(out) is Ok
            &&& f.1 == dst
            &&& dst != peer_id
            &&& f.0 == decode_bytes(b)->Ok_0.0
            &&& f.2 == decode_bytes(b)->Ok_0.2
            &&& ipv4_of(ip_text) is Some
            &&& f.3.subrange(12, 16) == ipv4_of(ip_text)->Some_0
            &&& peer_id_of(f.3.subrange(12, 16)) == Ok::<u32, VirtualIpError>(peer_id)
            &&& peer_id_of(f.3.subrange(16, 20)) == Ok::<u32, VirtualIpError>(dst)
        }),
{
    let p = decode_bytes(b)->Ok_0;
    let q = normalized_payload(ip_text, peer_id, p.1, p.3)->Ok_0;
    let np: FrameParts = (p.0, p.1, p.2, q);
    crate::wire::law_decode_after_encode(np);
    lemma_normalized_keeps_fields(ip_text, peer_id, p.1, p.3);
    assert(q.subrange(16, 20) =~= p.3.subrange(16, 20));
}

/// Spoofed sources are dropped: the relay forwards a datagram only when the
/// IPv4 source written in it is the sender's authenticated virtual address,
/// or an address outside 100.64.0.0/10; a packet claiming another virtual
/// address is never rewritten into one that passes.
pub proof fn law_virtual_sources_are_never_rewritten(ip_text: Seq<u8>, peer_id: u32, b: Seq<u8>)
    requires
        route_verdict(ip_text, peer_id, b) is Ok,
    ensures
        ({
            let sent = decode_bytes(b)->Ok_0.3.subrange(12, 16);
            &&& ipv4_of(ip_text) is Some
            &&& (sent == ipv4_of(ip_text)->Some_0 || !in_virtual_range(sent))
        }),
{
}

/// Each datagram reaches at most one connection, and only one of the
/// sender's own network: what is delivered is the entry registered there
/// for the routed destination, a peer other than the sender, and it does
/// not depend on the registrations of any other network.
pub proof fn law_delivery_stays_in_network<C>(
    m: Networks<C>,
    other: Networks<C>,
    network_id: Seq<char>,
    ip_text: Seq<u8>,
    peer_id: u32,
    b: Seq<u8>,
)
    requires
        network_of(other, network_id) == network_of(m, network_id),
    ensures
        delivery(other, network_id, ip_text, peer_id, b) == delivery(
            m,
            network_id,
            ip_text,
            peer_id,
            b,
        ),
        delivery(m, network_id, ip_text, peer_id, b) matches Some((e, d)) ==> {
            let dst = route_verdict(ip_text, peer_id, b)->Ok_0.0;
            &&& route_verdict(ip_text, peer_id, b) == Ok::<(u32, Seq<u8>), DropReason>((dst, d))
            &&& dst != peer_id
            &&& network_of(m, network_id).dom().contains(dst)
            &&& network_of(m, network_id)[dst] == e
        },
{
}

/// After the relay rewrites a packet's source address, the packet still
/// verifies at the receiver: the IPv4 checksum over the whole header is
/// zero and, when the packet carries a UDP checksum, the checksum over the
/// RFC 768 pseudo-header (source, destination, a zero byte, protocol 17, the
/// UDP length field) followed by every byte of the UDP segment, header and
/// data, up to the end of the packet, is zero as well.
pub proof fn law_rewritten_packet_checksums_verify(
    ip_text: Seq<u8>,
    peer_id: u32,
    dst_peer: u32,
    p: Seq<u8>,
)
    requires
        normalized_payload(ip_text, peer_id, dst_peer, p) is Ok,
        ipv4_of(ip_text) is Some,
        p.subrange(12, 16) != ipv4_of(ip_text)->Some_0,
    ensures
        ({
            let q = normalized_payload(ip_text, peer_id, dst_peer, p)->Ok_0;
            let hl = ((q[0] % 16) as int) * 4;
            let udp_len = (q[hl + 4] as int) * 256 + (q[hl + 5] as int);
            &&& q.len() == p.len()
            &&& q.subrange(12, 16) == ipv4_of(ip_text)->Some_0
            &&& hl + udp_len == q.len()
            &&& checksum_of(q.subrange(0, hl)) == 0
            &&& (q[hl + 6] != 0 || q[hl + 7] != 0) ==> checksum_of(
                q.subrange(12, 20) + seq![0u8, 17u8] + seq![q[hl + 4], q[hl + 5]] + q.subrange(
                    hl,
                    hl + udp_len,
                ),
            ) == 0
        }),
{
    let q = normalized_payload(ip_text, peer_id, dst_peer, p)->Ok_0;
    let src = ipv4_of(ip_text)->Some_0;
    let hl = ihl_bytes(p);
    let ul = be16_at(p, hl + 4);
    let x = with_source(p, src);
    lemma_normalized_keeps_fields(ip_text, peer_id, dst_peer, p);
    assert(q == refreshed(x, hl, ul));
    assert(x.len() == p.len());
    law_refreshed_packet_verifies(x, hl, ul);
    assert(q[0] == p[0]);
    assert(q[hl + 4] == p[hl + 4] && q[hl + 5] == p[hl + 5]);
    assert(q.take(hl) =~= q.subrange(0, hl));
    let a = p[hl + 4];
    let b = p[hl + 5];
    let w: u16 = ul as u16;
    assert(w == (a as u16) * 256 + (b as u16));
    assert(((w >> 8) as u8) == a && ((w & 0xff) as u8) == b) by (bit_vector)
        requires
            w == (a as u16) * 256 + (b as u16),
    ;
    assert(be16_bytes(ul as u16) =~= seq![q[hl + 4], q[hl + 5]]);
    assert(udp_pseudo(q, hl, ul) =~= q.subrange(12, 20) + seq![0u8, 17u8] + seq![q[hl + 4], q[hl
        + 5]] + q.subrange(hl, hl + ul));
    if !has_udp_checksum(header_refreshed(x, hl), hl) {
        assert(q == header_refreshed(x, hl));
    }
}

/// Every well-formed packet from the sender is accepted. The ticket names
/// the sender's address in dotted-quad text; read from its raw bytes, the
/// packet is IPv4 with a header of at least 20 bytes, the 16-bit big-endian
/// total length equal to the packet's length, protocol UDP, neither the
/// more-fragments flag nor a fragment offset, destination the frame's
/// destination peer's address, a UDP length field that covers exactly the
/// rest of the packet, nonzero ports, and a source that is the sender's own
/// virtual address or lies outside 100.64.0.0/10. Such a packet is
/// forwarded, unchanged when its source already is the sender's address.
pub proof fn law_well_formed_packets_are_accepted(
    ip_text: Seq<u8>,
    peer_id: u32,
    dst_peer: u32,
    p: Seq<u8>,
)
    requires
        ip_text == dotted_quad(ip_of_peer(peer_id)),
        1 <= peer_id <= LAST_PEER_ID,
        1 <= dst_peer <= LAST_PEER_ID,
        p.len() >= 1,
        p[0] / 16 == 4,
        ({
            let hl = ((p[0] % 16) as int) * 4;
            let udp_len = (p[hl + 4] as int) * 256 + (p[hl + 5] as int);
            &&& 20 <= hl
            &&& hl + 8 <= p.len()
            &&& (p[2] as int) * 256 + (p[3] as int) == p.len()
            &&& p[9] == 17
            &&& p[6] % 64 == 0
            &&& p[7] == 0
            &&& p.subrange(16, 20) == ip_of_peer(dst_peer)
            &&& 8 <= udp_len
            &&& hl + udp_len == p.len()
            &&& (p[hl] != 0 || p[hl + 1] != 0)
            &&& (p[hl + 2] != 0 || p[hl + 3] != 0)
            &&& (p.subrange(12, 16) == ip_of_peer(peer_id) || !(p[12] == 100 && 64 <= p[13]
                <= 127))
        }),
    ensures
        normalized_payload(ip_text, peer_id, dst_peer, p) is Ok,
        p.subrange(12, 16) == ip_of_peer(peer_id) ==> normalized_payload(
            ip_text,
            peer_id,
            dst_peer,
            p,
        ) == Ok::<Seq<u8>, RouteError>(p),
{
    let hl = ihl_bytes(p);
    law_parse_formatted_address(ip_of_peer(peer_id));
    law_peer_id_matches_one_address(ip_of_peer(peer_id), peer_id);
    law_peer_id_matches_one_address(p.subrange(16, 20), dst_peer);
    let k = p[6] / 64;
    assert(be16_at(p, 6) == 16384 * (k as int));
    assert((16384 * (k as int)) % 16384 == 0) by (nonlinear_arith);
    assert(p.subrange(12, 16) != ip_of_peer(peer_id) ==> !in_virtual_range(p.subrange(12, 16)));
}

/// Canonicalization is idempotent: a payload the relay has normalized is
/// accepted again as it is, unchanged.
pub proof fn law_normalization_idempotent(ip_text: Seq<u8>, peer_id: u32, dst_peer: u32, p: Seq<u8>)
    requires
        normalized_payload(ip_text, peer_id, dst_peer, p) is Ok,
    ensures
        ({
            let q = normalized_payload(ip_text, peer_id, dst_peer, p)->Ok_0;
            normalized_payload(ip_text, peer_id, dst_peer, q) == Ok::<Seq<u8>, RouteError>(q)
        }),
{
    let q = normalized_payload(ip_text, peer_id, dst_peer, p)->Ok_0;
    lemma_normalized_keeps_fields(ip_text, peer_id, dst_peer, p);
    let hl = ihl_bytes(p);
    assert(q[0] == p[0]);
    assert(q[2] == p[2] && q[3] == p[3] && q[6] == p[6] && q[7] == p[7] && q[9] == p[9]);
    assert(ihl_bytes(q) == hl);
    assert(q[hl] == p[hl] && q[hl + 1] == p[hl + 1] && q[hl + 2] == p[hl + 2] && q[hl + 3]
        == p[hl + 3] && q[hl + 4] == p[hl + 4] && q[hl + 5] == p[hl + 5]);
    assert(q[16] == p[16] && q[17] == p[17] && q[18] == p[18] && q[19] == p[19]);
    assert(q.subrange(16, 20) =~= p.subrange(16, 20));
}

} // verus!
