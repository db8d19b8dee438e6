use flipple_multiplayer_relay::auth::TicketClaims;
use flipple_multiplayer_relay::checksum::{internet_checksum, refresh_ipv4_udp_checksums};
use flipple_multiplayer_relay::registry::PeerRegistry;
use flipple_multiplayer_relay::relay::{
    accepted_response, bytes, datagram_fits, normalize_routed_packet, route_datagram,
    route_to_peer, ticket_lifetime, AuthResponse, DropReason, RouteError,
};
use flipple_multiplayer_relay::wire::{WireError, WireFrame};

fn claims() -> TicketClaims {
    TicketClaims {
        iss: "flipple-control-plane".into(),
        aud: "flipple-multiplayer-relay".into(),
        network_id: "public-v1".into(),
        lease_id: "00000000-0000-4000-8000-000000000001".into(),
        peer_id: 1,
        role: "member".into(),
        virtual_ip: "100.64.0.1".into(),
        exp: u64::MAX,
        jti: "test-ticket".into(),
        protocol_version: 2,
    }
}

fn udp_packet(source_port: u16, destination_port: u16) -> Vec<u8> {
    let mut packet = vec![0u8; 28];
    let packet_len = packet.len() as u16;
    packet[0] = 0x45;
    packet[2..4].copy_from_slice(&packet_len.to_be_bytes());
    packet[8] = 64;
    packet[9] = 17;
    packet[12..16].copy_from_slice(&[100, 64, 0, 1]);
    packet[16..20].copy_from_slice(&[100, 64, 0, 2]);
    packet[20..22].copy_from_slice(&source_port.to_be_bytes());
    packet[22..24].copy_from_slice(&destination_port.to_be_bytes());
    packet[24..26].copy_from_slice(&8u16.to_be_bytes());
    packet
}

#[test]
fn accepts_nethernet_dynamic_ports_and_canonicalizes_source() {
    let nethernet = WireFrame::new(2, 1, bytes(&udp_packet(7551, 7551))).unwrap();
    assert!(normalize_routed_packet(&claims(), nethernet).is_ok());

    let dynamic = WireFrame::new(2, 2, bytes(&udp_packet(49_152, 37_777))).unwrap();
    assert!(normalize_routed_packet(&claims(), dynamic).is_ok());

    let mut physical_source = udp_packet(49_152, 37_777);
    physical_source[12..16].copy_from_slice(&[192, 168, 1, 25]);
    let normalized = normalize_routed_packet(
        &claims(),
        WireFrame::new(2, 3, bytes(&physical_source)).unwrap(),
    )
    .unwrap();
    assert_eq!(&normalized.payload[12..16], &[100, 64, 0, 1]);
}

#[test]
fn refreshes_ipv4_and_nonzero_udp_checksums_after_source_rewrite() {
    let mut packet = udp_packet(49_152, 37_777);
    packet[12..16].copy_from_slice(&[100, 64, 0, 1]);
    packet[26..28].copy_from_slice(&u16::MAX.to_be_bytes());
    refresh_ipv4_udp_checksums(&mut packet, 20, 8);

    assert_eq!(internet_checksum(&[&packet[..20]]), 0);
    let pseudo_tail = [0_u8, 17_u8];
    let udp_len = 8_u16.to_be_bytes();
    assert_eq!(
        internet_checksum(&[&packet[12..20], &pseudo_tail, &udp_len, &packet[20..28]]),
        0,
    );
}

#[test]
fn internet_checksum_matches_rfc1071_example() {
    let data = [0x00, 0x01, 0xf2, 0x03, 0xf4, 0xf5, 0xf6, 0xf7];
    assert_eq!(internet_checksum(&[&data]), 0x220d);
    // The same bytes split at an odd offset give the same checksum.
    assert_eq!(internet_checksum(&[&data[..3], &data[3..]]), 0x220d);
    // An odd trailing byte counts as the high byte of a word.
    assert_eq!(internet_checksum(&[&[0x01]]), !0x0100u16);
    assert_eq!(internet_checksum(&[]), 0xffff);
}

#[test]
fn refresh_leaves_an_absent_udp_checksum_absent() {
    let mut packet = udp_packet(1000, 2000);
    refresh_ipv4_udp_checksums(&mut packet, 20, 8);
    assert_eq!(&packet[26..28], &[0, 0]);
    assert_eq!(internet_checksum(&[&packet[..20]]), 0);
    assert_ne!(&packet[10..12], &[0, 0]);
}

#[test]
fn normalization_reports_each_packet_error() {
    let frame = |payload: Vec<u8>, dst: u32| WireFrame::new(dst, 0, payload).unwrap();
    assert_eq!(
        normalize_routed_packet(&claims(), frame(vec![0x45; 27], 2)).unwrap_err(),
        RouteError::NotIpv4Udp
    );
    let mut ipv6 = udp_packet(1, 1);
    ipv6[0] = 0x65;
    assert_eq!(normalize_routed_packet(&claims(), frame(ipv6, 2)).unwrap_err(), RouteError::NotIpv4Udp);
    let mut short_header = udp_packet(1, 1);
    short_header[0] = 0x44;
    assert_eq!(
        normalize_routed_packet(&claims(), frame(short_header, 2)).unwrap_err(),
        RouteError::HeaderLength
    );
    let mut tcp = udp_packet(1, 1);
    tcp[9] = 6;
    assert_eq!(normalize_routed_packet(&claims(), frame(tcp, 2)).unwrap_err(), RouteError::NotCompleteUdp);
    let mut fragment = udp_packet(1, 1);
    fragment[6] = 0x20;
    assert_eq!(normalize_routed_packet(&claims(), frame(fragment, 2)).unwrap_err(), RouteError::Fragmented);
    let mut dont_fragment = udp_packet(1, 1);
    dont_fragment[6] = 0x40;
    assert!(normalize_routed_packet(&claims(), frame(dont_fragment, 2)).is_ok());
    assert_eq!(
        normalize_routed_packet(&claims(), frame(udp_packet(1, 1), 3)).unwrap_err(),
        RouteError::DestinationMismatch
    );
    let mut bad_udp = udp_packet(1, 1);
    bad_udp[25] = 9;
    assert_eq!(normalize_routed_packet(&claims(), frame(bad_udp, 2)).unwrap_err(), RouteError::UdpLength);
    assert_eq!(
        normalize_routed_packet(&claims(), frame(udp_packet(0, 1), 2)).unwrap_err(),
        RouteError::PortZero
    );
    let mut wrong_peer = claims();
    wrong_peer.peer_id = 5;
    assert_eq!(
        normalize_routed_packet(&wrong_peer, frame(udp_packet(1, 1), 2)).unwrap_err(),
        RouteError::SourceMismatch
    );
    let mut no_ip = claims();
    no_ip.virtual_ip = "100.64.0".into();
    assert_eq!(
        normalize_routed_packet(&no_ip, frame(udp_packet(1, 1), 2)).unwrap_err(),
        RouteError::TicketIpInvalid
    );
}

#[test]
fn routing_drops_self_directed_and_invalid_datagrams() {
    let own = WireFrame::new(1, 9, udp_packet(1, 1)).unwrap().encode().unwrap();
    assert_eq!(route_datagram(&claims(), own).unwrap_err(), DropReason::SelfDirected);
    assert_eq!(
        route_datagram(&claims(), vec![2, 0]).unwrap_err(),
        DropReason::InvalidFrame(WireError::TooShort)
    );
    let mut spoof = udp_packet(1, 1);
    spoof[16..20].copy_from_slice(&[100, 64, 0, 3]);
    let spoofed = WireFrame::new(2, 6, spoof).unwrap().encode().unwrap();
    assert_eq!(
        route_datagram(&claims(), spoofed).unwrap_err(),
        DropReason::InvalidPacket(RouteError::DestinationMismatch)
    );
}

#[test]
fn routing_forwards_a_canonical_frame_unchanged() {
    let original = WireFrame::new(2, 7, udp_packet(0x4abc, 0x4abc)).unwrap().encode().unwrap();
    let forward = route_datagram(&claims(), original.clone()).unwrap();
    assert_eq!(forward.dst_peer, 2);
    assert_eq!(forward.datagram, original);
}

#[test]
fn routing_rewrites_a_foreign_source_to_the_ticket_address() {
    let mut packet = udp_packet(0x4abc, 0x4abc);
    packet[12..16].copy_from_slice(&[10, 0, 0, 7]);
    let datagram = WireFrame::new(2, 8, packet).unwrap().encode().unwrap();
    let forward = route_datagram(&claims(), datagram).unwrap();
    let frame = WireFrame::decode(forward.datagram.clone()).unwrap();
    assert_eq!(&frame.payload[12..16], &[100, 64, 0, 1]);
    assert_eq!(frame.sequence, 8);
    assert_eq!(internet_checksum(&[&frame.payload[..20]]), 0);
    // Routing the rewritten frame again changes nothing.
    let again = route_datagram(&claims(), forward.datagram.clone()).unwrap();
    assert_eq!(again.datagram, forward.datagram);
}

#[test]
fn registry_routes_to_latest_connection_and_ignores_stale_removal() {
    let mut registry: PeerRegistry<&'static str> = PeerRegistry::new();
    assert!(registry.register("public-v1", 1, "first", 10).unwrap().is_none());
    assert_eq!(registry.lookup("public-v1", 1).unwrap().handle, "first");
    let replaced = registry.register("public-v1", 1, "second", 11).unwrap().unwrap();
    assert_eq!(replaced.stable_id, 10);
    registry.unregister("public-v1", 1, 10);
    assert_eq!(registry.lookup("public-v1", 1).unwrap().handle, "second");
    assert!(registry.lookup("other", 1).is_none());
    registry.register("other", 1, "elsewhere", 12).unwrap();
    assert_eq!(registry.lookup("public-v1", 1).unwrap().stable_id, 11);
    registry.unregister("public-v1", 1, 11);
    assert!(registry.lookup("public-v1", 1).is_none());
    assert_eq!(registry.lookup("other", 1).unwrap().handle, "elsewhere");
}

#[test]
fn registry_refuses_new_peers_in_a_full_network() {
    let mut registry: PeerRegistry<u32> = PeerRegistry::new();
    for peer in 1..=100_000u32 {
        registry.register("full", peer, peer, peer as usize).unwrap();
    }
    let refused = registry.register("full", 100_001, 0, 0).unwrap_err();
    assert_eq!(refused.message(), "virtual network reached its peer limit");
    // A peer that is already present may still reconnect.
    assert_eq!(registry.register("full", 7, 70, 70).unwrap().unwrap().handle, 7);
    assert!(registry.register("roomy", 100_001, 1, 1).is_ok());
}

#[test]
fn auth_response_and_ticket_lifetime() {
    let response = AuthResponse::for_claims(&claims());
    assert!(response.accepted);
    assert_eq!(response.peer_id, 1);
    assert_eq!(response.network_id, "public-v1");
    assert!(accepted_response(response).is_some());
    let rejected = AuthResponse { accepted: false, peer_id: 1, network_id: String::new() };
    assert!(accepted_response(rejected).is_none());
    assert_eq!(ticket_lifetime(110, 100), Some(10));
    assert_eq!(ticket_lifetime(100, 100), None);
    assert_eq!(ticket_lifetime(90, 100), None);
    assert_eq!(bytes(&[1, 2, 3]), vec![1, 2, 3]);
}

#[test]
fn routing_drops_a_packet_claiming_another_virtual_address() {
    let spoofed_packet = vec![
        0x45, 0x00, 0x00, 0x1c, 0, 0, 0, 0, 0x40, 0x11, 0, 0, 100, 64, 0, 3, 100, 64, 0, 2, 0x4a,
        0xbc, 0x4a, 0xbc, 0, 8, 0, 0,
    ];
    let datagram = WireFrame::new(2, 6, spoofed_packet.clone()).unwrap().encode().unwrap();
    assert_eq!(
        route_datagram(&claims(), datagram).unwrap_err(),
        DropReason::InvalidPacket(RouteError::SpoofedSource)
    );
    assert_eq!(
        normalize_routed_packet(&claims(), WireFrame::new(2, 6, spoofed_packet).unwrap())
            .unwrap_err()
            .message(),
        "packet source is another virtual address"
    );
    // Any other address of 100.64.0.0/10 is refused too, reserved ones included.
    let mut reserved = udp_packet(1, 1);
    reserved[12..16].copy_from_slice(&[100, 127, 255, 255]);
    assert_eq!(
        normalize_routed_packet(&claims(), WireFrame::new(2, 1, reserved).unwrap()).unwrap_err(),
        RouteError::SpoofedSource
    );
    // Just outside the range, the source is rewritten.
    let mut outside = udp_packet(1, 1);
    outside[12..16].copy_from_slice(&[100, 128, 0, 3]);
    let normalized =
        normalize_routed_packet(&claims(), WireFrame::new(2, 1, outside).unwrap()).unwrap();
    assert_eq!(&normalized.payload[12..16], &[100, 64, 0, 1]);
}

#[test]
fn routed_datagrams_reach_only_the_destination_in_the_senders_network() {
    let mut registry: PeerRegistry<&'static str> = PeerRegistry::new();
    registry.register("public-v1", 1, "host", 1).unwrap();
    registry.register("public-v1", 2, "guest", 2).unwrap();
    registry.register("other", 3, "stranger", 3).unwrap();
    let original = WireFrame::new(2, 7, udp_packet(0x4abc, 0x4abc)).unwrap().encode().unwrap();
    let (peer, datagram) = route_to_peer(&registry, &claims(), original.clone()).unwrap().unwrap();
    assert_eq!(peer.handle, "guest");
    assert_eq!(datagram, original);

    // Peer 3 exists only in another network: nothing is delivered.
    let mut to_three = udp_packet(1, 1);
    to_three[16..20].copy_from_slice(&[100, 64, 0, 3]);
    let datagram = WireFrame::new(3, 1, to_three).unwrap().encode().unwrap();
    assert!(route_to_peer(&registry, &claims(), datagram).unwrap().is_none());

    let own = WireFrame::new(1, 9, udp_packet(1, 1)).unwrap().encode().unwrap();
    assert_eq!(route_to_peer(&registry, &claims(), own).unwrap_err(), DropReason::SelfDirected);

    // A rewritten source reaches the guest with the ticket address.
    let mut physical = udp_packet(1, 1);
    physical[12..16].copy_from_slice(&[192, 168, 1, 25]);
    let datagram = WireFrame::new(2, 2, physical).unwrap().encode().unwrap();
    let (peer, out) = route_to_peer(&registry, &claims(), datagram).unwrap().unwrap();
    assert_eq!(peer.stable_id, 2);
    assert_eq!(&WireFrame::decode(out).unwrap().payload[12..16], &[100, 64, 0, 1]);
}

#[test]
fn datagram_size_limit() {
    assert!(datagram_fits(1200, Some(1200)));
    assert!(!datagram_fits(1201, Some(1200)));
    assert!(!datagram_fits(1, None));
}

#[test]
fn a_checksum_written_into_its_field_verifies() {
    let a = [0x12_u8, 0x34, 0xff, 0xff, 0x00, 0x07];
    let b = [0xab_u8, 0xcd, 0xef];
    let c = internet_checksum(&[&a, &[0, 0], &b]);
    assert_eq!(internet_checksum(&[&a, &c.to_be_bytes(), &b]), 0);
    let c = internet_checksum(&[&[], &[0, 0], &[]]);
    assert_eq!(c, 0xffff);
    assert_eq!(internet_checksum(&[&[], &c.to_be_bytes(), &[]]), 0);
}
