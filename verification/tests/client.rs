use flipple_multiplayer_relay::client::{
    connect_arguments_present, is_blank, outbound_datagram, relay_port, ClientError,
};
use flipple_multiplayer_relay::text::{split_bytes, str_eq};
use flipple_multiplayer_relay::wire::{WireError, WireFrame};

#[test]
fn outbound_packets_never_target_the_sender() {
    assert_eq!(outbound_datagram(2, 2, 1, vec![1]), Err(ClientError::SamePeer));
    assert_eq!(outbound_datagram(2, 0, 1, vec![1]), Err(ClientError::Wire(WireError::InvalidDestination)));
    assert_eq!(outbound_datagram(2, 3, 1, Vec::new()), Err(ClientError::Wire(WireError::EmptyPayload)));
    let datagram = outbound_datagram(1, 2, 11, vec![0x45, 0, 0, 0x1c]).unwrap();
    let frame = WireFrame::decode(datagram).unwrap();
    assert_eq!(frame.dst_peer, 2);
    assert_eq!(frame.sequence, 11);
    assert_eq!(frame.payload, vec![0x45, 0, 0, 0x1c]);
}

#[test]
fn connect_requires_non_blank_arguments() {
    assert!(connect_arguments_present("localhost", "ticket").is_ok());
    assert_eq!(connect_arguments_present(" \t\n", "ticket"), Err(ClientError::MissingArguments));
    assert_eq!(connect_arguments_present("localhost", "\u{3000}\u{a0}"), Err(ClientError::MissingArguments));
    for s in ["", " ", "\u{85}", "\u{2028}\u{205f}", "x", " x ", "\u{200b}"] {
        assert_eq!(is_blank(s), s.trim().is_empty(), "{s:?}");
    }
}

#[test]
fn relay_ports_are_one_to_65535() {
    assert_eq!(relay_port(0), None);
    assert_eq!(relay_port(-1), None);
    assert_eq!(relay_port(65_536), None);
    assert_eq!(relay_port(443), Some(443));
    assert_eq!(relay_port(65_535), Some(65_535));
}

#[test]
fn splitting_matches_str_split() {
    for s in ["", ".", "a.b.c", "..a", "a..", "abc"] {
        let ours: Vec<Vec<u8>> = split_bytes(s.as_bytes(), b'.');
        let std_split: Vec<Vec<u8>> = s.split('.').map(|p| p.as_bytes().to_vec()).collect();
        assert_eq!(ours, std_split, "{s:?}");
    }
    assert!(str_eq("héllo", "héllo"));
    assert!(!str_eq("héllo", "hello"));
}

#[test]
fn client_errors_carry_the_frame_error_text() {
    assert_eq!(ClientError::SamePeer.message(), "cannot send a relay packet to the same peer");
    assert_eq!(ClientError::Rejected.message(), "relay rejected authentication");
    assert_eq!(
        ClientError::MissingArguments.message(),
        "relay server name and ticket are required"
    );
    assert_eq!(ClientError::Wire(WireError::EmptyPayload).message(), "payload is empty");
    assert_eq!(
        ClientError::Wire(WireError::UnsupportedFlags(16)).message(),
        "unsupported flags 0x10"
    );
}
