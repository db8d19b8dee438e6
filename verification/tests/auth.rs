use base64::engine::general_purpose::URL_SAFE_NO_PAD;
use base64::Engine;
use ed25519_dalek::{Signer, SigningKey};
use flipple_multiplayer_relay::auth::{
    decode_claims_segment, decode_header_segment, decode_ticket_public_key, is_uuid,
    peer_id_for_ip, split_ticket, unix_timestamp, validate_claims_at, AuthError, PublicKeyError,
    ReplayCache, TicketClaims, TicketHeader, TicketKey, VirtualIpError, EXPECTED_AUDIENCE,
    EXPECTED_ISSUER,
};
use flipple_multiplayer_relay::ipv4::parse_ipv4;
use flipple_multiplayer_relay::PROTOCOL_VERSION;

const TEST_KEY_ID: &str = "gate-a-2026-01";
const TEST_SIGNING_KEY: [u8; 32] = [0x42; 32];

fn key() -> TicketKey {
    let signing_key = SigningKey::from_bytes(&TEST_SIGNING_KEY);
    TicketKey::new(TEST_KEY_ID.into(), signing_key.verifying_key().to_bytes()).unwrap()
}

fn claims_json(c: &TicketClaims) -> String {
    format!(
        "{{\"iss\":\"{}\",\"aud\":\"{}\",\"network_id\":\"{}\",\"lease_id\":\"{}\",\"peer_id\":{},\"role\":\"{}\",\"virtual_ip\":\"{}\",\"exp\":{},\"jti\":\"{}\",\"protocol_version\":{}}}",
        c.iss, c.aud, c.network_id, c.lease_id, c.peer_id, c.role, c.virtual_ip, c.exp, c.jti,
        c.protocol_version
    )
}

fn sign_with(header_json: &str, claims: &TicketClaims) -> String {
    let encoded_header = URL_SAFE_NO_PAD.encode(header_json.as_bytes());
    let encoded_claims = URL_SAFE_NO_PAD.encode(claims_json(claims).as_bytes());
    let signing_input = format!("{encoded_header}.{encoded_claims}");
    let signature = SigningKey::from_bytes(&TEST_SIGNING_KEY).sign(signing_input.as_bytes());
    format!("{signing_input}.{}", URL_SAFE_NO_PAD.encode(signature.to_bytes()))
}

fn sign(claims: &TicketClaims) -> String {
    sign_with(
        &format!("{{\"alg\":\"EdDSA\",\"typ\":\"JWT\",\"kid\":\"{TEST_KEY_ID}\"}}"),
        claims,
    )
}

fn text(v: &serde_json::Value, field: &str) -> Option<String> {
    v.get(field)?.as_str().map(|s| s.to_string())
}

fn parse_header(json: &[u8]) -> Option<TicketHeader> {
    let v: serde_json::Value = serde_json::from_slice(json).ok()?;
    Some(TicketHeader {
        alg: text(&v, "alg")?,
        typ: text(&v, "typ")?,
        kid: text(&v, "kid")?,
    })
}

fn parse_claims(json: &[u8]) -> Option<TicketClaims> {
    let v: serde_json::Value = serde_json::from_slice(json).ok()?;
    Some(TicketClaims {
        iss: text(&v, "iss")?,
        aud: text(&v, "aud")?,
        network_id: text(&v, "network_id")?,
        lease_id: text(&v, "lease_id")?,
        peer_id: u32::try_from(v.get("peer_id")?.as_u64()?).ok()?,
        role: text(&v, "role")?,
        virtual_ip: text(&v, "virtual_ip")?,
        exp: v.get("exp")?.as_u64()?,
        jti: text(&v, "jti")?,
        protocol_version: u8::try_from(v.get("protocol_version")?.as_u64()?).ok()?,
    })
}

fn verify_once_at(
    key: &TicketKey,
    cache: &mut ReplayCache,
    token: &str,
    now: u64,
) -> Result<TicketClaims, AuthError> {
    let segments = split_ticket(token)?;
    let header = decode_header_segment(&segments).ok().and_then(|b| parse_header(&b));
    let claims = decode_claims_segment(&segments).ok().and_then(|b| parse_claims(&b));
    key.verify_once_at(cache, &segments, header, claims, now)
}

fn verify_once(key: &TicketKey, cache: &mut ReplayCache, token: &str) -> Result<TicketClaims, AuthError> {
    let segments = split_ticket(token)?;
    let header = decode_header_segment(&segments).ok().and_then(|b| parse_header(&b));
    let claims = decode_claims_segment(&segments).ok().and_then(|b| parse_claims(&b));
    key.verify_once(cache, &segments, header, claims)
}

fn base_claims(now: u64) -> TicketClaims {
    TicketClaims {
        iss: EXPECTED_ISSUER.into(),
        aud: EXPECTED_AUDIENCE.into(),
        network_id: "public-v1".into(),
        lease_id: "11111111-1111-4111-8111-111111111111".into(),
        peer_id: 1,
        role: "member".into(),
        virtual_ip: "100.64.0.1".into(),
        exp: now + 120,
        jti: "single-use-ticket".into(),
        protocol_version: PROTOCOL_VERSION,
    }
}

#[test]
fn consumes_each_ticket_only_once() {
    let now = unix_timestamp().unwrap();
    let claims = base_claims(now);
    let token = sign(&claims);
    let key = key();
    let mut cache = ReplayCache::new();

    assert_eq!(verify_once(&key, &mut cache, &token).unwrap().peer_id, 1);
    assert!(verify_once(&key, &mut cache, &token)
        .unwrap_err()
        .message()
        .contains("already consumed"));
}

#[test]
fn discards_consumed_ticket_ids_after_expiration() {
    let now = unix_timestamp().unwrap();
    let key = key();
    let mut cache = ReplayCache::new();
    let first = TicketClaims {
        lease_id: "22222222-2222-4222-8222-222222222222".into(),
        exp: now + 1,
        jti: "expiring-ticket".into(),
        ..base_claims(now)
    };
    verify_once_at(&key, &mut cache, &sign(&first), now).unwrap();
    assert_eq!(cache.len(), 1);

    let later = now + 2;
    let second = TicketClaims {
        exp: later + 120,
        jti: "fresh-ticket".into(),
        ..first
    };
    verify_once_at(&key, &mut cache, &sign(&second), later).unwrap();
    assert_eq!(cache.len(), 1);
}

#[test]
fn accepts_network_ips_and_rejects_peer_id_mismatches() {
    let now = unix_timestamp().unwrap();
    let key = key();
    let mut cache = ReplayCache::new();
    let valid = TicketClaims {
        lease_id: "33333333-3333-4333-8333-333333333333".into(),
        peer_id: 84_470,
        virtual_ip: "100.65.73.246".into(),
        jti: "room-specific-valid".into(),
        ..base_claims(now)
    };
    assert_eq!(
        verify_once(&key, &mut cache, &sign(&valid)).unwrap().peer_id,
        84_470
    );

    let invalid = TicketClaims {
        virtual_ip: "100.65.73.245".into(),
        jti: "room-specific-invalid".into(),
        ..valid.clone()
    };
    assert!(verify_once(&key, &mut cache, &sign(&invalid))
        .unwrap_err()
        .message()
        .contains("network peer id"));

    let reserved_probe = TicketClaims {
        peer_id: 4_194_049,
        virtual_ip: "100.127.255.1".into(),
        jti: "reserved-probe-address".into(),
        ..valid
    };
    assert!(verify_once(&key, &mut cache, &sign(&reserved_probe))
        .unwrap_err()
        .message()
        .contains("reserved"));
}

#[test]
fn replayed_ticket_is_refused_until_it_expires() {
    let mut cache = ReplayCache::new();
    assert_eq!(cache.consume(&"a".to_string(), 200, 100), Ok(()));
    assert_eq!(cache.consume(&"a".to_string(), 300, 150), Err(AuthError::AlreadyConsumed));
    // A refused attempt leaves the recorded expiry (200) as it was.
    assert_eq!(cache.consume(&"a".to_string(), 120, 110), Err(AuthError::AlreadyConsumed));
    assert_eq!(cache.consume(&"a".to_string(), 200, 130), Err(AuthError::AlreadyConsumed));
    assert_eq!(cache.consume(&"a".to_string(), 400, 199), Err(AuthError::AlreadyConsumed));
    // Once expired, the id is forgotten and may be consumed again.
    assert_eq!(cache.consume(&"a".to_string(), 500, 250), Ok(()));
    assert_eq!(cache.len(), 1);
}

#[test]
fn ticket_framing_and_header_errors() {
    let key = key();
    let mut cache = ReplayCache::new();
    let now = 1_000_000;
    assert_eq!(verify_once_at(&key, &mut cache, "abc", now).unwrap_err(), AuthError::MissingClaims);
    assert_eq!(verify_once_at(&key, &mut cache, "a.b", now).unwrap_err(), AuthError::MissingSignature);
    assert_eq!(verify_once_at(&key, &mut cache, "a.b.c.d", now).unwrap_err(), AuthError::TooManySegments);
    let long = "a".repeat(4097);
    assert_eq!(verify_once_at(&key, &mut cache, &long, now).unwrap_err(), AuthError::TicketTooLong);
    assert_eq!(verify_once_at(&key, &mut cache, "!.b.c", now).unwrap_err(), AuthError::InvalidHeader);

    let claims = base_claims(now);
    let wrong_kid = sign_with("{\"alg\":\"EdDSA\",\"typ\":\"JWT\",\"kid\":\"other\"}", &claims);
    assert_eq!(verify_once_at(&key, &mut cache, &wrong_kid, now).unwrap_err(), AuthError::HeaderNotAccepted);

    let token = sign(&claims);
    let segments: Vec<&str> = token.split('.').collect();
    let tampered = format!("{}.{}.{}", segments[0], URL_SAFE_NO_PAD.encode(b"{}"), segments[2]);
    assert_eq!(verify_once_at(&key, &mut cache, &tampered, now).unwrap_err(), AuthError::SignatureRejected);
    let short_sig = format!("{}.{}.{}", segments[0], segments[1], URL_SAFE_NO_PAD.encode([1u8; 10]));
    assert_eq!(verify_once_at(&key, &mut cache, &short_sig, now).unwrap_err(), AuthError::InvalidSignature);
    let bad_sig = format!("{}.{}.***", segments[0], segments[1]);
    assert_eq!(verify_once_at(&key, &mut cache, &bad_sig, now).unwrap_err(), AuthError::InvalidSignatureEncoding);
    assert_eq!(verify_once_at(&key, &mut cache, &token, now).unwrap().jti, "single-use-ticket");
}

#[test]
fn claims_are_checked_in_order() {
    let now = 1_000_000;
    let ok = base_claims(now);
    assert_eq!(validate_claims_at(&ok, now), Ok(()));
    let check = |c: TicketClaims| validate_claims_at(&c, now).unwrap_err();
    assert_eq!(check(TicketClaims { iss: "x".into(), ..ok.clone() }), AuthError::IssuerOrAudience);
    assert_eq!(check(TicketClaims { aud: "x".into(), ..ok.clone() }), AuthError::IssuerOrAudience);
    assert_eq!(check(TicketClaims { exp: now, ..ok.clone() }), AuthError::Lifetime);
    assert_eq!(check(TicketClaims { exp: now + 301, ..ok.clone() }), AuthError::Lifetime);
    assert_eq!(validate_claims_at(&TicketClaims { exp: now + 300, ..ok.clone() }, now), Ok(()));
    assert_eq!(check(TicketClaims { protocol_version: 1, ..ok.clone() }), AuthError::ProtocolVersion);
    assert_eq!(check(TicketClaims { network_id: "Public".into(), ..ok.clone() }), AuthError::Identifiers);
    assert_eq!(check(TicketClaims { network_id: String::new(), ..ok.clone() }), AuthError::Identifiers);
    assert_eq!(check(TicketClaims { network_id: "a".repeat(65), ..ok.clone() }), AuthError::Identifiers);
    assert_eq!(check(TicketClaims { lease_id: "not-a-uuid".into(), ..ok.clone() }), AuthError::Identifiers);
    assert_eq!(check(TicketClaims { jti: String::new(), ..ok.clone() }), AuthError::Identifiers);
    assert_eq!(check(TicketClaims { jti: "j".repeat(129), ..ok.clone() }), AuthError::Identifiers);
    assert_eq!(check(TicketClaims { virtual_ip: "100.64.0.01".into(), ..ok.clone() }), AuthError::VirtualIpNotIpv4);
    assert_eq!(check(TicketClaims { role: "host".into(), ..ok.clone() }), AuthError::Role);
    assert_eq!(
        check(TicketClaims { virtual_ip: "10.0.0.1".into(), ..ok.clone() }),
        AuthError::VirtualIp(VirtualIpError::OutsideRange)
    );
    assert_eq!(check(TicketClaims { peer_id: 2, ..ok.clone() }), AuthError::PeerIdMismatch);
}

#[test]
fn peer_ids_follow_the_virtual_address() {
    assert_eq!(peer_id_for_ip([100, 64, 0, 1]), Ok(1));
    assert_eq!(peer_id_for_ip([100, 65, 73, 246]), Ok(84_470));
    assert_eq!(peer_id_for_ip([100, 127, 254, 255]), Ok(4_194_047));
    assert_eq!(peer_id_for_ip([100, 127, 255, 0]), Err(VirtualIpError::Reserved));
    assert_eq!(peer_id_for_ip([100, 64, 0, 0]), Err(VirtualIpError::Reserved));
    assert_eq!(peer_id_for_ip([100, 128, 0, 1]), Err(VirtualIpError::OutsideRange));
    assert_eq!(peer_id_for_ip([100, 63, 255, 255]), Err(VirtualIpError::OutsideRange));
    assert_eq!(peer_id_for_ip([101, 64, 0, 1]), Err(VirtualIpError::OutsideRange));
}

#[test]
fn dotted_quads_parse_like_ipv4addr() {
    assert_eq!(parse_ipv4(b"100.64.0.1"), Some([100, 64, 0, 1]));
    assert_eq!(parse_ipv4(b"255.255.255.255"), Some([255; 4]));
    assert_eq!(parse_ipv4(b"0.0.0.0"), Some([0; 4]));
    for bad in ["256.0.0.1", "01.2.3.4", "1.2.3", "1.2.3.4.5", "1..2.3", "1.2.3.4 ", "", "1.2.3.0004", "a.b.c.d", "1.2.3.+4"] {
        assert_eq!(parse_ipv4(bad.as_bytes()), None, "{bad}");
    }
}

#[test]
fn uuid_shape_accepts_either_case() {
    assert!(is_uuid("11111111-1111-4111-8111-111111111111"));
    assert!(is_uuid("ABCDEF01-abcd-4111-8111-0123456789ab"));
    assert!(!is_uuid("11111111-1111-4111-8111-11111111111"));
    assert!(!is_uuid("11111111_1111-4111-8111-111111111111"));
    assert!(!is_uuid("g1111111-1111-4111-8111-111111111111"));
}

#[test]
fn public_key_must_be_32_base64url_bytes() {
    let bytes = [7u8; 32];
    let text = URL_SAFE_NO_PAD.encode(bytes);
    assert_eq!(decode_ticket_public_key(&text), Ok(bytes));
    assert_eq!(decode_ticket_public_key("%%%"), Err(PublicKeyError::NotBase64url));
    assert_eq!(decode_ticket_public_key(&URL_SAFE_NO_PAD.encode([1u8; 31])), Err(PublicKeyError::WrongLength));
    assert_eq!(decode_ticket_public_key(&format!("{text}=")), Err(PublicKeyError::NotBase64url));
}

#[test]
fn ticket_key_refuses_bytes_that_are_not_a_curve_point() {
    let mut refused = None;
    for b in 0..=255u8 {
        let candidate = [b; 32];
        if ed25519_dalek::VerifyingKey::from_bytes(&candidate).is_err() {
            refused = Some(candidate);
            break;
        }
    }
    let candidate = refused.expect("some constant array is not a curve point");
    assert_eq!(TicketKey::new("k".into(), candidate).err(), Some(AuthError::InvalidPublicKey));
    assert_eq!(AuthError::InvalidPublicKey.message(), "invalid Ed25519 public key");
}

#[test]
fn segments_decode_from_base64url() {
    let segments = split_ticket("eyJhIjoxfQ.e30.sig").unwrap();
    assert_eq!(decode_header_segment(&segments).unwrap(), b"{\"a\":1}".to_vec());
    assert_eq!(decode_claims_segment(&segments).unwrap(), b"{}".to_vec());
    assert_eq!(segments.signature, b"sig".to_vec());
}

#[test]
fn clock_reads_after_2020() {
    assert!(unix_timestamp().unwrap() > 1_600_000_000);
}

#[test]
fn clock_free_refusals_come_before_the_clock() {
    let key = key();
    let now = unix_timestamp().unwrap();
    let segments = split_ticket("a.b.c").unwrap();
    assert_eq!(key.check_ticket(&segments, None, None).unwrap_err(), AuthError::InvalidHeader);
    let good = base_claims(now);
    let token = sign(&good);
    let segments = split_ticket(&token).unwrap();
    let header = decode_header_segment(&segments).ok().and_then(|b| parse_header(&b));
    assert_eq!(
        key.check_ticket(&segments, header.clone(), None).unwrap_err(),
        AuthError::InvalidClaims
    );
    let claims = key.check_ticket(&segments, header.clone(), Some(good.clone())).unwrap();
    assert_eq!(claims.jti, good.jti);
    // A refused ticket leaves the record untouched; an accepted one is recorded once.
    let mut cache = ReplayCache::new();
    assert_eq!(
        key.verify_once(&mut cache, &segments, header.clone(), None).unwrap_err(),
        AuthError::InvalidClaims
    );
    assert_eq!(cache.len(), 0);
    assert!(key.verify_once(&mut cache, &segments, header.clone(), Some(good.clone())).is_ok());
    assert_eq!(
        key.verify_once(&mut cache, &segments, header, Some(good)).unwrap_err(),
        AuthError::AlreadyConsumed
    );
    assert_eq!(cache.len(), 1);
}

#[test]
fn an_accepted_id_stays_refused_while_other_ids_come_and_go() {
    let mut cache = ReplayCache::new();
    assert_eq!(cache.consume(&"a".to_string(), 200, 100), Ok(()));
    assert_eq!(cache.consume(&"b".to_string(), 120, 105), Ok(()));
    assert_eq!(cache.consume(&"c".to_string(), 300, 130), Ok(()));
    assert_eq!(cache.consume(&"a".to_string(), 500, 140), Err(AuthError::AlreadyConsumed));
    assert_eq!(cache.consume(&"b".to_string(), 150, 125), Ok(()));
    assert_eq!(cache.consume(&"a".to_string(), 500, 199), Err(AuthError::AlreadyConsumed));
    // By 199 the record of "b" (until 150) has expired: "a" and "c" remain.
    assert_eq!(cache.len(), 2);
}
