//! Relay tickets: compact EdDSA JWTs signed by the control plane. This module
//! holds the checks on their framing, header, signature and claims, the
//! mapping from virtual IPv4 addresses to peer ids, and the single-use cache.

use vstd::prelude::*;

use crate::ipv4::{ipv4_of, parse_ipv4};
use crate::primitives::{
    base64url_decode, base64url_decoded, ed25519_key_decodes, ed25519_key_is_valid,
    ed25519_signature_verifies, ed25519_verify, since_unix_epoch, system_time_now, whole_seconds,
};
use crate::text::{join_on, law_split_then_join, split_bytes, split_on, str_eq, utf8, vecs_view};
use crate::PROTOCOL_VERSION;

verus! {

pub const EXPECTED_ISSUER: &'static str = "flipple-control-plane";
pub const EXPECTED_AUDIENCE: &'static str = "flipple-multiplayer-relay";
pub const MAX_TICKET_LEN: usize = 4096;
/// Longest lifetime, in seconds, that a ticket may still have when presented.
pub const MAX_TICKET_LIFETIME: u64 = 300;
/// Highest peer id that a virtual address may carry; the addresses above it
/// (the last /24 of the range) are reserved.
pub const LAST_PEER_ID: u32 = 4_194_047;

#[derive(Clone, Debug)]
pub struct TicketHeader {
    pub alg: String,
    pub typ: String,
    pub kid: String,
}

#[derive(Clone, Debug)]
pub struct TicketClaims {
    pub iss: String,
    pub aud: String,
    pub network_id: String,
    pub lease_id: String,
    pub peer_id: u32,
    pub role: String,
    pub virtual_ip: String,
    pub exp: u64,
    pub jti: String,
    pub protocol_version: u8,
}

#[derive(Clone, Copy, Debug, PartialEq, Eq)]
pub enum VirtualIpError {
    OutsideRange,
    Reserved,
}

#[derive(Clone, Copy, Debug, PartialEq, Eq)]
pub enum AuthError {
    TicketTooLong,
    MissingClaims,
    MissingSignature,
    TooManySegments,
    InvalidHeader,
    HeaderNotAccepted,
    InvalidSignatureEncoding,
    InvalidSignature,
    SignatureRejected,
    InvalidClaims,
    IssuerOrAudience,
    Lifetime,
    ProtocolVersion,
    Identifiers,
    VirtualIpNotIpv4,
    Role,
    VirtualIp(VirtualIpError),
    PeerIdMismatch,
    AlreadyConsumed,
    ClockBeforeEpoch,
    InvalidPublicKey,
}

pub open spec fn virtual_ip_error_text(e: VirtualIpError) -> &'static str {
    match e {
        VirtualIpError::OutsideRange => "virtual IP is outside 100.64.0.0/10",
        VirtualIpError::Reserved => "virtual IP is reserved",
    }
}

pub open spec fn auth_error_text(e: AuthError) -> &'static str {
    match e {
        AuthError::TicketTooLong => "ticket exceeds maximum length",
        AuthError::MissingClaims => "missing ticket claims",
        AuthError::MissingSignature => "missing ticket signature",
        AuthError::TooManySegments => "ticket contains too many segments",
        AuthError::InvalidHeader => "invalid ticket header",
        AuthError::HeaderNotAccepted => "ticket header is not accepted",
        AuthError::InvalidSignatureEncoding => "invalid ticket signature encoding",
        AuthError::InvalidSignature => "invalid Ed25519 signature",
        AuthError::SignatureRejected => "ticket signature verification failed",
        AuthError::InvalidClaims => "invalid ticket claims",
        AuthError::IssuerOrAudience => "ticket issuer or audience is invalid",
        AuthError::Lifetime => "ticket is expired or exceeds the five-minute lifetime",
        AuthError::ProtocolVersion => "ticket protocol version is not supported",
        AuthError::Identifiers => "ticket identifiers are invalid",
        AuthError::VirtualIpNotIpv4 => "ticket virtual IP is not IPv4",
        AuthError::Role => "ticket role is not accepted for the virtual network",
        AuthError::VirtualIp(v) => virtual_ip_error_text(v),
        AuthError::PeerIdMismatch => "ticket virtual IP does not match its network peer id",
        AuthError::AlreadyConsumed => "ticket was already consumed",
        AuthError::ClockBeforeEpoch => "system clock is before Unix epoch",
        AuthError::InvalidPublicKey => "invalid Ed25519 public key",
    }
}

impl VirtualIpError {
    pub fn message(&self) -> (r: &'static str)
        ensures
            r == virtual_ip_error_text(*self),
    {
        match self {
            VirtualIpError::OutsideRange => "virtual IP is outside 100.64.0.0/10",
            VirtualIpError::Reserved => "virtual IP is reserved",
        }
    }
}

impl AuthError {
    /// Human-readable reason, as reported in logs and errors.
    pub fn message(&self) -> (r: &'static str)
        ensures
            r == auth_error_text(*self),
    {
        match self {
            AuthError::TicketTooLong => "ticket exceeds maximum length",
            AuthError::MissingClaims => "missing ticket claims",
            AuthError::MissingSignature => "missing ticket signature",
            AuthError::TooManySegments => "ticket contains too many segments",
            AuthError::InvalidHeader => "invalid ticket header",
            AuthError::HeaderNotAccepted => "ticket header is not accepted",
            AuthError::InvalidSignatureEncoding => "invalid ticket signature encoding",
            AuthError::InvalidSignature => "invalid Ed25519 signature",
            AuthError::SignatureRejected => "ticket signature verification failed",
            AuthError::InvalidClaims => "invalid ticket claims",
            AuthError::IssuerOrAudience => "ticket issuer or audience is invalid",
            AuthError::Lifetime => "ticket is expired or exceeds the five-minute lifetime",
            AuthError::ProtocolVersion => "ticket protocol version is not supported",
            AuthError::Identifiers => "ticket identifiers are invalid",
            AuthError::VirtualIpNotIpv4 => "ticket virtual IP is not IPv4",
            AuthError::Role => "ticket role is not accepted for the virtual network",
            AuthError::VirtualIp(v) => v.message(),
            AuthError::PeerIdMismatch => "ticket virtual IP does not match its network peer id",
            AuthError::AlreadyConsumed => "ticket was already consumed",
            AuthError::ClockBeforeEpoch => "system clock is before Unix epoch",
            AuthError::InvalidPublicKey => "invalid Ed25519 public key",
        }
    }
}

// ---------------------------------------------------------------------------
// Virtual addresses and peer ids

/// Peer id carried by a virtual address in 100.64.0.0/10: the low 22 bits.
pub open spec fn peer_id_of(ip: Seq<u8>) -> Result<u32, VirtualIpError> {
    if ip[0] != 100 || ip[1] < 64 || ip[1] > 127 {
        Err(VirtualIpError::OutsideRange)
    } else {
        let id = ((ip[1] - 64) as int) * 65536 + (ip[2] as int) * 256 + (ip[3] as int);
        if id == 0 || id > LAST_PEER_ID {
            Err(VirtualIpError::Reserved)
        } else {
            Ok(id as u32)
        }
    }
}

/// The virtual address of a peer id.
pub open spec fn ip_of_peer(id: u32) -> Seq<u8> {
    seq![100u8, (64 + (id >> 16)) as u8, ((id >> 8) & 0xff) as u8, (id & 0xff) as u8]
}

/// Maps an authenticated virtual IPv4 address to its network peer id.
pub fn peer_id_for_ip(ip: [u8; 4]) -> (r: Result<u32, VirtualIpError>)
    ensures
        r == peer_id_of(ip@),
{
    if ip[0] != 100 || !(64 <= ip[1] && ip[1] <= 127) {
        return Err(VirtualIpError::OutsideRange);
    }
    let a: u8 = ip[1] - 64;
    let b: u8 = ip[2];
    let c: u8 = ip[3];
    let peer_id: u32 = ((a as u32) << 16) | ((b as u32) << 8) | (c as u32);
    assert(a < 64 ==> ((a as u32) << 16) | ((b as u32) << 8) | (c as u32) == (a as u32) * 65536
        + (b as u32) * 256 + (c as u32)) by (bit_vector);
    if peer_id == 0 || peer_id > LAST_PEER_ID {
        return Err(VirtualIpError::Reserved);
    }
    Ok(peer_id)
}

/// Peer ids and virtual addresses correspond one to one: an address maps
/// to a peer id exactly when it is that peer's address and the id is in
/// 1..=LAST_PEER_ID. No two addresses share a peer id.
pub proof fn law_peer_id_matches_one_address(ip: Seq<u8>, id: u32)
    requires
        ip.len() == 4,
    ensures
        peer_id_of(ip) == Ok::<u32, VirtualIpError>(id) <==> (1 <= id <= LAST_PEER_ID && ip
            == ip_of_peer(id)),
{
    let a = ip[1];
    let b = ip[2];
    let c = ip[3];
    if peer_id_of(ip) == Ok::<u32, VirtualIpError>(id) {
        let d = (a - 64) as u8;
        assert(d < 64 && id == (d as u32) * 65536 + (b as u32) * 256 + (c as u32) ==> (64 + (id
            >> 16)) as u8 == d + 64 && ((id >> 8) & 0xff) as u8 == b && (id & 0xff) as u8 == c)
            by (bit_vector);
        assert(ip =~= ip_of_peer(id));
    }
    if 1 <= id <= LAST_PEER_ID && ip == ip_of_peer(id) {
        assert(1 <= id <= 4_194_047 ==> (64 + (id >> 16)) as u8 >= 64 && (64 + (id >> 16)) as u8
            <= 127 && ((((64 + (id >> 16)) as u8) - 64) as u8 as u32) * 65536 + ((((id >> 8)
            & 0xff) as u8) as u32) * 256 + (((id & 0xff) as u8) as u32) == id) by (bit_vector);
    }
}

// ---------------------------------------------------------------------------
// Claims

pub open spec fn is_hex_digit(b: u8) -> bool {
    (48 <= b <= 57) || (65 <= b <= 70) || (97 <= b <= 102)
}

/// Canonical textual UUID shape: 8-4-4-4-12 hexadecimal digits.
pub open spec fn uuid_shaped(b: Seq<u8>) -> bool {
    &&& b.len() == 36
    &&& forall|i: int|
        0 <= i < 36 ==> if i == 8 || i == 13 || i == 18 || i == 23 {
            #[trigger] b[i] == 45
        } else {
            is_hex_digit(b[i])
        }
}

/// The hexadecimal digit of a nibble, in lower or upper case.
pub open spec fn hex_digit_of(n: int, upper: bool) -> u8 {
    if n < 10 {
        (48 + n) as u8
    } else if upper {
        (55 + n) as u8
    } else {
        (87 + n) as u8
    }
}

/// Which of the 32 hexadecimal digits stands at position `i` of the
/// 8-4-4-4-12 text (positions 8, 13, 18 and 23 hold hyphens).
pub open spec fn uuid_digit_index(i: int) -> int {
    if i < 8 {
        i
    } else if i < 13 {
        i - 1
    } else if i < 18 {
        i - 2
    } else if i < 23 {
        i - 3
    } else {
        i - 4
    }
}

/// The canonical 8-4-4-4-12 text of a 128-bit value given as 16 bytes,
/// high nibble first, in lower or upper case.
pub open spec fn uuid_text(v: Seq<u8>, upper: bool) -> Seq<u8> {
    Seq::new(
        36,
        |i: int|
            if i == 8 || i == 13 || i == 18 || i == 23 {
                45u8
            } else {
                let k = uuid_digit_index(i);
                let byte = v[k / 2];
                hex_digit_of(if k % 2 == 0 { (byte / 16) as int } else { (byte % 16) as int }, upper)
            },
    )
}

/// Every 128-bit value's canonical UUID text is accepted, in lower and in
/// upper case.
pub proof fn law_uuid_text_accepted(v: Seq<u8>, upper: bool)
    requires
        v.len() == 16,
    ensures
        uuid_shaped(uuid_text(v, upper)),
{
    let t = uuid_text(v, upper);
    assert forall|i: int| 0 <= i < 36 && !(i == 8 || i == 13 || i == 18 || i == 23) implies is_hex_digit(
        #[trigger] t[i],
    ) by {
        let k = uuid_digit_index(i);
        assert(0 <= k < 32);
        let byte = v[k / 2];
        assert(byte / 16 < 16 && byte % 16 < 16);
    }
}

pub open spec fn network_id_byte(b: u8) -> bool {
    (97 <= b <= 122) || (48 <= b <= 57) || b == 45
}

/// 1 to 64 bytes of lowercase ASCII letters, digits and hyphens.
pub open spec fn network_id_shaped(b: Seq<u8>) -> bool {
    1 <= b.len() <= 64 && forall|i: int| 0 <= i < b.len() ==> network_id_byte(#[trigger] b[i])
}

pub open spec fn identifiers_ok(c: TicketClaims) -> bool {
    &&& network_id_shaped(utf8(c.network_id@))
    &&& uuid_shaped(utf8(c.lease_id@))
    &&& 1 <= utf8(c.jti@).len() <= 128
}

/// Why the claims of a correctly signed ticket are refused at time `now`,
/// checked in this order, or `Ok` when they are accepted.
pub open spec fn claims_verdict(c: TicketClaims, now: u64) -> Result<(), AuthError> {
    if c.iss@ != EXPECTED_ISSUER@ || c.aud@ != EXPECTED_AUDIENCE@ {
        Err(AuthError::IssuerOrAudience)
    } else if c.exp <= now || c.exp > now + MAX_TICKET_LIFETIME {
        Err(AuthError::Lifetime)
    } else if c.protocol_version != PROTOCOL_VERSION {
        Err(AuthError::ProtocolVersion)
    } else if !identifiers_ok(c) {
        Err(AuthError::Identifiers)
    } else {
        match ipv4_of(utf8(c.virtual_ip@)) {
            None => Err(AuthError::VirtualIpNotIpv4),
            Some(ip) => if c.role@ != "member"@ {
                Err(AuthError::Role)
            } else {
                match peer_id_of(ip) {
                    Err(e) => Err(AuthError::VirtualIp(e)),
                    Ok(id) => if id != c.peer_id {
                        Err(AuthError::PeerIdMismatch)
                    } else {
                        Ok(())
                    },
                }
            },
        }
    }
}

/// Whether `value` is a canonical textual UUID (hex digits of either case).
pub fn is_uuid(value: &str) -> (r: bool)
    ensures
        r == uuid_shaped(utf8(value@)),
{
    let b = value.as_bytes();
    if b.len() != 36 {
        return false;
    }
    let mut i: usize = 0;
    while i < 36
        invariant
            i <= 36,
            b@.len() == 36,
            b@ == utf8(value@),
            forall|k: int|
                0 <= k < i ==> if k == 8 || k == 13 || k == 18 || k == 23 {
                    #[trigger] b@[k] == 45
                } else {
                    is_hex_digit(b@[k])
                },
        decreases 36 - i,
    {
        let byte = b[i];
        let ok = if i == 8 || i == 13 || i == 18 || i == 23 {
            byte == 45
        } else {
            (48 <= byte && byte <= 57) || (65 <= byte && byte <= 70) || (97 <= byte && byte
                <= 102)
        };
        if !ok {
            assert(!(if i == 8 || i == 13 || i == 18 || i == 23 {
                b@[i as int] == 45
            } else {
                is_hex_digit(b@[i as int])
            }));
            return false;
        }
        i += 1;
    }
    true
}

fn is_network_id(value: &str) -> (r: bool)
    ensures
        r == network_id_shaped(utf8(value@)),
{
    let b = value.as_bytes();
    if b.len() == 0 || b.len() > 64 {
        return false;
    }
    let mut i: usize = 0;
    while i < b.len()
        invariant
            i <= b@.len(),
            1 <= b@.len() <= 64,
            b@ == utf8(value@),
            forall|k: int| 0 <= k < i ==> network_id_byte(#[trigger] b@[k]),
        decreases b@.len() - i,
    {
        let byte = b[i];
        if !((97 <= byte && byte <= 122) || (48 <= byte && byte <= 57) || byte == 45) {
            assert(!network_id_byte(b@[i as int]));
            return false;
        }
        i += 1;
    }
    true
}

/// Checks the claims of a correctly signed ticket against the clock reading
/// `now` (seconds since the Unix epoch).
pub fn validate_claims_at(claims: &TicketClaims, now: u64) -> (r: Result<(), AuthError>)
    ensures
        r == claims_verdict(*claims, now),
{
    if !str_eq(claims.iss.as_str(), EXPECTED_ISSUER) || !str_eq(
        claims.aud.as_str(),
        EXPECTED_AUDIENCE,
    ) {
        return Err(AuthError::IssuerOrAudience);
    }
    if claims.exp <= now || claims.exp - now > MAX_TICKET_LIFETIME {
        return Err(AuthError::Lifetime);
    }
    if claims.protocol_version != PROTOCOL_VERSION {
        return Err(AuthError::ProtocolVersion);
    }
    let jti_len = claims.jti.as_str().as_bytes().len();
    if !is_network_id(claims.network_id.as_str()) || !is_uuid(claims.lease_id.as_str())
        || jti_len == 0 || jti_len > 128 {
        return Err(AuthError::Identifiers);
    }
    let ip_text = claims.virtual_ip.as_str().as_bytes();
    let virtual_ip = match parse_ipv4(ip_text) {
        Some(ip) => ip,
        None => {
            return Err(AuthError::VirtualIpNotIpv4);
        },
    };
    if !str_eq(claims.role.as_str(), "member") {
        return Err(AuthError::Role);
    }
    match peer_id_for_ip(virtual_ip) {
        Err(e) => Err(AuthError::VirtualIp(e)),
        Ok(id) => if id != claims.peer_id {
            Err(AuthError::PeerIdMismatch)
        } else {
            Ok(())
        },
    }
}

/// Seconds since the Unix epoch, from the system clock.
pub fn unix_timestamp() -> (r: Result<u64, AuthError>)
    ensures
        r is Err ==> r == Err::<u64, AuthError>(AuthError::ClockBeforeEpoch),
{
    let now = system_time_now();
    match since_unix_epoch(&now) {
        Ok(elapsed) => Ok(whole_seconds(&elapsed)),
        Err(_) => Err(AuthError::ClockBeforeEpoch),
    }
}

/// `now` is a time that reading the system clock (`unix_timestamp`) gave.
/// Nothing more is known of the clock; what this pins is that a decision
/// said to be taken on the clock was taken on a time the clock reported,
/// not on one computed from the ticket.
pub open spec fn clock_reading(now: u64) -> bool {
    call_ensures(unix_timestamp, (), Ok::<u64, AuthError>(now))
}

/// Reading the system clock failed: it reported a time before the epoch.
pub open spec fn clock_failed() -> bool {
    call_ensures(unix_timestamp, (), Err::<u64, AuthError>(AuthError::ClockBeforeEpoch))
}

/// Checks the claims of a correctly signed ticket against the system clock:
/// claims it accepts expire after the time read and at most
/// `MAX_TICKET_LIFETIME` seconds after it.
pub fn validate_claims(claims: &TicketClaims) -> (r: Result<(), AuthError>)
    ensures
        match r {
            Ok(()) => exists|now: u64|
                #[trigger] clock_reading(now) && now < claims.exp <= now + MAX_TICKET_LIFETIME
                    && claims_verdict(*claims, now) is Ok,
            Err(e) => (e == AuthError::ClockBeforeEpoch && clock_failed()) || exists|now: u64|
                #[trigger] clock_reading(now) && claims_verdict(*claims, now) == Err::<
                    (),
                    AuthError,
                >(e),
        },
{
    let read = unix_timestamp();
    let now = match read {
        Ok(t) => t,
        Err(e) => {
            assert(clock_failed());
            return Err(e);
        },
    };
    assert(clock_reading(now));
    let r = validate_claims_at(claims, now);
    proof {
        if r is Ok {
            law_accepted_claims_bind_peer_to_address(*claims, now);
        }
    }
    r
}

// ---------------------------------------------------------------------------
// Token framing and signature

/// The three base64url segments of a compact JWT, still encoded.
pub struct TicketSegments {
    pub header: Vec<u8>,
    pub claims: Vec<u8>,
    pub signature: Vec<u8>,
}

/// How a token's bytes split into header, claims and signature segments.
pub open spec fn ticket_segments(b: Seq<u8>) -> Result<(Seq<u8>, Seq<u8>, Seq<u8>), AuthError> {
    if b.len() > MAX_TICKET_LEN {
        Err(AuthError::TicketTooLong)
    } else {
        let f = split_on(b, 46);
        if f.len() < 2 {
            Err(AuthError::MissingClaims)
        } else if f.len() < 3 {
            Err(AuthError::MissingSignature)
        } else if f.len() > 3 {
            Err(AuthError::TooManySegments)
        } else {
            Ok((f[0], f[1], f[2]))
        }
    }
}

/// The bytes the control plane signs: header and claims segments joined by a dot.
pub open spec fn signing_input(header: Seq<u8>, claims: Seq<u8>) -> Seq<u8> {
    header + seq![46u8] + claims
}

/// Splits a token into its three segments.
pub fn split_ticket(token: &str) -> (r: Result<TicketSegments, AuthError>)
    ensures
        match r {
            Ok(s) => ticket_segments(utf8(token@)) == Ok::<_, AuthError>(
                (s.header@, s.claims@, s.signature@),
            ),
            Err(e) => ticket_segments(utf8(token@)) == Err::<(Seq<u8>, Seq<u8>, Seq<u8>), _>(e),
        },
{
    let bytes = token.as_bytes();
    if bytes.len() > MAX_TICKET_LEN {
        return Err(AuthError::TicketTooLong);
    }
    let mut parts = split_bytes(bytes, 46);
    if parts.len() < 2 {
        return Err(AuthError::MissingClaims);
    }
    if parts.len() < 3 {
        return Err(AuthError::MissingSignature);
    }
    if parts.len() > 3 {
        return Err(AuthError::TooManySegments);
    }
    let ghost f = vecs_view(parts@);
    let signature = parts.pop().unwrap();
    let claims = parts.pop().unwrap();
    let header = parts.pop().unwrap();
    assert(header@ == f[0] && claims@ == f[1] && signature@ == f[2]);
    Ok(TicketSegments { header, claims, signature })
}

/// A token that splits is exactly header, dot, claims, dot, signature, and
/// the signed bytes are its prefix up to the second dot.
pub proof fn law_segments_rebuild_token(b: Seq<u8>)
    requires
        ticket_segments(b) is Ok,
    ensures
        ({
            let (h, c, s) = ticket_segments(b)->Ok_0;
            &&& b == signing_input(h, c) + seq![46u8] + s
            &&& signing_input(h, c) == b.take(h.len() + 1 + c.len() as int)
            &&& !h.contains(46u8) && !c.contains(46u8) && !s.contains(46u8)
        }),
{
    let f = split_on(b, 46);
    law_split_then_join(b, 46);
    assert(f.drop_last().drop_last().drop_last() =~= Seq::<Seq<u8>>::empty());
    assert(f.drop_last().drop_last() =~= seq![f[0]]);
    assert(join_on(seq![f[0]], 46) == f[0]);
    assert(f.drop_last() =~= seq![f[0], f[1]]);
    assert(join_on(seq![f[0], f[1]], 46) == f[0] + seq![46u8] + f[1]);
    assert(b =~= signing_input(f[0], f[1]) + seq![46u8] + f[2]);
    assert(signing_input(f[0], f[1]) =~= b.take(f[0].len() + 1 + f[1].len() as int));
    assert forall|k: int| 0 <= k < f[0].len() implies f[0][k] != 46u8 by {
        assert(f[0][k] == split_on(b, 46)[0][k]);
    }
    assert forall|k: int| 0 <= k < f[1].len() implies f[1][k] != 46u8 by {
        assert(f[1][k] == split_on(b, 46)[1][k]);
    }
    assert forall|k: int| 0 <= k < f[2].len() implies f[2][k] != 46u8 by {
        assert(f[2][k] == split_on(b, 46)[2][k]);
    }
}

/// Decodes the header segment into its JSON bytes.
pub fn decode_header_segment(segments: &TicketSegments) -> (r: Result<Vec<u8>, AuthError>)
    ensures
        match r {
            Ok(json) => base64url_decoded(segments.header@) == Some(json@),
            Err(e) => base64url_decoded(segments.header@) is None && e == AuthError::InvalidHeader,
        },
{
    match base64url_decode(segments.header.as_slice()) {
        Some(json) => Ok(json),
        None => Err(AuthError::InvalidHeader),
    }
}

/// Decodes the claims segment into its JSON bytes.
pub fn decode_claims_segment(segments: &TicketSegments) -> (r: Result<Vec<u8>, AuthError>)
    ensures
        match r {
            Ok(json) => base64url_decoded(segments.claims@) == Some(json@),
            Err(e) => base64url_decoded(segments.claims@) is None && e == AuthError::InvalidClaims,
        },
{
    match base64url_decode(segments.claims.as_slice()) {
        Some(json) => Ok(json),
        None => Err(AuthError::InvalidClaims),
    }
}

/// Whether a ticket header names EdDSA, JWT and the given key id.
pub open spec fn header_accepted(h: TicketHeader, key_id: Seq<char>) -> bool {
    h.alg@ == "EdDSA"@ && h.typ@ == "JWT"@ && h.kid@ == key_id
}

/// Why the signature segment is refused for these header and claims
/// segments under this key, or `Ok` when it verifies.
pub open spec fn signature_verdict(
    public_key: Seq<u8>,
    header: Seq<u8>,
    claims: Seq<u8>,
    signature: Seq<u8>,
) -> Result<(), AuthError> {
    match base64url_decoded(signature) {
        None => Err(AuthError::InvalidSignatureEncoding),
        Some(sig) => if sig.len() != 64 {
            Err(AuthError::InvalidSignature)
        } else if ed25519_signature_verifies(public_key, signing_input(header, claims), sig) {
            Ok(())
        } else {
            Err(AuthError::SignatureRejected)
        },
    }
}

/// The control plane's ticket verification key and its key id.
pub struct TicketKey {
    key_id: String,
    public_key: [u8; 32],
}

impl TicketKey {
    #[verifier::type_invariant]
    spec fn key_decodes(&self) -> bool {
        ed25519_key_decodes(self.public_key@)
    }

    pub closed spec fn key_id_view(&self) -> Seq<char> {
        self.key_id@
    }

    pub closed spec fn public_key_view(&self) -> Seq<u8> {
        self.public_key@
    }

    /// Accepts a key id and a 32-byte Ed25519 public key that decodes to a
    /// curve point.
    pub fn new(key_id: String, public_key: [u8; 32]) -> (r: Result<TicketKey, AuthError>)
        ensures
            match r {
                Ok(k) => ed25519_key_decodes(public_key@) && k.key_id_view() == key_id@
                    && k.public_key_view() == public_key@,
                Err(e) => !ed25519_key_decodes(public_key@) && e == AuthError::InvalidPublicKey,
            },
    {
        if !ed25519_key_is_valid(&public_key) {
            return Err(AuthError::InvalidPublicKey);
        }
        Ok(TicketKey { key_id, public_key })
    }

    /// Accepts only `alg` EdDSA, `typ` JWT and this key's id.
    pub fn check_header(&self, header: &TicketHeader) -> (r: Result<(), AuthError>)
        ensures
            r is Ok <==> header_accepted(*header, self.key_id_view()),
            r is Err ==> r == Err::<(), AuthError>(AuthError::HeaderNotAccepted),
    {
        if !str_eq(header.alg.as_str(), "EdDSA") || !str_eq(header.typ.as_str(), "JWT")
            || !str_eq(header.kid.as_str(), self.key_id.as_str()) {
            return Err(AuthError::HeaderNotAccepted);
        }
        Ok(())
    }

    /// Decodes the signature segment and verifies it over the header and
    /// claims segments as they were sent.
    pub fn check_signature(&self, segments: &TicketSegments) -> (r: Result<(), AuthError>)
        ensures
            r == signature_verdict(
                self.public_key_view(),
                segments.header@,
                segments.claims@,
                segments.signature@,
            ),
    {
        let bytes = match base64url_decode(segments.signature.as_slice()) {
            Some(bytes) => bytes,
            None => {
                return Err(AuthError::InvalidSignatureEncoding);
            },
        };
        if bytes.len() != 64 {
            return Err(AuthError::InvalidSignature);
        }
        let mut signature = [0u8; 64];
        let mut i: usize = 0;
        while i < 64
            invariant
                i <= 64,
                bytes@.len() == 64,
                forall|k: int| 0 <= k < i ==> signature@[k] == bytes@[k],
            decreases 64 - i,
        {
            signature[i] = bytes[i];
            i += 1;
        }
        assert(signature@ =~= bytes@);
        let mut message: Vec<u8> = Vec::new();
        message.extend_from_slice(segments.header.as_slice());
        message.push(46);
        message.extend_from_slice(segments.claims.as_slice());
        assert(message@ =~= signing_input(segments.header@, segments.claims@));
        if ed25519_verify(&self.public_key, message.as_slice(), &signature) {
            Ok(())
        } else {
            Err(AuthError::SignatureRejected)
        }
    }
}

/// The checks that need no clock, in this order: the header (as parsed
/// from the header segment; `None` when it was not base64url JSON of the
/// right shape), the signature over the segments as sent, then the presence
/// of claims (likewise parsed).
pub open spec fn ticket_precheck(
    public_key: Seq<u8>,
    key_id: Seq<char>,
    segments: (Seq<u8>, Seq<u8>, Seq<u8>),
    header: Option<TicketHeader>,
    claims: Option<TicketClaims>,
) -> Result<(), AuthError> {
    match header {
        None => Err(AuthError::InvalidHeader),
        Some(h) => if !header_accepted(h, key_id) {
            Err(AuthError::HeaderNotAccepted)
        } else {
            match signature_verdict(public_key, segments.0, segments.1, segments.2) {
                Err(e) => Err(e),
                Ok(()) => if claims is None {
                    Err(AuthError::InvalidClaims)
                } else {
                    Ok(())
                },
            }
        },
    }
}

/// Why a ticket is refused before its id is consumed: the checks that need
/// no clock, then the claims at time `now`.
pub open spec fn ticket_check(
    public_key: Seq<u8>,
    key_id: Seq<char>,
    segments: (Seq<u8>, Seq<u8>, Seq<u8>),
    header: Option<TicketHeader>,
    claims: Option<TicketClaims>,
    now: u64,
) -> Result<(), AuthError> {
    match ticket_precheck(public_key, key_id, segments, header, claims) {
        Err(e) => Err(e),
        Ok(()) => claims_verdict(claims->Some_0, now),
    }
}

impl TicketSegments {
    pub open spec fn parts(&self) -> (Seq<u8>, Seq<u8>, Seq<u8>) {
        (self.header@, self.claims@, self.signature@)
    }
}

impl TicketKey {
    /// Checks header and signature of a ticket and that it carries claims,
    /// handing the claims back.
    fn check_before_clock(
        &self,
        segments: &TicketSegments,
        header: Option<TicketHeader>,
        claims: Option<TicketClaims>,
    ) -> (r: Result<TicketClaims, AuthError>)
        ensures
            match r {
                Ok(c) => claims == Some(c) && ticket_precheck(
                    self.public_key_view(),
                    self.key_id_view(),
                    segments.parts(),
                    header,
                    claims,
                ) is Ok,
                Err(e) => ticket_precheck(
                    self.public_key_view(),
                    self.key_id_view(),
                    segments.parts(),
                    header,
                    claims,
                ) == Err::<(), AuthError>(e),
            },
    {
        let header = match header {
            Some(h) => h,
            None => {
                return Err(AuthError::InvalidHeader);
            },
        };
        self.check_header(&header)?;
        self.check_signature(segments)?;
        match claims {
            Some(c) => Ok(c),
            None => Err(AuthError::InvalidClaims),
        }
    }

    /// Checks header, signature and claims of a ticket at time `now`,
    /// handing back its claims when they are accepted.
    pub fn check_ticket_at(
        &self,
        segments: &TicketSegments,
        header: Option<TicketHeader>,
        claims: Option<TicketClaims>,
        now: u64,
    ) -> (r: Result<TicketClaims, AuthError>)
        ensures
            match r {
                Ok(c) => claims == Some(c) && ticket_check(
                    self.public_key_view(),
                    self.key_id_view(),
                    segments.parts(),
                    header,
                    claims,
                    now,
                ) is Ok,
                Err(e) => ticket_check(
                    self.public_key_view(),
                    self.key_id_view(),
                    segments.parts(),
                    header,
                    claims,
                    now,
                ) == Err::<(), AuthError>(e),
            },
    {
        let claims = self.check_before_clock(segments, header, claims)?;
        validate_claims_at(&claims, now)?;
        Ok(claims)
    }

    /// Checks header, signature and claims of a ticket against the system
    /// clock, read once the signature has verified: every refusal that needs
    /// no clock comes exactly as `ticket_precheck` gives it.
    pub fn check_ticket(
        &self,
        segments: &TicketSegments,
        header: Option<TicketHeader>,
        claims: Option<TicketClaims>,
    ) -> (r: Result<TicketClaims, AuthError>)
        ensures
            match ticket_precheck(
                self.public_key_view(),
                self.key_id_view(),
                segments.parts(),
                header,
                claims,
            ) {
                Err(e) => r == Err::<TicketClaims, AuthError>(e),
                Ok(()) => match r {
                    Ok(c) => claims == Some(c) && exists|now: u64|
                        #[trigger] clock_reading(now) && now < c.exp <= now + MAX_TICKET_LIFETIME
                            && claims_verdict(c, now) is Ok,
                    Err(e) => (e == AuthError::ClockBeforeEpoch && clock_failed()) || exists|
                        now: u64,
                    |
                        #[trigger] clock_reading(now) && claims_verdict(claims->Some_0, now)
                            == Err::<(), AuthError>(e),
                },
            },
    {
        let checked = self.check_before_clock(segments, header, claims)?;
        match validate_claims(&checked) {
            Ok(()) => Ok(checked),
            Err(e) => Err(e),
        }
    }
}

// ---------------------------------------------------------------------------
// Single-use ticket ids

/// The ids that stay recorded at time `now`: those whose ticket has not expired.
pub open spec fn unexpired(m: Map<Seq<char>, u64>, now: u64) -> Map<Seq<char>, u64> {
    Map::new(|k: Seq<char>| m.dom().contains(k) && m[k] > now, |k: Seq<char>| m[k])
}

/// Recording ticket id `jti`, valid until `exp`, at time `now`: expired ids
/// are forgotten first; a ticket whose id is still recorded is refused and
/// leaves the record as it was, otherwise its id is recorded with this expiry.
pub open spec fn consume_outcome(m: Map<Seq<char>, u64>, jti: Seq<char>, exp: u64, now: u64) -> (
    Map<Seq<char>, u64>,
    Result<(), AuthError>,
) {
    let kept = unexpired(m, now);
    if kept.dom().contains(jti) {
        (kept, Err(AuthError::AlreadyConsumed))
    } else {
        (kept.insert(jti, exp), Ok(()))
    }
}

struct UsedTicket {
    jti: String,
    expires_at: u64,
}

spec fn used_map(s: Seq<UsedTicket>) -> Map<Seq<char>, u64>
    decreases s.len(),
{
    if s.len() == 0 {
        Map::empty()
    } else {
        used_map(s.drop_last()).insert(s.last().jti@, s.last().expires_at)
    }
}

spec fn distinct_jtis(s: Seq<UsedTicket>) -> bool {
    forall|i: int, j: int| 0 <= i < j < s.len() ==> s[i].jti@ != s[j].jti@
}

proof fn lemma_used_map_contains(s: Seq<UsedTicket>, k: Seq<char>)
    ensures
        used_map(s).dom().contains(k) <==> exists|i: int| 0 <= i < s.len() && s[i].jti@ == k,
    decreases s.len(),
{
    if s.len() > 0 {
        lemma_used_map_contains(s.drop_last(), k);
        if used_map(s).dom().contains(k) && k != s.last().jti@ {
            let i = choose|i: int| 0 <= i < s.len() - 1 && s.drop_last()[i].jti@ == k;
            assert(s[i].jti@ == k);
        }
        if exists|i: int| 0 <= i < s.len() && s[i].jti@ == k {
            let i = choose|i: int| 0 <= i < s.len() && s[i].jti@ == k;
            if i < s.len() - 1 {
                assert(s.drop_last()[i].jti@ == k);
            }
        }
    }
}

proof fn lemma_used_map_len(s: Seq<UsedTicket>)
    requires
        distinct_jtis(s),
    ensures
        used_map(s).dom().finite(),
        used_map(s).dom().len() == s.len(),
    decreases s.len(),
{
    if s.len() > 0 {
        let d = s.drop_last();
        lemma_used_map_len(d);
        lemma_used_map_contains(d, s.last().jti@);
        if used_map(d).dom().contains(s.last().jti@) {
            let i = choose|i: int| 0 <= i < d.len() && d[i].jti@ == s.last().jti@;
            assert(s[i].jti@ == s[s.len() - 1].jti@);
        }
    }
}

/// Ticket ids consumed so far, each kept until its ticket expires.
///
/// The ids are held in a vector with no id twice rather than a `HashMap`
/// keyed by `String`: vstd's `HashMap` specification relates a map's
/// contents to its view only for key types whose hashing it models
/// (`obeys_key_model`), and `String` is not one of them, so no contract
/// about a `String`-keyed map could be proved.
pub struct ReplayCache {
    used: Vec<UsedTicket>,
}

impl View for ReplayCache {
    type V = Map<Seq<char>, u64>;

    closed spec fn view(&self) -> Map<Seq<char>, u64> {
        used_map(self.used@)
    }
}

impl ReplayCache {
    #[verifier::type_invariant]
    spec fn ids_distinct(&self) -> bool {
        distinct_jtis(self.used@)
    }

    pub fn new() -> (r: ReplayCache)
        ensures
            r@ == Map::<Seq<char>, u64>::empty(),
    {
        ReplayCache { used: Vec::new() }
    }

    /// Number of ticket ids currently recorded.
    pub fn len(&self) -> (r: usize)
        ensures
            r == self@.dom().len(),
            self@.dom().finite(),
    {
        proof {
            use_type_invariant(self);
            lemma_used_map_len(self.used@);
        }
        self.used.len()
    }

    /// Consumes ticket id `jti` (valid until `exp`) at time `now`, refusing
    /// an id that was consumed before and has not yet expired.
    pub fn consume(&mut self, jti: &String, exp: u64, now: u64) -> (r: Result<(), AuthError>)
        ensures
            (final(self)@, r) == consume_outcome(old(self)@, jti@, exp, now),
    {
        proof {
            use_type_invariant(&*self);
        }
        let ghost old_used = self.used@;
        let ghost old_map = self@;
        let mut kept: Vec<UsedTicket> = Vec::new();
        let mut i: usize = 0;
        assert(old_used.take(0) =~= Seq::<UsedTicket>::empty());
        assert(used_map(kept@) =~= unexpired(used_map(old_used.take(0)), now));
        while i < self.used.len()
            invariant
                i <= old_used.len(),
                self.used@ == old_used,
                distinct_jtis(old_used),
                distinct_jtis(kept@),
                used_map(kept@) == unexpired(used_map(old_used.take(i as int)), now),
            decreases old_used.len() - i,
        {
            let e = &self.used[i];
            let ghost m = used_map(old_used.take(i as int));
            assert(old_used.take(i as int + 1).drop_last() =~= old_used.take(i as int));
            proof {
                lemma_used_map_contains(old_used.take(i as int), e.jti@);
                if m.dom().contains(e.jti@) {
                    let b = choose|b: int|
                        0 <= b < i && old_used.take(i as int)[b].jti@ == e.jti@;
                    assert(old_used[b].jti@ == old_used[i as int].jti@);
                }
                lemma_used_map_contains(kept@, e.jti@);
            }
            if e.expires_at > now {
                let copy = UsedTicket { jti: e.jti.clone(), expires_at: e.expires_at };
                let ghost before = kept@;
                kept.push(copy);
                assert(kept@.drop_last() =~= before);
                assert(used_map(kept@) == used_map(before).insert(e.jti@, e.expires_at));
                assert(used_map(kept@) =~= unexpired(used_map(old_used.take(i as int + 1)), now));
            } else {
                assert(used_map(kept@) =~= unexpired(used_map(old_used.take(i as int + 1)), now));
            }
            i += 1;
        }
        assert(old_used.take(old_used.len() as int) =~= old_used);
        let ghost kept_map = used_map(kept@);
        let mut j: usize = 0;
        while j < kept.len()
            invariant
                j <= kept@.len(),
                used_map(kept@) == kept_map,
                kept_map == unexpired(old_map, now),
                old_map == old(self)@,
                distinct_jtis(kept@),
                forall|a: int| 0 <= a < j ==> kept@[a].jti@ != jti@,
            decreases kept@.len() - j,
        {
            if str_eq(kept[j].jti.as_str(), jti.as_str()) {
                proof {
                    lemma_used_map_contains(kept@, jti@);
                }
                assert(kept_map.dom().contains(jti@));
                self.used = kept;
                return Err(AuthError::AlreadyConsumed);
            }
            j += 1;
        }
        proof {
            lemma_used_map_contains(kept@, jti@);
        }
        let fresh = UsedTicket { jti: jti.clone(), expires_at: exp };
        let ghost before = kept@;
        kept.push(fresh);
        assert(kept@.drop_last() =~= before);
        assert(used_map(kept@) == kept_map.insert(jti@, exp));
        self.used = kept;
        Ok(())
    }
}

impl ReplayCache {
    /// Consumes the id of a ticket whose claims were accepted, at the time
    /// read from the system clock.
    pub fn consume_ticket(&mut self, claims: TicketClaims) -> (r: Result<TicketClaims, AuthError>)
        ensures
            match r {
                Ok(c) => c == claims && exists|now: u64|
                    #[trigger] clock_reading(now) && consume_outcome(
                        old(self)@,
                        claims.jti@,
                        claims.exp,
                        now,
                    ) == (final(self)@, Ok::<(), AuthError>(())),
                Err(e) => (e == AuthError::ClockBeforeEpoch && clock_failed() && final(self)@ == old(
                    self,
                )@) || exists|now: u64|
                    #[trigger] clock_reading(now) && consume_outcome(
                        old(self)@,
                        claims.jti@,
                        claims.exp,
                        now,
                    ) == (final(self)@, Err::<(), AuthError>(e)),
            },
    {
        let read = unix_timestamp();
        let now = match read {
            Ok(t) => t,
            Err(e) => {
                assert(clock_failed());
                return Err(e);
            },
        };
        assert(clock_reading(now));
        self.consume(&claims.jti, claims.exp, now)?;
        Ok(claims)
    }
}

impl TicketKey {
    /// Checks a ticket at time `now` and, once it is accepted, consumes its
    /// id in `cache` at that time; a refused ticket leaves `cache` as it was.
    pub fn verify_once_at(
        &self,
        cache: &mut ReplayCache,
        segments: &TicketSegments,
        header: Option<TicketHeader>,
        claims: Option<TicketClaims>,
        now: u64,
    ) -> (r: Result<TicketClaims, AuthError>)
        ensures
            match ticket_check(
                self.public_key_view(),
                self.key_id_view(),
                segments.parts(),
                header,
                claims,
                now,
            ) {
                Err(e) => r == Err::<TicketClaims, AuthError>(e) && final(cache)@ == old(cache)@,
                Ok(()) => {
                    let c = claims->Some_0;
                    let (m, res) = consume_outcome(old(cache)@, c.jti@, c.exp, now);
                    &&& final(cache)@ == m
                    &&& match res {
                        Ok(()) => r == Ok::<TicketClaims, AuthError>(c),
                        Err(e) => r == Err::<TicketClaims, AuthError>(e),
                    }
                },
            },
    {
        let checked = self.check_ticket_at(segments, header, claims, now)?;
        match cache.consume(&checked.jti, checked.exp, now) {
            Ok(()) => Ok(checked),
            Err(e) => Err(e),
        }
    }

    /// Checks a ticket and, once it is accepted, consumes its id, each
    /// against the system clock: the checks that need no clock refuse a
    /// ticket exactly as `ticket_precheck` says, and a refused ticket leaves
    /// `cache` as it was.
    pub fn verify_once(
        &self,
        cache: &mut ReplayCache,
        segments: &TicketSegments,
        header: Option<TicketHeader>,
        claims: Option<TicketClaims>,
    ) -> (r: Result<TicketClaims, AuthError>)
        ensures
            match ticket_precheck(
                self.public_key_view(),
                self.key_id_view(),
                segments.parts(),
                header,
                claims,
            ) {
                Err(e) => r == Err::<TicketClaims, AuthError>(e) && final(cache)@ == old(cache)@,
                Ok(()) => {
                    let c = claims->Some_0;
                    match r {
                        Ok(x) => x == c && (exists|t: u64|
                            #[trigger] clock_reading(t) && t < c.exp <= t + MAX_TICKET_LIFETIME
                                && claims_verdict(c, t) is Ok) && exists|t: u64|
                            #[trigger] clock_reading(t) && consume_outcome(
                                old(cache)@,
                                c.jti@,
                                c.exp,
                                t,
                            ) == (final(cache)@, Ok::<(), AuthError>(())),
                        Err(e) => (final(cache)@ == old(cache)@ && ((e == AuthError::ClockBeforeEpoch
                            && clock_failed()) || exists|t: u64|
                            #[trigger] clock_reading(t) && claims_verdict(c, t) == Err::<
                                (),
                                AuthError,
                            >(e))) || (e == AuthError::ClockBeforeEpoch && clock_failed()
                            && final(cache)@ == old(cache)@) || exists|t: u64|
                            #[trigger] clock_reading(t) && consume_outcome(
                                old(cache)@,
                                c.jti@,
                                c.exp,
                                t,
                            ) == (final(cache)@, Err::<(), AuthError>(e)),
                    }
                },
            },
    {
        let checked = self.check_ticket(segments, header, claims)?;
        cache.consume_ticket(checked)
    }
}

/// A ticket id is consumed once: after it is accepted, presenting it again
/// at any time before its expiry is refused.
pub proof fn law_ticket_consumed_once(
    m: Map<Seq<char>, u64>,
    jti: Seq<char>,
    exp: u64,
    now: u64,
    later_exp: u64,
    later: u64,
)
    requires
        consume_outcome(m, jti, exp, now).1 is Ok,
        later < exp,
    ensures
        consume_outcome(consume_outcome(m, jti, exp, now).0, jti, later_exp, later).1 == Err::<
            (),
            AuthError,
        >(AuthError::AlreadyConsumed),
{
}

/// A refused ticket changes nothing that is still live: while a recorded
/// id has not expired, presenting it again, with any expiry, is refused and
/// leaves its recorded expiry (and every other live record) as it was.
pub proof fn law_refusal_keeps_record(
    m: Map<Seq<char>, u64>,
    jti: Seq<char>,
    exp: u64,
    now: u64,
)
    requires
        m.dom().contains(jti),
        now < m[jti],
    ensures
        consume_outcome(m, jti, exp, now) == (
            unexpired(m, now),
            Err::<(), AuthError>(AuthError::AlreadyConsumed),
        ),
        consume_outcome(m, jti, exp, now).0.dom().contains(jti),
        consume_outcome(m, jti, exp, now).0[jti] == m[jti],
{
}

/// A consume step at time `now` keeps every record that is still live then:
/// an id recorded until after `now` stays recorded with the same expiry,
/// whichever id the step presents and whether it is accepted or refused.
pub proof fn law_consume_keeps_live_records(
    m: Map<Seq<char>, u64>,
    jti: Seq<char>,
    exp: u64,
    now: u64,
    kept: Seq<char>,
)
    requires
        m.dom().contains(kept),
        now < m[kept],
    ensures
        consume_outcome(m, jti, exp, now).0.dom().contains(kept),
        consume_outcome(m, jti, exp, now).0[kept] == m[kept],
{
}

/// The record after each of `steps` (id, expiry, time) is presented in turn.
pub open spec fn consume_all(
    m: Map<Seq<char>, u64>,
    steps: Seq<(Seq<char>, u64, u64)>,
) -> Map<Seq<char>, u64>
    decreases steps.len(),
{
    if steps.len() == 0 {
        m
    } else {
        let last = steps.last();
        consume_outcome(consume_all(m, steps.drop_last()), last.0, last.1, last.2).0
    }
}

proof fn lemma_live_record_survives(
    m: Map<Seq<char>, u64>,
    steps: Seq<(Seq<char>, u64, u64)>,
    kept: Seq<char>,
)
    requires
        m.dom().contains(kept),
        forall|i: int| 0 <= i < steps.len() ==> #[trigger] steps[i].2 < m[kept],
    ensures
        consume_all(m, steps).dom().contains(kept),
        consume_all(m, steps)[kept] == m[kept],
    decreases steps.len(),
{
    if steps.len() > 0 {
        let d = steps.drop_last();
        assert forall|i: int| 0 <= i < d.len() implies #[trigger] d[i].2 < m[kept] by {
            assert(d[i] == steps[i]);
        }
        lemma_live_record_survives(m, d, kept);
        let last = steps.last();
        assert(last.2 < m[kept]);
        law_consume_keeps_live_records(consume_all(m, d), last.0, last.1, last.2, kept);
    }
}

/// A ticket id is accepted at most once before its ticket expires: once
/// `jti` is accepted with expiry `exp`, every later presentation of it, at
/// any time before `exp`, is refused, whatever other ids are consumed (or
/// refused) in between and in whatever order their times come.
pub proof fn law_accepted_id_never_accepted_again(
    m: Map<Seq<char>, u64>,
    jti: Seq<char>,
    exp: u64,
    now: u64,
    steps: Seq<(Seq<char>, u64, u64)>,
    i: int,
)
    requires
        consume_outcome(m, jti, exp, now).1 is Ok,
        forall|k: int| 0 <= k < steps.len() ==> #[trigger] steps[k].2 < exp,
        0 <= i < steps.len(),
        steps[i].0 == jti,
    ensures
        consume_outcome(
            consume_all(consume_outcome(m, jti, exp, now).0, steps.take(i)),
            jti,
            steps[i].1,
            steps[i].2,
        ).1 == Err::<(), AuthError>(AuthError::AlreadyConsumed),
{
    let start = consume_outcome(m, jti, exp, now).0;
    let before = steps.take(i);
    assert forall|k: int| 0 <= k < before.len() implies #[trigger] before[k].2 < start[jti] by {
        assert(before[k] == steps[k]);
    }
    lemma_live_record_survives(start, before, jti);
    assert(steps[i].2 < exp);
}

/// Consumed ids are forgotten once their ticket has expired: the record
/// then no longer holds them, and their id may be accepted again.
pub proof fn law_expired_ids_forgotten(
    m: Map<Seq<char>, u64>,
    jti: Seq<char>,
    exp: u64,
    now: u64,
    other: Seq<char>,
)
    requires
        other != jti,
        m.dom().contains(other) ==> m[other] <= now,
    ensures
        !consume_outcome(m, jti, exp, now).0.dom().contains(other),
        consume_outcome(m, other, exp, now).1 is Ok,
{
}

/// An accepted ticket is live for at most `MAX_TICKET_LIFETIME` seconds,
/// and the peer id it authenticates is exactly the one its virtual address
/// maps to.
pub proof fn law_accepted_claims_bind_peer_to_address(c: TicketClaims, now: u64)
    requires
        claims_verdict(c, now) is Ok,
    ensures
        now < c.exp <= now + MAX_TICKET_LIFETIME,
        ipv4_of(utf8(c.virtual_ip@)) is Some,
        peer_id_of(ipv4_of(utf8(c.virtual_ip@))->Some_0) == Ok::<u32, VirtualIpError>(c.peer_id),
        1 <= c.peer_id <= LAST_PEER_ID,
{
}

#[derive(Clone, Copy, Debug, PartialEq, Eq)]
pub enum PublicKeyError {
    NotBase64url,
    WrongLength,
}

/// Decodes the relay's ticket verification key from base64url text.
pub fn decode_ticket_public_key(text: &str) -> (r: Result<[u8; 32], PublicKeyError>)
    ensures
        match base64url_decoded(utf8(text@)) {
            None => r == Err::<[u8; 32], _>(PublicKeyError::NotBase64url),
            Some(b) => if b.len() == 32 {
                r matches Ok(k) && k@ == b
            } else {
                r == Err::<[u8; 32], _>(PublicKeyError::WrongLength)
            },
        },
{
    let bytes = match base64url_decode(text.as_bytes()) {
        Some(b) => b,
        None => {
            return Err(PublicKeyError::NotBase64url);
        },
    };
    if bytes.len() != 32 {
        return Err(PublicKeyError::WrongLength);
    }
    let mut key = [0u8; 32];
    let mut i: usize = 0;
    while i < 32
        invariant
            i <= 32,
            bytes@.len() == 32,
            forall|k: int| 0 <= k < i ==> key@[k] == bytes@[k],
        decreases 32 - i,
    {
        key[i] = bytes[i];
        i += 1;
    }
    assert(key@ =~= bytes@);
    Ok(key)
}

} // verus!
