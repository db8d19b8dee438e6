//! Data-frame codec: a 10-byte big-endian header followed by one raw IP packet.

use vstd::prelude::*;

use crate::text::{decimal_text, hex2_text, push_decimal, push_hex2};
use crate::PROTOCOL_VERSION;

verus! {

pub const HEADER_LEN: usize = 10;
pub const MAX_DATAGRAM_LEN: usize = 1200;
pub const MAX_PAYLOAD_LEN: usize = MAX_DATAGRAM_LEN - HEADER_LEN;
pub const FLAG_IP_PACKET: u8 = 0;

/// One relay data frame. The source peer is never carried: the relay derives
/// it from the authenticated connection.
#[derive(Clone, Debug, PartialEq, Eq)]
pub struct WireFrame {
    pub flags: u8,
    pub dst_peer: u32,
    pub sequence: u32,
    pub payload: Vec<u8>,
}

#[derive(Clone, Copy, Debug, PartialEq, Eq)]
pub enum WireError {
    TooShort,
    UnsupportedVersion(u8),
    UnsupportedFlags(u8),
    InvalidDestination,
    EmptyPayload,
    TooLarge,
}

/// What a frame error says.
pub open spec fn wire_error_text(e: WireError) -> Seq<char> {
    match e {
        WireError::TooShort => "frame is shorter than the 10-byte header"@,
        WireError::UnsupportedVersion(v) => "unsupported protocol version "@ + decimal_text(v),
        WireError::UnsupportedFlags(f) => "unsupported flags 0x"@ + hex2_text(f),
        WireError::InvalidDestination => "destination peer must be non-zero"@,
        WireError::EmptyPayload => "payload is empty"@,
        WireError::TooLarge => "frame exceeds the 1200-byte POC limit"@,
    }
}

impl WireError {
    pub fn message(&self) -> (r: String)
        ensures
            r@ == wire_error_text(*self),
    {
        match self {
            WireError::TooShort => String::from_str("frame is shorter than the 10-byte header"),
            WireError::UnsupportedVersion(v) => {
                let mut s = String::from_str("unsupported protocol version ");
                push_decimal(&mut s, *v);
                s
            },
            WireError::UnsupportedFlags(f) => {
                let mut s = String::from_str("unsupported flags 0x");
                push_hex2(&mut s, *f);
                s
            },
            WireError::InvalidDestination => String::from_str("destination peer must be non-zero"),
            WireError::EmptyPayload => String::from_str("payload is empty"),
            WireError::TooLarge => String::from_str("frame exceeds the 1200-byte POC limit"),
        }
    }
}

/// The four header/payload fields of a frame, as mathematical values.
pub type FrameParts = (u8, u32, u32, Seq<u8>);

pub open spec fn byte_at(x: u32, shift: u32) -> u8 {
    ((x >> shift) & 0xff) as u8
}

/// Big-endian (network order) encoding of a 32-bit value.
pub open spec fn be_u32_bytes(x: u32) -> Seq<u8> {
    seq![byte_at(x, 24), byte_at(x, 16), byte_at(x, 8), byte_at(x, 0)]
}

/// Value of four bytes read in network byte order.
pub open spec fn be_u32_value(a: u8, b: u8, c: u8, d: u8) -> u32 {
    ((a as u32) << 24) | ((b as u32) << 16) | ((c as u32) << 8) | (d as u32)
}

/// Why a frame with these fields is refused, if it is.
pub open spec fn frame_error(flags: u8, dst_peer: u32, payload: Seq<u8>) -> Option<WireError> {
    if flags != FLAG_IP_PACKET {
        Some(WireError::UnsupportedFlags(flags))
    } else if dst_peer == 0 {
        Some(WireError::InvalidDestination)
    } else if payload.len() == 0 {
        Some(WireError::EmptyPayload)
    } else if payload.len() > MAX_PAYLOAD_LEN {
        Some(WireError::TooLarge)
    } else {
        None
    }
}

pub open spec fn parts_error(p: FrameParts) -> Option<WireError> {
    frame_error(p.0, p.1, p.3)
}

/// The bytes of a frame on the wire.
pub open spec fn encode_parts(p: FrameParts) -> Seq<u8> {
    seq![PROTOCOL_VERSION, p.0] + be_u32_bytes(p.1) + be_u32_bytes(p.2) + p.3
}

/// What decoding a datagram yields: the checks run in this order.
pub open spec fn decode_bytes(b: Seq<u8>) -> Result<FrameParts, WireError> {
    if b.len() < HEADER_LEN {
        Err(WireError::TooShort)
    } else if b.len() > MAX_DATAGRAM_LEN {
        Err(WireError::TooLarge)
    } else if b[0] != PROTOCOL_VERSION {
        Err(WireError::UnsupportedVersion(b[0]))
    } else {
        let p: FrameParts = (
            b[1],
            be_u32_value(b[2], b[3], b[4], b[5]),
            be_u32_value(b[6], b[7], b[8], b[9]),
            b.skip(HEADER_LEN as int),
        );
        match parts_error(p) {
            Some(e) => Err(e),
            None => Ok(p),
        }
    }
}

impl WireFrame {
    pub open spec fn parts(&self) -> FrameParts {
        (self.flags, self.dst_peer, self.sequence, self.payload@)
    }
}

proof fn lemma_be_u32_split(x: u32)
    ensures
        be_u32_value(byte_at(x, 24), byte_at(x, 16), byte_at(x, 8), byte_at(x, 0)) == x,
{
    assert(((((x >> 24) & 0xff) as u8 as u32) << 24) | ((((x >> 16) & 0xff) as u8 as u32) << 16)
        | ((((x >> 8) & 0xff) as u8 as u32) << 8) | (((x >> 0) & 0xff) as u8 as u32) == x)
        by (bit_vector);
}

proof fn lemma_be_u32_join(a: u8, b: u8, c: u8, d: u8)
    ensures
        be_u32_bytes(be_u32_value(a, b, c, d)) == seq![a, b, c, d],
{
    let x = be_u32_value(a, b, c, d);
    assert(((((((a as u32) << 24) | ((b as u32) << 16) | ((c as u32) << 8) | (d as u32)) >> 24)
        & 0xff) as u8) == a) by (bit_vector);
    assert(((((((a as u32) << 24) | ((b as u32) << 16) | ((c as u32) << 8) | (d as u32)) >> 16)
        & 0xff) as u8) == b) by (bit_vector);
    assert(((((((a as u32) << 24) | ((b as u32) << 16) | ((c as u32) << 8) | (d as u32)) >> 8)
        & 0xff) as u8) == c) by (bit_vector);
    assert(((((((a as u32) << 24) | ((b as u32) << 16) | ((c as u32) << 8) | (d as u32)) >> 0)
        & 0xff) as u8) == d) by (bit_vector);
    assert(be_u32_bytes(x) =~= seq![a, b, c, d]);
}

/// Decoding what was encoded gives back the same frame, for every frame that
/// passes validation.
pub proof fn law_decode_after_encode(p: FrameParts)
    requires
        parts_error(p).is_none(),
    ensures
        decode_bytes(encode_parts(p)) == Ok::<FrameParts, WireError>(p),
        encode_parts(p).len() == HEADER_LEN + p.3.len(),
        encode_parts(p).len() <= MAX_DATAGRAM_LEN,
{
    let b = encode_parts(p);
    lemma_be_u32_split(p.1);
    lemma_be_u32_split(p.2);
    assert(b.skip(HEADER_LEN as int) =~= p.3);
}

/// Every datagram that decodes is exactly the encoding of what it decodes
/// to: nothing is truncated, padded or normalized away.
pub proof fn law_encode_after_decode(b: Seq<u8>)
    requires
        decode_bytes(b) is Ok,
    ensures
        encode_parts(decode_bytes(b)->Ok_0) == b,
{
    lemma_be_u32_join(b[2], b[3], b[4], b[5]);
    lemma_be_u32_join(b[6], b[7], b[8], b[9]);
    assert(encode_parts(decode_bytes(b)->Ok_0) =~= b);
}

fn push_be_u32(out: &mut Vec<u8>, x: u32)
    ensures
        final(out)@ == old(out)@ + be_u32_bytes(x),
{
    out.push(((x >> 24) & 0xff) as u8);
    out.push(((x >> 16) & 0xff) as u8);
    out.push(((x >> 8) & 0xff) as u8);
    out.push((x & 0xff) as u8);
    proof {
        assert(x & 0xff == (x >> 0) & 0xff) by (bit_vector);
    }
    assert(final(out)@ =~= old(out)@ + be_u32_bytes(x));
}

fn read_be_u32(a: u8, b: u8, c: u8, d: u8) -> (x: u32)
    ensures
        x == be_u32_value(a, b, c, d),
{
    ((a as u32) << 24) | ((b as u32) << 16) | ((c as u32) << 8) | (d as u32)
}

impl WireFrame {
    /// Builds a raw-IP frame, refusing any frame that could not be encoded.
    pub fn new(dst_peer: u32, sequence: u32, payload: Vec<u8>) -> (r: Result<Self, WireError>)
        ensures
            match r {
                Ok(f) => f.parts() == (FLAG_IP_PACKET, dst_peer, sequence, payload@)
                    && frame_error(FLAG_IP_PACKET, dst_peer, payload@).is_none(),
                Err(e) => frame_error(FLAG_IP_PACKET, dst_peer, payload@) == Some(e),
            },
    {
        let frame = WireFrame { flags: FLAG_IP_PACKET, dst_peer, sequence, payload };
        match frame.validate() {
            Ok(()) => Ok(frame),
            Err(e) => Err(e),
        }
    }

    /// Network-order encoding of a valid frame.
    pub fn encode(&self) -> (r: Result<Vec<u8>, WireError>)
        ensures
            match r {
                Ok(bytes) => parts_error(self.parts()).is_none() && bytes@ == encode_parts(
                    self.parts(),
                ),
                Err(e) => parts_error(self.parts()) == Some(e),
            },
    {
        self.validate()?;
        let mut encoded: Vec<u8> = Vec::with_capacity(HEADER_LEN + self.payload.len());
        encoded.push(PROTOCOL_VERSION);
        encoded.push(self.flags);
        push_be_u32(&mut encoded, self.dst_peer);
        push_be_u32(&mut encoded, self.sequence);
        encoded.extend_from_slice(self.payload.as_slice());
        assert(encoded@ =~= encode_parts(self.parts()));
        Ok(encoded)
    }

    /// Parses one datagram; it is accepted exactly when `decode_bytes` accepts it.
    pub fn decode(encoded: Vec<u8>) -> (r: Result<Self, WireError>)
        ensures
            match r {
                Ok(f) => decode_bytes(encoded@) == Ok::<FrameParts, WireError>(f.parts()),
                Err(e) => decode_bytes(encoded@) == Err::<FrameParts, WireError>(e),
            },
    {
        if encoded.len() < HEADER_LEN {
            return Err(WireError::TooShort);
        }
        if encoded.len() > MAX_DATAGRAM_LEN {
            return Err(WireError::TooLarge);
        }
        let version = encoded[0];
        if version != PROTOCOL_VERSION {
            return Err(WireError::UnsupportedVersion(version));
        }
        let payload = vstd::slice::slice_to_vec(
            vstd::slice::slice_subrange(encoded.as_slice(), HEADER_LEN, encoded.len()),
        );
        let frame = WireFrame {
            flags: encoded[1],
            dst_peer: read_be_u32(encoded[2], encoded[3], encoded[4], encoded[5]),
            sequence: read_be_u32(encoded[6], encoded[7], encoded[8], encoded[9]),
            payload,
        };
        assert(frame.payload@ =~= encoded@.skip(HEADER_LEN as int));
        frame.validate()?;
        Ok(frame)
    }

    fn validate(&self) -> (r: Result<(), WireError>)
        ensures
            match r {
                Ok(()) => parts_error(self.parts()).is_none(),
                Err(e) => parts_error(self.parts()) == Some(e),
            },
    {
        if self.flags != FLAG_IP_PACKET {
            return Err(WireError::UnsupportedFlags(self.flags));
        }
        if self.dst_peer == 0 {
            return Err(WireError::InvalidDestination);
        }
        if self.payload.len() == 0 {
            return Err(WireError::EmptyPayload);
        }
        if self.payload.len() > MAX_PAYLOAD_LEN {
            return Err(WireError::TooLarge);
        }
        Ok(())
    }
}

} // verus!
