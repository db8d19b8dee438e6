//! Client-side rules: what a connect call requires, and how an outbound raw
//! IP packet becomes a datagram.

use vstd::prelude::*;

use vstd::std_specs::iter::IteratorSpec;

use crate::wire::{encode_parts, frame_error, wire_error_text, WireError, WireFrame, FLAG_IP_PACKET};

verus! {

#[derive(Clone, Copy, Debug, PartialEq, Eq)]
pub enum ClientError {
    MissingArguments,
    SamePeer,
    Rejected,
    Wire(WireError),
}

/// What a client error says; a frame error says what that error says.
pub open spec fn client_error_text(e: ClientError) -> Seq<char> {
    match e {
        ClientError::MissingArguments => "relay server name and ticket are required"@,
        ClientError::SamePeer => "cannot send a relay packet to the same peer"@,
        ClientError::Rejected => "relay rejected authentication"@,
        ClientError::Wire(w) => wire_error_text(w),
    }
}

impl ClientError {
    pub fn message(&self) -> (r: String)
        ensures
            r@ == client_error_text(*self),
    {
        match self {
            ClientError::MissingArguments => String::from_str("relay server name and ticket are required"),
            ClientError::SamePeer => String::from_str("cannot send a relay packet to the same peer"),
            ClientError::Rejected => String::from_str("relay rejected authentication"),
            ClientError::Wire(w) => w.message(),
        }
    }
}

/// Unicode `White_Space`, the set `char::is_whitespace` tests.
pub open spec fn is_unicode_whitespace(c: char) -> bool {
    let u = c as u32;
    (9 <= u <= 13) || u == 32 || u == 0x85 || u == 0xA0 || u == 0x1680 || (0x2000 <= u <= 0x200A)
        || u == 0x2028 || u == 0x2029 || u == 0x202F || u == 0x205F || u == 0x3000
}

/// Nothing but whitespace (what `trim().is_empty()` tests).
pub open spec fn is_blank_text(s: Seq<char>) -> bool {
    forall|i: int| 0 <= i < s.len() ==> is_unicode_whitespace(#[trigger] s[i])
}

fn is_whitespace_char(c: char) -> (r: bool)
    ensures
        r == is_unicode_whitespace(c),
{
    let u = c as u32;
    (9 <= u && u <= 13) || u == 32 || u == 0x85 || u == 0xA0 || u == 0x1680 || (0x2000 <= u && u
        <= 0x200A) || u == 0x2028 || u == 0x2029 || u == 0x202F || u == 0x205F || u == 0x3000
}

/// Whether `s` holds nothing but whitespace.
pub fn is_blank(s: &str) -> (r: bool)
    ensures
        r == is_blank_text(s@),
{
    let mut chars = s.chars();
    let ghost all = s@;
    let ghost mut k: int = 0;
    proof {
        broadcast use vstd::string::axiom_spec_iter;
    }
    loop
        invariant
            0 <= k <= all.len(),
            all == s@,
            chars.obeys_prophetic_iter_laws(),
            chars.remaining() == all.skip(k),
            forall|j: int| 0 <= j < k ==> is_unicode_whitespace(#[trigger] all[j]),
        decreases all.len() - k,
    {
        let ghost before = chars;
        let next = chars.next();
        proof {
            broadcast use vstd::string::next_postcondition;
        }
        match next {
            None => {
                assert(all.skip(k).len() == 0);
                return true;
            },
            Some(c) => {
                assert(c == all[k]);
                if !is_whitespace_char(c) {
                    assert(!is_unicode_whitespace(all[k]));
                    return false;
                }
                proof {
                    assert(all.skip(k).drop_first() =~= all.skip(k + 1));
                    k = k + 1;
                }
            },
        }
    }
}

/// A client needs a relay server name and a ticket that are not blank.
pub fn connect_arguments_present(server_name: &str, ticket: &str) -> (r: Result<(), ClientError>)
    ensures
        r is Ok <==> !is_blank_text(server_name@) && !is_blank_text(ticket@),
        r is Err ==> r == Err::<(), ClientError>(ClientError::MissingArguments),
{
    if is_blank(server_name) || is_blank(ticket) {
        Err(ClientError::MissingArguments)
    } else {
        Ok(())
    }
}

/// Frames a raw IP packet from peer `own_peer` to `destination_peer`,
/// refusing packets addressed to the sender itself.
pub fn outbound_datagram(own_peer: u32, destination_peer: u32, sequence: u32, packet: Vec<u8>) -> (r:
    Result<Vec<u8>, ClientError>)
    ensures
        destination_peer == own_peer ==> r == Err::<Vec<u8>, _>(ClientError::SamePeer),
        destination_peer != own_peer ==> match frame_error(
            FLAG_IP_PACKET,
            destination_peer,
            packet@,
        ) {
            Some(e) => r == Err::<Vec<u8>, _>(ClientError::Wire(e)),
            None => r matches Ok(d) && d@ == encode_parts(
                (FLAG_IP_PACKET, destination_peer, sequence, packet@),
            ),
        },
{
    if destination_peer == own_peer {
        return Err(ClientError::SamePeer);
    }
    let frame = match WireFrame::new(destination_peer, sequence, packet) {
        Ok(frame) => frame,
        Err(e) => {
            return Err(ClientError::Wire(e));
        },
    };
    match frame.encode() {
        Ok(d) => Ok(d),
        Err(e) => Err(ClientError::Wire(e)),
    }
}

/// A relay port handed over as a signed 32-bit integer: 1 to 65535.
pub fn relay_port(port: i32) -> (r: Option<u16>)
    ensures
        r == (if 1 <= port <= 65535 {
            Some(port as u16)
        } else {
            None::<u16>
        }),
{
    if port < 1 || port > 65535 {
        None
    } else {
        Some(port as u16)
    }
}

} // verus!
