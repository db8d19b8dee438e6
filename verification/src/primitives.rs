//! Calls into base64, ed25519-dalek, rustls-pemfile and the system clock. Verus does not
//! read these bodies; each contract says what the call is taken to do.

use vstd::prelude::*;

use base64::Engine;
use ed25519_dalek::Verifier;
use quinn::rustls::pki_types::PrivateKeyDer;
use std::time::{Duration, SystemTime, SystemTimeError};

use crate::text::vecs_view;

verus! {

/// What base64url decoding without padding (the `URL_SAFE_NO_PAD` engine of
/// the `base64` crate) yields for `text`; `None` when the engine refuses it.
pub uninterp spec fn base64url_decoded(text: Seq<u8>) -> Option<Seq<u8>>;

/// Whether these 32 bytes decompress to an Ed25519 curve point, i.e.
/// whether `VerifyingKey::from_bytes` accepts them.
pub uninterp spec fn ed25519_key_decodes(public_key: Seq<u8>) -> bool;

/// Whether `VerifyingKey::verify` accepts `signature` over `message` for the
/// key encoded by `public_key`.
pub uninterp spec fn ed25519_signature_verifies(
    public_key: Seq<u8>,
    message: Seq<u8>,
    signature: Seq<u8>,
) -> bool;

/// `URL_SAFE_NO_PAD.decode` of the `base64` crate: its result, a function of
/// the input alone, is named by `base64url_decoded`.
#[verifier::external_body]
pub(crate) fn base64url_decode(text: &[u8]) -> (r: Option<Vec<u8>>)
    ensures
        match r {
            Some(bytes) => base64url_decoded(text@) == Some(bytes@),
            None => base64url_decoded(text@) is None,
        },
{
    base64::engine::general_purpose::URL_SAFE_NO_PAD.decode(text).ok()
}

/// `ed25519_dalek::VerifyingKey::from_bytes`, reduced to whether it succeeds.
#[verifier::external_body]
pub(crate) fn ed25519_key_is_valid(public_key: &[u8; 32]) -> (r: bool)
    ensures
        r == ed25519_key_decodes(public_key@),
{
    ed25519_dalek::VerifyingKey::from_bytes(public_key).is_ok()
}

/// `Verifier::verify` of `ed25519_dalek::VerifyingKey`, on a key given by its
/// 32 encoded bytes (a key that does not decode verifies nothing) and a
/// signature given by its 64 bytes.
#[verifier::external_body]
pub(crate) fn ed25519_verify(public_key: &[u8; 32], message: &[u8], signature: &[u8; 64]) -> (r:
    bool)
    ensures
        r == ed25519_signature_verifies(public_key@, message@, signature@),
        r ==> ed25519_key_decodes(public_key@),
{
    match ed25519_dalek::VerifyingKey::from_bytes(public_key) {
        Ok(key) => key.verify(message, &ed25519_dalek::Signature::from_bytes(signature)).is_ok(),
        Err(_) => false,
    }
}

/// The DER bodies of the certificate sections of a PEM text, in order, as
/// `rustls_pemfile::certs` yields them (other sections skipped); `None`
/// when it reports an error for the text.
pub uninterp spec fn pem_certificates(pem: Seq<u8>) -> Option<Seq<Seq<u8>>>;

/// The first private-key section of a PEM text, as `rustls_pemfile::private_key`
/// finds it: its kind (1 PKCS#1, 2 SEC1, 3 PKCS#8, 0 any other) and DER body;
/// `Some(None)` when there is none, `None` when reading the text fails.
pub uninterp spec fn pem_private_key(pem: Seq<u8>) -> Option<Option<(u8, Seq<u8>)>>;

/// `rustls_pemfile::certs` over the bytes of a PEM text, collected until the
/// first error; each certificate is handed back as its DER bytes.
#[verifier::external_body]
pub(crate) fn parse_pem_certificates(pem: &[u8]) -> (r: Option<Vec<Vec<u8>>>)
    ensures
        match r {
            Some(c) => pem_certificates(pem@) == Some(vecs_view(c@)),
            None => pem_certificates(pem@) is None,
        },
{
    let mut reader: &[u8] = pem;
    match rustls_pemfile::certs(&mut reader).collect::<Result<Vec<_>, _>>() {
        Ok(certs) => Some(certs.iter().map(|c| c.to_vec()).collect()),
        Err(_) => None,
    }
}

/// `rustls_pemfile::private_key` over the bytes of a PEM text; a key is
/// handed back as its kind and DER bytes.
#[verifier::external_body]
pub(crate) fn parse_pem_private_key(pem: &[u8]) -> (r: Option<Option<(u8, Vec<u8>)>>)
    ensures
        match r {
            None => pem_private_key(pem@) is None,
            Some(None) => pem_private_key(pem@) == Some(None::<(u8, Seq<u8>)>),
            Some(Some((kind, der))) => pem_private_key(pem@) == Some(Some((kind, der@))),
        },
{
    let mut reader: &[u8] = pem;
    match rustls_pemfile::private_key(&mut reader) {
        Err(_) => None,
        Ok(None) => Some(None),
        Ok(Some(PrivateKeyDer::Pkcs1(k))) => Some(Some((1, k.secret_pkcs1_der().to_vec()))),
        Ok(Some(PrivateKeyDer::Sec1(k))) => Some(Some((2, k.secret_sec1_der().to_vec()))),
        Ok(Some(PrivateKeyDer::Pkcs8(k))) => Some(Some((3, k.secret_pkcs8_der().to_vec()))),
        Ok(Some(other)) => Some(Some((0, other.secret_der().to_vec()))),
    }
}

#[verifier::external_type_specification]
#[verifier::external_body]
pub struct ExSystemTime(SystemTime);

#[verifier::external_type_specification]
#[verifier::external_body]
pub struct ExSystemTimeError(SystemTimeError);

/// `SystemTime::now`: nothing is known of the reading.
#[verifier::external_body]
pub(crate) fn system_time_now() -> SystemTime {
    SystemTime::now()
}

/// `SystemTime::duration_since(UNIX_EPOCH)`: fails for a clock set before 1970.
#[verifier::external_body]
pub(crate) fn since_unix_epoch(t: &SystemTime) -> Result<Duration, SystemTimeError> {
    t.duration_since(std::time::UNIX_EPOCH)
}

/// `Duration::as_secs`.
#[verifier::external_body]
pub(crate) fn whole_seconds(d: &Duration) -> u64 {
    d.as_secs()
}

} // verus!
