//! TLS material read from PEM text: the relay's certificate chain and
//! private key, with the errors the relay reports for unusable files.

use vstd::prelude::*;

use crate::primitives::{
    parse_pem_certificates, parse_pem_private_key, pem_certificates, pem_private_key,
};
use crate::text::vecs_view;

verus! {

#[derive(Clone, Copy, Debug, PartialEq, Eq)]
pub enum TlsError {
    CertificatePem,
    PrivateKeyPem,
    PrivateKeyEmpty,
}

pub open spec fn tls_error_text(e: TlsError) -> &'static str {
    match e {
        TlsError::CertificatePem => "read certificate PEM",
        TlsError::PrivateKeyPem => "read private key PEM",
        TlsError::PrivateKeyEmpty => "private key PEM is empty",
    }
}

impl TlsError {
    pub fn message(&self) -> (r: &'static str)
        ensures
            r == tls_error_text(*self),
    {
        match self {
            TlsError::CertificatePem => "read certificate PEM",
            TlsError::PrivateKeyPem => "read private key PEM",
            TlsError::PrivateKeyEmpty => "private key PEM is empty",
        }
    }
}

/// A private key read from PEM: its kind (1 PKCS#1, 2 SEC1, 3 PKCS#8, 0 any
/// other) and its DER bytes.
#[derive(Clone, Debug, PartialEq, Eq)]
pub struct PemPrivateKey {
    pub kind: u8,
    pub der: Vec<u8>,
}

/// The certificates of a PEM text, as DER bytes in the order they appear.
pub fn certificates_from_pem(pem: &[u8]) -> (r: Result<Vec<Vec<u8>>, TlsError>)
    ensures
        match pem_certificates(pem@) {
            None => r == Err::<Vec<Vec<u8>>, TlsError>(TlsError::CertificatePem),
            Some(c) => r matches Ok(v) && vecs_view(v@) == c,
        },
{
    match parse_pem_certificates(pem) {
        Some(certificates) => Ok(certificates),
        None => Err(TlsError::CertificatePem),
    }
}

/// The first private key of a PEM text.
pub fn private_key_from_pem(pem: &[u8]) -> (r: Result<PemPrivateKey, TlsError>)
    ensures
        match pem_private_key(pem@) {
            None => r == Err::<PemPrivateKey, TlsError>(TlsError::PrivateKeyPem),
            Some(None) => r == Err::<PemPrivateKey, TlsError>(TlsError::PrivateKeyEmpty),
            Some(Some((kind, der))) => r matches Ok(k) && k.kind == kind && k.der@ == der,
        },
{
    match parse_pem_private_key(pem) {
        None => Err(TlsError::PrivateKeyPem),
        Some(None) => Err(TlsError::PrivateKeyEmpty),
        Some(Some((kind, der))) => Ok(PemPrivateKey { kind, der }),
    }
}

} // verus!
