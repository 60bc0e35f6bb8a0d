//! The broker connection's client identity: the certificate and key arrive
//! base64-encoded in configuration and are decoded into DER bytes here.

use base64::Engine;
use vstd::prelude::*;

verus! {

/// What `base64::prelude::BASE64_STANDARD.decode` yields on a string: the
/// decoded bytes, or nothing where the input is not valid standard base64.
pub uninterp spec fn base64_standard_decoding(s: Seq<char>) -> Option<Seq<u8>>;

/// Relies on base64's standard-alphabet engine: `decode` is a function of the
/// input characters alone, succeeding exactly on valid standard base64.
#[verifier::external_body]
fn decode_base64_standard(s: &str) -> (r: Option<Vec<u8>>)
    ensures
        r is Some <==> base64_standard_decoding(s@) is Some,
        r matches Some(v) ==> base64_standard_decoding(s@) == Some(v@),
{
    base64::prelude::BASE64_STANDARD.decode(s).ok()
}

/// The client certificate and key as DER bytes, with their password.
#[derive(Debug)]
pub struct TlsIdentity {
    pub der: Vec<u8>,
    pub password: String,
}

/// Failure to read the configured client identity.
#[derive(Debug, Clone, Copy, PartialEq, Eq, Structural)]
pub enum TlsConfigError {
    BadCertificateEncoding,
}

/// Decodes the configured base64 certificate-and-key blob into the client
/// identity used for the broker's TLS connection.
pub fn client_identity(cert_and_key_b64: &str, password: String) -> (r: Result<
    TlsIdentity,
    TlsConfigError,
>)
    ensures
        base64_standard_decoding(cert_and_key_b64@) is None ==> r == Err::<
            TlsIdentity,
            TlsConfigError,
        >(TlsConfigError::BadCertificateEncoding),
        base64_standard_decoding(cert_and_key_b64@) matches Some(bytes) ==> (r matches Ok(t)
            && t.der@ == bytes && t.password == password),
{
    match decode_base64_standard(cert_and_key_b64) {
        Some(der) => Ok(TlsIdentity { der, password }),
        None => Err(TlsConfigError::BadCertificateEncoding),
    }
}

} // verus!
