//! The OpenSSL operations that the certificate logic relies on.
//!
//! Certificates and names cross this boundary as DER bytes.  What OpenSSL
//! computes from them is named by the uninterpreted functions below; the
//! functions of this module are the only places where OpenSSL is called.

use openssl::error::ErrorStack;
use openssl::pkcs7::Pkcs7;
use openssl::x509::{X509Name, X509};
use crate::bytes::vecs_view;
use vstd::prelude::*;

verus! {

#[verifier::external_type_specification]
#[verifier::external_body]
pub struct ExX509(X509);

#[verifier::external_type_specification]
#[verifier::external_body]
pub struct ExErrorStack(ErrorStack);

/// Whether `X509::from_der` accepts `der`.
pub uninterp spec fn x509_der_parses(der: Seq<u8>) -> bool;

/// The DER encoding (`X509NameRef::to_der`) of the subject name of the
/// certificate `X509::from_der` reads from `cert_der`; `None` when either
/// step fails.
pub uninterp spec fn x509_subject_name_der(cert_der: Seq<u8>) -> Option<Seq<u8>>;

/// As `x509_subject_name_der`, for the issuer name.
pub uninterp spec fn x509_issuer_name_der(cert_der: Seq<u8>) -> Option<Seq<u8>>;

/// Whether `X509NameRef::try_cmp` reports the two names, each read by
/// `X509Name::from_der`, as equal (`Ok(Ordering::Equal)`).
pub uninterp spec fn x509_names_equal(a: Seq<u8>, b: Seq<u8>) -> bool;

/// Whether `Pkcs7::from_der` accepts `der`.
pub uninterp spec fn pkcs7_der_parses(der: Seq<u8>) -> bool;

/// The certificates (each as `X509Ref::to_der`) that
/// `Pkcs7Ref::signed` and `Pkcs7SignedRef::certificates` give for the
/// structure `Pkcs7::from_der` reads from `der`, in stack order; `None`
/// when the structure does not parse, is not signed data, carries no
/// certificate stack, or a certificate fails to encode.
pub uninterp spec fn pkcs7_signed_certificates_der(der: Seq<u8>) -> Option<Seq<Seq<u8>>>;

/// `X509::from_der`: the result is `Ok` exactly when the bytes are accepted.
/// Nothing is stated of the certificate object itself.
#[verifier::external_body]
pub(crate) fn x509_from_der(der: &[u8]) -> (r: Result<X509, ErrorStack>)
    ensures
        r is Ok <==> x509_der_parses(der@),
{
    X509::from_der(der)
}

/// `X509Ref::subject_name` of the certificate read by `X509::from_der`,
/// encoded by `X509NameRef::to_der`.
#[verifier::external_body]
pub(crate) fn x509_subject_name(cert_der: &[u8]) -> (r: Option<Vec<u8>>)
    ensures
        match r {
            Some(n) => x509_subject_name_der(cert_der@) == Some(n@),
            None => x509_subject_name_der(cert_der@) is None,
        },
{
    match X509::from_der(cert_der) {
        Ok(cert) => cert.subject_name().to_der().ok(),
        Err(_) => None,
    }
}

/// `X509Ref::issuer_name` of the certificate read by `X509::from_der`,
/// encoded by `X509NameRef::to_der`.
#[verifier::external_body]
pub(crate) fn x509_issuer_name(cert_der: &[u8]) -> (r: Option<Vec<u8>>)
    ensures
        match r {
            Some(n) => x509_issuer_name_der(cert_der@) == Some(n@),
            None => x509_issuer_name_der(cert_der@) is None,
        },
{
    match X509::from_der(cert_der) {
        Ok(cert) => cert.issuer_name().to_der().ok(),
        Err(_) => None,
    }
}

/// `X509NameRef::try_cmp` of two names given in DER: `true` exactly when it
/// returns `Ok(Ordering::Equal)`; `false` when a name does not parse.
#[verifier::external_body]
pub(crate) fn x509_name_eq(a: &[u8], b: &[u8]) -> (r: bool)
    ensures
        r == x509_names_equal(a@, b@),
{
    match (X509Name::from_der(a), X509Name::from_der(b)) {
        (Ok(x), Ok(y)) => x.try_cmp(&y).is_ok_and(|o| o.is_eq()),
        _ => false,
    }
}

/// `Pkcs7::from_der`: `true` exactly when the bytes are accepted.
#[verifier::external_body]
pub(crate) fn pkcs7_parses(der: &[u8]) -> (r: bool)
    ensures
        r == pkcs7_der_parses(der@),
{
    Pkcs7::from_der(der).is_ok()
}

/// The certificate stack of the signed data of a PKCS#7 structure
/// (`Pkcs7Ref::signed`, then `Pkcs7SignedRef::certificates`), each
/// certificate encoded by `X509Ref::to_der`.
#[verifier::external_body]
pub(crate) fn pkcs7_signed_certificates(der: &[u8]) -> (r: Option<Vec<Vec<u8>>>)
    ensures
        match r {
            Some(v) => pkcs7_signed_certificates_der(der@) == Some(vecs_view(v@)),
            None => pkcs7_signed_certificates_der(der@) is None,
        },
{
    let pkcs7 = Pkcs7::from_der(der).ok()?;
    let certs = pkcs7.signed()?.certificates()?;
    certs.iter().map(|c| c.to_der()).collect::<Result<Vec<Vec<u8>>, ErrorStack>>().ok()
}

} // verus!
