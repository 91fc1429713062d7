//! X.509 certificates as stored in signature databases.

use crate::openssl_ops::{
    x509_der_parses, x509_from_der, x509_issuer_name, x509_issuer_name_der, x509_name_eq,
    x509_names_equal, x509_subject_name, x509_subject_name_der,
};
use openssl::error::ErrorStack;
use openssl::x509::X509;
use vstd::prelude::*;
use vstd::slice::{slice_subrange, slice_to_vec};

verus! {

/// What the library knows of a stored certificate: the bytes it was stored
/// as, and the DER encoding of the certificate within them.
pub struct CertView {
    pub raw: Seq<u8>,
    pub der: Seq<u8>,
}

/// Whether two optional DER names are both present and equal for OpenSSL.
pub open spec fn names_match(a: Option<Seq<u8>>, b: Option<Seq<u8>>) -> bool {
    match (a, b) {
        (Some(x), Some(y)) => x509_names_equal(x, y),
        _ => false,
    }
}

/// Whether the subject name of the certificate `der` equals the subject
/// name or the issuer name of the certificate `other`.
pub open spec fn cert_subject_matches(der: Seq<u8>, other: Seq<u8>) -> bool {
    ||| names_match(x509_subject_name_der(der), x509_subject_name_der(other))
    ||| names_match(x509_subject_name_der(der), x509_issuer_name_der(other))
}

/// A certificate matches itself and every certificate it issued: where
/// its subject name encodes and OpenSSL compares that name equal to itself
/// (the inputs left out are those on which OpenSSL fails to encode or
/// compare the name), the subject match holds against the certificate's
/// own DER, and against any certificate whose issuer name is that subject
/// name.
pub proof fn law_certificate_matches_itself_and_what_it_issued(der: Seq<u8>, issued: Seq<u8>)
    requires
        x509_subject_name_der(der) matches Some(n) && x509_names_equal(n, n),
    ensures
        cert_subject_matches(der, der),
        x509_issuer_name_der(issued) == x509_subject_name_der(der) ==> cert_subject_matches(der, issued),
{
}

/// A parsed X.509 certificate together with the bytes it was stored as.
pub struct X509Cert {
    cert: X509,
    bytes: Vec<u8>,
    der_start: usize,
}

impl View for X509Cert {
    type V = CertView;

    closed spec fn view(&self) -> CertView {
        CertView { raw: self.bytes@, der: self.bytes@.skip(self.der_start as int) }
    }
}

impl X509Cert {
    /// The parsed certificate object the stored certificate holds.
    pub closed spec fn stored_x509(&self) -> X509 {
        self.cert
    }

    #[verifier::type_invariant]
    spec fn well_formed(self) -> bool {
        &&& self.der_start <= self.bytes@.len()
        &&& x509_der_parses(self.bytes@.skip(self.der_start as int))
    }

    /// Reads a signature-list entry: a 16-byte owner GUID followed by the
    /// DER certificate.  The stored bytes are the whole entry.
    pub fn from_db_bytes(bytes: &[u8]) -> (r: Result<X509Cert, ErrorStack>)
        requires
            bytes@.len() >= 16,
        ensures
            r is Ok <==> x509_der_parses(bytes@.skip(16)),
            r matches Ok(c) ==> c@ == (CertView { raw: bytes@, der: bytes@.skip(16) }),
    {
        let der = slice_subrange(bytes, 16, bytes.len());
        assert(der@ =~= bytes@.skip(16));
        match x509_from_der(der) {
            Ok(cert) => {
                let stored = slice_to_vec(bytes);
                Ok(X509Cert { cert, bytes: stored, der_start: 16 })
            },
            Err(e) => Err(e),
        }
    }

    /// Reads a certificate stored as plain DER: the stored bytes equal the
    /// DER representation.
    pub fn from_der(data: &[u8]) -> (r: Result<X509Cert, ErrorStack>)
        ensures
            r is Ok <==> x509_der_parses(data@),
            r matches Ok(c) ==> c@ == (CertView { raw: data@, der: data@ }),
    {
        match x509_from_der(data) {
            Ok(cert) => {
                let stored = slice_to_vec(data);
                assert(stored@.skip(0) =~= stored@);
                Ok(X509Cert { cert, bytes: stored, der_start: 0 })
            },
            Err(e) => Err(e),
        }
    }

    /// Whether this certificate's subject is the subject or the issuer of
    /// `other` (a DER certificate).
    pub fn subject_matches(&self, other: &[u8]) -> (r: bool)
        ensures
            r == cert_subject_matches(self@.der, other@),
    {
        proof {
            use_type_invariant(self);
        }
        let der = slice_subrange(self.bytes.as_slice(), self.der_start, self.bytes.len());
        assert(der@ =~= self@.der);
        let self_subject = x509_subject_name(der);
        let other_subject = x509_subject_name(other);
        let other_issuer = x509_issuer_name(other);
        match self_subject {
            None => false,
            Some(s) => {
                let by_subject = match other_subject {
                    Some(o) => x509_name_eq(s.as_slice(), o.as_slice()),
                    None => false,
                };
                by_subject || match other_issuer {
                    Some(o) => x509_name_eq(s.as_slice(), o.as_slice()),
                    None => false,
                }
            },
        }
    }

    /// The bytes the certificate was stored as.
    pub fn raw(&self) -> (r: Vec<u8>)
        ensures
            r@ == self@.raw,
    {
        slice_to_vec(self.bytes.as_slice())
    }

    /// The parsed certificate: the object OpenSSL made when the certificate
    /// was read, which this certificate holds.
    pub fn x509(&self) -> (r: &X509)
        ensures
            *r == self.stored_x509(),
    {
        &self.cert
    }
}

} // verus!
