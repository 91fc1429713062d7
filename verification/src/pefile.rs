//! PE images: their Authenticode certificate table, the vendor
//! certificates shim embeds in a `.vendor_cert` section, and the
//! Authenticode digest.

use crate::bytes::{gap, le_u16, le_u32, read_u16_le, read_u32_le, vecs_view};
use crate::cert_db::{
    db_entries, db_has_match, db_whole_lists, entry_certs, first_match, law_db_concatenation,
    law_lookup_finds_first_match, Certdb, DbWalk,
};
use crate::certs::{cert_subject_matches, CertView};
use crate::openssl_ops::{pkcs7_der_parses, pkcs7_parses, pkcs7_signed_certificates, pkcs7_signed_certificates_der, x509_der_parses};
use crate::pe_ops::{
    pe_authenticode_digest, pe_authenticode_sha256, pe_parse, pe_parse_result, pe_parses, pe_section,
    pe_section_data,
    pe_security_dir, pe_security_directory,
};
use vstd::prelude::*;
use vstd::slice::{slice_subrange, slice_to_vec};

verus! {

/// The section in which shim stores its vendor certificates.
pub const SHIM_VENDOR_CERT_SECTION: &'static str = ".vendor_cert";

// An entry of the attribute certificate table: a little-endian length
// (4 bytes, the entry's whole size), a revision (2 bytes), a certificate
// type (2 bytes), then the certificate.
pub const PEFILE_CERT_ENTRY_LENGTH_START_OFFSET: usize = 0;
pub const PEFILE_CERT_ENTRY_LENGTH_LENGTH: usize = 4;
pub const PEFILE_CERT_ENTRY_LENGTH_END_OFFSET: usize = PEFILE_CERT_ENTRY_LENGTH_START_OFFSET
    + PEFILE_CERT_ENTRY_LENGTH_LENGTH;
pub const PEFILE_CERT_ENTRY_REV_START_OFFSET: usize = PEFILE_CERT_ENTRY_LENGTH_END_OFFSET;
pub const PEFILE_CERT_ENTRY_REV_LENGTH: usize = 2;
pub const PEFILE_CERT_ENTRY_REV_END_OFFSET: usize = PEFILE_CERT_ENTRY_REV_START_OFFSET
    + PEFILE_CERT_ENTRY_REV_LENGTH;
pub const PEFILE_CERT_ENTRY_TYPE_START_OFFSET: usize = PEFILE_CERT_ENTRY_REV_END_OFFSET;
pub const PEFILE_CERT_ENTRY_TYPE_LENGTH: usize = 2;
pub const PEFILE_CERT_ENTRY_TYPE_END_OFFSET: usize = PEFILE_CERT_ENTRY_TYPE_START_OFFSET
    + PEFILE_CERT_ENTRY_TYPE_LENGTH;
pub const PEFILE_CERT_ENTRY_DATA_START_OFFSET: usize = PEFILE_CERT_ENTRY_TYPE_END_OFFSET;

/// `WIN_CERT_REVISION_2_0`.
pub const WIN_CERT_REVISION_2_0: u16 = 0x0200;

/// `WIN_CERT_TYPE_PKCS_SIGNED_DATA`.
pub const WIN_CERT_TYPE_PKCS_SIGNED_DATA: u16 = 0x0002;

/// `x` rounded up to a multiple of 8.
pub open spec fn round_up8(x: int) -> int {
    ((x + 7) / 8) * 8
}

/// The PKCS#7 signed-data certificates (revision 2.0, non-empty) of the
/// attribute certificate table at `start`, of `size` bytes, from the entry
/// at `offset` on; `None` where reading is undefined: an entry header that
/// runs past the end of the data, a signed-data entry shorter than its
/// header or running past the end, or an entry of length zero (on which
/// reading never ends).
///
/// Each entry starts at the previous entry's start plus its length rounded
/// up to 8 bytes: from an entry at `offset` of length `len` the walk goes
/// on at `offset + round_up8(len)`.
pub open spec fn cert_table_entries(data: Seq<u8>, start: int, size: int, offset: int) -> Option<
    Seq<Seq<u8>>,
>
    decreases gap(offset, size),
{
    if offset < 0 || offset >= size {
        Some(Seq::empty())
    } else {
        let e = start + offset;
        if e + 8 > data.len() {
            None
        } else {
            let len = le_u32(data, e) as int;
            let next = offset + round_up8(len);
            let signed = le_u16(data, e + 6) == WIN_CERT_TYPE_PKCS_SIGNED_DATA && le_u16(data, e + 4)
                == WIN_CERT_REVISION_2_0 && len != 0;
            if next <= offset {
                None
            } else if signed && (len < 8 || e + len > data.len()) {
                None
            } else {
                let here: Seq<Seq<u8>> = if signed {
                    seq![data.subrange(e + 8, e + len)]
                } else {
                    Seq::empty()
                };
                match cert_table_entries(data, start, size, next) {
                    Some(r) => Some(here + r),
                    None => None,
                }
            }
        }
    }
}

/// The outcome of opening a PE image.
pub enum PeOpen {
    /// The DER PKCS#7 structures of its certificate table.
    Opened(Seq<Seq<u8>>),
    /// The bytes are not a PE image the parser accepts; the parser's
    /// message.
    NotPe(Seq<char>),
    /// The image is outside what opening is defined on: it has no security
    /// directory, its certificate table cannot be read, or a signed-data
    /// entry is not a PKCS#7 structure.
    Undefined,
}

/// Opening the image `bin`.
pub open spec fn pe_open(bin: Seq<u8>) -> PeOpen {
    if let Err(m) = pe_parse_result(bin) {
        PeOpen::NotPe(m)
    } else {
        match pe_security_directory(bin) {
            None => PeOpen::Undefined,
            Some(dir) => match cert_table_entries(bin, dir.0 as int, dir.1 as int, 0) {
                None => PeOpen::Undefined,
                Some(es) => if forall|i: int| 0 <= i < es.len() ==> pkcs7_der_parses(#[trigger] es[i]) {
                    PeOpen::Opened(es)
                } else {
                    PeOpen::Undefined
                },
            },
        }
    }
}

/// The authentication data of shim's vendor certificate section.
pub enum VendorCertAuth {
    /// The image has no readable `.vendor_cert` section.
    Absent,
    /// The bytes the section's header points at.
    Found(Seq<u8>),
    /// The section is shorter than its header, or the header points past
    /// its end.
    Undefined,
}

/// The section starts with four little-endian `u32`: the size of the
/// authentication data, the size of the deauthentication data, and their
/// offsets.
pub open spec fn vendor_cert_auth(bin: Seq<u8>) -> VendorCertAuth {
    match pe_section_data(bin, SHIM_VENDOR_CERT_SECTION@) {
        None => VendorCertAuth::Absent,
        Some(raw) => if raw.len() < 12 {
            VendorCertAuth::Undefined
        } else {
            let size = le_u32(raw, 0) as int;
            let off = le_u32(raw, 8) as int;
            if off + size > raw.len() {
                VendorCertAuth::Undefined
            } else {
                VendorCertAuth::Found(raw.subrange(off, off + size))
            }
        },
    }
}

/// Whether reading the vendor section as a signature database is defined.
pub open spec fn vendor_db_defined(bin: Seq<u8>) -> bool {
    match vendor_cert_auth(bin) {
        VendorCertAuth::Absent => true,
        VendorCertAuth::Found(b) => !(db_entries(b) is Undefined),
        VendorCertAuth::Undefined => false,
    }
}

/// The certificates of the vendor section read as a signature database;
/// none where the section is absent or the database is in error.
pub open spec fn vendor_db_certs(bin: Seq<u8>) -> Seq<CertView> {
    match vendor_cert_auth(bin) {
        VendorCertAuth::Found(b) => match db_entries(b) {
            DbWalk::Entries(es) => entry_certs(es),
            _ => Seq::empty(),
        },
        _ => Seq::empty(),
    }
}

/// The certificate of the vendor section read as one DER certificate;
/// none where the section is absent or OpenSSL rejects it.
pub open spec fn vendor_cert_certs(bin: Seq<u8>) -> Seq<CertView> {
    match vendor_cert_auth(bin) {
        VendorCertAuth::Found(b) => if x509_der_parses(b) {
            seq![CertView { raw: b, der: b }]
        } else {
            Seq::empty()
        },
        _ => Seq::empty(),
    }
}

/// The stored bytes of the first certificate of `db` that matches one of
/// the certificates `certs`, from the one at `k` on, taken in order.
pub open spec fn find_in_certs(certs: Seq<Seq<u8>>, db: Seq<CertView>, k: int) -> Option<Seq<u8>>
    decreases gap(k, certs.len() as int),
{
    if k < 0 || k >= certs.len() {
        None
    } else {
        match first_match(db, certs[k]) {
            Some(i) => Some(db[i].raw),
            None => find_in_certs(certs, db, k + 1),
        }
    }
}

/// The stored bytes of the first certificate of `db` that matches a
/// certificate of the signed data of the PKCS#7 structures of `chain`,
/// from the structure at `i` on, taken in order.
pub open spec fn find_in_chain(chain: Seq<Seq<u8>>, db: Seq<CertView>, i: int) -> Option<Seq<u8>>
    decreases gap(i, chain.len() as int),
{
    if i < 0 || i >= chain.len() {
        None
    } else {
        let here = match pkcs7_signed_certificates_der(chain[i]) {
            Some(certs) => find_in_certs(certs, db, 0),
            None => None,
        };
        match here {
            Some(r) => Some(r),
            None => find_in_chain(chain, db, i + 1),
        }
    }
}

/// Whether the certificate `i` of `db` matches one of `certs`.
pub open spec fn matches_one_of(db: Seq<CertView>, i: int, certs: Seq<Seq<u8>>) -> bool {
    exists|m: int| 0 <= m < certs.len() && cert_subject_matches(db[i].der, #[trigger] certs[m])
}

/// Whether the certificate `i` of `db` matches a certificate of the signed
/// data of one of the PKCS#7 structures `chain`.
pub open spec fn matches_chain(db: Seq<CertView>, i: int, chain: Seq<Seq<u8>>) -> bool {
    exists|j: int|
        0 <= j < chain.len() && match #[trigger] pkcs7_signed_certificates_der(chain[j]) {
            Some(certs) => matches_one_of(db, i, certs),
            None => false,
        }
}

proof fn lemma_find_in_certs(certs: Seq<Seq<u8>>, db: Seq<CertView>, k: int)
    requires
        0 <= k,
    ensures
        find_in_certs(certs, db, k) matches Some(r) ==> exists|i: int|
            0 <= i < db.len() && #[trigger] db[i].raw == r && matches_one_of(db, i, certs),
    decreases gap(k, certs.len() as int),
{
    if k < certs.len() {
        law_lookup_finds_first_match(db, certs[k]);
        match first_match(db, certs[k]) {
            Some(i) => {
                assert(cert_subject_matches(db[i].der, certs[k]));
                assert(matches_one_of(db, i, certs));
            },
            None => {
                lemma_find_in_certs(certs, db, k + 1);
            },
        }
    }
}

proof fn lemma_find_in_chain(chain: Seq<Seq<u8>>, db: Seq<CertView>, j: int)
    requires
        0 <= j,
    ensures
        find_in_chain(chain, db, j) matches Some(r) ==> exists|i: int|
            0 <= i < db.len() && #[trigger] db[i].raw == r && matches_chain(db, i, chain),
    decreases gap(j, chain.len() as int),
{
    if j < chain.len() {
        lemma_find_in_chain(chain, db, j + 1);
        if let Some(certs) = pkcs7_signed_certificates_der(chain[j]) {
            lemma_find_in_certs(certs, db, 0);
            if let Some(r) = find_in_certs(certs, db, 0) {
                let i = choose|i: int| 0 <= i < db.len() && #[trigger] db[i].raw == r && matches_one_of(db, i, certs);
                assert(matches_chain(db, i, chain));
            }
        }
    }
}

/// What `find_cert_in_db` finds is a certificate of the database: the
/// stored bytes of a certificate whose subject is the subject or the
/// issuer of a certificate of the image's signed data.  With an empty
/// database nothing is found.
pub proof fn law_found_cert_is_in_db(chain: Seq<Seq<u8>>, db: Seq<CertView>)
    ensures
        find_in_chain(chain, db, 0) matches Some(r) ==> exists|i: int|
            0 <= i < db.len() && #[trigger] db[i].raw == r && matches_chain(db, i, chain),
        db.len() == 0 ==> find_in_chain(chain, db, 0) is None,
{
    lemma_find_in_chain(chain, db, 0);
}

/// Whether the certificate `m` of the signed data of the structure `j` of
/// `chain` has a match in `db`.
pub open spec fn signer_has_match(chain: Seq<Seq<u8>>, db: Seq<CertView>, j: int, m: int) -> bool {
    0 <= j < chain.len() && match pkcs7_signed_certificates_der(chain[j]) {
        Some(certs) => 0 <= m < certs.len() && db_has_match(db, certs[m]),
        None => false,
    }
}

proof fn lemma_find_in_certs_complete(certs: Seq<Seq<u8>>, db: Seq<CertView>, k: int)
    requires
        0 <= k,
    ensures
        find_in_certs(certs, db, k) is Some <==> exists|m: int|
            k <= m < certs.len() && db_has_match(db, #[trigger] certs[m]),
    decreases gap(k, certs.len() as int),
{
    if k < certs.len() {
        law_lookup_finds_first_match(db, certs[k]);
        lemma_find_in_certs_complete(certs, db, k + 1);
        if exists|m: int| k <= m < certs.len() && db_has_match(db, #[trigger] certs[m]) {
            let m = choose|m: int| k <= m < certs.len() && db_has_match(db, #[trigger] certs[m]);
            if m > k {
                assert(k + 1 <= m < certs.len() && db_has_match(db, certs[m]));
            }
        }
    }
}

proof fn lemma_find_in_chain_complete(chain: Seq<Seq<u8>>, db: Seq<CertView>, j: int)
    requires
        0 <= j,
    ensures
        find_in_chain(chain, db, j) is Some <==> exists|jj: int, m: int|
            j <= jj && #[trigger] signer_has_match(chain, db, jj, m),
    decreases gap(j, chain.len() as int),
{
    if j < chain.len() {
        lemma_find_in_chain_complete(chain, db, j + 1);
        match pkcs7_signed_certificates_der(chain[j]) {
            Some(certs) => {
                lemma_find_in_certs_complete(certs, db, 0);
                if find_in_certs(certs, db, 0) is Some {
                    let m = choose|m: int| 0 <= m < certs.len() && db_has_match(db, #[trigger] certs[m]);
                    assert(signer_has_match(chain, db, j, m));
                }
            },
            None => {},
        }
        if exists|jj: int, m: int| j <= jj && #[trigger] signer_has_match(chain, db, jj, m) {
            let (jj, m) = choose|jj: int, m: int| j <= jj && #[trigger] signer_has_match(chain, db, jj, m);
            if jj == j {
                let certs = pkcs7_signed_certificates_der(chain[j])->0;
                assert(0 <= m < certs.len() && db_has_match(db, certs[m]));
            } else {
                assert(j + 1 <= jj && signer_has_match(chain, db, jj, m));
            }
        }
    } else {
        if exists|jj: int, m: int| j <= jj && #[trigger] signer_has_match(chain, db, jj, m) {
            let (jj, m) = choose|jj: int, m: int| j <= jj && #[trigger] signer_has_match(chain, db, jj, m);
            assert(false);
        }
    }
}

/// `find_cert_in_db` finds a certificate exactly when some certificate of
/// the image's signed data has a match in the database (a certificate
/// whose subject is its subject or issuer).
pub proof fn law_found_iff_signer_matches(chain: Seq<Seq<u8>>, db: Seq<CertView>)
    ensures
        find_in_chain(chain, db, 0) is Some <==> exists|j: int, m: int|
            #[trigger] signer_has_match(chain, db, j, m),
        chain.len() == 0 ==> find_in_chain(chain, db, 0) is None,
{
    lemma_find_in_chain_complete(chain, db, 0);
    if exists|j: int, m: int| #[trigger] signer_has_match(chain, db, j, m) {
        let (j, m) = choose|j: int, m: int| #[trigger] signer_has_match(chain, db, j, m);
        assert(0 <= j && signer_has_match(chain, db, j, m));
    }
}

/// Adding certificates to a database never loses a match: where every
/// certificate of `db1` is also in `db2`, what is found with `db1` has a
/// counterpart found with `db2`.
pub proof fn law_more_certs_keep_match(chain: Seq<Seq<u8>>, db1: Seq<CertView>, db2: Seq<CertView>)
    requires
        forall|i: int| 0 <= i < db1.len() ==> db2.contains(#[trigger] db1[i]),
    ensures
        find_in_chain(chain, db1, 0) is Some ==> find_in_chain(chain, db2, 0) is Some,
{
    law_found_iff_signer_matches(chain, db1);
    law_found_iff_signer_matches(chain, db2);
    if find_in_chain(chain, db1, 0) is Some {
        let (j, m) = choose|j: int, m: int| #[trigger] signer_has_match(chain, db1, j, m);
        let certs = pkcs7_signed_certificates_der(chain[j])->0;
        let i = choose|i: int| 0 <= i < db1.len() && cert_subject_matches(#[trigger] db1[i].der, certs[m]);
        assert(db2.contains(db1[i]));
        let k = choose|k: int| 0 <= k < db2.len() && db2[k] == db1[i];
        assert(cert_subject_matches(db2[k].der, certs[m]));
        assert(db_has_match(db2, certs[m]));
        assert(signer_has_match(chain, db2, j, m));
    }
}

/// The vendor certificate section read as one certificate gives at most
/// one certificate, stored as plain DER.
pub proof fn law_vendor_cert_is_single_der(bin: Seq<u8>)
    ensures
        vendor_cert_certs(bin).len() <= 1,
        forall|i: int| 0 <= i < vendor_cert_certs(bin).len() ==> (#[trigger] vendor_cert_certs(bin)[i]).raw
            == vendor_cert_certs(bin)[i].der,
{
}

/// The authentication data of the vendor section is exactly the
/// `auth_size` bytes (the header's first field) at `auth_offset` (its
/// third field) of the section, and is there whenever the section holds
/// its header and those bytes.
pub proof fn law_vendor_cert_auth_is_the_header_range(bin: Seq<u8>)
    ensures
        pe_section_data(bin, SHIM_VENDOR_CERT_SECTION@) is None ==> vendor_cert_auth(bin) is Absent,
        pe_section_data(bin, SHIM_VENDOR_CERT_SECTION@) matches Some(raw) ==> (raw.len() >= 12 && le_u32(raw, 8)
            + le_u32(raw, 0) <= raw.len() ==> vendor_cert_auth(bin) == VendorCertAuth::Found(
            raw.subrange(le_u32(raw, 8) as int, (le_u32(raw, 8) + le_u32(raw, 0)) as int),
        )),
        vendor_cert_auth(bin) matches VendorCertAuth::Found(b) ==> (pe_section_data(
            bin,
            SHIM_VENDOR_CERT_SECTION@,
        ) matches Some(raw) && raw.len() >= 12 && b.len() == le_u32(raw, 0) && b == raw.subrange(
            le_u32(raw, 8) as int,
            (le_u32(raw, 8) + le_u32(raw, 0)) as int,
        )),
{
}

/// The vendor certificate is the authentication data itself: where there
/// is one, it is stored as exactly those bytes, `auth_size` of them.
pub proof fn law_vendor_cert_is_the_auth_data(bin: Seq<u8>)
    ensures
        vendor_cert_certs(bin).len() == 1 ==> (vendor_cert_auth(bin) matches VendorCertAuth::Found(b)
            && vendor_cert_certs(bin)[0] == (CertView { raw: b, der: b })),
        vendor_cert_auth(bin) matches VendorCertAuth::Found(b) ==> (x509_der_parses(b) ==> vendor_cert_certs(
            bin,
        ) == seq![CertView { raw: b, der: b }]),
{
}

/// The vendor database is read from the whole authentication data: where
/// that data reads as a database, its certificates are the vendor
/// database's, all of them.
pub proof fn law_vendor_db_reads_whole_auth_data(bin: Seq<u8>)
    ensures
        vendor_cert_auth(bin) matches VendorCertAuth::Found(b) ==> (db_entries(b) matches DbWalk::Entries(es)
            ==> vendor_db_certs(bin) == entry_certs(es)),
{
}

/// A vendor database made of two databases, the first of whole lists,
/// holds the certificates of both, in order.
pub proof fn law_vendor_db_of_two_dbs(bin: Seq<u8>, first: Seq<u8>, second: Seq<u8>)
    requires
        vendor_cert_auth(bin) == VendorCertAuth::Found(first + second),
        db_whole_lists(first),
        db_entries(second) is Entries,
    ensures
        vendor_db_certs(bin) == entry_certs(db_entries(first)->Entries_0) + entry_certs(
            db_entries(second)->Entries_0,
        ),
{
    law_db_concatenation(first, second);
}

/// The search takes the structures of the chain in order: where structure
/// `j` is the first with a certificate that has a match in the database,
/// `m` the first such certificate of it, and `i` the first certificate of
/// the database that matches it, what is found is the stored bytes of `i`.
pub proof fn law_find_takes_first_signature(
    chain: Seq<Seq<u8>>,
    db: Seq<CertView>,
    j: int,
    certs: Seq<Seq<u8>>,
    m: int,
    i: int,
)
    requires
        0 <= j < chain.len(),
        pkcs7_signed_certificates_der(chain[j]) == Some(certs),
        0 <= m < certs.len(),
        0 <= i < db.len(),
        cert_subject_matches(db[i].der, certs[m]),
        forall|jj: int, mm: int| jj < j ==> !#[trigger] signer_has_match(chain, db, jj, mm),
        forall|mm: int| 0 <= mm < m ==> !db_has_match(db, #[trigger] certs[mm]),
        forall|ii: int| 0 <= ii < i ==> !cert_subject_matches(#[trigger] db[ii].der, certs[m]),
    ensures
        find_in_chain(chain, db, 0) == Some(db[i].raw),
{
    lemma_find_in_chain_before(chain, db, j, 0);
    lemma_find_in_certs_before(certs, db, m, 0);
    law_lookup_finds_first_match(db, certs[m]);
    let f = first_match(db, certs[m]).unwrap();
    if f < i {
        assert(!cert_subject_matches(db[f].der, certs[m]));
    }
    if f > i {
        assert(!cert_subject_matches(db[i].der, certs[m]));
    }
}

proof fn lemma_find_in_certs_before(certs: Seq<Seq<u8>>, db: Seq<CertView>, m: int, k: int)
    requires
        0 <= k <= m,
        m < certs.len(),
        forall|mm: int| 0 <= mm < m ==> !db_has_match(db, #[trigger] certs[mm]),
    ensures
        find_in_certs(certs, db, k) == find_in_certs(certs, db, m),
    decreases m - k,
{
    if k < m {
        law_lookup_finds_first_match(db, certs[k]);
        assert(!db_has_match(db, certs[k]));
        lemma_find_in_certs_before(certs, db, m, k + 1);
    }
}

proof fn lemma_find_in_chain_before(chain: Seq<Seq<u8>>, db: Seq<CertView>, j: int, k: int)
    requires
        0 <= k <= j,
        j < chain.len(),
        forall|jj: int, mm: int| jj < j ==> !#[trigger] signer_has_match(chain, db, jj, mm),
    ensures
        find_in_chain(chain, db, k) == find_in_chain(chain, db, j),
    decreases j - k,
{
    if k < j {
        if let Some(cs) = pkcs7_signed_certificates_der(chain[k]) {
            lemma_find_in_certs_complete(cs, db, 0);
            if find_in_certs(cs, db, 0) is Some {
                let mm = choose|mm: int| 0 <= mm < cs.len() && db_has_match(db, #[trigger] cs[mm]);
                assert(signer_has_match(chain, db, k, mm));
            }
        }
        lemma_find_in_chain_before(chain, db, j, k + 1);
    }
}

/// A certificate table that is one revision-2.0 PKCS signed-data entry of
/// length `len` (at least its 8-byte header, inside the data) gives that
/// entry's certificate data, whatever its length.
pub proof fn law_table_of_one_signed_entry(data: Seq<u8>, start: int, size: int)
    requires
        0 <= start,
        start + 8 <= data.len(),
        le_u16(data, start + 4) == WIN_CERT_REVISION_2_0,
        le_u16(data, start + 6) == WIN_CERT_TYPE_PKCS_SIGNED_DATA,
        8 <= le_u32(data, start),
        start + le_u32(data, start) <= data.len(),
        0 < size <= le_u32(data, start),
    ensures
        cert_table_entries(data, start, size, 0) == Some(
            seq![data.subrange(start + 8, start + le_u32(data, start))],
        ),
{
    let len = le_u32(data, start) as int;
    assert(round_up8(len) >= len);
    assert(cert_table_entries(data, start, size, round_up8(len)) == Some(Seq::<Seq<u8>>::empty()));
    assert(seq![data.subrange(start + 8, start + len)] + Seq::<Seq<u8>>::empty() =~= seq![
        data.subrange(start + 8, start + len),
    ]);
}

/// Each signed-data entry the walk reaches is in the chain, whatever its
/// length: where the table at `offset` holds a revision-2.0 PKCS
/// signed-data entry inside the data and the rest of the table reads, the
/// entry's certificate data comes first, then the rest of the table.
pub proof fn law_signed_entry_is_read(data: Seq<u8>, start: int, size: int, offset: int)
    requires
        0 <= start,
        0 <= offset < size,
        start + offset + 8 <= data.len(),
        le_u16(data, start + offset + 4) == WIN_CERT_REVISION_2_0,
        le_u16(data, start + offset + 6) == WIN_CERT_TYPE_PKCS_SIGNED_DATA,
        8 <= le_u32(data, start + offset),
        start + offset + le_u32(data, start + offset) <= data.len(),
        cert_table_entries(data, start, size, offset + round_up8(le_u32(data, start + offset) as int)) is Some,
    ensures
        cert_table_entries(data, start, size, offset) == Some(
            seq![data.subrange(start + offset + 8, start + offset + le_u32(data, start + offset))]
                + cert_table_entries(data, start, size, offset + round_up8(le_u32(data, start + offset) as int))->0,
        ),
{
    let len = le_u32(data, start + offset) as int;
    assert(round_up8(len) >= len);
}

/// Reads the attribute certificate table at `start`, of `size` bytes.
fn parse_certchain(data: &[u8], start: u32, size: u32) -> (r: Option<Vec<Vec<u8>>>)
    ensures
        match cert_table_entries(data@, start as int, size as int, 0) {
            Some(es) => r matches Some(v) && vecs_view(v@) == es,
            None => r is None,
        },
{
    let len = data.len();
    let len64 = len as u64;
    let start64 = start as u64;
    let size64 = size as u64;
    let mut certchain: Vec<Vec<u8>> = Vec::new();
    let mut offset: u64 = 0;
    proof {
        let t = cert_table_entries(data@, start as int, size as int, 0);
        assert(vecs_view(certchain@) =~= Seq::<Seq<u8>>::empty());
        if let Some(es) = t {
            assert(Seq::<Seq<u8>>::empty() + es =~= es);
        }
    }
    while offset < size64
        invariant
            len == data@.len(),
            len64 == len,
            start64 == start,
            size64 == size,
            cert_table_entries(data@, start as int, size as int, 0) == match cert_table_entries(
                data@,
                start as int,
                size as int,
                offset as int,
            ) {
                Some(r) => Some(vecs_view(certchain@) + r),
                None => None,
            },
        decreases gap(offset as int, size as int),
    {
        let e = start64 + offset;
        if e > len64 || len64 - e < 8 {
            return None;
        }
        let eu = e as usize;
        let cert_length = read_u32_le(data, eu + PEFILE_CERT_ENTRY_LENGTH_START_OFFSET);
        let cert_revision = read_u16_le(data, eu + PEFILE_CERT_ENTRY_REV_START_OFFSET);
        let cert_type = read_u16_le(data, eu + PEFILE_CERT_ENTRY_TYPE_START_OFFSET);
        // The next entry starts at this entry's length rounded up to the
        // nearest 8-byte multiple.
        let step = (cert_length as u64 + 7) / 8 * 8;
        if step == 0 {
            return None;
        }
        let ghost before = vecs_view(certchain@);
        let ghost rest = cert_table_entries(data@, start as int, size as int, offset + step);
        if cert_type == WIN_CERT_TYPE_PKCS_SIGNED_DATA && cert_revision == WIN_CERT_REVISION_2_0
            && cert_length != 0 {
            if cert_length < 8 || cert_length as u64 > len64 - e {
                return None;
            }
            let entry = slice_subrange(
                data,
                eu + PEFILE_CERT_ENTRY_DATA_START_OFFSET,
                eu + cert_length as usize,
            );
            let cert = slice_to_vec(entry);
            certchain.push(cert);
            proof {
                assert(vecs_view(certchain@) =~= before.push(cert@));
                if let Some(r) = rest {
                    assert(before + (seq![cert@] + r) =~= before.push(cert@) + r);
                }
            }
        } else {
            proof {
                if let Some(r) = rest {
                    assert(before + (Seq::<Seq<u8>>::empty() + r) =~= before + r);
                }
            }
        }
        offset = offset + step;
    }
    proof {
        assert(vecs_view(certchain@) + Seq::<Seq<u8>>::empty() =~= vecs_view(certchain@));
    }
    Some(certchain)
}

/// What the library knows of an opened PE image: its bytes and the DER
/// PKCS#7 structures of its certificate table.
pub struct PeView {
    pub data: Seq<u8>,
    pub certchain: Seq<Seq<u8>>,
}

/// The error of bytes that are not a PE image the parser accepts, with the
/// parser's message.
#[derive(Debug)]
pub enum PeFileError {
    InvalidImage(String),
}

/// An opened PE image.
pub struct PeFile<'data> {
    data: &'data [u8],
    certchain: Vec<Vec<u8>>,
}

impl<'data> View for PeFile<'data> {
    type V = PeView;

    closed spec fn view(&self) -> PeView {
        PeView { data: self.data@, certchain: vecs_view(self.certchain@) }
    }
}

impl<'data> PeFile<'data> {
    /// Every opened image holds the certificate table of its bytes.
    #[verifier::type_invariant]
    spec fn well_formed(self) -> bool {
        pe_open(self.data@) == PeOpen::Opened(vecs_view(self.certchain@))
    }

    /// Opens a PE image and reads its certificate table.
    pub fn new(bin_data: &'data [u8]) -> (r: Result<PeFile<'data>, PeFileError>)
        requires
            !(pe_open(bin_data@) is Undefined),
        ensures
            match pe_open(bin_data@) {
                PeOpen::Opened(es) => r matches Ok(pe) && pe@ == (PeView { data: bin_data@, certchain: es }),
                PeOpen::NotPe(m) => r matches Err(PeFileError::InvalidImage(s)) && s@ == m,
                PeOpen::Undefined => false,
            },
    {
        Self::try_new(bin_data).unwrap()
    }

    /// Opens a PE image as `new` does, and gives `None` on the images on
    /// which `new` is not defined.
    pub fn try_new(bin_data: &'data [u8]) -> (r: Option<Result<PeFile<'data>, PeFileError>>)
        ensures
            match pe_open(bin_data@) {
                PeOpen::Opened(es) => r matches Some(Ok(pe)) && pe@ == (PeView {
                    data: bin_data@,
                    certchain: es,
                }),
                PeOpen::NotPe(m) => r matches Some(Err(PeFileError::InvalidImage(s))) && s@ == m,
                PeOpen::Undefined => r is None,
            },
    {
        if let Err(message) = pe_parse(bin_data) {
            return Some(Err(PeFileError::InvalidImage(message)));
        }
        let (start, size) = match pe_security_dir(bin_data) {
            Some(dir) => dir,
            None => return None,
        };
        let certchain = match parse_certchain(bin_data, start, size) {
            Some(c) => c,
            None => return None,
        };
        let mut i: usize = 0;
        while i < certchain.len()
            invariant
                0 <= i <= certchain@.len(),
                pe_parses(bin_data@),
                pe_security_directory(bin_data@) == Some((start, size)),
                cert_table_entries(bin_data@, start as int, size as int, 0) == Some(vecs_view(certchain@)),
                forall|j: int| 0 <= j < i ==> pkcs7_der_parses(#[trigger] vecs_view(certchain@)[j]),
            decreases certchain@.len() - i,
        {
            if !pkcs7_parses(certchain[i].as_slice()) {
                assert(!pkcs7_der_parses(vecs_view(certchain@)[i as int]));
                return None;
            }
            i = i + 1;
        }
        Some(Ok(PeFile { data: bin_data, certchain }))
    }

    /// The bytes of the image, whose certificate table the image holds.
    pub fn data(&self) -> (r: &'data [u8])
        ensures
            r@ == self@.data,
            pe_open(r@) == PeOpen::Opened(self@.certchain),
    {
        proof {
            use_type_invariant(self);
        }
        self.data
    }

    /// The SHA-256 Authenticode digest of the image.
    pub fn authenticode(&self) -> (r: Vec<u8>)
        requires
            pe_authenticode_sha256(self@.data) is Some,
        ensures
            Some(r@) == pe_authenticode_sha256(self@.data),
            r@.len() == 32,
    {
        pe_authenticode_digest(self.data).unwrap()
    }

    /// The Authenticode digest as `authenticode` gives it, and `None` on
    /// the images on which `authenticode` is not defined.
    pub fn try_authenticode(&self) -> (r: Option<Vec<u8>>)
        ensures
            match pe_authenticode_sha256(self@.data) {
                Some(d) => r matches Some(v) && v@ == d,
                None => r is None,
            },
    {
        if pe_authenticode_digest(self.data).is_some() {
            Some(self.authenticode())
        } else {
            None
        }
    }

    /// The data of the section named `name`, a range of the image's bytes.
    pub fn section(&self, name: &str) -> (r: Option<&'data [u8]>)
        ensures
            match pe_section_data(self@.data, name@) {
                Some(d) => r matches Some(s) && s@ == d,
                None => r is None,
            },
            r matches Some(s) ==> exists|o: int|
                0 <= o && o + s@.len() <= self@.data.len() && s@ == #[trigger] self@.data.subrange(
                    o,
                    o + s@.len(),
                ),
    {
        pe_section(self.data, name)
    }

    /// Reads the authentication data of the vendor certificate section;
    /// `None` where that is undefined, `Some(None)` where the section is
    /// absent.
    fn read_vendor_cert_auth(&self) -> (r: Option<Option<Vec<u8>>>)
        ensures
            match vendor_cert_auth(self@.data) {
                VendorCertAuth::Absent => r matches Some(None),
                VendorCertAuth::Found(b) => r matches Some(Some(v)) && v@ == b,
                VendorCertAuth::Undefined => r is None,
            },
    {
        let raw = match self.section(SHIM_VENDOR_CERT_SECTION) {
            Some(raw) => raw,
            None => return Some(None),
        };
        let len = raw.len();
        if len < 12 {
            return None;
        }
        // The header holds, as little-endian u32: the size of the
        // authentication data, the size of the deauthentication data, and
        // their offsets.
        let auth_size = read_u32_le(raw, 0);
        let auth_offset = read_u32_le(raw, 8);
        if auth_offset as u64 + auth_size as u64 > len as u64 {
            return None;
        }
        let auth = slice_subrange(raw, auth_offset as usize, auth_offset as usize + auth_size as usize);
        Some(Some(slice_to_vec(auth)))
    }

    /// The authentication data of the vendor certificate section, if the
    /// image has one.
    fn get_vendor_cert_auth(&self) -> (r: Option<Vec<u8>>)
        requires
            !(vendor_cert_auth(self@.data) is Undefined),
        ensures
            match vendor_cert_auth(self@.data) {
                VendorCertAuth::Found(b) => r matches Some(v) && v@ == b,
                _ => r is None,
            },
    {
        self.read_vendor_cert_auth().unwrap()
    }

    /// The .vendor_cert section can store certificates in db format, as
    /// shim does: the certificates of that database; an empty database
    /// where there is no section or the database is in error.
    pub fn vendor_db(&self) -> (r: Certdb)
        requires
            vendor_db_defined(self@.data),
        ensures
            r@ == vendor_db_certs(self@.data),
    {
        if let Some(db_bytes) = self.get_vendor_cert_auth() {
            return match Certdb::from_bytes(db_bytes.as_slice()) {
                Ok(db) => db,
                Err(_) => Certdb::default(),
            };
        }
        Certdb::default()
    }

    /// The vendor database as `vendor_db` gives it, and `None` on the
    /// images on which `vendor_db` is not defined.
    pub fn try_vendor_db(&self) -> (r: Option<Certdb>)
        ensures
            vendor_db_defined(self@.data) ==> (r matches Some(db) && db@ == vendor_db_certs(self@.data)),
            !vendor_db_defined(self@.data) ==> r is None,
    {
        match self.read_vendor_cert_auth() {
            None => None,
            Some(None) => Some(self.vendor_db()),
            Some(Some(db_bytes)) => match Certdb::try_from_bytes(db_bytes.as_slice()) {
                None => None,
                Some(_) => Some(self.vendor_db()),
            },
        }
    }

    /// The .vendor_cert section can also store just one certificate, as
    /// shim does: a database that holds it; an empty database where there
    /// is no section or the certificate does not parse.
    pub fn vendor_cert(&self) -> (r: Certdb)
        requires
            !(vendor_cert_auth(self@.data) is Undefined),
        ensures
            r@ == vendor_cert_certs(self@.data),
    {
        if let Some(der_bytes) = self.get_vendor_cert_auth() {
            return match Certdb::from_unique_der(der_bytes.as_slice()) {
                Ok(db) => db,
                Err(_) => Certdb::default(),
            };
        }
        Certdb::default()
    }

    /// The vendor certificate as `vendor_cert` gives it, and `None` on the
    /// images on which `vendor_cert` is not defined.
    pub fn try_vendor_cert(&self) -> (r: Option<Certdb>)
        ensures
            !(vendor_cert_auth(self@.data) is Undefined) ==> (r matches Some(db) && db@ == vendor_cert_certs(
                self@.data,
            )),
            vendor_cert_auth(self@.data) is Undefined ==> r is None,
    {
        match self.read_vendor_cert_auth() {
            None => None,
            Some(_) => Some(self.vendor_cert()),
        }
    }

    /// The stored bytes of the first certificate of `db` that matches (see
    /// `Certdb::get`) a certificate of the signed data of the image's
    /// certificate table, the table's structures and their certificates
    /// taken in order.
    pub fn find_cert_in_db(&self, db: &Certdb) -> (r: Option<Vec<u8>>)
        ensures
            match find_in_chain(self@.certchain, db@, 0) {
                Some(b) => r matches Some(v) && v@ == b,
                None => r is None,
            },
    {
        let mut i: usize = 0;
        while i < self.certchain.len()
            invariant
                self@.certchain == vecs_view(self.certchain@),
                0 <= i <= self.certchain@.len(),
                find_in_chain(self@.certchain, db@, 0) == find_in_chain(self@.certchain, db@, i as int),
            decreases self.certchain@.len() - i,
        {
            if let Some(certs) = pkcs7_signed_certificates(self.certchain[i].as_slice()) {
                let mut k: usize = 0;
                while k < certs.len()
                    invariant
                        0 <= k <= certs@.len(),
                        0 <= i < self.certchain@.len(),
                        self@.certchain == vecs_view(self.certchain@),
                        find_in_chain(self@.certchain, db@, 0) == find_in_chain(self@.certchain, db@, i as int),
                        pkcs7_signed_certificates_der(self@.certchain[i as int]) == Some(vecs_view(certs@)),
                        find_in_certs(vecs_view(certs@), db@, 0) == find_in_certs(vecs_view(certs@), db@, k as int),
                    decreases certs@.len() - k,
                {
                    if let Some(cert) = db.get(certs[k].as_slice()) {
                        return Some(cert.raw());
                    }
                    k = k + 1;
                }
            }
            i = i + 1;
        }
        None
    }
}

} // verus!
