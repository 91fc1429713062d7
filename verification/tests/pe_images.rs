use efi_certs::cert_db::Certdb;
use efi_certs::esp::Esp;
use efi_certs::linux::Linux;
use efi_certs::pefile::{PeFile, PeFileError};
use openssl::asn1::Asn1Time;
use openssl::bn::BigNum;
use openssl::ec::{EcGroup, EcKey};
use openssl::hash::MessageDigest;
use openssl::nid::Nid;
use openssl::pkcs7::{Pkcs7, Pkcs7Flags};
use openssl::pkey::{PKey, Private};
use openssl::stack::Stack;
use openssl::x509::{X509Builder, X509NameBuilder, X509};
use sha2::{Digest, Sha256};

const X509_TYPE: [u8; 16] =
    [0xa1, 0x59, 0xc0, 0xa5, 0xe4, 0x94, 0xa7, 0x4a, 0x87, 0xb5, 0xab, 0x15, 0x5c, 0x2b, 0xf0, 0x72];

fn new_key() -> PKey<Private> {
    let group = EcGroup::from_curve_name(Nid::X9_62_PRIME256V1).unwrap();
    PKey::from_ec_key(EcKey::generate(&group).unwrap()).unwrap()
}

fn cert_with(subject: &str, issuer: &str, key: &PKey<Private>) -> X509 {
    let mut s = X509NameBuilder::new().unwrap();
    s.append_entry_by_text("CN", subject).unwrap();
    let s = s.build();
    let mut i = X509NameBuilder::new().unwrap();
    i.append_entry_by_text("CN", issuer).unwrap();
    let i = i.build();
    let mut b = X509Builder::new().unwrap();
    b.set_version(2).unwrap();
    let serial = BigNum::from_u32(9).unwrap().to_asn1_integer().unwrap();
    b.set_serial_number(&serial).unwrap();
    b.set_subject_name(&s).unwrap();
    b.set_issuer_name(&i).unwrap();
    b.set_pubkey(key).unwrap();
    b.set_not_before(&Asn1Time::days_from_now(0).unwrap()).unwrap();
    b.set_not_after(&Asn1Time::days_from_now(1).unwrap()).unwrap();
    b.sign(key, MessageDigest::sha256()).unwrap();
    b.build()
}

fn cert(subject: &str, issuer: &str) -> Vec<u8> {
    cert_with(subject, issuer, &new_key()).to_der().unwrap()
}

/// A PKCS#7 signed-data structure whose certificate is one issued by `issuer`.
fn signature_by(subject: &str, issuer: &str) -> Vec<u8> {
    let key = new_key();
    let signer = cert_with(subject, issuer, &key);
    let chain: Stack<X509> = Stack::new().unwrap();
    Pkcs7::sign(&signer, &key, &chain, b"image digest", Pkcs7Flags::BINARY).unwrap().to_der().unwrap()
}

fn put_u16(img: &mut [u8], at: usize, v: u16) {
    img[at..at + 2].copy_from_slice(&v.to_le_bytes());
}

fn put_u32(img: &mut [u8], at: usize, v: u32) {
    img[at..at + 4].copy_from_slice(&v.to_le_bytes());
}

fn round_up(x: usize, a: usize) -> usize {
    (x + a - 1) / a * a
}

/// A minimal PE32+ image with an optional `.vendor_cert` section and an
/// optional attribute certificate table at its end.
fn build_pe(vendor: Option<&[u8]>, cert_table: Option<&[u8]>) -> Vec<u8> {
    let mut img = vec![0u8; 0x200];
    img[0] = b'M';
    img[1] = b'Z';
    put_u32(&mut img, 0x3c, 0x40);
    img[0x40..0x44].copy_from_slice(b"PE\0\0");
    let fh = 0x44;
    put_u16(&mut img, fh, 0x8664);
    put_u16(&mut img, fh + 2, if vendor.is_some() { 1 } else { 0 });
    put_u16(&mut img, fh + 16, 240);
    put_u16(&mut img, fh + 18, 0x0022);
    let oh = 0x58;
    put_u16(&mut img, oh, 0x20b);
    put_u32(&mut img, oh + 32, 0x1000);
    put_u32(&mut img, oh + 36, 0x200);
    put_u32(&mut img, oh + 56, 0x3000);
    put_u32(&mut img, oh + 60, 0x200);
    put_u16(&mut img, oh + 68, 10);
    put_u32(&mut img, oh + 108, 16);
    if let Some(v) = vendor {
        let raw_size = round_up(v.len().max(1), 0x200);
        let sh = oh + 240;
        img[sh..sh + 8].copy_from_slice(b"/4\0\0\0\0\0\0");
        put_u32(&mut img, sh + 8, v.len() as u32);
        put_u32(&mut img, sh + 12, 0x1000);
        put_u32(&mut img, sh + 16, raw_size as u32);
        put_u32(&mut img, sh + 20, 0x200);
        put_u32(&mut img, sh + 36, 0x4000_0040);
        img.extend_from_slice(v);
        img.resize(0x200 + raw_size, 0);
        let strings = img.len();
        put_u32(&mut img, fh + 8, strings as u32);
        img.extend_from_slice(&17u32.to_le_bytes());
        img.extend_from_slice(b".vendor_cert\0");
    }
    let aligned = round_up(img.len(), 8);
    img.resize(aligned, 0);
    if let Some(t) = cert_table {
        let dir = oh + 112 + 4 * 8;
        let at = img.len() as u32;
        put_u32(&mut img, dir, at);
        put_u32(&mut img, dir + 4, t.len() as u32);
        img.extend_from_slice(t);
    }
    img
}

/// An attribute certificate table entry, padded to 8 bytes.
fn cert_entry(revision: u16, cert_type: u16, payload: &[u8]) -> Vec<u8> {
    let mut e = Vec::new();
    e.extend_from_slice(&((8 + payload.len()) as u32).to_le_bytes());
    e.extend_from_slice(&revision.to_le_bytes());
    e.extend_from_slice(&cert_type.to_le_bytes());
    e.extend_from_slice(payload);
    let len = round_up(e.len(), 8);
    e.resize(len, 0);
    e
}

fn x509_list(der: &[u8]) -> Vec<u8> {
    let mut out = Vec::new();
    out.extend_from_slice(&X509_TYPE);
    out.extend_from_slice(&((28 + 16 + der.len()) as u32).to_le_bytes());
    out.extend_from_slice(&0u32.to_le_bytes());
    out.extend_from_slice(&((16 + der.len()) as u32).to_le_bytes());
    out.extend_from_slice(&[0x22; 16]);
    out.extend_from_slice(der);
    out
}

/// A `.vendor_cert` section: the header, then the authentication data.
fn vendor_section(auth: &[u8]) -> Vec<u8> {
    let mut s = Vec::new();
    s.extend_from_slice(&(auth.len() as u32).to_le_bytes());
    s.extend_from_slice(&0u32.to_le_bytes());
    s.extend_from_slice(&16u32.to_le_bytes());
    s.extend_from_slice(&((16 + auth.len()) as u32).to_le_bytes());
    s.extend_from_slice(auth);
    s
}

fn expected_authenticode(img: &[u8]) -> Option<Vec<u8>> {
    let pe = object::read::pe::NativePeFile::parse(img).ok()?;
    let mut d = Sha256::new();
    authenticode::authenticode_digest(&pe, &mut d).ok()?;
    Some(d.finalize().to_vec())
}

#[test]
fn signed_image_finds_issuer_in_db() {
    let table = cert_entry(0x0200, 2, &signature_by("Signer", "Vendor CA"));
    let img = build_pe(None, Some(&table));
    let pe = PeFile::new(&img).unwrap();
    let ca = cert("Vendor CA", "Vendor CA");
    let db = Certdb::from_unique_der(&ca).unwrap();
    assert_eq!(pe.find_cert_in_db(&db), Some(ca));
    let other = Certdb::from_unique_der(&cert("Other CA", "Other CA")).unwrap();
    assert_eq!(pe.find_cert_in_db(&other), None);
    assert_eq!(pe.find_cert_in_db(&Certdb::empty()), None);
}

#[test]
fn certificate_table_keeps_only_signed_data_v2() {
    let ca = cert("Vendor CA", "Vendor CA");
    let db = Certdb::from_unique_der(&ca).unwrap();
    // Revision 1.0 and X.509 entries are skipped.
    let rev1 = cert_entry(0x0100, 2, &signature_by("Signer", "Vendor CA"));
    let img = build_pe(None, Some(&rev1));
    assert_eq!(PeFile::new(&img).unwrap().find_cert_in_db(&db), None);
    let x509 = cert_entry(0x0200, 1, &signature_by("Signer", "Vendor CA"));
    let img = build_pe(None, Some(&x509));
    assert_eq!(PeFile::new(&img).unwrap().find_cert_in_db(&db), None);
    // An entry after a skipped one is read.
    let mut table = cert_entry(0x0200, 1, &[0u8; 24]);
    table.extend(cert_entry(0x0200, 2, &signature_by("Signer", "Vendor CA")));
    let img = build_pe(None, Some(&table));
    assert_eq!(PeFile::new(&img).unwrap().find_cert_in_db(&db), Some(ca));
}

#[test]
fn certificate_table_entries_follow_each_other_at_8_byte_boundaries() {
    // Each entry starts at the previous one's start plus its length rounded
    // up to 8 bytes, so the third entry of a packed table is read.
    let ca = cert("Vendor CA", "Vendor CA");
    let db = Certdb::from_unique_der(&ca).unwrap();
    let mut table = cert_entry(0x0200, 1, &vec![0u8; 2000]);
    table.extend(cert_entry(0x0200, 2, &signature_by("Signer", "Unrelated CA")));
    table.extend(cert_entry(0x0200, 2, &signature_by("Signer", "Vendor CA")));
    let img = build_pe(None, Some(&table));
    let pe = PeFile::new(&img).unwrap();
    assert_eq!(pe.find_cert_in_db(&db), Some(ca));
    let unrelated = cert("Unrelated CA", "Unrelated CA");
    let db2 = Certdb::from_unique_der(&unrelated).unwrap();
    assert_eq!(pe.find_cert_in_db(&db2), Some(unrelated));
}

#[test]
fn certificate_table_with_two_short_entries_then_signed_data() {
    // Entries of length 8, 8, then signed data at table offset 16.
    let ca = cert("Vendor CA", "Vendor CA");
    let db = Certdb::from_unique_der(&ca).unwrap();
    let mut table = cert_entry(0x0200, 1, &[]);
    table.extend(cert_entry(0x0200, 1, &[]));
    table.extend(cert_entry(0x0200, 2, &signature_by("Signer", "Vendor CA")));
    let img = build_pe(None, Some(&table));
    let pe = PeFile::new(&img).unwrap();
    assert_eq!(pe.find_cert_in_db(&db), Some(ca));
}

#[test]
fn certificate_table_with_zero_length_entry_is_undefined() {
    // A zero length entry after a valid one: the walk would never end.
    let mut table = cert_entry(0x0200, 1, &[0u8; 8]);
    table.extend(vec![0u8; 16]);
    assert!(PeFile::try_new(&build_pe(None, Some(&table))).is_none());
}

#[test]
fn not_a_pe_image_is_an_error() {
    let expected = object::read::pe::NativePeFile::parse(&[0u8; 64][..]).err().unwrap().to_string();
    match PeFile::new(&[0u8; 64]) {
        Err(PeFileError::InvalidImage(message)) => assert_eq!(message, expected),
        Ok(_) => panic!("zeros are not a PE image"),
    }
    assert!(matches!(PeFile::try_new(b"not an image at all"), Some(Err(_))));
}

#[test]
fn image_without_security_directory_is_undefined() {
    let img = build_pe(None, None);
    assert!(PeFile::try_new(&img).is_none());
}

#[test]
fn image_with_bad_certificate_table_is_undefined() {
    // Signed-data entry whose payload is not PKCS#7.
    let table = cert_entry(0x0200, 2, &[0x55; 40]);
    assert!(PeFile::try_new(&build_pe(None, Some(&table))).is_none());
    // Empty first entry: the walk would never end.
    let table = vec![0u8; 16];
    assert!(PeFile::try_new(&build_pe(None, Some(&table))).is_none());
    // Signed-data entry longer than the image.
    let mut table = cert_entry(0x0200, 2, &signature_by("Signer", "Vendor CA"));
    table[0..4].copy_from_slice(&100_000u32.to_le_bytes());
    assert!(PeFile::try_new(&build_pe(None, Some(&table))).is_none());
}

#[test]
fn vendor_section_as_db() {
    let ca = cert("Vendor CA", "Vendor CA");
    let section = vendor_section(&x509_list(&ca));
    let table = cert_entry(0x0200, 2, &signature_by("Signer", "Vendor CA"));
    let img = build_pe(Some(&section), Some(&table));
    let pe = PeFile::new(&img).unwrap();
    assert_eq!(pe.section(".vendor_cert"), Some(&section[..]));
    assert_eq!(pe.section(".text"), None);
    let db = pe.vendor_db();
    assert_eq!(db.len(), 1);
    let mut stored = vec![0x22; 16];
    stored.extend_from_slice(&ca);
    assert_eq!(pe.find_cert_in_db(&db), Some(stored));
    assert_eq!(pe.try_vendor_db().unwrap().len(), 1);
    // The same bytes are not one DER certificate.
    assert_eq!(pe.vendor_cert().len(), 0);
}

#[test]
fn vendor_section_as_single_cert() {
    let ca = cert("Vendor CA", "Vendor CA");
    let section = vendor_section(&ca);
    let table = cert_entry(0x0200, 2, &signature_by("Signer", "Vendor CA"));
    let img = build_pe(Some(&section), Some(&table));
    let pe = PeFile::new(&img).unwrap();
    let db = pe.vendor_cert();
    assert_eq!(db.len(), 1);
    assert_eq!(pe.find_cert_in_db(&db), Some(ca.clone()));
    assert_eq!(pe.try_vendor_cert().unwrap().len(), 1);
}

#[test]
fn vendor_section_absent_or_broken() {
    let table = cert_entry(0x0200, 2, &signature_by("Signer", "Vendor CA"));
    let img = build_pe(None, Some(&table));
    let pe = PeFile::new(&img).unwrap();
    assert_eq!(pe.vendor_db().len(), 0);
    assert_eq!(pe.vendor_cert().len(), 0);
    // A database whose list claims more than there is reads as empty.
    let ca = cert("Vendor CA", "Vendor CA");
    let mut list = x509_list(&ca);
    list[16..20].copy_from_slice(&10_000u32.to_le_bytes());
    let img = build_pe(Some(&vendor_section(&list)), Some(&table));
    let pe = PeFile::new(&img).unwrap();
    assert_eq!(pe.vendor_db().len(), 0);
    // A section shorter than its header.
    let img = build_pe(Some(&[1, 2, 3, 4]), Some(&table));
    let pe = PeFile::new(&img).unwrap();
    assert!(pe.try_vendor_db().is_none());
    assert!(pe.try_vendor_cert().is_none());
    // A header that points past the section.
    let mut section = vendor_section(&ca);
    section[0..4].copy_from_slice(&50_000u32.to_le_bytes());
    let img = build_pe(Some(&section), Some(&table));
    let pe = PeFile::new(&img).unwrap();
    assert!(pe.try_vendor_cert().is_none());
}

#[test]
fn authenticode_digest_of_image() {
    let table = cert_entry(0x0200, 2, &signature_by("Signer", "Vendor CA"));
    let img = build_pe(Some(&vendor_section(&[7u8; 40])), Some(&table));
    let pe = PeFile::new(&img).unwrap();
    let expected = expected_authenticode(&img);
    assert!(expected.is_some());
    assert_eq!(pe.try_authenticode(), expected);
    if let Some(d) = expected {
        assert_eq!(d.len(), 32);
        assert_eq!(pe.authenticode(), d);
        assert_ne!(d, img[..32].to_vec());
    }
}

#[test]
fn esp_loads_shim_and_grub() {
    let table = cert_entry(0x0200, 2, &signature_by("Signer", "Vendor CA"));
    let shim = build_pe(Some(&vendor_section(&cert("Vendor CA", "Vendor CA"))), Some(&table));
    let grub = b"grub is not a PE image here".to_vec();
    let esp = Esp::new(shim.clone(), grub);
    assert_eq!(esp.shim().data(), &shim[..]);
    assert_eq!(esp.try_shim().unwrap().vendor_cert().len(), 1);
    assert!(esp.try_grub().is_none());
}

#[test]
fn linux_authenticode() {
    let table = cert_entry(0x0200, 2, &signature_by("Signer", "Kernel CA"));
    let img = build_pe(None, Some(&table));
    let linux = Linux::new(img.clone());
    assert_eq!(linux.try_authenticode(), expected_authenticode(&img));
    assert!(Linux::new(vec![0u8; 100]).try_authenticode().is_none());
}

#[test]
fn found_exactly_when_a_signer_certificate_matches() {
    let table = cert_entry(0x0200, 2, &signature_by("Signer", "Vendor CA"));
    let img = build_pe(None, Some(&table));
    let pe = PeFile::new(&img).unwrap();
    // The signer certificate's own subject also matches.
    let same_subject = cert("Signer", "Somebody");
    let db = Certdb::from_unique_der(&same_subject).unwrap();
    assert_eq!(pe.find_cert_in_db(&db), Some(same_subject));
    let unrelated = Certdb::from_unique_der(&cert("Nobody", "Nobody")).unwrap();
    assert_eq!(pe.find_cert_in_db(&unrelated), None);
}

#[test]
fn adding_certificates_keeps_a_match() {
    let table = cert_entry(0x0200, 2, &signature_by("Signer", "Vendor CA"));
    let img = build_pe(None, Some(&table));
    let pe = PeFile::new(&img).unwrap();
    let ca = cert("Vendor CA", "Vendor CA");
    let small = x509_list(&ca);
    let mut large = x509_list(&cert("Other", "Other"));
    large.extend(small.clone());
    let db1 = Certdb::from_bytes(&small).unwrap();
    let db2 = Certdb::from_bytes(&large).unwrap();
    assert!(pe.find_cert_in_db(&db1).is_some());
    assert!(pe.find_cert_in_db(&db2).is_some());
}
