use efi_certs::cert_db::Certdb;
use efi_certs::certs::X509Cert;
use openssl::asn1::Asn1Time;
use openssl::bn::BigNum;
use openssl::ec::{EcGroup, EcKey};
use openssl::hash::MessageDigest;
use openssl::nid::Nid;
use openssl::pkey::{PKey, Private};
use openssl::x509::{X509Builder, X509NameBuilder, X509};

const X509_TYPE: [u8; 16] =
    [0xa1, 0x59, 0xc0, 0xa5, 0xe4, 0x94, 0xa7, 0x4a, 0x87, 0xb5, 0xab, 0x15, 0x5c, 0x2b, 0xf0, 0x72];
const SHA256_TYPE: [u8; 16] =
    [0x26, 0x16, 0xc4, 0xc1, 0x4c, 0x50, 0x92, 0x40, 0xac, 0xa9, 0x41, 0xf9, 0x36, 0x93, 0x43, 0x28];
const OWNER: [u8; 16] = [0x11; 16];

fn new_key() -> PKey<Private> {
    let group = EcGroup::from_curve_name(Nid::X9_62_PRIME256V1).unwrap();
    PKey::from_ec_key(EcKey::generate(&group).unwrap()).unwrap()
}

fn cert_with(subject: &str, issuer: &str, key: &PKey<Private>) -> X509 {
    let mut s = X509NameBuilder::new().unwrap();
    s.append_entry_by_text("CN", subject).unwrap();
    let s = s.build();
    let mut i = X509NameBuilder::new().unwrap();
    i.append_entry_by_text("CN", issuer).unwrap();
    let i = i.build();
    let mut b = X509Builder::new().unwrap();
    b.set_version(2).unwrap();
    let serial = BigNum::from_u32(7).unwrap().to_asn1_integer().unwrap();
    b.set_serial_number(&serial).unwrap();
    b.set_subject_name(&s).unwrap();
    b.set_issuer_name(&i).unwrap();
    b.set_pubkey(key).unwrap();
    b.set_not_before(&Asn1Time::days_from_now(0).unwrap()).unwrap();
    b.set_not_after(&Asn1Time::days_from_now(1).unwrap()).unwrap();
    b.sign(key, MessageDigest::sha256()).unwrap();
    b.build()
}

fn cert(subject: &str, issuer: &str) -> Vec<u8> {
    cert_with(subject, issuer, &new_key()).to_der().unwrap()
}

fn put_u32(out: &mut Vec<u8>, v: u32) {
    out.extend_from_slice(&v.to_le_bytes());
}

/// A signature list of the given type whose entries are padded to `size`.
fn signature_list(sig_type: [u8; 16], header: &[u8], entries: &[Vec<u8>], size: u32) -> Vec<u8> {
    let mut body = Vec::new();
    for e in entries {
        let mut e = e.clone();
        e.resize(size as usize, 0);
        body.extend_from_slice(&e);
    }
    let mut out = Vec::new();
    out.extend_from_slice(&sig_type);
    put_u32(&mut out, (28 + header.len() + body.len()) as u32);
    put_u32(&mut out, header.len() as u32);
    put_u32(&mut out, size);
    out.extend_from_slice(header);
    out.extend_from_slice(&body);
    out
}

fn entry(der: &[u8]) -> Vec<u8> {
    let mut e = OWNER.to_vec();
    e.extend_from_slice(der);
    e
}

fn x509_list(ders: &[Vec<u8>]) -> Vec<u8> {
    let size = ders.iter().map(|d| d.len() + 16).max().unwrap() as u32;
    let entries: Vec<Vec<u8>> = ders.iter().map(|d| entry(d)).collect();
    signature_list(X509_TYPE, &[], &entries, size)
}

fn padded(e: &[u8], size: usize) -> Vec<u8> {
    let mut e = e.to_vec();
    e.resize(size, 0);
    e
}

#[test]
fn db_reads_the_certificates_of_x509_lists() {
    let a = cert("Alpha", "Alpha");
    let b = cert("Beta", "Beta");
    let mut data = x509_list(&[a.clone()]);
    data.extend(x509_list(&[b.clone()]));
    let db = Certdb::from_bytes(&data).unwrap();
    assert_eq!(db.len(), 2);
    let found_a = db.get(&a).unwrap();
    assert_eq!(found_a.raw(), entry(&a));
    assert_eq!(found_a.x509().to_der().unwrap(), a);
    let found_b = db.get(&b).unwrap();
    assert_eq!(found_b.raw(), entry(&b));
}

#[test]
fn db_list_header_is_skipped() {
    let a = cert("Alpha", "Alpha");
    let size = (a.len() + 16) as u32;
    let data = signature_list(X509_TYPE, &[0xee; 12], &[entry(&a)], size);
    let db = Certdb::from_bytes(&data).unwrap();
    assert_eq!(db.len(), 1);
    assert_eq!(db.get(&a).unwrap().raw(), entry(&a));
}

#[test]
fn db_ignores_lists_of_other_types() {
    let a = cert("Alpha", "Alpha");
    let mut data = signature_list(SHA256_TYPE, &[], &[vec![0x42; 48], vec![0x43; 48]], 48);
    data.extend(x509_list(&[a.clone()]));
    let db = Certdb::from_bytes(&data).unwrap();
    assert_eq!(db.len(), 1);
    assert!(db.contains(&a));
}

#[test]
fn db_skips_entries_openssl_rejects() {
    let a = cert("Alpha", "Alpha");
    let size = (a.len() + 16) as u32;
    let data = signature_list(X509_TYPE, &[], &[entry(&[0x30, 0x03, 0x01, 0x01, 0x00]), entry(&a)], size);
    let db = Certdb::from_bytes(&data).unwrap();
    assert_eq!(db.len(), 1);
    assert_eq!(db.get(&a).unwrap().raw(), padded(&entry(&a), size as usize));
}

#[test]
fn db_list_larger_than_data_is_an_error() {
    let a = cert("Alpha", "Alpha");
    let mut data = x509_list(&[a]);
    data.truncate(data.len() - 1);
    let err = Certdb::from_bytes(&data).err().unwrap();
    assert_eq!(err.to_string(), "Error parsing cert db: Invalid list size");
}

#[test]
fn db_undefined_inputs() {
    let a = cert("Alpha", "Alpha");
    // List size smaller than its own headers.
    let mut bad = x509_list(&[a.clone()]);
    bad[16..20].copy_from_slice(&20u32.to_le_bytes());
    assert!(Certdb::try_from_bytes(&bad).is_none());
    // Zero entry size in a non-empty list: reading would never end.
    let mut zero = x509_list(&[a.clone()]);
    zero[24..28].copy_from_slice(&0u32.to_le_bytes());
    assert!(Certdb::try_from_bytes(&zero).is_none());
    // Entries shorter than the owner GUID.
    let short = signature_list(X509_TYPE, &[], &[vec![0; 8], vec![0; 8]], 8);
    assert!(Certdb::try_from_bytes(&short).is_none());
    // An entry that runs past the end of the data.
    let mut past = x509_list(&[a.clone()]);
    let size = u32::from_le_bytes(past[24..28].try_into().unwrap());
    past[24..28].copy_from_slice(&(size + 100).to_le_bytes());
    assert!(Certdb::try_from_bytes(&past).is_none());
    // An entry that runs into the next list is read as it lies.
    let mut into_next = x509_list(&[a.clone()]);
    let list_size = u32::from_le_bytes(into_next[16..20].try_into().unwrap());
    into_next[24..28].copy_from_slice(&(size + 4).to_le_bytes());
    into_next.extend(signature_list(SHA256_TYPE, &[], &[vec![0x42; 48]], 48));
    let db = Certdb::try_from_bytes(&into_next).unwrap().unwrap();
    assert_eq!(db.len(), 1);
    let raw = db.get(&a).unwrap().raw();
    assert_eq!(raw.len(), (size + 4) as usize);
    assert_eq!(raw[..], into_next[28..28 + (size + 4) as usize]);
    assert_eq!(list_size + 0, u32::from_le_bytes(into_next[16..20].try_into().unwrap()));
}

#[test]
fn unique_der_db_holds_the_certificate() {
    let a = cert("Alpha", "Alpha");
    let db = Certdb::from_unique_der(&a).unwrap();
    assert_eq!(db.len(), 1);
    assert_eq!(db.get(&a).unwrap().raw(), a);
}

#[test]
fn unique_der_rejects_garbage() {
    let err = Certdb::from_unique_der(&[1, 2, 3]).err().unwrap();
    assert_eq!(err.to_string(), "Error parsing cert db: Couldn't parse single der");
}

#[test]
fn x509_cert_from_db_bytes_keeps_the_entry() {
    let a = cert("Alpha", "Alpha");
    let c = X509Cert::from_db_bytes(&entry(&a)).unwrap();
    assert_eq!(c.raw(), entry(&a));
    assert_eq!(c.x509().to_der().unwrap(), a);
    assert!(X509Cert::from_db_bytes(&[0u8; 20]).is_err());
}

#[test]
fn x509_cert_from_der_raw_is_der() {
    let a = cert("Alpha", "Alpha");
    let c = X509Cert::from_der(&a).unwrap();
    assert_eq!(c.raw(), a);
    assert!(X509Cert::from_der(&a[1..]).is_err());
}

#[test]
fn subject_matches_subject_or_issuer() {
    let ca = X509Cert::from_der(&cert("Root CA", "Root CA")).unwrap();
    let leaf = cert("Leaf", "Root CA");
    let same_subject = cert("Root CA", "Someone");
    let other = cert("Other", "Other");
    assert!(ca.subject_matches(&leaf));
    assert!(ca.subject_matches(&same_subject));
    assert!(!ca.subject_matches(&other));
    assert!(!ca.subject_matches(&[0u8; 4]));
}

#[test]
fn contains_and_get_agree() {
    let ca = cert("Root CA", "Root CA");
    let db = Certdb::from_unique_der(&ca).unwrap();
    let leaf = cert("Leaf", "Root CA");
    let other = cert("Other", "Other");
    assert!(db.contains(&leaf));
    assert!(db.get(&leaf).is_some());
    assert!(!db.contains(&other));
    assert!(db.get(&other).is_none());
}

#[test]
fn get_finds_the_first_match() {
    let first = cert("Root CA", "Root CA");
    let second = cert("Root CA", "Root CA");
    let data = x509_list(&[first.clone(), second.clone()]);
    let db = Certdb::from_bytes(&data).unwrap();
    assert_eq!(db.len(), 2);
    let size = first.len().max(second.len()) + 16;
    let leaf = cert("Leaf", "Root CA");
    assert_eq!(db.get(&leaf).unwrap().raw(), padded(&entry(&first), size));
}

#[test]
fn concatenated_dbs_read_as_both_in_order() {
    let a = cert("Root CA", "Root CA");
    let b = cert("Root CA", "Root CA");
    let first = x509_list(&[a.clone()]);
    let second = x509_list(&[b.clone()]);
    let mut both = first.clone();
    both.extend(second.clone());
    let db = Certdb::from_bytes(&both).unwrap();
    assert_eq!(db.len(), 2);
    // The first certificate of the concatenation is the one of `first`.
    let leaf = cert("Leaf", "Root CA");
    assert_eq!(db.get(&leaf).unwrap().raw(), entry(&a));
    assert!(db.contains(&b));
    // Appending a list of another signature type adds nothing.
    let mut with_hashes = first.clone();
    with_hashes.extend(signature_list(SHA256_TYPE, &[], &[vec![0x42; 48]], 48));
    assert_eq!(Certdb::from_bytes(&with_hashes).unwrap().len(), 1);
}

#[test]
fn certificate_matches_itself_and_what_it_issued() {
    let ca = X509Cert::from_der(&cert("Root CA", "Root CA")).unwrap();
    assert!(ca.subject_matches(&ca.raw()));
    assert!(ca.subject_matches(&cert("Issued", "Root CA")));
    let stored = X509Cert::from_db_bytes(&entry(&cert("Intermediate", "Root CA"))).unwrap();
    assert!(stored.subject_matches(&ca.x509().to_der().unwrap()) == false);
    assert!(stored.subject_matches(&stored.x509().to_der().unwrap()));
}
