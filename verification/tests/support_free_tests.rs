use efi_certs::bytes::{read_u16_le, read_u32_le};
use efi_certs::cert_db::{CertDbParsingError, Certdb};
use efi_certs::uefi::{efi_cert_type_x509_guid, guid_to_le_bytes};

#[test]
fn read_u32_le_is_little_endian() {
    assert_eq!(read_u32_le(&[0x01, 0x02, 0x03, 0x04], 0), 0x0403_0201);
    assert_eq!(read_u32_le(&[0xff, 0xa1, 0x59, 0xc0, 0xa5], 1), 0xa5c0_59a1);
}

#[test]
fn read_u16_le_is_little_endian() {
    assert_eq!(read_u16_le(&[0x00, 0x02, 0x01], 1), 0x0102);
}

#[test]
fn x509_guid_layout() {
    let bytes = guid_to_le_bytes(&efi_cert_type_x509_guid());
    assert_eq!(
        bytes,
        vec![0xa1, 0x59, 0xc0, 0xa5, 0xe4, 0x94, 0xa7, 0x4a, 0x87, 0xb5, 0xab, 0x15, 0x5c, 0x2b, 0xf0, 0x72]
    );
}

#[test]
fn parsing_error_message() {
    let e = CertDbParsingError::new("Invalid list size");
    assert_eq!(e.to_string(), "Error parsing cert db: Invalid list size");
}

#[test]
fn empty_and_default_dbs_hold_nothing() {
    assert_eq!(Certdb::empty().len(), 0);
    assert_eq!(Certdb::default().len(), 0);
}

#[test]
fn empty_data_is_an_empty_db() {
    let db = Certdb::from_bytes(&[]).unwrap();
    assert_eq!(db.len(), 0);
}

#[test]
fn data_shorter_than_a_list_header_is_undefined() {
    assert!(Certdb::try_from_bytes(&[0u8; 10]).is_none());
    assert!(Certdb::try_from_bytes(&[0u8; 27]).is_none());
}

#[test]
fn a_lone_header_is_an_empty_db() {
    // Exactly one header's worth of bytes: no list is read.
    let db = Certdb::from_bytes(&[0u8; 28]).unwrap();
    assert_eq!(db.len(), 0);
}
