//! UEFI GUIDs and the signature types of UEFI signature lists.

use vstd::prelude::*;

verus! {

/// A UEFI GUID in its structured form.
pub struct Guid {
    pub data1: u32,
    pub data2: u16,
    pub data3: u16,
    pub data4: [u8; 8],
}

/// The 16 bytes a GUID occupies in memory and on disk: the three leading
/// fields little-endian, then `data4` as it stands.
pub open spec fn guid_le_bytes(g: Guid) -> Seq<u8> {
    seq![
        (g.data1 % 256) as u8,
        (g.data1 / 256 % 256) as u8,
        (g.data1 / 65536 % 256) as u8,
        (g.data1 / 16777216) as u8,
        (g.data2 % 256) as u8,
        (g.data2 / 256) as u8,
        (g.data3 % 256) as u8,
        (g.data3 / 256) as u8,
    ] + g.data4@
}

/// Whether `g` is `EFI_CERT_TYPE_X509_GUID`,
/// `{a5c059a1-94e4-4aa7-87b5-ab155c2bf072}`.
pub open spec fn is_efi_cert_type_x509_guid(g: Guid) -> bool {
    &&& g.data1 == 0xa5c0_59a1
    &&& g.data2 == 0x94e4
    &&& g.data3 == 0x4aa7
    &&& g.data4@ == seq![0x87u8, 0xb5, 0xab, 0x15, 0x5c, 0x2b, 0xf0, 0x72]
}

/// The signature type of a signature list that holds DER X.509 certificates.
pub fn efi_cert_type_x509_guid() -> (g: Guid)
    ensures
        is_efi_cert_type_x509_guid(g),
{
    let data4: [u8; 8] = [0x87, 0xb5, 0xab, 0x15, 0x5c, 0x2b, 0xf0, 0x72];
    assert(data4@ =~= seq![0x87u8, 0xb5, 0xab, 0x15, 0x5c, 0x2b, 0xf0, 0x72]);
    Guid { data1: 0xa5c0_59a1, data2: 0x94e4, data3: 0x4aa7, data4 }
}

/// The in-memory byte layout of a GUID.
pub fn guid_to_le_bytes(g: &Guid) -> (r: Vec<u8>)
    ensures
        r@ == guid_le_bytes(*g),
{
    let mut r: Vec<u8> = Vec::new();
    r.push((g.data1 % 256) as u8);
    r.push((g.data1 / 256 % 256) as u8);
    r.push((g.data1 / 65536 % 256) as u8);
    r.push((g.data1 / 16777216) as u8);
    r.push((g.data2 % 256) as u8);
    r.push((g.data2 / 256) as u8);
    r.push((g.data3 % 256) as u8);
    r.push((g.data3 / 256) as u8);
    let mut i: usize = 0;
    while i < 8
        invariant
            0 <= i <= 8,
            r@.len() == 8 + i,
            r@ =~= guid_le_bytes(*g).subrange(0, 8 + i as int),
        decreases 8 - i,
    {
        r.push(g.data4[i]);
        i = i + 1;
    }
    r
}

} // verus!
