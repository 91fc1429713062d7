//! The PE image operations that the logic relies on: parsing with the
//! `object` crate and the Authenticode digest of the `authenticode` crate.
//!
//! Images cross this boundary as their bytes; what the outside crates
//! compute from them is named by the uninterpreted functions below.

use authenticode::authenticode_digest;
use object::pe::IMAGE_DIRECTORY_ENTRY_SECURITY;
use object::read::pe::NativePeFile;
use object::read::Object;
use object::ObjectSection;
use sha2::{Digest, Sha256};
use vstd::prelude::*;

verus! {

/// The outcome of `NativePeFile::parse` on `bin`: `Ok` where it accepts
/// the image, otherwise the message (`Display`) of the error it returns.
pub uninterp spec fn pe_parse_result(bin: Seq<u8>) -> Result<(), Seq<char>>;

/// Whether `NativePeFile::parse` accepts `bin`.
pub open spec fn pe_parses(bin: Seq<u8>) -> bool {
    pe_parse_result(bin) is Ok
}

/// The address range (`ImageDataDirectory::address_range`: virtual address
/// and size) of the security data directory that `PeFile::data_directory`
/// gives for the image `NativePeFile::parse` reads from `bin`; `None` when
/// the image does not parse or has no such directory.
pub uninterp spec fn pe_security_directory(bin: Seq<u8>) -> Option<(u32, u32)>;

/// The data of the section that `Object::section_by_name` finds under
/// `name` in the image read from `bin` (`ObjectSection::data`); `None` when
/// the image does not parse, has no such section, or its data is unreadable.
pub uninterp spec fn pe_section_data(bin: Seq<u8>, name: Seq<char>) -> Option<Seq<u8>>;

/// The SHA-256 value of the bytes that `authenticode_digest` feeds to the
/// hasher for the image read from `bin`; `None` when the image does not
/// parse or `authenticode_digest` fails.
pub uninterp spec fn pe_authenticode_sha256(bin: Seq<u8>) -> Option<Seq<u8>>;

/// `NativePeFile::parse`: `Ok` exactly when the image is accepted, else the
/// parser's error as its `Display` message.
#[verifier::external_body]
pub(crate) fn pe_parse(bin: &[u8]) -> (r: Result<(), String>)
    ensures
        match r {
            Ok(()) => pe_parse_result(bin@) == Ok::<(), Seq<char>>(()),
            Err(m) => pe_parse_result(bin@) == Err::<(), Seq<char>>(m@),
        },
{
    match NativePeFile::parse(bin) {
        Ok(_) => Ok(()),
        Err(e) => Err(e.to_string()),
    }
}

/// `PeFile::data_directory(IMAGE_DIRECTORY_ENTRY_SECURITY)` of the parsed
/// image, as `ImageDataDirectory::address_range`.
#[verifier::external_body]
pub(crate) fn pe_security_dir(bin: &[u8]) -> (r: Option<(u32, u32)>)
    ensures
        r == pe_security_directory(bin@),
{
    match NativePeFile::parse(bin) {
        Ok(pe) => pe.data_directory(IMAGE_DIRECTORY_ENTRY_SECURITY).map(|d| d.address_range()),
        Err(_) => None,
    }
}

/// `Object::section_by_name` on the parsed image, then `ObjectSection::data`.
/// The data is read from the image's bytes (`ReadRef::read_bytes_at`), so it
/// is a range of them.
#[verifier::external_body]
pub(crate) fn pe_section<'a>(bin: &'a [u8], name: &str) -> (r: Option<&'a [u8]>)
    ensures
        match r {
            Some(s) => pe_section_data(bin@, name@) == Some(s@),
            None => pe_section_data(bin@, name@) is None,
        },
        r matches Some(s) ==> exists|o: int|
            0 <= o && o + s@.len() <= bin@.len() && s@ == #[trigger] bin@.subrange(o, o + s@.len()),
{
    match NativePeFile::parse(bin) {
        Ok(pe) => pe.section_by_name(name).and_then(|s| s.data().ok()),
        Err(_) => None,
    }
}

/// `authenticode_digest` of the parsed image into a fresh `Sha256`,
/// finalized.  A SHA-256 value is 32 bytes long.
#[verifier::external_body]
pub(crate) fn pe_authenticode_digest(bin: &[u8]) -> (r: Option<Vec<u8>>)
    ensures
        match r {
            Some(d) => pe_authenticode_sha256(bin@) == Some(d@) && d@.len() == 32,
            None => pe_authenticode_sha256(bin@) is None,
        },
{
    let pe = NativePeFile::parse(bin).ok()?;
    let mut digest = Sha256::new();
    authenticode_digest(&pe, &mut digest).ok()?;
    Some(digest.finalize().to_vec())
}

} // verus!
