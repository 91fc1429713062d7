//! A Linux kernel image (`vmlinuz`).

use crate::pe_ops::pe_authenticode_sha256;
use crate::pefile::{pe_open, PeFile, PeOpen};
use vstd::prelude::*;

verus! {

/// A Linux kernel image, which is a PE image.
pub struct Linux {
    bin: Vec<u8>,
}

impl View for Linux {
    type V = Seq<u8>;

    closed spec fn view(&self) -> Seq<u8> {
        self.bin@
    }
}

impl Linux {
    /// The kernel whose image is `bin`.
    pub fn new(bin: Vec<u8>) -> (r: Linux)
        ensures
            r@ == bin@,
    {
        Linux { bin }
    }

    fn pe(&self) -> (r: PeFile<'_>)
        requires
            pe_open(self@) is Opened,
        ensures
            r@.data == self@,
            pe_open(self@) == PeOpen::Opened(r@.certchain),
    {
        PeFile::new(self.bin.as_slice()).unwrap()
    }

    /// The SHA-256 Authenticode digest of the kernel image.
    pub fn authenticode(&self) -> (r: Vec<u8>)
        requires
            pe_open(self@) is Opened,
            pe_authenticode_sha256(self@) is Some,
        ensures
            Some(r@) == pe_authenticode_sha256(self@),
            r@.len() == 32,
    {
        self.pe().authenticode()
    }

    /// The digest as `authenticode` gives it, and `None` where
    /// `authenticode` is not defined.
    pub fn try_authenticode(&self) -> (r: Option<Vec<u8>>)
        ensures
            pe_open(self@) is Opened && pe_authenticode_sha256(self@) is Some ==> (r matches Some(d) && Some(
                d@,
            ) == pe_authenticode_sha256(self@)),
            !(pe_open(self@) is Opened && pe_authenticode_sha256(self@) is Some) ==> r is None,
    {
        match PeFile::try_new(self.bin.as_slice()) {
            Some(Ok(pe)) => match pe.try_authenticode() {
                Some(_) => Some(self.authenticode()),
                None => None,
            },
            _ => None,
        }
    }
}

} // verus!
