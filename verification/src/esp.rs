//! The boot loaders of an EFI system partition.

use crate::pefile::{pe_open, PeFile, PeOpen};
use vstd::prelude::*;

verus! {

/// What the library knows of an EFI system partition: the shim and GRUB
/// images found on it.
pub struct EspView {
    pub shim: Seq<u8>,
    pub grub: Seq<u8>,
}

/// The shim and GRUB images of an EFI system partition.
#[derive(Debug)]
pub struct Esp {
    shim: Vec<u8>,
    grub: Vec<u8>,
}

impl View for Esp {
    type V = EspView;

    closed spec fn view(&self) -> EspView {
        EspView { shim: self.shim@, grub: self.grub@ }
    }
}

impl Esp {
    /// The partition whose shim and GRUB images are `shim` and `grub`.
    pub fn new(shim: Vec<u8>, grub: Vec<u8>) -> (r: Esp)
        ensures
            r@ == (EspView { shim: shim@, grub: grub@ }),
    {
        Esp { shim, grub }
    }

    /// Loads the shim binary.
    pub fn shim(&self) -> (r: PeFile<'_>)
        requires
            pe_open(self@.shim) is Opened,
        ensures
            r@.data == self@.shim,
            pe_open(self@.shim) == PeOpen::Opened(r@.certchain),
    {
        PeFile::new(self.shim.as_slice()).unwrap()
    }

    /// Loads the shim binary as `shim` does, and gives `None` where `shim`
    /// is not defined.
    pub fn try_shim(&self) -> (r: Option<PeFile<'_>>)
        ensures
            pe_open(self@.shim) is Opened ==> (r matches Some(pe) && pe@.data == self@.shim
                && pe_open(self@.shim) == PeOpen::Opened(pe@.certchain)),
            !(pe_open(self@.shim) is Opened) ==> r is None,
    {
        match PeFile::try_new(self.shim.as_slice()) {
            Some(Ok(_)) => Some(self.shim()),
            _ => None,
        }
    }

    /// Loads the GRUB binary.
    pub fn grub(&self) -> (r: PeFile<'_>)
        requires
            pe_open(self@.grub) is Opened,
        ensures
            r@.data == self@.grub,
            pe_open(self@.grub) == PeOpen::Opened(r@.certchain),
    {
        PeFile::new(self.grub.as_slice()).unwrap()
    }

    /// Loads the GRUB binary as `grub` does, and gives `None` where `grub`
    /// is not defined.
    pub fn try_grub(&self) -> (r: Option<PeFile<'_>>)
        ensures
            pe_open(self@.grub) is Opened ==> (r matches Some(pe) && pe@.data == self@.grub
                && pe_open(self@.grub) == PeOpen::Opened(pe@.certchain)),
            !(pe_open(self@.grub) is Opened) ==> r is None,
    {
        match PeFile::try_new(self.grub.as_slice()) {
            Some(Ok(_)) => Some(self.grub()),
            _ => None,
        }
    }
}

} // verus!
