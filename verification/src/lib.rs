//! Secure Boot material found in EFI binaries: UEFI signature databases
//! (`db`) and the Authenticode certificate table of PE images.

pub mod bytes;
pub mod openssl_ops;
pub mod pe_ops;
pub mod uefi;
pub mod certs;
pub mod cert_db;
pub mod pefile;
pub mod esp;
pub mod linux;
