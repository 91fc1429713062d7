# efi_certs

Reads the Secure Boot material of EFI binaries: UEFI signature databases
(the certificates of their X.509 signature lists), the Authenticode
certificate table of PE images, the vendor certificates shim keeps in its
`.vendor_cert` section, and the Authenticode digest of an image.

Layout:

- `src/` is the library, verified with Verus.
  - `bytes.rs`, `uefi.rs`: little-endian fields and GUIDs.
  - `certs.rs`, `cert_db.rs`: stored certificates and signature databases.
  - `pefile.rs`, `esp.rs`, `linux.rs`: PE images, EFI system partitions and
    kernel images.
  - `openssl_ops.rs`, `pe_ops.rs`: the calls into OpenSSL, `object`,
    `authenticode` and `sha2`, with the contracts the rest relies on.
- `app/` holds what touches the file system and the entry points that
  panic where the library's preconditions do not hold.
- `tests/` exercises the library on generated certificates and PE images.
