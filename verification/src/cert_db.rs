//! UEFI signature databases (`db`, `dbx`, vendor databases): a sequence of
//! signature lists, of which the X.509 lists contribute certificates.

use crate::bytes::{bytes_eq, gap, le_u32, read_u32_le};
use crate::certs::{cert_subject_matches, CertView, X509Cert};
use crate::openssl_ops::x509_der_parses;
use crate::uefi::{efi_cert_type_x509_guid, guid_le_bytes, guid_to_le_bytes, is_efi_cert_type_x509_guid, Guid};
use vstd::prelude::*;
use vstd::slice::slice_subrange;

verus! {

/// The error of a database that cannot be read.
#[derive(Clone, Debug)]
pub struct CertDbParsingError {
    string: String,
}

impl View for CertDbParsingError {
    type V = Seq<char>;

    closed spec fn view(&self) -> Seq<char> {
        self.string@
    }
}

impl CertDbParsingError {
    pub fn new(string: &str) -> (r: CertDbParsingError)
        ensures
            r@ == string@,
    {
        CertDbParsingError { string: string.to_owned() }
    }

    /// The text given when the error was made.
    pub fn as_str(&self) -> (r: &str)
        ensures
            r@ == self@,
    {
        self.string.as_str()
    }

    /// The message that describes the error.
    pub fn to_string(&self) -> (r: String)
        ensures
            r@ == "Error parsing cert db: "@ + self@,
    {
        let mut s = String::from_str("Error parsing cert db: ");
        s.append(self.string.as_str());
        s
    }
}

/// The signature type of an X.509 signature list, as stored.
pub open spec fn x509_signature_type() -> Seq<u8> {
    seq![0xa1u8, 0x59, 0xc0, 0xa5, 0xe4, 0x94, 0xa7, 0x4a, 0x87, 0xb5, 0xab, 0x15, 0x5c, 0x2b, 0xf0, 0x72]
}

/// The stored form of `EFI_CERT_TYPE_X509_GUID` is `x509_signature_type()`.
proof fn lemma_x509_guid_bytes(g: Guid)
    requires
        is_efi_cert_type_x509_guid(g),
    ensures
        guid_le_bytes(g) == x509_signature_type(),
{
    assert(guid_le_bytes(g) =~= x509_signature_type());
}

/// The outcome of walking the signature lists of a database.
pub enum DbWalk {
    /// The entries of the X.509 lists, in order.
    Entries(Seq<Seq<u8>>),
    /// A list claims more bytes than the database holds.
    InvalidListSize,
    /// The input is outside what the reader is defined on: data shorter
    /// than one list header, a list shorter than its own headers, or
    /// entries that run past the end of the data or are shorter than their
    /// owner GUID (empty ones included).
    Undefined,
}

/// `w` with the entries `c` in front.
pub open spec fn prepend(c: Seq<Seq<u8>>, w: DbWalk) -> DbWalk {
    match w {
        DbWalk::Entries(r) => DbWalk::Entries(c + r),
        _ => w,
    }
}

/// `o` with the entries `c` in front, where it is defined.
pub open spec fn opt_prepend(c: Seq<Seq<u8>>, o: Option<Seq<Seq<u8>>>) -> Option<Seq<Seq<u8>>> {
    match o {
        Some(r) => Some(c + r),
        None => None,
    }
}

/// The entries of a list whose entries start at `start`, take `len` bytes
/// in all and `size` bytes each, from the entry at offset `k` on; `None`
/// where reading is undefined.
pub open spec fn list_entries(data: Seq<u8>, start: int, len: int, size: int, k: int) -> Option<
    Seq<Seq<u8>>,
>
    decreases gap(k, len),
{
    if k >= len {
        Some(Seq::empty())
    } else if size < 16 || start + k + size > data.len() {
        None
    } else {
        opt_prepend(seq![data.subrange(start + k, start + k + size)], list_entries(data, start, len, size, k + size))
    }
}

/// Walks the signature lists that start at `offset`.  A list has a 28-byte
/// header (16-byte signature type, then little-endian list size, header
/// size and entry size), a header of its own, then its entries; the
/// entries of X.509 lists are collected.
pub open spec fn db_walk(data: Seq<u8>, offset: int) -> DbWalk
    decreases gap(offset + 28, data.len() as int),
{
    if offset < 0 || offset + 28 >= data.len() {
        DbWalk::Entries(Seq::empty())
    } else {
        let list_size = le_u32(data, offset + 16) as int;
        let head_size = le_u32(data, offset + 20) as int;
        let item_size = le_u32(data, offset + 24) as int;
        if offset + list_size > data.len() {
            DbWalk::InvalidListSize
        } else if list_size < 28 + head_size {
            DbWalk::Undefined
        } else {
            let entries = if data.subrange(offset, offset + 16) == x509_signature_type() {
                list_entries(data, offset + 28 + head_size, list_size - 28 - head_size, item_size, 0)
            } else {
                Some(Seq::empty())
            };
            match entries {
                None => DbWalk::Undefined,
                Some(e) => prepend(e, db_walk(data, offset + list_size)),
            }
        }
    }
}

/// Walks a whole database.  Empty data is an empty database; other data
/// shorter than one list header is outside what the reader is defined on.
pub open spec fn db_entries(data: Seq<u8>) -> DbWalk {
    if data.len() == 0 {
        DbWalk::Entries(Seq::empty())
    } else if data.len() < 28 {
        DbWalk::Undefined
    } else {
        db_walk(data, 0)
    }
}

/// The certificates of X.509 list entries: an entry is a 16-byte owner
/// GUID followed by a DER certificate; entries whose certificate OpenSSL
/// rejects are left out.
pub open spec fn entry_certs(es: Seq<Seq<u8>>) -> Seq<CertView>
    decreases es.len(),
{
    if es.len() == 0 {
        Seq::empty()
    } else {
        let e = es.last();
        let rest = entry_certs(es.drop_last());
        if x509_der_parses(e.skip(16)) {
            rest.push(CertView { raw: e, der: e.skip(16) })
        } else {
            rest
        }
    }
}

proof fn lemma_prepend_prepend(a: Seq<Seq<u8>>, b: Seq<Seq<u8>>, w: DbWalk)
    ensures
        prepend(a, prepend(b, w)) == prepend(a + b, w),
{
    if let DbWalk::Entries(r) = w {
        assert(a + (b + r) =~= (a + b) + r);
    }
}

proof fn lemma_prepend_empty(w: DbWalk)
    ensures
        prepend(Seq::empty(), w) == w,
{
    if let DbWalk::Entries(r) = w {
        assert(Seq::<Seq<u8>>::empty() + r =~= r);
    }
}

/// Every entry of a list is at least as long as its owner GUID.
proof fn lemma_list_entries_long(data: Seq<u8>, start: int, len: int, size: int, k: int)
    requires
        0 <= start,
        0 <= k,
    ensures
        list_entries(data, start, len, size, k) matches Some(es) ==> forall|i: int|
            0 <= i < es.len() ==> (#[trigger] es[i]).len() >= 16,
    decreases gap(k, len),
{
    if k < len && size >= 16 && start + k + size <= data.len() {
        lemma_list_entries_long(data, start, len, size, k + size);
        if let Some(r) = list_entries(data, start, len, size, k + size) {
            let es = seq![data.subrange(start + k, start + k + size)] + r;
            assert forall|i: int| 0 <= i < es.len() implies (#[trigger] es[i]).len() >= 16 by {
                if i > 0 {
                    assert(es[i] == r[i - 1]);
                }
            }
        }
    }
}

/// Every entry collected by a walk is at least as long as its owner GUID.
proof fn lemma_db_walk_long(data: Seq<u8>, offset: int)
    ensures
        db_walk(data, offset) matches DbWalk::Entries(es) ==> forall|i: int|
            0 <= i < es.len() ==> (#[trigger] es[i]).len() >= 16,
    decreases gap(offset + 28, data.len() as int),
{
    if 0 <= offset && offset + 28 < data.len() {
        let list_size = le_u32(data, offset + 16) as int;
        let head_size = le_u32(data, offset + 20) as int;
        let item_size = le_u32(data, offset + 24) as int;
        if offset + list_size <= data.len() && list_size >= 28 + head_size {
            lemma_db_walk_long(data, offset + list_size);
            lemma_list_entries_long(data, offset + 28 + head_size, list_size - 28 - head_size, item_size, 0);
            let entries = if data.subrange(offset, offset + 16) == x509_signature_type() {
                list_entries(data, offset + 28 + head_size, list_size - 28 - head_size, item_size, 0)
            } else {
                Some(Seq::empty())
            };
            if let (Some(e), DbWalk::Entries(r)) = (entries, db_walk(data, offset + list_size)) {
                let es = e + r;
                assert forall|i: int| 0 <= i < es.len() implies (#[trigger] es[i]).len() >= 16 by {
                    if i >= e.len() {
                        assert(es[i] == r[i - e.len()]);
                    } else {
                        assert(es[i] == e[i]);
                    }
                }
            }
        }
    }
}

/// The certificates of entries are taken from entries: each is stored as
/// an entry, holds the DER that follows the owner GUID, and that DER is
/// accepted by OpenSSL.
proof fn lemma_entry_certs_from_entries(es: Seq<Seq<u8>>)
    ensures
        forall|i: int|
            0 <= i < entry_certs(es).len() ==> {
                let c = #[trigger] entry_certs(es)[i];
                &&& es.contains(c.raw)
                &&& c.der == c.raw.skip(16)
                &&& x509_der_parses(c.der)
            },
    decreases es.len(),
{
    if es.len() > 0 {
        lemma_entry_certs_from_entries(es.drop_last());
        let rest = entry_certs(es.drop_last());
        assert forall|i: int| 0 <= i < rest.len() implies es.contains(#[trigger] rest[i].raw) by {
            let j = choose|j: int| 0 <= j < es.drop_last().len() && es.drop_last()[j] == rest[i].raw;
            assert(es[j] == rest[i].raw);
        }
        assert(es[es.len() - 1] == es.last());
    }
}

/// What a database holds: each certificate read from it is stored as one
/// of its X.509 list entries, a 16-byte owner GUID followed by the
/// certificate's DER, which OpenSSL accepts.
pub proof fn law_db_certs_are_list_entries(data: Seq<u8>)
    ensures
        db_entries(data) matches DbWalk::Entries(es) ==> forall|i: int|
            0 <= i < entry_certs(es).len() ==> {
                let c = #[trigger] entry_certs(es)[i];
                &&& es.contains(c.raw)
                &&& c.raw.len() >= 16
                &&& c.der == c.raw.skip(16)
                &&& x509_der_parses(c.der)
            },
{
    if data.len() >= 28 {
        lemma_db_walk_long(data, 0);
    }
    if let DbWalk::Entries(es) = db_entries(data) {
        lemma_entry_certs_from_entries(es);
    }
}

/// Where the walk of the lists that start at `offset` stops.
pub open spec fn db_walk_end(data: Seq<u8>, offset: int) -> int
    decreases gap(offset + 28, data.len() as int),
{
    if offset < 0 || offset + 28 >= data.len() {
        offset
    } else {
        let list_size = le_u32(data, offset + 16) as int;
        let head_size = le_u32(data, offset + 20) as int;
        if offset + list_size > data.len() || list_size < 28 + head_size {
            offset
        } else {
            db_walk_end(data, offset + list_size)
        }
    }
}

/// Whether `data` is a database that reads without error and whose lists
/// fill it exactly, with no bytes left after the last list.
pub open spec fn db_whole_lists(data: Seq<u8>) -> bool {
    &&& db_entries(data) is Entries
    &&& data.len() == 0 || db_walk_end(data, 0) == data.len()
}

proof fn lemma_list_entries_prefix(a: Seq<u8>, b: Seq<u8>, start: int, len: int, size: int, k: int)
    requires
        0 <= start,
        0 <= k,
        list_entries(a, start, len, size, k) is Some,
    ensures
        list_entries(a + b, start, len, size, k) == list_entries(a, start, len, size, k),
    decreases gap(k, len),
{
    if k < len {
        lemma_list_entries_prefix(a, b, start, len, size, k + size);
        assert((a + b).subrange(start + k, start + k + size) =~= a.subrange(start + k, start + k + size));
    }
}

proof fn lemma_list_entries_shift(a: Seq<u8>, b: Seq<u8>, start: int, len: int, size: int, k: int)
    requires
        0 <= start,
        0 <= k,
    ensures
        list_entries(a + b, a.len() + start, len, size, k) == list_entries(b, start, len, size, k),
    decreases gap(k, len),
{
    if k < len && size >= 16 {
        lemma_list_entries_shift(a, b, start, len, size, k + size);
        if start + k + size <= b.len() {
            assert((a + b).subrange(a.len() + start + k, a.len() + start + k + size) =~= b.subrange(
                start + k,
                start + k + size,
            ));
        }
    }
}

proof fn lemma_le_u32_shift(a: Seq<u8>, b: Seq<u8>, off: int)
    requires
        0 <= off,
        off + 4 <= b.len(),
    ensures
        le_u32(a + b, a.len() + off) == le_u32(b, off),
{
    assert((a + b)[a.len() + off] == b[off]);
    assert((a + b)[a.len() + off + 1] == b[off + 1]);
    assert((a + b)[a.len() + off + 2] == b[off + 2]);
    assert((a + b)[a.len() + off + 3] == b[off + 3]);
}

proof fn lemma_le_u32_prefix(a: Seq<u8>, b: Seq<u8>, off: int)
    requires
        0 <= off,
        off + 4 <= a.len(),
    ensures
        le_u32(a + b, off) == le_u32(a, off),
{
    assert((a + b)[off] == a[off]);
    assert((a + b)[off + 1] == a[off + 1]);
    assert((a + b)[off + 2] == a[off + 2]);
    assert((a + b)[off + 3] == a[off + 3]);
}

/// The walk of `b` is the walk of `a + b` from the end of `a` on.
proof fn lemma_walk_shift(a: Seq<u8>, b: Seq<u8>, o: int)
    requires
        0 <= o,
    ensures
        db_walk(a + b, a.len() + o) == db_walk(b, o),
    decreases gap(o + 28, b.len() as int),
{
    if o + 28 < b.len() {
        lemma_le_u32_shift(a, b, o + 16);
        lemma_le_u32_shift(a, b, o + 20);
        lemma_le_u32_shift(a, b, o + 24);
        assert((a + b).subrange(a.len() + o, a.len() + o + 16) =~= b.subrange(o, o + 16));
        let list_size = le_u32(b, o + 16) as int;
        let head_size = le_u32(b, o + 20) as int;
        let item_size = le_u32(b, o + 24) as int;
        lemma_list_entries_shift(a, b, o + 28 + head_size, list_size - 28 - head_size, item_size, 0);
        if o + list_size <= b.len() && list_size >= 28 + head_size {
            lemma_walk_shift(a, b, o + list_size);
        }
    }
}

/// Walking `a + b` over lists that fill `a` reads the lists of `a`, then
/// goes on at the end of `a`.
proof fn lemma_walk_prefix(a: Seq<u8>, b: Seq<u8>, o: int)
    requires
        0 <= o <= a.len(),
        db_walk(a, o) is Entries,
        db_walk_end(a, o) == a.len(),
    ensures
        db_walk(a + b, o) == prepend(db_walk(a, o)->Entries_0, db_walk(a + b, a.len() as int)),
    decreases gap(o + 28, a.len() as int),
{
    if o + 28 >= a.len() {
        lemma_prepend_empty(db_walk(a + b, a.len() as int));
    } else {
        lemma_le_u32_prefix(a, b, o + 16);
        lemma_le_u32_prefix(a, b, o + 20);
        lemma_le_u32_prefix(a, b, o + 24);
        assert((a + b).subrange(o, o + 16) =~= a.subrange(o, o + 16));
        let list_size = le_u32(a, o + 16) as int;
        let head_size = le_u32(a, o + 20) as int;
        let item_size = le_u32(a, o + 24) as int;
        let is_x509 = a.subrange(o, o + 16) == x509_signature_type();
        if is_x509 {
            lemma_list_entries_prefix(a, b, o + 28 + head_size, list_size - 28 - head_size, item_size, 0);
        }
        let e1 = if is_x509 {
            list_entries(a, o + 28 + head_size, list_size - 28 - head_size, item_size, 0)->0
        } else {
            Seq::empty()
        };
        lemma_walk_prefix(a, b, o + list_size);
        lemma_prepend_prepend(
            e1,
            db_walk(a, o + list_size)->Entries_0,
            db_walk(a + b, a.len() as int),
        );
    }
}

/// The certificates of two runs of entries are those of each, in order.
pub proof fn law_entry_certs_append(x: Seq<Seq<u8>>, y: Seq<Seq<u8>>)
    ensures
        entry_certs(x + y) == entry_certs(x) + entry_certs(y),
    decreases y.len(),
{
    if y.len() == 0 {
        assert(x + y =~= x);
        assert(entry_certs(x) + entry_certs(y) =~= entry_certs(x));
    } else {
        law_entry_certs_append(x, y.drop_last());
        assert((x + y).drop_last() =~= x + y.drop_last());
        assert((x + y).last() == y.last());
        let e = y.last();
        if x509_der_parses(e.skip(16)) {
            let c = CertView { raw: e, der: e.skip(16) };
            assert((entry_certs(x) + entry_certs(y.drop_last())).push(c) =~= entry_certs(x) + entry_certs(
                y.drop_last(),
            ).push(c));
        }
    }
}

/// One entry gives a certificate exactly when OpenSSL accepts the DER that
/// follows its owner GUID, whatever the entry's length; the certificate is
/// stored as the whole entry.
pub proof fn law_entry_certs_single(e: Seq<u8>)
    ensures
        entry_certs(seq![e]) == if x509_der_parses(e.skip(16)) {
            seq![CertView { raw: e, der: e.skip(16) }]
        } else {
            Seq::<CertView>::empty()
        },
{
    assert(seq![e].drop_last() =~= Seq::<Seq<u8>>::empty());
    assert(seq![e].last() == e);
    assert(entry_certs(Seq::<Seq<u8>>::empty()) == Seq::<CertView>::empty());
    assert(entry_certs(seq![e].drop_last()) == Seq::<CertView>::empty());
    if x509_der_parses(e.skip(16)) {
        assert(Seq::<CertView>::empty().push(CertView { raw: e, der: e.skip(16) }) =~= seq![
            CertView { raw: e, der: e.skip(16) },
        ]);
    }
}

/// Every entry whose DER OpenSSL accepts gives its certificate, and every
/// certificate comes from such an entry.
pub proof fn law_entry_certs_keeps_parsing_entries(es: Seq<Seq<u8>>)
    ensures
        forall|i: int|
            0 <= i < es.len() && x509_der_parses(es[i].skip(16)) ==> entry_certs(es).contains(
                CertView { raw: #[trigger] es[i], der: es[i].skip(16) },
            ),
        forall|j: int|
            0 <= j < entry_certs(es).len() ==> {
                let c = #[trigger] entry_certs(es)[j];
                &&& es.contains(c.raw)
                &&& c.der == c.raw.skip(16)
                &&& x509_der_parses(c.der)
            },
    decreases es.len(),
{
    if es.len() > 0 {
        let init = es.drop_last();
        law_entry_certs_keeps_parsing_entries(init);
        let e = es.last();
        let rest = entry_certs(init);
        assert forall|i: int|
            0 <= i < es.len() && x509_der_parses(es[i].skip(16)) implies entry_certs(es).contains(
                CertView { raw: #[trigger] es[i], der: es[i].skip(16) },
            ) by {
            if i < es.len() - 1 {
                assert(es[i] == init[i]);
                let j = choose|j: int| 0 <= j < rest.len() && rest[j] == CertView { raw: init[i], der: init[i].skip(16) };
                if x509_der_parses(e.skip(16)) {
                    assert(entry_certs(es)[j] == rest[j]);
                }
            } else {
                assert(es[i] == e);
                assert(entry_certs(es)[entry_certs(es).len() - 1] == CertView { raw: e, der: e.skip(16) });
            }
        }
    } else {
        assert(entry_certs(es) == Seq::<CertView>::empty());
    }
    lemma_entry_certs_from_entries(es);
}

/// A database that is one X.509 list of one entry, with no list header of
/// its own, reads as that entry, whatever its length; it gives one
/// certificate, stored as the whole entry, exactly when OpenSSL accepts the
/// DER after the owner GUID.
pub proof fn law_db_single_entry(data: Seq<u8>)
    requires
        data.len() >= 44,
        data.subrange(0, 16) == x509_signature_type(),
        le_u32(data, 16) == data.len(),
        le_u32(data, 20) == 0,
        le_u32(data, 24) == data.len() - 28,
    ensures
        db_entries(data) == DbWalk::Entries(seq![data.subrange(28, data.len() as int)]),
        entry_certs(seq![data.subrange(28, data.len() as int)]) == if x509_der_parses(
            data.subrange(28, data.len() as int).skip(16),
        ) {
            seq![CertView { raw: data.subrange(28, data.len() as int), der: data.subrange(28, data.len() as int).skip(16) }]
        } else {
            Seq::<CertView>::empty()
        },
{
    let e = data.subrange(28, data.len() as int);
    let size = data.len() - 28;
    assert(list_entries(data, 28, size, size, size) == Some(Seq::<Seq<u8>>::empty()));
    assert(seq![e] + Seq::<Seq<u8>>::empty() =~= seq![e]);
    assert(list_entries(data, 28, size, size, 0) == Some(seq![e]));
    assert(db_walk(data, data.len() as int) == DbWalk::Entries(Seq::<Seq<u8>>::empty()));
    assert(db_walk(data, 0) == prepend(seq![e], DbWalk::Entries(Seq::<Seq<u8>>::empty())));
    law_entry_certs_single(e);
}

/// Reading a database whose lists fill it exactly, followed by another
/// database, gives the certificates of the first, then those of the
/// second.  In particular, appending a list of another signature type
/// adds nothing.
pub proof fn law_db_concatenation(a: Seq<u8>, b: Seq<u8>)
    requires
        db_whole_lists(a),
        db_entries(b) is Entries,
    ensures
        db_entries(a + b) == DbWalk::Entries(db_entries(a)->Entries_0 + db_entries(b)->Entries_0),
        entry_certs(db_entries(a)->Entries_0 + db_entries(b)->Entries_0) == entry_certs(
            db_entries(a)->Entries_0,
        ) + entry_certs(db_entries(b)->Entries_0),
{
    let ea = db_entries(a)->Entries_0;
    let eb = db_entries(b)->Entries_0;
    law_entry_certs_append(ea, eb);
    if a.len() == 0 {
        assert(a + b =~= b);
        assert(ea + eb =~= eb);
    } else {
        lemma_walk_prefix(a, b, 0);
        lemma_walk_shift(a, b, 0);
        if b.len() == 0 {
            assert(ea + eb =~= ea);
        }
    }
}

/// The views of a sequence of certificates.
pub open spec fn certs_view(v: Seq<X509Cert>) -> Seq<CertView> {
    v.map_values(|c: X509Cert| c@)
}

/// A set of certificates read from a signature database.
pub struct Certdb {
    certs: Vec<X509Cert>,
}

impl View for Certdb {
    type V = Seq<CertView>;

    closed spec fn view(&self) -> Seq<CertView> {
        certs_view(self.certs@)
    }
}

impl Certdb {
    pub fn empty() -> (r: Certdb)
        ensures
            r@ == Seq::<CertView>::empty(),
    {
        let r = Certdb { certs: Vec::new() };
        assert(r@ =~= Seq::<CertView>::empty());
        r
    }

    /// Reads a signature database: the certificates of its X.509 lists, in
    /// order; a list that claims more bytes than there are is an error.
    pub fn from_bytes(data: &[u8]) -> (r: Result<Certdb, CertDbParsingError>)
        requires
            !(db_entries(data@) is Undefined),
        ensures
            match db_entries(data@) {
                DbWalk::Entries(es) => r matches Ok(db) && db@ == entry_certs(es),
                DbWalk::InvalidListSize => r matches Err(e) && e@ == "Invalid list size"@,
                DbWalk::Undefined => false,
            },
    {
        Self::try_from_bytes(data).unwrap()
    }

    /// Reads a signature database as `from_bytes` does, and gives `None`
    /// on the data on which `from_bytes` is not defined.
    pub fn try_from_bytes(data: &[u8]) -> (r: Option<Result<Certdb, CertDbParsingError>>)
        ensures
            match db_entries(data@) {
                DbWalk::Entries(es) => r matches Some(Ok(db)) && db@ == entry_certs(es),
                DbWalk::InvalidListSize => r matches Some(Err(e)) && e@ == "Invalid list size"@,
                DbWalk::Undefined => r is None,
            },
    {
        let mut certs: Vec<X509Cert> = Vec::new();
        let len = data.len();
        if len == 0 {
            let db = Certdb { certs };
            assert(db@ =~= Seq::<CertView>::empty());
            return Some(Ok(db));
        }
        if len < 28 {
            return None;
        }
        let x509_guid = efi_cert_type_x509_guid();
        let x509_type = guid_to_le_bytes(&x509_guid);
        let ghost mut seen: Seq<Seq<u8>> = Seq::empty();
        proof {
            lemma_x509_guid_bytes(x509_guid);
            assert(certs_view(certs@) =~= Seq::<CertView>::empty());
            lemma_prepend_empty(db_walk(data@, 0));
        }
        let end = len - 28;
        let mut offset: usize = 0;
        while offset < end
            invariant
                len == data@.len(),
                data@.len() >= 28,
                end == data@.len() - 28,
                offset <= data@.len(),
                x509_type@ == x509_signature_type(),
                db_entries(data@) == prepend(seen, db_walk(data@, offset as int)),
                certs_view(certs@) == entry_certs(seen),
            decreases data@.len() - offset,
        {
            let list_type = slice_subrange(data, offset, offset + 16);
            let list_size = read_u32_le(data, offset + 16);
            let head_size = read_u32_le(data, offset + 20);
            let item_size = read_u32_le(data, offset + 24);
            if list_size as usize > len - offset {
                return Some(Err(CertDbParsingError::new("Invalid list size")));
            }
            if (list_size as u64) < 28 + head_size as u64 {
                return None;
            }
            let ghost before = seen;
            let ghost rest = db_walk(data@, offset + list_size);
            let body_start = offset + 28 + head_size as usize;
            let body_len = list_size as usize - (28 + head_size as usize);
            let next = offset + list_size as usize;
            proof {
                assert(list_type@ == data@.subrange(offset as int, offset + 16));
            }
            if bytes_eq(list_type, x509_type.as_slice()) {
                let ghost mut acc: Seq<Seq<u8>> = Seq::empty();
                let mut k: usize = 0;
                proof {
                    assert(before + acc =~= before);
                    let l0 = list_entries(data@, body_start as int, body_len as int, item_size as int, 0);
                    assert(l0 == opt_prepend(acc, l0)) by {
                        if let Some(e) = l0 {
                            assert(acc + e =~= e);
                        }
                    }
                }
                while k < body_len
                    invariant
                        len == data@.len(),
                        body_start + k <= data@.len(),
                        body_start + body_len <= data@.len(),
                        seen == before + acc,
                        db_entries(data@) == prepend(before, db_walk(data@, offset as int)),
                        db_walk(data@, offset as int) == match list_entries(
                            data@,
                            body_start as int,
                            body_len as int,
                            item_size as int,
                            0,
                        ) {
                            None => DbWalk::Undefined,
                            Some(e) => prepend(e, rest),
                        },
                        certs_view(certs@) == entry_certs(seen),
                        list_entries(data@, body_start as int, body_len as int, item_size as int, 0)
                            == opt_prepend(acc, list_entries(data@, body_start as int, body_len as int, item_size as int, k as int)),
                    decreases data@.len() - k,
                {
                    if (item_size as usize) < 16 || item_size as usize > len - (body_start + k) {
                        return None;
                    }
                    let ghost tail = list_entries(
                        data@,
                        body_start as int,
                        body_len as int,
                        item_size as int,
                        k + item_size,
                    );
                    let entry = slice_subrange(data, body_start + k, body_start + k + item_size as usize);
                    let ghost e = entry@;
                    let ghost old_view = certs_view(certs@);
                    match X509Cert::from_db_bytes(entry) {
                        Ok(c) => {
                            certs.push(c);
                            proof {
                                assert(certs_view(certs@) =~= old_view.push(c@));
                            }
                        },
                        Err(_) => {},
                    }
                    proof {
                        assert(seen.push(e).drop_last() =~= seen);
                        assert((before + acc).push(e) =~= before + acc.push(e));
                        if let Some(t) = tail {
                            assert(acc + (seq![e] + t) =~= acc.push(e) + t);
                        }
                        acc = acc.push(e);
                        seen = seen.push(e);
                    }
                    k = k + item_size as usize;
                }
                proof {
                    lemma_prepend_prepend(before, acc, rest);
                }
            } else {
                proof {
                    lemma_prepend_empty(rest);
                }
            }
            offset = next;
        }
        let db = Certdb { certs };
        proof {
            assert(seen + Seq::<Seq<u8>>::empty() =~= seen);
        }
        Some(Ok(db))
    }
}

/// The first certificate of `db`, from index `i` on, whose subject is the
/// subject or the issuer of `other`.
pub open spec fn first_match_from(db: Seq<CertView>, other: Seq<u8>, i: int) -> Option<int>
    decreases gap(i, db.len() as int),
{
    if i < 0 || i >= db.len() {
        None
    } else if cert_subject_matches(db[i].der, other) {
        Some(i)
    } else {
        first_match_from(db, other, i + 1)
    }
}

/// The first certificate of `db` whose subject is the subject or the
/// issuer of `other`.
pub open spec fn first_match(db: Seq<CertView>, other: Seq<u8>) -> Option<int> {
    first_match_from(db, other, 0)
}

/// Whether some certificate of `db` has as subject the subject or the
/// issuer of `other`.
pub open spec fn db_has_match(db: Seq<CertView>, other: Seq<u8>) -> bool {
    exists|i: int| 0 <= i < db.len() && cert_subject_matches(#[trigger] db[i].der, other)
}

/// The search from `i` finds the first match at or after `i`.
proof fn lemma_first_match_from(db: Seq<CertView>, other: Seq<u8>, i: int)
    requires
        0 <= i,
    ensures
        match first_match_from(db, other, i) {
            Some(j) => i <= j < db.len() && cert_subject_matches(db[j].der, other) && forall|m: int|
                i <= m < j ==> !cert_subject_matches(#[trigger] db[m].der, other),
            None => forall|m: int| i <= m < db.len() ==> !cert_subject_matches(#[trigger] db[m].der, other),
        },
    decreases gap(i, db.len() as int),
{
    if i < db.len() && !cert_subject_matches(db[i].der, other) {
        lemma_first_match_from(db, other, i + 1);
    }
}

/// Looking a certificate up finds one exactly when the database holds a
/// certificate whose subject is the certificate's subject or issuer; what
/// it finds is the first such certificate.
pub proof fn law_lookup_finds_first_match(db: Seq<CertView>, other: Seq<u8>)
    ensures
        first_match(db, other) is Some <==> db_has_match(db, other),
        first_match(db, other) matches Some(i) ==> {
            &&& 0 <= i < db.len()
            &&& cert_subject_matches(db[i].der, other)
            &&& forall|j: int| 0 <= j < i ==> !cert_subject_matches(#[trigger] db[j].der, other)
        },
{
    lemma_first_match_from(db, other, 0);
}

impl Certdb {
    /// A database that holds the one certificate `data`, stored as DER.
    pub fn from_unique_der(data: &[u8]) -> (r: Result<Certdb, CertDbParsingError>)
        ensures
            r is Ok <==> x509_der_parses(data@),
            r matches Ok(db) ==> db@ == seq![CertView { raw: data@, der: data@ }],
            r matches Err(e) ==> e@ == "Couldn't parse single der"@,
    {
        match X509Cert::from_der(data) {
            Ok(cert) => {
                let db = Certdb { certs: vec![cert] };
                assert(db@ =~= seq![CertView { raw: data@, der: data@ }]);
                Ok(db)
            },
            Err(_) => Err(CertDbParsingError::new("Couldn't parse single der")),
        }
    }

    /// Whether the database holds a certificate whose subject is the
    /// subject or the issuer of `cert` (a DER certificate).
    pub fn contains(&self, cert: &[u8]) -> (r: bool)
        ensures
            r == db_has_match(self@, cert@),
    {
        let mut i: usize = 0;
        while i < self.certs.len()
            invariant
                self@ == certs_view(self.certs@),
                0 <= i <= self.certs@.len(),
                forall|j: int| 0 <= j < i ==> !cert_subject_matches(#[trigger] self@[j].der, cert@),
            decreases self.certs@.len() - i,
        {
            if self.certs[i].subject_matches(cert) {
                assert(self@[i as int] == self.certs@[i as int]@);
                return true;
            }
            i = i + 1;
        }
        false
    }

    /// Looks up for certificates in the db which match the subject or
    /// issuer name of the target certificate (a DER certificate): the first
    /// certificate whose subject is that subject or issuer.
    pub fn get(&self, cert: &[u8]) -> (r: Option<&X509Cert>)
        ensures
            match first_match(self@, cert@) {
                Some(i) => r matches Some(c) && c@ == self@[i],
                None => r is None,
            },
    {
        let mut i: usize = 0;
        while i < self.certs.len()
            invariant
                self@ == certs_view(self.certs@),
                0 <= i <= self.certs@.len(),
                first_match(self@, cert@) == first_match_from(self@, cert@, i as int),
            decreases self.certs@.len() - i,
        {
            if self.certs[i].subject_matches(cert) {
                return Some(&self.certs[i]);
            }
            i = i + 1;
        }
        None
    }
}

impl Certdb {
    /// The number of certificates.
    pub fn len(&self) -> (r: usize)
        ensures
            r == self@.len(),
    {
        self.certs.len()
    }
}

impl Default for Certdb {
    fn default() -> (r: Certdb)
        ensures
            r@ == Seq::<CertView>::empty(),
    {
        Certdb::empty()
    }
}

} // verus!
