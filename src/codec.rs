//! The byte encoding of a resolution result: a MessagePack array of records,
//! one per package, each a flat tuple of plain values.
use vstd::prelude::*;
use vstd::string::StrSliceExecFns;
use crate::package::{Package, PackageView};

verus! {

/// A package and its license texts as plain values: id, name, version,
/// license expression, license file, repository, manifest path, texts.
pub type Record = (
    String,
    String,
    String,
    Option<String>,
    Option<String>,
    Option<String>,
    String,
    Vec<String>,
);

/// A record in its mathematical form.
pub type RecordView = (
    Seq<char>,
    Seq<char>,
    Seq<char>,
    Option<Seq<char>>,
    Option<Seq<char>>,
    Option<Seq<char>>,
    Seq<char>,
    Seq<Seq<char>>,
);

/// The MessagePack bytes of a sequence of records.
pub uninterp spec fn msgpack_of(records: Seq<RecordView>) -> Seq<u8>;

/// The records that MessagePack bytes decode to, where they decode.
pub uninterp spec fn msgpack_records(bytes: Seq<u8>) -> Seq<RecordView>;

/// Characters a string may have to be encoded: MessagePack writes a string's
/// byte length in 32 bits, and a character takes at most four bytes.
pub const MAX_STRING_CHARS: u64 = 0x4000_0000;

/// Items a list may have to be encoded: MessagePack writes a list's length in
/// 32 bits.
pub const MAX_LIST_LEN: u64 = 0x1_0000_0000;

/// A string short enough for MessagePack.
pub open spec fn string_fits(s: Seq<char>) -> bool {
    s.len() < MAX_STRING_CHARS
}

/// An optional string short enough for MessagePack.
pub open spec fn option_fits(o: Option<Seq<char>>) -> bool {
    match o {
        Some(s) => string_fits(s),
        None => true,
    }
}

/// A record whose strings and texts MessagePack can hold.
pub open spec fn record_fits(r: RecordView) -> bool {
    &&& string_fits(r.0)
    &&& string_fits(r.1)
    &&& string_fits(r.2)
    &&& option_fits(r.3)
    &&& option_fits(r.4)
    &&& option_fits(r.5)
    &&& string_fits(r.6)
    &&& r.7.len() < MAX_LIST_LEN
    &&& forall|k: int| 0 <= k < r.7.len() ==> string_fits(#[trigger] r.7[k])
}

/// Records that MessagePack can hold, every length within its 32 bits.
pub open spec fn records_fit(rs: Seq<RecordView>) -> bool {
    rs.len() < MAX_LIST_LEN && forall|k: int| 0 <= k < rs.len() ==> record_fits(#[trigger] rs[k])
}

fn fits_string(s: &String) -> (r: bool)
    ensures
        r == string_fits(s@),
{
    (s.as_str().unicode_len() as u64) < MAX_STRING_CHARS
}

fn fits_option(o: &Option<String>) -> (r: bool)
    ensures
        r == option_fits(o.deep_view()),
{
    match o {
        Some(s) => fits_string(s),
        None => true,
    }
}

fn fits_record(r: &Record) -> (b: bool)
    ensures
        b == record_fits(r.deep_view()),
{
    if !(fits_string(&r.0) && fits_string(&r.1) && fits_string(&r.2) && fits_option(&r.3)
        && fits_option(&r.4) && fits_option(&r.5) && fits_string(&r.6)) {
        return false;
    }
    if (r.7.len() as u64) >= MAX_LIST_LEN {
        return false;
    }
    let mut k: usize = 0;
    while k < r.7.len()
        invariant
            k <= r.7@.len(),
            forall|j: int| 0 <= j < k ==> string_fits(#[trigger] r.7.deep_view()[j]),
        decreases r.7@.len() - k,
    {
        if !fits_string(&r.7[k]) {
            assert(!string_fits(r.deep_view().7[k as int]));
            return false;
        }
        k = k + 1;
    }
    true
}

/// Whether MessagePack can hold the records.
pub fn fits_records(rs: &Vec<Record>) -> (b: bool)
    ensures
        b == records_fit(rs.deep_view()),
{
    if (rs.len() as u64) >= MAX_LIST_LEN {
        return false;
    }
    let mut k: usize = 0;
    while k < rs.len()
        invariant
            k <= rs@.len(),
            forall|j: int| 0 <= j < k ==> record_fits(#[trigger] rs.deep_view()[j]),
        decreases rs@.len() - k,
    {
        if !fits_record(&rs[k]) {
            assert(!record_fits(rs.deep_view()[k as int]));
            return false;
        }
        k = k + 1;
    }
    true
}

/// Relies on `rmp_serde::to_vec_named`: the MessagePack encoding of the
/// records, a function of the records alone. It writes into a `Vec`, which
/// does not fail; with every length within its 32 bits, strings, `nil` and
/// arrays are written as the decoder reads them back. A failure would be
/// kept as its message.
#[verifier::external_body]
pub(crate) fn encode_records(records: &Vec<Record>) -> (r: Result<Vec<u8>, String>)
    requires
        records_fit(records.deep_view()),
    ensures
        r is Ok,
        r matches Ok(b) ==> b@ == msgpack_of(records.deep_view()),
        r matches Ok(b) ==> msgpack_records(b@) == records.deep_view(),
{
    match rmp_serde::to_vec_named(records) {
        Ok(b) => Ok(b),
        Err(e) => Err(e.to_string()),
    }
}

/// Relies on `rmp_serde::from_slice`: the records that the bytes decode to, a
/// function of the bytes alone. Bytes that encode records decode; empty bytes
/// fail when the first marker is read. A failure is kept as its message.
#[verifier::external_body]
pub(crate) fn decode_records(bytes: &[u8]) -> (r: Result<Vec<Record>, String>)
    ensures
        r matches Ok(v) ==> v.deep_view() == msgpack_records(bytes@),
        msgpack_of(msgpack_records(bytes@)) == bytes@ ==> r is Ok,
        bytes@.len() == 0 ==> r is Err,
{
    match rmp_serde::from_slice::<Vec<Record>>(bytes) {
        Ok(v) => Ok(v),
        Err(e) => Err(e.to_string()),
    }
}

/// The record of a package and its texts.
pub open spec fn record_of(p: PackageView, texts: Seq<Seq<char>>) -> RecordView {
    (p.id, p.name, p.version, p.license, p.license_file, p.repository, p.manifest_path, texts)
}

/// The package that a record describes.
pub open spec fn package_of(r: RecordView) -> PackageView {
    PackageView {
        id: r.0,
        name: r.1,
        version: r.2,
        license: r.3,
        license_file: r.4,
        repository: r.5,
        manifest_path: r.6,
    }
}

/// A copy of `s`.
pub fn copy_string(s: &String) -> (r: String)
    ensures
        r@ == s@,
{
    s.clone()
}

/// A copy of an optional string.
pub fn copy_option(s: &Option<String>) -> (r: Option<String>)
    ensures
        r.deep_view() == s.deep_view(),
{
    match s {
        Some(x) => Some(copy_string(x)),
        None => None,
    }
}

/// A copy of a list of texts.
pub fn copy_texts(v: &Vec<String>) -> (r: Vec<String>)
    ensures
        r.deep_view() == v.deep_view(),
{
    let mut r: Vec<String> = Vec::new();
    let mut i: usize = 0;
    while i < v.len()
        invariant
            i <= v@.len(),
            r@.len() == i,
            forall|j: int| 0 <= j < i ==> #[trigger] r@[j]@ == v@[j]@,
        decreases v@.len() - i,
    {
        r.push(copy_string(&v[i]));
        i = i + 1;
    }
    assert(r.deep_view() =~= v.deep_view());
    r
}

/// The record of a package and its texts.
pub fn to_record(p: &Package, texts: &Vec<String>) -> (r: Record)
    ensures
        r.deep_view() == record_of(p@, texts.deep_view()),
{
    (
        copy_string(&p.id),
        copy_string(&p.name),
        copy_string(&p.version),
        copy_option(&p.license),
        copy_option(&p.license_file),
        copy_option(&p.repository),
        copy_string(&p.manifest_path),
        copy_texts(texts),
    )
}

/// The package and texts that a record describes.
pub fn from_record(r: &Record) -> (e: (Package, Vec<String>))
    ensures
        e.0@ == package_of(r.deep_view()),
        e.1.deep_view() == r.deep_view().7,
{
    let p = Package {
        id: copy_string(&r.0),
        name: copy_string(&r.1),
        version: copy_string(&r.2),
        license: copy_option(&r.3),
        license_file: copy_option(&r.4),
        repository: copy_option(&r.5),
        manifest_path: copy_string(&r.6),
    };
    (p, copy_texts(&r.7))
}

} // verus!
