//! Common pieces of the aconfig storage file formats: the error type, the file
//! types, the version constants, the little-endian field readers and writers,
//! and the header layout shared by the flag value and flag info files.
//!
//! Every storage file starts with a header whose first four bytes are the
//! format version. Versions 1 to 3 share one header layout; version 4 appends
//! the number of integer flags and the offset of the integer section.

use vstd::bytes::*;
use vstd::prelude::*;
use vstd::slice::slice_subrange;
use vstd::string::*;
use vstd::utf8::*;

use crate::text::{decimal, push_decimal};

verus! {

/// Version written by default.
pub const DEFAULT_FILE_VERSION: u32 = 2;

/// Highest version that this library reads and writes.
pub const MAX_SUPPORTED_FILE_VERSION: u32 = 4;

/// The kinds of storage files.
#[derive(Clone, Copy, Debug, PartialEq, Eq)]
pub enum StorageFileType {
    PackageMap,
    FlagMap,
    FlagVal,
    FlagInfo,
}

impl StorageFileType {
    /// The byte that identifies the file type in a header.
    pub open spec fn spec_code(&self) -> u8 {
        match self {
            StorageFileType::PackageMap => 0,
            StorageFileType::FlagMap => 1,
            StorageFileType::FlagVal => 2,
            StorageFileType::FlagInfo => 3,
        }
    }

    /// The byte that identifies the file type in a header.
    pub fn code(&self) -> (c: u8)
        ensures
            c == self.spec_code(),
    {
        match self {
            StorageFileType::PackageMap => 0,
            StorageFileType::FlagMap => 1,
            StorageFileType::FlagVal => 2,
            StorageFileType::FlagInfo => 3,
        }
    }
}

/// Errors of reading and writing storage files; each carries a message.
#[derive(Debug)]
pub enum AconfigStorageError {
    BytesParseFail(String),
    HigherStorageFileVersion(String),
    InvalidStorageFileOffset(String),
}

/// The mathematical value of an [`AconfigStorageError`].
pub enum StorageErrorView {
    BytesParseFail(Seq<char>),
    HigherStorageFileVersion(Seq<char>),
    InvalidStorageFileOffset(Seq<char>),
}

impl View for AconfigStorageError {
    type V = StorageErrorView;

    open spec fn view(&self) -> StorageErrorView {
        match self {
            AconfigStorageError::BytesParseFail(m) => StorageErrorView::BytesParseFail(m@),
            AconfigStorageError::HigherStorageFileVersion(m) => StorageErrorView::HigherStorageFileVersion(m@),
            AconfigStorageError::InvalidStorageFileOffset(m) => StorageErrorView::InvalidStorageFileOffset(m@),
        }
    }
}

impl StorageErrorView {
    /// The variant's name followed by the message in parentheses.
    pub open spec fn debug_text(self) -> Seq<char> {
        match self {
            StorageErrorView::BytesParseFail(m) => "BytesParseFail("@ + m + ")"@,
            StorageErrorView::HigherStorageFileVersion(m) => "HigherStorageFileVersion("@ + m + ")"@,
            StorageErrorView::InvalidStorageFileOffset(m) => "InvalidStorageFileOffset("@ + m + ")"@,
        }
    }
}

impl AconfigStorageError {
    /// The variant's name followed by the message in parentheses, as the
    /// debug output of the error shows it.
    pub fn debug_string(&self) -> (s: String)
        ensures
            s@ == self@.debug_text(),
    {
        let (mut s, m) = match self {
            AconfigStorageError::BytesParseFail(m) => (String::from_str("BytesParseFail("), m),
            AconfigStorageError::HigherStorageFileVersion(m) => (String::from_str("HigherStorageFileVersion("), m),
            AconfigStorageError::InvalidStorageFileOffset(m) => (String::from_str("InvalidStorageFileOffset("), m),
        };
        s.append(m.as_str());
        s.append(")");
        s
    }
}

/// The view of a result whose error is an [`AconfigStorageError`].
pub open spec fn result_view<T: View>(r: Result<T, AconfigStorageError>) -> Result<T::V, StorageErrorView> {
    match r {
        Ok(v) => Ok(v@),
        Err(e) => Err(e@),
    }
}

pub open spec fn u8_out_of_bounds_msg() -> Seq<char> {
    "fail to parse u8 from bytes: access out of bounds"@
}

pub open spec fn u32_out_of_bounds_msg() -> Seq<char> {
    "fail to parse u32 from bytes: access out of bounds"@
}

pub open spec fn i64_out_of_bounds_msg() -> Seq<char> {
    "fail to parse i64 from bytes: access out of bounds"@
}

pub open spec fn str_out_of_bounds_msg() -> Seq<char> {
    "fail to parse string from bytes: access out of bounds"@
}

pub open spec fn str_not_utf8_msg() -> Seq<char> {
    "fail to parse string from bytes: invalid utf-8"@
}

/// Message of the error for a file whose version this library cannot read.
pub open spec fn higher_version_msg(version: u32) -> Seq<char> {
    "Cannot read storage file with a higher version of "@ + decimal(version as nat)
        + " with lib version "@ + decimal(MAX_SUPPORTED_FILE_VERSION as nat)
}

/// Reading a byte at position `p`.
pub open spec fn spec_read_u8(b: Seq<u8>, p: int) -> Result<u8, StorageErrorView> {
    if 0 <= p && p + 1 <= b.len() {
        Ok(b[p])
    } else {
        Err(StorageErrorView::BytesParseFail(u8_out_of_bounds_msg()))
    }
}

/// Reading a little-endian `u32` at position `p`.
pub open spec fn spec_read_u32(b: Seq<u8>, p: int) -> Result<u32, StorageErrorView> {
    if 0 <= p && p + 4 <= b.len() {
        Ok(spec_u32_from_le_bytes(b.subrange(p, p + 4)))
    } else {
        Err(StorageErrorView::BytesParseFail(u32_out_of_bounds_msg()))
    }
}

/// Reading a little-endian `i64` at position `p`.
pub open spec fn spec_read_i64(b: Seq<u8>, p: int) -> Result<i64, StorageErrorView> {
    if 0 <= p && p + 8 <= b.len() {
        Ok(spec_u64_from_le_bytes(b.subrange(p, p + 8)) as i64)
    } else {
        Err(StorageErrorView::BytesParseFail(i64_out_of_bounds_msg()))
    }
}

/// Reading a string at position `p`: a `u32` byte count, then that many bytes
/// of UTF-8. On success, the characters and the position after the string.
pub open spec fn spec_read_str(b: Seq<u8>, p: int) -> Result<(Seq<char>, int), StorageErrorView> {
    match spec_read_u32(b, p) {
        Err(e) => Err(e),
        Ok(n) => {
            let start = p + 4;
            let end = p + 4 + n;
            if end > b.len() {
                Err(StorageErrorView::BytesParseFail(str_out_of_bounds_msg()))
            } else if !valid_utf8(b.subrange(start, end)) {
                Err(StorageErrorView::BytesParseFail(str_not_utf8_msg()))
            } else {
                Ok((decode_utf8(b.subrange(start, end)), end))
            }
        },
    }
}

/// Reads a byte at `*head` and moves `head` past it.
pub fn read_u8_from_bytes(buf: &[u8], head: &mut usize) -> (res: Result<u8, AconfigStorageError>)
    ensures
        result_view(res) == spec_read_u8(buf@, *old(head) as int),
        *final(head) == if res is Ok { *old(head) + 1 } else { *old(head) as int },
{
    let h = *head;
    if h < buf.len() {
        *head = h + 1;
        Ok(buf[h])
    } else {
        Err(AconfigStorageError::BytesParseFail(
            String::from_str("fail to parse u8 from bytes: access out of bounds"),
        ))
    }
}

/// Reads a little-endian `u32` at `*head` and moves `head` past it.
pub fn read_u32_from_bytes(buf: &[u8], head: &mut usize) -> (res: Result<u32, AconfigStorageError>)
    ensures
        result_view(res) == spec_read_u32(buf@, *old(head) as int),
        *final(head) == if res is Ok { *old(head) + 4 } else { *old(head) as int },
{
    let h = *head;
    if h <= buf.len() && buf.len() - h >= 4 {
        let v = u32_from_le_bytes(slice_subrange(buf, h, h + 4));
        *head = h + 4;
        Ok(v)
    } else {
        Err(AconfigStorageError::BytesParseFail(
            String::from_str("fail to parse u32 from bytes: access out of bounds"),
        ))
    }
}

/// Reads a little-endian `i64` at `*head` and moves `head` past it.
pub fn read_i64_from_bytes(buf: &[u8], head: &mut usize) -> (res: Result<i64, AconfigStorageError>)
    ensures
        result_view(res) == spec_read_i64(buf@, *old(head) as int),
        *final(head) == if res is Ok { *old(head) + 8 } else { *old(head) as int },
{
    let h = *head;
    if h <= buf.len() && buf.len() - h >= 8 {
        let v = u64_from_le_bytes(slice_subrange(buf, h, h + 8));
        *head = h + 8;
        Ok(v as i64)
    } else {
        Err(AconfigStorageError::BytesParseFail(
            String::from_str("fail to parse i64 from bytes: access out of bounds"),
        ))
    }
}

/// `std::str::from_utf8`: the string that the bytes encode, or `None` where
/// they are not valid UTF-8.
#[verifier::external_body]
fn utf8_to_string(bytes: &[u8]) -> (res: Option<String>)
    ensures
        res is Some <==> valid_utf8(bytes@),
        res matches Some(s) ==> s@ == decode_utf8(bytes@),
{
    match std::str::from_utf8(bytes) {
        Ok(s) => Some(s.to_string()),
        Err(_) => None,
    }
}

/// Reads a string (a `u32` byte count, then UTF-8 bytes) at `*head` and moves
/// `head` past it. After a failed read of the characters, `head` stands past
/// the byte count.
pub fn read_str_from_bytes(buf: &[u8], head: &mut usize) -> (res: Result<String, AconfigStorageError>)
    ensures
        result_view(res) == (match spec_read_str(buf@, *old(head) as int) {
            Ok((s, _)) => Ok::<Seq<char>, StorageErrorView>(s),
            Err(e) => Err(e),
        }),
        spec_read_str(buf@, *old(head) as int) matches Ok((_, end)) ==> *final(head) == end,
        spec_read_str(buf@, *old(head) as int) is Err ==> *final(head) == if spec_read_u32(
            buf@,
            *old(head) as int,
        ) is Ok {
            *old(head) + 4
        } else {
            *old(head) as int
        },
{
    let n = read_u32_from_bytes(buf, head)?;
    let start = *head;
    if (n as u64) > ((buf.len() - start) as u64) {
        return Err(AconfigStorageError::BytesParseFail(
            String::from_str("fail to parse string from bytes: access out of bounds"),
        ));
    }
    let end = start + n as usize;
    match utf8_to_string(slice_subrange(buf, start, end)) {
        Some(s) => {
            *head = end;
            Ok(s)
        },
        None => Err(AconfigStorageError::BytesParseFail(
            String::from_str("fail to parse string from bytes: invalid utf-8"),
        )),
    }
}

/// Appends bytes to a buffer.
pub fn push_bytes(out: &mut Vec<u8>, bytes: &[u8])
    ensures
        final(out)@ == old(out)@ + bytes@,
{
    let mut i: usize = 0;
    while i < bytes.len()
        invariant
            i <= bytes@.len(),
            out@ == old(out)@ + bytes@.take(i as int),
        decreases bytes@.len() - i,
    {
        out.push(bytes[i]);
        i = i + 1;
        assert(out@ == old(out)@ + bytes@.take(i as int));
    }
    assert(bytes@.take(bytes@.len() as int) == bytes@);
}

/// Appends a little-endian `u32`.
pub fn push_u32_le(out: &mut Vec<u8>, x: u32)
    ensures
        final(out)@ == old(out)@ + spec_u32_to_le_bytes(x),
{
    let b = u32_to_le_bytes(x);
    push_bytes(out, b.as_slice());
}

/// Appends a little-endian `u64`.
pub fn push_u64_le(out: &mut Vec<u8>, x: u64)
    ensures
        final(out)@ == old(out)@ + spec_u64_to_le_bytes(x),
{
    let b = u64_to_le_bytes(x);
    push_bytes(out, b.as_slice());
}

/// The fields of a storage file header, independent of the file type.
pub struct HeaderView {
    pub version: u32,
    pub container: Seq<char>,
    pub file_type: u8,
    pub file_size: u32,
    pub num_boolean: u32,
    pub boolean_offset: u32,
    pub num_int: u32,
    pub int_offset: u32,
}

/// The header layout of versions 1 to 3: version, container (byte count and
/// UTF-8 bytes; the count is truncated to 32 bits), file type, file size,
/// number of boolean flags and offset of the boolean section.
pub open spec fn header_v1_bytes(h: HeaderView) -> Seq<u8> {
    spec_u32_to_le_bytes(h.version) + spec_u32_to_le_bytes(encode_utf8(h.container).len() as u32)
        + encode_utf8(h.container) + seq![h.file_type] + spec_u32_to_le_bytes(h.file_size)
        + spec_u32_to_le_bytes(h.num_boolean) + spec_u32_to_le_bytes(h.boolean_offset)
}

/// The header layout of version 4: that of version 1, then the number of
/// integer flags and the offset of the integer section.
pub open spec fn header_v4_bytes(h: HeaderView) -> Seq<u8> {
    header_v1_bytes(h) + spec_u32_to_le_bytes(h.num_int) + spec_u32_to_le_bytes(h.int_offset)
}

/// The serialized header: version 4 in its own layout, every other version in
/// that of version 1.
pub open spec fn header_bytes(h: HeaderView) -> Seq<u8> {
    if h.version == 4 {
        header_v4_bytes(h)
    } else {
        header_v1_bytes(h)
    }
}

/// Parsing the fields that follow the version, for a known version.
pub open spec fn parse_header_fields(b: Seq<u8>, version: u32) -> Result<HeaderView, StorageErrorView> {
    match spec_read_str(b, 4) {
        Err(e) => Err(e),
        Ok((container, p)) => match spec_read_u8(b, p) {
            Err(e) => Err(e),
            Ok(file_type) => match spec_read_u32(b, p + 1) {
                Err(e) => Err(e),
                Ok(file_size) => match spec_read_u32(b, p + 5) {
                    Err(e) => Err(e),
                    Ok(num_boolean) => match spec_read_u32(b, p + 9) {
                        Err(e) => Err(e),
                        Ok(boolean_offset) => if version == 4 {
                            match spec_read_u32(b, p + 13) {
                                Err(e) => Err(e),
                                Ok(num_int) => match spec_read_u32(b, p + 17) {
                                    Err(e) => Err(e),
                                    Ok(int_offset) => Ok(
                                        HeaderView {
                                            version,
                                            container,
                                            file_type,
                                            file_size,
                                            num_boolean,
                                            boolean_offset,
                                            num_int,
                                            int_offset,
                                        },
                                    ),
                                },
                            }
                        } else {
                            Ok(
                                HeaderView {
                                    version,
                                    container,
                                    file_type,
                                    file_size,
                                    num_boolean,
                                    boolean_offset,
                                    num_int: 0,
                                    int_offset: 0,
                                },
                            )
                        },
                    },
                },
            },
        },
    }
}

/// Parsing a header of the given file type: the version comes first and must
/// lie in 1..=4; then the fields of that version's layout; then the file type
/// must match, or the error carries `wrong_type_msg`.
pub open spec fn parse_header(b: Seq<u8>, file_type: u8, wrong_type_msg: Seq<char>) -> Result<
    HeaderView,
    StorageErrorView,
> {
    match spec_read_u32(b, 0) {
        Err(e) => Err(e),
        Ok(version) => if !(1 <= version && version <= 4) {
            Err(StorageErrorView::HigherStorageFileVersion(higher_version_msg(version)))
        } else {
            match parse_header_fields(b, version) {
                Err(e) => Err(e),
                Ok(h) => if h.file_type != file_type {
                    Err(StorageErrorView::BytesParseFail(wrong_type_msg))
                } else {
                    Ok(h)
                },
            }
        },
    }
}

/// The error for a file whose version this library cannot read.
pub fn higher_version_error(version: u32) -> (e: AconfigStorageError)
    ensures
        e@ == StorageErrorView::HigherStorageFileVersion(higher_version_msg(version)),
{
    let mut s = String::from_str("Cannot read storage file with a higher version of ");
    push_decimal(&mut s, version as u64);
    s.append(" with lib version ");
    push_decimal(&mut s, MAX_SUPPORTED_FILE_VERSION as u64);
    AconfigStorageError::HigherStorageFileVersion(s)
}

/// The headers that serialization and parsing carry over unchanged: a
/// readable version, a container whose UTF-8 bytes fit a 32-bit count, and
/// no integer section before version 4.
pub open spec fn header_round_trips(h: HeaderView) -> bool {
    &&& 1 <= h.version <= 4
    &&& encode_utf8(h.container).len() <= u32::MAX
    &&& h.version != 4 ==> h.num_int == 0 && h.int_offset == 0
}

/// Reading a `u32` where one was written.
pub proof fn lemma_read_u32_written(pre: Seq<u8>, x: u32, post: Seq<u8>)
    ensures
        spec_read_u32(pre + spec_u32_to_le_bytes(x) + post, pre.len() as int) == Ok::<
            u32,
            StorageErrorView,
        >(x),
{
    lemma_auto_spec_u32_to_from_le_bytes();
    let b = pre + spec_u32_to_le_bytes(x) + post;
    assert(b.subrange(pre.len() as int, pre.len() + 4int) == spec_u32_to_le_bytes(x));
}

/// The length of a serialized header.
pub proof fn lemma_header_bytes_len(h: HeaderView)
    ensures
        header_v1_bytes(h).len() == 21 + encode_utf8(h.container).len(),
        header_bytes(h).len() == (if h.version == 4 { 29nat } else { 21nat }) + encode_utf8(
            h.container,
        ).len(),
{
    lemma_auto_spec_u32_to_from_le_bytes();
}

/// A serialized header, followed by any bytes, parses back to itself.
pub proof fn lemma_parse_header_bytes(h: HeaderView, rest: Seq<u8>, wrong_type_msg: Seq<char>)
    requires
        header_round_trips(h),
    ensures
        parse_header(header_bytes(h) + rest, h.file_type, wrong_type_msg) == Ok::<
            HeaderView,
            StorageErrorView,
        >(h),
{
    lemma_auto_spec_u32_to_from_le_bytes();
    broadcast use encode_utf8_valid_utf8, encode_utf8_decode_utf8;

    let cb = encode_utf8(h.container);
    let n: int = cb.len() as int;
    let le = |x: u32| spec_u32_to_le_bytes(x);
    let tail = if h.version == 4 {
        le(h.num_int) + le(h.int_offset) + rest
    } else {
        rest
    };
    let b = header_bytes(h) + rest;
    assert(b == le(h.version) + le(n as u32) + cb + seq![h.file_type] + le(h.file_size) + le(
        h.num_boolean,
    ) + le(h.boolean_offset) + tail);
    let p: int = 8 + n;
    assert(b.subrange(0, 4) == le(h.version));
    assert(b.subrange(4, 8) == le(n as u32));
    assert((n as u32) as nat == n);
    assert(b.subrange(8, p) == cb);
    assert(b[p] == h.file_type);
    assert(b.subrange(p + 1, p + 5) == le(h.file_size));
    assert(b.subrange(p + 5, p + 9) == le(h.num_boolean));
    assert(b.subrange(p + 9, p + 13) == le(h.boolean_offset));
    if h.version == 4 {
        assert(b.subrange(p + 13, p + 17) == le(h.num_int));
        assert(b.subrange(p + 17, p + 21) == le(h.int_offset));
    }
    assert(spec_read_str(b, 4) == Ok::<(Seq<char>, int), StorageErrorView>((h.container, p)));
}

/// Two byte sequences that agree on their first `len` bytes agree on every
/// range inside them.
pub proof fn lemma_common_prefix_ranges(b: Seq<u8>, b2: Seq<u8>, len: int)
    requires
        0 <= len <= b.len(),
        len <= b2.len(),
        forall|i: int| 0 <= i < len ==> #[trigger] b2[i] == b[i],
    ensures
        forall|p: int, q: int|
            #![trigger b.subrange(p, q)]
            #![trigger b2.subrange(p, q)]
            0 <= p <= q <= len ==> b.subrange(p, q) == b2.subrange(p, q),
{
    assert forall|p: int, q: int| 0 <= p <= q <= len implies b.subrange(p, q) == b2.subrange(p, q) by {
        assert(b.subrange(p, q) =~= b2.subrange(p, q));
    }
}

/// A parsed header spans as many bytes as its serialization.
pub proof fn lemma_parsed_header_span(b: Seq<u8>, file_type: u8, wrong_type_msg: Seq<char>)
    requires
        parse_header(b, file_type, wrong_type_msg) is Ok,
    ensures
        ({
            let h = parse_header(b, file_type, wrong_type_msg)->Ok_0;
            let n = spec_read_u32(b, 4)->Ok_0 as int;
            &&& header_bytes(h).len() == (if h.version == 4 { 29 + n } else { 21 + n })
            &&& header_bytes(h).len() <= b.len()
            &&& encode_utf8(h.container) == b.subrange(8, 8 + n)
        }),
{
    broadcast use decode_utf8_encode_utf8;

    lemma_auto_spec_u32_to_from_le_bytes();
    let h = parse_header(b, file_type, wrong_type_msg)->Ok_0;
    lemma_header_bytes_len(h);
}

/// Parsing a header reads no byte past the header's serialized length: bytes
/// that agree on that prefix parse alike.
pub proof fn lemma_parse_header_frame(b: Seq<u8>, b2: Seq<u8>, file_type: u8, wrong_type_msg: Seq<char>)
    requires
        parse_header(b, file_type, wrong_type_msg) is Ok,
        b2.len() >= header_bytes(parse_header(b, file_type, wrong_type_msg)->Ok_0).len(),
        forall|i: int|
            0 <= i < header_bytes(parse_header(b, file_type, wrong_type_msg)->Ok_0).len()
                ==> #[trigger] b2[i] == b[i],
    ensures
        parse_header(b2, file_type, wrong_type_msg) == parse_header(b, file_type, wrong_type_msg),
{
    lemma_parsed_header_span(b, file_type, wrong_type_msg);
    let h = parse_header(b, file_type, wrong_type_msg)->Ok_0;
    let len = header_bytes(h).len() as int;
    lemma_common_prefix_ranges(b, b2, len);
    let n = spec_read_u32(b, 4)->Ok_0 as int;
    assert(b.subrange(0, 4) == b2.subrange(0, 4));
    assert(b.subrange(4, 8) == b2.subrange(4, 8));
    assert(b.subrange(8, 8 + n) == b2.subrange(8, 8 + n));
    assert(b[8 + n] == b2[8 + n]);
    assert(b.subrange(9 + n, 13 + n) == b2.subrange(9 + n, 13 + n));
    assert(b.subrange(13 + n, 17 + n) == b2.subrange(13 + n, 17 + n));
    assert(b.subrange(17 + n, 21 + n) == b2.subrange(17 + n, 21 + n));
    if h.version == 4 {
        assert(b.subrange(21 + n, 25 + n) == b2.subrange(21 + n, 25 + n));
        assert(b.subrange(25 + n, 29 + n) == b2.subrange(25 + n, 29 + n));
    }
}

} // verus!
