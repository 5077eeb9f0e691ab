//! The flag value file: a header, then one byte per boolean flag, then (in
//! version 4) eight little-endian bytes per integer flag.

use vstd::bytes::*;
use vstd::prelude::*;
use vstd::string::*;
use vstd::utf8::*;

use crate::storage_file::{
    header_bytes, higher_version_error, parse_header, parse_header_fields, push_bytes, push_u32_le,
    push_u64_le, read_str_from_bytes, read_u32_from_bytes, read_u8_from_bytes, result_view,
    spec_read_u32, AconfigStorageError, HeaderView, StorageErrorView, StorageFileType,
};
use crate::text::{decimal, push_decimal};

verus! {

/// Flag value header.
#[derive(Debug, PartialEq)]
pub struct FlagValueHeader {
    pub version: u32,
    pub container: String,
    pub file_type: u8,
    pub file_size: u32,
    pub num_boolean_flags: u32,
    pub boolean_value_offset: u32,
    pub num_int_flags: u32,
    pub int_value_offset: u32,
}

impl View for FlagValueHeader {
    type V = HeaderView;

    open spec fn view(&self) -> HeaderView {
        HeaderView {
            version: self.version,
            container: self.container@,
            file_type: self.file_type,
            file_size: self.file_size,
            num_boolean: self.num_boolean_flags,
            boolean_offset: self.boolean_value_offset,
            num_int: self.num_int_flags,
            int_offset: self.int_value_offset,
        }
    }
}

/// Message of the error for a file whose type byte is not that of a flag
/// value file.
pub open spec fn not_flag_value_file_msg() -> Seq<char> {
    "binary file is not a flag value file"@
}

/// Parsing a flag value header.
pub open spec fn parse_value_header(b: Seq<u8>) -> Result<HeaderView, StorageErrorView> {
    parse_header(b, StorageFileType::FlagVal.spec_code(), not_flag_value_file_msg())
}

pub open spec fn boolean_out_of_file_msg() -> Seq<char> {
    "Flag value offset goes beyond the end of the file."@
}

pub open spec fn boolean_out_of_section_msg() -> Seq<char> {
    "Flag value offset goes beyond the end of the boolean section."@
}

pub open spec fn int_before_v4_msg() -> Seq<char> {
    "Don't support ints before version 4"@
}

pub open spec fn int_out_of_file_msg() -> Seq<char> {
    "Flag value offset goes beyond the end of the file."@
}

/// Byte offset of the boolean flag `flag_index`: the boolean section's
/// offset plus the index. Before version 4 it must lie inside the file; in
/// version 4 it must lie before the integer section; later versions are
/// refused.
pub open spec fn spec_boolean_offset(h: HeaderView, flag_index: u32) -> Result<usize, StorageErrorView> {
    let offset = h.boolean_offset + flag_index;
    if 1 <= h.version && h.version <= 3 {
        if offset >= h.file_size {
            Err(StorageErrorView::InvalidStorageFileOffset(boolean_out_of_file_msg()))
        } else {
            Ok(offset as usize)
        }
    } else if h.version == 4 {
        if offset >= h.int_offset {
            Err(StorageErrorView::InvalidStorageFileOffset(boolean_out_of_section_msg()))
        } else {
            Ok(offset as usize)
        }
    } else {
        Err(StorageErrorView::HigherStorageFileVersion(crate::storage_file::higher_version_msg(h.version)))
    }
}

/// Byte offset of the integer flag `flag_index`: the integer section's
/// offset plus eight bytes per index; all eight bytes must lie inside the
/// file. Versions before 4 hold no integer flags.
pub open spec fn spec_int_offset(h: HeaderView, flag_index: u32) -> Result<usize, StorageErrorView> {
    let offset = h.int_offset + flag_index * 8;
    if h.version < 4 {
        Err(StorageErrorView::HigherStorageFileVersion(int_before_v4_msg()))
    } else if offset + 7 >= h.file_size {
        Err(StorageErrorView::InvalidStorageFileOffset(int_out_of_file_msg()))
    } else {
        Ok(offset as usize)
    }
}

impl FlagValueHeader {
    /// Serialize to bytes: version 4 in its own layout, every other version in
    /// the layout of version 1.
    pub fn to_bytes(&self) -> (res: Vec<u8>)
        ensures
            res@ == header_bytes(self@),
    {
        match self.version {
            1..=3 => self.to_bytes_v1(),
            4 => self.to_bytes_v4(),
            _ => self.to_bytes_v1(),
        }
    }

    fn to_bytes_v1(&self) -> (res: Vec<u8>)
        ensures
            res@ == crate::storage_file::header_v1_bytes(self@),
    {
        let mut result: Vec<u8> = Vec::new();
        push_u32_le(&mut result, self.version);
        let container_bytes = self.container.as_str().as_bytes();
        push_u32_le(&mut result, container_bytes.len() as u32);
        push_bytes(&mut result, container_bytes);
        result.push(self.file_type);
        push_u32_le(&mut result, self.file_size);
        push_u32_le(&mut result, self.num_boolean_flags);
        push_u32_le(&mut result, self.boolean_value_offset);
        result
    }

    fn to_bytes_v4(&self) -> (res: Vec<u8>)
        ensures
            res@ == crate::storage_file::header_v4_bytes(self@),
    {
        let mut result = self.to_bytes_v1();
        push_u32_le(&mut result, self.num_int_flags);
        push_u32_le(&mut result, self.int_value_offset);
        result
    }

    /// Deserialize from bytes.
    pub fn from_bytes(bytes: &[u8]) -> (res: Result<Self, AconfigStorageError>)
        ensures
            result_view(res) == parse_value_header(bytes@),
    {
        // Version is ALWAYS at the top of the file.
        let mut head: usize = 0;
        let version_from_bytes = read_u32_from_bytes(bytes, &mut head)?;
        let list = match version_from_bytes {
            1..=3 => Self::from_bytes_v1(bytes, version_from_bytes, &mut head),
            4 => Self::from_bytes_v4(bytes, version_from_bytes, &mut head),
            _ => {
                return Err(higher_version_error(version_from_bytes));
            },
        }?;
        if list.file_type != StorageFileType::FlagVal.code() {
            return Err(AconfigStorageError::BytesParseFail(
                String::from_str("binary file is not a flag value file"),
            ));
        }
        Ok(list)
    }

    fn from_bytes_v1(bytes: &[u8], version_from_bytes: u32, head: &mut usize) -> (res: Result<
        Self,
        AconfigStorageError,
    >)
        requires
            *old(head) == 4,
            version_from_bytes != 4,
        ensures
            result_view(res) == parse_header_fields(bytes@, version_from_bytes),
    {
        let container = read_str_from_bytes(bytes, head)?;
        let file_type = read_u8_from_bytes(bytes, head)?;
        let file_size = read_u32_from_bytes(bytes, head)?;
        let num_boolean_flags = read_u32_from_bytes(bytes, head)?;
        let boolean_value_offset = read_u32_from_bytes(bytes, head)?;
        Ok(Self {
            version: version_from_bytes,
            container,
            file_type,
            file_size,
            num_boolean_flags,
            boolean_value_offset,
            num_int_flags: 0u32,
            int_value_offset: 0u32,
        })
    }

    fn from_bytes_v4(bytes: &[u8], version_from_bytes: u32, head: &mut usize) -> (res: Result<
        Self,
        AconfigStorageError,
    >)
        requires
            *old(head) == 4,
            version_from_bytes == 4,
        ensures
            result_view(res) == parse_header_fields(bytes@, version_from_bytes),
    {
        let container = read_str_from_bytes(bytes, head)?;
        let file_type = read_u8_from_bytes(bytes, head)?;
        let file_size = read_u32_from_bytes(bytes, head)?;
        let num_boolean_flags = read_u32_from_bytes(bytes, head)?;
        let boolean_value_offset = read_u32_from_bytes(bytes, head)?;
        let num_int_flags = read_u32_from_bytes(bytes, head)?;
        let int_value_offset = read_u32_from_bytes(bytes, head)?;
        Ok(Self {
            version: version_from_bytes,
            container,
            file_type,
            file_size,
            num_boolean_flags,
            boolean_value_offset,
            num_int_flags,
            int_value_offset,
        })
    }

    /// Byte offset of the boolean flag `flag_index` (see [`spec_boolean_offset`]).
    pub fn get_offset_for_boolean_flag(&self, flag_index: u32) -> (res: Result<usize, AconfigStorageError>)
        requires
            self.boolean_value_offset + flag_index <= u32::MAX,
        ensures
            result_view(res) == spec_boolean_offset(self@, flag_index),
    {
        let offset = (self.boolean_value_offset + flag_index) as usize;
        match self.version {
            // Before int flag support, booleans are at the end of the file, so
            // just make sure the offset is not out of bounds.
            1..=3 => {
                if offset >= self.file_size as usize {
                    return Err(AconfigStorageError::InvalidStorageFileOffset(
                        String::from_str("Flag value offset goes beyond the end of the file."),
                    ));
                }
            },
            // File format:
            // [0: header][boolean_value_offset: boolean_values][int_value_offset: int_values]
            // So the offset should be within [boolean_value_offset, int_value_offset).
            4 => {
                if offset >= self.int_value_offset as usize {
                    return Err(AconfigStorageError::InvalidStorageFileOffset(
                        String::from_str("Flag value offset goes beyond the end of the boolean section."),
                    ));
                }
            },
            _ => {
                return Err(higher_version_error(self.version));
            },
        }
        Ok(offset)
    }

    /// Byte offset of the integer flag `flag_index` (see [`spec_int_offset`]).
    pub fn get_offset_for_int_flag(&self, flag_index: u32) -> (res: Result<usize, AconfigStorageError>)
        requires
            self.version >= 4 ==> flag_index * 8 <= u32::MAX && self.int_value_offset + flag_index
                * 8 <= u32::MAX,
        ensures
            result_view(res) == spec_int_offset(self@, flag_index),
    {
        if self.version < 4 {
            return Err(AconfigStorageError::HigherStorageFileVersion(
                String::from_str("Don't support ints before version 4"),
            ));
        }
        let offset = (self.int_value_offset + (flag_index * 8)) as usize;
        // (current spot)+7 to account for the 8 bytes that actually contain the
        // int64 value.
        if (offset as u64) + 7 >= self.file_size as u64 {
            return Err(AconfigStorageError::InvalidStorageFileOffset(
                String::from_str("Flag value offset goes beyond the end of the file."),
            ));
        }
        Ok(offset)
    }
}

/// The mathematical value of a [`FlagValueList`].
pub struct ValueListView {
    pub header: HeaderView,
    pub booleans: Seq<bool>,
    pub ints: Seq<i64>,
}

/// Flag value list: the header and the values of the flags.
#[derive(Debug, PartialEq)]
pub struct FlagValueList {
    pub header: FlagValueHeader,
    pub booleans: Vec<bool>,
    pub ints: Vec<i64>,
}

impl View for FlagValueList {
    type V = ValueListView;

    open spec fn view(&self) -> ValueListView {
        ValueListView { header: self.header@, booleans: self.booleans@, ints: self.ints@ }
    }
}

/// The byte that stores a boolean value.
pub open spec fn bool_byte(b: bool) -> u8 {
    if b {
        1
    } else {
        0
    }
}

/// One byte per boolean value.
pub open spec fn booleans_bytes(s: Seq<bool>) -> Seq<u8> {
    s.map_values(|b: bool| bool_byte(b))
}

/// Eight little-endian bytes per integer value.
pub open spec fn ints_bytes(s: Seq<i64>) -> Seq<u8>
    decreases s.len(),
{
    if s.len() == 0 {
        Seq::empty()
    } else {
        ints_bytes(s.drop_last()) + spec_u64_to_le_bytes(s.last() as u64)
    }
}

/// The serialized flag value file: the header, the boolean values and, in
/// version 4, the integer values.
pub open spec fn value_list_bytes(l: ValueListView) -> Seq<u8> {
    header_bytes(l.header) + booleans_bytes(l.booleans) + if l.header.version == 4 {
        ints_bytes(l.ints)
    } else {
        Seq::empty()
    }
}

/// Message of the error for a file whose header states another size.
pub open spec fn size_mismatch_msg(file_size: u32, actual: nat, version: u32) -> Seq<char> {
    "File size in header "@ + decimal(file_size as nat) + " does not match actual file size "@
        + decimal(actual) + " for version "@ + decimal(version as nat)
}

/// The little-endian `i64` stored at position `p`.
pub open spec fn int_at(b: Seq<u8>, p: int) -> i64 {
    spec_u64_from_le_bytes(b.subrange(p, p + 8)) as i64
}

/// Parsing a flag value file: the header; the header's file size must equal
/// the length of the bytes (taken modulo 2^32); then the booleans follow the
/// header (a byte of 1 is true), and in version 4 the integers follow them.
pub open spec fn parse_value_list(b: Seq<u8>) -> Result<ValueListView, StorageErrorView> {
    match parse_value_header(b) {
        Err(e) => Err(e),
        Ok(h) => if h.file_size != (b.len() as u32) {
            Err(StorageErrorView::BytesParseFail(size_mismatch_msg(h.file_size, b.len(), h.version)))
        } else {
            let hl = header_bytes(h).len() as int;
            let nb = h.num_boolean as int;
            Ok(
                ValueListView {
                    header: h,
                    booleans: Seq::new(h.num_boolean as nat, |i: int| b[hl + i] == 1),
                    ints: if h.version == 4 {
                        Seq::new(h.num_int as nat, |i: int| int_at(b, hl + nb + 8 * i))
                    } else {
                        Seq::empty()
                    },
                },
            )
        },
    }
}

/// The value sections that the header of a flag value file announces lie
/// inside the bytes (reading past the end is a panic of the parser).
pub open spec fn value_sections_fit(b: Seq<u8>) -> bool {
    match parse_value_header(b) {
        Ok(h) => h.file_size == (b.len() as u32) ==> {
            let hl = header_bytes(h).len() as int;
            &&& hl + h.num_boolean <= b.len()
            &&& h.version == 4 ==> hl + h.num_boolean + 8 * h.num_int <= b.len()
        },
        Err(_) => true,
    }
}

/// Appends one byte per boolean value.
fn push_booleans(out: &mut Vec<u8>, values: &Vec<bool>)
    ensures
        final(out)@ == old(out)@ + booleans_bytes(values@),
{
    let mut i: usize = 0;
    while i < values.len()
        invariant
            i <= values@.len(),
            out@ == old(out)@ + booleans_bytes(values@.take(i as int)),
        decreases values@.len() - i,
    {
        let byte: u8 = if values[i] {
            1
        } else {
            0
        };
        out.push(byte);
        i = i + 1;
        assert(booleans_bytes(values@.take(i as int)) == booleans_bytes(values@.take(i - 1))
            + seq![byte]);
    }
    assert(values@.take(values@.len() as int) == values@);
}

/// Appends eight little-endian bytes per integer value.
fn push_ints(out: &mut Vec<u8>, values: &Vec<i64>)
    ensures
        final(out)@ == old(out)@ + ints_bytes(values@),
{
    let mut i: usize = 0;
    while i < values.len()
        invariant
            i <= values@.len(),
            out@ == old(out)@ + ints_bytes(values@.take(i as int)),
        decreases values@.len() - i,
    {
        push_u64_le(out, values[i] as u64);
        i = i + 1;
        assert(values@.take(i as int).drop_last() == values@.take(i - 1));
    }
    assert(values@.take(values@.len() as int) == values@);
}

impl FlagValueList {
    /// Serialize to bytes.
    pub fn into_bytes(&self) -> (res: Vec<u8>)
        ensures
            res@ == value_list_bytes(self@),
    {
        match self.header.version {
            1..=3 => self.as_bytes_v1(),
            4 => self.as_bytes_v4(),
            _ => self.as_bytes_v1(),
        }
    }

    fn as_bytes_v1(&self) -> (res: Vec<u8>)
        ensures
            res@ == header_bytes(self.header@) + booleans_bytes(self.booleans@),
    {
        let mut result = self.header.to_bytes();
        push_booleans(&mut result, &self.booleans);
        result
    }

    fn as_bytes_v4(&self) -> (res: Vec<u8>)
        ensures
            res@ == header_bytes(self.header@) + booleans_bytes(self.booleans@) + ints_bytes(
                self.ints@,
            ),
    {
        let mut result = self.header.to_bytes();
        push_booleans(&mut result, &self.booleans);
        push_ints(&mut result, &self.ints);
        result
    }

    /// Deserialize from bytes.
    pub fn from_bytes(bytes: &[u8]) -> (res: Result<Self, AconfigStorageError>)
        requires
            value_sections_fit(bytes@),
        ensures
            result_view(res) == parse_value_list(bytes@),
    {
        let bytes_len = bytes.len();
        let header = FlagValueHeader::from_bytes(bytes)?;
        // Check that the file size in the header matches the actual file size.
        // If they don't match, then the file is probably corrupt.
        if header.file_size != bytes_len as u32 {
            let mut msg = String::from_str("File size in header ");
            push_decimal(&mut msg, header.file_size as u64);
            msg.append(" does not match actual file size ");
            push_decimal(&mut msg, bytes_len as u64);
            msg.append(" for version ");
            push_decimal(&mut msg, header.version as u64);
            return Err(AconfigStorageError::BytesParseFail(msg));
        }
        let version = header.version;
        let list = match version {
            1..=3 => Self::from_bytes_v1(bytes, header),
            4 => Self::from_bytes_v4(bytes, header),
            _ => {
                let mut msg = String::from_str("Binary file is an unsupported version: ");
                push_decimal(&mut msg, version as u64);
                return Err(AconfigStorageError::BytesParseFail(msg));
            },
        }?;
        Ok(list)
    }

    /// Reads `count` booleans starting at `head`.
    fn read_booleans(bytes: &[u8], start: usize, count: u32) -> (res: Vec<bool>)
        requires
            start + count <= bytes@.len(),
        ensures
            res@ == Seq::new(count as nat, |i: int| bytes@[start + i] == 1),
    {
        let mut head = start;
        let mut booleans: Vec<bool> = Vec::new();
        let mut i: u32 = 0;
        while i < count
            invariant
                i <= count,
                start + count <= bytes@.len(),
                head == start + i,
                booleans@ == Seq::new(i as nat, |k: int| bytes@[start + k] == 1),
            decreases count - i,
        {
            let v = read_u8_from_bytes(bytes, &mut head).unwrap();
            booleans.push(v == 1);
            i = i + 1;
            assert(booleans@ == Seq::new(i as nat, |k: int| bytes@[start + k] == 1));
        }
        booleans
    }

    /// Reads `count` integers starting at `head`.
    fn read_ints(bytes: &[u8], start: usize, count: u32) -> (res: Vec<i64>)
        requires
            start + 8 * count <= bytes@.len(),
        ensures
            res@ == Seq::new(count as nat, |i: int| int_at(bytes@, start + 8 * i)),
    {
        let mut head = start;
        let mut ints: Vec<i64> = Vec::new();
        let mut i: u32 = 0;
        while i < count
            invariant
                i <= count,
                start + 8 * count <= bytes@.len(),
                head == start + 8 * i,
                ints@ == Seq::new(i as nat, |k: int| int_at(bytes@, start + 8 * k)),
            decreases count - i,
        {
            let v = crate::storage_file::read_i64_from_bytes(bytes, &mut head).unwrap();
            ints.push(v);
            i = i + 1;
            assert(ints@ == Seq::new(i as nat, |k: int| int_at(bytes@, start + 8 * k)));
        }
        ints
    }

    fn from_bytes_v1(bytes: &[u8], header: FlagValueHeader) -> (res: Result<Self, AconfigStorageError>)
        requires
            header_bytes(header@).len() + header.num_boolean_flags <= bytes@.len(),
        ensures
            res matches Ok(l) && l@ == (ValueListView {
                header: header@,
                booleans: Seq::new(
                    header.num_boolean_flags as nat,
                    |i: int| bytes@[header_bytes(header@).len() + i] == 1,
                ),
                ints: Seq::empty(),
            }),
    {
        let num_flags = header.num_boolean_flags;
        let head = header.to_bytes().len();
        let booleans = Self::read_booleans(bytes, head, num_flags);
        let list = Self { header, booleans, ints: Vec::new() };
        Ok(list)
    }

    fn from_bytes_v4(bytes: &[u8], header: FlagValueHeader) -> (res: Result<Self, AconfigStorageError>)
        requires
            header_bytes(header@).len() + header.num_boolean_flags + 8 * header.num_int_flags
                <= bytes@.len(),
        ensures
            res matches Ok(l) && l@ == (ValueListView {
                header: header@,
                booleans: Seq::new(
                    header.num_boolean_flags as nat,
                    |i: int| bytes@[header_bytes(header@).len() + i] == 1,
                ),
                ints: Seq::new(
                    header.num_int_flags as nat,
                    |i: int|
                        int_at(
                            bytes@,
                            header_bytes(header@).len() + header.num_boolean_flags + 8 * i,
                        ),
                ),
            }),
    {
        let num_boolean_flags = header.num_boolean_flags;
        let num_int_flags = header.num_int_flags;
        let head = header.to_bytes().len();
        let bytes_len = bytes.len();
        assert(head + num_boolean_flags <= bytes_len);
        let booleans = Self::read_booleans(bytes, head, num_boolean_flags);
        let ints = Self::read_ints(bytes, head + num_boolean_flags as usize, num_int_flags);
        let list = Self { header, booleans, ints };
        Ok(list)
    }
}

/// The length of the serialized integers.
pub proof fn lemma_ints_bytes_len(s: Seq<i64>)
    ensures
        ints_bytes(s).len() == 8 * s.len(),
    decreases s.len(),
{
    lemma_auto_spec_u64_to_from_le_bytes();
    if s.len() > 0 {
        lemma_ints_bytes_len(s.drop_last());
    }
}

/// The integer `i` is read back from its eight bytes.
pub proof fn lemma_ints_bytes_at(s: Seq<i64>, i: int)
    requires
        0 <= i < s.len(),
    ensures
        ints_bytes(s).len() == 8 * s.len(),
        int_at(ints_bytes(s), 8 * i) == s[i],
    decreases s.len(),
{
    lemma_auto_spec_u64_to_from_le_bytes();
    lemma_ints_bytes_len(s);
    lemma_ints_bytes_len(s.drop_last());
    let prefix = ints_bytes(s.drop_last());
    let last = spec_u64_to_le_bytes(s.last() as u64);
    if i == s.len() - 1 {
        assert(ints_bytes(s).subrange(8 * i, 8 * i + 8) == last);
        let x = s.last();
        assert(((x as u64) as i64) == x) by (bit_vector);
    } else {
        lemma_ints_bytes_at(s.drop_last(), i);
        assert(ints_bytes(s).subrange(8 * i, 8 * i + 8) == prefix.subrange(8 * i, 8 * i + 8));
    }
}

/// A flag value list whose serialization parses back to it: its header
/// round-trips and is that of a flag value file, the header's file size is
/// the length of the serialization, there is one boolean per announced
/// boolean flag, and one integer per announced integer flag in version 4 and
/// none before.
pub open spec fn value_list_round_trips(l: ValueListView) -> bool {
    &&& crate::storage_file::header_round_trips(l.header)
    &&& l.header.file_type == StorageFileType::FlagVal.spec_code()
    &&& l.header.file_size == value_list_bytes(l).len()
    &&& l.booleans.len() == l.header.num_boolean
    &&& if l.header.version == 4 {
        l.ints.len() == l.header.num_int
    } else {
        l.ints.len() == 0
    }
}

/// A serialized flag value header of a readable version parses back to
/// itself.
pub proof fn lemma_value_header_round_trip(h: HeaderView)
    requires
        crate::storage_file::header_round_trips(h),
        h.file_type == StorageFileType::FlagVal.spec_code(),
    ensures
        parse_value_header(header_bytes(h)) == Ok::<HeaderView, StorageErrorView>(h),
{
    crate::storage_file::lemma_parse_header_bytes(h, Seq::empty(), not_flag_value_file_msg());
    assert(header_bytes(h) + Seq::<u8>::empty() == header_bytes(h));
}

/// A serialized flag value list parses back to itself, and the parser reads
/// nothing past the end of it.
pub proof fn lemma_value_list_round_trip(l: ValueListView)
    requires
        value_list_round_trips(l),
    ensures
        value_sections_fit(value_list_bytes(l)),
        parse_value_list(value_list_bytes(l)) == Ok::<ValueListView, StorageErrorView>(l),
{
    let h = l.header;
    let hb = header_bytes(h);
    let bb = booleans_bytes(l.booleans);
    let ib = if h.version == 4 {
        ints_bytes(l.ints)
    } else {
        Seq::<u8>::empty()
    };
    let b = value_list_bytes(l);
    assert(b == hb + (bb + ib));
    crate::storage_file::lemma_parse_header_bytes(h, bb + ib, not_flag_value_file_msg());
    lemma_ints_bytes_len(l.ints);
    let hl = hb.len() as int;
    let nb = h.num_boolean as int;
    let parsed_bools = Seq::new(h.num_boolean as nat, |i: int| b[hl + i] == 1);
    assert(parsed_bools =~= l.booleans) by {
        assert forall|i: int| 0 <= i < nb implies parsed_bools[i] == l.booleans[i] by {
            assert(b[hl + i] == bb[i]);
        }
    }
    if h.version == 4 {
        let parsed_ints = Seq::new(h.num_int as nat, |i: int| int_at(b, hl + nb + 8 * i));
        assert(parsed_ints =~= l.ints) by {
            assert forall|i: int| 0 <= i < h.num_int implies parsed_ints[i] == l.ints[i] by {
                lemma_ints_bytes_at(l.ints, i);
                assert(b.subrange(hl + nb + 8 * i, hl + nb + 8 * i + 8) == ib.subrange(
                    8 * i,
                    8 * i + 8,
                ));
            }
        }
    } else {
        assert(l.ints =~= Seq::<i64>::empty());
    }
}

/// The first four bytes of a serialized flag value list are its version.
pub proof fn lemma_value_list_version_first(l: ValueListView)
    ensures
        crate::storage_file::spec_read_u32(value_list_bytes(l), 0) == Ok::<u32, StorageErrorView>(
            l.header.version,
        ),
{
    let b = value_list_bytes(l);
    let rest = b.subrange(4, b.len() as int);
    lemma_auto_spec_u32_to_from_le_bytes();
    crate::storage_file::lemma_header_bytes_len(l.header);
    assert(b == Seq::<u8>::empty() + spec_u32_to_le_bytes(l.header.version) + rest);
    crate::storage_file::lemma_read_u32_written(Seq::empty(), l.header.version, rest);
}

} // verus!
