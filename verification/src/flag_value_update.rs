//! Writing single flag values into the bytes of a flag value file.

use vstd::bytes::*;
use vstd::prelude::*;
use vstd::string::*;

use crate::flag_value::{
    bool_byte, parse_value_header, spec_boolean_offset, spec_int_offset, FlagValueHeader,
};
use crate::flag_value_query::{
    boolean_offset_in_range, int_offset_in_range, spec_find_boolean, spec_find_int64,
};
use crate::storage_file::{
    header_bytes, lemma_parse_header_frame, result_view, AconfigStorageError, HeaderView,
    StorageErrorView, MAX_SUPPORTED_FILE_VERSION,
};
use crate::text::{decimal, push_decimal};

verus! {

/// Message of the error for a file of a version above the supported one.
pub open spec fn write_higher_version_msg(version: u32) -> Seq<char> {
    "Cannot write to storage file with a higher version of "@ + decimal(version as nat)
        + " with lib version "@ + decimal(MAX_SUPPORTED_FILE_VERSION as nat)
}

/// The header of a flag value file that may be written.
pub open spec fn spec_writable_header(b: Seq<u8>) -> Result<HeaderView, StorageErrorView> {
    match parse_value_header(b) {
        Err(e) => Err(e),
        Ok(h) => if h.version > MAX_SUPPORTED_FILE_VERSION {
            Err(StorageErrorView::HigherStorageFileVersion(write_higher_version_msg(h.version)))
        } else {
            Ok(h)
        },
    }
}

/// Where a write of boolean flag `flag_index` goes.
pub open spec fn spec_boolean_write_offset(b: Seq<u8>, flag_index: u32) -> Result<usize, StorageErrorView> {
    match spec_writable_header(b) {
        Err(e) => Err(e),
        Ok(h) => spec_boolean_offset(h, flag_index),
    }
}

/// Where a write of integer flag `flag_index` goes.
pub open spec fn spec_int_write_offset(b: Seq<u8>, flag_index: u32) -> Result<usize, StorageErrorView> {
    match spec_writable_header(b) {
        Err(e) => Err(e),
        Ok(h) => spec_int_offset(h, flag_index),
    }
}

/// The bytes of a write lie inside the buffer (writing past its end is a
/// panic of the writer).
pub open spec fn write_fits(offset: Result<usize, StorageErrorView>, width: int, len: int) -> bool {
    offset matches Ok(o) ==> o + width <= len
}

/// Set flag value. Returns the byte offset of the flag value that was
/// written.
pub fn update_boolean_flag_value(buf: &mut [u8], flag_index: u32, flag_value: bool) -> (res: Result<
    usize,
    AconfigStorageError,
>)
    requires
        boolean_offset_in_range(old(buf)@, flag_index),
        write_fits(spec_boolean_write_offset(old(buf)@, flag_index), 1, old(buf)@.len() as int),
    ensures
        result_view(res) == spec_boolean_write_offset(old(buf)@, flag_index),
        res matches Ok(o) ==> final(buf)@ == old(buf)@.update(o as int, bool_byte(flag_value)),
        res is Err ==> final(buf)@ == old(buf)@,
{
    let interpreted_header = read_header_and_check_version(buf)?;
    let head = interpreted_header.get_offset_for_boolean_flag(flag_index)?;
    let byte: u8 = if flag_value {
        1
    } else {
        0
    };
    buf[head] = byte;
    Ok(head)
}

/// The bytes after writing eight bytes `value` at `offset`.
pub open spec fn spliced(b: Seq<u8>, offset: int, value: Seq<u8>) -> Seq<u8> {
    b.take(offset) + value + b.skip(offset + value.len())
}

/// Set an integer flag value. Returns the byte offset of the flag value that
/// was written.
pub fn update_int64_flag_value(buf: &mut [u8], flag_index: u32, flag_value: i64) -> (res: Result<
    usize,
    AconfigStorageError,
>)
    requires
        int_offset_in_range(old(buf)@, flag_index),
        write_fits(spec_int_write_offset(old(buf)@, flag_index), 8, old(buf)@.len() as int),
    ensures
        result_view(res) == spec_int_write_offset(old(buf)@, flag_index),
        res matches Ok(o) ==> final(buf)@ == spliced(
            old(buf)@,
            o as int,
            spec_u64_to_le_bytes(flag_value as u64),
        ),
        res is Err ==> final(buf)@ == old(buf)@,
{
    let interpreted_header = read_header_and_check_version(buf)?;
    let head = interpreted_header.get_offset_for_int_flag(flag_index)?;
    // 8 bytes per int flag.
    let flag_value_bytes = u64_to_le_bytes(flag_value as u64);
    let ghost initial = buf@;
    let buf_len = buf.len();
    let mut k: usize = 0;
    while k < 8
        invariant
            head + 8 <= buf@.len(),
            flag_value_bytes@.len() == 8,
            buf@.len() == initial.len(),
            buf_len == buf@.len(),
            k <= 8,
            buf@ =~= initial.take(head as int) + flag_value_bytes@.take(k as int) + initial.skip(
                head + k,
            ),
        decreases 8 - k,
    {
        buf[head + k] = flag_value_bytes[k];
        k = k + 1;
    }
    assert(flag_value_bytes@.take(8) =~= flag_value_bytes@);
    Ok(head)
}

fn read_header_and_check_version(buf: &[u8]) -> (res: Result<FlagValueHeader, AconfigStorageError>)
    ensures
        result_view(res) == spec_writable_header(buf@),
{
    let interpreted_header = FlagValueHeader::from_bytes(buf)?;
    if interpreted_header.version > MAX_SUPPORTED_FILE_VERSION {
        let mut msg = String::from_str("Cannot write to storage file with a higher version of ");
        push_decimal(&mut msg, interpreted_header.version as u64);
        msg.append(" with lib version ");
        push_decimal(&mut msg, MAX_SUPPORTED_FILE_VERSION as u64);
        return Err(AconfigStorageError::HigherStorageFileVersion(msg));
    }
    Ok(interpreted_header)
}

/// A write of flag `flag_index` at `offset` that lies past the header.
pub open spec fn write_past_header(b: Seq<u8>, offset: usize) -> bool {
    parse_value_header(b) matches Ok(h) && header_bytes(h).len() <= offset
}

/// After a boolean flag is written at an offset past the header, reading
/// that flag gives the written value.
pub proof fn lemma_boolean_read_after_write(b: Seq<u8>, flag_index: u32, offset: usize, v: bool)
    requires
        spec_boolean_write_offset(b, flag_index) == Ok::<usize, StorageErrorView>(offset),
        offset < b.len(),
        write_past_header(b, offset),
    ensures
        parse_value_header(b.update(offset as int, bool_byte(v))) == parse_value_header(b),
        spec_find_boolean(b.update(offset as int, bool_byte(v)), flag_index) == Ok::<
            bool,
            StorageErrorView,
        >(v),
{
    let b2 = b.update(offset as int, bool_byte(v));
    lemma_parse_header_frame(
        b,
        b2,
        crate::storage_file::StorageFileType::FlagVal.spec_code(),
        crate::flag_value::not_flag_value_file_msg(),
    );
}

/// Writing a boolean flag past the header leaves every other boolean flag
/// as it was.
pub proof fn lemma_boolean_write_keeps_others(
    b: Seq<u8>,
    flag_index: u32,
    offset: usize,
    v: bool,
    other: u32,
)
    requires
        spec_boolean_write_offset(b, flag_index) == Ok::<usize, StorageErrorView>(offset),
        offset < b.len(),
        write_past_header(b, offset),
        other != flag_index,
    ensures
        parse_value_header(b.update(offset as int, bool_byte(v))) == parse_value_header(b),
        spec_find_boolean(b.update(offset as int, bool_byte(v)), other) == spec_find_boolean(
            b,
            other,
        ),
{
    let b2 = b.update(offset as int, bool_byte(v));
    lemma_parse_header_frame(
        b,
        b2,
        crate::storage_file::StorageFileType::FlagVal.spec_code(),
        crate::flag_value::not_flag_value_file_msg(),
    );
}

/// After an integer flag is written at an offset past the header, reading
/// that flag gives the written value.
pub proof fn lemma_int_read_after_write(b: Seq<u8>, flag_index: u32, offset: usize, v: i64)
    requires
        spec_int_write_offset(b, flag_index) == Ok::<usize, StorageErrorView>(offset),
        offset + 8 <= b.len(),
        write_past_header(b, offset),
    ensures
        parse_value_header(spliced(b, offset as int, spec_u64_to_le_bytes(v as u64)))
            == parse_value_header(b),
        spec_find_int64(spliced(b, offset as int, spec_u64_to_le_bytes(v as u64)), flag_index)
            == Ok::<i64, StorageErrorView>(v),
{
    lemma_auto_spec_u64_to_from_le_bytes();
    let w = spec_u64_to_le_bytes(v as u64);
    let b2 = spliced(b, offset as int, w);
    assert(b2.len() == b.len());
    assert forall|i: int| 0 <= i < offset implies #[trigger] b2[i] == b[i] by {}
    lemma_parse_header_frame(
        b,
        b2,
        crate::storage_file::StorageFileType::FlagVal.spec_code(),
        crate::flag_value::not_flag_value_file_msg(),
    );
    assert(b2.subrange(offset as int, offset + 8) == w);
    assert(((v as u64) as i64) == v) by (bit_vector);
}

/// Writing an integer flag past the header leaves every other integer flag
/// as it was.
pub proof fn lemma_int_write_keeps_others(
    b: Seq<u8>,
    flag_index: u32,
    offset: usize,
    v: i64,
    other: u32,
)
    requires
        spec_int_write_offset(b, flag_index) == Ok::<usize, StorageErrorView>(offset),
        offset + 8 <= b.len(),
        write_past_header(b, offset),
        other != flag_index,
    ensures
        parse_value_header(spliced(b, offset as int, spec_u64_to_le_bytes(v as u64)))
            == parse_value_header(b),
        spec_find_int64(spliced(b, offset as int, spec_u64_to_le_bytes(v as u64)), other)
            == spec_find_int64(b, other),
{
    lemma_auto_spec_u64_to_from_le_bytes();
    let w = spec_u64_to_le_bytes(v as u64);
    let b2 = spliced(b, offset as int, w);
    assert(b2.len() == b.len());
    assert forall|i: int| 0 <= i < offset implies #[trigger] b2[i] == b[i] by {}
    lemma_parse_header_frame(
        b,
        b2,
        crate::storage_file::StorageFileType::FlagVal.spec_code(),
        crate::flag_value::not_flag_value_file_msg(),
    );
    if let Ok(h) = parse_value_header(b) {
        if let Ok(o) = spec_int_offset(h, other) {
            let o = o as int;
            assert(offset == h.int_offset + flag_index * 8);
            assert(o == h.int_offset + other * 8);
            if other < flag_index {
                assert(o + 8 <= offset) by (nonlinear_arith)
                    requires
                        other < flag_index,
                        o == h.int_offset + other * 8,
                        offset == h.int_offset + flag_index * 8,
                ;
            } else {
                assert(o >= offset + 8) by (nonlinear_arith)
                    requires
                        other > flag_index,
                        o == h.int_offset + other * 8,
                        offset == h.int_offset + flag_index * 8,
                ;
            }
            if o + 8 <= b.len() {
                assert(b2.subrange(o, o + 8) =~= b.subrange(o, o + 8));
            }
        }
    }
}

} // verus!
