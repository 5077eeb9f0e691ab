//! Reading single flag values out of the bytes of a flag value file.

use vstd::prelude::*;
use vstd::string::*;

use crate::flag_value::{
    booleans_bytes, ints_bytes, lemma_ints_bytes_at, lemma_ints_bytes_len,
    lemma_value_list_round_trip, parse_value_header, spec_boolean_offset, spec_int_offset,
    value_list_bytes, value_list_round_trips, FlagValueHeader, ValueListView,
};
use crate::storage_file::{
    header_bytes, read_i64_from_bytes, read_u8_from_bytes, result_view, spec_read_i64,
    spec_read_u8, AconfigStorageError, HeaderView, StorageErrorView, MAX_SUPPORTED_FILE_VERSION,
};
use crate::text::{decimal, push_decimal};

verus! {

/// Message of the error for a file of a version above the supported one.
pub open spec fn read_higher_version_msg(version: u32) -> Seq<char> {
    "Cannot read storage file with a higher version of "@ + decimal(version as nat)
        + " with lib version "@ + decimal(MAX_SUPPORTED_FILE_VERSION as nat)
}

/// The header of a flag value file that may be read.
pub open spec fn spec_readable_header(b: Seq<u8>) -> Result<HeaderView, StorageErrorView> {
    match parse_value_header(b) {
        Err(e) => Err(e),
        Ok(h) => if h.version > MAX_SUPPORTED_FILE_VERSION {
            Err(StorageErrorView::HigherStorageFileVersion(read_higher_version_msg(h.version)))
        } else {
            Ok(h)
        },
    }
}

/// The offset of boolean flag `flag_index` in a readable file can be
/// computed without overflow.
pub open spec fn boolean_offset_in_range(b: Seq<u8>, flag_index: u32) -> bool {
    match parse_value_header(b) {
        Ok(h) => h.version <= MAX_SUPPORTED_FILE_VERSION ==> h.boolean_offset + flag_index
            <= u32::MAX,
        Err(_) => true,
    }
}

/// The offset of integer flag `flag_index` in a readable file of a version
/// with integer flags can be computed without overflow.
pub open spec fn int_offset_in_range(b: Seq<u8>, flag_index: u32) -> bool {
    match parse_value_header(b) {
        Ok(h) => 4 <= h.version <= MAX_SUPPORTED_FILE_VERSION ==> {
            &&& flag_index * 8 <= u32::MAX
            &&& h.int_offset + flag_index * 8 <= u32::MAX
        },
        Err(_) => true,
    }
}

/// The value of boolean flag `flag_index`: the byte at its offset, true when
/// it is 1.
pub open spec fn spec_find_boolean(b: Seq<u8>, flag_index: u32) -> Result<bool, StorageErrorView> {
    match spec_readable_header(b) {
        Err(e) => Err(e),
        Ok(h) => match spec_boolean_offset(h, flag_index) {
            Err(e) => Err(e),
            Ok(offset) => match spec_read_u8(b, offset as int) {
                Err(e) => Err(e),
                Ok(v) => Ok(v == 1),
            },
        },
    }
}

/// The value of integer flag `flag_index`: the little-endian `i64` at its
/// offset.
pub open spec fn spec_find_int64(b: Seq<u8>, flag_index: u32) -> Result<i64, StorageErrorView> {
    match spec_readable_header(b) {
        Err(e) => Err(e),
        Ok(h) => match spec_int_offset(h, flag_index) {
            Err(e) => Err(e),
            Ok(offset) => spec_read_i64(b, offset as int),
        },
    }
}

/// Query flag value
pub fn find_boolean_flag_value(buf: &[u8], flag_index: u32) -> (res: Result<bool, AconfigStorageError>)
    requires
        boolean_offset_in_range(buf@, flag_index),
    ensures
        result_view(res) == spec_find_boolean(buf@, flag_index),
{
    let interpreted_header = read_header_and_check_version(buf)?;
    let mut head = interpreted_header.get_offset_for_boolean_flag(flag_index)?;
    let val = read_u8_from_bytes(buf, &mut head)?;
    Ok(val == 1)
}

/// Query an integer flag value.
pub fn find_int64_flag_value(buf: &[u8], flag_index: u32) -> (res: Result<i64, AconfigStorageError>)
    requires
        int_offset_in_range(buf@, flag_index),
    ensures
        result_view(res) == spec_find_int64(buf@, flag_index),
{
    let interpreted_header = read_header_and_check_version(buf)?;
    let mut head = interpreted_header.get_offset_for_int_flag(flag_index)?;
    let val = read_i64_from_bytes(buf, &mut head)?;
    Ok(val)
}

fn read_header_and_check_version(buf: &[u8]) -> (res: Result<FlagValueHeader, AconfigStorageError>)
    ensures
        result_view(res) == spec_readable_header(buf@),
{
    let interpreted_header = FlagValueHeader::from_bytes(buf)?;
    if interpreted_header.version > MAX_SUPPORTED_FILE_VERSION {
        let mut msg = String::from_str("Cannot read storage file with a higher version of ");
        push_decimal(&mut msg, interpreted_header.version as u64);
        msg.append(" with lib version ");
        push_decimal(&mut msg, MAX_SUPPORTED_FILE_VERSION as u64);
        return Err(AconfigStorageError::HigherStorageFileVersion(msg));
    }
    Ok(interpreted_header)
}

/// A flag value list laid out as the writer lays it out: it round-trips, its
/// boolean section starts right after the header and, in version 4, its
/// integer section right after the booleans.
pub open spec fn value_list_laid_out(l: ValueListView) -> bool {
    &&& value_list_round_trips(l)
    &&& l.header.boolean_offset == header_bytes(l.header).len()
    &&& l.header.version == 4 ==> l.header.int_offset == header_bytes(l.header).len()
        + l.header.num_boolean
}

/// Querying a boolean flag of a serialized flag value list gives its value;
/// querying past the last boolean flag is an offset error.
pub proof fn lemma_query_serialized_boolean(l: ValueListView, flag_index: u32)
    requires
        value_list_laid_out(l),
    ensures
        flag_index < l.booleans.len() ==> spec_find_boolean(value_list_bytes(l), flag_index)
            == Ok::<bool, StorageErrorView>(l.booleans[flag_index as int]),
        flag_index >= l.booleans.len() ==> spec_find_boolean(value_list_bytes(l), flag_index) is Err,
{
    lemma_value_list_round_trip(l);
    lemma_ints_bytes_len(l.ints);
    let b = value_list_bytes(l);
    let hl = header_bytes(l.header).len() as int;
    if flag_index < l.booleans.len() {
        assert(b[hl + flag_index] == booleans_bytes(l.booleans)[flag_index as int]);
    }
}

/// Querying an integer flag of a serialized version 4 flag value list gives
/// its value; querying past the last integer flag is an offset error.
pub proof fn lemma_query_serialized_int(l: ValueListView, flag_index: u32)
    requires
        value_list_laid_out(l),
        l.header.version == 4,
    ensures
        flag_index < l.ints.len() ==> spec_find_int64(value_list_bytes(l), flag_index) == Ok::<
            i64,
            StorageErrorView,
        >(l.ints[flag_index as int]),
        flag_index >= l.ints.len() ==> spec_find_int64(value_list_bytes(l), flag_index) is Err,
{
    lemma_value_list_round_trip(l);
    lemma_ints_bytes_len(l.ints);
    let b = value_list_bytes(l);
    let hl = header_bytes(l.header).len() as int;
    let nb = l.booleans.len() as int;
    let ib = ints_bytes(l.ints);
    if flag_index < l.ints.len() {
        lemma_ints_bytes_at(l.ints, flag_index as int);
        let p = hl + nb + 8 * flag_index;
        assert(b == header_bytes(l.header) + booleans_bytes(l.booleans) + ib);
        assert(b.subrange(p, p + 8) == ib.subrange(8 * flag_index, 8 * flag_index + 8));
    }
}

} // verus!
