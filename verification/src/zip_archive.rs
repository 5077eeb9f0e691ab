//! Reading the entry names of a zip archive through the `zip` crate.

use vstd::prelude::*;

verus! {

#[verifier::external_type_specification]
#[verifier::external_body]
pub struct ExZipError(zip::result::ZipError);

/// The names of the entries of the zip archive held in the bytes, in the
/// order of its central directory, or `None` where the bytes are no
/// readable archive.
pub uninterp spec fn zip_entry_names(archive: Seq<u8>) -> Option<Seq<Seq<char>>>;

/// `zip::ZipArchive::new` on the bytes, then `ZipArchive::file_names`: the
/// entry names (see [`zip_entry_names`]), which are distinct since the
/// archive keys its entries by name; an error where the bytes are no
/// readable archive.
#[verifier::external_body]
pub(crate) fn file_names(archive: &[u8]) -> (res: Result<Vec<String>, zip::result::ZipError>)
    ensures
        match zip_entry_names(archive@) {
            None => res is Err,
            Some(names) => res matches Ok(v) && v@.map_values(|s: String| s@) == names,
        },
        res matches Ok(v) ==> forall|i: int, j: int|
            0 <= i < j < v@.len() ==> v@[i]@ != v@[j]@,
{
    let archive = zip::ZipArchive::new(std::io::Cursor::new(archive))?;
    Ok(archive.file_names().map(|s| s.to_string()).collect())
}

} // verus!
