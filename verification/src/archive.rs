//! Reading of compressed containers, done by the zip crate.

use vstd::prelude::*;
use std::io::Read;

verus! {

/// A container opened for reading.
#[verifier::external_type_specification]
#[verifier::external_body]
#[verifier::reject_recursive_types(R)]
pub struct ExZipArchive<R>(zip::ZipArchive<R>);

/// An in-memory reader.
#[verifier::external_type_specification]
#[verifier::external_body]
#[verifier::reject_recursive_types(T)]
pub struct ExCursor<T>(std::io::Cursor<T>);

/// The error type of the zip crate.
#[verifier::external_type_specification]
#[verifier::external_body]
pub struct ExZipError(zip::result::ZipError);

/// The entries of the container held in `bytes`, in the order of its
/// directory: for each the name and the expanded content, or `None` where
/// the entry cannot be read. `None` where the bytes are no container that
/// the zip crate can open.
pub uninterp spec fn container_entries(bytes: Seq<u8>) -> Option<
    Seq<Option<(Seq<char>, Seq<u8>)>>,
>;

/// The entries of an opened container.
pub uninterp spec fn opened_entries(archive: zip::ZipArchive<std::io::Cursor<&[u8]>>) -> Seq<
    Option<(Seq<char>, Seq<u8>)>,
>;

/// Opens the container held in `bytes`.
///
/// Wraps `zip::ZipArchive::new` over a `std::io::Cursor`. Whether the bytes
/// can be opened, and what the container then holds, depends on the bytes
/// alone; both are only named.
#[verifier::external_body]
pub(crate) fn open_container<'a>(bytes: &'a [u8]) -> (r: Result<
    zip::ZipArchive<std::io::Cursor<&'a [u8]>>,
    zip::result::ZipError,
>)
    ensures
        r is Ok <==> container_entries(bytes@) is Some,
        r matches Ok(archive) ==> Some(opened_entries(archive)) == container_entries(bytes@),
{
    zip::ZipArchive::new(std::io::Cursor::new(bytes))
}

/// The number of entries of an opened container.
///
/// Wraps `zip::ZipArchive::len`.
#[verifier::external_body]
pub(crate) fn entry_count(archive: &zip::ZipArchive<std::io::Cursor<&[u8]>>) -> (n: usize)
    ensures
        n == opened_entries(*archive).len(),
{
    archive.len()
}

/// Reads the name and the expanded content of one entry.
///
/// Wraps `zip::ZipArchive::by_index`, `zip::read::ZipFile::name` and
/// `std::io::Read::read_to_end`. Reading moves the reader inside the
/// container but leaves what the container holds as it was. An index past
/// the last entry is answered with an error by the crate; it is excluded
/// here so that every index stands for an entry.
#[verifier::external_body]
pub(crate) fn read_entry(archive: &mut zip::ZipArchive<std::io::Cursor<&[u8]>>, index: usize) -> (r:
    Result<(String, Vec<u8>), zip::result::ZipError>)
    requires
        index < opened_entries(*old(archive)).len(),
    ensures
        opened_entries(*final(archive)) == opened_entries(*old(archive)),
        r is Ok <==> opened_entries(*old(archive))[index as int] is Some,
        r matches Ok(entry) ==> Some((entry.0@, entry.1@)) == opened_entries(*old(archive))[index as int],
{
    let mut file = archive.by_index(index)?;
    let name = file.name()?.into_owned();
    let mut data = Vec::new();
    file.read_to_end(&mut data)?;
    Ok((name, data))
}

/// The message of an error of the zip crate.
///
/// Wraps the `Display` implementation of `ZipError`; nothing is claimed of
/// the text.
#[verifier::external_body]
pub(crate) fn zip_error_text(e: &zip::result::ZipError) -> (text: String) {
    e.to_string()
}

} // verus!
