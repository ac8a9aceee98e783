//! The archive reader that this library drives, and what it takes on trust
//! about it.
//!
//! The reader is the `zip` crate, on a `std::io::Cursor` over the archive's
//! bytes. Its types are declared here, and the three functions that call it
//! have contracts that are believed, not proved. What the reader makes of an
//! archive depends on the archive's bytes, the entry's index and the key
//! alone, so each result has a name here, and the rest of the library is
//! verified against those names. Nothing is said of what the names are on
//! given bytes: that is the reader's work.

use crate::error::Error;
use std::io::{Cursor, Read};
use vstd::prelude::*;
use zip::result::ZipError;
use zip::ZipArchive;

verus! {

/// `std::io::Cursor`, the position that an archive keeps in its bytes.
#[verifier::external_type_specification]
#[verifier::external_body]
#[verifier::reject_recursive_types(T)]
pub struct ExCursor<T>(Cursor<T>);

/// `zip::ZipArchive`, an open archive.
#[verifier::external_type_specification]
#[verifier::external_body]
#[verifier::reject_recursive_types(R)]
pub struct ExZipArchive<R>(ZipArchive<R>);

/// `zip::result::ZipError`, the reader's error.
#[verifier::external_type_specification]
#[verifier::external_body]
pub struct ExZipError(ZipError);

/// `std::io::Error`, the error of a read that failed.
#[verifier::external_type_specification]
#[verifier::external_body]
pub struct ExIoError(std::io::Error);

/// The bytes that an open archive reads from.
pub uninterp spec fn archive_source(archive: ZipArchive<Cursor<&[u8]>>) -> Seq<u8>;

/// Whether the reader accepts the bytes as an archive: whether
/// `ZipArchive::new` returns an archive for them.
pub uninterp spec fn archive_parses(bytes: Seq<u8>) -> bool;

/// The number of entries that the reader finds in the bytes: what
/// `ZipArchive::len` returns.
pub uninterp spec fn entry_count(bytes: Seq<u8>) -> nat;

/// What the reader makes of entry `index` under `key`: its name and its
/// decoded bytes, or nothing where the entry does not open under the key, its
/// data does not decode to the end, or its name cannot be read.
pub uninterp spec fn entry_decoded(bytes: Seq<u8>, index: nat, key: Seq<u8>) -> Option<
    (Seq<char>, Seq<u8>),
>;

/// Opens an archive over `bytes` with `zip::ZipArchive::new`, on a
/// `std::io::Cursor` that starts at the first byte.
///
/// Taken on trust: whether the reader accepts the bytes depends on the bytes
/// alone, and the archive that comes back reads from these bytes.
#[verifier::external_body]
pub(crate) fn open_archive<'a>(bytes: &'a [u8]) -> (opened: Result<
    ZipArchive<Cursor<&'a [u8]>>,
    ZipError,
>)
    ensures
        opened is Ok <==> archive_parses(bytes@),
        opened matches Ok(archive) ==> archive_source(archive) == bytes@,
{
    ZipArchive::new(Cursor::new(bytes))
}

/// The number of entries of an open archive, from `zip::ZipArchive::len`.
///
/// Taken on trust: the number depends on the archive's bytes alone.
#[verifier::external_body]
pub(crate) fn archive_len(archive: &ZipArchive<Cursor<&[u8]>>) -> (n: usize)
    ensures
        n == entry_count(archive_source(*archive)),
{
    archive.len()
}

/// Decodes one entry under `key`: opens it with
/// `zip::ZipArchive::by_index_decrypt`, reads it to its end with the entry's
/// `read_to_end`, and takes its name from `zip::read::ZipFile::name`. The
/// open entry borrows the archive and is a `std::io::Read`, which verified
/// code cannot hold, so the three calls stand together here.
///
/// Taken on trust: the archive still reads from the same bytes afterwards;
/// whether all three steps succeed, and the name and bytes that they give,
/// depend on the archive's bytes, the index and the key alone; and a failure
/// comes back as the reader's own error, never as `CannotDecrypt`.
#[verifier::external_body]
pub(crate) fn read_entry(archive: &mut ZipArchive<Cursor<&[u8]>>, index: usize, key: &[u8]) -> (entry:
    Result<(String, Vec<u8>), Error>)
    ensures
        archive_source(*final(archive)) == archive_source(*old(archive)),
        entry is Ok <==> entry_decoded(archive_source(*old(archive)), index as nat, key@) is Some,
        entry matches Ok(found) ==> entry_decoded(
            archive_source(*old(archive)),
            index as nat,
            key@,
        ) == Some((found.0@, found.1@)),
        entry matches Err(reason) ==> !(reason is CannotDecrypt),
{
    let mut file = archive.by_index_decrypt(index, key).map_err(Error::Zip)?;
    let mut buffer = Vec::new();
    file.read_to_end(&mut buffer).map_err(Error::Io)?;
    let name = file.name().map_err(Error::Zip)?.into_owned();
    Ok((name, buffer))
}

/// Counts the entries of an archive. No password is needed, since no entry
/// is opened.
pub fn get_total_files(zip_file: &[u8]) -> (total: Result<usize, Error>)
    ensures
        archive_parses(zip_file@) ==> (total matches Ok(n) && n == entry_count(zip_file@)),
        !archive_parses(zip_file@) ==> total matches Err(Error::Zip(_)),
{
    match open_archive(zip_file) {
        Ok(archive) => Ok(archive_len(&archive)),
        Err(reason) => Err(Error::Zip(reason)),
    }
}

} // verus!
