//! One trial: everything that an archive holds, decoded under one password.

use crate::archive::{
    archive_len, archive_parses, archive_source, entry_count, entry_decoded, open_archive,
    read_entry,
};
use crate::error::Error;
use crate::{ExtractedFile, ZipFileContents};
use std::borrow::Cow;
use vstd::prelude::*;
use vstd::utf8::*;

verus! {

/// Whether `password` solves the archive: every entry decodes under it.
pub open spec fn unlocks(bytes: Seq<u8>, password: Seq<char>) -> bool {
    forall|index: nat|
        index < entry_count(bytes) ==> (#[trigger] entry_decoded(
            bytes,
            index,
            encode_utf8(password),
        )) is Some
}

/// What a file records of the password that decoded it: nothing for the empty
/// password, else the password.
pub open spec fn recorded_password(password: Seq<char>) -> Option<Seq<char>> {
    if password.len() == 0 {
        None
    } else {
        Some(password)
    }
}

/// The file that entry `index` gives under `password`.
pub open spec fn extracted_entry(bytes: Seq<u8>, index: nat, password: Seq<char>) -> ExtractedFile {
    let found = entry_decoded(bytes, index, encode_utf8(password))->0;
    ExtractedFile {
        filename: found.0,
        buffer: found.1,
        zip_password: recorded_password(password),
    }
}

/// The files that the archive gives under `password`: one for each entry, in
/// the order of the entries.
pub open spec fn extraction(bytes: Seq<u8>, password: Seq<char>) -> Seq<ExtractedFile> {
    Seq::new(entry_count(bytes), |index: int| extracted_entry(bytes, index as nat, password))
}

/// What a trial of `password` on the archive `bytes` returns.
///
/// Bytes that are no archive give the reader's error. Else a password that
/// solves the archive gives its files, and one that does not gives the error
/// of the entry that failed, which is never `CannotDecrypt`.
pub open spec fn trial_returns(
    bytes: Seq<u8>,
    password: Seq<char>,
    outcome: Result<Vec<ZipFileContents<'static>>, Error>,
) -> bool {
    if !archive_parses(bytes) {
        outcome matches Err(Error::Zip(_))
    } else if unlocks(bytes, password) {
        outcome matches Ok(files) && files.deep_view() == extraction(bytes, password)
    } else {
        outcome matches Err(reason) && !(reason is CannotDecrypt)
    }
}

/// The file that a decoded entry gives: its name and its bytes as the reader
/// returned them, and the password that decoded it, unless that is the empty
/// one.
pub fn extracted_file(name: String, buffer: Vec<u8>, password: &str) -> (file: ZipFileContents<
    'static,
>)
    ensures
        file@ == (ExtractedFile {
            filename: name@,
            buffer: buffer@,
            zip_password: recorded_password(password@),
        }),
{
    let zip_password = if password.is_empty() {
        None
    } else {
        Some(Cow::Owned(password.to_owned()))
    };
    ZipFileContents { filename: Cow::Owned(name), buffer, zip_password }
}

/// Takes what the reader made of the next entry into the files of a trial.
///
/// A decoded entry adds its file to the end. A failed one ends the trial: its
/// error comes back, and the files decoded before it are dropped.
pub fn collect_entry(
    files: Vec<ZipFileContents<'static>>,
    entry: Result<(String, Vec<u8>), Error>,
    password: &str,
) -> (collected: Result<Vec<ZipFileContents<'static>>, Error>)
    ensures
        match entry {
            Ok(found) => collected matches Ok(longer) && longer.deep_view()
                == files.deep_view().push(
                ExtractedFile {
                    filename: found.0@,
                    buffer: found.1@,
                    zip_password: recorded_password(password@),
                },
            ),
            Err(reason) => collected == Err::<Vec<ZipFileContents<'static>>, Error>(reason),
        },
{
    match entry {
        Ok((name, buffer)) => {
            let mut files = files;
            let ghost before = files.deep_view();
            let file = extracted_file(name, buffer, password);
            files.push(file);
            assert(files.deep_view() =~= before.push(file@));
            Ok(files)
        },
        Err(reason) => Err(reason),
    }
}

/// Tries one password on the archive: opens a handle of its own on the bytes
/// and decodes the entries in ascending order of their index, under the bytes
/// of the password.
///
/// The first entry that fails ends the trial with the reader's error, and the
/// files decoded so far are dropped. An archive without entries gives an empty
/// result under every password.
pub fn try_password(zip_file: &[u8], password: &str) -> (outcome: Result<
    Vec<ZipFileContents<'static>>,
    Error,
>)
    ensures
        trial_returns(zip_file@, password@, outcome),
{
    let mut archive = match open_archive(zip_file) {
        Ok(archive) => archive,
        Err(reason) => {
            return Err(Error::Zip(reason));
        },
    };
    let total = archive_len(&archive);
    let key = password.as_bytes();
    let mut files: Vec<ZipFileContents<'static>> = Vec::new();
    let mut index: usize = 0;
    assert(files.deep_view() =~= extraction(zip_file@, password@).take(0));
    while index < total
        invariant
            archive_parses(zip_file@),
            archive_source(archive) == zip_file@,
            total == entry_count(zip_file@),
            key@ == encode_utf8(password@),
            index <= total,
            forall|i: nat| i < index ==> (#[trigger] entry_decoded(zip_file@, i, key@)) is Some,
            files.deep_view() == extraction(zip_file@, password@).take(index as int),
        decreases total - index,
    {
        let entry = read_entry(&mut archive, index, key);
        files = match collect_entry(files, entry, password) {
            Ok(longer) => longer,
            Err(reason) => {
                assert(entry_decoded(zip_file@, index as nat, encode_utf8(password@)) is None);
                return Err(reason);
            },
        };
        assert(files.deep_view() =~= extraction(zip_file@, password@).take(index + 1));
        index = index + 1;
    }
    assert(extraction(zip_file@, password@).take(index as int) =~= extraction(
        zip_file@,
        password@,
    ));
    Ok(files)
}

/// A password under which one entry fails is discarded, however many entries
/// decode under it: its trial ends in an error, and no file of it comes back.
pub proof fn lemma_failed_entry_fails_trial(
    bytes: Seq<u8>,
    password: Seq<char>,
    index: nat,
    outcome: Result<Vec<ZipFileContents<'static>>, Error>,
)
    requires
        trial_returns(bytes, password, outcome),
        index < entry_count(bytes),
        entry_decoded(bytes, index, encode_utf8(password)) is None,
    ensures
        !unlocks(bytes, password),
        outcome is Err,
{
}

/// A trial that succeeds gives one file for each entry of the archive, in the
/// order of the entries, and each file records the password of the trial:
/// none if that is the empty one.
pub proof fn lemma_success_is_complete(
    bytes: Seq<u8>,
    password: Seq<char>,
    outcome: Result<Vec<ZipFileContents<'static>>, Error>,
)
    requires
        trial_returns(bytes, password, outcome),
        outcome is Ok,
    ensures
        archive_parses(bytes),
        unlocks(bytes, password),
        outcome->Ok_0.len() == entry_count(bytes),
        forall|i: int|
            0 <= i < entry_count(bytes) ==> (#[trigger] outcome->Ok_0[i])@ == extracted_entry(
                bytes,
                i as nat,
                password,
            ),
        forall|i: int|
            0 <= i < entry_count(bytes) ==> (#[trigger] outcome->Ok_0[i])@.zip_password
                == recorded_password(password),
{
    let files = outcome->Ok_0;
    assert(files.deep_view().len() == entry_count(bytes));
    assert forall|i: int| 0 <= i < entry_count(bytes) implies (#[trigger] files[i])@
        == extracted_entry(bytes, i as nat, password) by {
        assert(files.deep_view()[i] == files[i]@);
    }
}

/// An archive without entries is solved by every password, and gives no
/// files.
pub proof fn lemma_empty_archive(bytes: Seq<u8>, password: Seq<char>)
    requires
        entry_count(bytes) == 0,
    ensures
        unlocks(bytes, password),
        extraction(bytes, password) == Seq::<ExtractedFile>::empty(),
{
    assert(extraction(bytes, password) =~= Seq::<ExtractedFile>::empty());
}

} // verus!
