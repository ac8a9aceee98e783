//! Recovers the contents of a password-protected zip archive by trying a list
//! of candidate passwords against it.
//!
//! A password solves an archive only if every entry decodes under it. The
//! passwords are tried in ascending order of their bytes, the empty password
//! first, and the first one that solves the archive gives the result.
//!
//! [`from_zipfile`] runs the trials one after the other. A caller that runs
//! them side by side takes the trial set from [`normalize_passwords`], runs
//! [`try_password`] for each password on a task of its own, and hands each
//! outcome to a [`Race`] as it comes in: the first success that is reported
//! wins.

use std::borrow::Cow;
use std::borrow::ToOwned;
use vstd::prelude::*;

pub mod archive;
pub mod candidates;
pub mod dispatch;
pub mod error;
pub mod order;
pub mod worker;

pub use archive::get_total_files;
pub use candidates::normalize_passwords;
pub use dispatch::{from_zipfile, Race};
pub use error::Error;
pub use worker::{collect_entry, extracted_file, try_password};

verus! {

/// `Clone` for `std::borrow::Cow`, which the derived `Clone` of
/// [`ZipFileContents`] calls. Nothing is claimed of the copy.
pub assume_specification<'a, B: ?Sized + ToOwned>[ <Cow<'a, B> as Clone>::clone ](
    c: &Cow<'a, B>,
) -> Cow<'a, B>;

/// What a [`ZipFileContents`] holds, as plain values.
pub struct ExtractedFile {
    pub filename: Seq<char>,
    pub buffer: Seq<u8>,
    pub zip_password: Option<Seq<char>>,
}

/// One file taken out of an archive.
#[derive(Debug, Clone)]
pub struct ZipFileContents<'a> {
    /// filename
    pub filename: Cow<'a, str>,
    /// file buffer
    pub buffer: Vec<u8>,
    /// Zip password if any/identified
    pub zip_password: Option<Cow<'a, str>>,
}

impl<'a> View for ZipFileContents<'a> {
    type V = ExtractedFile;

    open spec fn view(&self) -> ExtractedFile {
        ExtractedFile {
            filename: self.filename@,
            buffer: self.buffer@,
            zip_password: match self.zip_password {
                Some(password) => Some(password@),
                None => None,
            },
        }
    }
}

impl<'a> DeepView for ZipFileContents<'a> {
    type V = ExtractedFile;

    open spec fn deep_view(&self) -> ExtractedFile {
        self@
    }
}

impl<'a> Default for ZipFileContents<'a> {
    /// A file without a name, without bytes and without a password.
    fn default() -> (file: Self)
        ensures
            file@ == (ExtractedFile {
                filename: Seq::empty(),
                buffer: Seq::empty(),
                zip_password: None,
            }),
    {
        ZipFileContents { filename: Cow::Owned(String::new()), buffer: Vec::new(), zip_password: None }
    }
}

} // verus!
