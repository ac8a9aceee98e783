use std::borrow::Cow;
use std::io::{Cursor, Write};
use xtract::{
    collect_entry, extracted_file, from_zipfile, get_total_files, try_password, Error, Race,
    ZipFileContents,
};
use zip::unstable::write::FileOptionsExt;
use zip::write::SimpleFileOptions;
use zip::{AesMode, CompressionMethod, ZipWriter};

/// How an entry of a test archive is protected.
#[derive(Clone, Copy)]
enum Lock<'a> {
    Open,
    Aes(&'a str),
    Legacy(&'a str),
}

fn archive_of(entries: &[(&str, &[u8], Lock)]) -> Vec<u8> {
    let mut writer = ZipWriter::new(Cursor::new(Vec::new()));
    for (name, data, lock) in entries {
        let options = SimpleFileOptions::default();
        match *lock {
            Lock::Open => writer.start_file(*name, options).unwrap(),
            Lock::Aes(password) => writer
                .start_file(*name, options.with_aes_encryption(AesMode::Aes256, password))
                .unwrap(),
            Lock::Legacy(password) => writer
                .start_file(
                    *name,
                    options.with_deprecated_encryption(password.as_bytes()).unwrap(),
                )
                .unwrap(),
        }
        writer.write_all(data).unwrap();
    }
    writer.finish().unwrap().into_inner()
}

fn secret_archive() -> Vec<u8> {
    archive_of(&[("secret.txt", b"hello", Lock::Aes("swordfish"))])
}

fn texts(list: &[&str]) -> Vec<String> {
    list.iter().map(|s| s.to_string()).collect()
}

fn summary(files: &[ZipFileContents]) -> Vec<(String, Vec<u8>, Option<String>)> {
    files
        .iter()
        .map(|f| {
            (
                f.filename.to_string(),
                f.buffer.clone(),
                f.zip_password.as_ref().map(|p| p.to_string()),
            )
        })
        .collect()
}

#[test]
fn right_password_among_wrong_ones_extracts_the_entry() {
    let archive = secret_archive();
    let files =
        from_zipfile(&archive, Some(texts(&["wrong1", "swordfish", "wrong2"]))).unwrap();
    assert_eq!(
        summary(&files),
        vec![("secret.txt".to_string(), b"hello".to_vec(), Some("swordfish".to_string()))]
    );
}

#[test]
fn wrong_passwords_alone_cannot_decrypt() {
    let archive = secret_archive();
    let result = from_zipfile(&archive, Some(texts(&["wrong1", "wrong2"])));
    assert!(matches!(result, Err(Error::CannotDecrypt)));
}

#[test]
fn encrypted_archive_without_a_list_cannot_decrypt() {
    let archive = secret_archive();
    assert!(matches!(from_zipfile(&archive, None), Err(Error::CannotDecrypt)));
}

#[test]
fn legacy_encryption_is_solved_by_the_right_password() {
    let archive = archive_of(&[
        ("a.txt", b"first entry", Lock::Legacy("swordfish")),
        ("b.txt", b"second entry, a little longer than the first", Lock::Legacy("swordfish")),
    ]);
    let files = from_zipfile(&archive, Some(texts(&["wrong1", "swordfish", "wrong2"]))).unwrap();
    assert_eq!(
        summary(&files),
        vec![
            ("a.txt".to_string(), b"first entry".to_vec(), Some("swordfish".to_string())),
            (
                "b.txt".to_string(),
                b"second entry, a little longer than the first".to_vec(),
                Some("swordfish".to_string())
            ),
        ]
    );
    let result = from_zipfile(&archive, Some(texts(&["wrong1", "wrong2", "Swordfish"])));
    assert!(matches!(result, Err(Error::CannotDecrypt)));
}

#[test]
fn unencrypted_archive_without_a_list_gives_every_entry() {
    let archive = archive_of(&[
        ("one.txt", b"1", Lock::Open),
        ("dir/two.bin", &[0, 1, 2, 3, 255], Lock::Open),
        ("three", b"", Lock::Open),
    ]);
    let files = from_zipfile(&archive, None).unwrap();
    assert_eq!(
        summary(&files),
        vec![
            ("one.txt".to_string(), b"1".to_vec(), None),
            ("dir/two.bin".to_string(), vec![0, 1, 2, 3, 255], None),
            ("three".to_string(), Vec::new(), None),
        ]
    );
}

#[test]
fn unencrypted_archive_is_won_by_the_sentinel() {
    let archive = archive_of(&[("plain.txt", b"not a secret", Lock::Open)]);
    let files = from_zipfile(&archive, Some(texts(&["b", "a"]))).unwrap();
    assert_eq!(summary(&files), vec![("plain.txt".to_string(), b"not a secret".to_vec(), None)]);
}

#[test]
fn every_file_records_the_winning_password() {
    let archive = archive_of(&[
        ("a", b"alpha", Lock::Aes("p4ss")),
        ("b", b"beta", Lock::Aes("p4ss")),
        ("c", b"gamma", Lock::Aes("p4ss")),
    ]);
    let files = from_zipfile(&archive, Some(texts(&["p4ss"]))).unwrap();
    assert_eq!(files.len(), 3);
    for file in &files {
        assert_eq!(file.zip_password.as_deref(), Some("p4ss"));
    }
    assert!(matches!(from_zipfile(&archive, Some(texts(&["p4sS"]))), Err(Error::CannotDecrypt)));
}

#[test]
fn extracting_twice_gives_the_same_bytes() {
    let archive = archive_of(&[
        ("x", b"some bytes", Lock::Aes("k")),
        ("y", &[7u8; 4096], Lock::Aes("k")),
    ]);
    let first = from_zipfile(&archive, Some(texts(&["j", "k", "l"]))).unwrap();
    let second = from_zipfile(&archive, Some(texts(&["j", "k", "l"]))).unwrap();
    assert_eq!(summary(&first), summary(&second));
    assert_eq!(first[1].buffer, vec![7u8; 4096]);
}

#[test]
fn one_entry_that_fails_discards_the_password() {
    let archive = archive_of(&[
        ("zero", b"0", Lock::Aes("p")),
        ("one", b"1", Lock::Aes("p")),
        ("two", b"2", Lock::Aes("other")),
    ]);
    let outcome = try_password(&archive, "p");
    assert!(matches!(outcome, Err(Error::Zip(_)) | Err(Error::Io(_))));
    assert!(matches!(from_zipfile(&archive, Some(texts(&["p"]))), Err(Error::CannotDecrypt)));
    assert!(matches!(
        from_zipfile(&archive, Some(texts(&["p", "other"]))),
        Err(Error::CannotDecrypt)
    ));
}

#[test]
fn entries_under_mixed_protection_need_one_password_for_all() {
    let archive = archive_of(&[
        ("open", b"readable by all", Lock::Open),
        ("shut", b"readable by one", Lock::Aes("key")),
    ]);
    assert!(matches!(from_zipfile(&archive, None), Err(Error::CannotDecrypt)));
    let files = from_zipfile(&archive, Some(texts(&["key"]))).unwrap();
    assert_eq!(
        summary(&files),
        vec![
            ("open".to_string(), b"readable by all".to_vec(), Some("key".to_string())),
            ("shut".to_string(), b"readable by one".to_vec(), Some("key".to_string())),
        ]
    );
}

#[test]
fn worker_succeeds_under_the_right_password_only() {
    let archive = secret_archive();
    let files = try_password(&archive, "swordfish").unwrap();
    assert_eq!(
        summary(&files),
        vec![("secret.txt".to_string(), b"hello".to_vec(), Some("swordfish".to_string()))]
    );
    assert!(try_password(&archive, "").is_err());
    assert!(try_password(&archive, "swordfis").is_err());
    assert!(!matches!(try_password(&archive, "x"), Err(Error::CannotDecrypt)));
}

#[test]
fn worker_records_no_password_for_the_sentinel() {
    let archive = archive_of(&[("plain", b"text", Lock::Open)]);
    let files = try_password(&archive, "").unwrap();
    assert_eq!(summary(&files), vec![("plain".to_string(), b"text".to_vec(), None)]);
}

#[test]
fn password_beyond_ascii_is_tried_by_its_bytes() {
    let archive = archive_of(&[("n", b"data", Lock::Aes("pässwörd"))]);
    let files = from_zipfile(&archive, Some(texts(&["password", "pässwörd"]))).unwrap();
    assert_eq!(
        summary(&files),
        vec![("n".to_string(), b"data".to_vec(), Some("pässwörd".to_string()))]
    );
}

#[test]
fn archive_without_entries_counts_zero() {
    let archive = archive_of(&[]);
    assert_eq!(get_total_files(&archive).unwrap(), 0);
}

#[test]
fn archive_without_entries_is_solved_by_any_password() {
    let archive = archive_of(&[]);
    assert!(from_zipfile(&archive, None).unwrap().is_empty());
    assert!(from_zipfile(&archive, Some(texts(&["x"]))).unwrap().is_empty());
    assert!(try_password(&archive, "anything").unwrap().is_empty());
}

#[test]
fn count_needs_no_password() {
    let archive = archive_of(&[
        ("a", b"1", Lock::Aes("p")),
        ("b", b"2", Lock::Legacy("q")),
        ("c", b"3", Lock::Open),
    ]);
    assert_eq!(get_total_files(&archive).unwrap(), 3);
}

#[test]
fn bytes_that_are_no_archive_are_refused() {
    let garbage = b"this is not a zip archive".to_vec();
    assert!(matches!(get_total_files(&garbage), Err(Error::Zip(_))));
    assert!(matches!(get_total_files(&[]), Err(Error::Zip(_))));
    assert!(matches!(from_zipfile(&garbage, None), Err(Error::Zip(_))));
    assert!(matches!(from_zipfile(&garbage, Some(texts(&["a", "b"]))), Err(Error::Zip(_))));
    assert!(matches!(try_password(&garbage, "a"), Err(Error::Zip(_))));
}

#[test]
fn damaged_data_fails_every_password() {
    let archive = archive_of(&[("big", &[42u8; 2000], Lock::Open)]);
    let mut damaged = archive.clone();
    for byte in damaged.iter_mut().skip(40).take(8) {
        *byte ^= 0xff;
    }
    assert_eq!(get_total_files(&damaged).unwrap(), 1);
    assert!(matches!(
        from_zipfile(&damaged, Some(texts(&["a", "b"]))),
        Err(Error::CannotDecrypt)
    ));
}

#[test]
fn stored_entry_with_a_changed_byte_fails_its_checksum() {
    let mut writer = ZipWriter::new(Cursor::new(Vec::new()));
    let stored = SimpleFileOptions::default().compression_method(CompressionMethod::Stored);
    writer.start_file("raw", stored).unwrap();
    writer.write_all(&[b'a'; 64]).unwrap();
    let archive = writer.finish().unwrap().into_inner();
    assert_eq!(
        summary(&try_password(&archive, "").unwrap()),
        vec![("raw".to_string(), vec![b'a'; 64], None)]
    );
    let at = archive.windows(64).position(|w| w == [b'a'; 64]).unwrap();
    let mut damaged = archive.clone();
    damaged[at + 10] = b'b';
    assert!(matches!(try_password(&damaged, ""), Err(Error::Io(_))));
    assert!(matches!(from_zipfile(&damaged, None), Err(Error::CannotDecrypt)));
}

#[test]
fn race_is_won_by_the_first_success() {
    let mut race = Race::new(3);
    assert!(race.report(Err(Error::CannotDecrypt)).is_none());
    let files = vec![ZipFileContents {
        filename: Cow::Borrowed("f"),
        buffer: vec![1, 2, 3],
        zip_password: Some(Cow::Borrowed("p")),
    }];
    let decided = race.report(Ok(files)).unwrap().unwrap();
    assert_eq!(summary(&decided), vec![("f".to_string(), vec![1, 2, 3], Some("p".to_string()))]);
}

#[test]
fn race_is_lost_when_the_last_trial_fails() {
    let mut race = Race::new(3);
    assert!(race.report(Err(Error::CannotDecrypt)).is_none());
    let broken = std::io::Error::new(std::io::ErrorKind::Other, "worker did not run");
    assert!(race.report(Err(Error::Io(broken))).is_none());
    let refused = zip::result::ZipError::InvalidPassword;
    assert!(matches!(race.report(Err(Error::Zip(refused))), Some(Err(Error::CannotDecrypt))));
}

#[test]
fn race_of_one_is_decided_by_its_only_trial() {
    let mut lost = Race::new(1);
    assert!(matches!(lost.report(Err(Error::CannotDecrypt)), Some(Err(Error::CannotDecrypt))));
    let mut won = Race::new(1);
    assert!(matches!(won.report(Ok(Vec::new())), Some(Ok(files)) if files.is_empty()));
}

#[test]
fn late_success_still_wins() {
    let mut race = Race::new(2);
    assert!(race.report(Err(Error::CannotDecrypt)).is_none());
    assert!(matches!(race.report(Ok(Vec::new())), Some(Ok(_))));
}

#[test]
fn extracted_file_records_a_password_that_is_not_empty() {
    let file = extracted_file("secret.txt".to_string(), b"hello".to_vec(), "swordfish");
    assert_eq!(
        summary(&[file]),
        vec![("secret.txt".to_string(), b"hello".to_vec(), Some("swordfish".to_string()))]
    );
}

#[test]
fn extracted_file_records_nothing_for_the_sentinel() {
    let file = extracted_file("n".to_string(), vec![0, 255], "");
    assert_eq!(summary(&[file]), vec![("n".to_string(), vec![0, 255], None)]);
}

#[test]
fn collect_entry_adds_the_file_of_a_decoded_entry() {
    let first = collect_entry(Vec::new(), Ok(("zero".to_string(), b"0".to_vec())), "p").unwrap();
    let second = collect_entry(first, Ok(("one".to_string(), b"1".to_vec())), "p").unwrap();
    assert_eq!(
        summary(&second),
        vec![
            ("zero".to_string(), b"0".to_vec(), Some("p".to_string())),
            ("one".to_string(), b"1".to_vec(), Some("p".to_string())),
        ]
    );
}

#[test]
fn collect_entry_drops_the_files_when_an_entry_fails() {
    let files = vec![
        extracted_file("zero".to_string(), b"0".to_vec(), "p"),
        extracted_file("one".to_string(), b"1".to_vec(), "p"),
    ];
    let refused = Error::Zip(zip::result::ZipError::InvalidPassword);
    assert!(matches!(
        collect_entry(files, Err(refused), "p"),
        Err(Error::Zip(zip::result::ZipError::InvalidPassword))
    ));
    let broken = Error::Io(std::io::Error::new(std::io::ErrorKind::InvalidData, "checksum"));
    assert!(matches!(collect_entry(Vec::new(), Err(broken), ""), Err(Error::Io(_))));
}

#[test]
fn default_file_is_empty() {
    let file = ZipFileContents::default();
    assert_eq!(file.filename, "");
    assert!(file.buffer.is_empty());
    assert!(file.zip_password.is_none());
}

#[test]
fn errors_convert_from_the_reader_and_from_io() {
    let io = std::io::Error::new(std::io::ErrorKind::NotFound, "missing");
    assert!(matches!(Error::from(io), Error::Io(_)));
    assert!(matches!(Error::from(zip::result::ZipError::FileNotFound), Error::Zip(_)));
}
