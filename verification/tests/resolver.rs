use brick::error::Error;
use brick::resolver::resolve;
use brick::resolver::resolve_explicit;
use brick::resolver::resolve_inferred;
use brick::text::split_dots;
use brick::ArchiveFormat;
use brick::CompressionLevel;

fn strings(items: &[&str]) -> Vec<String> {
    items.iter().map(|s| s.to_string()).collect()
}

#[test]
fn splitting_at_dots() {
    assert_eq!(split_dots("archive.tar.gz"), vec!["archive", "tar", "gz"]);
    assert_eq!(split_dots("plain"), vec!["plain"]);
    assert_eq!(split_dots(""), vec![""]);
    assert_eq!(split_dots("."), vec!["", ""]);
    assert_eq!(split_dots("a..b"), vec!["a", "", "b"]);
    assert_eq!(split_dots(".hidden"), vec!["", "hidden"]);
    assert_eq!(split_dots("trailing."), vec!["trailing", ""]);
    assert_eq!(split_dots("übung.tär"), vec!["übung", "tär"]);
}

#[test]
fn inferred_from_tar_gz() {
    assert_eq!(
        resolve_inferred("archive.tar.gz"),
        vec![
            (ArchiveFormat::Tar, CompressionLevel::Auto),
            (ArchiveFormat::GZip, CompressionLevel::Auto)
        ]
    );
    assert_eq!(
        resolve(&strings(&[]), &strings(&[]), "archive.tar.gz").unwrap(),
        vec![
            (ArchiveFormat::Tar, CompressionLevel::Auto),
            (ArchiveFormat::GZip, CompressionLevel::Auto)
        ]
    );
}

#[test]
fn inferred_from_composite_extension() {
    assert_eq!(
        resolve_inferred("backup.tgz"),
        vec![
            (ArchiveFormat::Tar, CompressionLevel::Auto),
            (ArchiveFormat::GZip, CompressionLevel::Auto)
        ]
    );
    assert_eq!(
        resolve_inferred("backup.tar.gz.xz"),
        vec![
            (ArchiveFormat::Tar, CompressionLevel::Auto),
            (ArchiveFormat::GZip, CompressionLevel::Auto),
            (ArchiveFormat::Lzma, CompressionLevel::Auto)
        ]
    );
}

#[test]
fn inferred_skips_unknown_pieces() {
    assert_eq!(
        resolve_inferred("my.backup.tar.2024.gz"),
        vec![
            (ArchiveFormat::Tar, CompressionLevel::Auto),
            (ArchiveFormat::GZip, CompressionLevel::Auto)
        ]
    );
    assert_eq!(resolve_inferred("notes.txt"), vec![]);
    assert_eq!(resolve_inferred("plain"), vec![]);
    assert_eq!(resolve_inferred(""), vec![]);
}

#[test]
fn inferred_leaves_the_base_name_out() {
    assert_eq!(
        resolve_inferred("tar.gz"),
        vec![(ArchiveFormat::GZip, CompressionLevel::Auto)]
    );
    assert_eq!(resolve_inferred("zip"), vec![]);
    assert_eq!(
        resolve_inferred(".tar"),
        vec![(ArchiveFormat::Tar, CompressionLevel::Auto)]
    );
}

#[test]
fn explicit_pairs_by_position() {
    assert_eq!(
        resolve_explicit(&strings(&["tar", "gzip"]), &strings(&["3"])).unwrap(),
        vec![
            (ArchiveFormat::Tar, CompressionLevel::Numbered(3)),
            (ArchiveFormat::GZip, CompressionLevel::Auto)
        ]
    );
    assert_eq!(
        resolve(&strings(&["tar", "gzip"]), &strings(&["3"]), "ignored.zip").unwrap(),
        vec![
            (ArchiveFormat::Tar, CompressionLevel::Numbered(3)),
            (ArchiveFormat::GZip, CompressionLevel::Auto)
        ]
    );
}

#[test]
fn explicit_with_all_levels() {
    assert_eq!(
        resolve_explicit(&strings(&["TAR", "Lzma"]), &strings(&["AUTO", "9"])).unwrap(),
        vec![
            (ArchiveFormat::Tar, CompressionLevel::Auto),
            (ArchiveFormat::Lzma, CompressionLevel::Numbered(9))
        ]
    );
}

#[test]
fn explicit_without_anything_is_empty() {
    assert_eq!(resolve_explicit(&strings(&[]), &strings(&[])).unwrap(), vec![]);
}

#[test]
fn more_levels_than_formats() {
    assert!(matches!(
        resolve_explicit(&strings(&["tar"]), &strings(&["1", "2"])),
        Err(Error::MissingCompressionFormat)
    ));
    assert!(matches!(
        resolve(&strings(&["tar"]), &strings(&["1", "2"]), "archive.tar.gz"),
        Err(Error::MissingCompressionFormat)
    ));
    assert!(matches!(
        resolve(&strings(&[]), &strings(&["1"]), "archive.tar.gz"),
        Err(Error::MissingCompressionFormat)
    ));
}

#[test]
fn count_is_checked_before_the_strings() {
    assert!(matches!(
        resolve_explicit(&strings(&["nonsense"]), &strings(&["x", "y"])),
        Err(Error::MissingCompressionFormat)
    ));
}

#[test]
fn first_bad_string_wins() {
    match resolve_explicit(&strings(&["tar", "bad"]), &strings(&["x"])) {
        Err(Error::InvalidCompressionLevel(s)) => assert_eq!(s, "x"),
        other => panic!("unexpected: {:?}", other),
    }
    match resolve_explicit(&strings(&["bad", "tar"]), &strings(&["x"])) {
        Err(Error::InvalidCompressionFormat(s)) => assert_eq!(s, "bad"),
        other => panic!("unexpected: {:?}", other),
    }
    match resolve_explicit(&strings(&["tar", "worse"]), &strings(&["1"])) {
        Err(Error::InvalidCompressionFormat(s)) => assert_eq!(s, "worse"),
        other => panic!("unexpected: {:?}", other),
    }
}
