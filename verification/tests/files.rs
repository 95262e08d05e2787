use flate2::write::GzEncoder;
use flate2::Compression;
use sentry_cli::ancestry::{launched_from_xcode, Ancestry};
use sentry_cli::gzip::{decompress_gzip_content, is_gzip_compressed, GzipError};
use sentry_cli::release::deletion_message;
use sentry_cli::temp::{named_path, temp_name, TempDir, TempFile};
use std::io::Write;
use std::path::PathBuf;

fn gzip(data: &[u8]) -> Vec<u8> {
    let mut encoder = GzEncoder::new(Vec::new(), Compression::default());
    encoder.write_all(data).unwrap();
    encoder.finish().unwrap()
}

#[test]
fn gzip_data_is_recognized() {
    assert!(is_gzip_compressed(&gzip(b"contents")));
    assert!(is_gzip_compressed(&[0x1f, 0x8b]));
    assert!(!is_gzip_compressed(&[0x1f]));
    assert!(!is_gzip_compressed(&[]));
    assert!(!is_gzip_compressed(b"PK"));
}

#[test]
fn gzip_data_is_decompressed() {
    assert_eq!(decompress_gzip_content(&gzip(b"contents")).unwrap(), b"contents");
    assert_eq!(decompress_gzip_content(&gzip(b"")).unwrap(), b"");
}

#[test]
fn only_the_first_member_is_decompressed() {
    let mut data = gzip(b"one");
    data.extend(gzip(b"two"));
    assert_eq!(decompress_gzip_content(&data).unwrap(), b"one");
    for more in [vec![0x1f], vec![0x1f, 0x8b], vec![0; 40_000], b"text".to_vec()] {
        let mut data = gzip(b"one");
        data.extend(more);
        assert_eq!(decompress_gzip_content(&data).unwrap(), b"one");
    }
    let large: Vec<u8> = (0u32..200_000).map(|i| (i * i >> 7) as u8).collect();
    let mut data = gzip(&large);
    data.extend([7; 100_000]);
    assert_eq!(decompress_gzip_content(&data).unwrap(), large);
}

#[test]
fn other_data_is_not_decompressed() {
    assert!(matches!(decompress_gzip_content(b"contents"), Err(GzipError::Undecodable(_))));
    assert!(decompress_gzip_content(b"").is_err());
    let mut data = gzip(b"contents");
    data.pop();
    assert!(decompress_gzip_content(&data).is_err());
}

#[test]
fn temp_names_are_uuids() {
    let name = temp_name();
    assert_eq!(name.len(), 36);
    for (i, c) in name.chars().enumerate() {
        if i == 8 || i == 13 || i == 18 || i == 23 {
            assert_eq!(c, '-');
        } else {
            assert!(c.is_ascii_digit() || ('a'..='f').contains(&c));
        }
    }
    assert_eq!(&name[14..15], "4");
    assert!("89ab".contains(&name[19..20]));
    assert_ne!(name, temp_name());
}

#[test]
fn temp_paths_have_a_random_name() {
    let parent = PathBuf::from("/tmp/x");
    let dir = TempDir::new_in(parent.clone());
    let file = TempFile::new_in(parent.clone());
    for path in [dir.path(), file.path()] {
        assert_eq!(path.parent(), Some(parent.as_path()));
        let name = path.file_name().unwrap().to_str().unwrap();
        assert_eq!(name.len(), 36);
        assert_eq!(&name[14..15], "4");
    }
    assert_ne!(dir.path(), file.path());
    assert_eq!(named_path(parent, "name"), PathBuf::from("/tmp/x/name"));
    assert_eq!(file.path(), file.path());
}

#[test]
fn xcode_among_the_ancestors() {
    assert_eq!(launched_from_xcode(false, 9), Ancestry::NotXcode);
    assert_eq!(launched_from_xcode(true, 9), Ancestry::ParentOf { pid: 9 });
    assert_eq!(Ancestry::advance(Some(8), Some("bash".to_owned())), Ancestry::ParentOf { pid: 8 });
    assert_eq!(Ancestry::advance(Some(8), None), Ancestry::ParentOf { pid: 8 });
    assert_eq!(Ancestry::advance(Some(7), Some("Xcode".to_owned())), Ancestry::Xcode);
    assert_eq!(Ancestry::advance(Some(1), Some("Xcode".to_owned())), Ancestry::NotXcode);
    assert_eq!(Ancestry::advance(None, None), Ancestry::NotXcode);
}

#[test]
fn deletion_is_reported() {
    assert_eq!(deletion_message("1.0", true), "Deleted release 1.0!");
    assert_eq!(
        deletion_message("1.0", false),
        "Did nothing. Release with this version (1.0) does not exist."
    );
}
