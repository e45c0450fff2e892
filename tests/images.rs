use sysexts_manager_lib::arch::Architecture;
use sysexts_manager_lib::image::{Image, ImageError};
use sysexts_manager_lib::manifest::parse_manifest;
use sysexts_manager_lib::sha256writer::Sha256Writer;

#[test]
fn parses_filename_fields() {
    let i = Image::new("foo", "foo-1.2.3-42-x86-64.raw", None).unwrap();
    assert_eq!(i.name, "foo");
    assert_eq!(i.version, "1.2.3");
    assert_eq!(i.version_id, "42");
    assert_eq!(i.architecture, Architecture::x86_64);
    assert!(i.hash.is_none());
    assert_eq!(i.path(), "foo-1.2.3-42-x86-64.raw");
}

#[test]
fn parses_hyphenated_names_and_versions() {
    let i = Image::new("my-ext", "my-ext-1.2-rc1-42-arm64.raw", Some("ab".to_string())).unwrap();
    assert_eq!(i.name, "my-ext");
    assert_eq!(i.version, "1.2-rc1");
    assert_eq!(i.version_id, "42");
    assert_eq!(i.architecture, Architecture::aarch64);
    assert_eq!(i.hash.as_deref(), Some("ab"));
    assert_eq!(i.path(), "my-ext-1.2-rc1-42-arm64.raw");
}

#[test]
fn rejects_malformed_filenames() {
    assert_eq!(Image::new("foo", "bar-1-42-x86-64.raw", None).unwrap_err(), ImageError::NamePrefix);
    assert_eq!(Image::new("foo", "foo-1-42-x86-64.img", None).unwrap_err(), ImageError::Extension);
    assert_eq!(Image::new("foo", "foo-1-42-aarch64.raw", None).unwrap_err(), ImageError::Architecture);
    assert_eq!(Image::new("foo", "foo-42-x86-64.raw", None).unwrap_err(), ImageError::Fields);
    assert_eq!(Image::new("foo-bar", "foo-bar-42-x86-64.raw", None).unwrap_err(), ImageError::Fields);
    assert_eq!(Image::new("foo", "foo_1-2-42-x86-64.raw", None).unwrap_err(), ImageError::Fields);
    assert_eq!(Image::new("foo", "foo-abc-42-x86-64.raw", None).unwrap_err(), ImageError::Version);
}

#[test]
fn clone_keeps_fields() {
    let i = Image::new("foo", "foo-1-42-x86-64.raw", Some("h".to_string())).unwrap();
    let j = i.clone();
    assert_eq!(j.path(), i.path());
    assert_eq!(j.hash, i.hash);
}

#[test]
fn architecture_names() {
    assert_eq!(Architecture::x86_64.to_string(), "x86_64");
    assert_eq!(Architecture::aarch64.to_string(), "aarch64");
    assert_eq!(Architecture::from_name("aarch64"), Some(Architecture::aarch64));
    assert_eq!(Architecture::from_name("x86-64"), None);
}

#[test]
fn manifest_lines_are_parsed() {
    let text = "aa  foo-1-42-x86-64.raw\r\n\
                malformed line\n\
                bb  bar-1-42-x86-64.raw\n\
                cc  foo-2-42-arm64.raw  trailing\n\
                dd  foo-nope.raw\n\
                ee  foo-3-42-x86-64.raw";
    let images = parse_manifest("foo", text);
    let got: Vec<(String, String)> =
        images.iter().map(|i| (i.path(), i.hash.clone().unwrap())).collect();
    assert_eq!(
        got,
        vec![
            ("foo-1-42-x86-64.raw".to_string(), "aa".to_string()),
            ("foo-2-42-arm64.raw".to_string(), "cc".to_string()),
            ("foo-3-42-x86-64.raw".to_string(), "ee".to_string()),
        ]
    );
    assert!(parse_manifest("foo", "").is_empty());
    assert!(parse_manifest("foo", "\n\n").is_empty());
}

#[test]
fn sha256_of_known_inputs() {
    let w: Sha256Writer<Vec<u8>> = Sha256Writer::new(Vec::new());
    assert_eq!(w.digest(), "e3b0c44298fc1c149afbf4c8996fb92427ae41e4649b934ca495991b7852b855");
    let mut w = Sha256Writer::new(Vec::new());
    w.update(b"a");
    w.update(b"bc");
    w.get_mut().extend_from_slice(b"abc");
    assert_eq!(w.digest(), "ba7816bf8f01cfea414140de5dae2223b00361a396177a9cb410ff61f20015ad");
}
