use std::io::{Cursor, Write};

use subforge_core::archive::{check_plugin_upload, validate_zip_safety, UploadError, ZipCheckError};
use subforge_core::web::ZipPathError;
use zip::write::SimpleFileOptions;
use zip::CompressionMethod;

fn build_zip(entries: &[(&str, &[u8])]) -> Vec<u8> {
    let mut writer = zip::ZipWriter::new(Cursor::new(Vec::new()));
    for (name, data) in entries {
        writer.start_file(*name, SimpleFileOptions::default()).unwrap();
        writer.write_all(data).unwrap();
    }
    writer.finish().unwrap().into_inner()
}

#[test]
fn well_formed_packages_pass() {
    let payload = build_zip(&[
        ("plugin.json", b"{}".as_slice()),
        ("schema.json", b"{}".as_slice()),
        ("scripts\\fetch.lua", b"return {}".as_slice()),
    ]);
    assert_eq!(validate_zip_safety(&payload), Ok(()));
}

#[test]
fn path_traversal_entries_are_refused() {
    let payload = build_zip(&[("plugin.json", b"{}".as_slice()), ("../evil.txt", b"x".as_slice())]);
    let error = validate_zip_safety(&payload).unwrap_err();
    assert_eq!(error, ZipCheckError::Path(ZipPathError::ParentDir));
    assert!(error.message().contains("路径非法"));
    let payload = build_zip(&[("/etc/evil", b"x".as_slice())]);
    assert_eq!(validate_zip_safety(&payload), Err(ZipCheckError::Path(ZipPathError::OutsideRoot)));
}

#[test]
fn other_refusals() {
    assert_eq!(validate_zip_safety(b"plain text"), Err(ZipCheckError::NotZip));
    assert_eq!(ZipCheckError::NotZip.message(), "插件包不是合法 zip 文件");

    let names: Vec<String> = (0..101).map(|i| format!("f{i}.txt")).collect();
    let entries: Vec<(&str, &[u8])> = names.iter().map(|n| (n.as_str(), b"".as_slice())).collect();
    assert_eq!(validate_zip_safety(&build_zip(&entries)), Err(ZipCheckError::TooManyEntries));
    let entries: Vec<(&str, &[u8])> = names.iter().take(100).map(|n| (n.as_str(), b"".as_slice())).collect();
    assert_eq!(validate_zip_safety(&build_zip(&entries)), Ok(()));

    let mut writer = zip::ZipWriter::new(Cursor::new(Vec::new()));
    let stored = SimpleFileOptions::default().compression_method(CompressionMethod::Stored).large_file(false);
    let chunk = vec![0u8; 26 * 1024 * 1024];
    writer.start_file("a.bin", stored).unwrap();
    writer.write_all(&chunk).unwrap();
    writer.start_file("b.bin", stored).unwrap();
    writer.write_all(&chunk).unwrap();
    let payload = writer.finish().unwrap().into_inner();
    assert_eq!(validate_zip_safety(&payload), Err(ZipCheckError::TooLarge));
    assert_eq!(ZipCheckError::TooLarge.message(), "插件包解压总大小超过 50MB");
}

#[test]
fn uploads_need_a_zip_name_and_a_bounded_size() {
    assert_eq!(check_plugin_upload("plugin.ZIP", 10), Ok(()));
    assert_eq!(check_plugin_upload("plugin.zip", 10 * 1024 * 1024), Ok(()));
    assert_eq!(check_plugin_upload("plugin.zip", 10 * 1024 * 1024 + 1), Err(UploadError::TooLarge));
    assert_eq!(check_plugin_upload("plugin.tar", 1), Err(UploadError::NotZipName));
    assert_eq!(check_plugin_upload("zip", 1), Err(UploadError::NotZipName));
    assert_eq!(check_plugin_upload(".zip", 1), Ok(()));
    assert_eq!(UploadError::NotZipName.message(), "仅支持 .zip 插件包");
    assert_eq!(UploadError::TooLarge.message(), "插件包超过 10485760 bytes 限制");
}
