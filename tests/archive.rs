use std::io::{Cursor, Read, Write};

use cbz_edit::archive::{get_comic_from_zip, read_archive, rewrite_archive, replace_comic_info};
use cbz_edit::codec::encode_document;
use cbz_edit::comic_info::{ComicInfo, MergePolicy};
use cbz_edit::error::RewriteError;
use zip::write::SimpleFileOptions;
use zip::{CompressionMethod, ZipArchive, ZipWriter};

fn build(entries: &[(&str, &[u8], CompressionMethod, Option<u32>)]) -> Vec<u8> {
    let mut w = ZipWriter::new(Cursor::new(Vec::new()));
    for (name, data, method, mode) in entries {
        let mut opts = SimpleFileOptions::default().compression_method(*method);
        if let Some(m) = mode {
            opts = opts.unix_permissions(*m);
        }
        w.start_file(*name, opts).unwrap();
        w.write_all(data).unwrap();
    }
    w.finish().unwrap().into_inner()
}

fn entry(bytes: &[u8], name: &str) -> (Vec<u8>, CompressionMethod, Option<u32>) {
    let mut a = ZipArchive::new(Cursor::new(bytes.to_vec())).unwrap();
    let mut f = a.by_name(name).unwrap();
    let mut data = Vec::new();
    f.read_to_end(&mut data).unwrap();
    (data, f.compression(), f.unix_mode())
}

fn names(bytes: &[u8]) -> Vec<String> {
    let mut a = ZipArchive::new(Cursor::new(bytes.to_vec())).unwrap();
    (0..a.len()).map(|i| a.by_index(i).unwrap().name().unwrap().to_string()).collect()
}

#[test]
fn rewrite_preserves_untouched_entries() {
    let old = ComicInfo::new("Old".to_string());
    let old_xml = encode_document(&old);
    let input = build(&[
        ("A.jpg", b"first image bytes", CompressionMethod::Stored, Some(0o100600)),
        ("B.png", b"second image bytes, compressed", CompressionMethod::Deflated, Some(0o100644)),
        ("ComicInfo.xml", &old_xml, CompressionMethod::Stored, None),
    ]);
    let before_a = entry(&input, "A.jpg");
    let before_b = entry(&input, "B.png");
    let mut cand = ComicInfo::new("New".to_string());
    cand.volume = Some(4);
    let out = rewrite_archive(input.clone(), &cand, MergePolicy::VolumeOnly).unwrap();
    assert_eq!(entry(&out, "A.jpg"), before_a);
    assert_eq!(entry(&out, "B.png"), before_b);
    assert_eq!(names(&out), vec!["A.jpg", "B.png", "ComicInfo.xml"]);
    let (_, method, _) = entry(&out, "ComicInfo.xml");
    assert_eq!(method, CompressionMethod::Stored);
    let got = get_comic_from_zip(out).unwrap();
    assert_eq!(got.title, "Old");
    assert_eq!(got.volume, Some(4));
}

#[test]
fn archive_without_metadata_gains_one_entry() {
    let input = build(&[
        ("001.jpg", b"one", CompressionMethod::Stored, None),
        ("sub/002.jpg", b"two", CompressionMethod::Deflated, None),
    ]);
    let cand = ComicInfo::new("Fresh".to_string());
    let out = rewrite_archive(input.clone(), &cand, MergePolicy::MergeShared).unwrap();
    assert_eq!(names(&out), vec!["001.jpg", "sub/002.jpg", "ComicInfo.xml"]);
    assert_eq!(entry(&out, "001.jpg"), entry(&input, "001.jpg"));
    assert_eq!(entry(&out, "sub/002.jpg"), entry(&input, "sub/002.jpg"));
    let got = get_comic_from_zip(out).unwrap();
    assert_eq!(got.series, "Fresh");
    assert_eq!(got.title, "");
}

#[test]
fn written_metadata_carries_the_provenance_comment() {
    let input = build(&[("a.jpg", b"x", CompressionMethod::Stored, None)]);
    let out = replace_comic_info(input, &ComicInfo::new("T".to_string())).unwrap();
    let (data, _, _) = entry(&out, "ComicInfo.xml");
    let text = String::from_utf8(data).unwrap();
    assert!(text.starts_with("<!-- Modified by cbz-edit -->"));
}

#[test]
fn corrupt_archive_is_refused() {
    let r = rewrite_archive(b"not an archive".to_vec(), &ComicInfo::empty(), MergePolicy::ReplaceAll);
    assert_eq!(r, Err(RewriteError::ArchiveFormat));
    assert_eq!(get_comic_from_zip(Vec::new()).err(), Some(RewriteError::ArchiveFormat));
}

#[test]
fn malformed_metadata_is_read_as_empty() {
    let input = build(&[("ComicInfo.xml", b"<ComicInfo><Title>x</Nope>", CompressionMethod::Stored, None)]);
    assert_eq!(get_comic_from_zip(input.clone()).unwrap(), ComicInfo::empty());
    let mut cand = ComicInfo::empty();
    cand.series = "S".to_string();
    let out = rewrite_archive(input, &cand, MergePolicy::MergeShared).unwrap();
    let got = get_comic_from_zip(out).unwrap();
    assert_eq!(got.series, "S");
    assert_eq!(got.title, "");
}

#[test]
fn read_archive_lists_entries_in_order() {
    let input = build(&[
        ("x", b"1", CompressionMethod::Stored, None),
        ("y", b"22", CompressionMethod::Deflated, Some(0o100755)),
    ]);
    let es = read_archive(input).unwrap();
    assert_eq!(es.len(), 2);
    assert_eq!(es[0].name, "x");
    assert_eq!(es[1].data, b"22".to_vec());
    assert_eq!(es[1].unix_mode, Some(0o100755));
    assert_eq!(es[0].method, Some(0));
    assert_eq!(es[1].method, Some(8));
}

#[test]
fn archive_without_metadata_reads_as_empty_record() {
    let input = build(&[("001.jpg", b"one", CompressionMethod::Stored, None)]);
    assert_eq!(get_comic_from_zip(input), Ok(ComicInfo::empty()));
    let input = build(&[("ComicInfo.xml", &[0xff, 0xfe, 0x3c], CompressionMethod::Deflated, None)]);
    assert_eq!(get_comic_from_zip(input), Ok(ComicInfo::empty()));
}
