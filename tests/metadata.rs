use cbz_edit::codec::{decode_document, decode_tokens, encode_document, encode_tokens, XmlToken};
use cbz_edit::comic_info::{ComicInfo, ComicInfoAgeRating, ComicInfoManga, MergePolicy};
use cbz_edit::decimal::Decimal;

fn full_record() -> ComicInfo {
    let mut c = ComicInfo::new("Night & Day <1>".to_string());
    c.series = "Series \"quoted\" 'x'".to_string();
    c.number = Decimal::parse("10.5");
    c.volume = Some(3);
    c.summary = Some("  spaced summary  ".to_string());
    c.year = Some(2023);
    c.month = Some(5);
    c.day = Some(17);
    c.writer = Some("A, B".to_string());
    c.penciller = Some("C".to_string());
    c.translator = Some("alpha,beta".to_string());
    c.publisher = Some("Pub".to_string());
    c.genre = Some("Action,Drama".to_string());
    c.tags = Some("ninja".to_string());
    c.web = Some("https://a.example https://b.example".to_string());
    c.page_count = Some(42);
    c.language_iso = Some("en".to_string());
    c.manga = ComicInfoManga::YesAndRightToLeft;
    c.age_rating = ComicInfoAgeRating::Mature17Plus;
    c.count = Some(12);
    c
}

#[test]
fn round_trip_keeps_every_field() {
    let c = full_record();
    let bytes = encode_document(&c);
    assert_eq!(decode_document(&bytes), c);
}

#[test]
fn round_trip_of_the_empty_record() {
    let c = ComicInfo::empty();
    let bytes = encode_document(&c);
    let d = decode_document(&bytes);
    assert_eq!(d, c);
    assert_eq!(d.summary, None);
    assert_eq!(d.number, None);
}

#[test]
fn token_round_trip() {
    let c = full_record();
    assert_eq!(decode_tokens(&encode_tokens(&c)), c);
}

#[test]
fn encoded_document_names() {
    let mut c = ComicInfo::new("T".to_string());
    c.language_iso = Some("ja".to_string());
    c.age_rating = ComicInfoAgeRating::AdultsOnly18Plus;
    let text = String::from_utf8(encode_document(&c)).unwrap();
    assert!(text.starts_with("<!-- Modified by cbz-edit --><ComicInfo>"));
    assert!(text.contains("<LanguageISO>ja</LanguageISO>"));
    assert!(text.contains("<AgeRating>Adults Only 18+</AgeRating>"));
    assert!(text.contains("<Manga>Unknown</Manga>"));
    assert!(!text.contains("<Summary>"));
    assert!(!text.contains("<Volume>"));
    assert!(text.ends_with("</ComicInfo>"));
}

#[test]
fn decode_reads_foreign_documents() {
    let xml = "<?xml version=\"1.0\" encoding=\"utf-8\"?>\n<ComicInfo xmlns:xsi=\"x\">\n  <Title>A &amp; B &#65;</Title>\n  <Number>007</Number>\n  <Volume>x</Volume>\n  <Manga>Maybe</Manga>\n  <AgeRating>Teen</AgeRating>\n  <Summary/>\n  <Unknown>1</Unknown>\n</ComicInfo>";
    let d = decode_document(&xml.as_bytes().to_vec());
    assert_eq!(d.title, "A & B A");
    assert_eq!(d.number.map(|n| n.to_text()), Some("7".to_string()));
    assert_eq!(d.volume, None);
    assert_eq!(d.manga, ComicInfoManga::Unknown);
    assert_eq!(d.age_rating, ComicInfoAgeRating::Teen);
    assert_eq!(d.summary, Some(String::new()));
}

#[test]
fn decode_of_malformed_markup_is_the_empty_record() {
    let d = decode_document(&b"<ComicInfo><Title>x</Wrong></ComicInfo>".to_vec());
    assert_eq!(d, ComicInfo::empty());
    let d = decode_document(&vec![0xff, 0xfe, 0x00]);
    assert_eq!(d, ComicInfo::empty());
    assert_eq!(decode_document(&Vec::new()), ComicInfo::empty());
}

#[test]
fn decode_tokens_ignores_nested_elements() {
    let ts = vec![
        XmlToken::Start("ComicInfo".to_string()),
        XmlToken::Start("Title".to_string()),
        XmlToken::Text("a".to_string()),
        XmlToken::Start("b".to_string()),
        XmlToken::Text("ignored".to_string()),
        XmlToken::End("b".to_string()),
        XmlToken::Text("c".to_string()),
        XmlToken::End("Title".to_string()),
        XmlToken::End("ComicInfo".to_string()),
    ];
    assert_eq!(decode_tokens(&ts).title, "ac");
}

#[test]
fn enum_texts() {
    assert_eq!(ComicInfoManga::from_text("Yes"), ComicInfoManga::Yes);
    assert_eq!(ComicInfoManga::from_text("yes"), ComicInfoManga::Unknown);
    assert_eq!(ComicInfoManga::YesAndRightToLeft.to_text(), "YesAndRightToLeft");
    assert_eq!(ComicInfoAgeRating::from_text("Mature 17+"), ComicInfoAgeRating::Mature17Plus);
    assert_eq!(ComicInfoAgeRating::from_text("Everyone"), ComicInfoAgeRating::Everyone);
    assert_eq!(ComicInfoAgeRating::from_text("18+"), ComicInfoAgeRating::Unknown);
    assert_eq!(ComicInfoAgeRating::AdultsOnly18Plus.to_text(), "Adults Only 18+");
    assert_eq!(ComicInfoManga::default(), ComicInfoManga::Unknown);
    assert_eq!(ComicInfoAgeRating::default(), ComicInfoAgeRating::Unknown);
}

#[test]
fn decimal_texts() {
    assert_eq!(Decimal::parse("081.40").unwrap().to_text(), "81.4");
    assert_eq!(Decimal::parse("+.5").unwrap().to_text(), "0.5");
    assert_eq!(Decimal::parse("5.").unwrap().to_text(), "5");
    assert_eq!(Decimal::parse("000").unwrap().to_text(), "0");
    assert!(Decimal::parse(".").is_none());
    assert!(Decimal::parse("1.2.3").is_none());
    assert!(Decimal::parse("-1").is_none());
    assert!(Decimal::parse("").is_none());
}

fn existing() -> ComicInfo {
    let mut e = full_record();
    e.title = "Old title".to_string();
    e
}

fn candidate() -> ComicInfo {
    let mut c = ComicInfo::new("New".to_string());
    c.series = "New series".to_string();
    c.volume = Some(9);
    c.number = Decimal::parse("2");
    c.translator = Some("t".to_string());
    c.summary = None;
    c.manga = ComicInfoManga::No;
    c.count = Some(1);
    c
}

#[test]
fn merge_is_deterministic_for_every_policy() {
    for p in [MergePolicy::ReplaceAll, MergePolicy::MergeShared, MergePolicy::DeriveFromFilename, MergePolicy::VolumeOnly] {
        let a = p.merge(existing(), &candidate());
        let b = p.merge(existing(), &candidate());
        assert_eq!(a, b);
        let again = p.merge(a.clone(), &candidate());
        assert_eq!(again, a);
    }
}

#[test]
fn replace_all_takes_the_candidate() {
    assert_eq!(MergePolicy::ReplaceAll.merge(existing(), &candidate()), candidate());
}

#[test]
fn merge_shared_takes_series_fields() {
    let r = MergePolicy::MergeShared.merge(existing(), &candidate());
    assert_eq!(r.series, "New series");
    assert_eq!(r.summary, None);
    assert_eq!(r.manga, ComicInfoManga::No);
    assert_eq!(r.count, Some(1));
    assert_eq!(r.title, "Old title");
    assert_eq!(r.volume, Some(3));
    assert_eq!(r.page_count, Some(42));
}

#[test]
fn derive_from_filename_takes_numbering() {
    let r = MergePolicy::DeriveFromFilename.merge(existing(), &candidate());
    assert_eq!(r.title, "New");
    assert_eq!(r.volume, Some(9));
    assert_eq!(r.number.map(|n| n.to_text()), Some("2".to_string()));
    assert_eq!(r.translator, Some("t".to_string()));
    assert_eq!(r.series, existing().series);
    assert_eq!(r.count, Some(12));
}

#[test]
fn volume_only_takes_the_volume() {
    let r = MergePolicy::VolumeOnly.merge(existing(), &candidate());
    let mut expected = existing();
    expected.volume = Some(9);
    assert_eq!(r, expected);
}

#[test]
fn update_methods() {
    let mut e = existing();
    e.update_volume(&candidate());
    assert_eq!(e.volume, Some(9));
    e.update_derived_fields(&candidate());
    assert_eq!(e.title, "New");
    e.update_shared_fields(&candidate());
    assert_eq!(e.series, "New series");
    let n = ComicInfo::new("X".to_string());
    assert_eq!(n.series, "X");
    assert_eq!(n.title, "X");
}
