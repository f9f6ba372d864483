use cbz_edit::comic_info::{ComicInfo, ComicInfoAgeRating, ComicInfoManga};
use cbz_edit::decimal::Decimal;
use cbz_edit::form::{
    parse_enum, parse_opt_decimal, parse_opt_string, parse_opt_u16, parse_opt_u32, parse_opt_u8, ComicFormState,
    ComicInfoForm,
};

fn record() -> ComicInfo {
    let mut c = ComicInfo::new("Title".to_string());
    c.number = Decimal::parse("4.5");
    c.volume = Some(2);
    c.summary = Some("About".to_string());
    c.day = Some(9);
    c.manga = ComicInfoManga::Yes;
    c.age_rating = ComicInfoAgeRating::Teen;
    c.count = Some(30);
    c
}

#[test]
fn form_shows_each_field() {
    let f = ComicInfoForm::new(&record());
    assert_eq!(f.fields.len(), 20);
    assert_eq!(f.fields[0], ("Title".to_string(), "Title".to_string()));
    assert_eq!(f.fields[1].0, "Series*");
    assert_eq!(f.fields[2].1, "4.5");
    assert_eq!(f.fields[3].1, "2");
    assert_eq!(f.fields[5].1, "");
    assert_eq!(f.fields[16].0, "Language ISO*");
    assert_eq!(f.fields[17].1, "Yes");
    assert_eq!(f.fields[18].1, "Teen");
    assert_eq!(f.fields[19].1, "30");
}

#[test]
fn unedited_form_gives_the_record_back() {
    let c = record();
    assert_eq!(ComicInfoForm::new(&c).to_comic_info(), c);
}

#[test]
fn edited_texts_are_read() {
    let mut f = ComicInfoForm::new(&ComicInfo::empty());
    f.fields[2].1 = " 12 ".to_string();
    f.fields[4].1 = "   ".to_string();
    f.fields[5].1 = "70000".to_string();
    f.fields[18].1 = "Mature 17+ ".to_string();
    let c = f.to_comic_info();
    assert_eq!(c.number.map(|n| n.to_text()), Some("12".to_string()));
    assert_eq!(c.summary, None);
    assert_eq!(c.year, None);
    assert_eq!(c.age_rating, ComicInfoAgeRating::Mature17Plus);
    assert_eq!(c.manga, ComicInfoManga::Unknown);
}

#[test]
fn focus_moves_round() {
    let mut f = ComicInfoForm::new(&ComicInfo::empty());
    f.prev();
    assert_eq!(f.active_index, 19);
    f.next();
    assert_eq!(f.active_index, 0);
    f.prev_side();
    assert_eq!(f.active_index, 10);
    f.next_side();
    assert_eq!(f.active_index, 0);
    f.active_index = 15;
    f.next_side();
    assert_eq!(f.active_index, 5);
}

#[test]
fn form_state() {
    assert!(ComicFormState::Loading.to_comic_info().is_none());
    let s = ComicFormState::Ready(ComicInfoForm::new(&record()));
    assert_eq!(s.to_comic_info(), Some(record()));
}

#[test]
fn text_parsers() {
    assert_eq!(parse_opt_string(" x "), Some(" x ".to_string()));
    assert_eq!(parse_opt_string(" \t"), None);
    assert_eq!(parse_opt_u32(" 42 "), Some(42));
    assert_eq!(parse_opt_u32("4294967296"), None);
    assert_eq!(parse_opt_u16("65535"), Some(65535));
    assert_eq!(parse_opt_u16("65536"), None);
    assert_eq!(parse_opt_u8("+7"), Some(7));
    assert_eq!(parse_opt_u8("256"), None);
    assert_eq!(parse_opt_decimal(" 3.50 ").map(|d| d.to_text()), Some("3.5".to_string()));
    assert_eq!(parse_enum::<ComicInfoManga>(" No "), Some(ComicInfoManga::No));
    assert_eq!(parse_enum::<ComicInfoAgeRating>("?"), Some(ComicInfoAgeRating::Unknown));
}
