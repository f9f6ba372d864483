use cbz_edit::filename::{is_chapter_prefix, parse_filename, tokenize_preserving_brackets, Chapter};

fn parse(name: &str) -> Chapter {
    parse_filename(name.to_string(), name)
}

fn chapter_number(c: &Chapter) -> Option<f32> {
    c.chapter.as_ref().map(|d| d.to_text().parse::<f32>().unwrap())
}

#[test]
fn test_simple_chapter() {
    let c = parse("Ch.05 Title.cbz");
    assert_eq!(chapter_number(&c), Some(5.0));
    assert_eq!(c.volume, None);
    assert_eq!(c.title, Some("Title".into()));
}

#[test]
fn test_volume_and_chapter() {
    let c = parse("Vol.03 Ch.12 Title.cbz");
    assert_eq!(c.volume, Some(3));
    assert_eq!(chapter_number(&c), Some(12.0));
    assert_eq!(c.title, Some("Title".into()));
}

#[test]
fn test_decimal_chapter() {
    let c = parse("Ch.10.5.cbz");
    assert_eq!(chapter_number(&c), Some(10.5));
    assert_eq!(c.volume, None);
}

#[test]
fn test_translators() {
    let c = parse("Ch.0002 [alpha, beta].cbz");
    assert_eq!(c.translators, vec!["alpha", "beta"]);
    assert_eq!(chapter_number(&c), Some(2.0));
}

#[test]
fn test_language_tag() {
    let c = parse("Vol.1 Ch.2 Title (en).cbz");
    assert_eq!(c.volume, Some(1));
    assert_eq!(chapter_number(&c), Some(2.0));
    assert_eq!(c.title, Some("Title".into()));
}

#[test]
fn test_complex() {
    let c = parse("Volume 12 - Chapter 4.5 Final Fight (en) [scanA, scanB].cbz");

    assert_eq!(c.volume, Some(12));
    assert_eq!(chapter_number(&c), Some(4.5));
    assert_eq!(c.translators, vec!["scanA", "scanB"]);
    assert_eq!(c.title, Some("Final Fight".into()));
}

#[test]
fn test_hash_prefixed() {
    let c = parse("Series #7.cbz");
    assert_eq!(chapter_number(&c), Some(7.0));
}

#[test]
fn test_bare_number_fallback() {
    let c = parse("Night 44.cbz");
    assert_eq!(chapter_number(&c), Some(44.0));
    assert_eq!(c.title, Some("Night 44".into()));
}

#[test]
fn test_double_ch() {
    let c = parse("Ch.081.4 - High School Girls are Funky: Ch14 - Endurance.cbz");

    assert_eq!(chapter_number(&c), Some(81.4));
    assert_eq!(
        c.title,
        Some("High School Girls are Funky Ch14 Endurance".into())
    );
    assert_eq!(c.volume, None);
    assert_eq!(c.translators, Vec::<String>::new());
}

#[test]
fn test_word_with_ch() {
    let c = parse("Vol.03 Ch.0022 - Chika Fujiwara Wants to be Eaten (en) [Psylocke Scans].cbz");

    assert_eq!(c.volume, Some(3));
    assert_eq!(chapter_number(&c), Some(22.0));
    assert_eq!(c.title, Some("Chika Fujiwara Wants to be Eaten".into()));
    assert_eq!(c.translators, vec!["Psylocke Scans"]);
}

#[test]
fn test_number_in_the_title() {
    let c = parse("Vol.02 Ch.0006 - Episode 6 (en) [I post what I like].cbz");

    assert_eq!(c.volume, Some(2));
    assert_eq!(chapter_number(&c), Some(6.0));
    assert_eq!(c.title, Some("Episode 6".into()));
    assert_eq!(c.translators, vec!["I post what I like"]);
}

#[test]
fn test_number_with_hash_in_the_title() {
    let c = parse("Chap 3: The Desire to Be #1.cbz");

    assert_eq!(chapter_number(&c), Some(3.0));
    assert_eq!(c.title, Some("The Desire to Be #1".into()));
    assert_eq!(c.volume, None);
    assert_eq!(c.translators, Vec::<String>::new());
}

#[test]
fn test_double_square_brackets() {
    let c = parse("Vol.02 Ch.0015.5 - Volume[1-2] Illustrations (en) [ROCK-paper-SCISSORS].cbz");

    assert_eq!(c.volume, Some(2));
    assert_eq!(chapter_number(&c), Some(15.5));
    assert_eq!(c.title, Some("Volume[1-2] Illustrations".into()));
    assert_eq!(c.translators, vec!["ROCK-paper-SCISSORS"]);
}

#[test]
fn test_chapter_and_ch_in_title() {
    let c = parse("Chapter 29           : Cheep Talk.cbz");

    assert_eq!(chapter_number(&c), Some(29.0));
    assert_eq!(c.volume, None);
    assert_eq!(c.title, Some("Cheep Talk".into()));
    assert_eq!(c.translators, Vec::<String>::new());
}

#[test]
fn no_chapter_token_keeps_every_word_as_title() {
    let c = parse("Special Chapter.cbz");
    assert_eq!(c.chapter.as_ref().map(|d| d.to_text()), None);
    assert_eq!(c.title, Some("Special Chapter".into()));
}

#[test]
fn empty_name_gives_empty_descriptor() {
    let c = parse(".cbz");
    assert_eq!(c.volume, None);
    assert!(c.chapter.is_none());
    assert_eq!(c.title, None);
    assert!(c.translators.is_empty());
}

#[test]
fn path_is_kept() {
    let c = parse_filename("/lib/Series/Ch.1.cbz".to_string(), "Ch.1.cbz");
    assert_eq!(c.path, "/lib/Series/Ch.1.cbz");
}

#[test]
fn long_language_group_is_title() {
    let c = parse("Ch.1 Title (extra).cbz");
    assert_eq!(c.title, Some("Title (extra)".into()));
}

#[test]
fn volume_without_number_is_dropped() {
    let c = parse("Vol Ch.3 Title.cbz");
    assert_eq!(c.volume, None);
    assert_eq!(chapter_number(&c), Some(3.0));
    assert_eq!(c.title, Some("Title".into()));
}

#[test]
fn chapter_prefix_recognition() {
    assert!(is_chapter_prefix("Ch"));
    assert!(is_chapter_prefix("ch.12"));
    assert!(is_chapter_prefix("EPISODE"));
    assert!(is_chapter_prefix("#12"));
    assert!(is_chapter_prefix("#"));
    assert!(!is_chapter_prefix("Chika"));
    assert!(!is_chapter_prefix("#1a"));
    assert!(!is_chapter_prefix("ch.x"));
}

#[test]
fn tokenizer_keeps_bracket_contents() {
    let t = tokenize_preserving_brackets("a-b [c-d: e] f:g");
    assert_eq!(t, vec!["a", "b", "[c-d: e]", "f", "g"]);
}
