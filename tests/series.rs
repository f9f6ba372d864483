use std::cmp::Ordering;

use cbz_edit::filename::parse_filename;
use cbz_edit::series::{compare_chapters, sort_chapters, Series};

fn chapter(path: &str) -> cbz_edit::filename::Chapter {
    let name = path.rsplit('/').next().unwrap();
    parse_filename(path.to_string(), name)
}

#[test]
fn chapters_sort_by_number_then_path() {
    let v = vec![
        chapter("/s/Ch.10.cbz"),
        chapter("/s/Ch.2.cbz"),
        chapter("/s/b Special.cbz"),
        chapter("/s/Ch.2.5.cbz"),
        chapter("/s/a Extra.cbz"),
        chapter("/s/Ch.0010.cbz"),
    ];
    let sorted = sort_chapters(v);
    let paths: Vec<&str> = sorted.iter().map(|c| c.path.as_str()).collect();
    assert_eq!(
        paths,
        vec!["/s/a Extra.cbz", "/s/b Special.cbz", "/s/Ch.2.cbz", "/s/Ch.2.5.cbz", "/s/Ch.0010.cbz", "/s/Ch.10.cbz"]
    );
}

#[test]
fn chapter_comparison() {
    assert_eq!(compare_chapters(&chapter("/s/Ch.9.cbz"), &chapter("/s/Ch.10.cbz")), Ordering::Less);
    assert_eq!(compare_chapters(&chapter("/s/Ch.10.5.cbz"), &chapter("/s/Ch.10.25.cbz")), Ordering::Greater);
    assert_eq!(compare_chapters(&chapter("/s/Ch.1.cbz"), &chapter("/s/Ch.1.cbz")), Ordering::Equal);
    assert_eq!(compare_chapters(&chapter("/s/x.cbz"), &chapter("/s/Ch.0.cbz")), Ordering::Greater);
}

#[test]
fn series_keeps_every_chapter() {
    let s = Series::new("/s".to_string(), "S".to_string(), vec![chapter("/s/Ch.3.cbz"), chapter("/s/Ch.1.cbz")]);
    assert_eq!(s.chapters.len(), 2);
    assert_eq!(s.chapters[0].path, "/s/Ch.1.cbz");
    assert!(sort_chapters(Vec::new()).is_empty());
}

use cbz_edit::series::{contains_str, matching_indices, SeriesList};

fn list(names: &[&str]) -> SeriesList {
    SeriesList::new(names.iter().map(|n| Series::new(format!("/lib/{n}"), n.to_string(), Vec::new())).collect())
}

#[test]
fn search_is_case_blind_and_selects_the_first_match() {
    let mut l = list(&["Alpha", "beta", "ALPHABET", "Gamma"]);
    l.search_text = Some("alpha".to_string());
    l.search();
    assert_eq!(l.found, (0, vec![0, 2]));
    assert_eq!(l.selected, Some(0));
    l.next_search();
    assert_eq!(l.selected, Some(2));
    l.next_search();
    assert_eq!(l.selected, Some(0));
    l.prev_search();
    assert_eq!(l.selected, Some(2));
}

#[test]
fn search_without_match_selects_nothing() {
    let mut l = list(&["Alpha", "Beta"]);
    l.search_text = Some("zeta".to_string());
    l.search();
    assert_eq!(l.found, (0, vec![]));
    assert_eq!(l.selected, None);
    l.next_search();
    assert_eq!(l.selected, None);
}

#[test]
fn blank_search_keeps_the_selection() {
    let mut l = list(&["Alpha", "Beta"]);
    l.selected = Some(1);
    l.search_text = Some(String::new());
    l.next_search();
    assert_eq!(l.selected, Some(1));
    l.search_text = None;
    l.search();
    assert_eq!(l.selected, Some(1));
}

#[test]
fn substring_helpers() {
    assert!(contains_str("abcabd", "abd"));
    assert!(contains_str("abc", ""));
    assert!(!contains_str("ab", "abc"));
    assert_eq!(matching_indices(&vec!["xa".to_string(), "b".to_string(), "a".to_string()], "a"), vec![0, 2]);
}

use cbz_edit::series::{components_of, sort_series};
use std::path::Path;

#[test]
fn ties_break_by_path_components() {
    let paths = [
        "a/b", "a-b", "a//b", "a/b/", "./a", "a", "/a", "../a", "a/./b", "a/../b", ".", "", "/", "b/a", "A",
    ];
    for x in paths {
        for y in paths {
            let cx = parse_filename(x.to_string(), "Ch.1.cbz");
            let cy = parse_filename(y.to_string(), "Ch.1.cbz");
            assert_eq!(compare_chapters(&cx, &cy), Path::new(x).cmp(Path::new(y)), "{x} vs {y}");
        }
    }
    assert_eq!(components_of("/x//y/./z/").len(), 4);
}

#[test]
fn series_sort_by_lower_case_name() {
    let mk = |n: &str| Series::new(format!("/lib/{n}"), n.to_string(), Vec::new());
    let sorted = sort_series(vec![mk("beta"), mk("Alpha"), mk("alpha"), mk("Gamma")]);
    let names: Vec<&str> = sorted.iter().map(|s| s.name.as_str()).collect();
    assert_eq!(names, vec!["Alpha", "alpha", "beta", "Gamma"]);
}
