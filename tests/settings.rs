use cbz_edit::config::{default_manga_dir, komf_url, komga_url, oneshots_dir, Config, KomfConfig, KomgaConfig};
use cbz_edit::komga::{parse_release_date, KomgaAuthor, KomgaBooksMetadata, KomgaSeriesBooksMetadata};
use cbz_edit::ui::spinner::Spinner as FramedSpinner;
use cbz_edit::ui::widgets::{Spinner, SpinnerState};
use cbz_edit::ui::{spinner_frame, Tab};

#[test]
fn default_settings() {
    assert_eq!(komf_url(), "http://127.0.0.1:8085");
    assert_eq!(komga_url(), "http://127.0.0.1:25600");
    assert_eq!(oneshots_dir(), "_oneshots");
    let k = KomgaConfig::default();
    assert_eq!(k.api_key, "");
    assert_eq!(KomfConfig::default().url, "http://127.0.0.1:8085");
    let c = Config::default();
    assert!(c.manga_dir.ends_with("Mangas"));
}

#[test]
fn paths() {
    assert_eq!(Config::get_log_path("/home/u/.config/cbz"), "/home/u/.config/cbz/cbz.log");
    assert_eq!(Config::get_log_path("/home/u/.config/cbz/"), "/home/u/.config/cbz/cbz.log");
    assert_eq!(Config::get_config_path(""), "config.toml");
    assert_eq!(default_manga_dir(Some("/home/u/Documents".to_string())), "/home/u/Documents/Mangas");
    assert_eq!(default_manga_dir(None), "./Mangas");
}

#[test]
fn authors_by_role() {
    let a = |n: &str, r: &str| KomgaAuthor { name: n.to_string(), role: r.to_string() };
    let authors = vec![a("W1", "writer"), a("P1", "penciller"), a("W2", "writer"), a("X", "letterer")];
    let m = KomgaSeriesBooksMetadata::from_authors(&authors);
    assert_eq!(m.writer, Some("W1".to_string()));
    assert_eq!(m.penciller, Some("P1".to_string()));
    assert_eq!(m.translator, None);
}

#[test]
fn release_dates() {
    assert_eq!(parse_release_date("2023-05-17"), (Some(2023), Some(5), Some(17)));
    assert_eq!(parse_release_date("2023"), (Some(2023), None, None));
    assert_eq!(parse_release_date("2023-13x"), (Some(2023), None, None));
    assert_eq!(parse_release_date("2023-01-02-03"), (Some(2023), Some(1), None));
    assert_eq!(parse_release_date("99999-1-300"), (None, Some(1), None));
    let m = KomgaBooksMetadata::from_parts("T".to_string(), None, None, &vec![], vec![], Some("2020-02-29".to_string()));
    assert_eq!((m.year, m.month, m.day), (Some(2020), Some(2), Some(29)));
}

#[test]
fn tabs_and_spinners() {
    assert_eq!(Tab::SeriesList.next(), Tab::ChaptersList);
    assert_eq!(Tab::ChaptersList.next(), Tab::Metadata);
    assert_eq!(Tab::Metadata.next(), Tab::Metadata);
    assert_eq!(Tab::SeriesList.previous(), Tab::ChaptersList);
    assert_eq!(Tab::ChaptersList.previous(), Tab::SeriesList);
    assert_eq!(Tab::Search.previous(), Tab::Search);
    let mut s = SpinnerState { tick_count: usize::MAX };
    s.tick();
    assert_eq!(s.tick_count, 0);
    s.tick();
    assert_eq!(s.frame(), '⠙');
    assert_eq!(spinner_frame(10), '⠋');
    assert_eq!(Spinner::new("Loading").title, "Loading");
    let f = FramedSpinner::new("x", 12);
    assert_eq!(f.symbol(), '⠹');
}
