//! The `ComicInfo.xml` record that describes one comic book, and the policies
//! that merge a stored record with a new one.

use vstd::prelude::*;
use crate::decimal::{opt_decimal_view, Decimal, DecimalModel};
use crate::text::{chars_of, opt_string_view, string_of};

verus! {

/// Whether the book is a manga; `YesAndRightToLeft` also sets the reading
/// direction.
#[derive(Debug, Clone, Copy, PartialEq, Eq, Structural)]
pub enum ComicInfoManga {
    Unknown,
    Yes,
    No,
    YesAndRightToLeft,
}

/// The age rating of a book.
#[derive(Debug, Clone, Copy, PartialEq, Eq, Structural)]
pub enum ComicInfoAgeRating {
    Unknown,
    /// Kodomo
    Everyone,
    /// Shonen / Shojo
    Teen,
    /// Seinen / Josei
    Mature17Plus,
    /// Hentai / Erotic
    AdultsOnly18Plus,
}

impl Default for ComicInfoManga {
    fn default() -> (r: Self)
        ensures
            r == ComicInfoManga::Unknown,
    {
        ComicInfoManga::Unknown
    }
}

impl Default for ComicInfoAgeRating {
    fn default() -> (r: Self)
        ensures
            r == ComicInfoAgeRating::Unknown,
    {
        ComicInfoAgeRating::Unknown
    }
}

pub open spec fn manga_text(m: ComicInfoManga) -> Seq<char> {
    match m {
        ComicInfoManga::Yes => seq!['Y', 'e', 's'],
        ComicInfoManga::No => seq!['N', 'o'],
        ComicInfoManga::YesAndRightToLeft => seq![
            'Y', 'e', 's', 'A', 'n', 'd', 'R', 'i', 'g', 'h', 't', 'T', 'o', 'L', 'e', 'f', 't',
        ],
        ComicInfoManga::Unknown => seq!['U', 'n', 'k', 'n', 'o', 'w', 'n'],
    }
}

/// The manga flag that a text names; any other text is `Unknown`.
pub open spec fn manga_of(s: Seq<char>) -> ComicInfoManga {
    if s == manga_text(ComicInfoManga::Yes) {
        ComicInfoManga::Yes
    } else if s == manga_text(ComicInfoManga::No) {
        ComicInfoManga::No
    } else if s == manga_text(ComicInfoManga::YesAndRightToLeft) {
        ComicInfoManga::YesAndRightToLeft
    } else {
        ComicInfoManga::Unknown
    }
}

pub open spec fn age_rating_text(a: ComicInfoAgeRating) -> Seq<char> {
    match a {
        ComicInfoAgeRating::Everyone => seq!['E', 'v', 'e', 'r', 'y', 'o', 'n', 'e'],
        ComicInfoAgeRating::Teen => seq!['T', 'e', 'e', 'n'],
        ComicInfoAgeRating::Mature17Plus => seq!['M', 'a', 't', 'u', 'r', 'e', ' ', '1', '7', '+'],
        ComicInfoAgeRating::AdultsOnly18Plus => seq![
            'A', 'd', 'u', 'l', 't', 's', ' ', 'O', 'n', 'l', 'y', ' ', '1', '8', '+',
        ],
        ComicInfoAgeRating::Unknown => seq!['U', 'n', 'k', 'n', 'o', 'w', 'n'],
    }
}

/// The age rating that a text names; any other text is `Unknown`.
pub open spec fn age_rating_of(s: Seq<char>) -> ComicInfoAgeRating {
    if s == age_rating_text(ComicInfoAgeRating::Everyone) {
        ComicInfoAgeRating::Everyone
    } else if s == age_rating_text(ComicInfoAgeRating::Teen) {
        ComicInfoAgeRating::Teen
    } else if s == age_rating_text(ComicInfoAgeRating::Mature17Plus) {
        ComicInfoAgeRating::Mature17Plus
    } else if s == age_rating_text(ComicInfoAgeRating::AdultsOnly18Plus) {
        ComicInfoAgeRating::AdultsOnly18Plus
    } else {
        ComicInfoAgeRating::Unknown
    }
}

fn same_chars(v: &Vec<char>, w: &Vec<char>) -> (r: bool)
    ensures
        r == (v@ == w@),
{
    if v.len() != w.len() {
        return false;
    }
    let mut i: usize = 0;
    while i < v.len()
        invariant
            v@.len() == w@.len(),
            i <= v@.len(),
            forall|j: int| 0 <= j < i ==> v@[j] == w@[j],
        decreases v@.len() - i,
    {
        if v[i] != w[i] {
            return false;
        }
        i += 1;
    }
    assert(v@ =~= w@);
    true
}

fn text_string(v: Vec<char>) -> (r: String)
    ensures
        r@ == v@,
{
    assert(v@.subrange(0, v@.len() as int) =~= v@);
    string_of(&v, 0, v.len())
}

fn manga_chars(m: ComicInfoManga) -> (r: Vec<char>)
    ensures
        r@ == manga_text(m),
{
    let r = match m {
        ComicInfoManga::Yes => vec!['Y', 'e', 's'],
        ComicInfoManga::No => vec!['N', 'o'],
        ComicInfoManga::YesAndRightToLeft => vec![
            'Y', 'e', 's', 'A', 'n', 'd', 'R', 'i', 'g', 'h', 't', 'T', 'o', 'L', 'e', 'f', 't',
        ],
        ComicInfoManga::Unknown => vec!['U', 'n', 'k', 'n', 'o', 'w', 'n'],
    };
    assert(r@ =~= manga_text(m));
    r
}

fn age_rating_chars(a: ComicInfoAgeRating) -> (r: Vec<char>)
    ensures
        r@ == age_rating_text(a),
{
    let r = match a {
        ComicInfoAgeRating::Everyone => vec!['E', 'v', 'e', 'r', 'y', 'o', 'n', 'e'],
        ComicInfoAgeRating::Teen => vec!['T', 'e', 'e', 'n'],
        ComicInfoAgeRating::Mature17Plus => vec!['M', 'a', 't', 'u', 'r', 'e', ' ', '1', '7', '+'],
        ComicInfoAgeRating::AdultsOnly18Plus => vec![
            'A', 'd', 'u', 'l', 't', 's', ' ', 'O', 'n', 'l', 'y', ' ', '1', '8', '+',
        ],
        ComicInfoAgeRating::Unknown => vec!['U', 'n', 'k', 'n', 'o', 'w', 'n'],
    };
    assert(r@ =~= age_rating_text(a));
    r
}

impl ComicInfoManga {
    /// The flag's text in the record (`Yes`, `No`, `YesAndRightToLeft`,
    /// `Unknown`).
    pub fn to_text(&self) -> (r: String)
        ensures
            r@ == manga_text(*self),
    {
        text_string(manga_chars(*self))
    }

    /// The flag that `s` names; `Unknown` for any other text.
    pub fn from_text(s: &str) -> (r: Self)
        ensures
            r == manga_of(s@),
    {
        let v = chars_of(s);
        if same_chars(&v, &manga_chars(ComicInfoManga::Yes)) {
            ComicInfoManga::Yes
        } else if same_chars(&v, &manga_chars(ComicInfoManga::No)) {
            ComicInfoManga::No
        } else if same_chars(&v, &manga_chars(ComicInfoManga::YesAndRightToLeft)) {
            ComicInfoManga::YesAndRightToLeft
        } else {
            ComicInfoManga::Unknown
        }
    }
}

impl ComicInfoAgeRating {
    /// The rating's text in the record (`Everyone`, `Teen`, `Mature 17+`,
    /// `Adults Only 18+`, `Unknown`).
    pub fn to_text(&self) -> (r: String)
        ensures
            r@ == age_rating_text(*self),
    {
        text_string(age_rating_chars(*self))
    }

    /// The rating that `s` names; `Unknown` for any other text.
    pub fn from_text(s: &str) -> (r: Self)
        ensures
            r == age_rating_of(s@),
    {
        let v = chars_of(s);
        if same_chars(&v, &age_rating_chars(ComicInfoAgeRating::Everyone)) {
            ComicInfoAgeRating::Everyone
        } else if same_chars(&v, &age_rating_chars(ComicInfoAgeRating::Teen)) {
            ComicInfoAgeRating::Teen
        } else if same_chars(&v, &age_rating_chars(ComicInfoAgeRating::Mature17Plus)) {
            ComicInfoAgeRating::Mature17Plus
        } else if same_chars(&v, &age_rating_chars(ComicInfoAgeRating::AdultsOnly18Plus)) {
            ComicInfoAgeRating::AdultsOnly18Plus
        } else {
            ComicInfoAgeRating::Unknown
        }
    }
}

/// The content of a [`ComicInfo`] record.
pub struct ComicInfoModel {
    pub title: Seq<char>,
    pub series: Seq<char>,
    pub number: Option<DecimalModel>,
    pub volume: Option<u32>,
    pub summary: Option<Seq<char>>,
    pub year: Option<u16>,
    pub month: Option<u16>,
    pub day: Option<u8>,
    pub writer: Option<Seq<char>>,
    pub penciller: Option<Seq<char>>,
    pub translator: Option<Seq<char>>,
    pub publisher: Option<Seq<char>>,
    pub genre: Option<Seq<char>>,
    pub tags: Option<Seq<char>>,
    pub web: Option<Seq<char>>,
    pub page_count: Option<u32>,
    pub language_iso: Option<Seq<char>>,
    pub manga: ComicInfoManga,
    pub age_rating: ComicInfoAgeRating,
    pub count: Option<u32>,
}

/// Information about a comic book, as the `ComicInfo.xml` entry of its
/// archive holds it.
#[derive(Debug, Clone, PartialEq)]
pub struct ComicInfo {
    /// Title of the book.
    pub title: String,
    /// Title of the series the book is part of.
    pub series: String,
    /// Number of the book in the series.
    pub number: Option<Decimal>,
    /// Volume containing the book.
    pub volume: Option<u32>,
    /// A description or summary of the book.
    pub summary: Option<String>,
    /// Release year of the book.
    pub year: Option<u16>,
    /// Release month of the book.
    pub month: Option<u16>,
    /// Release day of the book.
    pub day: Option<u8>,
    /// Writers, comma separated.
    pub writer: Option<String>,
    /// Pencillers, comma separated.
    pub penciller: Option<String>,
    /// Translators, comma separated.
    pub translator: Option<String>,
    /// Publisher of the book.
    pub publisher: Option<String>,
    /// Genres, comma separated.
    pub genre: Option<String>,
    /// Tags, comma separated.
    pub tags: Option<String>,
    /// Reference web sites, space separated.
    pub web: Option<String>,
    /// The number of pages in the book.
    pub page_count: Option<u32>,
    /// A language code describing the language of the book.
    pub language_iso: Option<String>,
    /// Whether the book is a manga.
    pub manga: ComicInfoManga,
    /// The age rating of the book.
    pub age_rating: ComicInfoAgeRating,
    /// The total number of books in the series.
    pub count: Option<u32>,
}

impl View for ComicInfo {
    type V = ComicInfoModel;

    open spec fn view(&self) -> ComicInfoModel {
        ComicInfoModel {
            title: self.title@,
            series: self.series@,
            number: opt_decimal_view(self.number),
            volume: self.volume,
            summary: opt_string_view(self.summary),
            year: self.year,
            month: self.month,
            day: self.day,
            writer: opt_string_view(self.writer),
            penciller: opt_string_view(self.penciller),
            translator: opt_string_view(self.translator),
            publisher: opt_string_view(self.publisher),
            genre: opt_string_view(self.genre),
            tags: opt_string_view(self.tags),
            web: opt_string_view(self.web),
            page_count: self.page_count,
            language_iso: opt_string_view(self.language_iso),
            manga: self.manga,
            age_rating: self.age_rating,
            count: self.count,
        }
    }
}

/// The empty record: empty title and series, every optional field absent,
/// both flags `Unknown`.
pub open spec fn empty_record() -> ComicInfoModel {
    ComicInfoModel {
        title: Seq::empty(),
        series: Seq::empty(),
        number: None,
        volume: None,
        summary: None,
        year: None,
        month: None,
        day: None,
        writer: None,
        penciller: None,
        translator: None,
        publisher: None,
        genre: None,
        tags: None,
        web: None,
        page_count: None,
        language_iso: None,
        manga: ComicInfoManga::Unknown,
        age_rating: ComicInfoAgeRating::Unknown,
        count: None,
    }
}

/// `old` with the fields shared by every chapter of a series taken from `new`.
pub open spec fn with_shared_fields(old: ComicInfoModel, new: ComicInfoModel) -> ComicInfoModel {
    ComicInfoModel {
        series: new.series,
        summary: new.summary,
        writer: new.writer,
        penciller: new.penciller,
        publisher: new.publisher,
        genre: new.genre,
        tags: new.tags,
        web: new.web,
        language_iso: new.language_iso,
        manga: new.manga,
        age_rating: new.age_rating,
        count: new.count,
        ..old
    }
}

/// `old` with the fields that a file name gives taken from `new`.
pub open spec fn with_derived_fields(old: ComicInfoModel, new: ComicInfoModel) -> ComicInfoModel {
    ComicInfoModel {
        title: new.title,
        translator: new.translator,
        number: new.number,
        volume: new.volume,
        ..old
    }
}

/// `old` with the volume of `new`.
pub open spec fn with_volume(old: ComicInfoModel, new: ComicInfoModel) -> ComicInfoModel {
    ComicInfoModel { volume: new.volume, ..old }
}

/// How a stored record and a new one are combined.
#[derive(Debug, Clone, Copy, PartialEq, Eq, Structural)]
pub enum MergePolicy {
    /// The new record, whole.
    ReplaceAll,
    /// The stored record with the fields shared across a series taken from the
    /// new one.
    MergeShared,
    /// The stored record with title, translator, number and volume taken from
    /// the new one.
    DeriveFromFilename,
    /// The stored record with the volume of the new one.
    VolumeOnly,
}

/// The record that `policy` makes of the stored record `existing` and the new
/// record `candidate`.
pub open spec fn merged(policy: MergePolicy, existing: ComicInfoModel, candidate: ComicInfoModel) -> ComicInfoModel {
    match policy {
        MergePolicy::ReplaceAll => candidate,
        MergePolicy::MergeShared => with_shared_fields(existing, candidate),
        MergePolicy::DeriveFromFilename => with_derived_fields(existing, candidate),
        MergePolicy::VolumeOnly => with_volume(existing, candidate),
    }
}

pub fn clone_string(s: &String) -> (r: String)
    ensures
        r@ == s@,
{
    s.clone()
}

pub fn clone_opt_string(s: &Option<String>) -> (r: Option<String>)
    ensures
        opt_string_view(r) == opt_string_view(*s),
{
    match s {
        Some(s) => Some(s.clone()),
        None => None,
    }
}

pub fn clone_opt_decimal(d: &Option<Decimal>) -> (r: Option<Decimal>)
    ensures
        opt_decimal_view(r) == opt_decimal_view(*d),
{
    match d {
        Some(d) => Some(d.clone()),
        None => None,
    }
}

impl ComicInfo {
    /// The empty record.
    pub fn empty() -> (r: ComicInfo)
        ensures
            r@ == empty_record(),
    {
        ComicInfo {
            title: String::new(),
            series: String::new(),
            number: None,
            volume: None,
            summary: None,
            year: None,
            month: None,
            day: None,
            writer: None,
            penciller: None,
            translator: None,
            publisher: None,
            genre: None,
            tags: None,
            web: None,
            page_count: None,
            language_iso: None,
            manga: ComicInfoManga::Unknown,
            age_rating: ComicInfoAgeRating::Unknown,
            count: None,
        }
    }

    /// An empty record whose title and series are both `title`.
    pub fn new(title: String) -> (r: ComicInfo)
        ensures
            r@ == (ComicInfoModel { title: title@, series: title@, ..empty_record() }),
    {
        let mut r = ComicInfo::empty();
        r.title = title.clone();
        r.series = title;
        r
    }

    /// A copy of the record.
    pub fn duplicate(&self) -> (r: ComicInfo)
        ensures
            r@ == self@,
    {
        ComicInfo {
            title: clone_string(&self.title),
            series: clone_string(&self.series),
            number: clone_opt_decimal(&self.number),
            volume: self.volume,
            summary: clone_opt_string(&self.summary),
            year: self.year,
            month: self.month,
            day: self.day,
            writer: clone_opt_string(&self.writer),
            penciller: clone_opt_string(&self.penciller),
            translator: clone_opt_string(&self.translator),
            publisher: clone_opt_string(&self.publisher),
            genre: clone_opt_string(&self.genre),
            tags: clone_opt_string(&self.tags),
            web: clone_opt_string(&self.web),
            page_count: self.page_count,
            language_iso: clone_opt_string(&self.language_iso),
            manga: self.manga,
            age_rating: self.age_rating,
            count: self.count,
        }
    }

    /// Takes from `comic_info` the fields that are the same across all chapters
    /// of a series.
    pub fn update_shared_fields(&mut self, comic_info: &Self)
        ensures
            final(self)@ == with_shared_fields(old(self)@, comic_info@),
    {
        self.series = clone_string(&comic_info.series);
        self.summary = clone_opt_string(&comic_info.summary);
        self.writer = clone_opt_string(&comic_info.writer);
        self.penciller = clone_opt_string(&comic_info.penciller);
        self.publisher = clone_opt_string(&comic_info.publisher);
        self.genre = clone_opt_string(&comic_info.genre);
        self.tags = clone_opt_string(&comic_info.tags);
        self.web = clone_opt_string(&comic_info.web);
        self.language_iso = clone_opt_string(&comic_info.language_iso);
        self.manga = comic_info.manga;
        self.age_rating = comic_info.age_rating;
        self.count = comic_info.count;
    }

    /// Takes from `comic_info` the fields that can be derived from a file name.
    pub fn update_derived_fields(&mut self, comic_info: &Self)
        ensures
            final(self)@ == with_derived_fields(old(self)@, comic_info@),
    {
        self.title = clone_string(&comic_info.title);
        self.translator = clone_opt_string(&comic_info.translator);
        self.number = clone_opt_decimal(&comic_info.number);
        self.volume = comic_info.volume;
    }

    /// Takes the volume number from `comic_info`.
    pub fn update_volume(&mut self, comic_info: &Self)
        ensures
            final(self)@ == with_volume(old(self)@, comic_info@),
    {
        self.volume = comic_info.volume;
    }
}

impl MergePolicy {
    /// The record that this policy makes of the stored record `existing` and
    /// the new record `candidate`.
    pub fn merge(&self, existing: ComicInfo, candidate: &ComicInfo) -> (r: ComicInfo)
        ensures
            r@ == merged(*self, existing@, candidate@),
    {
        let mut r = existing;
        match self {
            MergePolicy::ReplaceAll => {
                r = candidate.duplicate();
            },
            MergePolicy::MergeShared => {
                r.update_shared_fields(candidate);
            },
            MergePolicy::DeriveFromFilename => {
                r.update_derived_fields(candidate);
            },
            MergePolicy::VolumeOnly => {
                r.update_volume(candidate);
            },
        }
        r
    }
}

/// A merge depends on nothing but the policy and the two records: equal
/// inputs give equal results.
pub proof fn lemma_merge_deterministic(
    policy: MergePolicy,
    existing1: ComicInfoModel,
    candidate1: ComicInfoModel,
    existing2: ComicInfoModel,
    candidate2: ComicInfoModel,
)
    requires
        existing1 == existing2,
        candidate1 == candidate2,
    ensures
        merged(policy, existing1, candidate1) == merged(policy, existing2, candidate2),
{
}

/// Merging the same candidate a second time changes nothing.
pub proof fn lemma_merge_idempotent(policy: MergePolicy, existing: ComicInfoModel, candidate: ComicInfoModel)
    ensures
        merged(policy, merged(policy, existing, candidate), candidate) == merged(policy, existing, candidate),
{
}

} // verus!
