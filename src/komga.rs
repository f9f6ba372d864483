//! The records that the cataloging server hands out, and how its author
//! lists and release dates read into book metadata.

use vstd::prelude::*;
use crate::codec::{u16_of, u8_of};
use crate::decimal::Decimal;
use crate::text::{chars_of, parse_u32, slice_chars, opt_string_view};

verus! {

/// One author of a book or series, with their role (`writer`, ...).
#[derive(Debug, Clone)]
pub struct KomgaAuthor {
    pub name: String,
    pub role: String,
}

/// Series metadata as the server keeps it.
#[derive(Debug)]
pub struct KomgaSeriesMetadata {
    pub title: String,
    pub summary: String,
    pub publisher: String,
    pub age_rating: Option<u32>,
    pub language: Option<String>,
    pub genres: Vec<String>,
    pub tags: Vec<String>,
    pub total_book_count: Option<u32>,
}

/// The people credited across the books of a series.
#[derive(Debug)]
pub struct KomgaSeriesBooksMetadata {
    pub writer: Option<String>,
    pub penciller: Option<String>,
    pub translator: Option<String>,
}

/// A series on the server.
#[derive(Debug)]
pub struct KomgaSeries {
    pub id: String,
    pub library_id: String,
    pub name: String,
    pub url: String,
    pub books_count: u32,
    pub oneshot: bool,
    pub metadata: KomgaSeriesMetadata,
}

/// Book metadata as the server keeps it.
#[derive(Debug)]
pub struct KomgaBooksMetadata {
    pub title: String,
    pub summary: Option<String>,
    pub number: Option<Decimal>,
    pub tags: Vec<String>,
    pub writer: Option<String>,
    pub penciller: Option<String>,
    pub translator: Option<String>,
    pub year: Option<u16>,
    pub month: Option<u16>,
    pub day: Option<u8>,
}

/// What the server knows of a book's pages.
#[derive(Debug)]
pub struct KomgaBooksMedia {
    pub pages_count: u32,
}

/// A book on the server.
#[derive(Debug)]
pub struct KomgaBook {
    pub id: String,
    pub series_id: String,
    pub series_title: String,
    pub library_id: String,
    pub name: String,
    pub url: String,
    pub number: u32,
    pub oneshot: bool,
    pub metadata: KomgaBooksMetadata,
    pub media: KomgaBooksMedia,
}

/// The kinds of item that a listing of the server holds.
pub trait KomgaItem {
}

impl KomgaItem for KomgaSeries {
}

impl KomgaItem for KomgaBook {
}

/// One page of a listing of the server.
#[derive(Debug)]
pub struct KomgaResponse<T: KomgaItem> {
    pub total_elements: i64,
    pub total_pages: i32,
    pub content: Vec<T>,
}

/// The name of the first author in `authors[i..]` whose role is `role`.
pub open spec fn first_with_role(authors: Seq<KomgaAuthor>, role: Seq<char>, i: int) -> Option<Seq<char>>
    decreases authors.len() - i,
{
    if i < 0 || i >= authors.len() {
        None
    } else if authors[i].role@ == role {
        Some(authors[i].name@)
    } else {
        first_with_role(authors, role, i + 1)
    }
}

fn same_string(a: &String, b: &str) -> (r: bool)
    ensures
        r == (a@ == b@),
{
    let x = chars_of(a.as_str());
    let y = chars_of(b);
    if x.len() != y.len() {
        return false;
    }
    let mut i: usize = 0;
    while i < x.len()
        invariant
            x@.len() == y@.len(),
            x@ == a@,
            y@ == b@,
            i <= x@.len(),
            forall|j: int| 0 <= j < i ==> x@[j] == y@[j],
        decreases x@.len() - i,
    {
        if x[i] != y[i] {
            assert(x@[i as int] != y@[i as int]);
            return false;
        }
        i += 1;
    }
    assert(x@ =~= y@);
    true
}

/// The name of the first author whose role is `role`.
pub fn first_author(authors: &Vec<KomgaAuthor>, role: &str) -> (r: Option<String>)
    ensures
        opt_string_view(r) == first_with_role(authors@, role@, 0),
{
    let mut i: usize = 0;
    while i < authors.len()
        invariant
            i <= authors@.len(),
            first_with_role(authors@, role@, i as int) == first_with_role(authors@, role@, 0),
        decreases authors@.len() - i,
    {
        if same_string(&authors[i].role, role) {
            return Some(authors[i].name.clone());
        }
        i += 1;
    }
    None
}

impl KomgaSeriesBooksMetadata {
    /// The first writer, penciller and translator among `authors`.
    pub fn from_authors(authors: &Vec<KomgaAuthor>) -> (r: KomgaSeriesBooksMetadata)
        ensures
            opt_string_view(r.writer) == first_with_role(authors@, "writer"@, 0),
            opt_string_view(r.penciller) == first_with_role(authors@, "penciller"@, 0),
            opt_string_view(r.translator) == first_with_role(authors@, "translator"@, 0),
    {
        KomgaSeriesBooksMetadata {
            writer: first_author(authors, "writer"),
            penciller: first_author(authors, "penciller"),
            translator: first_author(authors, "translator"),
        }
    }
}

/// Index of the first `c` in `s` at or after `i`, or the length.
pub open spec fn find_from(s: Seq<char>, c: char, i: int) -> int
    decreases s.len() - i,
{
    if i < 0 || i >= s.len() || s[i] == c {
        i
    } else {
        find_from(s, c, i + 1)
    }
}

/// Year, month and day of a release date `year-month-day`: the text is cut
/// at its first two dashes, and each part that does not parse is absent.
pub open spec fn release_date_parts(s: Seq<char>) -> (Option<u16>, Option<u16>, Option<u8>) {
    let a = find_from(s, '-', 0);
    if a >= s.len() {
        (u16_of(s), None, None)
    } else {
        let b = find_from(s, '-', a + 1);
        if b >= s.len() {
            (u16_of(s.subrange(0, a)), u16_of(s.subrange(a + 1, s.len() as int)), None)
        } else {
            (u16_of(s.subrange(0, a)), u16_of(s.subrange(a + 1, b)), u8_of(s.subrange(b + 1, s.len() as int)))
        }
    }
}

fn find_char(v: &Vec<char>, c: char, from: usize) -> (r: usize)
    requires
        from <= v@.len(),
    ensures
        r == find_from(v@, c, from as int),
        from <= r <= v@.len(),
{
    let mut i = from;
    while i < v.len() && v[i] != c
        invariant
            from <= i <= v@.len(),
            find_from(v@, c, i as int) == find_from(v@, c, from as int),
        decreases v@.len() - i,
    {
        i += 1;
    }
    i
}

fn u16_in(v: &Vec<char>, from: usize, to: usize) -> (r: Option<u16>)
    requires
        from <= to <= v@.len(),
    ensures
        r == u16_of(v@.subrange(from as int, to as int)),
{
    match parse_u32(v, from, to) {
        Some(x) => if x <= 65535 { Some(x as u16) } else { None },
        None => None,
    }
}

fn u8_in(v: &Vec<char>, from: usize, to: usize) -> (r: Option<u8>)
    requires
        from <= to <= v@.len(),
    ensures
        r == u8_of(v@.subrange(from as int, to as int)),
{
    match parse_u32(v, from, to) {
        Some(x) => if x <= 255 { Some(x as u8) } else { None },
        None => None,
    }
}

/// Year, month and day of a release date (see [`release_date_parts`]).
pub fn parse_release_date(s: &str) -> (r: (Option<u16>, Option<u16>, Option<u8>))
    ensures
        r == release_date_parts(s@),
{
    let v = chars_of(s);
    let n = v.len();
    assert(v@.subrange(0, n as int) =~= v@);
    let a = find_char(&v, '-', 0);
    if a >= n {
        return (u16_in(&v, 0, n), None, None);
    }
    let b = find_char(&v, '-', a + 1);
    if b >= n {
        (u16_in(&v, 0, a), u16_in(&v, a + 1, n), None)
    } else {
        (u16_in(&v, 0, a), u16_in(&v, a + 1, b), u8_in(&v, b + 1, n))
    }
}

impl KomgaBooksMetadata {
    /// Book metadata from what the server sends: the first writer,
    /// penciller and translator among `authors`, and the parts of the
    /// release date.
    pub fn from_parts(
        title: String,
        summary: Option<String>,
        number: Option<Decimal>,
        authors: &Vec<KomgaAuthor>,
        tags: Vec<String>,
        release_date: Option<String>,
    ) -> (r: KomgaBooksMetadata)
        ensures
            r.title@ == title@,
            opt_string_view(r.summary) == opt_string_view(summary),
            r.number == number,
            r.tags@ == tags@,
            opt_string_view(r.writer) == first_with_role(authors@, "writer"@, 0),
            opt_string_view(r.penciller) == first_with_role(authors@, "penciller"@, 0),
            opt_string_view(r.translator) == first_with_role(authors@, "translator"@, 0),
            release_date matches Some(d) ==> (r.year, r.month, r.day) == release_date_parts(d@),
            release_date is None ==> r.year is None && r.month is None && r.day is None,
    {
        let (year, month, day) = match &release_date {
            Some(d) => parse_release_date(d.as_str()),
            None => (None, None, None),
        };
        KomgaBooksMetadata {
            title,
            summary,
            number,
            tags,
            writer: first_author(authors, "writer"),
            penciller: first_author(authors, "penciller"),
            translator: first_author(authors, "translator"),
            year,
            month,
            day,
        }
    }
}

} // verus!
