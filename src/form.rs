//! The metadata form: one text field per field of a record, with the
//! field that has the focus, and the record that the texts describe.

use vstd::prelude::*;
use crate::codec::{field_facts, field_text, lemma_field_facts, record_wf, u16_of, u8_of};
use crate::comic_info::{
    age_rating_of, manga_of, ComicInfo, ComicInfoAgeRating, ComicInfoManga, ComicInfoModel,
};
use crate::decimal::{decimal_of, decimal_text, opt_decimal_view, Decimal, DecimalModel};
use crate::text::{
    chars_of, is_space, lemma_nat_text_ends, lemma_trim_unchanged, nat_text, opt_string_view, parse_u32, trim,
    trim_chars, u32_of,
};

verus! {

/// The labels of the form's fields, in the order of the record's fields; a
/// star marks the fields shared by a whole series.
pub open spec fn form_labels() -> Seq<Seq<char>> {
    seq![
        "Title"@,
        "Series*"@,
        "Number"@,
        "Volume"@,
        "Summary*"@,
        "Year"@,
        "Month"@,
        "Day"@,
        "Writer*"@,
        "Penciller*"@,
        "Translator"@,
        "Publisher*"@,
        "Genre*"@,
        "Tags*"@,
        "Web*"@,
        "Page Count"@,
        "Language ISO*"@,
        "Manga*"@,
        "Age Rating*"@,
        "Count*"@,
    ]
}

/// The text that the form shows for field `k` of `m`: the field's markup
/// text, or nothing for an absent field.
pub open spec fn form_text(m: ComicInfoModel, k: int) -> Seq<char> {
    match field_text(m, k) {
        Some(t) => t,
        None => Seq::empty(),
    }
}

/// The form of a record: labels, the text of each field, and the field that
/// has the focus.
#[derive(Debug)]
pub struct ComicInfoForm {
    /// Label and text of each field.
    pub fields: Vec<(String, String)>,
    /// The field that has the focus.
    pub active_index: usize,
}

pub open spec fn form_values(fields: Seq<(String, String)>) -> Seq<Seq<char>> {
    fields.map_values(|f: (String, String)| f.1@)
}

pub open spec fn form_label_views(fields: Seq<(String, String)>) -> Seq<Seq<char>> {
    fields.map_values(|f: (String, String)| f.0@)
}

/// A text field that is blank is absent; otherwise it is kept as typed.
pub open spec fn opt_text(s: Seq<char>) -> Option<Seq<char>> {
    if trim(s).len() == 0 {
        None
    } else {
        Some(s)
    }
}

/// The record that the texts of a form describe: numbers and flags are read
/// from the trimmed text; a blank or unreadable number is absent, an unknown
/// flag `Unknown`.
pub open spec fn form_record(v: Seq<Seq<char>>) -> ComicInfoModel {
    ComicInfoModel {
        title: v[0],
        series: v[1],
        number: decimal_of(trim(v[2])),
        volume: u32_of(trim(v[3])),
        summary: opt_text(v[4]),
        year: u16_of(trim(v[5])),
        month: u16_of(trim(v[6])),
        day: u8_of(trim(v[7])),
        writer: opt_text(v[8]),
        penciller: opt_text(v[9]),
        translator: opt_text(v[10]),
        publisher: opt_text(v[11]),
        genre: opt_text(v[12]),
        tags: opt_text(v[13]),
        web: opt_text(v[14]),
        page_count: u32_of(trim(v[15])),
        language_iso: opt_text(v[16]),
        manga: manga_of(trim(v[17])),
        age_rating: age_rating_of(trim(v[18])),
        count: u32_of(trim(v[19])),
    }
}

fn form_label(k: usize) -> (r: &'static str)
    requires
        k < 20,
    ensures
        r@ == form_labels()[k as int],
{
    match k {
        0 => "Title",
        1 => "Series*",
        2 => "Number",
        3 => "Volume",
        4 => "Summary*",
        5 => "Year",
        6 => "Month",
        7 => "Day",
        8 => "Writer*",
        9 => "Penciller*",
        10 => "Translator",
        11 => "Publisher*",
        12 => "Genre*",
        13 => "Tags*",
        14 => "Web*",
        15 => "Page Count",
        16 => "Language ISO*",
        17 => "Manga*",
        18 => "Age Rating*",
        _ => "Count*",
    }
}

/// The text as typed, or `None` when it is blank.
pub fn parse_opt_string(s: &str) -> (r: Option<String>)
    ensures
        opt_string_view(r) == opt_text(s@),
{
    let v = chars_of(s);
    let t = trim_chars(&v);
    if t.len() == 0 {
        None
    } else {
        Some(String::from_str(s))
    }
}

fn trimmed(s: &str) -> (r: Vec<char>)
    ensures
        r@ == trim(s@),
{
    let v = chars_of(s);
    trim_chars(&v)
}

/// The number in the trimmed text, if it reads as one.
pub fn parse_opt_decimal(s: &str) -> (r: Option<Decimal>)
    ensures
        opt_decimal_view(r) == decimal_of(trim(s@)),
{
    let t = trimmed(s);
    assert(t@.subrange(0, t@.len() as int) =~= t@);
    Decimal::parse_range(&t, 0, t.len())
}

/// The `u32` in the trimmed text, if it reads as one.
pub fn parse_opt_u32(s: &str) -> (r: Option<u32>)
    ensures
        r == u32_of(trim(s@)),
{
    let t = trimmed(s);
    assert(t@.subrange(0, t@.len() as int) =~= t@);
    parse_u32(&t, 0, t.len())
}

/// The `u16` in the trimmed text, if it reads as one.
pub fn parse_opt_u16(s: &str) -> (r: Option<u16>)
    ensures
        r == u16_of(trim(s@)),
{
    match parse_opt_u32(s) {
        Some(x) => if x <= 65535 { Some(x as u16) } else { None },
        None => None,
    }
}

/// The `u8` in the trimmed text, if it reads as one.
pub fn parse_opt_u8(s: &str) -> (r: Option<u8>)
    ensures
        r == u8_of(trim(s@)),
{
    match parse_opt_u32(s) {
        Some(x) => if x <= 255 { Some(x as u8) } else { None },
        None => None,
    }
}

/// A flag of a record that is read from its text.
pub trait TextEnum: Sized {
    spec fn of_text(s: Seq<char>) -> Self;

    fn from_text_value(s: &str) -> (r: Self)
        ensures
            r == Self::of_text(s@),
    ;
}

impl TextEnum for ComicInfoManga {
    open spec fn of_text(s: Seq<char>) -> Self {
        manga_of(s)
    }

    fn from_text_value(s: &str) -> (r: Self) {
        ComicInfoManga::from_text(s)
    }
}

impl TextEnum for ComicInfoAgeRating {
    open spec fn of_text(s: Seq<char>) -> Self {
        age_rating_of(s)
    }

    fn from_text_value(s: &str) -> (r: Self) {
        ComicInfoAgeRating::from_text(s)
    }
}

/// The flag that the trimmed text names. Every text names one (`Unknown`
/// for any text not listed), so the result is never `None`.
pub fn parse_enum<T: TextEnum>(s: &str) -> (r: Option<T>)
    ensures
        r == Some(T::of_text(trim(s@))),
{
    let t = trimmed(s);
    let ts = crate::codec::chars_to_string(&t);
    Some(T::from_text_value(ts.as_str()))
}

fn text_or_empty(t: Option<String>) -> (r: String)
    ensures
        r@ == match opt_string_view(t) {
            Some(x) => x,
            None => Seq::<char>::empty(),
        },
{
    match t {
        Some(x) => x,
        None => String::new(),
    }
}

/// The form is well formed: twenty fields, the focus on one of them.
pub open spec fn form_wf(f: &ComicInfoForm) -> bool {
    f.fields@.len() == 20 && f.active_index < 20
}

impl ComicInfoForm {
    /// The form of `info`, with the focus on its first field.
    pub fn new(info: &ComicInfo) -> (r: ComicInfoForm)
        ensures
            form_wf(&r),
            r.active_index == 0,
            form_label_views(r.fields@) == form_labels(),
            forall|k: int| 0 <= k < 20 ==> #[trigger] form_values(r.fields@)[k] == form_text(info@, k),
    {
        let mut fields: Vec<(String, String)> = Vec::new();
        let mut k: usize = 0;
        while k < 20
            invariant
                k <= 20,
                fields@.len() == k,
                forall|j: int| 0 <= j < k ==> #[trigger] fields@[j].0@ == form_labels()[j],
                forall|j: int| 0 <= j < k ==> #[trigger] fields@[j].1@ == form_text(info@, j),
            decreases 20 - k,
        {
            let label = String::from_str(form_label(k));
            let value = text_or_empty(crate::codec::field_text_of(info, k));
            fields.push((label, value));
            k += 1;
        }
        assert(form_label_views(fields@) =~= form_labels());
        ComicInfoForm { fields, active_index: 0 }
    }

    /// Moves the focus to the next field, round to the first.
    pub fn next(&mut self)
        requires
            form_wf(old(self)),
        ensures
            form_wf(final(self)),
            final(self).fields == old(self).fields,
            final(self).active_index == (old(self).active_index + 1) % 20,
    {
        self.active_index = (self.active_index + 1) % self.fields.len();
    }

    /// Moves the focus ten fields on, round past the last.
    pub fn next_side(&mut self)
        requires
            form_wf(old(self)),
        ensures
            form_wf(final(self)),
            final(self).fields == old(self).fields,
            final(self).active_index == (old(self).active_index + 10) % 20,
    {
        self.active_index = (self.active_index + 10) % self.fields.len();
    }

    /// Moves the focus to the previous field, round to the last.
    pub fn prev(&mut self)
        requires
            form_wf(old(self)),
        ensures
            form_wf(final(self)),
            final(self).fields == old(self).fields,
            final(self).active_index == (old(self).active_index + 19) % 20,
    {
        if self.active_index == 0 {
            self.active_index = self.fields.len() - 1;
        } else {
            self.active_index -= 1;
        }
    }

    /// Moves the focus ten fields back, round past the first.
    pub fn prev_side(&mut self)
        requires
            form_wf(old(self)),
        ensures
            form_wf(final(self)),
            final(self).fields == old(self).fields,
            final(self).active_index == (old(self).active_index + 10) % 20,
    {
        let n = self.fields.len();
        assert(n == 20);
        let step = 10 % n;
        assert(step == 10) by (nonlinear_arith)
            requires
                n == 20,
                step == 10usize % n,
        ;
        if self.active_index < step {
            self.active_index = n + self.active_index - step;
        } else {
            self.active_index -= step;
        }
    }

    /// The record that the form's texts describe (see [`form_record`]).
    pub fn to_comic_info(&self) -> (r: ComicInfo)
        requires
            form_wf(self),
        ensures
            r@ == form_record(form_values(self.fields@)),
    {
        let f = &self.fields;
        assert(forall|k: int| 0 <= k < 20 ==> #[trigger] form_values(f@)[k] == f@[k].1@);
        ComicInfo {
            title: f[0].1.clone(),
            series: f[1].1.clone(),
            number: parse_opt_decimal(f[2].1.as_str()),
            volume: parse_opt_u32(f[3].1.as_str()),
            summary: parse_opt_string(f[4].1.as_str()),
            year: parse_opt_u16(f[5].1.as_str()),
            month: parse_opt_u16(f[6].1.as_str()),
            day: parse_opt_u8(f[7].1.as_str()),
            writer: parse_opt_string(f[8].1.as_str()),
            penciller: parse_opt_string(f[9].1.as_str()),
            translator: parse_opt_string(f[10].1.as_str()),
            publisher: parse_opt_string(f[11].1.as_str()),
            genre: parse_opt_string(f[12].1.as_str()),
            tags: parse_opt_string(f[13].1.as_str()),
            web: parse_opt_string(f[14].1.as_str()),
            page_count: parse_opt_u32(f[15].1.as_str()),
            language_iso: parse_opt_string(f[16].1.as_str()),
            manga: parse_enum::<ComicInfoManga>(f[17].1.as_str()).unwrap_or(ComicInfoManga::Unknown),
            age_rating: parse_enum::<ComicInfoAgeRating>(f[18].1.as_str()).unwrap_or(ComicInfoAgeRating::Unknown),
            count: parse_opt_u32(f[19].1.as_str()),
        }
    }
}

/// The form while its record is being read, or ready.
#[derive(Debug)]
pub enum ComicFormState {
    Loading,
    Ready(ComicInfoForm),
}

impl ComicFormState {
    /// The record of a ready form.
    pub fn to_comic_info(&self) -> (r: Option<ComicInfo>)
        requires
            self matches ComicFormState::Ready(f) ==> form_wf(&f),
        ensures
            match self {
                ComicFormState::Ready(f) => r matches Some(c) && c@ == form_record(form_values(f.fields@)),
                ComicFormState::Loading => r is None,
            },
    {
        match self {
            ComicFormState::Ready(f) => Some(f.to_comic_info()),
            ComicFormState::Loading => None,
        }
    }
}

/// The texts that the form of `m` shows, field by field.
pub open spec fn form_texts(m: ComicInfoModel) -> Seq<Seq<char>> {
    Seq::new(20, |k: int| form_text(m, k))
}

/// An optional text that is present is not blank.
pub open spec fn not_blank(t: Option<Seq<char>>) -> bool {
    t matches Some(x) ==> trim(x).len() > 0
}

/// The texts of a record that an unedited form shows.
pub open spec fn texts_not_blank(m: ComicInfoModel) -> bool {
    &&& not_blank(m.summary)
    &&& not_blank(m.writer)
    &&& not_blank(m.penciller)
    &&& not_blank(m.translator)
    &&& not_blank(m.publisher)
    &&& not_blank(m.genre)
    &&& not_blank(m.tags)
    &&& not_blank(m.web)
    &&& not_blank(m.language_iso)
}

proof fn lemma_decimal_text_ends(d: DecimalModel)
    requires
        crate::decimal::decimal_wf(d),
    ensures
        trim(decimal_text(d)) == decimal_text(d),
{
    let t = decimal_text(d);
    let w = if d.whole.len() == 0 { seq!['0'] } else { crate::decimal::digit_chars(d.whole) };
    if d.whole.len() > 0 {
        assert(d.whole[0] < 10);
    }
    assert(t[0] == w[0]);
    if d.fraction.len() == 0 {
        assert(t.last() == w.last());
        if d.whole.len() > 0 {
            assert(d.whole[d.whole.len() - 1] < 10);
        }
    } else {
        assert(t.last() == crate::decimal::digit_chars(d.fraction).last());
        assert(d.fraction[d.fraction.len() - 1] < 10);
    }
    lemma_trim_unchanged(t);
}

proof fn lemma_number_text(n: nat)
    ensures
        trim(nat_text(n)) == nat_text(n),
{
    lemma_nat_text_ends(n);
    lemma_trim_unchanged(nat_text(n));
}

/// A form left as it was opened gives back the record it was opened on,
/// provided no present text of the record is blank (a blank text reads as
/// absent).
#[verifier::rlimit(60)]
pub proof fn lemma_unedited_form(m: ComicInfoModel)
    requires
        record_wf(m),
        texts_not_blank(m),
    ensures
        form_record(form_texts(m)) == m,
{
    lemma_field_facts(m);
    let v = form_texts(m);
    assert(trim(Seq::<char>::empty()) =~= Seq::<char>::empty()) by {
        lemma_trim_unchanged(Seq::<char>::empty());
    }
    if m.number is Some {
        lemma_decimal_text_ends(m.number->Some_0);
    }
    if m.volume is Some {
        lemma_number_text(m.volume->Some_0 as nat);
    }
    if m.year is Some {
        lemma_number_text(m.year->Some_0 as nat);
    }
    if m.month is Some {
        lemma_number_text(m.month->Some_0 as nat);
    }
    if m.day is Some {
        lemma_number_text(m.day->Some_0 as nat);
    }
    if m.page_count is Some {
        lemma_number_text(m.page_count->Some_0 as nat);
    }
    if m.count is Some {
        lemma_number_text(m.count->Some_0 as nat);
    }
    lemma_trim_unchanged(manga_text_of(m));
    lemma_trim_unchanged(age_rating_text_of(m));
    assert(decimal_of(Seq::<char>::empty()) is None);
    assert(u32_of(Seq::<char>::empty()) is None);
    let r = form_record(v);
    assert(r.title == m.title) by {
        assert(v[0] == form_text(m, 0));
    }
    assert(r.series == m.series) by {
        assert(v[1] == form_text(m, 1));
    }
    assert(r.number == m.number) by {
        assert(v[2] == form_text(m, 2));
    }
    assert(r.volume == m.volume) by {
        assert(v[3] == form_text(m, 3));
    }
    assert(r.summary == m.summary) by {
        assert(v[4] == form_text(m, 4));
    }
    assert(r.year == m.year) by {
        assert(v[5] == form_text(m, 5));
    }
    assert(r.month == m.month) by {
        assert(v[6] == form_text(m, 6));
    }
    assert(r.day == m.day) by {
        assert(v[7] == form_text(m, 7));
    }
    assert(r.writer == m.writer) by {
        assert(v[8] == form_text(m, 8));
    }
    assert(r.penciller == m.penciller) by {
        assert(v[9] == form_text(m, 9));
    }
    assert(r.translator == m.translator) by {
        assert(v[10] == form_text(m, 10));
    }
    assert(r.publisher == m.publisher) by {
        assert(v[11] == form_text(m, 11));
    }
    assert(r.genre == m.genre) by {
        assert(v[12] == form_text(m, 12));
    }
    assert(r.tags == m.tags) by {
        assert(v[13] == form_text(m, 13));
    }
    assert(r.web == m.web) by {
        assert(v[14] == form_text(m, 14));
    }
    assert(r.page_count == m.page_count) by {
        assert(v[15] == form_text(m, 15));
    }
    assert(r.language_iso == m.language_iso) by {
        assert(v[16] == form_text(m, 16));
    }
    assert(r.manga == m.manga) by {
        assert(v[17] == form_text(m, 17));
    }
    assert(r.age_rating == m.age_rating) by {
        assert(v[18] == form_text(m, 18));
    }
    assert(r.count == m.count) by {
        assert(v[19] == form_text(m, 19));
    }
}

spec fn manga_text_of(m: ComicInfoModel) -> Seq<char> {
    crate::comic_info::manga_text(m.manga)
}

spec fn age_rating_text_of(m: ComicInfoModel) -> Seq<char> {
    crate::comic_info::age_rating_text(m.age_rating)
}

} // verus!
