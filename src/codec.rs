//! The markup form of a [`ComicInfo`] record: one element per field inside a
//! `ComicInfo` root, read and written as a sequence of markup tokens.

use vstd::prelude::*;
use quick_xml::events::{BytesEnd, BytesRef, BytesStart, BytesText, Event};
use quick_xml::reader::Reader;
use quick_xml::writer::Writer;
use crate::comic_info::{
    age_rating_of, age_rating_text, empty_record, manga_of, manga_text, ComicInfo,
    ComicInfoAgeRating, ComicInfoManga, ComicInfoModel,
};
use crate::decimal::{decimal_of, decimal_text, decimal_wf, lemma_decimal_text, Decimal};
use crate::text::{chars_of, lemma_u32_text, nat_text, opt_string_view, parse_u32, push_uint, string_of, u32_of};

verus! {

/// One markup token, as a reader reports it or a writer takes it.
#[derive(Debug, Clone)]
pub enum XmlToken {
    /// `<name>`
    Start(String),
    /// `</name>`
    End(String),
    /// `<name/>`
    Empty(String),
    /// Character data, with no reference left in it.
    Text(String),
    /// A reference `&name;`, by its name.
    Reference(String),
    /// `<!--text-->`
    Comment(String),
    /// Anything else (declaration, processing instruction, ...).
    Other,
}

/// The content of an [`XmlToken`].
pub enum TokenModel {
    Start(Seq<char>),
    End(Seq<char>),
    Empty(Seq<char>),
    Text(Seq<char>),
    Reference(Seq<char>),
    Comment(Seq<char>),
    Other,
}

impl View for XmlToken {
    type V = TokenModel;

    open spec fn view(&self) -> TokenModel {
        match self {
            XmlToken::Start(s) => TokenModel::Start(s@),
            XmlToken::End(s) => TokenModel::End(s@),
            XmlToken::Empty(s) => TokenModel::Empty(s@),
            XmlToken::Text(s) => TokenModel::Text(s@),
            XmlToken::Reference(s) => TokenModel::Reference(s@),
            XmlToken::Comment(s) => TokenModel::Comment(s@),
            XmlToken::Other => TokenModel::Other,
        }
    }
}

pub open spec fn tokens_view(ts: Seq<XmlToken>) -> Seq<TokenModel> {
    ts.map_values(|t: XmlToken| t@)
}

/// The name of the root element.
pub open spec fn root_tag() -> Seq<char> {
    seq!['C', 'o', 'm', 'i', 'c', 'I', 'n', 'f', 'o']
}

/// The number of fields of a record.
pub open spec fn field_count() -> int {
    20
}

/// The element name of field `k`, in the order in which fields are written.
pub open spec fn field_tag(k: int) -> Seq<char> {
    if k == 0 {
        seq!['T', 'i', 't', 'l', 'e']
    } else if k == 1 {
        seq!['S', 'e', 'r', 'i', 'e', 's']
    } else if k == 2 {
        seq!['N', 'u', 'm', 'b', 'e', 'r']
    } else if k == 3 {
        seq!['V', 'o', 'l', 'u', 'm', 'e']
    } else if k == 4 {
        seq!['S', 'u', 'm', 'm', 'a', 'r', 'y']
    } else if k == 5 {
        seq!['Y', 'e', 'a', 'r']
    } else if k == 6 {
        seq!['M', 'o', 'n', 't', 'h']
    } else if k == 7 {
        seq!['D', 'a', 'y']
    } else if k == 8 {
        seq!['W', 'r', 'i', 't', 'e', 'r']
    } else if k == 9 {
        seq!['P', 'e', 'n', 'c', 'i', 'l', 'l', 'e', 'r']
    } else if k == 10 {
        seq!['T', 'r', 'a', 'n', 's', 'l', 'a', 't', 'o', 'r']
    } else if k == 11 {
        seq!['P', 'u', 'b', 'l', 'i', 's', 'h', 'e', 'r']
    } else if k == 12 {
        seq!['G', 'e', 'n', 'r', 'e']
    } else if k == 13 {
        seq!['T', 'a', 'g', 's']
    } else if k == 14 {
        seq!['W', 'e', 'b']
    } else if k == 15 {
        seq!['P', 'a', 'g', 'e', 'C', 'o', 'u', 'n', 't']
    } else if k == 16 {
        seq!['L', 'a', 'n', 'g', 'u', 'a', 'g', 'e', 'I', 'S', 'O']
    } else if k == 17 {
        seq!['M', 'a', 'n', 'g', 'a']
    } else if k == 18 {
        seq!['A', 'g', 'e', 'R', 'a', 't', 'i', 'n', 'g']
    } else if k == 19 {
        seq!['C', 'o', 'u', 'n', 't']
    } else {
        Seq::empty()
    }
}

/// The first field at or after `k` whose element name is `name`, or -1.
pub open spec fn index_from(name: Seq<char>, k: int) -> int
    decreases field_count() - k,
{
    if k < 0 || k >= field_count() {
        -1
    } else if field_tag(k) == name {
        k
    } else {
        index_from(name, k + 1)
    }
}

/// The field whose element name is `name`, or -1.
pub open spec fn field_index(name: Seq<char>) -> int {
    index_from(name, 0)
}

pub open spec fn opt_text_of_decimal(d: Option<crate::decimal::DecimalModel>) -> Option<Seq<char>> {
    match d {
        Some(d) => Some(decimal_text(d)),
        None => None,
    }
}

pub open spec fn opt_text_of_nat(n: Option<nat>) -> Option<Seq<char>> {
    match n {
        Some(n) => Some(nat_text(n)),
        None => None,
    }
}

pub open spec fn opt_u32_nat(n: Option<u32>) -> Option<nat> {
    match n {
        Some(n) => Some(n as nat),
        None => None,
    }
}

pub open spec fn opt_u16_nat(n: Option<u16>) -> Option<nat> {
    match n {
        Some(n) => Some(n as nat),
        None => None,
    }
}

pub open spec fn opt_u8_nat(n: Option<u8>) -> Option<nat> {
    match n {
        Some(n) => Some(n as nat),
        None => None,
    }
}

/// The text of field `k` of `m`, or `None` when the field is absent and
/// gets no element.
pub open spec fn field_text(m: ComicInfoModel, k: int) -> Option<Seq<char>> {
    if k == 0 {
        Some(m.title)
    } else if k == 1 {
        Some(m.series)
    } else if k == 2 {
        opt_text_of_decimal(m.number)
    } else if k == 3 {
        opt_text_of_nat(opt_u32_nat(m.volume))
    } else if k == 4 {
        m.summary
    } else if k == 5 {
        opt_text_of_nat(opt_u16_nat(m.year))
    } else if k == 6 {
        opt_text_of_nat(opt_u16_nat(m.month))
    } else if k == 7 {
        opt_text_of_nat(opt_u8_nat(m.day))
    } else if k == 8 {
        m.writer
    } else if k == 9 {
        m.penciller
    } else if k == 10 {
        m.translator
    } else if k == 11 {
        m.publisher
    } else if k == 12 {
        m.genre
    } else if k == 13 {
        m.tags
    } else if k == 14 {
        m.web
    } else if k == 15 {
        opt_text_of_nat(opt_u32_nat(m.page_count))
    } else if k == 16 {
        m.language_iso
    } else if k == 17 {
        Some(manga_text(m.manga))
    } else if k == 18 {
        Some(age_rating_text(m.age_rating))
    } else if k == 19 {
        opt_text_of_nat(opt_u32_nat(m.count))
    } else {
        None
    }
}

/// What `u16::from_str` gives.
pub open spec fn u16_of(s: Seq<char>) -> Option<u16> {
    match u32_of(s) {
        Some(v) => if v <= 65535 { Some(v as u16) } else { None },
        None => None,
    }
}

/// What `u8::from_str` gives.
pub open spec fn u8_of(s: Seq<char>) -> Option<u8> {
    match u32_of(s) {
        Some(v) => if v <= 255 { Some(v as u8) } else { None },
        None => None,
    }
}

/// `rec` with field `k` read from the text `t`: a number that does not parse
/// is absent, an unknown flag is `Unknown`.
pub open spec fn set_field(rec: ComicInfoModel, k: int, t: Seq<char>) -> ComicInfoModel {
    if k == 0 {
        ComicInfoModel { title: t, ..rec }
    } else if k == 1 {
        ComicInfoModel { series: t, ..rec }
    } else if k == 2 {
        ComicInfoModel { number: decimal_of(t), ..rec }
    } else if k == 3 {
        ComicInfoModel { volume: u32_of(t), ..rec }
    } else if k == 4 {
        ComicInfoModel { summary: Some(t), ..rec }
    } else if k == 5 {
        ComicInfoModel { year: u16_of(t), ..rec }
    } else if k == 6 {
        ComicInfoModel { month: u16_of(t), ..rec }
    } else if k == 7 {
        ComicInfoModel { day: u8_of(t), ..rec }
    } else if k == 8 {
        ComicInfoModel { writer: Some(t), ..rec }
    } else if k == 9 {
        ComicInfoModel { penciller: Some(t), ..rec }
    } else if k == 10 {
        ComicInfoModel { translator: Some(t), ..rec }
    } else if k == 11 {
        ComicInfoModel { publisher: Some(t), ..rec }
    } else if k == 12 {
        ComicInfoModel { genre: Some(t), ..rec }
    } else if k == 13 {
        ComicInfoModel { tags: Some(t), ..rec }
    } else if k == 14 {
        ComicInfoModel { web: Some(t), ..rec }
    } else if k == 15 {
        ComicInfoModel { page_count: u32_of(t), ..rec }
    } else if k == 16 {
        ComicInfoModel { language_iso: Some(t), ..rec }
    } else if k == 17 {
        ComicInfoModel { manga: manga_of(t), ..rec }
    } else if k == 18 {
        ComicInfoModel { age_rating: age_rating_of(t), ..rec }
    } else if k == 19 {
        ComicInfoModel { count: u32_of(t), ..rec }
    } else {
        rec
    }
}

/// The five entities that markup predefines.
pub open spec fn predefined_entity(name: Seq<char>) -> Option<Seq<char>> {
    if name == seq!['l', 't'] {
        Some(seq!['<'])
    } else if name == seq!['g', 't'] {
        Some(seq!['>'])
    } else if name == seq!['a', 'm', 'p'] {
        Some(seq!['&'])
    } else if name == seq!['a', 'p', 'o', 's'] {
        Some(seq!['\''])
    } else if name == seq!['q', 'u', 'o', 't'] {
        Some(seq!['"'])
    } else {
        None
    }
}

/// The character that a character reference (`#65`, `#x41`) stands for.
pub uninterp spec fn char_reference_of(name: Seq<char>) -> Option<char>;

/// The text that the reference `&name;` stands for; nothing when it is
/// neither predefined nor a valid character reference.
pub open spec fn reference_text(name: Seq<char>) -> Seq<char> {
    match predefined_entity(name) {
        Some(t) => t,
        None => match char_reference_of(name) {
            Some(c) => seq![c],
            None => Seq::empty(),
        },
    }
}

/// The decoder's state: element depth (1 inside the root), the field being
/// read (-1 for none), its text so far, and the record so far.
pub struct DecodeState {
    pub depth: int,
    pub field: int,
    pub buf: Seq<char>,
    pub rec: ComicInfoModel,
}

pub open spec fn decode_start() -> DecodeState {
    DecodeState { depth: 0, field: -1, buf: Seq::empty(), rec: empty_record() }
}

pub open spec fn decode_step(st: DecodeState, t: TokenModel) -> DecodeState {
    match t {
        TokenModel::Start(n) => if st.depth == 1 {
            DecodeState { depth: 2, field: field_index(n), buf: Seq::empty(), ..st }
        } else {
            DecodeState { depth: st.depth + 1, ..st }
        },
        TokenModel::End(_) => if st.depth == 2 {
            DecodeState {
                depth: 1,
                field: -1,
                buf: Seq::empty(),
                rec: if st.field >= 0 { set_field(st.rec, st.field, st.buf) } else { st.rec },
            }
        } else {
            DecodeState { depth: st.depth - 1, ..st }
        },
        TokenModel::Empty(n) => if st.depth == 1 && field_index(n) >= 0 {
            DecodeState { rec: set_field(st.rec, field_index(n), Seq::empty()), ..st }
        } else {
            st
        },
        TokenModel::Text(s) => if st.depth == 2 {
            DecodeState { buf: st.buf + s, ..st }
        } else {
            st
        },
        TokenModel::Reference(r) => if st.depth == 2 {
            DecodeState { buf: st.buf + reference_text(r), ..st }
        } else {
            st
        },
        _ => st,
    }
}

/// The state after the tokens `ts`, from `st`.
pub open spec fn decode_with(st: DecodeState, ts: Seq<TokenModel>) -> DecodeState
    decreases ts.len(),
{
    if ts.len() == 0 {
        st
    } else {
        decode_step(decode_with(st, ts.drop_last()), ts.last())
    }
}

/// The record that a token sequence describes: each element directly inside
/// the root sets the field of its name; everything else is passed over.
pub open spec fn record_of_tokens(ts: Seq<TokenModel>) -> ComicInfoModel {
    decode_with(decode_start(), ts).rec
}

/// The tokens of field `k` of `m`: none for an absent field, else its start,
/// its text if not empty, and its end.
pub open spec fn field_tokens(m: ComicInfoModel, k: int) -> Seq<TokenModel> {
    match field_text(m, k) {
        None => Seq::empty(),
        Some(t) => if t.len() == 0 {
            seq![TokenModel::Start(field_tag(k)), TokenModel::End(field_tag(k))]
        } else {
            seq![TokenModel::Start(field_tag(k)), TokenModel::Text(t), TokenModel::End(field_tag(k))]
        },
    }
}

/// The tokens of the fields before `k`.
pub open spec fn fields_tokens(m: ComicInfoModel, k: int) -> Seq<TokenModel>
    decreases k,
{
    if k <= 0 {
        Seq::empty()
    } else {
        fields_tokens(m, k - 1) + field_tokens(m, k - 1)
    }
}

/// The tokens of a record: its fields, in order, inside the root.
pub open spec fn record_tokens(m: ComicInfoModel) -> Seq<TokenModel> {
    seq![TokenModel::Start(root_tag())] + fields_tokens(m, field_count()) + seq![TokenModel::End(root_tag())]
}

fn field_tag_chars(k: usize) -> (r: Vec<char>)
    requires
        k < 20,
    ensures
        r@ == field_tag(k as int),
{
    let r = match k {
        0 => vec!['T', 'i', 't', 'l', 'e'],
        1 => vec!['S', 'e', 'r', 'i', 'e', 's'],
        2 => vec!['N', 'u', 'm', 'b', 'e', 'r'],
        3 => vec!['V', 'o', 'l', 'u', 'm', 'e'],
        4 => vec!['S', 'u', 'm', 'm', 'a', 'r', 'y'],
        5 => vec!['Y', 'e', 'a', 'r'],
        6 => vec!['M', 'o', 'n', 't', 'h'],
        7 => vec!['D', 'a', 'y'],
        8 => vec!['W', 'r', 'i', 't', 'e', 'r'],
        9 => vec!['P', 'e', 'n', 'c', 'i', 'l', 'l', 'e', 'r'],
        10 => vec!['T', 'r', 'a', 'n', 's', 'l', 'a', 't', 'o', 'r'],
        11 => vec!['P', 'u', 'b', 'l', 'i', 's', 'h', 'e', 'r'],
        12 => vec!['G', 'e', 'n', 'r', 'e'],
        13 => vec!['T', 'a', 'g', 's'],
        14 => vec!['W', 'e', 'b'],
        15 => vec!['P', 'a', 'g', 'e', 'C', 'o', 'u', 'n', 't'],
        16 => vec!['L', 'a', 'n', 'g', 'u', 'a', 'g', 'e', 'I', 'S', 'O'],
        17 => vec!['M', 'a', 'n', 'g', 'a'],
        18 => vec!['A', 'g', 'e', 'R', 'a', 't', 'i', 'n', 'g'],
        19 => vec!['C', 'o', 'u', 'n', 't'],
        _ => vec!['C', 'o', 'u', 'n', 't'],
    };
    assert(r@ =~= field_tag(k as int));
    r
}

pub fn chars_to_string(v: &Vec<char>) -> (r: String)
    ensures
        r@ == v@,
{
    assert(v@.subrange(0, v@.len() as int) =~= v@);
    string_of(v, 0, v.len())
}

fn same_text(v: &Vec<char>, s: &String) -> (r: bool)
    ensures
        r == (v@ == s@),
{
    let w = chars_of(s.as_str());
    if v.len() != w.len() {
        return false;
    }
    let mut i: usize = 0;
    while i < v.len()
        invariant
            v@.len() == w@.len(),
            w@ == s@,
            i <= v@.len(),
            forall|j: int| 0 <= j < i ==> v@[j] == w@[j],
        decreases v@.len() - i,
    {
        if v[i] != w[i] {
            return false;
        }
        i += 1;
    }
    assert(v@ =~= w@);
    true
}

proof fn lemma_index_range(name: Seq<char>, k: int)
    ensures
        -1 <= index_from(name, k) < field_count(),
    decreases field_count() - k,
{
    if 0 <= k < field_count() {
        lemma_index_range(name, k + 1);
    }
}

/// The field whose element name is `name`, or -1.
fn field_index_of(name: &String) -> (r: i64)
    ensures
        r == field_index(name@),
        -1 <= r < 20,
{
    proof {
        lemma_index_range(name@, 0);
    }
    let mut k: usize = 0;
    while k < 20
        invariant
            k <= 20,
            index_from(name@, k as int) == field_index(name@),
        decreases 20 - k,
    {
        let tag = field_tag_chars(k);
        if same_text(&tag, name) {
            return k as i64;
        }
        k += 1;
    }
    -1
}

fn uint_string(n: u64) -> (r: String)
    ensures
        r@ == nat_text(n as nat),
{
    let mut r = String::new();
    push_uint(&mut r, n);
    assert(r@ =~= nat_text(n as nat));
    r
}

/// The text of field `k` of `info`, or `None` when it is absent.
pub fn field_text_of(info: &ComicInfo, k: usize) -> (r: Option<String>)
    requires
        k < 20,
    ensures
        opt_string_view(r) == field_text(info@, k as int),
{
    match k {
        0 => Some(info.title.clone()),
        1 => Some(info.series.clone()),
        2 => match &info.number {
            Some(d) => Some(d.to_text()),
            None => None,
        },
        3 => match info.volume {
            Some(v) => Some(uint_string(v as u64)),
            None => None,
        },
        4 => crate::comic_info::clone_opt_string(&info.summary),
        5 => match info.year {
            Some(v) => Some(uint_string(v as u64)),
            None => None,
        },
        6 => match info.month {
            Some(v) => Some(uint_string(v as u64)),
            None => None,
        },
        7 => match info.day {
            Some(v) => Some(uint_string(v as u64)),
            None => None,
        },
        8 => crate::comic_info::clone_opt_string(&info.writer),
        9 => crate::comic_info::clone_opt_string(&info.penciller),
        10 => crate::comic_info::clone_opt_string(&info.translator),
        11 => crate::comic_info::clone_opt_string(&info.publisher),
        12 => crate::comic_info::clone_opt_string(&info.genre),
        13 => crate::comic_info::clone_opt_string(&info.tags),
        14 => crate::comic_info::clone_opt_string(&info.web),
        15 => match info.page_count {
            Some(v) => Some(uint_string(v as u64)),
            None => None,
        },
        16 => crate::comic_info::clone_opt_string(&info.language_iso),
        17 => Some(info.manga.to_text()),
        18 => Some(info.age_rating.to_text()),
        _ => match info.count {
            Some(v) => Some(uint_string(v as u64)),
            None => None,
        },
    }
}

fn parse_u32_text(s: &String) -> (r: Option<u32>)
    ensures
        r == u32_of(s@),
{
    let v = chars_of(s.as_str());
    assert(v@.subrange(0, v@.len() as int) =~= v@);
    parse_u32(&v, 0, v.len())
}

fn parse_u16_text(s: &String) -> (r: Option<u16>)
    ensures
        r == u16_of(s@),
{
    match parse_u32_text(s) {
        Some(v) => if v <= 65535 { Some(v as u16) } else { None },
        None => None,
    }
}

fn parse_u8_text(s: &String) -> (r: Option<u8>)
    ensures
        r == u8_of(s@),
{
    match parse_u32_text(s) {
        Some(v) => if v <= 255 { Some(v as u8) } else { None },
        None => None,
    }
}

/// Reads field `k` of `rec` from the text `t`.
fn set_field_text(rec: &mut ComicInfo, k: i64, t: String)
    requires
        0 <= k < 20,
    ensures
        final(rec)@ == set_field(old(rec)@, k as int, t@),
{
    match k {
        0 => { rec.title = t; },
        1 => { rec.series = t; },
        2 => { rec.number = Decimal::parse(t.as_str()); },
        3 => { rec.volume = parse_u32_text(&t); },
        4 => { rec.summary = Some(t); },
        5 => { rec.year = parse_u16_text(&t); },
        6 => { rec.month = parse_u16_text(&t); },
        7 => { rec.day = parse_u8_text(&t); },
        8 => { rec.writer = Some(t); },
        9 => { rec.penciller = Some(t); },
        10 => { rec.translator = Some(t); },
        11 => { rec.publisher = Some(t); },
        12 => { rec.genre = Some(t); },
        13 => { rec.tags = Some(t); },
        14 => { rec.web = Some(t); },
        15 => { rec.page_count = parse_u32_text(&t); },
        16 => { rec.language_iso = Some(t); },
        17 => { rec.manga = ComicInfoManga::from_text(t.as_str()); },
        18 => { rec.age_rating = ComicInfoAgeRating::from_text(t.as_str()); },
        _ => { rec.count = parse_u32_text(&t); },
    }
}

/// Relies on `quick_xml::escape::resolve_xml_entity`: the text of the five
/// predefined entities, and `None` for any other name.
#[verifier::external_body]
fn predefined_entity_text(name: &str) -> (r: Option<String>)
    ensures
        opt_string_view(r) == predefined_entity(name@),
{
    quick_xml::escape::resolve_xml_entity(name).map(|t| t.to_string())
}

/// Relies on `quick_xml::events::BytesRef::resolve_char_ref`: the character
/// of a character reference; `None` for another name or an invalid number.
#[verifier::external_body]
fn char_reference(name: &str) -> (r: Option<char>)
    ensures
        r == char_reference_of(name@),
{
    BytesRef::new(name).resolve_char_ref().ok().flatten()
}

fn append_text(buf: &mut String, t: &String)
    ensures
        final(buf)@ == old(buf)@ + t@,
{
    let v = chars_of(t.as_str());
    let mut i: usize = 0;
    while i < v.len()
        invariant
            i <= v@.len(),
            v@ == t@,
            buf@ == old(buf)@ + v@.subrange(0, i as int),
        decreases v@.len() - i,
    {
        crate::text::push_char(buf, v[i]);
        i += 1;
        assert(buf@ =~= old(buf)@ + v@.subrange(0, i as int));
    }
    assert(v@.subrange(0, i as int) =~= v@);
}

/// The text that the reference `&name;` stands for.
fn reference_string(name: &String) -> (r: String)
    ensures
        r@ == reference_text(name@),
{
    match predefined_entity_text(name.as_str()) {
        Some(t) => t,
        None => match char_reference(name.as_str()) {
            Some(c) => {
                let mut r = String::new();
                crate::text::push_char(&mut r, c);
                assert(r@ =~= seq![c]);
                r
            },
            None => String::new(),
        },
    }
}

/// The record that a token sequence describes (see [`record_of_tokens`]).
pub fn decode_tokens(ts: &Vec<XmlToken>) -> (r: ComicInfo)
    ensures
        r@ == record_of_tokens(tokens_view(ts@)),
{
    let ghost tv = tokens_view(ts@);
    let mut depth: i128 = 0;
    let mut field: i64 = -1;
    let mut buf = String::new();
    let mut rec = ComicInfo::empty();
    let mut i: usize = 0;
    assert(tv.subrange(0, 0) =~= Seq::<TokenModel>::empty());
    assert(buf@ =~= Seq::<char>::empty());
    while i < ts.len()
        invariant
            i <= ts@.len(),
            tv == tokens_view(ts@),
            -(i as int) <= depth <= i,
            -1 <= field < 20,
            (DecodeState { depth: depth as int, field: field as int, buf: buf@, rec: rec@ }) == decode_with(decode_start(), tv.subrange(0, i as int)),
        decreases ts@.len() - i,
    {
        let ghost pre = tv.subrange(0, i as int);
        assert(tv.subrange(0, i + 1).drop_last() =~= pre);
        assert(tv.subrange(0, i + 1).last() == ts@[i as int]@);
        match &ts[i] {
            XmlToken::Start(n) => {
                if depth == 1 {
                    depth = 2;
                    field = field_index_of(n);
                    buf = String::new();
                } else {
                    depth += 1;
                }
            },
            XmlToken::End(_) => {
                if depth == 2 {
                    if field >= 0 {
                        let t = buf;
                        set_field_text(&mut rec, field, t);
                    }
                    depth = 1;
                    field = -1;
                    buf = String::new();
                } else {
                    depth -= 1;
                }
            },
            XmlToken::Empty(n) => {
                if depth == 1 {
                    let k = field_index_of(n);
                    if k >= 0 {
                        set_field_text(&mut rec, k, String::new());
                    }
                }
            },
            XmlToken::Text(t) => {
                if depth == 2 {
                    append_text(&mut buf, t);
                }
            },
            XmlToken::Reference(n) => {
                if depth == 2 {
                    let t = reference_string(n);
                    append_text(&mut buf, &t);
                }
            },
            _ => {},
        }
        i += 1;
        assert(buf@ == decode_with(decode_start(), tv.subrange(0, i as int)).buf);
    }
    assert(tv.subrange(0, i as int) =~= tv);
    rec
}

fn root_tag_string() -> (r: String)
    ensures
        r@ == root_tag(),
{
    let v = vec!['C', 'o', 'm', 'i', 'c', 'I', 'n', 'f', 'o'];
    assert(v@ =~= root_tag());
    chars_to_string(&v)
}

fn push_token(ts: &mut Vec<XmlToken>, t: XmlToken)
    ensures
        tokens_view(final(ts)@) == tokens_view(old(ts)@).push(t@),
{
    ts.push(t);
    assert(tokens_view(ts@) =~= tokens_view(old(ts)@).push(t@));
}

/// Appends the tokens of a record (see [`record_tokens`]).
fn push_record_tokens(ts: &mut Vec<XmlToken>, info: &ComicInfo)
    ensures
        tokens_view(final(ts)@) == tokens_view(old(ts)@) + record_tokens(info@),
{
    let ghost start = tokens_view(ts@);
    push_token(ts, XmlToken::Start(root_tag_string()));
    let ghost head = start + seq![TokenModel::Start(root_tag())];
    assert(tokens_view(ts@) =~= head + fields_tokens(info@, 0));
    let mut k: usize = 0;
    while k < 20
        invariant
            k <= 20,
            head == start + seq![TokenModel::Start(root_tag())],
            start == tokens_view(old(ts)@),
            tokens_view(ts@) == head + fields_tokens(info@, k as int),
        decreases 20 - k,
    {
        let ghost before = tokens_view(ts@);
        match field_text_of(info, k) {
            Some(t) => {
                let tag = field_tag_chars(k);
                let empty = t.as_str().unicode_len() == 0;
                push_token(ts, XmlToken::Start(chars_to_string(&tag)));
                if !empty {
                    push_token(ts, XmlToken::Text(t));
                }
                push_token(ts, XmlToken::End(chars_to_string(&tag)));
                assert(tokens_view(ts@) =~= before + field_tokens(info@, k as int));
            },
            None => {
                assert(tokens_view(ts@) =~= before + field_tokens(info@, k as int));
            },
        }
        k += 1;
        assert(head + fields_tokens(info@, k as int) =~= before + field_tokens(info@, k - 1));
    }
    push_token(ts, XmlToken::End(root_tag_string()));
    assert(tokens_view(ts@) =~= start + record_tokens(info@));
}

/// The tokens of a record (see [`record_tokens`]).
pub fn encode_tokens(info: &ComicInfo) -> (r: Vec<XmlToken>)
    ensures
        tokens_view(r@) == record_tokens(info@),
{
    let mut ts: Vec<XmlToken> = Vec::new();
    push_record_tokens(&mut ts, info);
    assert(tokens_view(ts@) =~= record_tokens(info@));
    ts
}

/// Decoding a concatenation decodes the first part, then the second.
pub proof fn lemma_decode_concat(st: DecodeState, a: Seq<TokenModel>, b: Seq<TokenModel>)
    ensures
        decode_with(st, a + b) == decode_with(decode_with(st, a), b),
    decreases b.len(),
{
    if b.len() == 0 {
        assert(a + b =~= a);
    } else {
        lemma_decode_concat(st, a, b.drop_last());
        assert((a + b).drop_last() =~= a + b.drop_last());
        assert((a + b).last() == b.last());
    }
}

proof fn lemma_tags_distinct(i: int, k: int)
    requires
        0 <= i < field_count(),
        0 <= k < field_count(),
        i != k,
    ensures
        field_tag(i) != field_tag(k),
{
    let a = field_tag(i);
    let b = field_tag(k);
    assert(a.len() != b.len() || a[0] != b[0] || a[1] != b[1]);
}

proof fn lemma_index_of_tag(j: int, k: int)
    requires
        0 <= j <= k < field_count(),
    ensures
        index_from(field_tag(k), j) == k,
    decreases k - j,
{
    if j < k {
        lemma_tags_distinct(j, k);
        lemma_index_of_tag(j + 1, k);
    }
}

/// The decoder inside the root, between elements.
pub open spec fn at_root(rec: ComicInfoModel) -> DecodeState {
    DecodeState { depth: 1, field: -1, buf: Seq::empty(), rec }
}

/// `rec` after the element of field `k` of `m`, if that field has one.
pub open spec fn copy_field(rec: ComicInfoModel, m: ComicInfoModel, k: int) -> ComicInfoModel {
    match field_text(m, k) {
        None => rec,
        Some(t) => set_field(rec, k, t),
    }
}

/// The record read back from the elements of the fields of `m` before `k`.
pub open spec fn partial_record(m: ComicInfoModel, k: int) -> ComicInfoModel
    decreases k,
{
    if k <= 0 {
        empty_record()
    } else {
        copy_field(partial_record(m, k - 1), m, k - 1)
    }
}

proof fn lemma_field_step(rec: ComicInfoModel, m: ComicInfoModel, k: int)
    requires
        0 <= k < field_count(),
    ensures
        decode_with(at_root(rec), field_tokens(m, k)) == at_root(copy_field(rec, m, k)),
{
    lemma_index_of_tag(0, k);
    let tag = field_tag(k);
    match field_text(m, k) {
        None => {
            assert(field_tokens(m, k) =~= Seq::<TokenModel>::empty());
            assert(decode_with(at_root(rec), Seq::<TokenModel>::empty()) == at_root(rec));
        },
        Some(t) => {
            let s0 = at_root(rec);
            let s1 = decode_step(s0, TokenModel::Start(tag));
            assert(field_index(tag) == k);
            assert(s1 == DecodeState { depth: 2, field: k, buf: Seq::empty(), rec });
            let one = seq![TokenModel::Start(tag)];
            assert(one.drop_last() =~= Seq::<TokenModel>::empty());
            assert(decode_with(s0, Seq::<TokenModel>::empty()) == s0);
            assert(one.last() == TokenModel::Start(tag));
            assert(decode_with(s0, one) == s1);
            let end_state = DecodeState { depth: 1, field: -1, buf: Seq::empty(), rec: set_field(rec, k, t) };
            if t.len() == 0 {
                let ts = seq![TokenModel::Start(tag), TokenModel::End(tag)];
                assert(ts.drop_last() =~= one);
                assert(ts.last() == TokenModel::End(tag));
                assert(t =~= Seq::<char>::empty());
                assert(decode_step(s1, TokenModel::End(tag)) == end_state);
                assert(field_tokens(m, k) == ts);
                assert(decode_with(s0, ts) == end_state);
            } else {
                let two = seq![TokenModel::Start(tag), TokenModel::Text(t)];
                let ts = seq![TokenModel::Start(tag), TokenModel::Text(t), TokenModel::End(tag)];
                assert(two.drop_last() =~= one);
                assert(two.last() == TokenModel::Text(t));
                assert(ts.drop_last() =~= two);
                assert(ts.last() == TokenModel::End(tag));
                assert(Seq::<char>::empty() + t =~= t);
                let s2 = decode_step(s1, TokenModel::Text(t));
                assert(s2 == DecodeState { depth: 2, field: k, buf: t, rec });
                assert(decode_with(s0, two) == s2);
                assert(decode_step(s2, TokenModel::End(tag)) == end_state);
                assert(field_tokens(m, k) == ts);
                assert(decode_with(s0, ts) == end_state);
            }
        },
    }
}

proof fn lemma_fields(m: ComicInfoModel, k: int)
    requires
        0 <= k <= field_count(),
    ensures
        decode_with(at_root(empty_record()), fields_tokens(m, k)) == at_root(partial_record(m, k)),
    decreases k,
{
    if k == 0 {
        assert(fields_tokens(m, 0) =~= Seq::<TokenModel>::empty());
    } else {
        lemma_fields(m, k - 1);
        lemma_decode_concat(at_root(empty_record()), fields_tokens(m, k - 1), field_tokens(m, k - 1));
        lemma_field_step(partial_record(m, k - 1), m, k - 1);
    }
}

/// A record is valid when its number, if any, is a canonical decimal.
pub open spec fn record_wf(m: ComicInfoModel) -> bool {
    m.number is Some ==> decimal_wf(m.number->Some_0)
}

/// Decoding the tokens of a record gives the record back, every field
/// included; absent fields come back absent.
pub proof fn lemma_round_trip(m: ComicInfoModel)
    requires
        record_wf(m),
    ensures
        record_of_tokens(record_tokens(m)) == m,
{
    let head = seq![TokenModel::Start(root_tag())];
    let body = fields_tokens(m, field_count());
    let tail = seq![TokenModel::End(root_tag())];
    assert(record_tokens(m) == head + body + tail);
    lemma_decode_concat(decode_start(), head + body, tail);
    lemma_decode_concat(decode_start(), head, body);
    assert(head.drop_last() =~= Seq::<TokenModel>::empty());
    assert(decode_with(decode_start(), Seq::<TokenModel>::empty()) == decode_start());
    assert(head.last() == TokenModel::Start(root_tag()));
    assert(decode_with(decode_start(), head) == at_root(empty_record()));
    lemma_fields(m, field_count());
    assert(tail.drop_last() =~= Seq::<TokenModel>::empty());
    lemma_field_facts(m);
    lemma_partial(m, field_count());
    assert(take_fields(empty_record(), m, field_count()) == m);
    let inner = decode_with(decode_start(), head + body);
    assert(inner == at_root(m));
    assert(decode_with(inner, Seq::<TokenModel>::empty()) == inner);
    assert(tail.last() == TokenModel::End(root_tag()));
    assert(decode_with(inner, tail) == decode_step(inner, TokenModel::End(root_tag())));
    assert(decode_with(decode_start(), record_tokens(m)).rec == m);
}

/// The fields of `m` before `k`, the others from `base`.
pub open spec fn take_fields(base: ComicInfoModel, m: ComicInfoModel, k: int) -> ComicInfoModel {
    ComicInfoModel {
            title: if k > 0 { m.title } else { base.title },
            series: if k > 1 { m.series } else { base.series },
            number: if k > 2 { m.number } else { base.number },
            volume: if k > 3 { m.volume } else { base.volume },
            summary: if k > 4 { m.summary } else { base.summary },
            year: if k > 5 { m.year } else { base.year },
            month: if k > 6 { m.month } else { base.month },
            day: if k > 7 { m.day } else { base.day },
            writer: if k > 8 { m.writer } else { base.writer },
            penciller: if k > 9 { m.penciller } else { base.penciller },
            translator: if k > 10 { m.translator } else { base.translator },
            publisher: if k > 11 { m.publisher } else { base.publisher },
            genre: if k > 12 { m.genre } else { base.genre },
            tags: if k > 13 { m.tags } else { base.tags },
            web: if k > 14 { m.web } else { base.web },
            page_count: if k > 15 { m.page_count } else { base.page_count },
            language_iso: if k > 16 { m.language_iso } else { base.language_iso },
            manga: if k > 17 { m.manga } else { base.manga },
            age_rating: if k > 18 { m.age_rating } else { base.age_rating },
            count: if k > 19 { m.count } else { base.count },
        }
}

/// Each field's text reads back as the field.
pub open spec fn field_facts(m: ComicInfoModel) -> bool {
    &&& (m.number is Some ==> decimal_of(decimal_text(m.number->Some_0)) == m.number)
    &&& (m.volume is Some ==> u32_of(nat_text(m.volume->Some_0 as nat)) == m.volume)
    &&& (m.page_count is Some ==> u32_of(nat_text(m.page_count->Some_0 as nat)) == m.page_count)
    &&& (m.count is Some ==> u32_of(nat_text(m.count->Some_0 as nat)) == m.count)
    &&& (m.year is Some ==> u16_of(nat_text(m.year->Some_0 as nat)) == m.year)
    &&& (m.month is Some ==> u16_of(nat_text(m.month->Some_0 as nat)) == m.month)
    &&& (m.day is Some ==> u8_of(nat_text(m.day->Some_0 as nat)) == m.day)
    &&& manga_of(manga_text(m.manga)) == m.manga
    &&& age_rating_of(age_rating_text(m.age_rating)) == m.age_rating
}

pub proof fn lemma_field_facts(m: ComicInfoModel)
    requires
        record_wf(m),
    ensures
        field_facts(m),
{
    if m.number is Some {
        lemma_decimal_text(m.number->Some_0);
    }
    if m.volume is Some {
        lemma_u32_text(m.volume->Some_0);
    }
    if m.page_count is Some {
        lemma_u32_text(m.page_count->Some_0);
    }
    if m.count is Some {
        lemma_u32_text(m.count->Some_0);
    }
    if m.year is Some {
        lemma_u32_text(m.year->Some_0 as u32);
    }
    if m.month is Some {
        lemma_u32_text(m.month->Some_0 as u32);
    }
    if m.day is Some {
        lemma_u32_text(m.day->Some_0 as u32);
    }
    match m.manga {
        ComicInfoManga::Unknown => {
            assert(manga_text(ComicInfoManga::Unknown).len() == 7);
            assert(manga_text(ComicInfoManga::Yes).len() == 3);
            assert(manga_text(ComicInfoManga::No).len() == 2);
            assert(manga_text(ComicInfoManga::YesAndRightToLeft).len() == 17);
        },
        _ => {},
    }
    match m.age_rating {
        ComicInfoAgeRating::Unknown => {
            assert(age_rating_text(ComicInfoAgeRating::Unknown).len() == 7);
            assert(age_rating_text(ComicInfoAgeRating::Everyone).len() == 8);
            assert(age_rating_text(ComicInfoAgeRating::Teen).len() == 4);
            assert(age_rating_text(ComicInfoAgeRating::Mature17Plus).len() == 10);
            assert(age_rating_text(ComicInfoAgeRating::AdultsOnly18Plus).len() == 15);
        },
        ComicInfoAgeRating::Teen => {
            assert(age_rating_text(ComicInfoAgeRating::Everyone).len() == 8);
        },
        ComicInfoAgeRating::Mature17Plus => {
            assert(age_rating_text(ComicInfoAgeRating::Everyone).len() == 8);
            assert(age_rating_text(ComicInfoAgeRating::Teen).len() == 4);
        },
        ComicInfoAgeRating::AdultsOnly18Plus => {
            assert(age_rating_text(ComicInfoAgeRating::Everyone).len() == 8);
            assert(age_rating_text(ComicInfoAgeRating::Teen).len() == 4);
            assert(age_rating_text(ComicInfoAgeRating::Mature17Plus).len() == 10);
        },
        _ => {},
    }
    match m.manga {
        ComicInfoManga::No => {
            assert(manga_text(ComicInfoManga::Yes).len() == 3);
        },
        ComicInfoManga::YesAndRightToLeft => {
            assert(manga_text(ComicInfoManga::Yes).len() == 3);
            assert(manga_text(ComicInfoManga::No).len() == 2);
        },
        _ => {},
    }
}

#[verifier::rlimit(50)]
proof fn lemma_copy_field(m: ComicInfoModel, k: int)
    requires
        0 <= k < field_count(),
        field_facts(m),
    ensures
        copy_field(take_fields(empty_record(), m, k), m, k) == take_fields(empty_record(), m, k + 1),
{
    if k == 0 {
        assert(copy_field(take_fields(empty_record(), m, k), m, k) == take_fields(empty_record(), m, k + 1));
    } else if k == 1 {
        assert(copy_field(take_fields(empty_record(), m, k), m, k) == take_fields(empty_record(), m, k + 1));
    } else if k == 2 {
        assert(copy_field(take_fields(empty_record(), m, k), m, k) == take_fields(empty_record(), m, k + 1));
    } else if k == 3 {
        assert(copy_field(take_fields(empty_record(), m, k), m, k) == take_fields(empty_record(), m, k + 1));
    } else if k == 4 {
        assert(copy_field(take_fields(empty_record(), m, k), m, k) == take_fields(empty_record(), m, k + 1));
    } else if k == 5 {
        assert(copy_field(take_fields(empty_record(), m, k), m, k) == take_fields(empty_record(), m, k + 1));
    } else if k == 6 {
        assert(copy_field(take_fields(empty_record(), m, k), m, k) == take_fields(empty_record(), m, k + 1));
    } else if k == 7 {
        assert(copy_field(take_fields(empty_record(), m, k), m, k) == take_fields(empty_record(), m, k + 1));
    } else if k == 8 {
        assert(copy_field(take_fields(empty_record(), m, k), m, k) == take_fields(empty_record(), m, k + 1));
    } else if k == 9 {
        assert(copy_field(take_fields(empty_record(), m, k), m, k) == take_fields(empty_record(), m, k + 1));
    } else if k == 10 {
        assert(copy_field(take_fields(empty_record(), m, k), m, k) == take_fields(empty_record(), m, k + 1));
    } else if k == 11 {
        assert(copy_field(take_fields(empty_record(), m, k), m, k) == take_fields(empty_record(), m, k + 1));
    } else if k == 12 {
        assert(copy_field(take_fields(empty_record(), m, k), m, k) == take_fields(empty_record(), m, k + 1));
    } else if k == 13 {
        assert(copy_field(take_fields(empty_record(), m, k), m, k) == take_fields(empty_record(), m, k + 1));
    } else if k == 14 {
        assert(copy_field(take_fields(empty_record(), m, k), m, k) == take_fields(empty_record(), m, k + 1));
    } else if k == 15 {
        assert(copy_field(take_fields(empty_record(), m, k), m, k) == take_fields(empty_record(), m, k + 1));
    } else if k == 16 {
        assert(copy_field(take_fields(empty_record(), m, k), m, k) == take_fields(empty_record(), m, k + 1));
    } else if k == 17 {
        assert(copy_field(take_fields(empty_record(), m, k), m, k) == take_fields(empty_record(), m, k + 1));
    } else if k == 18 {
        assert(copy_field(take_fields(empty_record(), m, k), m, k) == take_fields(empty_record(), m, k + 1));
    } else if k == 19 {
        assert(copy_field(take_fields(empty_record(), m, k), m, k) == take_fields(empty_record(), m, k + 1));
    }
}

proof fn lemma_partial(m: ComicInfoModel, k: int)
    requires
        0 <= k <= field_count(),
        field_facts(m),
    ensures
        partial_record(m, k) == take_fields(empty_record(), m, k),
    decreases k,
{
    if k == 0 {
        assert(take_fields(empty_record(), m, 0) == empty_record());
    } else {
        lemma_partial(m, k - 1);
        lemma_copy_field(m, k - 1);
    }
}

#[verifier::external_type_specification]
#[verifier::external_body]
#[verifier::reject_recursive_types(R)]
pub struct ExXmlReader<R>(Reader<R>);

#[verifier::external_type_specification]
#[verifier::external_body]
pub struct ExXmlError(quick_xml::Error);

#[verifier::external_type_specification]
#[verifier::external_body]
pub struct ExIoError(std::io::Error);

/// The tokens that the markup reader reports for the document `b`, up to its
/// end or to the first error.
pub uninterp spec fn xml_document_tokens(b: Seq<u8>) -> Seq<TokenModel>;

/// The markup reader meets an error in the document `b`.
pub uninterp spec fn xml_document_fails(b: Seq<u8>) -> bool;

/// The tokens that a reader has yet to report, up to the end or the first
/// error.
pub uninterp spec fn reader_tokens(r: Reader<&[u8]>) -> Seq<TokenModel>;

/// The reader will meet an error after its remaining tokens.
pub uninterp spec fn reader_fails(r: Reader<&[u8]>) -> bool;

/// Relies on `quick_xml::reader::Reader::from_reader`: a reader over `b` with
/// the default configuration (text is not trimmed), which will report the
/// tokens of the document.
#[verifier::external_body]
fn xml_reader<'a>(b: &'a [u8]) -> (r: Reader<&'a [u8]>)
    ensures
        reader_tokens(r) == xml_document_tokens(b@),
        reader_fails(r) == xml_document_fails(b@),
{
    Reader::from_reader(b)
}

/// Relies on `quick_xml::reader::Reader::read_event`: the next token of the
/// document; `None` at its end, an error where the document is malformed.
#[verifier::external_body]
fn next_token(reader: &mut Reader<&[u8]>) -> (r: Result<Option<XmlToken>, quick_xml::Error>)
    ensures
        reader_tokens(*old(reader)).len() > 0 ==> {
            &&& r matches Ok(Some(t)) && t@ == reader_tokens(*old(reader))[0]
            &&& reader_tokens(*final(reader)) == reader_tokens(*old(reader)).drop_first()
            &&& reader_fails(*final(reader)) == reader_fails(*old(reader))
        },
        reader_tokens(*old(reader)).len() == 0 ==> (r is Err <==> reader_fails(*old(reader))),
        reader_tokens(*old(reader)).len() == 0 ==> (r is Ok ==> r == Ok::<Option<XmlToken>, quick_xml::Error>(None)),
{
    Ok(Some(match reader.read_event()? {
        Event::Start(e) => XmlToken::Start(e.name().0.into()),
        Event::End(e) => XmlToken::End(e.name().0.into()),
        Event::Empty(e) => XmlToken::Empty(e.name().0.into()),
        Event::Text(e) => XmlToken::Text(e.xml10_content().into()),
        Event::CData(e) => XmlToken::Text(e.xml10_content().into()),
        Event::GeneralRef(e) => XmlToken::Reference(e.xml10_content().into()),
        Event::Eof => return Ok(None),
        _ => XmlToken::Other,
    }))
}

/// The record that the markup document `b` holds: the empty record when the
/// document cannot be read, else the record that its tokens describe.
pub open spec fn document_record(b: Seq<u8>) -> ComicInfoModel {
    if xml_document_fails(b) {
        empty_record()
    } else {
        record_of_tokens(xml_document_tokens(b))
    }
}

/// The record that the markup document `b` holds. Decoding never fails:
/// a document that cannot be read, or that holds no record, gives the empty
/// record, and a field that does not parse is left at its default.
pub fn decode_document(b: &Vec<u8>) -> (r: ComicInfo)
    ensures
        r@ == document_record(b@),
{
    let mut reader = xml_reader(b.as_slice());
    let mut ts: Vec<XmlToken> = Vec::new();
    let ghost all = xml_document_tokens(b@);
    loop
        invariant
            tokens_view(ts@) + reader_tokens(reader) == all,
            all == xml_document_tokens(b@),
            reader_fails(reader) == xml_document_fails(b@),
        decreases reader_tokens(reader).len(),
    {
        let ghost rest = reader_tokens(reader);
        match next_token(&mut reader) {
            Ok(Some(t)) => {
                let ghost before = tokens_view(ts@);
                assert(rest.len() > 0);
                ts.push(t);
                assert(tokens_view(ts@) =~= before.push(t@));
                assert(before.push(rest[0]) + rest.drop_first() =~= before + rest);
            },
            Ok(None) => {
                assert(tokens_view(ts@) =~= all);
                return decode_tokens(&ts);
            },
            Err(_) => {
                return ComicInfo::empty();
            },
        }
    }
}

/// The bytes that a markup writer produces for one token.
pub uninterp spec fn token_markup(t: TokenModel) -> Seq<u8>;

/// Relies on `quick_xml::writer::Writer::write_event`: the markup of one
/// token, escaped; it does not depend on what was written before. The writer
/// writes into a `Vec<u8>`, which never fails.
#[verifier::external_body]
fn render_token(t: &XmlToken) -> (r: Result<Vec<u8>, std::io::Error>)
    ensures
        r is Ok,
        r is Ok ==> r->Ok_0@ == token_markup(t@),
{
    let mut w = Writer::new(Vec::new());
    let e = match t {
        XmlToken::Start(n) => Event::Start(BytesStart::new(n.as_str())),
        XmlToken::End(n) => Event::End(BytesEnd::new(n.as_str())),
        XmlToken::Empty(n) => Event::Empty(BytesStart::new(n.as_str())),
        XmlToken::Text(s) => Event::Text(BytesText::new(s)),
        XmlToken::Reference(n) => Event::GeneralRef(BytesRef::new(n.as_str())),
        XmlToken::Comment(s) => Event::Comment(BytesText::new(s)),
        XmlToken::Other => return Ok(Vec::new()),
    };
    w.write_event(e)?;
    Ok(w.into_inner())
}

/// The markup of a token sequence: the markup of each token, in order.
pub open spec fn tokens_markup(ts: Seq<TokenModel>) -> Seq<u8>
    decreases ts.len(),
{
    if ts.len() == 0 {
        Seq::empty()
    } else {
        tokens_markup(ts.drop_last()) + token_markup(ts.last())
    }
}

/// The markup of a token sequence.
pub fn render_tokens(ts: &Vec<XmlToken>) -> (r: Vec<u8>)
    ensures
        r@ == tokens_markup(tokens_view(ts@)),
{
    let ghost tv = tokens_view(ts@);
    let mut out: Vec<u8> = Vec::new();
    let mut i: usize = 0;
    assert(tv.subrange(0, 0) =~= Seq::<TokenModel>::empty());
    while i < ts.len()
        invariant
            i <= ts@.len(),
            tv == tokens_view(ts@),
            out@ == tokens_markup(tv.subrange(0, i as int)),
        decreases ts@.len() - i,
    {
        let piece = match render_token(&ts[i]) {
            Ok(p) => p,
            Err(_) => Vec::new(),
        };
        let ghost before = out@;
        let mut k: usize = 0;
        while k < piece.len()
            invariant
                k <= piece@.len(),
                out@ == before + piece@.subrange(0, k as int),
            decreases piece@.len() - k,
        {
            out.push(piece[k]);
            k += 1;
            assert(out@ =~= before + piece@.subrange(0, k as int));
        }
        assert(piece@.subrange(0, k as int) =~= piece@);
        i += 1;
        assert(tv.subrange(0, i as int).drop_last() =~= tv.subrange(0, i - 1));
        assert(tv.subrange(0, i as int).last() == ts@[i - 1]@);
    }
    assert(tv.subrange(0, i as int) =~= tv);
    out
}

/// The comment put before the root of every record this library writes.
pub open spec fn provenance_comment() -> Seq<char> {
    seq![' ', 'M', 'o', 'd', 'i', 'f', 'i', 'e', 'd', ' ', 'b', 'y', ' ', 'c', 'b', 'z', '-', 'e', 'd', 'i', 't', ' ']
}

/// The tokens of the document of a record: the provenance comment, then the
/// record.
pub open spec fn document_tokens(m: ComicInfoModel) -> Seq<TokenModel> {
    seq![TokenModel::Comment(provenance_comment())] + record_tokens(m)
}

/// The markup document of a record.
pub open spec fn document_markup(m: ComicInfoModel) -> Seq<u8> {
    tokens_markup(document_tokens(m))
}

/// The markup document of `info`: the provenance comment, then one element
/// per field that is present.
pub fn encode_document(info: &ComicInfo) -> (r: Vec<u8>)
    ensures
        r@ == document_markup(info@),
{
    let v = vec![' ', 'M', 'o', 'd', 'i', 'f', 'i', 'e', 'd', ' ', 'b', 'y', ' ', 'c', 'b', 'z', '-', 'e', 'd', 'i', 't', ' '];
    assert(v@ =~= provenance_comment());
    let mut ts: Vec<XmlToken> = Vec::new();
    push_token(&mut ts, XmlToken::Comment(chars_to_string(&v)));
    push_record_tokens(&mut ts, info);
    assert(tokens_view(ts@) =~= document_tokens(info@));
    render_tokens(&ts)
}

} // verus!
