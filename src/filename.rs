//! Recovering volume, chapter, title and translators from the file name of a
//! comic archive.

use vstd::prelude::*;
use crate::decimal::{decimal_of, opt_decimal_view, Decimal, DecimalModel};
use crate::text::{
    chars_of, chars_view, equals_ci, opt_string_view, strings_view, is_digit, is_digit_char, is_space, join_spaced, join_with_spaces,
    rfind, rfind_char, short_utf8_len, slice_chars, starts_with_ci, starts_with_ci_at, string_of,
    trim, trim_chars, u32_of, parse_u32, utf8_len,
};

verus! {

/// What a file name says of its chapter.
pub struct ChapterModel {
    pub path: Seq<char>,
    pub volume: Option<u32>,
    pub chapter: Option<DecimalModel>,
    pub title: Option<Seq<char>>,
    pub translators: Seq<Seq<char>>,
}

/// A chapter of a series: one archive file and what its name says.
#[derive(Debug, Clone)]
pub struct Chapter {
    /// Path to the archive.
    pub path: String,
    /// Volume of the chapter.
    pub volume: Option<u32>,
    /// Chapter number.
    pub chapter: Option<Decimal>,
    /// Title of the chapter.
    pub title: Option<String>,
    /// Translators, in the order in which the name lists them.
    pub translators: Vec<String>,
}

impl View for Chapter {
    type V = ChapterModel;

    open spec fn view(&self) -> ChapterModel {
        ChapterModel {
            path: self.path@,
            volume: self.volume,
            chapter: opt_decimal_view(self.chapter),
            title: opt_string_view(self.title),
            translators: strings_view(self.translators@),
        }
    }
}

/// `s` ends with the archive extension `.cbz`.
pub open spec fn ends_with_ext(s: Seq<char>) -> bool {
    s.len() >= 4 && s.subrange(s.len() - 4, s.len() as int) == seq!['.', 'c', 'b', 'z']
}

/// `s` without every trailing `.cbz`, as `str::trim_end_matches` leaves it.
pub open spec fn strip_ext(s: Seq<char>) -> Seq<char>
    decreases s.len(),
{
    if ends_with_ext(s) {
        strip_ext(s.subrange(0, s.len() - 4))
    } else {
        s
    }
}

/// Adds a trimmed translator name unless it is empty.
pub open spec fn push_name(acc: Seq<Seq<char>>, cur: Seq<char>) -> Seq<Seq<char>> {
    if trim(cur).len() > 0 {
        acc.push(trim(cur))
    } else {
        acc
    }
}

/// The comma-separated names of `s[i..]`, `cur` being the name begun before.
pub open spec fn names_from(s: Seq<char>, i: int, cur: Seq<char>, acc: Seq<Seq<char>>) -> Seq<Seq<char>>
    decreases s.len() - i,
{
    if i < 0 || i >= s.len() {
        push_name(acc, cur)
    } else if s[i] == ',' {
        names_from(s, i + 1, Seq::empty(), push_name(acc, cur))
    } else {
        names_from(s, i + 1, cur.push(s[i]), acc)
    }
}

/// The names of a translator group: split on commas, trimmed, empty ones left out.
pub open spec fn split_names(s: Seq<char>) -> Seq<Seq<char>> {
    names_from(s, 0, Seq::empty(), Seq::empty())
}

/// The last `[` ... `]` group, when `]` comes after `[`: the text before it,
/// trimmed, and the names in it. Otherwise the text and no names.
pub open spec fn bracket_split(s: Seq<char>) -> (Seq<char>, Seq<Seq<char>>) {
    let a = rfind(s, '[');
    let b = rfind(s, ']');
    if a >= 0 && b >= 0 && b > a {
        (trim(s.subrange(0, a)), split_names(s.subrange(a + 1, b)))
    } else {
        (s, Seq::empty())
    }
}

/// The text without a last `(` ... `)` group of two or three bytes (a language
/// tag), trimmed; unchanged when there is none.
pub open spec fn strip_language(s: Seq<char>) -> Seq<char> {
    let a = rfind(s, '(');
    let b = rfind(s, ')');
    if a >= 0 && b >= 0 && b > a && 2 <= utf8_len(s.subrange(a + 1, b)) <= 3 {
        trim(s.subrange(0, a))
    } else {
        s
    }
}

/// A character that separates tokens outside brackets.
pub open spec fn is_separator(c: char) -> bool {
    c == '-' || c == ':' || c == ' ' || c == '\t' || c == '\n'
}

/// The tokenizer's state: tokens so far, the token being read, and the
/// bracket depth (`[` adds one, `]` takes one away).
pub struct TokState {
    pub tokens: Seq<Seq<char>>,
    pub buf: Seq<char>,
    pub depth: int,
}

pub open spec fn tok_step(st: TokState, c: char) -> TokState {
    if c == '[' {
        TokState { buf: st.buf.push(c), depth: st.depth + 1, ..st }
    } else if c == ']' {
        TokState { buf: st.buf.push(c), depth: st.depth - 1, ..st }
    } else if is_separator(c) && st.depth == 0 {
        if st.buf.len() > 0 {
            TokState { tokens: st.tokens.push(st.buf), buf: Seq::empty(), ..st }
        } else {
            st
        }
    } else {
        TokState { buf: st.buf.push(c), ..st }
    }
}

pub open spec fn tok_from(s: Seq<char>, i: int, st: TokState) -> Seq<Seq<char>>
    decreases s.len() - i,
{
    if i < 0 || i >= s.len() {
        if st.buf.len() > 0 {
            st.tokens.push(st.buf)
        } else {
            st.tokens
        }
    } else {
        tok_from(s, i + 1, tok_step(st, s[i]))
    }
}

/// The tokens of `s`: split on white space, `-` and `:`, except inside
/// brackets, whose characters are kept.
pub open spec fn tokenize(s: Seq<char>) -> Seq<Seq<char>> {
    tok_from(s, 0, TokState { tokens: Seq::empty(), buf: Seq::empty(), depth: 0 })
}

/// The chapter prefixes, in lower case.
pub open spec fn chapter_prefixes() -> Seq<Seq<char>> {
    seq![
        seq!['c', 'h'],
        seq!['c', 'h', '.'],
        seq!['c', 'h', 'a', 'p'],
        seq!['c', 'h', 'a', 'p', '.'],
        seq!['c', 'h', 'a', 'p', 't', 'e', 'r'],
        seq!['c', 'h', 'a', 'p', 't', 'e', 'r', '.'],
        seq!['e', 'p'],
        seq!['e', 'p', '.'],
        seq!['e', 'p', 'i', 's', 'o', 'd', 'e'],
        seq!['e', 'p', 'i', 's', 'o', 'd', 'e', '.'],
    ]
}

/// `t` is the prefix `p` alone or followed by a digit.
pub open spec fn matches_prefix(t: Seq<char>, p: Seq<char>) -> bool {
    equals_ci(t, p) || (starts_with_ci(t, p) && t.len() > p.len() && is_digit(t[p.len() as int]))
}

/// A token that announces a chapter number: a chapter prefix, alone or
/// followed by digits, or `#` followed by digits only.
pub open spec fn is_chapter_token(t: Seq<char>) -> bool {
    (exists|k: int| 0 <= k < chapter_prefixes().len() && matches_prefix(t, #[trigger] chapter_prefixes()[k]))
        || (t.len() > 0 && t[0] == '#' && (forall|i: int| 1 <= i < t.len() ==> is_digit(#[trigger] t[i])))
}

/// A letter, `.` or `#`: what is stripped before a chapter number.
pub open spec fn is_mark(c: char) -> bool {
    let u = c as u32;
    (65 <= u && u <= 90) || (97 <= u && u <= 122) || c == '.' || c == '#'
}

pub open spec fn marks_end(s: Seq<char>, i: int) -> int
    decreases s.len() - i,
{
    if i < 0 || i >= s.len() || !is_mark(s[i]) {
        i
    } else {
        marks_end(s, i + 1)
    }
}

/// The token without its leading letters, dots and `#`.
pub open spec fn strip_marks(t: Seq<char>) -> Seq<char> {
    t.subrange(marks_end(t, 0), t.len() as int)
}

/// A token that names a volume: it starts with `vol` and holds no bracket.
pub open spec fn is_volume_token(t: Seq<char>) -> bool {
    starts_with_ci(t, seq!['v', 'o', 'l']) && !t.contains('[') && !t.contains(']')
}

/// The digits of `s`, in order.
pub open spec fn keep_digits(s: Seq<char>) -> Seq<char>
    decreases s.len(),
{
    if s.len() == 0 {
        Seq::empty()
    } else if is_digit(s.last()) {
        keep_digits(s.drop_last()).push(s.last())
    } else {
        keep_digits(s.drop_last())
    }
}

/// What the scan of the tokens has found so far.
pub struct ScanState {
    pub volume: Option<u32>,
    pub chapter: Option<DecimalModel>,
    pub leftovers: Seq<Seq<char>>,
}

/// The scan of `toks[i..]` from the state `st`.
pub open spec fn scan_from(toks: Seq<Seq<char>>, i: int, st: ScanState) -> ScanState
    decreases toks.len() - i,
{
    if i < 0 || i >= toks.len() {
        st
    } else {
        let t = toks[i];
        if is_volume_token(t) {
            if u32_of(keep_digits(t)) is Some {
                scan_from(toks, i + 1, ScanState { volume: u32_of(keep_digits(t)), ..st })
            } else if i + 1 < toks.len() && u32_of(toks[i + 1]) is Some {
                scan_from(toks, i + 2, ScanState { volume: u32_of(toks[i + 1]), ..st })
            } else {
                scan_from(toks, i + 1, st)
            }
        } else if st.chapter is None && is_chapter_token(t) {
            if strip_marks(t).len() == 0 && i + 1 < toks.len() && decimal_of(toks[i + 1]) is Some {
                scan_from(toks, i + 2, ScanState { chapter: decimal_of(toks[i + 1]), ..st })
            } else if decimal_of(strip_marks(t)) is Some {
                scan_from(toks, i + 1, ScanState { chapter: decimal_of(strip_marks(t)), ..st })
            } else {
                scan_from(toks, i + 1, ScanState { leftovers: st.leftovers.push(t), ..st })
            }
        } else if decimal_of(t) is Some {
            let chapter = if st.chapter is None { decimal_of(t) } else { st.chapter };
            scan_from(toks, i + 1, ScanState { chapter, leftovers: st.leftovers.push(t), ..st })
        } else {
            scan_from(toks, i + 1, ScanState { leftovers: st.leftovers.push(t), ..st })
        }
    }
}

/// What a file name says: the name loses its `.cbz`, then its translator
/// group, then a language tag; its tokens are scanned for volume and chapter,
/// and the tokens left over, joined by spaces, are the title.
pub open spec fn parse_name(path: Seq<char>, name: Seq<char>) -> ChapterModel {
    let core = strip_ext(name);
    let (core, translators) = bracket_split(core);
    let core = strip_language(core);
    let st = scan_from(tokenize(core), 0, ScanState { volume: None, chapter: None, leftovers: Seq::empty() });
    ChapterModel {
        path,
        volume: st.volume,
        chapter: st.chapter,
        title: if st.leftovers.len() == 0 { None } else { Some(join_spaced(st.leftovers)) },
        translators,
    }
}

fn strip_ext_chars(v: &Vec<char>) -> (r: Vec<char>)
    ensures
        r@ == strip_ext(v@),
{
    let mut e: usize = v.len();
    assert(v@.subrange(0, e as int) =~= v@);
    while e >= 4 && v[e - 4] == '.' && v[e - 3] == 'c' && v[e - 2] == 'b' && v[e - 1] == 'z'
        invariant
            e <= v@.len(),
            strip_ext(v@.subrange(0, e as int)) == strip_ext(v@),
        decreases e,
    {
        let ghost s = v@.subrange(0, e as int);
        assert(s.subrange(s.len() - 4, s.len() as int) =~= seq!['.', 'c', 'b', 'z']);
        assert(s.subrange(0, s.len() - 4) =~= v@.subrange(0, e - 4));
        e -= 4;
    }
    let ghost s = v@.subrange(0, e as int);
    if e >= 4 {
        assert(!ends_with_ext(s)) by {
            if ends_with_ext(s) {
                let x = s.subrange(s.len() - 4, s.len() as int);
                assert(x[0] == v@[e - 4]);
                assert(x[1] == v@[e - 3]);
                assert(x[2] == v@[e - 2]);
                assert(x[3] == v@[e - 1]);
            }
        }
    }
    assert(v@.subrange(0, v@.len() as int) =~= v@);
    slice_chars(v, 0, e)
}

fn push_name_exec(acc: &mut Vec<Vec<char>>, cur: &Vec<char>)
    ensures
        chars_view(final(acc)@) == push_name(chars_view(old(acc)@), cur@),
{
    let t = trim_chars(cur);
    if t.len() > 0 {
        acc.push(t);
        assert(chars_view(acc@) =~= chars_view(old(acc)@).push(trim(cur@)));
    }
}

/// The translator names of `v[from..to]`.
fn split_names_exec(v: &Vec<char>, from: usize, to: usize) -> (r: Vec<Vec<char>>)
    requires
        from <= to <= v@.len(),
    ensures
        chars_view(r@) == split_names(v@.subrange(from as int, to as int)),
{
    let ghost s = v@.subrange(from as int, to as int);
    let mut acc: Vec<Vec<char>> = Vec::new();
    let mut cur: Vec<char> = Vec::new();
    let mut i: usize = from;
    assert(chars_view(acc@) =~= Seq::<Seq<char>>::empty());
    assert(cur@ =~= Seq::<char>::empty());
    while i < to
        invariant
            from <= i <= to <= v@.len(),
            s == v@.subrange(from as int, to as int),
            names_from(s, i - from, cur@, chars_view(acc@)) == split_names(s),
        decreases to - i,
    {
        assert(s[i - from] == v@[i as int]);
        if v[i] == ',' {
            push_name_exec(&mut acc, &cur);
            cur = Vec::new();
            assert(cur@ =~= Seq::<char>::empty());
        } else {
            cur.push(v[i]);
        }
        i += 1;
    }
    push_name_exec(&mut acc, &cur);
    acc
}

fn bracket_split_exec(v: &Vec<char>) -> (r: (Vec<char>, Vec<Vec<char>>))
    ensures
        (r.0@, chars_view(r.1@)) == bracket_split(v@),
{
    let a = rfind_char(v, '[');
    let b = rfind_char(v, ']');
    match (a, b) {
        (Some(a), Some(b)) => {
            if b > a {
                let before = slice_chars(v, 0, a);
                let core = trim_chars(&before);
                let names = split_names_exec(v, a + 1, b);
                return (core, names);
            }
        },
        _ => {},
    }
    let names: Vec<Vec<char>> = Vec::new();
    assert(chars_view(names@) =~= Seq::<Seq<char>>::empty());
    (slice_chars(v, 0, v.len()), names)
}

fn strip_language_exec(v: Vec<char>) -> (r: Vec<char>)
    ensures
        r@ == strip_language(v@),
{
    let a = rfind_char(&v, '(');
    let b = rfind_char(&v, ')');
    match (a, b) {
        (Some(a), Some(b)) => {
            if b > a {
                let n = short_utf8_len(&v, a + 1, b);
                if 2 <= n && n <= 3 {
                    let before = slice_chars(&v, 0, a);
                    return trim_chars(&before);
                }
            }
        },
        _ => {},
    }
    v
}

fn is_separator_char(c: char) -> (r: bool)
    ensures
        r == is_separator(c),
{
    c == '-' || c == ':' || c == ' ' || c == '\t' || c == '\n'
}

/// The tokens of `v` (see [`tokenize`]).
fn tokenize_chars(v: &Vec<char>) -> (r: Vec<Vec<char>>)
    ensures
        chars_view(r@) == tokenize(v@),
{
    let mut tokens: Vec<Vec<char>> = Vec::new();
    let mut buf: Vec<char> = Vec::new();
    let mut depth: i128 = 0;
    let mut i: usize = 0;
    assert(chars_view(tokens@) =~= Seq::<Seq<char>>::empty());
    assert(buf@ =~= Seq::<char>::empty());
    while i < v.len()
        invariant
            i <= v@.len(),
            -(i as int) <= depth <= i,
            tok_from(v@, i as int, TokState { tokens: chars_view(tokens@), buf: buf@, depth: depth as int }) == tokenize(v@),
        decreases v@.len() - i,
    {
        let c = v[i];
        if c == '[' {
            depth += 1;
            buf.push(c);
        } else if c == ']' {
            depth -= 1;
            buf.push(c);
        } else if is_separator_char(c) && depth == 0 {
            if buf.len() > 0 {
                let ghost old_tokens = chars_view(tokens@);
                tokens.push(buf);
                assert(chars_view(tokens@) =~= old_tokens.push(buf@));
                buf = Vec::new();
                assert(buf@ =~= Seq::<char>::empty());
            }
        } else {
            buf.push(c);
        }
        i += 1;
    }
    if buf.len() > 0 {
        let ghost old_tokens = chars_view(tokens@);
        tokens.push(buf);
        assert(chars_view(tokens@) =~= old_tokens.push(buf@));
    }
    tokens
}

/// The tokens of `s`: split on white space, `-` and `:`, except inside
/// brackets, whose characters are kept.
pub fn tokenize_preserving_brackets(s: &str) -> (r: Vec<String>)
    ensures
        strings_view(r@) == tokenize(s@),
{
    let v = chars_of(s);
    let toks = tokenize_chars(&v);
    let mut r: Vec<String> = Vec::new();
    let mut i: usize = 0;
    while i < toks.len()
        invariant
            i <= toks@.len(),
            chars_view(toks@) == tokenize(s@),
            strings_view(r@) == chars_view(toks@).subrange(0, i as int),
        decreases toks@.len() - i,
    {
        let t = string_of(&toks[i], 0, toks[i].len());
        assert(toks@[i as int]@.subrange(0, toks@[i as int]@.len() as int) =~= toks@[i as int]@);
        let ghost prev = strings_view(r@);
        r.push(t);
        assert(strings_view(r@) =~= prev.push(t@));
        assert(chars_view(toks@).subrange(0, i + 1) =~= chars_view(toks@).subrange(0, i as int).push(toks@[i as int]@));
        i += 1;
        assert(strings_view(r@) =~= chars_view(toks@).subrange(0, i as int));
    }
    assert(chars_view(toks@).subrange(0, i as int) =~= chars_view(toks@));
    r
}

fn chapter_prefix_list() -> (r: Vec<Vec<char>>)
    ensures
        chars_view(r@) == chapter_prefixes(),
{
    let r = vec![
        vec!['c', 'h'],
        vec!['c', 'h', '.'],
        vec!['c', 'h', 'a', 'p'],
        vec!['c', 'h', 'a', 'p', '.'],
        vec!['c', 'h', 'a', 'p', 't', 'e', 'r'],
        vec!['c', 'h', 'a', 'p', 't', 'e', 'r', '.'],
        vec!['e', 'p'],
        vec!['e', 'p', '.'],
        vec!['e', 'p', 'i', 's', 'o', 'd', 'e'],
        vec!['e', 'p', 'i', 's', 'o', 'd', 'e', '.'],
    ];
    assert(chars_view(r@) =~= chapter_prefixes());
    r
}

fn matches_prefix_exec(t: &Vec<char>, p: &Vec<char>) -> (r: bool)
    ensures
        r == matches_prefix(t@, p@),
{
    assert(t@.subrange(0, t@.len() as int) =~= t@);
    let sw = starts_with_ci_at(t, 0, t.len(), p);
    if !sw {
        return false;
    }
    t.len() == p.len() || (t.len() > p.len() && is_digit_char(t[p.len()]))
}

fn is_chapter_chars(t: &Vec<char>) -> (r: bool)
    ensures
        r == is_chapter_token(t@),
{
    let prefixes = chapter_prefix_list();
    let mut k: usize = 0;
    while k < prefixes.len()
        invariant
            k <= prefixes@.len(),
            chars_view(prefixes@) == chapter_prefixes(),
            forall|j: int| 0 <= j < k ==> !matches_prefix(t@, #[trigger] chapter_prefixes()[j]),
        decreases prefixes@.len() - k,
    {
        assert(chapter_prefixes()[k as int] == prefixes@[k as int]@);
        if matches_prefix_exec(t, &prefixes[k]) {
            return true;
        }
        k += 1;
    }
    assert(chapter_prefixes().len() == 10);
    if t.len() == 0 || t[0] != '#' {
        return false;
    }
    let mut i: usize = 1;
    while i < t.len()
        invariant
            1 <= i <= t@.len(),
            t@[0] == '#',
            chapter_prefixes().len() == 10,
            forall|j: int| 0 <= j < 10 ==> !matches_prefix(t@, #[trigger] chapter_prefixes()[j]),
            forall|j: int| 1 <= j < i ==> is_digit(#[trigger] t@[j]),
        decreases t@.len() - i,
    {
        if !is_digit_char(t[i]) {
            assert(!is_digit(t@[i as int]));
            return false;
        }
        i += 1;
    }
    true
}

/// Whether `token` announces a chapter number: a chapter prefix (`ch`, `ch.`,
/// `chap`, `chap.`, `chapter`, `chapter.`, `ep`, `ep.`, `episode`,
/// `episode.`, in any case) alone or followed by a digit, or `#` followed by
/// digits only.
pub fn is_chapter_prefix(token: &str) -> (r: bool)
    ensures
        r == is_chapter_token(token@),
{
    let t = chars_of(token);
    is_chapter_chars(&t)
}

fn is_mark_char(c: char) -> (r: bool)
    ensures
        r == is_mark(c),
{
    let u = c as u32;
    (65 <= u && u <= 90) || (97 <= u && u <= 122) || c == '.' || c == '#'
}

fn strip_marks_exec(t: &Vec<char>) -> (r: Vec<char>)
    ensures
        r@ == strip_marks(t@),
{
    let mut i: usize = 0;
    while i < t.len() && is_mark_char(t[i])
        invariant
            i <= t@.len(),
            marks_end(t@, i as int) == marks_end(t@, 0),
        decreases t@.len() - i,
    {
        i += 1;
    }
    slice_chars(t, i, t.len())
}

fn keep_digits_exec(t: &Vec<char>) -> (r: Vec<char>)
    ensures
        r@ == keep_digits(t@),
{
    let mut r: Vec<char> = Vec::new();
    let mut i: usize = 0;
    while i < t.len()
        invariant
            i <= t@.len(),
            r@ == keep_digits(t@.subrange(0, i as int)),
        decreases t@.len() - i,
    {
        let ghost s = t@.subrange(0, i + 1);
        assert(s.drop_last() =~= t@.subrange(0, i as int));
        if is_digit_char(t[i]) {
            r.push(t[i]);
        }
        i += 1;
    }
    assert(t@.subrange(0, i as int) =~= t@);
    r
}

fn is_volume_chars(t: &Vec<char>) -> (r: bool)
    ensures
        r == is_volume_token(t@),
{
    let vol = vec!['v', 'o', 'l'];
    assert(t@.subrange(0, t@.len() as int) =~= t@);
    assert(vol@ =~= seq!['v', 'o', 'l']);
    if !starts_with_ci_at(t, 0, t.len(), &vol) {
        return false;
    }
    let mut i: usize = 0;
    while i < t.len()
        invariant
            i <= t@.len(),
            forall|j: int| 0 <= j < i ==> t@[j] != '[' && t@[j] != ']',
        decreases t@.len() - i,
    {
        if t[i] == '[' || t[i] == ']' {
            assert(t@.contains(t@[i as int]));
            return false;
        }
        i += 1;
    }
    true
}

/// The chapter that the file name `filename` of the archive at `path`
/// describes. Never fails: at worst every token of the name is title.
pub fn parse_filename(path: String, filename: &str) -> (r: Chapter)
    ensures
        r@ == parse_name(path@, filename@),
{
    let name = chars_of(filename);
    let core = strip_ext_chars(&name);
    let (core, translators) = bracket_split_exec(&core);
    let core = strip_language_exec(core);
    let toks = tokenize_chars(&core);
    let ghost ts = chars_view(toks@);
    let mut volume: Option<u32> = None;
    let mut chapter: Option<Decimal> = None;
    let mut leftovers: Vec<Vec<char>> = Vec::new();
    assert(chars_view(leftovers@) =~= Seq::<Seq<char>>::empty());
    let ghost init = ScanState { volume: None, chapter: None, leftovers: Seq::empty() };
    let mut i: usize = 0;
    while i < toks.len()
        invariant
            i <= toks@.len(),
            ts == chars_view(toks@),
            scan_from(ts, i as int, ScanState { volume, chapter: opt_decimal_view(chapter), leftovers: chars_view(leftovers@) })
                == scan_from(ts, 0, init),
        decreases toks@.len() - i,
    {
        let t = &toks[i];
        let ghost st = ScanState { volume, chapter: opt_decimal_view(chapter), leftovers: chars_view(leftovers@) };
        assert(ts[i as int] == t@);
        if is_volume_chars(t) {
            let digits = keep_digits_exec(t);
            assert(digits@.subrange(0, digits@.len() as int) =~= digits@);
            let own = parse_u32(&digits, 0, digits.len());
            if own.is_some() {
                volume = own;
            } else if i + 1 < toks.len() {
                let next = &toks[i + 1];
                assert(ts[i + 1] == next@);
                assert(next@.subrange(0, next@.len() as int) =~= next@);
                let nv = parse_u32(next, 0, next.len());
                if nv.is_some() {
                    volume = nv;
                    i += 1;
                }
            }
        } else if chapter.is_none() && is_chapter_chars(t) {
            let num = strip_marks_exec(t);
            let mut done = false;
            if num.len() == 0 && i + 1 < toks.len() {
                let next = &toks[i + 1];
                assert(ts[i + 1] == next@);
                assert(next@.subrange(0, next@.len() as int) =~= next@);
                let n = Decimal::parse_range(next, 0, next.len());
                if n.is_some() {
                    chapter = n;
                    i += 1;
                    done = true;
                }
            }
            if !done {
                assert(num@.subrange(0, num@.len() as int) =~= num@);
                let n = Decimal::parse_range(&num, 0, num.len());
                if n.is_some() {
                    chapter = n;
                } else {
                    let copy = slice_chars(t, 0, t.len());
                    assert(t@.subrange(0, t@.len() as int) =~= t@);
                    leftovers.push(copy);
                    assert(chars_view(leftovers@) =~= st.leftovers.push(t@));
                }
            }
        } else {
            assert(t@.subrange(0, t@.len() as int) =~= t@);
            let n = Decimal::parse_range(t, 0, t.len());
            if n.is_some() && chapter.is_none() {
                chapter = n;
            }
            let copy = slice_chars(t, 0, t.len());
            leftovers.push(copy);
            assert(chars_view(leftovers@) =~= st.leftovers.push(t@));
        }
        i += 1;
    }
    let title = if leftovers.len() == 0 {
        None
    } else {
        Some(join_with_spaces(&leftovers))
    };
    let mut names: Vec<String> = Vec::new();
    let mut k: usize = 0;
    while k < translators.len()
        invariant
            k <= translators@.len(),
            strings_view(names@) == chars_view(translators@).subrange(0, k as int),
        decreases translators@.len() - k,
    {
        let t = string_of(&translators[k], 0, translators[k].len());
        assert(translators@[k as int]@.subrange(0, translators@[k as int]@.len() as int) =~= translators@[k as int]@);
        let ghost prev = strings_view(names@);
        names.push(t);
        assert(strings_view(names@) =~= prev.push(t@));
        assert(chars_view(translators@).subrange(0, k + 1) =~= chars_view(translators@).subrange(0, k as int).push(translators@[k as int]@));
        k += 1;
        assert(strings_view(names@) =~= chars_view(translators@).subrange(0, k as int));
    }
    assert(chars_view(translators@).subrange(0, k as int) =~= chars_view(translators@));
    Chapter { path, volume, chapter, title, translators: names }
}

} // verus!
