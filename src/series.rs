//! The chapters of a series in reading order: by chapter number, then by
//! path.

use vstd::prelude::*;
use vstd::seq_lib::{to_multiset_build, to_multiset_insert};
use std::cmp::Ordering;
use crate::decimal::{decimal_cmp, lemma_decimal_cmp_antisym, lemma_decimal_cmp_equal, lemma_decimal_cmp_trans, Decimal, DecimalModel};
use crate::filename::{Chapter, ChapterModel};
use crate::text::{chars_of, strings_view};

verus! {

/// Lexicographic order of two texts; a proper prefix comes first.
pub open spec fn text_cmp(a: Seq<char>, b: Seq<char>, i: int) -> Ordering
    decreases a.len() - i,
{
    if i < 0 || (i >= a.len() && i >= b.len()) {
        Ordering::Equal
    } else if i >= a.len() {
        Ordering::Less
    } else if i >= b.len() {
        Ordering::Greater
    } else if a[i] < b[i] {
        Ordering::Less
    } else if a[i] > b[i] {
        Ordering::Greater
    } else {
        text_cmp(a, b, i + 1)
    }
}

/// The number by which a chapter is ordered: its chapter number, or zero.
pub open spec fn sort_number(c: ChapterModel) -> DecimalModel {
    match c.chapter {
        Some(n) => n,
        None => DecimalModel { whole: Seq::empty(), fraction: Seq::empty() },
    }
}

/// One component of a path, as `Path::components` reports it: the root
/// (kind 1), `.` at the start (kind 2), `..` (kind 3), or a name (kind 4),
/// in the order that `Component` derives.
pub struct ComponentModel {
    pub kind: int,
    pub text: Seq<char>,
}

/// Adds the piece `p` between two separators: empty pieces and `.` are
/// skipped, `..` is a parent, anything else a name.
pub open spec fn push_piece(acc: Seq<ComponentModel>, p: Seq<char>) -> Seq<ComponentModel> {
    if p.len() == 0 || p == seq!['.'] {
        acc
    } else if p == seq!['.', '.'] {
        acc.push(ComponentModel { kind: 3, text: Seq::empty() })
    } else {
        acc.push(ComponentModel { kind: 4, text: p })
    }
}

/// The components of `s[i..]`, `cur` being the piece begun before.
pub open spec fn pieces_from(s: Seq<char>, i: int, cur: Seq<char>, acc: Seq<ComponentModel>) -> Seq<ComponentModel>
    decreases s.len() - i,
{
    if i < 0 || i >= s.len() {
        push_piece(acc, cur)
    } else if s[i] == '/' {
        pieces_from(s, i + 1, Seq::empty(), push_piece(acc, cur))
    } else {
        pieces_from(s, i + 1, cur.push(s[i]), acc)
    }
}

/// The components of a Unix path: the root if it starts with `/`, `.` if it
/// starts with `./` (or is `.`), then its pieces between separators, with
/// empty pieces and other `.` pieces left out.
pub open spec fn path_components(s: Seq<char>) -> Seq<ComponentModel> {
    let root = s.len() > 0 && s[0] == '/';
    let cur = !root && s.len() > 0 && s[0] == '.' && (s.len() == 1 || s[1] == '/');
    let head: Seq<ComponentModel> = if root {
        seq![ComponentModel { kind: 1, text: Seq::empty() }]
    } else if cur {
        seq![ComponentModel { kind: 2, text: Seq::empty() }]
    } else {
        Seq::empty()
    };
    pieces_from(s, 0, Seq::empty(), head)
}

/// The order of two components: by kind, then names by text.
pub open spec fn component_cmp(x: ComponentModel, y: ComponentModel) -> Ordering {
    if x.kind < y.kind {
        Ordering::Less
    } else if x.kind > y.kind {
        Ordering::Greater
    } else {
        text_cmp(x.text, y.text, 0)
    }
}

/// Lexicographic order of two component sequences from `i`.
pub open spec fn components_cmp(a: Seq<ComponentModel>, b: Seq<ComponentModel>, i: int) -> Ordering
    decreases a.len() - i,
{
    if i < 0 || (i >= a.len() && i >= b.len()) {
        Ordering::Equal
    } else if i >= a.len() {
        Ordering::Less
    } else if i >= b.len() {
        Ordering::Greater
    } else if component_cmp(a[i], b[i]) != Ordering::Equal {
        component_cmp(a[i], b[i])
    } else {
        components_cmp(a, b, i + 1)
    }
}

/// A path component.
pub struct PathComponent {
    pub kind: u8,
    pub text: Vec<char>,
}

impl View for PathComponent {
    type V = ComponentModel;

    open spec fn view(&self) -> ComponentModel {
        ComponentModel { kind: self.kind as int, text: self.text@ }
    }
}

pub open spec fn components_view(v: Seq<PathComponent>) -> Seq<ComponentModel> {
    v.map_values(|c: PathComponent| c@)
}

fn push_piece_exec(acc: &mut Vec<PathComponent>, p: Vec<char>)
    ensures
        components_view(final(acc)@) == push_piece(components_view(old(acc)@), p@),
{
    let ghost before = components_view(acc@);
    if p.len() == 0 || (p.len() == 1 && p[0] == '.') {
        assert(p.len() == 1 ==> p@ =~= seq!['.']);
        return;
    }
    assert(p@ != seq!['.']) by {
        if p@.len() == 1 {
            assert(p@[0] != '.');
            assert(seq!['.'][0] == '.');
        }
    }
    if p.len() == 2 && p[0] == '.' && p[1] == '.' {
        assert(p@ =~= seq!['.', '.']);
        acc.push(PathComponent { kind: 3, text: Vec::new() });
        assert(components_view(acc@) =~= before.push(ComponentModel { kind: 3, text: Seq::empty() }));
    } else {
        assert(p@ != seq!['.', '.']) by {
            if p@.len() == 2 {
                assert(p@[0] != '.' || p@[1] != '.');
                assert(seq!['.', '.'][0] == '.' && seq!['.', '.'][1] == '.');
            }
        }
        let ghost pv = p@;
        acc.push(PathComponent { kind: 4, text: p });
        assert(components_view(acc@) =~= before.push(ComponentModel { kind: 4, text: pv }));
    }
}

/// The components of the Unix path `s` (see [`path_components`]).
pub fn components_of(s: &str) -> (r: Vec<PathComponent>)
    ensures
        components_view(r@) == path_components(s@),
{
    let v = chars_of(s);
    let mut acc: Vec<PathComponent> = Vec::new();
    let root = v.len() > 0 && v[0] == '/';
    let cur = !root && v.len() > 0 && v[0] == '.' && (v.len() == 1 || v[1] == '/');
    if root {
        acc.push(PathComponent { kind: 1, text: Vec::new() });
    } else if cur {
        acc.push(PathComponent { kind: 2, text: Vec::new() });
    }
    assert(components_view(acc@) =~= (if root {
        seq![ComponentModel { kind: 1, text: Seq::empty() }]
    } else if cur {
        seq![ComponentModel { kind: 2, text: Seq::empty() }]
    } else {
        Seq::<ComponentModel>::empty()
    }));
    let mut piece: Vec<char> = Vec::new();
    assert(piece@ =~= Seq::<char>::empty());
    let mut i: usize = 0;
    while i < v.len()
        invariant
            i <= v@.len(),
            v@ == s@,
            pieces_from(v@, i as int, piece@, components_view(acc@)) == path_components(s@),
        decreases v@.len() - i,
    {
        if v[i] == '/' {
            let p = piece;
            push_piece_exec(&mut acc, p);
            piece = Vec::new();
            assert(piece@ =~= Seq::<char>::empty());
        } else {
            piece.push(v[i]);
        }
        i += 1;
    }
    push_piece_exec(&mut acc, piece);
    acc
}

fn component_compare(x: &PathComponent, y: &PathComponent) -> (r: Ordering)
    ensures
        r == component_cmp(x@, y@),
{
    if x.kind < y.kind {
        Ordering::Less
    } else if x.kind > y.kind {
        Ordering::Greater
    } else {
        text_compare(&x.text, &y.text)
    }
}

/// The order of two component sequences (see [`components_cmp`]).
fn components_compare(a: &Vec<PathComponent>, b: &Vec<PathComponent>) -> (r: Ordering)
    ensures
        r == components_cmp(components_view(a@), components_view(b@), 0),
{
    let ghost av = components_view(a@);
    let ghost bv = components_view(b@);
    let mut i: usize = 0;
    while i < a.len() && i < b.len()
        invariant
            i <= a@.len(),
            i <= b@.len(),
            av == components_view(a@),
            bv == components_view(b@),
            components_cmp(av, bv, i as int) == components_cmp(av, bv, 0),
        decreases a@.len() - i,
    {
        assert(av[i as int] == a@[i as int]@ && bv[i as int] == b@[i as int]@);
        match component_compare(&a[i], &b[i]) {
            Ordering::Equal => {},
            o => {
                return o;
            },
        }
        i += 1;
    }
    if i >= a.len() && i >= b.len() {
        Ordering::Equal
    } else if i >= a.len() {
        Ordering::Less
    } else {
        Ordering::Greater
    }
}

/// Reading order of chapters: by chapter number (none counts as zero), then
/// by path, compared component by component as `Path::cmp` does.
pub open spec fn chapter_cmp(a: ChapterModel, b: ChapterModel) -> Ordering {
    match decimal_cmp(sort_number(a), sort_number(b)) {
        Ordering::Equal => components_cmp(path_components(a.path), path_components(b.path), 0),
        o => o,
    }
}

fn text_compare(a: &Vec<char>, b: &Vec<char>) -> (r: Ordering)
    ensures
        r == text_cmp(a@, b@, 0),
{
    let mut i: usize = 0;
    while i < a.len() && i < b.len() && a[i] == b[i]
        invariant
            i <= a@.len(),
            i <= b@.len(),
            text_cmp(a@, b@, i as int) == text_cmp(a@, b@, 0),
        decreases a@.len() - i,
    {
        i += 1;
    }
    if i >= a.len() && i >= b.len() {
        Ordering::Equal
    } else if i >= a.len() {
        Ordering::Less
    } else if i >= b.len() {
        Ordering::Greater
    } else if a[i] < b[i] {
        Ordering::Less
    } else {
        Ordering::Greater
    }
}

/// Reading order of two chapters: by chapter number (a chapter without one
/// counts as zero), then by path.
pub fn compare_chapters(a: &Chapter, b: &Chapter) -> (r: Ordering)
    ensures
        r == chapter_cmp(a@, b@),
{
    let zero = Decimal::zero();
    let na = match &a.chapter {
        Some(n) => n,
        None => &zero,
    };
    let nb = match &b.chapter {
        Some(n) => n,
        None => &zero,
    };
    match na.compare(nb) {
        Ordering::Equal => {
            let pa = components_of(a.path.as_str());
            let pb = components_of(b.path.as_str());
            components_compare(&pa, &pb)
        },
        o => o,
    }
}


proof fn lemma_text_cmp_antisym(a: Seq<char>, b: Seq<char>, i: int)
    requires
        0 <= i,
    ensures
        text_cmp(a, b, i) == Ordering::Greater <==> text_cmp(b, a, i) == Ordering::Less,
        text_cmp(a, b, i) == Ordering::Equal <==> text_cmp(b, a, i) == Ordering::Equal,
    decreases a.len() - i,
{
    if i < a.len() && i < b.len() && a[i] == b[i] {
        lemma_text_cmp_antisym(a, b, i + 1);
    }
}

proof fn lemma_text_cmp_equal(a: Seq<char>, b: Seq<char>, i: int)
    requires
        0 <= i <= a.len(),
        i <= b.len(),
        text_cmp(a, b, i) == Ordering::Equal,
    ensures
        a.len() == b.len(),
        forall|j: int| i <= j < a.len() ==> a[j] == b[j],
    decreases a.len() - i,
{
    if i < a.len() {
        lemma_text_cmp_equal(a, b, i + 1);
    }
}

proof fn lemma_component_cmp(x: ComponentModel, y: ComponentModel, z: ComponentModel)
    ensures
        component_cmp(x, y) == Ordering::Greater <==> component_cmp(y, x) == Ordering::Less,
        component_cmp(x, y) == Ordering::Equal ==> x == y,
        component_cmp(x, y) != Ordering::Greater && component_cmp(y, z) != Ordering::Greater ==> component_cmp(x, z) != Ordering::Greater,
        component_cmp(x, y) != Ordering::Greater && component_cmp(y, z) != Ordering::Greater && (component_cmp(x, y) == Ordering::Less || component_cmp(y, z) == Ordering::Less) ==> component_cmp(x, z) == Ordering::Less,
{
    lemma_text_cmp_antisym(x.text, y.text, 0);
    if component_cmp(x, y) == Ordering::Equal {
        lemma_text_cmp_equal(x.text, y.text, 0);
        assert(x.text =~= y.text);
    }
    if x.kind == y.kind && y.kind == z.kind && text_cmp(x.text, y.text, 0) != Ordering::Greater && text_cmp(y.text, z.text, 0) != Ordering::Greater {
        lemma_text_cmp_trans(x.text, y.text, z.text, 0);
    }
}

proof fn lemma_components_cmp_antisym(a: Seq<ComponentModel>, b: Seq<ComponentModel>, i: int)
    requires
        0 <= i,
    ensures
        components_cmp(a, b, i) == Ordering::Greater <==> components_cmp(b, a, i) == Ordering::Less,
    decreases a.len() - i,
{
    if i < a.len() && i < b.len() {
        lemma_component_cmp(a[i], b[i], b[i]);
        lemma_component_cmp(b[i], a[i], a[i]);
        lemma_components_cmp_antisym(a, b, i + 1);
    }
}

proof fn lemma_components_cmp_trans(a: Seq<ComponentModel>, b: Seq<ComponentModel>, c: Seq<ComponentModel>, i: int)
    requires
        0 <= i,
        components_cmp(a, b, i) != Ordering::Greater,
        components_cmp(b, c, i) != Ordering::Greater,
    ensures
        components_cmp(a, c, i) != Ordering::Greater,
    decreases a.len() - i,
{
    if i < a.len() && i < b.len() && i < c.len() {
        lemma_component_cmp(a[i], b[i], c[i]);
        if component_cmp(a[i], b[i]) == Ordering::Equal && component_cmp(b[i], c[i]) == Ordering::Equal {
            lemma_components_cmp_trans(a, b, c, i + 1);
        }
    }
}

proof fn lemma_text_cmp_trans(a: Seq<char>, b: Seq<char>, c: Seq<char>, i: int)
    requires
        0 <= i,
        text_cmp(a, b, i) != Ordering::Greater,
        text_cmp(b, c, i) != Ordering::Greater,
    ensures
        text_cmp(a, c, i) != Ordering::Greater,
        text_cmp(a, b, i) == Ordering::Less || text_cmp(b, c, i) == Ordering::Less ==> text_cmp(a, c, i) == Ordering::Less,
    decreases a.len() - i,
{
    if i < a.len() && i < b.len() && i < c.len() && a[i] == b[i] && b[i] == c[i] {
        lemma_text_cmp_trans(a, b, c, i + 1);
    }
}

pub open spec fn chapters_view(v: Seq<Chapter>) -> Seq<ChapterModel> {
    v.map_values(|c: Chapter| c@)
}

/// `a` comes before `b` in reading order, or with it.
pub open spec fn chapter_le(a: ChapterModel, b: ChapterModel) -> bool {
    chapter_cmp(a, b) != Ordering::Greater
}

/// The chapters are in reading order.
pub open spec fn chapters_sorted(s: Seq<ChapterModel>) -> bool {
    forall|i: int, j: int| 0 <= i < j < s.len() ==> chapter_le(#[trigger] s[i], #[trigger] s[j])
}

proof fn lemma_chapter_cmp_antisym(a: ChapterModel, b: ChapterModel)
    ensures
        chapter_cmp(a, b) == Ordering::Greater <==> chapter_cmp(b, a) == Ordering::Less,
{
    lemma_decimal_cmp_antisym(sort_number(a), sort_number(b));
    lemma_components_cmp_antisym(path_components(a.path), path_components(b.path), 0);
}

proof fn lemma_chapter_cmp_trans(a: ChapterModel, b: ChapterModel, c: ChapterModel)
    requires
        chapter_le(a, b),
        chapter_le(b, c),
    ensures
        chapter_le(a, c),
{
    let (x, y, z) = (sort_number(a), sort_number(b), sort_number(c));
    lemma_decimal_cmp_trans(x, y, z);
    if decimal_cmp(x, y) == Ordering::Equal {
        lemma_decimal_cmp_equal(x, y);
    }
    if decimal_cmp(y, z) == Ordering::Equal {
        lemma_decimal_cmp_equal(y, z);
    }
    if decimal_cmp(x, y) == Ordering::Equal && decimal_cmp(y, z) == Ordering::Equal {
        lemma_components_cmp_trans(path_components(a.path), path_components(b.path), path_components(c.path), 0);
    }
}

/// The chapters in reading order: by chapter number (none counts as zero),
/// then by path; chapters that compare equal keep their order.
pub fn sort_chapters(v: Vec<Chapter>) -> (r: Vec<Chapter>)
    ensures
        chapters_view(r@).to_multiset() == chapters_view(v@).to_multiset(),
        chapters_sorted(chapters_view(r@)),
{
    let ghost input = chapters_view(v@);
    let mut out: Vec<Chapter> = Vec::new();
    let mut rest = v;
    let mut taken: usize = 0;
    let ghost n = input.len();
    let len0 = rest.len();
    assert(n == len0);
    proof {
        assert(chapters_view(out@) =~= Seq::<ChapterModel>::empty());
        assert(input.subrange(0, 0) =~= Seq::<ChapterModel>::empty());
    }
    // `rest` is consumed from its front through a reversed copy.
    let mut rev: Vec<Chapter> = Vec::new();
    while rest.len() > 0
        invariant
            chapters_view(rev@) + chapters_view(rest@).reverse() == input.reverse(),
        decreases rest@.len(),
    {
        let ghost before_rest = chapters_view(rest@);
        let ghost before_rev = chapters_view(rev@);
        let c = rest.pop().unwrap();
        assert(chapters_view(rest@) =~= before_rest.drop_last());
        assert(c@ == before_rest.last());
        rev.push(c);
        assert(chapters_view(rev@) =~= before_rev.push(c@));
        assert(before_rest.reverse() =~= seq![c@] + chapters_view(rest@).reverse());
        assert(chapters_view(rev@) + chapters_view(rest@).reverse() =~= before_rev + before_rest.reverse());
    }
    assert(chapters_view(rev@) =~= input.reverse());
    while rev.len() > 0
        invariant
            taken + rev@.len() == n,
            n <= usize::MAX,
            chapters_view(rev@).reverse() == input.subrange(taken as int, n as int),
            n == input.len(),
            chapters_view(out@).to_multiset() == input.subrange(0, taken as int).to_multiset(),
            chapters_sorted(chapters_view(out@)),
        decreases rev@.len(),
    {
        let ghost before_rev = chapters_view(rev@);
        let c = rev.pop().unwrap();
        assert(chapters_view(rev@) =~= before_rev.drop_last());
        assert(c@ == before_rev.last());
        assert(before_rev.reverse()[0] == c@);
        assert(c@ == input[taken as int]);
        assert(before_rev.drop_last().reverse() =~= before_rev.reverse().subrange(1, before_rev.len() as int));
        assert(chapters_view(rev@).reverse() =~= input.subrange(taken + 1, n as int));
        let ghost ov = chapters_view(out@);
        let mut k: usize = 0;
        let mut stop = false;
        while k < out.len() && !stop
            invariant
                k <= out@.len(),
                ov == chapters_view(out@),
                forall|j: int| 0 <= j < k ==> chapter_le(#[trigger] ov[j], c@),
                stop ==> k < ov.len() && chapter_cmp(ov[k as int], c@) == Ordering::Greater,
            decreases out@.len() - k + if stop { 0int } else { 1int },
        {
            assert(ov[k as int] == out@[k as int]@);
            match compare_chapters(&out[k], &c) {
                Ordering::Greater => {
                    stop = true;
                },
                _ => {
                    k += 1;
                },
            }
        }
        proof {
            if k < ov.len() {
                assert(ov[k as int] == out@[k as int]@);
                lemma_chapter_cmp_antisym(ov[k as int], c@);
            }
        }
        out.insert(k, c);
        let ghost nv = chapters_view(out@);
        assert(nv =~= ov.insert(k as int, c@));
        proof {
            to_multiset_insert(ov, k as int, c@);
            assert(input.subrange(0, taken + 1) =~= input.subrange(0, taken as int).push(c@));
            to_multiset_build(input.subrange(0, taken as int), c@);
            assert forall|i: int, j: int| 0 <= i < j < nv.len() implies chapter_le(#[trigger] nv[i], #[trigger] nv[j]) by {
                if j < k {
                    assert(nv[i] == ov[i] && nv[j] == ov[j]);
                } else if j == k {
                    assert(nv[i] == ov[i]);
                } else if i == k {
                    assert(nv[j] == ov[j - 1]);
                    if j - 1 > k {
                        lemma_chapter_cmp_trans(c@, ov[k as int], ov[j - 1]);
                    }
                } else if i < k {
                    assert(nv[i] == ov[i] && nv[j] == ov[j - 1]);
                } else {
                    assert(nv[i] == ov[i - 1] && nv[j] == ov[j - 1]);
                }
            }
        }
        taken += 1;
    }
    assert(input.subrange(0, taken as int) =~= input);
    out
}

/// A series of the library: a directory and its chapters, in reading order.
#[derive(Debug, Clone)]
pub struct Series {
    /// Path to the series directory.
    pub path: String,
    /// Name of the series.
    pub name: String,
    /// The chapters, in reading order.
    pub chapters: Vec<Chapter>,
}

impl Series {
    /// The series at `path` named `name`, with `chapters` put in reading
    /// order.
    pub fn new(path: String, name: String, chapters: Vec<Chapter>) -> (r: Series)
        ensures
            r.path@ == path@,
            r.name@ == name@,
            chapters_view(r.chapters@).to_multiset() == chapters_view(chapters@).to_multiset(),
            chapters_sorted(chapters_view(r.chapters@)),
    {
        Series { path, name, chapters: sort_chapters(chapters) }
    }
}

/// The lower-case form of a text, as `str::to_lowercase` gives it.
pub uninterp spec fn lower_of(s: Seq<char>) -> Seq<char>;

/// Relies on `str::to_lowercase`: the result depends on the characters
/// alone.
#[verifier::external_body]
fn lowercase(s: &str) -> (r: String)
    ensures
        r@ == lower_of(s@),
{
    s.to_lowercase()
}

/// `q` occurs in `t` at `k`.
pub open spec fn occurs_at(t: Seq<char>, q: Seq<char>, k: int) -> bool {
    0 <= k && k + q.len() <= t.len() && t.subrange(k, k + q.len()) == q
}

/// `q` occurs somewhere in `t`.
pub open spec fn contains_text(t: Seq<char>, q: Seq<char>) -> bool {
    exists|k: int| occurs_at(t, q, k)
}

fn occurs_at_exec(t: &Vec<char>, q: &Vec<char>, k: usize) -> (r: bool)
    requires
        k + q@.len() <= t@.len(),
    ensures
        r == occurs_at(t@, q@, k as int),
{
    let tl = t.len();
    let mut i: usize = 0;
    while i < q.len()
        invariant
            tl == t@.len(),
            k + q@.len() <= t@.len(),
            i <= q@.len(),
            forall|j: int| 0 <= j < i ==> t@[k + j] == q@[j],
        decreases q@.len() - i,
    {
        if t[k + i] != q[i] {
            assert(t@.subrange(k as int, k + q@.len())[i as int] != q@[i as int]);
            return false;
        }
        i += 1;
    }
    assert(t@.subrange(k as int, k + q@.len()) =~= q@);
    true
}

/// Whether `q` occurs in `t`.
pub fn contains_str(t: &str, q: &str) -> (r: bool)
    ensures
        r == contains_text(t@, q@),
{
    let tv = chars_of(t);
    let qv = chars_of(q);
    if qv.len() > tv.len() {
        assert forall|k: int| !occurs_at(t@, q@, k) by {}
        return false;
    }
    let last = tv.len() - qv.len();
    let mut k: usize = 0;
    loop
        invariant
            tv@ == t@,
            qv@ == q@,
            last == tv@.len() - qv@.len(),
            k <= last,
            forall|j: int| 0 <= j < k ==> !occurs_at(t@, q@, j),
        decreases last - k,
    {
        if occurs_at_exec(&tv, &qv, k) {
            return true;
        }
        if k == last {
            assert forall|j: int| !occurs_at(t@, q@, j) by {
                if 0 <= j && j < k {
                }
            }
            return false;
        }
        k += 1;
    }
}

/// The indices of the names that contain `query`, in increasing order.
pub open spec fn matching(names: Seq<Seq<char>>, query: Seq<char>) -> Seq<int>
    decreases names.len(),
{
    if names.len() == 0 {
        Seq::empty()
    } else if contains_text(names.last(), query) {
        matching(names.drop_last(), query).push(names.len() - 1)
    } else {
        matching(names.drop_last(), query)
    }
}

/// The indices of the names that contain `query`, in increasing order; the
/// names and the query are compared as given (see [`SeriesList::search`]
/// for the case-blind search).
pub fn matching_indices(names: &Vec<String>, query: &str) -> (r: Vec<usize>)
    ensures
        r@.map_values(|i: usize| i as int) == matching(strings_view(names@), query@),
{
    let ghost nv = strings_view(names@);
    let mut r: Vec<usize> = Vec::new();
    let mut i: usize = 0;
    while i < names.len()
        invariant
            i <= names@.len(),
            nv == strings_view(names@),
            r@.map_values(|x: usize| x as int) == matching(nv.subrange(0, i as int), query@),
        decreases names@.len() - i,
    {
        let ghost sub = nv.subrange(0, i + 1);
        assert(sub.drop_last() =~= nv.subrange(0, i as int));
        assert(sub.last() == names@[i as int]@);
        let ghost before = r@;
        if contains_str(names[i].as_str(), query) {
            r.push(i);
            assert(r@.map_values(|x: usize| x as int) =~= before.map_values(|x: usize| x as int).push(i as int));
        }
        i += 1;
    }
    assert(nv.subrange(0, i as int) =~= nv);
    r
}

/// The series of the library with the state of their list: the selected
/// series, the search text, and the matches of the last search with the
/// position among them.
#[derive(Debug)]
pub struct SeriesList {
    pub items: Vec<Series>,
    pub selected: Option<usize>,
    pub search_text: Option<String>,
    pub found: (usize, Vec<usize>),
}

pub open spec fn series_names(items: Seq<Series>) -> Seq<Seq<char>> {
    items.map_values(|s: Series| s.name@)
}

/// The position among the matches that follows `pos`, round to the first.
pub open spec fn next_position(pos: nat, len: nat) -> nat {
    if len == 0 || pos >= len - 1 { 0 } else { pos + 1 }
}

/// The position among the matches that precedes `pos`, round to the last.
pub open spec fn prev_position(pos: nat, len: nat) -> nat {
    if pos == 0 { if len == 0 { 0 } else { (len - 1) as nat } } else { (pos - 1) as nat }
}

impl SeriesList {
    /// A list of `items`, the first selected, with no search.
    pub fn new(items: Vec<Series>) -> (r: SeriesList)
        ensures
            r.items@ == items@,
            r.selected == (if items@.len() > 0 { Some(0usize) } else { None }),
            r.search_text is None,
            r.found.0 == 0 && r.found.1@.len() == 0,
    {
        let selected = if items.len() > 0 { Some(0usize) } else { None };
        SeriesList { items, selected, search_text: None, found: (0, Vec::new()) }
    }

    /// Finds the series whose lower-cased name contains the lower-cased
    /// search text, and selects the first; nothing happens without a search
    /// text.
    pub fn search(&mut self)
        ensures
            final(self).items@ == old(self).items@,
            final(self).search_text == old(self).search_text,
            old(self).search_text is None ==> final(self).found == old(self).found && final(self).selected == old(self).selected,
            old(self).search_text matches Some(q) ==> {
                let m = matching(series_names(old(self).items@).map_values(|n: Seq<char>| lower_of(n)), lower_of(q@));
                &&& final(self).found.0 == 0
                &&& final(self).found.1@.map_values(|i: usize| i as int) == m
                &&& final(self).selected == (if m.len() > 0 { Some(final(self).found.1@[0]) } else { None })
            },
    {
        let query = match &self.search_text {
            Some(q) => lowercase(q.as_str()),
            None => return,
        };
        let mut names: Vec<String> = Vec::new();
        let mut i: usize = 0;
        let ghost lowered = series_names(self.items@).map_values(|n: Seq<char>| lower_of(n));
        while i < self.items.len()
            invariant
                i <= self.items@.len(),
                lowered == series_names(self.items@).map_values(|n: Seq<char>| lower_of(n)),
                strings_view(names@) == lowered.subrange(0, i as int),
            decreases self.items@.len() - i,
        {
            let l = lowercase(self.items[i].name.as_str());
            let ghost before = strings_view(names@);
            names.push(l);
            assert(strings_view(names@) =~= before.push(l@));
            i += 1;
            assert(lowered.subrange(0, i as int) =~= lowered.subrange(0, i - 1).push(lowered[i - 1]));
        }
        assert(lowered.subrange(0, i as int) =~= lowered);
        let found = matching_indices(&names, query.as_str());
        self.selected = if found.len() > 0 { Some(found[0]) } else { None };
        assert(found@.map_values(|x: usize| x as int).len() == found@.len());
        self.found = (0, found);
    }

    fn search_is_blank(&self) -> (r: bool)
        ensures
            r == (self.search_text matches Some(q) && q@.len() == 0),
    {
        match &self.search_text {
            Some(q) => q.as_str().unicode_len() == 0,
            None => false,
        }
    }

    /// Selects the next match, round to the first; nothing happens while the
    /// search text is blank.
    pub fn next_search(&mut self)
        ensures
            final(self).items@ == old(self).items@,
            final(self).search_text == old(self).search_text,
            final(self).found.1@ == old(self).found.1@,
            (old(self).search_text matches Some(q) && q@.len() == 0) ==> final(self).found.0 == old(self).found.0 && final(self).selected == old(self).selected,
            !(old(self).search_text matches Some(q) && q@.len() == 0) ==> {
                let p = next_position(old(self).found.0 as nat, old(self).found.1@.len());
                &&& final(self).found.0 == p
                &&& final(self).selected == (if p < old(self).found.1@.len() { Some(old(self).found.1@[p as int]) } else { None })
            },
    {
        if self.search_is_blank() {
            return;
        }
        let len = self.found.1.len();
        if len == 0 || self.found.0 >= len - 1 {
            self.found.0 = 0;
        } else {
            self.found.0 = self.found.0 + 1;
        }
        self.selected = if self.found.0 < len { Some(self.found.1[self.found.0]) } else { None };
    }

    /// Selects the previous match, round to the last; nothing happens while
    /// the search text is blank.
    pub fn prev_search(&mut self)
        ensures
            final(self).items@ == old(self).items@,
            final(self).search_text == old(self).search_text,
            final(self).found.1@ == old(self).found.1@,
            (old(self).search_text matches Some(q) && q@.len() == 0) ==> final(self).found.0 == old(self).found.0 && final(self).selected == old(self).selected,
            !(old(self).search_text matches Some(q) && q@.len() == 0) ==> {
                let p = prev_position(old(self).found.0 as nat, old(self).found.1@.len());
                &&& final(self).found.0 == p
                &&& final(self).selected == (if p < old(self).found.1@.len() { Some(old(self).found.1@[p as int]) } else { None })
            },
    {
        if self.search_is_blank() {
            return;
        }
        let len = self.found.1.len();
        if self.found.0 == 0 {
            self.found.0 = if len == 0 { 0 } else { len - 1 };
        } else {
            self.found.0 = self.found.0 - 1;
        }
        self.selected = if self.found.0 < len { Some(self.found.1[self.found.0]) } else { None };
    }
}

/// What a [`Series`] holds.
pub struct SeriesModel {
    pub path: Seq<char>,
    pub name: Seq<char>,
    pub chapters: Seq<ChapterModel>,
}

impl View for Series {
    type V = SeriesModel;

    open spec fn view(&self) -> SeriesModel {
        SeriesModel { path: self.path@, name: self.name@, chapters: chapters_view(self.chapters@) }
    }
}

pub open spec fn series_view(v: Seq<Series>) -> Seq<SeriesModel> {
    v.map_values(|s: Series| s@)
}

/// Order of series: by their names in lower case.
pub open spec fn series_cmp(a: SeriesModel, b: SeriesModel) -> Ordering {
    text_cmp(lower_of(a.name), lower_of(b.name), 0)
}

pub open spec fn series_le(a: SeriesModel, b: SeriesModel) -> bool {
    series_cmp(a, b) != Ordering::Greater
}

/// The series are in order of their lower-cased names.
pub open spec fn series_sorted(s: Seq<SeriesModel>) -> bool {
    forall|i: int, j: int| 0 <= i < j < s.len() ==> series_le(#[trigger] s[i], #[trigger] s[j])
}

proof fn lemma_series_cmp_antisym(a: SeriesModel, b: SeriesModel)
    ensures
        series_cmp(a, b) == Ordering::Greater <==> series_cmp(b, a) == Ordering::Less,
{
    lemma_text_cmp_antisym(lower_of(a.name), lower_of(b.name), 0);
}

proof fn lemma_series_cmp_trans(a: SeriesModel, b: SeriesModel, c: SeriesModel)
    requires
        series_le(a, b),
        series_le(b, c),
    ensures
        series_le(a, c),
{
    lemma_text_cmp_trans(lower_of(a.name), lower_of(b.name), lower_of(c.name), 0);
}

/// The order of two series by their lower-cased names.
pub fn compare_series(a: &Series, b: &Series) -> (r: Ordering)
    ensures
        r == series_cmp(a@, b@),
{
    let la = lowercase(a.name.as_str());
    let lb = lowercase(b.name.as_str());
    let ca = chars_of(la.as_str());
    let cb = chars_of(lb.as_str());
    text_compare(&ca, &cb)
}

/// The series in order of their lower-cased names; series whose names
/// compare equal keep their order.
pub fn sort_series(v: Vec<Series>) -> (r: Vec<Series>)
    ensures
        series_view(r@).to_multiset() == series_view(v@).to_multiset(),
        series_sorted(series_view(r@)),
{
    let ghost input = series_view(v@);
    let mut out: Vec<Series> = Vec::new();
    let mut rest = v;
    let mut taken: usize = 0;
    let ghost n = input.len();
    let len0 = rest.len();
    assert(n == len0);
    proof {
        assert(series_view(out@) =~= Seq::<SeriesModel>::empty());
        assert(input.subrange(0, 0) =~= Seq::<SeriesModel>::empty());
    }
    // `rest` is consumed from its front through a reversed copy.
    let mut rev: Vec<Series> = Vec::new();
    while rest.len() > 0
        invariant
            series_view(rev@) + series_view(rest@).reverse() == input.reverse(),
        decreases rest@.len(),
    {
        let ghost before_rest = series_view(rest@);
        let ghost before_rev = series_view(rev@);
        let c = rest.pop().unwrap();
        assert(series_view(rest@) =~= before_rest.drop_last());
        assert(c@ == before_rest.last());
        rev.push(c);
        assert(series_view(rev@) =~= before_rev.push(c@));
        assert(before_rest.reverse() =~= seq![c@] + series_view(rest@).reverse());
        assert(series_view(rev@) + series_view(rest@).reverse() =~= before_rev + before_rest.reverse());
    }
    assert(series_view(rev@) =~= input.reverse());
    while rev.len() > 0
        invariant
            taken + rev@.len() == n,
            n <= usize::MAX,
            series_view(rev@).reverse() == input.subrange(taken as int, n as int),
            n == input.len(),
            series_view(out@).to_multiset() == input.subrange(0, taken as int).to_multiset(),
            series_sorted(series_view(out@)),
        decreases rev@.len(),
    {
        let ghost before_rev = series_view(rev@);
        let c = rev.pop().unwrap();
        assert(series_view(rev@) =~= before_rev.drop_last());
        assert(c@ == before_rev.last());
        assert(before_rev.reverse()[0] == c@);
        assert(c@ == input[taken as int]);
        assert(before_rev.drop_last().reverse() =~= before_rev.reverse().subrange(1, before_rev.len() as int));
        assert(series_view(rev@).reverse() =~= input.subrange(taken + 1, n as int));
        let ghost ov = series_view(out@);
        let mut k: usize = 0;
        let mut stop = false;
        while k < out.len() && !stop
            invariant
                k <= out@.len(),
                ov == series_view(out@),
                forall|j: int| 0 <= j < k ==> series_le(#[trigger] ov[j], c@),
                stop ==> k < ov.len() && series_cmp(ov[k as int], c@) == Ordering::Greater,
            decreases out@.len() - k + if stop { 0int } else { 1int },
        {
            assert(ov[k as int] == out@[k as int]@);
            match compare_series(&out[k], &c) {
                Ordering::Greater => {
                    stop = true;
                },
                _ => {
                    k += 1;
                },
            }
        }
        proof {
            if k < ov.len() {
                assert(ov[k as int] == out@[k as int]@);
                lemma_series_cmp_antisym(ov[k as int], c@);
            }
        }
        out.insert(k, c);
        let ghost nv = series_view(out@);
        assert(nv =~= ov.insert(k as int, c@));
        proof {
            to_multiset_insert(ov, k as int, c@);
            assert(input.subrange(0, taken + 1) =~= input.subrange(0, taken as int).push(c@));
            to_multiset_build(input.subrange(0, taken as int), c@);
            assert forall|i: int, j: int| 0 <= i < j < nv.len() implies series_le(#[trigger] nv[i], #[trigger] nv[j]) by {
                if j < k {
                    assert(nv[i] == ov[i] && nv[j] == ov[j]);
                } else if j == k {
                    assert(nv[i] == ov[i]);
                } else if i == k {
                    assert(nv[j] == ov[j - 1]);
                    if j - 1 > k {
                        lemma_series_cmp_trans(c@, ov[k as int], ov[j - 1]);
                    }
                } else if i < k {
                    assert(nv[i] == ov[i] && nv[j] == ov[j - 1]);
                } else {
                    assert(nv[i] == ov[i - 1] && nv[j] == ov[j - 1]);
                }
            }
        }
        taken += 1;
    }
    assert(input.subrange(0, taken as int) =~= input);
    out
}


} // verus!
