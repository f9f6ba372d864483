//! Exact decimal numbers, as chapter and book numbers are written in file
//! names and in metadata (`12`, `10.5`, `081.4`).

use vstd::prelude::*;
use std::cmp::Ordering;
use crate::text::{all_digits, chars_of, digit_char, digit_value, is_digit, is_digit_char, push_char};

verus! {

/// The mathematical content of a [`Decimal`]: the digits before the point,
/// without leading zeros, and those after it, without trailing zeros.
pub struct DecimalModel {
    pub whole: Seq<u8>,
    pub fraction: Seq<u8>,
}

/// A non-negative decimal number kept digit for digit, so that `10.5` stays
/// `10.5`. Two numbers are equal exactly when their digits are.
#[derive(Debug, PartialEq, Eq)]
pub struct Decimal {
    whole: Vec<u8>,
    fraction: Vec<u8>,
}

pub open spec fn digits_ok(s: Seq<u8>) -> bool {
    forall|i: int| 0 <= i < s.len() ==> #[trigger] s[i] < 10
}

/// The digits are canonical: no leading zero before the point, no trailing
/// zero after it.
pub open spec fn decimal_wf(m: DecimalModel) -> bool {
    &&& digits_ok(m.whole)
    &&& digits_ok(m.fraction)
    &&& (m.whole.len() > 0 ==> m.whole[0] != 0)
    &&& (m.fraction.len() > 0 ==> m.fraction.last() != 0)
}

/// Index of the first `.` at or after `i`, or the length.
pub open spec fn first_dot_from(s: Seq<char>, i: int) -> int
    decreases s.len() - i,
{
    if i < 0 || i >= s.len() || s[i] == '.' {
        i
    } else {
        first_dot_from(s, i + 1)
    }
}

/// Index of the first non-zero digit at or after `i`, or the length.
pub open spec fn first_nonzero_from(s: Seq<u8>, i: int) -> int
    decreases s.len() - i,
{
    if i < 0 || i >= s.len() || s[i] != 0 {
        i
    } else {
        first_nonzero_from(s, i + 1)
    }
}

/// End of `s[..j]` once its trailing zeros are dropped.
pub open spec fn nonzero_end(s: Seq<u8>, j: int) -> int
    decreases j,
{
    if j <= 0 || j > s.len() || s[j - 1] != 0 {
        j
    } else {
        nonzero_end(s, j - 1)
    }
}

pub open spec fn digit_values(s: Seq<char>) -> Seq<u8> {
    s.map_values(|c: char| digit_value(c))
}

pub open spec fn digit_chars(s: Seq<u8>) -> Seq<char> {
    s.map_values(|d: u8| digit_char(d))
}

/// The number written in `s`: an optional `+`, then digits with at most one
/// `.` among them, and at least one digit.
pub open spec fn decimal_of(s: Seq<char>) -> Option<DecimalModel> {
    let body = if s.len() > 0 && s[0] == '+' { s.drop_first() } else { s };
    let dot = first_dot_from(body, 0);
    let w = body.subrange(0, dot);
    let f = if dot < body.len() { body.subrange(dot + 1, body.len() as int) } else { Seq::empty() };
    if all_digits(w) && all_digits(f) && w.len() + f.len() > 0 {
        let wd = digit_values(w);
        let fd = digit_values(f);
        Some(DecimalModel {
            whole: wd.subrange(first_nonzero_from(wd, 0), wd.len() as int),
            fraction: fd.subrange(0, nonzero_end(fd, fd.len() as int)),
        })
    } else {
        None
    }
}

/// The shortest text of a number: `0` for an empty whole part, the point only
/// before a fraction.
pub open spec fn decimal_text(m: DecimalModel) -> Seq<char> {
    let w = if m.whole.len() == 0 { seq!['0'] } else { digit_chars(m.whole) };
    if m.fraction.len() == 0 {
        w
    } else {
        w + seq!['.'] + digit_chars(m.fraction)
    }
}

pub open spec fn opt_decimal_view(d: Option<Decimal>) -> Option<DecimalModel> {
    match d {
        Some(d) => Some(d@),
        None => None,
    }
}

impl View for Decimal {
    type V = DecimalModel;

    closed spec fn view(&self) -> DecimalModel {
        DecimalModel { whole: self.whole@, fraction: self.fraction@ }
    }
}

fn digits_of(v: &Vec<char>, from: usize, to: usize) -> (r: Vec<u8>)
    requires
        from <= to <= v@.len(),
        all_digits(v@.subrange(from as int, to as int)),
    ensures
        r@ == digit_values(v@.subrange(from as int, to as int)),
        digits_ok(r@),
{
    let mut r: Vec<u8> = Vec::new();
    let mut i: usize = from;
    while i < to
        invariant
            from <= i <= to <= v@.len(),
            all_digits(v@.subrange(from as int, to as int)),
            r@ == digit_values(v@.subrange(from as int, i as int)),
            digits_ok(r@),
        decreases to - i,
    {
        assert(v@.subrange(from as int, to as int)[i - from] == v@[i as int]);
        r.push((v[i] as u32 - 48) as u8);
        i += 1;
        assert(r@ =~= digit_values(v@.subrange(from as int, i as int)));
    }
    r
}

fn all_digits_in(v: &Vec<char>, from: usize, to: usize) -> (r: bool)
    requires
        from <= to <= v@.len(),
    ensures
        r == all_digits(v@.subrange(from as int, to as int)),
{
    let mut i: usize = from;
    while i < to
        invariant
            from <= i <= to <= v@.len(),
            all_digits(v@.subrange(from as int, i as int)),
        decreases to - i,
    {
        if !is_digit_char(v[i]) {
            assert(v@.subrange(from as int, to as int)[i - from] == v@[i as int]);
            return false;
        }
        i += 1;
        assert(all_digits(v@.subrange(from as int, i as int))) by {
            assert forall|j: int| 0 <= j < i - from implies is_digit(#[trigger] v@.subrange(from as int, i as int)[j]) by {
                if j < i - 1 - from {
                    assert(v@.subrange(from as int, i as int)[j] == v@.subrange(from as int, i - 1)[j]);
                }
            }
        }
    }
    true
}

impl Decimal {
    #[verifier::type_invariant]
    spec fn inv(&self) -> bool {
        decimal_wf(self@)
    }


    /// Parses `v[from..to]` as a decimal number (see [`decimal_of`]).
    pub fn parse_range(v: &Vec<char>, from: usize, to: usize) -> (r: Option<Decimal>)
        requires
            from <= to <= v@.len(),
        ensures
            match r {
                Some(d) => decimal_of(v@.subrange(from as int, to as int)) == Some(d@) && decimal_wf(d@),
                None => decimal_of(v@.subrange(from as int, to as int)) is None,
            },
    {
        let ghost s = v@.subrange(from as int, to as int);
        let mut start: usize = from;
        if start < to && v[start] == '+' {
            start += 1;
        }
        let ghost body = v@.subrange(start as int, to as int);
        assert(body =~= (if s.len() > 0 && s[0] == '+' { s.drop_first() } else { s }));
        let mut dot: usize = start;
        while dot < to && v[dot] != '.'
            invariant
                start <= dot <= to <= v@.len(),
                body == v@.subrange(start as int, to as int),
                first_dot_from(body, dot - start) == first_dot_from(body, 0),
            decreases to - dot,
        {
            assert(body[dot - start] == v@[dot as int]);
            dot += 1;
        }
        if dot < to {
            assert(body[dot - start] == v@[dot as int]);
        }
        assert(first_dot_from(body, 0) == dot - start);
        let frac_start = if dot < to { dot + 1 } else { to };
        assert(body.subrange(0, dot - start) =~= v@.subrange(start as int, dot as int));
        assert(dot < to ==> body.subrange(dot - start + 1, body.len() as int) =~= v@.subrange(frac_start as int, to as int));
        assert(dot >= to ==> Seq::<char>::empty() =~= v@.subrange(frac_start as int, to as int));
        if !all_digits_in(v, start, dot) || !all_digits_in(v, frac_start, to) || (dot - start) + (to - frac_start) == 0 {
            return None;
        }
        let wd = digits_of(v, start, dot);
        let fd = digits_of(v, frac_start, to);
        Some(Decimal::canonical(&wd, &fd))
    }

    /// The decimal with the digits `wd` before the point and `fd` after it.
    fn canonical(wd: &Vec<u8>, fd: &Vec<u8>) -> (r: Decimal)
        requires
            digits_ok(wd@),
            digits_ok(fd@),
        ensures
            r@ == (DecimalModel {
                whole: wd@.subrange(first_nonzero_from(wd@, 0), wd@.len() as int),
                fraction: fd@.subrange(0, nonzero_end(fd@, fd@.len() as int)),
            }),
            decimal_wf(r@),
    {
        let mut k: usize = 0;
        while k < wd.len() && wd[k] == 0
            invariant
                k <= wd@.len(),
                first_nonzero_from(wd@, k as int) == first_nonzero_from(wd@, 0),
            decreases wd@.len() - k,
        {
            k += 1;
        }
        let mut e: usize = fd.len();
        while e > 0 && fd[e - 1] == 0
            invariant
                e <= fd@.len(),
                nonzero_end(fd@, e as int) == nonzero_end(fd@, fd@.len() as int),
            decreases e,
        {
            e -= 1;
        }
        let whole = slice_u8(&wd, k, wd.len());
        let fraction = slice_u8(&fd, 0, e);
        let r = Decimal { whole, fraction };
        proof {
            if r.whole@.len() > 0 {
                assert(r.whole@[0] == wd@[k as int]);
            }
            if r.fraction@.len() > 0 {
                assert(r.fraction@.last() == fd@[e - 1]);
            }
            assert(digits_ok(r.whole@)) by {
                assert forall|i: int| 0 <= i < r.whole@.len() implies #[trigger] r.whole@[i] < 10 by {
                    assert(r.whole@[i] == wd@[k + i]);
                }
            }
            assert(digits_ok(r.fraction@)) by {
                assert forall|i: int| 0 <= i < r.fraction@.len() implies #[trigger] r.fraction@[i] < 10 by {
                    assert(r.fraction@[i] == fd@[i]);
                }
            }
        }
        r
    }

    /// Parses a whole string as a decimal number.
    pub fn parse(s: &str) -> (r: Option<Decimal>)
        ensures
            match r {
                Some(d) => decimal_of(s@) == Some(d@) && decimal_wf(d@),
                None => decimal_of(s@) is None,
            },
    {
        let v = chars_of(s);
        assert(v@.subrange(0, v@.len() as int) =~= s@);
        Decimal::parse_range(&v, 0, v.len())
    }

    /// The number as text, in its shortest form (`5`, `10.5`, `0.25`).
    pub fn to_text(&self) -> (r: String)
        ensures
            r@ == decimal_text(self@),
    {
        proof {
            use_type_invariant(self);
        }
        let mut r = String::new();
        if self.whole.len() == 0 {
            push_char(&mut r, '0');
            assert(r@ =~= seq!['0']);
        } else {
            push_digits(&mut r, &self.whole);
            assert(r@ =~= digit_chars(self.whole@));
        }
        if self.fraction.len() > 0 {
            push_char(&mut r, '.');
            push_digits(&mut r, &self.fraction);
        }
        r
    }
}

impl Clone for Decimal {
    fn clone(&self) -> (r: Decimal)
        ensures
            r@ == self@,
    {
        proof {
            use_type_invariant(self);
        }
        assert(self.whole@.subrange(0, self.whole@.len() as int) =~= self.whole@);
        assert(self.fraction@.subrange(0, self.fraction@.len() as int) =~= self.fraction@);
        Decimal { whole: slice_u8(&self.whole, 0, self.whole.len()), fraction: slice_u8(&self.fraction, 0, self.fraction.len()) }
    }
}

fn slice_u8(v: &Vec<u8>, from: usize, to: usize) -> (r: Vec<u8>)
    requires
        from <= to <= v@.len(),
    ensures
        r@ == v@.subrange(from as int, to as int),
{
    let mut r: Vec<u8> = Vec::new();
    let mut i: usize = from;
    while i < to
        invariant
            from <= i <= to <= v@.len(),
            r@ == v@.subrange(from as int, i as int),
        decreases to - i,
    {
        r.push(v[i]);
        i += 1;
        assert(r@ =~= v@.subrange(from as int, i as int));
    }
    r
}

fn push_digits(r: &mut String, d: &Vec<u8>)
    requires
        digits_ok(d@),
    ensures
        final(r)@ == old(r)@ + digit_chars(d@),
{
    let mut i: usize = 0;
    while i < d.len()
        invariant
            digits_ok(d@),
            i <= d@.len(),
            r@ == old(r)@ + digit_chars(d@.subrange(0, i as int)),
        decreases d@.len() - i,
    {
        assert(d@[i as int] < 10);
        push_char(r, (d[i] + 48) as char);
        i += 1;
        assert(digit_chars(d@.subrange(0, i as int)) =~= digit_chars(d@.subrange(0, i - 1)).push(digit_char(d@[i - 1])));
        assert(r@ =~= old(r)@ + digit_chars(d@.subrange(0, i as int)));
    }
    assert(d@.subrange(0, i as int) =~= d@);
}

proof fn lemma_digit_chars(x: Seq<u8>)
    requires
        digits_ok(x),
    ensures
        all_digits(digit_chars(x)),
        digit_values(digit_chars(x)) == x,
        forall|i: int| 0 <= i < x.len() ==> digit_chars(x)[i] != '.' && digit_chars(x)[i] != '+',
{
    assert forall|i: int| 0 <= i < x.len() implies is_digit(#[trigger] digit_chars(x)[i]) by {
        assert(x[i] < 10);
    }
    assert forall|i: int| 0 <= i < x.len() implies digit_values(digit_chars(x))[i] == x[i] by {
        assert(x[i] < 10);
        assert(digit_value(digit_char(x[i])) == x[i]);
    }
    assert(digit_values(digit_chars(x)) =~= x);
}

proof fn lemma_first_dot(s: Seq<char>, i: int, j: int)
    requires
        0 <= i <= j <= s.len(),
        forall|k: int| i <= k < j ==> s[k] != '.',
        j == s.len() || s[j] == '.',
    ensures
        first_dot_from(s, i) == j,
    decreases j - i,
{
    if i < j {
        lemma_first_dot(s, i + 1, j);
    }
}

/// The shortest text of a decimal reads back as that decimal.
pub proof fn lemma_decimal_text(m: DecimalModel)
    requires
        decimal_wf(m),
    ensures
        decimal_of(decimal_text(m)) == Some(m),
{
    let wz: Seq<u8> = if m.whole.len() == 0 { seq![0u8] } else { m.whole };
    assert(digits_ok(wz));
    lemma_digit_chars(wz);
    lemma_digit_chars(m.fraction);
    let w = digit_chars(wz);
    let f = digit_chars(m.fraction);
    if m.whole.len() == 0 {
        assert(w =~= seq!['0']);
    }
    let t = decimal_text(m);
    if m.fraction.len() == 0 {
        assert(t == w);
    } else {
        assert(t == w + seq!['.'] + f);
    }
    assert(t[0] == w[0]);
    assert(t[0] != '+');
    assert(forall|k: int| 0 <= k < w.len() ==> t[k] == w[k]);
    lemma_first_dot(t, 0, w.len() as int);
    assert(t.subrange(0, w.len() as int) =~= w);
    if m.fraction.len() > 0 {
        assert(t.subrange(w.len() as int + 1, t.len() as int) =~= f);
    }
    let wd = digit_values(w);
    let fd = digit_values(f);
    if m.whole.len() == 0 {
        assert(wd[0] == 0);
        assert(first_nonzero_from(wd, 1) == 1);
        assert(wd.subrange(1, 1) =~= m.whole);
    } else {
        assert(wd.subrange(0, wd.len() as int) =~= m.whole);
    }
    assert(fd.subrange(0, nonzero_end(fd, fd.len() as int)) =~= m.fraction);
    let body = if t.len() > 0 && t[0] == '+' { t.drop_first() } else { t };
    assert(body == t);
    let dot = first_dot_from(body, 0);
    assert(dot == w.len());
    let f2 = if dot < body.len() { body.subrange(dot + 1, body.len() as int) } else { Seq::empty() };
    if m.fraction.len() == 0 {
        assert(f =~= Seq::<char>::empty());
        assert(dot == body.len());
    }
    assert(f2 == f);
    assert(body.subrange(0, dot) == w);
    assert(w.len() > 0);
}

/// Lexicographic order of two digit sequences; a proper prefix comes first.
pub open spec fn digits_cmp(a: Seq<u8>, b: Seq<u8>, i: int) -> Ordering
    decreases a.len() - i,
{
    if i < 0 || (i >= a.len() && i >= b.len()) {
        Ordering::Equal
    } else if i >= a.len() {
        Ordering::Less
    } else if i >= b.len() {
        Ordering::Greater
    } else if a[i] < b[i] {
        Ordering::Less
    } else if a[i] > b[i] {
        Ordering::Greater
    } else {
        digits_cmp(a, b, i + 1)
    }
}

/// The numeric order of two canonical decimals: a longer whole part is
/// larger; equal lengths compare digit by digit, whole part first.
pub open spec fn decimal_cmp(a: DecimalModel, b: DecimalModel) -> Ordering {
    if a.whole.len() < b.whole.len() {
        Ordering::Less
    } else if a.whole.len() > b.whole.len() {
        Ordering::Greater
    } else {
        match digits_cmp(a.whole, b.whole, 0) {
            Ordering::Equal => digits_cmp(a.fraction, b.fraction, 0),
            o => o,
        }
    }
}

fn digits_compare(a: &Vec<u8>, b: &Vec<u8>) -> (r: Ordering)
    ensures
        r == digits_cmp(a@, b@, 0),
{
    let mut i: usize = 0;
    while i < a.len() && i < b.len() && a[i] == b[i]
        invariant
            i <= a@.len(),
            i <= b@.len(),
            digits_cmp(a@, b@, i as int) == digits_cmp(a@, b@, 0),
        decreases a@.len() - i,
    {
        i += 1;
    }
    if i >= a.len() && i >= b.len() {
        Ordering::Equal
    } else if i >= a.len() {
        Ordering::Less
    } else if i >= b.len() {
        Ordering::Greater
    } else if a[i] < b[i] {
        Ordering::Less
    } else {
        Ordering::Greater
    }
}

impl Decimal {
    /// The numeric order of two decimals.
    pub fn compare(&self, other: &Decimal) -> (r: Ordering)
        ensures
            r == decimal_cmp(self@, other@),
    {
        if self.whole.len() < other.whole.len() {
            Ordering::Less
        } else if self.whole.len() > other.whole.len() {
            Ordering::Greater
        } else {
            match digits_compare(&self.whole, &other.whole) {
                Ordering::Equal => digits_compare(&self.fraction, &other.fraction),
                o => o,
            }
        }
    }

    /// Zero.
    pub fn zero() -> (r: Decimal)
        ensures
            r@ == (DecimalModel { whole: Seq::empty(), fraction: Seq::empty() }),
    {
        let r = Decimal { whole: Vec::new(), fraction: Vec::new() };
        assert(r.whole@ =~= Seq::<u8>::empty());
        assert(r.fraction@ =~= Seq::<u8>::empty());
        r
    }
}


proof fn lemma_digits_cmp_antisym(a: Seq<u8>, b: Seq<u8>, i: int)
    requires
        0 <= i,
    ensures
        digits_cmp(a, b, i) == Ordering::Greater <==> digits_cmp(b, a, i) == Ordering::Less,
        digits_cmp(a, b, i) == Ordering::Equal <==> digits_cmp(b, a, i) == Ordering::Equal,
    decreases a.len() - i,
{
    if i < a.len() && i < b.len() && a[i] == b[i] {
        lemma_digits_cmp_antisym(a, b, i + 1);
    }
}

proof fn lemma_digits_cmp_equal(a: Seq<u8>, b: Seq<u8>, i: int)
    requires
        0 <= i <= a.len(),
        i <= b.len(),
        digits_cmp(a, b, i) == Ordering::Equal,
    ensures
        a.len() == b.len(),
        forall|j: int| i <= j < a.len() ==> a[j] == b[j],
    decreases a.len() - i,
{
    if i < a.len() {
        lemma_digits_cmp_equal(a, b, i + 1);
    }
}

proof fn lemma_digits_cmp_trans(a: Seq<u8>, b: Seq<u8>, c: Seq<u8>, i: int)
    requires
        0 <= i,
        digits_cmp(a, b, i) != Ordering::Greater,
        digits_cmp(b, c, i) != Ordering::Greater,
    ensures
        digits_cmp(a, c, i) != Ordering::Greater,
        digits_cmp(a, b, i) == Ordering::Less || digits_cmp(b, c, i) == Ordering::Less ==> digits_cmp(a, c, i) == Ordering::Less,
    decreases a.len() - i,
{
    if i < a.len() && i < b.len() && i < c.len() && a[i] == b[i] && b[i] == c[i] {
        lemma_digits_cmp_trans(a, b, c, i + 1);
    }
}

/// The order of decimals is antisymmetric.
pub proof fn lemma_decimal_cmp_antisym(a: DecimalModel, b: DecimalModel)
    ensures
        decimal_cmp(a, b) == Ordering::Greater <==> decimal_cmp(b, a) == Ordering::Less,
        decimal_cmp(a, b) == Ordering::Equal <==> decimal_cmp(b, a) == Ordering::Equal,
{
    lemma_digits_cmp_antisym(a.whole, b.whole, 0);
    lemma_digits_cmp_antisym(a.fraction, b.fraction, 0);
}

/// Decimals that compare equal are equal.
pub proof fn lemma_decimal_cmp_equal(a: DecimalModel, b: DecimalModel)
    requires
        decimal_cmp(a, b) == Ordering::Equal,
    ensures
        a == b,
{
    lemma_digits_cmp_equal(a.whole, b.whole, 0);
    lemma_digits_cmp_equal(a.fraction, b.fraction, 0);
    assert(a.whole =~= b.whole);
    assert(a.fraction =~= b.fraction);
}

/// The order of decimals is transitive.
pub proof fn lemma_decimal_cmp_trans(a: DecimalModel, b: DecimalModel, c: DecimalModel)
    requires
        decimal_cmp(a, b) != Ordering::Greater,
        decimal_cmp(b, c) != Ordering::Greater,
    ensures
        decimal_cmp(a, c) != Ordering::Greater,
        decimal_cmp(a, b) == Ordering::Less || decimal_cmp(b, c) == Ordering::Less ==> decimal_cmp(a, c) == Ordering::Less,
{
    if a.whole.len() == b.whole.len() && b.whole.len() == c.whole.len() {
        lemma_digits_cmp_trans(a.whole, b.whole, c.whole, 0);
        if digits_cmp(a.whole, b.whole, 0) == Ordering::Equal {
            lemma_digits_cmp_equal(a.whole, b.whole, 0);
            assert(a.whole =~= b.whole);
        }
        if digits_cmp(b.whole, c.whole, 0) == Ordering::Equal {
            lemma_digits_cmp_equal(b.whole, c.whole, 0);
            assert(b.whole =~= c.whole);
        }
        if digits_cmp(a.whole, b.whole, 0) == Ordering::Equal && digits_cmp(b.whole, c.whole, 0) == Ordering::Equal {
            lemma_digits_cmp_trans(a.fraction, b.fraction, c.fraction, 0);
        }
    }
}

} // verus!
