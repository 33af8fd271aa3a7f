use vstd::prelude::*;

verus! {

use crate::text::{chars_vec, is_digit_char, digit_char_check, push_all, string_from_chars};

// The spam score arrives as a decimal string such as "7.5" and is
// compared against a configured threshold. It is kept as a sign and two
// digit strings, normalized: no leading zeros on the integer part, no
// trailing zeros on the fraction, and zero is never negative. On
// normalized values the digit-wise order below is exactly numeric
// order. A string outside the accepted shape (an optional minus sign,
// digits, at most one dot, at least one digit) counts as zero, as an
// unparsable score does upstream.

/// A spam score as a normalized decimal.
pub struct SpamScore {
    pub negative: bool,
    pub int_digits: Vec<char>,
    pub frac_digits: Vec<char>,
}

/// The normalization invariant of a score.
pub open spec fn score_wf(x: SpamScore) -> bool {
    &&& (forall|k: int| 0 <= k < x.int_digits@.len() ==> is_digit_char(#[trigger] x.int_digits@[k]))
    &&& (forall|k: int|
        0 <= k < x.frac_digits@.len() ==> is_digit_char(#[trigger] x.frac_digits@[k]))
    &&& (x.int_digits@.len() > 0 ==> x.int_digits@[0] != '0')
    &&& (x.frac_digits@.len() > 0 ==> x.frac_digits@[x.frac_digits@.len() - 1] != '0')
    &&& (x.negative ==> x.int_digits@.len() + x.frac_digits@.len() > 0)
}

/// Index of the first dot, or the length when there is none.
pub open spec fn dot_pos(t: Seq<char>) -> int
    decreases t.len(),
{
    if t.len() == 0 {
        0
    } else if t[0] == '.' {
        0
    } else {
        1 + dot_pos(t.drop_first())
    }
}

proof fn lemma_dot_pos(t: Seq<char>)
    ensures
        0 <= dot_pos(t) <= t.len(),
        dot_pos(t) < t.len() ==> t[dot_pos(t)] == '.',
        forall|k: int| 0 <= k < dot_pos(t) ==> t[k] != '.',
    decreases t.len(),
{
    if t.len() > 0 && t[0] != '.' {
        lemma_dot_pos(t.drop_first());
        assert forall|k: int| 0 <= k < dot_pos(t) implies t[k] != '.' by {
            if k > 0 {
                assert(t.drop_first()[k - 1] == t[k]);
            }
        }
    }
}

proof fn lemma_dot_pos_exact(t: Seq<char>, d: int)
    requires
        0 <= d <= t.len(),
        d < t.len() ==> t[d] == '.',
        forall|k: int| 0 <= k < d ==> t[k] != '.',
    ensures
        dot_pos(t) == d,
    decreases t.len(),
{
    if t.len() > 0 && t[0] != '.' {
        assert(d >= 1);
        lemma_dot_pos_exact(t.drop_first(), d - 1);
    }
}

/// The digit string without its leading zeros.
pub open spec fn strip_leading(t: Seq<char>) -> Seq<char>
    decreases t.len(),
{
    if t.len() > 0 && t[0] == '0' {
        strip_leading(t.drop_first())
    } else {
        t
    }
}

proof fn lemma_strip_leading_exact(t: Seq<char>, z: int)
    requires
        0 <= z <= t.len(),
        forall|k: int| 0 <= k < z ==> t[k] == '0',
        z < t.len() ==> t[z] != '0',
    ensures
        strip_leading(t) =~= t.skip(z),
    decreases t.len(),
{
    if t.len() > 0 && t[0] == '0' {
        assert(z >= 1);
        lemma_strip_leading_exact(t.drop_first(), z - 1);
        assert(t.drop_first().skip(z - 1) =~= t.skip(z));
    } else {
        assert(z == 0);
        assert(t.skip(0) =~= t);
    }
}

/// The digit string without its trailing zeros.
pub open spec fn strip_trailing(t: Seq<char>) -> Seq<char>
    decreases t.len(),
{
    if t.len() > 0 && t[t.len() - 1] == '0' {
        strip_trailing(t.take(t.len() - 1))
    } else {
        t
    }
}

proof fn lemma_strip_trailing_exact(t: Seq<char>, e: int)
    requires
        0 <= e <= t.len(),
        forall|k: int| e <= k < t.len() ==> t[k] == '0',
        e > 0 ==> t[e - 1] != '0',
    ensures
        strip_trailing(t) =~= t.take(e),
    decreases t.len(),
{
    if t.len() > 0 && t[t.len() - 1] == '0' {
        assert(e <= t.len() - 1);
        let u = t.take(t.len() - 1);
        assert(forall|k: int| e <= k < u.len() ==> u[k] == '0');
        lemma_strip_trailing_exact(u, e);
        assert(u.take(e) =~= t.take(e));
    } else {
        assert(e == t.len());
        assert(t.take(e) =~= t);
    }
}

/// The accepted decimal shape, sign aside: at most one dot, digits
/// everywhere else, at least one digit.
pub open spec fn valid_decimal(t: Seq<char>) -> bool {
    let d = dot_pos(t);
    &&& (forall|k: int| 0 <= k < d ==> is_digit_char(#[trigger] t[k]))
    &&& (forall|k: int| d < k < t.len() ==> is_digit_char(#[trigger] t[k]))
    &&& (d > 0 || d + 1 < t.len())
}

/// What parsing a score string yields: the sign, the normalized integer
/// digits, and the normalized fraction digits. A string outside the
/// accepted shape yields zero.
pub open spec fn parse_spec(s: Seq<char>) -> (bool, Seq<char>, Seq<char>) {
    let neg = s.len() > 0 && s[0] == '-';
    let body = if neg {
        s.drop_first()
    } else {
        s
    };
    if valid_decimal(body) {
        let d = dot_pos(body);
        let ip = strip_leading(body.take(d));
        let fp = if d < body.len() {
            strip_trailing(body.subrange(d + 1, body.len() as int))
        } else {
            Seq::empty()
        };
        (neg && ip.len() + fp.len() > 0, ip, fp)
    } else {
        (false, Seq::empty(), Seq::empty())
    }
}

/// The characters of `v` between `a` and `b`.
fn sub_chars(v: &Vec<char>, a: usize, b: usize) -> (r: Vec<char>)
    requires
        a <= b <= v@.len(),
    ensures
        r@ == v@.subrange(a as int, b as int),
{
    let mut r: Vec<char> = Vec::new();
    let mut i: usize = a;
    while i < b
        invariant
            a <= i <= b <= v@.len(),
            r@ == v@.subrange(a as int, i as int),
        decreases b - i,
    {
        r.push(v[i]);
        proof {
            assert(r@ =~= v@.subrange(a as int, i + 1));
        }
        i += 1;
    }
    r
}

/// Reads a score from its decimal string; anything outside the accepted
/// shape counts as zero.
#[verifier::rlimit(60)]
pub fn parse_score(s: &str) -> (r: SpamScore)
    ensures
        r.model() == parse_spec(s@),
        score_wf(r),
{
    let v = chars_vec(s);
    let n = v.len();
    let neg = n > 0 && v[0] == '-';
    let start: usize = if neg { 1 } else { 0 };
    let ghost body = if neg { s@.drop_first() } else { s@ };
    proof {
        assert(body =~= v@.subrange(start as int, n as int));
    }
    // Find the dot, if any, and check that everything else is a digit.
    let mut d: usize = start;
    while d < n && v[d] != '.'
        invariant
            start <= d <= n,
            n == v@.len(),
            forall|k: int| start <= k < d ==> v@[k] != '.',
        decreases n - d,
    {
        d += 1;
    }
    proof {
        assert forall|k: int| 0 <= k < d - start implies body[k] != '.' by {
            assert(body[k] == v@[start + k]);
        }
        if d < n {
            assert(body[d - start] == v@[d as int]);
        }
        lemma_dot_pos_exact(body, d - start);
    }
    let some_digit: bool = d > start || d + 1 < n;
    let mut int_ok: bool = true;
    let mut i: usize = start;
    while i < d
        invariant
            start <= i <= d <= n,
            n == v@.len(),
            body == (if neg { s@.drop_first() } else { s@ }),
            body =~= v@.subrange(start as int, n as int),
            int_ok == (forall|k: int| 0 <= k < i - start ==> is_digit_char(#[trigger] body[k])),
        decreases d - i,
    {
        let good = digit_char_check(v[i]);
        proof {
            assert(body[i - start] == v@[i as int]);
        }
        int_ok = int_ok && good;
        i += 1;
    }
    let mut frac_ok: bool = true;
    let mut i2: usize = if d < n { d + 1 } else { d };
    while i2 < n
        invariant
            d <= i2 <= n,
            d < n ==> i2 >= d + 1,
            n == v@.len(),
            start <= d,
            body == (if neg { s@.drop_first() } else { s@ }),
            body =~= v@.subrange(start as int, n as int),
            frac_ok == (forall|k: int|
                d - start < k < i2 - start ==> is_digit_char(#[trigger] body[k])),
        decreases n - i2,
    {
        let good = digit_char_check(v[i2]);
        proof {
            assert(body[i2 - start] == v@[i2 as int]);
        }
        frac_ok = frac_ok && good;
        i2 += 1;
    }
    let ok = some_digit && int_ok && frac_ok;
    proof {
        let dd = d - start;
        assert(dot_pos(body) == dd);
        assert(body.len() == n - start);
        assert(ok == valid_decimal(body));
    }
    if !ok {
        let r = SpamScore { negative: false, int_digits: Vec::new(), frac_digits: Vec::new() };
        return r;
    }
    // Strip leading zeros off the integer part.
    let mut a: usize = start;
    while a < d && v[a] == '0'
        invariant
            start <= a <= d <= n,
            n == v@.len(),
            forall|k: int| start <= k < a ==> v@[k] == '0',
        decreases d - a,
    {
        a += 1;
    }
    let int_digits = sub_chars(&v, a, d);
    proof {
        let ipart = body.take(d - start);
        assert forall|k: int| 0 <= k < a - start implies ipart[k] == '0' by {
            assert(ipart[k] == v@[start + k]);
        }
        if a < d {
            assert(ipart[a - start] == v@[a as int]);
        }
        lemma_strip_leading_exact(ipart, a - start);
        assert(int_digits@ =~= ipart.skip(a - start));
    }
    // Strip trailing zeros off the fraction.
    let mut b: usize = n;
    let fstart: usize = if d < n { d + 1 } else { n };
    while b > fstart && v[b - 1] == '0'
        invariant
            fstart <= b <= n,
            n == v@.len(),
            forall|k: int| b <= k < n ==> v@[k] == '0',
        decreases b,
    {
        b -= 1;
    }
    let frac_digits = sub_chars(&v, fstart, b);
    proof {
        if d < n {
            let fpart = body.subrange(d - start + 1, body.len() as int);
            assert forall|k: int| b - fstart <= k < fpart.len() implies fpart[k] == '0' by {
                assert(fpart[k] == v@[fstart + k]);
            }
            if b > fstart {
                assert(fpart[b - fstart - 1] == v@[b - 1]);
            }
            lemma_strip_trailing_exact(fpart, b - fstart);
            assert(frac_digits@ =~= fpart.take(b - fstart));
        }
    }
    let zero = int_digits.len() == 0 && frac_digits.len() == 0;
    let r = SpamScore { negative: neg && !zero, int_digits, frac_digits };
    proof {
        assert forall|k: int| 0 <= k < r.int_digits@.len() implies is_digit_char(
            #[trigger] r.int_digits@[k],
        ) by {
            assert(r.int_digits@[k] == v@[a + k]);
        }
        assert forall|k: int| 0 <= k < r.frac_digits@.len() implies is_digit_char(
            #[trigger] r.frac_digits@[k],
        ) by {
            assert(r.frac_digits@[k] == v@[fstart + k]);
        }
        if r.int_digits@.len() > 0 {
            assert(r.int_digits@[0] == v@[a as int]);
        }
        if r.frac_digits@.len() > 0 {
            assert(r.frac_digits@[r.frac_digits@.len() - 1] == v@[b - 1]);
        }
    }
    r
}

/// Digit-wise order of two digit strings of equal length.
pub open spec fn lex_lt(a: Seq<char>, b: Seq<char>) -> bool
    decreases a.len(),
{
    if a.len() == 0 || b.len() == 0 {
        false
    } else if a[0] != b[0] {
        a[0] < b[0]
    } else {
        lex_lt(a.drop_first(), b.drop_first())
    }
}

/// Numeric order of two normalized integer digit strings: a shorter
/// string is smaller, equal lengths compare digit-wise.
pub open spec fn int_lt(a: Seq<char>, b: Seq<char>) -> bool {
    a.len() < b.len() || (a.len() == b.len() && lex_lt(a, b))
}

/// Numeric order of two normalized fraction digit strings: digit-wise
/// with the shorter one padded by zeros, which for normalized fractions
/// means that running out first while the other goes on is smaller.
pub open spec fn frac_lt(a: Seq<char>, b: Seq<char>) -> bool
    decreases a.len() + b.len(),
{
    if b.len() == 0 {
        false
    } else if a.len() == 0 {
        true
    } else if a[0] != b[0] {
        a[0] < b[0]
    } else {
        frac_lt(a.drop_first(), b.drop_first())
    }
}

/// Numeric order of the magnitudes of two normalized decimals, given
/// as integer and fraction digit strings.
pub open spec fn mag_lt(a: (bool, Seq<char>, Seq<char>), b: (bool, Seq<char>, Seq<char>)) -> bool {
    int_lt(a.1, b.1) || (a.1 == b.1 && frac_lt(a.2, b.2))
}

/// Numeric order of two normalized decimals, given as sign, integer
/// digits and fraction digits.
pub open spec fn dec_lt(a: (bool, Seq<char>, Seq<char>), b: (bool, Seq<char>, Seq<char>)) -> bool {
    if a.0 && !b.0 {
        true
    } else if !a.0 && b.0 {
        false
    } else if !a.0 {
        mag_lt(a, b)
    } else {
        mag_lt(b, a)
    }
}

fn mag_lt_exec(x: &SpamScore, y: &SpamScore) -> (r: bool)
    ensures
        r == mag_lt(x.model(), y.model()),
{
    let a = &x.int_digits;
    let b = &y.int_digits;
    if a.len() != b.len() {
        return a.len() < b.len();
    }
    let n = a.len();
    let mut i: usize = 0;
    proof {
        assert(a@.skip(0) =~= a@);
        assert(b@.skip(0) =~= b@);
    }
    while i < n
        invariant
            i <= n,
            n == a@.len() == b@.len(),
            a == x.int_digits,
            b == y.int_digits,
            lex_lt(a@, b@) == lex_lt(a@.skip(i as int), b@.skip(i as int)),
            forall|k: int| 0 <= k < i ==> a@[k] == b@[k],
        decreases n - i,
    {
        proof {
            assert(a@.skip(i as int)[0] == a@[i as int]);
            assert(b@.skip(i as int)[0] == b@[i as int]);
            assert(a@.skip(i as int).drop_first() =~= a@.skip(i + 1));
            assert(b@.skip(i as int).drop_first() =~= b@.skip(i + 1));
        }
        if a[i] != b[i] {
            proof {
                assert(a@ != b@);
            }
            return a[i] < b[i];
        }
        i += 1;
    }
    proof {
        assert(a@ =~= b@);
        assert(a@.skip(n as int).len() == 0);
    }
    frac_lt_exec(&x.frac_digits, &y.frac_digits)
}

fn frac_lt_exec(a: &Vec<char>, b: &Vec<char>) -> (r: bool)
    ensures
        r == frac_lt(a@, b@),
{
    let mut i: usize = 0;
    proof {
        assert(a@.skip(0) =~= a@);
        assert(b@.skip(0) =~= b@);
    }
    while i < a.len() && i < b.len()
        invariant
            i <= a@.len(),
            i <= b@.len(),
            frac_lt(a@, b@) == frac_lt(a@.skip(i as int), b@.skip(i as int)),
        decreases a@.len() - i,
    {
        proof {
            assert(a@.skip(i as int)[0] == a@[i as int]);
            assert(b@.skip(i as int)[0] == b@[i as int]);
            assert(a@.skip(i as int).drop_first() =~= a@.skip(i + 1));
            assert(b@.skip(i as int).drop_first() =~= b@.skip(i + 1));
        }
        if a[i] != b[i] {
            return a[i] < b[i];
        }
        i += 1;
    }
    proof {
        if i >= b@.len() {
            assert(b@.skip(i as int).len() == 0);
        } else {
            assert(a@.skip(i as int).len() == 0);
            assert(b@.skip(i as int).len() > 0);
        }
    }
    i < b.len()
}

impl SpamScore {
    /// The mathematical value of the score: its sign and digit strings.
    pub open spec fn model(self) -> (bool, Seq<char>, Seq<char>) {
        (self.negative, self.int_digits@, self.frac_digits@)
    }

    /// True when this score exceeds `other` numerically.
    pub fn exceeds(&self, other: &SpamScore) -> (r: bool)
        ensures
            r == dec_lt(other.model(), self.model()),
    {
        if other.negative && !self.negative {
            true
        } else if !other.negative && self.negative {
            false
        } else if !other.negative {
            mag_lt_exec(other, self)
        } else {
            mag_lt_exec(self, other)
        }
    }

    /// Renders the score as its canonical decimal string.
    pub fn render(&self) -> (r: String)
        ensures
            r@ == render_of(self.model()),
    {
        let mut out: Vec<char> = Vec::new();
        if self.negative {
            out.push('-');
        }
        if self.int_digits.len() == 0 {
            out.push('0');
        } else {
            push_all(&mut out, &self.int_digits);
        }
        if self.frac_digits.len() > 0 {
            out.push('.');
            push_all(&mut out, &self.frac_digits);
        }
        proof {
            assert(out@ =~= render_of(self.model()));
        }
        string_from_chars(&out)
    }
}

/// The canonical decimal rendering of a normalized decimal: sign,
/// integer part (a bare zero when empty), then the fraction after a dot
/// when there is one.
pub open spec fn render_of(m: (bool, Seq<char>, Seq<char>)) -> Seq<char> {
    (if m.0 {
        seq!['-']
    } else {
        Seq::<char>::empty()
    }) + (if m.1.len() == 0 {
        seq!['0']
    } else {
        m.1
    }) + (if m.2.len() > 0 {
        seq!['.'] + m.2
    } else {
        Seq::<char>::empty()
    })
}

} // verus!
