//! Numbers kept exactly as the decimal text they were read from.
//!
//! A `Number` holds text that `f64::from_str` accepts: an optional sign, then
//! `inf`, `infinity`, `nan` (in any case), or digits with at most one decimal
//! point and an optional exponent. Holding the text, not a rounded value, keeps
//! the catalogue free of rounding; a caller converts to `f64` where needed.

use vstd::prelude::*;
use crate::text::{chars_of, matches_word, string_of_span, word_span};

verus! {

pub open spec fn is_digit(c: char) -> bool {
    '0' <= c && c <= '9'
}

pub open spec fn is_sign(c: char) -> bool {
    c == '+' || c == '-'
}

pub open spec fn is_exp_mark(c: char) -> bool {
    c == 'e' || c == 'E'
}

/// `s` without one leading sign.
pub open spec fn unsigned(s: Seq<char>) -> Seq<char> {
    if s.len() > 0 && is_sign(s[0]) {
        s.drop_first()
    } else {
        s
    }
}

pub open spec fn all_digits(s: Seq<char>) -> bool {
    forall|i: int| 0 <= i < s.len() ==> is_digit(#[trigger] s[i])
}

/// Digits with at most one decimal point, at least one digit among them.
pub open spec fn is_mantissa(m: Seq<char>) -> bool {
    &&& forall|i: int| 0 <= i < m.len() ==> is_digit(#[trigger] m[i]) || m[i] == '.'
    &&& forall|i: int, j: int| 0 <= i < j < m.len() ==> !(#[trigger] m[i] == '.' && #[trigger] m[j] == '.')
    &&& exists|i: int| 0 <= i < m.len() && is_digit(#[trigger] m[i])
}

/// Empty, or `e`/`E` followed by an optionally signed run of digits.
pub open spec fn is_exponent(x: Seq<char>) -> bool {
    x.len() == 0 || (is_exp_mark(x[0]) && unsigned(x.drop_first()).len() > 0 && all_digits(
        unsigned(x.drop_first()),
    ))
}

pub open spec fn is_decimal(b: Seq<char>) -> bool {
    exists|k: int| 0 <= k <= b.len() && is_mantissa(#[trigger] b.take(k)) && is_exponent(b.skip(k))
}

pub open spec fn is_nan_word(b: Seq<char>) -> bool {
    matches_word(b, seq!['n', 'a', 'n'], seq!['N', 'A', 'N'])
}

pub open spec fn is_special(b: Seq<char>) -> bool {
    ||| matches_word(b, seq!['i', 'n', 'f'], seq!['I', 'N', 'F'])
    ||| matches_word(
        b,
        seq!['i', 'n', 'f', 'i', 'n', 'i', 't', 'y'],
        seq!['I', 'N', 'F', 'I', 'N', 'I', 'T', 'Y'],
    )
    ||| is_nan_word(b)
}

/// Everything before the first exponent mark is a zero digit or a point: of a
/// number, that it is zero (`0`, `-0.00`, `0e5`).
pub open spec fn zero_mantissa(b: Seq<char>) -> bool {
    exists|k: int| #[trigger] zero_prefix(b, k)
}

/// `b[..k]` is zero digits and points, and ends `b` or stands before an
/// exponent mark.
pub open spec fn zero_prefix(b: Seq<char>, k: int) -> bool {
    &&& 0 <= k <= b.len()
    &&& k == b.len() || is_exp_mark(b[k])
    &&& forall|j: int| 0 <= j < k ==> #[trigger] b[j] == '0' || b[j] == '.'
}

/// The number written `s` is below zero.
pub open spec fn is_negative_literal(s: Seq<char>) -> bool {
    s.len() > 0 && s[0] == '-' && !zero_mantissa(s.drop_first()) && !is_nan_word(s.drop_first())
}

/// The number written `s` is above zero.
pub open spec fn is_positive_literal(s: Seq<char>) -> bool {
    !(s.len() > 0 && s[0] == '-') && !zero_mantissa(unsigned(s)) && !is_nan_word(unsigned(s))
}

/// The text that `f64::from_str` accepts.
pub open spec fn is_float_literal(s: Seq<char>) -> bool {
    is_decimal(unsigned(s)) || is_special(unsigned(s))
}


/// The characters that a number's text may hold.
pub open spec fn is_literal_char(c: char) -> bool {
    ||| is_digit(c)
    ||| c == '.'
    ||| is_sign(c)
    ||| is_exp_mark(c)
    ||| c == 'i' || c == 'n' || c == 'f' || c == 't' || c == 'y' || c == 'a'
    ||| c == 'I' || c == 'N' || c == 'F' || c == 'T' || c == 'Y' || c == 'A'
}

/// The characters that a number's text may end with.
pub open spec fn is_final_char(c: char) -> bool {
    is_digit(c) || c == '.' || c == 'f' || c == 'F' || c == 'y' || c == 'Y' || c == 'n' || c == 'N'
}

/// A number's text is not empty, holds only `is_literal_char` characters,
/// and ends with an `is_final_char` one.
pub proof fn lemma_literal_chars(s: Seq<char>)
    requires
        is_float_literal(s),
    ensures
        s.len() > 0,
        forall|j: int| 0 <= j < s.len() ==> is_literal_char(#[trigger] s[j]),
        is_final_char(s.last()),
{
    let b = unsigned(s);
    let off: int = if s.len() > 0 && is_sign(s[0]) { 1 } else { 0 };
    assert(forall|j: int| 0 <= j < b.len() ==> b[j] == s[j + off]);
    if is_decimal(b) {
        let k = choose|k: int| 0 <= k <= b.len() && is_mantissa(#[trigger] b.take(k)) && is_exponent(b.skip(k));
        let m = b.take(k);
        let x = b.skip(k);
        assert forall|j: int| 0 <= j < b.len() implies is_literal_char(#[trigger] b[j]) by {
            if j < k {
                assert(b[j] == m[j]);
            } else if j == k {
                assert(b[j] == x[0]);
            } else {
                assert(b[j] == x[j - k]);
                let d = x.drop_first();
                let ud = unsigned(d);
                assert(x[j - k] == d[j - k - 1]);
                if d.len() > 0 && is_sign(d[0]) {
                    if j - k - 1 > 0 {
                        assert(d[j - k - 1] == ud[j - k - 2]);
                    }
                } else {
                    assert(ud[j - k - 1] == d[j - k - 1]);
                }
            }
        }
        if x.len() == 0 {
            assert(b.len() == k);
            assert(b.last() == m[k - 1]);
        } else {
            let d = x.drop_first();
            let ud = unsigned(d);
            assert(b.last() == ud.last());
            assert(is_digit(ud[ud.len() - 1]));
        }
    } else {
        if matches_word(b, seq!['i', 'n', 'f'], seq!['I', 'N', 'F']) {
            assert(b[0] == 'i' || b[0] == 'I');
            assert(b[1] == 'n' || b[1] == 'N');
            assert(b[2] == 'f' || b[2] == 'F');
        } else if is_nan_word(b) {
            assert(b[0] == 'n' || b[0] == 'N');
            assert(b[1] == 'a' || b[1] == 'A');
            assert(b[2] == 'n' || b[2] == 'N');
        } else {
            assert(b[0] == 'i' || b[0] == 'I');
            assert(b[1] == 'n' || b[1] == 'N');
            assert(b[2] == 'f' || b[2] == 'F');
            assert(b[3] == 'i' || b[3] == 'I');
            assert(b[4] == 'n' || b[4] == 'N');
            assert(b[5] == 'i' || b[5] == 'I');
            assert(b[6] == 't' || b[6] == 'T');
            assert(b[7] == 'y' || b[7] == 'Y');
        }
        assert forall|j: int| 0 <= j < b.len() implies is_literal_char(#[trigger] b[j]) by {
            assert(0 <= j < 8);
        }
    }
    assert forall|j: int| 0 <= j < s.len() implies is_literal_char(#[trigger] s[j]) by {
        if j >= off {
            assert(s[j] == b[j - off]);
        }
    }
    assert(s.last() == b.last());
}

fn is_digit_char(c: char) -> (r: bool)
    ensures
        r == is_digit(c),
{
    '0' <= c && c <= '9'
}

/// Start of `t[lo..hi]` past one leading sign.
fn skip_sign(t: &Vec<char>, lo: usize, hi: usize) -> (r: usize)
    requires
        lo <= hi <= t@.len(),
    ensures
        lo <= r <= hi,
        t@.subrange(r as int, hi as int) == unsigned(t@.subrange(lo as int, hi as int)),
{
    let ghost s = t@.subrange(lo as int, hi as int);
    if lo < hi && (t[lo] == '+' || t[lo] == '-') {
        assert(t@.subrange(lo + 1, hi as int) =~= s.drop_first());
        lo + 1
    } else {
        lo
    }
}

fn digits_span(t: &Vec<char>, lo: usize, hi: usize) -> (r: bool)
    requires
        lo <= hi <= t@.len(),
    ensures
        r == all_digits(t@.subrange(lo as int, hi as int)),
{
    let ghost s = t@.subrange(lo as int, hi as int);
    for i in lo..hi
        invariant
            lo <= hi <= t@.len(),
            s == t@.subrange(lo as int, hi as int),
            forall|j: int| 0 <= j < i - lo ==> is_digit(#[trigger] s[j]),
    {
        if !is_digit_char(t[i]) {
            assert(!is_digit(s[i - lo]));
            return false;
        }
    }
    true
}

fn mantissa_span(t: &Vec<char>, lo: usize, hi: usize) -> (r: bool)
    requires
        lo <= hi <= t@.len(),
    ensures
        r == is_mantissa(t@.subrange(lo as int, hi as int)),
{
    let ghost m = t@.subrange(lo as int, hi as int);
    let mut seen_dot = false;
    let mut seen_digit = false;
    let ghost mut dot: int = 0;
    for i in lo..hi
        invariant
            lo <= hi <= t@.len(),
            m == t@.subrange(lo as int, hi as int),
            forall|j: int| 0 <= j < i - lo ==> is_digit(#[trigger] m[j]) || m[j] == '.',
            forall|j: int, k: int| 0 <= j < k < i - lo ==> !(#[trigger] m[j] == '.' && #[trigger] m[k] == '.'),
            seen_dot ==> 0 <= dot < i - lo && m[dot] == '.',
            !seen_dot ==> forall|j: int| 0 <= j < i - lo ==> #[trigger] m[j] != '.',
            seen_digit <==> exists|j: int| 0 <= j < i - lo && is_digit(#[trigger] m[j]),
    {
        let c = t[i];
        let ghost k = i - lo;
        assert(m[k] == c);
        if is_digit_char(c) {
            seen_digit = true;
        } else if c == '.' {
            if seen_dot {
                assert(!is_mantissa(m)) by {
                    assert(m[dot] == '.' && m[k] == '.');
                }
                return false;
            }
            seen_dot = true;
            proof {
                dot = k;
            }
        } else {
            assert(!is_mantissa(m)) by {
                assert(!(is_digit(m[k]) || m[k] == '.'));
            }
            return false;
        }
        assert(seen_digit <==> exists|j: int| 0 <= j < k + 1 && is_digit(#[trigger] m[j]));
    }
    seen_digit
}

fn exponent_span(t: &Vec<char>, lo: usize, hi: usize) -> (r: bool)
    requires
        lo <= hi <= t@.len(),
    ensures
        r == is_exponent(t@.subrange(lo as int, hi as int)),
{
    let ghost x = t@.subrange(lo as int, hi as int);
    if lo == hi {
        return true;
    }
    if !(t[lo] == 'e' || t[lo] == 'E') {
        return false;
    }
    assert(t@.subrange(lo + 1, hi as int) =~= x.drop_first());
    let start = skip_sign(t, lo + 1, hi);
    start < hi && digits_span(t, start, hi)
}

fn decimal_span(t: &Vec<char>, lo: usize, hi: usize) -> (r: bool)
    requires
        lo <= hi <= t@.len(),
    ensures
        r == is_decimal(t@.subrange(lo as int, hi as int)),
{
    let ghost b = t@.subrange(lo as int, hi as int);
    let mut k: usize = lo;
    while k < hi && !(t[k] == 'e' || t[k] == 'E')
        invariant
            lo <= k <= hi <= t@.len(),
            b == t@.subrange(lo as int, hi as int),
            forall|j: int| 0 <= j < k - lo ==> !is_exp_mark(#[trigger] b[j]),
        decreases hi - k,
    {
        k = k + 1;
    }
    let ghost kk = k - lo;
    assert(b.take(kk) =~= t@.subrange(lo as int, k as int));
    assert(b.skip(kk) =~= t@.subrange(k as int, hi as int));
    let r = mantissa_span(t, lo, k) && exponent_span(t, k, hi);
    if !r {
        assert forall|q: int| 0 <= q <= b.len() implies !(is_mantissa(#[trigger] b.take(q)) && is_exponent(b.skip(q))) by {
            if q < kk {
                assert(b.skip(q)[0] == b[q]);
                assert(!is_exp_mark(b[q]));
            } else if q > kk {
                assert(b.take(q)[kk] == b[kk]);
                assert(is_exp_mark(b[kk]));
            }
        }
    }
    r
}

fn zero_span(t: &Vec<char>, lo: usize, hi: usize) -> (r: bool)
    requires
        lo <= hi <= t@.len(),
    ensures
        r == zero_mantissa(t@.subrange(lo as int, hi as int)),
{
    let ghost b = t@.subrange(lo as int, hi as int);
    let mut k: usize = lo;
    while k < hi && (t[k] == '0' || t[k] == '.')
        invariant
            lo <= k <= hi <= t@.len(),
            b == t@.subrange(lo as int, hi as int),
            forall|j: int| 0 <= j < k - lo ==> #[trigger] b[j] == '0' || b[j] == '.',
        decreases hi - k,
    {
        k = k + 1;
    }
    let ghost kk = k - lo;
    let r = k == hi || t[k] == 'e' || t[k] == 'E';
    if r {
        assert(zero_prefix(b, kk));
    } else {
        assert forall|q: int| !zero_prefix(b, q) by {
            if zero_prefix(b, q) {
                if q > kk {
                    assert(!(b[kk] == '0' || b[kk] == '.'));
                } else if q < kk {
                    assert(b[q] == '0' || b[q] == '.');
                }
            }
        }
    }
    r
}

fn nan_span(t: &Vec<char>, lo: usize, hi: usize) -> (r: bool)
    requires
        lo <= hi <= t@.len(),
    ensures
        r == is_nan_word(t@.subrange(lo as int, hi as int)),
{
    let nan_lo = vec!['n', 'a', 'n'];
    let nan_up = vec!['N', 'A', 'N'];
    assert(nan_lo@ == seq!['n', 'a', 'n']);
    assert(nan_up@ == seq!['N', 'A', 'N']);
    word_span(t, lo, hi, &nan_lo, &nan_up)
}

/// Whether `t[lo..hi]` is text that `f64::from_str` accepts.
pub fn literal_span(t: &Vec<char>, lo: usize, hi: usize) -> (r: bool)
    requires
        lo <= hi <= t@.len(),
    ensures
        r == is_float_literal(t@.subrange(lo as int, hi as int)),
{
    let start = skip_sign(t, lo, hi);
    if decimal_span(t, start, hi) {
        return true;
    }
    let inf_lo = vec!['i', 'n', 'f'];
    let inf_up = vec!['I', 'N', 'F'];
    let infinity_lo = vec!['i', 'n', 'f', 'i', 'n', 'i', 't', 'y'];
    let infinity_up = vec!['I', 'N', 'F', 'I', 'N', 'I', 'T', 'Y'];
    assert(inf_lo@ == seq!['i', 'n', 'f']);
    assert(inf_up@ == seq!['I', 'N', 'F']);
    assert(infinity_lo@ == seq!['i', 'n', 'f', 'i', 'n', 'i', 't', 'y']);
    assert(infinity_up@ == seq!['I', 'N', 'F', 'I', 'N', 'I', 'T', 'Y']);
    word_span(t, start, hi, &inf_lo, &inf_up) || word_span(t, start, hi, &infinity_lo, &infinity_up)
        || nan_span(t, start, hi)
}


/// The error of text that is not a number.
#[derive(Clone, Copy, Debug, PartialEq, Eq, Structural)]
pub struct ParseNumberError;

/// A number, held as the text it was written in.
#[derive(Debug)]
pub struct Number {
    text: String,
}

impl View for Number {
    type V = Seq<char>;

    closed spec fn view(&self) -> Seq<char> {
        self.text@
    }
}

impl Clone for Number {
    fn clone(&self) -> (r: Self)
        ensures
            r == *self,
    {
        proof {
            use_type_invariant(self);
        }
        Number { text: self.text.clone() }
    }
}

impl Number {
    #[verifier::type_invariant]
    spec fn inv(self) -> bool {
        is_float_literal(self.text@)
    }

    /// The number written as `t[lo..hi]`, if that text is a number.
    pub fn from_span(t: &Vec<char>, lo: usize, hi: usize) -> (r: Option<Number>)
        requires
            lo <= hi <= t@.len(),
        ensures
            r is Some <==> is_float_literal(t@.subrange(lo as int, hi as int)),
            r is Some ==> r->0@ == t@.subrange(lo as int, hi as int),
    {
        if literal_span(t, lo, hi) {
            Some(Number { text: string_of_span(t, lo, hi) })
        } else {
            None
        }
    }

    /// The number written as `s`.
    pub fn parse(s: &str) -> (r: Result<Number, ParseNumberError>)
        ensures
            r is Ok <==> is_float_literal(s@),
            r is Ok ==> r->Ok_0@ == s@,
    {
        let t = chars_of(s);
        assert(t@.subrange(0, t@.len() as int) == t@);
        match Number::from_span(&t, 0, t.len()) {
            Some(n) => Ok(n),
            None => Err(ParseNumberError),
        }
    }

    /// Zero, written `0`.
    pub fn zero() -> (r: Number)
        ensures
            r@ == seq!['0'],
    {
        let t = vec!['0'];
        assert(t@.subrange(0, 1) =~= seq!['0']);
        let ghost z = seq!['0'];
        assert(z.take(1) =~= z);
        assert(z.skip(1) =~= Seq::<char>::empty());
        assert(is_digit(z[0]));
        assert(is_mantissa(z.take(1)));
        assert(is_float_literal(seq!['0']));
        Number { text: string_of_span(&t, 0, 1) }
    }

    /// Minus one, written `-1`.
    pub fn minus_one() -> (r: Number)
        ensures
            r@ == seq!['-', '1'],
    {
        let t = vec!['-', '1'];
        let ghost m = seq!['-', '1'];
        let ghost z = seq!['1'];
        assert(unsigned(m) =~= z);
        assert(z.take(1) =~= z);
        assert(z.skip(1) =~= Seq::<char>::empty());
        assert(is_digit(z[0]));
        assert(is_mantissa(z.take(1)));
        assert(t@.subrange(0, 2) =~= m);
        Number { text: string_of_span(&t, 0, 2) }
    }

    /// Whether the number is below zero.
    pub fn is_negative(&self) -> (r: bool)
        ensures
            r == is_negative_literal(self@),
    {
        let t = chars_of(self.text.as_str());
        let n = t.len();
        if n > 0 && t[0] == '-' {
            assert(t@.subrange(1, n as int) =~= t@.drop_first());
            !zero_span(&t, 1, n) && !nan_span(&t, 1, n)
        } else {
            false
        }
    }

    /// Whether the number is above zero.
    pub fn is_positive(&self) -> (r: bool)
        ensures
            r == is_positive_literal(self@),
    {
        let t = chars_of(self.text.as_str());
        let n = t.len();
        if n > 0 && t[0] == '-' {
            false
        } else {
            let start = skip_sign(&t, 0, n);
            assert(t@.subrange(0, n as int) =~= t@);
            !zero_span(&t, start, n) && !nan_span(&t, start, n)
        }
    }

    /// The text of the number.
    pub fn as_str(&self) -> (r: &str)
        ensures
            r@ == self@,
            is_float_literal(self@),
    {
        proof {
            use_type_invariant(self);
        }
        self.text.as_str()
    }
}

} // verus!
