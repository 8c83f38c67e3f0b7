//! A measured value with its uncertainty, and the catalogue's text form of it.

use vstd::prelude::*;
use crate::number::zero_prefix;
use crate::number::{lemma_literal_chars, zero_mantissa, is_float_literal, is_negative_literal, is_positive_literal, Number, ParseNumberError};
use crate::text::{chars_of, find_char, index_of, lemma_index_of_at, push_char, push_str};

verus! {

/// A value with its uncertainty. An uncertainty of minus one marks a value
/// that is not known.
#[derive(Debug)]
pub struct DataWithError<T> {
    pub data: T,
    pub error: T,
}

impl<T: View> View for DataWithError<T> {
    type V = DataWithError<T::V>;

    open spec fn view(&self) -> DataWithError<T::V> {
        DataWithError { data: self.data@, error: self.error@ }
    }
}

impl<T: Clone> Clone for DataWithError<T> {
    fn clone(&self) -> (r: Self)
        ensures
            cloned(self.data, r.data),
            cloned(self.error, r.error),
    {
        DataWithError { data: self.data.clone(), error: self.error.clone() }
    }
}

impl<T: Clone> DataWithError<T> {
    /// The value, without its uncertainty.
    pub fn to_value(&self) -> (r: T)
        ensures
            cloned(self.data, r),
    {
        self.data.clone()
    }
}

/// The letters that mark a rough estimate after a value.
pub open spec fn is_marker(c: char) -> bool {
    c == 'R' || c == 'r' || c == 'V' || c == 'v'
}

/// `s` without one trailing marker letter.
pub open spec fn strip_marker(s: Seq<char>) -> Seq<char> {
    if s.len() > 0 && is_marker(s.last()) {
        s.drop_last()
    } else {
        s
    }
}

/// The separator between a value and its uncertainty.
pub open spec fn plus_minus() -> char {
    '\u{b1}'
}

pub open spec fn zero_text() -> Seq<char> {
    seq!['0']
}

pub open spec fn unknown_text() -> Seq<char> {
    seq!['?']
}

/// The value and uncertainty texts that a measurement token stands for, if any.
pub open spec fn decode(tok: Seq<char>) -> Option<DataWithError<Seq<char>>> {
    let i = index_of(tok, plus_minus());
    if i < tok.len() {
        let v = strip_marker(tok.take(i));
        let u = tok.skip(i + 1);
        if is_float_literal(v) && is_float_literal(u) {
            Some(DataWithError { data: v, error: u })
        } else {
            None
        }
    } else if tok.len() > 0 && is_marker(tok.last()) {
        if is_float_literal(tok.drop_last()) {
            Some(DataWithError { data: tok.drop_last(), error: zero_text() })
        } else {
            None
        }
    } else if tok == unknown_text() {
        Some(DataWithError { data: zero_text(), error: seq!['-', '1'] })
    } else if is_float_literal(tok) {
        Some(DataWithError { data: tok, error: zero_text() })
    } else {
        None
    }
}

/// The text of a measurement: `?` when unknown, the value and uncertainty
/// around the separator when the uncertainty is above zero, else the value.
pub open spec fn encode(m: DataWithError<Seq<char>>) -> Seq<char> {
    if is_negative_literal(m.error) {
        unknown_text()
    } else if is_positive_literal(m.error) {
        m.data + seq![plus_minus()] + m.error
    } else {
        m.data
    }
}

/// A token of a value and an uncertainty around the separator decodes to that
/// value and that uncertainty.
pub proof fn lemma_decode_with_uncertainty(v: Seq<char>, u: Seq<char>)
    requires
        is_float_literal(v),
        is_float_literal(u),
    ensures
        decode(v + seq![plus_minus()] + u) == Some(DataWithError { data: v, error: u }),
{
    let tok = v + seq![plus_minus()] + u;
    lemma_literal_chars(v);
    assert forall|j: int| 0 <= j < v.len() implies tok[j] != plus_minus() by {
        assert(tok[j] == v[j]);
    }
    lemma_index_of_at(tok, plus_minus(), v.len() as int);
    assert(tok.take(v.len() as int) =~= v);
    assert(tok.skip(v.len() as int + 1) =~= u);
}

/// The unknown marker decodes to value zero with uncertainty minus one, and
/// that measurement is written back as the unknown marker.
pub proof fn lemma_unknown_round_trip()
    ensures
        decode(unknown_text()) == Some(DataWithError { data: zero_text(), error: seq!['-', '1'] }),
        encode(DataWithError { data: zero_text(), error: seq!['-', '1'] }) == unknown_text(),
{
    let tok = unknown_text();
    lemma_index_of_at(tok, plus_minus(), 1);
    let one = seq!['-', '1'].drop_first();
    assert(one =~= seq!['1']);
    assert(!zero_mantissa(one)) by {
        assert forall|k: int| !zero_prefix(one, k) by {
            assert(one[0] == '1');
        }
    }
}

/// A value followed by a marker letter decodes to that value with uncertainty
/// zero, and is written back without the marker.
pub proof fn lemma_decode_marked(v: Seq<char>, m: char)
    requires
        is_float_literal(v),
        is_marker(m),
    ensures
        decode(v.push(m)) == Some(DataWithError { data: v, error: zero_text() }),
        encode(decode(v.push(m))->0) == v,
{
    let tok = v.push(m);
    lemma_literal_chars(v);
    assert forall|j: int| 0 <= j < tok.len() implies tok[j] != plus_minus() by {
        if j < v.len() {
            assert(tok[j] == v[j]);
        }
    }
    lemma_index_of_at(tok, plus_minus(), tok.len() as int);
    assert(tok.drop_last() =~= v);
    assert(zero_prefix(zero_text(), 1));
}

impl DataWithError<Number> {
    /// The measurement written as `t[lo..hi]`.
    pub fn from_span(t: &Vec<char>, lo: usize, hi: usize) -> (r: Result<DataWithError<Number>, ParseNumberError>)
        requires
            lo <= hi <= t@.len(),
        ensures
            r is Ok <==> decode(t@.subrange(lo as int, hi as int)) is Some,
            r is Ok ==> r->Ok_0@ == decode(t@.subrange(lo as int, hi as int))->0,
    {
        let ghost tok = t@.subrange(lo as int, hi as int);
        let sep = find_char(t, lo, hi, '\u{b1}');
        if sep < hi {
            let mut end = sep;
            assert(tok.take(sep - lo) =~= t@.subrange(lo as int, sep as int));
            if lo < sep && (t[sep - 1] == 'R' || t[sep - 1] == 'r' || t[sep - 1] == 'V' || t[sep - 1] == 'v') {
                end = sep - 1;
                assert(t@.subrange(lo as int, end as int) =~= tok.take(sep - lo).drop_last());
            }
            assert(tok.skip(sep - lo + 1) =~= t@.subrange(sep + 1, hi as int));
            let data = Number::from_span(t, lo, end);
            let error = Number::from_span(t, sep + 1, hi);
            match (data, error) {
                (Some(data), Some(error)) => Ok(DataWithError { data, error }),
                _ => Err(ParseNumberError),
            }
        } else if lo < hi && (t[hi - 1] == 'R' || t[hi - 1] == 'r' || t[hi - 1] == 'V' || t[hi - 1] == 'v') {
            assert(t@.subrange(lo as int, hi - 1) =~= tok.drop_last());
            match Number::from_span(t, lo, hi - 1) {
                Some(data) => Ok(DataWithError { data, error: Number::zero() }),
                None => Err(ParseNumberError),
            }
        } else if hi - lo == 1 && t[lo] == '?' {
            assert(tok =~= unknown_text());
            Ok(DataWithError { data: Number::zero(), error: Number::minus_one() })
        } else {
            assert(tok != unknown_text()) by {
                if tok == unknown_text() {
                    assert(tok[0] == t@[lo as int]);
                }
            }
            match Number::from_span(t, lo, hi) {
                Some(data) => Ok(DataWithError { data, error: Number::zero() }),
                None => Err(ParseNumberError),
            }
        }
    }

    /// The measurement written as `s`.
    pub fn from_str(s: &str) -> (r: Result<DataWithError<Number>, ParseNumberError>)
        ensures
            r is Ok <==> decode(s@) is Some,
            r is Ok ==> r->Ok_0@ == decode(s@)->0,
    {
        let t = chars_of(s);
        assert(t@.subrange(0, t@.len() as int) == t@);
        DataWithError::<Number>::from_span(&t, 0, t.len())
    }

    /// The text of the measurement.
    pub fn to_string(&self) -> (r: String)
        ensures
            r@ == encode(self@),
    {
        if self.error.is_negative() {
            let mut r = String::new();
            push_char(&mut r, '?');
            assert(r@ =~= unknown_text());
            r
        } else if self.error.is_positive() {
            let mut r = String::new();
            push_str(&mut r, self.data.as_str());
            push_char(&mut r, '\u{b1}');
            push_str(&mut r, self.error.as_str());
            assert(r@ =~= self.data@ + seq![plus_minus()] + self.error@);
            r
        } else {
            let mut r = String::new();
            push_str(&mut r, self.data.as_str());
            assert(r@ =~= self.data@);
            r
        }
    }
}

impl core::str::FromStr for DataWithError<Number> {
    type Err = ParseNumberError;

    fn from_str(s: &str) -> Result<DataWithError<Number>, ParseNumberError> {
        DataWithError::<Number>::from_str(s)
    }
}

} // verus!
