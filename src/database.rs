//! The catalogue: satellite records fused from an orbital and a physical
//! source, with lookup by id and filtering.

use vstd::prelude::*;
use crate::measurement::{decode, DataWithError};
use crate::number::{is_float_literal, Number};
use crate::satellites::{names_body, MajorBody, OrbitalParams, PhysicalParams, Satellite};
use crate::text::{
    chars_of, contains, contains_span, find_char, index_of, line_spans, lines_of, pieces,
    split_on, split_spans, spans_within, string_of_span,
};

verus! {

/// Why a catalogue could not be read; `row` is the number of the orbital row,
/// the header being row zero.
#[derive(Debug, Clone, Copy, PartialEq, Eq, Structural)]
pub enum IngestError {
    /// The orbital row has fewer than twelve fields, or the physical line
    /// joined to it fewer than six kept tokens.
    MissingField { row: usize },
    /// A field that holds a number or a measurement does not.
    BadNumber { row: usize },
    /// The orbital row's first field names no planet.
    UnknownPlanet { row: usize },
}

/// A physical token that is read: not a lone space and without a bracket
/// (brackets mark footnotes).
pub open spec fn keep_token(t: Seq<char>) -> bool {
    index_of(t, '[') == t.len() && t != seq![' ']
}

/// The tokens of `s` that `keep_token` keeps, in order.
pub open spec fn kept_tokens(s: Seq<Seq<char>>) -> Seq<Seq<char>>
    decreases s.len(),
{
    if s.len() == 0 {
        s
    } else if keep_token(s.last()) {
        kept_tokens(s.drop_last()).push(s.last())
    } else {
        kept_tokens(s.drop_last())
    }
}

/// The kept tokens of a physical line.
pub open spec fn physical_fields(line: Seq<char>) -> Seq<Seq<char>> {
    kept_tokens(split_on(line, '\t'))
}

/// The index of the first line that contains `name`, or the number of lines
/// where none does. The join between the two sources: a name matches any line
/// that holds it, not only a line of that name.
pub open spec fn first_match(lines: Seq<Seq<char>>, name: Seq<char>) -> int
    decreases lines.len(),
{
    if lines.len() == 0 {
        0
    } else if contains(lines[0], name) {
        0
    } else {
        1 + first_match(lines.drop_first(), name)
    }
}

/// What one orbital row contributes.
pub enum RowOutcome {
    /// No physical line holds the row's name: reading ends here.
    Stop,
    Fail(IngestError),
    Record,
}

/// The fields of orbital row `row`.
pub open spec fn orbital_fields(orb: Seq<Seq<char>>, row: int) -> Seq<Seq<char>> {
    split_on(orb[row], '\t')
}

/// The kept tokens of the physical line joined to orbital row `row`.
pub open spec fn joined_fields(orb: Seq<Seq<char>>, phys: Seq<Seq<char>>, row: int) -> Seq<Seq<char>> {
    physical_fields(phys[first_match(phys, orbital_fields(orb, row)[1])])
}

#[verifier::opaque]
pub open spec fn row_outcome(orb: Seq<Seq<char>>, phys: Seq<Seq<char>>, row: int) -> RowOutcome {
    let f = orbital_fields(orb, row);
    if f.len() < 12 {
        RowOutcome::Fail(IngestError::MissingField { row: row as usize })
    } else if first_match(phys, f[1]) >= phys.len() {
        RowOutcome::Stop
    } else {
        let p = joined_fields(orb, phys, row);
        if p.len() < 6 {
            RowOutcome::Fail(IngestError::MissingField { row: row as usize })
        } else if !(decode(p[1]) is Some && decode(p[2]) is Some && decode(p[3]) is Some && decode(p[4]) is Some
            && decode(p[5]) is Some) {
            RowOutcome::Fail(IngestError::BadNumber { row: row as usize })
        } else if !(is_float_literal(f[2]) && is_float_literal(f[3]) && is_float_literal(f[6])
            && is_float_literal(f[7])) {
            RowOutcome::Fail(IngestError::BadNumber { row: row as usize })
        } else if forall|b: MajorBody| !names_body(f[0], b) {
            RowOutcome::Fail(IngestError::UnknownPlanet { row: row as usize })
        } else {
            RowOutcome::Record
        }
    }
}

/// `s` is the record that orbital row `row` yields.
#[verifier::opaque]
pub open spec fn record_of(s: Satellite, orb: Seq<Seq<char>>, phys: Seq<Seq<char>>, row: int) -> bool {
    let f = orbital_fields(orb, row);
    let p = joined_fields(orb, phys, row);
    &&& s.id == row
    &&& names_body(f[0], s.major_body)
    &&& s.name@ == f[1]
    &&& s.orbital_params.major_semiaxis@ == f[2]
    &&& s.orbital_params.eccentricity@ == f[3]
    &&& s.orbital_params.inclination@ == f[6]
    &&& s.orbital_params.ascending_node@ == f[7]
    &&& decode(p[1]) == Some(s.physical_params.gm@)
    &&& decode(p[2]) == Some(s.physical_params.radius@)
    &&& decode(p[3]) == Some(s.physical_params.density@)
    &&& decode(p[4]) == Some(s.physical_params.magnitude@)
    &&& decode(p[5]) == Some(s.physical_params.albedo@)
}

/// How reading stands after the rows before `n`.
pub enum Progress {
    Going,
    Stopped(nat),
    Failed(IngestError),
}

pub open spec fn progress(orb: Seq<Seq<char>>, phys: Seq<Seq<char>>, n: int) -> Progress
    decreases n,
{
    if n <= 1 {
        Progress::Going
    } else {
        match progress(orb, phys, n - 1) {
            Progress::Going => match row_outcome(orb, phys, n - 1) {
                RowOutcome::Stop => Progress::Stopped((n - 2) as nat),
                RowOutcome::Fail(e) => Progress::Failed(e),
                RowOutcome::Record => Progress::Going,
            },
            other => other,
        }
    }
}

/// The outcome of reading the two sources, given as lines: the number of
/// records, or the error. Row zero of the orbital source is its header.
pub open spec fn fused(orb: Seq<Seq<char>>, phys: Seq<Seq<char>>) -> Result<nat, IngestError> {
    match progress(orb, phys, orb.len() as int) {
        Progress::Going => Ok(if orb.len() <= 1 { 0 } else { (orb.len() - 1) as nat }),
        Progress::Stopped(n) => Ok(n),
        Progress::Failed(e) => Err(e),
    }
}

/// Once reading has stopped or failed, later rows change nothing.
pub proof fn lemma_progress_settled(orb: Seq<Seq<char>>, phys: Seq<Seq<char>>, n: int, m: int)
    requires
        n <= m,
        !(progress(orb, phys, n) is Going),
    ensures
        progress(orb, phys, m) == progress(orb, phys, n),
    decreases m - n,
{
    if n < m {
        lemma_progress_settled(orb, phys, n, m - 1);
    }
}

/// `first_match` is determined by the first line that holds the name.
pub proof fn lemma_first_match_at(lines: Seq<Seq<char>>, name: Seq<char>, i: int)
    requires
        0 <= i <= lines.len(),
        i < lines.len() ==> contains(lines[i], name),
        forall|j: int| 0 <= j < i ==> !contains(#[trigger] lines[j], name),
    ensures
        first_match(lines, name) == i,
    decreases lines.len(),
{
    if lines.len() > 0 && !contains(lines[0], name) {
        assert forall|j: int| 0 <= j < i - 1 implies !contains(#[trigger] lines.drop_first()[j], name) by {
            assert(lines.drop_first()[j] == lines[j + 1]);
        }
        lemma_first_match_at(lines.drop_first(), name, i - 1);
    }
}

fn keep_span(t: &Vec<char>, lo: usize, hi: usize) -> (r: bool)
    requires
        lo <= hi <= t@.len(),
    ensures
        r == keep_token(t@.subrange(lo as int, hi as int)),
{
    let ghost tok = t@.subrange(lo as int, hi as int);
    if find_char(t, lo, hi, '[') < hi {
        return false;
    }
    if hi - lo == 1 && t[lo] == ' ' {
        assert(tok =~= seq![' ']);
        return false;
    }
    assert(tok != seq![' ']) by {
        if tok == seq![' '] {
            assert(tok[0] == t@[lo as int]);
        }
    }
    true
}

/// The spans of `toks` whose tokens `keep_token` keeps.
fn keep_spans(t: &Vec<char>, toks: &Vec<(usize, usize)>, lo: usize, hi: usize) -> (r: Vec<(usize, usize)>)
    requires
        lo <= hi <= t@.len(),
        spans_within(toks@, lo as int, hi as int),
    ensures
        pieces(t@, r@) == kept_tokens(pieces(t@, toks@)),
        spans_within(r@, lo as int, hi as int),
{
    let mut r: Vec<(usize, usize)> = Vec::new();
    let ghost all = pieces(t@, toks@);
    for i in 0..toks.len()
        invariant
            lo <= hi <= t@.len(),
            spans_within(toks@, lo as int, hi as int),
            all == pieces(t@, toks@),
            pieces(t@, r@) == kept_tokens(all.take(i as int)),
            spans_within(r@, lo as int, hi as int),
    {
        let (a, b) = toks[i];
        let ghost old_r = r@;
        assert(all.take(i + 1).drop_last() =~= all.take(i as int));
        assert(all.take(i + 1).last() == t@.subrange(a as int, b as int));
        if keep_span(t, a, b) {
            r.push((a, b));
            assert(pieces(t@, r@) =~= pieces(t@, old_r).push(t@.subrange(a as int, b as int)));
        }
    }
    assert(all.take(toks@.len() as int) =~= all);
    r
}

/// The index of the first line of `t` (spans `lines`) that holds `name[na..nb]`.
fn find_line(t: &Vec<char>, lines: &Vec<(usize, usize)>, name: &Vec<char>, na: usize, nb: usize) -> (r: usize)
    requires
        spans_within(lines@, 0, t@.len() as int),
        na <= nb <= name@.len(),
    ensures
        r <= lines@.len(),
        r == first_match(pieces(t@, lines@), name@.subrange(na as int, nb as int)),
{
    let ghost ls = pieces(t@, lines@);
    let ghost n = name@.subrange(na as int, nb as int);
    let mut k: usize = 0;
    while k < lines.len()
        invariant
            k <= lines@.len(),
            spans_within(lines@, 0, t@.len() as int),
            na <= nb <= name@.len(),
            ls == pieces(t@, lines@),
            n == name@.subrange(na as int, nb as int),
            forall|j: int| 0 <= j < k ==> !contains(#[trigger] ls[j], n),
        decreases lines@.len() - k,
    {
        let (a, b) = lines[k];
        if contains_span(t, a, b, name, na, nb) {
            proof {
                lemma_first_match_at(ls, n, k as int);
            }
            return k;
        }
        k = k + 1;
    }
    proof {
        lemma_first_match_at(ls, n, k as int);
    }
    k
}

/// Where every row after the header yields a record, all of them are read:
/// one record per row.
pub proof fn lemma_all_rows_read(orb: Seq<Seq<char>>, phys: Seq<Seq<char>>)
    requires
        forall|row: int| 1 <= row < orb.len() ==> #[trigger] row_outcome(orb, phys, row) is Record,
    ensures
        fused(orb, phys) == Ok::<nat, IngestError>(if orb.len() <= 1 { 0 } else { (orb.len() - 1) as nat }),
{
    lemma_going_upto(orb, phys, orb.len() as int);
}

proof fn lemma_going_upto(orb: Seq<Seq<char>>, phys: Seq<Seq<char>>, n: int)
    requires
        n <= orb.len(),
        forall|row: int| 1 <= row < orb.len() ==> #[trigger] row_outcome(orb, phys, row) is Record,
    ensures
        progress(orb, phys, n) is Going,
    decreases n,
{
    if n > 1 {
        lemma_going_upto(orb, phys, n - 1);
        assert(row_outcome(orb, phys, n - 1) is Record);
    }
}

/// Where the first row yields a record and the name of the second matches no
/// physical line, reading stops with the first record alone, and no error.
pub proof fn lemma_stop_at_second_row(orb: Seq<Seq<char>>, phys: Seq<Seq<char>>)
    requires
        orb.len() > 2,
        row_outcome(orb, phys, 1) is Record,
        orbital_fields(orb, 2).len() >= 12,
        first_match(phys, orbital_fields(orb, 2)[1]) >= phys.len(),
    ensures
        fused(orb, phys) == Ok::<nat, IngestError>(1),
{
    assert(row_outcome(orb, phys, 2) is Stop) by {
        reveal(row_outcome);
    }
    assert(progress(orb, phys, 1) is Going);
    assert(progress(orb, phys, 2) is Going);
    assert(progress(orb, phys, 3) == Progress::Stopped(1));
    lemma_progress_settled(orb, phys, 3, orb.len() as int);
}

/// The first record of `d` with id `id`.
pub open spec fn lookup(d: Seq<Satellite>, id: usize) -> Option<Satellite>
    decreases d.len(),
{
    if d.len() == 0 {
        None
    } else if d[0].id == id {
        Some(d[0])
    } else {
        lookup(d.drop_first(), id)
    }
}

/// The records of `d` whose flag in `keep` is set, in order.
pub open spec fn select(d: Seq<Satellite>, keep: Seq<bool>) -> Seq<Satellite>
    decreases d.len(),
{
    if d.len() == 0 || keep.len() == 0 {
        Seq::empty()
    } else if keep.last() {
        select(d.drop_last(), keep.drop_last()).push(d.last())
    } else {
        select(d.drop_last(), keep.drop_last())
    }
}

/// The records read from the two sources, as `from_raw_data` gives them.
pub open spec fn fused_records(d: Seq<Satellite>, orb: Seq<Seq<char>>, phys: Seq<Seq<char>>) -> bool {
    forall|k: int| 0 <= k < d.len() ==> record_of(#[trigger] d[k], orb, phys, k + 1)
}

/// In a catalogue read from two sources, the ids are `1, 2, ...` in order:
/// id `n` finds the record of orbital row `n`, and any other id finds none.
pub proof fn lemma_lookup_fused(d: Seq<Satellite>, orb: Seq<Seq<char>>, phys: Seq<Seq<char>>, id: usize)
    requires
        fused_records(d, orb, phys),
    ensures
        1 <= id <= d.len() ==> lookup(d, id) == Some(d[id - 1]) && record_of(d[id - 1], orb, phys, id as int),
        !(1 <= id <= d.len()) ==> lookup(d, id) is None,
{
    reveal(record_of);
    lemma_lookup_from(d, 0, id);
}

proof fn lemma_lookup_from(d: Seq<Satellite>, start: int, id: usize)
    requires
        forall|k: int| 0 <= k < d.len() ==> (#[trigger] d[k]).id == start + k + 1,
    ensures
        start + 1 <= id <= start + d.len() ==> lookup(d, id) == Some(d[id - start - 1]),
        !(start + 1 <= id <= start + d.len()) ==> lookup(d, id) is None,
    decreases d.len(),
{
    if d.len() > 0 {
        assert forall|k: int| 0 <= k < d.drop_first().len() implies (#[trigger] d.drop_first()[k]).id == start + 1 + k + 1 by {
            assert(d.drop_first()[k] == d[k + 1]);
        }
        lemma_lookup_from(d.drop_first(), start + 1, id);
        if id > start + 1 && id <= start + d.len() {
            assert(d.drop_first()[id - start - 2] == d[id - start - 1]);
        }
    }
}

/// The satellite records, in the order of the orbital source.
#[derive(Debug)]
pub struct Database {
    pub data: Vec<Satellite>,
}


/// Reads orbital row `row`, joined to its physical line: `None` where no
/// physical line holds the row's name.
fn read_row(
    ot: &Vec<char>,
    ol: &Vec<(usize, usize)>,
    pt: &Vec<char>,
    pl: &Vec<(usize, usize)>,
    row: usize,
) -> (r: Result<Option<Satellite>, IngestError>)
    requires
        spans_within(ol@, 0, ot@.len() as int),
        spans_within(pl@, 0, pt@.len() as int),
        row < ol@.len(),
    ensures
        ({
            let orb = pieces(ot@, ol@);
            let phys = pieces(pt@, pl@);
            match row_outcome(orb, phys, row as int) {
                RowOutcome::Stop => r == Ok::<Option<Satellite>, IngestError>(None),
                RowOutcome::Fail(e) => r == Err::<Option<Satellite>, IngestError>(e),
                RowOutcome::Record => r is Ok && r->Ok_0 is Some && record_of(
                    r->Ok_0->0,
                    orb,
                    phys,
                    row as int,
                ),
            }
        }),
{
    let ghost orb = pieces(ot@, ol@);
    let ghost phys = pieces(pt@, pl@);
    reveal(row_outcome);
    reveal(record_of);
    let (a, b) = ol[row];
    let f = split_spans(ot, a, b, '\t');
    assert(pieces(ot@, f@) == orbital_fields(orb, row as int));
    if f.len() < 12 {
        return Err(IngestError::MissingField { row });
    }
    let (na, nb) = f[1];
    let m = find_line(pt, pl, ot, na, nb);
    if m == pl.len() {
        return Ok(None);
    }
    let (pa, pb) = pl[m];
    let toks = split_spans(pt, pa, pb, '\t');
    let kept = keep_spans(pt, &toks, pa, pb);
    assert(pieces(pt@, kept@) == joined_fields(orb, phys, row as int));
    if kept.len() < 6 {
        return Err(IngestError::MissingField { row });
    }
    let gm = DataWithError::<Number>::from_span(pt, kept[1].0, kept[1].1);
    let radius = DataWithError::<Number>::from_span(pt, kept[2].0, kept[2].1);
    let density = DataWithError::<Number>::from_span(pt, kept[3].0, kept[3].1);
    let magnitude = DataWithError::<Number>::from_span(pt, kept[4].0, kept[4].1);
    let albedo = DataWithError::<Number>::from_span(pt, kept[5].0, kept[5].1);
    let (gm, radius, density, magnitude, albedo) = match (gm, radius, density, magnitude, albedo) {
        (Ok(gm), Ok(radius), Ok(density), Ok(magnitude), Ok(albedo)) => (gm, radius, density, magnitude, albedo),
        _ => {
            return Err(IngestError::BadNumber { row });
        },
    };
    let major_semiaxis = Number::from_span(ot, f[2].0, f[2].1);
    let eccentricity = Number::from_span(ot, f[3].0, f[3].1);
    let inclination = Number::from_span(ot, f[6].0, f[6].1);
    let ascending_node = Number::from_span(ot, f[7].0, f[7].1);
    let orbital_params = match (major_semiaxis, eccentricity, inclination, ascending_node) {
        (Some(major_semiaxis), Some(eccentricity), Some(inclination), Some(ascending_node)) => OrbitalParams {
            major_semiaxis,
            eccentricity,
            inclination,
            ascending_node,
        },
        _ => {
            return Err(IngestError::BadNumber { row });
        },
    };
    let major_body = match MajorBody::from_span(ot, f[0].0, f[0].1) {
        Ok(b) => b,
        Err(_) => {
            return Err(IngestError::UnknownPlanet { row });
        },
    };
    let name = string_of_span(ot, na, nb);
    assert(names_body(orbital_fields(orb, row as int)[0], major_body));
    let physical_params = PhysicalParams::new(gm, radius, density, magnitude, albedo);
    Ok(Some(Satellite { major_body, name, id: row, orbital_params, physical_params }))
}

impl Database {
    /// Fuses an orbital source and a physical source, each given as its whole
    /// text. The orbital source's first line is a header; each later line is
    /// a tab-separated row of at least twelve fields, and becomes one record
    /// whose id is the row's number. Its physical data comes from the first
    /// physical line that holds the row's name. Reading ends early, with the
    /// records so far, at the first row whose name no physical line holds.
    pub fn from_raw_data(orbital_data: &str, physical_data: &str) -> (r: Result<Database, IngestError>)
        ensures
            ({
                let orb = lines_of(orbital_data@);
                let phys = lines_of(physical_data@);
                &&& r is Ok <==> fused(orb, phys) is Ok
                &&& r is Err ==> r->Err_0 == fused(orb, phys)->Err_0
                &&& r is Ok ==> {
                    &&& r->Ok_0.data@.len() == fused(orb, phys)->Ok_0
                    &&& forall|k: int|
                        0 <= k < r->Ok_0.data@.len() ==> record_of(
                            #[trigger] r->Ok_0.data@[k],
                            orb,
                            phys,
                            k + 1,
                        )
                }
            }),
    {
        let ot = chars_of(orbital_data);
        let pt = chars_of(physical_data);
        let ol = line_spans(&ot);
        let pl = line_spans(&pt);
        let ghost orb = pieces(ot@, ol@);
        let ghost phys = pieces(pt@, pl@);
        assert(orb == lines_of(orbital_data@));
        assert(phys == lines_of(physical_data@));
        let mut data: Vec<Satellite> = Vec::new();
        let mut row: usize = 1;
        while row < ol.len()
            invariant
                1 <= row,
                row == 1 || row <= ol@.len(),
                spans_within(ol@, 0, ot@.len() as int),
                spans_within(pl@, 0, pt@.len() as int),
                orb == pieces(ot@, ol@),
                phys == pieces(pt@, pl@),
                orb == lines_of(orbital_data@),
                phys == lines_of(physical_data@),
                progress(orb, phys, row as int) is Going,
                data@.len() == row - 1,
                forall|k: int| 0 <= k < data@.len() ==> record_of(#[trigger] data@[k], orb, phys, k + 1),
            decreases ol@.len() - row,
        {
            match read_row(&ot, &ol, &pt, &pl, row) {
                Err(e) => {
                    proof {
                        assert(progress(orb, phys, row + 1) == Progress::Failed(e));
                        lemma_progress_settled(orb, phys, row + 1, orb.len() as int);
                        assert(fused(orb, phys) == Err::<nat, IngestError>(e));
                    }
                    return Err(e);
                },
                Ok(None) => {
                    proof {
                        assert(progress(orb, phys, row + 1) == Progress::Stopped((row - 1) as nat));
                        lemma_progress_settled(orb, phys, row + 1, orb.len() as int);
                        assert(fused(orb, phys) == Ok::<nat, IngestError>((row - 1) as nat));
                    }
                    return Ok(Database { data });
                },
                Ok(Some(s)) => {
                    data.push(s);
                    row = row + 1;
                },
            }
        }
        assert(orb.len() == ol@.len());
        assert(fused(orb, phys) == Ok::<nat, IngestError>(data@.len()));
        Ok(Database { data })
    }

    /// The first record with id `id`, if any.
    pub fn get_satellite_by_id(&self, id: usize) -> (r: Option<Satellite>)
        ensures
            r == lookup(self.data@, id),
    {
        let ghost d = self.data@;
        let mut i: usize = 0;
        assert(d.skip(0) =~= d);
        while i < self.data.len()
            invariant
                i <= d.len(),
                d == self.data@,
                lookup(d, id) == lookup(d.skip(i as int), id),
            decreases d.len() - i,
        {
            assert(d.skip(i as int)[0] == d[i as int]);
            assert(d.skip(i as int).drop_first() =~= d.skip(i + 1));
            if self.data[i].id == id {
                return Some(self.data[i].clone());
            }
            i = i + 1;
        }
        None
    }

    /// A new catalogue of the records whose flag in `keep` is set, in order.
    pub fn filtered(&self, keep: &Vec<bool>) -> (r: Database)
        requires
            keep@.len() == self.data@.len(),
        ensures
            r.data@ == select(self.data@, keep@),
    {
        let ghost d = self.data@;
        let mut data: Vec<Satellite> = Vec::new();
        for i in 0..keep.len()
            invariant
                keep@.len() == d.len(),
                d == self.data@,
                data@ == select(d.take(i as int), keep@.take(i as int)),
        {
            assert(d.take(i + 1).drop_last() =~= d.take(i as int));
            assert(keep@.take(i + 1).drop_last() =~= keep@.take(i as int));
            if keep[i] {
                data.push(self.data[i].clone());
            }
        }
        assert(d.take(d.len() as int) =~= d);
        assert(keep@.take(d.len() as int) =~= keep@);
        Database { data }
    }

    /// The number of records.
    pub fn len(&self) -> (r: usize)
        ensures
            r == self.data@.len(),
    {
        self.data.len()
    }
}

impl PartialEq for Database {
    /// Two catalogues are equal when they hold as many records.
    fn eq(&self, other: &Database) -> (r: bool)
        ensures
            r == (self.data@.len() == other.data@.len()),
    {
        self.data.len() == other.data.len()
    }
}

impl vstd::std_specs::cmp::PartialEqSpecImpl for Database {
    open spec fn obeys_eq_spec() -> bool {
        true
    }

    open spec fn eq_spec(&self, other: &Database) -> bool {
        self.data@.len() == other.data@.len()
    }
}

} // verus!
