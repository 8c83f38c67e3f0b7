//! Satellite records, the planets they orbit, and the names under which a
//! record's attributes are offered to expressions.

use vstd::prelude::*;
use crate::measurement::DataWithError;
use crate::number::Number;
use crate::text::{chars_of, matches_word, word_span};

verus! {

/// The planet that a satellite orbits.
#[derive(Debug, Clone, Copy, PartialEq, Eq, Structural)]
pub enum MajorBody {
    Earth,
    Mars,
    Jupiter,
    Saturn,
    Uranus,
    Neptune,
    Pluto,
}

/// The error of a name that is no planet's.
#[derive(Debug, Clone, Copy, PartialEq, Eq, Structural)]
pub struct UnknownPlanetError;

/// The planet's name in lower case.
pub open spec fn lower_name(b: MajorBody) -> Seq<char> {
    match b {
        MajorBody::Earth => seq!['e', 'a', 'r', 't', 'h'],
        MajorBody::Mars => seq!['m', 'a', 'r', 's'],
        MajorBody::Jupiter => seq!['j', 'u', 'p', 'i', 't', 'e', 'r'],
        MajorBody::Saturn => seq!['s', 'a', 't', 'u', 'r', 'n'],
        MajorBody::Uranus => seq!['u', 'r', 'a', 'n', 'u', 's'],
        MajorBody::Neptune => seq!['n', 'e', 'p', 't', 'u', 'n', 'e'],
        MajorBody::Pluto => seq!['p', 'l', 'u', 't', 'o'],
    }
}

/// The planet's name in upper case.
pub open spec fn upper_name(b: MajorBody) -> Seq<char> {
    match b {
        MajorBody::Earth => seq!['E', 'A', 'R', 'T', 'H'],
        MajorBody::Mars => seq!['M', 'A', 'R', 'S'],
        MajorBody::Jupiter => seq!['J', 'U', 'P', 'I', 'T', 'E', 'R'],
        MajorBody::Saturn => seq!['S', 'A', 'T', 'U', 'R', 'N'],
        MajorBody::Uranus => seq!['U', 'R', 'A', 'N', 'U', 'S'],
        MajorBody::Neptune => seq!['N', 'E', 'P', 'T', 'U', 'N', 'E'],
        MajorBody::Pluto => seq!['P', 'L', 'U', 'T', 'O'],
    }
}

/// The planet's name as it is shown.
pub open spec fn display_name(b: MajorBody) -> Seq<char> {
    match b {
        MajorBody::Earth => "Earth"@,
        MajorBody::Mars => "Mars"@,
        MajorBody::Jupiter => "Jupiter"@,
        MajorBody::Saturn => "Saturn"@,
        MajorBody::Uranus => "Uranus"@,
        MajorBody::Neptune => "Neptune"@,
        MajorBody::Pluto => "Pluto"@,
    }
}

/// `s` is the planet's name, each letter in either case. No character outside
/// ASCII lowercases to a letter of these names, so this agrees with comparing
/// after full Unicode lowercasing.
pub open spec fn names_body(s: Seq<char>, b: MajorBody) -> bool {
    matches_word(s, lower_name(b), upper_name(b))
}

/// A name stands for at most one planet.
pub proof fn lemma_names_unique(s: Seq<char>, b: MajorBody, c: MajorBody)
    requires
        names_body(s, b),
        names_body(s, c),
    ensures
        b == c,
{
    if b != c {
        assert(s.len() > 0);
        assert(s[0] == lower_name(b)[0] || s[0] == upper_name(b)[0]);
        assert(s[0] == lower_name(c)[0] || s[0] == upper_name(c)[0]);
        assert(s[1] == lower_name(b)[1] || s[1] == upper_name(b)[1]);
        assert(s[1] == lower_name(c)[1] || s[1] == upper_name(c)[1]);
    }
}

/// A planet's shown name is read back as that planet.
pub proof fn lemma_display_name_parses(b: MajorBody)
    ensures
        names_body(display_name(b), b),
{
    reveal_strlit("Earth");
    reveal_strlit("Mars");
    reveal_strlit("Jupiter");
    reveal_strlit("Saturn");
    reveal_strlit("Uranus");
    reveal_strlit("Neptune");
    reveal_strlit("Pluto");
    let s = display_name(b);
    assert forall|i: int| 0 <= i < s.len() implies #[trigger] s[i] == lower_name(b)[i] || s[i] == upper_name(b)[i] by {
        assert(0 <= i < 7);
    }
}

fn word_of(lw: &Vec<char>, uw: &Vec<char>, t: &Vec<char>, lo: usize, hi: usize) -> (r: bool)
    requires
        lw@.len() == uw@.len(),
        lo <= hi <= t@.len(),
    ensures
        r == matches_word(t@.subrange(lo as int, hi as int), lw@, uw@),
{
    word_span(t, lo, hi, lw, uw)
}

impl MajorBody {
    /// The planet named `s`, in any mix of upper and lower case.
    pub fn from_str(s: &str) -> (r: Result<MajorBody, UnknownPlanetError>)
        ensures
            forall|b: MajorBody| r == Ok::<MajorBody, UnknownPlanetError>(b) <==> names_body(s@, b),
            r is Err <==> forall|b: MajorBody| !names_body(s@, b),
    {
        let t = chars_of(s);
        assert(t@.subrange(0, t@.len() as int) == t@);
        MajorBody::from_span(&t, 0, t.len())
    }

    /// The planet named `t[lo..hi]`, in any mix of upper and lower case.
    pub fn from_span(t: &Vec<char>, lo: usize, hi: usize) -> (r: Result<MajorBody, UnknownPlanetError>)
        requires
            lo <= hi <= t@.len(),
        ensures
            forall|b: MajorBody|
                r == Ok::<MajorBody, UnknownPlanetError>(b) <==> names_body(t@.subrange(lo as int, hi as int), b),
            r is Err <==> forall|b: MajorBody| !names_body(t@.subrange(lo as int, hi as int), b),
    {
        let ghost s = t@.subrange(lo as int, hi as int);
        let r = if word_of(&vec!['e', 'a', 'r', 't', 'h'], &vec!['E', 'A', 'R', 'T', 'H'], t, lo, hi) {
            Ok(MajorBody::Earth)
        } else if word_of(&vec!['m', 'a', 'r', 's'], &vec!['M', 'A', 'R', 'S'], t, lo, hi) {
            Ok(MajorBody::Mars)
        } else if word_of(&vec!['j', 'u', 'p', 'i', 't', 'e', 'r'], &vec!['J', 'U', 'P', 'I', 'T', 'E', 'R'], t, lo, hi) {
            Ok(MajorBody::Jupiter)
        } else if word_of(&vec!['s', 'a', 't', 'u', 'r', 'n'], &vec!['S', 'A', 'T', 'U', 'R', 'N'], t, lo, hi) {
            Ok(MajorBody::Saturn)
        } else if word_of(&vec!['u', 'r', 'a', 'n', 'u', 's'], &vec!['U', 'R', 'A', 'N', 'U', 'S'], t, lo, hi) {
            Ok(MajorBody::Uranus)
        } else if word_of(&vec!['n', 'e', 'p', 't', 'u', 'n', 'e'], &vec!['N', 'E', 'P', 'T', 'U', 'N', 'E'], t, lo, hi) {
            Ok(MajorBody::Neptune)
        } else if word_of(&vec!['p', 'l', 'u', 't', 'o'], &vec!['P', 'L', 'U', 'T', 'O'], t, lo, hi) {
            Ok(MajorBody::Pluto)
        } else {
            Err(UnknownPlanetError)
        };
        proof {
            assert forall|b: MajorBody| r == Ok::<MajorBody, UnknownPlanetError>(b) <==> names_body(s, b) by {
                if names_body(s, b) && r is Ok {
                    lemma_names_unique(s, b, r->Ok_0);
                }
            }
            if r is Ok {
                assert(names_body(s, r->Ok_0));
            }
        }
        r
    }

    /// The planet's name as it is shown.
    pub fn to_string(&self) -> (r: String)
        ensures
            r@ == display_name(*self),
    {
        match self {
            MajorBody::Earth => "Earth".to_owned(),
            MajorBody::Mars => "Mars".to_owned(),
            MajorBody::Jupiter => "Jupiter".to_owned(),
            MajorBody::Saturn => "Saturn".to_owned(),
            MajorBody::Uranus => "Uranus".to_owned(),
            MajorBody::Neptune => "Neptune".to_owned(),
            MajorBody::Pluto => "Pluto".to_owned(),
        }
    }
}


impl core::str::FromStr for MajorBody {
    type Err = UnknownPlanetError;

    fn from_str(s: &str) -> Result<MajorBody, UnknownPlanetError> {
        MajorBody::from_str(s)
    }
}

/// A satellite's orbital elements.
#[derive(Debug)]
pub struct OrbitalParams {
    pub major_semiaxis: Number,
    pub eccentricity: Number,
    pub inclination: Number,
    pub ascending_node: Number,
}

impl Clone for OrbitalParams {
    fn clone(&self) -> (r: Self)
        ensures
            r == *self,
    {
        OrbitalParams {
            major_semiaxis: self.major_semiaxis.clone(),
            eccentricity: self.eccentricity.clone(),
            inclination: self.inclination.clone(),
            ascending_node: self.ascending_node.clone(),
        }
    }
}

/// A satellite's physical measurements.
#[derive(Debug)]
pub struct PhysicalParams {
    pub gm: DataWithError<Number>,
    pub radius: DataWithError<Number>,
    pub density: DataWithError<Number>,
    pub magnitude: DataWithError<Number>,
    pub albedo: DataWithError<Number>,
}

fn copy_measurement(m: &DataWithError<Number>) -> (r: DataWithError<Number>)
    ensures
        r == *m,
{
    DataWithError { data: m.data.clone(), error: m.error.clone() }
}

impl Clone for PhysicalParams {
    fn clone(&self) -> (r: Self)
        ensures
            r == *self,
    {
        PhysicalParams {
            gm: copy_measurement(&self.gm),
            radius: copy_measurement(&self.radius),
            density: copy_measurement(&self.density),
            magnitude: copy_measurement(&self.magnitude),
            albedo: copy_measurement(&self.albedo),
        }
    }
}

impl PhysicalParams {
    pub fn new(
        gm: DataWithError<Number>,
        radius: DataWithError<Number>,
        density: DataWithError<Number>,
        magnitude: DataWithError<Number>,
        albedo: DataWithError<Number>,
    ) -> (r: PhysicalParams)
        ensures
            r == (PhysicalParams { gm, radius, density, magnitude, albedo }),
    {
        PhysicalParams { gm, radius, density, magnitude, albedo }
    }
}

/// One satellite: the planet it orbits, its name, the number of the row it
/// was read from, and its orbital and physical data.
#[derive(Debug)]
pub struct Satellite {
    pub major_body: MajorBody,
    pub name: String,
    pub id: usize,
    pub orbital_params: OrbitalParams,
    pub physical_params: PhysicalParams,
}

impl Clone for Satellite {
    fn clone(&self) -> (r: Self)
        ensures
            r == *self,
    {
        Satellite {
            major_body: self.major_body,
            name: self.name.clone(),
            id: self.id,
            orbital_params: self.orbital_params.clone(),
            physical_params: self.physical_params.clone(),
        }
    }
}

/// What a name stands for in an expression.
#[derive(Debug)]
pub enum BoundValue {
    Number(Number),
    Text(String),
}

/// A name and what it stands for.
#[derive(Debug)]
pub struct Binding {
    pub name: String,
    pub value: BoundValue,
}

/// `b` binds `name` to the number `n`.
pub open spec fn binds_number(b: Binding, name: Seq<char>, n: Number) -> bool {
    b.name@ == name && b.value == BoundValue::Number(n)
}

/// `b` binds `name` to the text `t`.
pub open spec fn binds_text(b: Binding, name: Seq<char>, t: Seq<char>) -> bool {
    b.name@ == name && b.value is Text && b.value->Text_0@ == t
}

/// The numeric names of a satellite, in order: `a`, `e`, `i`, `node`, `gm`,
/// `radius`, `density`, `magnitude`, `albedo`; a measurement stands for its
/// value alone.
pub open spec fn binds_numbers(r: Seq<Binding>, s: Satellite) -> bool {
    &&& r.len() >= 9
    &&& binds_number(r[0], "a"@, s.orbital_params.major_semiaxis)
    &&& binds_number(r[1], "e"@, s.orbital_params.eccentricity)
    &&& binds_number(r[2], "i"@, s.orbital_params.inclination)
    &&& binds_number(r[3], "node"@, s.orbital_params.ascending_node)
    &&& binds_number(r[4], "gm"@, s.physical_params.gm.data)
    &&& binds_number(r[5], "radius"@, s.physical_params.radius.data)
    &&& binds_number(r[6], "density"@, s.physical_params.density.data)
    &&& binds_number(r[7], "magnitude"@, s.physical_params.magnitude.data)
    &&& binds_number(r[8], "albedo"@, s.physical_params.albedo.data)
}

fn bind_number(name: &str, n: &Number) -> (r: Binding)
    ensures
        binds_number(r, name@, *n),
{
    Binding { name: name.to_owned(), value: BoundValue::Number(n.clone()) }
}

impl Satellite {
    /// The names that a numeric expression over this satellite may use.
    pub fn numeric_bindings(&self) -> (r: Vec<Binding>)
        ensures
            r@.len() == 9,
            binds_numbers(r@, *self),
    {
        let mut r: Vec<Binding> = Vec::new();
        r.push(bind_number("a", &self.orbital_params.major_semiaxis));
        r.push(bind_number("e", &self.orbital_params.eccentricity));
        r.push(bind_number("i", &self.orbital_params.inclination));
        r.push(bind_number("node", &self.orbital_params.ascending_node));
        r.push(bind_number("gm", &self.physical_params.gm.data));
        r.push(bind_number("radius", &self.physical_params.radius.data));
        r.push(bind_number("density", &self.physical_params.density.data));
        r.push(bind_number("magnitude", &self.physical_params.magnitude.data));
        r.push(bind_number("albedo", &self.physical_params.albedo.data));
        r
    }

    /// The names that a filter expression over this satellite may use: the
    /// numeric ones, then `mb` for the planet's shown name and `name`.
    pub fn filter_bindings(&self) -> (r: Vec<Binding>)
        ensures
            r@.len() == 11,
            binds_numbers(r@, *self),
            binds_text(r@[9], "mb"@, display_name(self.major_body)),
            binds_text(r@[10], "name"@, self.name@),
    {
        let mut r = self.numeric_bindings();
        r.push(Binding { name: "mb".to_owned(), value: BoundValue::Text(self.major_body.to_string()) });
        r.push(Binding { name: "name".to_owned(), value: BoundValue::Text(self.name.clone()) });
        r
    }
}

} // verus!
