//! What the viewer reads from a parsed exchange file besides geometry: the
//! header fields and the length unit.

use vstd::prelude::*;
use vstd::string::StringExecFns;
use ruststep::ast::{EntityInstance, Exchange, Parameter, Record};
use ruststep::header::Header;

verus! {

#[verifier::external_type_specification]
#[verifier::external_body]
pub struct ExRecord(Record);

#[verifier::external_type_specification]
#[verifier::external_body]
pub struct ExExchange(Exchange);

/// The header of an exchange file, as shown to the user.
#[derive(Clone, Debug, PartialEq, Eq)]
pub struct StepHeader {
    pub file_description: String,
    pub implementation_level: String,
    pub file_name: String,
    pub time_stamp: String,
    pub author: Vec<String>,
    pub organization: Vec<String>,
    pub preprocessor_version: String,
    pub originating_system: String,
    pub authorization: String,
    pub file_schema: String,
}

/// The header fields as the file states them, before lists are joined.
#[derive(Clone, Debug, PartialEq, Eq)]
pub struct HeaderRecord {
    pub description: Vec<String>,
    pub implementation_level: String,
    pub name: String,
    pub time_stamp: String,
    pub author: Vec<String>,
    pub organization: Vec<String>,
    pub preprocessor_version: String,
    pub originating_system: String,
    pub authorization: String,
    pub schema: Vec<String>,
}

pub open spec fn strings_view(v: Seq<String>) -> Seq<Seq<char>> {
    v.map_values(|s: String| s@)
}

/// The parts separated by `sep`.
pub open spec fn joined(parts: Seq<Seq<char>>, sep: Seq<char>) -> Seq<char>
    decreases parts.len(),
{
    if parts.len() == 0 {
        Seq::empty()
    } else if parts.len() == 1 {
        parts[0]
    } else {
        joined(parts.drop_last(), sep) + sep + parts.last()
    }
}

/// Joins strings with a separator.
pub fn join_strings(parts: &Vec<String>, sep: &str) -> (r: String)
    ensures
        r@ == joined(strings_view(parts@), sep@),
{
    let mut out = String::new();
    let mut i: usize = 0;
    while i < parts.len()
        invariant
            i <= parts.len(),
            out@ == joined(strings_view(parts@.subrange(0, i as int)), sep@),
        decreases parts.len() - i,
    {
        let ghost prev = strings_view(parts@.subrange(0, i as int));
        if i > 0 {
            out.append(sep);
        }
        out.append(parts[i].as_str());
        proof {
            let next = strings_view(parts@.subrange(0, i + 1));
            assert(next.drop_last() =~= prev);
            if i == 0 {
                assert(out@ =~= next[0]);
            }
        }
        i = i + 1;
    }
    assert(parts@.subrange(0, i as int) =~= parts@);
    out
}

/// The header shown for the fields a file states: description and schema
/// lists are joined with "; ".
pub open spec fn header_view_of(raw: HeaderRecord) -> StepHeaderView {
    StepHeaderView {
        file_description: joined(strings_view(raw.description@), "; "@),
        implementation_level: raw.implementation_level@,
        file_name: raw.name@,
        time_stamp: raw.time_stamp@,
        author: strings_view(raw.author@),
        organization: strings_view(raw.organization@),
        preprocessor_version: raw.preprocessor_version@,
        originating_system: raw.originating_system@,
        authorization: raw.authorization@,
        file_schema: joined(strings_view(raw.schema@), "; "@),
    }
}

/// The content of a header as mathematical values.
pub struct StepHeaderView {
    pub file_description: Seq<char>,
    pub implementation_level: Seq<char>,
    pub file_name: Seq<char>,
    pub time_stamp: Seq<char>,
    pub author: Seq<Seq<char>>,
    pub organization: Seq<Seq<char>>,
    pub preprocessor_version: Seq<char>,
    pub originating_system: Seq<char>,
    pub authorization: Seq<char>,
    pub file_schema: Seq<char>,
}

impl View for StepHeader {
    type V = StepHeaderView;

    open spec fn view(&self) -> StepHeaderView {
        StepHeaderView {
            file_description: self.file_description@,
            implementation_level: self.implementation_level@,
            file_name: self.file_name@,
            time_stamp: self.time_stamp@,
            author: strings_view(self.author@),
            organization: strings_view(self.organization@),
            preprocessor_version: self.preprocessor_version@,
            originating_system: self.originating_system@,
            authorization: self.authorization@,
            file_schema: self.file_schema@,
        }
    }
}

/// Builds the displayed header from the stated fields.
pub fn header_from_record(raw: HeaderRecord) -> (r: StepHeader)
    ensures
        r@ == header_view_of(raw),
{
    let file_description = join_strings(&raw.description, "; ");
    let file_schema = join_strings(&raw.schema, "; ");
    StepHeader {
        file_description,
        implementation_level: raw.implementation_level,
        file_name: raw.name,
        time_stamp: raw.time_stamp,
        author: raw.author,
        organization: raw.organization,
        preprocessor_version: raw.preprocessor_version,
        originating_system: raw.originating_system,
        authorization: raw.authorization,
        file_schema,
    }
}

/// Relies on ruststep's `Header::from_records`, which reads the first three
/// header records or fails, and asserts that there are three; the fields are
/// moved out unchanged.
#[verifier::external_body]
fn read_header(records: &[Record]) -> (r: Option<HeaderRecord>)
    requires
        records@.len() >= 3,
{
    Header::from_records(records).ok().map(|h| HeaderRecord {
        description: h.file_description.description,
        implementation_level: h.file_description.implementation_level,
        name: h.file_name.name,
        time_stamp: h.file_name.time_stamp,
        author: h.file_name.author,
        organization: h.file_name.organization,
        preprocessor_version: h.file_name.preprocessor_version,
        originating_system: h.file_name.originating_system,
        authorization: h.file_name.authorization,
        schema: h.file_schema.schema,
    })
}

/// The header of an exchange file; `None` when its records do not form one,
/// as always when there are fewer than three.
pub fn convert_header(header_in: &[Record]) -> (r: Option<StepHeader>)
    ensures
        header_in@.len() < 3 ==> r is None,
        r matches Some(h) ==> exists|raw: HeaderRecord| h@ == #[trigger] header_view_of(raw),
{
    if header_in.len() < 3 {
        return None;
    }
    match read_header(header_in) {
        Some(raw) => Some(header_from_record(raw)),
        None => None,
    }
}

/// A record as the unit search reads it: its keyword, and, where its
/// parameter is a list, each element's enumeration value if it is one.
#[derive(Clone, Debug, PartialEq, Eq)]
pub struct RecordFacts {
    pub name: String,
    pub params: Option<Vec<Option<String>>>,
}

/// Reads ruststep's `Record` fields: the keyword, and the enumeration values
/// of a list parameter; nothing is called.
#[verifier::external_body]
fn record_facts(record: &Record) -> (r: RecordFacts) {
    let params = match &record.parameter {
        Parameter::List(list) => Some(list.iter().map(|p| match p {
            Parameter::Enumeration(v) => Some(v.clone()),
            _ => None,
        }).collect()),
        _ => None,
    };
    RecordFacts { name: record.name.clone(), params }
}

/// Relies on the fields of ruststep's `Exchange`: the records of every data
/// section in order, each record of a complex entity in turn.
#[verifier::external_body]
fn exchange_records(exchange: &Exchange) -> (r: Vec<&Record>) {
    let mut out = Vec::new();
    for section in &exchange.data {
        for entity in &section.entities {
            match entity {
                EntityInstance::Simple { record, .. } => out.push(record),
                EntityInstance::Complex { subsuper, .. } => out.extend(subsuper.0.iter()),
            }
        }
    }
    out
}

/// ASCII letters in lower case; every other character unchanged.
pub open spec fn ascii_lower(s: Seq<char>) -> Seq<char> {
    s.map_values(|c: char| if 'A' <= c && c <= 'Z' { ((c as u32) + 32) as char } else { c })
}

/// Relies on std's `str::to_ascii_lowercase`, documented to map 'A'..='Z' to
/// 'a'..='z' and to leave every other character as it is.
#[verifier::external_body]
fn to_ascii_lowercase(s: &str) -> (r: String)
    ensures
        r@ == ascii_lower(s@),
{
    s.to_ascii_lowercase()
}

/// The short name of a unit given by its enumeration value and prefix.
pub open spec fn unit_label(prefix: Option<Seq<char>>, unit: Seq<char>) -> Seq<char> {
    if unit == "METRE"@ {
        if prefix == Some("MILLI"@) {
            "mm"@
        } else if prefix == Some("CENTI"@) {
            "cm"@
        } else if prefix == Some("DECI"@) {
            "dm"@
        } else if prefix == Some("KILO"@) {
            "km"@
        } else {
            "m"@
        }
    } else if unit == "INCH"@ {
        "in"@
    } else if unit == "FOOT"@ || unit == "FEET"@ {
        "ft"@
    } else {
        ascii_lower(unit)
    }
}

pub open spec fn params_view(ps: Seq<Option<String>>) -> Seq<Option<Seq<char>>> {
    ps.map_values(|p: Option<String>| match p {
        Some(s) => Some(s@),
        None => None,
    })
}

/// The unit a record names: an `SI_UNIT` record, in any letter case, whose
/// parameter list holds an enumeration second, with an optional prefix first.
pub open spec fn record_unit(name: Seq<char>, params: Option<Seq<Option<Seq<char>>>>) -> Option<Seq<char>> {
    if ascii_lower(name) != ascii_lower("SI_UNIT"@) {
        None
    } else {
        match params {
            Some(ps) => if ps.len() >= 2 && ps[1] is Some {
                Some(unit_label(ps[0], ps[1]->Some_0))
            } else {
                None
            },
            None => None,
        }
    }
}

pub open spec fn facts_unit(f: RecordFacts) -> Option<Seq<char>> {
    record_unit(
        f.name@,
        match f.params {
            Some(v) => Some(params_view(v@)),
            None => None,
        },
    )
}

fn str_is(s: &String, lit: &str) -> (r: bool)
    ensures
        r == (s@ == lit@),
{
    let l = String::from_str(lit);
    *s == l
}

fn label_of(prefix: &Option<String>, unit: &String) -> (r: String)
    ensures
        r@ == unit_label(
            match prefix {
                Some(p) => Some(p@),
                None => None,
            },
            unit@,
        ),
{
    if str_is(unit, "METRE") {
        match prefix {
            Some(p) => {
                if str_is(p, "MILLI") {
                    String::from_str("mm")
                } else if str_is(p, "CENTI") {
                    String::from_str("cm")
                } else if str_is(p, "DECI") {
                    String::from_str("dm")
                } else if str_is(p, "KILO") {
                    String::from_str("km")
                } else {
                    String::from_str("m")
                }
            },
            None => String::from_str("m"),
        }
    } else if str_is(unit, "INCH") {
        String::from_str("in")
    } else if str_is(unit, "FOOT") || str_is(unit, "FEET") {
        String::from_str("ft")
    } else {
        to_ascii_lowercase(unit.as_str())
    }
}

/// The unit that one record names, if any.
pub fn unit_from_record(record: &RecordFacts) -> (r: Option<String>)
    ensures
        r.is_some() == facts_unit(*record).is_some(),
        r matches Some(u) ==> u@ == facts_unit(*record)->Some_0,
{
    let name = to_ascii_lowercase(record.name.as_str());
    let si = to_ascii_lowercase("SI_UNIT");
    if name != si {
        return None;
    }
    match &record.params {
        Some(ps) => {
            if ps.len() >= 2 {
                match &ps[1] {
                    Some(unit) => {
                        let label = label_of(&ps[0], unit);
                        proof {
                            assert(params_view(ps@)[0] == match ps@[0] {
                                Some(p) => Some(p@),
                                None => None,
                            });
                        }
                        Some(label)
                    },
                    None => None,
                }
            } else {
                None
            }
        },
        None => None,
    }
}

/// The unit of the first record that names one.
pub open spec fn first_unit(rs: Seq<RecordFacts>) -> Option<Seq<char>>
    decreases rs.len(),
{
    if rs.len() == 0 {
        None
    } else if facts_unit(rs[0]) is Some {
        facts_unit(rs[0])
    } else {
        first_unit(rs.drop_first())
    }
}

/// The unit named by the first record that names one.
pub fn find_unit(records: &Vec<RecordFacts>) -> (r: Option<String>)
    ensures
        r.is_some() == first_unit(records@).is_some(),
        r matches Some(u) ==> u@ == first_unit(records@)->Some_0,
{
    let mut i: usize = 0;
    assert(records@.subrange(0, records@.len() as int) =~= records@);
    while i < records.len()
        invariant
            i <= records.len(),
            first_unit(records@) == first_unit(records@.subrange(i as int, records@.len() as int)),
        decreases records.len() - i,
    {
        proof {
            let rest = records@.subrange(i as int, records@.len() as int);
            assert(rest[0] == records@[i as int]);
            assert(rest.drop_first() =~= records@.subrange(i + 1, records@.len() as int));
        }
        match unit_from_record(&records[i]) {
            Some(u) => {
                return Some(u);
            },
            None => {},
        }
        i = i + 1;
    }
    assert(records@.subrange(i as int, records@.len() as int) =~= Seq::<RecordFacts>::empty());
    None
}

/// The length unit of an exchange file: the first `SI_UNIT` record's.
pub fn parse_units(exchange: &Exchange) -> (r: Option<String>)
    ensures
        exists|rs: Seq<RecordFacts>|
            (r is None && #[trigger] first_unit(rs) is None) || (r is Some && first_unit(rs) == Some(
                r->Some_0@,
            )),
{
    let records = exchange_records(exchange);
    let mut facts: Vec<RecordFacts> = Vec::new();
    let mut i: usize = 0;
    while i < records.len()
        invariant
            i <= records.len(),
        decreases records.len() - i,
    {
        facts.push(record_facts(records[i]));
        i = i + 1;
    }
    let r = find_unit(&facts);
    assert((r is None && first_unit(facts@) is None) || (r is Some && first_unit(facts@) == Some(r->Some_0@)));
    r
}

} // verus!
