//! A plain tree model of the JSON-shaped input and the validating parser
//! that turns it into a coverage document.
//!
//! The tree holds only plain values: strings, booleans, non-negative
//! integers, and other numbers as IEEE-754 double bit patterns. Parsing is
//! strict about shape — a missing or mistyped required field is a
//! [`ExportError::MalformedReport`] and the whole run aborts before any
//! network activity — but deliberately does not validate the statistics
//! themselves (`covered <= count` and the range of `percent` pass through
//! unchecked), and unknown fields are ignored.

use vstd::prelude::*;

use crate::entity::{Entry, EntryTotals, FileContent, FileContentView, Number, Report};
use crate::error::ExportError;

verus! {

/// One node of the input document tree.
#[derive(Debug)]
pub enum JsonValue {
    Null,
    Bool(bool),
    /// A non-negative integer number.
    UInt(u64),
    /// Any other number, as the bit pattern of an IEEE-754 double.
    FloatBits(u64),
    Str(String),
    Array(Vec<JsonValue>),
    /// Key/value pairs; keys are expected to be unique, and the first
    /// binding of a key is the one that counts.
    Object(Vec<(String, JsonValue)>),
}

/// The value bound to `name`, at its first binding.
pub open spec fn lookup(fields: Seq<(String, JsonValue)>, name: Seq<char>) -> Option<JsonValue>
    decreases fields.len(),
{
    if fields.len() == 0 {
        None
    } else if fields[0].0@ == name {
        Some(fields[0].1)
    } else {
        lookup(fields.drop_first(), name)
    }
}

/// The node as a machine-sized non-negative integer, if it is one.
pub open spec fn usize_of_json(v: JsonValue) -> Option<usize> {
    match v {
        JsonValue::UInt(u) => if u <= usize::MAX as u64 {
            Some(u as usize)
        } else {
            None
        },
        _ => None,
    }
}

/// The node as a number, if it is one.
pub open spec fn number_of_json(v: JsonValue) -> Option<Number> {
    match v {
        JsonValue::UInt(u) => Some(Number::UInt(u)),
        JsonValue::FloatBits(b) => Some(Number::FloatBits(b)),
        _ => None,
    }
}

/// The report a node stands for: an object with integer `count` and
/// `covered`, an optional integer `notcovered`, and a numeric `percent`.
pub open spec fn report_of_json(v: JsonValue) -> Option<Report> {
    match v {
        JsonValue::Object(fields) => {
            match (
                lookup(fields@, "count"@),
                lookup(fields@, "covered"@),
                lookup(fields@, "percent"@),
            ) {
                (Some(cv), Some(covv), Some(pv)) => {
                    match (usize_of_json(cv), usize_of_json(covv), number_of_json(pv)) {
                        (Some(count), Some(covered), Some(percent)) => {
                            match lookup(fields@, "notcovered"@) {
                                None => Some(
                                    Report { count, covered, notcovered: None, percent },
                                ),
                                Some(ncv) => match usize_of_json(ncv) {
                                    Some(nc) => Some(
                                        Report { count, covered, notcovered: Some(nc), percent },
                                    ),
                                    None => None,
                                },
                            }
                        },
                        _ => None,
                    }
                },
                _ => None,
            }
        },
        _ => None,
    }
}

/// The totals a node stands for: an object with all five category reports.
pub open spec fn totals_of_json(v: JsonValue) -> Option<EntryTotals> {
    match v {
        JsonValue::Object(fields) => {
            match (
                lookup(fields@, "branches"@),
                lookup(fields@, "functions"@),
                lookup(fields@, "instantiations"@),
                lookup(fields@, "lines"@),
                lookup(fields@, "regions"@),
            ) {
                (Some(bv), Some(fv), Some(iv), Some(lv), Some(rv)) => {
                    match (
                        report_of_json(bv),
                        report_of_json(fv),
                        report_of_json(iv),
                        report_of_json(lv),
                        report_of_json(rv),
                    ) {
                        (
                            Some(branches),
                            Some(functions),
                            Some(instantiations),
                            Some(lines),
                            Some(regions),
                        ) => Some(
                            EntryTotals { branches, functions, instantiations, lines, regions },
                        ),
                        _ => None,
                    }
                },
                _ => None,
            }
        },
        _ => None,
    }
}

/// The entry a node stands for: an object with a `totals` object.
pub open spec fn entry_of_json(v: JsonValue) -> Option<Entry> {
    match v {
        JsonValue::Object(fields) => match lookup(fields@, "totals"@) {
            Some(tv) => match totals_of_json(tv) {
                Some(totals) => Some(Entry { totals }),
                None => None,
            },
            None => None,
        },
        _ => None,
    }
}

/// The entry sequence an array stands for; any bad element spoils the whole.
pub open spec fn entries_of_json(items: Seq<JsonValue>) -> Option<Seq<Entry>>
    decreases items.len(),
{
    if items.len() == 0 {
        Some(Seq::<Entry>::empty())
    } else {
        match (entry_of_json(items[0]), entries_of_json(items.drop_first())) {
            (Some(e), Some(rest)) => Some(seq![e] + rest),
            _ => None,
        }
    }
}

/// The document a node stands for: an object with an entry array `data` and
/// string `type` and `version`.
pub open spec fn doc_of_json(v: JsonValue) -> Option<FileContentView> {
    match v {
        JsonValue::Object(fields) => {
            match (
                lookup(fields@, "data"@),
                lookup(fields@, "type"@),
                lookup(fields@, "version"@),
            ) {
                (Some(dv), Some(kv), Some(verv)) => {
                    match (dv, kv, verv) {
                        (JsonValue::Array(items), JsonValue::Str(ks), JsonValue::Str(vs)) => {
                            match entries_of_json(items@) {
                                Some(es) => Some(
                                    FileContentView { data: es, kind: ks@, version: vs@ },
                                ),
                                None => None,
                            }
                        },
                        _ => None,
                    }
                },
                _ => None,
            }
        },
        _ => None,
    }
}

/// The value bound to `name` in the object fields, at its first binding.
fn get_field<'a>(fields: &'a Vec<(String, JsonValue)>, name: &String) -> (r: Option<
    &'a JsonValue,
>)
    ensures
        match r {
            Some(v) => lookup(fields@, name@) == Some(*v),
            None => lookup(fields@, name@) is None,
        },
{
    let mut i: usize = 0;
    proof {
        assert(fields@.skip(0) =~= fields@);
    }
    while i < fields.len()
        invariant
            i <= fields.len(),
            lookup(fields@, name@) == lookup(fields@.skip(i as int), name@),
        decreases fields.len() - i,
    {
        if fields[i].0 == *name {
            proof {
                assert(fields@.skip(i as int)[0] == fields@[i as int]);
            }
            return Some(&fields[i].1);
        }
        proof {
            assert(fields@.skip(i as int)[0] == fields@[i as int]);
            assert(fields@.skip(i as int).drop_first() =~= fields@.skip(i as int + 1));
        }
        i += 1;
    }
    proof {
        assert(fields@.skip(fields@.len() as int) =~= Seq::<(String, JsonValue)>::empty());
    }
    None
}

/// The node as a machine-sized non-negative integer, if it is one.
fn json_usize(v: &JsonValue) -> (r: Option<usize>)
    ensures
        r == usize_of_json(*v),
{
    match v {
        JsonValue::UInt(u) => {
            if *u <= usize::MAX as u64 {
                Some(*u as usize)
            } else {
                None
            }
        },
        _ => None,
    }
}

/// The node as a number, if it is one.
fn json_number(v: &JsonValue) -> (r: Option<Number>)
    ensures
        r == number_of_json(*v),
{
    match v {
        JsonValue::UInt(u) => Some(Number::UInt(*u)),
        JsonValue::FloatBits(b) => Some(Number::FloatBits(*b)),
        _ => None,
    }
}

/// Parses one category report, strict about shape.
pub fn parse_report(v: &JsonValue) -> (r: Result<Report, ExportError>)
    ensures
        match r {
            Ok(rep) => report_of_json(*v) == Some(rep),
            Err(e) => report_of_json(*v) is None && e == ExportError::MalformedReport,
        },
{
    match v {
        JsonValue::Object(fields) => {
            let cv = match get_field(fields, &String::from_str("count")) {
                Some(x) => x,
                None => { return Err(ExportError::MalformedReport) },
            };
            let count = match json_usize(cv) {
                Some(x) => x,
                None => { return Err(ExportError::MalformedReport) },
            };
            let covv = match get_field(fields, &String::from_str("covered")) {
                Some(x) => x,
                None => { return Err(ExportError::MalformedReport) },
            };
            let covered = match json_usize(covv) {
                Some(x) => x,
                None => { return Err(ExportError::MalformedReport) },
            };
            let pv = match get_field(fields, &String::from_str("percent")) {
                Some(x) => x,
                None => { return Err(ExportError::MalformedReport) },
            };
            let percent = match json_number(pv) {
                Some(x) => x,
                None => { return Err(ExportError::MalformedReport) },
            };
            let notcovered = match get_field(fields, &String::from_str("notcovered")) {
                None => None,
                Some(ncv) => match json_usize(ncv) {
                    Some(nc) => Some(nc),
                    None => { return Err(ExportError::MalformedReport) },
                },
            };
            Ok(Report { count, covered, notcovered, percent })
        },
        _ => Err(ExportError::MalformedReport),
    }
}

/// Parses the five category reports of one entry's totals.
pub fn parse_totals(v: &JsonValue) -> (r: Result<EntryTotals, ExportError>)
    ensures
        match r {
            Ok(t) => totals_of_json(*v) == Some(t),
            Err(e) => totals_of_json(*v) is None && e == ExportError::MalformedReport,
        },
{
    match v {
        JsonValue::Object(fields) => {
            let bv = match get_field(fields, &String::from_str("branches")) {
                Some(x) => x,
                None => { return Err(ExportError::MalformedReport) },
            };
            let fv = match get_field(fields, &String::from_str("functions")) {
                Some(x) => x,
                None => { return Err(ExportError::MalformedReport) },
            };
            let iv = match get_field(fields, &String::from_str("instantiations")) {
                Some(x) => x,
                None => { return Err(ExportError::MalformedReport) },
            };
            let lv = match get_field(fields, &String::from_str("lines")) {
                Some(x) => x,
                None => { return Err(ExportError::MalformedReport) },
            };
            let rv = match get_field(fields, &String::from_str("regions")) {
                Some(x) => x,
                None => { return Err(ExportError::MalformedReport) },
            };
            let branches = match parse_report(bv) {
                Ok(x) => x,
                Err(e) => { return Err(e) },
            };
            let functions = match parse_report(fv) {
                Ok(x) => x,
                Err(e) => { return Err(e) },
            };
            let instantiations = match parse_report(iv) {
                Ok(x) => x,
                Err(e) => { return Err(e) },
            };
            let lines = match parse_report(lv) {
                Ok(x) => x,
                Err(e) => { return Err(e) },
            };
            let regions = match parse_report(rv) {
                Ok(x) => x,
                Err(e) => { return Err(e) },
            };
            Ok(EntryTotals { branches, functions, instantiations, lines, regions })
        },
        _ => Err(ExportError::MalformedReport),
    }
}

/// Parses one entry: an object with a `totals` object.
pub fn parse_entry(v: &JsonValue) -> (r: Result<Entry, ExportError>)
    ensures
        match r {
            Ok(e) => entry_of_json(*v) == Some(e),
            Err(e) => entry_of_json(*v) is None && e == ExportError::MalformedReport,
        },
{
    match v {
        JsonValue::Object(fields) => {
            let tv = match get_field(fields, &String::from_str("totals")) {
                Some(x) => x,
                None => { return Err(ExportError::MalformedReport) },
            };
            match parse_totals(tv) {
                Ok(totals) => Ok(Entry { totals }),
                Err(e) => Err(e),
            }
        },
        _ => Err(ExportError::MalformedReport),
    }
}

/// A bad element anywhere spoils the whole entry array.
proof fn lemma_entries_of_json_char(s: Seq<JsonValue>)
    ensures
        entries_of_json(s) is Some <==> (forall|k: int|
            0 <= k < s.len() ==> (#[trigger] entry_of_json(s[k])) is Some),
        entries_of_json(s) is Some ==> entries_of_json(s) == Some(
            Seq::new(s.len(), |k: int| entry_of_json(s[k]).unwrap()),
        ),
    decreases s.len(),
{
    if s.len() == 0 {
        assert(Seq::new(0, |k: int| entry_of_json(s[k]).unwrap())
            =~= Seq::<Entry>::empty());
    } else {
        lemma_entries_of_json_char(s.drop_first());
        assert forall|k: int| 0 <= k < s.drop_first().len() implies s.drop_first()[k] == s[k
            + 1] by {}
        if forall|k: int| 0 <= k < s.len() ==> (#[trigger] entry_of_json(s[k])) is Some {
            assert(entry_of_json(s[0]) is Some);
            assert forall|k: int|
                0 <= k < s.drop_first().len() implies (#[trigger] entry_of_json(
                s.drop_first()[k],
            )) is Some by {
                assert(s.drop_first()[k] == s[k + 1]);
                assert(entry_of_json(s[k + 1]) is Some);
            }
            assert(entries_of_json(s.drop_first()) is Some);
            assert(entries_of_json(s) is Some);
        }
        if entries_of_json(s) is Some {
            assert(entry_of_json(s[0]) is Some);
            assert(entries_of_json(s.drop_first()) is Some);
            assert forall|k: int| 0 <= k < s.len() implies (#[trigger] entry_of_json(
                s[k],
            )) is Some by {
                if k > 0 {
                    assert(s.drop_first()[k - 1] == s[k]);
                    assert(entry_of_json(s.drop_first()[k - 1]) is Some);
                }
            }
            assert(entries_of_json(s)->0 =~= Seq::new(
                s.len(),
                |k: int| entry_of_json(s[k]).unwrap(),
            ));
        }
    }
}

/// Parses the entry array, failing on the first bad element.
pub fn parse_entries(items: &Vec<JsonValue>) -> (r: Result<Vec<Entry>, ExportError>)
    ensures
        match r {
            Ok(es) => entries_of_json(items@) == Some(es@),
            Err(e) => entries_of_json(items@) is None && e == ExportError::MalformedReport,
        },
{
    let mut result: Vec<Entry> = Vec::new();
    let mut i: usize = 0;
    while i < items.len()
        invariant
            i <= items.len(),
            forall|k: int| 0 <= k < i ==> (#[trigger] entry_of_json(items@[k])) is Some,
            result@ =~= Seq::new(i as nat, |k: int| entry_of_json(items@[k]).unwrap()),
        decreases items.len() - i,
    {
        match parse_entry(&items[i]) {
            Ok(e) => {
                result.push(e);
                proof {
                    assert(result@ =~= Seq::new(
                        i as nat + 1,
                        |k: int| entry_of_json(items@[k]).unwrap(),
                    ));
                }
            },
            Err(err) => {
                proof {
                    lemma_entries_of_json_char(items@);
                }
                return Err(err);
            },
        }
        i += 1;
    }
    proof {
        lemma_entries_of_json_char(items@);
    }
    Ok(result)
}

/// Parses a whole coverage document, strict about shape: the error is
/// exactly [`ExportError::MalformedReport`], raised if and only if the tree
/// does not match the document shape. Parsing performs no I/O, so a
/// malformed input aborts the run before any submission can happen.
pub fn parse_document(v: &JsonValue) -> (r: Result<FileContent, ExportError>)
    ensures
        match r {
            Ok(d) => doc_of_json(*v) == Some(d@),
            Err(e) => doc_of_json(*v) is None && e == ExportError::MalformedReport,
        },
{
    match v {
        JsonValue::Object(fields) => {
            let dv = match get_field(fields, &String::from_str("data")) {
                Some(x) => x,
                None => { return Err(ExportError::MalformedReport) },
            };
            let kv = match get_field(fields, &String::from_str("type")) {
                Some(x) => x,
                None => { return Err(ExportError::MalformedReport) },
            };
            let verv = match get_field(fields, &String::from_str("version")) {
                Some(x) => x,
                None => { return Err(ExportError::MalformedReport) },
            };
            let kind = match kv {
                JsonValue::Str(s) => s.clone(),
                _ => { return Err(ExportError::MalformedReport) },
            };
            let version = match verv {
                JsonValue::Str(s) => s.clone(),
                _ => { return Err(ExportError::MalformedReport) },
            };
            let items = match dv {
                JsonValue::Array(a) => a,
                _ => { return Err(ExportError::MalformedReport) },
            };
            match parse_entries(items) {
                Ok(data) => Ok(FileContent { data, kind, version }),
                Err(e) => Err(e),
            }
        },
        _ => Err(ExportError::MalformedReport),
    }
}

} // verus!
