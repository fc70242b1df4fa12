use coverage_metrics::entity::Number;
use coverage_metrics::error::ExportError;
use coverage_metrics::json::{parse_document, parse_report, JsonValue};

fn obj(fields: Vec<(&str, JsonValue)>) -> JsonValue {
    JsonValue::Object(fields.into_iter().map(|(k, v)| (String::from(k), v)).collect())
}

fn report_node(count: u64, covered: u64, notcovered: Option<u64>, percent: f64) -> JsonValue {
    let mut fields = vec![
        ("count", JsonValue::UInt(count)),
        ("covered", JsonValue::UInt(covered)),
        ("percent", JsonValue::FloatBits(percent.to_bits())),
    ];
    if let Some(n) = notcovered {
        fields.push(("notcovered", JsonValue::UInt(n)));
    }
    obj(fields)
}

fn totals_node(r: impl Fn() -> JsonValue) -> JsonValue {
    obj(vec![
        ("branches", r()),
        ("functions", r()),
        ("instantiations", r()),
        ("lines", r()),
        ("regions", r()),
    ])
}

fn doc_node(entries: Vec<JsonValue>) -> JsonValue {
    obj(vec![
        ("data", JsonValue::Array(entries)),
        ("type", JsonValue::Str(String::from("llvm.coverage.json.export"))),
        ("version", JsonValue::Str(String::from("2.0.0"))),
    ])
}

fn entry_node(totals: JsonValue) -> JsonValue {
    obj(vec![("totals", totals)])
}

#[test]
fn valid_document_parses() {
    let node = doc_node(vec![entry_node(totals_node(|| report_node(10, 7, Some(3), 70.0)))]);
    let content = parse_document(&node).expect("document should parse");
    assert_eq!(content.kind, "llvm.coverage.json.export");
    assert_eq!(content.version, "2.0.0");
    assert_eq!(content.data.len(), 1);
    let lines = content.data[0].totals.lines;
    assert_eq!(lines.count, 10);
    assert_eq!(lines.covered, 7);
    assert_eq!(lines.notcovered, Some(3));
    assert_eq!(lines.percent, Number::FloatBits((70.0f64).to_bits()));
}

#[test]
fn integer_percent_is_kept_as_integer_number() {
    let mut fields = vec![
        ("count", JsonValue::UInt(4)),
        ("covered", JsonValue::UInt(4)),
        ("percent", JsonValue::UInt(100)),
    ];
    fields.push(("notcovered", JsonValue::UInt(0)));
    let rep = parse_report(&obj(fields)).expect("report should parse");
    assert_eq!(rep.percent, Number::UInt(100));
}

#[test]
fn missing_count_is_malformed() {
    let bad = obj(vec![
        ("covered", JsonValue::UInt(1)),
        ("percent", JsonValue::UInt(50)),
    ]);
    let mut totals = totals_node(|| report_node(1, 1, None, 100.0));
    if let JsonValue::Object(ref mut fields) = totals {
        fields[3].1 = bad;
    }
    let node = doc_node(vec![entry_node(totals)]);
    assert_eq!(parse_document(&node), Err(ExportError::MalformedReport));
}

#[test]
fn wrong_count_type_is_malformed() {
    let bad = obj(vec![
        ("count", JsonValue::Str(String::from("12"))),
        ("covered", JsonValue::UInt(1)),
        ("percent", JsonValue::UInt(50)),
    ]);
    assert_eq!(parse_report(&bad), Err(ExportError::MalformedReport));
}

#[test]
fn negative_or_fractional_count_is_malformed() {
    let bad = obj(vec![
        ("count", JsonValue::FloatBits((1.5f64).to_bits())),
        ("covered", JsonValue::UInt(1)),
        ("percent", JsonValue::UInt(50)),
    ]);
    assert_eq!(parse_report(&bad), Err(ExportError::MalformedReport));
}

#[test]
fn wrong_notcovered_type_is_malformed() {
    let bad = obj(vec![
        ("count", JsonValue::UInt(2)),
        ("covered", JsonValue::UInt(1)),
        ("percent", JsonValue::UInt(50)),
        ("notcovered", JsonValue::Bool(true)),
    ]);
    assert_eq!(parse_report(&bad), Err(ExportError::MalformedReport));
}

#[test]
fn missing_category_is_malformed() {
    let totals = obj(vec![
        ("branches", report_node(1, 1, None, 100.0)),
        ("functions", report_node(1, 1, None, 100.0)),
        ("instantiations", report_node(1, 1, None, 100.0)),
        ("lines", report_node(1, 1, None, 100.0)),
    ]);
    let node = doc_node(vec![entry_node(totals)]);
    assert_eq!(parse_document(&node), Err(ExportError::MalformedReport));
}

#[test]
fn missing_totals_is_malformed() {
    let node = doc_node(vec![obj(vec![("other", JsonValue::Null)])]);
    assert_eq!(parse_document(&node), Err(ExportError::MalformedReport));
}

#[test]
fn missing_top_level_fields_is_malformed() {
    let node = obj(vec![("data", JsonValue::Array(vec![]))]);
    assert_eq!(parse_document(&node), Err(ExportError::MalformedReport));
    let node = obj(vec![
        ("data", JsonValue::Array(vec![])),
        ("type", JsonValue::Str(String::from("t"))),
        ("version", JsonValue::UInt(2)),
    ]);
    assert_eq!(parse_document(&node), Err(ExportError::MalformedReport));
}

#[test]
fn non_object_document_is_malformed() {
    assert_eq!(parse_document(&JsonValue::Null), Err(ExportError::MalformedReport));
    assert_eq!(
        parse_document(&JsonValue::Array(vec![])),
        Err(ExportError::MalformedReport)
    );
}

#[test]
fn empty_data_array_parses_to_empty_document() {
    let node = doc_node(vec![]);
    let content = parse_document(&node).expect("document should parse");
    assert!(content.data.is_empty());
}

#[test]
fn unknown_fields_are_ignored() {
    let mut rep = report_node(3, 2, None, 66.6);
    if let JsonValue::Object(ref mut fields) = rep {
        fields.push((String::from("files"), JsonValue::Null));
    }
    let parsed = parse_report(&rep).expect("report should parse");
    assert_eq!(parsed.count, 3);
    assert_eq!(parsed.notcovered, None);
}

#[test]
fn inconsistent_statistics_pass_through_unvalidated() {
    let rep = report_node(10, 25, Some(1), 250.0);
    let parsed = parse_report(&rep).expect("report should parse");
    assert_eq!(parsed.covered, 25);
    assert_eq!(parsed.percent, Number::FloatBits((250.0f64).to_bits()));
}

#[test]
fn first_binding_of_a_duplicated_key_wins() {
    let rep = obj(vec![
        ("count", JsonValue::UInt(1)),
        ("count", JsonValue::UInt(9)),
        ("covered", JsonValue::UInt(1)),
        ("percent", JsonValue::UInt(100)),
    ]);
    let parsed = parse_report(&rep).expect("report should parse");
    assert_eq!(parsed.count, 1);
}
