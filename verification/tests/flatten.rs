use coverage_metrics::entity::{
    Entry, EntryTotals, FileContent, MetricPoint, Number, Report, Serie, SerieKind, set_tags_all,
};

fn report(count: usize, covered: usize, notcovered: Option<usize>, percent: f64) -> Report {
    Report { count, covered, notcovered, percent: Number::FloatBits(percent.to_bits()) }
}

fn uniform_totals(r: Report) -> EntryTotals {
    EntryTotals { branches: r, functions: r, instantiations: r, lines: r, regions: r }
}

fn doc(entries: Vec<Entry>) -> FileContent {
    FileContent {
        data: entries,
        kind: String::from("llvm.coverage.json.export"),
        version: String::from("2.0.0"),
    }
}

fn names(series: &[Serie]) -> Vec<String> {
    series.iter().map(|s| s.name.clone()).collect()
}

#[test]
fn one_entry_all_notcovered_present_yields_twenty_points() {
    let entry = Entry { totals: uniform_totals(report(10, 5, Some(5), 50.0)) };
    let content = doc(vec![entry]);
    let series = content.metrics(1700000000, String::from("coverage"));
    assert_eq!(series.len(), 20);
}

#[test]
fn one_entry_no_notcovered_yields_fifteen_points() {
    let entry = Entry { totals: uniform_totals(report(10, 5, None, 50.0)) };
    let content = doc(vec![entry]);
    let series = content.metrics(1700000000, String::from("coverage"));
    assert_eq!(series.len(), 15);
}

#[test]
fn three_entries_all_present_yield_sixty_points() {
    let entry = Entry { totals: uniform_totals(report(4, 4, Some(0), 100.0)) };
    let content = doc(vec![entry, entry, entry]);
    let series = content.metrics(42, String::from("coverage"));
    assert_eq!(series.len(), 60);
}

#[test]
fn empty_document_yields_no_points() {
    let content = doc(vec![]);
    let series = content.metrics(42, String::from("coverage"));
    assert!(series.is_empty());
}

#[test]
fn lines_category_example_yields_expected_names_and_values() {
    let mut totals = uniform_totals(report(1, 1, Some(0), 100.0));
    totals.lines = report(100, 80, Some(20), 80.0);
    let content = doc(vec![Entry { totals }]);
    let series = content.metrics(1700000000, String::from("coverage"));

    let find = |name: &str| -> &Serie {
        series
            .iter()
            .find(|s| s.name == name)
            .unwrap_or_else(|| panic!("missing serie {name}"))
    };
    let count = find("coverage.totals.lines.count");
    assert_eq!(count.points, vec![MetricPoint {
        timestamp: 1700000000,
        value: Number::UInt(100),
    }]);
    let covered = find("coverage.totals.lines.covered");
    assert_eq!(covered.points[0].value, Number::UInt(80));
    let notcovered = find("coverage.totals.lines.notcovered");
    assert_eq!(notcovered.points[0].value, Number::UInt(20));
    let percent = find("coverage.totals.lines.percent");
    assert_eq!(percent.points[0].value, Number::FloatBits((80.0f64).to_bits()));
}

#[test]
fn omitted_notcovered_emits_only_three_lines_points() {
    let mut totals = uniform_totals(report(1, 1, Some(0), 100.0));
    totals.lines = report(100, 80, None, 80.0);
    let content = doc(vec![Entry { totals }]);
    let series = content.metrics(1700000000, String::from("coverage"));
    let lines: Vec<&Serie> =
        series.iter().filter(|s| s.name.starts_with("coverage.totals.lines.")).collect();
    assert_eq!(lines.len(), 3);
    assert!(series.iter().all(|s| s.name != "coverage.totals.lines.notcovered"));
}

#[test]
fn names_follow_fixed_category_then_field_order() {
    let entry = Entry { totals: uniform_totals(report(2, 1, Some(1), 50.0)) };
    let content = doc(vec![entry]);
    let series = content.metrics(7, String::from("cov"));
    let expected: Vec<String> = ["branches", "functions", "instantiations", "lines", "regions"]
        .iter()
        .flat_map(|c| {
            ["count", "covered", "notcovered", "percent"]
                .iter()
                .map(move |f| format!("cov.totals.{c}.{f}"))
        })
        .collect();
    assert_eq!(names(&series), expected);
}

#[test]
fn names_within_one_entry_are_distinct() {
    let entry = Entry { totals: uniform_totals(report(2, 1, Some(1), 50.0)) };
    let content = doc(vec![entry]);
    let series = content.metrics(7, String::from("coverage"));
    let mut seen = names(&series);
    seen.sort();
    seen.dedup();
    assert_eq!(seen.len(), series.len());
}

#[test]
fn flattening_twice_yields_identical_sequences() {
    let mut totals = uniform_totals(report(12, 9, Some(3), 75.0));
    totals.regions = report(8, 8, None, 100.0);
    let content = doc(vec![Entry { totals }]);
    let first = content.metrics(1700000001, String::from("coverage"));
    let second = content.metrics(1700000001, String::from("coverage"));
    assert_eq!(first, second);
}

#[test]
fn every_point_shares_timestamp_and_tags() {
    let entry = Entry { totals: uniform_totals(report(3, 2, Some(1), 66.0)) };
    let content = doc(vec![entry, entry]);
    let series = content.metrics(123456, String::from("coverage"));
    let tags = vec![String::from("project_name:demo"), String::from("branch_name:main")];
    let tagged = set_tags_all(series, &tags);
    assert_eq!(tagged.len(), 40);
    for serie in &tagged {
        assert_eq!(serie.kind, SerieKind::Gauge);
        assert_eq!(serie.points.len(), 1);
        assert_eq!(serie.points[0].timestamp, 123456);
        assert_eq!(serie.tags, tags);
    }
}

#[test]
fn empty_tag_set_is_attached_as_empty_not_error() {
    let entry = Entry { totals: uniform_totals(report(3, 2, None, 66.0)) };
    let content = doc(vec![entry]);
    let series = content.metrics(9, String::from("coverage"));
    let tagged = set_tags_all(series, &Vec::new());
    assert_eq!(tagged.len(), 15);
    for serie in &tagged {
        assert!(serie.tags.is_empty());
    }
}

#[test]
fn serie_builder_accumulates_points_and_tags() {
    let serie = Serie::new(String::from("cpu.usage"), SerieKind::Gauge)
        .add_point(MetricPoint { timestamp: 1, value: Number::UInt(3) })
        .set_tags(vec![String::from("host:box")]);
    assert_eq!(serie.name, "cpu.usage");
    assert_eq!(serie.points.len(), 1);
    assert_eq!(serie.tags, vec![String::from("host:box")]);
}

#[test]
fn identical_entries_each_yield_their_own_points() {
    let entry = Entry { totals: uniform_totals(report(5, 5, Some(0), 100.0)) };
    let content = doc(vec![entry, entry]);
    let series = content.metrics(11, String::from("coverage"));
    assert_eq!(series.len(), 40);
    let first_half = names(&series[..20]);
    let second_half = names(&series[20..]);
    assert_eq!(first_half, second_half);
}
