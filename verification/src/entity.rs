//! The coverage data model and the flattener.
//!
//! A parsed document ([`FileContent`]) holds a sequence of entries, each with
//! totals for five fixed categories; flattening expands every entry into one
//! gauge serie per category field, named `{base}.totals.{category}.{field}`,
//! all sharing one run timestamp.

use vstd::prelude::*;

verus! {

/// A numeric metric value. Integer counts widen losslessly to floating point
/// at the wire boundary; `FloatBits` carries an IEEE-754 double as its raw
/// bit pattern, so the verified core never computes with floating point.
#[derive(Clone, Copy, Debug, PartialEq, Eq)]
pub enum Number {
    UInt(u64),
    FloatBits(u64),
}

/// One timestamped observation inside a serie.
#[derive(Clone, Copy, Debug, PartialEq, Eq)]
pub struct MetricPoint {
    pub timestamp: u64,
    pub value: Number,
}

/// The metric semantic: everything this tool emits is a gauge, an
/// instantaneous value rather than a counter or rate.
#[derive(Clone, Copy, Debug, PartialEq, Eq)]
pub enum SerieKind {
    Gauge,
}

/// A named, typed, tagged time series carrying its points.
#[derive(Debug, PartialEq, Eq)]
pub struct Serie {
    pub name: String,
    pub kind: SerieKind,
    pub points: Vec<MetricPoint>,
    pub tags: Vec<String>,
}

/// The mathematical value of a [`Serie`].
#[verifier::ext_equal]
pub struct SerieView {
    pub name: Seq<char>,
    pub kind: SerieKind,
    pub points: Seq<MetricPoint>,
    pub tags: Seq<Seq<char>>,
}

impl View for Serie {
    type V = SerieView;

    open spec fn view(&self) -> SerieView {
        SerieView {
            name: self.name@,
            kind: self.kind,
            points: self.points@,
            tags: self.tags.deep_view(),
        }
    }
}

impl DeepView for Serie {
    type V = SerieView;

    open spec fn deep_view(&self) -> SerieView {
        self.view()
    }
}

impl Serie {
    /// A fresh serie with the given name and kind, no points and no tags.
    pub fn new(name: String, kind: SerieKind) -> (r: Serie)
        ensures
            r@ == (SerieView {
                name: name@,
                kind,
                points: Seq::<MetricPoint>::empty(),
                tags: Seq::<Seq<char>>::empty(),
            }),
    {
        let r = Serie { name, kind, points: Vec::new(), tags: Vec::new() };
        proof {
            assert(r.tags.deep_view() =~= Seq::<Seq<char>>::empty());
        }
        r
    }

    /// Appends one point to the serie.
    pub fn add_point(self, point: MetricPoint) -> (r: Serie)
        ensures
            r@ == (SerieView { points: self@.points.push(point), ..self@ }),
    {
        let mut s = self;
        s.points.push(point);
        s
    }

    /// Replaces the serie's tag set.
    pub fn set_tags(self, tags: Vec<String>) -> (r: Serie)
        ensures
            r@ == (SerieView { tags: tags.deep_view(), ..self@ }),
    {
        Serie { tags, ..self }
    }
}

/// One coverage statistic: how many units exist and how many are covered.
/// Real reports satisfy `covered <= count` and keep `percent` within
/// `[0, 100]`, but neither is validated here: values pass through as given.
#[derive(Clone, Copy, Debug, PartialEq, Eq)]
pub struct Report {
    pub count: usize,
    pub covered: usize,
    pub notcovered: Option<usize>,
    pub percent: Number,
}

/// The totals of one entry: exactly these five categories, all required.
#[derive(Clone, Copy, Debug, PartialEq, Eq)]
pub struct EntryTotals {
    pub branches: Report,
    pub functions: Report,
    pub instantiations: Report,
    pub lines: Report,
    pub regions: Report,
}

/// One unit of coverage (for example one file or module).
#[derive(Clone, Copy, Debug, PartialEq, Eq)]
pub struct Entry {
    pub totals: EntryTotals,
}

/// The root of a parsed coverage document.
#[derive(Debug, PartialEq, Eq)]
pub struct FileContent {
    pub data: Vec<Entry>,
    pub kind: String,
    pub version: String,
}

/// The mathematical value of a [`FileContent`].
#[verifier::ext_equal]
pub struct FileContentView {
    pub data: Seq<Entry>,
    pub kind: Seq<char>,
    pub version: Seq<char>,
}

impl View for FileContent {
    type V = FileContentView;

    open spec fn view(&self) -> FileContentView {
        FileContentView { data: self.data@, kind: self.kind@, version: self.version@ }
    }
}

impl DeepView for FileContent {
    type V = FileContentView;

    open spec fn deep_view(&self) -> FileContentView {
        self.view()
    }
}

/// An untagged gauge serie holding exactly one point.
pub open spec fn gauge_serie(name: Seq<char>, ts: u64, value: Number) -> SerieView {
    SerieView {
        name,
        kind: SerieKind::Gauge,
        points: seq![MetricPoint { timestamp: ts, value }],
        tags: Seq::<Seq<char>>::empty(),
    }
}

/// The series one report expands to: `count` and `covered` always,
/// `notcovered` only when present, `percent` last, in that order.
pub open spec fn report_series(r: Report, ts: u64, base: Seq<char>) -> Seq<SerieView> {
    seq![
        gauge_serie(base + ".count"@, ts, Number::UInt(r.count as u64)),
        gauge_serie(base + ".covered"@, ts, Number::UInt(r.covered as u64)),
    ] + (match r.notcovered {
        Some(n) => seq![gauge_serie(base + ".notcovered"@, ts, Number::UInt(n as u64))],
        None => Seq::<SerieView>::empty(),
    }) + seq![gauge_serie(base + ".percent"@, ts, r.percent)]
}

/// The series one entry's totals expand to, in fixed category order.
pub open spec fn totals_series(t: EntryTotals, ts: u64, base: Seq<char>) -> Seq<SerieView> {
    report_series(t.branches, ts, base + ".branches"@)
        + report_series(t.functions, ts, base + ".functions"@)
        + report_series(t.instantiations, ts, base + ".instantiations"@)
        + report_series(t.lines, ts, base + ".lines"@)
        + report_series(t.regions, ts, base + ".regions"@)
}

/// The series a whole document expands to, in entry order.
pub open spec fn entries_series(es: Seq<Entry>, ts: u64, base: Seq<char>) -> Seq<SerieView>
    decreases es.len(),
{
    if es.len() == 0 {
        Seq::<SerieView>::empty()
    } else {
        totals_series(es[0].totals, ts, base + ".totals"@) + entries_series(
            es.drop_first(),
            ts,
            base,
        )
    }
}

impl Report {
    /// Appends this report's series to `result`, under the given name base.
    pub fn add_metrics(&self, ts: u64, base: String, result: &mut Vec<Serie>)
        ensures
            final(result).deep_view() == old(result).deep_view() + report_series(
                *self,
                ts,
                base@,
            ),
    {
        let ghost pre = result.deep_view();
        let mut name_count = base.clone();
        name_count.append(".count");
        result.push(
            Serie::new(name_count, SerieKind::Gauge).add_point(
                MetricPoint { timestamp: ts, value: Number::UInt(self.count as u64) },
            ),
        );
        let mut name_covered = base.clone();
        name_covered.append(".covered");
        result.push(
            Serie::new(name_covered, SerieKind::Gauge).add_point(
                MetricPoint { timestamp: ts, value: Number::UInt(self.covered as u64) },
            ),
        );
        if let Some(notcovered) = self.notcovered {
            let mut name_notcovered = base.clone();
            name_notcovered.append(".notcovered");
            result.push(
                Serie::new(name_notcovered, SerieKind::Gauge).add_point(
                    MetricPoint { timestamp: ts, value: Number::UInt(notcovered as u64) },
                ),
            );
        }
        let mut name_percent = base.clone();
        name_percent.append(".percent");
        result.push(
            Serie::new(name_percent, SerieKind::Gauge).add_point(
                MetricPoint { timestamp: ts, value: self.percent },
            ),
        );
        proof {
            assert(result.deep_view() =~~= pre + report_series(*self, ts, base@));
        }
    }
}

impl EntryTotals {
    /// Appends the series of all five categories, in fixed category order.
    pub fn add_metrics(&self, ts: u64, base: String, result: &mut Vec<Serie>)
        ensures
            final(result).deep_view() == old(result).deep_view() + totals_series(
                *self,
                ts,
                base@,
            ),
    {
        let ghost pre = result.deep_view();
        let mut name_branches = base.clone();
        name_branches.append(".branches");
        self.branches.add_metrics(ts, name_branches, result);
        let mut name_functions = base.clone();
        name_functions.append(".functions");
        self.functions.add_metrics(ts, name_functions, result);
        let mut name_instantiations = base.clone();
        name_instantiations.append(".instantiations");
        self.instantiations.add_metrics(ts, name_instantiations, result);
        let mut name_lines = base.clone();
        name_lines.append(".lines");
        self.lines.add_metrics(ts, name_lines, result);
        let mut name_regions = base.clone();
        name_regions.append(".regions");
        self.regions.add_metrics(ts, name_regions, result);
        proof {
            assert(result.deep_view() =~~= pre + totals_series(*self, ts, base@));
        }
    }
}

/// Appending one entry extends the flattened sequence by that entry's series.
proof fn lemma_entries_series_push(es: Seq<Entry>, e: Entry, ts: u64, base: Seq<char>)
    ensures
        entries_series(es.push(e), ts, base) == entries_series(es, ts, base) + totals_series(
            e.totals,
            ts,
            base + ".totals"@,
        ),
    decreases es.len(),
{
    if es.len() == 0 {
        assert(es.push(e)[0] == e);
        assert(es.push(e).drop_first() =~= Seq::<Entry>::empty());
        assert(entries_series(Seq::<Entry>::empty(), ts, base) == Seq::<SerieView>::empty());
        assert(es =~= Seq::<Entry>::empty());
        assert(entries_series(es.push(e), ts, base) == totals_series(
            e.totals,
            ts,
            base + ".totals"@,
        ) + entries_series(Seq::<Entry>::empty(), ts, base));
        assert(entries_series(es.push(e), ts, base) =~= entries_series(es, ts, base)
            + totals_series(e.totals, ts, base + ".totals"@));
    } else {
        lemma_entries_series_push(es.drop_first(), e, ts, base);
        assert(es.push(e)[0] == es[0]);
        assert(es.push(e).drop_first() =~= es.drop_first().push(e));
        assert(entries_series(es.push(e), ts, base) == totals_series(
            es[0].totals,
            ts,
            base + ".totals"@,
        ) + entries_series(es.drop_first().push(e), ts, base));
        assert(entries_series(es.push(e), ts, base) =~= entries_series(es, ts, base)
            + totals_series(e.totals, ts, base + ".totals"@));
    }
}

impl FileContent {
    /// Flattens the whole document into a batch of untagged gauge series,
    /// one point each, all sharing the run timestamp `ts`. The result is a
    /// pure function of the document, the timestamp and the base name, so
    /// flattening the same document twice yields the identical sequence.
    pub fn metrics(&self, ts: u64, base: String) -> (r: Vec<Serie>)
        ensures
            r.deep_view() == entries_series(self@.data, ts, base@),
    {
        let mut result: Vec<Serie> = Vec::new();
        let mut i: usize = 0;
        while i < self.data.len()
            invariant
                i <= self.data.len(),
                result.deep_view() == entries_series(self.data@.take(i as int), ts, base@),
            decreases self.data.len() - i,
        {
            let mut entry_base = base.clone();
            entry_base.append(".totals");
            proof {
                lemma_entries_series_push(self.data@.take(i as int), self.data@[i as int], ts, base@);
                assert(self.data@.take(i as int).push(self.data@[i as int]) =~= self.data@.take(
                    i as int + 1,
                ));
            }
            self.data[i].totals.add_metrics(ts, entry_base, &mut result);
            i += 1;
        }
        proof {
            assert(self.data@.take(self.data@.len() as int) =~= self.data@);
        }
        result
    }
}

/// Law: flattening is deterministic — two runs over the same entries with
/// the same timestamp and base name yield the identical, order-preserving
/// sequence. Together with the postcondition of [`FileContent::metrics`],
/// which pins each run's result to `entries_series`, this makes repeated
/// flattening idempotent.
pub proof fn lemma_flatten_deterministic(
    d1: FileContentView,
    d2: FileContentView,
    ts1: u64,
    ts2: u64,
    base1: Seq<char>,
    base2: Seq<char>,
)
    requires
        d1.data == d2.data,
        ts1 == ts2,
        base1 == base2,
    ensures
        entries_series(d1.data, ts1, base1) == entries_series(d2.data, ts2, base2),
{
}

/// Every serie of `series` with its tag set replaced by `tags`.
pub open spec fn with_tags(series: Seq<SerieView>, tags: Seq<Seq<char>>) -> Seq<SerieView> {
    series.map_values(|s: SerieView| SerieView { tags, ..s })
}

/// Attaches the shared run tag set to every serie of the batch, keeping
/// order, names, kinds and points unchanged.
pub fn set_tags_all(series: Vec<Serie>, tags: &Vec<String>) -> (r: Vec<Serie>)
    ensures
        r.deep_view() == with_tags(series.deep_view(), tags.deep_view()),
{
    let ghost orig = series@;
    let mut rest = series;
    let mut result: Vec<Serie> = Vec::new();
    let ghost mut i: int = 0;
    while rest.len() > 0
        invariant
            0 <= i,
            i + rest@.len() == orig.len(),
            rest@ =~= orig.skip(i),
            result.deep_view() =~= with_tags(
                orig.take(i).map_values(|s: Serie| s@),
                tags.deep_view(),
            ),
        decreases rest@.len(),
    {
        let ghost pre = result.deep_view();
        let s = rest.remove(0);
        proof {
            assert(s == orig[i]);
        }
        let shared = clone_tags(tags);
        let tagged = s.set_tags(shared);
        proof {
            assert(tagged@ == (SerieView { tags: tags.deep_view(), ..orig[i]@ }));
        }
        result.push(tagged);
        proof {
            assert(result.deep_view() =~~= pre.push(tagged@));
            assert(orig.take(i + 1) =~= orig.take(i).push(orig[i]));
            assert(orig.take(i + 1).map_values(|x: Serie| x@) =~= orig.take(i).map_values(
                |x: Serie| x@,
            ).push(orig[i]@));
            assert(with_tags(orig.take(i).map_values(|x: Serie| x@).push(orig[i]@), tags.deep_view())
                =~= with_tags(orig.take(i).map_values(|x: Serie| x@), tags.deep_view()).push(
                (SerieView { tags: tags.deep_view(), ..orig[i]@ }),
            ));
            i = i + 1;
        }
    }
    proof {
        assert(orig.take(orig.len() as int) =~= orig);
        assert(orig.map_values(|s: Serie| s@) =~= Seq::new(orig.len(), |j: int| orig[j].deep_view()));
        assert(result.deep_view() =~= with_tags(series.deep_view(), tags.deep_view()));
    }
    result
}

/// The five fixed coverage categories, in their fixed emission order.
#[derive(Clone, Copy, Debug, PartialEq, Eq)]
pub enum Category {
    Branches,
    Functions,
    Instantiations,
    Lines,
    Regions,
}

/// The four fields a category can emit, in their fixed emission order.
#[derive(Clone, Copy, Debug, PartialEq, Eq)]
pub enum FieldName {
    Count,
    Covered,
    NotCovered,
    Percent,
}

/// The name fragment a category contributes.
pub open spec fn cat_suffix(c: Category) -> Seq<char> {
    match c {
        Category::Branches => ".branches"@,
        Category::Functions => ".functions"@,
        Category::Instantiations => ".instantiations"@,
        Category::Lines => ".lines"@,
        Category::Regions => ".regions"@,
    }
}

/// The name fragment a field contributes.
pub open spec fn field_suffix(f: FieldName) -> Seq<char> {
    match f {
        FieldName::Count => ".count"@,
        FieldName::Covered => ".covered"@,
        FieldName::NotCovered => ".notcovered"@,
        FieldName::Percent => ".percent"@,
    }
}

/// The full name `{base}.totals.{category}.{field}` of one serie.
pub open spec fn serie_name(base: Seq<char>, c: Category, f: FieldName) -> Seq<char> {
    base + ".totals"@ + cat_suffix(c) + field_suffix(f)
}

/// A fresh copy of the tag vector with the same tag values.
fn clone_tags(tags: &Vec<String>) -> (r: Vec<String>)
    ensures
        r.deep_view() == tags.deep_view(),
{
    let mut r: Vec<String> = Vec::new();
    let mut i: usize = 0;
    while i < tags.len()
        invariant
            i <= tags.len(),
            r.deep_view() == tags.deep_view().take(i as int),
        decreases tags.len() - i,
    {
        let ghost pre = r.deep_view();
        let t = tags[i].clone();
        proof {
            assert(t@ == tags@[i as int]@);
        }
        r.push(t);
        proof {
            assert(r.deep_view() =~~= pre.push(t@));
            assert(tags.deep_view().take(i as int + 1) =~= tags.deep_view().take(i as int).push(
                tags@[i as int]@,
            ));
        }
        i += 1;
    }
    proof {
        assert(tags.deep_view().take(tags@.len() as int) =~= tags.deep_view());
    }
    r
}

/// Every report of every entry carries a `notcovered` value.
pub open spec fn all_notcovered_present(es: Seq<Entry>) -> bool {
    forall|i: int|
        0 <= i < es.len() ==> {
            let t = #[trigger] es[i].totals;
            &&& t.branches.notcovered is Some
            &&& t.functions.notcovered is Some
            &&& t.instantiations.notcovered is Some
            &&& t.lines.notcovered is Some
            &&& t.regions.notcovered is Some
        }
}

/// No report of any entry carries a `notcovered` value.
pub open spec fn all_notcovered_absent(es: Seq<Entry>) -> bool {
    forall|i: int|
        0 <= i < es.len() ==> {
            let t = #[trigger] es[i].totals;
            &&& t.branches.notcovered is None
            &&& t.functions.notcovered is None
            &&& t.instantiations.notcovered is None
            &&& t.lines.notcovered is None
            &&& t.regions.notcovered is None
        }
}

/// Law: the size of the flattened batch is determined by the input shape
/// alone — four series per category and entry when every report carries
/// `notcovered`, three when none does, over five categories.
pub proof fn lemma_point_count(es: Seq<Entry>, ts: u64, base: Seq<char>)
    ensures
        all_notcovered_present(es) ==> entries_series(es, ts, base).len() == 20 * es.len(),
        all_notcovered_absent(es) ==> entries_series(es, ts, base).len() == 15 * es.len(),
    decreases es.len(),
{
    if es.len() == 0 {
    } else {
        lemma_point_count(es.drop_first(), ts, base);
        if all_notcovered_present(es) {
            assert forall|i: int| 0 <= i < es.drop_first().len() implies {
                let t = #[trigger] es.drop_first()[i].totals;
                &&& t.branches.notcovered is Some
                &&& t.functions.notcovered is Some
                &&& t.instantiations.notcovered is Some
                &&& t.lines.notcovered is Some
                &&& t.regions.notcovered is Some
            } by {
                assert(es.drop_first()[i] == es[i + 1]);
            }
            assert(all_notcovered_present(es.drop_first()));
            assert(totals_series(es[0].totals, ts, base + ".totals"@).len() == 20);
        }
        if all_notcovered_absent(es) {
            assert forall|i: int| 0 <= i < es.drop_first().len() implies {
                let t = #[trigger] es.drop_first()[i].totals;
                &&& t.branches.notcovered is None
                &&& t.functions.notcovered is None
                &&& t.instantiations.notcovered is None
                &&& t.lines.notcovered is None
                &&& t.regions.notcovered is None
            } by {
                assert(es.drop_first()[i] == es[i + 1]);
            }
            assert(all_notcovered_absent(es.drop_first()));
            assert(totals_series(es[0].totals, ts, base + ".totals"@).len() == 15);
        }
    }
}

/// Each serie is a gauge holding exactly one point at the shared run
/// timestamp, and carries exactly the shared tag set.
pub open spec fn batch_uniform(series: Seq<SerieView>, ts: u64, tags: Seq<Seq<char>>) -> bool {
    forall|i: int|
        0 <= i < series.len() ==> {
            &&& (#[trigger] series[i]).kind == SerieKind::Gauge
            &&& series[i].points.len() == 1
            &&& series[i].points[0].timestamp == ts
            &&& series[i].tags == tags
        }
}

proof fn lemma_uniform_concat(a: Seq<SerieView>, b: Seq<SerieView>, ts: u64, tags: Seq<Seq<char>>)
    requires
        batch_uniform(a, ts, tags),
        batch_uniform(b, ts, tags),
    ensures
        batch_uniform(a + b, ts, tags),
{
    assert forall|i: int| 0 <= i < (a + b).len() implies {
        &&& (#[trigger] (a + b)[i]).kind == SerieKind::Gauge
        &&& (a + b)[i].points.len() == 1
        &&& (a + b)[i].points[0].timestamp == ts
        &&& (a + b)[i].tags == tags
    } by {
        if i < a.len() {
            assert((a + b)[i] == a[i]);
        } else {
            assert((a + b)[i] == b[i - a.len()]);
        }
    }
}

proof fn lemma_report_uniform(r: Report, ts: u64, b: Seq<char>)
    ensures
        batch_uniform(report_series(r, ts, b), ts, Seq::<Seq<char>>::empty()),
{
}

proof fn lemma_totals_uniform(t: EntryTotals, ts: u64, b: Seq<char>)
    ensures
        batch_uniform(totals_series(t, ts, b), ts, Seq::<Seq<char>>::empty()),
{
    let no_tags = Seq::<Seq<char>>::empty();
    lemma_report_uniform(t.branches, ts, b + ".branches"@);
    lemma_report_uniform(t.functions, ts, b + ".functions"@);
    lemma_report_uniform(t.instantiations, ts, b + ".instantiations"@);
    lemma_report_uniform(t.lines, ts, b + ".lines"@);
    lemma_report_uniform(t.regions, ts, b + ".regions"@);
    let s1 = report_series(t.branches, ts, b + ".branches"@);
    let s2 = report_series(t.functions, ts, b + ".functions"@);
    let s3 = report_series(t.instantiations, ts, b + ".instantiations"@);
    let s4 = report_series(t.lines, ts, b + ".lines"@);
    let s5 = report_series(t.regions, ts, b + ".regions"@);
    lemma_uniform_concat(s1, s2, ts, no_tags);
    lemma_uniform_concat(s1 + s2, s3, ts, no_tags);
    lemma_uniform_concat(s1 + s2 + s3, s4, ts, no_tags);
    lemma_uniform_concat(s1 + s2 + s3 + s4, s5, ts, no_tags);
}

proof fn lemma_entries_uniform(es: Seq<Entry>, ts: u64, base: Seq<char>)
    ensures
        batch_uniform(entries_series(es, ts, base), ts, Seq::<Seq<char>>::empty()),
    decreases es.len(),
{
    if es.len() == 0 {
    } else {
        lemma_entries_uniform(es.drop_first(), ts, base);
        lemma_totals_uniform(es[0].totals, ts, base + ".totals"@);
        lemma_uniform_concat(
            totals_series(es[0].totals, ts, base + ".totals"@),
            entries_series(es.drop_first(), ts, base),
            ts,
            Seq::<Seq<char>>::empty(),
        );
    }
}

/// Equal sequences that share a prefix have equal remainders.
proof fn lemma_append_left_cancel(a: Seq<char>, x: Seq<char>, y: Seq<char>)
    requires
        a + x == a + y,
    ensures
        x == y,
{
    assert((a + x).len() == a.len() + x.len());
    assert((a + y).len() == a.len() + y.len());
    assert(x.len() == y.len());
    assert forall|k: int| 0 <= k < x.len() implies x[k] == y[k] by {
        assert((a + x)[a.len() + k] == x[k]);
        assert((a + y)[a.len() + k] == y[k]);
    }
    assert(x =~= y);
}

/// The name follows the `{base}.totals.{category}.{field}` scheme.
pub open spec fn name_in_scheme(name: Seq<char>, base: Seq<char>) -> bool {
    exists|c: Category, f: FieldName| name == serie_name(base, c, f)
}

proof fn lemma_report_names(r: Report, ts: u64, b: Seq<char>)
    ensures
        forall|i: int|
            0 <= i < report_series(r, ts, b).len() ==> exists|f: FieldName|
                (#[trigger] report_series(r, ts, b)[i]).name == b + field_suffix(f),
{
    let s = report_series(r, ts, b);
    assert forall|i: int| 0 <= i < s.len() implies exists|f: FieldName| (#[trigger] s[i]).name == b
        + field_suffix(f) by {
        if i == 0 {
            assert(s[0].name == b + field_suffix(FieldName::Count));
        } else if i == 1 {
            assert(s[1].name == b + field_suffix(FieldName::Covered));
        } else if r.notcovered is Some && i == 2 {
            assert(s[2].name == b + field_suffix(FieldName::NotCovered));
        } else if r.notcovered is Some {
            assert(s[3].name == b + field_suffix(FieldName::Percent));
        } else {
            assert(s[2].name == b + field_suffix(FieldName::Percent));
        }
    }
}

proof fn lemma_totals_names(t: EntryTotals, ts: u64, base: Seq<char>)
    ensures
        forall|i: int|
            0 <= i < totals_series(t, ts, base + ".totals"@).len() ==> name_in_scheme(
                (#[trigger] totals_series(t, ts, base + ".totals"@)[i]).name,
                base,
            ),
{
    let tb = base + ".totals"@;
    let s = totals_series(t, ts, tb);
    let s1 = report_series(t.branches, ts, tb + ".branches"@);
    let s2 = report_series(t.functions, ts, tb + ".functions"@);
    let s3 = report_series(t.instantiations, ts, tb + ".instantiations"@);
    let s4 = report_series(t.lines, ts, tb + ".lines"@);
    let s5 = report_series(t.regions, ts, tb + ".regions"@);
    lemma_report_names(t.branches, ts, tb + ".branches"@);
    lemma_report_names(t.functions, ts, tb + ".functions"@);
    lemma_report_names(t.instantiations, ts, tb + ".instantiations"@);
    lemma_report_names(t.lines, ts, tb + ".lines"@);
    lemma_report_names(t.regions, ts, tb + ".regions"@);
    assert forall|i: int| 0 <= i < s.len() implies name_in_scheme((#[trigger] s[i]).name, base) by {
        if i < s1.len() {
            assert(s[i] == s1[i]);
            let f = choose|f: FieldName| s1[i].name == (tb + ".branches"@) + field_suffix(f);
            assert(s[i].name == serie_name(base, Category::Branches, f));
        } else if i < s1.len() + s2.len() {
            assert(s[i] == s2[i - s1.len()]);
            let f = choose|f: FieldName|
                s2[i - s1.len()].name == (tb + ".functions"@) + field_suffix(f);
            assert(s[i].name == serie_name(base, Category::Functions, f));
        } else if i < s1.len() + s2.len() + s3.len() {
            assert(s[i] == s3[i - s1.len() - s2.len()]);
            let f = choose|f: FieldName|
                s3[i - s1.len() - s2.len()].name == (tb + ".instantiations"@) + field_suffix(f);
            assert(s[i].name == serie_name(base, Category::Instantiations, f));
        } else if i < s1.len() + s2.len() + s3.len() + s4.len() {
            assert(s[i] == s4[i - s1.len() - s2.len() - s3.len()]);
            let f = choose|f: FieldName|
                s4[i - s1.len() - s2.len() - s3.len()].name == (tb + ".lines"@) + field_suffix(f);
            assert(s[i].name == serie_name(base, Category::Lines, f));
        } else {
            assert(s[i] == s5[i - s1.len() - s2.len() - s3.len() - s4.len()]);
            let f = choose|f: FieldName|
                s5[i - s1.len() - s2.len() - s3.len() - s4.len()].name == (tb + ".regions"@)
                    + field_suffix(f);
            assert(s[i].name == serie_name(base, Category::Regions, f));
        }
    }
}

/// Law: no other names are ever produced — every serie of a flattened
/// document is named `{base}.totals.{category}.{field}` for one of the five
/// fixed categories and four fixed fields.
pub proof fn lemma_names_in_scheme(es: Seq<Entry>, ts: u64, base: Seq<char>)
    ensures
        forall|i: int|
            0 <= i < entries_series(es, ts, base).len() ==> name_in_scheme(
                (#[trigger] entries_series(es, ts, base)[i]).name,
                base,
            ),
    decreases es.len(),
{
    if es.len() == 0 {
    } else {
        lemma_names_in_scheme(es.drop_first(), ts, base);
        lemma_totals_names(es[0].totals, ts, base);
        let head = totals_series(es[0].totals, ts, base + ".totals"@);
        let tail = entries_series(es.drop_first(), ts, base);
        let s = entries_series(es, ts, base);
        assert forall|i: int| 0 <= i < s.len() implies name_in_scheme(
            (#[trigger] s[i]).name,
            base,
        ) by {
            if i < head.len() {
                assert(s[i] == head[i]);
            } else {
                assert(s[i] == tail[i - head.len()]);
            }
        }
    }
}

/// Law: the naming scheme is injective — under one base, distinct
/// category/field pairs always give distinct names.
pub proof fn lemma_serie_name_injective(
    base: Seq<char>,
    c1: Category,
    f1: FieldName,
    c2: Category,
    f2: FieldName,
)
    ensures
        serie_name(base, c1, f1) == serie_name(base, c2, f2) ==> c1 == c2 && f1 == f2,
{
    reveal_strlit(".totals");
    reveal_strlit(".branches");
    reveal_strlit(".functions");
    reveal_strlit(".instantiations");
    reveal_strlit(".lines");
    reveal_strlit(".regions");
    reveal_strlit(".count");
    reveal_strlit(".covered");
    reveal_strlit(".notcovered");
    reveal_strlit(".percent");
    if serie_name(base, c1, f1) == serie_name(base, c2, f2) {
        let tb = base + ".totals"@;
        let n1 = (tb + cat_suffix(c1)) + field_suffix(f1);
        let n2 = (tb + cat_suffix(c2)) + field_suffix(f2);
        assert(n1 == n2);
        assert(cat_suffix(c1).len() >= 6);
        assert(cat_suffix(c2).len() >= 6);
        assert(n1[tb.len() as int + 1] == (tb + cat_suffix(c1))[tb.len() as int + 1]);
        assert((tb + cat_suffix(c1))[tb.len() as int + 1] == cat_suffix(c1)[1]);
        assert(n2[tb.len() as int + 1] == (tb + cat_suffix(c2))[tb.len() as int + 1]);
        assert((tb + cat_suffix(c2))[tb.len() as int + 1] == cat_suffix(c2)[1]);
        if c1 != c2 {
            assert(cat_suffix(c1)[1] != cat_suffix(c2)[1]);
            assert(false);
        }
        lemma_append_left_cancel(tb + cat_suffix(c1), field_suffix(f1), field_suffix(f2));
        if f1 != f2 {
            assert(field_suffix(FieldName::Count).len() == 6);
            assert(field_suffix(FieldName::Covered).len() == 8);
            assert(field_suffix(FieldName::NotCovered).len() == 11);
            assert(field_suffix(FieldName::Percent).len() == 8);
            assert(field_suffix(FieldName::Covered)[1] == 'c');
            assert(field_suffix(FieldName::Percent)[1] == 'p');
            assert(false);
        }
    }
}

/// The category/field pair emitted at position `i` of one entry's series
/// when every report carries `notcovered` (four fields per category).
pub open spec fn pair_at_full(i: int) -> (Category, FieldName) {
    let c = if i < 4 {
        Category::Branches
    } else if i < 8 {
        Category::Functions
    } else if i < 12 {
        Category::Instantiations
    } else if i < 16 {
        Category::Lines
    } else {
        Category::Regions
    };
    let k = i % 4;
    let f = if k == 0 {
        FieldName::Count
    } else if k == 1 {
        FieldName::Covered
    } else if k == 2 {
        FieldName::NotCovered
    } else {
        FieldName::Percent
    };
    (c, f)
}

/// The category/field pair emitted at position `i` of one entry's series
/// when no report carries `notcovered` (three fields per category).
pub open spec fn pair_at_short(i: int) -> (Category, FieldName) {
    let c = if i < 3 {
        Category::Branches
    } else if i < 6 {
        Category::Functions
    } else if i < 9 {
        Category::Instantiations
    } else if i < 12 {
        Category::Lines
    } else {
        Category::Regions
    };
    let k = i % 3;
    let f = if k == 0 {
        FieldName::Count
    } else if k == 1 {
        FieldName::Covered
    } else {
        FieldName::Percent
    };
    (c, f)
}

proof fn lemma_report_series_index(r: Report, ts: u64, b: Seq<char>)
    ensures
        r.notcovered is Some ==> {
            let s = report_series(r, ts, b);
            &&& s.len() == 4
            &&& s[0].name == b + field_suffix(FieldName::Count)
            &&& s[1].name == b + field_suffix(FieldName::Covered)
            &&& s[2].name == b + field_suffix(FieldName::NotCovered)
            &&& s[3].name == b + field_suffix(FieldName::Percent)
        },
        r.notcovered is None ==> {
            let s = report_series(r, ts, b);
            &&& s.len() == 3
            &&& s[0].name == b + field_suffix(FieldName::Count)
            &&& s[1].name == b + field_suffix(FieldName::Covered)
            &&& s[2].name == b + field_suffix(FieldName::Percent)
        },
{
}

/// Law: an entry whose five reports all carry `notcovered` emits exactly the
/// twenty scheme names, in fixed category-then-field order.
pub proof fn lemma_entry_names_full(t: EntryTotals, ts: u64, base: Seq<char>)
    requires
        t.branches.notcovered is Some,
        t.functions.notcovered is Some,
        t.instantiations.notcovered is Some,
        t.lines.notcovered is Some,
        t.regions.notcovered is Some,
    ensures
        totals_series(t, ts, base + ".totals"@).len() == 20,
        forall|i: int|
            0 <= i < 20 ==> (#[trigger] totals_series(t, ts, base + ".totals"@)[i]).name
                == serie_name(base, pair_at_full(i).0, pair_at_full(i).1),
{
    let tb = base + ".totals"@;
    let s = totals_series(t, ts, tb);
    let s1 = report_series(t.branches, ts, tb + ".branches"@);
    let s2 = report_series(t.functions, ts, tb + ".functions"@);
    let s3 = report_series(t.instantiations, ts, tb + ".instantiations"@);
    let s4 = report_series(t.lines, ts, tb + ".lines"@);
    let s5 = report_series(t.regions, ts, tb + ".regions"@);
    lemma_report_series_index(t.branches, ts, tb + ".branches"@);
    lemma_report_series_index(t.functions, ts, tb + ".functions"@);
    lemma_report_series_index(t.instantiations, ts, tb + ".instantiations"@);
    lemma_report_series_index(t.lines, ts, tb + ".lines"@);
    lemma_report_series_index(t.regions, ts, tb + ".regions"@);
    assert forall|i: int| 0 <= i < 20 implies (#[trigger] s[i]).name == serie_name(
        base,
        pair_at_full(i).0,
        pair_at_full(i).1,
    ) by {
        if i < 4 {
            assert(s[i] == s1[i]);
            assert(i % 4 == i);
        } else if i < 8 {
            assert(s[i] == s2[i - 4]);
            assert(i % 4 == i - 4);
        } else if i < 12 {
            assert(s[i] == s3[i - 8]);
            assert(i % 4 == i - 8);
        } else if i < 16 {
            assert(s[i] == s4[i - 12]);
            assert(i % 4 == i - 12);
        } else {
            assert(s[i] == s5[i - 16]);
            assert(i % 4 == i - 16);
        }
    }
}

/// Law: an entry with no `notcovered` anywhere emits exactly the fifteen
/// scheme names without the `notcovered` field, in the same fixed order.
pub proof fn lemma_entry_names_short(t: EntryTotals, ts: u64, base: Seq<char>)
    requires
        t.branches.notcovered is None,
        t.functions.notcovered is None,
        t.instantiations.notcovered is None,
        t.lines.notcovered is None,
        t.regions.notcovered is None,
    ensures
        totals_series(t, ts, base + ".totals"@).len() == 15,
        forall|i: int|
            0 <= i < 15 ==> (#[trigger] totals_series(t, ts, base + ".totals"@)[i]).name
                == serie_name(base, pair_at_short(i).0, pair_at_short(i).1),
{
    let tb = base + ".totals"@;
    let s = totals_series(t, ts, tb);
    let s1 = report_series(t.branches, ts, tb + ".branches"@);
    let s2 = report_series(t.functions, ts, tb + ".functions"@);
    let s3 = report_series(t.instantiations, ts, tb + ".instantiations"@);
    let s4 = report_series(t.lines, ts, tb + ".lines"@);
    let s5 = report_series(t.regions, ts, tb + ".regions"@);
    lemma_report_series_index(t.branches, ts, tb + ".branches"@);
    lemma_report_series_index(t.functions, ts, tb + ".functions"@);
    lemma_report_series_index(t.instantiations, ts, tb + ".instantiations"@);
    lemma_report_series_index(t.lines, ts, tb + ".lines"@);
    lemma_report_series_index(t.regions, ts, tb + ".regions"@);
    assert forall|i: int| 0 <= i < 15 implies (#[trigger] s[i]).name == serie_name(
        base,
        pair_at_short(i).0,
        pair_at_short(i).1,
    ) by {
        if i < 3 {
            assert(s[i] == s1[i]);
            assert(i % 3 == i);
        } else if i < 6 {
            assert(s[i] == s2[i - 3]);
            assert(i % 3 == i - 3);
        } else if i < 9 {
            assert(s[i] == s3[i - 6]);
            assert(i % 3 == i - 6);
        } else if i < 12 {
            assert(s[i] == s4[i - 9]);
            assert(i % 3 == i - 9);
        } else {
            assert(s[i] == s5[i - 12]);
            assert(i % 3 == i - 12);
        }
    }
}

/// Law: within one entry whose reports all carry `notcovered`, the twenty
/// emitted names are pairwise distinct.
pub proof fn lemma_entry_names_distinct_full(t: EntryTotals, ts: u64, base: Seq<char>)
    requires
        t.branches.notcovered is Some,
        t.functions.notcovered is Some,
        t.instantiations.notcovered is Some,
        t.lines.notcovered is Some,
        t.regions.notcovered is Some,
    ensures
        forall|i: int, j: int|
            0 <= i < j < totals_series(t, ts, base + ".totals"@).len() ==> (#[trigger] totals_series(
                t,
                ts,
                base + ".totals"@,
            )[i]).name != (#[trigger] totals_series(t, ts, base + ".totals"@)[j]).name,
{
    lemma_entry_names_full(t, ts, base);
    let s = totals_series(t, ts, base + ".totals"@);
    assert forall|i: int, j: int| 0 <= i < j < s.len() implies (#[trigger] s[i]).name
        != (#[trigger] s[j]).name by {
        lemma_serie_name_injective(
            base,
            pair_at_full(i).0,
            pair_at_full(i).1,
            pair_at_full(j).0,
            pair_at_full(j).1,
        );
        if s[i].name == s[j].name {
            assert(pair_at_full(i).0 == pair_at_full(j).0);
            assert(pair_at_full(i).1 == pair_at_full(j).1);
            assert(i % 4 == j % 4);
            assert(false);
        }
    }
}

/// Law: within one entry with no `notcovered` anywhere, the fifteen emitted
/// names are pairwise distinct.
pub proof fn lemma_entry_names_distinct_short(t: EntryTotals, ts: u64, base: Seq<char>)
    requires
        t.branches.notcovered is None,
        t.functions.notcovered is None,
        t.instantiations.notcovered is None,
        t.lines.notcovered is None,
        t.regions.notcovered is None,
    ensures
        forall|i: int, j: int|
            0 <= i < j < totals_series(t, ts, base + ".totals"@).len() ==> (#[trigger] totals_series(
                t,
                ts,
                base + ".totals"@,
            )[i]).name != (#[trigger] totals_series(t, ts, base + ".totals"@)[j]).name,
{
    lemma_entry_names_short(t, ts, base);
    let s = totals_series(t, ts, base + ".totals"@);
    assert forall|i: int, j: int| 0 <= i < j < s.len() implies (#[trigger] s[i]).name
        != (#[trigger] s[j]).name by {
        lemma_serie_name_injective(
            base,
            pair_at_short(i).0,
            pair_at_short(i).1,
            pair_at_short(j).0,
            pair_at_short(j).1,
        );
        if s[i].name == s[j].name {
            assert(pair_at_short(i).0 == pair_at_short(j).0);
            assert(pair_at_short(i).1 == pair_at_short(j).1);
            assert(i % 3 == j % 3);
            assert(false);
        }
    }
}

/// Law: tag and timestamp uniformity across the batch — once the shared tag
/// set is attached, every serie of a flattened document is a gauge with
/// exactly one point at the shared run timestamp and exactly the shared tags.
pub proof fn lemma_batch_uniform(es: Seq<Entry>, ts: u64, base: Seq<char>, tags: Seq<Seq<char>>)
    ensures
        batch_uniform(with_tags(entries_series(es, ts, base), tags), ts, tags),
{
    lemma_entries_uniform(es, ts, base);
    let s = entries_series(es, ts, base);
    let w = with_tags(s, tags);
    assert forall|i: int| 0 <= i < w.len() implies {
        &&& (#[trigger] w[i]).kind == SerieKind::Gauge
        &&& w[i].points.len() == 1
        &&& w[i].points[0].timestamp == ts
        &&& w[i].tags == tags
    } by {
        assert(w[i] == (SerieView { tags, ..s[i] }));
        assert(s[i].kind == SerieKind::Gauge && s[i].points.len() == 1 && s[i].points[0].timestamp
            == ts);
    }
}

} // verus!
