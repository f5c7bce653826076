//! Layout of a benchmark report: sections of latency and throughput tables with the
//! event counts of each throughput run. Measured values reach this module already
//! formatted as text, one cell per column.
use vstd::prelude::*;
use vstd::string::{StrSliceExecFns, StringExecFns};
use crate::bench::renderer::{Renderer, props_view, strings_view, strs_view};
use crate::bench::runtime_tuning::{text_trim, trim_chars};
use crate::lob::event::CountingEventSink;

verus! {

/// The decimal digit `d` (below ten).
pub open spec fn digit_char(d: nat) -> char {
    if d == 0 {
        '0'
    } else if d == 1 {
        '1'
    } else if d == 2 {
        '2'
    } else if d == 3 {
        '3'
    } else if d == 4 {
        '4'
    } else if d == 5 {
        '5'
    } else if d == 6 {
        '6'
    } else if d == 7 {
        '7'
    } else if d == 8 {
        '8'
    } else {
        '9'
    }
}

/// `n` written in decimal, without leading zeros.
pub open spec fn decimal(n: nat) -> Seq<char>
    decreases n,
{
    if n < 10 {
        seq![digit_char(n)]
    } else {
        decimal(n / 10) + seq![digit_char(n % 10)]
    }
}

fn push_digit(out: &mut String, d: u64)
    requires
        d < 10,
    ensures
        final(out)@ == old(out)@ + seq![digit_char(d as nat)],
{
    let s = if d == 0 {
        "0"
    } else if d == 1 {
        "1"
    } else if d == 2 {
        "2"
    } else if d == 3 {
        "3"
    } else if d == 4 {
        "4"
    } else if d == 5 {
        "5"
    } else if d == 6 {
        "6"
    } else if d == 7 {
        "7"
    } else if d == 8 {
        "8"
    } else {
        "9"
    };
    proof {
        reveal_strlit("0");
        reveal_strlit("1");
        reveal_strlit("2");
        reveal_strlit("3");
        reveal_strlit("4");
        reveal_strlit("5");
        reveal_strlit("6");
        reveal_strlit("7");
        reveal_strlit("8");
        reveal_strlit("9");
    }
    out.append(s);
    proof {
        assert(s@ =~= seq![digit_char(d as nat)]);
    }
}

/// Append `n` in decimal.
pub fn push_decimal(out: &mut String, n: u64)
    ensures
        final(out)@ == old(out)@ + decimal(n as nat),
    decreases n,
{
    if n >= 10 {
        push_decimal(out, n / 10);
    }
    push_digit(out, n % 10);
    proof {
        assert(out@ =~= old(out)@ + decimal(n as nat));
    }
}

/// `n` in decimal, as `n.to_string()` writes it.
pub fn decimal_string(n: u64) -> (r: String)
    ensures
        r@ == decimal(n as nat),
{
    let mut out = String::new();
    push_decimal(&mut out, n);
    out
}

/// One scenario of a report section, its measured values formatted as text.
pub enum ScenarioCells {
    /// A latency scenario: its name and the cells of the columns after "Operation".
    Latency { name: String, values: Vec<String> },
    /// A throughput scenario: its name, the cells of the columns after "Scenario",
    /// and the book events the run produced.
    Throughput { name: String, values: Vec<String>, event_counts: CountingEventSink },
}

/// A report section: title, parameters, scenarios.
pub struct SectionCells {
    pub title: String,
    pub params: Vec<(String, String)>,
    pub scenarios: Vec<ScenarioCells>,
}

pub open spec fn latency_headers() -> Seq<Seq<char>> {
    seq![
        "Operation"@,
        "min"@,
        "p50"@,
        "p90"@,
        "p95"@,
        "p99"@,
        "p99.9"@,
        "max"@,
        "mean"@,
        "stdev"@,
        "allocs/op"@,
        "deallocs/op"@,
        "bytes/op"@,
    ]
}

pub open spec fn throughput_headers() -> Seq<Seq<char>> {
    seq!["Scenario"@, "ops/sec"@, "allocs/op"@, "deallocs/op"@, "bytes/op"@, "setup allocs"@, "setup bytes"@]
}

pub open spec fn event_headers() -> Seq<Seq<char>> {
    seq!["Event type"@, "Count"@]
}

/// The row of a scenario: its name, then its value cells.
pub open spec fn scenario_row(name: String, values: Vec<String>) -> Seq<Seq<char>> {
    seq![name@] + strings_view(values@)
}

/// The rows of the latency scenarios among the first `n`, in order.
pub open spec fn latency_rows(s: Seq<ScenarioCells>, n: int) -> Seq<Seq<Seq<char>>>
    decreases n,
{
    if n <= 0 {
        Seq::empty()
    } else {
        match s[n - 1] {
            ScenarioCells::Latency { name, values } => latency_rows(s, n - 1).push(scenario_row(name, values)),
            _ => latency_rows(s, n - 1),
        }
    }
}

/// The throughput scenarios among the first `n`, in order: name, row, event counts.
pub open spec fn throughput_runs(s: Seq<ScenarioCells>, n: int) -> Seq<(Seq<char>, Seq<Seq<char>>, CountingEventSink)>
    decreases n,
{
    if n <= 0 {
        Seq::empty()
    } else {
        match s[n - 1] {
            ScenarioCells::Throughput { name, values, event_counts } => throughput_runs(s, n - 1).push(
                (name@, scenario_row(name, values), event_counts),
            ),
            _ => throughput_runs(s, n - 1),
        }
    }
}

/// The first `n` rows of a table.
pub open spec fn rows_text<R: Renderer>(r: R, headers: Seq<Seq<char>>, rows: Seq<Seq<Seq<char>>>, n: int) -> Seq<
    char,
>
    decreases n,
{
    if n <= 0 {
        Seq::empty()
    } else {
        rows_text(r, headers, rows, n - 1) + r.table_row_text(headers, rows[n - 1])
    }
}

/// The event count rows of one run.
pub open spec fn event_rows(ec: CountingEventSink) -> Seq<Seq<Seq<char>>> {
    seq![
        seq!["Accepted"@, decimal(ec.accepted as nat)],
        seq!["Rejected"@, decimal(ec.rejected as nat)],
        seq!["Fill"@, decimal(ec.fill as nat)],
        seq!["Filled"@, decimal(ec.filled as nat)],
        seq!["Cancelled"@, decimal(ec.cancelled as nat)],
    ]
}

/// The event count tables of the first `n` throughput runs.
pub open spec fn event_tables_text<R: Renderer>(
    r: R,
    runs: Seq<(Seq<char>, Seq<Seq<char>>, CountingEventSink)>,
    n: int,
) -> Seq<char>
    decreases n,
{
    if n <= 0 {
        Seq::empty()
    } else {
        event_tables_text(r, runs, n - 1) + r.heading_text(5, runs[n - 1].0 + " \u{2014} event counts"@)
            + r.table_start_text(event_headers()) + rows_text(r, event_headers(), event_rows(runs[n - 1].2), 5)
    }
}

/// The latency part of a section: heading and table, if there is a latency scenario.
pub open spec fn latency_part<R: Renderer>(r: R, s: Seq<ScenarioCells>) -> Seq<char> {
    let rows = latency_rows(s, s.len() as int);
    if rows.len() > 0 {
        r.heading_text(3, "Latency"@) + r.table_start_text(latency_headers()) + rows_text(
            r,
            latency_headers(),
            rows,
            rows.len() as int,
        )
    } else {
        Seq::empty()
    }
}

/// The throughput part of a section: heading, table, one event count table per run,
/// and the flame graph heading with the renderer's extra content; if there is a
/// throughput scenario.
pub open spec fn throughput_part<R: Renderer>(r: R, s: Seq<ScenarioCells>) -> Seq<char> {
    let runs = throughput_runs(s, s.len() as int);
    if runs.len() > 0 {
        r.heading_text(3, "Throughput"@) + r.table_start_text(throughput_headers()) + rows_text(
            r,
            throughput_headers(),
            runs.map_values(|t: (Seq<char>, Seq<Seq<char>>, CountingEventSink)| t.1),
            runs.len() as int,
        ) + event_tables_text(r, runs, runs.len() as int) + r.heading_text(5, "Throughput flamegraph"@)
            + r.throughput_extra_text()
    } else {
        Seq::empty()
    }
}

/// The renderer can lay out the three tables of a section.
pub open spec fn tables_fit<R: Renderer>(r: R) -> bool {
    &&& r.headers_fit(latency_headers())
    &&& r.headers_fit(throughput_headers())
    &&& r.headers_fit(event_headers())
}

fn scenario_row_exec(name: &String, values: &Vec<String>) -> (r: Vec<String>)
    ensures
        strings_view(r@) == scenario_row(*name, *values),
{
    let mut row: Vec<String> = Vec::new();
    row.push(name.clone());
    let mut i: usize = 0;
    while i < values.len()
        invariant
            i <= values@.len(),
            strings_view(row@) == seq![name@] + strings_view(values@.take(i as int)),
        decreases values@.len() - i,
    {
        let ghost before = row@;
        let v = values[i].clone();
        row.push(v);
        proof {
            assert(values@.take(i + 1) =~= values@.take(i as int).push(values@[i as int]));
            assert(strings_view(values@.take(i + 1)) =~= strings_view(values@.take(i as int)).push(values@[i as int]@));
            assert(row@ =~= before.push(v));
            assert(strings_view(row@) =~= strings_view(before).push(v@));
            assert(strings_view(row@) =~= seq![name@] + strings_view(values@.take((i + 1) as int)));
        }
        i = i + 1;
    }
    proof {
        assert(values@.take(values@.len() as int) =~= values@);
    }
    row
}

/// Render each row of `rows` under `headers`.
fn render_rows<R: Renderer>(out: &mut String, renderer: &R, headers: &[&str], rows: &Vec<Vec<String>>)
    ensures
        final(out)@ == old(out)@ + rows_text(
            *renderer,
            strs_view(headers@),
            rows@.map_values(|v: Vec<String>| strings_view(v@)),
            rows@.len() as int,
        ),
{
    let ghost views = rows@.map_values(|v: Vec<String>| strings_view(v@));
    let mut i: usize = 0;
    while i < rows.len()
        invariant
            i <= rows@.len(),
            views == rows@.map_values(|v: Vec<String>| strings_view(v@)),
            out@ == old(out)@ + rows_text(*renderer, strs_view(headers@), views, i as int),
        decreases rows@.len() - i,
    {
        renderer.render_table_row(out, headers, rows[i].as_slice());
        proof {
            assert(out@ =~= old(out)@ + rows_text(*renderer, strs_view(headers@), views, (i + 1) as int));
        }
        i = i + 1;
    }
}

/// The rows of `rows`, each as the texts of its cells.
pub open spec fn rows_view(rows: Seq<Vec<String>>) -> Seq<Seq<Seq<char>>> {
    rows.map_values(|v: Vec<String>| strings_view(v@))
}

fn latency_header_row() -> (r: Vec<&'static str>)
    ensures
        strs_view(r@) == latency_headers(),
{
    let r = vec![
        "Operation",
        "min",
        "p50",
        "p90",
        "p95",
        "p99",
        "p99.9",
        "max",
        "mean",
        "stdev",
        "allocs/op",
        "deallocs/op",
        "bytes/op",
    ];
    proof {
        assert(strs_view(r@) =~= latency_headers());
    }
    r
}

fn throughput_header_row() -> (r: Vec<&'static str>)
    ensures
        strs_view(r@) == throughput_headers(),
{
    let r = vec!["Scenario", "ops/sec", "allocs/op", "deallocs/op", "bytes/op", "setup allocs", "setup bytes"];
    proof {
        assert(strs_view(r@) =~= throughput_headers());
    }
    r
}

fn event_header_row() -> (r: Vec<&'static str>)
    ensures
        strs_view(r@) == event_headers(),
{
    let r = vec!["Event type", "Count"];
    proof {
        assert(strs_view(r@) =~= event_headers());
    }
    r
}

fn count_row(label: &str, count: u64) -> (r: Vec<String>)
    ensures
        strings_view(r@) == seq![label@, decimal(count as nat)],
{
    let r = vec![String::from_str(label), decimal_string(count)];
    proof {
        assert(strings_view(r@) =~= seq![label@, decimal(count as nat)]);
    }
    r
}

/// The event count table of one throughput run.
fn render_event_table<R: Renderer>(out: &mut String, renderer: &R, name: &String, ec: CountingEventSink)
    requires
        renderer.headers_fit(event_headers()),
    ensures
        final(out)@ == old(out)@ + renderer.heading_text(5, name@ + " \u{2014} event counts"@)
            + renderer.table_start_text(event_headers()) + rows_text(*renderer, event_headers(), event_rows(ec), 5),
{
    let mut title = String::from_str(name.as_str());
    title.append(" \u{2014} event counts");
    renderer.render_heading(out, 5, title.as_str());
    let headers = event_header_row();
    renderer.render_table_start(out, headers.as_slice());
    let rows = vec![
        count_row("Accepted", ec.accepted),
        count_row("Rejected", ec.rejected),
        count_row("Fill", ec.fill),
        count_row("Filled", ec.filled),
        count_row("Cancelled", ec.cancelled),
    ];
    proof {
        assert(rows_view(rows@) =~= event_rows(ec));
    }
    render_rows(out, renderer, headers.as_slice(), &rows);
    proof {
        assert(rows@.map_values(|v: Vec<String>| strings_view(v@)) == rows_view(rows@));
    }
}

/// Render the scenarios of one section: a latency table if there are latency
/// scenarios; a throughput table, an event count table per run and the flame graph
/// heading if there are throughput scenarios.
pub fn render_section_scenarios<R: Renderer>(out: &mut String, renderer: &R, scenarios: &[ScenarioCells])
    requires
        tables_fit(*renderer),
    ensures
        final(out)@ == old(out)@ + latency_part(*renderer, scenarios@) + throughput_part(*renderer, scenarios@),
{
    let n = scenarios.len();
    let mut latency: Vec<Vec<String>> = Vec::new();
    let mut thr_rows: Vec<Vec<String>> = Vec::new();
    let mut thr_names: Vec<&String> = Vec::new();
    let mut thr_counts: Vec<CountingEventSink> = Vec::new();
    let mut i: usize = 0;
    while i < n
        invariant
            n == scenarios@.len(),
            i <= n,
            rows_view(latency@) == latency_rows(scenarios@, i as int),
            rows_view(thr_rows@) == throughput_runs(scenarios@, i as int).map_values(
                |t: (Seq<char>, Seq<Seq<char>>, CountingEventSink)| t.1,
            ),
            thr_names@.len() == throughput_runs(scenarios@, i as int).len(),
            thr_counts@.len() == throughput_runs(scenarios@, i as int).len(),
            forall|j: int|
                0 <= j < thr_names@.len() ==> (#[trigger] thr_names@[j])@ == throughput_runs(scenarios@, i as int)[j].0
                    && thr_counts@[j] == throughput_runs(scenarios@, i as int)[j].2,
        decreases n - i,
    {
        let ghost lat0 = latency@;
        let ghost rows0 = thr_rows@;
        match &scenarios[i] {
            ScenarioCells::Latency { name, values } => {
                let row = scenario_row_exec(name, values);
                latency.push(row);
                proof {
                    assert(rows_view(latency@) =~= rows_view(lat0).push(strings_view(row@)));
                }
            },
            ScenarioCells::Throughput { name, values, event_counts } => {
                let row = scenario_row_exec(name, values);
                thr_rows.push(row);
                thr_names.push(name);
                thr_counts.push(*event_counts);
                proof {
                    assert(rows_view(thr_rows@) =~= rows_view(rows0).push(strings_view(row@)));
                    assert(rows_view(thr_rows@) =~= throughput_runs(scenarios@, i + 1).map_values(
                        |t: (Seq<char>, Seq<Seq<char>>, CountingEventSink)| t.1,
                    ));
                }
            },
        }
        i = i + 1;
    }
    let ghost s = scenarios@;
    let ghost mid = out@;
    if latency.len() > 0 {
        renderer.render_heading(out, 3, "Latency");
        let headers = latency_header_row();
        renderer.render_table_start(out, headers.as_slice());
        render_rows(out, renderer, headers.as_slice(), &latency);
        proof {
            assert(latency@.map_values(|v: Vec<String>| strings_view(v@)) == rows_view(latency@));
        }
    }
    proof {
        assert(out@ =~= old(out)@ + latency_part(*renderer, s));
    }
    let ghost after_latency = out@;
    let ghost runs = throughput_runs(s, s.len() as int);
    if thr_rows.len() > 0 {
        renderer.render_heading(out, 3, "Throughput");
        let headers = throughput_header_row();
        renderer.render_table_start(out, headers.as_slice());
        render_rows(out, renderer, headers.as_slice(), &thr_rows);
        proof {
            assert(thr_rows@.map_values(|v: Vec<String>| strings_view(v@)) == rows_view(thr_rows@));
        }
        let ghost before_events = out@;
        let m = thr_names.len();
        let mut j: usize = 0;
        while j < m
            invariant
                m == thr_names@.len(),
                m == runs.len(),
                j <= m,
                renderer.headers_fit(event_headers()),
                forall|k: int|
                    0 <= k < thr_names@.len() ==> (#[trigger] thr_names@[k])@ == runs[k].0 && thr_counts@[k]
                        == runs[k].2,
                thr_counts@.len() == m,
                out@ == before_events + event_tables_text(*renderer, runs, j as int),
            decreases m - j,
        {
            render_event_table(out, renderer, thr_names[j], thr_counts[j]);
            proof {
                assert(out@ =~= before_events + event_tables_text(*renderer, runs, (j + 1) as int));
            }
            j = j + 1;
        }
        renderer.render_heading(out, 5, "Throughput flamegraph");
        renderer.render_throughput_extra(out);
    }
    proof {
        assert(out@ =~= old(out)@ + latency_part(*renderer, s) + throughput_part(*renderer, s));
    }
}

/// The name-value pairs `p` as texts.
pub open spec fn pairs_view(p: Seq<(String, String)>) -> Seq<(Seq<char>, Seq<char>)> {
    p.map_values(|x: (String, String)| (x.0@, x.1@))
}

/// One section: its heading, its parameters if it has any, then its scenarios.
pub open spec fn section_text<R: Renderer>(r: R, sec: SectionCells) -> Seq<char> {
    r.heading_text(2, sec.title@) + (if sec.params@.len() > 0 {
        r.properties_text(pairs_view(sec.params@))
    } else {
        Seq::empty()
    }) + latency_part(r, sec.scenarios@) + throughput_part(r, sec.scenarios@)
}

/// The first `n` sections.
pub open spec fn sections_text<R: Renderer>(r: R, secs: Seq<SectionCells>, n: int) -> Seq<char>
    decreases n,
{
    if n <= 0 {
        Seq::empty()
    } else {
        sections_text(r, secs, n - 1) + section_text(r, secs[n - 1])
    }
}

/// A whole report: title heading, metadata properties, the sections, a final newline.
pub open spec fn report_text<R: Renderer>(
    r: R,
    title: Seq<char>,
    props: Seq<(Seq<char>, Seq<char>)>,
    secs: Seq<SectionCells>,
) -> Seq<char> {
    r.heading_text(1, title) + r.properties_text(props) + sections_text(r, secs, secs.len() as int) + "\n"@
}

/// The renderer can lay out the parameters of every section.
pub open spec fn section_params_fit<R: Renderer>(r: R, secs: Seq<SectionCells>) -> bool {
    forall|i: int| 0 <= i < secs.len() ==> r.properties_fit(pairs_view(#[trigger] secs[i].params@))
}

/// Render a report titled `title` with metadata `props` and `sections`.
pub fn render_report<R: Renderer>(
    renderer: &R,
    title: &str,
    props: &[(&str, String)],
    sections: &[SectionCells],
) -> (r: String)
    requires
        tables_fit(*renderer),
        renderer.properties_fit(props_view(props@)),
        section_params_fit(*renderer, sections@),
    ensures
        r@ == report_text(*renderer, title@, props_view(props@), sections@),
{
    let mut out = String::new();
    renderer.render_heading(&mut out, 1, title);
    renderer.render_properties(&mut out, props);
    let ghost start = out@;
    let n = sections.len();
    let mut i: usize = 0;
    while i < n
        invariant
            n == sections@.len(),
            i <= n,
            tables_fit(*renderer),
            section_params_fit(*renderer, sections@),
            out@ == start + sections_text(*renderer, sections@, i as int),
        decreases n - i,
    {
        let section = &sections[i];
        let ghost before = out@;
        renderer.render_heading(&mut out, 2, section.title.as_str());
        let mut section_props: Vec<(&str, String)> = Vec::new();
        let mut k: usize = 0;
        while k < section.params.len()
            invariant
                k <= section.params@.len(),
                props_view(section_props@) == pairs_view(section.params@.take(k as int)),
            decreases section.params@.len() - k,
        {
            let (key, value) = &section.params[k];
            let ghost p0 = section_props@;
            section_props.push((key.as_str(), value.clone()));
            proof {
                assert(section.params@.take(k + 1) =~= section.params@.take(k as int).push(section.params@[k as int]));
                assert(props_view(section_props@) =~= props_view(p0).push((key@, value@)));
                assert(props_view(section_props@) =~= pairs_view(section.params@.take((k + 1) as int)));
            }
            k = k + 1;
        }
        proof {
            assert(section.params@.take(section.params@.len() as int) =~= section.params@);
            assert(renderer.properties_fit(pairs_view(sections@[i as int].params@)));
        }
        if section_props.len() > 0 {
            renderer.render_properties(&mut out, section_props.as_slice());
        }
        render_section_scenarios(&mut out, renderer, section.scenarios.as_slice());
        proof {
            assert(out@ =~= before + section_text(*renderer, sections@[i as int]));
            assert(out@ =~= start + sections_text(*renderer, sections@, (i + 1) as int));
        }
        i = i + 1;
    }
    out.append("\n");
    proof {
        assert(out@ =~= report_text(*renderer, title@, props_view(props@), sections@));
    }
    out
}

// ---------------------------------------------------------------------------
//  Comparison against a baseline
// ---------------------------------------------------------------------------

/// One scenario compared against the baseline, each delta formatted as text.
pub enum ComparisonCells {
    Latency {
        name: String,
        p50: String,
        p99: String,
        p999: String,
        mean: String,
        allocs_per_op: String,
        deallocs_per_op: String,
        bytes_per_op: String,
    },
    Throughput {
        name: String,
        ops_per_sec: String,
        allocs_per_op: String,
        deallocs_per_op: String,
        bytes_per_op: String,
        setup_allocs: String,
        setup_bytes: String,
    },
}

/// The table row of a compared scenario: every cell, name first.
pub open spec fn comparison_row(c: ComparisonCells) -> Seq<Seq<char>> {
    match c {
        ComparisonCells::Latency { name, p50, p99, p999, mean, allocs_per_op, deallocs_per_op, bytes_per_op } => seq![
            name@,
            p50@,
            p99@,
            p999@,
            mean@,
            allocs_per_op@,
            deallocs_per_op@,
            bytes_per_op@,
        ],
        ComparisonCells::Throughput {
            name,
            ops_per_sec,
            allocs_per_op,
            deallocs_per_op,
            bytes_per_op,
            setup_allocs,
            setup_bytes,
        } => seq![
            name@,
            ops_per_sec@,
            allocs_per_op@,
            deallocs_per_op@,
            bytes_per_op@,
            setup_allocs@,
            setup_bytes@,
        ],
    }
}

fn comparison_row_exec(c: &ComparisonCells) -> (r: Vec<String>)
    ensures
        strings_view(r@) == comparison_row(*c),
{
    let r = match c {
        ComparisonCells::Latency { name, p50, p99, p999, mean, allocs_per_op, deallocs_per_op, bytes_per_op } => vec![
            name.clone(),
            p50.clone(),
            p99.clone(),
            p999.clone(),
            mean.clone(),
            allocs_per_op.clone(),
            deallocs_per_op.clone(),
            bytes_per_op.clone(),
        ],
        ComparisonCells::Throughput {
            name,
            ops_per_sec,
            allocs_per_op,
            deallocs_per_op,
            bytes_per_op,
            setup_allocs,
            setup_bytes,
        } => vec![
            name.clone(),
            ops_per_sec.clone(),
            allocs_per_op.clone(),
            deallocs_per_op.clone(),
            bytes_per_op.clone(),
            setup_allocs.clone(),
            setup_bytes.clone(),
        ],
    };
    proof {
        assert(strings_view(r@) =~= comparison_row(*c));
    }
    r
}

pub open spec fn latency_comparison_headers() -> Seq<Seq<char>> {
    seq!["Operation"@, "p50"@, "p99"@, "p99.9"@, "mean"@, "allocs/op"@, "deallocs/op"@, "bytes/op"@]
}

pub open spec fn throughput_comparison_headers() -> Seq<Seq<char>> {
    seq!["Operation"@, "ops/sec"@, "allocs/op"@, "deallocs/op"@, "bytes/op"@, "setup allocs"@, "setup bytes"@]
}

/// The rows of the latency comparisons among the first `n`, in order.
pub open spec fn latency_comparison_rows(s: Seq<ComparisonCells>, n: int) -> Seq<Seq<Seq<char>>>
    decreases n,
{
    if n <= 0 {
        Seq::empty()
    } else {
        match s[n - 1] {
            ComparisonCells::Latency { .. } => latency_comparison_rows(s, n - 1).push(comparison_row(s[n - 1])),
            _ => latency_comparison_rows(s, n - 1),
        }
    }
}

/// The rows of the throughput comparisons among the first `n`, in order.
pub open spec fn throughput_comparison_rows(s: Seq<ComparisonCells>, n: int) -> Seq<Seq<Seq<char>>>
    decreases n,
{
    if n <= 0 {
        Seq::empty()
    } else {
        match s[n - 1] {
            ComparisonCells::Throughput { .. } => throughput_comparison_rows(s, n - 1).push(comparison_row(s[n - 1])),
            _ => throughput_comparison_rows(s, n - 1),
        }
    }
}

/// A comparison table: `#### vs baseline`, the header and the rows; nothing if
/// there are no rows.
pub open spec fn embedded_text<R: Renderer>(r: R, headers: Seq<Seq<char>>, rows: Seq<Seq<Seq<char>>>) -> Seq<
    char,
> {
    if rows.len() == 0 {
        Seq::empty()
    } else {
        r.heading_text(4, "vs baseline"@) + r.table_start_text(headers) + rows_text(r, headers, rows, rows.len() as int)
    }
}

fn latency_comparison_header_row() -> (r: Vec<&'static str>)
    ensures
        strs_view(r@) == latency_comparison_headers(),
{
    let r = vec!["Operation", "p50", "p99", "p99.9", "mean", "allocs/op", "deallocs/op", "bytes/op"];
    proof {
        assert(strs_view(r@) =~= latency_comparison_headers());
    }
    r
}

fn throughput_comparison_header_row() -> (r: Vec<&'static str>)
    ensures
        strs_view(r@) == throughput_comparison_headers(),
{
    let r = vec!["Operation", "ops/sec", "allocs/op", "deallocs/op", "bytes/op", "setup allocs", "setup bytes"];
    proof {
        assert(strs_view(r@) =~= throughput_comparison_headers());
    }
    r
}

/// Collect the rows of one kind of comparison, cloned, in order.
pub(crate) fn comparison_rows(scenarios: &[ComparisonCells], latency: bool) -> (r: Vec<Vec<String>>)
    ensures
        rows_view(r@) == (if latency {
            latency_comparison_rows(scenarios@, scenarios@.len() as int)
        } else {
            throughput_comparison_rows(scenarios@, scenarios@.len() as int)
        }),
{
    let mut rows: Vec<Vec<String>> = Vec::new();
    let n = scenarios.len();
    let mut i: usize = 0;
    while i < n
        invariant
            n == scenarios@.len(),
            i <= n,
            rows_view(rows@) == (if latency {
                latency_comparison_rows(scenarios@, i as int)
            } else {
                throughput_comparison_rows(scenarios@, i as int)
            }),
        decreases n - i,
    {
        let ghost r0 = rows@;
        let is_latency = match &scenarios[i] {
            ComparisonCells::Latency { .. } => true,
            ComparisonCells::Throughput { .. } => false,
        };
        if is_latency == latency {
            let c = comparison_row_exec(&scenarios[i]);
            rows.push(c);
            proof {
                assert(rows_view(rows@) =~= rows_view(r0).push(strings_view(c@)));
            }
        }
        i = i + 1;
    }
    rows
}

/// The latency deltas as a table under `#### vs baseline`; nothing if there are none.
pub fn render_latency_comparison_embedded<R: Renderer>(out: &mut String, renderer: &R, scenarios: &[ComparisonCells])
    requires
        renderer.headers_fit(latency_comparison_headers()),
    ensures
        final(out)@ == old(out)@ + embedded_text(
            *renderer,
            latency_comparison_headers(),
            latency_comparison_rows(scenarios@, scenarios@.len() as int),
        ),
{
    let rows = comparison_rows(scenarios, true);
    if rows.len() == 0 {
        proof {
            assert(out@ =~= old(out)@ + Seq::<char>::empty());
        }
        return;
    }
    renderer.render_heading(out, 4, "vs baseline");
    let headers = latency_comparison_header_row();
    renderer.render_table_start(out, headers.as_slice());
    render_rows(out, renderer, headers.as_slice(), &rows);
    proof {
        assert(rows@.map_values(|v: Vec<String>| strings_view(v@)) == rows_view(rows@));
    }
}

/// The throughput deltas as a table under `#### vs baseline`; nothing if there are
/// none.
pub fn render_throughput_comparison_embedded<R: Renderer>(
    out: &mut String,
    renderer: &R,
    scenarios: &[ComparisonCells],
)
    requires
        renderer.headers_fit(throughput_comparison_headers()),
    ensures
        final(out)@ == old(out)@ + embedded_text(
            *renderer,
            throughput_comparison_headers(),
            throughput_comparison_rows(scenarios@, scenarios@.len() as int),
        ),
{
    let rows = comparison_rows(scenarios, false);
    if rows.len() == 0 {
        proof {
            assert(out@ =~= old(out)@ + Seq::<char>::empty());
        }
        return;
    }
    renderer.render_heading(out, 4, "vs baseline");
    let headers = throughput_comparison_header_row();
    renderer.render_table_start(out, headers.as_slice());
    render_rows(out, renderer, headers.as_slice(), &rows);
    proof {
        assert(rows@.map_values(|v: Vec<String>| strings_view(v@)) == rows_view(rows@));
    }
}

// ---------------------------------------------------------------------------
//  Metric names for benchmark dashboards
// ---------------------------------------------------------------------------

/// Name of a dashboard metric: the title prefix, the section title when it is not
/// blank (trimmed), and the scenario name, joined by ` / `; a latency metric adds
/// ` (mean latency)`.
pub open spec fn metric_name_text(prefix: Seq<char>, section_title: Seq<char>, scenario: Seq<char>, latency: bool) -> Seq<
    char,
> {
    let t = trim_chars(section_title);
    prefix + " / "@ + (if t.len() == 0 {
        Seq::empty()
    } else {
        t + " / "@
    }) + scenario + (if latency {
        " (mean latency)"@
    } else {
        Seq::empty()
    })
}

pub fn metric_name(prefix: &str, section_title: &str, scenario: &str, latency: bool) -> (r: String)
    ensures
        r@ == metric_name_text(prefix@, section_title@, scenario@, latency),
{
    let title = text_trim(section_title);
    let mut out = String::from_str(prefix);
    out.append(" / ");
    if title.unicode_len() > 0 {
        out.append(title);
        out.append(" / ");
    }
    out.append(scenario);
    if latency {
        out.append(" (mean latency)");
    }
    proof {
        assert(out@ =~= metric_name_text(prefix@, section_title@, scenario@, latency));
    }
    out
}

} // verus!
