use hft_demos::bench::comparison::Comparison;
use hft_demos::bench::renderer::{MarkdownRenderer, TextRenderer};
use hft_demos::bench::report::{
    ComparisonCells, ScenarioCells, SectionCells, decimal_string, metric_name, render_latency_comparison_embedded,
    render_report, render_section_scenarios, render_throughput_comparison_embedded,
};
use hft_demos::lob::event::CountingEventSink;

fn strings(v: &[&str]) -> Vec<String> {
    v.iter().map(|s| s.to_string()).collect()
}

fn md_table(headers: &[&str], rows: &[Vec<String>]) -> String {
    let mut s = String::from("|");
    for h in headers {
        s.push_str(&format!(" {} |", h));
    }
    s.push_str("\n|");
    for h in headers {
        s.push_str(&format!("{}|", "-".repeat(h.len() + 2)));
    }
    s.push('\n');
    for r in rows {
        s.push('|');
        for c in r {
            s.push_str(&format!(" {} |", c));
        }
        s.push('\n');
    }
    s
}

const LATENCY_HEADERS: [&str; 13] = [
    "Operation", "min", "p50", "p90", "p95", "p99", "p99.9", "max", "mean", "stdev", "allocs/op", "deallocs/op",
    "bytes/op",
];
const THROUGHPUT_HEADERS: [&str; 7] =
    ["Scenario", "ops/sec", "allocs/op", "deallocs/op", "bytes/op", "setup allocs", "setup bytes"];

fn sample_scenarios() -> Vec<ScenarioCells> {
    vec![
        ScenarioCells::Latency {
            name: "add".to_string(),
            values: strings(&["1ns", "2ns", "3ns", "4ns", "5ns", "6ns", "7ns", "8ns", "9ns", "0.0", "0.0", "0B"]),
        },
        ScenarioCells::Throughput {
            name: "replay".to_string(),
            values: strings(&["1000", "0.5", "0.5", "12B", "3", "1.0KiB"]),
            event_counts: CountingEventSink { accepted: 10, rejected: 0, fill: 7, filled: 12, cancelled: 305 },
        },
    ]
}

fn expected_markdown_section(extra: &str) -> String {
    let mut row = vec!["add".to_string()];
    row.extend(strings(&["1ns", "2ns", "3ns", "4ns", "5ns", "6ns", "7ns", "8ns", "9ns", "0.0", "0.0", "0B"]));
    let mut out = String::from("\n### Latency\n\n");
    out.push_str(&md_table(&LATENCY_HEADERS, &[row]));
    out.push_str("\n### Throughput\n\n");
    let mut trow = vec!["replay".to_string()];
    trow.extend(strings(&["1000", "0.5", "0.5", "12B", "3", "1.0KiB"]));
    out.push_str(&md_table(&THROUGHPUT_HEADERS, &[trow]));
    out.push_str("\n##### replay \u{2014} event counts\n\n");
    let counts: Vec<Vec<String>> = [("Accepted", 10u64), ("Rejected", 0), ("Fill", 7), ("Filled", 12), ("Cancelled", 305)]
        .iter()
        .map(|(l, c)| vec![l.to_string(), c.to_string()])
        .collect();
    out.push_str(&md_table(&["Event type", "Count"], &counts));
    out.push_str("\n##### Throughput flamegraph\n\n");
    out.push_str(extra);
    out
}

#[test]
fn decimal_string_matches_to_string() {
    for n in [0u64, 7, 10, 99, 12345, 1_000_000, u64::MAX] {
        assert_eq!(decimal_string(n), n.to_string());
    }
}

#[test]
fn markdown_section_lays_out_all_tables() {
    let mut out = String::new();
    render_section_scenarios(&mut out, &MarkdownRenderer::with_flamegraph("fg.svg"), &sample_scenarios());
    assert_eq!(out, expected_markdown_section("![Flame graph](fg.svg)\n\n"));
}

#[test]
fn section_without_scenarios_renders_nothing() {
    let mut out = String::from("x");
    render_section_scenarios(&mut out, &TextRenderer, &[]);
    assert_eq!(out, "x");
}

#[test]
fn text_section_latency_only() {
    let scenarios = vec![ScenarioCells::Latency { name: "cancel".to_string(), values: strings(&["1ns"; 12]) }];
    let mut out = String::new();
    render_section_scenarios(&mut out, &TextRenderer, &scenarios);
    let mut expected = String::from("\n  Latency\n\n  ");
    let widths: Vec<usize> =
        LATENCY_HEADERS.iter().enumerate().map(|(i, h)| if i == 0 { h.len().max(28) } else { h.len().max(10) }).collect();
    for (i, h) in LATENCY_HEADERS.iter().enumerate() {
        let w = widths[i];
        let indent = if i == 0 { "" } else { " " };
        expected.push_str(&format!("{indent}{:>w$}", h));
    }
    expected.push('\n');
    let total: usize = widths[0] + widths[1..].iter().map(|w| 1 + w).sum::<usize>();
    expected.push_str(&format!("  {}\n", "\u{2500}".repeat(total)));
    expected.push_str("  ");
    let mut cells = vec!["cancel".to_string()];
    cells.extend(strings(&["1ns"; 12]));
    for (i, c) in cells.iter().enumerate() {
        let w = widths[i];
        let indent = if i == 0 { "" } else { " " };
        expected.push_str(&format!("{indent}{:>w$}", c));
    }
    expected.push('\n');
    assert_eq!(out, expected);
}

#[test]
fn markdown_report_with_sections() {
    let props = vec![("Timestamp", "2024-01-01T00:00:00Z".to_string()), ("CPU", "test".to_string())];
    let sections = vec![
        SectionCells {
            title: "Book".to_string(),
            params: vec![("depth".to_string(), "10".to_string())],
            scenarios: sample_scenarios(),
        },
        SectionCells { title: "Empty".to_string(), params: vec![], scenarios: vec![] },
    ];
    let out = render_report(&MarkdownRenderer::new(), "Bench", &props, &sections);
    let mut expected = String::from("\n# Bench\n\n");
    expected.push_str("| Property | Value |\n|----------|-------|\n");
    expected.push_str("| Timestamp | 2024-01-01T00:00:00Z |\n| CPU | test |\n");
    expected.push_str("\n## Book\n\n");
    expected.push_str("| Property | Value |\n|----------|-------|\n| depth | 10 |\n");
    expected.push_str(&expected_markdown_section(""));
    expected.push_str("\n## Empty\n\n");
    expected.push('\n');
    assert_eq!(out, expected);
}

fn sample_comparison() -> Comparison {
    Comparison {
        baseline_title: "base".to_string(),
        baseline_timestamp: "t0".to_string(),
        scenarios: vec![
            ComparisonCells::Latency {
                name: "add".to_string(),
                p50: "1ns (=)".to_string(),
                p99: "2ns (\u{2191}5.0%)".to_string(),
                p999: "3ns (=)".to_string(),
                mean: "1ns (=)".to_string(),
                allocs_per_op: "0.0 (=)".to_string(),
                deallocs_per_op: "0.0 (=)".to_string(),
                bytes_per_op: "0B (=)".to_string(),
            },
            ComparisonCells::Throughput {
                name: "replay".to_string(),
                ops_per_sec: "1.0M (\u{2193}2.0%)".to_string(),
                allocs_per_op: "0.1 (=)".to_string(),
                deallocs_per_op: "0.1 (=)".to_string(),
                bytes_per_op: "8B (=)".to_string(),
                setup_allocs: "3.0 (=)".to_string(),
                setup_bytes: "1.0KiB (=)".to_string(),
            },
        ],
    }
}

#[test]
fn comparison_text_matches_fixed_widths() {
    let c = sample_comparison();
    let mut expected = String::new();
    expected.push_str("\n  Comparison vs baseline: \"base\" (t0)\n\n");
    expected.push_str(&format!(
        "  {:<30} {:>18} {:>18} {:>18} {:>18} {:>14} {:>14} {:>14}\n",
        "Operation", "p50", "p99", "p99.9", "mean", "allocs/op", "deallocs/op", "bytes/op"
    ));
    expected.push_str(&format!("  {}\n", "\u{2500}".repeat(132)));
    expected.push_str(&format!(
        "  {:<30} {:>18} {:>18} {:>18} {:>18} {:>14} {:>14} {:>14}\n",
        "add", "1ns (=)", "2ns (\u{2191}5.0%)", "3ns (=)", "1ns (=)", "0.0 (=)", "0.0 (=)", "0B (=)"
    ));
    expected.push_str(&format!(
        "\n  Throughput\n  {:<30} {:>14} {:>14} {:>14} {:>14}\n",
        "Operation", "ops/sec", "allocs/op", "deallocs/op", "bytes/op"
    ));
    expected.push_str(&format!("  {}\n", "\u{2500}".repeat(90)));
    expected.push_str(&format!(
        "  {:<30} {:>14} {:>14} {:>14} {:>14}\n",
        "replay", "1.0M (\u{2193}2.0%)", "0.1 (=)", "0.1 (=)", "8B (=)"
    ));
    expected.push('\n');
    assert_eq!(c.to_text(), expected);
}

#[test]
fn comparison_markdown_tables() {
    let c = sample_comparison();
    let expected = "\n## Comparison vs Baseline\n\n> Baseline: \"base\" (t0)\n\n\
| Operation | p50 | p99 | p99.9 | mean | allocs/op | deallocs/op | bytes/op |\n\
|-----------|-----|-----|-------|------|-----------|-------------|----------|\n\
| add | 1ns (=) | 2ns (\u{2191}5.0%) | 3ns (=) | 1ns (=) | 0.0 (=) | 0.0 (=) | 0B (=) |\n\
\n### Throughput\n\n\
| Operation | ops/sec | allocs/op | deallocs/op | bytes/op |\n\
|-----------|---------|-----------|-------------|----------|\n\
| replay | 1.0M (\u{2193}2.0%) | 0.1 (=) | 0.1 (=) | 8B (=) |\n\n";
    assert_eq!(c.to_markdown(), expected);
}

#[test]
fn comparison_without_throughput_has_no_throughput_table() {
    let mut c = sample_comparison();
    c.scenarios.truncate(1);
    assert!(!c.to_text().contains("Throughput"));
    assert!(!c.to_markdown().contains("Throughput"));
}

#[test]
fn embedded_comparison_tables() {
    let c = sample_comparison();
    let mut out = String::new();
    render_latency_comparison_embedded(&mut out, &MarkdownRenderer::new(), &c.scenarios);
    let row = strings(&["add", "1ns (=)", "2ns (\u{2191}5.0%)", "3ns (=)", "1ns (=)", "0.0 (=)", "0.0 (=)", "0B (=)"]);
    let mut expected = String::from("\n#### vs baseline\n\n");
    expected.push_str(&md_table(
        &["Operation", "p50", "p99", "p99.9", "mean", "allocs/op", "deallocs/op", "bytes/op"],
        &[row],
    ));
    assert_eq!(out, expected);

    let mut out = String::new();
    render_throughput_comparison_embedded(&mut out, &MarkdownRenderer::new(), &c.scenarios[..1]);
    assert_eq!(out, "");
    render_throughput_comparison_embedded(&mut out, &MarkdownRenderer::new(), &c.scenarios);
    assert!(out.starts_with("\n#### vs baseline\n\n| Operation | ops/sec |"));
    assert!(out.ends_with("| replay | 1.0M (\u{2193}2.0%) | 0.1 (=) | 0.1 (=) | 8B (=) | 3.0 (=) | 1.0KiB (=) |\n"));
}

#[test]
fn metric_names_for_dashboards() {
    assert_eq!(metric_name("LOB v1", "  Book ops \n", "add", true), "LOB v1 / Book ops / add (mean latency)");
    assert_eq!(metric_name("LOB v1", "   ", "replay", false), "LOB v1 / replay");
    assert_eq!(metric_name("", "", "x", false), " / x");
}
