use hft_demos::bench::renderer::{MarkdownRenderer, Renderer, TextRenderer};

#[test]
fn text_col_width_has_floors() {
    assert_eq!(TextRenderer::col_width(0, "Operation"), 28);
    assert_eq!(TextRenderer::col_width(1, "p50"), 10);
    assert_eq!(TextRenderer::col_width(1, "a very long header"), 18);
    assert_eq!(TextRenderer::col_width(0, "an even longer header, over 28 bytes"), 36);
}

#[test]
fn text_heading_and_properties() {
    let r = TextRenderer;
    let mut out = String::new();
    r.render_heading(&mut out, 3, "Latency");
    assert_eq!(out, "\n  Latency\n");

    let mut out = String::new();
    let props = vec![("CPU", "x86".to_string()), ("Memory", "16 GB".to_string())];
    r.render_properties(&mut out, &props);
    let width = 7;
    let mut expected = String::from("\n");
    for (k, v) in &props {
        expected.push_str(&format!("  {:<width$} {}\n", format!("{k}:"), v, width = width));
    }
    assert_eq!(out, expected);
    assert_eq!(out, "\n  CPU:    x86\n  Memory: 16 GB\n");
}

#[test]
fn text_table_matches_std_alignment() {
    let r = TextRenderer;
    let headers = ["Operation", "p50", "allocs/op"];
    let mut out = String::new();
    r.render_table_start(&mut out, &headers);
    let expected = format!(
        "\n  {:>28} {:>10} {:>10}\n  {}\n",
        "Operation",
        "p50",
        "allocs/op",
        "\u{2500}".repeat(28 + 1 + 10 + 1 + 10)
    );
    assert_eq!(out, expected);

    let mut row = String::new();
    let cells = vec!["add".to_string(), "1.2\u{03bc}s (\u{2191}3.0%)".to_string(), "0.0".to_string()];
    r.render_table_row(&mut row, &headers, &cells);
    let expected = format!("  {:>28} {:>10} {:>10}\n", cells[0], cells[1], cells[2]);
    assert_eq!(row, expected);
}

#[test]
fn text_row_stops_at_shorter_of_cells_and_headers() {
    let r = TextRenderer;
    let mut row = String::new();
    r.render_table_row(&mut row, &["a", "b"], &["x".to_string()]);
    assert_eq!(row, format!("  {:>28}\n", "x"));
}

#[test]
fn markdown_heading_levels() {
    let r = MarkdownRenderer::new();
    let mut out = String::new();
    r.render_heading(&mut out, 0, "Top");
    r.render_heading(&mut out, 4, "vs baseline");
    assert_eq!(out, "\n# Top\n\n\n#### vs baseline\n\n");
}

#[test]
fn markdown_properties_and_table() {
    let r = MarkdownRenderer::default();
    let mut out = String::new();
    r.render_properties(&mut out, &[("Rust", "1.85".to_string())]);
    assert_eq!(out, "| Property | Value |\n|----------|-------|\n| Rust | 1.85 |\n");

    let mut out = String::new();
    r.render_table_start(&mut out, &["Operation", "p50"]);
    r.render_table_row(&mut out, &["Operation", "p50"], &["add".to_string(), "12ns".to_string()]);
    assert_eq!(out, "| Operation | p50 |\n|-----------|-----|\n| add | 12ns |\n");
}

#[test]
fn markdown_flamegraph_link() {
    let mut out = String::new();
    MarkdownRenderer::new().render_throughput_extra(&mut out);
    assert_eq!(out, "");
    let r = MarkdownRenderer::with_flamegraph("flamegraph.svg");
    assert_eq!(r.flamegraph_path.as_deref(), Some("flamegraph.svg"));
    r.render_throughput_extra(&mut out);
    assert_eq!(out, "![Flame graph](flamegraph.svg)\n\n");
    let mut text = String::from("keep");
    TextRenderer.render_throughput_extra(&mut text);
    assert_eq!(text, "keep");
}
