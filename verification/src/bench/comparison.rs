//! A benchmark run compared against a baseline report, as plain text or Markdown.
use vstd::prelude::*;
use vstd::string::StringExecFns;
use crate::bench::renderer::{align_left, align_right, md_row_cells, push_align_left, push_align_right, push_repeat,
    repeat_char, strings_view, strs_view};
use crate::bench::report::{
    ComparisonCells, comparison_row, comparison_rows, latency_comparison_headers, latency_comparison_rows, rows_view,
    throughput_comparison_rows,
};

verus! {

/// The first `n` fields of a fixed-width line: the first aligned left, the others
/// aligned right after a space.
pub open spec fn fixed_fields(cells: Seq<Seq<char>>, widths: Seq<nat>, n: int) -> Seq<char>
    decreases n,
{
    if n <= 0 {
        Seq::empty()
    } else if n == 1 {
        align_left(cells[0], widths[0])
    } else {
        fixed_fields(cells, widths, n - 1) + " "@ + align_right(cells[n - 1], widths[n - 1])
    }
}

/// A fixed-width text line of the first `widths.len()` cells, indented by two spaces.
pub open spec fn text_line(cells: Seq<Seq<char>>, widths: Seq<nat>) -> Seq<char> {
    "  "@ + fixed_fields(cells, widths, widths.len() as int) + "\n"@
}

/// Fixed-width text lines of the first `n` rows.
pub open spec fn text_lines(rows: Seq<Seq<Seq<char>>>, widths: Seq<nat>, n: int) -> Seq<char>
    decreases n,
{
    if n <= 0 {
        Seq::empty()
    } else {
        text_lines(rows, widths, n - 1) + text_line(rows[n - 1], widths)
    }
}

/// A Markdown table line of all cells of `cells`.
pub open spec fn md_line(cells: Seq<Seq<char>>) -> Seq<char> {
    "|"@ + md_row_cells(cells, cells.len() as int) + "\n"@
}

/// Markdown table lines of the first `n` rows, each cut to its first `k` cells.
pub open spec fn md_lines(rows: Seq<Seq<Seq<char>>>, k: int, n: int) -> Seq<char>
    decreases n,
{
    if n <= 0 {
        Seq::empty()
    } else {
        md_lines(rows, k, n - 1) + md_line(rows[n - 1].take(k))
    }
}

pub open spec fn latency_widths() -> Seq<nat> {
    seq![30, 18, 18, 18, 18, 14, 14, 14]
}

pub open spec fn throughput_widths() -> Seq<nat> {
    seq![30, 14, 14, 14, 14]
}

pub open spec fn throughput_summary_headers() -> Seq<Seq<char>> {
    seq!["Operation"@, "ops/sec"@, "allocs/op"@, "deallocs/op"@, "bytes/op"@]
}

/// The result of comparing a run with a baseline report.
pub struct Comparison {
    pub baseline_title: String,
    pub baseline_timestamp: String,
    pub scenarios: Vec<ComparisonCells>,
}

impl Comparison {
    pub open spec fn latency_rows(&self) -> Seq<Seq<Seq<char>>> {
        latency_comparison_rows(self.scenarios@, self.scenarios@.len() as int)
    }

    pub open spec fn throughput_rows(&self) -> Seq<Seq<Seq<char>>> {
        throughput_comparison_rows(self.scenarios@, self.scenarios@.len() as int)
    }

    pub open spec fn text(&self) -> Seq<char> {
        let thr = self.throughput_rows();
        "\n  Comparison vs baseline: \""@ + self.baseline_title@ + "\" ("@ + self.baseline_timestamp@ + ")\n\n"@
            + text_line(latency_comparison_headers(), latency_widths()) + "  "@ + repeat_char('\u{2500}', 132)
            + "\n"@ + text_lines(self.latency_rows(), latency_widths(), self.latency_rows().len() as int) + (if thr.len()
            > 0 {
            "\n  Throughput\n"@ + text_line(throughput_summary_headers(), throughput_widths()) + "  "@ + repeat_char(
                '\u{2500}',
                90,
            ) + "\n"@ + text_lines(thr, throughput_widths(), thr.len() as int)
        } else {
            Seq::empty()
        }) + "\n"@
    }

    pub open spec fn markdown(&self) -> Seq<char> {
        let thr = self.throughput_rows();
        "\n## Comparison vs Baseline\n\n> Baseline: \""@ + self.baseline_title@ + "\" ("@ + self.baseline_timestamp@
            + ")\n\n"@ + "| Operation | p50 | p99 | p99.9 | mean | allocs/op | deallocs/op | bytes/op |\n"@
            + "|-----------|-----|-----|-------|------|-----------|-------------|----------|\n"@ + md_lines(
            self.latency_rows(),
            8,
            self.latency_rows().len() as int,
        ) + (if thr.len() > 0 {
            "\n### Throughput\n\n"@ + "| Operation | ops/sec | allocs/op | deallocs/op | bytes/op |\n"@
                + "|-----------|---------|-----------|-------------|----------|\n"@ + md_lines(thr, 5, thr.len() as int)
        } else {
            Seq::empty()
        }) + "\n"@
    }

    /// The comparison as aligned plain text: a latency table and, if there are
    /// throughput scenarios, a throughput table.
    pub fn to_text(&self) -> (r: String)
        ensures
            r@ == self.text(),
    {
        let mut out = String::new();
        out.append("\n  Comparison vs baseline: \"");
        out.append(self.baseline_title.as_str());
        out.append("\" (");
        out.append(self.baseline_timestamp.as_str());
        out.append(")\n\n");
        let lat_widths: Vec<usize> = vec![30, 18, 18, 18, 18, 14, 14, 14];
        let lat_headers = vec!["Operation", "p50", "p99", "p99.9", "mean", "allocs/op", "deallocs/op", "bytes/op"];
        proof {
            assert(strs_view(lat_headers@) =~= latency_comparison_headers());
            assert(widths_view(lat_widths@) =~= latency_widths());
        }
        push_text_line(&mut out, &lat_headers, &lat_widths);
        out.append("  ");
        proof {
            reveal_strlit("\u{2500}");
        }
        push_repeat(&mut out, "\u{2500}", 132);
        out.append("\n");
        let latency = comparison_rows(self.scenarios.as_slice(), true);
        proof {
            lemma_comparison_row_lens(self.scenarios@, self.scenarios@.len() as int);
            assert forall|i: int| 0 <= i < latency@.len() implies (#[trigger] latency@[i])@.len() >= lat_widths@.len() by {
                assert(rows_view(latency@)[i] == strings_view(latency@[i]@));
            }
        }
        push_text_lines(&mut out, &latency, &lat_widths);
        let ghost mid = out@;
        let throughput = comparison_rows(self.scenarios.as_slice(), false);
        if throughput.len() > 0 {
            out.append("\n  Throughput\n");
            let thr_widths: Vec<usize> = vec![30, 14, 14, 14, 14];
            let thr_headers = vec!["Operation", "ops/sec", "allocs/op", "deallocs/op", "bytes/op"];
            proof {
                assert(strs_view(thr_headers@) =~= throughput_summary_headers());
                assert(widths_view(thr_widths@) =~= throughput_widths());
            }
            push_text_line(&mut out, &thr_headers, &thr_widths);
            out.append("  ");
            push_repeat(&mut out, "\u{2500}", 90);
            out.append("\n");
            proof {
                assert forall|i: int| 0 <= i < throughput@.len() implies (#[trigger] throughput@[i])@.len()
                    >= thr_widths@.len() by {
                    assert(rows_view(throughput@)[i] == strings_view(throughput@[i]@));
                }
            }
            push_text_lines(&mut out, &throughput, &thr_widths);
        }
        out.append("\n");
        proof {
            assert(out@ =~= self.text());
        }
        out
    }

    /// The comparison as Markdown tables.
    pub fn to_markdown(&self) -> (r: String)
        ensures
            r@ == self.markdown(),
    {
        let mut out = String::new();
        out.append("\n## Comparison vs Baseline\n\n> Baseline: \"");
        out.append(self.baseline_title.as_str());
        out.append("\" (");
        out.append(self.baseline_timestamp.as_str());
        out.append(")\n\n");
        out.append("| Operation | p50 | p99 | p99.9 | mean | allocs/op | deallocs/op | bytes/op |\n");
        out.append("|-----------|-----|-----|-------|------|-----------|-------------|----------|\n");
        let latency = comparison_rows(self.scenarios.as_slice(), true);
        proof {
            lemma_comparison_row_lens(self.scenarios@, self.scenarios@.len() as int);
            assert forall|i: int| 0 <= i < latency@.len() implies (#[trigger] latency@[i])@.len() >= 8 by {
                assert(rows_view(latency@)[i] == strings_view(latency@[i]@));
            }
        }
        push_md_lines(&mut out, &latency, 8);
        let throughput = comparison_rows(self.scenarios.as_slice(), false);
        if throughput.len() > 0 {
            out.append("\n### Throughput\n\n");
            out.append("| Operation | ops/sec | allocs/op | deallocs/op | bytes/op |\n");
            out.append("|-----------|---------|-----------|-------------|----------|\n");
            proof {
                assert forall|i: int| 0 <= i < throughput@.len() implies (#[trigger] throughput@[i])@.len() >= 5 by {
                    assert(rows_view(throughput@)[i] == strings_view(throughput@[i]@));
                }
            }
            push_md_lines(&mut out, &throughput, 5);
        }
        out.append("\n");
        proof {
            assert(out@ =~= self.markdown());
        }
        out
    }
}

proof fn lemma_comparison_row_lens(s: Seq<ComparisonCells>, n: int)
    ensures
        forall|i: int|
            0 <= i < latency_comparison_rows(s, n).len() ==> (#[trigger] latency_comparison_rows(s, n)[i]).len() == 8,
        forall|i: int|
            0 <= i < throughput_comparison_rows(s, n).len() ==> (#[trigger] throughput_comparison_rows(s, n)[i]).len()
                == 7,
    decreases n,
{
    if n > 0 {
        lemma_comparison_row_lens(s, n - 1);
        let lp = latency_comparison_rows(s, n - 1);
        let tp = throughput_comparison_rows(s, n - 1);
        match s[n - 1] {
            ComparisonCells::Latency { .. } => {
                assert(comparison_row(s[n - 1]).len() == 8);
                assert forall|i: int| 0 <= i < latency_comparison_rows(s, n).len() implies (#[trigger] latency_comparison_rows(s, n)[i]).len() == 8 by {
                    if i < lp.len() {
                        assert(latency_comparison_rows(s, n)[i] == lp[i]);
                    }
                }
            },
            ComparisonCells::Throughput { .. } => {
                assert(comparison_row(s[n - 1]).len() == 7);
                assert forall|i: int| 0 <= i < throughput_comparison_rows(s, n).len() implies (#[trigger] throughput_comparison_rows(s, n)[i]).len() == 7 by {
                    if i < tp.len() {
                        assert(throughput_comparison_rows(s, n)[i] == tp[i]);
                    }
                }
            },
        }
    }
}

/// The widths `w` as naturals.
pub open spec fn widths_view(w: Seq<usize>) -> Seq<nat> {
    w.map_values(|x: usize| x as nat)
}

/// Append a fixed-width line of the first `widths.len()` cells.
fn push_text_line(out: &mut String, cells: &Vec<&str>, widths: &Vec<usize>)
    requires
        1 <= widths@.len() <= cells@.len(),
    ensures
        final(out)@ == old(out)@ + text_line(strs_view(cells@), widths_view(widths@)),
{
    out.append("  ");
    let ghost start = out@;
    push_align_left(out, cells[0], widths[0]);
    let n = widths.len();
    let mut i: usize = 1;
    while i < n
        invariant
            n == widths@.len(),
            1 <= i <= n,
            n <= cells@.len(),
            out@ == start + fixed_fields(strs_view(cells@), widths_view(widths@), i as int),
        decreases n - i,
    {
        out.append(" ");
        push_align_right(out, cells[i], widths[i]);
        proof {
            assert(out@ =~= start + fixed_fields(strs_view(cells@), widths_view(widths@), (i + 1) as int));
        }
        i = i + 1;
    }
    out.append("\n");
    proof {
        assert(out@ =~= old(out)@ + text_line(strs_view(cells@), widths_view(widths@)));
    }
}

/// The cells of `row` as string slices.
fn as_strs(row: &Vec<String>) -> (r: Vec<&str>)
    ensures
        strs_view(r@) == strings_view(row@),
{
    let mut r: Vec<&str> = Vec::new();
    let mut i: usize = 0;
    while i < row.len()
        invariant
            i <= row@.len(),
            strs_view(r@) == strings_view(row@.take(i as int)),
        decreases row@.len() - i,
    {
        let ghost r0 = r@;
        let s = row[i].as_str();
        r.push(s);
        proof {
            assert(row@.take(i + 1) =~= row@.take(i as int).push(row@[i as int]));
            assert(strs_view(r@) =~= strs_view(r0).push(s@));
            assert(strs_view(r@) =~= strings_view(row@.take((i + 1) as int)));
        }
        i = i + 1;
    }
    proof {
        assert(row@.take(row@.len() as int) =~= row@);
    }
    r
}

/// Append a fixed-width line for each row; every row has a cell for each width.
fn push_text_lines(out: &mut String, rows: &Vec<Vec<String>>, widths: &Vec<usize>)
    requires
        widths@.len() >= 1,
        forall|i: int| 0 <= i < rows@.len() ==> (#[trigger] rows@[i])@.len() >= widths@.len(),
    ensures
        final(out)@ == old(out)@ + text_lines(rows_view(rows@), widths_view(widths@), rows@.len() as int),
{
    let mut i: usize = 0;
    while i < rows.len()
        invariant
            i <= rows@.len(),
            widths@.len() >= 1,
            forall|j: int| 0 <= j < rows@.len() ==> (#[trigger] rows@[j])@.len() >= widths@.len(),
            out@ == old(out)@ + text_lines(rows_view(rows@), widths_view(widths@), i as int),
        decreases rows@.len() - i,
    {
        let cells = as_strs(&rows[i]);
        assert(cells@.len() == strs_view(cells@).len());
        assert(rows@[i as int]@.len() == strings_view(rows@[i as int]@).len());
        push_text_line(out, &cells, widths);
        proof {
            assert(rows_view(rows@)[i as int] == strings_view(rows@[i as int]@));
            assert(out@ =~= old(out)@ + text_lines(rows_view(rows@), widths_view(widths@), (i + 1) as int));
        }
        i = i + 1;
    }
}

/// Append a Markdown line for each row, cut to its first `k` cells.
fn push_md_lines(out: &mut String, rows: &Vec<Vec<String>>, k: usize)
    requires
        forall|i: int| 0 <= i < rows@.len() ==> (#[trigger] rows@[i])@.len() >= k,
    ensures
        final(out)@ == old(out)@ + md_lines(rows_view(rows@), k as int, rows@.len() as int),
{
    let mut i: usize = 0;
    while i < rows.len()
        invariant
            i <= rows@.len(),
            forall|j: int| 0 <= j < rows@.len() ==> (#[trigger] rows@[j])@.len() >= k,
            out@ == old(out)@ + md_lines(rows_view(rows@), k as int, i as int),
        decreases rows@.len() - i,
    {
        let row = &rows[i];
        let m = k;
        let ghost cells = rows_view(rows@)[i as int].take(k as int);
        assert(cells == strings_view(row@).take(k as int));
        assert(strings_view(row@).len() == row@.len());
        let ghost start = out@;
        out.append("|");
        let mut j: usize = 0;
        while j < m
            invariant
                m == cells.len(),
                m <= row@.len(),
                m == k,
                strings_view(row@).len() == row@.len(),
                j <= m,
                cells == strings_view(row@).take(k as int),
                out@ == start + "|"@ + md_row_cells(cells, j as int),
            decreases m - j,
        {
            out.append(" ");
            out.append(row[j].as_str());
            out.append(" |");
            proof {
                assert(strings_view(row@)[j as int] == row@[j as int]@);
                assert(strings_view(row@).take(k as int)[j as int] == strings_view(row@)[j as int]);
                assert(cells[j as int] == row@[j as int]@);
                assert(out@ =~= start + "|"@ + md_row_cells(cells, (j + 1) as int));
            }
            j = j + 1;
        }
        out.append("\n");
        proof {
            assert(out@ =~= old(out)@ + md_lines(rows_view(rows@), k as int, (i + 1) as int));
        }
        i = i + 1;
    }
}

} // verus!
