//! Renderers for benchmark reports: one writes aligned plain text, the other
//! Markdown.
use vstd::prelude::*;
use vstd::string::{StrSliceExecFns, StringExecFns};
use vstd::utf8::encode_utf8;

verus! {

/// `n` copies of `c`.
pub open spec fn repeat_char(c: char, n: nat) -> Seq<char> {
    Seq::new(n, |_i: int| c)
}

/// `s` aligned right in a field of `w` characters (`{:>w$}`).
pub open spec fn align_right(s: Seq<char>, w: nat) -> Seq<char> {
    if s.len() < w {
        repeat_char(' ', (w - s.len()) as nat) + s
    } else {
        s
    }
}

/// `s` aligned left in a field of `w` characters (`{:<w$}`).
pub open spec fn align_left(s: Seq<char>, w: nat) -> Seq<char> {
    if s.len() < w {
        s + repeat_char(' ', (w - s.len()) as nat)
    } else {
        s
    }
}

/// Length of the text `s` in bytes of UTF-8.
pub open spec fn byte_len(s: Seq<char>) -> nat {
    encode_utf8(s).len()
}

/// The texts of `s`.
pub open spec fn strs_view(s: Seq<&str>) -> Seq<Seq<char>> {
    s.map_values(|x: &str| x@)
}

/// The texts of `s`.
pub open spec fn strings_view(s: Seq<String>) -> Seq<Seq<char>> {
    s.map_values(|x: String| x@)
}

/// The texts of the name-value pairs `s`.
pub open spec fn props_view(s: Seq<(&str, String)>) -> Seq<(Seq<char>, Seq<char>)> {
    s.map_values(|x: (&str, String)| (x.0@, x.1@))
}

/// Append `n` copies of the one-character string `unit`.
pub(crate) fn push_repeat(out: &mut String, unit: &str, n: usize)
    requires
        unit@.len() == 1,
    ensures
        final(out)@ == old(out)@ + repeat_char(unit@[0], n as nat),
{
    let mut i: usize = 0;
    while i < n
        invariant
            i <= n,
            unit@.len() == 1,
            out@ == old(out)@ + repeat_char(unit@[0], i as nat),
        decreases n - i,
    {
        out.append(unit);
        proof {
            assert(repeat_char(unit@[0], i as nat) + unit@ =~= repeat_char(unit@[0], (i + 1) as nat));
        }
        i = i + 1;
    }
}

/// Append `s` aligned right in a field of `w` characters.
pub(crate) fn push_align_right(out: &mut String, s: &str, w: usize)
    ensures
        final(out)@ == old(out)@ + align_right(s@, w as nat),
{
    let n = s.unicode_len();
    if n < w {
        proof {
            reveal_strlit(" ");
        }
        push_repeat(out, " ", w - n);
    }
    out.append(s);
    proof {
        assert(out@ =~= old(out)@ + align_right(s@, w as nat));
    }
}

/// Append `s` aligned left in a field of `w` characters.
pub(crate) fn push_align_left(out: &mut String, s: &str, w: usize)
    ensures
        final(out)@ == old(out)@ + align_left(s@, w as nat),
{
    let n = s.unicode_len();
    out.append(s);
    if n < w {
        proof {
            reveal_strlit(" ");
        }
        push_repeat(out, " ", w - n);
    }
    proof {
        assert(out@ =~= old(out)@ + align_left(s@, w as nat));
    }
}

/// Writes report sections into a `String`. Each method appends to `out` the text
/// that the matching spec function gives.
pub trait Renderer {
    spec fn heading_text(&self, level: u8, title: Seq<char>) -> Seq<char>;

    spec fn properties_text(&self, props: Seq<(Seq<char>, Seq<char>)>) -> Seq<char>;

    spec fn table_start_text(&self, headers: Seq<Seq<char>>) -> Seq<char>;

    spec fn table_row_text(&self, headers: Seq<Seq<char>>, cells: Seq<Seq<char>>) -> Seq<char>;

    spec fn throughput_extra_text(&self) -> Seq<char>;

    /// The property list can be laid out within machine limits.
    spec fn properties_fit(&self, props: Seq<(Seq<char>, Seq<char>)>) -> bool;

    /// The table header can be laid out within machine limits.
    spec fn headers_fit(&self, headers: Seq<Seq<char>>) -> bool;

    fn render_heading(&self, out: &mut String, level: u8, title: &str)
        ensures
            final(out)@ == old(out)@ + self.heading_text(level, title@),
    ;

    fn render_properties(&self, out: &mut String, props: &[(&str, String)])
        requires
            self.properties_fit(props_view(props@)),
        ensures
            final(out)@ == old(out)@ + self.properties_text(props_view(props@)),
    ;

    fn render_table_start(&self, out: &mut String, headers: &[&str])
        requires
            self.headers_fit(strs_view(headers@)),
        ensures
            final(out)@ == old(out)@ + self.table_start_text(strs_view(headers@)),
    ;

    fn render_table_row(&self, out: &mut String, headers: &[&str], cells: &[String])
        ensures
            final(out)@ == old(out)@ + self.table_row_text(strs_view(headers@), strings_view(cells@)),
    ;

    /// Extra content after the throughput section heading (an image link, say).
    fn render_throughput_extra(&self, out: &mut String)
        ensures
            final(out)@ == old(out)@ + self.throughput_extra_text(),
    ;
}

// ---------------------------------------------------------------------------
//  Text
// ---------------------------------------------------------------------------

/// Width of text table column `i` with header `h`: the header's byte length, and at
/// least 28 for the first column and 10 for the others.
pub open spec fn text_col_width(i: int, h: Seq<char>) -> nat {
    let floor: nat = if i == 0 { 28 } else { 10 };
    if byte_len(h) > floor { byte_len(h) } else { floor }
}

/// Cell `i` of a text table line: a separating space before all but the first,
/// then `s` aligned right in `w` characters.
pub open spec fn text_cell(i: int, s: Seq<char>, w: nat) -> Seq<char> {
    (if i == 0 { Seq::<char>::empty() } else { seq![' '] }) + align_right(s, w)
}

/// The first `n` header cells of a text table.
pub open spec fn text_header_cells(headers: Seq<Seq<char>>, n: int) -> Seq<char>
    decreases n,
{
    if n <= 0 {
        Seq::empty()
    } else {
        text_header_cells(headers, n - 1) + text_cell(n - 1, headers[n - 1], text_col_width(n - 1, headers[n - 1]))
    }
}

/// Width of the first `n` columns of a text table, separating spaces included.
pub open spec fn text_rule_width(headers: Seq<Seq<char>>, n: int) -> nat
    decreases n,
{
    if n <= 0 {
        0
    } else if n == 1 {
        text_col_width(0, headers[0])
    } else {
        text_rule_width(headers, n - 1) + 1 + text_col_width(n - 1, headers[n - 1])
    }
}

/// The first `n` cells of a text table row, each aligned under its header.
pub open spec fn text_row_cells(headers: Seq<Seq<char>>, cells: Seq<Seq<char>>, n: int) -> Seq<char>
    decreases n,
{
    if n <= 0 {
        Seq::empty()
    } else {
        text_row_cells(headers, cells, n - 1) + text_cell(n - 1, cells[n - 1], text_col_width(n - 1, headers[n - 1]))
    }
}

/// Longest byte length of the first `n` property names.
pub open spec fn max_key_len(props: Seq<(Seq<char>, Seq<char>)>, n: int) -> nat
    decreases n,
{
    if n <= 0 {
        0
    } else {
        let m = max_key_len(props, n - 1);
        if byte_len(props[n - 1].0) > m { byte_len(props[n - 1].0) } else { m }
    }
}

/// The first `n` property lines of a text property list whose labels take `w`
/// characters.
pub open spec fn text_prop_lines(props: Seq<(Seq<char>, Seq<char>)>, w: nat, n: int) -> Seq<char>
    decreases n,
{
    if n <= 0 {
        Seq::empty()
    } else {
        text_prop_lines(props, w, n - 1) + "  "@ + align_left(props[n - 1].0 + ":"@, w) + " "@ + props[n - 1].1
            + "\n"@
    }
}

proof fn lemma_rule_width_grows(headers: Seq<Seq<char>>, a: int, b: int)
    requires
        a <= b,
    ensures
        text_rule_width(headers, a) <= text_rule_width(headers, b),
    decreases b - a,
{
    if a < b {
        lemma_rule_width_grows(headers, a, b - 1);
    }
}

/// Plain-text renderer: aligned columns under a rule of box-drawing characters.
#[derive(Debug, Clone, Copy)]
pub struct TextRenderer;

impl TextRenderer {
    /// Width of column `i` with header `header`.
    pub fn col_width(i: usize, header: &str) -> (r: usize)
        ensures
            r == text_col_width(i as int, header@),
    {
        let n = header.as_bytes().len();
        if i == 0 {
            if n > 28 { n } else { 28 }
        } else {
            if n > 10 { n } else { 10 }
        }
    }
}

impl Renderer for TextRenderer {
    open spec fn heading_text(&self, level: u8, title: Seq<char>) -> Seq<char> {
        "\n  "@ + title + "\n"@
    }

    open spec fn properties_text(&self, props: Seq<(Seq<char>, Seq<char>)>) -> Seq<char> {
        "\n"@ + text_prop_lines(props, max_key_len(props, props.len() as int) + 1, props.len() as int)
    }

    open spec fn table_start_text(&self, headers: Seq<Seq<char>>) -> Seq<char> {
        "\n"@ + "  "@ + text_header_cells(headers, headers.len() as int) + "\n"@ + "  "@ + repeat_char(
            '\u{2500}',
            text_rule_width(headers, headers.len() as int),
        ) + "\n"@
    }

    open spec fn table_row_text(&self, headers: Seq<Seq<char>>, cells: Seq<Seq<char>>) -> Seq<char> {
        let n = if cells.len() < headers.len() { cells.len() } else { headers.len() };
        "  "@ + text_row_cells(headers, cells, n as int) + "\n"@
    }

    open spec fn throughput_extra_text(&self) -> Seq<char> {
        Seq::empty()
    }

    open spec fn properties_fit(&self, props: Seq<(Seq<char>, Seq<char>)>) -> bool {
        max_key_len(props, props.len() as int) < usize::MAX
    }

    open spec fn headers_fit(&self, headers: Seq<Seq<char>>) -> bool {
        &&& headers.len() >= 1
        &&& text_rule_width(headers, headers.len() as int) <= usize::MAX
    }

    fn render_heading(&self, out: &mut String, _level: u8, title: &str) {
        out.append("\n  ");
        out.append(title);
        out.append("\n");
    }

    fn render_properties(&self, out: &mut String, props: &[(&str, String)]) {
        out.append("\n");
        let n = props.len();
        let mut longest: usize = 0;
        let mut i: usize = 0;
        while i < n
            invariant
                n == props@.len(),
                i <= n,
                longest == max_key_len(props_view(props@), i as int),
                self.properties_fit(props_view(props@)),
            decreases n - i,
        {
            proof {
                lemma_max_key_len_grows(props_view(props@), (i + 1) as int, n as int);
            }
            let k = props[i].0.len();
            if k > longest {
                longest = k;
            }
            i = i + 1;
        }
        let label_width = longest + 1;
        let ghost start = out@;
        let mut j: usize = 0;
        while j < n
            invariant
                n == props@.len(),
                j <= n,
                label_width == max_key_len(props_view(props@), n as int) + 1,
                out@ == start + text_prop_lines(props_view(props@), label_width as nat, j as int),
            decreases n - j,
        {
            let (key, value) = &props[j];
            out.append("  ");
            let mut label = String::from_str(key);
            label.append(":");
            push_align_left(out, label.as_str(), label_width);
            out.append(" ");
            out.append(value.as_str());
            out.append("\n");
            proof {
                assert(out@ =~= start + text_prop_lines(props_view(props@), label_width as nat, (j + 1) as int));
            }
            j = j + 1;
        }
        proof {
            assert(out@ =~= old(out)@ + self.properties_text(props_view(props@)));
        }
    }

    fn render_table_start(&self, out: &mut String, headers: &[&str]) {
        out.append("\n");
        out.append("  ");
        let n = headers.len();
        let ghost start = out@;
        let mut i: usize = 0;
        while i < n
            invariant
                n == headers@.len(),
                i <= n,
                out@ == start + text_header_cells(strs_view(headers@), i as int),
            decreases n - i,
        {
            let h = headers[i];
            let w = TextRenderer::col_width(i, h);
            if i != 0 {
                out.append(" ");
            }
            proof {
                reveal_strlit(" ");
            }
            push_align_right(out, h, w);
            proof {
                assert(out@ =~= start + text_header_cells(strs_view(headers@), (i + 1) as int));
            }
            i = i + 1;
        }
        out.append("\n");
        let mut total = TextRenderer::col_width(0, headers[0]);
        let mut j: usize = 1;
        while j < n
            invariant
                n == headers@.len(),
                1 <= j <= n,
                total == text_rule_width(strs_view(headers@), j as int),
                text_rule_width(strs_view(headers@), n as int) <= usize::MAX,
            decreases n - j,
        {
            proof {
                lemma_rule_width_grows(strs_view(headers@), (j + 1) as int, n as int);
            }
            total = total + 1 + TextRenderer::col_width(j, headers[j]);
            j = j + 1;
        }
        out.append("  ");
        proof {
            reveal_strlit("\u{2500}");
        }
        push_repeat(out, "\u{2500}", total);
        out.append("\n");
        proof {
            assert(out@ =~= old(out)@ + self.table_start_text(strs_view(headers@)));
        }
    }

    fn render_table_row(&self, out: &mut String, headers: &[&str], cells: &[String]) {
        out.append("  ");
        let n = if cells.len() < headers.len() { cells.len() } else { headers.len() };
        let ghost start = out@;
        let mut i: usize = 0;
        while i < n
            invariant
                n <= headers@.len(),
                n <= cells@.len(),
                i <= n,
                out@ == start + text_row_cells(strs_view(headers@), strings_view(cells@), i as int),
            decreases n - i,
        {
            let w = TextRenderer::col_width(i, headers[i]);
            if i != 0 {
                out.append(" ");
            }
            proof {
                reveal_strlit(" ");
            }
            push_align_right(out, cells[i].as_str(), w);
            proof {
                assert(out@ =~= start + text_row_cells(strs_view(headers@), strings_view(cells@), (i + 1) as int));
            }
            i = i + 1;
        }
        out.append("\n");
        proof {
            assert(out@ =~= old(out)@ + self.table_row_text(strs_view(headers@), strings_view(cells@)));
        }
    }

    fn render_throughput_extra(&self, out: &mut String) {
        proof {
            assert(out@ =~= old(out)@ + self.throughput_extra_text());
        }
    }
}

proof fn lemma_max_key_len_grows(props: Seq<(Seq<char>, Seq<char>)>, a: int, b: int)
    requires
        a <= b,
    ensures
        max_key_len(props, a) <= max_key_len(props, b),
    decreases b - a,
{
    if a < b {
        lemma_max_key_len_grows(props, a, b - 1);
    }
}

// ---------------------------------------------------------------------------
//  Markdown
// ---------------------------------------------------------------------------

/// The first `n` property rows of a Markdown property table.
pub open spec fn md_prop_rows(props: Seq<(Seq<char>, Seq<char>)>, n: int) -> Seq<char>
    decreases n,
{
    if n <= 0 {
        Seq::empty()
    } else {
        md_prop_rows(props, n - 1) + "| "@ + props[n - 1].0 + " | "@ + props[n - 1].1 + " |\n"@
    }
}

/// The first `n` header cells of a Markdown table: ` header |` each.
pub open spec fn md_header_cells(headers: Seq<Seq<char>>, n: int) -> Seq<char>
    decreases n,
{
    if n <= 0 {
        Seq::empty()
    } else {
        md_header_cells(headers, n - 1) + " "@ + headers[n - 1] + " |"@
    }
}

/// The first `n` separator cells of a Markdown table: dashes two wider than the
/// header's byte length, then `|`.
pub open spec fn md_rule_cells(headers: Seq<Seq<char>>, n: int) -> Seq<char>
    decreases n,
{
    if n <= 0 {
        Seq::empty()
    } else {
        md_rule_cells(headers, n - 1) + repeat_char('-', byte_len(headers[n - 1]) + 2) + "|"@
    }
}

/// The first `n` cells of a Markdown table row.
pub open spec fn md_row_cells(cells: Seq<Seq<char>>, n: int) -> Seq<char>
    decreases n,
{
    if n <= 0 {
        Seq::empty()
    } else {
        md_row_cells(cells, n - 1) + " "@ + cells[n - 1] + " |"@
    }
}

/// Markdown renderer; may add a flame graph image link after the throughput heading.
#[derive(Debug)]
pub struct MarkdownRenderer {
    /// If set, a Markdown image link to this path follows the throughput heading.
    pub flamegraph_path: Option<String>,
}

impl MarkdownRenderer {
    /// Renderer without flame graph link.
    pub fn new() -> (r: Self)
        ensures
            r.flamegraph_path is None,
    {
        MarkdownRenderer { flamegraph_path: None }
    }

    /// Renderer that adds `![Flame graph](path)` after the throughput heading.
    pub fn with_flamegraph(path: &str) -> (r: Self)
        ensures
            r.flamegraph_path matches Some(p) && p@ == path@,
    {
        MarkdownRenderer { flamegraph_path: Some(String::from_str(path)) }
    }
}

impl Default for MarkdownRenderer {
    fn default() -> (r: Self)
        ensures
            r.flamegraph_path is None,
    {
        MarkdownRenderer::new()
    }
}

impl Renderer for MarkdownRenderer {
    open spec fn heading_text(&self, level: u8, title: Seq<char>) -> Seq<char> {
        "\n"@ + repeat_char('#', if level < 1 { 1 } else { level as nat }) + " "@ + title + "\n\n"@
    }

    open spec fn properties_text(&self, props: Seq<(Seq<char>, Seq<char>)>) -> Seq<char> {
        "| Property | Value |\n"@ + "|----------|-------|\n"@ + md_prop_rows(props, props.len() as int)
    }

    open spec fn table_start_text(&self, headers: Seq<Seq<char>>) -> Seq<char> {
        "|"@ + md_header_cells(headers, headers.len() as int) + "\n"@ + "|"@ + md_rule_cells(
            headers,
            headers.len() as int,
        ) + "\n"@
    }

    open spec fn table_row_text(&self, headers: Seq<Seq<char>>, cells: Seq<Seq<char>>) -> Seq<char> {
        "|"@ + md_row_cells(cells, cells.len() as int) + "\n"@
    }

    open spec fn throughput_extra_text(&self) -> Seq<char> {
        match self.flamegraph_path {
            Some(p) => "![Flame graph]("@ + p@ + ")\n\n"@,
            None => Seq::empty(),
        }
    }

    open spec fn properties_fit(&self, props: Seq<(Seq<char>, Seq<char>)>) -> bool {
        true
    }

    open spec fn headers_fit(&self, headers: Seq<Seq<char>>) -> bool {
        forall|i: int| 0 <= i < headers.len() ==> byte_len(#[trigger] headers[i]) + 2 <= usize::MAX
    }

    fn render_heading(&self, out: &mut String, level: u8, title: &str) {
        let level: usize = if level < 1 { 1 } else { level as usize };
        out.append("\n");
        proof {
            reveal_strlit("#");
        }
        push_repeat(out, "#", level);
        out.append(" ");
        out.append(title);
        out.append("\n\n");
    }

    fn render_properties(&self, out: &mut String, props: &[(&str, String)]) {
        out.append("| Property | Value |\n");
        out.append("|----------|-------|\n");
        let n = props.len();
        let ghost start = out@;
        let mut i: usize = 0;
        while i < n
            invariant
                n == props@.len(),
                i <= n,
                out@ == start + md_prop_rows(props_view(props@), i as int),
            decreases n - i,
        {
            let (key, value) = &props[i];
            out.append("| ");
            out.append(key);
            out.append(" | ");
            out.append(value.as_str());
            out.append(" |\n");
            proof {
                assert(out@ =~= start + md_prop_rows(props_view(props@), (i + 1) as int));
            }
            i = i + 1;
        }
        proof {
            assert(out@ =~= old(out)@ + self.properties_text(props_view(props@)));
        }
    }

    fn render_table_start(&self, out: &mut String, headers: &[&str]) {
        out.append("|");
        let n = headers.len();
        let ghost start = out@;
        let mut i: usize = 0;
        while i < n
            invariant
                n == headers@.len(),
                i <= n,
                out@ == start + md_header_cells(strs_view(headers@), i as int),
            decreases n - i,
        {
            out.append(" ");
            out.append(headers[i]);
            out.append(" |");
            proof {
                assert(out@ =~= start + md_header_cells(strs_view(headers@), (i + 1) as int));
            }
            i = i + 1;
        }
        out.append("\n");
        out.append("|");
        let ghost mid = out@;
        let mut j: usize = 0;
        while j < n
            invariant
                n == headers@.len(),
                j <= n,
                self.headers_fit(strs_view(headers@)),
                out@ == mid + md_rule_cells(strs_view(headers@), j as int),
            decreases n - j,
        {
            let h = headers[j];
            assert(byte_len(strs_view(headers@)[j as int]) + 2 <= usize::MAX);
            proof {
                reveal_strlit("-");
            }
            push_repeat(out, "-", h.len() + 2);
            out.append("|");
            proof {
                assert(out@ =~= mid + md_rule_cells(strs_view(headers@), (j + 1) as int));
            }
            j = j + 1;
        }
        out.append("\n");
        proof {
            assert(out@ =~= old(out)@ + self.table_start_text(strs_view(headers@)));
        }
    }

    fn render_table_row(&self, out: &mut String, _headers: &[&str], cells: &[String]) {
        out.append("|");
        let n = cells.len();
        let ghost start = out@;
        let mut i: usize = 0;
        while i < n
            invariant
                n == cells@.len(),
                i <= n,
                out@ == start + md_row_cells(strings_view(cells@), i as int),
            decreases n - i,
        {
            out.append(" ");
            out.append(cells[i].as_str());
            out.append(" |");
            proof {
                assert(out@ =~= start + md_row_cells(strings_view(cells@), (i + 1) as int));
            }
            i = i + 1;
        }
        out.append("\n");
        proof {
            assert(out@ =~= old(out)@ + self.table_row_text(strs_view(_headers@), strings_view(cells@)));
        }
    }

    fn render_throughput_extra(&self, out: &mut String) {
        match &self.flamegraph_path {
            Some(path) => {
                out.append("![Flame graph](");
                out.append(path.as_str());
                out.append(")\n\n");
            },
            None => {},
        }
        proof {
            assert(out@ =~= old(out)@ + self.throughput_extra_text());
        }
    }
}

} // verus!
