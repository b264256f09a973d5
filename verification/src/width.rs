use vstd::prelude::*;

verus! {

/// The displayed width in terminal columns of a string, as the
/// `unicode-width` crate measures it (ambiguous-width chars count one column).
pub uninterp spec fn display_width(s: Seq<char>) -> usize;

/// `unicode_width::UnicodeWidthStr::width`: the displayed width of a string.
/// Nothing is claimed of the value beyond its being that of the string alone.
#[verifier::external_body]
pub(crate) fn str_width(s: &str) -> (w: usize)
    ensures
        w == display_width(s@),
{
    unicode_width::UnicodeWidthStr::width(s)
}

// ---------------------------------------------------------------------------
// Column widths of the results table
// ---------------------------------------------------------------------------

/// The widest cell of column `col` among the first `n` rows, the header included.
pub open spec fn column_max(header: Seq<String>, rows: Seq<Seq<String>>, col: int, n: int) -> int
    decreases n,
{
    if n <= 0 {
        display_width(header[col]@) as int
    } else {
        let rest = column_max(header, rows, col, n - 1);
        let w = display_width(rows[n - 1][col]@) as int;
        if w > rest {
            w
        } else {
            rest
        }
    }
}

/// A width in columns plus two of padding, capped at the largest `u16`.
pub open spec fn padded_width(w: int) -> u16 {
    if w + 2 <= u16::MAX {
        (w + 2) as u16
    } else {
        u16::MAX
    }
}

/// The width of each column of the results table: its widest cell (header
/// included) plus two columns of padding, capped at the largest `u16`.
pub fn column_widths(header: &Vec<String>, rows: &Vec<Vec<String>>) -> (widths: Vec<u16>)
    requires
        forall|r: int| 0 <= r < rows@.len() ==> (#[trigger] rows@[r])@.len() == header@.len(),
    ensures
        widths@.len() == header@.len(),
        forall|c: int| 0 <= c < header@.len() ==> #[trigger] widths@[c] == padded_width(
            column_max(header@, rows@.map_values(|row: Vec<String>| row@), c, rows@.len() as int),
        ),
{
    let ghost cells = rows@.map_values(|row: Vec<String>| row@);
    let mut widths: Vec<u16> = Vec::new();
    let mut c: usize = 0;
    while c < header.len()
        invariant
            c <= header.len(),
            cells == rows@.map_values(|row: Vec<String>| row@),
            forall|r: int| 0 <= r < rows@.len() ==> (#[trigger] rows@[r])@.len() == header@.len(),
            widths@.len() == c,
            forall|k: int| 0 <= k < c ==> #[trigger] widths@[k] == padded_width(
                column_max(header@, cells, k, rows@.len() as int),
            ),
        decreases header.len() - c,
    {
        let mut w = str_width(header[c].as_str());
        let mut r: usize = 0;
        while r < rows.len()
            invariant
                r <= rows.len(),
                c < header.len(),
                cells == rows@.map_values(|row: Vec<String>| row@),
                forall|q: int| 0 <= q < rows@.len() ==> (#[trigger] rows@[q])@.len() == header@.len(),
                w as int == column_max(header@, cells, c as int, r as int),
            decreases rows.len() - r,
        {
            assert(cells[r as int] == rows@[r as int]@);
            let cw = str_width(rows[r][c].as_str());
            if cw > w {
                w = cw;
            }
            r = r + 1;
        }
        let padded: u16 = if w <= (u16::MAX - 2) as usize {
            (w + 2) as u16
        } else {
            u16::MAX
        };
        widths.push(padded);
        c = c + 1;
    }
    widths
}

// ---------------------------------------------------------------------------
// The selectable list of the line-mode menus
// ---------------------------------------------------------------------------

/// One entry of a selectable list.
pub struct SelectItem {
    pub label: String,
    pub description: String,
}

/// How one line of the list is drawn: with the arrow when selected (the label
/// then in reverse video), the label padded with `label_pad` spaces, and
/// `fill` spaces after the description to clear the rest of the line.
#[derive(Debug, Clone, Copy, PartialEq, Eq, Structural)]
pub struct SelectLine {
    pub selected: bool,
    pub label_pad: usize,
    pub fill: usize,
}

/// The widest label among the first `n` items (0 when there are none).
pub open spec fn max_label_width(items: Seq<SelectItem>, n: int) -> int
    decreases n,
{
    if n <= 0 {
        0
    } else {
        let rest = max_label_width(items, n - 1);
        let w = display_width(items[n - 1].label@) as int;
        if w > rest {
            w
        } else {
            rest
        }
    }
}

/// `a + b`, capped at the largest `usize`.
pub open spec fn add_capped(a: int, b: int) -> int {
    if a + b <= usize::MAX {
        a + b
    } else {
        usize::MAX as int
    }
}

/// `a - b`, or 0 when `b` is larger.
pub open spec fn sub_floor(a: int, b: int) -> int {
    if a > b {
        a - b
    } else {
        0
    }
}

/// The arrow before the selected line and the blank before the others.
pub open spec fn arrow_text(selected: bool) -> Seq<char> {
    if selected {
        "► "@
    } else {
        "  "@
    }
}

/// The line of item `i`: labels padded to the widest, the rest of a
/// `term_cols`-wide line filled after the description.
pub open spec fn select_line_spec(items: Seq<SelectItem>, i: int, selected: int, term_cols: int) -> SelectLine {
    let max = max_label_width(items, items.len() as int);
    let is_sel = i == selected;
    let used = add_capped(
        add_capped(add_capped(display_width(arrow_text(is_sel)) as int, max), display_width("   - "@) as int),
        display_width(items[i].description@) as int,
    );
    SelectLine {
        selected: is_sel,
        label_pad: sub_floor(max, display_width(items[i].label@) as int) as usize,
        fill: sub_floor(term_cols, used) as usize,
    }
}

/// The layout of a selectable list on a terminal `term_cols` columns wide.
pub fn select_list_layout(items: &Vec<SelectItem>, selected: usize, term_cols: usize) -> (lines: Vec<SelectLine>)
    ensures
        lines@.len() == items@.len(),
        forall|i: int| 0 <= i < items@.len() ==> #[trigger] lines@[i] == select_line_spec(items@, i, selected as int, term_cols as int),
{
    let mut max: usize = 0;
    let mut i: usize = 0;
    while i < items.len()
        invariant
            i <= items.len(),
            max as int == max_label_width(items@, i as int),
        decreases items.len() - i,
    {
        let w = str_width(items[i].label.as_str());
        if w > max {
            max = w;
        }
        i = i + 1;
    }
    let sep = str_width("   - ");
    let mut lines: Vec<SelectLine> = Vec::new();
    let mut k: usize = 0;
    while k < items.len()
        invariant
            k <= items.len(),
            max as int == max_label_width(items@, items@.len() as int),
            sep == display_width("   - "@),
            lines@.len() == k,
            forall|q: int| 0 <= q < k ==> #[trigger] lines@[q] == select_line_spec(items@, q, selected as int, term_cols as int),
        decreases items.len() - k,
    {
        let is_sel = k == selected;
        let arrow = if is_sel {
            str_width("► ")
        } else {
            str_width("  ")
        };
        let label_pad = max.saturating_sub(str_width(items[k].label.as_str()));
        let used = arrow.saturating_add(max).saturating_add(sep).saturating_add(
            str_width(items[k].description.as_str()),
        );
        let fill = term_cols.saturating_sub(used);
        lines.push(SelectLine { selected: is_sel, label_pad, fill });
        k = k + 1;
    }
    lines
}

proof fn lemma_max_label_width_range(items: Seq<SelectItem>, n: int)
    ensures
        0 <= max_label_width(items, n) <= usize::MAX,
    decreases n,
{
    if n > 0 {
        lemma_max_label_width_range(items, n - 1);
    }
}

proof fn lemma_max_label_width_bounds(items: Seq<SelectItem>, n: int, i: int)
    requires
        0 <= i < n <= items.len(),
    ensures
        display_width(items[i].label@) <= max_label_width(items, n),
    decreases n,
{
    if i < n - 1 {
        lemma_max_label_width_bounds(items, n - 1, i);
    }
}

/// Law: labels are padded to the widest label, so every description starts
/// in the same column.
pub proof fn lemma_labels_aligned(items: Seq<SelectItem>, selected: int, term_cols: int)
    ensures
        forall|i: int| 0 <= i < items.len() ==> display_width(items[i].label@) + (
        #[trigger] select_line_spec(items, i, selected, term_cols)).label_pad == max_label_width(
            items,
            items.len() as int,
        ),
{
    assert forall|i: int| 0 <= i < items.len() implies display_width(items[i].label@) + (
    #[trigger] select_line_spec(items, i, selected, term_cols)).label_pad == max_label_width(
        items,
        items.len() as int,
    ) by {
        lemma_max_label_width_bounds(items, items.len() as int, i);
        lemma_max_label_width_range(items, items.len() as int);
    }
}

} // verus!

verus! {

/// Law: a column is two cells wider than its widest cell, at most the
/// largest `u16`; a column's widest cell is at least as wide as its header
/// and as every row's cell.
pub proof fn lemma_column_width_padding(w: int, header: Seq<String>, rows: Seq<Seq<String>>, col: int, n: int)
    requires
        0 <= w,
        0 <= n <= rows.len(),
    ensures
        w + 2 <= u16::MAX ==> padded_width(w) == w + 2,
        w + 2 > u16::MAX ==> padded_width(w) == u16::MAX,
        column_max(header, rows, col, n) >= display_width(header[col]@),
        forall|r: int| 0 <= r < n ==> column_max(header, rows, col, n) >= display_width(#[trigger] rows[r][col]@),
        column_max(header, rows, col, n) == display_width(header[col]@) || exists|r: int|
            0 <= r < n && column_max(header, rows, col, n) == display_width(#[trigger] rows[r][col]@),
    decreases n,
{
    if n > 0 {
        lemma_column_width_padding(w, header, rows, col, n - 1);
        if column_max(header, rows, col, n) != display_width(header[col]@) {
            if column_max(header, rows, col, n) != display_width(rows[n - 1][col]@) {
                let r = choose|r: int|
                    0 <= r < n - 1 && column_max(header, rows, col, n - 1) == display_width(#[trigger] rows[r][col]@);
                assert(column_max(header, rows, col, n) == display_width(rows[r][col]@));
            }
        }
    }
}

} // verus!

verus! {

/// Law: the selected line starts with an arrow and a space, the others with
/// two spaces; a description follows its label after "   - ".
pub proof fn lemma_select_line_prefix()
    ensures
        arrow_text(true) == "► "@,
        arrow_text(false) == "  "@,
{
}

} // verus!
