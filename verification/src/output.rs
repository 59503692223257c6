//! Plain-text tables: the width at which a text is shown, padding, and
//! rows laid out in columns.

use crate::text::{join, joined, push_repeated, repeated, texts_of};
use vstd::prelude::*;

verus! {

/// Wraps text in terminal colour codes, where colour is on.
pub struct Styler {
    color_enabled: bool,
}

impl Styler {
    /// Whether colour is on.
    pub closed spec fn enabled(&self) -> bool {
        self.color_enabled
    }

    /// A styler with colour on or off.
    pub fn new(color_enabled: bool) -> (s: Self)
        ensures
            s.enabled() == color_enabled,
    {
        Self { color_enabled }
    }

    /// The text between a code and the code that resets it.
    pub open spec fn wrapped(&self, code: Seq<char>, s: Seq<char>) -> Seq<char> {
        if self.enabled() {
            code + s + "\u{001b}[0m"@
        } else {
            s
        }
    }

    /// The text between a code and the code that resets it, where colour
    /// is on.
    pub fn wrap(&self, code: &str, s: &str) -> (out: String)
        ensures
            out@ == self.wrapped(code@, s@),
    {
        if !self.color_enabled {
            return s.to_owned();
        }
        let mut out = code.to_owned();
        out.append(s);
        out.append("\u{001b}[0m");
        out
    }

    /// The text in green.
    pub fn green(&self, s: &str) -> (out: String)
        ensures
            out@ == self.wrapped("\u{001b}[32m"@, s@),
    {
        self.wrap("\u{001b}[32m", s)
    }

    /// The text in gray.
    pub fn gray(&self, s: &str) -> (out: String)
        ensures
            out@ == self.wrapped("\u{001b}[90m"@, s@),
    {
        self.wrap("\u{001b}[90m", s)
    }
}

/// Whether a character is shown two columns wide: CJK ideographs, Hangul
/// syllables, fullwidth forms, common emoji and symbols, block elements.
pub open spec fn is_wide(c: char) -> bool {
    let cp = c as u32;
    ||| 0x4E00 <= cp <= 0x9FFF
    ||| 0x3400 <= cp <= 0x4DBF
    ||| 0x20000 <= cp <= 0x2A6DF
    ||| 0xF900 <= cp <= 0xFAFF
    ||| 0xFF00 <= cp <= 0xFFEF
    ||| 0xAC00 <= cp <= 0xD7AF
    ||| 0x1F300 <= cp <= 0x1F9FF
    ||| 0x2600 <= cp <= 0x26FF
    ||| 0x2700 <= cp <= 0x27BF
    ||| 0x2580 <= cp <= 0x259F
}

/// Check if a character is "wide" (typically renders as 2 columns).
pub fn is_wide_char(c: char) -> (r: bool)
    ensures
        r == is_wide(c),
{
    let cp: u32 = c as u32;
    (0x4E00 <= cp && cp <= 0x9FFF) || (0x3400 <= cp && cp <= 0x4DBF) || (0x20000 <= cp && cp
        <= 0x2A6DF) || (0xF900 <= cp && cp <= 0xFAFF) || (0xFF00 <= cp && cp <= 0xFFEF) || (0xAC00
        <= cp && cp <= 0xD7AF) || (0x1F300 <= cp && cp <= 0x1F9FF) || (0x2600 <= cp && cp
        <= 0x26FF) || (0x2700 <= cp && cp <= 0x27BF) || (0x2580 <= cp && cp <= 0x259F)
}

/// The number of columns that a text takes: two for each wide character,
/// one for each other.
pub open spec fn columns(s: Seq<char>) -> nat
    decreases s.len(),
{
    if s.len() == 0 {
        0
    } else {
        columns(s.drop_last()) + (if is_wide(s.last()) {
            2nat
        } else {
            1nat
        })
    }
}

/// A width held at the largest number that fits the machine word.
pub open spec fn capped_width(n: nat) -> usize {
    if n > usize::MAX {
        usize::MAX
    } else {
        n as usize
    }
}

/// Calculate display width of a string, accounting for Unicode/emoji.
/// This is deterministic and doesn't probe terminal width.
pub fn display_width(s: &str) -> (w: usize)
    ensures
        w == capped_width(columns(s@)),
{
    let mut w: usize = 0;
    for c in it: s.chars()
        invariant
            it.seq() == s@,
            w == capped_width(columns(s@.take(it.index() as int))),
    {
        proof {
            assert(s@.take(it.index() + 1).drop_last() =~= s@.take(it.index() as int));
        }
        let step: usize = if is_wide_char(c) {
            2
        } else {
            1
        };
        w = if w > usize::MAX - step {
            usize::MAX
        } else {
            w + step
        };
    }
    assert(s@.take(s@.len() as int) =~= s@);
    w
}

/// The text with spaces behind it up to `width` columns.
pub open spec fn padded(s: Seq<char>, width: usize) -> Seq<char> {
    let w = capped_width(columns(s));
    if w >= width {
        s
    } else {
        s + repeated(' ', (width - w) as nat)
    }
}

/// The text with spaces behind it up to `width` columns.
pub fn pad_right(s: &str, width: usize) -> (out: String)
    ensures
        out@ == padded(s@, width),
{
    let dw = display_width(s);
    let mut out = s.to_owned();
    if dw < width {
        push_repeated(&mut out, ' ', width - dw);
    }
    out
}

/// The widths of the columns after one more row: each column as wide as
/// its widest cell so far, a cell beyond the last column opening a new one.
pub open spec fn widths_with_row(widths: Seq<usize>, row: Seq<Seq<char>>) -> Seq<usize>
    decreases row.len(),
{
    if row.len() == 0 {
        widths
    } else {
        let before = widths_with_row(widths, row.drop_last());
        let i = row.len() - 1;
        let w = capped_width(columns(row.last()));
        if i >= before.len() {
            before.push(w)
        } else if before[i] >= w {
            before
        } else {
            before.update(i, w)
        }
    }
}

/// The widths of the columns of a table.
pub open spec fn column_widths(headers: Seq<Seq<char>>, rows: Seq<Seq<Seq<char>>>) -> Seq<usize>
    decreases rows.len(),
{
    if rows.len() == 0 {
        headers.map_values(|h: Seq<char>| capped_width(columns(h)))
    } else {
        widths_with_row(column_widths(headers, rows.drop_last()), rows.last())
    }
}

/// The cells of a row, each padded to the width of its column.
pub open spec fn padded_cells(cells: Seq<Seq<char>>, widths: Seq<usize>) -> Seq<Seq<char>> {
    Seq::new(cells.len(), |i: int| padded(cells[i], widths[i]))
}

/// A row as a line: its padded cells, two spaces between each two.
pub open spec fn table_line(cells: Seq<Seq<char>>, widths: Seq<usize>) -> Seq<char> {
    joined(padded_cells(cells, widths), "  "@)
}

/// The table as text: the line of the headers, then a line for each row.
pub open spec fn table_text(headers: Seq<Seq<char>>, rows: Seq<Seq<Seq<char>>>) -> Seq<char> {
    let widths = column_widths(headers, rows);
    let head = table_line(headers, widths);
    if rows.len() == 0 {
        head
    } else {
        head + "\n"@ + joined(rows.map_values(|r: Seq<Seq<char>>| table_line(r, widths)), "\n"@)
    }
}

/// The views of the texts of a slice.
pub open spec fn slice_texts(v: Seq<&str>) -> Seq<Seq<char>> {
    v.map_values(|s: &str| s@)
}

/// The views of the rows of a table.
pub open spec fn row_texts(rows: Seq<Vec<String>>) -> Seq<Seq<Seq<char>>> {
    rows.map_values(|r: Vec<String>| texts_of(r@))
}

/// A row leaves no column out and adds a column for each cell beyond them.
pub proof fn lemma_widths_with_row(widths: Seq<usize>, row: Seq<Seq<char>>)
    ensures
        widths_with_row(widths, row).len() >= widths.len(),
        widths_with_row(widths, row).len() >= row.len(),
    decreases row.len(),
{
    if row.len() > 0 {
        lemma_widths_with_row(widths, row.drop_last());
    }
}

/// A table has a column for every header and for every cell of every row.
pub proof fn lemma_column_widths(headers: Seq<Seq<char>>, rows: Seq<Seq<Seq<char>>>)
    ensures
        column_widths(headers, rows).len() >= headers.len(),
        forall|k: int| 0 <= k < rows.len() ==> column_widths(headers, rows).len() >= (#[trigger] rows[k]).len(),
    decreases rows.len(),
{
    if rows.len() > 0 {
        let less = rows.drop_last();
        lemma_column_widths(headers, less);
        lemma_widths_with_row(column_widths(headers, less), rows.last());
        assert forall|k: int| 0 <= k < rows.len() implies column_widths(headers, rows).len() >= (
        #[trigger] rows[k]).len() by {
            if k < less.len() {
                assert(less[k] == rows[k]);
            }
        }
    }
}

/// Takes the cells of one row into the widths of the columns.
fn widen(widths: &mut Vec<usize>, row: &Vec<String>)
    ensures
        final(widths)@ == widths_with_row(old(widths)@, texts_of(row@)),
{
    let ghost cells = texts_of(row@);
    let ghost start = widths@;
    let mut i: usize = 0;
    assert(cells.take(0) =~= Seq::empty());
    while i < row.len()
        invariant
            i <= row@.len(),
            cells == texts_of(row@),
            widths@ == widths_with_row(start, cells.take(i as int)),
        decreases row@.len() - i,
    {
        proof {
            assert(cells.take(i + 1).drop_last() =~= cells.take(i as int));
        }
        let w = display_width(row[i].as_str());
        if i >= widths.len() {
            widths.push(w);
        } else if widths[i] < w {
            widths.set(i, w);
        }
        i += 1;
    }
    assert(cells.take(cells.len() as int) =~= cells);
}

/// The line of a row of strings.
fn line_of(cells: &Vec<String>, widths: &Vec<usize>) -> (out: String)
    requires
        cells@.len() <= widths@.len(),
    ensures
        out@ == table_line(texts_of(cells@), widths@),
{
    let mut parts: Vec<String> = Vec::new();
    let mut i: usize = 0;
    while i < cells.len()
        invariant
            i <= cells@.len() <= widths@.len(),
            parts@.len() == i,
            forall|k: int| 0 <= k < i ==> (#[trigger] parts@[k])@ == padded(cells@[k]@, widths@[k]),
        decreases cells@.len() - i,
    {
        parts.push(pad_right(cells[i].as_str(), widths[i]));
        i += 1;
    }
    assert(texts_of(parts@) =~= padded_cells(texts_of(cells@), widths@));
    join(&parts, "  ")
}

/// Lays out rows under headers, each column as wide as its widest cell,
/// two spaces between columns.
pub fn render_simple_table(headers: &[&str], rows: &[Vec<String>]) -> (out: String)
    ensures
        out@ == table_text(slice_texts(headers@), row_texts(rows@)),
{
    let ghost heads = slice_texts(headers@);
    let ghost all = row_texts(rows@);
    let mut head_cells: Vec<String> = Vec::new();
    let mut widths: Vec<usize> = Vec::new();
    let mut h: usize = 0;
    while h < headers.len()
        invariant
            h <= headers@.len(),
            heads == slice_texts(headers@),
            head_cells@.len() == h,
            widths@.len() == h,
            forall|k: int| 0 <= k < h ==> (#[trigger] head_cells@[k])@ == heads[k],
            forall|k: int| 0 <= k < h ==> #[trigger] widths@[k] == capped_width(columns(heads[k])),
        decreases headers@.len() - h,
    {
        widths.push(display_width(headers[h]));
        head_cells.push(headers[h].to_owned());
        h += 1;
    }
    assert(texts_of(head_cells@) =~= heads);
    assert(widths@ =~= column_widths(heads, all.take(0)));
    let mut r: usize = 0;
    while r < rows.len()
        invariant
            r <= rows@.len(),
            all == row_texts(rows@),
            widths@ == column_widths(heads, all.take(r as int)),
        decreases rows@.len() - r,
    {
        proof {
            assert(all.take(r + 1).drop_last() =~= all.take(r as int));
        }
        widen(&mut widths, &rows[r]);
        r += 1;
    }
    assert(all.take(all.len() as int) =~= all);
    proof {
        lemma_column_widths(heads, all);
    }
    let header_line = line_of(&head_cells, &widths);
    if rows.len() == 0 {
        return header_line;
    }
    let mut body_lines: Vec<String> = Vec::new();
    let mut b: usize = 0;
    while b < rows.len()
        invariant
            b <= rows@.len(),
            all == row_texts(rows@),
            body_lines@.len() == b,
            forall|k: int| 0 <= k < rows@.len() ==> widths@.len() >= (#[trigger] all[k]).len(),
            forall|k: int| 0 <= k < b ==> (#[trigger] body_lines@[k])@ == table_line(all[k], widths@),
        decreases rows@.len() - b,
    {
        assert(all[b as int] == texts_of(rows@[b as int]@));
        body_lines.push(line_of(&rows[b], &widths));
        b += 1;
    }
    assert(texts_of(body_lines@) =~= all.map_values(|r: Seq<Seq<char>>| table_line(r, widths@)));
    let mut out = header_line;
    out.append("\n");
    let body = join(&body_lines, "\n");
    out.append(body.as_str());
    out
}

} // verus!
