//! A fixed-width, box-drawn text table: a container of rows plus an
//! optional header, rendered line by line through the [`RowDisplay`]
//! capability.
//!
//! A rendered table looks like
//!
//! ```text
//! ┌────────────────────────────┐
//! │   Header 1   │  Header 2   │
//! ├────────────────────────────┤
//! │     One      │     Two     │
//! │    Three     │    Four     │
//! └────────────────────────────┘
//! ```
//!
//! Every line is exactly `width` characters wide as long as no cell
//! content overflows its column.

use crate::text::centered;
use crate::text::chars_to_string;
use crate::text::push_centered;
use crate::text::push_repeat;
use crate::text::push_str_chars;
use crate::text::repeat_char;
use vstd::prelude::*;

verus! {

/// The width of one cell when a table `w` characters wide is divided
/// among `n` columns: each column gets an equal share, three characters
/// of which go to the border and padding around the cell.
pub open spec fn cell_width(w: int, n: int) -> int {
    w / n - 3
}

/// Whether a table `w` characters wide can hold a row of `n` cells:
/// there must be at least one column, and each cell must keep a
/// positive width. Anything narrower is a contract violation that
/// rendering rejects rather than producing garbled output.
pub open spec fn row_width_ok(w: int, n: int) -> bool {
    &&& 1 <= n
    &&& 1 <= cell_width(w, n)
}

/// The body of one rendered row: every cell centered in its column,
/// preceded by a border glyph and one space, with one space closing
/// each cell but the last.
pub open spec fn row_body(cells: Seq<Seq<char>>, cw: int) -> Seq<char>
    decreases cells.len(),
{
    if cells.len() == 0 {
        Seq::empty()
    } else if cells.len() == 1 {
        seq!['│', ' '] + centered(cells[0], cw)
    } else {
        row_body(cells.drop_last(), cw) + seq![' ', '│', ' '] + centered(cells.last(), cw)
    }
}

/// One full rendered row of a table `w` characters wide.
pub open spec fn row_text(cells: Seq<Seq<char>>, w: int) -> Seq<char> {
    row_body(cells, cell_width(w, cells.len() as int)) + seq!['│']
}

/// A horizontal separator line: a corner glyph at each end and a rule
/// in between, `w` characters in all.
pub open spec fn sep_text(w: int, left: char, right: char) -> Seq<char> {
    seq![left] + repeat_char('─', (w - 2) as nat) + seq![right]
}

/// The views of a sequence of owned strings.
pub open spec fn views_of_strings(cells: Seq<String>) -> Seq<Seq<char>> {
    cells.map_values(|s: String| s@)
}

/// The cell contents of each row in a sequence of rows.
pub open spec fn rows_views<T: RowDisplay>(rows: Seq<T>) -> Seq<Seq<Seq<char>>> {
    rows.map_values(|t: T| t.cells())
}

/// The data lines of a table: every row rendered and closed by a
/// newline.
pub open spec fn rows_text(rows: Seq<Seq<Seq<char>>>, w: int) -> Seq<char>
    decreases rows.len(),
{
    if rows.len() == 0 {
        Seq::empty()
    } else {
        rows_text(rows.drop_last(), w) + row_text(rows.last(), w) + seq!['\n']
    }
}

/// The header block of a table: the header row and the separator under
/// it, or nothing when no header was set.
pub open spec fn header_text(header: Option<Seq<Seq<char>>>, w: int) -> Seq<char> {
    match header {
        Some(h) => row_text(h, w) + seq!['\n'] + sep_text(w, '├', '┤') + seq!['\n'],
        None => Seq::empty(),
    }
}

/// The complete rendered table: top border, header block if any, one
/// line per data row, bottom border. Only the bottom border carries no
/// trailing newline.
pub open spec fn table_text(header: Option<Seq<Seq<char>>>, rows: Seq<Seq<Seq<char>>>, w: int) -> Seq<char> {
    sep_text(w, '┌', '┐') + seq!['\n'] + header_text(header, w) + rows_text(rows, w) + sep_text(
        w,
        '└',
        '┘',
    )
}

/// Whether a table of the given header and rows fits in `w` characters:
/// the separators need two corner glyphs, and every row, header
/// included, needs a positive cell width.
pub open spec fn table_ok(header: Option<Seq<Seq<char>>>, rows: Seq<Seq<Seq<char>>>, w: int) -> bool {
    &&& 2 <= w
    &&& (header matches Some(h) ==> row_width_ok(w, h.len() as int))
    &&& (forall|i: int| 0 <= i < rows.len() ==> row_width_ok(w, #[trigger] rows[i].len() as int))
}

/// The capability of a value to describe itself as one fixed-width
/// table row.
pub trait RowDisplay: Sized {
    /// The textual content of this value's cells, leftmost first.
    spec fn cells(&self) -> Seq<Seq<char>>;

    /// How many cells this value renders.
    fn num_cols(&self) -> (n: usize)
        ensures
            n as int == self.cells().len(),
    ;

    /// Renders this value as one row of a table `table_width`
    /// characters wide.
    fn to_row(&self, table_width: usize) -> (r: String)
        requires
            row_width_ok(table_width as int, self.cells().len() as int),
        ensures
            r@ == row_text(self.cells(), table_width as int),
    ;
}

/// Renders one row out of already-textual cells. Shared by every
/// [`RowDisplay`] implementation in this crate.
pub fn row_of_cells(cells: &Vec<String>, table_width: usize) -> (r: String)
    requires
        row_width_ok(table_width as int, cells@.len() as int),
    ensures
        r@ == row_text(views_of_strings(cells@), table_width as int),
{
    let n = cells.len();
    let cw = table_width / n - 3;
    let mut buf: Vec<char> = Vec::new();
    let mut j: usize = 0;
    while j < n
        invariant
            j <= n,
            n == cells@.len(),
            row_width_ok(table_width as int, n as int),
            cw as int == cell_width(table_width as int, n as int),
            buf@ =~= row_body(views_of_strings(cells@).take(j as int), cw as int),
        decreases n - j,
    {
        proof {
            let views = views_of_strings(cells@);
            assert(views.take(j + 1).drop_last() =~= views.take(j as int));
            assert(views.take(j + 1).last() == cells@[j as int]@);
        }
        if j == 0 {
            buf.push('│');
            buf.push(' ');
        } else {
            buf.push(' ');
            buf.push('│');
            buf.push(' ');
        }
        push_centered(&mut buf, cells[j].as_str(), cw);
        j = j + 1;
        proof {
            assert(buf@ =~= row_body(views_of_strings(cells@).take(j as int), cw as int));
        }
    }
    buf.push('│');
    proof {
        assert(views_of_strings(cells@).take(n as int) =~= views_of_strings(cells@));
        assert(buf@ =~= row_text(views_of_strings(cells@), table_width as int));
    }
    chars_to_string(&buf)
}

/// The one failure a table can report: the requested width cannot hold
/// the declared column count, so rendering refuses to produce
/// truncated or garbled output.
#[derive(Debug, PartialEq, Eq, Structural)]
pub enum TableError {
    WidthTooSmall,
}

/// A container for data to be formatted as a table: the rows, an
/// optional header, and the total width in characters.
#[derive(Debug)]
pub struct Table<T> {
    header: Option<Vec<String>>,
    width: usize,
    data: Vec<T>,
}

/// The default total width of a rendered table, in characters.
pub const DEFAULT_WIDTH: usize = 100;

/// The narrower width used for the two-column statistics table.
pub const SUMMARY_WIDTH: usize = 40;

impl<T> Table<T> {
    /// The header cells, if a header was set.
    pub closed spec fn spec_header(&self) -> Option<Seq<Seq<char>>> {
        match self.header {
            Some(h) => Some(views_of_strings(h@)),
            None => None,
        }
    }

    /// The total width in characters.
    pub closed spec fn spec_width(&self) -> int {
        self.width as int
    }

    /// The data rows.
    pub closed spec fn spec_rows(&self) -> Seq<T> {
        self.data@
    }

    /// Wraps the given rows with no header and the default width.
    pub fn new(data: Vec<T>) -> (t: Table<T>)
        ensures
            t.spec_rows() == data@,
            t.spec_header() is None,
            t.spec_width() == DEFAULT_WIDTH as int,
    {
        Table { header: None, data, width: DEFAULT_WIDTH }
    }

    /// Attaches a header; the data rows and width are kept.
    pub fn with_header(self, header: Vec<String>) -> (t: Table<T>)
        ensures
            t.spec_rows() == self.spec_rows(),
            t.spec_header() == Some(views_of_strings(header@)),
            t.spec_width() == self.spec_width(),
    {
        Table { header: Some(header), ..self }
    }

    /// Overrides the total width; the last call before rendering wins.
    pub fn with_width(self, width: usize) -> (t: Table<T>)
        ensures
            t.spec_rows() == self.spec_rows(),
            t.spec_header() == self.spec_header(),
            t.spec_width() == width as int,
    {
        Table { width, ..self }
    }

    /// Read-only access to the data rows.
    pub fn as_data(&self) -> (r: &Vec<T>)
        ensures
            r@ == self.spec_rows(),
    {
        &self.data
    }

    fn top_sep(&self) -> (r: String)
        requires
            2 <= self.spec_width(),
        ensures
            r@ == sep_text(self.spec_width(), '┌', '┐'),
    {
        self.sep_line('┌', '┐')
    }

    fn middle_sep(&self) -> (r: String)
        requires
            2 <= self.spec_width(),
        ensures
            r@ == sep_text(self.spec_width(), '├', '┤'),
    {
        self.sep_line('├', '┤')
    }

    fn bottom_sep(&self) -> (r: String)
        requires
            2 <= self.spec_width(),
        ensures
            r@ == sep_text(self.spec_width(), '└', '┘'),
    {
        self.sep_line('└', '┘')
    }

    fn sep_line(&self, left: char, right: char) -> (r: String)
        requires
            2 <= self.spec_width(),
        ensures
            r@ == sep_text(self.spec_width(), left, right),
    {
        let mut buf: Vec<char> = Vec::new();
        buf.push(left);
        push_repeat(&mut buf, '─', self.width - 2);
        buf.push(right);
        proof {
            assert(buf@ =~= sep_text(self.spec_width(), left, right));
        }
        chars_to_string(&buf)
    }
}

impl<T: RowDisplay> Table<T> {
    /// Whether this table can be rendered at its current width.
    pub open spec fn renderable(&self) -> bool {
        table_ok(self.spec_header(), rows_views(self.spec_rows()), self.spec_width())
    }

    /// Renders the table, or rejects a width too small for its column
    /// counts.
    pub fn render(&self) -> (r: Result<String, TableError>)
        ensures
            r is Ok <==> self.renderable(),
            r matches Ok(s) ==> s@ == table_text(
                self.spec_header(),
                rows_views(self.spec_rows()),
                self.spec_width(),
            ),
    {
        if self.width < 2 {
            return Err(TableError::WidthTooSmall);
        }
        match &self.header {
            Some(h) => {
                let n = h.len();
                if n == 0 || self.width / n < 4 {
                    return Err(TableError::WidthTooSmall);
                }
            },
            None => {},
        }
        let mut i: usize = 0;
        while i < self.data.len()
            invariant
                i <= self.data@.len(),
                forall|j: int|
                    0 <= j < i ==> row_width_ok(
                        self.spec_width(),
                        #[trigger] rows_views(self.spec_rows())[j].len() as int,
                    ),
            decreases self.data@.len() - i,
        {
            let n = self.data[i].num_cols();
            proof {
                assert(rows_views(self.spec_rows())[i as int] == self.data@[i as int].cells());
            }
            if n == 0 || self.width / n < 4 {
                return Err(TableError::WidthTooSmall);
            }
            i = i + 1;
        }
        proof {
            assert(self.renderable());
        }

        let mut buf: Vec<char> = Vec::new();
        let top = self.top_sep();
        push_str_chars(&mut buf, top.as_str());
        buf.push('\n');
        match &self.header {
            Some(h) => {
                let row = h.to_row(self.width);
                push_str_chars(&mut buf, row.as_str());
                buf.push('\n');
                let mid = self.middle_sep();
                push_str_chars(&mut buf, mid.as_str());
                buf.push('\n');
            },
            None => {},
        }
        proof {
            assert(buf@ =~= sep_text(self.spec_width(), '┌', '┐') + seq!['\n'] + header_text(
                self.spec_header(),
                self.spec_width(),
            ));
        }

        let ghost prefix = buf@;
        let mut k: usize = 0;
        while k < self.data.len()
            invariant
                k <= self.data@.len(),
                self.renderable(),
                buf@ =~= prefix + rows_text(
                    rows_views(self.spec_rows()).take(k as int),
                    self.spec_width(),
                ),
            decreases self.data@.len() - k,
        {
            proof {
                let views = rows_views(self.spec_rows());
                assert(views.take(k + 1).drop_last() =~= views.take(k as int));
                assert(views.take(k + 1).last() == views[k as int]);
                assert(row_width_ok(self.spec_width(), views[k as int].len() as int));
            }
            let row = self.data[k].to_row(self.width);
            push_str_chars(&mut buf, row.as_str());
            buf.push('\n');
            k = k + 1;
            proof {
                assert(buf@ =~= prefix + rows_text(
                    rows_views(self.spec_rows()).take(k as int),
                    self.spec_width(),
                ));
            }
        }
        let bottom = self.bottom_sep();
        push_str_chars(&mut buf, bottom.as_str());
        proof {
            assert(rows_views(self.spec_rows()).take(self.data@.len() as int) =~= rows_views(
                self.spec_rows(),
            ));
            assert(buf@ =~= table_text(
                self.spec_header(),
                rows_views(self.spec_rows()),
                self.spec_width(),
            ));
        }
        Ok(chars_to_string(&buf))
    }
}

/// A sequence of ready-made texts renders as a row whose column count
/// is its length. The table header is rendered through this
/// implementation.
impl RowDisplay for Vec<String> {
    open spec fn cells(&self) -> Seq<Seq<char>> {
        views_of_strings(self@)
    }

    fn num_cols(&self) -> (n: usize)
        ensures
            n as int == self.cells().len(),
    {
        self.len()
    }

    fn to_row(&self, table_width: usize) -> (r: String) {
        row_of_cells(self, table_width)
    }
}

} // verus!
