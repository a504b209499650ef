use vstd::prelude::*;
use colored::Colorize;
use crate::geometry::{cell_index, cell_of, Point, Rect};
use crate::text::{chars_of, join_lines, lines_of, split_lines, string_of, append_chars};

verus! {

/// How a cell is shown: dimmed (the base grid), bold in an optional colour
/// (a marker), or plain (a label character).
#[derive(Clone, Copy, Debug)]
pub enum Style {
    Dim,
    Bold(Option<colored::Color>),
    Plain,
}

/// One cell of a rendered grid: its text and how it is shown.
#[derive(Clone, Debug)]
pub struct Cell {
    pub text: Vec<char>,
    pub style: Style,
}

/// A point that was left off the grid: its index among the points, and the
/// `(column, row)` it mapped to, or none when the source space is degenerate.
#[derive(Clone, Copy, Debug, PartialEq, Eq)]
pub struct Skip {
    pub index: usize,
    pub at: Option<(u128, u128)>,
}

/// The grid after all points were stamped, and the points that were skipped.
#[derive(Clone, Debug)]
pub struct Rendering {
    pub cells: Vec<Vec<Cell>>,
    pub skipped: Vec<Skip>,
}

/// A base map and the two spaces that points are carried between: points are
/// given in `point_coordinates` and drawn in `map_coordinates`.
#[derive(Clone, Debug)]
pub struct Plot {
    pub map: String,
    pub map_coordinates: Rect,
    pub point_coordinates: Rect,
}

pub type CellView = (Seq<char>, Style);

pub type GridView = Seq<Seq<CellView>>;

pub open spec fn row_cells(row: Seq<Cell>) -> Seq<CellView> {
    row.map_values(|c: Cell| (c.text@, c.style))
}

pub open spec fn grid_view(g: Seq<Vec<Cell>>) -> GridView {
    g.map_values(|r: Vec<Cell>| row_cells(r@))
}

/// The base grid of a map text: one dimmed cell per character of each line.
pub open spec fn base_grid(map: Seq<char>) -> GridView {
    lines_of(map).map_values(|l: Seq<char>| l.map_values(|c: char| (seq![c], Style::Dim)))
}

/// The `(column, row)` a point lands on, or none when the source space has a
/// zero extent.
pub open spec fn target(p: Point, from: Rect, to: Rect) -> Option<(int, int)> {
    if from.w == 0 || from.h == 0 {
        None
    } else {
        Some(
            (
                cell_index(p.x, from.x as int, from.w as int, to.x as int, to.w as int),
                cell_index(p.y, from.y as int, from.h as int, to.y as int, to.h as int),
            ),
        )
    }
}

/// The cell lies inside the grid: below the row count, and left of the length
/// of the first row and of its own row.
pub open spec fn in_grid(g: GridView, col: int, row: int) -> bool {
    &&& 0 <= col
    &&& 0 <= row
    &&& row < g.len()
    &&& col < g[0].len()
    &&& col < g[row].len()
}

pub open spec fn glyph_of(p: Point) -> Seq<char> {
    match p.point {
        Some(s) => s@,
        None => seq!['*'],
    }
}

pub open spec fn label_of(p: Point) -> Seq<char> {
    match p.name {
        Some(s) => s@,
        None => Seq::empty(),
    }
}

/// A row with the marker written at `col` and the label written from
/// `col + 2` on, one character per cell; label characters past the row's end
/// are dropped.
pub open spec fn stamp_row(row: Seq<CellView>, col: int, marker: CellView, label: Seq<char>) -> Seq<
    CellView,
> {
    Seq::new(
        row.len(),
        |j: int|
            if j == col {
                marker
            } else if col + 2 <= j < col + 2 + label.len() {
                (seq![label[j - col - 2]], Style::Plain)
            } else {
                row[j]
            },
    )
}

/// The grid after one point is stamped onto it; unchanged when the point
/// falls outside it.
pub open spec fn stamp(g: GridView, p: Point, from: Rect, to: Rect) -> GridView {
    match target(p, from, to) {
        Some((col, row)) => if in_grid(g, col, row) {
            g.update(
                row,
                stamp_row(g[row], col, (glyph_of(p), Style::Bold(p.color)), label_of(p)),
            )
        } else {
            g
        },
        None => g,
    }
}

/// The grid after the points are stamped onto it in order.
pub open spec fn render_grid(points: Seq<Point>, g: GridView, from: Rect, to: Rect) -> GridView
    decreases points.len(),
{
    if points.len() == 0 {
        g
    } else {
        stamp(render_grid(points.drop_last(), g, from, to), points.last(), from, to)
    }
}

pub open spec fn skip_view(s: Skip) -> (int, Option<(int, int)>) {
    (
        s.index as int,
        match s.at {
            Some((c, r)) => Some((c as int, r as int)),
            None => None,
        },
    )
}

/// The points that fall outside the grid `g`, in order: each with its index
/// and the cell it mapped to, if any.
pub open spec fn skipped_points(points: Seq<Point>, g: GridView, from: Rect, to: Rect) -> Seq<
    (int, Option<(int, int)>),
>
    decreases points.len(),
{
    if points.len() == 0 {
        Seq::empty()
    } else {
        let prev = skipped_points(points.drop_last(), g, from, to);
        let i = points.len() - 1;
        match target(points.last(), from, to) {
            Some((col, row)) => if in_grid(g, col, row) {
                prev
            } else {
                prev.push((i, Some((col, row))))
            },
            None => prev.push((i, None)),
        }
    }
}

pub open spec fn same_shape(a: GridView, b: GridView) -> bool {
    &&& a.len() == b.len()
    &&& forall|i: int| 0 <= i < a.len() ==> #[trigger] a[i].len() == b[i].len()
}

proof fn lemma_same_shape_in_grid(a: GridView, b: GridView, col: int, row: int)
    requires
        same_shape(a, b),
    ensures
        in_grid(a, col, row) == in_grid(b, col, row),
{
    if 0 < a.len() {
        assert(a[0].len() == b[0].len());
        if 0 <= row < a.len() {
            assert(a[row].len() == b[row].len());
        }
    }
}

/// Stamping a point keeps the number of rows and the length of each row.
pub proof fn lemma_stamp_shape(g: GridView, p: Point, from: Rect, to: Rect)
    ensures
        same_shape(stamp(g, p, from, to), g),
{
    match target(p, from, to) {
        Some((col, row)) => {
            if in_grid(g, col, row) {
                let ng = stamp(g, p, from, to);
                assert forall|i: int| 0 <= i < ng.len() implies #[trigger] ng[i].len()
                    == g[i].len() by {
                    if i == row {
                    }
                }
            }
        },
        None => {},
    }
}

/// The cells of the base grid of a list of lines.
fn base_cells(lines: &Vec<Vec<char>>) -> (r: Vec<Vec<Cell>>)
    ensures
        grid_view(r@) == crate::text::rows_view(lines@).map_values(
            |l: Seq<char>| l.map_values(|c: char| (seq![c], Style::Dim)),
        ),
{
    let mut rows: Vec<Vec<Cell>> = Vec::new();
    let mut i: usize = 0;
    while i < lines.len()
        invariant
            i <= lines@.len(),
            grid_view(rows@) =~= crate::text::rows_view(lines@.take(i as int)).map_values(
                |l: Seq<char>| l.map_values(|c: char| (seq![c], Style::Dim)),
            ),
        decreases lines.len() - i,
    {
        let line = &lines[i];
        let mut row: Vec<Cell> = Vec::new();
        let mut j: usize = 0;
        while j < line.len()
            invariant
                j <= line@.len(),
                row_cells(row@) =~= line@.take(j as int).map_values(
                    |c: char| (seq![c], Style::Dim),
                ),
            decreases line.len() - j,
        {
            let ghost before = row_cells(row@);
            let c = line[j];
            let text = vec![c];
            assert(text@ =~= seq![c]);
            row.push(Cell { text, style: Style::Dim });
            assert(row_cells(row@) =~= before.push((seq![c], Style::Dim)));
            assert(line@.take(j + 1) =~= line@.take(j as int).push(c));
            j = j + 1;
        }
        assert(line@.take(line@.len() as int) =~= line@);
        let ghost before = grid_view(rows@);
        rows.push(row);
        assert(grid_view(rows@) =~= before.push(row_cells(row@)));
        assert(lines@.take(i + 1) =~= lines@.take(i as int).push(lines@[i as int]));
        i = i + 1;
    }
    assert(lines@.take(lines@.len() as int) =~= lines@);
    rows
}

/// Writes the marker at `col` and the label from `col + 2` on.
fn stamp_line(line: &mut Vec<Cell>, col: usize, glyph: Vec<char>, color: Option<colored::Color>, label: &Vec<char>)
    requires
        col < old(line)@.len(),
    ensures
        row_cells(final(line)@) == stamp_row(
            row_cells(old(line)@),
            col as int,
            (glyph@, Style::Bold(color)),
            label@,
        ),
{
    let ghost orig = row_cells(line@);
    let ghost marker = (glyph@, Style::Bold(color));
    line[col] = Cell { text: glyph, style: Style::Bold(color) };
    let len = line.len();
    let room: usize = len - col - 1;
    let avail: usize = if room >= 1 { room - 1 } else { 0 };
    let n: usize = if label.len() < avail { label.len() } else { avail };
    let mut k: usize = 0;
    while k < n
        invariant
            k <= n,
            n <= label@.len(),
            n == 0 || col + 2 + n <= len,
            line@.len() == len,
            len == orig.len(),
            col < len,
            row_cells(line@) =~= Seq::new(
                len as nat,
                |j: int|
                    if j == col {
                        marker
                    } else if col + 2 <= j < col + 2 + k {
                        (seq![label@[j - col - 2]], Style::Plain)
                    } else {
                        orig[j]
                    },
            ),
        decreases n - k,
    {
        let pos = col + 2 + k;
        let c = label[k];
        let text = vec![c];
        assert(text@ =~= seq![c]);
        let ghost before = row_cells(line@);
        line[pos] = Cell { text, style: Style::Plain };
        assert(row_cells(line@) =~= before.update(pos as int, (seq![c], Style::Plain)));
        k = k + 1;
    }
    assert(row_cells(line@) =~= stamp_row(orig, col as int, marker, label@));
}

/// The marker glyph of a point: its own, else `*`.
fn glyph_chars(p: &Point) -> (r: Vec<char>)
    ensures
        r@ == glyph_of(*p),
{
    match &p.point {
        Some(s) => chars_of(s.as_str()),
        None => {
            let v = vec!['*'];
            assert(v@ =~= seq!['*']);
            v
        },
    }
}

/// The label of a point, empty when it has none.
fn label_chars(p: &Point) -> (r: Vec<char>)
    ensures
        r@ == label_of(*p),
{
    match &p.name {
        Some(s) => chars_of(s.as_str()),
        None => Vec::new(),
    }
}

/// Renders the points onto the plot's map, in order: each point is carried
/// from `point_coordinates` into `map_coordinates`, its cell is the truncated
/// absolute value of the result, and a point whose cell lies outside the grid
/// is skipped and reported.
pub fn render(points: &Vec<Point>, plot: &Plot) -> (r: Rendering)
    requires
        forall|i: int| 0 <= i < points@.len() ==> #[trigger] points@[i].wf(),
    ensures
        grid_view(r.cells@) == render_grid(
            points@,
            base_grid(plot.map@),
            plot.point_coordinates,
            plot.map_coordinates,
        ),
        r.skipped@.map_values(|s: Skip| skip_view(s)) == skipped_points(
            points@,
            base_grid(plot.map@),
            plot.point_coordinates,
            plot.map_coordinates,
        ),
{
    let from = plot.point_coordinates;
    let to = plot.map_coordinates;
    let chars = chars_of(plot.map.as_str());
    let lines = split_lines(&chars);
    let mut rows = base_cells(&lines);
    let ghost base = base_grid(plot.map@);
    assert(grid_view(rows@) =~= base);
    let mut skipped: Vec<Skip> = Vec::new();
    let mut i: usize = 0;
    while i < points.len()
        invariant
            i <= points@.len(),
            forall|k: int| 0 <= k < points@.len() ==> #[trigger] points@[k].wf(),
            grid_view(rows@) == render_grid(points@.take(i as int), base, from, to),
            same_shape(grid_view(rows@), base),
            skipped@.map_values(|s: Skip| skip_view(s)) == skipped_points(
                points@.take(i as int),
                base,
                from,
                to,
            ),
        decreases points.len() - i,
    {
        let p = &points[i];
        assert(points@[i as int].wf());
        let ghost g = grid_view(rows@);
        let ghost sk = skipped@.map_values(|s: Skip| skip_view(s));
        assert(points@.take(i + 1).drop_last() =~= points@.take(i as int));
        assert(points@.take(i + 1).last() == *p);
        if from.w == 0 || from.h == 0 {
            skipped.push(Skip { index: i, at: None });
            assert(skipped@.map_values(|s: Skip| skip_view(s)) =~= sk.push((i as int, None)));
        } else {
            let col = cell_of(&p.x, from.x, from.w, to.x, to.w);
            let row = cell_of(&p.y, from.y, from.h, to.y, to.h);
            proof {
                lemma_same_shape_in_grid(g, base, col as int, row as int);
            }
            let nrows = rows.len();
            if nrows > 0 && row < nrows as u128 && col < rows[0].len() as u128 && col
                < rows[row as usize].len() as u128 {
                let r = row as usize;
                let c = col as usize;
                let glyph = glyph_chars(p);
                let label = label_chars(p);
                stamp_line(&mut rows[r], c, glyph, p.color, &label);
                assert(grid_view(rows@) =~= stamp(g, *p, from, to));
                proof {
                    lemma_stamp_shape(g, *p, from, to);
                }
            } else {
                skipped.push(Skip { index: i, at: Some((col, row)) });
                assert(skipped@.map_values(|s: Skip| skip_view(s)) =~= sk.push(
                    (i as int, Some((col as int, row as int))),
                ));
            }
        }
        i = i + 1;
    }
    assert(points@.take(points@.len() as int) =~= points@);
    Rendering { cells: rows, skipped }
}

/// The parts laid end to end.
pub open spec fn concat_all(parts: Seq<Seq<char>>) -> Seq<char>
    decreases parts.len(),
{
    if parts.len() == 0 {
        Seq::empty()
    } else {
        concat_all(parts.drop_last()) + parts.last()
    }
}

pub open spec fn cell_texts(row: Seq<CellView>) -> Seq<Seq<char>> {
    row.map_values(|c: CellView| c.0)
}

/// Each row of the grid as the texts of its cells laid end to end.
pub open spec fn grid_text(g: GridView) -> Seq<Seq<char>> {
    g.map_values(|row: Seq<CellView>| concat_all(cell_texts(row)))
}

/// The texts of a row's cells, laid end to end.
fn row_chars(row: &Vec<Cell>) -> (r: Vec<char>)
    ensures
        r@ == concat_all(cell_texts(row_cells(row@))),
{
    let mut out: Vec<char> = Vec::new();
    let mut j: usize = 0;
    while j < row.len()
        invariant
            j <= row@.len(),
            out@ == concat_all(cell_texts(row_cells(row@.take(j as int)))),
        decreases row.len() - j,
    {
        append_chars(&mut out, &row[j].text);
        assert(cell_texts(row_cells(row@.take(j + 1))).drop_last() =~= cell_texts(
            row_cells(row@.take(j as int)),
        ));
        j = j + 1;
    }
    assert(row@.take(row@.len() as int) =~= row@);
    out
}

/// The grid as plain text: the texts of each row's cells laid end to end,
/// rows joined with `'\n'`; display styles are left out.
pub fn to_text(cells: &Vec<Vec<Cell>>) -> (r: String)
    ensures
        r@ == join_lines(grid_text(grid_view(cells@))),
{
    let mut lines: Vec<Vec<char>> = Vec::new();
    let mut i: usize = 0;
    while i < cells.len()
        invariant
            i <= cells@.len(),
            crate::text::rows_view(lines@) =~= grid_text(grid_view(cells@.take(i as int))),
        decreases cells.len() - i,
    {
        let line = row_chars(&cells[i]);
        let ghost before = crate::text::rows_view(lines@);
        lines.push(line);
        assert(crate::text::rows_view(lines@) =~= before.push(line@));
        assert(grid_view(cells@.take(i + 1)) =~= grid_view(cells@.take(i as int)).push(
            row_cells(cells@[i as int]@),
        ));
        i = i + 1;
    }
    assert(cells@.take(cells@.len() as int) =~= cells@);
    let out = crate::text::join_rows(&lines);
    string_of(&out)
}

/// What painting a text may give: the text itself when colouring is off, else
/// the text behind an ANSI escape that opens with `ESC [` and followed by the
/// reset `ESC [ 0 m`.
pub open spec fn painted_outcome(text: Seq<char>, out: Seq<char>) -> bool {
    ||| out == text
    ||| {
        &&& out.len() >= text.len() + 8
        &&& out[0] == '\u{1b}'
        &&& out[1] == '['
        &&& out.subrange(out.len() - 4, out.len() as int) == seq!['\u{1b}', '[', '0', 'm']
    }
}

/// Relies on `colored`: `Colorize::white` and `Colorize::dimmed` style the
/// text, and `ColoredString`'s `Display` writes it unchanged when colouring is
/// off, else as `ESC [ <style> m`, the text, and the reset `ESC [ 0 m`.
#[verifier::external_body]
fn paint_dim(text: &str) -> (r: String)
    ensures
        painted_outcome(text@, r@),
{
    text.white().dimmed().to_string()
}

/// Relies on `colored`: `Colorize::white` and `Colorize::bold` style the
/// text, and `ColoredString`'s `Display` writes it unchanged when colouring is
/// off, else as `ESC [ <style> m`, the text, and the reset `ESC [ 0 m`.
#[verifier::external_body]
fn paint_bold(text: &str) -> (r: String)
    ensures
        painted_outcome(text@, r@),
{
    text.white().bold().to_string()
}

/// Relies on `colored`: `Colorize::color` and `Colorize::bold` style the
/// text, and `ColoredString`'s `Display` writes it unchanged when colouring is
/// off, else as `ESC [ <style> m`, the text, and the reset `ESC [ 0 m`.
#[verifier::external_body]
fn paint_bold_color(text: &str, color: colored::Color) -> (r: String)
    ensures
        painted_outcome(text@, r@),
{
    text.color(color).bold().to_string()
}

/// A cell's text with its display style applied; label cells stay plain.
fn paint_cell(cell: &Cell) -> (r: Vec<char>)
    ensures
        painted_outcome(cell.text@, r@),
        cell.style is Plain ==> r@ == cell.text@,
{
    let text = string_of(&cell.text);
    match cell.style {
        Style::Dim => chars_of(paint_dim(text.as_str()).as_str()),
        Style::Bold(Some(c)) => chars_of(paint_bold_color(text.as_str(), c).as_str()),
        Style::Bold(None) => chars_of(paint_bold(text.as_str()).as_str()),
        Style::Plain => chars_of(text.as_str()),
    }
}

/// `painted` holds, for each cell of `g`, one possible painting of its text.
pub open spec fn painting_of(g: GridView, painted: Seq<Seq<Seq<char>>>) -> bool {
    &&& painted.len() == g.len()
    &&& forall|i: int| 0 <= i < g.len() ==> #[trigger] painted[i].len() == g[i].len()
    &&& forall|i: int, j: int|
        0 <= i < g.len() && 0 <= j < g[i].len() ==> painted_outcome(
            #[trigger] g[i][j].0,
            painted[i][j],
        )
}

/// Renders the points onto the plot's map as terminal text: each cell painted
/// in its display style, rows joined with `'\n'`. Skipped points are left out
/// silently; `render` reports them.
pub fn render_point(points: Vec<Point>, plot: Plot) -> (r: String)
    requires
        forall|i: int| 0 <= i < points@.len() ==> #[trigger] points@[i].wf(),
    ensures
        exists|painted: Seq<Seq<Seq<char>>>|
            {
                &&& painting_of(
                    render_grid(
                        points@,
                        base_grid(plot.map@),
                        plot.point_coordinates,
                        plot.map_coordinates,
                    ),
                    painted,
                )
                &&& r@ == join_lines(
                    painted.map_values(|row: Seq<Seq<char>>| concat_all(row)),
                )
            },
{
    let rendering = render(&points, &plot);
    let cells = rendering.cells;
    let ghost g = grid_view(cells@);
    let ghost mut painted: Seq<Seq<Seq<char>>> = Seq::empty();
    let mut lines: Vec<Vec<char>> = Vec::new();
    let mut i: usize = 0;
    while i < cells.len()
        invariant
            i <= cells@.len(),
            g == grid_view(cells@),
            painted.len() == i,
            lines@.len() == i,
            forall|k: int| 0 <= k < i ==> #[trigger] painted[k].len() == g[k].len(),
            forall|k: int, j: int|
                0 <= k < i && 0 <= j < g[k].len() ==> painted_outcome(
                    #[trigger] g[k][j].0,
                    painted[k][j],
                ),
            forall|k: int| 0 <= k < i ==> #[trigger] lines@[k]@ == concat_all(painted[k]),
        decreases cells.len() - i,
    {
        let row = &cells[i];
        let ghost mut prow: Seq<Seq<char>> = Seq::empty();
        let mut out: Vec<char> = Vec::new();
        let mut j: usize = 0;
        while j < row.len()
            invariant
                j <= row@.len(),
                *row == cells@[i as int],
                g == grid_view(cells@),
                i < cells@.len(),
                prow.len() == j,
                out@ == concat_all(prow),
                forall|m: int| 0 <= m < j ==> painted_outcome(#[trigger] g[i as int][m].0, prow[m]),
            decreases row.len() - j,
        {
            let part = paint_cell(&row[j]);
            append_chars(&mut out, &part);
            proof {
                let np = prow.push(part@);
                assert(np.drop_last() =~= prow);
                prow = np;
            }
            j = j + 1;
        }
        proof {
            let np = painted.push(prow);
            assert forall|k: int, m: int|
                0 <= k < i + 1 && 0 <= m < g[k].len() implies painted_outcome(
                #[trigger] g[k][m].0,
                np[k][m],
            ) by {
                if k < i {
                } else {
                }
            }
            painted = np;
        }
        lines.push(out);
        i = i + 1;
    }
    let ghost rows = painted.map_values(|row: Seq<Seq<char>>| concat_all(row));
    assert(crate::text::rows_view(lines@) =~= rows);
    let joined = crate::text::join_rows(&lines);
    let r = string_of(&joined);
    assert(painting_of(g, painted));
    r
}

/// A point whose cell falls outside the grid, or that has no cell because the
/// source space has a zero extent, leaves every cell of the grid as it was.
pub proof fn lemma_out_of_bounds_unchanged(g: GridView, p: Point, from: Rect, to: Rect)
    requires
        match target(p, from, to) {
            Some((col, row)) => !in_grid(g, col, row),
            None => true,
        },
    ensures
        stamp(g, p, from, to) == g,
{
}

/// Of two points stamped in turn onto the same cell of the grid, the later
/// one's marker is what that cell shows.
pub proof fn lemma_later_marker_wins(g: GridView, p1: Point, p2: Point, from: Rect, to: Rect)
    requires
        target(p1, from, to) is Some,
        target(p2, from, to) == target(p1, from, to),
        in_grid(g, target(p1, from, to)->Some_0.0, target(p1, from, to)->Some_0.1),
    ensures
        stamp(stamp(g, p1, from, to), p2, from, to)[target(p2, from, to)->Some_0.1][target(
            p2,
            from,
            to,
        )->Some_0.0] == (glyph_of(p2), Style::Bold(p2.color)),
{
    let (col, row) = target(p2, from, to)->Some_0;
    let g1 = stamp(g, p1, from, to);
    lemma_stamp_shape(g, p1, from, to);
    lemma_same_shape_in_grid(g1, g, col, row);
    assert(in_grid(g1, col, row));
}

proof fn lemma_concat_singletons(l: Seq<char>)
    ensures
        concat_all(cell_texts(l.map_values(|c: char| (seq![c], Style::Dim)))) == l,
    decreases l.len(),
{
    if l.len() > 0 {
        let parts = cell_texts(l.map_values(|c: char| (seq![c], Style::Dim)));
        lemma_concat_singletons(l.drop_last());
        assert(parts.drop_last() =~= cell_texts(
            l.drop_last().map_values(|c: char| (seq![c], Style::Dim)),
        ));
        assert(concat_all(parts) =~= l);
    }
}

/// Rendering no points onto a map gives back the map's text, with every cell
/// in the same dimmed style.
pub proof fn lemma_empty_render_round_trip(map: Seq<char>, from: Rect, to: Rect)
    ensures
        render_grid(Seq::empty(), base_grid(map), from, to) == base_grid(map),
        join_lines(grid_text(render_grid(Seq::empty(), base_grid(map), from, to))) == map,
        forall|i: int, j: int|
            0 <= i < base_grid(map).len() && 0 <= j < base_grid(map)[i].len() ==> (
            #[trigger] base_grid(map)[i][j]).1 is Dim,
{
    let g = base_grid(map);
    assert forall|i: int| 0 <= i < g.len() implies #[trigger] grid_text(g)[i] == lines_of(
        map,
    )[i] by {
        lemma_concat_singletons(lines_of(map)[i]);
    }
    assert(grid_text(g) =~= lines_of(map));
    crate::text::lemma_join_lines_of(map);
}

/// The world map drawn by `Plot::default`: 13 rows of longitude and latitude
/// frame around a 70 by 22 area that starts at column 4, row 2.
pub const WORLD_MAP: &'static str = r###"   180   150W  120W  90W   60W   30W   000   30E   60E   90E   120E  150E  180
    |     |     |     |     |     |     |     |     |     |     |     |     |
90N-+-----+-----+-----+-----+-----+-----+-----+-----+-----+-----+-----+-----+-90N
    |           . _..::__:  ,-"-"._        |7       ,     _,.__             |
    |   _.___ _ _<_>`!(._`.`-.    /         _._     `_ ,_/  '  '-._.---.-.__|
    |>.{     " " `-==,',._\{  \  / {)      / _ ">_,-' `                mt-2_|
60N-+  \_.:--.       `._ )`^-. "'       , [_/(                       __,/-' +-60N
    | '"'     \         "    _L        oD_,--'                )     /. (|   |
    |          |           ,'          _)_.\\._<> 6              _,' /  '   |
    |          `.         /           [_/_'` `"(                <'}  )      |
30N-+           \\    .-. )           /   `-'"..' `:._          _)  '       +-30N
    |    `        \  (  `(           /         `:\  > \  ,-^.  /' '         |
    |              `._,   ""         |           \`'   \|   ?_)  {\         |
    |                 `=.---.        `._._       ,'     "`  |' ,- '.        |
000-+                   |    `-._         |     /          `:`<_|h--._      +-000
    |                   (        >        .     | ,          `=.__.`-'\     |
    |                    `.     /         |     |{|              ,-.,\     .|
    |                     |   ,'           \   / `'            ,"     \     |
30S-+                     |  /              |_'                |  __  /     +-30S
    |                     | |                                  '-'  `-'   \.|
    |                     |/                                         "    / |
    |                     \.                                             '  |
60S-+                                                                       +-60S
    |                      ,/            ______._.--._ _..---.---------._   |
    |     ,-----"-..?----_/ )      __,-'"             "                  (  |
    |-.._(                  `-----'                                       `-|
90S-+-----+-----+-----+-----+-----+-----+-----+-----+-----+-----+-----+-----+-90S
    Map 1998 Matthew Thomas.|Freely usable as long as this|line is included.|
    |     |     |     |     |     |     |     |     |     |     |     |     |
   180   150W  120W  90W   60W   30W   000   30E   60E   90E   120E  150E  180"###;

/// The space of GPS coordinates: longitude from -180 to 180 left to right,
/// latitude from 90 to -90 top to bottom.
pub open spec fn gps_space() -> Rect {
    Rect { x: -180i32, y: 90, w: 360, h: -180i32 }
}

/// The space of GPS coordinates, as `gps_space` states it.
pub fn gps_coordspace() -> (r: Rect)
    ensures
        r == gps_space(),
{
    Rect { x: -180i32, y: 90, w: 360, h: -180i32 }
}

/// `height` lines of `width` spaces each.
pub open spec fn blank_lines(width: nat, height: nat) -> Seq<Seq<char>> {
    Seq::new(height, |i: int| Seq::new(width, |j: int| ' '))
}

impl Plot {
    /// The world map, drawn into its framed area, for GPS coordinates.
    pub fn default() -> (r: Plot)
        ensures
            r.map@ == WORLD_MAP@,
            r.map_coordinates == (Rect { x: 4, y: 2, w: 70, h: 22 }),
            r.point_coordinates == gps_space(),
    {
        Plot {
            map: WORLD_MAP.to_owned(),
            map_coordinates: Rect { x: 4, y: 2, w: 70, h: 22 },
            point_coordinates: gps_coordspace(),
        }
    }

    /// A blank canvas of `height` lines of `width` spaces, drawn into
    /// `[0, width) x [0, height)`, for GPS coordinates.
    pub fn make_blank(width: usize, height: usize) -> (r: Plot)
        requires
            width <= i32::MAX,
            height <= i32::MAX,
        ensures
            r.map@ == join_lines(blank_lines(width as nat, height as nat)),
            r.map_coordinates == (Rect { x: 0, y: 0, w: width as i32, h: height as i32 }),
            r.point_coordinates == gps_space(),
    {
        let mut line: Vec<char> = Vec::new();
        let mut j: usize = 0;
        while j < width
            invariant
                j <= width,
                line@ =~= Seq::new(j as nat, |k: int| ' '),
            decreases width - j,
        {
            line.push(' ');
            j = j + 1;
        }
        let mut lines: Vec<Vec<char>> = Vec::new();
        let mut i: usize = 0;
        while i < height
            invariant
                i <= height,
                line@ == Seq::new(width as nat, |k: int| ' '),
                crate::text::rows_view(lines@) =~= blank_lines(width as nat, i as nat),
            decreases height - i,
        {
            let copy = line.clone();
            proof {
                assert(copy@ =~= line@) by {
                    assert forall|k: int| 0 <= k < copy@.len() implies copy@[k] == line@[k] by {
                        assert(cloned::<char>(line@[k], copy@[k]));
                    }
                }
            }
            let ghost before = crate::text::rows_view(lines@);
            lines.push(copy);
            assert(crate::text::rows_view(lines@) =~= before.push(line@));
            i = i + 1;
        }
        let text = crate::text::join_rows(&lines);
        Plot {
            map: string_of(&text),
            map_coordinates: Rect { x: 0, y: 0, w: width as i32, h: height as i32 },
            point_coordinates: gps_coordspace(),
        }
    }
}

} // verus!
