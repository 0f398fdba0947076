//! The stadium (pill) shape: dimensions from a label, rasterisation onto a
//! character canvas, and its attachment points.

use vstd::prelude::*;
use crate::rectangle::{attach_x, attach_y, attachment_fits, get_box_attachment_point};
use crate::text::chars_of;

verus! {

/// Where the label sits inside the shape.
#[derive(Debug, Clone, Copy, PartialEq, Eq)]
pub struct LabelArea {
    pub x: usize,
    pub y: usize,
    pub width: usize,
    pub height: usize,
}

/// Geometric layout of a shape: its outer size, the label's placement, and a
/// three-by-three grid of border and interior columns and rows.
#[derive(Debug, Clone, PartialEq, Eq)]
pub struct ShapeDimensions {
    pub width: usize,
    pub height: usize,
    pub label_area: LabelArea,
    pub grid_columns: [usize; 3],
    pub grid_rows: [usize; 3],
}

#[derive(Debug, Clone, Copy, PartialEq, Eq)]
pub struct ShapeRenderOptions {
    pub use_ascii: bool,
    pub padding: usize,
}

/// An integer point in canvas space.
#[derive(Debug, Clone, Copy, PartialEq, Eq)]
pub struct DrawingCoord {
    pub x: isize,
    pub y: isize,
}

/// Where on a shape an edge attaches: four edges, four corners, or the centre.
#[derive(Debug, Clone, Copy, PartialEq, Eq)]
pub enum Direction {
    Up,
    Down,
    Left,
    Right,
    UpperLeft,
    UpperRight,
    LowerLeft,
    LowerRight,
    Middle,
}

/// A grid of characters addressed as `canvas[x][y]`.
pub type Canvas = Vec<Vec<char>>;

/// The lines of `s`, split at each line feed; an empty `s` is one empty line.
pub open spec fn lines_of(s: Seq<char>) -> Seq<Seq<char>>
    decreases s.len(),
{
    if s.len() == 0 {
        seq![seq![]]
    } else {
        let prev = lines_of(s.drop_last());
        if s.last() == '\n' {
            prev.push(seq![])
        } else {
            prev.update(prev.len() - 1, prev.last().push(s.last()))
        }
    }
}

/// Every text has at least one line, and at most one more line than characters.
pub proof fn lemma_lines_of_nonempty(s: Seq<char>)
    ensures
        lines_of(s).len() >= 1,
        lines_of(s).len() <= s.len() + 1,
    decreases s.len(),
{
    if s.len() > 0 {
        lemma_lines_of_nonempty(s.drop_last());
    }
}

/// The widest line, counted in characters.
pub open spec fn max_width(lines: Seq<Seq<char>>) -> nat
    decreases lines.len(),
{
    if lines.len() == 0 {
        0
    } else {
        let w = max_width(lines.drop_last());
        if lines.last().len() > w {
            lines.last().len()
        } else {
            w
        }
    }
}

proof fn lemma_max_width_bounds(lines: Seq<Seq<char>>)
    ensures
        forall|i: int| 0 <= i < lines.len() ==> #[trigger] lines[i].len() <= max_width(lines),
    decreases lines.len(),
{
    if lines.len() > 0 {
        lemma_max_width_bounds(lines.drop_last());
        assert forall|i: int| 0 <= i < lines.len() implies #[trigger] lines[i].len() <= max_width(
            lines,
        ) by {
            if i < lines.len() - 1 {
                assert(lines[i] == lines.drop_last()[i]);
            }
        }
    }
}

fn split_lines(label: &[char]) -> (r: Vec<Vec<char>>)
    ensures
        r.deep_view() == lines_of(label@),
{
    let mut lines: Vec<Vec<char>> = Vec::new();
    let mut current: Vec<char> = Vec::new();
    let mut i: usize = 0;
    while i < label.len()
        invariant
            i <= label@.len(),
            lines.deep_view().push(current@) == lines_of(label@.take(i as int)),
        decreases label@.len() - i,
    {
        let ghost prev = lines.deep_view().push(current@);
        let c = label[i];
        assert(label@.take(i + 1).drop_last() =~= label@.take(i as int));
        if c == '\n' {
            let ghost old_lines = lines.deep_view();
            assert(current.deep_view() =~= current@);
            lines.push(current);
            assert(lines.deep_view() =~= old_lines.push(prev.last()));
            current = Vec::new();
            assert(lines.deep_view().push(current@) =~= prev.push(seq![]));
        } else {
            current.push(c);
            assert(lines.deep_view().push(current@) =~= prev.update(prev.len() - 1, prev.last().push(c)));
        }
        i += 1;
    }
    assert(label@.take(label@.len() as int) =~= label@);
    let ghost old_lines = lines.deep_view();
    assert(current.deep_view() =~= current@);
    lines.push(current);
    assert(lines.deep_view() =~= old_lines.push(current@));
    lines
}

fn max_line_width(lines: &Vec<Vec<char>>) -> (r: usize)
    ensures
        r == max_width(lines.deep_view()),
{
    let ghost d = lines.deep_view();
    let mut best: usize = 0;
    let mut i: usize = 0;
    while i < lines.len()
        invariant
            i <= lines@.len(),
            d == lines.deep_view(),
            best == max_width(d.take(i as int)),
        decreases lines@.len() - i,
    {
        assert(d.take(i + 1).drop_last() =~= d.take(i as int));
        assert(d[i as int] == lines@[i as int]@);
        let w = lines[i].len();
        if w > best {
            best = w;
        }
        i += 1;
    }
    assert(d.take(lines@.len() as int) =~= d);
    best
}

/// Interior width: the widest line in code points, plus the padding on both sides.
pub open spec fn inner_width(label: Seq<char>, padding: nat) -> nat {
    2 * padding + max_width(lines_of(label))
}

/// Interior height: the line count, plus the padding above and below.
pub open spec fn inner_height(label: Seq<char>, padding: nat) -> nat {
    lines_of(label).len() + 2 * padding
}

/// Outer height: the interior and a border row above and below, at least three.
pub open spec fn shape_height(label: Seq<char>, padding: nat) -> nat {
    if inner_height(label, padding) + 2 >= 3 {
        (inner_height(label, padding) + 2) as nat
    } else {
        3
    }
}

/// The shape's sizes fit in `usize`.
pub open spec fn dimensions_fit(label: Seq<char>, padding: nat) -> bool {
    &&& inner_width(label, padding) + 4 <= usize::MAX
    &&& inner_height(label, padding) + 2 <= usize::MAX
}

/// The dimensions computed for `label` with `padding`.
pub open spec fn is_dimensions_of(d: ShapeDimensions, label: Seq<char>, padding: nat) -> bool {
    let lines = lines_of(label);
    &&& d.width == inner_width(label, padding) + 4
    &&& d.height == shape_height(label, padding)
    &&& d.label_area == LabelArea {
        x: (2 + padding) as usize,
        y: (1 + padding) as usize,
        width: max_width(lines) as usize,
        height: lines.len() as usize,
    }
    &&& d.grid_columns@ == seq![2usize, inner_width(label, padding) as usize, 2usize]
    &&& d.grid_rows@ == seq![1usize, inner_height(label, padding) as usize, 1usize]
}

/// Lays out the stadium for `label`: the widest line in code points plus twice
/// the padding is the interior width, two columns of border on each side; the
/// line count plus twice the padding is the interior height, one row of border
/// above and below, and at least three rows in all.
pub fn get_dimensions(label: &str, options: ShapeRenderOptions) -> (r: ShapeDimensions)
    requires
        dimensions_fit(label@, options.padding as nat),
    ensures
        is_dimensions_of(r, label@, options.padding as nat),
{
    let chars = chars_of(label);
    let lines = split_lines(chars.as_slice());
    proof {
        lemma_lines_of_nonempty(label@);
    }
    let max_line_width = max_line_width(&lines);
    let line_count = lines.len();

    let inner_width = (2 * options.padding) + max_line_width;
    let width = inner_width + 4;
    let inner_height = line_count + (2 * options.padding);
    let height = if inner_height + 2 >= 3 { inner_height + 2 } else { 3 };

    let r = ShapeDimensions {
        width,
        height,
        label_area: LabelArea {
            x: 2 + options.padding,
            y: 1 + options.padding,
            width: max_line_width,
            height: line_count,
        },
        grid_columns: [2, inner_width, 2],
        grid_rows: [1, inner_height, 1],
    };
    assert(r.grid_columns@ =~= seq![2usize, inner_width, 2usize]);
    assert(r.grid_rows@ =~= seq![1usize, inner_height, 1usize]);
    r
}

/// Attachment point of the stadium: the rectangular rule on its bounding box.
pub fn get_attachment_point(
    dir: Direction,
    dimensions: &ShapeDimensions,
    base_coord: DrawingCoord,
) -> (r: DrawingCoord)
    requires
        attachment_fits(*dimensions, base_coord),
    ensures
        r.x == attach_x(dir, dimensions.width as int, base_coord.x as int),
        r.y == attach_y(dir, dimensions.height as int, base_coord.y as int),
{
    get_box_attachment_point(dir, dimensions, base_coord)
}

/// `label` can be drawn with `dimensions`: the canvas has at least one column
/// and one row, and the interior grid is at least as wide as every line and as
/// tall as the line count. What falls outside the canvas is clipped.
pub open spec fn render_ready(label: Seq<char>, dimensions: ShapeDimensions) -> bool {
    &&& dimensions.width >= 1
    &&& dimensions.height >= 1
    &&& lines_of(label).len() <= dimensions.grid_rows@[1]
    &&& max_width(lines_of(label)) <= dimensions.grid_columns@[1]
}

/// The border glyph at `(x, y)` of a `w` by `h` canvas, or a space. With
/// `h == 3`, only end caps on the middle row. Otherwise, rounded: corners
/// `╭ ╮ ╰ ╯` with `─` along the top and bottom and `│` down the sides; or, with
/// ASCII, `(` and `)` down the full sides and `-` along the top and bottom. On a
/// canvas too small for these to stay apart, the glyph drawn last wins: the
/// bottom row over the sides over the top row, and `)` over `(`.
pub open spec fn border_cell(w: int, h: int, ascii: bool, x: int, y: int) -> char {
    if h == 3 {
        if y == h / 2 && x == w - 1 {
            ')'
        } else if y == h / 2 && x == 0 {
            '('
        } else {
            ' '
        }
    } else if !ascii {
        if x == w - 1 && y == h - 1 {
            '╯'
        } else if y == h - 1 && 1 <= x < w - 1 {
            '─'
        } else if x == 0 && y == h - 1 {
            '╰'
        } else if (x == 0 || x == w - 1) && 1 <= y < h - 1 {
            '│'
        } else if x == w - 1 && y == 0 {
            '╮'
        } else if y == 0 && 1 <= x < w - 1 {
            '─'
        } else if x == 0 && y == 0 {
            '╭'
        } else {
            ' '
        }
    } else {
        if 1 <= x < w - 1 && (y == 0 || y == h - 1) {
            '-'
        } else if x == w - 1 {
            ')'
        } else if x == 0 {
            '('
        } else {
            ' '
        }
    }
}

/// First row of the label: the lines are centred vertically in the interior,
/// rounding up.
pub open spec fn label_top(lines: Seq<Seq<char>>, inner_h: int) -> int {
    1 + (inner_h - lines.len()) / 2
}

/// First column of a line of `len` characters, centred in the interior with
/// the odd remainder to the right.
pub open spec fn line_left(len: int, inner_w: int) -> int {
    2 + (inner_w - len) / 2
}

/// The label character drawn at `(x, y)`, if any: characters that fall on the
/// first or last column are clipped.
pub open spec fn label_cell(lines: Seq<Seq<char>>, d: ShapeDimensions, x: int, y: int) -> Option<char> {
    let i = y - label_top(lines, d.grid_rows@[1] as int);
    if 0 <= i < lines.len() {
        let j = x - line_left(lines[i].len() as int, d.grid_columns@[1] as int);
        if 0 < x < d.width - 1 && 0 <= y < d.height && 0 <= j < lines[i].len() {
            Some(lines[i][j])
        } else {
            None
        }
    } else {
        None
    }
}

/// The character at `(x, y)` of the drawn shape: the label over the border.
pub open spec fn canvas_cell(lines: Seq<Seq<char>>, d: ShapeDimensions, ascii: bool, x: int, y: int) -> char {
    match label_cell(lines, d, x, y) {
        Some(c) => c,
        None => border_cell(d.width as int, d.height as int, ascii, x, y),
    }
}

/// A blank canvas with columns `0..=max_x` and rows `0..=max_y`.
fn mk_canvas(max_x: usize, max_y: usize) -> (r: Canvas)
    requires
        max_x < usize::MAX,
        max_y < usize::MAX,
    ensures
        r@.len() == max_x + 1,
        forall|x: int| 0 <= x <= max_x ==> #[trigger] r@[x]@ == Seq::new((max_y + 1) as nat, |y: int| ' '),
{
    let mut canvas: Canvas = Vec::with_capacity(max_x + 1);
    let mut i: usize = 0;
    while i <= max_x
        invariant
            i <= max_x + 1,
            max_x < usize::MAX,
            max_y < usize::MAX,
            canvas@.len() == i,
            forall|x: int| 0 <= x < i ==> #[trigger] canvas@[x]@ == Seq::new((max_y + 1) as nat, |y: int| ' '),
        decreases max_x + 1 - i,
    {
        let column = vec![' '; max_y + 1];
        assert(column@ =~= Seq::new((max_y + 1) as nat, |y: int| ' '));
        canvas.push(column);
        i += 1;
    }
    canvas
}

fn border_glyph(w: usize, h: usize, ascii: bool, x: usize, y: usize) -> (r: char)
    requires
        w >= 1,
        h >= 1,
    ensures
        r == border_cell(w as int, h as int, ascii, x as int, y as int),
{
    if h == 3 {
        if y == h / 2 && x == w - 1 {
            ')'
        } else if y == h / 2 && x == 0 {
            '('
        } else {
            ' '
        }
    } else if !ascii {
        if x == w - 1 && y == h - 1 {
            '╯'
        } else if y == h - 1 && 1 <= x && x < w - 1 {
            '─'
        } else if x == 0 && y == h - 1 {
            '╰'
        } else if (x == 0 || x == w - 1) && 1 <= y && y < h - 1 {
            '│'
        } else if x == w - 1 && y == 0 {
            '╮'
        } else if y == 0 && 1 <= x && x < w - 1 {
            '─'
        } else if x == 0 && y == 0 {
            '╭'
        } else {
            ' '
        }
    } else {
        if 1 <= x && x < w - 1 && (y == 0 || y == h - 1) {
            '-'
        } else if x == w - 1 {
            ')'
        } else if x == 0 {
            '('
        } else {
            ' '
        }
    }
}

fn cell_at(lines: &Vec<Vec<char>>, d: &ShapeDimensions, ascii: bool, x: usize, y: usize) -> (r: char)
    requires
        d.width >= 1,
        d.height >= 1,
        lines@.len() <= d.grid_rows@[1],
        forall|i: int| 0 <= i < lines@.len() ==> #[trigger] lines@[i]@.len() <= d.grid_columns@[1],
    ensures
        r == canvas_cell(lines.deep_view(), *d, ascii, x as int, y as int),
{
    let ghost dv = lines.deep_view();
    assert(dv.len() == lines@.len());
    let n = lines.len();
    let inner_w = d.grid_columns[1];
    let inner_h = d.grid_rows[1];
    let top = 1 + (inner_h - n) / 2;
    if y >= top && y - top < n {
        let line = &lines[y - top];
        assert(dv[(y - top) as int] == line@);
        let left = 2 + (inner_w - line.len()) / 2;
        if x > 0 && x < d.width - 1 && y < d.height && x >= left && x - left < line.len() {
            return line[x - left];
        }
    }
    border_glyph(d.width, d.height, ascii, x, y)
}

/// Draws the stadium for `label` on a fresh canvas of `width` columns and
/// `height` rows: the border of its regime, then each line centred in the
/// interior grid, clipped to the columns between the first and the last and to
/// the rows of the canvas.
pub fn render(label: &str, dimensions: &ShapeDimensions, options: ShapeRenderOptions) -> (r: Canvas)
    requires
        render_ready(label@, *dimensions),
    ensures
        r@.len() == dimensions.width,
        forall|x: int| 0 <= x < dimensions.width ==> #[trigger] r@[x]@.len() == dimensions.height,
        forall|x: int, y: int|
            0 <= x < dimensions.width && 0 <= y < dimensions.height ==> #[trigger] r@[x]@[y]
                == canvas_cell(lines_of(label@), *dimensions, options.use_ascii, x, y),
{
    let width = dimensions.width;
    let height = dimensions.height;
    let chars = chars_of(label);
    let lines = split_lines(chars.as_slice());
    proof {
        lemma_max_width_bounds(lines.deep_view());
        assert forall|i: int| 0 <= i < lines@.len() implies #[trigger] lines@[i]@.len()
            <= dimensions.grid_columns@[1] by {
            assert(lines.deep_view()[i] == lines@[i]@);
        }
    }
    let mut canvas = mk_canvas(width - 1, height - 1);
    let mut x: usize = 0;
    while x < width
        invariant
            x <= width,
            width == dimensions.width,
            height == dimensions.height,
            render_ready(label@, *dimensions),
            lines.deep_view() == lines_of(label@),
            forall|i: int| 0 <= i < lines@.len() ==> #[trigger] lines@[i]@.len() <= dimensions.grid_columns@[1],
            canvas@.len() == width,
            forall|c: int| 0 <= c < width ==> #[trigger] canvas@[c]@.len() == height,
            forall|c: int, y: int|
                0 <= c < x && 0 <= y < height ==> #[trigger] canvas@[c]@[y] == canvas_cell(
                    lines_of(label@),
                    *dimensions,
                    options.use_ascii,
                    c,
                    y,
                ),
        decreases width - x,
    {
        let mut column: Vec<char> = Vec::with_capacity(height);
        let mut y: usize = 0;
        while y < height
            invariant
                y <= height,
                x < width,
                width == dimensions.width,
                height == dimensions.height,
                render_ready(label@, *dimensions),
                lines.deep_view() == lines_of(label@),
                forall|i: int| 0 <= i < lines@.len() ==> #[trigger] lines@[i]@.len() <= dimensions.grid_columns@[1],
                column@.len() == y,
                forall|r: int| 0 <= r < y ==> #[trigger] column@[r] == canvas_cell(
                    lines_of(label@),
                    *dimensions,
                    options.use_ascii,
                    x as int,
                    r,
                ),
            decreases height - y,
        {
            column.push(cell_at(&lines, dimensions, options.use_ascii, x, y));
            y += 1;
        }
        canvas.set(x, column);
        x += 1;
    }
    canvas
}

/// For every label and padding, the dimensions computed for the label are
/// accepted for drawing it, so the canvas spans exactly `width` columns and
/// `height` rows: indices up to `(width - 1, height - 1)`.
pub proof fn lemma_canvas_span(label: Seq<char>, padding: nat, d: ShapeDimensions)
    requires
        dimensions_fit(label, padding),
        is_dimensions_of(d, label, padding),
    ensures
        render_ready(label, d),
        d.width >= 4,
        d.height >= 3,
{
}

} // verus!
