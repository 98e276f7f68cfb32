//! The cell-accurate model behind a terminal surface: a row-major grid of
//! cells (absent entries read as blank), a cursor and an inclusive row-major
//! selection, with the lookups painting and hit-testing use.

use vstd::prelude::*;

use crate::color::{rgba_spec, Color};

verus! {

/// A row/column address in a terminal grid.
#[derive(Clone, Copy, Debug, Default, PartialEq, Eq, Structural, Hash, PartialOrd, Ord)]
pub struct TerminalGridPoint {
    pub row: usize,
    pub column: usize,
}

impl TerminalGridPoint {
    pub fn new(row: usize, column: usize) -> (p: Self)
        ensures
            p.row == row,
            p.column == column,
    {
        TerminalGridPoint { row, column }
    }
}

/// Row-major order: `a` comes no later than `b`.
pub open spec fn point_le(a: TerminalGridPoint, b: TerminalGridPoint) -> bool {
    a.row < b.row || (a.row == b.row && a.column <= b.column)
}

fn point_le_exec(a: TerminalGridPoint, b: TerminalGridPoint) -> (r: bool)
    ensures
        r == point_le(a, b),
{
    a.row < b.row || (a.row == b.row && a.column <= b.column)
}

/// How a cell participates in fixed-width terminal layout.
#[derive(Clone, Copy, Debug, Default, PartialEq, Eq, Structural)]
pub enum TerminalCellWidth {
    #[default]
    Single,
    /// The grapheme occupies this cell and the following cell.
    Wide,
    /// The cell is occupied by the wide grapheme immediately to its left.
    Continuation,
}

/// SGR-like visual attributes retained per cell.
#[derive(Clone, Copy, Debug, Default, PartialEq, Eq, Structural)]
pub struct TerminalCellAttrs {
    pub bold: bool,
    pub italic: bool,
    pub underline: bool,
    pub strike: bool,
    pub faint: bool,
    pub inverse: bool,
}

/// No visual attribute set.
pub open spec fn no_attrs() -> TerminalCellAttrs {
    TerminalCellAttrs {
        bold: false,
        italic: false,
        underline: false,
        strike: false,
        faint: false,
        inverse: false,
    }
}

/// One exact terminal cell.
#[derive(Clone, Debug, PartialEq, Eq)]
pub struct TerminalCell {
    pub grapheme: String,
    pub foreground: Color,
    pub background: Color,
    pub attrs: TerminalCellAttrs,
    pub width: TerminalCellWidth,
    /// OSC 8 target associated with this cell, if any.
    pub hyperlink: Option<String>,
}

impl TerminalCell {
    /// An empty single-width cell without attributes or link.
    pub fn blank(foreground: Color, background: Color) -> (c: Self)
        ensures
            c.grapheme@ == Seq::<char>::empty(),
            c.foreground == foreground,
            c.background == background,
            c.attrs == no_attrs(),
            c.width == TerminalCellWidth::Single,
            c.hyperlink is None,
    {
        TerminalCell {
            grapheme: String::new(),
            foreground,
            background,
            attrs: TerminalCellAttrs {
                bold: false,
                italic: false,
                underline: false,
                strike: false,
                faint: false,
                inverse: false,
            },
            width: TerminalCellWidth::Single,
            hyperlink: None,
        }
    }

    /// A blank cell showing `grapheme`.
    pub fn new(grapheme: &str, foreground: Color, background: Color) -> (c: Self)
        ensures
            c.grapheme@ == grapheme@,
            c.foreground == foreground,
            c.background == background,
            c.attrs == no_attrs(),
            c.width == TerminalCellWidth::Single,
            c.hyperlink is None,
    {
        let mut c = TerminalCell::blank(foreground, background);
        c.grapheme = grapheme.to_owned();
        c
    }
}

/// Cursor geometry supported by ordinary terminal emulators.
#[derive(Clone, Copy, Debug, Default, PartialEq, Eq, Structural)]
pub enum TerminalCursorStyle {
    #[default]
    Block,
    Bar,
    Underline,
}

/// Retained cursor state. A blinking cursor paints when `blink_on` is true.
#[derive(Clone, Copy, Debug, PartialEq, Eq, Structural)]
pub struct TerminalCursor {
    pub position: TerminalGridPoint,
    pub style: TerminalCursorStyle,
    pub color: Color,
    pub visible: bool,
    pub blinking: bool,
    pub blink_on: bool,
}

/// Whether the cursor is drawn in the current blink phase.
pub open spec fn cursor_paints(c: TerminalCursor) -> bool {
    c.visible && (!c.blinking || c.blink_on)
}

impl TerminalCursor {
    /// A visible, steady block cursor.
    pub fn new(position: TerminalGridPoint, color: Color) -> (c: Self)
        ensures
            c == (TerminalCursor {
                position,
                style: TerminalCursorStyle::Block,
                color,
                visible: true,
                blinking: false,
                blink_on: true,
            }),
    {
        TerminalCursor {
            position,
            style: TerminalCursorStyle::Block,
            color,
            visible: true,
            blinking: false,
            blink_on: true,
        }
    }

    pub fn paints(self) -> (r: bool)
        ensures
            r == cursor_paints(self),
    {
        self.visible && (!self.blinking || self.blink_on)
    }
}

/// Inclusive row-major terminal selection; `start` may follow `end`.
#[derive(Clone, Copy, Debug, PartialEq, Eq, Structural)]
pub struct TerminalSelection {
    pub start: TerminalGridPoint,
    pub end: TerminalGridPoint,
    pub background: Color,
    pub foreground: Option<Color>,
}

/// The point lies between the selection's ends, whichever comes first.
pub open spec fn selection_contains(s: TerminalSelection, p: TerminalGridPoint) -> bool {
    if point_le(s.start, s.end) {
        point_le(s.start, p) && point_le(p, s.end)
    } else {
        point_le(s.end, p) && point_le(p, s.start)
    }
}

impl TerminalSelection {
    pub fn contains(self, point: TerminalGridPoint) -> (r: bool)
        ensures
            r == selection_contains(self, point),
    {
        let (start, end) = if point_le_exec(self.start, self.end) {
            (self.start, self.end)
        } else {
            (self.end, self.start)
        };
        point_le_exec(start, point) && point_le_exec(point, end)
    }
}

/// A selection reads the same whichever end is called `start`.
pub proof fn law_selection_ends_are_interchangeable(s: TerminalSelection, p: TerminalGridPoint)
    ensures
        selection_contains(s, p) == selection_contains(
            TerminalSelection { start: s.end, end: s.start, ..s },
            p,
        ),
{
}

/// The complete owned viewport of a terminal: `cells` is row-major, and an
/// absent entry reads as a blank cell in the default colours.
#[derive(Clone, Debug, PartialEq)]
pub struct TerminalGridModel {
    pub columns: usize,
    pub rows: usize,
    pub cells: Vec<TerminalCell>,
    pub foreground: Color,
    pub background: Color,
    pub cursor: Option<TerminalCursor>,
    pub selection: Option<TerminalSelection>,
}

/// The cursor when it paints as its own bar or underline over its cell: it
/// is drawn in this blink phase, lies inside the grid, and is not a block
/// (a block cursor recolours its cell instead).
pub open spec fn cursor_overlay_spec(m: TerminalGridModel) -> Option<TerminalCursor> {
    match m.cursor {
        Some(c) => if cursor_paints(c) && c.position.row < m.rows && c.position.column < m.columns
            && c.style != TerminalCursorStyle::Block {
            Some(c)
        } else {
            None
        },
        None => None,
    }
}

impl TerminalGridModel {
    /// The cursor to paint as a separate bar or underline, if any.
    pub fn cursor_overlay(&self) -> (r: Option<TerminalCursor>)
        ensures
            r == cursor_overlay_spec(*self),
    {
        match self.cursor {
            Some(c) => if c.paints() && c.position.row < self.rows && c.position.column < self.columns
                && c.style != TerminalCursorStyle::Block {
                Some(c)
            } else {
                None
            },
            None => None,
        }
    }
}

/// The row-major index of an in-grid point.
pub open spec fn index_spec(m: TerminalGridModel, p: TerminalGridPoint) -> Option<int> {
    if p.row < m.rows && p.column < m.columns {
        Some(p.row * m.columns + p.column)
    } else {
        None
    }
}

/// The cell stored for a point, if the point is in the grid and stored.
pub open spec fn cell_spec(m: TerminalGridModel, p: TerminalGridPoint) -> Option<TerminalCell> {
    match index_spec(m, p) {
        Some(i) => if i < m.cells@.len() {
            Some(m.cells@[i])
        } else {
            None
        },
        None => None,
    }
}

/// The hyperlink under a point; a wide-cell continuation without its own
/// link reads its owner's.
pub open spec fn hyperlink_spec(m: TerminalGridModel, p: TerminalGridPoint) -> Option<Seq<char>> {
    match cell_spec(m, p) {
        None => None,
        Some(c) => match c.hyperlink {
            Some(u) => Some(u@),
            None => if c.width == TerminalCellWidth::Continuation && p.column > 0 {
                match cell_spec(m, TerminalGridPoint { row: p.row, column: (p.column - 1) as usize }) {
                    Some(o) => match o.hyperlink {
                        Some(u) => Some(u@),
                        None => None,
                    },
                    None => None,
                }
            } else {
                None
            },
        },
    }
}

pub open spec fn str_opt(o: Option<&str>) -> Option<Seq<char>> {
    match o {
        Some(s) => Some(s@),
        None => None,
    }
}

/// The text one cell contributes to the plain-text value: nothing for a wide
/// continuation, its grapheme, or a space for a blank or absent cell.
pub open spec fn cell_text(m: TerminalGridModel, p: TerminalGridPoint) -> Seq<char> {
    match cell_spec(m, p) {
        Some(c) => if c.width == TerminalCellWidth::Continuation {
            Seq::empty()
        } else if c.grapheme@.len() > 0 {
            c.grapheme@
        } else {
            seq![' ']
        },
        None => seq![' '],
    }
}

/// The text of the first `c` cells of row `r`.
pub open spec fn row_text(m: TerminalGridModel, r: int, c: int) -> Seq<char>
    decreases c,
{
    if c <= 0 {
        Seq::empty()
    } else {
        row_text(m, r, c - 1) + cell_text(
            m,
            TerminalGridPoint { row: r as usize, column: (c - 1) as usize },
        )
    }
}

/// The text of the first `r` rows, separated by newlines.
pub open spec fn grid_text(m: TerminalGridModel, r: int) -> Seq<char>
    decreases r,
{
    if r <= 0 {
        Seq::empty()
    } else if r == 1 {
        row_text(m, 0, m.columns as int)
    } else {
        grid_text(m, r - 1) + seq!['\n'] + row_text(m, r - 1, m.columns as int)
    }
}

/// The foreground and background a point is painted with: the cell's colours
/// (the defaults for an absent cell), swapped by `inverse`; a selection
/// replaces the background, and so, above it, does a painted block cursor.
pub open spec fn effective_colors_spec(m: TerminalGridModel, p: TerminalGridPoint) -> (Color, Color) {
    let (f0, b0) = match cell_spec(m, p) {
        Some(c) => (c.foreground, c.background),
        None => (m.foreground, m.background),
    };
    let inverse = match cell_spec(m, p) {
        Some(c) => c.attrs.inverse,
        None => false,
    };
    let (f1, b1) = if inverse {
        (b0, f0)
    } else {
        (f0, b0)
    };
    let b2 = match m.selection {
        Some(s) => if selection_contains(s, p) {
            s.background
        } else {
            b1
        },
        None => b1,
    };
    let b3 = match m.cursor {
        Some(c) => if c.position == p && cursor_paints(c) && c.style == TerminalCursorStyle::Block {
            c.color
        } else {
            b2
        },
        None => b2,
    };
    (f1, b3)
}

impl TerminalGridModel {
    /// Row-major indices of the whole grid fit in `usize`.
    pub open spec fn fits(&self) -> bool {
        self.rows * self.columns <= usize::MAX
    }

    /// A blank grid in white on black.
    pub fn new(columns: usize, rows: usize) -> (m: Self)
        requires
            columns * rows <= usize::MAX,
        ensures
            m.fits(),
            m.columns == columns,
            m.rows == rows,
            m.cells@.len() == columns * rows,
            m.foreground == rgba_spec(255, 255, 255, 255),
            m.background == rgba_spec(0, 0, 0, 255),
            m.cursor is None,
            m.selection is None,
            forall|i: int|
                0 <= i < m.cells@.len() ==> (#[trigger] m.cells@[i]).grapheme@.len() == 0
                    && m.cells@[i].foreground == rgba_spec(255, 255, 255, 255)
                    && m.cells@[i].background == rgba_spec(0, 0, 0, 255)
                    && m.cells@[i].width == TerminalCellWidth::Single && m.cells@[i].hyperlink is None,
    {
        Self::with_colors(columns, rows, Color::white(), Color::black())
    }

    /// A blank grid: one blank cell per point in the given default colours.
    pub fn with_colors(columns: usize, rows: usize, foreground: Color, background: Color) -> (m:
        Self)
        requires
            columns * rows <= usize::MAX,
        ensures
            m.fits(),
            m.columns == columns,
            m.rows == rows,
            m.cells@.len() == columns * rows,
            m.foreground == foreground,
            m.background == background,
            m.cursor is None,
            m.selection is None,
            forall|i: int|
                0 <= i < m.cells@.len() ==> (#[trigger] m.cells@[i]).grapheme@.len() == 0
                    && m.cells@[i].foreground == foreground && m.cells@[i].background == background
                    && m.cells@[i].width == TerminalCellWidth::Single && m.cells@[i].hyperlink is None,
    {
        assert(rows * columns == columns * rows) by (nonlinear_arith);
        let len = columns * rows;
        let mut cells: Vec<TerminalCell> = Vec::new();
        while cells.len() < len
            invariant
                cells@.len() <= len,
                forall|i: int|
                    0 <= i < cells@.len() ==> (#[trigger] cells@[i]).grapheme@.len() == 0
                        && cells@[i].foreground == foreground && cells@[i].background == background
                        && cells@[i].width == TerminalCellWidth::Single && cells@[i].hyperlink is None,
            decreases len - cells@.len(),
        {
            cells.push(TerminalCell::blank(foreground, background));
        }
        TerminalGridModel {
            columns,
            rows,
            cells,
            foreground,
            background,
            cursor: None,
            selection: None,
        }
    }

    /// The row-major index of `point`, when it lies in the grid.
    pub fn index(&self, point: TerminalGridPoint) -> (r: Option<usize>)
        requires
            self.fits(),
        ensures
            r matches Some(i) ==> index_spec(*self, point) == Some(i as int),
            r is None ==> index_spec(*self, point) is None,
            r matches Some(i) ==> i < self.rows * self.columns,
    {
        if point.row < self.rows && point.column < self.columns {
            proof {
                lemma_index_bound(point.row as int, point.column as int, self.rows as int, self.columns as int);
            }
            Some(point.row * self.columns + point.column)
        } else {
            None
        }
    }

    /// The cell at `point`, if it is in the grid and stored.
    pub fn cell(&self, point: TerminalGridPoint) -> (r: Option<&TerminalCell>)
        requires
            self.fits(),
        ensures
            r matches Some(c) ==> cell_spec(*self, point) == Some(*c),
            r is None ==> cell_spec(*self, point) is None,
    {
        match self.index(point) {
            Some(i) => if i < self.cells.len() {
                Some(&self.cells[i])
            } else {
                None
            },
            None => None,
        }
    }

    /// Replaces the cell at `point`; `false` (and no change) when there is no
    /// stored cell there.
    pub fn set_cell(&mut self, point: TerminalGridPoint, cell: TerminalCell) -> (r: bool)
        requires
            old(self).fits(),
        ensures
            r == (cell_spec(*old(self), point) is Some),
            final(self).fits(),
            final(self).rows == old(self).rows,
            final(self).columns == old(self).columns,
            final(self).cells@.len() == old(self).cells@.len(),
            final(self).foreground == old(self).foreground,
            final(self).background == old(self).background,
            final(self).cursor == old(self).cursor,
            final(self).selection == old(self).selection,
            r ==> cell_spec(*final(self), point) == Some(cell),
            forall|q: TerminalGridPoint|
                q != point ==> #[trigger] cell_spec(*final(self), q) == cell_spec(*old(self), q),
            !r ==> *final(self) == *old(self),
    {
        match self.index(point) {
            Some(i) => {
                if i < self.cells.len() {
                    self.cells.set(i, cell);
                    proof {
                        assert forall|q: TerminalGridPoint| q != point implies #[trigger] cell_spec(
                            *self,
                            q,
                        ) == cell_spec(*old(self), q) by {
                            if q.row < self.rows && q.column < self.columns {
                                lemma_index_distinct(
                                    point.row as int,
                                    point.column as int,
                                    q.row as int,
                                    q.column as int,
                                    self.columns as int,
                                );
                            }
                        }
                    }
                    true
                } else {
                    false
                }
            },
            None => false,
        }
    }

    /// The hyperlink under `point`, a wide-cell continuation without its own
    /// link reading its owner's.
    pub fn hyperlink_at(&self, point: TerminalGridPoint) -> (r: Option<&str>)
        requires
            self.fits(),
        ensures
            str_opt(r) == hyperlink_spec(*self, point),
    {
        let cell = match self.cell(point) {
            Some(c) => c,
            None => return None,
        };
        match &cell.hyperlink {
            Some(uri) => Some(uri.as_str()),
            None => {
                if cell.width == TerminalCellWidth::Continuation && point.column > 0 {
                    match self.cell(TerminalGridPoint::new(point.row, point.column - 1)) {
                        Some(owner) => match &owner.hyperlink {
                            Some(uri) => Some(uri.as_str()),
                            None => None,
                        },
                        None => None,
                    }
                } else {
                    None
                }
            },
        }
    }

    /// The grid as text: one line per row, a space per blank or absent cell,
    /// nothing for a wide continuation.
    pub fn plain_text(&self) -> (text: String)
        requires
            self.fits(),
        ensures
            text@ == grid_text(*self, self.rows as int),
    {
        let newline = "\n";
        let space = " ";
        proof {
            reveal_strlit("\n");
            reveal_strlit(" ");
        }
        let mut text = String::new();
        let mut row: usize = 0;
        while row < self.rows
            invariant
                self.fits(),
                row <= self.rows,
                newline@ == seq!['\n'],
                space@ == seq![' '],
                text@ == grid_text(*self, row as int),
            decreases self.rows - row,
        {
            let ghost prefix = text@;
            if row > 0 {
                text.append(newline);
            }
            let mut column: usize = 0;
            while column < self.columns
                invariant
                    self.fits(),
                    row < self.rows,
                    column <= self.columns,
                    newline@ == seq!['\n'],
                    space@ == seq![' '],
                    prefix == grid_text(*self, row as int),
                    text@ == (if row > 0 {
                        prefix + seq!['\n']
                    } else {
                        prefix
                    }) + row_text(*self, row as int, column as int),
                decreases self.columns - column,
            {
                let point = TerminalGridPoint::new(row, column);
                match self.cell(point) {
                    Some(cell) => {
                        if cell.width == TerminalCellWidth::Continuation {
                        } else if cell.grapheme.as_str().as_bytes().len() > 0 {
                            proof {
                                if cell.grapheme@.len() == 0 {
                                    assert(vstd::utf8::encode_utf8(cell.grapheme@) =~= Seq::<u8>::empty());
                                }
                            }
                            text.append(cell.grapheme.as_str());
                        } else {
                            proof {
                                vstd::utf8::encode_utf8_decode_utf8(cell.grapheme@);
                                assert(vstd::utf8::encode_utf8(cell.grapheme@) =~= Seq::<u8>::empty());
                            }
                            text.append(space);
                        }
                    },
                    None => {
                        text.append(space);
                    },
                }
                column = column + 1;
            }
            row = row + 1;
        }
        text
    }
}

/// How a point's colours stack: a painted block cursor at the point gives
/// the background its own colour whatever selection covers the point; a
/// selection covering a point without such a cursor gives its background;
/// and neither the selection nor the cursor ever changes the foreground.
pub proof fn law_block_cursor_paints_over_the_selection(
    m: TerminalGridModel,
    p: TerminalGridPoint,
    selection: Option<TerminalSelection>,
    cursor: Option<TerminalCursor>,
)
    ensures
        ({
            let block_here = (m.cursor matches Some(c) && c.position == p && cursor_paints(c)
                && c.style == TerminalCursorStyle::Block);
            let selected_here = (m.selection matches Some(s) && selection_contains(s, p));
            &&& block_here ==> effective_colors_spec(m, p).1 == m.cursor->0.color
            &&& !block_here && selected_here ==> effective_colors_spec(m, p).1 == m.selection->0.background
            &&& effective_colors_spec(TerminalGridModel { selection, cursor, ..m }, p).0
                == effective_colors_spec(m, p).0
        }),
{
}

/// The colours a point is painted with (see `effective_colors_spec`).
pub fn effective_cell_colors(model: &TerminalGridModel, point: TerminalGridPoint) -> (r: (
    Color,
    Color,
))
    requires
        model.fits(),
    ensures
        r == effective_colors_spec(*model, point),
{
    let cell = model.cell(point);
    let (mut foreground, mut background) = match cell {
        Some(c) => (c.foreground, c.background),
        None => (model.foreground, model.background),
    };
    let inverse = match cell {
        Some(c) => c.attrs.inverse,
        None => false,
    };
    if inverse {
        let t = foreground;
        foreground = background;
        background = t;
    }
    match model.selection {
        Some(s) => {
            if s.contains(point) {
                background = s.background;
            }
        },
        None => {},
    }
    match model.cursor {
        Some(c) => {
            if c.position == point && c.paints() && c.style == TerminalCursorStyle::Block {
                background = c.color;
            }
        },
        None => {},
    }
    (foreground, background)
}

/// `color` with its alpha scaled by `numerator / denominator` (a zero
/// denominator counts as one), truncated to eight bits.
pub fn color_with_alpha(color: Color, numerator: u8, denominator: u8) -> (r: Color)
    ensures
        r == (Color {
            a: ((color.a * numerator) / (if denominator == 0 {
                1
            } else {
                denominator as int
            })) as u8,
            ..color
        }),
{
    let d: u16 = if denominator == 0 {
        1
    } else {
        denominator as u16
    };
    assert((color.a as u16) * (numerator as u16) <= 65025) by (nonlinear_arith);
    let scaled: u16 = (color.a as u16) * (numerator as u16) / d;
    Color { a: scaled as u8, ..color }
}

/// Result of terminal pointer hit-testing.
#[derive(Clone, Debug, PartialEq, Eq)]
pub struct TerminalGridHit {
    pub position: TerminalGridPoint,
    pub hyperlink: Option<String>,
}

/// Resolves the cell under a pointer. `cell` is the row/column the pointer's
/// offset from the grid origin falls in (`None` outside the grid's box); a
/// cell past the last row or column is no terminal cell.
pub fn terminal_grid_hit_test(model: &TerminalGridModel, cell: Option<TerminalGridPoint>) -> (r:
    Option<TerminalGridHit>)
    requires
        model.fits(),
    ensures
        match cell {
            Some(p) => if p.row < model.rows && p.column < model.columns {
                r matches Some(h) && h.position == p && (match h.hyperlink {
                    Some(u) => Some(u@),
                    None => None,
                }) == hyperlink_spec(*model, p)
            } else {
                r is None
            },
            None => r is None,
        },
{
    let p = match cell {
        Some(p) => p,
        None => return None,
    };
    if p.row >= model.rows || p.column >= model.columns {
        return None;
    }
    let hyperlink = match model.hyperlink_at(p) {
        Some(uri) => Some(uri.to_owned()),
        None => None,
    };
    Some(TerminalGridHit { position: p, hyperlink })
}

// ---------------------------------------------------------------------------
// row-major indexing
// ---------------------------------------------------------------------------

/// An in-grid point's index lies below `rows * columns`.
pub proof fn lemma_index_bound(row: int, column: int, rows: int, columns: int)
    requires
        0 <= row < rows,
        0 <= column < columns,
    ensures
        0 <= row * columns + column < rows * columns,
{
    assert(row * columns + column < rows * columns) by (nonlinear_arith)
        requires
            0 <= row < rows,
            0 <= column < columns,
    ;
    assert(0 <= row * columns) by (nonlinear_arith)
        requires
            0 <= row,
            0 <= column < columns,
    ;
}

/// Distinct in-grid points have distinct row-major indices.
pub proof fn lemma_index_distinct(r1: int, c1: int, r2: int, c2: int, columns: int)
    requires
        0 <= r1,
        0 <= r2,
        0 <= c1 < columns,
        0 <= c2 < columns,
        r1 != r2 || c1 != c2,
    ensures
        r1 * columns + c1 != r2 * columns + c2,
{
    if r1 == r2 {
    } else if r1 < r2 {
        assert(r1 * columns + c1 < r2 * columns + c2) by (nonlinear_arith)
            requires
                0 <= r1 < r2,
                0 <= c1 < columns,
                0 <= c2,
        ;
    } else {
        assert(r2 * columns + c2 < r1 * columns + c1) by (nonlinear_arith)
            requires
                0 <= r2 < r1,
                0 <= c2 < columns,
                0 <= c1,
        ;
    }
}


// ---------------------------------------------------------------------------
// incremental repaint planning
// ---------------------------------------------------------------------------

/// The paint bookkeeping of a mounted terminal that a model update marks:
/// a pending full repaint, per-row dirt, and the cursor and image layers.
pub struct PaintDirt {
    pub full_paint_dirty: bool,
    pub dirty_rows: Vec<bool>,
    pub cursor_dirty: bool,
    pub images_dirty: bool,
}

/// What a model update changed: the accessible plain text, and anything
/// painted.
#[derive(Clone, Copy, Debug, PartialEq, Eq, Structural)]
pub struct ModelDiff {
    pub text_changed: bool,
    pub visual_changed: bool,
}

/// What a cell contributes to the plain text (a continuation, a grapheme, or
/// a blank), compared between two models.
pub open spec fn text_fragment(c: Option<TerminalCell>) -> (int, Seq<char>) {
    match c {
        Some(c) => if c.width == TerminalCellWidth::Continuation {
            (0, Seq::empty())
        } else if c.grapheme@.len() > 0 {
            (1, c.grapheme@)
        } else {
            (2, Seq::empty())
        },
        None => (2, Seq::empty()),
    }
}

/// Two cells paint the same (an absent and a present cell never do).
pub open spec fn paint_eq(a: Option<TerminalCell>, b: Option<TerminalCell>) -> bool {
    match (a, b) {
        (None, None) => true,
        (Some(x), Some(y)) => x.grapheme@ == y.grapheme@ && x.foreground == y.foreground
            && x.background == y.background && x.attrs == y.attrs && x.width == y.width,
        _ => false,
    }
}

pub open spec fn gp(r: int, c: int) -> TerminalGridPoint {
    TerminalGridPoint { row: r as usize, column: c as usize }
}

/// Some cell of row `r` paints differently.
pub open spec fn row_paint_diff(mounted: TerminalGridModel, new: TerminalGridModel, r: int) -> bool {
    exists|c: int| 0 <= c < new.columns && !paint_eq(#[trigger] cell_spec(mounted, gp(r, c)), cell_spec(new, gp(r, c)))
}

/// Some cell of the new grid contributes different plain text.
pub open spec fn text_diff(mounted: TerminalGridModel, new: TerminalGridModel) -> bool {
    exists|r: int, c: int|
        0 <= r < new.rows && 0 <= c < new.columns && text_fragment(#[trigger] cell_spec(mounted, gp(r, c)))
            != text_fragment(cell_spec(new, gp(r, c)))
}

/// Row `r` lies between a selection's first and last rows.
pub open spec fn selection_row(s: Option<TerminalSelection>, r: int) -> bool {
    match s {
        Some(s) => {
            let first = if s.start.row <= s.end.row {
                s.start.row
            } else {
                s.end.row
            };
            let last = if s.start.row <= s.end.row {
                s.end.row
            } else {
                s.start.row
            };
            first <= r <= last
        },
        None => false,
    }
}

/// Row `r` holds a painted cursor.
pub open spec fn cursor_row(c: Option<TerminalCursor>, r: int) -> bool {
    match c {
        Some(c) => cursor_paints(c) && c.position.row == r,
        None => false,
    }
}

/// Row `r` is repainted because its selection or cursor changed.
pub open spec fn overlay_row(mounted: TerminalGridModel, new: TerminalGridModel, r: int) -> bool {
    (mounted.selection != new.selection && (selection_row(mounted.selection, r) || selection_row(new.selection, r)))
        || (mounted.cursor != new.cursor && (cursor_row(mounted.cursor, r) || cursor_row(new.cursor, r)))
}

/// Row `r` must be repainted: its cells changed (unless a full repaint is
/// already pending) or an overlay on it did.
pub open spec fn marked_row(mounted: TerminalGridModel, new: TerminalGridModel, full: bool, r: int) -> bool {
    (!full && row_paint_diff(mounted, new, r)) || overlay_row(mounted, new, r)
}

/// Some row mark resizes the row flags to the grid: every overlay mark does,
/// a cell mark only on a row not already dirty.
pub open spec fn marks_any(
    mounted: TerminalGridModel,
    new: TerminalGridModel,
    full: bool,
    dirty: Seq<bool>,
) -> bool {
    exists|r: int| 0 <= r < new.rows && #[trigger] resizing_mark(mounted, new, full, dirty, r)
}

/// Row `r` is marked by a call that first sizes the flags to the grid.
pub open spec fn resizing_mark(
    mounted: TerminalGridModel,
    new: TerminalGridModel,
    full: bool,
    dirty: Seq<bool>,
    r: int,
) -> bool {
    overlay_row(mounted, new, r) || (!full && row_paint_diff(mounted, new, r) && !(r < dirty.len()
        && dirty[r]))
}

/// The row flags sized to `n` rows: the mounted flag where there was one, plus
/// the marked rows.
pub open spec fn marked_flags(dirty: Seq<bool>, n: int, marked: spec_fn(int) -> bool) -> Seq<bool> {
    Seq::new(n as nat, |i: int| (i < dirty.len() && dirty[i]) || marked(i))
}

fn cell_paint_eq(a: Option<&TerminalCell>, b: Option<&TerminalCell>) -> (r: bool)
    ensures
        r == paint_eq(
            match a {
                Some(x) => Some(*x),
                None => None,
            },
            match b {
                Some(y) => Some(*y),
                None => None,
            },
        ),
{
    match (a, b) {
        (None, None) => true,
        (Some(x), Some(y)) => x.grapheme == y.grapheme && x.foreground == y.foreground
            && x.background == y.background && x.attrs == y.attrs && x.width == y.width,
        _ => false,
    }
}

fn text_fragment_eq(a: Option<&TerminalCell>, b: Option<&TerminalCell>) -> (r: bool)
    ensures
        r == (text_fragment(
            match a {
                Some(x) => Some(*x),
                None => None,
            },
        ) == text_fragment(
            match b {
                Some(y) => Some(*y),
                None => None,
            },
        )),
{
    let (ka, ga) = fragment_of(a);
    let (kb, gb) = fragment_of(b);
    ka == kb && match (ga, gb) {
        (Some(x), Some(y)) => *x == *y,
        (None, None) => true,
        _ => false,
    }
}

fn fragment_of(c: Option<&TerminalCell>) -> (r: (u8, Option<&String>))
    ensures
        r.0 == text_fragment(
            match c {
                Some(x) => Some(*x),
                None => None,
            },
        ).0,
        r.1 matches Some(g) ==> g@ == text_fragment(
            match c {
                Some(x) => Some(*x),
                None => None,
            },
        ).1 && r.0 == 1,
        r.1 is None ==> r.0 != 1,
{
    match c {
        Some(cell) => if cell.width == TerminalCellWidth::Continuation {
            (0, None)
        } else if cell.grapheme.as_str().as_bytes().len() > 0 {
            proof {
                if cell.grapheme@.len() == 0 {
                    assert(vstd::utf8::encode_utf8(cell.grapheme@) =~= Seq::<u8>::empty());
                }
            }
            (1, Some(&cell.grapheme))
        } else {
            proof {
                vstd::utf8::encode_utf8_decode_utf8(cell.grapheme@);
                assert(vstd::utf8::encode_utf8(cell.grapheme@) =~= Seq::<u8>::empty());
            }
            (2, None)
        },
        None => (2, None),
    }
}


fn selection_row_exec(s: Option<TerminalSelection>, r: usize) -> (b: bool)
    ensures
        b == selection_row(s, r as int),
{
    match s {
        Some(s) => {
            let (first, last) = if s.start.row <= s.end.row {
                (s.start.row, s.end.row)
            } else {
                (s.end.row, s.start.row)
            };
            first <= r && r <= last
        },
        None => false,
    }
}

fn cursor_row_exec(c: Option<TerminalCursor>, r: usize) -> (b: bool)
    ensures
        b == cursor_row(c, r as int),
{
    match c {
        Some(c) => c.paints() && c.position.row == r,
        None => false,
    }
}

pub open spec fn opt_cell(c: Option<&TerminalCell>) -> Option<TerminalCell> {
    match c {
        Some(x) => Some(*x),
        None => None,
    }
}

/// Compares row `r` of the two models: (some cell's plain text differs,
/// some cell paints differently).
fn compare_row(mounted: &TerminalGridModel, current: &TerminalGridModel, r: usize) -> (d: (bool, bool))
    requires
        mounted.fits(),
        current.fits(),
        r < current.rows,
    ensures
        d.0 == exists|c: int|
            0 <= c < current.columns && text_fragment(#[trigger] cell_spec(*mounted, gp(r as int, c)))
                != text_fragment(cell_spec(*current, gp(r as int, c))),
        d.1 == row_paint_diff(*mounted, *current, r as int),
{
    let mut text = false;
    let mut paint = false;
    let mut c: usize = 0;
    while c < current.columns
        invariant
            mounted.fits(),
            current.fits(),
            c <= current.columns,
            text == exists|k: int|
                0 <= k < c && text_fragment(#[trigger] cell_spec(*mounted, gp(r as int, k))) != text_fragment(
                    cell_spec(*current, gp(r as int, k)),
                ),
            paint == exists|k: int|
                0 <= k < c && !paint_eq(#[trigger] cell_spec(*mounted, gp(r as int, k)), cell_spec(*current, gp(r as int, k))),
        decreases current.columns - c,
    {
        let point = TerminalGridPoint::new(r, c);
        assert(point == gp(r as int, c as int));
        let a = mounted.cell(point);
        let b = current.cell(point);
        assert(opt_cell(a) == cell_spec(*mounted, gp(r as int, c as int)));
        assert(opt_cell(b) == cell_spec(*current, gp(r as int, c as int)));
        if !text_fragment_eq(a, b) {
            text = true;
        }
        if !cell_paint_eq(a, b) {
            paint = true;
        }
        c = c + 1;
    }
    (text, paint)
}

/// Diffs a complete new model against the mounted one and marks what must
/// be repainted: a background change asks for a full repaint; otherwise each
/// row whose cells paint differently (unless a full repaint is pending) and
/// each row a changed selection or cursor touches is flagged, the flags first
/// sized to the new row count; a changed cursor or image set dirties its
/// layer. `images_equal` is whether the image placements are unchanged.
pub fn plan_incremental_paint(
    state: &mut PaintDirt,
    mounted: &TerminalGridModel,
    current: &TerminalGridModel,
    images_equal: bool,
) -> (d: ModelDiff)
    requires
        mounted.fits(),
        current.fits(),
    ensures
        ({
            let rows = current.rows as int;
            let bg = mounted.background != current.background;
            let full = old(state).full_paint_dirty || bg;
            let d0 = old(state).dirty_rows@;
            &&& d.text_changed == text_diff(*mounted, *current)
            &&& d.visual_changed == (bg || (!full && exists|r: int|
                0 <= r < rows && #[trigger] row_paint_diff(*mounted, *current, r)) || mounted.selection
                != current.selection || mounted.cursor != current.cursor || !images_equal)
            &&& final(state).full_paint_dirty == full
            &&& final(state).cursor_dirty == (old(state).cursor_dirty || mounted.cursor != current.cursor)
            &&& final(state).images_dirty == (old(state).images_dirty || !images_equal)
            &&& final(state).dirty_rows@ == (if bg {
                Seq::new(rows as nat, |i: int| true)
            } else if marks_any(*mounted, *current, full, d0) {
                marked_flags(d0, rows, |i: int| marked_row(*mounted, *current, full, i))
            } else {
                d0
            })
        }),
{
    let rows = current.rows;
    let bg = mounted.background != current.background;
    let full = state.full_paint_dirty || bg;
    let sel_changed = mounted.selection != current.selection;
    let cursor_changed = mounted.cursor != current.cursor;
    let ghost d0 = state.dirty_rows@;
    let mut text = false;
    let mut paint_any = false;
    let mut any = false;
    let mut marks: Vec<bool> = Vec::new();
    let mut r: usize = 0;
    while r < rows
        invariant
            mounted.fits(),
            current.fits(),
            rows == current.rows,
            r <= rows,
            d0 == state.dirty_rows@,
            full == (old(state).full_paint_dirty || mounted.background != current.background),
            sel_changed == (mounted.selection != current.selection),
            cursor_changed == (mounted.cursor != current.cursor),
            marks@.len() == r,
            forall|i: int| 0 <= i < r ==> #[trigger] marks@[i] == marked_row(*mounted, *current, full, i),
            text == exists|i: int, c: int|
                0 <= i < r && 0 <= c < current.columns && text_fragment(
                    #[trigger] cell_spec(*mounted, gp(i, c)),
                ) != text_fragment(cell_spec(*current, gp(i, c))),
            paint_any == exists|i: int| 0 <= i < r && #[trigger] row_paint_diff(*mounted, *current, i),
            any == exists|i: int| 0 <= i < r && #[trigger] resizing_mark(*mounted, *current, full, d0, i),
        decreases rows - r,
    {
        let (row_text, row_paint) = compare_row(mounted, current, r);
        let overlay = (sel_changed && (selection_row_exec(mounted.selection, r) || selection_row_exec(
            current.selection,
            r,
        ))) || (cursor_changed && (cursor_row_exec(mounted.cursor, r) || cursor_row_exec(
            current.cursor,
            r,
        )));
        let already = r < state.dirty_rows.len() && state.dirty_rows[r];
        assert(overlay == overlay_row(*mounted, *current, r as int));
        assert(already == (r < d0.len() && d0[r as int]));
        let ghost prev_any = any;
        let ghost prev_text = text;
        if row_text {
            text = true;
        }
        if row_paint {
            paint_any = true;
        }
        if overlay || (!full && row_paint && !already) {
            any = true;
        }
        marks.push((!full && row_paint) || overlay);
        proof {
            if row_text && !prev_text {
                let c = choose|c: int|
                    0 <= c < current.columns && text_fragment(#[trigger] cell_spec(*mounted, gp(r as int, c)))
                        != text_fragment(cell_spec(*current, gp(r as int, c)));
                assert(text_fragment(cell_spec(*mounted, gp(r as int, c))) != text_fragment(
                    cell_spec(*current, gp(r as int, c)),
                ));
            }
            if prev_text {
                let (i, c) = choose|i: int, c: int|
                    0 <= i < r && 0 <= c < current.columns && text_fragment(
                        #[trigger] cell_spec(*mounted, gp(i, c)),
                    ) != text_fragment(cell_spec(*current, gp(i, c)));
                assert(text_fragment(cell_spec(*mounted, gp(i, c))) != text_fragment(
                    cell_spec(*current, gp(i, c)),
                ));
            }
            assert(marks@[r as int] == marked_row(*mounted, *current, full, r as int));
            if prev_any {
                let i = choose|i: int| 0 <= i < r && #[trigger] resizing_mark(*mounted, *current, full, d0, i);
                assert(resizing_mark(*mounted, *current, full, d0, i));
            }
            assert(resizing_mark(*mounted, *current, full, d0, r as int) == (overlay || (!full && row_paint
                && !already)));
        }
        r = r + 1;
    }
    proof {
        assert(text == text_diff(*mounted, *current));
    }
    if bg {
        let mut all: Vec<bool> = Vec::new();
        while all.len() < rows
            invariant
                all@.len() <= rows,
                forall|i: int| 0 <= i < all@.len() ==> #[trigger] all@[i],
            decreases rows - all@.len(),
        {
            all.push(true);
        }
        assert(all@ =~= Seq::new(rows as nat, |i: int| true));
        state.dirty_rows = all;
    } else if any {
        let mut flags: Vec<bool> = Vec::new();
        let mut i: usize = 0;
        while i < rows
            invariant
                i <= rows,
                rows == current.rows,
                marks@.len() == rows,
                d0 == state.dirty_rows@,
                flags@.len() == i,
                forall|k: int| 0 <= k < i ==> #[trigger] flags@[k] == ((k < d0.len() && d0[k]) || marks@[k]),
            decreases rows - i,
        {
            let kept = i < state.dirty_rows.len() && state.dirty_rows[i];
            flags.push(kept || marks[i]);
            i = i + 1;
        }
        assert(flags@ =~= marked_flags(d0, rows as int, |i: int| marked_row(*mounted, *current, full, i)));
        state.dirty_rows = flags;
    }
    proof {
        assert(any == marks_any(*mounted, *current, full, d0));
    }
    state.full_paint_dirty = full;
    if cursor_changed {
        state.cursor_dirty = true;
    }
    if !images_equal {
        state.images_dirty = true;
    }
    ModelDiff {
        text_changed: text,
        visual_changed: bg || (!full && paint_any) || sel_changed || cursor_changed || !images_equal,
    }
}

/// After planning, every row of the new grid whose cells paint differently
/// or whose selection or cursor changed is flagged for repaint, unless a
/// full repaint is pending.
pub proof fn law_changed_rows_are_repainted(
    mounted: TerminalGridModel,
    current: TerminalGridModel,
    full: bool,
    d0: Seq<bool>,
    d1: Seq<bool>,
    r: int,
)
    requires
        0 <= r < current.rows,
        d1 == (if marks_any(mounted, current, full, d0) {
            marked_flags(d0, current.rows as int, |i: int| marked_row(mounted, current, full, i))
        } else {
            d0
        }),
        marked_row(mounted, current, full, r),
    ensures
        r < d1.len() && d1[r],
{
    if !marks_any(mounted, current, full, d0) {
        if overlay_row(mounted, current, r) || !(r < d0.len() && d0[r]) {
            assert(resizing_mark(mounted, current, full, d0, r));
        }
    }
}

/// The host work a new model asks for.
pub struct ModelUpdate {
    /// The new accessible plain text, when it changed.
    pub a11y_text: Option<String>,
    /// The grid's dimensions changed: lay out again.
    pub relayout: bool,
    /// Something painted changed: repaint.
    pub repaint: bool,
}

/// Installs a complete new model: a dimension change dirties everything;
/// otherwise the incremental plan decides (see `plan_incremental_paint`).
pub fn apply_dynamic_model(
    state: &mut PaintDirt,
    mounted: &mut TerminalGridModel,
    current: TerminalGridModel,
    images_equal: bool,
) -> (u: ModelUpdate)
    requires
        old(mounted).fits(),
        current.fits(),
    ensures
        *final(mounted) == current,
        ({
            let dims = old(mounted).columns != current.columns || old(mounted).rows != current.rows;
            if dims {
                &&& final(state).full_paint_dirty
                &&& final(state).dirty_rows@ == Seq::new(current.rows as nat, |i: int| true)
                &&& final(state).images_dirty
                &&& final(state).cursor_dirty
                &&& u.relayout && u.repaint
                &&& u.a11y_text matches Some(t) && t@ == grid_text(current, current.rows as int)
            } else {
                let bg = old(mounted).background != current.background;
                let full = old(state).full_paint_dirty || bg;
                let text = text_diff(*old(mounted), current);
                let visual = bg || (!full && exists|r: int|
                    0 <= r < current.rows && #[trigger] row_paint_diff(*old(mounted), current, r))
                    || old(mounted).selection != current.selection || old(mounted).cursor != current.cursor
                    || !images_equal;
                &&& !u.relayout
                &&& u.repaint == visual
                &&& (match u.a11y_text {
                    Some(t) => text && t@ == grid_text(current, current.rows as int),
                    None => !text,
                })
                &&& final(state).full_paint_dirty == full
                &&& final(state).cursor_dirty == (old(state).cursor_dirty || old(mounted).cursor != current.cursor)
                &&& final(state).images_dirty == (old(state).images_dirty || !images_equal)
                &&& final(state).dirty_rows@ == (if bg {
                    Seq::new(current.rows as nat, |i: int| true)
                } else if marks_any(*old(mounted), current, full, old(state).dirty_rows@) {
                    marked_flags(
                        old(state).dirty_rows@,
                        current.rows as int,
                        |i: int| marked_row(*old(mounted), current, full, i),
                    )
                } else {
                    old(state).dirty_rows@
                })
            }
        }),
{
    let dims = mounted.columns != current.columns || mounted.rows != current.rows;
    if dims {
        state.full_paint_dirty = true;
        let mut all: Vec<bool> = Vec::new();
        while all.len() < current.rows
            invariant
                all@.len() <= current.rows,
                forall|i: int| 0 <= i < all@.len() ==> #[trigger] all@[i],
            decreases current.rows - all@.len(),
        {
            all.push(true);
        }
        assert(all@ =~= Seq::new(current.rows as nat, |i: int| true));
        state.dirty_rows = all;
        state.images_dirty = true;
        state.cursor_dirty = true;
        let text = current.plain_text();
        *mounted = current;
        return ModelUpdate { a11y_text: Some(text), relayout: true, repaint: true };
    }
    let diff = plan_incremental_paint(state, mounted, &current, images_equal);
    let text = if diff.text_changed {
        Some(current.plain_text())
    } else {
        None
    };
    *mounted = current;
    ModelUpdate { a11y_text: text, relayout: false, repaint: diff.visual_changed }
}

// ---------------------------------------------------------------------------
// row painting plans
// ---------------------------------------------------------------------------

/// A run of neighbouring cells on one row sharing a painted background.
#[derive(Clone, Copy, Debug, PartialEq, Eq, Structural)]
pub struct BackgroundRun {
    pub start: usize,
    pub end: usize,
    pub color: Color,
}

/// The painted background of a row's cell.
pub open spec fn bg_at(m: TerminalGridModel, row: usize, column: int) -> Color {
    effective_colors_spec(m, TerminalGridPoint { row, column: column as usize }).1
}

/// The first column from `e` on whose background differs from `color`, or
/// the grid's width.
pub open spec fn run_end_spec(m: TerminalGridModel, row: usize, color: Color, e: int) -> int
    decreases m.columns - e,
{
    if e < 0 || e >= m.columns {
        m.columns as int
    } else if bg_at(m, row, e) == color {
        run_end_spec(m, row, color, e + 1)
    } else {
        e
    }
}

pub proof fn lemma_run_end(m: TerminalGridModel, row: usize, color: Color, e: int)
    requires
        0 <= e <= m.columns,
    ensures
        e <= run_end_spec(m, row, color, e) <= m.columns,
    decreases m.columns - e,
{
    if e < m.columns && bg_at(m, row, e) == color {
        lemma_run_end(m, row, color, e + 1);
    }
}

/// The row's maximal runs of equal background from column `start` on, without
/// the runs in the grid's default background (the component surface already
/// shows it).
pub open spec fn runs_from(m: TerminalGridModel, row: usize, start: int) -> Seq<BackgroundRun>
    decreases m.columns - start,
{
    if start < 0 || start >= m.columns {
        Seq::empty()
    } else {
        let color = bg_at(m, row, start);
        let e = run_end_spec(m, row, color, start + 1);
        proof {
            lemma_run_end(m, row, color, start + 1);
        }
        let here = if color != m.background {
            seq![BackgroundRun { start: start as usize, end: e as usize, color }]
        } else {
            Seq::empty()
        };
        here + runs_from(m, row, e)
    }
}

/// The background runs a row paints (see `runs_from`).
pub fn background_runs(model: &TerminalGridModel, row: usize) -> (r: Vec<BackgroundRun>)
    requires
        model.fits(),
    ensures
        r@ == runs_from(*model, row, 0),
{
    let mut out: Vec<BackgroundRun> = Vec::new();
    let mut start: usize = 0;
    while start < model.columns
        invariant
            model.fits(),
            start <= model.columns,
            runs_from(*model, row, 0) == out@ + runs_from(*model, row, start as int),
        decreases model.columns - start,
    {
        let (_, color) = effective_cell_colors(model, TerminalGridPoint::new(row, start));
        let mut end = start + 1;
        while end < model.columns && effective_cell_colors(model, TerminalGridPoint::new(row, end)).1 == color
            invariant
                model.fits(),
                start < end <= model.columns,
                color == bg_at(*model, row, start as int),
                run_end_spec(*model, row, color, start + 1) == run_end_spec(*model, row, color, end as int),
            decreases model.columns - end,
        {
            end = end + 1;
        }
        let ghost before = out@;
        if color != model.background {
            out.push(BackgroundRun { start, end, color });
        }
        assert(runs_from(*model, row, start as int) == (if color != model.background {
            seq![BackgroundRun { start, end, color }]
        } else {
            Seq::<BackgroundRun>::empty()
        }) + runs_from(*model, row, end as int));
        assert(before + runs_from(*model, row, start as int) =~= out@ + runs_from(*model, row, end as int));
        start = end;
    }
    assert(out@ + runs_from(*model, row, start as int) =~= out@);
    out
}

/// Every cell from `e` up to the run's end has the run's colour, and the cell
/// at the end (if any) does not.
proof fn lemma_run_end_props(m: TerminalGridModel, row: usize, color: Color, e: int)
    requires
        0 <= e <= m.columns,
    ensures
        e <= run_end_spec(m, row, color, e) <= m.columns,
        forall|c: int| e <= c < run_end_spec(m, row, color, e) ==> bg_at(m, row, c) == color,
        run_end_spec(m, row, color, e) < m.columns ==> bg_at(m, row, run_end_spec(m, row, color, e))
            != color,
    decreases m.columns - e,
{
    if e < m.columns && bg_at(m, row, e) == color {
        lemma_run_end_props(m, row, color, e + 1);
    }
}

/// A run of `runs_from` is uniform and maximal.
pub open spec fn maximal_run(m: TerminalGridModel, row: usize, r: BackgroundRun) -> bool {
    &&& r.start < r.end <= m.columns
    &&& r.color != m.background
    &&& forall|c: int| r.start <= c < r.end ==> #[trigger] bg_at(m, row, c) == r.color
    &&& (r.end == m.columns || bg_at(m, row, r.end as int) != r.color)
    &&& (r.start == 0 || bg_at(m, row, r.start - 1) != r.color)
}

proof fn lemma_runs_from_maximal(m: TerminalGridModel, row: usize, s: int)
    requires
        0 <= s <= m.columns,
        s == 0 || s == m.columns || bg_at(m, row, s - 1) != bg_at(m, row, s),
    ensures
        forall|k: int|
            0 <= k < runs_from(m, row, s).len() ==> maximal_run(m, row, #[trigger] runs_from(m, row, s)[k])
                && runs_from(m, row, s)[k].start >= s,
    decreases m.columns - s,
{
    if s < m.columns {
        let color = bg_at(m, row, s);
        let e = run_end_spec(m, row, color, s + 1);
        lemma_run_end_props(m, row, color, s + 1);
        assert(bg_at(m, row, e - 1) == color) by {
            if e - 1 > s {
                assert(s + 1 <= e - 1 < e);
            }
        }
        lemma_runs_from_maximal(m, row, e);
        let here = if color != m.background {
            seq![BackgroundRun { start: s as usize, end: e as usize, color }]
        } else {
            Seq::<BackgroundRun>::empty()
        };
        let rest = runs_from(m, row, e);
        assert(runs_from(m, row, s) == here + rest);
        assert forall|k: int| 0 <= k < runs_from(m, row, s).len() implies maximal_run(
            m,
            row,
            #[trigger] runs_from(m, row, s)[k],
        ) && runs_from(m, row, s)[k].start >= s by {
            if k < here.len() {
                let r = runs_from(m, row, s)[k];
                assert(r == here[k]);
                assert forall|c: int| r.start <= c < r.end implies #[trigger] bg_at(m, row, c) == r.color by {
                    if c > s {
                        assert(s + 1 <= c < e);
                    }
                }
            } else {
                assert(runs_from(m, row, s)[k] == rest[k - here.len()]);
            }
        }
    }
}

/// The background of a row is painted as uniform, maximal runs: every cell of
/// a run has its colour, which is not the grid's default, and the cells just
/// before and after it (where they exist) have other colours.
pub proof fn law_background_runs_are_maximal(m: TerminalGridModel, row: usize, k: int)
    requires
        0 <= k < runs_from(m, row, 0).len(),
    ensures
        maximal_run(m, row, runs_from(m, row, 0)[k]),
{
    lemma_runs_from_maximal(m, row, 0);
}

/// How the glyph layer paints one cell: its column, ink colour, face, whether
/// it spans two columns, and its decorations.
#[derive(Clone, Copy, Debug, PartialEq, Eq, Structural)]
pub struct GlyphPlan {
    pub column: usize,
    pub foreground: Color,
    pub bold: bool,
    pub wide: bool,
    pub underline: bool,
    pub strike: bool,
}

/// A cell's ink: its foreground (the background when inverse), the
/// selection's foreground where one is set, the cell's background under a
/// block cursor, and half the alpha when faint.
pub open spec fn glyph_ink(m: TerminalGridModel, p: TerminalGridPoint, c: TerminalCell) -> Color {
    let (f1, b1) = if c.attrs.inverse {
        (c.background, c.foreground)
    } else {
        (c.foreground, c.background)
    };
    let f2 = match m.selection {
        Some(s) => if selection_contains(s, p) {
            match s.foreground {
                Some(f) => f,
                None => f1,
            }
        } else {
            f1
        },
        None => f1,
    };
    let f3 = match m.cursor {
        Some(k) => if k.position == p && cursor_paints(k) && k.style == TerminalCursorStyle::Block {
            b1
        } else {
            f2
        },
        None => f2,
    };
    if c.attrs.faint {
        Color { a: ((f3.a * 1) / 2int) as u8, ..f3 }
    } else {
        f3
    }
}

/// What the glyph layer paints at a row's column: nothing for an absent,
/// continuation or empty cell.
pub open spec fn glyph_plan_spec(m: TerminalGridModel, row: usize, column: int) -> Option<GlyphPlan> {
    let p = TerminalGridPoint { row, column: column as usize };
    match cell_spec(m, p) {
        Some(c) => if c.width == TerminalCellWidth::Continuation || c.grapheme@.len() == 0 {
            None
        } else {
            Some(
                GlyphPlan {
                    column: column as usize,
                    foreground: glyph_ink(m, p, c),
                    bold: c.attrs.bold,
                    wide: c.width == TerminalCellWidth::Wide,
                    underline: c.attrs.underline,
                    strike: c.attrs.strike,
                },
            )
        },
        None => None,
    }
}

/// The glyph plans of a row from column `c` on, left to right.
pub open spec fn glyph_plans_from(m: TerminalGridModel, row: usize, c: int) -> Seq<GlyphPlan>
    decreases m.columns - c,
{
    if c < 0 || c >= m.columns {
        Seq::empty()
    } else {
        (match glyph_plan_spec(m, row, c) {
            Some(g) => seq![g],
            None => Seq::empty(),
        }) + glyph_plans_from(m, row, c + 1)
    }
}

/// What a row's glyph layer paints, cell by cell (see `glyph_plan_spec`).
pub fn glyph_plans(model: &TerminalGridModel, row: usize) -> (r: Vec<GlyphPlan>)
    requires
        model.fits(),
    ensures
        r@ == glyph_plans_from(*model, row, 0),
{
    let mut out: Vec<GlyphPlan> = Vec::new();
    let mut column: usize = 0;
    while column < model.columns
        invariant
            model.fits(),
            column <= model.columns,
            glyph_plans_from(*model, row, 0) == out@ + glyph_plans_from(*model, row, column as int),
        decreases model.columns - column,
    {
        let point = TerminalGridPoint::new(row, column);
        let ghost before = out@;
        match model.cell(point) {
            Some(cell) => {
                let empty = cell.grapheme.as_str().as_bytes().len() == 0;
                proof {
                    if cell.grapheme@.len() > 0 {
                        vstd::utf8::encode_utf8_first_scalar(cell.grapheme@);
                    }
                }
                if !(cell.width == TerminalCellWidth::Continuation || empty) {
                    let (mut foreground, background) = if cell.attrs.inverse {
                        (cell.background, cell.foreground)
                    } else {
                        (cell.foreground, cell.background)
                    };
                    match model.selection {
                        Some(s) => {
                            if s.contains(point) {
                                match s.foreground {
                                    Some(f) => {
                                        foreground = f;
                                    },
                                    None => {},
                                }
                            }
                        },
                        None => {},
                    }
                    match model.cursor {
                        Some(k) => {
                            if k.position == point && k.paints() && k.style == TerminalCursorStyle::Block {
                                foreground = background;
                            }
                        },
                        None => {},
                    }
                    if cell.attrs.faint {
                        foreground = color_with_alpha(foreground, 1, 2);
                    }
                    out.push(
                        GlyphPlan {
                            column,
                            foreground,
                            bold: cell.attrs.bold,
                            wide: cell.width == TerminalCellWidth::Wide,
                            underline: cell.attrs.underline,
                            strike: cell.attrs.strike,
                        },
                    );
                }
            },
            None => {},
        }
        assert(before + glyph_plans_from(*model, row, column as int) =~= out@ + glyph_plans_from(
            *model,
            row,
            column + 1,
        ));
        column = column + 1;
    }
    assert(out@ + glyph_plans_from(*model, row, column as int) =~= out@);
    out
}

} // verus!
