//! The cell grid and the virtual buffer that holds one frame.

use crate::style::Style;
use crate::text::{char_width, unicode_width_of};
use vstd::prelude::*;

verus! {

/// A character with its display width, in columns, and its style.
#[derive(Clone, Copy, Debug, PartialEq, Eq, Structural)]
pub struct CellContent {
    pub c: char,
    pub width: u16,
    pub style: Style,
}

/// One terminal cell: a character, or the trailing column of the wide
/// character just before it.
#[derive(Clone, Copy, Debug, PartialEq, Eq, Structural)]
pub enum Cell {
    Content(CellContent),
    WideExtension,
}

/// The number of columns a character takes in the grid: two where the width
/// table gives it two or more, one otherwise (also for control characters and
/// characters of no width, so that every character stays visible in its cell).
pub open spec fn cell_width(c: char) -> u16 {
    match unicode_width_of(c) {
        Some(w) => if w >= 2 { 2 } else { 1 },
        None => 1,
    }
}

pub fn char_cells(c: char) -> (r: u16)
    ensures
        r == cell_width(c),
{
    match char_width(c) {
        Some(w) => if w >= 2 { 2 } else { 1 },
        None => 1,
    }
}

/// An empty cell in the default style.
pub open spec fn blank() -> Cell {
    Cell::Content(CellContent { c: ' ', width: 1, style: Style::spec_default() })
}

fn blank_cell() -> (r: Cell)
    ensures
        r == blank(),
{
    Cell::Content(CellContent { c: ' ', width: 1, style: Style::plain() })
}

/// The cell at `x` starts a character two columns wide.
pub open spec fn is_wide_lead(row: Seq<Cell>, x: int) -> bool {
    match row[x] {
        Cell::Content(cc) => cc.width == 2,
        Cell::WideExtension => false,
    }
}

pub open spec fn is_extension(row: Seq<Cell>, x: int) -> bool {
    row[x] == Cell::WideExtension
}

pub open spec fn has_valid_width(cell: Cell) -> bool {
    match cell {
        Cell::Content(cc) => cc.width == 1 || cc.width == 2,
        Cell::WideExtension => true,
    }
}

/// Every wide character is followed by exactly one extension cell within the
/// row, and every extension cell follows a wide character.
pub open spec fn row_wf(row: Seq<Cell>) -> bool {
    &&& forall|x: int| 0 <= x < row.len() ==> #[trigger] has_valid_width(row[x])
    &&& forall|x: int|
        0 <= x < row.len() && #[trigger] is_wide_lead(row, x) ==> x + 1 < row.len()
            && is_extension(row, x + 1)
    &&& forall|x: int|
        0 <= x < row.len() && #[trigger] is_extension(row, x) ==> x > 0 && is_wide_lead(
            row,
            x - 1,
        )
}

/// A row of blank cells.
pub open spec fn blank_row(row: Seq<Cell>) -> bool {
    forall|x: int| 0 <= x < row.len() ==> #[trigger] row[x] == blank()
}

/// The row after a character has been written at `x`: its cell (and the
/// extension after it, for a wide character) replace what stood there, and a
/// wide character that lost one of its two columns to the write is blanked.
pub open spec fn put_glyph(row: Seq<Cell>, x: int, cc: CellContent) -> Seq<Cell> {
    let r1 = row.update(x, Cell::Content(cc));
    let r2 = if cc.width == 2 {
        r1.update(x + 1, Cell::WideExtension)
    } else {
        r1
    };
    let r3 = if x > 0 && is_wide_lead(row, x - 1) {
        r2.update(x - 1, blank())
    } else {
        r2
    };
    let e = x + cc.width;
    if e < row.len() && is_extension(row, e) {
        r3.update(e, blank())
    } else {
        r3
    }
}

pub(crate) proof fn lemma_put_glyph_wf(row: Seq<Cell>, x: int, cc: CellContent)
    requires
        row_wf(row),
        0 <= x,
        cc.width == 1 || cc.width == 2,
        x + cc.width <= row.len(),
    ensures
        row_wf(put_glyph(row, x, cc)),
        put_glyph(row, x, cc).len() == row.len(),
{
    let r = put_glyph(row, x, cc);
    assert forall|i: int| 0 <= i < r.len() implies #[trigger] has_valid_width(r[i]) by {
        assert(has_valid_width(row[i]));
    }
    assert forall|i: int| 0 <= i < r.len() && #[trigger] is_wide_lead(r, i) implies i + 1
        < r.len() && is_extension(r, i + 1) by {
        if i != x {
            assert(is_wide_lead(row, i));
        }
    }
    assert forall|i: int| 0 <= i < r.len() && #[trigger] is_extension(r, i) implies i > 0
        && is_wide_lead(r, i - 1) by {
        if !(cc.width == 2 && i == x + 1) {
            assert(is_extension(row, i));
        }
    }
}

/// One frame: a grid of `height` rows of `width` cells, and where the
/// terminal cursor should stand, if anywhere.
#[derive(Clone, Debug)]
pub struct VirtualBuffer {
    pub cells: Vec<Vec<Cell>>,
    pub cursor: Option<(u16, u16)>,
    pub width: u16,
    pub height: u16,
}

impl VirtualBuffer {
    pub open spec fn wf(&self) -> bool {
        &&& self.cells@.len() == self.height
        &&& forall|y: int|
            0 <= y < self.cells@.len() ==> (#[trigger] self.cells@[y])@.len() == self.width
                && row_wf(self.cells@[y]@)
    }

    /// Every cell is blank.
    pub open spec fn is_blank(&self) -> bool {
        forall|y: int| 0 <= y < self.cells@.len() ==> blank_row((#[trigger] self.cells@[y])@)
    }

    fn blank_grid(width: u16, height: u16) -> (r: Vec<Vec<Cell>>)
        ensures
            r@.len() == height,
            forall|y: int|
                0 <= y < r@.len() ==> (#[trigger] r@[y])@.len() == width && blank_row(r@[y]@),
    {
        let mut grid: Vec<Vec<Cell>> = Vec::new();
        let mut j: u16 = 0;
        while j < height
            invariant
                j <= height,
                grid@.len() == j,
                forall|y: int|
                    0 <= y < grid@.len() ==> (#[trigger] grid@[y])@.len() == width && blank_row(
                        grid@[y]@,
                    ),
            decreases height - j,
        {
            let mut row: Vec<Cell> = Vec::new();
            let mut i: u16 = 0;
            while i < width
                invariant
                    i <= width,
                    row@.len() == i,
                    blank_row(row@),
                decreases width - i,
            {
                row.push(blank_cell());
                i += 1;
            }
            grid.push(row);
            j += 1;
        }
        grid
    }

    proof fn lemma_blank_wf(&self)
        requires
            self.cells@.len() == self.height,
            forall|y: int|
                0 <= y < self.cells@.len() ==> (#[trigger] self.cells@[y])@.len() == self.width
                    && blank_row(self.cells@[y]@),
        ensures
            self.wf(),
    {
        assert forall|y: int| 0 <= y < self.cells@.len() implies row_wf(
            (#[trigger] self.cells@[y])@,
        ) by {
            let row = self.cells@[y]@;
            assert forall|x: int| 0 <= x < row.len() implies !#[trigger] is_wide_lead(row, x)
                && !is_extension(row, x) && has_valid_width(row[x]) by {
                assert(row[x] == blank());
            }
        }
    }

    /// A blank buffer of the given size, with no cursor.
    pub fn new(width: u16, height: u16) -> (r: VirtualBuffer)
        ensures
            r.wf(),
            r.width == width,
            r.height == height,
            r.cursor.is_none(),
            r.is_blank(),
    {
        let r = VirtualBuffer { cells: Self::blank_grid(width, height), cursor: None, width, height };
        proof {
            r.lemma_blank_wf();
        }
        r
    }

    /// Nothing changes where the size is the same; otherwise the grid is
    /// reallocated at the new size, blank.
    pub fn resize(&mut self, width: u16, height: u16)
        requires
            old(self).wf(),
        ensures
            final(self).wf(),
            final(self).width == width,
            final(self).height == height,
            final(self).cursor == old(self).cursor,
            old(self).width == width && old(self).height == height ==> *final(self) == *old(self),
            !(old(self).width == width && old(self).height == height) ==> final(self).is_blank(),
    {
        if self.width == width && self.height == height {
            return;
        }
        self.cells = Self::blank_grid(width, height);
        self.width = width;
        self.height = height;
        proof {
            self.lemma_blank_wf();
        }
    }

    /// Blanks every cell and forgets the cursor.
    pub fn clear(&mut self)
        requires
            old(self).wf(),
        ensures
            final(self).wf(),
            final(self).width == old(self).width,
            final(self).height == old(self).height,
            final(self).cursor.is_none(),
            final(self).is_blank(),
    {
        self.cursor = None;
        self.cells = Self::blank_grid(self.width, self.height);
        proof {
            self.lemma_blank_wf();
        }
    }

    /// Writes `c` at column `x` of row `y`, and returns the columns it takes;
    /// returns `None`, and changes nothing, where the row does not exist or
    /// the character would reach past the right edge.
    pub fn putchar(&mut self, x: u16, y: u16, c: char, style: Style) -> (r: Option<u16>)
        requires
            old(self).wf(),
        ensures
            final(self).wf(),
            final(self).width == old(self).width,
            final(self).height == old(self).height,
            final(self).cursor == old(self).cursor,
            x + cell_width(c) > old(self).width || y >= old(self).height ==> r.is_none()
                && final(self).cells@ == old(self).cells@,
            x + cell_width(c) <= old(self).width && y < old(self).height ==> r == Some(
                cell_width(c),
            ) && final(self).cells@.len() == old(self).cells@.len() && (forall|j: int|
                0 <= j < old(self).cells@.len() && j != y ==> #[trigger] final(self).cells@[j]
                    == old(self).cells@[j]) && final(self).cells@[y as int]@ == put_glyph(
                old(self).cells@[y as int]@,
                x as int,
                CellContent { c, width: cell_width(c), style },
            ),
    {
        let w = char_cells(c);
        if w as usize + x as usize > self.width as usize {
            return None;
        }
        if y as usize >= self.cells.len() {
            return None;
        }
        let cc = CellContent { c, width: w, style };
        let ghost old_row = self.cells@[y as int]@;
        let yi = y as usize;
        let xi = x as usize;
        let len = self.cells[yi].len();
        let left_wide = xi > 0 && match self.cells[yi][xi - 1] {
            Cell::Content(p) => p.width == 2,
            Cell::WideExtension => false,
        };
        let e = xi + w as usize;
        let right_ext = e < len && match self.cells[yi][e] {
            Cell::Content(_) => false,
            Cell::WideExtension => true,
        };
        self.cells[yi][xi] = Cell::Content(cc);
        if w == 2 {
            self.cells[yi][xi + 1] = Cell::WideExtension;
        }
        if left_wide {
            self.cells[yi][xi - 1] = blank_cell();
        }
        if right_ext {
            self.cells[yi][e] = blank_cell();
        }
        proof {
            lemma_put_glyph_wf(old_row, x as int, cc);
            assert(self.cells@[y as int]@ =~= put_glyph(old_row, x as int, cc));
        }
        Some(w)
    }
}

} // verus!
