//! The double-buffered renderer: draw calls compose the next frame, and
//! `end` diffs it against the last one and yields the terminal commands that
//! bring the screen up to date.

use crate::buffer::{cell_width, put_glyph, Cell, CellContent, VirtualBuffer};
use crate::input::Event;
use crate::style::{cell_style, spec_cell_style, AnsiString, Color, Style};
use vstd::prelude::*;

verus! {

/// One instruction for the terminal backend.
#[derive(Clone, Copy, Debug, PartialEq, Eq, Structural)]
pub enum Command {
    MoveTo(u16, u16),
    ShowCursor,
    HideCursor,
    SetBackgroundColor(Color),
    SetForegroundColor(Color),
    SetAttributes(u32),
    ResetColor,
    Print(char),
    ClearUntilNewLine,
    EnterAlternateScreen,
    LeaveAlternateScreen,
}

pub type NrLines = u16;

/// The screen mode: the whole terminal in its alternate screen, or a region
/// of at least so many lines at the bottom, anchored at a terminal position.
#[derive(Clone, Copy, Debug)]
pub enum Config {
    FullScreen,
    BottomScreen(NrLines, Option<(u16, u16)>),
}

pub struct Renderer {
    pub term_size: (u16, u16),
    pub config: Config,
    pub next: VirtualBuffer,
    pub prev: VirtualBuffer,
    pub full_refresh: bool,
}

pub open spec fn min_u16(a: u16, b: u16) -> u16 {
    if a <= b { a } else { b }
}

pub open spec fn sat_add(a: u16, b: u16) -> u16 {
    if a + b > u16::MAX { u16::MAX } else { (a + b) as u16 }
}

fn min16(a: u16, b: u16) -> (r: u16)
    ensures
        r == min_u16(a, b),
{
    if a <= b { a } else { b }
}

fn add_sat(a: u16, b: u16) -> (r: u16)
    ensures
        r == sat_add(a, b),
{
    if a as u32 + b as u32 > u16::MAX as u32 { u16::MAX } else { a + b }
}

/// The rows that the screen mode takes on a terminal of `term_height` rows.
pub open spec fn height_of(config: Config, term_height: u16) -> u16 {
    match config {
        Config::FullScreen => term_height,
        Config::BottomScreen(lines, _) => min_u16(lines, term_height),
    }
}

/// The terminal row of the region's first line, for a region of `l` lines
/// anchored at `row`.
pub open spec fn region_top(term_height: u16, l: u16, row: u16) -> u16 {
    min_u16((term_height - l) as u16, row)
}

/// The terminal row where the frame's first line is drawn.
pub open spec fn top_row(config: Config, term_height: u16) -> u16 {
    match config {
        Config::FullScreen => 0,
        Config::BottomScreen(lines, pos) => {
            let p = match pos {
                Some(p) => p,
                None => (0u16, 0u16),
            };
            region_top(term_height, min_u16(lines, term_height), p.1)
        },
    }
}

/// The anchor after the terminal went from `prev_h` to `new_h` rows: where
/// the region could not stand at the anchor (it was pushed up by the bottom
/// edge), the anchor follows the bottom edge by the change of height,
/// bounded to the rows a `u16` can number.
pub open spec fn shifted_anchor(lines: u16, pos: (u16, u16), prev_h: u16, new_h: u16) -> (u16, u16) {
    let l = min_u16(lines, prev_h);
    if region_top(prev_h, l, pos.1) != pos.1 {
        let moved = pos.1 + new_h - prev_h;
        (pos.0, if moved < 0 { 0 } else if moved > u16::MAX { u16::MAX } else { moved as u16 })
    } else {
        pos
    }
}

pub open spec fn resized_config(config: Config, prev_h: u16, new_h: u16) -> Config {
    match config {
        Config::FullScreen => Config::FullScreen,
        Config::BottomScreen(lines, None) => Config::BottomScreen(lines, None),
        Config::BottomScreen(lines, Some(pos)) => Config::BottomScreen(
            lines,
            Some(shifted_anchor(lines, pos, prev_h, new_h)),
        ),
    }
}

/// `s` repeated `n` times.
pub open spec fn repeat(s: Seq<Command>, n: nat) -> Seq<Command>
    decreases n,
{
    if n == 0 {
        Seq::empty()
    } else {
        repeat(s, (n - 1) as nat) + s
    }
}

/// The commands that switch from the `active` style to `s`: only the parts
/// that differ are set, a missing colour as the terminal's default.
pub open spec fn style_commands(active: Style, s: Style) -> Seq<Command> {
    if active == s {
        Seq::empty()
    } else {
        (if active.background_color != s.background_color {
            seq![Command::SetBackgroundColor(color_or_reset(s.background_color))]
        } else {
            Seq::empty()
        }) + (if active.foreground_color != s.foreground_color {
            seq![Command::SetForegroundColor(color_or_reset(s.foreground_color))]
        } else {
            Seq::empty()
        }) + (if active.attributes != s.attributes {
            seq![Command::SetAttributes(s.attributes)]
        } else {
            Seq::empty()
        })
    }
}

pub open spec fn color_or_reset(c: Option<Color>) -> Color {
    match c {
        Some(c) => c,
        None => Color::Reset,
    }
}

/// The commands that print `row` from the `active` style on, and the style
/// that is active afterwards: each character is printed after the style
/// changes it needs, and extension cells print nothing.
pub open spec fn row_commands(row: Seq<Cell>, active: Style) -> (Seq<Command>, Style)
    decreases row.len(),
{
    if row.len() == 0 {
        (Seq::empty(), active)
    } else {
        let (c, s) = row_commands(row.drop_last(), active);
        match row.last() {
            Cell::Content(cc) => (c + style_commands(s, cc.style) + seq![Command::Print(cc.c)], cc.style),
            Cell::WideExtension => (c, s),
        }
    }
}

/// The commands for the first `n` rows of a frame: a row equal to the one
/// last flushed is skipped unless the whole screen is to be repainted; any
/// other row is reached by a cursor move to its start, then printed.
pub open spec fn rows_commands(
    next: Seq<Seq<Cell>>,
    prev: Seq<Seq<Cell>>,
    full: bool,
    top: u16,
    n: nat,
) -> (Seq<Command>, Style)
    decreases n,
{
    if n == 0 {
        (Seq::empty(), Style::spec_default())
    } else {
        let (c, s) = rows_commands(next, prev, full, top, (n - 1) as nat);
        let y = n - 1;
        if next[y] == prev[y] && !full {
            (c, s)
        } else {
            let (rc, rs) = row_commands(next[y], s);
            (c + seq![row_start(top, y)] + rc, rs)
        }
    }
}

/// The move to the start of frame row `y`.
pub open spec fn row_start(top: u16, y: int) -> Command {
    Command::MoveTo(0, (top + y) as u16)
}

/// Where the cursor goes after a frame: shown at its place within the
/// frame, or hidden.
pub open spec fn cursor_commands(cursor: Option<(u16, u16)>, top: u16) -> Seq<Command> {
    match cursor {
        Some(p) => seq![Command::MoveTo(p.0, sat_add(p.1, top)), Command::ShowCursor],
        None => seq![Command::HideCursor],
    }
}

/// The row views of a buffer.
pub open spec fn rows_of(b: VirtualBuffer) -> Seq<Seq<Cell>> {
    b.cells@.map_values(|r: Vec<Cell>| r@)
}

/// The cells of `row` after drawing `cs` from column `x` on, and the column
/// after the last character drawn: drawing stops at the first character that
/// does not fit.
pub open spec fn draw_row(row: Seq<Cell>, x: int, cs: Seq<char>, style: Style) -> (Seq<Cell>, int)
    decreases cs.len(),
{
    if cs.len() == 0 {
        (row, x)
    } else if x + cell_width(cs[0]) <= row.len() {
        draw_row(
            put_glyph(row, x, CellContent { c: cs[0], width: cell_width(cs[0]), style }),
            x + cell_width(cs[0]),
            cs.drop_first(),
            style,
        )
    } else {
        (row, x)
    }
}

/// Drawing ANSI strings one after the other.
pub open spec fn draw_spans(row: Seq<Cell>, x: int, spans: Seq<AnsiString>) -> (Seq<Cell>, int)
    decreases spans.len(),
{
    if spans.len() == 0 {
        (row, x)
    } else {
        let (r1, x1) = draw_row(row, x, spans[0].text@, spec_cell_style(spans[0].style));
        draw_spans(r1, x1, spans.drop_first())
    }
}

proof fn lemma_draw_row(row: Seq<Cell>, x: int, cs: Seq<char>, style: Style)
    requires
        crate::buffer::row_wf(row),
        0 <= x,
    ensures
        crate::buffer::row_wf(draw_row(row, x, cs, style).0),
        draw_row(row, x, cs, style).0.len() == row.len(),
        x <= draw_row(row, x, cs, style).1,
        draw_row(row, x, cs, style).1 <= if x <= row.len() { row.len() as int } else { x },
        x > row.len() ==> draw_row(row, x, cs, style) == (row, x),
    decreases cs.len(),
{
    if cs.len() > 0 && x + cell_width(cs[0]) <= row.len() {
        let cc = CellContent { c: cs[0], width: cell_width(cs[0]), style };
        crate::buffer::lemma_put_glyph_wf(row, x, cc);
        lemma_draw_row(put_glyph(row, x, cc), x + cell_width(cs[0]), cs.drop_first(), style);
    }
}

fn rows_equal(a: &Vec<Cell>, b: &Vec<Cell>) -> (r: bool)
    ensures
        r == (a@ == b@),
{
    if a.len() != b.len() {
        return false;
    }
    let mut i: usize = 0;
    while i < a.len()
        invariant
            a@.len() == b@.len(),
            i <= a@.len(),
            forall|j: int| 0 <= j < i ==> a@[j] == b@[j],
        decreases a@.len() - i,
    {
        if a[i] != b[i] {
            return false;
        }
        i += 1;
    }
    assert(a@ =~= b@);
    true
}

fn positions_equal(a: Option<(u16, u16)>, b: Option<(u16, u16)>) -> (r: bool)
    ensures
        r == (a == b),
{
    match (a, b) {
        (Some(p), Some(q)) => p.0 == q.0 && p.1 == q.1,
        (None, None) => true,
        _ => false,
    }
}

fn opt_color_eq(a: Option<Color>, b: Option<Color>) -> (r: bool)
    ensures
        r == (a == b),
{
    match (a, b) {
        (Some(x), Some(y)) => x == y,
        (None, None) => true,
        _ => false,
    }
}

fn or_reset(c: Option<Color>) -> (r: Color)
    ensures
        r == color_or_reset(c),
{
    match c {
        Some(c) => c,
        None => Color::Reset,
    }
}

fn push_style_commands(out: &mut Vec<Command>, active: Style, s: Style)
    ensures
        final(out)@ == old(out)@ + style_commands(active, s),
{
    if active == s {
        assert(old(out)@ + style_commands(active, s) =~= old(out)@);
        return;
    }
    let ghost o = out@;
    let bg = !opt_color_eq(active.background_color, s.background_color);
    if bg {
        out.push(Command::SetBackgroundColor(or_reset(s.background_color)));
    }
    if !opt_color_eq(active.foreground_color, s.foreground_color) {
        out.push(Command::SetForegroundColor(or_reset(s.foreground_color)));
    }
    if active.attributes != s.attributes {
        out.push(Command::SetAttributes(s.attributes));
    }
    assert(out@ =~= o + style_commands(active, s));
}

/// The commands that reserve the region of `l` lines whose top is `y`, for a
/// cursor at row `row`: one blank line each, but the last where the region
/// had to be moved up from the cursor.
pub open spec fn reserve_commands(l: u16, y: u16, row: u16) -> Seq<Command> {
    let n: nat = if l > 0 && y != row { (l - 1) as nat } else { l as nat };
    repeat(seq![Command::ResetColor, Command::Print('\n'), Command::ClearUntilNewLine], n)
}

/// The commands that blank the region of `l` lines from its top `y` on, for
/// an anchor at row `row`.
pub open spec fn release_commands(l: u16, y: u16, row: u16) -> Seq<Command> {
    if l == 0 {
        Seq::empty()
    } else {
        repeat(
            seq![Command::ResetColor, Command::ClearUntilNewLine, Command::Print('\n')],
            (l - 1) as nat,
        ) + seq![Command::ResetColor, Command::ClearUntilNewLine] + if y == row {
            seq![Command::Print('\n')]
        } else {
            Seq::empty()
        }
    }
}

impl Renderer {
    pub open spec fn spec_height(&self) -> u16 {
        height_of(self.config, self.term_size.1)
    }

    pub open spec fn spec_top(&self) -> u16 {
        top_row(self.config, self.term_size.1)
    }

    /// Both buffers are well formed and have the size of the screen region.
    pub open spec fn wf(&self) -> bool {
        &&& self.next.wf()
        &&& self.prev.wf()
        &&& self.next.width == self.term_size.0
        &&& self.prev.width == self.term_size.0
        &&& self.next.height == self.spec_height()
        &&& self.prev.height == self.spec_height()
    }

    /// Both buffers are those of `old` where their size is unchanged, and
    /// blank (with their cursors kept) where it changed.
    pub open spec fn buffers_resized_from(&self, old: Renderer) -> bool {
        if self.next.width == old.next.width && self.next.height == old.next.height {
            self.next == old.next && self.prev == old.prev
        } else {
            &&& self.next.is_blank()
            &&& self.prev.is_blank()
            &&& self.next.cursor == old.next.cursor
            &&& self.prev.cursor == old.prev.cursor
        }
    }

    /// The next frame is the last one again: same cells, same cursor, and no
    /// full refresh due.
    pub open spec fn frame_unchanged(&self) -> bool {
        &&& !self.full_refresh
        &&& rows_of(self.next) == rows_of(self.prev)
        &&& self.next.cursor == self.prev.cursor
    }

    /// The commands that the next `end` yields: the rows to repaint, then,
    /// unless the frame is unchanged, the commands that place or hide the
    /// cursor.
    pub open spec fn frame_commands(&self) -> Seq<Command> {
        rows_commands(
            rows_of(self.next),
            rows_of(self.prev),
            self.full_refresh,
            self.spec_top(),
            self.next.height as nat,
        ).0 + if self.frame_unchanged() {
            Seq::empty()
        } else {
            cursor_commands(self.next.cursor, self.spec_top())
        }
    }

    /// A full-screen renderer for a terminal of one cell, to be resized.
    pub fn new() -> (r: Renderer)
        ensures
            r.wf(),
            r.term_size == (1u16, 1u16),
            r.config == Config::FullScreen,
            r.full_refresh,
    {
        Renderer {
            term_size: (1, 1),
            config: Config::FullScreen,
            next: VirtualBuffer::new(1, 1),
            prev: VirtualBuffer::new(1, 1),
            full_refresh: true,
        }
    }

    /// Switches to a bottom region of at least `min_nr_lines` lines.
    pub fn bottom_screen(self, min_nr_lines: u16) -> (r: Renderer)
        requires
            self.wf(),
        ensures
            r.wf(),
            r.config == Config::BottomScreen(min_nr_lines, None),
            r.term_size == self.term_size,
    {
        let mut s = self;
        s.set_bottom_screen(min_nr_lines);
        s
    }

    /// Switches to a bottom region of at least `min_nr_lines` lines; the
    /// buffers take the region's size.
    pub fn set_bottom_screen(&mut self, min_nr_lines: u16)
        requires
            old(self).wf(),
        ensures
            final(self).wf(),
            final(self).config == Config::BottomScreen(min_nr_lines, None),
            final(self).term_size == old(self).term_size,
            final(self).full_refresh,
    {
        self.config = Config::BottomScreen(min_nr_lines, None);
        let w = self.term_size.0;
        let h = self.height();
        self.next.resize(w, h);
        self.prev.resize(w, h);
        self.full_refresh = true;
    }

    pub fn width(&self) -> (r: u16)
        ensures
            r == self.term_size.0,
    {
        self.term_size.0
    }

    /// The rows that the renderer draws on.
    pub fn height(&self) -> (r: u16)
        ensures
            r == self.spec_height(),
    {
        match self.config {
            Config::FullScreen => self.term_size.1,
            Config::BottomScreen(lines, _) => min16(lines, self.term_size.1),
        }
    }

    pub fn is_bottom_screen(&self) -> (r: bool)
        ensures
            r == (self.config is BottomScreen),
    {
        match self.config {
            Config::FullScreen => false,
            Config::BottomScreen(_, _) => true,
        }
    }

    fn top(&self) -> (r: u16)
        ensures
            r == self.spec_top(),
    {
        match self.config {
            Config::FullScreen => 0,
            Config::BottomScreen(lines, pos) => {
                let p = match pos {
                    Some(p) => p,
                    None => (0u16, 0u16),
                };
                let l = min16(lines, self.term_size.1);
                min16(self.term_size.1 - l, p.1)
            },
        }
    }

    /// Takes a new terminal size: the anchor follows the bottom edge where it
    /// has to, both buffers take the new size, and the next frame repaints
    /// every row.
    pub fn on_resize(&mut self, x: u16, y: u16)
        requires
            old(self).wf(),
        ensures
            final(self).wf(),
            final(self).term_size == (x, y),
            final(self).config == resized_config(old(self).config, old(self).term_size.1, y),
            final(self).full_refresh,
            final(self).next.cursor == old(self).next.cursor,
            final(self).buffers_resized_from(*old(self)),
    {
        let prev_h = self.term_size.1;
        self.term_size = (x, y);
        let h = match self.config {
            Config::FullScreen => y,
            Config::BottomScreen(lines, pos) => {
                match pos {
                    None => {},
                    Some(p) => {
                        let l = min16(lines, prev_h);
                        let top = min16(prev_h - l, p.1);
                        if top != p.1 {
                            let moved: i64 = p.1 as i64 + y as i64 - prev_h as i64;
                            let row: u16 = if moved < 0 {
                                0
                            } else if moved > u16::MAX as i64 {
                                u16::MAX
                            } else {
                                moved as u16
                            };
                            self.config = Config::BottomScreen(lines, Some((p.0, row)));
                        }
                    },
                }
                min16(lines, y)
            },
        };
        self.next.resize(x, h);
        self.prev.resize(x, h);
        self.full_refresh = true;
    }

    /// Reacts to a resize; ignores every other event.
    pub fn event(&mut self, event: &Event)
        requires
            old(self).wf(),
        ensures
            final(self).wf(),
            match *event {
                Event::Resize(x, y) => final(self).term_size == (x, y) && final(self).config
                    == resized_config(old(self).config, old(self).term_size.1, y)
                    && final(self).full_refresh && final(self).next.cursor == old(self).next.cursor
                    && final(self).buffers_resized_from(*old(self)),
                _ => *final(self) == *old(self),
            },
    {
        match event {
            Event::Resize(x, y) => {
                self.on_resize(*x, *y);
            },
            _ => {},
        }
    }

    /// Draws `s` at column `x` of row `y` of the next frame, up to the first
    /// character that does not fit, and returns the columns drawn.
    pub fn draw_str(&mut self, x: u16, y: u16, s: &str, style: Style) -> (r: u16)
        requires
            old(self).wf(),
        ensures
            final(self).wf(),
            final(self).term_size == old(self).term_size,
            final(self).config == old(self).config,
            final(self).prev == old(self).prev,
            final(self).full_refresh == old(self).full_refresh,
            final(self).next.cursor == old(self).next.cursor,
            y >= old(self).next.height ==> r == 0 && final(self).next.cells@ == old(self).next.cells@,
            y < old(self).next.height ==> {
                let (row, end) = draw_row(old(self).next.cells@[y as int]@, x as int, s@, style);
                &&& final(self).next.cells@.len() == old(self).next.cells@.len()
                &&& forall|j: int| 0 <= j < old(self).next.cells@.len() && j != y
                    ==> #[trigger] final(self).next.cells@[j] == old(self).next.cells@[j]
                &&& final(self).next.cells@[y as int]@ == row
                &&& r == end - x
            },
    {
        if y >= self.next.height {
            return 0;
        }
        let ghost row0 = self.next.cells@[y as int]@;
        let n = s.unicode_len();
        let mut i: usize = 0;
        let mut cx: u16 = x;
        proof {
            assert(s@.subrange(0, n as int) =~= s@);
            lemma_draw_row(row0, x as int, s@, style);
        }
        let mut stopped = false;
        while i < n && !stopped
            invariant
                self.wf(),
                n == s@.len(),
                i <= n,
                x <= cx,
                self.term_size == old(self).term_size,
                self.config == old(self).config,
                self.prev == old(self).prev,
                self.full_refresh == old(self).full_refresh,
                self.next.cursor == old(self).next.cursor,
                self.next.cells@.len() == old(self).next.cells@.len(),
                y < self.next.height,
                forall|j: int| 0 <= j < old(self).next.cells@.len() && j != y
                    ==> #[trigger] self.next.cells@[j] == old(self).next.cells@[j],
                !stopped ==> draw_row(row0, x as int, s@, style) == draw_row(
                    self.next.cells@[y as int]@,
                    cx as int,
                    s@.subrange(i as int, n as int),
                    style,
                ),
                stopped ==> draw_row(row0, x as int, s@, style) == (
                    self.next.cells@[y as int]@,
                    cx as int,
                ),
            decreases n - i, if stopped { 0int } else { 1int },
        {
            let c = s.get_char(i);
            let ghost rest = s@.subrange(i as int, n as int);
            proof {
                assert(rest[0] == c);
                assert(rest.drop_first() =~= s@.subrange(i + 1, n as int));
            }
            match self.next.putchar(cx, y, c, style) {
                Some(w) => {
                    cx = cx + w;
                },
                None => {
                    stopped = true;
                },
            }
            if !stopped {
                i += 1;
            }
        }
        proof {
            if !stopped {
                assert(s@.subrange(i as int, n as int).len() == 0);
            }
        }
        cx - x
    }

    /// Draws an ANSI-styled string in its colours.
    pub fn draw_ansi(&mut self, x: u16, y: u16, s: &AnsiString) -> (r: u16)
        requires
            old(self).wf(),
        ensures
            final(self).wf(),
            final(self).term_size == old(self).term_size,
            final(self).config == old(self).config,
            final(self).prev == old(self).prev,
            final(self).full_refresh == old(self).full_refresh,
            final(self).next.cursor == old(self).next.cursor,
            y >= old(self).next.height ==> r == 0 && final(self).next.cells@ == old(self).next.cells@,
            y < old(self).next.height ==> {
                let (row, end) = draw_row(
                    old(self).next.cells@[y as int]@,
                    x as int,
                    s.text@,
                    spec_cell_style(s.style),
                );
                &&& final(self).next.cells@.len() == old(self).next.cells@.len()
                &&& forall|j: int| 0 <= j < old(self).next.cells@.len() && j != y
                    ==> #[trigger] final(self).next.cells@[j] == old(self).next.cells@[j]
                &&& final(self).next.cells@[y as int]@ == row
                &&& r == end - x
            },
    {
        let style = cell_style(s.style);
        self.draw_str(x, y, s.text.as_str(), style)
    }

    /// Draws ANSI-styled strings one after the other.
    pub fn draw_ansis(&mut self, x: u16, y: u16, s: &Vec<AnsiString>) -> (r: u16)
        requires
            old(self).wf(),
        ensures
            final(self).wf(),
            final(self).term_size == old(self).term_size,
            final(self).config == old(self).config,
            final(self).prev == old(self).prev,
            final(self).full_refresh == old(self).full_refresh,
            final(self).next.cursor == old(self).next.cursor,
            y >= old(self).next.height ==> r == 0 && final(self).next.cells@ == old(self).next.cells@,
            y < old(self).next.height ==> {
                let (row, end) = draw_spans(old(self).next.cells@[y as int]@, x as int, s@);
                &&& final(self).next.cells@.len() == old(self).next.cells@.len()
                &&& forall|j: int| 0 <= j < old(self).next.cells@.len() && j != y
                    ==> #[trigger] final(self).next.cells@[j] == old(self).next.cells@[j]
                &&& final(self).next.cells@[y as int]@ == row
                &&& r == end - x
            },
    {
        if y >= self.next.height {
            return 0;
        }
        let ghost row0 = self.next.cells@[y as int]@;
        let mut i: usize = 0;
        let mut cx: u16 = x;
        proof {
            assert(s@.subrange(0, s@.len() as int) =~= s@);
        }
        while i < s.len()
            invariant
                self.wf(),
                i <= s@.len(),
                x <= cx,
                self.term_size == old(self).term_size,
                self.config == old(self).config,
                self.prev == old(self).prev,
                self.full_refresh == old(self).full_refresh,
                self.next.cursor == old(self).next.cursor,
                self.next.cells@.len() == old(self).next.cells@.len(),
                y < self.next.height,
                forall|j: int| 0 <= j < old(self).next.cells@.len() && j != y
                    ==> #[trigger] self.next.cells@[j] == old(self).next.cells@[j],
                draw_spans(row0, x as int, s@) == draw_spans(
                    self.next.cells@[y as int]@,
                    cx as int,
                    s@.subrange(i as int, s@.len() as int),
                ),
            decreases s@.len() - i,
        {
            let ghost rest = s@.subrange(i as int, s@.len() as int);
            proof {
                assert(rest[0] == s@[i as int]);
                assert(rest.drop_first() =~= s@.subrange(i + 1, s@.len() as int));
                lemma_draw_row(self.next.cells@[y as int]@, cx as int, s@[i as int].text@, spec_cell_style(s@[i as int].style));
            }
            let w = self.draw_ansi(cx, y, &s[i]);
            cx = cx + w;
            i += 1;
        }
        proof {
            assert(s@.subrange(i as int, s@.len() as int).len() == 0);
        }
        cx - x
    }

    /// Records where the cursor goes in the next frame; `None` hides it.
    pub fn set_cursor(&mut self, info: Option<(u16, u16)>)
        requires
            old(self).wf(),
        ensures
            final(self).wf(),
            final(self).next.cursor == info,
            final(self).next.cells@ == old(self).next.cells@,
            final(self).next.width == old(self).next.width,
            final(self).next.height == old(self).next.height,
            final(self).prev == old(self).prev,
            final(self).term_size == old(self).term_size,
            final(self).config == old(self).config,
            final(self).full_refresh == old(self).full_refresh,
    {
        self.next.cursor = info;
    }

    /// Starts a frame: the next buffer is blanked and its cursor hidden.
    pub fn begin(&mut self)
        requires
            old(self).wf(),
        ensures
            final(self).wf(),
            final(self).next.is_blank(),
            final(self).next.cursor.is_none(),
            final(self).prev == old(self).prev,
            final(self).term_size == old(self).term_size,
            final(self).config == old(self).config,
            final(self).full_refresh == old(self).full_refresh,
    {
        self.next.clear();
    }

    /// Ends a frame: yields the commands that bring the screen from the last
    /// frame to this one (see `frame_commands`), clears `full_refresh`, and
    /// keeps this frame as the one to diff the next against.
    pub fn end(&mut self) -> (r: Vec<Command>)
        requires
            old(self).wf(),
        ensures
            final(self).wf(),
            r@ == old(self).frame_commands(),
            final(self).next == old(self).prev,
            final(self).prev == old(self).next,
            !final(self).full_refresh,
            final(self).term_size == old(self).term_size,
            final(self).config == old(self).config,
    {
        let top = self.top();
        let ghost next_rows = rows_of(self.next);
        let ghost prev_rows = rows_of(self.prev);
        let mut out: Vec<Command> = Vec::new();
        let mut style = Style::plain();
        let mut all_same = true;
        let mut y: u16 = 0;
        while y < self.next.height
            invariant
                self.wf(),
                self == old(self),
                all_same == forall|j: int| 0 <= j < y ==> next_rows[j] == prev_rows[j],
                top == self.spec_top(),
                top + self.next.height <= self.term_size.1,
                y <= self.next.height,
                next_rows == rows_of(self.next),
                prev_rows == rows_of(self.prev),
                (out@, style) == rows_commands(next_rows, prev_rows, self.full_refresh, top, y as nat),
            decreases self.next.height - y,
        {
            let ghost before = rows_commands(next_rows, prev_rows, self.full_refresh, top, y as nat);
            let yi = y as usize;
            let same = rows_equal(&self.next.cells[yi], &self.prev.cells[yi]);
            proof {
                assert(next_rows[y as int] == self.next.cells@[y as int]@);
                assert(prev_rows[y as int] == self.prev.cells@[y as int]@);
            }
            all_same = all_same && same;
            if !(same && !self.full_refresh) {
                out.push(Command::MoveTo(0, top + y));
                let ghost start = out@;
                let row = &self.next.cells[yi];
                let ghost rv = row@;
                let mut x: usize = 0;
                proof {
                    assert(rv.subrange(0, 0) =~= Seq::<Cell>::empty());
                }
                while x < row.len()
                    invariant
                        x <= rv.len(),
                        rv == row@,
                        (out@, style) == (
                            start + row_commands(rv.subrange(0, x as int), before.1).0,
                            row_commands(rv.subrange(0, x as int), before.1).1,
                        ),
                    decreases rv.len() - x,
                {
                    proof {
                        assert(rv.subrange(0, x + 1).drop_last() =~= rv.subrange(0, x as int));
                    }
                    match row[x] {
                        Cell::Content(cc) => {
                            push_style_commands(&mut out, style, cc.style);
                            out.push(Command::Print(cc.c));
                            style = cc.style;
                        },
                        Cell::WideExtension => {},
                    }
                    x += 1;
                    proof {
                        assert(out@ =~= start + row_commands(rv.subrange(0, x as int), before.1).0);
                    }
                }
                proof {
                    assert(rv.subrange(0, rv.len() as int) =~= rv);
                    assert(next_rows[y as int] == rv);
                    assert(out@ =~= before.0 + seq![row_start(top, y as int)]
                        + row_commands(next_rows[y as int], before.1).0);
                }
            }
            y += 1;
        }
        proof {
            if all_same {
                assert(next_rows =~= prev_rows);
            } else {
                let j = choose|j: int| 0 <= j < y && next_rows[j] != prev_rows[j];
                assert(next_rows[j] != prev_rows[j]);
            }
        }
        let unchanged = all_same && !self.full_refresh && positions_equal(self.next.cursor, self.prev.cursor);
        if !unchanged {
            match self.next.cursor {
                Some(p) => {
                    out.push(Command::MoveTo(p.0, add_sat(p.1, top)));
                    out.push(Command::ShowCursor);
                },
                None => {
                    out.push(Command::HideCursor);
                },
            }
        }
        proof {
            assert(out@ =~= old(self).frame_commands());
        }
        self.full_refresh = false;
        std::mem::swap(&mut self.next, &mut self.prev);
        out
    }

    /// Takes over the terminal, of `width` columns and `height` rows, with
    /// its cursor at `position`: hides the cursor, takes the size, and either
    /// enters the alternate screen or reserves the bottom region with blank
    /// lines and anchors it at `position`.
    pub fn term_on(&mut self, width: u16, height: u16, position: (u16, u16)) -> (r: Vec<Command>)
        requires
            old(self).wf(),
        ensures
            final(self).wf(),
            final(self).term_size == (width, height),
            final(self).full_refresh,
            match old(self).config {
                Config::FullScreen => final(self).config == Config::FullScreen && r@ == seq![
                    Command::HideCursor,
                    Command::EnterAlternateScreen,
                ],
                Config::BottomScreen(lines, _) => {
                    let l = min_u16(lines, height);
                    &&& final(self).config == Config::BottomScreen(lines, Some(position))
                    &&& r@ == seq![Command::HideCursor] + reserve_commands(
                        l,
                        region_top(height, l, position.1),
                        position.1,
                    )
                },
            },
    {
        let mut out: Vec<Command> = Vec::new();
        out.push(Command::HideCursor);
        self.on_resize(width, height);
        match self.config {
            Config::FullScreen => {
                out.push(Command::EnterAlternateScreen);
            },
            Config::BottomScreen(lines, _) => {
                let l = min16(lines, height);
                let y = min16(height - l, position.1);
                let n: u16 = if l > 0 && y != position.1 { l - 1 } else { l };
                let ghost unit = seq![Command::ResetColor, Command::Print('\n'), Command::ClearUntilNewLine];
                let mut i: u16 = 0;
                while i < n
                    invariant
                        i <= n,
                        out@ == seq![Command::HideCursor] + repeat(unit, i as nat),
                        unit == seq![Command::ResetColor, Command::Print('\n'), Command::ClearUntilNewLine],
                    decreases n - i,
                {
                    out.push(Command::ResetColor);
                    out.push(Command::Print('\n'));
                    out.push(Command::ClearUntilNewLine);
                    i += 1;
                    proof {
                        assert(out@ =~= seq![Command::HideCursor] + repeat(unit, i as nat));
                    }
                }
                self.config = Config::BottomScreen(lines, Some(position));
            },
        }
        out
    }

    /// Gives the terminal back: leaves the alternate screen, or blanks the
    /// bottom region and puts the cursor back at the anchor; then shows the
    /// cursor.
    pub fn term_off(&self) -> (r: Vec<Command>)
        ensures
            match self.config {
                Config::FullScreen => r@ == seq![Command::LeaveAlternateScreen, Command::ShowCursor],
                Config::BottomScreen(lines, pos) => {
                    let p = match pos {
                        Some(p) => p,
                        None => (0u16, 0u16),
                    };
                    let l = min_u16(lines, self.term_size.1);
                    let y = region_top(self.term_size.1, l, p.1);
                    r@ == seq![Command::MoveTo(p.0, y)] + release_commands(l, y, p.1) + seq![
                        Command::MoveTo(p.0, y),
                        Command::ShowCursor,
                    ]
                },
            },
    {
        let mut out: Vec<Command> = Vec::new();
        match self.config {
            Config::FullScreen => {
                out.push(Command::LeaveAlternateScreen);
            },
            Config::BottomScreen(lines, pos) => {
                let p = match pos {
                    Some(p) => p,
                    None => (0u16, 0u16),
                };
                let h = self.term_size.1;
                let l = min16(lines, h);
                let y = min16(h - l, p.1);
                out.push(Command::MoveTo(p.0, y));
                if l > 0 {
                    let ghost unit = seq![Command::ResetColor, Command::ClearUntilNewLine, Command::Print('\n')];
                    let mut i: u16 = 0;
                    while i < l - 1
                        invariant
                            l > 0,
                            i <= l - 1,
                            out@ == seq![Command::MoveTo(p.0, y)] + repeat(unit, i as nat),
                            unit == seq![Command::ResetColor, Command::ClearUntilNewLine, Command::Print('\n')],
                        decreases l - 1 - i,
                    {
                        let ghost before = out@;
                        out.push(Command::ResetColor);
                        out.push(Command::ClearUntilNewLine);
                        out.push(Command::Print('\n'));
                        i += 1;
                        proof {
                            assert(repeat(unit, i as nat) == repeat(unit, (i - 1) as nat) + unit);
                            assert(out@ =~= before + unit);
                            assert(out@ =~= seq![Command::MoveTo(p.0, y)] + repeat(unit, i as nat));
                        }
                    }
                    out.push(Command::ResetColor);
                    out.push(Command::ClearUntilNewLine);
                    if y == p.1 {
                        out.push(Command::Print('\n'));
                    }
                }
                out.push(Command::MoveTo(p.0, y));
                proof {
                    assert(out@ =~= seq![Command::MoveTo(p.0, y)] + release_commands(l, y, p.1)
                        + seq![Command::MoveTo(p.0, y)]);
                }
            },
        }
        out.push(Command::ShowCursor);
        proof {
            match self.config {
                Config::FullScreen => {
                    assert(out@ =~= seq![Command::LeaveAlternateScreen, Command::ShowCursor]);
                },
                Config::BottomScreen(lines, pos) => {
                    let p = match pos {
                        Some(p) => p,
                        None => (0u16, 0u16),
                    };
                    let l = min_u16(lines, self.term_size.1);
                    let y = region_top(self.term_size.1, l, p.1);
                    assert(out@ =~= seq![Command::MoveTo(p.0, y)] + release_commands(l, y, p.1) + seq![
                        Command::MoveTo(p.0, y),
                        Command::ShowCursor,
                    ]);
                },
            }
        }
        out
    }
}

impl Default for Renderer {
    fn default() -> (r: Renderer)
        ensures
            r.wf(),
            r.term_size == (1u16, 1u16),
            r.config == Config::FullScreen,
            r.full_refresh,
    {
        Renderer::new()
    }
}

/// The renderer went from `old` to `new` by drawing at column `x` of row
/// `y`, and the draw returned `r`: where that row exists, it became
/// `d.0` and `r` is the columns up to `d.1`; elsewhere nothing changed and
/// `r` is zero. Nothing else about the renderer changed.
pub open spec fn draw_effect(
    old: Renderer,
    new: Renderer,
    x: u16,
    y: u16,
    d: (Seq<Cell>, int),
    r: u16,
) -> bool {
    &&& new.term_size == old.term_size
    &&& new.config == old.config
    &&& new.prev == old.prev
    &&& new.full_refresh == old.full_refresh
    &&& new.next.cursor == old.next.cursor
    &&& y >= old.next.height ==> r == 0 && new.next.cells@ == old.next.cells@
    &&& y < old.next.height ==> {
        &&& new.next.cells@.len() == old.next.cells@.len()
        &&& forall|j: int|
            0 <= j < old.next.cells@.len() && j != y ==> #[trigger] new.next.cells@[j]
                == old.next.cells@[j]
        &&& new.next.cells@[y as int]@ == d.0
        &&& r == d.1 - x
    }
}

/// Content that can draw itself into the next frame of a renderer.
pub trait Drawable {
    /// The row after the content is drawn into `row` from column `x` on,
    /// and the column after the last one drawn.
    spec fn drawn(&self, row: Seq<Cell>, x: int) -> (Seq<Cell>, int);

    /// Draws at column `x` of row `y` and returns the columns taken.
    fn draw(&self, renderer: &mut Renderer, x: u16, y: u16) -> (r: u16)
        requires
            old(renderer).wf(),
        ensures
            final(renderer).wf(),
            draw_effect(
                *old(renderer),
                *final(renderer),
                x,
                y,
                self.drawn(old(renderer).next.cells@[y as int]@, x as int),
                r,
            ),
    ;
}

impl Drawable for (String, Style) {
    open spec fn drawn(&self, row: Seq<Cell>, x: int) -> (Seq<Cell>, int) {
        draw_row(row, x, self.0@, self.1)
    }

    fn draw(&self, renderer: &mut Renderer, x: u16, y: u16) -> (r: u16) {
        renderer.draw_str(x, y, self.0.as_str(), self.1)
    }
}

impl<'b> Drawable for &'b str {
    open spec fn drawn(&self, row: Seq<Cell>, x: int) -> (Seq<Cell>, int) {
        draw_row(row, x, (*self)@, Style::spec_default())
    }

    fn draw(&self, renderer: &mut Renderer, x: u16, y: u16) -> (r: u16) {
        renderer.draw_str(x, y, *self, Style::plain())
    }
}

impl<'b> Drawable for &'b String {
    open spec fn drawn(&self, row: Seq<Cell>, x: int) -> (Seq<Cell>, int) {
        draw_row(row, x, (*self)@, Style::spec_default())
    }

    fn draw(&self, renderer: &mut Renderer, x: u16, y: u16) -> (r: u16) {
        renderer.draw_str(x, y, self.as_str(), Style::plain())
    }
}

impl Drawable for AnsiString {
    open spec fn drawn(&self, row: Seq<Cell>, x: int) -> (Seq<Cell>, int) {
        draw_row(row, x, self.text@, spec_cell_style(self.style))
    }

    fn draw(&self, renderer: &mut Renderer, x: u16, y: u16) -> (r: u16) {
        renderer.draw_ansi(x, y, self)
    }
}

impl Drawable for Vec<AnsiString> {
    open spec fn drawn(&self, row: Seq<Cell>, x: int) -> (Seq<Cell>, int) {
        draw_spans(row, x, self@)
    }

    fn draw(&self, renderer: &mut Renderer, x: u16, y: u16) -> (r: u16) {
        renderer.draw_ansis(x, y, self)
    }
}

impl Renderer {
    /// Draws any drawable content at column `x` of row `y` (see
    /// `Drawable::drawn`).
    pub fn draw<D: Drawable>(&mut self, x: u16, y: u16, drawable: D) -> (r: u16)
        requires
            old(self).wf(),
        ensures
            final(self).wf(),
            draw_effect(
                *old(self),
                *final(self),
                x,
                y,
                drawable.drawn(old(self).next.cells@[y as int]@, x as int),
                r,
            ),
    {
        drawable.draw(self, x, y)
    }

    /// Makes the next `end` repaint every row, as after a write of the
    /// commands that may not have reached the terminal.
    pub fn request_full_refresh(&mut self)
        requires
            old(self).wf(),
        ensures
            final(self).wf(),
            final(self).full_refresh,
            final(self).next == old(self).next,
            final(self).prev == old(self).prev,
            final(self).term_size == old(self).term_size,
            final(self).config == old(self).config,
    {
        self.full_refresh = true;
    }
}

proof fn lemma_equal_rows_no_commands(
    next: Seq<Seq<Cell>>,
    prev: Seq<Seq<Cell>>,
    top: u16,
    n: nat,
)
    requires
        n <= next.len(),
        n <= prev.len(),
        forall|y: int| 0 <= y < n ==> next[y] == prev[y],
    ensures
        rows_commands(next, prev, false, top, n) == (Seq::<Command>::empty(), Style::spec_default()),
    decreases n,
{
    if n > 0 {
        lemma_equal_rows_no_commands(next, prev, top, (n - 1) as nat);
    }
}

proof fn lemma_full_rows_all_moves(
    next: Seq<Seq<Cell>>,
    prev: Seq<Seq<Cell>>,
    top: u16,
    n: nat,
)
    ensures
        forall|y: int|
            0 <= y < n ==> rows_commands(next, prev, true, top, n).0.contains(
                #[trigger] row_start(top, y),
            ),
    decreases n,
{
    if n > 0 {
        lemma_full_rows_all_moves(next, prev, top, (n - 1) as nat);
        let (c, s) = rows_commands(next, prev, true, top, (n - 1) as nat);
        let (rc, rs) = row_commands(next[n - 1], s);
        let all = c + seq![row_start(top, n - 1)] + rc;
        assert forall|y: int| 0 <= y < n implies all.contains(
            #[trigger] row_start(top, y),
        ) by {
            if y < n - 1 {
                let i = choose|i: int| 0 <= i < c.len() && c[i] == row_start(top, y);
                assert(all[i] == c[i]);
            } else {
                assert(all[c.len() as int] == row_start(top, y));
            }
        }
    }
}

/// Two frames in a row with the same cells and the same cursor: unless a
/// full refresh is due, `end` repaints no row and does not move the cursor;
/// it yields no command at all.
pub proof fn lemma_unchanged_frame_repaints_nothing(r: Renderer)
    requires
        r.wf(),
        !r.full_refresh,
        rows_of(r.next) == rows_of(r.prev),
        r.next.cursor == r.prev.cursor,
    ensures
        r.frame_commands() == Seq::<Command>::empty(),
{
    let n = r.next.height as nat;
    assert forall|y: int| 0 <= y < n implies rows_of(r.next)[y] == rows_of(r.prev)[y] by {}
    lemma_equal_rows_no_commands(rows_of(r.next), rows_of(r.prev), r.spec_top(), n);
    assert(r.frame_commands() =~= Seq::<Command>::empty());
}

/// With the same cells but the cursor moved or shown or hidden, `end`
/// repaints no row and yields only the commands that place or hide the
/// cursor.
pub proof fn lemma_cursor_change_moves_only_cursor(r: Renderer)
    requires
        r.wf(),
        !r.full_refresh,
        rows_of(r.next) == rows_of(r.prev),
        r.next.cursor != r.prev.cursor,
    ensures
        r.frame_commands() == cursor_commands(r.next.cursor, r.spec_top()),
{
    let n = r.next.height as nat;
    lemma_equal_rows_no_commands(rows_of(r.next), rows_of(r.prev), r.spec_top(), n);
    assert(r.frame_commands() =~= cursor_commands(r.next.cursor, r.spec_top()));
}

/// The commands of frame row `y` when every row is repainted: the move to
/// its start, then its prints, from the style the rows before it left.
pub open spec fn row_segment(next: Seq<Seq<Cell>>, prev: Seq<Seq<Cell>>, top: u16, y: int) -> Seq<
    Command,
> {
    seq![row_start(top, y)] + row_commands(next[y], rows_commands(next, prev, true, top, y as nat).1).0
}

/// `seg` stands in `c` from index `i` on.
pub open spec fn occurs_at(c: Seq<Command>, seg: Seq<Command>, i: int) -> bool {
    0 <= i && i + seg.len() <= c.len() && c.subrange(i, i + seg.len()) == seg
}

/// `seg` stands in `c`, as one unbroken run.
pub open spec fn occurs(c: Seq<Command>, seg: Seq<Command>) -> bool {
    exists|i: int| #[trigger] occurs_at(c, seg, i)
}

proof fn lemma_occurs_in_prefix(c: Seq<Command>, d: Seq<Command>, seg: Seq<Command>)
    requires
        occurs(c, seg),
    ensures
        occurs(c + d, seg),
{
    let i = choose|i: int| #[trigger] occurs_at(c, seg, i);
    assert((c + d).subrange(i, i + seg.len()) =~= c.subrange(i, i + seg.len()));
    assert(occurs_at(c + d, seg, i));
}

proof fn lemma_full_rows_segments(next: Seq<Seq<Cell>>, prev: Seq<Seq<Cell>>, top: u16, n: nat)
    ensures
        forall|y: int|
            0 <= y < n ==> occurs(
                rows_commands(next, prev, true, top, n).0,
                #[trigger] row_segment(next, prev, top, y),
            ),
    decreases n,
{
    if n > 0 {
        lemma_full_rows_segments(next, prev, top, (n - 1) as nat);
        let c = rows_commands(next, prev, true, top, (n - 1) as nat).0;
        let last = row_segment(next, prev, top, n - 1);
        let all = rows_commands(next, prev, true, top, n).0;
        assert(all =~= c + last);
        assert forall|y: int| 0 <= y < n implies occurs(all, #[trigger] row_segment(next, prev, top, y)) by {
            if y < n - 1 {
                lemma_occurs_in_prefix(c, last, row_segment(next, prev, top, y));
            } else {
                assert(all.subrange(c.len() as int, (c.len() + last.len()) as int) =~= last);
                assert(occurs_at(all, last, c.len() as int));
            }
        }
    }
}

/// Once a full refresh is due, as after any resize (see `on_resize`), the
/// next `end` repaints every row of the region: its commands hold, for each
/// row, the move to its start followed at once by the prints of its cells.
pub proof fn lemma_full_refresh_repaints_rows(r: Renderer)
    requires
        r.wf(),
        r.full_refresh,
    ensures
        forall|y: int|
            0 <= y < r.next.height ==> occurs(
                r.frame_commands(),
                #[trigger] row_segment(rows_of(r.next), rows_of(r.prev), r.spec_top(), y),
            ),
{
    let n = r.next.height as nat;
    let top = r.spec_top();
    let nr = rows_of(r.next);
    let pr = rows_of(r.prev);
    lemma_full_rows_segments(nr, pr, top, n);
    let c = rows_commands(nr, pr, true, top, n).0;
    let tail = cursor_commands(r.next.cursor, top);
    assert(r.frame_commands() == c + tail);
    assert forall|y: int| 0 <= y < r.next.height implies occurs(
        r.frame_commands(),
        #[trigger] row_segment(nr, pr, top, y),
    ) by {
        lemma_occurs_in_prefix(c, tail, row_segment(nr, pr, top, y));
    }
}

/// Once a full refresh is due (as after any resize, see `on_resize`), the
/// next `end` moves to the start of every row of the region and repaints
/// it, whether or not its cells changed.
pub proof fn lemma_full_refresh_repaints_every_row(r: Renderer)
    requires
        r.wf(),
        r.full_refresh,
    ensures
        forall|y: int|
            0 <= y < r.next.height ==> r.frame_commands().contains(
                #[trigger] row_start(r.spec_top(), y),
            ),
{
    let n = r.next.height as nat;
    let top = r.spec_top();
    lemma_full_rows_all_moves(rows_of(r.next), rows_of(r.prev), top, n);
    let c = rows_commands(rows_of(r.next), rows_of(r.prev), true, top, n).0;
    let all = r.frame_commands();
    assert forall|y: int| 0 <= y < r.next.height implies all.contains(
        #[trigger] row_start(top, y),
    ) by {
        let i = choose|i: int| 0 <= i < c.len() && c[i] == row_start(top, y);
        assert(all[i] == c[i]);
    }
}

} // verus!
