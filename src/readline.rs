//! Single-line editor widget.

use crate::input::{KeyCode, KeyEvent};
use crate::keyaction::{KeyCombination, KeyMap, LegendAction, Modifiers};
use crate::renderer::{draw_row, Renderer};
use crate::style::{spec_cell_style, AnsiString, AnsiStyle};
use crate::text::string_of;
use vstd::prelude::*;

verus! {

/// An editing action.
#[derive(Clone, Copy, Debug, PartialEq, Eq, PartialOrd, Ord, Hash, Structural)]
pub enum Action {
    BackDeleteChar,
    DeleteChar,
    LeftChar,
    LeftWord,
    RightChar,
    RightWord,
    DelBackWord,
    GotoLineStart,
    GotoLineEnd,
    InsertChar,
    Complete,
}

/// In a legend, editing actions come in the order they are declared in,
/// under their own names.
impl LegendAction for Action {
    open spec fn rank(&self) -> u64 {
        match self {
            Action::BackDeleteChar => 0,
            Action::DeleteChar => 1,
            Action::LeftChar => 2,
            Action::LeftWord => 3,
            Action::RightChar => 4,
            Action::RightWord => 5,
            Action::DelBackWord => 6,
            Action::GotoLineStart => 7,
            Action::GotoLineEnd => 8,
            Action::InsertChar => 9,
            Action::Complete => 10,
        }
    }

    open spec fn label(&self) -> Seq<char> {
        match self {
            Action::BackDeleteChar => "BackDeleteChar"@,
            Action::DeleteChar => "DeleteChar"@,
            Action::LeftChar => "LeftChar"@,
            Action::LeftWord => "LeftWord"@,
            Action::RightChar => "RightChar"@,
            Action::RightWord => "RightWord"@,
            Action::DelBackWord => "DelBackWord"@,
            Action::GotoLineStart => "GotoLineStart"@,
            Action::GotoLineEnd => "GotoLineEnd"@,
            Action::InsertChar => "InsertChar"@,
            Action::Complete => "Complete"@,
        }
    }

    fn legend_rank(&self) -> (r: u64) {
        match self {
            Action::BackDeleteChar => 0,
            Action::DeleteChar => 1,
            Action::LeftChar => 2,
            Action::LeftWord => 3,
            Action::RightChar => 4,
            Action::RightWord => 5,
            Action::DelBackWord => 6,
            Action::GotoLineStart => 7,
            Action::GotoLineEnd => 8,
            Action::InsertChar => 9,
            Action::Complete => 10,
        }
    }

    fn legend_label(&self) -> (r: String) {
        match self {
            Action::BackDeleteChar => String::from_str("BackDeleteChar"),
            Action::DeleteChar => String::from_str("DeleteChar"),
            Action::LeftChar => String::from_str("LeftChar"),
            Action::LeftWord => String::from_str("LeftWord"),
            Action::RightChar => String::from_str("RightChar"),
            Action::RightWord => String::from_str("RightWord"),
            Action::DelBackWord => String::from_str("DelBackWord"),
            Action::GotoLineStart => String::from_str("GotoLineStart"),
            Action::GotoLineEnd => String::from_str("GotoLineEnd"),
            Action::InsertChar => String::from_str("InsertChar"),
            Action::Complete => String::from_str("Complete"),
        }
    }
}

/// The styles the editor paints with.
#[derive(Clone, Copy, Debug)]
pub struct StyleMap {
    pub main: AnsiStyle,
    pub overflow: AnsiStyle,
}

/// The longest text the editor holds: the cursor column must fit a `u16`.
pub const MAX_LEN: usize = 65535;

/// The start of the run of spaces that ends at `i`.
pub open spec fn skip_spaces_left(s: Seq<char>, i: int) -> int
    decreases i,
{
    if i > 0 && s[i - 1] == ' ' {
        skip_spaces_left(s, i - 1)
    } else {
        i
    }
}

/// The start of the run of non-space characters that ends at `i`.
pub open spec fn skip_word_left(s: Seq<char>, i: int) -> int
    decreases i,
{
    if i > 0 && s[i - 1] != ' ' {
        skip_word_left(s, i - 1)
    } else {
        i
    }
}

/// The end of the run of non-space characters that starts at `i`.
pub open spec fn skip_word_right(s: Seq<char>, i: int) -> int
    decreases s.len() - i,
{
    if 0 <= i < s.len() && s[i] != ' ' {
        skip_word_right(s, i + 1)
    } else {
        i
    }
}

/// The end of the run of spaces that starts at `i`.
pub open spec fn skip_spaces_right(s: Seq<char>, i: int) -> int
    decreases s.len() - i,
{
    if 0 <= i < s.len() && s[i] == ' ' {
        skip_spaces_right(s, i + 1)
    } else {
        i
    }
}

/// Where a move one word left from `c` lands: past the spaces just before
/// `c`, at the start of the word before them.
pub open spec fn left_word(s: Seq<char>, c: int) -> int {
    skip_word_left(s, skip_spaces_left(s, c))
}

/// Where a move one word right from `c` lands: past the rest of the word at
/// `c`, then past the spaces after it.
pub open spec fn right_word(s: Seq<char>, c: int) -> int {
    skip_spaces_right(s, skip_word_right(s, c))
}

proof fn lemma_left_bounds(s: Seq<char>, i: int)
    requires
        0 <= i <= s.len(),
    ensures
        0 <= skip_spaces_left(s, i) <= i,
        0 <= skip_word_left(s, i) <= i,
    decreases i,
{
    if i > 0 {
        lemma_left_bounds(s, i - 1);
    }
}

proof fn lemma_right_bounds(s: Seq<char>, i: int)
    requires
        0 <= i <= s.len(),
    ensures
        i <= skip_word_right(s, i) <= s.len(),
        i <= skip_spaces_right(s, i) <= s.len(),
    decreases s.len() - i,
{
    if i < s.len() {
        lemma_right_bounds(s, i + 1);
    }
}

/// The text and cursor after an action on `text` with the cursor at
/// `cursor`, for the key event `ev` that triggered it.
pub open spec fn applied(text: Seq<char>, cursor: int, action: Action, ev: KeyEvent) -> (Seq<char>, int) {
    match action {
        Action::InsertChar => match ev.code {
            KeyCode::Char(c) => if text.len() < MAX_LEN {
                (text.insert(cursor, c), cursor + 1)
            } else {
                (text, cursor)
            },
            _ => (text, cursor),
        },
        Action::BackDeleteChar => if cursor > 0 {
            (text.remove(cursor - 1), cursor - 1)
        } else {
            (text, cursor)
        },
        Action::DeleteChar => if cursor < text.len() {
            (text.remove(cursor), cursor)
        } else {
            (text, cursor)
        },
        Action::LeftChar => if cursor > 0 {
            (text, cursor - 1)
        } else {
            (text, cursor)
        },
        Action::RightChar => if cursor < text.len() {
            (text, cursor + 1)
        } else {
            (text, cursor)
        },
        Action::LeftWord => if cursor > 0 {
            (text, left_word(text, cursor))
        } else {
            (text, cursor)
        },
        Action::RightWord => if cursor < text.len() {
            (text, right_word(text, cursor))
        } else {
            (text, cursor)
        },
        Action::DelBackWord => if cursor > 0 {
            (
                text.subrange(0, left_word(text, cursor)) + text.subrange(cursor, text.len() as int),
                left_word(text, cursor),
            )
        } else {
            (text, cursor)
        },
        Action::GotoLineStart => (text, 0),
        Action::GotoLineEnd => (text, text.len() as int),
        Action::Complete => (text, cursor),
    }
}

/// The default bindings: Backspace and Delete delete, Left and Right move by
/// a character (by a word with control), control-w deletes a word back, Home
/// and End go to the ends of the line, Tab completes, and any character,
/// plain or shifted, is inserted.
pub open spec fn default_bindings() -> Map<KeyCombination, Action> {
    let none = Modifiers::spec_none();
    let ctrl = Modifiers { ctrl: true, ..none };
    let shift = Modifiers { shift: true, ..none };
    Map::empty()
        .insert(KeyCombination::Specific(KeyCode::Backspace, none), Action::BackDeleteChar)
        .insert(KeyCombination::Specific(KeyCode::Delete, none), Action::DeleteChar)
        .insert(KeyCombination::Specific(KeyCode::Left, none), Action::LeftChar)
        .insert(KeyCombination::Specific(KeyCode::Right, none), Action::RightChar)
        .insert(KeyCombination::Specific(KeyCode::Left, ctrl), Action::LeftWord)
        .insert(KeyCombination::Specific(KeyCode::Right, ctrl), Action::RightWord)
        .insert(KeyCombination::Specific(KeyCode::Char('w'), ctrl), Action::DelBackWord)
        .insert(KeyCombination::Specific(KeyCode::Home, none), Action::GotoLineStart)
        .insert(KeyCombination::Specific(KeyCode::End, none), Action::GotoLineEnd)
        .insert(KeyCombination::AllChars(none), Action::InsertChar)
        .insert(KeyCombination::AllChars(shift), Action::InsertChar)
        .insert(KeyCombination::Specific(KeyCode::Tab, none), Action::Complete)
}

/// The editor's state: its text, as characters, and the cursor, as the
/// index of the character it stands before.
pub struct ReadLine {
    cursor: u16,
    text: Vec<char>,
}

impl ReadLine {
    pub closed spec fn text(&self) -> Seq<char> {
        self.text@
    }

    pub closed spec fn cursor_pos(&self) -> int {
        self.cursor as int
    }

    /// The text fits `MAX_LEN` and the cursor stands within it.
    pub open spec fn wf(&self) -> bool {
        &&& self.text().len() <= MAX_LEN
        &&& self.cursor_pos() <= self.text().len()
    }

    /// The default style map: no colours.
    pub fn def_style_map() -> (r: StyleMap)
        ensures
            r.main == (AnsiStyle { foreground: None, background: None }),
            r.overflow == (AnsiStyle { foreground: None, background: None }),
    {
        StyleMap {
            main: AnsiStyle { foreground: None, background: None },
            overflow: AnsiStyle { foreground: None, background: None },
        }
    }

    /// The default bindings of the editing keys (see `default_bindings`).
    pub fn def_key_map() -> (r: KeyMap<Action>)
        ensures
            r.wf(),
            r.view() == default_bindings(),
    {
        let mut m: KeyMap<Action> = KeyMap::new();
        m.add_no_mods(KeyCode::Backspace, Action::BackDeleteChar);
        m.add_no_mods(KeyCode::Delete, Action::DeleteChar);
        m.add_no_mods(KeyCode::Left, Action::LeftChar);
        m.add_no_mods(KeyCode::Right, Action::RightChar);
        m.add_ctrl(KeyCode::Left, Action::LeftWord);
        m.add_ctrl(KeyCode::Right, Action::RightWord);
        m.add_ctrl(KeyCode::Char('w'), Action::DelBackWord);
        m.add_no_mods(KeyCode::Home, Action::GotoLineStart);
        m.add_no_mods(KeyCode::End, Action::GotoLineEnd);
        m.add_char_no_handler(Action::InsertChar);
        m.add_char_shift(Action::InsertChar);
        m.add_no_mods(KeyCode::Tab, Action::Complete);
        m
    }

    /// An empty editor.
    pub fn new() -> (r: ReadLine)
        ensures
            r.wf(),
            r.text() == Seq::<char>::empty(),
            r.cursor_pos() == 0,
            r.cursor_pos() <= r.text().len(),
    {
        ReadLine { cursor: 0, text: Vec::new() }
    }

    /// The text being edited.
    pub fn strval(&self) -> (r: String)
        ensures
            r@ == self.text(),
    {
        string_of(&self.text)
    }

    /// Paints the whole text at column `x` of row `y`, in the main style.
    pub fn draw(&self, x: u16, y: u16, _length: u16, renderer: &mut Renderer, style_map: &StyleMap)
        requires
            old(renderer).wf(),
        ensures
            final(renderer).wf(),
            final(renderer).term_size == old(renderer).term_size,
            final(renderer).config == old(renderer).config,
            final(renderer).prev == old(renderer).prev,
            final(renderer).full_refresh == old(renderer).full_refresh,
            final(renderer).next.cursor == old(renderer).next.cursor,
            y >= old(renderer).next.height ==> final(renderer).next.cells@
                == old(renderer).next.cells@,
            y < old(renderer).next.height ==> {
                &&& final(renderer).next.cells@.len() == old(renderer).next.cells@.len()
                &&& forall|j: int| 0 <= j < old(renderer).next.cells@.len() && j != y
                    ==> #[trigger] final(renderer).next.cells@[j] == old(renderer).next.cells@[j]
                &&& final(renderer).next.cells@[y as int]@ == draw_row(
                    old(renderer).next.cells@[y as int]@,
                    x as int,
                    self.text(),
                    spec_cell_style(style_map.main),
                ).0
            },
    {
        let s = AnsiString { style: style_map.main, text: string_of(&self.text) };
        renderer.draw_ansi(x, y, &s);
    }

    /// The column, from the start of the text, where the terminal cursor goes.
    pub fn get_cursor(&self) -> (r: u16)
        ensures
            r == self.cursor_pos(),
            self.wf() ==> r <= self.text().len(),
    {
        self.cursor
    }

    fn cursor(&self) -> (r: usize)
        requires
            self.wf(),
        ensures
            r == self.cursor_pos(),
    {
        if (self.cursor as usize) < self.text.len() {
            self.cursor as usize
        } else {
            self.text.len()
        }
    }

    /// Applies an editing action; `event` is the key that triggered it (its
    /// character is the one `InsertChar` inserts).
    pub fn apply_action(&mut self, action: &Action, event: KeyEvent)
        requires
            old(self).wf(),
        ensures
            final(self).wf(),
            final(self).cursor_pos() <= final(self).text().len() <= MAX_LEN,
            (final(self).text(), final(self).cursor_pos()) == applied(
                old(self).text(),
                old(self).cursor_pos(),
                *action,
                event,
            ),
    {
        let cursor = self.cursor();
        match action {
            Action::InsertChar => {
                if let KeyCode::Char(c) = event.code {
                    if self.text.len() < MAX_LEN {
                        self.text.insert(cursor, c);
                        self.cursor = self.cursor + 1;
                    }
                }
            },
            Action::BackDeleteChar => {
                if cursor > 0 {
                    self.text.remove(cursor - 1);
                    self.cursor = (cursor - 1) as u16;
                }
            },
            Action::DeleteChar => {
                if cursor < self.text.len() {
                    self.text.remove(cursor);
                }
            },
            Action::LeftChar => {
                if cursor > 0 {
                    self.cursor = (cursor - 1) as u16;
                }
            },
            Action::LeftWord => {
                if let Some(c) = self.left_word_offset() {
                    self.cursor = c as u16;
                }
            },
            Action::RightWord => {
                if let Some(c) = self.right_word_offset() {
                    self.cursor = c as u16;
                }
            },
            Action::DelBackWord => {
                if let Some(target) = self.left_word_offset() {
                    let ghost t = self.text@;
                    let mut k: usize = 0;
                    let n = cursor - target;
                    while k < n
                        invariant
                            target + n == cursor,
                            cursor <= t.len(),
                            k <= n,
                            self.text@ == t.subrange(0, target as int) + t.subrange(
                                target + k,
                                t.len() as int,
                            ),
                        decreases n - k,
                    {
                        self.text.remove(target);
                        k += 1;
                        proof {
                            assert(self.text@ =~= t.subrange(0, target as int) + t.subrange(
                                target + k,
                                t.len() as int,
                            ));
                        }
                    }
                    self.cursor = target as u16;
                }
            },
            Action::GotoLineStart => {
                self.cursor = 0;
            },
            Action::GotoLineEnd => {
                self.cursor = self.text.len() as u16;
            },
            Action::RightChar => {
                if cursor < self.text.len() {
                    self.cursor = (cursor + 1) as u16;
                }
            },
            Action::Complete => {},
        }
    }

    /// Where a move one word left lands, or `None` at the start of the text.
    fn left_word_offset(&self) -> (r: Option<usize>)
        requires
            self.wf(),
        ensures
            self.cursor_pos() == 0 ==> r is None,
            self.cursor_pos() > 0 ==> r == Some(left_word(self.text(), self.cursor_pos()) as usize),
            self.cursor_pos() > 0 ==> 0 <= left_word(self.text(), self.cursor_pos()) < self.cursor_pos(),
    {
        let v = &self.text;
        let cursor = self.cursor();
        if cursor == 0 {
            return None;
        }
        proof {
            lemma_left_bounds(v@, cursor as int);
        }
        let mut i: usize = cursor;
        while i > 0 && v[i - 1] == ' '
            invariant
                i <= cursor,
                cursor <= v@.len(),
                skip_spaces_left(v@, i as int) == skip_spaces_left(v@, cursor as int),
            decreases i,
        {
            i -= 1;
        }
        let ghost sp = i as int;
        proof {
            lemma_left_bounds(v@, sp);
        }
        while i > 0 && v[i - 1] != ' '
            invariant
                i <= sp,
                sp <= v@.len(),
                skip_word_left(v@, i as int) == skip_word_left(v@, sp),
            decreases i,
        {
            i -= 1;
        }
        proof {
            if sp == cursor {
                assert(v@[cursor - 1] != ' ');
            }
        }
        Some(i)
    }

    /// Where a move one word right lands, or `None` at the end of the text.
    fn right_word_offset(&self) -> (r: Option<usize>)
        requires
            self.wf(),
        ensures
            self.cursor_pos() >= self.text().len() ==> r is None,
            self.cursor_pos() < self.text().len() ==> r == Some(
                right_word(self.text(), self.cursor_pos()) as usize,
            ),
            self.cursor_pos() < self.text().len() ==> 0 <= right_word(self.text(), self.cursor_pos())
                <= self.text().len(),
    {
        let v = &self.text;
        let cursor = self.cursor();
        if cursor >= v.len() {
            return None;
        }
        proof {
            lemma_right_bounds(v@, cursor as int);
        }
        let mut i: usize = cursor;
        while i < v.len() && v[i] != ' '
            invariant
                cursor <= i <= v@.len(),
                skip_word_right(v@, i as int) == skip_word_right(v@, cursor as int),
            decreases v@.len() - i,
        {
            i += 1;
        }
        let ghost wr = i as int;
        proof {
            lemma_right_bounds(v@, wr);
        }
        while i < v.len() && v[i] == ' '
            invariant
                wr <= i <= v@.len(),
                skip_spaces_right(v@, i as int) == skip_spaces_right(v@, wr),
            decreases v@.len() - i,
        {
            i += 1;
        }
        Some(i)
    }
}

/// Deleting the character before the cursor and typing it again gives back
/// the same text and cursor.
pub proof fn lemma_delete_then_insert(text: Seq<char>, cursor: int, ev: KeyEvent)
    requires
        0 < cursor <= text.len() <= MAX_LEN,
        ev.code == KeyCode::Char(text[cursor - 1]),
    ensures
        ({
            let (t1, c1) = applied(text, cursor, Action::BackDeleteChar, ev);
            applied(t1, c1, Action::InsertChar, ev)
        }) == (text, cursor),
{
    let (t1, c1) = applied(text, cursor, Action::BackDeleteChar, ev);
    assert(t1.insert(c1, text[cursor - 1]) =~= text);
}

} // verus!
