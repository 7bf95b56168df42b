use masof::buffer::{char_cells, Cell, CellContent, VirtualBuffer};
use masof::input::{CONTROL, SHIFT};
use masof::keyaction::{event_modifiers, legend, LegendEntry, Modifiers, NamedAction};
use masof::readline::{Action, StyleMap};
use masof::renderer::{Command, Config, Drawable};
use masof::style::{cell_style, convert_color, AnsiString, AnsiStyle, Colour};
use masof::text::string_of;
use masof::{Color, Event, KeyCode, KeyCombination, KeyEvent, KeyMap, ReadLine, Renderer, Style};

fn key(code: KeyCode) -> KeyEvent {
    KeyEvent::new(code, 0)
}

fn renderer(w: u16, h: u16) -> Renderer {
    let mut r = Renderer::default();
    r.event(&Event::Resize(w, h));
    r
}

fn editor(text: &str, cursor_at_end: bool) -> ReadLine {
    let mut r = ReadLine::new();
    for c in text.chars() {
        r.apply_action(&Action::InsertChar, key(KeyCode::Char(c)));
    }
    if !cursor_at_end {
        r.apply_action(&Action::GotoLineStart, key(KeyCode::Home));
    }
    r
}

fn content(b: &VirtualBuffer, x: usize, y: usize) -> Option<char> {
    match b.cells[y][x] {
        Cell::Content(CellContent { c, .. }) => Some(c),
        Cell::WideExtension => None,
    }
}

#[test]
fn char_widths_come_from_the_width_table() {
    assert_eq!(char_cells('a'), 1);
    assert_eq!(char_cells('世'), 2);
    assert_eq!(char_cells('\u{1}'), 1);
}

#[test]
fn wide_char_at_last_column_is_refused() {
    let mut b = VirtualBuffer::new(4, 2);
    let before = b.cells.clone();
    assert_eq!(b.putchar(3, 0, '世', Style::default()), None);
    assert_eq!(b.cells, before);
    assert_eq!(b.putchar(2, 0, '世', Style::default()), Some(2));
    assert_eq!(content(&b, 2, 0), Some('世'));
    assert_eq!(b.cells[0][3], Cell::WideExtension);
}

#[test]
fn putchar_outside_rows_is_refused() {
    let mut b = VirtualBuffer::new(4, 2);
    let before = b.cells.clone();
    assert_eq!(b.putchar(0, 2, 'a', Style::default()), None);
    assert_eq!(b.cells, before);
}

#[test]
fn narrow_char_over_wide_lead_clears_extension() {
    let mut b = VirtualBuffer::new(4, 1);
    assert_eq!(b.putchar(0, 0, '世', Style::default()), Some(2));
    assert_eq!(b.putchar(0, 0, 'a', Style::default()), Some(1));
    assert_eq!(content(&b, 0, 0), Some('a'));
    assert_eq!(content(&b, 1, 0), Some(' '));
}

#[test]
fn narrow_char_over_wide_tail_clears_lead() {
    let mut b = VirtualBuffer::new(4, 1);
    assert_eq!(b.putchar(0, 0, '世', Style::default()), Some(2));
    assert_eq!(b.putchar(1, 0, 'b', Style::default()), Some(1));
    assert_eq!(content(&b, 0, 0), Some(' '));
    assert_eq!(content(&b, 1, 0), Some('b'));
}

#[test]
fn resize_and_clear_blank_the_grid() {
    let mut b = VirtualBuffer::new(3, 1);
    b.putchar(0, 0, 'x', Style::default());
    b.resize(3, 1);
    assert_eq!(content(&b, 0, 0), Some('x'));
    b.resize(5, 2);
    assert_eq!(b.cells.len(), 2);
    assert_eq!(b.cells[1].len(), 5);
    assert_eq!(content(&b, 0, 0), Some(' '));
    b.putchar(1, 1, 'y', Style::default());
    b.cursor = Some((1, 1));
    b.clear();
    assert_eq!(content(&b, 1, 1), Some(' '));
    assert_eq!(b.cursor, None);
}

#[test]
fn draw_str_stops_at_the_edge() {
    let mut r = renderer(5, 2);
    r.begin();
    assert_eq!(r.draw_str(2, 0, "abcd", Style::default()), 3);
    assert_eq!(content(&r.next, 4, 0), Some('c'));
    assert_eq!(r.draw_str(0, 1, "a世世", Style::default()), 5);
    assert_eq!(r.draw_str(0, 5, "a", Style::default()), 0);
}

#[test]
fn draw_str_drops_wide_char_at_last_column() {
    let mut r = renderer(4, 1);
    r.begin();
    assert_eq!(r.draw_str(3, 0, "世a", Style::default()), 0);
    assert_eq!(content(&r.next, 3, 0), Some(' '));
}

fn moves(cmds: &[Command]) -> usize {
    cmds.iter().filter(|c| matches!(c, Command::MoveTo(_, _))).count()
}

#[test]
fn unchanged_frame_emits_no_row_repaint() {
    let mut r = renderer(4, 3);
    r.begin();
    r.draw_str(0, 0, "hi", Style::default());
    let first = r.end();
    assert_eq!(moves(&first), 3);
    r.begin();
    r.draw_str(0, 0, "hi", Style::default());
    let second = r.end();
    assert_eq!(second, vec![]);
}

#[test]
fn unchanged_frame_with_cursor_emits_nothing() {
    let mut r = renderer(4, 3);
    r.begin();
    r.draw_str(0, 1, "hi", Style::default());
    r.set_cursor(Some((2, 1)));
    let first = r.end();
    assert_eq!(&first[first.len() - 2..], &[Command::MoveTo(2, 1), Command::ShowCursor]);
    r.begin();
    r.draw_str(0, 1, "hi", Style::default());
    r.set_cursor(Some((2, 1)));
    assert_eq!(r.end(), vec![]);
    r.begin();
    r.draw_str(0, 1, "hi", Style::default());
    r.set_cursor(Some((1, 1)));
    assert_eq!(r.end(), vec![Command::MoveTo(1, 1), Command::ShowCursor]);
    r.begin();
    r.draw_str(0, 1, "hi", Style::default());
    assert_eq!(r.end(), vec![Command::HideCursor]);
}

#[test]
fn changed_row_is_the_only_one_repainted() {
    let mut r = renderer(3, 3);
    r.begin();
    r.end();
    r.begin();
    r.draw_str(0, 1, "ab", Style::default());
    r.set_cursor(Some((2, 1)));
    let cmds = r.end();
    assert_eq!(
        cmds,
        vec![
            Command::MoveTo(0, 1),
            Command::Print('a'),
            Command::Print('b'),
            Command::Print(' '),
            Command::MoveTo(2, 1),
            Command::ShowCursor,
        ]
    );
}

#[test]
fn style_changes_are_emitted_per_aspect() {
    let mut r = renderer(3, 1);
    r.begin();
    r.end();
    r.begin();
    let red = Style { foreground_color: Some(Color::Red), background_color: None, attributes: 0 };
    let red_bold = Style { attributes: 1, ..red };
    r.draw_str(0, 0, "a", red);
    r.draw_str(1, 0, "b", red_bold);
    let cmds = r.end();
    assert_eq!(
        cmds,
        vec![
            Command::MoveTo(0, 0),
            Command::SetForegroundColor(Color::Red),
            Command::Print('a'),
            Command::SetAttributes(1),
            Command::Print('b'),
            Command::SetForegroundColor(Color::Reset),
            Command::SetAttributes(0),
            Command::Print(' '),
            Command::HideCursor,
        ]
    );
}

#[test]
fn wide_char_prints_once() {
    let mut r = renderer(2, 1);
    r.begin();
    r.draw_str(0, 0, "世", Style::default());
    let cmds = r.end();
    assert_eq!(cmds, vec![Command::MoveTo(0, 0), Command::Print('世'), Command::HideCursor]);
}

#[test]
fn resize_recovery_repaints_every_row() {
    let mut r = renderer(3, 4);
    r.begin();
    r.end();
    r.begin();
    r.end();
    r.event(&Event::Resize(3, 2));
    r.event(&Event::Resize(3, 4));
    assert!(r.full_refresh);
    r.begin();
    let cmds = r.end();
    assert_eq!(moves(&cmds), 4);
    assert!(!r.full_refresh);
    r.begin();
    assert_eq!(r.end(), vec![]);
}

#[test]
fn other_events_are_ignored() {
    let mut r = renderer(3, 4);
    r.event(&Event::Mouse);
    r.event(&Event::Key(key(KeyCode::Enter)));
    assert_eq!(r.width(), 3);
    assert_eq!(r.height(), 4);
}

#[test]
fn bottom_screen_region() {
    let mut r = Renderer::default().bottom_screen(3);
    let on = r.term_on(10, 20, (0, 5));
    assert_eq!(on.len(), 1 + 3 * 3);
    assert_eq!(on[0], Command::HideCursor);
    assert_eq!(r.height(), 3);
    assert!(matches!(r.config, Config::BottomScreen(3, Some((0, 5)))));
    r.begin();
    r.set_cursor(Some((1, 1)));
    let cmds = r.end();
    assert_eq!(cmds[0], Command::MoveTo(0, 5));
    assert_eq!(cmds[cmds.len() - 2], Command::MoveTo(1, 6));
    let off = r.term_off();
    assert_eq!(off[0], Command::MoveTo(0, 5));
    assert_eq!(off[off.len() - 1], Command::ShowCursor);
    assert_eq!(off.len(), 1 + 3 * 3 + 2);
}

#[test]
fn bottom_screen_at_terminal_bottom_is_moved_up() {
    let mut r = Renderer::default();
    r.set_bottom_screen(3);
    let on = r.term_on(10, 20, (0, 19));
    assert_eq!(on.len(), 1 + 2 * 3);
    r.begin();
    let cmds = r.end();
    assert_eq!(cmds[0], Command::MoveTo(0, 17));
    r.event(&Event::Resize(10, 25));
    assert!(matches!(r.config, Config::BottomScreen(3, Some((0, 24)))));
}

#[test]
fn full_screen_term_on_and_off() {
    let mut r = Renderer::default();
    assert_eq!(r.term_on(80, 24, (0, 0)), vec![Command::HideCursor, Command::EnterAlternateScreen]);
    assert_eq!(r.width(), 80);
    assert_eq!(r.height(), 24);
    assert_eq!(r.term_off(), vec![Command::LeaveAlternateScreen, Command::ShowCursor]);
}

#[test]
fn ansi_colours_convert() {
    assert_eq!(convert_color(Colour::Purple), Color::Magenta);
    assert_eq!(convert_color(Colour::Fixed(7)), Color::AnsiValue(7));
    assert_eq!(convert_color(Colour::RGB(1, 2, 3)), Color::Rgb { r: 1, g: 2, b: 3 });
    let s = cell_style(AnsiStyle { foreground: Some(Colour::Red), background: Some(Colour::Blue) });
    assert_eq!(s.foreground_color, Some(Color::Red));
    assert_eq!(s.background_color, Some(Color::Blue));
    assert_eq!(s.attributes, 0);
}

#[test]
fn draw_ansis_draws_in_sequence() {
    let mut r = renderer(6, 1);
    r.begin();
    let spans = vec![
        AnsiString { style: AnsiStyle { foreground: Some(Colour::Green), background: None }, text: "ab".to_string() },
        AnsiString { style: AnsiStyle { foreground: None, background: None }, text: "cd".to_string() },
    ];
    assert_eq!(r.draw_ansis(1, 0, &spans), 4);
    assert_eq!(r.draw(0, 0, "z"), 1);
    assert_eq!(spans[0].draw(&mut r, 5, 0), 1);
    assert_eq!(content(&r.next, 4, 0), Some('d'));
    assert_eq!(content(&r.next, 5, 0), Some('a'));
    assert_eq!(content(&r.next, 0, 0), Some('z'));
}

#[test]
fn modifier_bits() {
    assert_eq!(event_modifiers(0), Modifiers::none());
    assert_eq!(event_modifiers(CONTROL | SHIFT), Modifiers { ctrl: true, alt: false, shift: true });
    assert_eq!(Modifiers::none().ctrl().shift(), Modifiers { ctrl: true, alt: false, shift: true });
}

#[test]
fn exact_binding_wins_over_wildcard() {
    let mut m: KeyMap<u32> = KeyMap::new();
    m.add_char_no_handler(1);
    m.add_no_mods(KeyCode::Char('a'), 2);
    assert_eq!(m.get_action(key(KeyCode::Char('a'))), Some(&2));
    assert_eq!(m.get_action(key(KeyCode::Char('b'))), Some(&1));
    assert_eq!(m.get_action(key(KeyCode::Enter)), None);
    assert_eq!(m.get_action(KeyEvent::new(KeyCode::Char('a'), CONTROL)), None);
}

#[test]
fn rebinding_replaces() {
    let mut m: KeyMap<u32> = KeyMap::default();
    m.add_ctrl(KeyCode::Char('x'), 1);
    m.add_ctrl(KeyCode::Char('x'), 3);
    m.add_shift(KeyCode::Tab, 4);
    m.add_char_shift(5);
    assert_eq!(m.map().len(), 3);
    assert_eq!(m.get_action(KeyEvent::new(KeyCode::Char('x'), CONTROL)), Some(&3));
    assert_eq!(m.get_action(KeyEvent::new(KeyCode::Tab, SHIFT)), Some(&4));
    assert_eq!(m.get_action(KeyEvent::new(KeyCode::Char('Q'), SHIFT)), Some(&5));
}

#[test]
fn combination_text() {
    let c = KeyCombination::Specific(KeyCode::Char('s'), Modifiers::none().ctrl());
    assert_eq!(c.to_string(), "C-s");
    let all = Modifiers { ctrl: true, alt: true, shift: true };
    assert_eq!(KeyCombination::Specific(KeyCode::F(12), all).to_string(), "C-M-S-F12");
    assert_eq!(KeyCombination::Specific(KeyCode::F(255), Modifiers::none()).to_string(), "F255");
    assert_eq!(KeyCombination::Specific(KeyCode::Char(' '), Modifiers::none()).to_string(), "Space");
    assert_eq!(KeyCombination::Specific(KeyCode::Char(','), Modifiers::none()).to_string(), "','");
    assert_eq!(KeyCombination::Specific(KeyCode::Null, Modifiers::none()).to_string(), "<null>");
    assert_eq!(KeyCombination::AllChars(Modifiers::none()).to_string(), "?");
}

fn named(rank: u64, name: &str) -> NamedAction {
    NamedAction::new(rank, name.to_string())
}

#[test]
fn describe_groups_by_action() {
    let mut m: KeyMap<NamedAction> = KeyMap::new();
    m.add_no_mods(KeyCode::Enter, named(1, "Submit"));
    m.add_no_mods(KeyCode::Char('q'), named(0, "Quit"));
    m.add_ctrl(KeyCode::Char('s'), named(1, "Submit"));
    let mut out = String::new();
    m.describe(&mut out);
    assert_eq!(out, "    q                  - Quit\n    Enter / C-s        - Submit\n\n");
}

#[test]
fn describe_shows_char_placeholder_once() {
    let mut m: KeyMap<NamedAction> = KeyMap::new();
    m.add_char_no_handler(named(2, "Type"));
    m.add_char_shift(named(2, "Type"));
    m.add_no_mods(KeyCode::Char('x'), named(2, "Type"));
    let mut out = String::new();
    m.describe(&mut out);
    assert_eq!(out, "    x / <char>         - Type\n\n");
}

#[test]
fn describe_editing_actions_in_declared_order() {
    let m = ReadLine::def_key_map();
    let mut out = String::from("Keys:\n");
    m.describe(&mut out);
    let lines: Vec<&str> = out.lines().collect();
    assert_eq!(lines[0], "Keys:");
    assert_eq!(lines[1], "    Backspace          - BackDeleteChar");
    assert_eq!(lines[10], "    <char>             - InsertChar");
    assert_eq!(lines[11], "    Tab                - Complete");
    assert_eq!(lines.len(), 13);
    assert_eq!(lines[12], "");
}

#[test]
fn describe_ignores_binding_order() {
    let mut m1: KeyMap<NamedAction> = KeyMap::new();
    m1.add_ctrl(KeyCode::Char('s'), named(1, "Submit"));
    m1.add_no_mods(KeyCode::Up, named(3, "b"));
    m1.add_no_mods(KeyCode::Enter, named(1, "Submit"));
    m1.add_no_mods(KeyCode::Down, named(2, "a"));
    let mut m2: KeyMap<NamedAction> = KeyMap::new();
    m2.add_no_mods(KeyCode::Down, named(2, "a"));
    m2.add_no_mods(KeyCode::Enter, named(1, "Submit"));
    m2.add_no_mods(KeyCode::Up, named(3, "b"));
    m2.add_ctrl(KeyCode::Char('s'), named(1, "Submit"));
    let mut o1 = String::from(">");
    let mut o2 = String::from(">");
    m1.describe(&mut o1);
    m2.describe(&mut o2);
    assert_eq!(o1, o2);
    assert_eq!(
        o1,
        ">    Enter / C-s        - Submit\n    Down               - a\n    Up                 - b\n\n"
    );
}

#[test]
fn legend_of_nothing_is_an_empty_line() {
    assert_eq!(legend(&vec![]), "\n");
    let all = Modifiers { ctrl: true, alt: true, shift: true };
    let long = vec![
        LegendEntry { rank: 4, label: "L".to_string(), combo: KeyCombination::Specific(KeyCode::PageDown, all) },
        LegendEntry { rank: 1, label: "K".to_string(), combo: KeyCombination::Specific(KeyCode::Esc, all) },
        LegendEntry { rank: 4, label: "L".to_string(), combo: KeyCombination::Specific(KeyCode::F(1), Modifiers::none()) },
    ];
    assert_eq!(legend(&long), "    C-M-S-Esc          - K\n    C-M-S-PageDown / F1  - L\n\n");
}

#[test]
fn editor_round_trip() {
    let mut r = editor("hello", true);
    assert_eq!(r.get_cursor(), 5);
    r.apply_action(&Action::BackDeleteChar, key(KeyCode::Backspace));
    assert_eq!(r.strval(), "hell");
    assert_eq!(r.get_cursor(), 4);
    r.apply_action(&Action::InsertChar, key(KeyCode::Char('o')));
    assert_eq!(r.strval(), "hello");
    assert_eq!(r.get_cursor(), 5);
}

#[test]
fn word_motion() {
    let mut r = editor("ab  cd ef", true);
    assert_eq!(r.get_cursor(), 9);
    r.apply_action(&Action::LeftWord, key(KeyCode::Left));
    assert_eq!(r.get_cursor(), 7);
    r.apply_action(&Action::LeftWord, key(KeyCode::Left));
    assert_eq!(r.get_cursor(), 4);
    r.apply_action(&Action::RightWord, key(KeyCode::Right));
    assert_eq!(r.get_cursor(), 7);
    r.apply_action(&Action::RightWord, key(KeyCode::Right));
    assert_eq!(r.get_cursor(), 9);
    r.apply_action(&Action::RightWord, key(KeyCode::Right));
    assert_eq!(r.get_cursor(), 9);
}

#[test]
fn left_word_from_spaces_at_start() {
    let mut r = editor("   ab", false);
    r.apply_action(&Action::RightChar, key(KeyCode::Right));
    r.apply_action(&Action::RightChar, key(KeyCode::Right));
    r.apply_action(&Action::LeftWord, key(KeyCode::Left));
    assert_eq!(r.get_cursor(), 0);
    r.apply_action(&Action::LeftWord, key(KeyCode::Left));
    assert_eq!(r.get_cursor(), 0);
}

#[test]
fn delete_back_word() {
    let mut r = editor("ab  cd ef", true);
    r.apply_action(&Action::LeftChar, key(KeyCode::Left));
    r.apply_action(&Action::DelBackWord, key(KeyCode::Char('w')));
    assert_eq!(r.strval(), "ab  cd f");
    assert_eq!(r.get_cursor(), 7);
    r.apply_action(&Action::DelBackWord, key(KeyCode::Char('w')));
    assert_eq!(r.strval(), "ab  f");
    assert_eq!(r.get_cursor(), 4);
}

#[test]
fn delete_and_clamped_motion() {
    let mut r = editor("héllo", false);
    r.apply_action(&Action::LeftChar, key(KeyCode::Left));
    assert_eq!(r.get_cursor(), 0);
    r.apply_action(&Action::BackDeleteChar, key(KeyCode::Backspace));
    assert_eq!(r.strval(), "héllo");
    r.apply_action(&Action::RightChar, key(KeyCode::Right));
    r.apply_action(&Action::DeleteChar, key(KeyCode::Delete));
    assert_eq!(r.strval(), "hllo");
    assert_eq!(r.get_cursor(), 1);
    r.apply_action(&Action::GotoLineEnd, key(KeyCode::End));
    assert_eq!(r.get_cursor(), 4);
    r.apply_action(&Action::DeleteChar, key(KeyCode::Delete));
    r.apply_action(&Action::RightChar, key(KeyCode::Right));
    assert_eq!(r.get_cursor(), 4);
    r.apply_action(&Action::Complete, key(KeyCode::Tab));
    r.apply_action(&Action::InsertChar, key(KeyCode::Enter));
    assert_eq!(r.strval(), "hllo");
    assert_eq!(r.get_cursor(), 4);
}

#[test]
fn multibyte_insert_in_middle() {
    let mut r = editor("ab", false);
    r.apply_action(&Action::RightChar, key(KeyCode::Right));
    r.apply_action(&Action::InsertChar, key(KeyCode::Char('世')));
    assert_eq!(r.strval(), "a世b");
    assert_eq!(r.get_cursor(), 2);
}

#[test]
fn default_key_map_binds_editing_keys() {
    let m = ReadLine::def_key_map();
    assert_eq!(m.get_action(key(KeyCode::Backspace)), Some(&Action::BackDeleteChar));
    assert_eq!(m.get_action(KeyEvent::new(KeyCode::Char('w'), CONTROL)), Some(&Action::DelBackWord));
    assert_eq!(m.get_action(key(KeyCode::Char('z'))), Some(&Action::InsertChar));
    assert_eq!(m.get_action(KeyEvent::new(KeyCode::Char('Z'), SHIFT)), Some(&Action::InsertChar));
    assert_eq!(m.get_action(key(KeyCode::Tab)), Some(&Action::Complete));
    assert_eq!(m.get_action(key(KeyCode::Up)), None);
}

#[test]
fn editor_draws_its_text() {
    let mut r = renderer(6, 2);
    r.begin();
    let e = editor("hi", true);
    let styles: StyleMap = ReadLine::def_style_map();
    e.draw(1, 1, 5, &mut r, &styles);
    assert_eq!(content(&r.next, 1, 1), Some('h'));
    assert_eq!(content(&r.next, 2, 1), Some('i'));
}

#[test]
fn string_of_chars() {
    assert_eq!(string_of(&vec!['a', '世', 'b']), "a世b");
    assert_eq!(string_of(&vec![]), "");
}

#[test]
fn control_and_ascii_widths() {
    assert_eq!(char_cells(' '), 1);
    assert_eq!(char_cells('~'), 1);
    assert_eq!(char_cells('\u{7f}'), 1);
    assert_eq!(char_cells('\u{9f}'), 1);
    assert_eq!(char_cells('\u{3000}'), 2);
}

#[test]
fn requested_full_refresh_repaints_unchanged_rows() {
    let mut r = renderer(2, 2);
    r.begin();
    r.end();
    r.request_full_refresh();
    assert!(r.full_refresh);
    r.begin();
    let cmds = r.end();
    assert_eq!(moves(&cmds), 2);
}

#[test]
fn styled_pair_draws_in_its_style() {
    let mut r = renderer(4, 1);
    r.begin();
    let blue = Style { foreground_color: Some(Color::Blue), background_color: None, attributes: 0 };
    assert_eq!(r.draw(1, 0, ("xyz".to_string(), blue)), 3);
    match r.next.cells[0][2] {
        Cell::Content(cc) => {
            assert_eq!(cc.c, 'y');
            assert_eq!(cc.style, blue);
        }
        Cell::WideExtension => panic!("expected content"),
    }
    let text = "ab".to_string();
    assert_eq!(r.draw(0, 0, &text), 2);
    assert_eq!(r.draw(0, 3, "ab"), 0);
}
