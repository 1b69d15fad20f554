use notes::cursor::{move_cursor, Direction};
use notes::draft::{Draft, DraftCommand};
use notes::export::{export_notes, kept_first_line};
use notes::keys::{Event, KeyCode, KeyEvent, KeyKind, Modifiers};
use notes::notebook::{Command, Mode, Notebook};
use notes::prompt::{parse_number, NumberPrompt, NumberReply, TextPrompt, TextReply};
use notes::resident::{initial_roster, Resident};
use notes::bytes::{char_byte_len, char_index_at, checked_line_byte_len, is_char_boundary, line_byte_len};
use notes::text::{
    chars_to_string, is_white_space, join_with_newlines, note_file_name, note_lines, push_decimal,
    room_name, trim_end_chars,
};

fn chars(s: &str) -> Vec<char> {
    s.chars().collect()
}

fn lines(ls: &[&str]) -> Vec<Vec<char>> {
    ls.iter().map(|l| chars(l)).collect()
}

fn text(v: &[char]) -> String {
    v.iter().collect()
}

fn key(code: KeyCode, modifiers: Modifiers, kind: KeyKind) -> Event {
    Event::Key(KeyEvent { code, modifiers, kind })
}

fn press(code: KeyCode) -> Event {
    key(code, Modifiers::Plain, KeyKind::Press)
}

fn ctrl(c: char) -> Event {
    key(KeyCode::Char(c), Modifiers::Control, KeyKind::Press)
}

fn names() -> Vec<Vec<char>> {
    (1..=11).map(|i| chars(&format!("Room {}", i))).collect()
}

fn editing(note: &[&str]) -> Notebook {
    let mut nb = Notebook::new(names());
    nb.open_room(3, lines(note));
    nb
}

// ---- cursor ----

#[test]
fn cursor_left_moves_back_within_a_line() {
    let content = lines(&["Title", "abc"]);
    let (mut col, mut line) = (2usize, 1usize);
    move_cursor(&content, &mut col, &mut line, Direction::Left);
    assert_eq!((line, col), (1, 1));
}

#[test]
fn cursor_left_at_line_start_goes_to_end_of_previous_line() {
    let content = lines(&["Title", "abc", "de"]);
    let (mut col, mut line) = (0usize, 2usize);
    move_cursor(&content, &mut col, &mut line, Direction::Left);
    assert_eq!((line, col), (1, 3));
}

#[test]
fn cursor_never_enters_the_first_line_from_the_left_or_above() {
    let content = lines(&["Title", "abc"]);
    let (mut col, mut line) = (0usize, 1usize);
    move_cursor(&content, &mut col, &mut line, Direction::Left);
    assert_eq!((line, col), (1, 0));
    move_cursor(&content, &mut col, &mut line, Direction::Up);
    assert_eq!((line, col), (1, 0));
}

#[test]
fn cursor_right_at_line_end_goes_to_next_line_start() {
    let content = lines(&["Title", "abc", "de"]);
    let (mut col, mut line) = (3usize, 1usize);
    move_cursor(&content, &mut col, &mut line, Direction::Right);
    assert_eq!((line, col), (2, 0));
    let (mut col, mut line) = (2usize, 2usize);
    move_cursor(&content, &mut col, &mut line, Direction::Right);
    assert_eq!((line, col), (2, 2));
}

#[test]
fn cursor_up_and_down_clamp_the_column() {
    let content = lines(&["Title", "abcdef", "de", "xyz"]);
    let (mut col, mut line) = (5usize, 1usize);
    move_cursor(&content, &mut col, &mut line, Direction::Down);
    assert_eq!((line, col), (2, 2));
    move_cursor(&content, &mut col, &mut line, Direction::Down);
    assert_eq!((line, col), (3, 2));
    move_cursor(&content, &mut col, &mut line, Direction::Down);
    assert_eq!((line, col), (3, 2));
    let (mut col, mut line) = (3usize, 3usize);
    move_cursor(&content, &mut col, &mut line, Direction::Up);
    assert_eq!((line, col), (2, 2));
}

// ---- number prompt ----

fn type_digits(p: &mut NumberPrompt, s: &str) {
    for c in s.chars() {
        p.step(press(KeyCode::Char(c)));
    }
}

#[test]
fn number_prompt_accepts_a_number_in_range() {
    let mut p = NumberPrompt::new(1, 11);
    assert_eq!(p.step(press(KeyCode::Char('7'))), NumberReply::Echo('7'));
    assert_eq!(p.step(press(KeyCode::Enter)), NumberReply::Accept(7));
}

#[test]
fn number_prompt_reads_leading_zeros() {
    let mut p = NumberPrompt::new(1, 11);
    type_digits(&mut p, "011");
    assert_eq!(p.step(press(KeyCode::Enter)), NumberReply::Accept(11));
}

#[test]
fn number_prompt_refuses_a_number_out_of_range_and_starts_over() {
    let mut p = NumberPrompt::new(1, 11);
    type_digits(&mut p, "12");
    assert_eq!(p.step(press(KeyCode::Enter)), NumberReply::OutOfRange);
    assert!(p.digits.is_empty());
    type_digits(&mut p, "0");
    assert_eq!(p.step(press(KeyCode::Enter)), NumberReply::OutOfRange);
    type_digits(&mut p, "2");
    assert_eq!(p.step(press(KeyCode::Enter)), NumberReply::Accept(2));
}

#[test]
fn number_prompt_refuses_no_digits_and_numbers_over_255() {
    let mut p = NumberPrompt::new(0, 255);
    assert_eq!(p.step(press(KeyCode::Enter)), NumberReply::NotANumber);
    type_digits(&mut p, "256");
    assert_eq!(p.step(press(KeyCode::Enter)), NumberReply::NotANumber);
    assert!(p.digits.is_empty());
    type_digits(&mut p, "255");
    assert_eq!(p.step(press(KeyCode::Enter)), NumberReply::Accept(255));
}

#[test]
fn number_prompt_ignores_letters_and_modified_keys() {
    let mut p = NumberPrompt::new(1, 11);
    assert_eq!(p.step(press(KeyCode::Char('x'))), NumberReply::Ignore);
    assert_eq!(p.step(key(KeyCode::Char('5'), Modifiers::Control, KeyKind::Press)), NumberReply::Ignore);
    assert_eq!(p.step(key(KeyCode::Char('5'), Modifiers::Plain, KeyKind::Release)), NumberReply::Ignore);
    assert_eq!(p.step(Event::Other), NumberReply::Ignore);
    assert!(p.digits.is_empty());
}

#[test]
fn number_prompt_backspace_and_cancel() {
    let mut p = NumberPrompt::new(1, 11);
    assert_eq!(p.step(press(KeyCode::Backspace)), NumberReply::Ignore);
    type_digits(&mut p, "34");
    assert_eq!(p.step(press(KeyCode::Backspace)), NumberReply::Erase);
    assert_eq!(p.digits, vec!['3']);
    assert_eq!(p.step(press(KeyCode::Esc)), NumberReply::Cancel);
}

#[test]
fn number_prompt_of_any_kind_erases_at_a_column() {
    let mut p = NumberPrompt::new(1, 11);
    for c in "123".chars() {
        assert_eq!(
            p.step_any_kind(key(KeyCode::Char(c), Modifiers::Plain, KeyKind::Release)),
            NumberReply::Echo(c)
        );
    }
    assert_eq!(p.step_any_kind(press(KeyCode::Backspace)), NumberReply::EraseAt(22));
    assert_eq!(p.step_any_kind(key(KeyCode::Char('4'), Modifiers::Other, KeyKind::Press)), NumberReply::Ignore);
    assert_eq!(p.step_any_kind(press(KeyCode::Enter)), NumberReply::OutOfRange);
    assert_eq!(p.step_any_kind(press(KeyCode::Enter)), NumberReply::NotANumber);
}

#[test]
fn parse_number_reads_u8_values() {
    assert_eq!(parse_number(&chars("0")), Some(0));
    assert_eq!(parse_number(&chars("200")), Some(200));
    assert_eq!(parse_number(&chars("1000")), None);
    assert_eq!(parse_number(&chars("")), None);
    assert_eq!(parse_number(&chars("1a")), None);
}

// ---- text prompt ----

#[test]
fn text_prompt_submits_what_was_typed() {
    let mut p = TextPrompt::new();
    for c in "Kitchn".chars() {
        assert_eq!(p.step(press(KeyCode::Char(c))), TextReply::Echo(c));
    }
    assert_eq!(p.step(press(KeyCode::Backspace)), TextReply::Erase);
    p.step(press(KeyCode::Char('e')));
    p.step(press(KeyCode::Char('n')));
    assert_eq!(p.step(press(KeyCode::Enter)), TextReply::Submit(chars("Kitchen")));
    assert!(p.text.is_empty());
}

#[test]
fn text_prompt_ignores_shifted_keys_and_cancels_on_esc() {
    let mut p = TextPrompt::new();
    assert_eq!(p.step(key(KeyCode::Char('A'), Modifiers::Other, KeyKind::Press)), TextReply::Ignore);
    assert_eq!(p.step(press(KeyCode::Backspace)), TextReply::Ignore);
    assert_eq!(p.step(press(KeyCode::Left)), TextReply::Ignore);
    assert_eq!(p.step(press(KeyCode::Esc)), TextReply::Cancel);
}

// ---- notebook ----

#[test]
fn notebook_starts_on_the_room_list() {
    let nb = Notebook::new(names());
    assert_eq!(nb.mode, Mode::Display);
    assert_eq!(nb.room, 1);
    assert_eq!(nb.content, vec![Vec::<char>::new()]);
    assert_eq!((nb.cursor_line, nb.cursor_col), (1, 0));
    assert!(!nb.quit);
}

#[test]
fn room_list_keys() {
    let mut nb = Notebook::new(names());
    assert_eq!(nb.handle(ctrl('e')), Command::Export);
    assert_eq!(nb.handle(ctrl('l')), Command::ChooseRoomToOpen);
    assert_eq!(nb.handle(key(KeyCode::Char('l'), Modifiers::Control, KeyKind::Release)), Command::Nothing);
    assert_eq!(nb.handle(key(KeyCode::Char('r'), Modifiers::Control, KeyKind::Release)), Command::ChooseRoomToRename);
    assert_eq!(nb.handle(ctrl('E')), Command::Nothing);
    assert_eq!(nb.handle(press(KeyCode::Char('q'))), Command::Nothing);
    assert!(!nb.quit);
    assert_eq!(nb.handle(ctrl('q')), Command::Quit);
    assert!(nb.quit);
}

#[test]
fn opening_a_room_puts_the_cursor_at_the_end() {
    let nb = editing(&["Kitchen", "milk", "eggs"]);
    assert_eq!(nb.mode, Mode::Editing);
    assert_eq!(nb.room, 3);
    assert_eq!((nb.cursor_line, nb.cursor_col), (2, 4));
}

#[test]
fn opening_an_empty_room_shows_unknown() {
    let nb = editing(&[]);
    assert_eq!(nb.content, lines(&["unknown"]));
    assert_eq!((nb.cursor_line, nb.cursor_col), (0, 7));
}

#[test]
fn typing_inserts_at_the_cursor_and_draws_the_tail() {
    let mut nb = editing(&["Kitchen", "mlk"]);
    nb.handle(press(KeyCode::Left));
    nb.handle(press(KeyCode::Left));
    let cmd = nb.handle(press(KeyCode::Char('i')));
    assert_eq!(cmd, Command::DrawTail { line: 1, col: 1, tail: chars("ilk") });
    assert_eq!(nb.content, lines(&["Kitchen", "milk"]));
    assert_eq!((nb.cursor_line, nb.cursor_col), (1, 2));
}

#[test]
fn editing_ignores_modified_and_released_keys() {
    let mut nb = editing(&["Kitchen", "milk"]);
    assert_eq!(nb.handle(key(KeyCode::Char('X'), Modifiers::Other, KeyKind::Press)), Command::Nothing);
    assert_eq!(nb.handle(key(KeyCode::Char('x'), Modifiers::Plain, KeyKind::Release)), Command::Nothing);
    assert_eq!(nb.handle(ctrl('q')), Command::Nothing);
    assert_eq!(nb.handle(press(KeyCode::Other)), Command::Nothing);
    assert_eq!(nb.content, lines(&["Kitchen", "milk"]));
    assert!(!nb.quit);
}

#[test]
fn backspace_deletes_and_joins_lines() {
    let mut nb = editing(&["Kitchen", "milk", "eggs"]);
    assert_eq!(nb.handle(press(KeyCode::Backspace)), Command::Redraw);
    assert_eq!(nb.content, lines(&["Kitchen", "milk", "egg"]));
    for _ in 0..3 {
        nb.handle(press(KeyCode::Left));
    }
    assert_eq!((nb.cursor_line, nb.cursor_col), (2, 0));
    nb.handle(press(KeyCode::Backspace));
    assert_eq!(nb.content, lines(&["Kitchen", "milkegg"]));
    assert_eq!((nb.cursor_line, nb.cursor_col), (1, 4));
}

#[test]
fn backspace_never_joins_into_the_first_line() {
    let mut nb = editing(&["Kitchen", "milk"]);
    for _ in 0..4 {
        nb.handle(press(KeyCode::Left));
    }
    assert_eq!((nb.cursor_line, nb.cursor_col), (1, 0));
    nb.handle(press(KeyCode::Backspace));
    assert_eq!(nb.content, lines(&["Kitchen", "milk"]));
    assert_eq!((nb.cursor_line, nb.cursor_col), (1, 0));
}

#[test]
fn enter_breaks_the_line_and_backspace_joins_it_back() {
    let mut nb = editing(&["Kitchen", "milkeggs"]);
    for _ in 0..4 {
        nb.handle(press(KeyCode::Left));
    }
    assert_eq!(nb.handle(press(KeyCode::Enter)), Command::Redraw);
    assert_eq!(nb.content, lines(&["Kitchen", "milk", "eggs"]));
    assert_eq!((nb.cursor_line, nb.cursor_col), (2, 0));
    nb.handle(press(KeyCode::Backspace));
    assert_eq!(nb.content, lines(&["Kitchen", "milkeggs"]));
    assert_eq!((nb.cursor_line, nb.cursor_col), (1, 4));
}

#[test]
fn typing_then_backspace_gives_the_note_back() {
    let mut nb = editing(&["Kitchen", "milk"]);
    nb.handle(press(KeyCode::Left));
    nb.handle(press(KeyCode::Char('Z')));
    nb.handle(press(KeyCode::Backspace));
    assert_eq!(nb.content, lines(&["Kitchen", "milk"]));
    assert_eq!((nb.cursor_line, nb.cursor_col), (1, 3));
}

#[test]
fn esc_saves_the_note_joined_by_newlines() {
    let mut nb = editing(&["Kitchen", "milk", "eggs"]);
    let cmd = nb.handle(press(KeyCode::Esc));
    assert_eq!(cmd, Command::Save { room: 3, text: chars("Kitchen\nmilk\neggs") });
    assert_eq!(nb.mode, Mode::Display);
    assert!(nb.content.is_empty());
    assert_eq!((nb.cursor_line, nb.cursor_col), (1, 0));
}

#[test]
fn a_saved_note_reads_back_the_same() {
    let note = lines(&["Kitchen", "milk", "", "eggs"]);
    let mut nb = editing(&["Kitchen", "milk", "", "eggs"]);
    let saved = match nb.handle(press(KeyCode::Esc)) {
        Command::Save { text, .. } => text,
        other => panic!("unexpected {:?}", other),
    };
    nb.open_room(3, note_lines(&saved));
    assert_eq!(nb.content, note);
}

#[test]
fn a_trailing_empty_line_is_lost_when_read_back() {
    let mut nb = editing(&["Kitchen", "milk"]);
    nb.handle(press(KeyCode::Enter));
    let saved = match nb.handle(press(KeyCode::Esc)) {
        Command::Save { text, .. } => text,
        other => panic!("unexpected {:?}", other),
    };
    assert_eq!(saved, chars("Kitchen\nmilk\n"));
    assert_eq!(note_lines(&saved), lines(&["Kitchen", "milk"]));
}

#[test]
fn rename_gives_the_new_file_text() {
    let mut nb = Notebook::new(names());
    let text = nb.rename_room(2, chars("Bath"), &lines(&["towels", "soap"]));
    assert_eq!(text, chars("Bath\ntowels\nsoap"));
    assert_eq!(nb.room_names[1], chars("Bath"));
    assert_eq!(nb.room_names[0], chars("Room 1"));
    let text = nb.rename_room(11, chars("Attic"), &Vec::new());
    assert_eq!(text, chars("Attic"));
}

#[test]
fn room_listing_numbers_the_rooms() {
    let mut n = names();
    n[9] = chars("Hall");
    let nb = Notebook::new(n);
    let listing = nb.room_listing();
    assert_eq!(listing.len(), 11);
    assert_eq!(text(&listing[0]), "1: Room 1");
    assert_eq!(text(&listing[9]), "10: Hall");
    assert_eq!(text(&listing[10]), "11: Room 11");
}

// ---- text ----

#[test]
fn note_lines_follow_the_line_rules() {
    assert_eq!(note_lines(&chars("")), lines(&[]));
    assert_eq!(note_lines(&chars("\n")), lines(&[""]));
    assert_eq!(note_lines(&chars("a\r\nb\n")), lines(&["a", "b"]));
    assert_eq!(note_lines(&chars("a\r")), lines(&["a\r"]));
    assert_eq!(note_lines(&chars("a\n\nb")), lines(&["a", "", "b"]));
}

#[test]
fn join_puts_newlines_between_lines() {
    assert_eq!(join_with_newlines(&lines(&[])), chars(""));
    assert_eq!(join_with_newlines(&lines(&["a"])), chars("a"));
    assert_eq!(join_with_newlines(&lines(&["a", "", "c"])), chars("a\n\nc"));
}

#[test]
fn decimal_numbers_and_file_names() {
    let mut out = chars("n=");
    push_decimal(&mut out, 0);
    assert_eq!(text(&out), "n=0");
    let mut out = Vec::new();
    push_decimal(&mut out, 18446744073709551615);
    assert_eq!(text(&out), "18446744073709551615");
    assert_eq!(text(&note_file_name(7)), "7.txt");
    assert_eq!(text(&note_file_name(11)), "11.txt");
}

#[test]
fn room_names_come_from_first_lines() {
    assert_eq!(room_name(None), chars("unknown"));
    assert_eq!(room_name(Some(chars("Kitchen \t\r\n"))), chars("Kitchen"));
    assert_eq!(room_name(Some(chars("\n"))), chars(""));
    assert_eq!(room_name(Some(chars("Hall"))), chars("Hall"));
    let mut l = chars("  a b\u{3000}");
    trim_end_chars(&mut l);
    assert_eq!(l, chars("  a b"));
}

#[test]
fn chars_become_a_string() {
    assert_eq!(chars_to_string(&chars("héllo")), "héllo");
}

// ---- export ----

#[test]
fn export_joins_every_note_with_a_blank_line_after_it() {
    let notes = vec![lines(&["Kitchen", "milk"]), lines(&[]), lines(&["Hall"])];
    assert_eq!(text(&export_notes(&notes)), "Kitchen\nmilk\n\nHall\n\n");
    assert_eq!(text(&export_notes(&Vec::new())), "");
}

#[test]
fn export_keeps_each_first_line() {
    assert_eq!(text(&kept_first_line(&lines(&["Kitchen", "milk"]))), "Kitchen\n");
    assert_eq!(text(&kept_first_line(&lines(&[]))), "\n");
    assert_eq!(note_lines(&kept_first_line(&lines(&["Kitchen", "milk"]))), lines(&["Kitchen"]));
}

// ---- residents ----

#[test]
fn resident_is_described() {
    let r = Resident::new("Ann", 7);
    assert_eq!(r.name, "Ann");
    assert_eq!(r.prompt, 7);
    assert_eq!(r.describe(), "Resident Name: Ann, Prompt: 7");
    assert_eq!(Resident::new("Bo", 255).describe(), "Resident Name: Bo, Prompt: 255");
}

#[test]
fn the_roster_names_each_room_file() {
    let roster = initial_roster();
    assert_eq!(roster.len(), 11);
    assert_eq!(roster[0].0.name, "1.txt");
    assert_eq!(roster[10].0.name, "11.txt");
    assert!(roster.iter().enumerate().all(|(i, (r, n))| r.prompt == 0 && *n as usize == i + 1));
}

// ---- plain editor ----

#[test]
fn draft_opens_a_room_and_saves_what_was_typed() {
    let mut d = Draft::new();
    assert_eq!(d.handle(key(KeyCode::Char('l'), Modifiers::Control, KeyKind::Release)), DraftCommand::ChooseRoom);
    assert_eq!(d.pick_room(Some(4)), 4);
    d.start_editing(chars("old"));
    assert_eq!(d.handle(press(KeyCode::Char('!'))), DraftCommand::Echo('!'));
    assert_eq!(d.handle(press(KeyCode::Enter)), DraftCommand::NewLine);
    assert_eq!(d.handle(key(KeyCode::Char('x'), Modifiers::Plain, KeyKind::Repeat)), DraftCommand::Echo('x'));
    assert_eq!(d.handle(press(KeyCode::Backspace)), DraftCommand::Erase);
    assert_eq!(d.handle(key(KeyCode::Char('y'), Modifiers::Control, KeyKind::Press)), DraftCommand::Nothing);
    assert_eq!(d.handle(press(KeyCode::Esc)), DraftCommand::Save { room: 4, text: chars("old!\n") });
    assert!(!d.editing);
}

#[test]
fn draft_keeps_the_room_when_the_prompt_is_cancelled() {
    let mut d = Draft::new();
    assert_eq!(d.pick_room(Some(9)), 9);
    assert_eq!(d.pick_room(None), 9);
}

#[test]
fn draft_keys_away_from_a_note() {
    let mut d = Draft::new();
    assert_eq!(d.handle(key(KeyCode::Right, Modifiers::Other, KeyKind::Press)), DraftCommand::MoveRight);
    assert_eq!(d.handle(ctrl('n')), DraftCommand::Nothing);
    assert_eq!(d.handle(press(KeyCode::Char('a'))), DraftCommand::Nothing);
    assert_eq!(d.handle(press(KeyCode::Backspace)), DraftCommand::Nothing);
    assert_eq!(d.handle(ctrl('q')), DraftCommand::Quit);
    assert!(d.quit);
}

#[test]
fn arrows_undo_each_other() {
    let mut nb = editing(&["Kitchen", "milk", "eggs"]);
    nb.handle(press(KeyCode::Left));
    nb.handle(press(KeyCode::Right));
    assert_eq!((nb.cursor_line, nb.cursor_col), (2, 4));
    for _ in 0..4 {
        nb.handle(press(KeyCode::Left));
    }
    nb.handle(press(KeyCode::Left));
    assert_eq!((nb.cursor_line, nb.cursor_col), (1, 4));
    nb.handle(press(KeyCode::Right));
    assert_eq!((nb.cursor_line, nb.cursor_col), (2, 0));
    nb.handle(press(KeyCode::Up));
    nb.handle(press(KeyCode::Down));
    assert_eq!((nb.cursor_line, nb.cursor_col), (2, 0));
    assert_eq!(nb.handle(press(KeyCode::Up)), Command::PlaceCursor);
    assert_eq!(nb.content, lines(&["Kitchen", "milk", "eggs"]));
}

#[test]
fn the_first_line_is_kept_once_the_cursor_left_it() {
    let mut nb = editing(&["Kitchen", "milk"]);
    for code in [KeyCode::Up, KeyCode::Left, KeyCode::Left, KeyCode::Left, KeyCode::Left, KeyCode::Left,
                 KeyCode::Backspace, KeyCode::Enter, KeyCode::Up, KeyCode::Backspace] {
        nb.handle(press(code));
        assert!(nb.cursor_line >= 1);
        assert_eq!(nb.content[0], chars("Kitchen"));
    }
}

#[test]
fn the_first_line_can_be_edited_while_the_cursor_is_on_it() {
    let mut nb = editing(&["Kitchen"]);
    nb.handle(press(KeyCode::Char('s')));
    assert_eq!(nb.content, lines(&["Kitchens"]));
    nb.handle(press(KeyCode::Enter));
    nb.handle(press(KeyCode::Backspace));
    assert_eq!(nb.content, lines(&["Kitchens", ""]));
    assert_eq!((nb.cursor_line, nb.cursor_col), (1, 0));
}

// ---- byte columns ----

#[test]
fn white_space_is_what_std_says() {
    for u in 0..=0x10FFFFu32 {
        if let Some(c) = char::from_u32(u) {
            assert_eq!(is_white_space(c), c.is_whitespace(), "U+{:04X}", u);
        }
    }
}

#[test]
fn byte_lengths_follow_utf8() {
    for c in ['a', '\u{7f}', 'é', '\u{7ff}', '\u{800}', '€', '\u{ffff}', '😀'] {
        assert_eq!(char_byte_len(c), c.len_utf8());
    }
    let line = chars("aé€😀");
    assert_eq!(line_byte_len(&line), "aé€😀".len());
    assert_eq!(checked_line_byte_len(&line), Some(10));
    for b in 0..=11 {
        assert_eq!(is_char_boundary(&line, b), "aé€😀".is_char_boundary(b), "byte {}", b);
    }
    assert_eq!(char_index_at(&line, 3), 2);
    assert_eq!(char_index_at(&line, 10), 4);
}

#[test]
fn opening_a_room_puts_the_cursor_after_the_last_byte() {
    let nb = editing(&["Café"]);
    assert_eq!((nb.cursor_line, nb.cursor_col), (0, 5));
}

#[test]
fn the_cursor_moves_one_byte_at_a_time() {
    let mut nb = editing(&["Title", "é"]);
    assert_eq!((nb.cursor_line, nb.cursor_col), (1, 2));
    assert!(!nb.edits_at_char_boundary(press(KeyCode::Backspace)));
    assert!(nb.edits_at_char_boundary(press(KeyCode::Char('x'))));
    nb.handle(press(KeyCode::Left));
    assert_eq!((nb.cursor_line, nb.cursor_col), (1, 1));
    assert!(!nb.edits_at_char_boundary(press(KeyCode::Char('x'))));
    assert!(!nb.edits_at_char_boundary(press(KeyCode::Enter)));
    assert!(nb.edits_at_char_boundary(press(KeyCode::Backspace)));
    assert!(nb.edits_at_char_boundary(press(KeyCode::Right)));
    nb.handle(press(KeyCode::Backspace));
    assert_eq!(nb.content, lines(&["Title", ""]));
    assert_eq!((nb.cursor_line, nb.cursor_col), (1, 0));
}

#[test]
fn typing_a_wide_character_moves_the_cursor_one_byte() {
    let mut nb = editing(&["Title", "ab"]);
    let cmd = nb.handle(press(KeyCode::Char('é')));
    assert_eq!(cmd, Command::DrawTail { line: 1, col: 2, tail: chars("é") });
    assert_eq!((nb.cursor_line, nb.cursor_col), (1, 3));
    assert!(!nb.edits_at_char_boundary(press(KeyCode::Char('x'))));
    nb.handle(press(KeyCode::Right));
    assert_eq!((nb.cursor_line, nb.cursor_col), (1, 4));
    nb.handle(press(KeyCode::Char('x')));
    assert_eq!(nb.content, lines(&["Title", "abéx"]));
    nb.handle(press(KeyCode::Left));
    nb.handle(press(KeyCode::Left));
    nb.handle(press(KeyCode::Left));
    assert_eq!((nb.cursor_line, nb.cursor_col), (1, 2));
    nb.handle(press(KeyCode::Enter));
    assert_eq!(nb.content, lines(&["Title", "ab", "éx"]));
    assert!(nb.fits_in_memory());
}

#[test]
fn up_and_down_clamp_to_byte_lengths() {
    let content = lines(&["Title", "é", "abcd"]);
    let (mut col, mut line) = (4usize, 2usize);
    move_cursor(&content, &mut col, &mut line, Direction::Up);
    assert_eq!((line, col), (1, 2));
    let content = lines(&["Title", "éé", "abcd"]);
    let (mut col, mut line) = (4usize, 2usize);
    move_cursor(&content, &mut col, &mut line, Direction::Up);
    assert_eq!((line, col), (1, 4));
}

#[test]
fn down_and_left_past_the_end_of_the_note() {
    let content = lines(&["Title", "abc"]);
    let (mut col, mut line) = (3usize, 5usize);
    move_cursor(&content, &mut col, &mut line, Direction::Down);
    assert_eq!((line, col), (5, 3));
    move_cursor(&content, &mut col, &mut line, Direction::Left);
    assert_eq!((line, col), (5, 2));
    let (mut col, mut line) = (0usize, 0usize);
    move_cursor(&content, &mut col, &mut line, Direction::Up);
    assert_eq!((line, col), (0, 0));
}

#[test]
fn trimming_a_line_feed() {
    assert_eq!(room_name(Some(chars("a\n"))), chars("a"));
}

#[test]
fn a_second_export_keeps_the_files_and_exports_first_lines() {
    let notes = vec![lines(&["Kitchen", "milk"]), lines(&[]), lines(&["Hall", "", "keys"])];
    let kept: Vec<Vec<char>> = notes.iter().map(|l| kept_first_line(l)).collect();
    let reread: Vec<Vec<Vec<char>>> = kept.iter().map(|t| note_lines(t)).collect();
    for (k, r) in kept.iter().zip(reread.iter()) {
        assert_eq!(&kept_first_line(r), k);
    }
    assert_eq!(text(&export_notes(&reread)), "Kitchen\n\n\n\nHall\n\n");
}
