//! The notebook's screen logic: which room list or note is shown, what each
//! key does to the note being edited, and what the terminal and the files
//! are asked to do in turn.

use vstd::prelude::*;
use crate::keys::{Event, KeyCode, KeyEvent, KeyKind, Modifiers};
use crate::cursor::{Direction, lines_fit, moved, move_cursor};
use crate::bytes::{
    byte_len, char_index, char_index_at, checked_line_byte_len, is_boundary, is_char_boundary,
    lemma_byte_len_concat, lemma_char_index,
    lemma_take_is_boundary, lemma_total_bytes, line_byte_len, total_bytes, utf8_len,
};
use crate::text::{
    decimal, join_lines, join_with_newlines, lemma_line_deep_view, lines_of, lemma_lines_of_join,
    push_decimal, survives_saving, unknown,
};

verus! {

/// What the screen shows: the list of rooms, or a room's note being edited.
#[derive(Clone, Copy, Debug, PartialEq, Eq, Structural)]
pub enum Mode {
    Display,
    Editing,
}

/// The notebook: the rooms' names, the room whose note is open, the note's
/// lines and the cursor in them (its column counts bytes of the line's UTF-8
/// encoding, as a `String` does), and whether the screen shows the room list
/// or the note.
pub struct Notebook {
    pub room_names: Vec<Vec<char>>,
    pub room: usize,
    pub content: Vec<Vec<char>>,
    pub cursor_line: usize,
    pub cursor_col: usize,
    pub mode: Mode,
    pub quit: bool,
}

/// The notebook as mathematical values.
pub struct NotebookState {
    pub names: Seq<Seq<char>>,
    pub room: int,
    pub lines: Seq<Seq<char>>,
    pub line: int,
    pub col: int,
    pub mode: Mode,
    pub quit: bool,
}

impl View for Notebook {
    type V = NotebookState;

    open spec fn view(&self) -> NotebookState {
        NotebookState {
            names: self.room_names.deep_view(),
            room: self.room as int,
            lines: self.content.deep_view(),
            line: self.cursor_line as int,
            col: self.cursor_col as int,
            mode: self.mode,
            quit: self.quit,
        }
    }
}

/// What the terminal or the files are asked to do after a key.
#[derive(Debug, PartialEq, Eq)]
pub enum Command {
    /// Nothing.
    Nothing,
    /// Export all notes into one file, then show the room list again.
    Export,
    /// Leave the terminal's raw mode: the notebook quits.
    Quit,
    /// Ask for the number of the room to open; see [`Notebook::open_room`].
    ChooseRoomToOpen,
    /// Ask for the number of a room and its new name; see
    /// [`Notebook::rename_room`].
    ChooseRoomToRename,
    /// A character was typed at byte column `col` of line `line`: clear that
    /// line from `col` on, print `tail` there, and put the cursor at the new
    /// cursor position.
    DrawTail { line: usize, col: usize, tail: Vec<char> },
    /// Draw the whole note again, and the cursor.
    Redraw,
    /// Put the cursor at its new position.
    PlaceCursor,
    /// Write `text` into the note file of room `room`, then show the room
    /// list.
    Save { room: usize, text: Vec<char> },
}

/// A command as mathematical values.
pub enum CommandView {
    Nothing,
    Export,
    Quit,
    ChooseRoomToOpen,
    ChooseRoomToRename,
    DrawTail { line: int, col: int, tail: Seq<char> },
    Redraw,
    PlaceCursor,
    Save { room: int, text: Seq<char> },
}

impl View for Command {
    type V = CommandView;

    open spec fn view(&self) -> CommandView {
        match self {
            Command::Nothing => CommandView::Nothing,
            Command::Export => CommandView::Export,
            Command::Quit => CommandView::Quit,
            Command::ChooseRoomToOpen => CommandView::ChooseRoomToOpen,
            Command::ChooseRoomToRename => CommandView::ChooseRoomToRename,
            Command::DrawTail { line, col, tail } => CommandView::DrawTail {
                line: *line as int,
                col: *col as int,
                tail: tail@,
            },
            Command::Redraw => CommandView::Redraw,
            Command::PlaceCursor => CommandView::PlaceCursor,
            Command::Save { room, text } => CommandView::Save { room: *room as int, text: text@ },
        }
    }
}

/// While a note is edited, the cursor stands on one of its lines, at most
/// just after its last byte. Columns count bytes of the line's UTF-8
/// encoding.
pub open spec fn well_formed(s: NotebookState) -> bool {
    s.mode == Mode::Editing ==> {
        &&& 0 <= s.line < s.lines.len()
        &&& 0 <= s.col <= byte_len(s.lines[s.line])
    }
}

/// The bytes of the note leave room for one more character in a `usize`
/// (a limit of the machine).
pub open spec fn note_fits(s: NotebookState) -> bool {
    total_bytes(s.lines) + 4 <= usize::MAX
}

/// The line under the cursor.
pub open spec fn cursor_text(s: NotebookState) -> Seq<char> {
    s.lines[s.line]
}

/// Whether the event, while a note is edited, cuts the line under the cursor
/// only where a character starts: typing and Enter at the cursor, Backspace
/// one byte before it. Elsewhere a `String` refuses the edit.
pub open spec fn at_char_boundary(s: NotebookState, e: Event) -> bool {
    s.mode == Mode::Editing ==> match e {
        Event::Key(k) => k.is_plain_press() ==> match k.code {
            KeyCode::Char(_) => is_boundary(cursor_text(s), s.col),
            KeyCode::Enter => is_boundary(cursor_text(s), s.col),
            KeyCode::Backspace => s.col > 0 ==> is_boundary(cursor_text(s), s.col - 1),
            _ => true,
        },
        Event::Other => true,
    }
}

/// The character `c` typed at the cursor: it goes in before the cursor, and
/// the cursor moves one byte on.
pub open spec fn typed(s: NotebookState, c: char) -> NotebookState {
    NotebookState {
        lines: s.lines.update(
            s.line,
            cursor_text(s).insert(char_index(cursor_text(s), s.col), c),
        ),
        col: s.col + 1,
        ..s
    }
}

/// Backspace: the cursor moves one byte back and the character that starts
/// there goes; at the start of a line other than the first two, the line
/// joins the one above it.
pub open spec fn backspaced(s: NotebookState) -> NotebookState {
    if s.col > 0 {
        NotebookState {
            lines: s.lines.update(
                s.line,
                cursor_text(s).remove(char_index(cursor_text(s), s.col - 1)),
            ),
            col: s.col - 1,
            ..s
        }
    } else if s.line > 1 {
        NotebookState {
            lines: s.lines.remove(s.line).update(s.line - 1, s.lines[s.line - 1] + s.lines[s.line]),
            line: s.line - 1,
            col: byte_len(s.lines[s.line - 1]) as int,
            ..s
        }
    } else {
        s
    }
}

/// Enter: the line breaks at the cursor, and the cursor goes to the start
/// of the new line.
pub open spec fn line_broken(s: NotebookState) -> NotebookState {
    NotebookState {
        lines: s.lines.update(
            s.line,
            cursor_text(s).take(char_index(cursor_text(s), s.col)),
        ).insert(s.line + 1, cursor_text(s).skip(char_index(cursor_text(s), s.col))),
        line: s.line + 1,
        col: 0,
        ..s
    }
}

/// An arrow key: the cursor moves.
pub open spec fn arrowed(s: NotebookState, d: Direction) -> NotebookState {
    NotebookState { line: moved(s.lines, s.line, s.col, d).0, col: moved(s.lines, s.line, s.col, d).1, ..s }
}

/// Esc: the note is put away and the room list is shown.
pub open spec fn put_away(s: NotebookState) -> NotebookState {
    NotebookState { lines: Seq::empty(), line: 1, col: 0, mode: Mode::Display, ..s }
}

/// The note of room `room` opened with the lines read from its file: a file
/// with no lines gives the one line `unknown`; the cursor goes to the end of
/// the last line.
pub open spec fn opened(s: NotebookState, room: int, lines: Seq<Seq<char>>) -> NotebookState {
    let shown = if lines.len() == 0 {
        seq![seq!['u', 'n', 'k', 'n', 'o', 'w', 'n']]
    } else {
        lines
    };
    NotebookState {
        room,
        lines: shown,
        line: shown.len() - 1,
        col: byte_len(shown.last()) as int,
        mode: Mode::Editing,
        ..s
    }
}

/// The state and the command after the event `e`.
pub open spec fn next(s: NotebookState, e: Event) -> (NotebookState, CommandView) {
    match s.mode {
        Mode::Display => match e {
            Event::Key(k) => match (k.code, k.modifiers, k.kind) {
                (KeyCode::Char('e'), Modifiers::Control, KeyKind::Press) => (s, CommandView::Export),
                (KeyCode::Char('q'), Modifiers::Control, KeyKind::Press) => (
                    NotebookState { quit: true, ..s },
                    CommandView::Quit,
                ),
                (KeyCode::Char('l'), Modifiers::Control, KeyKind::Press) => (
                    s,
                    CommandView::ChooseRoomToOpen,
                ),
                (KeyCode::Char('r'), Modifiers::Control, _) => (
                    s,
                    CommandView::ChooseRoomToRename,
                ),
                _ => (s, CommandView::Nothing),
            },
            Event::Other => (s, CommandView::Nothing),
        },
        Mode::Editing => match e {
            Event::Key(k) => if k.is_plain_press() {
                match k.code {
                    KeyCode::Char(c) => (
                        typed(s, c),
                        CommandView::DrawTail {
                            line: s.line,
                            col: s.col,
                            tail: typed(s, c).lines[s.line].skip(
                                char_index(cursor_text(s), s.col),
                            ),
                        },
                    ),
                    KeyCode::Backspace => (backspaced(s), CommandView::Redraw),
                    KeyCode::Enter => (line_broken(s), CommandView::Redraw),
                    KeyCode::Left => (arrowed(s, Direction::Left), CommandView::PlaceCursor),
                    KeyCode::Right => (arrowed(s, Direction::Right), CommandView::PlaceCursor),
                    KeyCode::Up => (arrowed(s, Direction::Up), CommandView::PlaceCursor),
                    KeyCode::Down => (arrowed(s, Direction::Down), CommandView::PlaceCursor),
                    KeyCode::Esc => (
                        put_away(s),
                        CommandView::Save { room: s.room, text: join_lines(s.lines) },
                    ),
                    KeyCode::Other => (s, CommandView::Nothing),
                }
            } else {
                (s, CommandView::Nothing)
            },
            Event::Other => (s, CommandView::Nothing),
        },
    }
}

/// The line of the room list for the room at position `i`: its number
/// (counted from 1), a colon, a space, and its name.
pub open spec fn listing_line(i: int, name: Seq<char>) -> Seq<char> {
    decimal((i + 1) as nat) + seq![':', ' '] + name
}

/// Copies `line` from position `from` on.
fn tail_of(line: &Vec<char>, from: usize) -> (tail: Vec<char>)
    requires
        from <= line.len(),
    ensures
        tail@ == line@.skip(from as int),
{
    let mut tail: Vec<char> = Vec::new();
    let mut j = from;
    while j < line.len()
        invariant
            from <= j <= line.len(),
            tail@ == line@.subrange(from as int, j as int),
        decreases line.len() - j,
    {
        tail.push(line[j]);
        j = j + 1;
    }
    tail
}

/// Copies `line`.
fn copy_line(line: &Vec<char>) -> (copy: Vec<char>)
    ensures
        copy@ == line@,
{
    let copy = tail_of(line, 0);
    assert(line@.skip(0) =~= line@);
    copy
}

impl Notebook {
    /// Whether the cursor is where [`well_formed`] says it is.
    pub open spec fn wf(&self) -> bool {
        well_formed(self@)
    }

    /// A notebook with these room names, showing the room list; the open room
    /// is room 1, with a note of one empty line.
    pub fn new(room_names: Vec<Vec<char>>) -> (nb: Notebook)
        ensures
            nb@ == (NotebookState {
                names: room_names.deep_view(),
                room: 1,
                lines: seq![Seq::<char>::empty()],
                line: 1,
                col: 0,
                mode: Mode::Display,
                quit: false,
            }),
            nb.wf(),
    {
        let mut content: Vec<Vec<char>> = Vec::new();
        content.push(Vec::new());
        let nb = Notebook {
            room_names,
            room: 1,
            content,
            cursor_line: 1,
            cursor_col: 0,
            mode: Mode::Display,
            quit: false,
        };
        assert(nb.content@[0].deep_view() =~= Seq::<char>::empty());
        assert(nb.content.deep_view() =~= seq![Seq::<char>::empty()]);
        nb
    }
}

/// The deep view of a note is the characters of each of its lines.
pub proof fn lemma_note_deep_view(note: Vec<Vec<char>>)
    ensures
        note.deep_view().len() == note@.len(),
        forall|i: int| 0 <= i < note@.len() ==> #[trigger] note.deep_view()[i] == note@[i]@,
{
    assert forall|i: int| 0 <= i < note@.len() implies #[trigger] note.deep_view()[i]
        == note@[i]@ by {
        lemma_line_deep_view(note@[i]);
    }
}

/// Inserting a character where one starts: the bytes grow by that
/// character's, and the position where it went in still starts a character.
pub proof fn lemma_insert_at_boundary(l: Seq<char>, b: int, c: char)
    requires
        is_boundary(l, b),
    ensures
        0 <= char_index(l, b) <= l.len(),
        b <= byte_len(l),
        byte_len(l.insert(char_index(l, b), c)) == byte_len(l) + utf8_len(c),
        is_boundary(l.insert(char_index(l, b), c), b),
        char_index(l.insert(char_index(l, b), c), b) == char_index(l, b),
{
    lemma_char_index(l, b);
    let k = char_index(l, b);
    let m = l.insert(k, c);
    assert(m =~= l.take(k) + seq![c] + l.skip(k));
    assert(l =~= l.take(k) + l.skip(k));
    lemma_byte_len_concat(l.take(k) + seq![c], l.skip(k));
    lemma_byte_len_concat(l.take(k), seq![c]);
    lemma_byte_len_concat(l.take(k), l.skip(k));
    assert(seq![c].drop_last() =~= Seq::<char>::empty());
    assert(seq![c].last() == c);
    assert(byte_len(seq![c]) == utf8_len(c)) by {
        reveal_with_fuel(byte_len, 2);
    }
    assert(m.take(k) =~= l.take(k));
    lemma_take_is_boundary(m, k);
}

/// Removing the character that starts at a byte position before the end:
/// what is left still reaches that position.
pub proof fn lemma_remove_at_boundary(l: Seq<char>, b: int)
    requires
        is_boundary(l, b),
        b < byte_len(l),
    ensures
        0 <= char_index(l, b) < l.len(),
        byte_len(l.remove(char_index(l, b))) >= b,
{
    lemma_char_index(l, b);
    let k = char_index(l, b);
    assert(l.take(l.len() as int) =~= l);
    assert(l.remove(k) =~= l.take(k) + l.skip(k + 1));
    lemma_byte_len_concat(l.take(k), l.skip(k + 1));
}

/// The first `j` lines take at most the bytes of all.
pub proof fn lemma_total_bytes_take(lines: Seq<Seq<char>>, j: int)
    requires
        0 <= j <= lines.len(),
    ensures
        total_bytes(lines.take(j)) <= total_bytes(lines),
    decreases lines.len(),
{
    if j == lines.len() {
        assert(lines.take(j) =~= lines);
    } else {
        assert(lines.take(j) =~= lines.drop_last().take(j));
        lemma_total_bytes_take(lines.drop_last(), j);
    }
}

impl Notebook {
    proof fn lemma_fits(&self)
        requires
            self.wf(),
            self.mode == Mode::Editing,
            note_fits(self@),
        ensures
            lines_fit(self.content@),
            byte_len(self.content@[self.cursor_line as int]@) + 4 <= usize::MAX,
            self.cursor_col <= byte_len(self.content@[self.cursor_line as int]@),
            self.cursor_line > 1 ==> byte_len(self.content@[self.cursor_line - 1]@) + byte_len(
                self.content@[self.cursor_line as int]@,
            ) + 4 <= usize::MAX,
    {
        lemma_note_deep_view(self.content);
        assert forall|i: int| 0 <= i < self.content@.len() implies byte_len(
            #[trigger] self.content@[i]@,
        ) <= usize::MAX by {
            lemma_total_bytes(self@.lines, i, i);
        }
        lemma_total_bytes(self@.lines, self.cursor_line as int, self.cursor_line as int);
        if self.cursor_line > 1 {
            lemma_total_bytes(self@.lines, self.cursor_line - 1, self.cursor_line as int);
        }
    }

    fn type_char(&mut self, c: char) -> (cmd: Command)
        requires
            old(self).wf(),
            old(self).mode == Mode::Editing,
            note_fits(old(self)@),
            is_boundary(cursor_text(old(self)@), old(self)@.col),
        ensures
            final(self)@ == typed(old(self)@, c),
            cmd@ == (CommandView::DrawTail {
                line: old(self)@.line,
                col: old(self)@.col,
                tail: typed(old(self)@, c).lines[old(self)@.line].skip(
                    char_index(cursor_text(old(self)@), old(self)@.col),
                ),
            }),
    {
        proof {
            self.lemma_fits();
            lemma_note_deep_view(self.content);
            lemma_insert_at_boundary(cursor_text(self@), self@.col, c);
        }
        let line = self.cursor_line;
        let col = self.cursor_col;
        if line >= self.content.len() {
            self.content.push(Vec::new());
        }
        let k = char_index_at(&self.content[line], col);
        self.content[line].insert(k, c);
        let tail = tail_of(&self.content[line], k);
        self.cursor_col = col + 1;
        proof {
            lemma_note_deep_view(self.content);
            assert(self.content.deep_view() =~= typed(old(self)@, c).lines);
        }
        Command::DrawTail { line, col, tail }
    }

    fn backspace(&mut self)
        requires
            old(self).wf(),
            old(self).mode == Mode::Editing,
            note_fits(old(self)@),
            old(self)@.col > 0 ==> is_boundary(cursor_text(old(self)@), old(self)@.col - 1),
        ensures
            final(self)@ == backspaced(old(self)@),
    {
        proof {
            self.lemma_fits();
            lemma_note_deep_view(self.content);
        }
        let line = self.cursor_line;
        if self.cursor_col > 0 {
            proof {
                lemma_remove_at_boundary(cursor_text(self@), self@.col - 1);
            }
            self.cursor_col = self.cursor_col - 1;
            let k = char_index_at(&self.content[line], self.cursor_col);
            self.content[line].remove(k);
            proof {
                lemma_note_deep_view(self.content);
                assert(self.content.deep_view() =~= backspaced(old(self)@).lines);
            }
        } else if line > 1 {
            self.cursor_col = line_byte_len(&self.content[line - 1]);
            let mut current = self.content.remove(line);
            self.cursor_line = line - 1;
            self.content[line - 1].append(&mut current);
            proof {
                lemma_note_deep_view(self.content);
                assert(self.content.deep_view() =~= backspaced(old(self)@).lines);
            }
        }
    }

    fn break_line(&mut self)
        requires
            old(self).wf(),
            old(self).mode == Mode::Editing,
            is_boundary(cursor_text(old(self)@), old(self)@.col),
        ensures
            final(self)@ == line_broken(old(self)@),
    {
        proof {
            lemma_note_deep_view(self.content);
            lemma_char_index(cursor_text(self@), self@.col);
        }
        let line = self.cursor_line;
        if line >= self.content.len() {
            self.content.push(Vec::new());
        }
        let k = char_index_at(&self.content[line], self.cursor_col);
        let new_line = self.content[line].split_off(k);
        self.content.insert(line + 1, new_line);
        self.cursor_line = line + 1;
        self.cursor_col = 0;
        proof {
            lemma_note_deep_view(self.content);
            assert(self.content.deep_view() =~= line_broken(old(self)@).lines);
        }
    }

    fn arrow(&mut self, direction: Direction)
        requires
            old(self).wf(),
            old(self).mode == Mode::Editing,
            note_fits(old(self)@),
        ensures
            final(self)@ == arrowed(old(self)@, direction),
    {
        proof {
            self.lemma_fits();
        }
        let n = self.content.len();
        assert(self.cursor_line < n);
        move_cursor(&self.content, &mut self.cursor_col, &mut self.cursor_line, direction);
    }

    fn put_away_note(&mut self) -> (cmd: Command)
        requires
            old(self).mode == Mode::Editing,
        ensures
            final(self)@ == put_away(old(self)@),
            cmd@ == (CommandView::Save { room: old(self)@.room, text: join_lines(old(self)@.lines) }),
    {
        let text = join_with_newlines(&self.content);
        let room = self.room;
        self.content.clear();
        self.cursor_line = 1;
        self.cursor_col = 0;
        self.mode = Mode::Display;
        proof {
            assert(self.content.deep_view() =~= Seq::<Seq<char>>::empty());
        }
        Command::Save { room, text }
    }

    /// Whether the note's bytes leave room for one more character in a
    /// `usize`.
    pub fn fits_in_memory(&self) -> (yes: bool)
        ensures
            yes == note_fits(self@),
    {
        let ghost lines = self@.lines;
        proof {
            lemma_note_deep_view(self.content);
        }
        let mut total: usize = 0;
        let mut i: usize = 0;
        while i < self.content.len()
            invariant
                i <= self.content.len(),
                lines == self@.lines,
                lines.len() == self.content@.len(),
                forall|j: int| 0 <= j < lines.len() ==> #[trigger] lines[j] == self.content@[j]@,
                total == total_bytes(lines.take(i as int)),
            decreases self.content.len() - i,
        {
            proof {
                assert(lines.take(i + 1).drop_last() =~= lines.take(i as int));
                assert(lines.take(i + 1).last() == lines[i as int]);
                lemma_total_bytes_take(lines, i + 1);
            }
            match checked_line_byte_len(&self.content[i]) {
                Some(n) => {
                    if total > usize::MAX - n {
                        return false;
                    }
                    total = total + n;
                },
                None => {
                    return false;
                },
            }
            i = i + 1;
        }
        proof {
            assert(lines.take(i as int) =~= lines);
        }
        total <= usize::MAX - 4
    }

    /// Whether the event, while a note is edited, cuts the line under the
    /// cursor only where a character starts (see [`at_char_boundary`]).
    pub fn edits_at_char_boundary(&self, event: Event) -> (yes: bool)
        requires
            self.wf(),
            self.mode == Mode::Editing ==> note_fits(self@),
        ensures
            yes == at_char_boundary(self@, event),
    {
        match self.mode {
            Mode::Display => true,
            Mode::Editing => {
                proof {
                    self.lemma_fits();
                    lemma_note_deep_view(self.content);
                }
                match event {
                    Event::Key(k) => {
                        if !k.plain_press() {
                            return true;
                        }
                        let line = &self.content[self.cursor_line];
                        match k.code {
                            KeyCode::Char(_) => is_char_boundary(line, self.cursor_col),
                            KeyCode::Enter => is_char_boundary(line, self.cursor_col),
                            KeyCode::Backspace => {
                                if self.cursor_col > 0 {
                                    is_char_boundary(line, self.cursor_col - 1)
                                } else {
                                    true
                                }
                            },
                            _ => true,
                        }
                    },
                    Event::Other => true,
                }
            },
        }
    }
}

/// Every event keeps the cursor on the note: on one of its lines, at most
/// just after that line's last byte.
pub proof fn law_cursor_stays_on_the_note(s: NotebookState, e: Event)
    requires
        well_formed(s),
        at_char_boundary(s, e),
    ensures
        well_formed(next(s, e).0),
{
    if s.mode == Mode::Editing {
        match e {
            Event::Key(k) => {
                if k.is_plain_press() {
                    match k.code {
                        KeyCode::Char(c) => {
                            lemma_insert_at_boundary(cursor_text(s), s.col, c);
                        },
                        KeyCode::Backspace => {
                            if s.col > 0 {
                                lemma_remove_at_boundary(cursor_text(s), s.col - 1);
                            } else if s.line > 1 {
                                lemma_byte_len_concat(s.lines[s.line - 1], s.lines[s.line]);
                                assert(s.lines.remove(s.line).update(
                                    s.line - 1,
                                    s.lines[s.line - 1] + s.lines[s.line],
                                )[s.line - 1] == s.lines[s.line - 1] + s.lines[s.line]);
                            }
                        },
                        _ => {},
                    }
                }
            },
            Event::Other => {},
        }
    }
}

impl Notebook {
    /// Takes one event and says what the terminal or the files must do.
    /// On the room list, Ctrl+E exports, Ctrl+Q quits, Ctrl+L asks which room
    /// to open (each pressed), and Ctrl+R asks which room to rename. In a
    /// note, only keys pressed with no modifier count: a character goes in at
    /// the cursor, Backspace and Enter edit lines, the arrows move the
    /// cursor, and Esc saves the note and goes back to the room list.
    pub fn handle(&mut self, event: Event) -> (cmd: Command)
        requires
            old(self).wf(),
            old(self).mode == Mode::Editing ==> note_fits(old(self)@),
            at_char_boundary(old(self)@, event),
        ensures
            final(self)@ == next(old(self)@, event).0,
            cmd@ == next(old(self)@, event).1,
            final(self).wf(),
    {
        proof {
            law_cursor_stays_on_the_note(self@, event);
        }
        match self.mode {
            Mode::Display => match event {
                Event::Key(k) => match (k.code, k.modifiers, k.kind) {
                    (KeyCode::Char('e'), Modifiers::Control, KeyKind::Press) => Command::Export,
                    (KeyCode::Char('q'), Modifiers::Control, KeyKind::Press) => {
                        self.quit = true;
                        Command::Quit
                    },
                    (KeyCode::Char('l'), Modifiers::Control, KeyKind::Press) => {
                        Command::ChooseRoomToOpen
                    },
                    (KeyCode::Char('r'), Modifiers::Control, _) => Command::ChooseRoomToRename,
                    _ => Command::Nothing,
                },
                Event::Other => Command::Nothing,
            },
            Mode::Editing => match event {
                Event::Key(k) => {
                    if !k.plain_press() {
                        return Command::Nothing;
                    }
                    match k.code {
                        KeyCode::Char(c) => self.type_char(c),
                        KeyCode::Backspace => {
                            self.backspace();
                            Command::Redraw
                        },
                        KeyCode::Enter => {
                            self.break_line();
                            Command::Redraw
                        },
                        KeyCode::Left => {
                            self.arrow(Direction::Left);
                            Command::PlaceCursor
                        },
                        KeyCode::Right => {
                            self.arrow(Direction::Right);
                            Command::PlaceCursor
                        },
                        KeyCode::Up => {
                            self.arrow(Direction::Up);
                            Command::PlaceCursor
                        },
                        KeyCode::Down => {
                            self.arrow(Direction::Down);
                            Command::PlaceCursor
                        },
                        KeyCode::Esc => self.put_away_note(),
                        KeyCode::Other => Command::Nothing,
                    }
                },
                Event::Other => Command::Nothing,
            },
        }
    }

    /// Opens the note of room `room` with the lines read from its file and
    /// starts editing it: a file with no lines gives the one line `unknown`,
    /// and the cursor goes to the end of the last line.
    pub fn open_room(&mut self, room: u8, lines: Vec<Vec<char>>)
        requires
            lines_fit(lines@),
        ensures
            final(self)@ == opened(old(self)@, room as int, lines.deep_view()),
            final(self).wf(),
    {
        let ghost read = lines.deep_view();
        proof {
            lemma_note_deep_view(lines);
        }
        let mut lines = lines;
        let empty = lines.len() == 0;
        if empty {
            lines.push(unknown());
        }
        let last = lines.len() - 1;
        let col = if empty {
            proof {
                reveal_with_fuel(byte_len, 8);
                assert(lines@[0]@.drop_last().drop_last().drop_last().drop_last().drop_last().drop_last().drop_last() =~= Seq::<char>::empty());
            }
            7
        } else {
            line_byte_len(&lines[last])
        };
        self.cursor_line = last;
        self.cursor_col = col;
        self.content = lines;
        self.room = room as usize;
        self.mode = Mode::Editing;
        proof {
            lemma_note_deep_view(self.content);
            let ghost expected = opened(old(self)@, room as int, read).lines;
            if read.len() == 0 {
                assert(lines@[0]@ == seq!['u', 'n', 'k', 'n', 'o', 'w', 'n']);
            } else {
                assert(read =~= lines.deep_view());
            }
            assert(self.content.deep_view() =~= expected);
        }
    }

    /// Renames room `room` (counted from 1) to `name`, and gives the new text
    /// of its note file: the name as the first line, then `rest`, the lines
    /// of the file after its first.
    pub fn rename_room(&mut self, room: u8, name: Vec<char>, rest: &Vec<Vec<char>>) -> (text: Vec<
        char,
    >)
        requires
            1 <= room <= old(self).room_names.len(),
        ensures
            final(self)@ == (NotebookState {
                names: old(self)@.names.update(room - 1, name@),
                ..old(self)@
            }),
            text@ == join_lines(seq![name@] + rest.deep_view()),
    {
        let index = (room - 1) as usize;
        let mut file_lines: Vec<Vec<char>> = Vec::new();
        file_lines.push(copy_line(&name));
        proof {
            lemma_note_deep_view(file_lines);
            assert(file_lines.deep_view() =~= seq![name@] + rest.deep_view().take(0));
        }
        let mut i: usize = 0;
        while i < rest.len()
            invariant
                i <= rest.len(),
                file_lines.deep_view() == seq![name@] + rest.deep_view().take(i as int),
            decreases rest.len() - i,
        {
            let ghost before = file_lines.deep_view();
            let ghost old_lines = file_lines;
            let line = copy_line(&rest[i]);
            proof {
                lemma_note_deep_view(*rest);
                lemma_note_deep_view(file_lines);
            }
            file_lines.push(line);
            proof {
                lemma_note_deep_view(file_lines);
                assert(rest.deep_view()[i as int] == rest@[i as int]@);
                assert(file_lines.deep_view()[i + 1] == line@);
                assert forall|k: int| 0 <= k < i + 1 implies #[trigger] file_lines.deep_view()[k]
                    == before[k] by {
                    assert(file_lines@[k] == old_lines@[k]);
                }
                assert(file_lines.deep_view() =~= seq![name@] + rest.deep_view().take(i + 1));
            }
            i = i + 1;
        }
        let text = join_with_newlines(&file_lines);
        proof {
            assert(rest.deep_view().take(rest.len() as int) =~= rest.deep_view());
            lemma_note_deep_view(self.room_names);
        }
        self.room_names.set(index, name);
        proof {
            lemma_note_deep_view(self.room_names);
            assert(self.room_names.deep_view() =~= old(self)@.names.update(room - 1, name@));
        }
        text
    }

    /// The lines of the room list: each room's number, counted from 1, a
    /// colon, a space, and its name.
    pub fn room_listing(&self) -> (listing: Vec<Vec<char>>)
        ensures
            listing.deep_view().len() == self@.names.len(),
            forall|i: int|
                0 <= i < self@.names.len() ==> #[trigger] listing.deep_view()[i] == listing_line(
                    i,
                    self@.names[i],
                ),
    {
        let mut listing: Vec<Vec<char>> = Vec::new();
        let n = self.room_names.len();
        let mut i: usize = 0;
        proof {
            lemma_note_deep_view(self.room_names);
        }
        while i < n
            invariant
                n == self.room_names.len(),
                i <= n,
                listing@.len() == i,
                forall|k: int| 0 <= k < self.room_names@.len() ==> #[trigger] self@.names[k]
                    == self.room_names@[k]@,
                forall|k: int| 0 <= k < i ==> #[trigger] listing@[k]@ == listing_line(
                    k,
                    self@.names[k],
                ),
            decreases n - i,
        {
            let mut line: Vec<char> = Vec::new();
            push_decimal(&mut line, (i + 1) as u64);
            line.push(':');
            line.push(' ');
            let name = &self.room_names[i];
            let mut j: usize = 0;
            let ghost head = line@;
            while j < name.len()
                invariant
                    j <= name.len(),
                    line@ == head + name@.take(j as int),
                decreases name.len() - j,
            {
                line.push(name[j]);
                j = j + 1;
            }
            proof {
                assert(name@.take(name.len() as int) == name@);
                assert(line@ =~= listing_line(i as int, self@.names[i as int]));
            }
            listing.push(line);
            i = i + 1;
        }
        proof {
            lemma_note_deep_view(listing);
        }
        listing
    }
}

/// A plain press of `code`.
pub open spec fn press(code: KeyCode) -> Event {
    Event::Key(KeyEvent { code, modifiers: Modifiers::Plain, kind: KeyKind::Press })
}

/// Backspace right after typing a character where one starts takes it
/// back: that Backspace cuts the line where a character starts, and the note
/// and the cursor are as before.
pub proof fn law_backspace_undoes_typing(s: NotebookState, c: char)
    requires
        well_formed(s),
        s.mode == Mode::Editing,
        is_boundary(cursor_text(s), s.col),
    ensures
        at_char_boundary(typed(s, c), press(KeyCode::Backspace)),
        backspaced(typed(s, c)) == s,
        next(next(s, press(KeyCode::Char(c))).0, press(KeyCode::Backspace)).0 == s,
{
    let l = cursor_text(s);
    lemma_insert_at_boundary(l, s.col, c);
    let k = char_index(l, s.col);
    assert(typed(s, c).lines[s.line] == l.insert(k, c));
    assert(l.insert(k, c).remove(k) =~= l);
    assert(s.lines.update(s.line, l.insert(k, c)).update(s.line, l) =~= s.lines);
}

/// Backspace at the start of a line that Enter just made joins it back: the
/// note and the cursor are as before, where the cursor was not on the first
/// line.
pub proof fn law_backspace_joins_a_broken_line(s: NotebookState)
    requires
        well_formed(s),
        s.mode == Mode::Editing,
        s.line >= 1,
        is_boundary(cursor_text(s), s.col),
    ensures
        backspaced(line_broken(s)) == s,
        next(next(s, press(KeyCode::Enter)).0, press(KeyCode::Backspace)).0 == s,
{
    let l = cursor_text(s);
    lemma_char_index(l, s.col);
    let k = char_index(l, s.col);
    let broken = line_broken(s);
    assert(broken.lines[s.line] == l.take(k));
    assert(broken.lines[s.line + 1] == l.skip(k));
    assert(l.take(k) + l.skip(k) =~= l);
    assert(broken.lines.remove(s.line + 1) =~= s.lines.update(s.line, l.take(k)));
    assert(s.lines.update(s.line, l.take(k)).update(s.line, l) =~= s.lines);
}

/// Right after a Left that moved the cursor brings it back.
pub proof fn law_right_undoes_left(s: NotebookState)
    requires
        well_formed(s),
        s.mode == Mode::Editing,
        arrowed(s, Direction::Left) != s,
    ensures
        arrowed(arrowed(s, Direction::Left), Direction::Right) == s,
{
}

/// Left after a Right that moved the cursor brings it back, where the
/// cursor was not on the first line.
pub proof fn law_left_undoes_right(s: NotebookState)
    requires
        well_formed(s),
        s.mode == Mode::Editing,
        s.line >= 1,
        arrowed(s, Direction::Right) != s,
    ensures
        arrowed(arrowed(s, Direction::Right), Direction::Left) == s,
{
}

/// Up after a Down that moved the cursor brings it back, where the cursor
/// was not on the first line and the line below is long enough to hold its
/// column.
pub proof fn law_up_undoes_down(s: NotebookState)
    requires
        well_formed(s),
        s.mode == Mode::Editing,
        s.line >= 1,
        s.line + 1 < s.lines.len(),
        s.col <= byte_len(s.lines[s.line + 1]),
    ensures
        arrowed(arrowed(s, Direction::Down), Direction::Up) == s,
{
}

/// Down after an Up that moved the cursor brings it back, where the line
/// above is long enough to hold its column.
pub proof fn law_down_undoes_up(s: NotebookState)
    requires
        well_formed(s),
        s.mode == Mode::Editing,
        s.line > 1,
        s.col <= byte_len(s.lines[s.line - 1]),
    ensures
        arrowed(arrowed(s, Direction::Up), Direction::Down) == s,
{
}

/// Once the cursor is off the first line of a note (the room's name), no
/// key brings it back there, and no key changes that line.
pub proof fn law_first_line_is_kept(s: NotebookState, e: Event)
    requires
        well_formed(s),
        s.mode == Mode::Editing,
        s.line >= 1,
    ensures
        next(s, e).0.mode == Mode::Editing ==> {
            &&& next(s, e).0.line >= 1
            &&& next(s, e).0.lines[0] == s.lines[0]
        },
{
    if s.line > 1 {
        assert(s.lines.remove(s.line).update(s.line - 1, s.lines[s.line - 1] + s.lines[s.line])[0]
            == s.lines[0]);
    }
    assert(line_broken(s).lines[0] == s.lines[0]);
}

/// Esc saves the note as the text that, read back and opened in the same
/// room, gives the same lines again, where no line holds a newline or ends
/// with a carriage return and the last line is not empty.
pub proof fn law_saved_note_reads_back(s: NotebookState)
    requires
        well_formed(s),
        s.mode == Mode::Editing,
        survives_saving(s.lines),
    ensures
        next(s, press(KeyCode::Esc)).1 matches CommandView::Save { room, text } && room == s.room
            && opened(next(s, press(KeyCode::Esc)).0, room, lines_of(text)).lines == s.lines,
{
    lemma_lines_of_join(s.lines);
}

/// Typing `c` where a character starts draws the typed character: the tail
/// drawn at the cursor's line and column starts with `c`, and the new line is
/// the characters before the cursor (which take exactly the cursor's column
/// in bytes) followed by that tail, which is `c` and then the rest of the
/// old line.
pub proof fn law_typing_draws_the_typed_character(s: NotebookState, c: char)
    requires
        well_formed(s),
        s.mode == Mode::Editing,
        is_boundary(cursor_text(s), s.col),
    ensures
        next(s, press(KeyCode::Char(c))).1 matches CommandView::DrawTail { line, col, tail } && {
            &&& line == s.line
            &&& col == s.col
            &&& tail.len() >= 1
            &&& tail[0] == c
            &&& exists|k: int|
                0 <= k <= cursor_text(s).len() && byte_len(#[trigger] cursor_text(s).take(k))
                    == s.col && next(s, press(KeyCode::Char(c))).0.lines[s.line] == cursor_text(
                    s,
                ).take(k) + tail && tail == seq![c] + cursor_text(s).skip(k)
        },
{
    let l = cursor_text(s);
    lemma_char_index(l, s.col);
    let k = char_index(l, s.col);
    let m = l.insert(k, c);
    assert(m =~= l.take(k) + (seq![c] + l.skip(k)));
    assert(m.skip(k) =~= seq![c] + l.skip(k));
    assert(typed(s, c).lines[s.line] == m);
    assert(byte_len(l.take(k)) == s.col);
}

/// Every arrow key pressed with no modifier in a note moves the cursor as
/// [`moved`] says and asks for the cursor to be placed on screen; the note's
/// lines stay as they were.
pub proof fn law_arrows_place_the_cursor(s: NotebookState, d: Direction)
    requires
        s.mode == Mode::Editing,
    ensures
        ({
            let code = match d {
                Direction::Left => KeyCode::Left,
                Direction::Right => KeyCode::Right,
                Direction::Up => KeyCode::Up,
                Direction::Down => KeyCode::Down,
            };
            &&& next(s, press(code)).1 == CommandView::PlaceCursor
            &&& next(s, press(code)).0.lines == s.lines
            &&& next(s, press(code)).0.mode == Mode::Editing
            &&& (next(s, press(code)).0.line, next(s, press(code)).0.col) == moved(
                s.lines,
                s.line,
                s.col,
                d,
            )
        }),
{
}

/// Opening a room makes it the open room, whatever its file held: Esc then
/// saves into that room's file its lines joined by newlines, or `unknown`
/// for an empty file.
pub proof fn law_opening_chooses_the_room(s: NotebookState, room: int, lines: Seq<Seq<char>>)
    ensures
        opened(s, room, lines).room == room,
        opened(s, room, lines).mode == Mode::Editing,
        next(opened(s, room, lines), press(KeyCode::Esc)).1 matches CommandView::Save { room: r, text }
            && r == room && text == if lines.len() == 0 {
            seq!['u', 'n', 'k', 'n', 'o', 'w', 'n']
        } else {
            join_lines(lines)
        },
{
    if lines.len() == 0 {
        assert(join_lines(seq![seq!['u', 'n', 'k', 'n', 'o', 'w', 'n']]) == seq![
            'u',
            'n',
            'k',
            'n',
            'o',
            'w',
            'n',
        ]);
    }
}

} // verus!
