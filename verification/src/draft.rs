//! A plain note editor that keeps a room's note as one text: characters are
//! appended at its end, Backspace takes the last one back, and Esc writes
//! the whole text to the room's file.

use vstd::prelude::*;
use crate::keys::{Event, KeyCode, KeyEvent, KeyKind, Modifiers};

verus! {

/// The plain editor: the room whose note is open, the note's text, whether
/// the text is being edited, and whether the editor quits.
pub struct Draft {
    pub room: u8,
    pub content: Vec<char>,
    pub editing: bool,
    pub quit: bool,
}

/// What the terminal or the files are asked to do after a key.
#[derive(Debug, PartialEq, Eq)]
pub enum DraftCommand {
    /// Nothing.
    Nothing,
    /// Leave the terminal's raw mode: the editor quits.
    Quit,
    /// Ask for the number of the room to open; see [`Draft::pick_room`].
    ChooseRoom,
    /// Move the cursor one column right.
    MoveRight,
    /// Show the character typed.
    Echo(char),
    /// Take the last character off the screen: one column left, a blank,
    /// one column left.
    Erase,
    /// Start a new line on the screen.
    NewLine,
    /// Write `text` into the note file of room `room`, and say that the
    /// note was saved.
    Save { room: u8, text: Vec<char> },
}

/// The plain editor as mathematical values.
pub struct DraftState {
    pub room: u8,
    pub text: Seq<char>,
    pub editing: bool,
    pub quit: bool,
}

/// A command as mathematical values.
pub enum DraftCommandView {
    Nothing,
    Quit,
    ChooseRoom,
    MoveRight,
    Echo(char),
    Erase,
    NewLine,
    Save { room: u8, text: Seq<char> },
}

impl View for Draft {
    type V = DraftState;

    open spec fn view(&self) -> DraftState {
        DraftState { room: self.room, text: self.content@, editing: self.editing, quit: self.quit }
    }
}

impl View for DraftCommand {
    type V = DraftCommandView;

    open spec fn view(&self) -> DraftCommandView {
        match self {
            DraftCommand::Nothing => DraftCommandView::Nothing,
            DraftCommand::Quit => DraftCommandView::Quit,
            DraftCommand::ChooseRoom => DraftCommandView::ChooseRoom,
            DraftCommand::MoveRight => DraftCommandView::MoveRight,
            DraftCommand::Echo(c) => DraftCommandView::Echo(*c),
            DraftCommand::Erase => DraftCommandView::Erase,
            DraftCommand::NewLine => DraftCommandView::NewLine,
            DraftCommand::Save { room, text } => DraftCommandView::Save { room: *room, text: text@ },
        }
    }
}

/// The state and the command after the event `e`. Away from a note, Ctrl+Q
/// quits, Ctrl+L asks for a room, and the right arrow moves the cursor,
/// whatever the key's kind. In a note, keys with no modifier count, whatever
/// their kind.
pub open spec fn draft_next(s: DraftState, e: Event) -> (DraftState, DraftCommandView) {
    match e {
        Event::Key(k) => if !s.editing {
            match (k.code, k.modifiers) {
                (KeyCode::Char('q'), Modifiers::Control) => (
                    DraftState { quit: true, ..s },
                    DraftCommandView::Quit,
                ),
                (KeyCode::Char('l'), Modifiers::Control) => (s, DraftCommandView::ChooseRoom),
                (KeyCode::Right, _) => (s, DraftCommandView::MoveRight),
                _ => (s, DraftCommandView::Nothing),
            }
        } else if k.modifiers == Modifiers::Plain {
            match k.code {
                KeyCode::Char(c) => (
                    DraftState { text: s.text.push(c), ..s },
                    DraftCommandView::Echo(c),
                ),
                KeyCode::Backspace => if s.text.len() > 0 {
                    (DraftState { text: s.text.drop_last(), ..s }, DraftCommandView::Erase)
                } else {
                    (s, DraftCommandView::Nothing)
                },
                KeyCode::Enter => (
                    DraftState { text: s.text.push('\n'), ..s },
                    DraftCommandView::NewLine,
                ),
                KeyCode::Esc => (
                    DraftState { editing: false, ..s },
                    DraftCommandView::Save { room: s.room, text: s.text },
                ),
                _ => (s, DraftCommandView::Nothing),
            }
        } else {
            (s, DraftCommandView::Nothing)
        },
        Event::Other => (s, DraftCommandView::Nothing),
    }
}

impl Draft {
    /// An editor away from any note, with room 1 chosen and no text.
    pub fn new() -> (d: Draft)
        ensures
            d@ == (DraftState { room: 1, text: Seq::empty(), editing: false, quit: false }),
    {
        Draft { room: 1, content: Vec::new(), editing: false, quit: false }
    }

    /// Takes one event and says what the terminal or the files must do.
    pub fn handle(&mut self, event: Event) -> (cmd: DraftCommand)
        ensures
            final(self)@ == draft_next(old(self)@, event).0,
            cmd@ == draft_next(old(self)@, event).1,
    {
        match event {
            Event::Key(k) => {
                if !self.editing {
                    match (k.code, k.modifiers) {
                        (KeyCode::Char('q'), Modifiers::Control) => {
                            self.quit = true;
                            DraftCommand::Quit
                        },
                        (KeyCode::Char('l'), Modifiers::Control) => DraftCommand::ChooseRoom,
                        (KeyCode::Right, _) => DraftCommand::MoveRight,
                        _ => DraftCommand::Nothing,
                    }
                } else {
                    match k.modifiers {
                        Modifiers::Plain => match k.code {
                            KeyCode::Char(c) => {
                                self.content.push(c);
                                DraftCommand::Echo(c)
                            },
                            KeyCode::Backspace => match self.content.pop() {
                                Some(_) => DraftCommand::Erase,
                                None => DraftCommand::Nothing,
                            },
                            KeyCode::Enter => {
                                self.content.push('\n');
                                DraftCommand::NewLine
                            },
                            KeyCode::Esc => {
                                self.editing = false;
                                let mut text: Vec<char> = Vec::new();
                                let mut j: usize = 0;
                                while j < self.content.len()
                                    invariant
                                        j <= self.content.len(),
                                        text@ == self.content@.take(j as int),
                                    decreases self.content.len() - j,
                                {
                                    text.push(self.content[j]);
                                    j = j + 1;
                                }
                                assert(self.content@.take(self.content.len() as int)
                                    == self.content@);
                                DraftCommand::Save { room: self.room, text }
                            },
                            _ => DraftCommand::Nothing,
                        },
                        _ => DraftCommand::Nothing,
                    }
                }
            },
            Event::Other => DraftCommand::Nothing,
        }
    }

    /// Chooses the room to open from the number entered: that room, or the
    /// room chosen before where the prompt was cancelled.
    pub fn pick_room(&mut self, choice: Option<u8>) -> (room: u8)
        ensures
            room == match choice {
                Some(n) => n,
                None => old(self).room,
            },
            final(self)@ == (DraftState { room, ..old(self)@ }),
    {
        let room = match choice {
            Some(n) => n,
            None => self.room,
        };
        self.room = room;
        room
    }

    /// Starts editing the text read from the chosen room's file.
    pub fn start_editing(&mut self, text: Vec<char>)
        ensures
            final(self)@ == (DraftState { text: text@, editing: true, ..old(self)@ }),
    {
        self.content = text;
        self.editing = true;
    }
}

/// In a note, Backspace right after typing a character takes it back.
pub proof fn law_draft_backspace_undoes_typing(s: DraftState, c: char, kind: KeyKind)
    requires
        s.editing,
    ensures
        draft_next(
            draft_next(
                s,
                Event::Key(KeyEvent { code: KeyCode::Char(c), modifiers: Modifiers::Plain, kind }),
            ).0,
            Event::Key(KeyEvent { code: KeyCode::Backspace, modifiers: Modifiers::Plain, kind }),
        ).0 == s,
{
    assert(s.text.push(c).drop_last() =~= s.text);
}

} // verus!
