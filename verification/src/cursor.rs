//! Moving the cursor through the lines of a note. Columns count bytes of
//! the line's UTF-8 encoding.

use vstd::prelude::*;
use crate::bytes::{byte_len, line_byte_len};

verus! {

/// An arrow key.
#[derive(Clone, Copy, Debug, PartialEq, Eq, Structural)]
pub enum Direction {
    Left,
    Right,
    Up,
    Down,
}

/// The smaller of two integers.
pub open spec fn min_int(a: int, b: int) -> int {
    if a <= b { a } else { b }
}

/// Where the cursor `(line, col)` goes in `lines` on an arrow key, as
/// `(line, col)`; columns count bytes. Left and Right move one byte; moving
/// to another line puts the cursor at the end of the line above or at the
/// start of the line below. The first line (the room's name) is never
/// entered by moving left or up from another line.
pub open spec fn moved(lines: Seq<Seq<char>>, line: int, col: int, d: Direction) -> (int, int) {
    match d {
        Direction::Left => if col > 0 {
            (line, col - 1)
        } else if line > 1 {
            (line - 1, byte_len(lines[line - 1]) as int)
        } else {
            (line, col)
        },
        Direction::Right => if col < byte_len(lines[line]) {
            (line, col + 1)
        } else if line + 1 < lines.len() {
            (line + 1, 0)
        } else {
            (line, col)
        },
        Direction::Up => if line > 1 {
            (line - 1, min_int(col, byte_len(lines[line - 1]) as int))
        } else {
            (line, col)
        },
        Direction::Down => if line + 1 < lines.len() {
            (line + 1, min_int(col, byte_len(lines[line + 1]) as int))
        } else {
            (line, col)
        },
    }
}

/// Whether every line of `content` has a byte length that fits in a
/// `usize`, as every `String`'s does.
pub open spec fn lines_fit(content: Seq<Vec<char>>) -> bool {
    forall|i: int| 0 <= i < content.len() ==> byte_len(#[trigger] content[i]@) <= usize::MAX
}

/// Moves the cursor `(cursor_line, cursor_col)` through `content` as an arrow
/// key does; the column counts bytes.
pub fn move_cursor(
    content: &Vec<Vec<char>>,
    cursor_col: &mut usize,
    cursor_line: &mut usize,
    direction: Direction,
)
    requires
        lines_fit(content@),
        direction == Direction::Right ==> *old(cursor_line) < content.len(),
        direction == Direction::Left && *old(cursor_col) == 0 && *old(cursor_line) > 1
            ==> *old(cursor_line) <= content.len(),
        direction == Direction::Up && *old(cursor_line) > 1 ==> *old(cursor_line)
            <= content.len(),
        direction == Direction::Down ==> *old(cursor_line) < usize::MAX,
    ensures
        (*final(cursor_line) as int, *final(cursor_col) as int) == moved(
            content.deep_view(),
            *old(cursor_line) as int,
            *old(cursor_col) as int,
            direction,
        ),
{
    proof {
        assert forall|i: int| 0 <= i < content@.len() implies #[trigger] content.deep_view()[i]
            == content@[i]@ by {
            assert(content@[i].deep_view() =~= content@[i]@);
        }
    }
    match direction {
        Direction::Left => {
            if *cursor_col > 0 {
                *cursor_col = *cursor_col - 1;
            } else if *cursor_line > 1 {
                *cursor_line = *cursor_line - 1;
                *cursor_col = line_byte_len(&content[*cursor_line]);
            }
        },
        Direction::Right => {
            if *cursor_col < line_byte_len(&content[*cursor_line]) {
                *cursor_col = *cursor_col + 1;
            } else if *cursor_line + 1 < content.len() {
                *cursor_line = *cursor_line + 1;
                *cursor_col = 0;
            }
        },
        Direction::Up => {
            if *cursor_line > 1 {
                *cursor_line = *cursor_line - 1;
                let len = line_byte_len(&content[*cursor_line]);
                if len < *cursor_col {
                    *cursor_col = len;
                }
            }
        },
        Direction::Down => {
            if *cursor_line + 1 < content.len() {
                *cursor_line = *cursor_line + 1;
                let len = line_byte_len(&content[*cursor_line]);
                if len < *cursor_col {
                    *cursor_col = len;
                }
            }
        },
    }
}

} // verus!
