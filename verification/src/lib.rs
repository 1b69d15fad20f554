//! A room notebook for a terminal: eleven rooms, each with a note file whose
//! first line is the room's name. The library holds the editing logic, the
//! input prompts and the text formats; the terminal and the files are driven
//! by the program around it.

pub mod keys;
pub mod bytes;
pub mod cursor;
pub mod text;
pub mod prompt;
pub mod notebook;
pub mod export;
pub mod resident;
pub mod draft;
