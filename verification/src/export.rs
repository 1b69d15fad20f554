//! Exporting: every room's note goes into one text, and each room's file
//! keeps only its first line.

use vstd::prelude::*;
use crate::text::{
    join_lines, join_with_newlines, lemma_join_push, lemma_lines_of_concat,
    lemma_lines_of_join_newline, lemma_piece_len, lines_of, no_newline, plain_lines, strip_cr,
};
use crate::notebook::lemma_note_deep_view;

verus! {

/// What one room's note adds to the export: its lines joined by newlines,
/// then an empty line; nothing for a note with no lines.
pub open spec fn export_entry(lines: Seq<Seq<char>>) -> Seq<char> {
    if lines.len() == 0 {
        Seq::empty()
    } else {
        join_lines(lines) + seq!['\n', '\n']
    }
}

/// The export of the notes `notes`, in their order.
pub open spec fn exported(notes: Seq<Seq<Seq<char>>>) -> Seq<char>
    decreases notes.len(),
{
    if notes.len() == 0 {
        Seq::empty()
    } else {
        exported(notes.drop_last()) + export_entry(notes.last())
    }
}

/// The text of all notes together: for each note that has lines, its lines
/// joined by newlines and an empty line after them.
pub fn export_notes(notes: &Vec<Vec<Vec<char>>>) -> (text: Vec<char>)
    ensures
        text@ == exported(notes.deep_view()),
{
    let mut text: Vec<char> = Vec::new();
    let n = notes.len();
    let ghost all = notes.deep_view();
    let mut i: usize = 0;
    while i < n
        invariant
            n == notes.len(),
            all == notes.deep_view(),
            i <= n,
            text@ == exported(all.take(i as int)),
        decreases n - i,
    {
        let note = &notes[i];
        let ghost before = text@;
        if note.len() > 0 {
            let joined = join_with_newlines(note);
            let mut j: usize = 0;
            while j < joined.len()
                invariant
                    j <= joined.len(),
                    text@ == before + joined@.take(j as int),
                decreases joined.len() - j,
            {
                text.push(joined[j]);
                j = j + 1;
            }
            text.push('\n');
            text.push('\n');
            proof {
                assert(joined@.take(joined.len() as int) == joined@);
                assert(text@ =~= before + (joined@ + seq!['\n', '\n']));
            }
        }
        proof {
            assert(all[i as int] == note.deep_view());
            assert(all.take(i + 1).drop_last() == all.take(i as int));
            assert(text@ =~= before + export_entry(all[i as int]));
        }
        i = i + 1;
    }
    proof {
        assert(all.take(n as int) == all);
    }
    text
}

/// What a room's file holds once exported: the first line of its note
/// (nothing where it had none), then a newline.
pub open spec fn kept_text(lines: Seq<Seq<char>>) -> Seq<char> {
    if lines.len() == 0 {
        seq!['\n']
    } else {
        lines[0] + seq!['\n']
    }
}

/// The text that a room's file keeps after the export: the note's first
/// line, or nothing where it had none, then a newline.
pub fn kept_first_line(lines: &Vec<Vec<char>>) -> (text: Vec<char>)
    ensures
        text@ == kept_text(lines.deep_view()),
{
    let mut text: Vec<char> = Vec::new();
    if lines.len() > 0 {
        let first = &lines[0];
        let mut j: usize = 0;
        while j < first.len()
            invariant
                j <= first.len(),
                text@ == first@.take(j as int),
            decreases first.len() - j,
        {
            text.push(first[j]);
            j = j + 1;
        }
        proof {
            assert(first@.take(first.len() as int) == first@);
            lemma_note_deep_view(*lines);
        }
    }
    text.push('\n');
    proof {
        if lines.len() == 0 {
            assert(text@ =~= seq!['\n']);
        }
    }
    text
}

/// After the export, reading a room's file back gives one line: the note's
/// first line without a carriage return at its end (an empty line where the
/// note had none), where that line holds no newline.
pub proof fn law_export_keeps_the_first_line(lines: Seq<Seq<char>>)
    requires
        lines.len() > 0 ==> no_newline(lines[0]),
    ensures
        lines_of(kept_text(lines)) == seq![strip_cr(if lines.len() == 0 {
            Seq::<char>::empty()
        } else {
            lines[0]
        })],
{
    let first = if lines.len() == 0 {
        Seq::<char>::empty()
    } else {
        lines[0]
    };
    let t = kept_text(lines);
    assert(t == first + seq!['\n']);
    assert forall|k: int| 0 <= k < first.len() implies #[trigger] t[k] != '\n' by {
        assert(t[k] == first[k]);
    }
    lemma_piece_len(t, first.len() as int);
    assert(t.take(first.len() as int) =~= first);
    assert(t.skip(first.len() + 1 as int) =~= Seq::<char>::empty());
    assert(lines_of(Seq::<char>::empty()) == Seq::<Seq<char>>::empty());
    assert(seq![strip_cr(first)] + Seq::<Seq<char>>::empty() =~= seq![strip_cr(first)]);
}

/// The first line of a note, or nothing where it has none.
pub open spec fn first_line(lines: Seq<Seq<char>>) -> Seq<char> {
    if lines.len() == 0 {
        Seq::empty()
    } else {
        lines[0]
    }
}

/// The lines read back from each room's file after an export.
pub open spec fn reread(notes: Seq<Seq<Seq<char>>>) -> Seq<Seq<Seq<char>>> {
    notes.map_values(|lines: Seq<Seq<char>>| lines_of(kept_text(lines)))
}

/// Each note's first line followed by an empty line, in order.
pub open spec fn first_lines_exported(notes: Seq<Seq<Seq<char>>>) -> Seq<char>
    decreases notes.len(),
{
    if notes.len() == 0 {
        Seq::empty()
    } else {
        first_lines_exported(notes.drop_last()) + first_line(notes.last()) + seq!['\n', '\n']
    }
}

/// Whether a note's first line holds no newline and does not end with a
/// carriage return.
pub open spec fn plain_first_line(lines: Seq<Seq<char>>) -> bool {
    no_newline(first_line(lines)) && strip_cr(first_line(lines)) == first_line(lines)
}

/// A second export right after the first leaves every room's file as the
/// first left it, and exports each note's first line followed by an empty
/// line, where no first line holds a newline or ends with a carriage return.
pub proof fn law_second_export_is_stable(notes: Seq<Seq<Seq<char>>>)
    requires
        forall|i: int| 0 <= i < notes.len() ==> plain_first_line(#[trigger] notes[i]),
    ensures
        forall|i: int|
            0 <= i < notes.len() ==> kept_text(#[trigger] reread(notes)[i]) == kept_text(notes[i]),
        exported(reread(notes)) == first_lines_exported(notes),
    decreases notes.len(),
{
    assert forall|i: int| 0 <= i < notes.len() implies kept_text(#[trigger] reread(notes)[i])
        == kept_text(notes[i]) && export_entry(reread(notes)[i]) == first_line(notes[i]) + seq![
        '\n',
        '\n',
    ] by {
        let l = notes[i];
        assert(plain_first_line(l));
        law_export_keeps_the_first_line(l);
        assert(reread(notes)[i] == seq![first_line(l)]);
        assert(join_lines(seq![first_line(l)]) == first_line(l));
    }
    if notes.len() > 0 {
        let rest = notes.drop_last();
        assert forall|i: int| 0 <= i < rest.len() implies plain_first_line(#[trigger] rest[i]) by {
            assert(rest[i] == notes[i]);
        }
        law_second_export_is_stable(rest);
        assert(reread(notes).drop_last() =~= reread(rest));
        assert(reread(notes).last() == reread(notes)[notes.len() - 1]);
    }
}

/// Reading back what one note adds to the export gives all the note's
/// lines, in order and blank ones included, then one empty line, where no
/// line holds a newline or ends with a carriage return.
pub proof fn law_export_entry_reads_back(lines: Seq<Seq<char>>)
    requires
        lines.len() > 0,
        plain_lines(lines),
    ensures
        lines_of(export_entry(lines)) == lines.push(Seq::<char>::empty()),
{
    let more = lines.push(Seq::<char>::empty());
    lemma_join_push(lines, Seq::<char>::empty());
    assert(join_lines(more) =~= join_lines(lines) + seq!['\n']);
    assert forall|i: int| 0 <= i < more.len() implies no_newline(#[trigger] more[i]) && strip_cr(
        more[i],
    ) == more[i] by {
        if i < lines.len() {
            assert(more[i] == lines[i]);
        } else {
            assert(more[i] == Seq::<char>::empty());
        }
    }
    lemma_lines_of_join_newline(more);
    assert(export_entry(lines) =~= join_lines(more) + seq!['\n']);
}

/// The lines that reading back an export gives: for each note with lines,
/// its lines and then an empty line.
pub open spec fn export_lines(notes: Seq<Seq<Seq<char>>>) -> Seq<Seq<char>>
    decreases notes.len(),
{
    if notes.len() == 0 {
        Seq::empty()
    } else if notes.last().len() == 0 {
        export_lines(notes.drop_last())
    } else {
        export_lines(notes.drop_last()) + notes.last().push(Seq::<char>::empty())
    }
}

/// An export is empty or ends with a newline.
proof fn lemma_exported_ends_with_newline(notes: Seq<Seq<Seq<char>>>)
    ensures
        exported(notes).len() == 0 || exported(notes).last() == '\n',
    decreases notes.len(),
{
    if notes.len() > 0 {
        lemma_exported_ends_with_newline(notes.drop_last());
    }
}

/// Reading back the whole export gives, note after note, each note's lines
/// (blank ones included) followed by an empty line, and nothing for a note
/// without lines, where no line holds a newline or ends with a carriage
/// return.
pub proof fn law_export_reads_back(notes: Seq<Seq<Seq<char>>>)
    requires
        forall|i: int| 0 <= i < notes.len() ==> plain_lines(#[trigger] notes[i]),
    ensures
        lines_of(exported(notes)) == export_lines(notes),
    decreases notes.len(),
{
    if notes.len() > 0 {
        let rest = notes.drop_last();
        assert forall|i: int| 0 <= i < rest.len() implies plain_lines(#[trigger] rest[i]) by {
            assert(rest[i] == notes[i]);
        }
        law_export_reads_back(rest);
        lemma_exported_ends_with_newline(rest);
        lemma_lines_of_concat(exported(rest), export_entry(notes.last()));
        assert(plain_lines(notes[notes.len() - 1]));
        if notes.last().len() == 0 {
            assert(lines_of(Seq::<char>::empty()) == Seq::<Seq<char>>::empty());
            assert(exported(notes) =~= exported(rest));
        } else {
            law_export_entry_reads_back(notes.last());
        }
        assert(lines_of(exported(rest)) + lines_of(export_entry(notes.last())) =~= export_lines(
            notes,
        ));
    }
}

} // verus!
