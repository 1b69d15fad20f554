//! Text as the notebook stores it: a line is a sequence of characters, a note
//! is a sequence of lines. Joining lines, writing numbers in decimal, and
//! trimming the end of a line.

use vstd::prelude::*;

verus! {

/// The lines joined into one text, with a newline between each two of them
/// and none after the last.
pub open spec fn join_lines(lines: Seq<Seq<char>>) -> Seq<char>
    decreases lines.len(),
{
    if lines.len() == 0 {
        Seq::empty()
    } else if lines.len() == 1 {
        lines[0]
    } else {
        lines[0] + seq!['\n'] + join_lines(lines.drop_first())
    }
}

/// Joining one more line adds a newline and that line.
pub proof fn lemma_join_push(lines: Seq<Seq<char>>, line: Seq<char>)
    ensures
        join_lines(lines.push(line)) == if lines.len() == 0 {
            line
        } else {
            join_lines(lines) + seq!['\n'] + line
        },
    decreases lines.len(),
{
    if lines.len() == 0 {
        assert(lines.push(line).len() == 1);
        assert(lines.push(line)[0] == line);
    } else if lines.len() == 1 {
        assert(lines.push(line).drop_first() =~= seq![line]);
        assert(join_lines(seq![line]) == line);
        assert(lines.push(line)[0] == lines[0]);
    } else {
        assert(lines.push(line)[0] == lines[0]);
        assert(lines.push(line).drop_first() =~= lines.drop_first().push(line));
        lemma_join_push(lines.drop_first(), line);
        assert(lines[0] + seq!['\n'] + (join_lines(lines.drop_first()) + seq!['\n'] + line)
            =~= lines[0] + seq!['\n'] + join_lines(lines.drop_first()) + seq!['\n'] + line);
    }
}

/// The deep view of a line is its characters.
pub proof fn lemma_line_deep_view(line: Vec<char>)
    ensures
        line.deep_view() == line@,
{
    assert(line.deep_view() =~= line@);
}

/// Appends the characters of `line` to `text`.
fn push_all(text: &mut Vec<char>, line: &Vec<char>)
    ensures
        final(text)@ == old(text)@ + line@,
{
    let mut j: usize = 0;
    while j < line.len()
        invariant
            j <= line.len(),
            text@ == old(text)@ + line@.take(j as int),
        decreases line.len() - j,
    {
        text.push(line[j]);
        j = j + 1;
    }
    assert(line@.take(line.len() as int) == line@);
}

/// Joins `lines` with a newline between each two of them.
pub fn join_with_newlines(lines: &Vec<Vec<char>>) -> (text: Vec<char>)
    ensures
        text@ == join_lines(lines.deep_view()),
{
    let mut text: Vec<char> = Vec::new();
    let n = lines.len();
    let ghost all = lines.deep_view();
    let mut i: usize = 0;
    while i < n
        invariant
            n == lines.len(),
            all == lines.deep_view(),
            i <= n,
            text@ == join_lines(all.take(i as int)),
        decreases n - i,
    {
        if i > 0 {
            text.push('\n');
        }
        push_all(&mut text, &lines[i]);
        proof {
            assert(all.take(i + 1) == all.take(i as int).push(all[i as int]));
            lemma_join_push(all.take(i as int), all[i as int]);
        }
        i = i + 1;
    }
    proof {
        assert(all.take(n as int) == all);
    }
    text
}

/// Whether `line` holds no newline.
pub open spec fn no_newline(line: Seq<char>) -> bool {
    forall|k: int| 0 <= k < line.len() ==> #[trigger] line[k] != '\n'
}

/// How many characters of `text` come before its first newline (all of
/// them where it has none).
pub open spec fn piece_len(text: Seq<char>) -> nat
    decreases text.len(),
{
    if text.len() == 0 {
        0
    } else if text[0] == '\n' {
        0
    } else {
        1 + piece_len(text.drop_first())
    }
}

/// `line` without one carriage return at its end.
pub open spec fn strip_cr(line: Seq<char>) -> Seq<char> {
    if line.len() > 0 && line.last() == '\r' {
        line.drop_last()
    } else {
        line
    }
}

/// The lines of a note file's text: the text is cut at each newline; a line
/// that a newline ends loses one carriage return before it; a last line
/// with no newline after it counts where it is not empty.
pub open spec fn lines_of(text: Seq<char>) -> Seq<Seq<char>>
    decreases text.len(),
{
    if text.len() == 0 {
        Seq::empty()
    } else if piece_len(text) >= text.len() {
        seq![text]
    } else {
        seq![strip_cr(text.take(piece_len(text) as int))] + lines_of(
            text.skip(piece_len(text) + 1 as int),
        )
    }
}

/// The first `m` characters hold no newline, and the text ends or has a
/// newline right after them: the first line is `m` characters long.
pub proof fn lemma_piece_len(text: Seq<char>, m: int)
    requires
        0 <= m <= text.len(),
        forall|k: int| 0 <= k < m ==> #[trigger] text[k] != '\n',
        m == text.len() || text[m] == '\n',
    ensures
        piece_len(text) == m,
    decreases m,
{
    if m > 0 {
        let rest = text.drop_first();
        assert forall|k: int| 0 <= k < m - 1 implies #[trigger] rest[k] != '\n' by {
            assert(rest[k] == text[k + 1]);
        }
        if m - 1 < rest.len() {
            assert(rest[m - 1] == text[m]);
        }
        lemma_piece_len(rest, m - 1);
    }
}

/// The first line of a text holds no newline, and a newline follows it
/// unless it runs to the end.
pub proof fn lemma_piece_len_props(text: Seq<char>)
    ensures
        piece_len(text) <= text.len(),
        forall|j: int| 0 <= j < piece_len(text) ==> #[trigger] text[j] != '\n',
        piece_len(text) < text.len() ==> text[piece_len(text) as int] == '\n',
    decreases text.len(),
{
    if text.len() > 0 && text[0] != '\n' {
        let rest = text.drop_first();
        lemma_piece_len_props(rest);
        assert forall|j: int| 0 <= j < piece_len(text) implies #[trigger] text[j] != '\n' by {
            if j > 0 {
                assert(text[j] == rest[j - 1]);
            }
        }
        if piece_len(text) < text.len() {
            assert(text[piece_len(text) as int] == rest[piece_len(rest) as int]);
        }
    }
}

/// Reading two texts one after the other, where the first is empty or ends
/// with a newline, gives the lines of the first and then those of the second.
pub proof fn lemma_lines_of_concat(a: Seq<char>, b: Seq<char>)
    requires
        a.len() == 0 || a.last() == '\n',
    ensures
        lines_of(a + b) == lines_of(a) + lines_of(b),
    decreases a.len(),
{
    if a.len() == 0 {
        assert(a + b =~= b);
        assert(lines_of(a) + lines_of(b) =~= lines_of(b));
    } else {
        lemma_piece_len_props(a);
        let k = piece_len(a) as int;
        if k >= a.len() {
            assert(a[a.len() - 1] != '\n');
        }
        let t = a + b;
        assert forall|j: int| 0 <= j < k implies #[trigger] t[j] != '\n' by {
            assert(t[j] == a[j]);
        }
        assert(t[k] == a[k]);
        lemma_piece_len(t, k);
        assert(t.take(k) =~= a.take(k));
        let rest = a.skip(k + 1);
        assert(t.skip(k + 1) =~= rest + b);
        if rest.len() > 0 {
            assert(rest.last() == a.last());
        }
        lemma_lines_of_concat(rest, b);
        assert(seq![strip_cr(a.take(k))] + (lines_of(rest) + lines_of(b)) =~= (seq![
            strip_cr(a.take(k)),
        ] + lines_of(rest)) + lines_of(b));
    }
}

/// Whether no line of `lines` holds a newline or ends with a carriage return.
pub open spec fn plain_lines(lines: Seq<Seq<char>>) -> bool {
    forall|i: int|
        0 <= i < lines.len() ==> no_newline(#[trigger] lines[i]) && strip_cr(lines[i]) == lines[i]
}

/// Reading back lines joined by newlines, with one more newline at the end,
/// gives those lines, empty ones included, where no line holds a newline or
/// ends with a carriage return.
pub proof fn lemma_lines_of_join_newline(lines: Seq<Seq<char>>)
    requires
        lines.len() >= 1,
        plain_lines(lines),
    ensures
        lines_of(join_lines(lines) + seq!['\n']) == lines,
    decreases lines.len(),
{
    let first = lines[0];
    let a = first + seq!['\n'];
    assert(no_newline(first));
    assert forall|j: int| 0 <= j < first.len() implies #[trigger] a[j] != '\n' by {
        assert(a[j] == first[j]);
    }
    lemma_piece_len(a, first.len() as int);
    assert(a.take(first.len() as int) =~= first);
    assert(a.skip(first.len() + 1 as int) =~= Seq::<char>::empty());
    assert(strip_cr(lines[0]) == lines[0]);
    assert(lines_of(Seq::<char>::empty()) == Seq::<Seq<char>>::empty());
    assert(lines_of(a) == seq![strip_cr(a.take(first.len() as int))] + lines_of(
        a.skip(first.len() + 1 as int),
    ));
    assert(lines_of(a) =~= seq![first]);
    if lines.len() == 1 {
        assert(join_lines(lines) + seq!['\n'] =~= a);
        assert(lines =~= seq![first]);
    } else {
        let rest = lines.drop_first();
        assert forall|i: int| 0 <= i < rest.len() implies no_newline(#[trigger] rest[i])
            && strip_cr(rest[i]) == rest[i] by {
            assert(rest[i] == lines[i + 1]);
        }
        lemma_lines_of_join_newline(rest);
        assert(join_lines(lines) + seq!['\n'] =~= a + (join_lines(rest) + seq!['\n']));
        lemma_lines_of_concat(a, join_lines(rest) + seq!['\n']);
        assert(seq![first] + rest =~= lines);
    }
}

/// Cuts the text of a note file into its lines.
pub fn note_lines(text: &Vec<char>) -> (lines: Vec<Vec<char>>)
    ensures
        lines.deep_view() == lines_of(text@),
{
    let ghost t = text@;
    let mut lines: Vec<Vec<char>> = Vec::new();
    let mut current: Vec<char> = Vec::new();
    let ghost mut start: int = 0;
    let n = text.len();
    let mut i: usize = 0;
    proof {
        assert(lines.deep_view() =~= Seq::<Seq<char>>::empty());
        assert(t.skip(0) =~= t);
        assert(Seq::<Seq<char>>::empty() + lines_of(t) =~= lines_of(t));
    }
    while i < n
        invariant
            n == text.len(),
            t == text@,
            0 <= start <= i <= n,
            current@ == t.subrange(start, i as int),
            forall|k: int| start <= k < i ==> #[trigger] t[k] != '\n',
            lines_of(t) == lines.deep_view() + lines_of(t.skip(start)),
        decreases n - i,
    {
        let c = text[i];
        if c == '\n' {
            proof {
                let u = t.skip(start);
                let m = i - start;
                assert forall|k: int| 0 <= k < m implies #[trigger] u[k] != '\n' by {
                    assert(u[k] == t[start + k]);
                }
                assert(u[m] == t[i as int]);
                lemma_piece_len(u, m);
                assert(u.take(m) == current@);
                assert(u.skip(m + 1) == t.skip(i + 1));
                assert(lines_of(u) == seq![strip_cr(current@)] + lines_of(t.skip(i + 1)));
            }
            if current.len() > 0 && current[current.len() - 1] == '\r' {
                current.pop();
            }
            let ghost before = lines.deep_view();
            proof {
                lemma_line_deep_view(current);
            }
            lines.push(current);
            proof {
                assert(lines.deep_view() =~= before.push(strip_cr(t.subrange(start, i as int))));
                assert(before + (seq![strip_cr(t.subrange(start, i as int))] + lines_of(
                    t.skip(i + 1),
                )) == before.push(strip_cr(t.subrange(start, i as int))) + lines_of(
                    t.skip(i + 1),
                ));
            }
            current = Vec::new();
            proof {
                start = i + 1;
            }
        } else {
            current.push(c);
            proof {
                assert(t.subrange(start, i + 1) == t.subrange(start, i as int).push(c));
            }
        }
        i = i + 1;
    }
    proof {
        let u = t.skip(start);
        assert(u == current@);
        if u.len() > 0 {
            assert forall|k: int| 0 <= k < u.len() implies #[trigger] u[k] != '\n' by {
                assert(u[k] == t[start + k]);
            }
            lemma_piece_len(u, u.len() as int);
        }
    }
    if current.len() > 0 {
        let ghost before = lines.deep_view();
        proof {
            lemma_line_deep_view(current);
        }
        lines.push(current);
        proof {
            assert(lines.deep_view() =~= before.push(t.skip(start)));
        }
    } else {
        proof {
            assert(lines.deep_view() + Seq::<Seq<char>>::empty() == lines.deep_view());
        }
    }
    lines
}

/// Whether the lines of a note come back unchanged once saved and read
/// again: no line holds a newline or ends with a carriage return, and the
/// last line is not empty.
pub open spec fn survives_saving(lines: Seq<Seq<char>>) -> bool {
    &&& lines.len() >= 1
    &&& forall|i: int| 0 <= i < lines.len() ==> no_newline(#[trigger] lines[i])
    &&& forall|i: int| 0 <= i < lines.len() ==> strip_cr(#[trigger] lines[i]) == lines[i]
    &&& lines.last().len() > 0
}

/// Reading back a text that joined lines gives those lines, where no line
/// holds a newline or ends with a carriage return and the last is not empty.
pub proof fn lemma_lines_of_join(lines: Seq<Seq<char>>)
    requires
        survives_saving(lines),
    ensures
        lines_of(join_lines(lines)) == lines,
    decreases lines.len(),
{
    let first = lines[0];
    assert(no_newline(first));
    if lines.len() == 1 {
        lemma_piece_len(first, first.len() as int);
        assert(lines =~= seq![first]);
    } else {
        let rest = lines.drop_first();
        let text = join_lines(lines);
        assert(text == first + seq!['\n'] + join_lines(rest));
        assert forall|k: int| 0 <= k < first.len() implies #[trigger] text[k] != '\n' by {
            assert(text[k] == first[k]);
        }
        assert(text[first.len() as int] == '\n');
        lemma_piece_len(text, first.len() as int);
        assert(text.take(first.len() as int) =~= first);
        assert(text.skip(first.len() + 1 as int) =~= join_lines(rest));
        assert(strip_cr(lines[0]) == lines[0]);
        assert forall|i: int| 0 <= i < rest.len() implies no_newline(#[trigger] rest[i]) by {
            assert(rest[i] == lines[i + 1]);
        }
        assert forall|i: int| 0 <= i < rest.len() implies strip_cr(#[trigger] rest[i])
            == rest[i] by {
            assert(rest[i] == lines[i + 1]);
        }
        lemma_lines_of_join(rest);
        assert(seq![first] + rest =~= lines);
    }
}

/// The character of a decimal digit `d` (0 to 9).
pub open spec fn digit_char(d: nat) -> char {
    ('0' as nat + d) as char
}

/// `n` written in decimal, without leading zeros.
pub open spec fn decimal(n: nat) -> Seq<char>
    decreases n,
{
    if n < 10 {
        seq![digit_char(n)]
    } else {
        decimal(n / 10).push(digit_char(n % 10))
    }
}

/// The character of the decimal digit `d`.
pub fn digit(d: u64) -> (c: char)
    requires
        d < 10,
    ensures
        c == digit_char(d as nat),
{
    let b: u8 = 48u8 + (d as u8);
    b as char
}

/// Appends `n`, written in decimal, to `out`.
pub fn push_decimal(out: &mut Vec<char>, n: u64)
    ensures
        final(out)@ == old(out)@ + decimal(n as nat),
    decreases n,
{
    if n >= 10 {
        push_decimal(out, n / 10);
    }
    out.push(digit(n % 10));
    proof {
        assert(decimal(n as nat) == if n < 10 {
            seq![digit_char(n as nat)]
        } else {
            decimal((n / 10) as nat).push(digit_char((n % 10) as nat))
        });
    }
}

/// Whether `c` has the Unicode White_Space property, which is what
/// `char::is_whitespace` tells: tab, line feed, vertical tab, form feed,
/// carriage return, space, next line, no-break space, Ogham space mark, the
/// spaces from en quad to hair space, line separator, paragraph separator,
/// narrow no-break space, medium mathematical space and ideographic space.
pub open spec fn white_space(c: char) -> bool {
    let u = c as u32;
    ||| 0x09 <= u <= 0x0d
    ||| u == 0x20
    ||| u == 0x85
    ||| u == 0xa0
    ||| u == 0x1680
    ||| 0x2000 <= u <= 0x200a
    ||| u == 0x2028
    ||| u == 0x2029
    ||| u == 0x202f
    ||| u == 0x205f
    ||| u == 0x3000
}

/// Whether `c` is white space.
pub fn is_white_space(c: char) -> (b: bool)
    ensures
        b == white_space(c),
{
    let u = c as u32;
    (0x09 <= u && u <= 0x0d) || u == 0x20 || u == 0x85 || u == 0xa0 || u == 0x1680 || (0x2000
        <= u && u <= 0x200a) || u == 0x2028 || u == 0x2029 || u == 0x202f || u == 0x205f || u
        == 0x3000
}

/// How many characters of `s` remain once the trailing white space is cut off.
pub open spec fn trimmed_len(s: Seq<char>) -> nat
    decreases s.len(),
{
    if s.len() == 0 {
        0
    } else if white_space(s.last()) {
        trimmed_len(s.drop_last())
    } else {
        s.len()
    }
}

/// `s` without its trailing white space.
pub open spec fn trim_end(s: Seq<char>) -> Seq<char> {
    s.take(trimmed_len(s) as int)
}

proof fn lemma_trimmed_len_bound(s: Seq<char>)
    ensures
        trimmed_len(s) <= s.len(),
    decreases s.len(),
{
    if s.len() > 0 && white_space(s.last()) {
        lemma_trimmed_len_bound(s.drop_last());
    }
}

/// Cuts the trailing white space off `line`.
pub fn trim_end_chars(line: &mut Vec<char>)
    ensures
        final(line)@ == trim_end(old(line)@),
{
    let ghost untrimmed = line@;
    while line.len() > 0 && is_white_space(line[line.len() - 1])
        invariant
            trimmed_len(line@) == trimmed_len(untrimmed),
            line@ == untrimmed.take(line@.len() as int),
            line@.len() <= untrimmed.len(),
        decreases line.len(),
    {
        line.pop();
    }
    proof {
        lemma_trimmed_len_bound(untrimmed);
        if line@.len() > 0 {
            assert(!white_space(line@.last()));
        }
    }
}

/// The text `unknown`, which stands for a room whose note file is empty.
pub fn unknown() -> (s: Vec<char>)
    ensures
        s@ == seq!['u', 'n', 'k', 'n', 'o', 'w', 'n'],
{
    vec!['u', 'n', 'k', 'n', 'o', 'w', 'n']
}

/// A room's name from the first line read from its note file, terminator
/// included: `None` where nothing could be read (the file is empty), which
/// names the room `unknown`; otherwise the line without its trailing white
/// space.
pub fn room_name(first_line: Option<Vec<char>>) -> (name: Vec<char>)
    ensures
        name@ == match first_line {
            None => seq!['u', 'n', 'k', 'n', 'o', 'w', 'n'],
            Some(l) => trim_end(l@),
        },
{
    match first_line {
        None => unknown(),
        Some(l) => {
            let mut l = l;
            trim_end_chars(&mut l);
            l
        },
    }
}

/// The name of the note file of room `room`: the room's number in decimal
/// followed by `.txt`.
pub fn note_file_name(room: u64) -> (name: Vec<char>)
    ensures
        name@ == decimal(room as nat) + seq!['.', 't', 'x', 't'],
{
    let mut name: Vec<char> = Vec::new();
    push_decimal(&mut name, room);
    name.push('.');
    name.push('t');
    name.push('x');
    name.push('t');
    name
}

/// `String::push` appends the character `ch` at the end of the string, as
/// its documentation says; trusted to do exactly that.
pub assume_specification[ String::push ](string: &mut String, ch: char)
    ensures
        final(string)@ == old(string)@.push(ch),
;

/// The characters `chars` as a `String`.
pub fn chars_to_string(chars: &Vec<char>) -> (s: String)
    ensures
        s@ == chars@,
{
    let mut s = String::new();
    let mut j: usize = 0;
    while j < chars.len()
        invariant
            j <= chars.len(),
            s@ == chars@.take(j as int),
        decreases chars.len() - j,
    {
        s.push(chars[j]);
        proof {
            assert(chars@.take(j + 1) == chars@.take(j as int).push(chars@[j as int]));
        }
        j = j + 1;
    }
    assert(chars@.take(chars.len() as int) == chars@);
    s
}

} // verus!
