//! Positions in a line counted in bytes of its UTF-8 encoding, as a Rust
//! `String` counts them: a line's byte length, and which byte positions
//! start a character.

use vstd::prelude::*;

verus! {

/// How many bytes the UTF-8 encoding of `c` takes, as `char::len_utf8` says.
pub open spec fn utf8_len(c: char) -> nat {
    let u = c as u32;
    if u < 0x80 {
        1
    } else if u < 0x800 {
        2
    } else if u < 0x10000 {
        3
    } else {
        4
    }
}

/// How many bytes the UTF-8 encoding of the characters `s` takes.
pub open spec fn byte_len(s: Seq<char>) -> nat
    decreases s.len(),
{
    if s.len() == 0 {
        0
    } else {
        byte_len(s.drop_last()) + utf8_len(s.last())
    }
}

/// Whether the byte position `b` of the line `s` starts a character or is
/// its end.
pub open spec fn is_boundary(s: Seq<char>, b: int) -> bool {
    exists|k: int| 0 <= k <= s.len() && #[trigger] byte_len(s.take(k)) == b
}

/// How many characters come before the byte position `b` of `s`, where `b`
/// is a boundary.
pub open spec fn char_index(s: Seq<char>, b: int) -> int {
    choose|k: int| 0 <= k <= s.len() && #[trigger] byte_len(s.take(k)) == b
}

/// The bytes of all the lines together.
pub open spec fn total_bytes(lines: Seq<Seq<char>>) -> nat
    decreases lines.len(),
{
    if lines.len() == 0 {
        0
    } else {
        total_bytes(lines.drop_last()) + byte_len(lines.last())
    }
}

/// The byte length of two texts one after the other is the sum of theirs.
pub proof fn lemma_byte_len_concat(a: Seq<char>, b: Seq<char>)
    ensures
        byte_len(a + b) == byte_len(a) + byte_len(b),
    decreases b.len(),
{
    if b.len() == 0 {
        assert(a + b =~= a);
    } else {
        assert((a + b).drop_last() =~= a + b.drop_last());
        assert((a + b).last() == b.last());
        lemma_byte_len_concat(a, b.drop_last());
    }
}

/// Every character takes at least one byte.
pub proof fn lemma_byte_len_at_least_len(s: Seq<char>)
    ensures
        byte_len(s) >= s.len(),
    decreases s.len(),
{
    if s.len() > 0 {
        lemma_byte_len_at_least_len(s.drop_last());
    }
}

/// A longer start of a line takes more bytes.
pub proof fn lemma_byte_len_take(s: Seq<char>, i: int, j: int)
    requires
        0 <= i <= j <= s.len(),
    ensures
        byte_len(s.take(i)) + (j - i) <= byte_len(s.take(j)),
{
    assert(s.take(j) =~= s.take(i) + s.subrange(i, j));
    lemma_byte_len_concat(s.take(i), s.subrange(i, j));
    lemma_byte_len_at_least_len(s.subrange(i, j));
}

/// At a boundary there is exactly one count of characters before it.
pub proof fn lemma_char_index(s: Seq<char>, b: int)
    requires
        is_boundary(s, b),
    ensures
        0 <= char_index(s, b) <= s.len(),
        byte_len(s.take(char_index(s, b))) == b,
        forall|k: int| 0 <= k <= s.len() && #[trigger] byte_len(s.take(k)) == b ==> k == char_index(s, b),
{
    let c = char_index(s, b);
    assert forall|k: int| 0 <= k <= s.len() && #[trigger] byte_len(s.take(k)) == b implies k
        == c by {
        if k < c {
            lemma_byte_len_take(s, k, c);
        } else if c < k {
            lemma_byte_len_take(s, c, k);
        }
    }
}

/// The start `s.take(k)` of a line ends at a boundary.
pub proof fn lemma_take_is_boundary(s: Seq<char>, k: int)
    requires
        0 <= k <= s.len(),
    ensures
        is_boundary(s, byte_len(s.take(k)) as int),
        char_index(s, byte_len(s.take(k)) as int) == k,
{
    lemma_char_index(s, byte_len(s.take(k)) as int);
}

/// Each line takes at most the bytes of all, and two different lines
/// together too.
pub proof fn lemma_total_bytes(lines: Seq<Seq<char>>, i: int, j: int)
    requires
        0 <= i < lines.len(),
        0 <= j < lines.len(),
    ensures
        byte_len(lines[i]) <= total_bytes(lines),
        i != j ==> byte_len(lines[i]) + byte_len(lines[j]) <= total_bytes(lines),
    decreases lines.len(),
{
    let n = lines.len() - 1;
    if i < n && j < n {
        lemma_total_bytes(lines.drop_last(), i, j);
        assert(lines.drop_last()[i] == lines[i]);
        assert(lines.drop_last()[j] == lines[j]);
    } else if i < n {
        lemma_total_bytes(lines.drop_last(), i, i);
        assert(lines.drop_last()[i] == lines[i]);
    } else if j < n {
        lemma_total_bytes(lines.drop_last(), j, j);
        assert(lines.drop_last()[j] == lines[j]);
    }
}

/// How many bytes the UTF-8 encoding of `c` takes.
pub fn char_byte_len(c: char) -> (n: usize)
    ensures
        n == utf8_len(c),
{
    let u = c as u32;
    if u < 0x80 {
        1
    } else if u < 0x800 {
        2
    } else if u < 0x10000 {
        3
    } else {
        4
    }
}

/// The byte length of `line`.
pub fn line_byte_len(line: &Vec<char>) -> (n: usize)
    requires
        byte_len(line@) <= usize::MAX,
    ensures
        n == byte_len(line@),
{
    let mut n: usize = 0;
    let mut i: usize = 0;
    while i < line.len()
        invariant
            i <= line.len(),
            n == byte_len(line@.take(i as int)),
            byte_len(line@) <= usize::MAX,
        decreases line.len() - i,
    {
        proof {
            lemma_byte_len_take(line@, i + 1, line.len() as int);
            assert(line@.take(line.len() as int) =~= line@);
            assert(line@.take(i + 1).drop_last() =~= line@.take(i as int));
        }
        n = n + char_byte_len(line[i]);
        i = i + 1;
    }
    assert(line@.take(line.len() as int) =~= line@);
    n
}

/// The byte length of `line`, where it fits in a `usize`.
pub fn checked_line_byte_len(line: &Vec<char>) -> (n: Option<usize>)
    ensures
        match n {
            Some(n) => n == byte_len(line@),
            None => byte_len(line@) > usize::MAX,
        },
{
    let mut n: usize = 0;
    let mut i: usize = 0;
    while i < line.len()
        invariant
            i <= line.len(),
            n == byte_len(line@.take(i as int)),
        decreases line.len() - i,
    {
        proof {
            assert(line@.take(i + 1).drop_last() =~= line@.take(i as int));
        }
        let l = char_byte_len(line[i]);
        if n > usize::MAX - l {
            proof {
                lemma_byte_len_take(line@, i + 1, line.len() as int);
                assert(line@.take(line.len() as int) =~= line@);
            }
            return None;
        }
        n = n + l;
        i = i + 1;
    }
    assert(line@.take(line.len() as int) =~= line@);
    Some(n)
}

/// How many characters come before the byte position `b` of `line`, a
/// boundary.
pub fn char_index_at(line: &Vec<char>, b: usize) -> (k: usize)
    requires
        is_boundary(line@, b as int),
    ensures
        k == char_index(line@, b as int),
{
    proof {
        lemma_char_index(line@, b as int);
    }
    let ghost target = char_index(line@, b as int);
    let mut n: usize = 0;
    let mut i: usize = 0;
    while n < b
        invariant
            i <= target,
            target <= line.len(),
            n == byte_len(line@.take(i as int)),
            byte_len(line@.take(target)) == b,
            forall|k: int| 0 <= k <= line@.len() && #[trigger] byte_len(line@.take(k)) == b ==> k
                == target,
        decreases b - n,
    {
        proof {
            assert(i < target);
            lemma_byte_len_take(line@, i + 1, target);
            assert(line@.take(i + 1).drop_last() =~= line@.take(i as int));
        }
        n = n + char_byte_len(line[i]);
        i = i + 1;
    }
    proof {
        if i < target {
            lemma_byte_len_take(line@, i as int, target);
            lemma_byte_len_take(line@, i + 1, target);
        }
    }
    i
}

/// Whether the byte position `b` of `line` starts a character or is its end.
pub fn is_char_boundary(line: &Vec<char>, b: usize) -> (yes: bool)
    requires
        byte_len(line@) <= usize::MAX,
    ensures
        yes == is_boundary(line@, b as int),
{
    let mut n: usize = 0;
    let mut i: usize = 0;
    while n < b && i < line.len()
        invariant
            i <= line.len(),
            n == byte_len(line@.take(i as int)),
            byte_len(line@) <= usize::MAX,
            forall|k: int| 0 <= k < i ==> #[trigger] byte_len(line@.take(k)) < b,
        decreases line.len() - i,
    {
        proof {
            lemma_byte_len_take(line@, i + 1, line.len() as int);
            assert(line@.take(line.len() as int) =~= line@);
            assert(line@.take(i + 1).drop_last() =~= line@.take(i as int));
        }
        n = n + char_byte_len(line[i]);
        i = i + 1;
    }
    if n == b {
        return true;
    }
    proof {
        assert forall|k: int| 0 <= k <= line@.len() implies #[trigger] byte_len(line@.take(k))
            != b by {
            if k > i {
                lemma_byte_len_take(line@, i as int, k);
            }
        }
    }
    false
}

} // verus!
