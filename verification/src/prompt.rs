//! The two line prompts at the bottom of the screen: one that reads a room
//! number within a range, one that reads a line of text. Each takes one key
//! event at a time and answers with what the screen should show or with the
//! value that was entered.

use vstd::prelude::*;
use crate::keys::{Event, KeyCode, Modifiers};
use crate::text::{decimal, digit_char};

verus! {

/// Whether `c` is a decimal digit, `0` to `9`.
pub open spec fn is_digit(c: char) -> bool {
    '0' <= c && c <= '9'
}

/// Whether every character of `s` is a decimal digit.
pub open spec fn all_digits(s: Seq<char>) -> bool {
    forall|i: int| 0 <= i < s.len() ==> #[trigger] is_digit(s[i])
}

/// The number that the decimal digits `s` spell (0 for no digits).
pub open spec fn digits_value(s: Seq<char>) -> nat
    decreases s.len(),
{
    if s.len() == 0 {
        0
    } else {
        digits_value(s.drop_last()) * 10 + ((s.last() as nat) - ('0' as nat)) as nat
    }
}

/// The `u8` that the text `s` spells where it is made only of decimal digits:
/// the number, where `s` is one or more digits that spell at most 255;
/// nothing otherwise (also for a sign, which the prompt never holds).
pub open spec fn parse_u8(s: Seq<char>) -> Option<u8> {
    if s.len() > 0 && all_digits(s) && digits_value(s) <= 255 {
        Some(digits_value(s) as u8)
    } else {
        None
    }
}

/// Whether `c` is a decimal digit.
pub fn is_decimal_digit(c: char) -> (b: bool)
    ensures
        b == is_digit(c),
{
    '0' <= c && c <= '9'
}

/// Reads the characters `s`, decimal digits only, as a `u8`; anything else
/// (a sign included) gives nothing.
pub fn parse_number(s: &Vec<char>) -> (n: Option<u8>)
    ensures
        n == parse_u8(s@),
{
    if s.len() == 0 {
        return None;
    }
    let mut value: u32 = 0;
    let mut i: usize = 0;
    while i < s.len()
        invariant
            i <= s.len(),
            all_digits(s@.take(i as int)),
            value == if digits_value(s@.take(i as int)) < 256 {
                digits_value(s@.take(i as int))
            } else {
                256
            },
        decreases s.len() - i,
    {
        let c = s[i];
        if !is_decimal_digit(c) {
            assert(!all_digits(s@)) by {
                assert(!is_digit(s@[i as int]));
            }
            return None;
        }
        let d: u32 = (c as u32) - 48;
        let next = value * 10 + d;
        value = if next < 256 { next } else { 256 };
        proof {
            assert(s@.take(i + 1).drop_last() == s@.take(i as int));
            assert(s@.take(i + 1).last() == c);
            assert(all_digits(s@.take(i + 1))) by {
                assert forall|k: int| 0 <= k < i + 1 implies #[trigger] is_digit(
                    s@.take(i + 1)[k],
                ) by {
                    if k < i {
                        assert(s@.take(i + 1)[k] == s@.take(i as int)[k]);
                    }
                }
            }
        }
        i = i + 1;
    }
    proof {
        assert(s@.take(s.len() as int) == s@);
    }
    if value < 256 {
        Some(value as u8)
    } else {
        None
    }
}

/// What the number prompt answers to a key.
#[derive(Clone, Copy, Debug, PartialEq, Eq, Structural)]
pub enum NumberReply {
    /// Nothing to show.
    Ignore,
    /// Show the digit that was typed.
    Echo(char),
    /// Take the last digit back: move the cursor one column left and clear
    /// to the end of the line.
    Erase,
    /// Take the last digit back: clear the line from this column on.
    EraseAt(u16),
    /// A number was entered outside the range: say so and ask again.
    OutOfRange,
    /// What was entered is no number: say so and ask again.
    NotANumber,
    /// The number entered, within the range.
    Accept(u8),
    /// The prompt was left with Esc.
    Cancel,
}

/// A prompt for a number between `min` and `max`; `digits` are the digits
/// typed so far.
pub struct NumberPrompt {
    pub digits: Vec<char>,
    pub min: u8,
    pub max: u8,
}

/// The digits and the reply after the number prompt with `digits`, asking for
/// a number in `min..=max`, takes the key `code`; `at_column` selects the
/// reply to Backspace (clear from an absolute column rather than one column
/// back).
pub open spec fn number_key(
    digits: Seq<char>,
    min: u8,
    max: u8,
    code: KeyCode,
    at_column: bool,
) -> (Seq<char>, NumberReply) {
    match code {
        KeyCode::Char(c) => if is_digit(c) {
            (digits.push(c), NumberReply::Echo(c))
        } else {
            (digits, NumberReply::Ignore)
        },
        KeyCode::Enter => match parse_u8(digits) {
            Some(n) => if min <= n && n <= max {
                (digits, NumberReply::Accept(n))
            } else {
                (Seq::empty(), NumberReply::OutOfRange)
            },
            None => (Seq::empty(), NumberReply::NotANumber),
        },
        KeyCode::Esc => (digits, NumberReply::Cancel),
        KeyCode::Backspace => if digits.len() == 0 {
            (digits, NumberReply::Ignore)
        } else if at_column {
            (digits.drop_last(), NumberReply::EraseAt((digits.len() - 1 + 20) as u16))
        } else {
            (digits.drop_last(), NumberReply::Erase)
        },
        _ => (digits, NumberReply::Ignore),
    }
}

impl NumberPrompt {
    /// An empty prompt for a number between `min` and `max`.
    pub fn new(min: u8, max: u8) -> (p: NumberPrompt)
        ensures
            p.digits@ == Seq::<char>::empty(),
            p.min == min,
            p.max == max,
    {
        NumberPrompt { digits: Vec::new(), min, max }
    }

    fn take_key(&mut self, code: KeyCode, at_column: bool) -> (reply: NumberReply)
        requires
            at_column ==> old(self).digits.len() < usize::MAX - 20,
        ensures
            (final(self).digits@, reply) == number_key(
                old(self).digits@,
                old(self).min,
                old(self).max,
                code,
                at_column,
            ),
            final(self).min == old(self).min,
            final(self).max == old(self).max,
    {
        match code {
            KeyCode::Char(c) => {
                if is_decimal_digit(c) {
                    self.digits.push(c);
                    NumberReply::Echo(c)
                } else {
                    NumberReply::Ignore
                }
            },
            KeyCode::Enter => {
                match parse_number(&self.digits) {
                    Some(n) => {
                        if n >= self.min && n <= self.max {
                            NumberReply::Accept(n)
                        } else {
                            self.digits.clear();
                            NumberReply::OutOfRange
                        }
                    },
                    None => {
                        self.digits.clear();
                        NumberReply::NotANumber
                    },
                }
            },
            KeyCode::Esc => NumberReply::Cancel,
            KeyCode::Backspace => {
                match self.digits.pop() {
                    Some(_) => {
                        if at_column {
                            let column = self.digits.len() + 20;
                            NumberReply::EraseAt(column as u16)
                        } else {
                            NumberReply::Erase
                        }
                    },
                    None => NumberReply::Ignore,
                }
            },
            _ => NumberReply::Ignore,
        }
    }

    /// Takes one event. Only keys pressed with no modifier count; Backspace
    /// moves one column back.
    pub fn step(&mut self, event: Event) -> (reply: NumberReply)
        ensures
            final(self).min == old(self).min,
            final(self).max == old(self).max,
            match event {
                Event::Key(k) => if k.is_plain_press() {
                    (final(self).digits@, reply) == number_key(
                        old(self).digits@,
                        old(self).min,
                        old(self).max,
                        k.code,
                        false,
                    )
                } else {
                    final(self).digits@ == old(self).digits@ && reply == NumberReply::Ignore
                },
                Event::Other => final(self).digits@ == old(self).digits@ && reply
                    == NumberReply::Ignore,
            },
    {
        match event {
            Event::Key(k) => {
                if k.plain_press() {
                    self.take_key(k.code, false)
                } else {
                    NumberReply::Ignore
                }
            },
            Event::Other => NumberReply::Ignore,
        }
    }

    /// Takes one event. Keys with no modifier count whether pressed,
    /// repeated or released; Backspace clears from the column just after the
    /// remaining digits, counted from a prompt of twenty columns.
    pub fn step_any_kind(&mut self, event: Event) -> (reply: NumberReply)
        requires
            old(self).digits.len() < usize::MAX - 20,
        ensures
            final(self).min == old(self).min,
            final(self).max == old(self).max,
            match event {
                Event::Key(k) => if k.modifiers == Modifiers::Plain {
                    (final(self).digits@, reply) == number_key(
                        old(self).digits@,
                        old(self).min,
                        old(self).max,
                        k.code,
                        true,
                    )
                } else {
                    final(self).digits@ == old(self).digits@ && reply == NumberReply::Ignore
                },
                Event::Other => final(self).digits@ == old(self).digits@ && reply
                    == NumberReply::Ignore,
            },
    {
        match event {
            Event::Key(k) => {
                match k.modifiers {
                    Modifiers::Plain => self.take_key(k.code, true),
                    _ => NumberReply::Ignore,
                }
            },
            Event::Other => NumberReply::Ignore,
        }
    }
}

/// The reply to a key that the number prompt takes is an accepted number
/// only where the digits typed spell that number and it lies in the range.
pub proof fn law_number_prompt_accepts_only_in_range(
    digits: Seq<char>,
    min: u8,
    max: u8,
    code: KeyCode,
    at_column: bool,
    n: u8,
)
    requires
        number_key(digits, min, max, code, at_column).1 == NumberReply::Accept(n),
    ensures
        min <= n <= max,
        parse_u8(digits) == Some(n),
        code == KeyCode::Enter,
{
}

/// The number prompt only ever holds digits.
pub proof fn law_number_prompt_holds_only_digits(
    digits: Seq<char>,
    min: u8,
    max: u8,
    code: KeyCode,
    at_column: bool,
)
    requires
        all_digits(digits),
    ensures
        all_digits(number_key(digits, min, max, code, at_column).0),
{
    let after = number_key(digits, min, max, code, at_column).0;
    match code {
        KeyCode::Char(c) => {
            if is_digit(c) {
                assert forall|i: int| 0 <= i < after.len() implies #[trigger] is_digit(after[i]) by {
                    if i < digits.len() {
                        assert(after[i] == digits[i]);
                    }
                }
            }
        },
        KeyCode::Backspace => {
            if digits.len() > 0 {
                assert forall|i: int| 0 <= i < after.len() implies #[trigger] is_digit(after[i]) by {
                    assert(after[i] == digits[i]);
                }
            }
        },
        _ => {},
    }
}

/// Backspace right after typing a digit takes it back.
pub proof fn law_number_prompt_backspace_undoes_digit(
    digits: Seq<char>,
    min: u8,
    max: u8,
    c: char,
    at_column: bool,
)
    requires
        is_digit(c),
    ensures
        number_key(
            number_key(digits, min, max, KeyCode::Char(c), at_column).0,
            min,
            max,
            KeyCode::Backspace,
            at_column,
        ).0 == digits,
{
    assert(digits.push(c).drop_last() =~= digits);
}

/// The digits held after the number prompt with `digits` takes the
/// characters of `typed` one by one.
pub open spec fn after_typing(
    digits: Seq<char>,
    typed: Seq<char>,
    min: u8,
    max: u8,
    at_column: bool,
) -> Seq<char>
    decreases typed.len(),
{
    if typed.len() == 0 {
        digits
    } else {
        number_key(
            after_typing(digits, typed.drop_last(), min, max, at_column),
            min,
            max,
            KeyCode::Char(typed.last()),
            at_column,
        ).0
    }
}

/// Typing digits appends them to the prompt.
pub proof fn lemma_typing_digits(
    digits: Seq<char>,
    typed: Seq<char>,
    min: u8,
    max: u8,
    at_column: bool,
)
    requires
        all_digits(typed),
    ensures
        after_typing(digits, typed, min, max, at_column) == digits + typed,
    decreases typed.len(),
{
    if typed.len() > 0 {
        assert(all_digits(typed.drop_last())) by {
            assert forall|i: int| 0 <= i < typed.drop_last().len() implies #[trigger] is_digit(
                typed.drop_last()[i],
            ) by {
                assert(typed.drop_last()[i] == typed[i]);
            }
        }
        lemma_typing_digits(digits, typed.drop_last(), min, max, at_column);
        assert(is_digit(typed[typed.len() - 1]));
        assert((digits + typed.drop_last()).push(typed.last()) =~= digits + typed);
    }
}

/// A number written in decimal is one or more digits that spell it.
pub proof fn lemma_decimal_digits(n: nat)
    ensures
        decimal(n).len() > 0,
        all_digits(decimal(n)),
        digits_value(decimal(n)) == n,
    decreases n,
{
    if n < 10 {
        let e = seq![digit_char(n)];
        assert(e.drop_last() =~= Seq::<char>::empty());
        assert(digit_char(n) as nat == 48 + n);
        assert(is_digit(e[0]));
        assert(digits_value(Seq::<char>::empty()) == 0);
        assert(digits_value(e) == digits_value(e.drop_last()) * 10 + ((e.last() as nat) - (
        '0' as nat)) as nat);
    } else {
        lemma_decimal_digits(n / 10);
        let d = decimal(n / 10);
        let e = d.push(digit_char(n % 10));
        assert(e.drop_last() =~= d);
        assert(digit_char(n % 10) as nat == 48 + n % 10);
        assert(n == (n / 10) * 10 + n % 10);
        assert(digits_value(e) == digits_value(e.drop_last()) * 10 + ((e.last() as nat) - (
        '0' as nat)) as nat);
        assert forall|i: int| 0 <= i < e.len() implies #[trigger] is_digit(e[i]) by {
            if i < d.len() {
                assert(e[i] == d[i]);
            }
        }
    }
}

/// Typing the decimal digits of any number in the range into an empty
/// number prompt and pressing Enter accepts that number: the range holds both
/// its ends.
pub proof fn law_number_prompt_accepts_every_number_in_range(
    n: u8,
    min: u8,
    max: u8,
    at_column: bool,
)
    requires
        min <= n <= max,
    ensures
        number_key(
            after_typing(Seq::empty(), decimal(n as nat), min, max, at_column),
            min,
            max,
            KeyCode::Enter,
            at_column,
        ).1 == NumberReply::Accept(n),
{
    lemma_decimal_digits(n as nat);
    lemma_typing_digits(Seq::empty(), decimal(n as nat), min, max, at_column);
    assert(Seq::<char>::empty() + decimal(n as nat) =~= decimal(n as nat));
}

/// What the text prompt answers to a key.
#[derive(Debug, PartialEq, Eq)]
pub enum TextReply {
    /// Nothing to show.
    Ignore,
    /// Show the character that was typed.
    Echo(char),
    /// Take the last character back: move the cursor one column left and
    /// clear to the end of the line.
    Erase,
    /// The text entered.
    Submit(Vec<char>),
    /// The prompt was left with Esc.
    Cancel,
}

/// A reply of the text prompt as mathematical values.
pub enum TextReplyView {
    Ignore,
    Echo(char),
    Erase,
    Submit(Seq<char>),
    Cancel,
}

impl View for TextReply {
    type V = TextReplyView;

    open spec fn view(&self) -> TextReplyView {
        match self {
            TextReply::Ignore => TextReplyView::Ignore,
            TextReply::Echo(c) => TextReplyView::Echo(*c),
            TextReply::Erase => TextReplyView::Erase,
            TextReply::Submit(t) => TextReplyView::Submit(t@),
            TextReply::Cancel => TextReplyView::Cancel,
        }
    }
}

/// The text and the reply after the text prompt with `text` takes the key
/// `code`: a character is appended, Backspace takes the last one back, Enter
/// hands the text over and empties the prompt, Esc cancels.
pub open spec fn text_key(text: Seq<char>, code: KeyCode) -> (Seq<char>, TextReplyView) {
    match code {
        KeyCode::Char(c) => (text.push(c), TextReplyView::Echo(c)),
        KeyCode::Enter => (Seq::empty(), TextReplyView::Submit(text)),
        KeyCode::Esc => (text, TextReplyView::Cancel),
        KeyCode::Backspace => if text.len() > 0 {
            (text.drop_last(), TextReplyView::Erase)
        } else {
            (text, TextReplyView::Ignore)
        },
        _ => (text, TextReplyView::Ignore),
    }
}

/// A prompt for a line of text; `text` is what was typed so far.
pub struct TextPrompt {
    pub text: Vec<char>,
}

impl TextPrompt {
    /// An empty text prompt.
    pub fn new() -> (p: TextPrompt)
        ensures
            p.text@ == Seq::<char>::empty(),
    {
        TextPrompt { text: Vec::new() }
    }

    /// Takes one event. Only keys pressed with no modifier count.
    pub fn step(&mut self, event: Event) -> (reply: TextReply)
        ensures
            match event {
                Event::Key(k) => if k.is_plain_press() {
                    (final(self).text@, reply@) == text_key(old(self).text@, k.code)
                } else {
                    final(self).text@ == old(self).text@ && reply@ == TextReplyView::Ignore
                },
                Event::Other => final(self).text@ == old(self).text@ && reply@
                    == TextReplyView::Ignore,
            },
    {
        match event {
            Event::Key(k) => {
                if !k.plain_press() {
                    return TextReply::Ignore;
                }
                match k.code {
                    KeyCode::Char(c) => {
                        self.text.push(c);
                        TextReply::Echo(c)
                    },
                    KeyCode::Enter => {
                        let mut entered: Vec<char> = Vec::new();
                        std::mem::swap(&mut entered, &mut self.text);
                        TextReply::Submit(entered)
                    },
                    KeyCode::Esc => TextReply::Cancel,
                    KeyCode::Backspace => {
                        match self.text.pop() {
                            Some(_) => TextReply::Erase,
                            None => TextReply::Ignore,
                        }
                    },
                    _ => TextReply::Ignore,
                }
            },
            Event::Other => TextReply::Ignore,
        }
    }
}

/// Backspace right after typing a character takes it back, and Enter then
/// hands over the text as it was.
pub proof fn law_text_prompt_backspace_undoes_typing(text: Seq<char>, c: char)
    ensures
        text_key(text_key(text, KeyCode::Char(c)).0, KeyCode::Backspace).0 == text,
        text_key(
            text_key(text_key(text, KeyCode::Char(c)).0, KeyCode::Backspace).0,
            KeyCode::Enter,
        ).1 == TextReplyView::Submit(text),
{
    assert(text.push(c).drop_last() =~= text);
}

} // verus!
