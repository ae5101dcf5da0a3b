//! The questions that the footer asks: for a line to go to, and for a text to find.
use vstd::prelude::*;
use vstd::utf8::{
    decode_utf8, encode_utf8, encode_utf8_decode_utf8, encode_utf8_valid_utf8, valid_utf8,
};

use crate::clipboard::{lossy_text, text_of_bytes};
use crate::events::{Key, KeyInput};
use crate::text::{clip_to_width, decimal, digit_char, lesser, push_decimal};
use crate::viewer::Viewer;

verus! {

/// How far a question has got.
pub enum Answer<T> {
    /// It goes on.
    Pending,
    /// It was given up.
    Cancelled,
    /// It was answered.
    Given(T),
}

/// A digit from `0` to `9`.
pub open spec fn is_digit(c: char) -> bool {
    '0' <= c <= '9'
}

/// A control character: U+0000 to U+001F and U+007F to U+009F.
pub open spec fn is_control(c: char) -> bool {
    c <= '\u{1f}' || '\u{7f}' <= c <= '\u{9f}'
}

/// The number that digits write.
pub open spec fn digits_value(s: Seq<char>) -> nat
    decreases s.len(),
{
    if s.len() == 0 {
        0
    } else {
        digits_value(s.drop_last()) * 10 + (s.last() as u32 - 48) as nat
    }
}

/// `s` consists of digits, one at least.
pub open spec fn is_number(s: Seq<char>) -> bool {
    s.len() > 0 && forall|i: int| 0 <= i < s.len() ==> is_digit(#[trigger] s[i])
}

/// The number that `s` writes in decimal, a plus sign before it being allowed, where it fits into a
/// `usize`.
pub open spec fn read_number(s: Seq<char>) -> Option<usize> {
    let digits = if s.len() > 0 && s[0] == '+' {
        s.skip(1)
    } else {
        s
    };
    if is_number(digits) && digits_value(digits) <= usize::MAX {
        Some(digits_value(digits) as usize)
    } else {
        None
    }
}

/// `s` with the character `c` typed behind it.
pub open spec fn typed(s: Seq<char>, c: char) -> Seq<char> {
    s.push(c)
}

/// `s` without its last character.
pub open spec fn erased(s: Seq<char>) -> Seq<char> {
    if s.len() > 0 {
        s.drop_last()
    } else {
        s
    }
}

proof fn lemma_value_grows(s: Seq<char>, n: int)
    requires
        0 <= n <= s.len(),
    ensures
        digits_value(s.take(n)) <= digits_value(s),
    decreases s.len() - n,
{
    if n < s.len() {
        lemma_value_grows(s.drop_last(), n);
        assert(s.drop_last().take(n) =~= s.take(n));
    } else {
        assert(s.take(n) =~= s);
    }
}

/// Reads a number in decimal.
pub fn parse_number(s: &str) -> (r: Option<usize>)
    ensures
        r == read_number(s@),
{
    let len = s.unicode_len();
    let first: usize = if len > 0 && s.get_char(0) == '+' {
        1
    } else {
        0
    };
    let ghost digits = s@.skip(first as int);
    proof {
        if first == 0 {
            assert(digits =~= s@);
        }
        assert(digits.take(0) =~= Seq::<char>::empty());
    }
    if len == first {
        return None;
    }
    let mut value: usize = 0;
    let mut i: usize = first;
    while i < len
        invariant
            first <= i <= len,
            len == s@.len(),
            digits == s@.skip(first as int),
            value == digits_value(digits.take(i - first)),
            forall|k: int| 0 <= k < i - first ==> is_digit(#[trigger] digits[k]),
            read_number(s@) == if is_number(digits) && digits_value(digits) <= usize::MAX {
                Some(digits_value(digits) as usize)
            } else {
                None
            },
        decreases len - i,
    {
        let c = s.get_char(i);
        proof {
            assert(digits[i - first] == c);
            assert(digits.take(i - first + 1).drop_last() =~= digits.take(i - first));
        }
        if c < '0' || c > '9' {
            proof {
                assert(!is_digit(digits[i - first]));
            }
            return None;
        }
        let d: usize = (c as u32 - 48) as usize;
        proof {
            assert(digits.take(i - first + 1).last() == c);
            assert(digits_value(digits.take(i - first + 1)) == value * 10 + d);
            lemma_value_grows(digits, i - first + 1);
        }
        match value.checked_mul(10) {
            Some(tens) => match tens.checked_add(d) {
                Some(sum) => {
                    value = sum;
                },
                None => {
                    return None;
                },
            },
            None => {
                return None;
            },
        }
        i = i + 1;
    }
    proof {
        assert(digits.take(len - first) =~= digits);
    }
    Some(value)
}

proof fn lemma_decimal_is_number(n: nat)
    ensures
        is_number(decimal(n)),
        digits_value(decimal(n)) == n,
    decreases n,
{
    let s = decimal(n);
    if n < 10 {
        assert(s.drop_last() =~= Seq::<char>::empty());
        assert(digits_value(s.drop_last()) == 0);
        assert(s.last() == digit_char(n));
    } else {
        lemma_decimal_is_number(n / 10);
        assert(s.drop_last() =~= decimal(n / 10));
        assert forall|i: int| 0 <= i < s.len() implies is_digit(#[trigger] s[i]) by {
            if i < s.len() - 1 {
                assert(s[i] == decimal(n / 10)[i]);
            }
        }
    }
}

/// A number that is written in decimal is read back as itself.
pub proof fn law_number_read_back(n: usize)
    ensures
        read_number(decimal(n as nat)) == Some(n),
{
    lemma_decimal_is_number(n as nat);
    assert(is_digit(decimal(n as nat)[0]));
}

/// The question for a line.
pub struct GotoPrompt {
    /// What was typed so far.
    pub input: String,
}

/// The input of the question for a line after a key: digits are taken in.
pub open spec fn goto_input(input: Seq<char>, key: KeyInput) -> Seq<char> {
    if !key.pressed {
        input
    } else {
        match key.key {
            Key::Backspace => erased(input),
            Key::Char(c) => if is_digit(c) {
                typed(input, c)
            } else {
                input
            },
            _ => input,
        }
    }
}

/// The answer to the question for a line after a key: the number that was typed, if it is one
/// from one on; nothing typed gives it up.
pub open spec fn goto_answer(input: Seq<char>, key: KeyInput) -> Answer<usize> {
    if !key.pressed {
        Answer::Pending
    } else {
        match key.key {
            Key::Esc => Answer::Cancelled,
            Key::Enter => if input.len() == 0 {
                Answer::Cancelled
            } else {
                match read_number(input) {
                    Some(n) => if n >= 1 {
                        Answer::Given(n)
                    } else {
                        Answer::Pending
                    },
                    None => Answer::Pending,
                }
            },
            _ => Answer::Pending,
        }
    }
}

impl GotoPrompt {
    /// A question that nothing was typed to yet.
    pub fn new() -> (r: Self)
        ensures
            r.input@ == Seq::<char>::empty(),
    {
        GotoPrompt { input: String::new() }
    }

    /// The question as it is shown, cut to the width of the screen.
    pub fn text(&self, line_count: usize, width: u16) -> (r: String)
        ensures
            r@ == ({
                let full = "Goto line (1-"@ + decimal(line_count as nat)
                    + ", Enter=go, Esc=cancel): "@ + self.input@;
                full.take(lesser(width as int, full.len() as int))
            }),
    {
        let mut prompt = String::new();
        prompt.append("Goto line (1-");
        push_decimal(&mut prompt, line_count);
        prompt.append(", Enter=go, Esc=cancel): ");
        prompt.append(self.input.as_str());
        proof {
            assert(prompt@ =~= "Goto line (1-"@ + decimal(line_count as nat)
                + ", Enter=go, Esc=cancel): "@ + self.input@);
        }
        clip_to_width(prompt.as_str(), width as usize)
    }

    /// Takes a key in.
    pub fn press(&mut self, key: KeyInput) -> (r: Answer<usize>)
        ensures
            final(self).input@ == goto_input(old(self).input@, key),
            r == goto_answer(old(self).input@, key),
    {
        if !key.pressed {
            return Answer::Pending;
        }
        match key.key {
            Key::Esc => Answer::Cancelled,
            Key::Enter => {
                if self.input.as_str().is_empty() {
                    return Answer::Cancelled;
                }
                match parse_number(self.input.as_str()) {
                    Some(n) => if n >= 1 {
                        Answer::Given(n)
                    } else {
                        Answer::Pending
                    },
                    None => Answer::Pending,
                }
            },
            Key::Backspace => {
                let last = self.input.pop();
                Answer::Pending
            },
            Key::Char(c) => {
                if '0' <= c && c <= '9' {
                    self.input.push(c);
                }
                Answer::Pending
            },
            _ => Answer::Pending,
        }
    }
}

/// The question for a text.
pub struct FindPrompt {
    /// What was typed so far.
    pub input: String,
}

/// The input of the question for a text after a key: every character but a control character is
/// taken in.
pub open spec fn find_input(input: Seq<char>, key: KeyInput) -> Seq<char> {
    if !key.pressed {
        input
    } else {
        match key.key {
            Key::Backspace => erased(input),
            Key::Char(c) => if is_control(c) {
                input
            } else {
                typed(input, c)
            },
            _ => input,
        }
    }
}

/// The text in an answer.
pub open spec fn answer_text(answer: Answer<String>) -> Answer<Seq<char>> {
    match answer {
        Answer::Pending => Answer::Pending,
        Answer::Cancelled => Answer::Cancelled,
        Answer::Given(text) => Answer::Given(text@),
    }
}

/// The answer to the question for a text after a key: what was typed; nothing typed gives it up.
pub open spec fn find_answer(input: Seq<char>, key: KeyInput) -> Answer<Seq<char>> {
    if !key.pressed {
        Answer::Pending
    } else {
        match key.key {
            Key::Esc => Answer::Cancelled,
            Key::Enter => if input.len() == 0 {
                Answer::Cancelled
            } else {
                Answer::Given(input)
            },
            _ => Answer::Pending,
        }
    }
}

impl FindPrompt {
    /// A question with `input` already typed.
    pub fn with_input(input: String) -> (r: Self)
        ensures
            r.input@ == input@,
    {
        FindPrompt { input }
    }

    /// A question with the last query already typed, as far as it is text.
    pub fn new(viewer: &Viewer) -> (r: Self)
        ensures
            r.input@ == match viewer.search_query {
                Some(query) => lossy_text(query@),
                None => Seq::empty(),
            },
            viewer.search_query matches Some(query) ==> valid_utf8(query@) ==> r.input@
                == decode_utf8(query@),
    {
        let input = match &viewer.search_query {
            Some(query) => text_of_bytes(query.as_slice()),
            None => String::new(),
        };
        FindPrompt::with_input(input)
    }

    /// The question as it is shown, cut to the width of the screen.
    pub fn text(&self, width: u16) -> (r: String)
        ensures
            r@ == ({
                let full = "Find text (Enter=find, Esc=cancel): "@ + self.input@;
                full.take(lesser(width as int, full.len() as int))
            }),
    {
        let mut prompt = String::new();
        prompt.append("Find text (Enter=find, Esc=cancel): ");
        prompt.append(self.input.as_str());
        proof {
            assert(prompt@ =~= "Find text (Enter=find, Esc=cancel): "@ + self.input@);
        }
        clip_to_width(prompt.as_str(), width as usize)
    }

    /// Takes a key in.
    pub fn press(&mut self, key: KeyInput) -> (r: Answer<String>)
        ensures
            final(self).input@ == find_input(old(self).input@, key),
            answer_text(r) == find_answer(old(self).input@, key),
    {
        if !key.pressed {
            return Answer::Pending;
        }
        match key.key {
            Key::Esc => Answer::Cancelled,
            Key::Enter => {
                if self.input.as_str().is_empty() {
                    return Answer::Cancelled;
                }
                Answer::Given(self.input.clone())
            },
            Key::Backspace => {
                let last = self.input.pop();
                Answer::Pending
            },
            Key::Char(c) => {
                if !(c <= '\u{1f}' || ('\u{7f}' <= c && c <= '\u{9f}')) {
                    self.input.push(c);
                }
                Answer::Pending
            },
            _ => Answer::Pending,
        }
    }
}

/// A text that was searched for stands in the next question again: the bytes that a search keeps
/// are the text that the question starts with.
pub proof fn law_query_comes_back(text: Seq<char>)
    ensures
        valid_utf8(encode_utf8(text)),
        decode_utf8(encode_utf8(text)) == text,
{
    encode_utf8_valid_utf8(text);
    encode_utf8_decode_utf8(text);
}

/// Whatever is typed to the question for a line, its input stays made of digits.
pub proof fn law_goto_input_digits(input: Seq<char>, key: KeyInput)
    requires
        forall|i: int| 0 <= i < input.len() ==> is_digit(#[trigger] input[i]),
    ensures
        forall|i: int|
            0 <= i < goto_input(input, key).len() ==> is_digit(#[trigger] goto_input(input, key)[i]),
{
}

} // verus!
