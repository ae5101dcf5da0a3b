//! What numbers and trimmed texts look like.
use vstd::prelude::*;

use crate::clipboard::{copy_message, CopyOutcome};
use crate::document::{line_body, readable, Document};
use crate::display_laws::{room, shows};
use crate::editor::{is_white_space, line_label, without_leading_space, without_trailing_space};
use crate::events::{Key, KeyInput};
use crate::frame::status_text;
use crate::layout::byte_char;
use crate::prompt::{
    digits_value, find_answer, find_input, goto_answer, goto_input, is_digit, is_number,
    read_number, Answer,
};
use crate::text::{ascii_space, decimal, digit_char};
use crate::xml_format::{lemma_trim_end_len, lemma_trim_start_len, trim, trim_end, trim_start};

verus! {

/// `c` is one of the ten digits.
pub open spec fn ten_digit(c: char) -> bool {
    '0' <= c <= '9'
}

/// The number that the digits of `s` from `a` up to `n` write.
pub open spec fn written_number(s: Seq<char>, a: int, n: int) -> nat
    decreases n - a,
{
    if n <= a {
        0
    } else {
        10 * written_number(s, a, n - 1) + (s[n - 1] as u32 - 0x30) as nat
    }
}

/// `s` writes the number `n` in the shortest way: in digits, the first of them no zero unless it is
/// the only one.
pub open spec fn writes(s: Seq<char>, n: nat) -> bool {
    &&& s.len() > 0
    &&& forall|i: int| 0 <= i < s.len() ==> ten_digit(#[trigger] s[i])
    &&& written_number(s, 0, s.len() as int) == n
    &&& s.len() > 1 ==> s[0] != '0'
}

proof fn lemma_written_prefix(s: Seq<char>, t: Seq<char>, a: int, n: int)
    requires
        a <= n,
        forall|i: int| a <= i < n ==> s[i] == t[i],
    ensures
        written_number(s, a, n) == written_number(t, a, n),
    decreases n - a,
{
    if a < n {
        lemma_written_prefix(s, t, a, n - 1);
    }
}

/// Numbers are written in decimal, without leading zeros.
pub proof fn law_decimal(n: nat)
    ensures
        writes(decimal(n), n),
    decreases n,
{
    let s = decimal(n);
    let len = s.len() as int;
    if n < 10 {
        assert(s[0] == digit_char(n));
        assert(written_number(s, 0, 0) == 0);
        assert(written_number(s, 0, 1) == n);
    } else {
        let shorter = decimal(n / 10);
        law_decimal(n / 10);
        lemma_written_prefix(s, shorter, 0, len - 1);
        assert(s[len - 1] == digit_char(n % 10));
        assert forall|i: int| 0 <= i < s.len() implies ten_digit(#[trigger] s[i]) by {
            if i < len - 1 {
                assert(s[i] == shorter[i]);
            }
        }
        assert(s[0] == shorter[0]);
        if shorter.len() == 1 {
            assert(written_number(shorter, 0, 0) == 0);
            assert(written_number(shorter, 0, 1) == n / 10);
        }
    }
}

proof fn lemma_digits_value(s: Seq<char>, a: int, n: int)
    requires
        0 <= a <= n <= s.len(),
    ensures
        digits_value(s.subrange(a, n)) == written_number(s, a, n),
    decreases n - a,
{
    let part = s.subrange(a, n);
    if a < n {
        lemma_digits_value(s, a, n - 1);
        assert(part.drop_last() =~= s.subrange(a, n - 1));
        assert(part.last() == s[n - 1]);
    }
}

/// A text is read as a number if and only if it consists of digits, a plus sign before them being
/// allowed, and the number fits; it is the number that the digits write.
pub proof fn law_number_is_read(s: Seq<char>)
    ensures
        ({
            let a: int = if s.len() > 0 && s[0] == '+' {
                1
            } else {
                0
            };
            let n = s.len() as int;
            let digits = a < n && forall|i: int| a <= i < n ==> ten_digit(#[trigger] s[i]);
            &&& digits && written_number(s, a, n) <= usize::MAX ==> (read_number(s) matches Some(v)
                && v == written_number(s, a, n))
            &&& !digits || written_number(s, a, n) > usize::MAX ==> read_number(s) is None
        }),
{
    let a: int = if s.len() > 0 && s[0] == '+' {
        1
    } else {
        0
    };
    let n = s.len() as int;
    let part = s.subrange(a, n);
    lemma_digits_value(s, a, n);
    if a == 0 {
        assert(part =~= s);
    } else {
        assert(part =~= s.skip(1));
    }
    assert forall|i: int| 0 <= i < part.len() implies #[trigger] part[i] == s[a + i] by {}
    if is_number(part) {
        assert forall|i: int| a <= i < n implies ten_digit(#[trigger] s[i]) by {
            assert(is_digit(part[i - a]));
        }
    } else if a < n {
        let i = choose|i: int| 0 <= i < part.len() && !is_digit(#[trigger] part[i]);
        assert(!ten_digit(s[a + i]));
    }
}

/// The status bar tells how many lines there are, and the first visible line and column, counted from
/// one.
pub proof fn law_status_tells(count: nat, top: usize, left: usize) -> (r: (
    Seq<char>,
    Seq<char>,
    Seq<char>,
))
    ensures
        writes(r.0, count),
        top < usize::MAX ==> writes(r.1, (top + 1) as nat),
        left < usize::MAX ==> writes(r.2, (left + 1) as nat),
        status_text(count as int, top, left) == "Lines: "@ + r.0 + " | Top: "@ + r.1 + " | Left: "@
            + r.2
            + " | q: quit | g: goto | f: find | n/p: next/prev | ←/→ ↑/↓ PgUp/PgDn Home/End"@,
{
    let b: nat = if top < usize::MAX {
        (top + 1) as nat
    } else {
        usize::MAX as nat
    };
    let c: nat = if left < usize::MAX {
        (left + 1) as nat
    } else {
        usize::MAX as nat
    };
    law_decimal(count);
    law_decimal(b);
    law_decimal(c);
    (decimal(count), decimal(b), decimal(c))
}

/// After a copy the footer tells how many bytes were copied, or that a block was, or why not.
pub proof fn law_copy_is_told(bytes: Option<usize>, outcome: CopyOutcome) -> (r: Seq<char>)
    ensures
        outcome == CopyOutcome::Copied && bytes is Some ==> writes(r, bytes->0 as nat)
            && copy_message(bytes, outcome) == "Copied "@ + r + " bytes to clipboard"@,
        outcome == CopyOutcome::Copied && bytes is None ==> copy_message(bytes, outcome)
            == "Copied block selection to clipboard"@,
        outcome == CopyOutcome::Failed ==> copy_message(bytes, outcome)
            == "Failed to copy selection to clipboard"@,
        outcome == CopyOutcome::Unavailable ==> copy_message(bytes, outcome)
            == "Clipboard unavailable in this environment"@,
{
    let n: nat = match bytes {
        Some(n) => n as nat,
        None => 0,
    };
    law_decimal(n);
    decimal(n)
}

/// The number of a line is counted from one and stands right in a column of seven: blanks before it
/// fill it up.
pub proof fn law_line_label(i: usize) -> (r: int)
    requires
        i < usize::MAX,
    ensures
        0 <= r <= line_label(i).len(),
        forall|x: int| 0 <= x < r ==> line_label(i)[x] == ' ',
        writes(line_label(i).skip(r), (i + 1) as nat),
        line_label(i).len() >= 7,
        line_label(i).len() > 7 ==> r == 0,
{
    let number = decimal((i + 1) as nat);
    law_decimal((i + 1) as nat);
    let r = if number.len() < 7 {
        7 - number.len()
    } else {
        0
    };
    assert(line_label(i).skip(r) =~= number);
    r
}

/// A path to save at is trimmed: nothing but whitespace is taken off, and neither end of what is
/// left is whitespace.
pub proof fn law_path_is_trimmed(s: Seq<char>) -> (r: (int, int))
    ensures
        0 <= r.0 <= r.1 <= s.len(),
        without_trailing_space(without_leading_space(s)) == s.subrange(r.0, r.1),
        forall|x: int| 0 <= x < r.0 || r.1 <= x < s.len() ==> is_white_space(#[trigger] s[x]),
        r.0 < r.1 ==> !is_white_space(s[r.0]) && !is_white_space(s[r.1 - 1]),
{
    let a = lemma_leading(s, 0);
    let t = s.skip(a);
    let b = lemma_trailing(t, t.len() as int);
    assert(s.skip(0) =~= s);
    assert(t.take(t.len() as int) =~= t);
    assert(s.subrange(a, a + b) =~= t.take(b));
    assert forall|x: int| 0 <= x < a || a + b <= x < s.len() implies is_white_space(
        #[trigger] s[x],
    ) by {
        if x >= a + b {
            assert(is_white_space(t[x - a]));
        }
    }
    if b > 0 {
        assert(t[0] == s[a] && t[b - 1] == s[a + b - 1]);
    }
    (a, a + b)
}

proof fn lemma_leading(s: Seq<char>, n: int) -> (a: int)
    requires
        0 <= n <= s.len(),
        forall|x: int| 0 <= x < n ==> is_white_space(#[trigger] s[x]),
    ensures
        n <= a <= s.len(),
        without_leading_space(s.skip(n)) == s.skip(a),
        forall|x: int| 0 <= x < a ==> is_white_space(#[trigger] s[x]),
        a < s.len() ==> !is_white_space(s[a]),
    decreases s.len() - n,
{
    let rest = s.skip(n);
    if rest.len() > 0 {
        assert(rest[0] == s[n]);
        assert(rest.skip(1) =~= s.skip(n + 1));
        if is_white_space(s[n]) {
            lemma_leading(s, n + 1)
        } else {
            n
        }
    } else {
        n
    }
}

proof fn lemma_trailing(s: Seq<char>, n: int) -> (b: int)
    requires
        0 <= n <= s.len(),
        forall|x: int| n <= x < s.len() ==> is_white_space(#[trigger] s[x]),
    ensures
        0 <= b <= n,
        without_trailing_space(s.take(n)) == s.take(b),
        forall|x: int| b <= x < s.len() ==> is_white_space(#[trigger] s[x]),
        b > 0 ==> !is_white_space(s[b - 1]),
    decreases n,
{
    let part = s.take(n);
    if n > 0 {
        assert(part.last() == s[n - 1]);
        assert(part.drop_last() =~= s.take(n - 1));
        if is_white_space(s[n - 1]) {
            lemma_trailing(s, n - 1)
        } else {
            n
        }
    } else {
        n
    }
}

/// Trimming bytes takes the whitespace off both ends and nothing else.
pub proof fn law_bytes_are_trimmed(s: Seq<u8>) -> (r: (int, int))
    ensures
        0 <= r.0 <= r.1 <= s.len(),
        trim(s) == s.subrange(r.0, r.1),
        forall|x: int|
            0 <= x < r.0 || r.1 <= x < s.len() ==> (#[trigger] s[x] == 0x20 || s[x] == 0x09 || s[x]
                == 0x0a || s[x] == 0x0c || s[x] == 0x0d),
        r.0 < r.1 ==> !ascii_space(s[r.0]) && !ascii_space(s[r.1 - 1]),
{
    lemma_trim_start_len(s);
    let t = trim_start(s);
    lemma_trim_end_len(t);
    let a = s.len() - t.len();
    let u = trim_end(t);
    let b = a + u.len();
    crate::xml_layout_laws::lemma_trimmed_blank(t);
    assert(u =~= s.subrange(a, b)) by {
        assert(u == t.take(u.len() as int));
    }
    assert forall|x: int| 0 <= x < a || b <= x < s.len() implies ascii_space(#[trigger] s[x]) by {
        if x >= b {
            assert(t[x - a] == s[x]);
            assert(ascii_space(t[x - a]));
        }
    }
    if a < b {
        assert(t[0] == s[a]);
        assert(u.last() == s[b - 1]);
    }
    (a, b)
}

/// The question for a line takes in digits, and backspace takes the last of them off; no other key
/// changes what was typed.
pub proof fn law_goto_typing(input: Seq<char>, key: KeyInput)
    ensures
        !key.pressed ==> goto_input(input, key) == input,
        key.pressed ==> match key.key {
            Key::Char(c) => goto_input(input, key) == if ten_digit(c) {
                input.push(c)
            } else {
                input
            },
            Key::Backspace => goto_input(input, key) == if input.len() > 0 {
                input.take(input.len() - 1)
            } else {
                input
            },
            _ => goto_input(input, key) == input,
        },
{
    if input.len() > 0 {
        assert(input.drop_last() =~= input.take(input.len() - 1));
    }
}

/// The question for a line is answered by Enter, with the number that was typed where it is one
/// from one on; it is given up by Escape, and by Enter where nothing was typed.
pub proof fn law_goto_answers(input: Seq<char>, key: KeyInput, n: usize)
    ensures
        goto_answer(input, key) == Answer::Given(n) <==> key.pressed && key.key == Key::Enter
            && input.len() > 0 && read_number(input) == Some(n) && n >= 1,
        goto_answer(input, key) is Cancelled <==> key.pressed && (key.key == Key::Esc || (key.key
            == Key::Enter && input.len() == 0)),
{
}

/// The question for a text takes in every character but control characters, and backspace takes the
/// last one off; no other key changes what was typed.
pub proof fn law_find_typing(input: Seq<char>, key: KeyInput)
    ensures
        !key.pressed ==> find_input(input, key) == input,
        key.pressed ==> match key.key {
            Key::Char(c) => find_input(input, key) == if (c as u32) < 0x20 || 0x7f <= c as u32
                <= 0x9f {
                input
            } else {
                input.push(c)
            },
            Key::Backspace => find_input(input, key) == if input.len() > 0 {
                input.take(input.len() - 1)
            } else {
                input
            },
            _ => find_input(input, key) == input,
        },
{
    if input.len() > 0 {
        assert(input.drop_last() =~= input.take(input.len() - 1));
    }
}

/// The question for a text is answered by Enter, with what was typed; it is given up by Escape, and by
/// Enter where nothing was typed.
pub proof fn law_find_answers(input: Seq<char>, key: KeyInput)
    ensures
        find_answer(input, key) is Given <==> key.pressed && key.key == Key::Enter && input.len()
            > 0,
        find_answer(input, key) matches Answer::Given(text) ==> text == input,
        find_answer(input, key) is Cancelled <==> key.pressed && (key.key == Key::Esc || (key.key
            == Key::Enter && input.len() == 0)),
{
}

/// How many columns the bytes before the byte `k` take in the editor, where no byte is hidden.
pub open spec fn spread(bytes: Seq<u8>, tab: nat, k: int) -> nat
    decreases k,
{
    if k <= 0 {
        0
    } else {
        spread(bytes, tab, k - 1) + room(bytes[k - 1], tab)
    }
}

proof fn lemma_readable_len(bytes: Seq<u8>, tab: nat, n: int)
    requires
        0 <= n <= bytes.len(),
    ensures
        readable(bytes.take(n), tab).len() == spread(bytes, tab, n),
    decreases n,
{
    if n > 0 {
        lemma_readable_len(bytes, tab, n - 1);
        assert(bytes.take(n).drop_last() =~= bytes.take(n - 1));
        assert(bytes.take(n).last() == bytes[n - 1]);
    } else {
        assert(bytes.take(0).len() == 0);
    }
}

proof fn lemma_readable(bytes: Seq<u8>, tab: nat, n: int, k: int, t: int)
    requires
        0 <= k < n <= bytes.len(),
        0 <= t < room(bytes[k], tab),
    ensures
        spread(bytes, tab, k) + t < readable(bytes.take(n), tab).len(),
        shows(bytes[k], readable(bytes.take(n), tab)[spread(bytes, tab, k) + t]),
    decreases n,
{
    let part = bytes.take(n);
    let before = bytes.take(n - 1);
    assert(part.drop_last() =~= before);
    assert(part.last() == bytes[n - 1]);
    lemma_readable_len(bytes, tab, n - 1);
    let at = spread(bytes, tab, k) + t;
    if k < n - 1 {
        lemma_readable(bytes, tab, n - 1, k, t);
        assert(readable(part, tab)[at] == readable(before, tab)[at]);
    } else {
        assert(readable(part, tab)[at] == byte_char(bytes[k]));
    }
}

/// An unedited line is shown without the carriage return, and the line feed behind it, that end it:
/// each byte as itself in the columns behind those of the bytes before it, and nothing else. A
/// line feed alone is shown.
pub proof fn law_unedited_line_shown(doc: Document, i: int, k: int, t: int)
    requires
        !doc.edited(i),
    ensures
        ({
            let line = doc.line(i);
            let n = line.len() as int;
            let tab = doc.tab_width as nat;
            let end = if n >= 2 && line[n - 2] == 0x0d && line[n - 1] == 0x0a {
                n - 2
            } else if n >= 1 && line[n - 1] == 0x0d {
                n - 1
            } else {
                n
            };
            let text = doc.text_of(i);
            &&& text.len() == spread(line, tab, end)
            &&& 0 <= k < end && 0 <= t < room(line[k], tab) ==> {
                let at = spread(line, tab, k) + t;
                at < text.len() && shows(line[k], text[at])
            }
        }),
{
    let line = doc.line(i);
    let n = line.len() as int;
    let tab = doc.tab_width as nat;
    let end = if n >= 2 && line[n - 2] == 0x0d && line[n - 1] == 0x0a {
        n - 2
    } else if n >= 1 && line[n - 1] == 0x0d {
        n - 1
    } else {
        n
    };
    assert(line_body(line) =~= line.take(end));
    lemma_readable_len(line, tab, end);
    if 0 <= k < end && 0 <= t < room(line[k], tab) {
        lemma_readable(line, tab, end, k, t);
    }
}

/// Where the line `i` starts in what is saved.
pub open spec fn saved_place(doc: Document, i: int) -> int
    decreases i,
{
    if i <= 0 {
        0
    } else {
        saved_place(doc, i - 1) + doc.saved_line(i - 1).len()
    }
}

proof fn lemma_saved_places(doc: Document, i: int, n: int)
    requires
        0 <= i < n,
    ensures
        0 <= saved_place(doc, i),
        doc.saved_lines(n).len() == saved_place(doc, n),
        saved_place(doc, i) + doc.saved_line(i).len() <= saved_place(doc, n),
        doc.saved_lines(n).subrange(
            saved_place(doc, i),
            saved_place(doc, i) + doc.saved_line(i).len(),
        ) == doc.saved_line(i),
    decreases n,
{
    lemma_saved_len(doc, n);
    lemma_saved_len(doc, n - 1);
    lemma_saved_len(doc, i);
    let from = saved_place(doc, i);
    let to = from + doc.saved_line(i).len();
    if i < n - 1 {
        lemma_saved_places(doc, i, n - 1);
        assert(doc.saved_lines(n).subrange(from, to) =~= doc.saved_lines(n - 1).subrange(from, to));
    } else {
        assert(doc.saved_lines(n).subrange(from, to) =~= doc.saved_line(i));
    }
}

proof fn lemma_saved_len(doc: Document, n: int)
    requires
        0 <= n,
    ensures
        doc.saved_lines(n).len() == saved_place(doc, n),
    decreases n,
{
    if n > 0 {
        lemma_saved_len(doc, n - 1);
    }
}

/// A file is saved line by line, each line behind those before it, and nothing else.
pub proof fn law_saved_line_by_line(doc: Document, i: int)
    requires
        0 <= i < doc.count(),
    ensures
        ({
            let from = saved_place(doc, i);
            let to = from + doc.saved_line(i).len();
            &&& 0 <= from <= to <= doc.saved().len()
            &&& doc.saved().subrange(from, to) == doc.saved_line(i)
            &&& doc.saved().len() == saved_place(doc, doc.count())
        }),
{
    lemma_saved_places(doc, i, doc.count());
}

/// A line that was not edited is saved as it stands in the file, the last one with a line feed behind
/// it where it has none; an edited line is saved as its new text and a line feed.
pub proof fn law_saved_line(doc: Document, i: int)
    requires
        0 <= i < doc.count(),
    ensures
        doc.edited(i) ==> doc.saved_line(i) == vstd::utf8::encode_utf8(
            doc.dirty_lines@[i as usize]@,
        ).push(0x0a),
        !doc.edited(i) && i + 1 < doc.count() ==> doc.saved_line(i) == doc.line(i),
        !doc.edited(i) && i + 1 == doc.count() ==> doc.saved_line(i).len() > 0 && doc.saved_line(
            i,
        ).last() == 0x0a && (doc.saved_line(i) == doc.line(i) || doc.saved_line(i) == doc.line(
            i,
        ).push(0x0a)),
{
}

} // verus!
