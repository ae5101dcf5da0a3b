//! Syntax classes of the bytes of one line of JSON.
use vstd::prelude::*;

verus! {

/// What a byte of a JSON line is.
#[derive(Clone, Copy, Debug, PartialEq, Eq, Structural)]
pub enum JsonTokenClass {
    Text,
    Delimiter,
    Key,
    String,
    Number,
    Keyword,
}

/// The bytes `{`, `}`, `[`, `]`, `:` and `,`.
pub open spec fn json_delimiter(b: u8) -> bool {
    b == 0x7b || b == 0x7d || b == 0x5b || b == 0x5d || b == 0x3a || b == 0x2c
}

/// A digit or a minus sign.
pub open spec fn starts_number(b: u8) -> bool {
    b == 0x2d || 0x30 <= b <= 0x39
}

/// The bytes that a number can go on with: digits, `.`, `e`, `E`, `+` and `-`.
pub open spec fn continues_number(b: u8) -> bool {
    0x30 <= b <= 0x39 || b == 0x2e || b == 0x65 || b == 0x45 || b == 0x2b || b == 0x2d
}

/// How many bytes of `s` belong to a string that was opened before it, up to its quotation mark or
/// to the end; `escaped` says that a backslash stands right before `s`.
pub open spec fn string_rest_len(s: Seq<u8>, escaped: bool) -> nat
    decreases s.len(),
{
    if s.len() == 0 {
        0
    } else if escaped {
        1 + string_rest_len(s.skip(1), false)
    } else if s[0] == 0x22 {
        1
    } else {
        1 + string_rest_len(s.skip(1), s[0] == 0x5c)
    }
}

/// How many bytes at the head of `s` a number goes on over.
pub open spec fn number_rest_len(s: Seq<u8>) -> nat
    decreases s.len(),
{
    if s.len() == 0 || !continues_number(s[0]) {
        0
    } else {
        1 + number_rest_len(s.skip(1))
    }
}

/// `s` starts with `true`.
pub open spec fn starts_true(s: Seq<u8>) -> bool {
    s.len() >= 4 && s[0] == 0x74 && s[1] == 0x72 && s[2] == 0x75 && s[3] == 0x65
}

/// `s` starts with `false`.
pub open spec fn starts_false(s: Seq<u8>) -> bool {
    s.len() >= 5 && s[0] == 0x66 && s[1] == 0x61 && s[2] == 0x6c && s[3] == 0x73 && s[4] == 0x65
}

/// `s` starts with `null`.
pub open spec fn starts_null(s: Seq<u8>) -> bool {
    s.len() >= 4 && s[0] == 0x6e && s[1] == 0x75 && s[2] == 0x6c && s[3] == 0x6c
}

/// The length of the token that `s` starts with.
pub open spec fn json_token_len(s: Seq<u8>) -> nat {
    if s[0] == 0x22 {
        1 + string_rest_len(s.skip(1), false)
    } else if starts_number(s[0]) {
        1 + number_rest_len(s.skip(1))
    } else if starts_true(s) || starts_null(s) {
        4
    } else if starts_false(s) {
        5
    } else {
        1
    }
}

/// The class of the token that `s` starts with; a string is a key where `key` says that one is due.
pub open spec fn json_token_class(key: bool, s: Seq<u8>) -> JsonTokenClass {
    if json_delimiter(s[0]) {
        JsonTokenClass::Delimiter
    } else if s[0] == 0x22 {
        if key {
            JsonTokenClass::Key
        } else {
            JsonTokenClass::String
        }
    } else if starts_number(s[0]) {
        JsonTokenClass::Number
    } else if starts_true(s) || starts_false(s) || starts_null(s) {
        JsonTokenClass::Keyword
    } else {
        JsonTokenClass::Text
    }
}

/// Whether a key is due behind the token that `s` starts with: it is behind `{` and `,`, no
/// longer behind `:`, `[` and a value, and as before behind anything else.
pub open spec fn json_key_due(key: bool, s: Seq<u8>) -> bool {
    if s[0] == 0x7b || s[0] == 0x2c {
        true
    } else if s[0] == 0x7d || s[0] == 0x5d {
        key
    } else if json_token_class(key, s) == JsonTokenClass::Text {
        key
    } else {
        false
    }
}

/// The classes of the bytes of `s`; `key` says that a key is due.
pub open spec fn json_classes(key: bool, s: Seq<u8>) -> Seq<JsonTokenClass>
    decreases s.len(),
{
    if s.len() == 0 {
        Seq::empty()
    } else {
        let n = json_token_len(s);
        proof {
            lemma_token_len(s);
        }
        Seq::new(n, |i: int| json_token_class(key, s)) + json_classes(
            json_key_due(key, s),
            s.skip(n as int),
        )
    }
}

/// A token is never empty and never longer than the line.
pub proof fn lemma_token_len(s: Seq<u8>)
    requires
        s.len() > 0,
    ensures
        0 < json_token_len(s) <= s.len(),
{
    lemma_string_rest_len(s.skip(1), false);
    lemma_number_rest_len(s.skip(1));
}

proof fn lemma_string_rest_len(s: Seq<u8>, escaped: bool)
    ensures
        string_rest_len(s, escaped) <= s.len(),
    decreases s.len(),
{
    if s.len() > 0 {
        lemma_string_rest_len(s.skip(1), false);
        lemma_string_rest_len(s.skip(1), s[0] == 0x5c);
    }
}

proof fn lemma_number_rest_len(s: Seq<u8>)
    ensures
        number_rest_len(s) <= s.len(),
    decreases s.len(),
{
    if s.len() > 0 && continues_number(s[0]) {
        lemma_number_rest_len(s.skip(1));
    }
}

/// The classes give each byte exactly one class.
pub proof fn law_json_classes_len(key: bool, s: Seq<u8>)
    ensures
        json_classes(key, s).len() == s.len(),
    decreases s.len(),
{
    if s.len() > 0 {
        lemma_token_len(s);
        law_json_classes_len(json_key_due(key, s), s.skip(json_token_len(s) as int));
    }
}

/// Where the string ends that opens at `start`.
fn string_end(bytes: &[u8], start: usize) -> (r: usize)
    requires
        start < bytes@.len(),
    ensures
        r == start + 1 + string_rest_len(bytes@.skip(start as int).skip(1), false),
{
    let ghost s = bytes@.skip(start as int).skip(1);
    let len = bytes.len();
    let mut idx: usize = start + 1;
    let mut escaped: bool = false;
    let mut open: bool = true;
    proof {
        assert(s =~= bytes@.skip(idx as int));
    }
    while open && idx < len
        invariant
            len == bytes@.len(),
            start < idx <= bytes@.len(),
            open ==> string_rest_len(s, false) == idx - start - 1 + string_rest_len(
                bytes@.skip(idx as int),
                escaped,
            ),
            !open ==> string_rest_len(s, false) == idx - start - 1,
        decreases bytes@.len() - idx,
    {
        let b = bytes[idx];
        proof {
            assert(bytes@.skip(idx as int).skip(1) =~= bytes@.skip(idx + 1));
        }
        if escaped {
            escaped = false;
        } else if b == 0x5c {
            escaped = true;
        } else if b == 0x22 {
            open = false;
        }
        idx = idx + 1;
    }
    idx
}

/// Where the number ends that starts at `start`.
fn number_end(bytes: &[u8], start: usize) -> (r: usize)
    requires
        start < bytes@.len(),
    ensures
        r == start + 1 + number_rest_len(bytes@.skip(start as int).skip(1)),
{
    let ghost s = bytes@.skip(start as int).skip(1);
    let len = bytes.len();
    let mut idx: usize = start + 1;
    proof {
        assert(s =~= bytes@.skip(idx as int));
    }
    while idx < len && ((0x30 <= bytes[idx] && bytes[idx] <= 0x39) || bytes[idx] == 0x2e
        || bytes[idx] == 0x65 || bytes[idx] == 0x45 || bytes[idx] == 0x2b || bytes[idx] == 0x2d)
        invariant
            len == bytes@.len(),
            start < idx <= bytes@.len(),
            number_rest_len(s) == idx - start - 1 + number_rest_len(bytes@.skip(idx as int)),
        decreases bytes@.len() - idx,
    {
        proof {
            assert(bytes@.skip(idx as int).skip(1) =~= bytes@.skip(idx + 1));
        }
        idx = idx + 1;
    }
    idx
}

/// The token at `idx`: where it ends, its class, and whether a key is due behind it.
fn json_token(bytes: &[u8], idx: usize, key: bool) -> (r: (usize, JsonTokenClass, bool))
    requires
        idx < bytes@.len(),
    ensures
        r.0 == idx + json_token_len(bytes@.skip(idx as int)),
        r.1 == json_token_class(key, bytes@.skip(idx as int)),
        r.2 == json_key_due(key, bytes@.skip(idx as int)),
{
    let b = bytes[idx];
    let left: usize = bytes.len() - idx;
    if b == 0x7b || b == 0x2c {
        (idx + 1, JsonTokenClass::Delimiter, true)
    } else if b == 0x3a || b == 0x5b {
        (idx + 1, JsonTokenClass::Delimiter, false)
    } else if b == 0x7d || b == 0x5d {
        (idx + 1, JsonTokenClass::Delimiter, key)
    } else if b == 0x22 {
        let end = string_end(bytes, idx);
        if key {
            (end, JsonTokenClass::Key, false)
        } else {
            (end, JsonTokenClass::String, false)
        }
    } else if b == 0x2d || (0x30 <= b && b <= 0x39) {
        (number_end(bytes, idx), JsonTokenClass::Number, false)
    } else if left >= 4 && b == 0x74 && bytes[idx + 1] == 0x72 && bytes[idx + 2] == 0x75 && bytes[idx
        + 3] == 0x65 {
        (idx + 4, JsonTokenClass::Keyword, false)
    } else if left >= 5 && b == 0x66 && bytes[idx + 1] == 0x61 && bytes[idx + 2] == 0x6c && bytes[idx
        + 3] == 0x73 && bytes[idx + 4] == 0x65 {
        (idx + 5, JsonTokenClass::Keyword, false)
    } else if left >= 4 && b == 0x6e && bytes[idx + 1] == 0x75 && bytes[idx + 2] == 0x6c && bytes[idx
        + 3] == 0x6c {
        (idx + 4, JsonTokenClass::Keyword, false)
    } else {
        (idx + 1, JsonTokenClass::Text, key)
    }
}

/// The class of each byte of a line, a key being due at its start.
pub fn classify_json_line(bytes: &[u8]) -> (r: Vec<JsonTokenClass>)
    ensures
        r@ == json_classes(true, bytes@),
        r@.len() == bytes@.len(),
{
    let mut classes: Vec<JsonTokenClass> = Vec::new();
    let mut key: bool = true;
    let mut idx: usize = 0;
    proof {
        law_json_classes_len(true, bytes@);
        assert(bytes@.skip(0) =~= bytes@);
        assert(classes@ + json_classes(key, bytes@) =~= json_classes(key, bytes@));
    }
    while idx < bytes.len()
        invariant
            idx <= bytes@.len(),
            json_classes(true, bytes@) == classes@ + json_classes(key, bytes@.skip(idx as int)),
        decreases bytes@.len() - idx,
    {
        let ghost rest = bytes@.skip(idx as int);
        let ghost before = classes@;
        let ghost here = key;
        proof {
            lemma_token_len(rest);
        }
        let (end, class, next) = json_token(bytes, idx, key);
        let start = idx;
        while idx < end
            invariant
                start <= idx <= end,
                classes@ == before + Seq::new((idx - start) as nat, |i: int| class),
            decreases end - idx,
        {
            classes.push(class);
            idx = idx + 1;
            proof {
                assert(classes@ =~= before + Seq::new((idx - start) as nat, |i: int| class));
            }
        }
        proof {
            let n = json_token_len(rest);
            assert(Seq::new((idx - start) as nat, |i: int| class) =~= Seq::new(
                n,
                |i: int| json_token_class(here, rest),
            ));
            assert(rest.skip(n as int) =~= bytes@.skip(idx as int));
            assert(json_classes(true, bytes@) =~= classes@ + json_classes(
                next,
                rest.skip(n as int),
            ));
        }
        key = next;
    }
    proof {
        assert(classes@ + Seq::<JsonTokenClass>::empty() =~= classes@);
    }
    classes
}

} // verus!
