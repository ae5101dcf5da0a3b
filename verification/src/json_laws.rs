//! What the class of a byte of a JSON line is, told from its place in the line.
use vstd::prelude::*;

use crate::json::{
    json_classes, json_key_due, json_token_class, json_token_len, law_json_classes_len,
    lemma_token_len, number_rest_len, string_rest_len, JsonTokenClass,
};
use crate::json_format_laws::{json_blank, outside_strings, string_place, StringPlace};

verus! {

/// The byte `m` of `s` belongs to a string, its quotation marks included.
pub open spec fn in_string_token(s: Seq<u8>, m: int) -> bool {
    !outside_strings(s, m) || s[m] == 0x22
}

/// The byte `m` of `s` belongs to a number: outside strings every digit and every minus sign does,
/// and `.`, `e`, `E` and `+` do right behind a byte of a number.
pub open spec fn in_number(s: Seq<u8>, m: int) -> bool
    decreases m,
{
    &&& outside_strings(s, m)
    &&& {
        ||| 0x30 <= s[m] <= 0x39
        ||| s[m] == 0x2d
        ||| m > 0 && (s[m] == 0x2e || s[m] == 0x65 || s[m] == 0x45 || s[m] == 0x2b) && in_number(
            s,
            m - 1,
        )
    }
}

/// How long the keyword is that stands at `a` outside strings, zero where none does.
pub open spec fn keyword_len(s: Seq<u8>, a: int) -> int {
    if a < 0 || !outside_strings(s, a) {
        0
    } else if a + 4 <= s.len() && s.subrange(a, a + 4) == seq![0x74u8, 0x72, 0x75, 0x65] {
        4
    } else if a + 4 <= s.len() && s.subrange(a, a + 4) == seq![0x6eu8, 0x75, 0x6c, 0x6c] {
        4
    } else if a + 5 <= s.len() && s.subrange(a, a + 5) == seq![0x66u8, 0x61, 0x6c, 0x73, 0x65] {
        5
    } else {
        0
    }
}

/// The byte `m` of `s` belongs to one of the words `true`, `false` and `null`.
pub open spec fn in_keyword(s: Seq<u8>, m: int) -> bool {
    exists|a: int| a <= m < a + #[trigger] keyword_len(s, a)
}

/// A key is due at the byte `n` of a line: at its start, behind `{` and `,`, and no longer behind
/// `:`, `[` and a value. In a string it says whether the string is a key.
pub open spec fn key_expected(s: Seq<u8>, n: int) -> bool
    decreases n,
{
    if n <= 0 {
        true
    } else {
        let m = n - 1;
        if !outside_strings(s, m) {
            key_expected(s, m) && !outside_strings(s, n)
        } else if s[m] == 0x7b || s[m] == 0x2c {
            true
        } else if s[m] == 0x3a || s[m] == 0x5b || in_number(s, m) || in_keyword(s, m) {
            false
        } else {
            key_expected(s, m)
        }
    }
}

/// The class of the byte `m` of a line.
pub open spec fn class_by_place(s: Seq<u8>, m: int) -> JsonTokenClass {
    if in_string_token(s, m) {
        if key_expected(s, m) {
            JsonTokenClass::Key
        } else {
            JsonTokenClass::String
        }
    } else if s[m] == 0x7b || s[m] == 0x7d || s[m] == 0x5b || s[m] == 0x5d || s[m] == 0x3a || s[m]
        == 0x2c {
        JsonTokenClass::Delimiter
    } else if in_number(s, m) {
        JsonTokenClass::Number
    } else if in_keyword(s, m) {
        JsonTokenClass::Keyword
    } else {
        JsonTokenClass::Text
    }
}

/// No token reaches over `n`.
spec fn between_tokens(s: Seq<u8>, n: int) -> bool {
    &&& 0 <= n <= s.len()
    &&& outside_strings(s, n)
    &&& n > 0 && n < s.len() && in_number(s, n - 1) ==> !(0x30 <= s[n] <= 0x39 || s[n] == 0x2e
        || s[n] == 0x65 || s[n] == 0x45 || s[n] == 0x2b || s[n] == 0x2d)
    &&& forall|a: int| a < n ==> a + #[trigger] keyword_len(s, a) <= n
}

proof fn lemma_keyword_bytes(s: Seq<u8>, a: int)
    ensures
        0 <= keyword_len(s, a) <= 5,
        keyword_len(s, a) > 0 ==> 0 <= a && a + keyword_len(s, a) <= s.len(),
        keyword_len(s, a) > 0 ==> (s[a] == 0x74 && s[a + 1] == 0x72 && s[a + 2] == 0x75 && s[a + 3]
            == 0x65 && keyword_len(s, a) == 4) || (s[a] == 0x6e && s[a + 1] == 0x75 && s[a + 2]
            == 0x6c && s[a + 3] == 0x6c && keyword_len(s, a) == 4) || (s[a] == 0x66 && s[a + 1]
            == 0x61 && s[a + 2] == 0x6c && s[a + 3] == 0x73 && s[a + 4] == 0x65 && keyword_len(s, a)
            == 5),
{
    let k = keyword_len(s, a);
    if k > 0 {
        let w = s.subrange(a, a + k);
        assert(w[0] == s[a] && w[1] == s[a + 1] && w[2] == s[a + 2] && w[3] == s[a + 3]);
        if k == 5 {
            assert(w[4] == s[a + 4]);
        }
    }
}

proof fn lemma_keyword_here(s: Seq<u8>, a: int)
    requires
        0 <= a < s.len(),
        outside_strings(s, a),
    ensures
        a + 4 <= s.len() && s[a] == 0x74 && s[a + 1] == 0x72 && s[a + 2] == 0x75 && s[a + 3] == 0x65
            ==> keyword_len(s, a) == 4,
        a + 4 <= s.len() && s[a] == 0x6e && s[a + 1] == 0x75 && s[a + 2] == 0x6c && s[a + 3] == 0x6c
            ==> keyword_len(s, a) == 4,
        a + 5 <= s.len() && s[a] == 0x66 && s[a + 1] == 0x61 && s[a + 2] == 0x6c && s[a + 3] == 0x73
            && s[a + 4] == 0x65 ==> keyword_len(s, a) == 5,
{
    lemma_keyword_bytes(s, a);
    if a + 4 <= s.len() {
        let w = s.subrange(a, a + 4);
        assert(w[0] == s[a] && w[1] == s[a + 1] && w[2] == s[a + 2] && w[3] == s[a + 3]);
        if s[a] == 0x74 && s[a + 1] == 0x72 && s[a + 2] == 0x75 && s[a + 3] == 0x65 {
            assert(w =~= seq![0x74u8, 0x72, 0x75, 0x65]);
        }
        if s[a] == 0x6e && s[a + 1] == 0x75 && s[a + 2] == 0x6c && s[a + 3] == 0x6c {
            assert(w =~= seq![0x6eu8, 0x75, 0x6c, 0x6c]);
        }
    }
    if a + 5 <= s.len() && s[a] == 0x66 && s[a + 1] == 0x61 && s[a + 2] == 0x6c && s[a + 3] == 0x73
        && s[a + 4] == 0x65 {
        assert(s.subrange(a, a + 5) =~= seq![0x66u8, 0x61, 0x6c, 0x73, 0x65]);
        assert(s.subrange(a, a + 4)[0] == 0x66);
    }
}

/// Letters change nothing about where strings stand.
proof fn lemma_plain_run(s: Seq<u8>, a: int, b: int)
    requires
        0 <= a <= b <= s.len(),
        outside_strings(s, a),
        forall|j: int| a <= j < b ==> #[trigger] s[j] != 0x22,
    ensures
        forall|j: int| a <= j <= b ==> #[trigger] outside_strings(s, j),
    decreases b - a,
{
    if a < b {
        lemma_plain_run(s, a, b - 1);
        assert(outside_strings(s, b - 1));
        assert(s[b - 1] != 0x22);
    }
}

/// A word starts where no other word reaches, and only its own bytes belong to it.
proof fn lemma_keyword_alone(s: Seq<u8>, a: int, m: int)
    requires
        between_tokens(s, a),
        a <= m < s.len(),
        in_keyword(s, m),
    ensures
        exists|c: int| a <= c && c <= m < c + #[trigger] keyword_len(s, c),
{
    let c = choose|c: int| c <= m < c + #[trigger] keyword_len(s, c);
    if c < a {
        assert(c + keyword_len(s, c) <= a);
    }
}

/// A byte that starts no word and stands between tokens belongs to none.
proof fn lemma_no_keyword(s: Seq<u8>, n: int)
    requires
        between_tokens(s, n),
        n < s.len(),
        keyword_len(s, n) == 0,
    ensures
        !in_keyword(s, n),
{
    if in_keyword(s, n) {
        lemma_keyword_alone(s, n, n);
        let c = choose|c: int| n <= c && c <= n < c + #[trigger] keyword_len(s, c);
        assert(c == n);
    }
}

/// A string token from its opening quotation mark at `n` on.
proof fn lemma_string_token(s: Seq<u8>, n: int, at: int, escaped: bool)
    requires
        0 <= n < at <= s.len(),
        outside_strings(s, n),
        s[n] == 0x22,
        string_place(s, at) == if escaped {
            StringPlace::Escaped
        } else {
            StringPlace::Inside
        },
        key_expected(s, at) == key_expected(s, n),
        forall|j: int| n < j <= at ==> !#[trigger] outside_strings(s, j),
    ensures
        ({
            let end = at + string_rest_len(s.skip(at), escaped);
            &&& at <= end <= s.len()
            &&& forall|m: int|
                at <= m < end ==> in_string_token(s, m) && #[trigger] key_expected(s, m)
                    == key_expected(s, n)
            &&& forall|m: int| at <= m < end ==> !#[trigger] outside_strings(s, m)
            &&& end < s.len() ==> outside_strings(s, end)
            &&& outside_strings(s, end) ==> !key_expected(s, end)
        }),
    decreases s.len() - at,
{
    let rest = s.skip(at);
    if rest.len() > 0 {
        assert(rest[0] == s[at]);
        assert(rest.skip(1) =~= s.skip(at + 1));
        if escaped {
            lemma_string_token(s, n, at + 1, false);
        } else if s[at] == 0x22 {
            assert(outside_strings(s, at + 1));
        } else {
            lemma_string_token(s, n, at + 1, s[at] == 0x5c);
        }
    }
}

proof fn lemma_number_run(s: Seq<u8>, n: int, at: int)
    requires
        0 <= n < at <= s.len(),
        outside_strings(s, at),
        forall|j: int| n <= j < at ==> #[trigger] in_number(s, j),
    ensures
        ({
            let end = at + number_rest_len(s.skip(at));
            &&& at <= end <= s.len()
            &&& forall|m: int| n <= m < end ==> #[trigger] in_number(s, m)
            &&& outside_strings(s, end)
            &&& end < s.len() ==> !(0x30 <= s[end] <= 0x39 || s[end] == 0x2e || s[end] == 0x65
                || s[end] == 0x45 || s[end] == 0x2b || s[end] == 0x2d)
        }),
    decreases s.len() - at,
{
    let rest = s.skip(at);
    if rest.len() > 0 {
        assert(rest[0] == s[at]);
        assert(rest.skip(1) =~= s.skip(at + 1));
        if 0x30 <= s[at] <= 0x39 || s[at] == 0x2e || s[at] == 0x65 || s[at] == 0x45 || s[at] == 0x2b
            || s[at] == 0x2d {
            assert(in_number(s, at - 1));
            assert(in_number(s, at));
            lemma_number_run(s, n, at + 1);
        }
    }
}

/// What one token at `n` gives its bytes, and that no token reaches over its end.
proof fn lemma_token(s: Seq<u8>, n: int)
    requires
        between_tokens(s, n),
        n < s.len(),
    ensures
        ({
            let end = n + json_token_len(s.skip(n));
            &&& n < end <= s.len()
            &&& forall|m: int|
                n <= m < end ==> #[trigger] class_by_place(s, m) == json_token_class(
                    key_expected(s, n),
                    s.skip(n),
                )
            &&& end < s.len() || outside_strings(s, end) ==> between_tokens(s, end) && key_expected(
                s,
                end,
            ) == json_key_due(key_expected(s, n), s.skip(n))
            &&& end < s.len() ==> outside_strings(s, end)
        }),
{
    let rest = s.skip(n);
    let key = key_expected(s, n);
    let end = n + json_token_len(rest);
    lemma_token_len(rest);
    assert(rest[0] == s[n]);
    assert forall|k: int| 0 <= k < rest.len() implies rest[k] == #[trigger] s[n + k] by {}
    lemma_keyword_bytes(s, n);
    lemma_keyword_here(s, n);
    assert(rest.skip(1) =~= s.skip(n + 1));
    if s[n] == 0x22 {
        lemma_no_keyword(s, n);
        assert(key_expected(s, n + 1) == key);
        lemma_string_token(s, n, n + 1, false);
        assert forall|m: int| n <= m < end implies #[trigger] class_by_place(s, m)
            == json_token_class(key, rest) by {
            assert(key_expected(s, m) == key);
        }
        if outside_strings(s, end) {
            assert forall|a: int| a < end implies a + #[trigger] keyword_len(s, a) <= end by {
                if a > n {
                    assert(!outside_strings(s, a));
                }
            }
            assert(!in_number(s, end - 1));
        }
    } else if 0x30 <= s[n] <= 0x39 || s[n] == 0x2d {
        lemma_no_keyword(s, n);
        assert(in_number(s, n));
        assert(outside_strings(s, n + 1));
        lemma_number_run(s, n, n + 1);
        assert forall|m: int| n <= m < end implies #[trigger] class_by_place(s, m)
            == json_token_class(key, rest) by {
            assert(in_number(s, m));
        }
        assert forall|a: int| a < end implies a + #[trigger] keyword_len(s, a) <= end by {
            lemma_keyword_bytes(s, a);
            if n <= a {
                assert(in_number(s, a));
            }
        }
        assert(in_number(s, end - 1));
        assert(s[end - 1] != 0x7b && s[end - 1] != 0x2c);
    } else if keyword_len(s, n) > 0 {
        assert(end == n + keyword_len(s, n));
        assert forall|j: int| n <= j < end implies #[trigger] s[j] != 0x22 by {}
        lemma_plain_run(s, n, end);
        assert(n == 0 || !in_number(s, n));
        assert forall|m: int| n <= m < end implies in_keyword(s, m) && !#[trigger] in_number(
            s,
            m,
        ) && outside_strings(s, m) by {
            assert(n <= m < n + keyword_len(s, n));
            assert(outside_strings(s, m));
            if m > n {
                assert(!in_number(s, m - 1));
            }
        }
        assert forall|m: int| n <= m < end implies #[trigger] class_by_place(s, m)
            == json_token_class(key, rest) by {
            assert(!in_number(s, m));
        }
        assert forall|a: int| a < end implies a + #[trigger] keyword_len(s, a) <= end by {
            lemma_keyword_bytes(s, a);
        }
        assert(!in_number(s, end - 1));
        assert(in_keyword(s, end - 1));
    } else {
        lemma_no_keyword(s, n);
        assert(end == n + 1);
        assert(outside_strings(s, end));
        assert(!in_number(s, n));
        assert forall|a: int| a < end implies a + #[trigger] keyword_len(s, a) <= end by {}
    }
}

proof fn lemma_classes(s: Seq<u8>, n: int)
    requires
        between_tokens(s, n),
    ensures
        forall|m: int|
            n <= m < s.len() ==> json_classes(key_expected(s, n), s.skip(n))[m - n]
                == #[trigger] class_by_place(s, m),
    decreases s.len() - n,
{
    if n < s.len() {
        let key = key_expected(s, n);
        let rest = s.skip(n);
        let len = json_token_len(rest);
        let end = n + len;
        lemma_token(s, n);
        let tail = s.skip(end);
        assert(rest.skip(len as int) =~= tail);
        let classes = json_classes(key, rest);
        let token = Seq::new(len, |i: int| json_token_class(key, rest));
        let more = json_classes(json_key_due(key, rest), tail);
        assert(classes == token + more);
        law_json_classes_len(json_key_due(key, rest), tail);
        if end < s.len() {
            lemma_classes(s, end);
        }
        assert forall|m: int| n <= m < s.len() implies classes[m - n]
            == #[trigger] class_by_place(s, m) by {
            if m < end {
                assert(classes[m - n] == token[m - n]);
            } else {
                assert(classes[m - n] == more[m - end]);
            }
        }
    }
}

/// Every byte of a line has the class that its place in the line gives it: strings are keys or values
/// by what stands before them, and numbers, words and delimiters are what they are outside strings.
pub proof fn law_json_class_by_place(s: Seq<u8>, m: int)
    requires
        0 <= m < s.len(),
    ensures
        json_classes(true, s)[m] == class_by_place(s, m),
{
    assert(s.skip(0) =~= s);
    assert forall|a: int| a < 0 implies a + #[trigger] keyword_len(s, a) <= 0 by {
        lemma_keyword_bytes(s, a);
    }
    lemma_classes(s, 0);
    assert(json_classes(key_expected(s, 0), s.skip(0))[m - 0] == class_by_place(s, m));
}

proof fn lemma_key_over_blanks(s: Seq<u8>, a: int, b: int)
    requires
        0 <= a <= b <= s.len(),
        outside_strings(s, a),
        forall|j: int| a <= j < b ==> json_blank(#[trigger] s[j]),
    ensures
        key_expected(s, b) == key_expected(s, a),
        outside_strings(s, b),
    decreases b - a,
{
    if a < b {
        lemma_key_over_blanks(s, a, b - 1);
        assert(json_blank(s[b - 1]));
        if in_keyword(s, b - 1) {
            let c = choose|c: int| c <= b - 1 < c + #[trigger] keyword_len(s, c);
            lemma_keyword_bytes(s, c);
        }
    }
}

proof fn lemma_same_string(s: Seq<u8>, i: int, m: int)
    requires
        0 <= i <= m < s.len(),
        outside_strings(s, i),
        s[i] == 0x22,
        forall|j: int| i < j <= m ==> !#[trigger] outside_strings(s, j),
    ensures
        key_expected(s, m) == key_expected(s, i),
        in_string_token(s, m),
    decreases m - i,
{
    if i < m {
        lemma_same_string(s, i, m - 1);
        assert(!outside_strings(s, m));
        if m - 1 == i {
            assert(!in_keyword(s, i)) by {
                if in_keyword(s, i) {
                    let c = choose|c: int| c <= i < c + #[trigger] keyword_len(s, c);
                    lemma_keyword_bytes(s, c);
                }
            }
        } else {
            assert(!outside_strings(s, m - 1));
        }
    }
}

/// A string whose quotation mark at `i` stands, but for whitespace, right behind the byte `d` outside
/// strings is a key as a whole where that byte is `{` or `,`, and a value as a whole where it is `:`
/// or `[`.
pub proof fn law_json_key_or_value(s: Seq<u8>, d: int, i: int, m: int)
    requires
        0 <= d < i <= m < s.len(),
        outside_strings(s, d),
        forall|j: int| d < j < i ==> json_blank(#[trigger] s[j]),
        s[i] == 0x22,
        forall|j: int| i < j <= m ==> !#[trigger] outside_strings(s, j),
    ensures
        s[d] == 0x7b || s[d] == 0x2c ==> json_classes(true, s)[m] == JsonTokenClass::Key,
        s[d] == 0x3a || s[d] == 0x5b ==> json_classes(true, s)[m] == JsonTokenClass::String,
{
    if s[d] == 0x7b || s[d] == 0x2c || s[d] == 0x3a || s[d] == 0x5b {
        assert(outside_strings(s, d + 1));
        lemma_key_over_blanks(s, d + 1, i);
        lemma_same_string(s, i, m);
        law_json_class_by_place(s, m);
    }
}

/// The first string of a line is a key as a whole where only whitespace stands before it.
pub proof fn law_json_first_key(s: Seq<u8>, i: int, m: int)
    requires
        0 <= i <= m < s.len(),
        forall|j: int| 0 <= j < i ==> json_blank(#[trigger] s[j]),
        s[i] == 0x22,
        forall|j: int| i < j <= m ==> !#[trigger] outside_strings(s, j),
    ensures
        json_classes(true, s)[m] == JsonTokenClass::Key,
{
    lemma_key_over_blanks(s, 0, i);
    lemma_same_string(s, i, m);
    law_json_class_by_place(s, m);
}

} // verus!
