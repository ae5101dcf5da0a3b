//! Which separator is taken, and how wide columns are, told from the bytes of the file.
use vstd::prelude::*;

use crate::csv::{
    are_column_widths, csv_fields, file_fields, has_field, is_likeliest_separator, lines_len,
    named_separator, occurrences, separator_candidates, separator_sample, CsvField,
};
use crate::text::saturated;

verus! {

/// The user names a tab by a backslash and a `t`, any other ASCII character by itself, and nothing by
/// anything else.
pub proof fn law_named_separator(raw: Seq<char>, b: u8)
    ensures
        named_separator(raw) == Some(b) <==> {
            ||| raw.len() == 2 && raw[0] == '\\' && raw[1] == 't' && b == 0x09
            ||| raw.len() == 1 && raw[0] <= '\u{7f}' && raw[0] as u8 == b
        },
{
    if raw.len() == 2 && raw[0] == '\\' && raw[1] == 't' {
        assert(raw =~= seq!['\\', 't']);
    }
}

/// How many line feeds stand before the byte `n`.
pub open spec fn feeds_before(s: Seq<u8>, n: int) -> nat
    decreases n,
{
    if n <= 0 {
        0
    } else if s[n - 1] == 0x0a {
        feeds_before(s, n - 1) + 1
    } else {
        feeds_before(s, n - 1)
    }
}

/// How often the byte `b` stands before the byte `n` in the first fifty lines.
pub open spec fn seen_early(s: Seq<u8>, b: u8, n: int) -> nat
    decreases n,
{
    if n <= 0 {
        0
    } else if s[n - 1] == b && feeds_before(s, n - 1) < 50 {
        seen_early(s, b, n - 1) + 1
    } else {
        seen_early(s, b, n - 1)
    }
}

proof fn lemma_sample(s: Seq<u8>, n: int, lines: nat)
    requires
        0 <= n <= s.len(),
        feeds_before(s, n) + lines == 50,
    ensures
        ({
            let end = n + lines_len(s.skip(n), lines);
            &&& n <= end <= s.len()
            &&& forall|x: int| n <= x < end ==> #[trigger] feeds_before(s, x) < 50
            &&& forall|x: int| end <= x < s.len() ==> #[trigger] feeds_before(s, x) >= 50
        }),
    decreases s.len() - n,
{
    let rest = s.skip(n);
    if rest.len() == 0 {
    } else if lines == 0 {
        assert forall|x: int| n <= x < s.len() implies #[trigger] feeds_before(s, x) >= 50 by {
            lemma_feeds_rise(s, n, x);
        }
    } else {
        assert(rest[0] == s[n]);
        assert(rest.skip(1) =~= s.skip(n + 1));
        if s[n] == 0x0a {
            lemma_sample(s, n + 1, (lines - 1) as nat);
        } else {
            lemma_sample(s, n + 1, lines);
        }
    }
}

proof fn lemma_feeds_rise(s: Seq<u8>, a: int, b: int)
    requires
        a <= b,
    ensures
        feeds_before(s, a) <= feeds_before(s, b),
    decreases b - a,
{
    if a < b {
        lemma_feeds_rise(s, a, b - 1);
    }
}

proof fn lemma_seen(s: Seq<u8>, b: u8, end: int, n: int)
    requires
        0 <= end <= s.len(),
        0 <= n <= s.len(),
        forall|x: int| 0 <= x < end ==> #[trigger] feeds_before(s, x) < 50,
        forall|x: int| end <= x < s.len() ==> #[trigger] feeds_before(s, x) >= 50,
    ensures
        seen_early(s, b, n) == occurrences(
            s.take(
                if n < end {
                    n
                } else {
                    end
                },
            ),
            b,
        ),
    decreases n,
{
    if n > 0 {
        lemma_seen(s, b, end, n - 1);
        if n <= end {
            assert(feeds_before(s, n - 1) < 50);
            let part = s.take(n);
            assert(part.drop_last() =~= s.take(n - 1));
            assert(part.last() == s[n - 1]);
        } else {
            assert(feeds_before(s, n - 1) >= 50);
        }
    } else {
        assert(s.take(0).len() == 0);
    }
}

/// The separator that a file suggests is the one of comma, semicolon, tab, bar and colon that stands
/// most often in its first fifty lines, and the first of these where several do.
pub proof fn law_likeliest_separator(s: Seq<u8>, b: u8)
    requires
        is_likeliest_separator(s, b),
    ensures
        b == 0x2c || b == 0x3b || b == 0x09 || b == 0x7c || b == 0x3a,
        ({
            let n = s.len() as int;
            let most = seen_early(s, b, n);
            &&& b == 0x2c || seen_early(s, 0x2c, n) < most
            &&& b == 0x3b || seen_early(s, 0x3b, n) < most || (b == 0x2c && seen_early(s, 0x3b, n)
                <= most)
            &&& b == 0x09 || seen_early(s, 0x09, n) < most || ((b == 0x2c || b == 0x3b)
                && seen_early(s, 0x09, n) <= most)
            &&& b == 0x7c || seen_early(s, 0x7c, n) < most || (b != 0x3a && seen_early(s, 0x7c, n)
                <= most)
            &&& seen_early(s, 0x3a, n) <= most
        }),
{
    assert(s.skip(0) =~= s);
    lemma_sample(s, 0, 50);
    let end = lines_len(s, 50) as int;
    let n = s.len() as int;
    let c = separator_candidates();
    assert(c[0] == 0x2c && c[1] == 0x3b && c[2] == 0x09 && c[3] == 0x7c && c[4] == 0x3a);
    lemma_seen(s, 0x2c, end, n);
    lemma_seen(s, 0x3b, end, n);
    lemma_seen(s, 0x09, end, n);
    lemma_seen(s, 0x7c, end, n);
    lemma_seen(s, 0x3a, end, n);
    let sample = separator_sample(s);
    assert(sample == s.take(end));
    let k = choose|k: int|
        0 <= k < c.len() && #[trigger] c[k] == b && (forall|j: int|
            0 <= j < c.len() ==> occurrences(sample, #[trigger] c[j]) <= occurrences(sample, b)) && (
        forall|j: int| 0 <= j < k ==> occurrences(sample, #[trigger] c[j]) < occurrences(sample, b));
    assert(c[k] == b);
}

/// The column that the byte `n` of a file stands in: how many separators stand between it and the
/// start of its line.
pub open spec fn column_at(s: Seq<u8>, separator: u8, n: int) -> nat
    decreases n,
{
    if n <= 0 || s[n - 1] == 0x0a {
        0
    } else if s[n - 1] == separator && s[n - 1] != 0x0d {
        column_at(s, separator, n - 1) + 1
    } else {
        column_at(s, separator, n - 1)
    }
}

/// How many columns of the screen the bytes of its field take before the byte `n`: a tab as many as it
/// is wide, a carriage return none, any other byte one.
pub open spec fn width_at(s: Seq<u8>, separator: u8, tab: nat, n: int) -> nat
    decreases n,
{
    if n <= 0 || s[n - 1] == 0x0a {
        0
    } else if s[n - 1] == 0x0d {
        width_at(s, separator, tab, n - 1)
    } else if s[n - 1] == separator {
        0
    } else if s[n - 1] == 0x09 {
        width_at(s, separator, tab, n - 1) + tab
    } else {
        width_at(s, separator, tab, n - 1) + 1
    }
}

/// A field ends before the byte `n`: at a separator, at the end of a line, or at the end of the file.
pub open spec fn field_ends(s: Seq<u8>, separator: u8, n: int) -> bool {
    n == s.len() || s[n] == 0x0a || (s[n] == separator && s[n] != 0x0d)
}

/// `n` columns, as far as a `usize` counts them.
pub open spec fn counted(n: nat) -> int {
    if n <= usize::MAX {
        n as int
    } else {
        usize::MAX as int
    }
}

/// A field from the byte `n` on is the field `f`.
spec fn field_from(s: Seq<u8>, separator: u8, tab: nat, n: int, f: CsvField) -> bool {
    exists|x: int|
        n <= x <= s.len() && #[trigger] field_ends(s, separator, x) && f == (CsvField {
            column: column_at(s, separator, x),
            width: width_at(s, separator, tab, x),
        })
}

/// Some field of the column `c` takes `w` columns of the screen, as far as a `usize` counts them.
pub open spec fn some_field_takes(s: Seq<u8>, separator: u8, tab: nat, c: int, w: int) -> bool {
    exists|n: int|
        0 <= n <= s.len() && #[trigger] field_ends(s, separator, n) && column_at(s, separator, n)
            == c && counted(width_at(s, separator, tab, n)) == w
}

proof fn lemma_fields(s: Seq<u8>, separator: u8, tab: nat, n: int)
    requires
        0 <= n <= s.len(),
    ensures
        ({
            let fields = csv_fields(
                s.skip(n),
                separator,
                tab,
                column_at(s, separator, n),
                width_at(s, separator, tab, n),
            );
            &&& forall|k: int|
                0 <= k < fields.len() ==> field_from(s, separator, tab, n, #[trigger] fields[k])
            &&& forall|x: int|
                n <= x <= s.len() && #[trigger] field_ends(s, separator, x) ==> fields.contains(
                    CsvField {
                        column: column_at(s, separator, x),
                        width: width_at(s, separator, tab, x),
                    },
                )
        }),
    decreases s.len() - n,
{
    let rest = s.skip(n);
    let c = column_at(s, separator, n);
    let w = width_at(s, separator, tab, n);
    let fields = csv_fields(rest, separator, tab, c, w);
    let here = CsvField { column: c, width: w };
    if rest.len() == 0 {
        assert(fields[0] == here);
        assert(field_ends(s, separator, n));
    } else {
        assert(rest[0] == s[n]);
        assert(rest.skip(1) =~= s.skip(n + 1));
        lemma_fields(s, separator, tab, n + 1);
        let more = csv_fields(
            s.skip(n + 1),
            separator,
            tab,
            column_at(s, separator, n + 1),
            width_at(s, separator, tab, n + 1),
        );
        if field_ends(s, separator, n) {
            assert(fields == seq![here] + more);
            assert(fields[0] == here);
            assert forall|k: int| 0 <= k < fields.len() implies field_from(
                s,
                separator,
                tab,
                n,
                #[trigger] fields[k],
            ) by {
                if k > 0 {
                    assert(fields[k] == more[k - 1]);
                    assert(field_from(s, separator, tab, n + 1, more[k - 1]));
                }
            }
            assert forall|x: int|
                n <= x <= s.len() && #[trigger] field_ends(
                    s,
                    separator,
                    x,
                ) implies fields.contains(
                CsvField {
                    column: column_at(s, separator, x),
                    width: width_at(s, separator, tab, x),
                },
            ) by {
                let f = CsvField {
                    column: column_at(s, separator, x),
                    width: width_at(s, separator, tab, x),
                };
                if x > n {
                    let k = choose|k: int| 0 <= k < more.len() && more[k] == f;
                    assert(fields[k + 1] == f);
                }
            }
        } else {
            assert(fields == more);
            assert forall|k: int| 0 <= k < fields.len() implies field_from(
                s,
                separator,
                tab,
                n,
                #[trigger] fields[k],
            ) by {
                assert(field_from(s, separator, tab, n + 1, more[k]));
            }
        }
    }
}

/// Every column is as wide as its widest field in the whole file, no wider and no narrower.
pub proof fn law_columns_as_wide_as_needed(
    s: Seq<u8>,
    separator: u8,
    tab_width: usize,
    widths: Seq<usize>,
)
    requires
        are_column_widths(file_fields(s, separator, tab_width), widths),
    ensures
        forall|n: int|
            0 <= n <= s.len() && #[trigger] field_ends(s, separator, n) ==> column_at(
                s,
                separator,
                n,
            ) < widths.len() && counted(width_at(s, separator, tab_width as nat, n))
                <= widths[column_at(s, separator, n) as int],
        forall|c: int|
            0 <= c < widths.len() ==> some_field_takes(
                s,
                separator,
                tab_width as nat,
                c,
                #[trigger] widths[c] as int,
            ),
{
    let tab = tab_width as nat;
    let fields = file_fields(s, separator, tab_width);
    assert(s.skip(0) =~= s);
    lemma_fields(s, separator, tab, 0);
    assert(fields == csv_fields(
        s.skip(0),
        separator,
        tab,
        column_at(s, separator, 0),
        width_at(s, separator, tab, 0),
    ));
    assert forall|k: int| 0 <= k < fields.len() implies field_from(
        s,
        separator,
        tab,
        0,
        #[trigger] fields[k],
    ) by {}
    assert forall|n: int|
        0 <= n <= s.len() && #[trigger] field_ends(s, separator, n) implies column_at(
        s,
        separator,
        n,
    ) < widths.len() && counted(width_at(s, separator, tab, n)) <= widths[column_at(
        s,
        separator,
        n,
    ) as int] by {
        let f = CsvField {
            column: column_at(s, separator, n),
            width: width_at(s, separator, tab, n),
        };
        assert(fields.contains(f));
        let k = choose|k: int| 0 <= k < fields.len() && fields[k] == f;
        assert(fields[k].column < widths.len());
    }
    assert forall|c: int| 0 <= c < widths.len() implies some_field_takes(
        s,
        separator,
        tab,
        c,
        #[trigger] widths[c] as int,
    ) by {
        assert(has_field(fields, c, widths[c]));
        let k = choose|k: int|
            0 <= k < fields.len() && (#[trigger] fields[k]).column == c && saturated(
                fields[k].width,
            ) == widths[c];
        assert(field_from(s, separator, tab, 0, fields[k]));
        let n = choose|x: int|
            0 <= x <= s.len() && #[trigger] field_ends(s, separator, x) && fields[k] == (CsvField {
                column: column_at(s, separator, x),
                width: width_at(s, separator, tab, x),
            });
        assert(field_ends(s, separator, n));
    }
}

} // verus!
