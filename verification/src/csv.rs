//! Delimited values: which byte separates the fields, and how wide the columns are.
use vstd::prelude::*;

use crate::text::saturated;

verus! {

/// The separator that was asked for is not one that can be used.
#[derive(Clone, Copy, Debug, PartialEq, Eq, Structural)]
pub struct CsvSeparatorError;

impl CsvSeparatorError {
    /// What to tell the user.
    pub fn message(&self) -> (r: &'static str)
        ensures
            r@ == "--csv-separator must be a single ASCII character or \\t"@,
    {
        "--csv-separator must be a single ASCII character or \\t"
    }
}

/// The separator that `raw` stands for: a tab for a backslash and a `t`, or the one ASCII character
/// that `raw` consists of.
pub open spec fn named_separator(raw: Seq<char>) -> Option<u8> {
    if raw == seq!['\\', 't'] {
        Some(0x09)
    } else if raw.len() == 1 && raw[0] <= '\u{7f}' {
        Some(raw[0] as u8)
    } else {
        None
    }
}

/// Reads the separator that the user names.
pub fn parse_csv_separator(raw: &str) -> (r: Result<u8, CsvSeparatorError>)
    ensures
        match r {
            Ok(b) => named_separator(raw@) == Some(b) && b < 0x80,
            Err(_) => named_separator(raw@) is None,
        },
{
    let len = raw.unicode_len();
    if len == 2 && raw.get_char(0) == '\\' && raw.get_char(1) == 't' {
        proof {
            assert(raw@ =~= seq!['\\', 't']);
        }
        return Ok(0x09);
    }
    if len == 1 {
        let c = raw.get_char(0);
        if c <= '\u{7f}' {
            return Ok(c as u8);
        }
    }
    Err(CsvSeparatorError)
}

/// How often `b` stands in `s`.
pub open spec fn occurrences(s: Seq<u8>, b: u8) -> nat
    decreases s.len(),
{
    if s.len() == 0 {
        0
    } else {
        occurrences(s.drop_last(), b) + if s.last() == b {
            1nat
        } else {
            0nat
        }
    }
}

/// How many bytes the first `lines` lines of `s` take, their line feeds included.
pub open spec fn lines_len(s: Seq<u8>, lines: nat) -> nat
    decreases s.len(),
{
    if s.len() == 0 || lines == 0 {
        0
    } else if s[0] == 0x0a {
        1 + lines_len(s.skip(1), (lines - 1) as nat)
    } else {
        1 + lines_len(s.skip(1), lines)
    }
}

/// The part of a file that the separator is guessed from: its first fifty lines.
pub open spec fn separator_sample(s: Seq<u8>) -> Seq<u8> {
    s.take(lines_len(s, 50) as int)
}

/// The separators that are looked for, the likeliest first: comma, semicolon, tab, bar and colon.
pub open spec fn separator_candidates() -> Seq<u8> {
    seq![0x2cu8, 0x3bu8, 0x09u8, 0x7cu8, 0x3au8]
}

/// `b` is the first of the candidates that none of the others beats in the sample.
pub open spec fn is_likeliest_separator(s: Seq<u8>, b: u8) -> bool {
    let sample = separator_sample(s);
    let c = separator_candidates();
    exists|k: int|
        0 <= k < c.len() && #[trigger] c[k] == b && (forall|j: int|
            0 <= j < c.len() ==> occurrences(sample, #[trigger] c[j]) <= occurrences(sample, b)) && (
        forall|j: int|
            0 <= j < k ==> occurrences(sample, #[trigger] c[j]) < occurrences(sample, b))
}

fn count_byte(s: &[u8], b: u8) -> (r: usize)
    ensures
        r == occurrences(s@, b),
{
    let mut count: usize = 0;
    let mut i: usize = 0;
    while i < s.len()
        invariant
            count <= i <= s@.len(),
            count == occurrences(s@.take(i as int), b),
        decreases s.len() - i,
    {
        proof {
            assert(s@.take(i + 1).drop_last() =~= s@.take(i as int));
        }
        if s[i] == b {
            count = count + 1;
        }
        i = i + 1;
    }
    proof {
        assert(s@.take(i as int) =~= s@);
    }
    count
}

fn sample_end(bytes: &[u8]) -> (r: usize)
    ensures
        r == lines_len(bytes@, 50),
        r <= bytes@.len(),
{
    let mut lines: usize = 50;
    let mut i: usize = 0;
    proof {
        assert(bytes@.skip(0) =~= bytes@);
    }
    while i < bytes.len() && lines > 0
        invariant
            i <= bytes@.len(),
            lines_len(bytes@, 50) == i + lines_len(bytes@.skip(i as int), lines as nat),
        decreases bytes.len() - i,
    {
        proof {
            assert(bytes@.skip(i as int).skip(1) =~= bytes@.skip(i + 1));
        }
        if bytes[i] == 0x0a {
            lines = lines - 1;
        }
        i = i + 1;
    }
    i
}

/// Guesses the separator of a file.
pub fn detect_csv_separator(bytes: &[u8]) -> (r: u8)
    ensures
        is_likeliest_separator(bytes@, r),
        r < 0x80,
{
    let end = sample_end(bytes);
    let sample = &bytes[0..end];
    proof {
        assert(sample@ =~= separator_sample(bytes@));
    }
    let comma = count_byte(sample, 0x2c);
    let semicolon = count_byte(sample, 0x3b);
    let tab = count_byte(sample, 0x09);
    let bar = count_byte(sample, 0x7c);
    let colon = count_byte(sample, 0x3a);
    let mut best: u8 = 0x2c;
    let mut most: usize = comma;
    if semicolon > most {
        best = 0x3b;
        most = semicolon;
    }
    if tab > most {
        best = 0x09;
        most = tab;
    }
    if bar > most {
        best = 0x7c;
        most = bar;
    }
    if colon > most {
        best = 0x3a;
        most = colon;
    }
    proof {
        let c = separator_candidates();
        let k: int = if best == 0x2c {
            0
        } else if best == 0x3b {
            1
        } else if best == 0x09 {
            2
        } else if best == 0x7c {
            3
        } else {
            4
        };
        assert(c[k] == best);
        assert(occurrences(sample@, best) == most);
        assert(c[0] == 0x2c && c[1] == 0x3b && c[2] == 0x09 && c[3] == 0x7c && c[4] == 0x3a);
    }
    best
}

/// The separator to use: the one that the user names, else the one that the file suggests.
pub fn resolve_csv_separator(user_separator: Option<&str>, bytes: &[u8]) -> (r: Result<
    u8,
    CsvSeparatorError,
>)
    ensures
        match (user_separator, r) {
            (Some(raw), Ok(b)) => named_separator(raw@) == Some(b) && b < 0x80,
            (Some(raw), Err(_)) => named_separator(raw@) is None,
            (None, Ok(b)) => is_likeliest_separator(bytes@, b) && b < 0x80,
            (None, Err(_)) => false,
        },
{
    match user_separator {
        Some(separator) => parse_csv_separator(separator),
        None => Ok(detect_csv_separator(bytes)),
    }
}

/// One field: the column it stands in and how wide it is shown.
pub struct CsvField {
    pub column: nat,
    pub width: nat,
}

/// How wide one byte of a field is shown.
pub open spec fn byte_width(b: u8, tab_width: nat) -> nat {
    if b == 0x09 {
        tab_width
    } else {
        1
    }
}

/// The fields of `s`, row by row, where `s` goes on inside a field of the column `column` that is
/// `width` wide so far. A line feed ends a row, and a carriage return takes no room.
pub open spec fn csv_fields(
    s: Seq<u8>,
    separator: u8,
    tab_width: nat,
    column: nat,
    width: nat,
) -> Seq<CsvField>
    decreases s.len(),
{
    if s.len() == 0 {
        seq![CsvField { column, width }]
    } else if s[0] == 0x0a {
        seq![CsvField { column, width }] + csv_fields(s.skip(1), separator, tab_width, 0, 0)
    } else if s[0] == 0x0d {
        csv_fields(s.skip(1), separator, tab_width, column, width)
    } else if s[0] == separator {
        seq![CsvField { column, width }] + csv_fields(
            s.skip(1),
            separator,
            tab_width,
            column + 1,
            0,
        )
    } else {
        csv_fields(
            s.skip(1),
            separator,
            tab_width,
            column,
            width + byte_width(s[0], tab_width),
        )
    }
}

/// Some field of the column `c` is `w` wide, as far as a `usize` can tell it.
pub open spec fn has_field(fields: Seq<CsvField>, c: int, w: usize) -> bool {
    exists|i: int|
        0 <= i < fields.len() && (#[trigger] fields[i]).column == c && saturated(fields[i].width)
            == w
}

/// `widths` gives each column the width of its widest field, as far as a `usize` can tell it.
pub open spec fn are_column_widths(fields: Seq<CsvField>, widths: Seq<usize>) -> bool {
    &&& forall|i: int|
        0 <= i < fields.len() ==> (#[trigger] fields[i]).column < widths.len() && saturated(
            fields[i].width,
        ) <= widths[fields[i].column as int]
    &&& forall|c: int| 0 <= c < widths.len() ==> has_field(fields, c, #[trigger] widths[c])
}

/// The fields of a whole file.
pub open spec fn file_fields(s: Seq<u8>, separator: u8, tab_width: usize) -> Seq<CsvField> {
    csv_fields(s, separator, tab_width as nat, 0, 0)
}

/// There is one list of column widths, and no other.
pub proof fn law_column_widths_unique(fields: Seq<CsvField>, a: Seq<usize>, b: Seq<usize>)
    requires
        are_column_widths(fields, a),
        are_column_widths(fields, b),
    ensures
        a == b,
{
    if a.len() > 0 {
        assert(has_field(fields, a.len() - 1, a[a.len() - 1]));
    }
    if b.len() > 0 {
        assert(has_field(fields, b.len() - 1, b[b.len() - 1]));
    }
    assert forall|c: int| 0 <= c < a.len() implies a[c] == b[c] by {
        assert(has_field(fields, c, a[c]) && has_field(fields, c, b[c]));
        let i = choose|i: int|
            0 <= i < fields.len() && (#[trigger] fields[i]).column == c && saturated(
                fields[i].width,
            ) == a[c];
        let j = choose|j: int|
            0 <= j < fields.len() && (#[trigger] fields[j]).column == c && saturated(
                fields[j].width,
            ) == b[c];
        assert(a[c] <= b[c]);
        assert(b[c] <= a[c]);
    }
    assert(a =~= b);
}

/// Takes one more field into the widths.
fn record_width(
    widths: &mut Vec<usize>,
    column: usize,
    width: usize,
    Ghost(fields): Ghost<Seq<CsvField>>,
    Ghost(exact): Ghost<nat>,
)
    requires
        are_column_widths(fields, old(widths)@),
        column <= old(widths)@.len(),
        width == saturated(exact),
    ensures
        are_column_widths(
            fields.push(CsvField { column: column as nat, width: exact }),
            final(widths)@,
        ),
        column < final(widths)@.len(),
        final(widths)@.len() <= usize::MAX,
{
    let ghost more = fields.push(CsvField { column: column as nat, width: exact });
    let ghost before = widths@;
    if widths.len() <= column {
        widths.push(width);
    } else if widths[column] < width {
        widths.set(column, width);
    }
    proof {
        let w = widths@;
        assert(w.len() == widths.len());
        assert forall|i: int| 0 <= i < more.len() implies (#[trigger] more[i]).column < w.len()
            && saturated(more[i].width) <= w[more[i].column as int] by {
            if i < fields.len() {
                assert(more[i] == fields[i]);
            }
        }
        assert forall|c: int| 0 <= c < w.len() implies has_field(more, c, #[trigger] w[c]) by {
            let last = fields.len() as int;
            if c < before.len() && w[c] == before[c] {
                assert(has_field(fields, c, before[c]));
                let i = choose|i: int|
                    0 <= i < fields.len() && (#[trigger] fields[i]).column == c && saturated(
                        fields[i].width,
                    ) == before[c];
                assert(more[i] == fields[i]);
            } else {
                assert(more[last].column == c && saturated(more[last].width) == w[c]);
            }
        }
    }
}

/// How wide each column is: as wide as its widest field.
pub fn index_csv_column_widths(bytes: &[u8], tab_width: usize, separator: u8) -> (r: Vec<usize>)
    ensures
        are_column_widths(file_fields(bytes@, separator, tab_width), r@),
        r@.len() > 0,
{
    let mut widths: Vec<usize> = Vec::new();
    let mut column: usize = 0;
    let mut current_width: usize = 0;
    let mut idx: usize = 0;
    let ghost all = file_fields(bytes@, separator, tab_width);
    let ghost mut done: Seq<CsvField> = Seq::empty();
    let ghost mut exact: nat = 0;
    proof {
        assert(bytes@.skip(0) =~= bytes@);
        assert(done + all =~= all);
    }
    while idx < bytes.len()
        invariant
            idx <= bytes@.len(),
            column <= widths@.len(),
            current_width == saturated(exact),
            are_column_widths(done, widths@),
            all == done + csv_fields(
                bytes@.skip(idx as int),
                separator,
                tab_width as nat,
                column as nat,
                exact,
            ),
        decreases bytes.len() - idx,
    {
        let b = bytes[idx];
        let ghost field = CsvField { column: column as nat, width: exact };
        let ghost rest = bytes@.skip(idx as int);
        proof {
            assert(rest.skip(1) =~= bytes@.skip(idx + 1));
        }
        if b == 0x0a {
            record_width(&mut widths, column, current_width, Ghost(done), Ghost(exact));
            column = 0;
            current_width = 0;
            proof {
                exact = 0;
                assert(all =~= done.push(field) + csv_fields(
                    rest.skip(1),
                    separator,
                    tab_width as nat,
                    0,
                    0,
                ));
                done = done.push(field);
            }
        } else if b == 0x0d {
        } else if b == separator {
            record_width(&mut widths, column, current_width, Ghost(done), Ghost(exact));
            column = column + 1;
            current_width = 0;
            proof {
                exact = 0;
                assert(all =~= done.push(field) + csv_fields(
                    rest.skip(1),
                    separator,
                    tab_width as nat,
                    column as nat,
                    0,
                ));
                done = done.push(field);
            }
        } else {
            let step: usize = if b == 0x09 {
                tab_width
            } else {
                1
            };
            current_width = current_width.saturating_add(step);
            proof {
                exact = exact + byte_width(b, tab_width as nat);
            }
        }
        idx = idx + 1;
    }
    record_width(&mut widths, column, current_width, Ghost(done), Ghost(exact));
    proof {
        assert(all =~= done.push(CsvField { column: column as nat, width: exact }));
    }
    widths
}

} // verus!
