use vstd::prelude::*;

use crate::fact::{Fact, FactModel, SchemaFact, SchemaModel};
use crate::value::{FactValue, ValueModel};

verus! {

/// `s` split at each occurrence of `sep`, scanning from left to right
/// (occurrences do not overlap). There is always at least one piece.
pub open spec fn split_on(s: Seq<char>, sep: Seq<char>) -> Seq<Seq<char>>
    decreases s.len(),
{
    if s.len() == 0 || sep.len() == 0 {
        seq![s]
    } else if s.len() >= sep.len() && s.subrange(0, sep.len() as int) == sep {
        seq![Seq::<char>::empty()] + split_on(s.subrange(sep.len() as int, s.len() as int), sep)
    } else {
        let rest = split_on(s.subrange(1, s.len() as int), sep);
        rest.update(0, seq![s[0]] + rest[0])
    }
}

/// The separator between the fields of a record.
pub open spec fn field_separator() -> Seq<char> {
    seq!['-', '-', '-']
}

/// The fields of a record line, split at each `---`.
pub open spec fn split_fields(s: Seq<char>) -> Seq<Seq<char>> {
    split_on(s, field_separator())
}

/// `pieces` with `text` put in front of its first piece.
pub open spec fn prefix_first(text: Seq<char>, pieces: Seq<Seq<char>>) -> Seq<Seq<char>> {
    pieces.update(0, text + pieces[0])
}

pub proof fn lemma_split_on_nonempty(s: Seq<char>, sep: Seq<char>)
    ensures
        split_on(s, sep).len() >= 1,
    decreases s.len(),
{
    if s.len() == 0 || sep.len() == 0 {
    } else if s.len() >= sep.len() && s.subrange(0, sep.len() as int) == sep {
        lemma_split_on_nonempty(s.subrange(sep.len() as int, s.len() as int), sep);
    } else {
        lemma_split_on_nonempty(s.subrange(1, s.len() as int), sep);
    }
}

/// `p` without one trailing carriage return.
pub open spec fn strip_cr(p: Seq<char>) -> Seq<char> {
    if p.len() > 0 && p.last() == '\r' {
        p.drop_last()
    } else {
        p
    }
}

/// The lines of a text: split at each `\n`, a `\r` right before a `\n`
/// dropped, and no empty last line after a final `\n`; an empty text has no
/// lines.
pub open spec fn text_lines(s: Seq<char>) -> Seq<Seq<char>> {
    let pieces = split_on(s, seq!['\n']);
    let body = if s.len() == 0 {
        Seq::empty()
    } else if s.last() == '\n' {
        pieces.drop_last()
    } else {
        pieces
    };
    Seq::new(
        body.len(),
        |i: int|
            if i + 1 < pieces.len() {
                strip_cr(body[i])
            } else {
                body[i]
            },
    )
}

/// The value of a decimal digit character.
pub open spec fn digit_value(c: char) -> Option<int> {
    if c == '0' {
        Some(0)
    } else if c == '1' {
        Some(1)
    } else if c == '2' {
        Some(2)
    } else if c == '3' {
        Some(3)
    } else if c == '4' {
        Some(4)
    } else if c == '5' {
        Some(5)
    } else if c == '6' {
        Some(6)
    } else if c == '7' {
        Some(7)
    } else if c == '8' {
        Some(8)
    } else if c == '9' {
        Some(9)
    } else {
        None
    }
}

/// `s` is one or more decimal digits.
pub open spec fn all_digits(s: Seq<char>) -> bool {
    s.len() > 0 && forall|i: int| 0 <= i < s.len() ==> (#[trigger] digit_value(s[i])) is Some
}

/// The number that a string of decimal digits stands for.
pub open spec fn digits_number(s: Seq<char>) -> int
    decreases s.len(),
{
    if s.len() == 0 {
        0
    } else {
        digits_number(s.drop_last()) * 10 + digit_value(s.last()).unwrap_or(0)
    }
}

/// The integer that `s` writes: an optional `+` or `-` followed by one or
/// more decimal digits, in the range of `i64`; `None` for any other text.
pub open spec fn integer_of(s: Seq<char>) -> Option<i64> {
    let (negative, digits) = if s.len() > 0 && s[0] == '-' {
        (true, s.subrange(1, s.len() as int))
    } else if s.len() > 0 && s[0] == '+' {
        (false, s.subrange(1, s.len() as int))
    } else {
        (false, s)
    };
    let n = if negative {
        -digits_number(digits)
    } else {
        digits_number(digits)
    };
    if all_digits(digits) && i64::MIN <= n <= i64::MAX {
        Some(n as i64)
    } else {
        None
    }
}

/// How a value field is read: as an integer where it writes one, else as
/// text.
pub open spec fn value_of(s: Seq<char>) -> ValueModel {
    match integer_of(s) {
        Some(i) => ValueModel::Integer(i as int),
        None => ValueModel::Text(s),
    }
}

/// How an operation field is read: `True` or `true` assert, anything else
/// retracts.
pub open spec fn operation_of(s: Seq<char>) -> bool {
    s == "True"@ || s == "true"@
}

/// The fact that a log line records, or `None` where it has fewer than four
/// fields. Fields after the fourth are ignored.
pub open spec fn fact_of_line(s: Seq<char>) -> Option<FactModel> {
    let f = split_fields(s);
    if f.len() < 4 {
        None
    } else {
        Some(
            FactModel {
                entity: f[0],
                attribute: f[1],
                value: value_of(f[2]),
                operation: operation_of(f[3]),
            },
        )
    }
}

/// The schema triple that a schema line records, or `None` where it has
/// fewer than three fields. Fields after the third are ignored.
pub open spec fn schema_of_line(s: Seq<char>) -> Option<SchemaModel> {
    let f = split_fields(s);
    if f.len() < 3 {
        None
    } else {
        Some(SchemaModel { entity: f[0], attribute: f[1], value: f[2] })
    }
}

/// Whether `sep` occurs in `text` at character position `i`.
fn separator_at(text: &str, n: usize, i: usize, sep: &str, m: usize) -> (r: bool)
    requires
        n == text@.len(),
        m == sep@.len(),
        i <= n,
    ensures
        r == (m <= n - i && text@.subrange(i as int, i + m) == sep@),
{
    if m > n - i {
        return false;
    }
    let mut j: usize = 0;
    while j < m
        invariant
            m <= n - i,
            n == text@.len(),
            m == sep@.len(),
            j <= m,
            forall|k: int| 0 <= k < j ==> text@[i + k] == sep@[k],
        decreases m - j,
    {
        if text.get_char(i + j) != sep.get_char(j) {
            assert(text@.subrange(i as int, i + m)[j as int] != sep@[j as int]);
            return false;
        }
        j = j + 1;
    }
    assert(text@.subrange(i as int, i + m) =~= sep@);
    true
}

/// Splits `text` at each occurrence of the non-empty `sep`.
pub fn split_on_separator(text: &str, sep: &str) -> (r: Vec<String>)
    requires
        sep@.len() > 0,
    ensures
        r.deep_view() == split_on(text@, sep@),
{
    let ghost s = text@;
    let n = text.unicode_len();
    let m = sep.unicode_len();
    let mut pieces: Vec<String> = Vec::new();
    let mut start: usize = 0;
    let mut i: usize = 0;
    proof {
        lemma_split_on_nonempty(s, sep@);
        assert(s.subrange(0, n as int) =~= s);
        assert(prefix_first(s.subrange(0, 0), split_on(s, sep@)) =~= split_on(s, sep@));
        assert(pieces.deep_view() + split_on(s, sep@) =~= split_on(s, sep@));
    }
    while i < n
        invariant
            s == text@,
            n == s.len(),
            m == sep@.len(),
            m > 0,
            start <= i <= n,
            split_on(s, sep@) == pieces.deep_view() + prefix_first(
                s.subrange(start as int, i as int),
                split_on(s.subrange(i as int, n as int), sep@),
            ),
        decreases n - i,
    {
        let ghost rest = s.subrange(i as int, n as int);
        let ghost cur = s.subrange(start as int, i as int);
        if separator_at(text, n, i, sep, m) {
            assert(rest.subrange(0, m as int) =~= s.subrange(i as int, i + m));
            assert(rest.subrange(m as int, rest.len() as int) =~= s.subrange(i + m, n as int));
            let piece = text.substring_char(start, i);
            pieces.push(piece.to_string());
            proof {
                lemma_split_on_nonempty(s.subrange(i + m, n as int), sep@);
                assert(prefix_first(Seq::<char>::empty(), split_on(s.subrange(i + m, n as int), sep@))
                    =~= split_on(s.subrange(i + m, n as int), sep@));
            }
            i = i + m;
            start = i;
            assert(split_on(s, sep@) =~= pieces.deep_view() + prefix_first(
                s.subrange(start as int, i as int),
                split_on(s.subrange(i as int, n as int), sep@),
            ));
        } else {
            assert(!(rest.len() >= m && rest.subrange(0, m as int) == sep@)) by {
                if rest.len() >= m {
                    assert(rest.subrange(0, m as int) =~= s.subrange(i as int, i + m));
                }
            }
            assert(rest.subrange(1, rest.len() as int) =~= s.subrange(i + 1, n as int));
            proof {
                lemma_split_on_nonempty(s.subrange(i + 1, n as int), sep@);
            }
            assert(s.subrange(start as int, i + 1) =~= cur + seq![rest[0]]);
            let ghost tail = split_on(s.subrange(i + 1, n as int), sep@);
            assert(split_on(rest, sep@) == prefix_first(seq![rest[0]], tail));
            assert(cur + (seq![rest[0]] + tail[0]) =~= (cur + seq![rest[0]]) + tail[0]);
            i = i + 1;
            assert(prefix_first(cur, split_on(rest, sep@)) =~= prefix_first(
                s.subrange(start as int, i as int),
                split_on(s.subrange(i as int, n as int), sep@),
            ));
        }
    }
    let last = text.substring_char(start, n);
    pieces.push(last.to_string());
    assert(s.subrange(n as int, n as int) =~= Seq::<char>::empty());
    assert(pieces.deep_view() =~= split_on(s, sep@));
    pieces
}

/// Splits a record line into its `---`-separated fields.
pub fn split_line(line: &str) -> (r: Vec<String>)
    ensures
        r.deep_view() == split_fields(line@),
{
    proof {
        reveal_strlit("---");
        assert("---"@ =~= field_separator());
    }
    split_on_separator(line, "---")
}

/// Relies on `str::parse::<i64>` (`FromStr` for `i64`): it accepts an
/// optional `+` or `-` followed by one or more ASCII decimal digits whose
/// value fits in `i64`, and fails on any other text.
#[verifier::external_body]
fn parse_integer(s: &str) -> (r: Option<i64>)
    ensures
        r == integer_of(s@),
{
    s.parse::<i64>().ok()
}

/// Reads a value field: an integer where the text writes one, else the text.
pub fn parse_value(field: &String) -> (r: FactValue)
    ensures
        r@ == value_of(field@),
{
    match parse_integer(field.as_str()) {
        Some(i) => FactValue::IntValue(i),
        None => FactValue::StringValue(field.clone()),
    }
}

/// Reads an operation field: `True` and `true` assert, anything else
/// retracts.
pub fn parse_operation(field: &String) -> (r: bool)
    ensures
        r == operation_of(field@),
{
    let upper = "True".to_string();
    let lower = "true".to_string();
    proof {
        reveal_strlit("True");
        reveal_strlit("true");
    }
    field.eq(&upper) || field.eq(&lower)
}

/// Reads one line of a fact log, `entity---attribute---value---operation`;
/// `None` where the line has fewer than four fields.
pub fn parse_fact_line(line: &str) -> (r: Option<Fact>)
    ensures
        match r {
            Some(f) => fact_of_line(line@) == Some(f@),
            None => fact_of_line(line@) is None,
        },
{
    let fields = split_line(line);
    if fields.len() < 4 {
        return None;
    }
    assert(fields.deep_view()[2] == fields[2]@);
    assert(fields.deep_view()[3] == fields[3]@);
    assert(fields.deep_view()[0] == fields[0]@);
    assert(fields.deep_view()[1] == fields[1]@);
    let value = parse_value(&fields[2]);
    let operation = parse_operation(&fields[3]);
    Some(Fact::new(fields[0].clone(), fields[1].clone(), value, operation))
}

/// Reads one line of a schema, `entity---attribute---value`; `None` where
/// the line has fewer than three fields.
pub fn parse_schema_line(line: &str) -> (r: Option<SchemaFact>)
    ensures
        match r {
            Some(e) => schema_of_line(line@) == Some(e@),
            None => schema_of_line(line@) is None,
        },
{
    let fields = split_line(line);
    if fields.len() < 3 {
        return None;
    }
    assert(fields.deep_view()[0] == fields[0]@);
    assert(fields.deep_view()[1] == fields[1]@);
    assert(fields.deep_view()[2] == fields[2]@);
    Some(SchemaFact::new(fields[0].clone(), fields[1].clone(), fields[2].clone()))
}

/// Splits a text into its lines: at each `\n`, dropping a `\r` that stands
/// right before a `\n`, with no empty last line after a final `\n`.
pub fn split_text_lines(text: &str) -> (r: Vec<String>)
    ensures
        r.deep_view() == text_lines(text@),
{
    let ghost s = text@;
    proof {
        reveal_strlit("\n");
        assert("\n"@ =~= seq!['\n']);
        lemma_split_on_nonempty(s, seq!['\n']);
    }
    let pieces = split_on_separator(text, "\n");
    let ghost ps = pieces.deep_view();
    let n = text.unicode_len();
    let count = if n == 0 {
        0
    } else if text.get_char(n - 1) == '\n' {
        pieces.len() - 1
    } else {
        pieces.len()
    };
    assert(count == text_lines(s).len());
    let mut out: Vec<String> = Vec::new();
    let mut i: usize = 0;
    while i < count
        invariant
            s == text@,
            ps == pieces.deep_view(),
            ps == split_on(s, seq!['\n']),
            count == text_lines(s).len(),
            count <= pieces.len(),
            i <= count,
            out.len() == i,
            forall|j: int| 0 <= j < i ==> #[trigger] out.deep_view()[j] == text_lines(s)[j],
        decreases count - i,
    {
        let p = pieces[i].as_str();
        let k = p.unicode_len();
        assert(ps[i as int] == p@);
        let ghost before = out.deep_view();
        if i + 1 < pieces.len() && k > 0 && p.get_char(k - 1) == '\r' {
            let stripped = p.substring_char(0, k - 1);
            assert(stripped@ =~= p@.drop_last());
            out.push(stripped.to_string());
        } else {
            out.push(p.to_string());
        }
        assert(out.deep_view() =~= before.push(out@[i as int]@));
        i = i + 1;
    }
    assert(out.deep_view() =~= text_lines(s));
    out
}

/// Reads a fact log, one record per line; `None` where some line has fewer
/// than four fields.
pub fn parse_facts(text: &str) -> (r: Option<Vec<Fact>>)
    ensures
        match r {
            Some(facts) => facts.len() == text_lines(text@).len() && forall|i: int|
                0 <= i < facts.len() ==> fact_of_line(#[trigger] text_lines(text@)[i]) == Some(
                    facts@[i]@,
                ),
            None => exists|i: int|
                0 <= i < text_lines(text@).len() && (#[trigger] fact_of_line(text_lines(text@)[i])) is None,
        },
{
    let lines = split_text_lines(text);
    let mut facts: Vec<Fact> = Vec::new();
    let mut i: usize = 0;
    while i < lines.len()
        invariant
            lines.deep_view() == text_lines(text@),
            i <= lines.len(),
            facts.len() == i,
            forall|j: int|
                0 <= j < i ==> fact_of_line(#[trigger] text_lines(text@)[j]) == Some(facts@[j]@),
        decreases lines.len() - i,
    {
        assert(lines.deep_view()[i as int] == lines[i as int]@);
        match parse_fact_line(lines[i].as_str()) {
            Some(f) => facts.push(f),
            None => {
                assert(fact_of_line(text_lines(text@)[i as int]) is None);
                return None;
            },
        }
        i = i + 1;
    }
    Some(facts)
}

/// Reads a schema, one record per line; `None` where some line has fewer
/// than three fields.
pub fn parse_schema(text: &str) -> (r: Option<Vec<SchemaFact>>)
    ensures
        match r {
            Some(schema) => schema.len() == text_lines(text@).len() && forall|i: int|
                0 <= i < schema.len() ==> schema_of_line(#[trigger] text_lines(text@)[i]) == Some(
                    schema@[i]@,
                ),
            None => exists|i: int|
                0 <= i < text_lines(text@).len() && (#[trigger] schema_of_line(text_lines(text@)[i])) is None,
        },
{
    let lines = split_text_lines(text);
    let mut schema: Vec<SchemaFact> = Vec::new();
    let mut i: usize = 0;
    while i < lines.len()
        invariant
            lines.deep_view() == text_lines(text@),
            i <= lines.len(),
            schema.len() == i,
            forall|j: int|
                0 <= j < i ==> schema_of_line(#[trigger] text_lines(text@)[j]) == Some(schema@[j]@),
        decreases lines.len() - i,
    {
        assert(lines.deep_view()[i as int] == lines[i as int]@);
        match parse_schema_line(lines[i].as_str()) {
            Some(e) => schema.push(e),
            None => {
                assert(schema_of_line(text_lines(text@)[i as int]) is None);
                return None;
            },
        }
        i = i + 1;
    }
    Some(schema)
}

} // verus!
