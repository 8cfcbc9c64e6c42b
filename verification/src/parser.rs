//! The CSV grammar and a tokenizer verified against it.
//!
//! A table is a sequence of records separated by newlines (`\n`, `\r`, or
//! `\r\n`); a record is a sequence of fields separated by commas.  A field
//! beginning with a double quote runs to the matching closing quote, with
//! `""` standing for a literal quote and separators inside the quotes kept as
//! literal content; any other field runs to the next separator.  Blank lines
//! are skipped.  A quoted field still open at the end of the input, or a
//! closing quote followed by anything but a separator or the end of the
//! input, is a tokenization error.

use vstd::prelude::*;
use crate::ext::string_from_chars;

verus! {

/// A CSV tokenization failure.
#[derive(Clone, Copy, Debug, PartialEq, Eq, Structural)]
pub enum CsvParseError {
    /// A quoted field was still open when the input ended; the payload is the
    /// position of the opening quote.
    UnterminatedQuote(usize),
    /// A closing quote was followed by something other than a comma, a record
    /// terminator, or the end of the input; the payload is the position of
    /// the offending character.
    InvalidQuoteEnd(usize),
}

/// A field separator: a comma or a record terminator.
pub open spec fn is_sep(c: char) -> bool {
    c == ',' || c == '\n' || c == '\r'
}

/// A record terminator character.
pub open spec fn is_term(c: char) -> bool {
    c == '\n' || c == '\r'
}

/// The position just past the record terminator at `i` (`\r\n` counts once).
pub open spec fn skip_term(s: Seq<char>, i: int) -> int
    recommends
        0 <= i < s.len(),
        is_term(s[i]),
{
    if s[i] == '\r' && i + 1 < s.len() && s[i + 1] == '\n' {
        i + 2
    } else {
        i + 1
    }
}

/// Scans an unquoted field from `i`: the content up to the next separator or
/// the end of the input, appended to `acc`, with the stop position.
pub open spec fn scan_plain(s: Seq<char>, i: int, acc: Seq<char>) -> (Seq<char>, int)
    decreases s.len() - i,
{
    if i >= s.len() || is_sep(s[i]) {
        (acc, i)
    } else {
        scan_plain(s, i + 1, acc.push(s[i]))
    }
}

/// Scans the rest of a quoted field from `i` (just inside the quotes): the
/// content up to the closing quote, appended to `acc`, with the position just
/// past the closing quote; `Err(())` if the input ends first.
pub open spec fn scan_quoted(s: Seq<char>, i: int, acc: Seq<char>) -> Result<(Seq<char>, int), ()>
    decreases s.len() - i,
{
    if i >= s.len() {
        Err(())
    } else if s[i] == '"' {
        if i + 1 < s.len() && s[i + 1] == '"' {
            scan_quoted(s, i + 2, acc.push('"'))
        } else {
            Ok((acc, i + 1))
        }
    } else {
        scan_quoted(s, i + 1, acc.push(s[i]))
    }
}

/// Scans one field at `i`: its content and the position of the separator that
/// ended it (or the input length).
pub open spec fn scan_field(s: Seq<char>, i: int) -> Result<(Seq<char>, int), CsvParseError> {
    if i < s.len() && s[i] == '"' {
        match scan_quoted(s, i + 1, Seq::<char>::empty()) {
            Err(_) => Err(CsvParseError::UnterminatedQuote(i as usize)),
            Ok(p) => {
                if p.1 == s.len() || is_sep(s[p.1]) {
                    Ok(p)
                } else {
                    Err(CsvParseError::InvalidQuoteEnd(p.1 as usize))
                }
            },
        }
    } else {
        Ok(scan_plain(s, i, Seq::<char>::empty()))
    }
}

/// Scans the fields of one record from `i`, appended to `acc`, with the
/// position just past the record's terminator (or the input length).
pub open spec fn scan_record(s: Seq<char>, i: int, acc: Seq<Seq<char>>) -> Result<
    (Seq<Seq<char>>, int),
    CsvParseError,
>
    decreases s.len() - i,
    via scan_record_dec
{
    match scan_field(s, i) {
        Err(e) => Err(e),
        Ok(p) => {
            if p.1 < s.len() && s[p.1] == ',' {
                scan_record(s, p.1 + 1, acc.push(p.0))
            } else if p.1 < s.len() {
                Ok((acc.push(p.0), skip_term(s, p.1)))
            } else {
                Ok((acc.push(p.0), p.1))
            }
        },
    }
}

/// Scans the records of the whole input from `i`, appended to `acc`,
/// skipping blank lines.
pub open spec fn scan_rows(s: Seq<char>, i: int, acc: Seq<Seq<Seq<char>>>) -> Result<
    Seq<Seq<Seq<char>>>,
    CsvParseError,
>
    decreases s.len() - i,
    via scan_rows_dec
{
    if i >= s.len() {
        Ok(acc)
    } else if is_term(s[i]) {
        scan_rows(s, skip_term(s, i), acc)
    } else {
        match scan_record(s, i, Seq::<Seq<char>>::empty()) {
            Err(e) => Err(e),
            Ok(p) => scan_rows(s, p.1, acc.push(p.0)),
        }
    }
}

/// The rows of the input: each record's fields, in input order, or the first
/// tokenization error.
pub open spec fn csv_rows_of(s: Seq<char>) -> Result<Seq<Seq<Seq<char>>>, CsvParseError> {
    scan_rows(s, 0, Seq::<Seq<Seq<char>>>::empty())
}

/// An unquoted field's scan never moves backwards and stops within bounds.
proof fn lemma_scan_plain_bounds(s: Seq<char>, i: int, acc: Seq<char>)
    requires
        i <= s.len(),
    ensures
        i <= scan_plain(s, i, acc).1 <= s.len(),
    decreases s.len() - i,
{
    if !(i >= s.len() || is_sep(s[i])) {
        lemma_scan_plain_bounds(s, i + 1, acc.push(s[i]));
    }
}

/// A quoted field's scan strictly advances and stops within bounds.
proof fn lemma_scan_quoted_bounds(s: Seq<char>, i: int, acc: Seq<char>)
    ensures
        scan_quoted(s, i, acc) matches Ok(p) ==> i < p.1 <= s.len(),
    decreases s.len() - i,
{
    if i < s.len() {
        if s[i] == '"' {
            if i + 1 < s.len() && s[i + 1] == '"' {
                lemma_scan_quoted_bounds(s, i + 2, acc.push('"'));
            }
        } else {
            lemma_scan_quoted_bounds(s, i + 1, acc.push(s[i]));
        }
    }
}

/// A field's scan never moves backwards and stops within bounds.
proof fn lemma_scan_field_bounds(s: Seq<char>, i: int)
    requires
        i <= s.len(),
    ensures
        scan_field(s, i) matches Ok(p) ==> i <= p.1 <= s.len(),
{
    if i < s.len() && s[i] == '"' {
        lemma_scan_quoted_bounds(s, i + 1, Seq::<char>::empty());
    } else {
        lemma_scan_plain_bounds(s, i, Seq::<char>::empty());
    }
}

#[via_fn]
proof fn scan_record_dec(s: Seq<char>, i: int, acc: Seq<Seq<char>>) {
    if i <= s.len() {
        lemma_scan_field_bounds(s, i);
    }
}

/// A record's scan strictly advances from any in-bounds start and stops
/// within bounds.
proof fn lemma_scan_record_bounds(s: Seq<char>, i: int, acc: Seq<Seq<char>>)
    requires
        i <= s.len(),
    ensures
        scan_record(s, i, acc) matches Ok(p) ==> i <= p.1 <= s.len() && (i < s.len() ==> i
            < p.1),
    decreases s.len() - i,
{
    lemma_scan_field_bounds(s, i);
    match scan_field(s, i) {
        Err(_) => {},
        Ok(p) => {
            if p.1 < s.len() && s[p.1] == ',' {
                lemma_scan_record_bounds(s, p.1 + 1, acc.push(p.0));
            }
        },
    }
}

#[via_fn]
proof fn scan_rows_dec(s: Seq<char>, i: int, acc: Seq<Seq<Seq<char>>>) {
    if i < s.len() && !is_term(s[i]) {
        lemma_scan_record_bounds(s, i, Seq::<Seq<char>>::empty());
    }
}

/// The characters of each field of each row, as sequences.
pub open spec fn field_views(fs: Seq<String>) -> Seq<Seq<char>> {
    fs.map_values(|f: String| f@)
}

/// The characters of every field of every row, as sequences.
pub open spec fn table_view(rs: Seq<Vec<String>>) -> Seq<Seq<Seq<char>>> {
    rs.map_values(|r: Vec<String>| field_views(r@))
}

proof fn lemma_field_views_push(fs: Seq<String>, x: String)
    ensures
        field_views(fs.push(x)) == field_views(fs).push(x@),
{
    assert(field_views(fs.push(x)) =~= field_views(fs).push(x@));
}

proof fn lemma_table_view_push(rs: Seq<Vec<String>>, x: Vec<String>)
    ensures
        table_view(rs.push(x)) == table_view(rs).push(field_views(x@)),
{
    assert(table_view(rs.push(x)) =~= table_view(rs).push(field_views(x@)));
}

fn scan_plain_exec(s: &Vec<char>, start: usize) -> (r: (Vec<char>, usize))
    requires
        start <= s@.len(),
    ensures
        scan_plain(s@, start as int, Seq::<char>::empty()) == (r.0@, r.1 as int),
        start <= r.1 <= s@.len(),
        r.1 == s@.len() || is_sep(s@[r.1 as int]),
{
    let mut buf: Vec<char> = Vec::new();
    let mut k: usize = start;
    loop
        invariant
            start <= k <= s@.len(),
            scan_plain(s@, k as int, buf@) == scan_plain(s@, start as int, Seq::<char>::empty()),
        ensures
            start <= k <= s@.len(),
            scan_plain(s@, start as int, Seq::<char>::empty()) == (buf@, k as int),
            k == s@.len() || is_sep(s@[k as int]),
        decreases s@.len() - k,
    {
        if k == s.len() {
            break;
        }
        let c = s[k];
        if c == ',' || c == '\n' || c == '\r' {
            break;
        }
        buf.push(c);
        k = k + 1;
    }
    (buf, k)
}

fn scan_quoted_exec(s: &Vec<char>, open_at: usize) -> (r: Result<(Vec<char>, usize), CsvParseError>)
    requires
        open_at < s@.len(),
        s@[open_at as int] == '"',
    ensures
        match r {
            Ok(p) => scan_quoted(s@, open_at + 1, Seq::<char>::empty()) == Ok::<_, ()>(
                (p.0@, p.1 as int),
            ) && open_at < p.1 <= s@.len(),
            Err(e) => scan_quoted(s@, open_at + 1, Seq::<char>::empty()) is Err && e
                == CsvParseError::UnterminatedQuote(open_at),
        },
{
    let n = s.len();
    let mut buf: Vec<char> = Vec::new();
    let mut k: usize = open_at + 1;
    loop
        invariant
            open_at + 1 <= k <= s@.len(),
            scan_quoted(s@, k as int, buf@) == scan_quoted(
                s@,
                open_at + 1,
                Seq::<char>::empty(),
            ),
        decreases s@.len() - k,
    {
        if k == s.len() {
            return Err(CsvParseError::UnterminatedQuote(open_at));
        }
        let c = s[k];
        if c == '"' {
            if k + 1 < s.len() && s[k + 1] == '"' {
                buf.push('"');
                k = k + 2;
            } else {
                return Ok((buf, k + 1));
            }
        } else {
            buf.push(c);
            k = k + 1;
        }
    }
}

fn scan_field_exec(s: &Vec<char>, start: usize) -> (r: Result<(Vec<char>, usize), CsvParseError>)
    requires
        start <= s@.len(),
    ensures
        match r {
            Ok(p) => scan_field(s@, start as int) == Ok::<_, CsvParseError>((p.0@, p.1 as int))
                && start <= p.1 <= s@.len() && (p.1 == s@.len() || is_sep(s@[p.1 as int])),
            Err(e) => scan_field(s@, start as int) == Err::<(Seq<char>, int), _>(e),
        },
{
    if start < s.len() && s[start] == '"' {
        match scan_quoted_exec(s, start) {
            Err(e) => Err(e),
            Ok((f, j)) => {
                if j == s.len() {
                    Ok((f, j))
                } else {
                    let c = s[j];
                    if c == ',' || c == '\n' || c == '\r' {
                        Ok((f, j))
                    } else {
                        Err(CsvParseError::InvalidQuoteEnd(j))
                    }
                }
            },
        }
    } else {
        Ok(scan_plain_exec(s, start))
    }
}

fn skip_term_exec(s: &Vec<char>, t: usize) -> (r: usize)
    requires
        t < s@.len(),
        is_term(s@[t as int]),
    ensures
        r as int == skip_term(s@, t as int),
        t < r <= s@.len(),
{
    let n = s.len();
    if s[t] == '\r' && t + 1 < n && s[t + 1] == '\n' {
        t + 2
    } else {
        t + 1
    }
}

fn scan_record_exec(s: &Vec<char>, start: usize) -> (r: Result<(Vec<String>, usize), CsvParseError>)
    requires
        start <= s@.len(),
    ensures
        match r {
            Ok(p) => scan_record(s@, start as int, Seq::<Seq<char>>::empty()) == Ok::<
                _,
                CsvParseError,
            >((field_views(p.0@), p.1 as int)) && start <= p.1 <= s@.len() && (start < s@.len()
                ==> start < p.1),
            Err(e) => scan_record(s@, start as int, Seq::<Seq<char>>::empty()) == Err::<
                (Seq<Seq<char>>, int),
                _,
            >(e),
        },
{
    let mut fields: Vec<String> = Vec::new();
    let mut j: usize = start;
    proof {
        assert(field_views(fields@) =~= Seq::<Seq<char>>::empty());
    }
    loop
        invariant
            start <= j <= s@.len(),
            scan_record(s@, j as int, field_views(fields@)) == scan_record(
                s@,
                start as int,
                Seq::<Seq<char>>::empty(),
            ),
        decreases s@.len() - j,
    {
        match scan_field_exec(s, j) {
            Err(e) => {
                return Err(e);
            },
            Ok((fbuf, j2)) => {
                let ghost fields_old = fields@;
                let ghost fseq = fbuf@;
                let fstr = string_from_chars(&fbuf);
                fields.push(fstr);
                proof {
                    lemma_field_views_push(fields_old, fields@[fields@.len() - 1]);
                }
                if j2 == s.len() {
                    return Ok((fields, j2));
                }
                let c = s[j2];
                if c == ',' {
                    j = j2 + 1;
                } else {
                    let nxt = skip_term_exec(s, j2);
                    return Ok((fields, nxt));
                }
            },
        }
    }
}

/// Splits the input characters into records of fields, per the CSV grammar.
///
/// Returns the rows exactly as `csv_rows_of` describes them, or the first
/// tokenization error.
pub fn parse_csv(chars: &Vec<char>) -> (r: Result<Vec<Vec<String>>, CsvParseError>)
    ensures
        match r {
            Ok(rows) => csv_rows_of(chars@) == Ok::<_, CsvParseError>(table_view(rows@)),
            Err(e) => csv_rows_of(chars@) == Err::<Seq<Seq<Seq<char>>>, _>(e),
        },
{
    let mut rows: Vec<Vec<String>> = Vec::new();
    let mut i: usize = 0;
    proof {
        assert(table_view(rows@) =~= Seq::<Seq<Seq<char>>>::empty());
    }
    loop
        invariant
            i <= chars@.len(),
            scan_rows(chars@, i as int, table_view(rows@)) == scan_rows(
                chars@,
                0,
                Seq::<Seq<Seq<char>>>::empty(),
            ),
        decreases chars@.len() - i,
    {
        if i == chars.len() {
            return Ok(rows);
        }
        let c = chars[i];
        if c == '\n' || c == '\r' {
            i = skip_term_exec(chars, i);
        } else {
            match scan_record_exec(chars, i) {
                Err(e) => {
                    return Err(e);
                },
                Ok((fields, j)) => {
                    let ghost rows_old = rows@;
                    let ghost fv = fields@;
                    rows.push(fields);
                    proof {
                        lemma_table_view_push(rows_old, rows@[rows@.len() - 1]);
                    }
                    i = j;
                },
            }
        }
    }
}

} // verus!
