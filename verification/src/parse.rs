//! Parsing log lines of the form `DD.MM HH:MM HH:MM [comment]`.
//!
//! A line is split on whitespace into a date token, a start-time token and an
//! end-time token; anything after the third token is the comment.  The date
//! token is `day.month`, a time token is `hour:minute`; all components are
//! unsigned decimal numbers and are checked against the calendar and the
//! clock.

use vstd::prelude::*;

use crate::datetime::{spec_days_in_month, days_in_month, Date, Timestamp};
use crate::errors::{LineError, ParseError};
use crate::workunit::{UnitModel, Workunit};
use crate::YEAR;
use vstd::string::StrSliceExecFns;

verus! {

// ---------------------------------------------------------------------------
// Character classes
// ---------------------------------------------------------------------------

/// The characters that separate tokens.
pub open spec fn is_ws_char(c: char) -> bool {
    c == ' ' || c == '\t' || c == '\r' || c == '\n'
}

/// The ten decimal digit characters.
pub open spec fn is_digit_char(c: char) -> bool {
    c == '0' || c == '1' || c == '2' || c == '3' || c == '4' || c == '5' || c == '6' || c == '7'
        || c == '8' || c == '9'
}

/// The numeric value of a digit character (0 for a non-digit).
pub open spec fn digit_val(c: char) -> nat {
    if c == '1' {
        1
    } else if c == '2' {
        2
    } else if c == '3' {
        3
    } else if c == '4' {
        4
    } else if c == '5' {
        5
    } else if c == '6' {
        6
    } else if c == '7' {
        7
    } else if c == '8' {
        8
    } else if c == '9' {
        9
    } else {
        0
    }
}

// ---------------------------------------------------------------------------
// Scanning
// ---------------------------------------------------------------------------

/// The first position at or after `i` holding a non-whitespace character,
/// or the end of `t`.
pub open spec fn skip_ws(t: Seq<char>, i: int) -> int
    decreases t.len() - i,
{
    if i < 0 || i >= t.len() {
        t.len() as int
    } else if !is_ws_char(t[i]) {
        i
    } else {
        skip_ws(t, i + 1)
    }
}

/// The first position at or after `i` holding a whitespace character,
/// or the end of `t`.
pub open spec fn token_end(t: Seq<char>, i: int) -> int
    decreases t.len() - i,
{
    if i < 0 || i >= t.len() {
        t.len() as int
    } else if is_ws_char(t[i]) {
        i
    } else {
        token_end(t, i + 1)
    }
}

/// The first position at or after `i` holding the character `c`,
/// or the end of `t`.
pub open spec fn find_sep(t: Seq<char>, c: char, i: int) -> int
    decreases t.len() - i,
{
    if i < 0 || i >= t.len() {
        t.len() as int
    } else if t[i] == c {
        i
    } else {
        find_sep(t, c, i + 1)
    }
}

/// `skip_ws` never moves backwards and never runs past the end.
pub proof fn lemma_skip_ws_range(t: Seq<char>, i: int)
    requires
        0 <= i <= t.len(),
    ensures
        i <= skip_ws(t, i) <= t.len(),
    decreases t.len() - i,
{
    if i < t.len() && is_ws_char(t[i]) {
        lemma_skip_ws_range(t, i + 1);
    }
}

/// `token_end` never moves backwards and never runs past the end.
pub proof fn lemma_token_end_range(t: Seq<char>, i: int)
    requires
        0 <= i <= t.len(),
    ensures
        i <= token_end(t, i) <= t.len(),
    decreases t.len() - i,
{
    if i < t.len() && !is_ws_char(t[i]) {
        lemma_token_end_range(t, i + 1);
    }
}

// ---------------------------------------------------------------------------
// Token positions within a line
// ---------------------------------------------------------------------------

/// Start of the date token.
pub open spec fn tok1_start(s: Seq<char>) -> int {
    skip_ws(s, 0)
}

/// End of the date token.
pub open spec fn tok1_end(s: Seq<char>) -> int {
    token_end(s, tok1_start(s))
}

/// Start of the start-time token.
pub open spec fn tok2_start(s: Seq<char>) -> int {
    skip_ws(s, tok1_end(s))
}

/// End of the start-time token.
pub open spec fn tok2_end(s: Seq<char>) -> int {
    token_end(s, tok2_start(s))
}

/// Start of the end-time token.
pub open spec fn tok3_start(s: Seq<char>) -> int {
    skip_ws(s, tok2_end(s))
}

/// End of the end-time token.
pub open spec fn tok3_end(s: Seq<char>) -> int {
    token_end(s, tok3_start(s))
}

/// Start of the comment: the first non-whitespace position after the third
/// token.
pub open spec fn rest_start(s: Seq<char>) -> int {
    skip_ws(s, tok3_end(s))
}

/// The date token of a line.
pub open spec fn date_token(s: Seq<char>) -> Seq<char> {
    s.subrange(tok1_start(s), tok1_end(s))
}

/// The start-time token of a line.
pub open spec fn from_token(s: Seq<char>) -> Seq<char> {
    s.subrange(tok2_start(s), tok2_end(s))
}

/// The end-time token of a line.
pub open spec fn to_token(s: Seq<char>) -> Seq<char> {
    s.subrange(tok3_start(s), tok3_end(s))
}

/// The comment of a line: everything from the fourth token to the end of the
/// line, or `None` when nothing follows the third token.
pub open spec fn comment_of(s: Seq<char>) -> Option<Seq<char>> {
    if rest_start(s) < s.len() {
        Some(s.subrange(rest_start(s), s.len() as int))
    } else {
        None
    }
}

// ---------------------------------------------------------------------------
// Numbers
// ---------------------------------------------------------------------------

/// The number denoted by a digit string, most significant digit first.
pub open spec fn num_of(t: Seq<char>) -> nat
    decreases t.len(),
{
    if t.len() == 0 {
        0
    } else {
        num_of(t.drop_last()) * 10 + digit_val(t.last())
    }
}

/// A non-empty string of decimal digits.
pub open spec fn is_digits(t: Seq<char>) -> bool {
    t.len() > 0 && forall|i: int| 0 <= i < t.len() ==> is_digit_char(t[i])
}

/// What parsing an unsigned number returns: the denoted value when the string
/// is all digits and the value fits in a `u32`, an error otherwise.
pub open spec fn spec_parse_u32(t: Seq<char>) -> Result<u32, ParseError> {
    if is_digits(t) && num_of(t) <= u32::MAX {
        Ok(num_of(t) as u32)
    } else {
        Err(ParseError::NonNumeric)
    }
}

/// The number denoted by a prefix never exceeds the number denoted by the
/// whole string.
pub proof fn lemma_num_of_prefix_le(t: Seq<char>, j: int)
    requires
        0 <= j <= t.len(),
    ensures
        num_of(t.subrange(0, j)) <= num_of(t),
    decreases t.len() - j,
{
    if j == t.len() {
        assert(t.subrange(0, j) =~= t);
    } else {
        assert(t.subrange(0, j + 1).drop_last() =~= t.subrange(0, j));
        assert(t.subrange(0, j + 1).last() == t[j]);
        lemma_num_of_prefix_le(t, j + 1);
    }
}

// ---------------------------------------------------------------------------
// Dates, times, lines (specification)
// ---------------------------------------------------------------------------

/// What parsing a date token returns.  The token is `day.month`; a missing
/// `.` means a missing month, each side must be numeric, and the date must
/// lie on the calendar of `year`.
pub open spec fn spec_parse_date(t: Seq<char>, year: i32) -> Result<Date, ParseError> {
    let p = find_sep(t, '.', 0);
    if p == t.len() {
        Err(ParseError::MissingMonth)
    } else {
        match spec_parse_u32(t.subrange(0, p)) {
            Err(e) => Err(e),
            Ok(day) => match spec_parse_u32(t.subrange(p + 1, t.len() as int)) {
                Err(e) => Err(e),
                Ok(month) => if 1 <= month <= 12 && 1 <= day && day <= spec_days_in_month(
                    year as int,
                    month as int,
                ) {
                    Ok(Date { year, month, day })
                } else {
                    Err(ParseError::OutOfRange)
                },
            },
        }
    }
}

/// What parsing a time token returns.  The token is `hour:minute`; a missing
/// `:` means a missing minute, each side must be numeric, and the time must
/// lie on the clock.  The resulting timestamp carries `date`.
pub open spec fn spec_parse_time(t: Seq<char>, date: Date) -> Result<Timestamp, ParseError> {
    let p = find_sep(t, ':', 0);
    if p == t.len() {
        Err(ParseError::MissingMinute)
    } else {
        match spec_parse_u32(t.subrange(0, p)) {
            Err(e) => Err(e),
            Ok(hour) => match spec_parse_u32(t.subrange(p + 1, t.len() as int)) {
                Err(e) => Err(e),
                Ok(minute) => if hour <= 23 && minute <= 59 {
                    Ok(Timestamp { date, hour, minute })
                } else {
                    Err(ParseError::OutOfRange)
                },
            },
        }
    }
}

/// What parsing a whole line returns: the three tokens must be present, the
/// date and both times must parse, and the rest of the line (if any) becomes
/// the comment.  The order of the two times is not checked.
pub open spec fn spec_parse_line(s: Seq<char>) -> Result<UnitModel, ParseError> {
    if tok1_start(s) >= s.len() {
        Err(ParseError::MissingDate)
    } else if tok2_start(s) >= s.len() {
        Err(ParseError::MissingStartTime)
    } else if tok3_start(s) >= s.len() {
        Err(ParseError::MissingEndTime)
    } else {
        match spec_parse_date(date_token(s), YEAR) {
            Err(e) => Err(e),
            Ok(d) => match spec_parse_time(from_token(s), d) {
                Err(e) => Err(e),
                Ok(from) => match spec_parse_time(to_token(s), d) {
                    Err(e) => Err(e),
                    Ok(to) => Ok(UnitModel { from, to, comment: comment_of(s) }),
                },
            },
        }
    }
}

/// The model of an executable parse result: `Ok` carries the unit's model.
pub open spec fn line_result_view(r: Result<Workunit, ParseError>) -> Result<
    UnitModel,
    ParseError,
> {
    match r {
        Ok(u) => Ok(u@),
        Err(e) => Err(e),
    }
}

// ---------------------------------------------------------------------------
// Executable scanning helpers
// ---------------------------------------------------------------------------

/// First non-whitespace position at or after `from`.
fn skip_ws_exec(s: &str, from: usize, n: usize) -> (r: usize)
    requires
        n == s@.len(),
        from <= n,
    ensures
        r == skip_ws(s@, from as int),
        from <= r <= n,
{
    proof {
        lemma_skip_ws_range(s@, from as int);
    }
    let mut i: usize = from;
    while i < n
        invariant
            n == s@.len(),
            from <= i <= n,
            skip_ws(s@, from as int) == skip_ws(s@, i as int),
            from <= skip_ws(s@, from as int) <= n,
        decreases n - i,
    {
        let c = s.get_char(i);
        if !(c == ' ' || c == '\t' || c == '\r' || c == '\n') {
            return i;
        }
        i = i + 1;
    }
    i
}

/// First whitespace position at or after `from`.
fn token_end_exec(s: &str, from: usize, n: usize) -> (r: usize)
    requires
        n == s@.len(),
        from <= n,
    ensures
        r == token_end(s@, from as int),
        from <= r <= n,
{
    proof {
        lemma_token_end_range(s@, from as int);
    }
    let mut i: usize = from;
    while i < n
        invariant
            n == s@.len(),
            from <= i <= n,
            token_end(s@, from as int) == token_end(s@, i as int),
            from <= token_end(s@, from as int) <= n,
        decreases n - i,
    {
        let c = s.get_char(i);
        if c == ' ' || c == '\t' || c == '\r' || c == '\n' {
            return i;
        }
        i = i + 1;
    }
    i
}

/// First position of `target` in `s`, or the length of `s`.
fn find_char_exec(s: &str, target: char, n: usize) -> (r: usize)
    requires
        n == s@.len(),
    ensures
        r == find_sep(s@, target, 0),
        r <= n,
{
    let mut i: usize = 0;
    while i < n
        invariant
            n == s@.len(),
            0 <= i <= n,
            find_sep(s@, target, 0) == find_sep(s@, target, i as int),
        decreases n - i,
    {
        let c = s.get_char(i);
        if c == target {
            return i;
        }
        i = i + 1;
    }
    i
}

// ---------------------------------------------------------------------------
// Executable parsing
// ---------------------------------------------------------------------------

/// Parse a non-empty string of decimal digits as a `u32`.
pub fn parse_u32(s: &str) -> (r: Result<u32, ParseError>)
    ensures
        r == spec_parse_u32(s@),
{
    let n = s.unicode_len();
    if n == 0 {
        return Err(ParseError::NonNumeric);
    }
    let mut acc: u64 = 0;
    let mut i: usize = 0;
    while i < n
        invariant
            n == s@.len(),
            0 <= i <= n,
            forall|k: int| 0 <= k < i ==> is_digit_char(s@[k]),
            acc == num_of(s@.subrange(0, i as int)),
            acc <= u32::MAX as u64,
        decreases n - i,
    {
        let c = s.get_char(i);
        let d: u64 = if c == '0' {
            0
        } else if c == '1' {
            1
        } else if c == '2' {
            2
        } else if c == '3' {
            3
        } else if c == '4' {
            4
        } else if c == '5' {
            5
        } else if c == '6' {
            6
        } else if c == '7' {
            7
        } else if c == '8' {
            8
        } else if c == '9' {
            9
        } else {
            return Err(ParseError::NonNumeric);
        };
        proof {
            assert(s@.subrange(0, i + 1).drop_last() =~= s@.subrange(0, i as int));
            assert(s@.subrange(0, i + 1).last() == s@[i as int]);
        }
        acc = acc * 10 + d;
        if acc > 0xFFFF_FFFF {
            proof {
                if is_digits(s@) {
                    lemma_num_of_prefix_le(s@, i + 1);
                }
            }
            return Err(ParseError::NonNumeric);
        }
        i = i + 1;
    }
    proof {
        assert(s@.subrange(0, n as int) =~= s@);
    }
    Ok(acc as u32)
}

/// Parse a date token `day.month` against the calendar of `year`.
pub fn parse_date(s: &str, year: i32) -> (r: Result<Date, ParseError>)
    ensures
        r == spec_parse_date(s@, year),
{
    let n = s.unicode_len();
    let p = find_char_exec(s, '.', n);
    if p == n {
        return Err(ParseError::MissingMonth);
    }
    let day_str = s.substring_char(0, p);
    let month_str = s.substring_char(p + 1, n);
    let day = match parse_u32(day_str) {
        Ok(d) => d,
        Err(e) => {
            return Err(e);
        },
    };
    let month = match parse_u32(month_str) {
        Ok(m) => m,
        Err(e) => {
            return Err(e);
        },
    };
    if 1 <= month && month <= 12 && 1 <= day && day <= days_in_month(year, month) {
        Ok(Date { year, month, day })
    } else {
        Err(ParseError::OutOfRange)
    }
}

/// Parse a time token `hour:minute`, giving a timestamp on `date`.
pub fn parse_time(s: &str, date: &Date) -> (r: Result<Timestamp, ParseError>)
    ensures
        r == spec_parse_time(s@, *date),
{
    let n = s.unicode_len();
    let p = find_char_exec(s, ':', n);
    if p == n {
        return Err(ParseError::MissingMinute);
    }
    let hour_str = s.substring_char(0, p);
    let minute_str = s.substring_char(p + 1, n);
    let hour = match parse_u32(hour_str) {
        Ok(h) => h,
        Err(e) => {
            return Err(e);
        },
    };
    let minute = match parse_u32(minute_str) {
        Ok(m) => m,
        Err(e) => {
            return Err(e);
        },
    };
    if hour <= 23 && minute <= 59 {
        Ok(Timestamp { date: *date, hour, minute })
    } else {
        Err(ParseError::OutOfRange)
    }
}

/// Parse one log line into a work unit: date token, start-time token,
/// end-time token, optional comment.
pub fn parse_line(line: &str) -> (r: Result<Workunit, ParseError>)
    ensures
        line_result_view(r) == spec_parse_line(line@),
{
    let n = line.unicode_len();
    let t1s = skip_ws_exec(line, 0, n);
    if t1s == n {
        return Err(ParseError::MissingDate);
    }
    let t1e = token_end_exec(line, t1s, n);
    let t2s = skip_ws_exec(line, t1e, n);
    if t2s == n {
        return Err(ParseError::MissingStartTime);
    }
    let t2e = token_end_exec(line, t2s, n);
    let t3s = skip_ws_exec(line, t2e, n);
    if t3s == n {
        return Err(ParseError::MissingEndTime);
    }
    let t3e = token_end_exec(line, t3s, n);
    let rs = skip_ws_exec(line, t3e, n);

    let date_str = line.substring_char(t1s, t1e);
    let from_str = line.substring_char(t2s, t2e);
    let to_str = line.substring_char(t3s, t3e);

    let date = match parse_date(date_str, YEAR) {
        Ok(d) => d,
        Err(e) => {
            return Err(e);
        },
    };
    let from = match parse_time(from_str, &date) {
        Ok(t) => t,
        Err(e) => {
            return Err(e);
        },
    };
    let to = match parse_time(to_str, &date) {
        Ok(t) => t,
        Err(e) => {
            return Err(e);
        },
    };
    let comment: Option<String> = if rs < n {
        Some(line.substring_char(rs, n).to_owned())
    } else {
        None
    };
    let u = Workunit { from, to, comment };
    proof {
        assert(u@ =~= spec_parse_line(line@)->Ok_0);
    }
    Ok(u)
}

// ---------------------------------------------------------------------------
// Whole-file parsing
// ---------------------------------------------------------------------------

/// Lines that carry no entry: empty lines and lines starting with `#`.
pub open spec fn spec_is_ignored(s: Seq<char>) -> bool {
    s.len() == 0 || s[0] == '#'
}

/// Whether a line is skipped: empty or a `#` comment line.
pub fn is_ignored(line: &str) -> (b: bool)
    ensures
        b == spec_is_ignored(line@),
{
    let n = line.unicode_len();
    if n == 0 {
        true
    } else {
        line.get_char(0) == '#'
    }
}

/// What parsing the lines from position `i` on returns: ignored lines are
/// skipped; the first failing line stops everything with its 1-based number;
/// otherwise the units of all remaining lines, in order.
pub open spec fn spec_parse_from(ls: Seq<Seq<char>>, i: int) -> Result<
    Seq<UnitModel>,
    (int, ParseError),
>
    decreases ls.len() - i,
{
    if i < 0 || i >= ls.len() {
        Ok(Seq::empty())
    } else if spec_is_ignored(ls[i]) {
        spec_parse_from(ls, i + 1)
    } else {
        match spec_parse_line(ls[i]) {
            Err(e) => Err((i + 1, e)),
            Ok(m) => match spec_parse_from(ls, i + 1) {
                Err(x) => Err(x),
                Ok(rest) => Ok(seq![m] + rest),
            },
        }
    }
}

/// The model of an executable whole-file parse result.
pub open spec fn lines_result_view(r: Result<Vec<Workunit>, LineError>) -> Result<
    Seq<UnitModel>,
    (int, ParseError),
> {
    match r {
        Ok(v) => Ok(v.deep_view()),
        Err(e) => Err((e.line_number as int, e.error)),
    }
}

/// Parse a whole file, given as its lines in order.  Empty lines and `#`
/// comment lines are skipped; the first failing line aborts the run with
/// its 1-based line number and the parse error.
pub fn parse_lines(lines: &Vec<String>) -> (r: Result<Vec<Workunit>, LineError>)
    ensures
        lines_result_view(r) == spec_parse_from(lines.deep_view(), 0),
{
    let ghost ls = lines.deep_view();
    let mut units: Vec<Workunit> = Vec::new();
    let mut i: usize = 0;
    proof {
        assert(units.deep_view() + spec_parse_from(ls, 0)->Ok_0 =~= spec_parse_from(ls, 0)->Ok_0);
    }
    while i < lines.len()
        invariant
            0 <= i <= lines@.len(),
            ls == lines.deep_view(),
            ls.len() == lines@.len(),
            forall|j: int| 0 <= j < ls.len() ==> ls[j] == #[trigger] lines@[j]@,
            match spec_parse_from(ls, i as int) {
                Ok(rest) => spec_parse_from(ls, 0) == Ok::<Seq<UnitModel>, (int, ParseError)>(
                    units.deep_view() + rest,
                ),
                Err(x) => spec_parse_from(ls, 0) == Err::<Seq<UnitModel>, (int, ParseError)>(x),
            },
        decreases lines@.len() - i,
    {
        let line: &String = &lines[i];
        if !is_ignored(line.as_str()) {
            match parse_line(line.as_str()) {
                Err(e) => {
                    return Err(LineError { line_number: i + 1, error: e });
                },
                Ok(u) => {
                    let ghost old_units = units.deep_view();
                    units.push(u);
                    proof {
                        assert(units.deep_view() =~= old_units + seq![u@]);
                        if spec_parse_from(ls, i + 1) is Ok {
                            assert(old_units + (seq![u@] + spec_parse_from(ls, i + 1)->Ok_0) =~= (
                            old_units + seq![u@]) + spec_parse_from(ls, i + 1)->Ok_0);
                        }
                    }
                },
            }
        }
        i = i + 1;
    }
    proof {
        assert(units.deep_view() + Seq::<UnitModel>::empty() =~= units.deep_view());
    }
    Ok(units)
}

} // verus!
