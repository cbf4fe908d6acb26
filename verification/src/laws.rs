//! Laws the library obeys, stated and proved over the specification
//! functions of the parsing and formatting modules.

use vstd::prelude::*;

use crate::datetime::{Date, Timestamp};
use crate::errors::ParseError;
use crate::format::{dec_rep, digit_char, spec_format_date, spec_format_line, spec_format_time};
use crate::parse::{
    comment_of, date_token, digit_val, find_sep, from_token, is_digit_char, is_digits, is_ws_char,
    lemma_skip_ws_range, lemma_token_end_range, num_of, rest_start, skip_ws, spec_is_ignored,
    spec_parse_date, spec_parse_from, spec_parse_line, spec_parse_time, spec_parse_u32, to_token,
    tok1_end, tok1_start, tok2_end, tok2_start, tok3_end, tok3_start, token_end,
};
use crate::workunit::{duration_of, total_minutes_of, UnitModel};

verus! {

// ---------------------------------------------------------------------------
// Decimal representations parse back to their value
// ---------------------------------------------------------------------------

/// The decimal representation of `n` is a digit string denoting `n`.
pub proof fn lemma_dec_rep_num(n: nat)
    ensures
        is_digits(dec_rep(n)),
        num_of(dec_rep(n)) == n,
    decreases n,
{
    if n < 10 {
        let t = dec_rep(n);
        assert(t == seq![digit_char(n)]);
        assert(t.drop_last() =~= Seq::<char>::empty());
        assert(num_of(t) == num_of(t.drop_last()) * 10 + digit_val(t.last()));
        assert(num_of(t.drop_last()) == 0);
        assert(t.last() == digit_char(n));
        assert(digit_val(digit_char(n)) == n);
    } else {
        lemma_dec_rep_num(n / 10);
        let a = dec_rep(n / 10);
        let t = dec_rep(n);
        assert(t.drop_last() =~= a);
        assert(t.last() == digit_char(n % 10));
        assert(num_of(t) == (n / 10) * 10 + n % 10);
        assert((n / 10) * 10 + n % 10 == n) by {
            vstd::arithmetic::div_mod::lemma_fundamental_div_mod(n as int, 10);
        };
        assert forall|i: int| 0 <= i < t.len() implies is_digit_char(t[i]) by {
            if i < a.len() {
                assert(t[i] == a[i]);
            } else {
                assert(t[i] == digit_char(n % 10));
            }
        };
    }
}

/// When the characters before `p` differ from `c` and `t[p] == c`, the search
/// from `j` stops exactly at `p`.
proof fn lemma_find_sep_hit(t: Seq<char>, c: char, j: int, p: int)
    requires
        0 <= j <= p < t.len(),
        t[p] == c,
        forall|i: int| j <= i < p ==> t[i] != c,
    ensures
        find_sep(t, c, j) == p,
    decreases p - j,
{
    if j < p {
        lemma_find_sep_hit(t, c, j + 1, p);
    }
}

// ---------------------------------------------------------------------------
// Round trips: formatting a parsed value parses back to the same value
// ---------------------------------------------------------------------------

/// Formatting a valid date gives a token that parses back to that date.
pub proof fn lemma_format_parse_date(d: Date)
    requires
        d.is_valid(),
    ensures
        spec_parse_date(spec_format_date(d), d.year) == Ok::<Date, ParseError>(d),
{
    let a = dec_rep(d.day as nat);
    let b = dec_rep(d.month as nat);
    let t = spec_format_date(d);
    lemma_dec_rep_num(d.day as nat);
    lemma_dec_rep_num(d.month as nat);
    assert(t[a.len() as int] == '.');
    assert forall|i: int| 0 <= i < a.len() implies t[i] != '.' by {
        assert(t[i] == a[i]);
        assert(is_digit_char(a[i]));
    };
    lemma_find_sep_hit(t, '.', 0, a.len() as int);
    assert(t.subrange(0, a.len() as int) =~= a);
    assert(t.subrange(a.len() as int + 1, t.len() as int) =~= b);
    assert(spec_parse_u32(a) == Ok::<u32, ParseError>(d.day));
    assert(spec_parse_u32(b) == Ok::<u32, ParseError>(d.month));
}

/// Formatting a valid time gives a token that parses back to that time.
pub proof fn lemma_format_parse_time(t: Timestamp)
    requires
        t.is_valid(),
    ensures
        spec_parse_time(spec_format_time(t), t.date) == Ok::<Timestamp, ParseError>(t),
{
    let a = dec_rep(t.hour as nat);
    let b = dec_rep(t.minute as nat);
    let s = spec_format_time(t);
    lemma_dec_rep_num(t.hour as nat);
    lemma_dec_rep_num(t.minute as nat);
    assert(s[a.len() as int] == ':');
    assert forall|i: int| 0 <= i < a.len() implies s[i] != ':' by {
        assert(s[i] == a[i]);
        assert(is_digit_char(a[i]));
    };
    lemma_find_sep_hit(s, ':', 0, a.len() as int);
    assert(s.subrange(0, a.len() as int) =~= a);
    assert(s.subrange(a.len() as int + 1, s.len() as int) =~= b);
    assert(spec_parse_u32(a) == Ok::<u32, ParseError>(t.hour));
    assert(spec_parse_u32(b) == Ok::<u32, ParseError>(t.minute));
}

/// A date parsed from any token, reformatted, parses back to the same day
/// and month.
pub proof fn lemma_date_round_trip(t: Seq<char>, year: i32, d: Date)
    requires
        spec_parse_date(t, year) == Ok::<Date, ParseError>(d),
    ensures
        spec_parse_date(spec_format_date(d), year) == Ok::<Date, ParseError>(d),
{
    assert(d.year == year && d.is_valid());
    lemma_format_parse_date(d);
}

/// A time parsed from any token, reformatted, parses back to the same hour
/// and minute.
pub proof fn lemma_time_round_trip(t: Seq<char>, date: Date, ts: Timestamp)
    requires
        spec_parse_time(t, date) == Ok::<Timestamp, ParseError>(ts),
        date.is_valid(),
    ensures
        spec_parse_time(spec_format_time(ts), ts.date) == Ok::<Timestamp, ParseError>(ts),
{
    assert(ts.date == date && ts.is_valid());
    lemma_format_parse_time(ts);
}

/// When the characters from `j` up to `p` are no whitespace and `p` is the
/// end or holds whitespace, the token that starts at `j` ends exactly at `p`.
proof fn lemma_token_end_hit(t: Seq<char>, j: int, p: int)
    requires
        0 <= j <= p <= t.len(),
        p < t.len() ==> is_ws_char(t[p]),
        forall|i: int| j <= i < p ==> !is_ws_char(t[i]),
    ensures
        token_end(t, j) == p,
    decreases p - j,
{
    if j < p {
        lemma_token_end_hit(t, j + 1, p);
    }
}

/// Skipping whitespace stops on a non-whitespace character (or at the end).
proof fn lemma_skip_ws_stops(t: Seq<char>, i: int)
    requires
        0 <= i <= t.len(),
    ensures
        skip_ws(t, i) < t.len() ==> !is_ws_char(t[skip_ws(t, i)]),
    decreases t.len() - i,
{
    if i < t.len() && is_ws_char(t[i]) {
        lemma_skip_ws_stops(t, i + 1);
    }
}

/// A formatted date holds no whitespace and is never empty.
proof fn lemma_format_date_not_ws(d: Date)
    ensures
        spec_format_date(d).len() > 0,
        forall|i: int|
            0 <= i < spec_format_date(d).len() ==> !is_ws_char(
                #[trigger] spec_format_date(d)[i],
            ),
{
    let a = dec_rep(d.day as nat);
    let b = dec_rep(d.month as nat);
    let t = spec_format_date(d);
    lemma_dec_rep_num(d.day as nat);
    lemma_dec_rep_num(d.month as nat);
    assert forall|i: int| 0 <= i < t.len() implies !is_ws_char(t[i]) by {
        if i < a.len() {
            assert(t[i] == a[i]);
            assert(is_digit_char(a[i]));
        } else if i == a.len() {
            assert(t[i] == '.');
        } else {
            assert(t[i] == b[i - a.len() - 1]);
            assert(is_digit_char(b[i - a.len() - 1]));
        }
    };
}

/// A formatted time holds no whitespace and is never empty.
proof fn lemma_format_time_not_ws(ts: Timestamp)
    ensures
        spec_format_time(ts).len() > 0,
        forall|i: int|
            0 <= i < spec_format_time(ts).len() ==> !is_ws_char(
                #[trigger] spec_format_time(ts)[i],
            ),
{
    let a = dec_rep(ts.hour as nat);
    let b = dec_rep(ts.minute as nat);
    let t = spec_format_time(ts);
    lemma_dec_rep_num(ts.hour as nat);
    lemma_dec_rep_num(ts.minute as nat);
    assert forall|i: int| 0 <= i < t.len() implies !is_ws_char(t[i]) by {
        if i < a.len() {
            assert(t[i] == a[i]);
            assert(is_digit_char(a[i]));
        } else if i == a.len() {
            assert(t[i] == ':');
        } else {
            assert(t[i] == b[i - a.len() - 1]);
            assert(is_digit_char(b[i - a.len() - 1]));
        }
    };
}

/// A unit parsed from any line, written back as a line, parses to exactly
/// the same unit: the same day, month, hour and minute values, and the same
/// comment.
pub proof fn lemma_line_round_trip(s: Seq<char>, m: UnitModel)
    requires
        spec_parse_line(s) == Ok::<UnitModel, ParseError>(m),
    ensures
        spec_parse_line(spec_format_line(m)) == Ok::<UnitModel, ParseError>(m),
{
    lemma_parsed_unit_valid(s, m);
    let d = m.from.date;
    assert(d.year == crate::YEAR);
    let t1 = spec_format_date(d);
    let t2 = spec_format_time(m.from);
    let t3 = spec_format_time(m.to);
    let l = spec_format_line(m);
    lemma_format_date_not_ws(d);
    lemma_format_time_not_ws(m.from);
    lemma_format_time_not_ws(m.to);
    let a1 = t1.len() as int;
    let s2 = a1 + 1;
    let e2 = s2 + t2.len();
    let s3 = e2 + 1;
    let e3 = s3 + t3.len();

    // the comment of the original line starts with a non-whitespace character
    lemma_skip_ws_range(s, 0);
    lemma_token_end_range(s, tok1_start(s));
    lemma_skip_ws_range(s, tok1_end(s));
    lemma_token_end_range(s, tok2_start(s));
    lemma_skip_ws_range(s, tok2_end(s));
    lemma_token_end_range(s, tok3_start(s));
    lemma_skip_ws_range(s, tok3_end(s));
    lemma_skip_ws_stops(s, tok3_end(s));
    assert(m.comment == comment_of(s));

    // the first token of the formatted line is the date
    assert(l[0] == t1[0]);
    assert(skip_ws(l, 0) == 0);
    assert(tok1_start(l) == 0);
    assert(l[a1] == ' ');
    assert forall|i: int| 0 <= i < a1 implies !is_ws_char(l[i]) by {
        assert(l[i] == t1[i]);
    };
    lemma_token_end_hit(l, 0, a1);
    assert(tok1_end(l) == a1);
    assert(date_token(l) =~= t1);

    // the second token is the start time
    assert(l[s2] == t2[0]);
    assert(skip_ws(l, a1) == skip_ws(l, s2));
    assert(skip_ws(l, s2) == s2);
    assert(tok2_start(l) == s2);
    assert(l[e2] == ' ');
    assert forall|i: int| s2 <= i < e2 implies !is_ws_char(l[i]) by {
        assert(l[i] == t2[i - s2]);
    };
    lemma_token_end_hit(l, s2, e2);
    assert(tok2_end(l) == e2);
    assert(from_token(l) =~= t2);

    // the third token is the end time
    assert(l[s3] == t3[0]);
    assert(skip_ws(l, e2) == skip_ws(l, s3));
    assert(skip_ws(l, s3) == s3);
    assert(tok3_start(l) == s3);
    match m.comment {
        None => {
            assert(l.len() == e3);
            assert forall|i: int| s3 <= i < e3 implies !is_ws_char(l[i]) by {
                assert(l[i] == t3[i - s3]);
            };
            lemma_token_end_hit(l, s3, e3);
            assert(tok3_end(l) == e3);
            assert(rest_start(l) == e3);
            assert(comment_of(l) is None);
        },
        Some(c) => {
            assert(c == s.subrange(rest_start(s), s.len() as int));
            assert(c.len() > 0);
            assert(c[0] == s[rest_start(s)]);
            assert(!is_ws_char(c[0]));
            assert(l.len() == e3 + 1 + c.len());
            assert(l[e3] == ' ');
            assert forall|i: int| s3 <= i < e3 implies !is_ws_char(l[i]) by {
                assert(l[i] == t3[i - s3]);
            };
            lemma_token_end_hit(l, s3, e3);
            assert(tok3_end(l) == e3);
            assert(l[e3 + 1] == c[0]);
            assert(skip_ws(l, e3) == skip_ws(l, e3 + 1));
            assert(skip_ws(l, e3 + 1) == e3 + 1);
            assert(rest_start(l) == e3 + 1);
            assert(l.subrange(e3 + 1, l.len() as int) =~= c);
            assert(comment_of(l) == Some(c));
        },
    }
    assert(to_token(l) =~= t3);

    // each token parses back to its component
    lemma_format_parse_date(d);
    assert(spec_parse_date(date_token(l), crate::YEAR) == Ok::<Date, ParseError>(d));
    lemma_format_parse_time(m.from);
    assert(spec_parse_time(from_token(l), d) == Ok::<Timestamp, ParseError>(m.from));
    lemma_format_parse_time(m.to);
    assert(m.to.date == d);
    assert(spec_parse_time(to_token(l), d) == Ok::<Timestamp, ParseError>(m.to));

    assert(spec_parse_line(l) == Ok::<UnitModel, ParseError>(
        UnitModel { from: m.from, to: m.to, comment: comment_of(l) },
    ));
    assert(UnitModel { from: m.from, to: m.to, comment: comment_of(l) } =~= m);
}

// ---------------------------------------------------------------------------
// Ignored lines contribute nothing
// ---------------------------------------------------------------------------

/// An ignored line (empty or starting with `#`) is simply skipped.
pub proof fn lemma_ignored_line_skipped(ls: Seq<Seq<char>>, i: int)
    requires
        0 <= i < ls.len(),
        spec_is_ignored(ls[i]),
    ensures
        spec_parse_from(ls, i) == spec_parse_from(ls, i + 1),
{
}

/// Parsing two line lists from positions where the remaining suffixes are
/// equal gives the same units, and the same error if any (only the reported
/// line numbers shift with the position).
proof fn lemma_parse_suffix_shift(ls1: Seq<Seq<char>>, j1: int, ls2: Seq<Seq<char>>, j2: int)
    requires
        0 <= j1 <= ls1.len(),
        0 <= j2 <= ls2.len(),
        ls1.len() - j1 == ls2.len() - j2,
        forall|k: int| 0 <= k < ls1.len() - j1 ==> #[trigger] ls1[j1 + k] == ls2[j2 + k],
    ensures
        match (spec_parse_from(ls1, j1), spec_parse_from(ls2, j2)) {
            (Ok(a), Ok(b)) => a == b,
            (Err(x), Err(y)) => x.1 == y.1 && x.0 - j1 == y.0 - j2,
            _ => false,
        },
    decreases ls1.len() - j1,
{
    if j1 < ls1.len() {
        assert(ls1[j1] == ls2[j2]) by {
            assert(ls1[j1 + 0] == ls2[j2 + 0]);
        };
        assert forall|k: int| 0 <= k < ls1.len() - (j1 + 1) implies #[trigger] ls1[(j1 + 1) + k]
            == ls2[(j2 + 1) + k] by {
            assert(ls1[j1 + (k + 1)] == ls2[j2 + (k + 1)]);
        };
        lemma_parse_suffix_shift(ls1, j1 + 1, ls2, j2 + 1);
    }
}

/// Removing an ignored line changes neither the parsed units nor the kind of
/// the first error; from position `j` at or before the ignored line.
proof fn lemma_remove_ignored_from(ls: Seq<Seq<char>>, i: int, j: int)
    requires
        0 <= j <= i < ls.len(),
        spec_is_ignored(ls[i]),
    ensures
        match (spec_parse_from(ls, j), spec_parse_from(ls.remove(i), j)) {
            (Ok(a), Ok(b)) => a == b,
            (Err(x), Err(y)) => x.1 == y.1,
            _ => false,
        },
    decreases i - j,
{
    let ls2 = ls.remove(i);
    if j == i {
        assert forall|k: int| 0 <= k < ls.len() - (i + 1) implies #[trigger] ls[(i + 1) + k] == ls2[i
            + k] by {
            assert(ls2[i + k] == ls[i + k + 1]);
        };
        lemma_parse_suffix_shift(ls, i + 1, ls2, i);
    } else {
        assert(ls2[j] == ls[j]);
        lemma_remove_ignored_from(ls, i, j + 1);
    }
}

/// An empty line or a `#` comment line contributes no work unit and nothing
/// to the total: with it removed, a successful run parses to exactly the
/// same units and the same total, and a failing run fails with the same
/// parse error.
pub proof fn lemma_ignored_line_contributes_nothing(ls: Seq<Seq<char>>, i: int)
    requires
        0 <= i < ls.len(),
        spec_is_ignored(ls[i]),
    ensures
        match (spec_parse_from(ls, 0), spec_parse_from(ls.remove(i), 0)) {
            (Ok(a), Ok(b)) => a == b && total_minutes_of(a) == total_minutes_of(b),
            (Err(x), Err(y)) => x.1 == y.1,
            _ => false,
        },
{
    lemma_remove_ignored_from(ls, i, 0);
}

// ---------------------------------------------------------------------------
// Intervals are not ordered by the parser
// ---------------------------------------------------------------------------

/// Parsing checks no order between the two times: a parsed unit whose end
/// lies at or before its start is accepted, and its duration is then
/// non-positive.
pub proof fn lemma_nonpositive_interval(m: UnitModel)
    requires
        m.to.minutes_of_day() <= m.from.minutes_of_day(),
    ensures
        duration_of(m) <= 0,
{
}

/// A line whose end time lies at or before its start time is accepted all
/// the same; the unit it parses to has a non-positive duration.
pub proof fn lemma_backwards_interval_accepted(s: Seq<char>, m: UnitModel)
    requires
        spec_parse_line(s) == Ok::<UnitModel, ParseError>(m),
        m.to.minutes_of_day() <= m.from.minutes_of_day(),
    ensures
        duration_of(m) <= 0,
{
}

// ---------------------------------------------------------------------------
// Parsed units are valid
// ---------------------------------------------------------------------------

/// Every unit a line parses to carries timestamps on the calendar and the
/// clock, and both share one date.
pub proof fn lemma_parsed_unit_valid(s: Seq<char>, m: UnitModel)
    requires
        spec_parse_line(s) == Ok::<UnitModel, ParseError>(m),
    ensures
        m.is_valid(),
        m.from.date == m.to.date,
{
}

/// Every unit a whole run parses to is valid.
pub proof fn lemma_parsed_lines_valid(ls: Seq<Seq<char>>, i: int, us: Seq<UnitModel>)
    requires
        spec_parse_from(ls, i) == Ok::<Seq<UnitModel>, (int, ParseError)>(us),
    ensures
        forall|k: int| 0 <= k < us.len() ==> (#[trigger] us[k]).is_valid(),
    decreases ls.len() - i,
{
    if 0 <= i < ls.len() {
        if spec_is_ignored(ls[i]) {
            lemma_parsed_lines_valid(ls, i + 1, us);
        } else {
            match spec_parse_line(ls[i]) {
                Ok(m) => {
                    let rest = spec_parse_from(ls, i + 1)->Ok_0;
                    lemma_parsed_unit_valid(ls[i], m);
                    lemma_parsed_lines_valid(ls, i + 1, rest);
                    assert(us == seq![m] + rest);
                    assert forall|k: int| 0 <= k < us.len() implies (#[trigger] us[k]).is_valid()
                        by {
                        if k == 0 {
                            assert(us[k] == m);
                        } else {
                            assert(us[k] == rest[k - 1]);
                        }
                    };
                },
                Err(_) => {},
            }
        }
    }
}

// ---------------------------------------------------------------------------
// The reported decomposition of a duration
// ---------------------------------------------------------------------------

/// The reported hours and leftover minutes recompose to the duration, and
/// the leftover minutes stay below one hour in absolute value.
pub proof fn lemma_duration_split(m: int)
    ensures
        crate::format::hours_part(m) * 60 + crate::format::minutes_part(m) == m,
        -59 <= crate::format::minutes_part(m) <= 59,
{
    if m >= 0 {
        vstd::arithmetic::div_mod::lemma_fundamental_div_mod(m, 60);
    } else {
        vstd::arithmetic::div_mod::lemma_fundamental_div_mod(-m, 60);
        assert((-((-m) / 60)) * 60 == -(((-m) / 60) * 60)) by (nonlinear_arith);
    }
}

} // verus!
