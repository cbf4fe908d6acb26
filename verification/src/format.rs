//! Formatting numbers, dates, times and report lines.

use vstd::prelude::*;

use crate::datetime::{Date, Timestamp};
use vstd::string::StringExecFns;

verus! {

// ---------------------------------------------------------------------------
// Decimal representations (specification)
// ---------------------------------------------------------------------------

/// The digit character of a value below ten (`'0'` for anything else).
pub open spec fn digit_char(d: nat) -> char {
    if d == 1 {
        '1'
    } else if d == 2 {
        '2'
    } else if d == 3 {
        '3'
    } else if d == 4 {
        '4'
    } else if d == 5 {
        '5'
    } else if d == 6 {
        '6'
    } else if d == 7 {
        '7'
    } else if d == 8 {
        '8'
    } else if d == 9 {
        '9'
    } else {
        '0'
    }
}

/// The decimal representation of `n`, without leading zeros (`"0"` for 0).
pub open spec fn dec_rep(n: nat) -> Seq<char>
    decreases n,
{
    if n < 10 {
        seq![digit_char(n)]
    } else {
        dec_rep(n / 10) + seq![digit_char(n % 10)]
    }
}

/// The decimal representation of an integer: a `-` sign before the digits of
/// the absolute value when `i` is negative.
pub open spec fn int_rep(i: int) -> Seq<char> {
    if i < 0 {
        seq!['-'] + dec_rep((-i) as nat)
    } else {
        dec_rep(i as nat)
    }
}

/// Hours part of a duration of `m` minutes, truncated towards zero.
pub open spec fn hours_part(m: int) -> int {
    if m >= 0 {
        m / 60
    } else {
        -((-m) / 60)
    }
}

/// Leftover minutes of a duration of `m` minutes; carries the sign of `m`.
pub open spec fn minutes_part(m: int) -> int {
    if m >= 0 {
        m % 60
    } else {
        -((-m) % 60)
    }
}

/// A duration rendered as `<H>h<M>min`, each component signed on its own.
pub open spec fn spec_format_duration(m: int) -> Seq<char> {
    int_rep(hours_part(m)) + seq!['h'] + int_rep(minutes_part(m)) + seq!['m', 'i', 'n']
}

/// A date rendered as `day.month`.
pub open spec fn spec_format_date(d: Date) -> Seq<char> {
    dec_rep(d.day as nat) + seq!['.'] + dec_rep(d.month as nat)
}

/// A time of day rendered as `hour:minute`.
pub open spec fn spec_format_time(t: Timestamp) -> Seq<char> {
    dec_rep(t.hour as nat) + seq![':'] + dec_rep(t.minute as nat)
}

/// A unit written back as a log line: `day.month hour:minute hour:minute`,
/// with the comment appended after one space when there is one.
pub open spec fn spec_format_line(m: crate::workunit::UnitModel) -> Seq<char> {
    spec_format_date(m.from.date) + seq![' '] + spec_format_time(m.from) + seq![' ']
        + spec_format_time(m.to) + match m.comment {
        Some(c) => seq![' '] + c,
        None => Seq::<char>::empty(),
    }
}

/// One report line: `<start> - <end>: <H>h<M>min`, with the comment appended
/// after one space when there is one.
pub open spec fn spec_report_line(
    from_text: Seq<char>,
    to_text: Seq<char>,
    minutes: int,
    comment: Option<Seq<char>>,
) -> Seq<char> {
    from_text + seq![' ', '-', ' '] + to_text + seq![':', ' '] + spec_format_duration(minutes)
        + match comment {
        Some(c) => seq![' '] + c,
        None => Seq::<char>::empty(),
    }
}

// ---------------------------------------------------------------------------
// Executable formatting
// ---------------------------------------------------------------------------

/// The one-character string of a digit.
fn digit_to_str(d: u64) -> (s: &'static str)
    requires
        d < 10,
    ensures
        s@ == seq![digit_char(d as nat)],
{
    proof {
        reveal_strlit("0");
        reveal_strlit("1");
        reveal_strlit("2");
        reveal_strlit("3");
        reveal_strlit("4");
        reveal_strlit("5");
        reveal_strlit("6");
        reveal_strlit("7");
        reveal_strlit("8");
        reveal_strlit("9");
    }
    if d == 0 {
        proof {
            assert("0"@ =~= seq![digit_char(0)]);
        }
        "0"
    } else if d == 1 {
        proof {
            assert("1"@ =~= seq![digit_char(1)]);
        }
        "1"
    } else if d == 2 {
        proof {
            assert("2"@ =~= seq![digit_char(2)]);
        }
        "2"
    } else if d == 3 {
        proof {
            assert("3"@ =~= seq![digit_char(3)]);
        }
        "3"
    } else if d == 4 {
        proof {
            assert("4"@ =~= seq![digit_char(4)]);
        }
        "4"
    } else if d == 5 {
        proof {
            assert("5"@ =~= seq![digit_char(5)]);
        }
        "5"
    } else if d == 6 {
        proof {
            assert("6"@ =~= seq![digit_char(6)]);
        }
        "6"
    } else if d == 7 {
        proof {
            assert("7"@ =~= seq![digit_char(7)]);
        }
        "7"
    } else if d == 8 {
        proof {
            assert("8"@ =~= seq![digit_char(8)]);
        }
        "8"
    } else {
        proof {
            assert("9"@ =~= seq![digit_char(9)]);
        }
        "9"
    }
}

/// The decimal representation of `n` as a `String`.
pub fn u64_to_string(n: u64) -> (s: String)
    ensures
        s@ == dec_rep(n as nat),
    decreases n,
{
    if n < 10 {
        digit_to_str(n).to_owned()
    } else {
        proof {
            assert(n / 10 < n) by (nonlinear_arith)
                requires
                    n >= 10,
            ;
        }
        let front = u64_to_string(n / 10);
        let res = front.concat(digit_to_str(n % 10));
        proof {
            assert(res@ =~= dec_rep(n as nat));
        }
        res
    }
}

/// The decimal representation of a `u32` as a `String`.
pub fn u32_to_string(n: u32) -> (s: String)
    ensures
        s@ == dec_rep(n as nat),
{
    u64_to_string(n as u64)
}

/// A duration of `minutes` minutes rendered as `<H>h<M>min`, as chrono
/// renders it: hours truncated towards zero, leftover minutes signed like
/// the whole duration.
pub fn format_duration(minutes: i64) -> (s: String)
    requires
        minutes != i64::MIN,
    ensures
        s@ == spec_format_duration(minutes as int),
{
    proof {
        reveal_strlit("-");
        reveal_strlit("h");
        reveal_strlit("min");
        assert("-"@ =~= seq!['-']);
        assert("h"@ =~= seq!['h']);
        assert("min"@ =~= seq!['m', 'i', 'n']);
    }
    let neg = minutes < 0;
    let mag: u64 = if neg {
        (-minutes) as u64
    } else {
        minutes as u64
    };
    let h: u64 = mag / 60;
    let m: u64 = mag % 60;
    let mut out = String::new();
    if neg && h > 0 {
        out.append("-");
    }
    let hs = u64_to_string(h);
    out.append(hs.as_str());
    out.append("h");
    if neg && m > 0 {
        out.append("-");
    }
    let ms = u64_to_string(m);
    out.append(ms.as_str());
    out.append("min");
    proof {
        assert(out@ =~= spec_format_duration(minutes as int));
    }
    out
}

/// A date rendered as `day.month`.
pub fn format_date(d: &Date) -> (s: String)
    ensures
        s@ == spec_format_date(*d),
{
    proof {
        reveal_strlit(".");
        assert("."@ =~= seq!['.']);
    }
    let mut out = u32_to_string(d.day);
    out.append(".");
    let month = u32_to_string(d.month);
    out.append(month.as_str());
    proof {
        assert(out@ =~= spec_format_date(*d));
    }
    out
}

/// A time of day rendered as `hour:minute`.
pub fn format_time(t: &Timestamp) -> (s: String)
    ensures
        s@ == spec_format_time(*t),
{
    proof {
        reveal_strlit(":");
        assert(":"@ =~= seq![':']);
    }
    let mut out = u32_to_string(t.hour);
    out.append(":");
    let minute = u32_to_string(t.minute);
    out.append(minute.as_str());
    proof {
        assert(out@ =~= spec_format_time(*t));
    }
    out
}

/// One report line for a unit whose timestamps have already been rendered:
/// `<start> - <end>: <H>h<M>min [comment]`.
pub fn report_line(from_text: &str, to_text: &str, minutes: i64, comment: &Option<String>) -> (s:
    String)
    requires
        minutes != i64::MIN,
    ensures
        s@ == spec_report_line(from_text@, to_text@, minutes as int, comment.deep_view()),
{
    proof {
        reveal_strlit(" - ");
        reveal_strlit(": ");
        reveal_strlit(" ");
        assert(" - "@ =~= seq![' ', '-', ' ']);
        assert(": "@ =~= seq![':', ' ']);
        assert(" "@ =~= seq![' ']);
    }
    let mut out = String::from_str(from_text);
    out.append(" - ");
    out.append(to_text);
    out.append(": ");
    let dur = format_duration(minutes);
    out.append(dur.as_str());
    match comment {
        Some(c) => {
            out.append(" ");
            out.append(c.as_str());
        },
        None => {},
    }
    proof {
        assert(out@ =~= spec_report_line(
            from_text@,
            to_text@,
            minutes as int,
            comment.deep_view(),
        ));
    }
    out
}

/// The summary line: `Total working time: <H>h<M>min`.
pub fn total_line(minutes: i64) -> (s: String)
    requires
        minutes != i64::MIN,
    ensures
        s@ == "Total working time: "@ + spec_format_duration(minutes as int),
{
    let mut out = String::from_str("Total working time: ");
    let dur = format_duration(minutes);
    out.append(dur.as_str());
    out
}

} // verus!
