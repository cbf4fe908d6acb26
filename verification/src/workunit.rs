//! Work units: one logged interval per log line, and duration arithmetic.

use vstd::prelude::*;

use crate::datetime::{days_in_month, Timestamp};

verus! {

/// One logged work interval: a start, an end on the same date, and an
/// optional free-text comment.
#[derive(PartialEq, Debug)]
pub struct Workunit {
    pub from: Timestamp,
    pub to: Timestamp,
    pub comment: Option<String>,
}

/// The mathematical model of a [`Workunit`]: the comment is a character
/// sequence instead of a `String`.
#[verifier::ext_equal]
pub ghost struct UnitModel {
    pub from: Timestamp,
    pub to: Timestamp,
    pub comment: Option<Seq<char>>,
}

impl UnitModel {
    /// Both timestamps lie on the calendar and the clock.
    pub open spec fn is_valid(self) -> bool {
        self.from.is_valid() && self.to.is_valid()
    }
}

/// The duration of a unit in minutes: end minus start.  The two timestamps
/// of a parsed unit carry one shared date, so only the times of day enter;
/// the result is negative when the end lies before the start.
pub open spec fn duration_of(m: UnitModel) -> int {
    m.to.minutes_of_day() - m.from.minutes_of_day()
}

impl View for Workunit {
    type V = UnitModel;

    open spec fn view(&self) -> UnitModel {
        UnitModel { from: self.from, to: self.to, comment: self.comment.deep_view() }
    }
}

impl DeepView for Workunit {
    type V = UnitModel;

    open spec fn deep_view(&self) -> UnitModel {
        self.view()
    }
}

impl Workunit {
    /// Both timestamps lie on the calendar and the clock.
    pub open spec fn is_valid(self) -> bool {
        self@.is_valid()
    }

    /// Whether both timestamps lie on the calendar and the clock.
    pub fn valid(&self) -> (b: bool)
        ensures
            b == self.is_valid(),
    {
        valid_timestamp(&self.from) && valid_timestamp(&self.to)
    }

    /// The duration of this unit in minutes; negative when the end lies
    /// before the start.
    pub fn duration_minutes(&self) -> (d: i64)
        ensures
            d == duration_of(self@),
    {
        let to_min: i64 = (self.to.hour as i64) * 60 + (self.to.minute as i64);
        let from_min: i64 = (self.from.hour as i64) * 60 + (self.from.minute as i64);
        to_min - from_min
    }
}

/// Whether a timestamp lies on the calendar and the clock.
fn valid_timestamp(t: &Timestamp) -> (b: bool)
    ensures
        b == t.is_valid(),
{
    1 <= t.date.month && t.date.month <= 12 && 1 <= t.date.day && t.date.day <= days_in_month(
        t.date.year,
        t.date.month,
    ) && t.hour <= 23 && t.minute <= 59
}

/// The sum of the durations of a sequence of units, in minutes.
pub open spec fn total_minutes_of(s: Seq<UnitModel>) -> int
    decreases s.len(),
{
    if s.len() == 0 {
        0
    } else {
        total_minutes_of(s.drop_last()) + duration_of(s.last())
    }
}

/// Sum of the durations of all units, in minutes.
pub fn get_total_minutes(units: &Vec<Workunit>) -> (total: i64)
    requires
        forall|i: int| 0 <= i < units@.len() ==> (#[trigger] units@[i]).is_valid(),
        units@.len() <= 6_000_000_000_000_000,
    ensures
        total == total_minutes_of(units.deep_view()),
{
    let ghost s = units.deep_view();
    let mut total: i64 = 0;
    let mut i: usize = 0;
    while i < units.len()
        invariant
            0 <= i <= units@.len(),
            s == units.deep_view(),
            s.len() == units@.len(),
            units@.len() <= 6_000_000_000_000_000,
            forall|j: int| 0 <= j < units@.len() ==> (#[trigger] units@[j]).is_valid(),
            forall|j: int| 0 <= j < s.len() ==> #[trigger] s[j] == units@[j]@,
            total == total_minutes_of(s.subrange(0, i as int)),
            -1439 * i <= total <= 1439 * i,
        decreases units@.len() - i,
    {
        let d = units[i].duration_minutes();
        proof {
            assert(units@[i as int].is_valid());
            assert(s.subrange(0, i + 1).drop_last() =~= s.subrange(0, i as int));
            assert(s.subrange(0, i + 1).last() == s[i as int]);
        }
        total = total + d;
        i = i + 1;
    }
    proof {
        assert(s.subrange(0, s.len() as int) =~= s);
    }
    total
}

} // verus!
