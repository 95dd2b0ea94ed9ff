//! One block of the day: a name, an optional start time, a duration and
//! the activity lists by day category.
use vstd::prelude::*;
use crate::activities::{ActivityMap, resolve_activities};
use crate::day_of_week::DayOfWeek;
use crate::duration::{
    Duration, DurationLabel, parse_duration, duration_accepted, duration_value, pow10, min_u32, render_minutes,
};
use crate::start_time::{parse_start_time, start_time_value};
use crate::text::{trim, chars_of, trim_bounds};

verus! {

/// What `str::to_lowercase` makes of a string.
pub uninterp spec fn lower_of(s: Seq<char>) -> Seq<char>;

/// Relies on `str::to_lowercase`: the lower-case form of `s`, which depends
/// on the characters of `s` alone.
#[verifier::external_body]
fn lowercase(s: &str) -> (r: String)
    ensures
        r@ == lower_of(s@),
{
    s.to_lowercase()
}

/// A field of a block that does not read; it holds the text as written.
#[derive(Clone, Debug, PartialEq, Eq)]
pub enum ScheduleError {
    InvalidDuration(String),
    InvalidStartTime(String),
}

impl ScheduleError {
    /// A one-line description that quotes the offending text.
    pub fn message(&self) -> (r: String)
        ensures
            r@ == match self {
                ScheduleError::InvalidDuration(s) => "Invalid duration format: "@ + s@,
                ScheduleError::InvalidStartTime(s) => "Invalid start time format: "@ + s@,
            },
    {
        match self {
            ScheduleError::InvalidDuration(s) => {
                let mut m = String::from_str("Invalid duration format: ");
                m.append(s.as_str());
                m
            },
            ScheduleError::InvalidStartTime(s) => {
                let mut m = String::from_str("Invalid start time format: ");
                m.append(s.as_str());
                m
            },
        }
    }
}

#[derive(Clone, Debug)]
pub struct Routine {
    pub name: String,
    pub start: Option<String>,
    pub duration: String,
    pub activities: ActivityMap,
}

/// The whole minutes of an accepted duration string, at most `u32::MAX`.
pub open spec fn duration_minutes_of(s: Seq<char>) -> nat {
    min_u32(duration_value(s).0 / pow10(duration_value(s).1))
}

/// The first field of `r` that does not read: its start, then its duration.
pub open spec fn routine_error(r: Routine) -> Option<ScheduleError> {
    if r.start is Some && start_time_value(r.start->0@) is None {
        Some(ScheduleError::InvalidStartTime(r.start->0))
    } else if !duration_accepted(r.duration@) {
        Some(ScheduleError::InvalidDuration(r.duration))
    } else {
        None
    }
}

/// The explicit start of `r` in minutes since midnight, if it has one.
pub open spec fn start_of(r: Routine) -> Option<u32> {
    match r.start {
        Some(s) => match start_time_value(s@) {
            Some(v) => Some(v as u32),
            None => None,
        },
        None => None,
    }
}

/// The whole minutes that `r` lasts.
pub open spec fn minutes_of(r: Routine) -> u32 {
    duration_minutes_of(r.duration@) as u32
}

impl Routine {
    /// The block with its start time trimmed and lower-cased.
    pub fn new(data: Routine) -> (r: Routine)
        ensures
            r.name == data.name,
            r.duration == data.duration,
            r.activities == data.activities,
            r.start is Some <==> data.start is Some,
            data.start matches Some(s) ==> r.start->0@ == lower_of(trim(s@)),
    {
        let start = match data.start {
            Some(s) => {
                let cs = chars_of(s.as_str());
                let (lo, hi) = trim_bounds(&cs);
                let t = s.as_str().substring_char(lo, hi);
                Some(lowercase(t))
            },
            None => None,
        };
        Routine { name: data.name, start, duration: data.duration, activities: data.activities }
    }

    pub fn name(&self) -> (r: &str)
        ensures
            r@ == self.name@,
    {
        self.name.as_str()
    }

    /// The exact length of the block in minutes.
    pub fn duration(&self) -> (r: Result<Duration, ScheduleError>)
        ensures
            r is Ok <==> duration_accepted(self.duration@),
            r matches Ok(d) ==> d.scaled() == duration_value(self.duration@).0 && d.decimals()
                == duration_value(self.duration@).1 && d.wf(),
            r is Err ==> r == Err::<Duration, ScheduleError>(
                ScheduleError::InvalidDuration(self.duration),
            ),
    {
        match parse_duration(self.duration.as_str()) {
            Some(d) => Ok(d),
            None => Err(ScheduleError::InvalidDuration(self.duration.clone())),
        }
    }

    /// The whole minutes of the block, at most `u32::MAX`.
    pub fn duration_minutes(&self) -> (r: Result<u32, ScheduleError>)
        ensures
            r is Ok <==> duration_accepted(self.duration@),
            r matches Ok(m) ==> m == duration_minutes_of(self.duration@),
            r is Err ==> r == Err::<u32, ScheduleError>(
                ScheduleError::InvalidDuration(self.duration),
            ),
    {
        match self.duration() {
            Ok(d) => Ok(d.whole_minutes()),
            Err(e) => Err(e),
        }
    }

    /// The explicit start in minutes since midnight; `None` where the block
    /// follows on from the one before.
    pub fn start_minutes(&self) -> (r: Result<Option<u32>, ScheduleError>)
        ensures
            r is Ok <==> (self.start is None || start_time_value(self.start->0@) is Some),
            r matches Ok(v) ==> v == start_of(*self),
            r is Err ==> r == Err::<Option<u32>, ScheduleError>(
                ScheduleError::InvalidStartTime(self.start->0),
            ),
    {
        match &self.start {
            None => Ok(None),
            Some(s) => match parse_start_time(s.as_str()) {
                Some(v) => Ok(Some(v)),
                None => Err(ScheduleError::InvalidStartTime(s.clone())),
            },
        }
    }

    /// The short label of the block's length, where it can be written
    /// exactly.
    pub fn pretty_duration(&self) -> (r: Result<DurationLabel, ScheduleError>)
        ensures
            r is Ok <==> duration_accepted(self.duration@),
            r matches Ok(l) ==> match render_minutes(
                duration_value(self.duration@).0,
                duration_value(self.duration@).1,
            ) {
                Some(t) => l matches DurationLabel::Text(s) && s@ == t,
                None => l == DurationLabel::OneDecimalHours,
            },
            r is Err ==> r == Err::<DurationLabel, ScheduleError>(
                ScheduleError::InvalidDuration(self.duration),
            ),
    {
        match self.duration() {
            Ok(d) => Ok(d.render()),
            Err(e) => Err(e),
        }
    }

    /// The activities of the block on `day`.
    pub fn activities(&self, day: DayOfWeek) -> (r: Vec<String>)
        ensures
            r@ == resolve_activities(self.activities@, day),
    {
        self.activities.resolve(day)
    }
}

} // verus!
