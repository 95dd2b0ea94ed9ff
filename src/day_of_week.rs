//! Day categories: the seven concrete days and the aggregate tags that
//! activity lists are filed under.
use vstd::prelude::*;

verus! {

#[derive(Clone, Copy, Debug, PartialEq, Eq, Hash, Structural)]
pub enum DayOfWeek {
    Mon,
    Tue,
    Wed,
    Thu,
    Fri,
    Sat,
    Sun,
    Everyday,
    Default,
    Weekdays,
    Weekends,
}

pub open spec fn is_weekend(d: DayOfWeek) -> bool {
    d == DayOfWeek::Sat || d == DayOfWeek::Sun
}

pub open spec fn is_weekday(d: DayOfWeek) -> bool {
    d == DayOfWeek::Mon || d == DayOfWeek::Tue || d == DayOfWeek::Wed || d == DayOfWeek::Thu || d
        == DayOfWeek::Fri
}

/// The concrete day that is `i` days after Monday.
pub open spec fn day_from_monday(i: nat) -> DayOfWeek {
    if i == 0 {
        DayOfWeek::Mon
    } else if i == 1 {
        DayOfWeek::Tue
    } else if i == 2 {
        DayOfWeek::Wed
    } else if i == 3 {
        DayOfWeek::Thu
    } else if i == 4 {
        DayOfWeek::Fri
    } else if i == 5 {
        DayOfWeek::Sat
    } else {
        DayOfWeek::Sun
    }
}

/// The English name of a concrete day, and "Unknown" for an aggregate tag.
pub open spec fn day_name_of(d: DayOfWeek) -> Seq<char> {
    match d {
        DayOfWeek::Mon => "Monday"@,
        DayOfWeek::Tue => "Tuesday"@,
        DayOfWeek::Wed => "Wednesday"@,
        DayOfWeek::Thu => "Thursday"@,
        DayOfWeek::Fri => "Friday"@,
        DayOfWeek::Sat => "Saturday"@,
        DayOfWeek::Sun => "Sunday"@,
        _ => "Unknown"@,
    }
}

impl DayOfWeek {
    pub fn is_weekend(&self) -> (r: bool)
        ensures
            r == is_weekend(*self),
    {
        *self == DayOfWeek::Sat || *self == DayOfWeek::Sun
    }

    pub fn is_weekday(&self) -> (r: bool)
        ensures
            r == is_weekday(*self),
    {
        match self {
            DayOfWeek::Mon | DayOfWeek::Tue | DayOfWeek::Wed | DayOfWeek::Thu | DayOfWeek::Fri => {
                true
            },
            _ => false,
        }
    }

    /// The concrete day that is `i` days after Monday.
    pub fn from_monday(i: u32) -> (r: DayOfWeek)
        requires
            i < 7,
        ensures
            r == day_from_monday(i as nat),
    {
        if i == 0 {
            DayOfWeek::Mon
        } else if i == 1 {
            DayOfWeek::Tue
        } else if i == 2 {
            DayOfWeek::Wed
        } else if i == 3 {
            DayOfWeek::Thu
        } else if i == 4 {
            DayOfWeek::Fri
        } else if i == 5 {
            DayOfWeek::Sat
        } else {
            DayOfWeek::Sun
        }
    }

    /// The English name of a concrete day, and "Unknown" for an aggregate tag.
    pub fn name(&self) -> (r: String)
        ensures
            r@ == day_name_of(*self),
    {
        let s = match self {
            DayOfWeek::Mon => "Monday",
            DayOfWeek::Tue => "Tuesday",
            DayOfWeek::Wed => "Wednesday",
            DayOfWeek::Thu => "Thursday",
            DayOfWeek::Fri => "Friday",
            DayOfWeek::Sat => "Saturday",
            DayOfWeek::Sun => "Sunday",
            _ => "Unknown",
        };
        String::from_str(s)
    }
}

} // verus!
