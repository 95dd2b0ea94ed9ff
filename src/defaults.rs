//! The plan written for a new user: a working day from waking to sleep.
use vstd::prelude::*;
use crate::activities::ActivityMap;
use crate::day_of_week::DayOfWeek;
use crate::plan::Plan;
use crate::routine::Routine;

verus! {

/// Name, start, duration and the one default activity of each block of the
/// default plan.
pub open spec fn default_blocks() -> Seq<(Seq<char>, Seq<char>, Seq<char>, Seq<char>)> {
    seq![
        ("Wake"@, "7:00 am"@, "30m"@, "Get up and get ready"@),
        ("Work"@, "9:00 am"@, "3h"@, "Morning work session"@),
        ("Lunch"@, "12:00 pm"@, "1h"@, "Lunch break and rest"@),
        ("Work"@, "1:00 pm"@, "4h"@, "Afternoon work session"@),
        ("Evening"@, "6:00 pm"@, "3h"@, "Evening activities and relaxation"@),
        ("Sleep"@, "10:00 pm"@, "9h"@, "Rest and sleep"@),
    ]
}

/// `r` is the block that `b` describes.
pub open spec fn is_default_block(r: Routine, b: (Seq<char>, Seq<char>, Seq<char>, Seq<char>)) -> bool {
    &&& r.name@ == b.0
    &&& r.start matches Some(s) && s@ == b.1
    &&& r.duration@ == b.2
    &&& r.activities@.dom() == set![DayOfWeek::Default]
    &&& r.activities@[DayOfWeek::Default].len() == 1
    &&& r.activities@[DayOfWeek::Default][0]@ == b.3
}

fn default_block(name: &str, start: &str, duration: &str, activity: &str) -> (r: Routine)
    ensures
        is_default_block(r, (name@, start@, duration@, activity@)),
{
    let mut activities = ActivityMap::new();
    let mut items: Vec<String> = Vec::new();
    items.push(String::from_str(activity));
    activities.insert(DayOfWeek::Default, items);
    assert(activities@.dom() =~= set![DayOfWeek::Default]);
    Routine {
        name: String::from_str(name),
        start: Some(String::from_str(start)),
        duration: String::from_str(duration),
        activities,
    }
}

/// The plan written for a new user.
pub fn create_default_plan() -> (r: Plan)
    ensures
        r.daily_routine@.len() == default_blocks().len(),
        forall|i: int|
            0 <= i < r.daily_routine@.len() ==> is_default_block(
                #[trigger] r.daily_routine@[i],
                default_blocks()[i],
            ),
{
    let mut rs: Vec<Routine> = Vec::new();
    rs.push(default_block("Wake", "7:00 am", "30m", "Get up and get ready"));
    rs.push(default_block("Work", "9:00 am", "3h", "Morning work session"));
    rs.push(default_block("Lunch", "12:00 pm", "1h", "Lunch break and rest"));
    rs.push(default_block("Work", "1:00 pm", "4h", "Afternoon work session"));
    rs.push(default_block("Evening", "6:00 pm", "3h", "Evening activities and relaxation"));
    rs.push(default_block("Sleep", "10:00 pm", "9h", "Rest and sleep"));
    assert forall|i: int| 0 <= i < rs@.len() implies is_default_block(
        #[trigger] rs@[i],
        default_blocks()[i],
    ) by {
        if i == 0 {
        } else if i == 1 {
        } else if i == 2 {
        } else if i == 3 {
        } else if i == 4 {
        } else {
        }
    }
    Plan { daily_routine: rs }
}

} // verus!
