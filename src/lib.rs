//! A daily-routine schedule engine: time blocks with start times, durations
//! and per-day activity lists, and the rules that find the block that is
//! active at a given minute of the day.
pub mod activities;
mod clock;
pub mod day_of_week;
pub mod defaults;
pub mod duration;
pub mod plan;
pub mod remote;
pub mod routine;
pub mod start_time;
pub mod text;
pub mod time_cursor;

pub use activities::ActivityMap;
pub use day_of_week::DayOfWeek;
pub use defaults::create_default_plan;
pub use duration::{Duration, DurationLabel, parse_duration};
pub use plan::{Plan, active_index, format_time_12h, minutes_of_day};
pub use routine::{Routine, ScheduleError};
pub use start_time::parse_start_time;
pub use time_cursor::TimeCursor;
