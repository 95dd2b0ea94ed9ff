use guidebook_plan::{
    active_index, create_default_plan, format_time_12h, minutes_of_day, parse_duration, parse_start_time,
    ActivityMap, DayOfWeek, Duration, DurationLabel, Plan, Routine, ScheduleError, TimeCursor,
};
use guidebook_plan::remote::{clone_remote, next_poll_action, PollAction, PollReply};
use guidebook_plan::text::decimal_string;

fn block(name: &str, start: Option<&str>, duration: &str) -> Routine {
    Routine {
        name: name.to_string(),
        start: start.map(|s| s.to_string()),
        duration: duration.to_string(),
        activities: ActivityMap::new(),
    }
}

fn minutes(duration: &str) -> Result<u32, ScheduleError> {
    block("b", None, duration).duration_minutes()
}

fn start(text: &str) -> Result<Option<u32>, ScheduleError> {
    block("b", Some(text), "1m").start_minutes()
}

fn pretty(duration: &str) -> String {
    let r = block("b", None, duration);
    match r.pretty_duration().unwrap() {
        DurationLabel::Text(label) => label,
        DurationLabel::OneDecimalHours => {
            let d = r.duration().unwrap();
            let mut number: String = d.int_digits.iter().collect();
            if !d.frac_digits.is_empty() {
                number.push('.');
                number.extend(d.frac_digits.iter());
            }
            let value: f64 = number.parse().unwrap();
            let minutes = if d.hours { value * 60.0 } else { value };
            format!("{:.1}h", minutes / 60.0)
        }
    }
}

fn strings(items: &[&str]) -> Vec<String> {
    items.iter().map(|s| s.to_string()).collect()
}

#[test]
fn duration_examples() {
    assert_eq!(minutes("2h"), Ok(120));
    assert_eq!(minutes("1.5h"), Ok(90));
    assert_eq!(minutes("45m"), Ok(45));
    assert_eq!(minutes("x"), Err(ScheduleError::InvalidDuration("x".to_string())));
}

#[test]
fn duration_units_scale_the_number() {
    assert_eq!(minutes("3h"), Ok(180));
    assert_eq!(minutes("3m"), Ok(3));
    assert_eq!(minutes("2.5h"), Ok(150));
    assert_eq!(minutes("0.25h"), Ok(15));
    assert_eq!(
        parse_duration("2.5h"),
        Some(Duration { int_digits: vec!['2'], frac_digits: vec!['5'], hours: true })
    );
    assert_eq!(
        parse_duration("12m "),
        Some(Duration { int_digits: vec!['1', '2'], frac_digits: vec![], hours: false })
    );
    assert_eq!(parse_duration("12x"), None);
}

#[test]
fn duration_grammar_edges() {
    assert_eq!(minutes("45 m"), Ok(45));
    assert_eq!(minutes("45\tm"), Ok(45));
    assert_eq!(minutes("1.5m"), Ok(1));
    assert!(minutes("45").is_err());
    assert!(minutes("45M").is_err());
    assert!(minutes(" 45m").is_err());
    assert_eq!(minutes("45m "), Ok(45));
    assert_eq!(minutes("30 m \t"), Ok(30));
    assert!(minutes("-5m").is_err());
    assert!(minutes("1.m").is_err());
    assert!(minutes(".5h").is_err());
    assert!(minutes("1.2.3h").is_err());
    assert!(minutes("h").is_err());
    assert!(minutes("").is_err());
    assert!(minutes("5s").is_err());
}

#[test]
fn long_numerals() {
    assert_eq!(minutes("0000000000000001h"), Ok(60));
    assert_eq!(minutes("999999999999999m"), Ok(u32::MAX));
    assert_eq!(minutes("99999999999999999999h"), Ok(u32::MAX));
    assert_eq!(minutes("0.0166666666666666666667h"), Ok(1));
    assert_eq!(minutes("0.0166666666666666666666h"), Ok(0));
    assert_eq!(minutes("1.00000000000000000000001m"), Ok(1));
    assert_eq!(pretty("99999999999999999999h"), "4294967295h");
    assert_eq!(pretty("1.5000000000000000000001h"), "1.5h");
    assert_eq!(pretty("000000000000000000090m"), "90m");
}

#[test]
fn start_time_examples() {
    assert_eq!(start("9:00 am"), Ok(Some(540)));
    assert_eq!(start("12:00 pm"), Ok(Some(720)));
    assert_eq!(start("12:00 am"), Ok(Some(0)));
    assert_eq!(start("21:00"), Ok(Some(1260)));
}

#[test]
fn start_time_forms() {
    assert_eq!(start("930"), Ok(Some(570)));
    assert_eq!(start("0930"), Ok(Some(570)));
    assert_eq!(start("9"), Ok(Some(540)));
    assert_eq!(start("9pm"), Ok(Some(1260)));
    assert_eq!(start("9:"), Ok(Some(540)));
    assert_eq!(start("  7:15 PM  "), Ok(Some(1155)));
    assert_eq!(start("1:30pm"), Ok(Some(810)));
    assert_eq!(block("b", None, "1m").start_minutes(), Ok(None));
}

#[test]
fn start_time_errors() {
    assert_eq!(start("noon"), Err(ScheduleError::InvalidStartTime("noon".to_string())));
    assert!(start("9:0").is_err());
    assert!(start("123:00").is_err());
    assert!(start("9:00 xm").is_err());
    assert!(start("").is_err());
    assert!(start("am").is_err());
}

#[test]
fn parse_start_time_directly() {
    assert_eq!(parse_start_time("6:45 am"), Some(405));
    assert_eq!(parse_start_time("6:45 zz"), None);
}

#[test]
fn pretty_duration_policy() {
    assert_eq!(pretty("90m"), "90m");
    assert_eq!(pretty("91m"), "1.5h");
    assert_eq!(pretty("120m"), "2h");
    assert_eq!(pretty("125m"), "2.1h");
    assert_eq!(pretty("1.5h"), "90m");
    assert_eq!(pretty("3h"), "3h");
    assert_eq!(pretty("105m"), "1.8h");
    assert_eq!(pretty("111m"), "1.9h");
    assert_eq!(pretty("117m"), "1.9h");
    assert_eq!(pretty("129m"), "2.1h");
    assert_eq!(pretty("90.5m"), "1.5h");
    assert_eq!(pretty("1.51h"), "1.5h");
    assert_eq!(pretty("1.55h"), "1.6h");
    assert_eq!(pretty("1.25h"), "75m");
    assert_eq!(pretty("2.25h"), "2.2h");
    assert_eq!(pretty("2.250001h"), "2.3h");
    assert_eq!(pretty("180.5m"), "3.0h");
    assert_eq!(pretty("1.05h"), "63m");
    assert_eq!(pretty("0.5h"), "30m");
    assert_eq!(pretty("30m"), "30m");
    assert_eq!(pretty("0m"), "0m");
    assert_eq!(pretty("2.5m"), "2m");
    assert_eq!(block("b", None, "zz").pretty_duration(), Err(ScheduleError::InvalidDuration("zz".to_string())));
}

#[test]
fn activity_resolution() {
    let mut map = ActivityMap::new();
    map.insert(DayOfWeek::Everyday, strings(&["A"]));
    map.insert(DayOfWeek::Weekdays, strings(&["B"]));
    map.insert(DayOfWeek::Wed, strings(&["C"]));
    map.insert(DayOfWeek::Default, strings(&["D"]));
    let mut r = block("b", None, "1h");
    r.activities = map;
    assert_eq!(r.activities(DayOfWeek::Wed), strings(&["A", "B", "C"]));
    assert_eq!(r.activities(DayOfWeek::Mon), strings(&["A", "B", "D"]));
    assert_eq!(r.activities(DayOfWeek::Sat), strings(&["A", "D"]));
}

#[test]
fn activity_weekend_bucket_and_replacement() {
    let mut map = ActivityMap::new();
    map.insert(DayOfWeek::Weekends, strings(&["W1", "W2"]));
    map.insert(DayOfWeek::Sun, strings(&["old"]));
    map.insert(DayOfWeek::Sun, strings(&["S"]));
    let mut r = block("b", None, "1h");
    r.activities = map;
    assert_eq!(r.activities(DayOfWeek::Sun), strings(&["W1", "W2", "S"]));
    assert_eq!(r.activities(DayOfWeek::Tue), Vec::<String>::new());
}

#[test]
fn empty_plan_has_no_active_block() {
    let plan = Plan { daily_routine: Vec::new() };
    assert_eq!(plan.activity_index_at(0), Ok(-1));
    assert_eq!(plan.activity_index_at(1000), Ok(-1));
    assert_eq!(plan.block_starts(), Ok(Vec::new()));
}

#[test]
fn two_block_timeline() {
    let plan = Plan {
        daily_routine: vec![block("a", Some("7:00 am"), "30m"), block("b", None, "60m")],
    };
    assert_eq!(plan.activity_index_at(420), Ok(0));
    assert_eq!(plan.activity_index_at(449), Ok(0));
    let starts = plan.block_starts().unwrap();
    assert_eq!(starts, vec![420, 450]);
    let cursor = TimeCursor { cursor: starts[0] };
    assert_eq!(cursor.minutes_remaining(449, 30), 1);
    assert_eq!(plan.activity_index_at(450), Ok(1));
    assert_eq!(plan.activity_index_at(509), Ok(1));
    assert_eq!(plan.activity_index_at(510), Ok(-1));
    assert_eq!(plan.activity_index_at(1000), Ok(-1));
    assert_eq!(plan.activity_index_at(100), Ok(-1));
}

#[test]
fn three_block_timeline() {
    let plan = Plan {
        daily_routine: vec![
            block("a", Some("7:00 am"), "30m"),
            block("b", None, "60m"),
            block("c", None, "15m"),
        ],
    };
    assert_eq!(plan.block_starts(), Ok(vec![420, 450, 510]));
    assert_eq!(plan.activity_index_at(449), Ok(0));
    assert_eq!(plan.activity_index_at(450), Ok(1));
    assert_eq!(plan.activity_index_at(509), Ok(1));
    assert_eq!(plan.activity_index_at(510), Ok(2));
    assert_eq!(plan.activity_index_at(524), Ok(2));
    assert_eq!(plan.activity_index_at(525), Ok(-1));
    assert_eq!(plan.activity_index_at(1000), Ok(-1));
}

#[test]
fn explicit_start_moves_cursor_backward() {
    let plan = Plan {
        daily_routine: vec![
            block("a", Some("10:00"), "2h"),
            block("b", Some("9:00"), "30m"),
            block("c", None, "30m"),
        ],
    };
    assert_eq!(plan.block_starts(), Ok(vec![600, 540, 570]));
    assert_eq!(plan.activity_index_at(650), Ok(-1));
    assert_eq!(plan.activity_index_at(560), Ok(-1));
    assert_eq!(plan.activity_index_at(599), Ok(-1));
    let plan = Plan {
        daily_routine: vec![block("a", Some("9:00"), "30m"), block("b", Some("10:00"), "30m")],
    };
    assert_eq!(plan.activity_index_at(560), Ok(0));
    assert_eq!(plan.activity_index_at(600), Ok(1));
    assert_eq!(plan.activity_index_at(630), Ok(-1));
}

#[test]
fn first_bad_field_is_reported() {
    let plan = Plan {
        daily_routine: vec![block("a", Some("7:00"), "oops"), block("b", Some("late"), "1h")],
    };
    assert_eq!(plan.activity_index_at(0), Err(ScheduleError::InvalidDuration("oops".to_string())));
    let plan = Plan {
        daily_routine: vec![block("a", Some("7:00"), "1h"), block("b", Some("late"), "bad")],
    };
    assert_eq!(plan.activity_index_at(430), Err(ScheduleError::InvalidStartTime("late".to_string())));
    assert_eq!(plan.block_starts(), Err(ScheduleError::InvalidStartTime("late".to_string())));
}

#[test]
fn active_index_on_plain_values() {
    assert_eq!(active_index(&vec![Some(60), None], &vec![10, 10], 65), 0);
    assert_eq!(active_index(&vec![Some(60), None], &vec![10, 10], 75), 1);
    assert_eq!(active_index(&vec![Some(60), None], &vec![10, 10], 80), -1);
    assert_eq!(active_index(&vec![None, None, None], &vec![10, 10, 10], 15), 1);
    assert_eq!(active_index(&vec![None, None, None], &vec![10, 10, 10], 20), 2);
    assert_eq!(active_index(&vec![None, None, None], &vec![10, 10, 10], 30), -1);
    assert_eq!(active_index(&vec![None, Some(500)], &vec![u32::MAX, 10], 499), 0);
    assert_eq!(active_index(&vec![], &vec![], 5), -1);
}

#[test]
fn minutes_remaining_is_never_negative() {
    let cursor = TimeCursor::new(420);
    assert_eq!(cursor.minutes_remaining(u32::MAX, 30), 0);
    assert_eq!(cursor.minutes_remaining(451, 30), 0);
    assert_eq!(cursor.minutes_remaining(400, 30), 30);
    assert_eq!(cursor.minutes_remaining(430, 30), 20);
}

#[test]
fn time_cursor_moves() {
    let mut cursor = TimeCursor::new(100);
    cursor.add(25);
    assert_eq!(cursor.cursor, 125);
    cursor.set(5);
    assert_eq!(cursor.cursor, 5);
    assert_eq!(cursor.pretty(), "00:05");
    cursor.set(1265);
    assert_eq!(cursor.pretty(), "21:05");
    cursor.add(u32::MAX);
    assert_eq!(cursor.cursor, 1265 + u32::MAX as u64);
}

#[test]
fn twelve_hour_clock() {
    assert_eq!(minutes_of_day(0, 0), 0);
    assert_eq!(minutes_of_day(7, 30), 450);
    assert_eq!(minutes_of_day(23, 59), 1439);
    assert_eq!(format_time_12h(0, 5), "12:05 am");
    assert_eq!(format_time_12h(12, 0), "12:00 pm");
    assert_eq!(format_time_12h(13, 30), "1:30 pm");
    assert_eq!(format_time_12h(9, 59), "9:59 am");
}

#[test]
fn routine_new_normalizes_start() {
    let r = Routine::new(block("b", Some("  9:00 AM\t"), "1h"));
    assert_eq!(r.start, Some("9:00 am".to_string()));
    assert_eq!(r.name(), "b");
    let r = Routine::new(block("b", None, "1h"));
    assert_eq!(r.start, None);
    let plan = Plan::new(Plan { daily_routine: vec![block("x", Some(" 1:00 PM"), "1h")] });
    assert_eq!(plan.routines()[0].start, Some("1:00 pm".to_string()));
}

#[test]
fn default_plan_reads() {
    let plan = create_default_plan();
    assert_eq!(plan.routines().len(), 6);
    assert_eq!(plan.block_starts(), Ok(vec![420, 540, 720, 780, 1080, 1320]));
    assert_eq!(plan.activity_index_at(600), Ok(1));
    assert_eq!(plan.activity_index_at(1325), Ok(5));
    assert_eq!(plan.activity_index_at(1439), Ok(5));
    assert_eq!(plan.routines()[2].activities(DayOfWeek::Fri), strings(&["Lunch break and rest"]));
    assert_eq!(plan.routines()[5].pretty_duration(), Ok(DurationLabel::Text("9h".to_string())));
    assert_eq!(
        block("b", None, "100m").pretty_duration(),
        Ok(DurationLabel::OneDecimalHours)
    );
}

#[test]
fn day_names_and_messages() {
    assert_eq!(DayOfWeek::Wed.name(), "Wednesday");
    assert_eq!(DayOfWeek::Weekends.name(), "Unknown");
    assert_eq!(DayOfWeek::from_monday(6), DayOfWeek::Sun);
    assert_eq!(decimal_string(1234), "1234");
    assert_eq!(decimal_string(0), "0");
    assert_eq!(
        ScheduleError::InvalidDuration("x".to_string()).message(),
        "Invalid duration format: x"
    );
    assert_eq!(
        ScheduleError::InvalidStartTime("y".to_string()).message(),
        "Invalid start time format: y"
    );
}

#[test]
fn clock_readings_are_in_range() {
    let plan = Plan { daily_routine: Vec::new() };
    assert!(plan.current_time_mins() < 1440);
    let day = plan.current_day_of_week();
    assert!(day.is_weekday() || day.is_weekend());
    assert!(plan.current_day_of_week_pretty().ends_with("day"));
    assert!(plan.current_time_pretty().ends_with('m'));
    assert_eq!(plan.current_activity_index(), Ok(-1));
}

#[test]
fn poll_replies() {
    assert_eq!(next_poll_action(PollReply::Token("t0k".to_string())), PollAction::Authorized("t0k".to_string()));
    assert_eq!(next_poll_action(PollReply::Empty), PollAction::Wait);
    assert_eq!(next_poll_action(PollReply::Error("authorization_pending".to_string())), PollAction::Wait);
    assert_eq!(next_poll_action(PollReply::Error("slow_down".to_string())), PollAction::SlowDown);
    assert_eq!(
        next_poll_action(PollReply::Error("expired_token".to_string())),
        PollAction::Fail("Device code expired. Please try again.".to_string())
    );
    assert_eq!(
        next_poll_action(PollReply::Error("access_denied".to_string())),
        PollAction::Fail("User denied authorization.".to_string())
    );
    assert_eq!(
        next_poll_action(PollReply::Error("weird".to_string())),
        PollAction::Fail("OAuth error: weird".to_string())
    );
}

#[test]
fn clone_remote_address() {
    assert_eq!(clone_remote("ann"), "git@github.com:ann/guidebook-local.git");
}
