//! The schedule: an ordered list of blocks, and the rule that finds the
//! block that is active at a given minute.
use vstd::prelude::*;
use crate::activities::ActivityMap;
use crate::clock::{local_weekday, local_hour_minute};
use crate::day_of_week::{DayOfWeek, day_from_monday, day_name_of};
use crate::routine::{Routine, ScheduleError, routine_error, start_of, minutes_of, lower_of};
use crate::text::{trim, decimal, push_decimal, push_decimal2, decimal2};
use crate::time_cursor::{TimeCursor, colon_str};

verus! {

/// Where block `i` starts: its explicit start if it has one, else where the
/// block before it ends; the first block without a start begins at 0.
pub open spec fn block_start(starts: Seq<Option<u32>>, durations: Seq<u32>, i: nat) -> int
    decreases i,
{
    if i < starts.len() && starts[i as int] is Some {
        starts[i as int]->0 as int
    } else if i == 0 {
        0
    } else {
        block_start(starts, durations, (i - 1) as nat) + durations[i - 1] as int
    }
}

/// `r` is the block active at `now`. Block `i` runs from its start until
/// the next block starts, and the last block until it ends, at
/// `block_start(n)` for `n` blocks. `r` is the block just before the first
/// of the boundaries `block_start(0..=n)` that lies after `now`, and -1
/// where that is the first block's start or where no boundary does (the
/// last block has ended).
pub open spec fn is_active_index(starts: Seq<Option<u32>>, durations: Seq<u32>, now: int, r: int) -> bool {
    let n = starts.len() as int;
    if r >= 0 {
        &&& r < n
        &&& block_start(starts, durations, (r + 1) as nat) > now
        &&& forall|j: nat| j <= r ==> block_start(starts, durations, j) <= now
    } else {
        &&& r == -1
        &&& (forall|j: nat| j <= n ==> block_start(starts, durations, j) <= now) || block_start(
            starts,
            durations,
            0,
        ) > now
    }
}

/// The first field of the blocks that does not read, block by block.
pub open spec fn plan_error(rs: Seq<Routine>) -> Option<ScheduleError>
    decreases rs.len(),
{
    if rs.len() == 0 {
        None
    } else {
        match plan_error(rs.drop_last()) {
            Some(e) => Some(e),
            None => routine_error(rs.last()),
        }
    }
}

pub open spec fn plan_starts(rs: Seq<Routine>) -> Seq<Option<u32>> {
    rs.map_values(|r: Routine| start_of(r))
}

pub open spec fn plan_durations(rs: Seq<Routine>) -> Seq<u32> {
    rs.map_values(|r: Routine| minutes_of(r))
}

/// `h:mm am` or `h:mm pm` on a 12-hour clock.
pub open spec fn clock12_label(hour: nat, minute: nat) -> Seq<char> {
    let h = if hour % 12 == 0 {
        12
    } else {
        hour % 12
    };
    decimal(h).push(':') + decimal2(minute) + (if hour >= 12 {
        " pm"@
    } else {
        " am"@
    })
}

proof fn lemma_block_start_bound(starts: Seq<Option<u32>>, durations: Seq<u32>, i: nat)
    ensures
        0 <= block_start(starts, durations, i) <= (i + 1) * 0x1_0000_0000,
    decreases i,
{
    if !(i < starts.len() && starts[i as int] is Some) && i > 0 {
        lemma_block_start_bound(starts, durations, (i - 1) as nat);
    }
}

/// The block active at `now`, given each block's explicit start and its
/// length in whole minutes; the last block stays active until it ends. -1
/// before the first block starts and after the last one ends.
pub fn active_index(starts: &Vec<Option<u32>>, durations: &Vec<u32>, now: u32) -> (r: i32)
    requires
        starts@.len() == durations@.len(),
        starts@.len() <= i32::MAX,
    ensures
        is_active_index(starts@, durations@, now as int, r as int),
        starts@.len() == 0 ==> r == -1,
{
    let n = starts.len();
    if n == 0 {
        return -1;
    }
    let first = match starts[0] {
        Some(t) => t,
        None => 0,
    };
    let mut cursor = TimeCursor::new(first);
    let mut i: usize = 0;
    while i < n
        invariant
            n == starts@.len() == durations@.len(),
            n <= i32::MAX,
            i <= n,
            i == 0 ==> cursor.cursor == first,
            i > 0 ==> cursor.cursor == block_start(starts@, durations@, (i - 1) as nat)
                + durations@[i - 1] as int,
            first == (match starts@[0] {
                Some(t) => t,
                None => 0u32,
            }),
            cursor.cursor <= now as int + u32::MAX as int,
            forall|j: nat| j < i ==> block_start(starts@, durations@, j) <= now,
        decreases n - i,
    {
        if let Some(t) = starts[i] {
            cursor.set(t);
        }
        assert(cursor.cursor == block_start(starts@, durations@, i as nat));
        if cursor.cursor > now as u64 {
            return i as i32 - 1;
        }
        cursor.add(durations[i]);
        i += 1;
    }
    assert(cursor.cursor == block_start(starts@, durations@, n as nat));
    if cursor.cursor > now as u64 {
        return (n - 1) as i32;
    }
    -1
}

#[derive(Clone, Debug)]
pub struct Plan {
    pub daily_routine: Vec<Routine>,
}

impl Plan {
    /// The plan with every block's start time trimmed and lower-cased.
    pub fn new(data: Plan) -> (r: Plan)
        ensures
            r.daily_routine@.len() == data.daily_routine@.len(),
            forall|i: int|
                0 <= i < r.daily_routine@.len() ==> {
                    let a = #[trigger] r.daily_routine@[i];
                    let b = data.daily_routine@[i];
                    &&& a.name == b.name
                    &&& a.duration == b.duration
                    &&& a.activities == b.activities
                    &&& (a.start is Some <==> b.start is Some)
                    &&& (b.start matches Some(s) ==> a.start->0@ == lower_of(trim(s@)))
                },
    {
        let ghost old_rs = data.daily_routine@;
        let mut rest = data.daily_routine;
        let mut out: Vec<Routine> = Vec::new();
        let ghost n = old_rs.len();
        while rest.len() > 0
            invariant
                n == old_rs.len(),
                out@.len() + rest@.len() == n,
                rest@ == old_rs.subrange(out@.len() as int, n as int),
                forall|i: int|
                    0 <= i < out@.len() ==> {
                        let a = #[trigger] out@[i];
                        let b = old_rs[i];
                        &&& a.name == b.name
                        &&& a.duration == b.duration
                        &&& a.activities == b.activities
                        &&& (a.start is Some <==> b.start is Some)
                        &&& (b.start matches Some(s) ==> a.start->0@ == lower_of(trim(s@)))
                    },
            decreases rest@.len(),
        {
            let ghost k = out@.len();
            let ghost before = rest@;
            assert(before[0] == old_rs[k as int]);
            let r = rest.remove(0);
            assert(rest@ =~= before.subrange(1, before.len() as int));
            out.push(Routine::new(r));
            assert(rest@ =~= old_rs.subrange(out@.len() as int, n as int));
        }
        Plan { daily_routine: out }
    }

    pub fn routines(&self) -> (r: &[Routine])
        ensures
            r@ == self.daily_routine@,
    {
        self.daily_routine.as_slice()
    }

    /// Each block's explicit start and whole minutes, or the first field
    /// that does not read.
    fn block_times(&self) -> (r: Result<(Vec<Option<u32>>, Vec<u32>), ScheduleError>)
        ensures
            plan_error(self.daily_routine@) matches Some(e) ==> r == Err::<
                (Vec<Option<u32>>, Vec<u32>),
                ScheduleError,
            >(e),
            plan_error(self.daily_routine@) is None ==> (r matches Ok(t) && t.0@ == plan_starts(
                self.daily_routine@,
            ) && t.1@ == plan_durations(self.daily_routine@)),
    {
        let rs = &self.daily_routine;
        let mut starts: Vec<Option<u32>> = Vec::new();
        let mut durations: Vec<u32> = Vec::new();
        let mut i: usize = 0;
        while i < rs.len()
            invariant
                rs@ == self.daily_routine@,
                i <= rs@.len(),
                plan_error(rs@.subrange(0, i as int)) is None,
                starts@ == plan_starts(rs@.subrange(0, i as int)),
                durations@ == plan_durations(rs@.subrange(0, i as int)),
            decreases rs@.len() - i,
        {
            let ghost pre = rs@.subrange(0, i as int);
            let ghost next = rs@.subrange(0, i + 1);
            assert(next.drop_last() =~= pre);
            assert(next.last() == rs@[i as int]);
            assert(plan_error(next) == routine_error(rs@[i as int]));
            let s = match rs[i].start_minutes() {
                Ok(s) => s,
                Err(e) => {
                    assert(routine_error(rs@[i as int]) == Some(e));
                    proof {
                        lemma_plan_error_prefix(rs@, (i + 1) as nat);
                    }
                    return Err(e);
                },
            };
            let d = match rs[i].duration_minutes() {
                Ok(d) => d,
                Err(e) => {
                    assert(routine_error(rs@[i as int]) == Some(e));
                    proof {
                        lemma_plan_error_prefix(rs@, (i + 1) as nat);
                    }
                    return Err(e);
                },
            };
            starts.push(s);
            durations.push(d);
            i += 1;
            assert(starts@ =~= plan_starts(next));
            assert(durations@ =~= plan_durations(next));
        }
        assert(rs@.subrange(0, i as int) =~= rs@);
        Ok((starts, durations))
    }

    /// The index of the block active at minute `now`; the last block stays
    /// active until it ends. -1 before the first block starts and after the
    /// last one ends.
    pub fn activity_index_at(&self, now: u32) -> (r: Result<i32, ScheduleError>)
        requires
            self.daily_routine@.len() <= i32::MAX,
        ensures
            plan_error(self.daily_routine@) matches Some(e) ==> r == Err::<i32, ScheduleError>(e),
            plan_error(self.daily_routine@) is None ==> (r matches Ok(i) && is_active_index(
                plan_starts(self.daily_routine@),
                plan_durations(self.daily_routine@),
                now as int,
                i as int,
            )),
            self.daily_routine@.len() == 0 ==> r == Ok::<i32, ScheduleError>(-1i32),
    {
        match self.block_times() {
            Ok((starts, durations)) => Ok(active_index(&starts, &durations, now)),
            Err(e) => Err(e),
        }
    }

    /// Where each block starts, in minutes since midnight.
    pub fn block_starts(&self) -> (r: Result<Vec<u64>, ScheduleError>)
        requires
            self.daily_routine@.len() <= i32::MAX,
        ensures
            plan_error(self.daily_routine@) matches Some(e) ==> r == Err::<Vec<u64>, ScheduleError>(e),
            plan_error(self.daily_routine@) is None ==> (r matches Ok(v) && v@.len()
                == self.daily_routine@.len() && forall|i: int|
                0 <= i < v@.len() ==> #[trigger] v@[i] == block_start(
                    plan_starts(self.daily_routine@),
                    plan_durations(self.daily_routine@),
                    i as nat,
                )),
    {
        let (starts, durations) = match self.block_times() {
            Ok(t) => t,
            Err(e) => return Err(e),
        };
        let n = starts.len();
        let mut out: Vec<u64> = Vec::new();
        let mut cursor = TimeCursor::new(0);
        let mut i: usize = 0;
        while i < n
            invariant
                n == starts@.len() == durations@.len() == self.daily_routine@.len(),
                n <= i32::MAX,
                i <= n,
                i == 0 ==> cursor.cursor == 0,
                i > 0 ==> cursor.cursor == block_start(starts@, durations@, (i - 1) as nat)
                    + durations@[i - 1] as int,
                out@.len() == i,
                forall|j: int| 0 <= j < i ==> #[trigger] out@[j] == block_start(starts@, durations@, j as nat),
            decreases n - i,
        {
            if let Some(t) = starts[i] {
                cursor.set(t);
            }
            proof {
                lemma_block_start_bound(starts@, durations@, i as nat);
            }
            assert(cursor.cursor == block_start(starts@, durations@, i as nat));
            out.push(cursor.cursor);
            cursor.add(durations[i]);
            i += 1;
        }
        Ok(out)
    }

    /// Today's day of the week, on the local clock.
    pub fn current_day_of_week(&self) -> (r: DayOfWeek)
        ensures
            exists|i: nat| i < 7 && r == day_from_monday(i),
    {
        DayOfWeek::from_monday(local_weekday())
    }

    /// The English name of today, on the local clock.
    pub fn current_day_of_week_pretty(&self) -> (r: String)
        ensures
            exists|i: nat| i < 7 && r@ == day_name_of(day_from_monday(i)),
    {
        self.current_day_of_week().name()
    }

    /// The minutes since midnight now, on the local clock.
    pub fn current_time_mins(&self) -> (r: u32)
        ensures
            r < 1440,
    {
        let (h, m) = local_hour_minute();
        minutes_of_day(h, m)
    }

    /// The time now on a 12-hour clock, as `h:mm am`.
    pub fn current_time_pretty(&self) -> (r: String)
        ensures
            exists|h: nat, m: nat| h < 24 && m < 60 && r@ == clock12_label(h, m),
    {
        let (h, m) = local_hour_minute();
        format_time_12h(h, m)
    }

    /// The index of the block active now, on the local clock, as
    /// `activity_index_at` gives it.
    pub fn current_activity_index(&self) -> (r: Result<i32, ScheduleError>)
        requires
            self.daily_routine@.len() <= i32::MAX,
        ensures
            plan_error(self.daily_routine@) matches Some(e) ==> r == Err::<i32, ScheduleError>(e),
            plan_error(self.daily_routine@) is None ==> (r matches Ok(i) && exists|now: int|
                0 <= now < 1440 && is_active_index(
                    plan_starts(self.daily_routine@),
                    plan_durations(self.daily_routine@),
                    now,
                    i as int,
                )),
    {
        let now = self.current_time_mins();
        self.activity_index_at(now)
    }
}

proof fn lemma_plan_error_prefix(rs: Seq<Routine>, k: nat)
    requires
        k <= rs.len(),
        plan_error(rs.subrange(0, k - 1)) is None,
        k >= 1,
    ensures
        plan_error(rs.subrange(0, k as int)) is Some ==> plan_error(rs) == plan_error(
            rs.subrange(0, k as int),
        ),
    decreases rs.len(),
{
    if plan_error(rs.subrange(0, k as int)) is Some {
        if k < rs.len() {
            assert(rs.drop_last().subrange(0, k as int) =~= rs.subrange(0, k as int));
            assert(rs.drop_last().subrange(0, k - 1) =~= rs.subrange(0, k - 1));
            lemma_plan_error_prefix(rs.drop_last(), k);
        } else {
            assert(rs.subrange(0, k as int) =~= rs);
        }
    }
}

/// The minutes since midnight at `hour:minute`.
pub fn minutes_of_day(hour: u32, minute: u32) -> (r: u32)
    requires
        hour < 24,
        minute < 60,
    ensures
        r == hour * 60 + minute,
{
    hour * 60 + minute
}

/// `h:mm am` or `h:mm pm` on a 12-hour clock.
pub fn format_time_12h(hour: u32, minute: u32) -> (r: String)
    requires
        hour < 24,
        minute < 60,
    ensures
        r@ == clock12_label(hour as nat, minute as nat),
{
    let h = if hour % 12 == 0 {
        12
    } else {
        hour % 12
    };
    let mut s = String::new();
    push_decimal(&mut s, h as u64);
    s.append(colon_str());
    push_decimal2(&mut s, minute as u64);
    if hour >= 12 {
        s.append(" pm");
    } else {
        s.append(" am");
    }
    proof {
        reveal_strlit(":");
    }
    assert(s@ =~= clock12_label(hour as nat, minute as nat));
    s
}

} // verus!
