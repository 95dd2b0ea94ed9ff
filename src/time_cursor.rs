//! A running clock in minutes since midnight, moved block by block.
use vstd::prelude::*;
use crate::text::{decimal2, push_decimal2};

verus! {

/// Minutes left of a block of `duration` minutes that started at `cursor`,
/// at minute `now`: the elapsed time and the result are both at least 0.
pub open spec fn remaining(cursor: int, now: int, duration: int) -> int {
    let elapsed = if now > cursor {
        now - cursor
    } else {
        0
    };
    if duration > elapsed {
        duration - elapsed
    } else {
        0
    }
}

/// `HH:MM` for a minute count, on a 24-hour clock with zero padding.
pub open spec fn clock_label(minutes: nat) -> Seq<char> {
    decimal2(minutes / 60).push(':') + decimal2(minutes % 60)
}

/// The cursor is a `u64`: moving it past a block of up to `u32::MAX`
/// minutes from any minute it can hold during a traversal cannot overflow.
#[derive(Clone, Copy, Debug)]
pub struct TimeCursor {
    pub cursor: u64,
}

impl TimeCursor {
    pub fn new(start: u32) -> (r: TimeCursor)
        ensures
            r.cursor == start,
    {
        TimeCursor { cursor: start as u64 }
    }

    /// Jumps to `minutes`, forward or backward.
    pub fn set(&mut self, minutes: u32)
        ensures
            final(self).cursor == minutes,
    {
        self.cursor = minutes as u64;
    }

    /// Moves forward by `duration` minutes.
    pub fn add(&mut self, duration: u32)
        requires
            old(self).cursor + duration <= u64::MAX,
        ensures
            final(self).cursor == old(self).cursor + duration,
    {
        self.cursor = self.cursor + duration as u64;
    }

    /// Minutes left at `now` of a block of `duration` minutes that starts at
    /// the cursor; never below 0.
    pub fn minutes_remaining(&self, now: u32, duration: u32) -> (r: u32)
        ensures
            r == remaining(self.cursor as int, now as int, duration as int),
            r <= duration,
    {
        let elapsed: u64 = if now as u64 > self.cursor {
            now as u64 - self.cursor
        } else {
            0
        };
        if duration as u64 > elapsed {
            (duration as u64 - elapsed) as u32
        } else {
            0
        }
    }

    /// The cursor as `HH:MM`.
    pub fn pretty(&self) -> (r: String)
        ensures
            r@ == clock_label(self.cursor as nat),
    {
        let mut s = String::new();
        push_decimal2(&mut s, self.cursor / 60);
        s.append(colon_str());
        push_decimal2(&mut s, self.cursor % 60);
        proof {
            reveal_strlit(":");
        }
        assert(s@ =~= clock_label(self.cursor as nat));
        s
    }
}

pub fn colon_str() -> (r: &'static str)
    ensures
        r@ == ":"@,
{
    ":"
}

} // verus!
