//! Start times such as "9:00 am", "930" or "21:00": their grammar and their
//! value in minutes since midnight.
use vstd::prelude::*;
use crate::text::{
    is_digit, digits_value, trim, trim_end, chars_of, trim_bounds, is_white_char, is_digit_char,
    digit_value, sub_chars,
};

verus! {

/// `c` is the letter `l` (given in lower case), in either case.
pub open spec fn is_letter(c: char, l: char) -> bool {
    c == l || c as u32 + 32 == l as u32
}

/// 1 where `t` ends with "am", 2 where it ends with "pm", in either case,
/// and 0 otherwise.
pub open spec fn meridiem(t: Seq<char>) -> int {
    if t.len() >= 2 && is_letter(t.last(), 'm') && is_letter(t[t.len() - 2], 'a') {
        1
    } else if t.len() >= 2 && is_letter(t.last(), 'm') && is_letter(t[t.len() - 2], 'p') {
        2
    } else {
        0
    }
}

/// What precedes the optional "am"/"pm" and the white space before it.
pub open spec fn clock_part(t: Seq<char>) -> Seq<char> {
    if meridiem(t) == 0 {
        t
    } else {
        trim_end(t.subrange(0, t.len() - 2))
    }
}

pub open spec fn digits_between(r: Seq<char>, a: int, b: int) -> bool {
    forall|k: int| a <= k < b ==> is_digit(#[trigger] r[k])
}

/// The position of the colon in `h:mm`, `hh:mm`, `h:` or `hh:`.
pub open spec fn colon_pos(r: Seq<char>) -> int {
    if r.len() > 1 && r[1] == ':' {
        1
    } else {
        2
    }
}

/// The hour and minute that a clock part gives: one or two digits of hour,
/// then, with or without a colon between, an optional two digits of minute.
/// Without a colon, three digits are `h` and `mm`, four are `hh` and `mm`.
pub open spec fn clock_fields(r: Seq<char>) -> Option<(nat, nat)> {
    let n = r.len() as int;
    let c = colon_pos(r);
    if 1 <= n <= 4 && digits_between(r, 0, n) {
        if n <= 2 {
            Some((digits_value(r), 0))
        } else {
            Some((digits_value(r.subrange(0, n - 2)), digits_value(r.subrange(n - 2, n))))
        }
    } else if c < n && r[c] == ':' && digits_between(r, 0, c) && (n == c + 1 || (n == c + 3
        && digits_between(r, c + 1, n))) {
        Some((digits_value(r.subrange(0, c)), digits_value(r.subrange(c + 1, n))))
    } else {
        None
    }
}

/// The hour on a 24-hour clock: "pm" adds 12 to an hour below 12, "am"
/// makes 12 into 0; without either the hour stands as given.
pub open spec fn hour24(hour: nat, m: int) -> nat {
    if m == 2 && hour < 12 {
        hour + 12
    } else if m == 1 && hour == 12 {
        0
    } else {
        hour
    }
}

/// The minutes since midnight that a start time gives, after trimming; the
/// letters of "am" and "pm" are matched in either case.
pub open spec fn start_time_value(s: Seq<char>) -> Option<nat> {
    let t = trim(s);
    match clock_fields(clock_part(t)) {
        Some(f) => Some(hour24(f.0, meridiem(t)) * 60 + f.1),
        None => None,
    }
}

fn letter_is(c: char, l: char) -> (r: bool)
    requires
        'a' <= l <= 'z',
    ensures
        r == is_letter(c, l),
{
    c == l || c as u32 + 32 == l as u32
}

fn digits_in(r: &Vec<char>, a: usize, b: usize) -> (ok: bool)
    requires
        a <= b <= r@.len(),
    ensures
        ok == digits_between(r@, a as int, b as int),
{
    let mut i = a;
    while i < b
        invariant
            a <= i <= b <= r@.len(),
            digits_between(r@, a as int, i as int),
        decreases b - i,
    {
        if !is_digit_char(r[i]) {
            return false;
        }
        i += 1;
    }
    true
}

/// The value of one or two digits, or of none.
fn small_value(r: &Vec<char>, a: usize, b: usize) -> (v: u32)
    requires
        a <= b <= r@.len(),
        b - a <= 2,
        digits_between(r@, a as int, b as int),
    ensures
        v == digits_value(r@.subrange(a as int, b as int)),
        v < 100,
{
    let ghost s = r@.subrange(a as int, b as int);
    proof {
        reveal_with_fuel(digits_value, 3);
    }
    if b == a {
        0
    } else if b == a + 1 {
        assert(s.drop_last() =~= Seq::<char>::empty());
        digit_value(r[a])
    } else {
        assert(s.drop_last().drop_last() =~= Seq::<char>::empty());
        assert(s.drop_last().last() == r@[a as int]);
        digit_value(r[a]) * 10 + digit_value(r[a + 1])
    }
}

fn clock_fields_exec(r: &Vec<char>) -> (f: Option<(u32, u32)>)
    ensures
        match clock_fields(r@) {
            Some(g) => f matches Some(p) && p.0 as nat == g.0 && p.1 as nat == g.1,
            None => f is None,
        },
        f matches Some(p) ==> p.0 < 100 && p.1 < 100,
{
    let n = r.len();
    let c: usize = if n > 1 && r[1] == ':' {
        1
    } else {
        2
    };
    if 1 <= n && n <= 4 && digits_in(r, 0, n) {
        assert(r@.subrange(0, n as int) =~= r@);
        if n <= 2 {
            Some((small_value(r, 0, n), 0))
        } else {
            Some((small_value(r, 0, n - 2), small_value(r, n - 2, n)))
        }
    } else if c < n && r[c] == ':' && digits_in(r, 0, c) && (n == c + 1 || (n == c + 3
        && digits_in(r, c + 1, n))) {
        Some((small_value(r, 0, c), small_value(r, c + 1, n)))
    } else {
        None
    }
}

/// Reads a start time into minutes since midnight.
pub fn parse_start_time(s: &str) -> (r: Option<u32>)
    ensures
        match start_time_value(s@) {
            Some(v) => r == Some(v as u32),
            None => r is None,
        },
{
    let cs = chars_of(s);
    let (lo, hi) = trim_bounds(&cs);
    let t = sub_chars(&cs, lo, hi);
    let tl = t.len();
    let kind: u32 = if tl >= 2 && letter_is(t[tl - 1], 'm') && letter_is(t[tl - 2], 'a') {
        1
    } else if tl >= 2 && letter_is(t[tl - 1], 'm') && letter_is(t[tl - 2], 'p') {
        2
    } else {
        0
    };
    assert(kind == meridiem(t@));
    let mut e: usize = tl;
    if kind != 0 {
        e = tl - 2;
        while e > 0 && is_white_char(t[e - 1])
            invariant
                e <= tl - 2,
                tl == t@.len(),
                trim_end(t@.subrange(0, e as int)) == clock_part(t@),
            decreases e,
        {
            assert(t@.subrange(0, e as int).drop_last() =~= t@.subrange(0, e - 1));
            e -= 1;
        }
        assert(trim_end(t@.subrange(0, e as int)) == t@.subrange(0, e as int));
    } else {
        assert(t@.subrange(0, e as int) =~= t@);
    }
    let part = sub_chars(&t, 0, e);
    assert(part@ == clock_part(t@));
    assert(t@ == trim(s@));
    match clock_fields_exec(&part) {
        Some((hour, minute)) => {
            let h = if kind == 2 && hour < 12 {
                hour + 12
            } else if kind == 1 && hour == 12 {
                0
            } else {
                hour
            };
            assert(h == hour24(hour as nat, kind as int));
            assert(start_time_value(s@) == Some((h * 60 + minute) as nat));
            Some(h * 60 + minute)
        },
        None => {
            assert(start_time_value(s@) is None);
            None
        },
    }
}

} // verus!
