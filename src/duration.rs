//! Durations such as "45m" or "1.5h": their grammar, their exact value in
//! minutes, and the short label they are shown with.
use vstd::prelude::*;
use crate::text::{
    is_digit, digits_value, digit_of, trim_end, decimal, chars_of, is_white_char, is_digit_char,
    digit_value, push_decimal, sub_chars,
};
use vstd::arithmetic::div_mod::{
    lemma_fundamental_div_mod, lemma_fundamental_div_mod_converse,
    lemma_mod_pos_bound,
};

verus! {

pub open spec fn pow10(n: nat) -> nat
    decreases n,
{
    if n == 0 {
        1
    } else {
        10 * pow10((n - 1) as nat)
    }
}

pub open spec fn all_digits(n: Seq<char>) -> bool {
    forall|k: int| 0 <= k < n.len() ==> is_digit(#[trigger] n[k])
}

/// `n` is digits with a decimal point at `p` that has digits on both sides.
pub open spec fn dot_at(n: Seq<char>, p: int) -> bool {
    &&& 0 < p < n.len() - 1
    &&& n[p] == '.'
    &&& forall|k: int| 0 <= k < n.len() && k != p ==> is_digit(#[trigger] n[k])
}

/// `n` is `<digits>` or `<digits>.<digits>`.
pub open spec fn is_numeral(n: Seq<char>) -> bool {
    (n.len() > 0 && all_digits(n)) || exists|p: int| dot_at(n, p)
}

/// The digits before the decimal point.
pub open spec fn int_part(n: Seq<char>) -> Seq<char> {
    if exists|p: int| dot_at(n, p) {
        n.take(choose|p: int| dot_at(n, p))
    } else {
        n
    }
}

/// The digits after the decimal point.
pub open spec fn frac_part(n: Seq<char>) -> Seq<char> {
    if exists|p: int| dot_at(n, p) {
        n.skip((choose|p: int| dot_at(n, p)) + 1)
    } else {
        Seq::empty()
    }
}


/// A duration string without the white space that may follow its unit.
pub open spec fn duration_text(s: Seq<char>) -> Seq<char> {
    trim_end(s)
}

/// The number of a duration string: what stands before the unit, without
/// the white space that may separate the two.
pub open spec fn duration_number(s: Seq<char>) -> Seq<char> {
    trim_end(duration_text(s).drop_last())
}

pub open spec fn unit_factor(u: char) -> nat {
    if u == 'h' {
        60
    } else {
        1
    }
}

/// A duration string is a numeral, optional white space, the unit `m`
/// (minutes) or `h` (hours), and optional white space.
pub open spec fn duration_accepted(s: Seq<char>) -> bool {
    let t = duration_text(s);
    &&& t.len() > 0
    &&& (t.last() == 'm' || t.last() == 'h')
    &&& is_numeral(duration_number(s))
}

/// The value of an accepted duration string in minutes, as a number of
/// units of `10^-decimals` minutes: `(scaled, decimals)`.
pub open spec fn duration_value(s: Seq<char>) -> (nat, nat) {
    let n = duration_number(s);
    (
        digits_value(int_part(n) + frac_part(n)) * unit_factor(duration_text(s).last()),
        frac_part(n).len(),
    )
}

/// An exact duration: the digits of a numeral before and after its decimal
/// point, in hours or in minutes.
#[derive(Clone, Debug, PartialEq, Eq)]
pub struct Duration {
    pub int_digits: Vec<char>,
    pub frac_digits: Vec<char>,
    pub hours: bool,
}

impl Duration {
    pub open spec fn wf(&self) -> bool {
        all_digits(self.int_digits@) && all_digits(self.frac_digits@)
    }

    /// The duration in units of `10^-decimals()` minutes.
    pub open spec fn scaled(&self) -> nat {
        digits_value(self.int_digits@ + self.frac_digits@) * (if self.hours {
            60nat
        } else {
            1nat
        })
    }

    pub open spec fn decimals(&self) -> nat {
        self.frac_digits@.len()
    }
}

pub open spec fn min_u32(n: nat) -> nat {
    if n > u32::MAX {
        u32::MAX as nat
    } else {
        n
    }
}

/// The short label of a duration, where it can be written exactly.
#[derive(Clone, Debug, PartialEq, Eq)]
pub enum DurationLabel {
    /// The label itself.
    Text(String),
    /// The duration is above 90 minutes and not whole hours: its label is
    /// the hours written with one decimal, as floating-point formatting
    /// writes them.
    OneDecimalHours,
}

/// The label of `scaled / 10^decimals` minutes: up to 90 minutes the whole
/// minutes and "m"; above that, for whole hours, the hours (at most
/// `u32::MAX`) and "h". `None` for more than 90 minutes that are not whole
/// hours, which are written with one decimal of hours.
pub open spec fn render_minutes(scaled: nat, decimals: nat) -> Option<Seq<char>> {
    let p = pow10(decimals);
    if scaled <= 90 * p {
        Some(decimal(scaled / p).push('m'))
    } else if scaled % (60 * p) == 0 {
        Some(decimal(min_u32(scaled / (60 * p))).push('h'))
    } else {
        None
    }
}

/// The whole part of the numeral's value is kept exactly up to this bound,
/// which is beyond every whole-minute and whole-hour count that is shown.
pub const SATURATION: u64 = 1000000000000000;

pub open spec fn saturated(v: nat) -> nat {
    if v < SATURATION {
        v
    } else {
        SATURATION as nat
    }
}

proof fn lemma_pow10_mono(a: nat, b: nat)
    requires
        a <= b,
    ensures
        1 <= pow10(a) <= pow10(b),
    decreases b,
{
    if b > a {
        lemma_pow10_mono(a, (b - 1) as nat);
    } else if a > 0 {
        lemma_pow10_mono((a - 1) as nat, (a - 1) as nat);
    }
}

proof fn lemma_digits_value_bound(s: Seq<char>)
    requires
        all_digits(s),
    ensures
        digits_value(s) < pow10(s.len()),
    decreases s.len(),
{
    if s.len() > 0 {
        let t = s.drop_last();
        assert(all_digits(t)) by {
            assert forall|k: int| 0 <= k < t.len() implies is_digit(#[trigger] t[k]) by {
                assert(t[k] == s[k]);
            }
        }
        lemma_digits_value_bound(t);
        assert(is_digit(s[s.len() - 1]));
        let v = digits_value(t);
        let d = digit_of(s.last());
        let p = pow10(t.len());
        assert(v * 10 + d < 10 * p) by (nonlinear_arith)
            requires
                v < p,
                d < 10,
        ;
    }
}

proof fn lemma_value_concat(a: Seq<char>, b: Seq<char>)
    ensures
        digits_value(a + b) == digits_value(a) * pow10(b.len()) + digits_value(b),
    decreases b.len(),
{
    if b.len() == 0 {
        assert(a + b =~= a);
        assert(pow10(0) == 1);
        assert(digits_value(b) == 0);
        assert(digits_value(a) * 1 == digits_value(a));
    } else {
        let b1 = b.drop_last();
        lemma_value_concat(a, b1);
        assert((a + b).drop_last() =~= a + b1);
        assert((a + b).last() == b.last());
        let va = digits_value(a);
        let pp = pow10(b1.len());
        let vb1 = digits_value(b1);
        assert(pow10(b.len()) == 10 * pp);
        assert(digits_value(a + b) == digits_value(a + b1) * 10 + digit_of(b.last()));
        assert(digits_value(b) == vb1 * 10 + digit_of(b.last()));
        assert((va * pp + vb1) * 10 == va * (10 * pp) + vb1 * 10) by (nonlinear_arith);
        assert(digits_value(a + b) == va * pow10(b.len()) + digits_value(b));
    }
}

/// Reads a duration string.
pub fn parse_duration(s: &str) -> (r: Option<Duration>)
    ensures
        r is Some <==> duration_accepted(s@),
        r matches Some(d) ==> d.wf() && d.scaled() == duration_value(s@).0 && d.decimals()
            == duration_value(s@).1,
{
    let cs = chars_of(s);
    let mut end: usize = cs.len();
    assert(cs@.subrange(0, end as int) =~= cs@);
    while end > 0 && is_white_char(cs[end - 1])
        invariant
            end <= cs@.len(),
            cs@ == s@,
            trim_end(cs@.subrange(0, end as int)) == duration_text(s@),
        decreases end,
    {
        assert(cs@.subrange(0, end as int).drop_last() =~= cs@.subrange(0, end - 1));
        end -= 1;
    }
    assert(trim_end(cs@.subrange(0, end as int)) == cs@.subrange(0, end as int));
    assert(duration_text(s@) == cs@.subrange(0, end as int));
    if end == 0 {
        return None;
    }
    let u = cs[end - 1];
    if u != 'm' && u != 'h' {
        return None;
    }
    let mut hi: usize = end - 1;
    assert(cs@.subrange(0, hi as int) =~= duration_text(s@).drop_last());
    while hi > 0 && is_white_char(cs[hi - 1])
        invariant
            hi < end <= cs@.len(),
            trim_end(cs@.subrange(0, hi as int)) == duration_number(s@),
        decreases hi,
    {
        assert(cs@.subrange(0, hi as int).drop_last() =~= cs@.subrange(0, hi - 1));
        hi -= 1;
    }
    let ghost n = cs@.subrange(0, hi as int);
    assert(duration_number(s@) == n);
    // Find the decimal point, if any, and check that all else is digits.
    let mut dot: usize = hi;
    let mut i: usize = 0;
    while i < hi
        invariant
            i <= hi < end <= cs@.len(),
            n == cs@.subrange(0, hi as int),
            n == duration_number(s@),
            dot == hi || (dot < i && n[dot as int] == '.'),
            forall|k: int| 0 <= k < i && k != dot ==> is_digit(#[trigger] n[k]),
        decreases hi - i,
    {
        let c = cs[i];
        assert(n[i as int] == c);
        if c == '.' && dot == hi {
            dot = i;
        } else if !is_digit_char(c) {
            assert(!is_numeral(n)) by {
                assert(!is_digit(n[i as int]));
                assert(!all_digits(n));
                if exists|p: int| dot_at(n, p) {
                    let p = choose|p: int| dot_at(n, p);
                    if p != i {
                        assert(is_digit(n[i as int]));
                    }
                    if dot != hi && dot != p {
                        assert(is_digit(n[dot as int]));
                    }
                }
            }
            assert(!duration_accepted(s@));
            return None;
        }
        i += 1;
    }
    if hi == 0 || (dot < hi && (dot == 0 || dot + 1 == hi)) {
        assert(!is_numeral(n)) by {
            if exists|p: int| dot_at(n, p) {
                let p = choose|p: int| dot_at(n, p);
                if dot != p {
                    assert(is_digit(n[dot as int]));
                }
            }
        }
        return None;
    }
    let ghost whole = int_part(n);
    let ghost frac = frac_part(n);
    proof {
        if dot < hi {
            assert(dot_at(n, dot as int));
            let p = choose|p: int| dot_at(n, p);
            if p != dot {
                assert(is_digit(n[p]));
            }
            assert(whole =~= cs@.subrange(0, dot as int));
            assert(frac =~= cs@.subrange(dot + 1, hi as int));
        } else {
            assert(all_digits(n));
            assert forall|p: int| !dot_at(n, p) by {
                if 0 <= p < n.len() {
                    assert(is_digit(n[p]));
                }
            }
            assert(whole == n);
            assert(frac =~= Seq::<char>::empty());
        }
    }
    let wend: usize = if dot < hi {
        dot
    } else {
        hi
    };
    let int_digits = sub_chars(&cs, 0, wend);
    let frac_digits = if dot < hi {
        sub_chars(&cs, dot + 1, hi)
    } else {
        Vec::new()
    };
    assert(int_digits@ =~= whole);
    assert(frac_digits@ =~= frac);
    assert(all_digits(int_digits@)) by {
        assert forall|k: int| 0 <= k < int_digits@.len() implies is_digit(
            #[trigger] int_digits@[k],
        ) by {
            assert(int_digits@[k] == n[k]);
        }
    }
    assert(all_digits(frac_digits@)) by {
        assert forall|k: int| 0 <= k < frac_digits@.len() implies is_digit(
            #[trigger] frac_digits@[k],
        ) by {
            assert(frac_digits@[k] == n[dot + 1 + k]);
        }
    }
    let d = Duration { int_digits, frac_digits, hours: u == 'h' };
    assert(duration_text(s@).last() == u);
    Some(d)
}

/// A number directly followed by `h` is that many hours, and directly
/// followed by `m` that many minutes: for every numeral `n`, "<n>h" reads as
/// 60 times `n` minutes and "<n>m" as `n` minutes, both counted in units of
/// `n`'s last decimal place.
pub proof fn law_duration_units(n: Seq<char>)
    requires
        is_numeral(n),
    ensures
        duration_accepted(n.push('h')),
        duration_accepted(n.push('m')),
        duration_value(n.push('h')) == (numeral_scaled(n) * 60, frac_part(n).len()),
        duration_value(n.push('m')) == (numeral_scaled(n), frac_part(n).len()),
{
    assert(is_digit(n.last())) by {
        if !(n.len() > 0 && all_digits(n)) {
            let p = choose|p: int| dot_at(n, p);
            assert(n.len() - 1 != p);
        }
    }
    assert(trim_end(n) == n);
    assert(trim_end(n.push('h')) == n.push('h'));
    assert(trim_end(n.push('m')) == n.push('m'));
    assert(n.push('h').drop_last() =~= n);
    assert(n.push('m').drop_last() =~= n);
    assert(duration_text(n.push('m')).last() == 'm');
    assert(unit_factor('m') == 1);
    assert(numeral_scaled(n) * 1 == numeral_scaled(n));
}

/// The value of a numeral in units of its last decimal place: 1.5 gives 15.
pub open spec fn numeral_scaled(n: Seq<char>) -> nat {
    digits_value(int_part(n) + frac_part(n))
}

/// The integer part saturated at `SATURATION`, and its remainder mod 60.
fn int_info(ds: &Vec<char>) -> (r: (u64, u64))
    requires
        all_digits(ds@),
    ensures
        r.0 as nat == saturated(digits_value(ds@)),
        r.1 as nat == digits_value(ds@) % 60,
{
    let mut sat: u64 = 0;
    let mut m: u64 = 0;
    let mut i: usize = 0;
    assert(ds@.subrange(0, 0) =~= Seq::<char>::empty());
    while i < ds.len()
        invariant
            i <= ds@.len(),
            all_digits(ds@),
            sat as nat == saturated(digits_value(ds@.subrange(0, i as int))),
            m as nat == digits_value(ds@.subrange(0, i as int)) % 60,
        decreases ds@.len() - i,
    {
        let ghost pre = ds@.subrange(0, i as int);
        let ghost next = ds@.subrange(0, i + 1);
        assert(next.drop_last() =~= pre);
        assert(next.last() == ds@[i as int]);
        assert(is_digit(ds@[i as int]));
        let d = digit_value(ds[i]) as u64;
        let ghost v = digits_value(pre);
        assert(digits_value(next) == v * 10 + d);
        sat = if sat >= SATURATION {
            SATURATION
        } else {
            let x = sat * 10 + d;
            if x > SATURATION {
                SATURATION
            } else {
                x
            }
        };
        proof {
            lemma_fundamental_div_mod(v as int, 60);
            let x = 10 * (v % 60) + d;
            lemma_fundamental_div_mod(x as int, 60);
            lemma_fundamental_div_mod_converse(
                (v * 10 + d) as int,
                60,
                10 * (v / 60) + x / 60,
                x % 60,
            );
        }
        m = (10 * m + d) % 60;
        i += 1;
    }
    assert(ds@.subrange(0, i as int) =~= ds@);
    (sat, m)
}

/// `m` times the value of the fraction `0.<ds>`: its whole part, and whether
/// nothing is left over.
fn frac_info(ds: &Vec<char>, m: u64) -> (r: (u64, bool))
    requires
        all_digits(ds@),
        1 <= m <= 60,
    ensures
        r.0 as int == (m * digits_value(ds@)) as int / pow10(ds@.len()) as int,
        r.1 == ((m * digits_value(ds@)) as int % pow10(ds@.len()) as int == 0),
        r.0 < m,
{
    let n = ds.len();
    let mut j: usize = n;
    let mut c: u64 = 0;
    let mut z: bool = true;
    let ghost mut rem: int = 0;
    assert(ds@.subrange(n as int, n as int) =~= Seq::<char>::empty());
    assert(digits_value(ds@.subrange(n as int, n as int)) == 0);
    assert(pow10(0) == 1);
    assert(m * 0 == 0);
    while j > 0
        invariant
            j <= n == ds@.len(),
            all_digits(ds@),
            1 <= m <= 60,
            c < m,
            pow10((n - j) as nat) >= 1,
            0 <= rem < pow10((n - j) as nat),
            m * digits_value(ds@.subrange(j as int, n as int)) == c * pow10((n - j) as nat) + rem,
            z == (rem == 0),
        decreases j,
    {
        let ghost s = ds@.subrange(j as int, n as int);
        let ghost s2 = ds@.subrange(j - 1, n as int);
        let ghost p = pow10((n - j) as nat);
        assert(s2 =~= seq![ds@[j - 1]] + s);
        assert(is_digit(ds@[j - 1]));
        let d = digit_value(ds[j - 1]) as u64;
        proof {
            lemma_value_concat(seq![ds@[j - 1]], s);
            reveal_with_fuel(digits_value, 2);
            assert(seq![ds@[j - 1]].drop_last() =~= Seq::<char>::empty());
            assert(digits_value(s2) == d * p + digits_value(s));
            assert(m * d <= m * 9) by (nonlinear_arith)
                requires
                    d <= 9,
            ;
            assert(pow10((n - j + 1) as nat) == 10 * p);
        }
        let x = m * d + c;
        let ghost e = x % 10;
        proof {
            let vs = digits_value(s);
            let q = x / 10;
            assert(m * (d * p + vs) == x * p + rem) by (nonlinear_arith)
                requires
                    m * vs == c * p + rem,
                    x == m * d + c,
            ;
            assert(x * p + rem == q * (10 * p) + (e * p + rem)) by (nonlinear_arith)
                requires
                    x == 10 * q + e,
            ;
            assert(0 <= e * p + rem < 10 * p) by (nonlinear_arith)
                requires
                    0 <= e <= 9,
                    0 <= rem < p,
            ;
            assert((e * p + rem == 0) == (e == 0 && rem == 0)) by (nonlinear_arith)
                requires
                    0 <= e,
                    0 <= rem,
                    p >= 1,
            ;
        }
        z = x % 10 == 0 && z;
        c = x / 10;
        proof {
            rem = e * p + rem;
        }
        j -= 1;
    }
    assert(ds@.subrange(0, n as int) =~= ds@);
    proof {
        lemma_fundamental_div_mod_converse(
            (m * digits_value(ds@)) as int,
            pow10(n as nat) as int,
            c as int,
            rem,
        );
    }
    (c, z)
}

proof fn lemma_div_times(x: int, p: int, c: int, r: int)
    requires
        p >= 1,
        x == p * (x / p) + x % p,
        c == x / p,
        r == x % p,
    ensures
        x == c * p + r,
{
    assert(p * (x / p) == (x / p) * p) by (nonlinear_arith);
}

/// The quantities of a duration in minutes `i.f`, with `f = vf / p`.
proof fn lemma_minutes_unit(i: int, vf: int, p: int)
    requires
        p >= 1,
        0 <= vf < p,
        i >= 0,
    ensures
        (i * p + vf) / p == i,
        (i * p + vf <= 90 * p) == (i < 90 || (i == 90 && vf == 0)),
        (i * p + vf) / (60 * p) == i / 60,
        ((i * p + vf) % (60 * p) == 0) == (vf == 0 && i % 60 == 0),
{
    lemma_fundamental_div_mod_converse(i * p + vf, p, i, vf);
    assert(i * p + vf <= 90 * p <==> (i < 90 || (i == 90 && vf == 0))) by (nonlinear_arith)
        requires
            p >= 1,
            0 <= vf < p,
            i >= 0,
    ;
    lemma_fundamental_div_mod(i, 60);
    let r60 = i % 60;
    assert(i * p + vf == (i / 60) * (60 * p) + (r60 * p + vf)) by (nonlinear_arith)
        requires
            i == 60 * (i / 60) + r60,
    ;
    assert(0 <= r60 * p + vf < 60 * p) by (nonlinear_arith)
        requires
            0 <= r60 < 60,
            0 <= vf < p,
    ;
    lemma_fundamental_div_mod_converse(i * p + vf, 60 * p, i / 60, r60 * p + vf);
    assert((r60 * p + vf == 0) == (r60 == 0 && vf == 0)) by (nonlinear_arith)
        requires
            0 <= r60,
            0 <= vf,
            p >= 1,
    ;
}

/// The whole minutes and the whole hours of a duration in hours `i.f`,
/// with `f = vf / p`, from the whole part and remainder of 60 times `f`.
proof fn lemma_hours_unit(i: int, vf: int, p: int, c60: int, r60: int)
    requires
        p >= 1,
        0 <= vf < p,
        i >= 0,
        60 * vf == c60 * p + r60,
        0 <= r60 < p,
    ensures
        (60 * (i * p + vf)) / p == 60 * i + c60,
        (60 * (i * p + vf) <= 90 * p) == (i == 0 || (i == 1 && (c60 < 30 || (c60 == 30 && r60
            == 0)))),
        (60 * (i * p + vf)) / (60 * p) == i,
        ((60 * (i * p + vf)) % (60 * p) == 0) == (c60 == 0 && r60 == 0),
{
    let a = 60 * (i * p + vf);
    assert(a == (60 * i + c60) * p + r60) by (nonlinear_arith)
        requires
            60 * vf == c60 * p + r60,
            a == 60 * (i * p + vf),
    ;
    lemma_fundamental_div_mod_converse(a, p, 60 * i + c60, r60);
    assert(c60 >= 0 && c60 < 60) by (nonlinear_arith)
        requires
            60 * vf == c60 * p + r60,
            0 <= r60 < p,
            0 <= vf < p,
    ;
    assert((a <= 90 * p) == (i == 0 || (i == 1 && (c60 < 30 || (c60 == 30 && r60 == 0)))))
        by (nonlinear_arith)
        requires
            a == (60 * i + c60) * p + r60,
            0 <= r60 < p,
            0 <= c60 < 60,
            i >= 0,
            p >= 1,
    ;
    assert(a == i * (60 * p) + 60 * vf) by (nonlinear_arith)
        requires
            a == 60 * (i * p + vf),
    ;
    assert(0 <= 60 * vf < 60 * p);
    lemma_fundamental_div_mod_converse(a, 60 * p, i, 60 * vf);
    assert((60 * vf == 0) == (c60 == 0 && r60 == 0)) by (nonlinear_arith)
        requires
            60 * vf == c60 * p + r60,
            0 <= r60 < p,
            0 <= vf,
            p >= 1,
    ;
}

fn unit_str(hours: bool) -> (r: &'static str)
    ensures
        r@ == (if hours {
            "h"@
        } else {
            "m"@
        }),
{
    if hours {
        "h"
    } else {
        "m"
    }
}

impl Duration {
    /// The whole minutes, at most `u32::MAX`.
    pub fn whole_minutes(&self) -> (r: u32)
        requires
            self.wf(),
        ensures
            r == min_u32(self.scaled() / pow10(self.decimals())),
    {
        let ghost i = digits_value(self.int_digits@);
        let ghost vf = digits_value(self.frac_digits@);
        let ghost p = pow10(self.decimals());
        proof {
            lemma_value_concat(self.int_digits@, self.frac_digits@);
            lemma_digits_value_bound(self.frac_digits@);
            lemma_pow10_mono(0, self.decimals());
        }
        let (sat, _m60) = int_info(&self.int_digits);
        if !self.hours {
            proof {
                lemma_minutes_unit(i as int, vf as int, p as int);
            }
            if sat > u32::MAX as u64 {
                u32::MAX
            } else {
                sat as u32
            }
        } else {
            let (c60, _z) = frac_info(&self.frac_digits, 60);
            proof {
                lemma_fundamental_div_mod((60 * vf) as int, p as int);
                let r60 = (60 * vf) as int % p as int;
                lemma_mod_pos_bound((60 * vf) as int, p as int);
                lemma_div_times((60 * vf) as int, p as int, c60 as int, r60);
                lemma_hours_unit(i as int, vf as int, p as int, c60 as int, r60);
            }
            if sat > u32::MAX as u64 {
                u32::MAX
            } else {
                let w = sat * 60 + c60;
                if w > u32::MAX as u64 {
                    u32::MAX
                } else {
                    w as u32
                }
            }
        }
    }

    /// The short label of this duration, where it can be written exactly.
    pub fn render(&self) -> (r: DurationLabel)
        requires
            self.wf(),
        ensures
            match render_minutes(self.scaled(), self.decimals()) {
                Some(t) => r matches DurationLabel::Text(s) && s@ == t,
                None => r == DurationLabel::OneDecimalHours,
            },
    {
        let ghost i = digits_value(self.int_digits@);
        let ghost vf = digits_value(self.frac_digits@);
        let ghost p = pow10(self.decimals());
        proof {
            lemma_value_concat(self.int_digits@, self.frac_digits@);
            lemma_digits_value_bound(self.frac_digits@);
            lemma_pow10_mono(0, self.decimals());
            lemma_mod_pos_bound((60 * vf) as int, p as int);
            lemma_fundamental_div_mod((60 * vf) as int, p as int);
        }
        let (sat, m60) = int_info(&self.int_digits);
        let (c60, z60) = frac_info(&self.frac_digits, 60);
        let ghost r60 = (60 * vf) as int % p as int;
        let ghost a = self.scaled();
        proof {
            lemma_div_times((60 * vf) as int, p as int, c60 as int, r60);
        }
        let mut s = String::new();
        if !self.hours {
            proof {
                lemma_minutes_unit(i as int, vf as int, p as int);
                lemma_hours_unit(0, vf as int, p as int, c60 as int, r60);
                assert(a == i * p + vf);
            }
            let fzero = c60 == 0 && z60;
            if sat < 90 || (sat == 90 && fzero) {
                push_decimal(&mut s, sat);
                s.append(unit_str(false));
            } else if fzero && m60 == 0 {
                let h = if sat / 60 >= u32::MAX as u64 {
                    u32::MAX as u64
                } else {
                    sat / 60
                };
                push_decimal(&mut s, h);
                s.append(unit_str(true));
            } else {
                return DurationLabel::OneDecimalHours;
            }
        } else {
            proof {
                lemma_hours_unit(i as int, vf as int, p as int, c60 as int, r60);
                assert(a == 60 * (i * p + vf));
            }
            if sat == 0 || (sat == 1 && (c60 < 30 || (c60 == 30 && z60))) {
                push_decimal(&mut s, sat * 60 + c60);
                s.append(unit_str(false));
            } else if c60 == 0 && z60 {
                let h = if sat >= u32::MAX as u64 {
                    u32::MAX as u64
                } else {
                    sat
                };
                push_decimal(&mut s, h);
                s.append(unit_str(true));
            } else {
                return DurationLabel::OneDecimalHours;
            }
        }
        proof {
            reveal_strlit("m");
            reveal_strlit("h");
        }
        assert(s@ =~= render_minutes(self.scaled(), self.decimals())->0);
        DurationLabel::Text(s)
    }
}

} // verus!
