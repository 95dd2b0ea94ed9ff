//! A mapping from day category to an ordered list of activity descriptions,
//! and the rule that picks the activities shown on a given day.
use vstd::prelude::*;
use crate::day_of_week::{DayOfWeek, is_weekend, is_weekday};

verus! {

/// The list filed under `d` in `entries`; a later entry for the same day
/// replaces an earlier one.
pub open spec fn lookup(entries: Seq<(DayOfWeek, Vec<String>)>, d: DayOfWeek) -> Option<
    Seq<String>,
>
    decreases entries.len(),
{
    if entries.len() == 0 {
        None
    } else if entries.last().0 == d {
        Some(entries.last().1@)
    } else {
        lookup(entries.drop_last(), d)
    }
}

/// Activity lists keyed by day category. Filing a list under a day that
/// already has one replaces it: the map holds at most one list per day.
#[derive(Clone, Debug)]
pub struct ActivityMap {
    entries: Vec<(DayOfWeek, Vec<String>)>,
}

impl View for ActivityMap {
    type V = Map<DayOfWeek, Seq<String>>;

    closed spec fn view(&self) -> Map<DayOfWeek, Seq<String>> {
        Map::new(|d: DayOfWeek| lookup(self.entries@, d) is Some, |d: DayOfWeek| lookup(self.entries@, d)->0)
    }
}

/// The list under `d`, or an empty list where `d` has none.
pub open spec fn bucket(m: Map<DayOfWeek, Seq<String>>, d: DayOfWeek) -> Seq<String> {
    if m.contains_key(d) {
        m[d]
    } else {
        Seq::empty()
    }
}

/// The activities shown on `day`: the every-day list, then the weekend list
/// on Saturday and Sunday or the weekday list on Monday to Friday, then the
/// list of `day` itself or, where it has none, the default list.
pub open spec fn resolve_activities(m: Map<DayOfWeek, Seq<String>>, day: DayOfWeek) -> Seq<String> {
    bucket(m, DayOfWeek::Everyday) + (if is_weekend(day) {
        bucket(m, DayOfWeek::Weekends)
    } else {
        Seq::empty()
    }) + (if is_weekday(day) {
        bucket(m, DayOfWeek::Weekdays)
    } else {
        Seq::empty()
    }) + (if m.contains_key(day) {
        m[day]
    } else {
        bucket(m, DayOfWeek::Default)
    })
}

proof fn lemma_lookup_push(entries: Seq<(DayOfWeek, Vec<String>)>, e: (DayOfWeek, Vec<String>), d: DayOfWeek)
    ensures
        lookup(entries.push(e), d) == (if e.0 == d { Some(e.1@) } else { lookup(entries, d) }),
{
    assert(entries.push(e).drop_last() =~= entries);
}

fn append_all(out: &mut Vec<String>, items: &Vec<String>)
    ensures
        final(out)@ == old(out)@ + items@,
{
    let mut i: usize = 0;
    while i < items.len()
        invariant
            i <= items@.len(),
            out@ == old(out)@ + items@.subrange(0, i as int),
        decreases items@.len() - i,
    {
        out.push(items[i].clone());
        i += 1;
        assert(out@ =~= old(out)@ + items@.subrange(0, i as int));
    }
    assert(items@.subrange(0, i as int) =~= items@);
}

impl ActivityMap {
    /// A map with no entries.
    pub fn new() -> (r: ActivityMap)
        ensures
            r@ == Map::<DayOfWeek, Seq<String>>::empty(),
    {
        let r = ActivityMap { entries: Vec::new() };
        assert(r@ =~= Map::<DayOfWeek, Seq<String>>::empty());
        r
    }

    /// Files `items` under `day`, replacing what was there.
    pub fn insert(&mut self, day: DayOfWeek, items: Vec<String>)
        ensures
            final(self)@ == old(self)@.insert(day, items@),
    {
        let ghost before = self.entries@;
        self.entries.push((day, items));
        proof {
            assert forall|d: DayOfWeek| #[trigger] lookup(self.entries@, d) == (if day == d {
                Some(items@)
            } else {
                lookup(before, d)
            }) by {
                lemma_lookup_push(before, (day, items), d);
            }
        }
        assert(self@ =~= old(self)@.insert(day, items@));
    }

    /// The list filed under `day`, if any.
    pub fn get(&self, day: DayOfWeek) -> (r: Option<&Vec<String>>)
        ensures
            r is Some <==> self@.contains_key(day),
            r is Some ==> r->0@ == self@[day],
    {
        let mut i: usize = self.entries.len();
        assert(self.entries@.subrange(0, i as int) =~= self.entries@);
        while i > 0
            invariant
                i <= self.entries@.len(),
                lookup(self.entries@, day) == lookup(self.entries@.subrange(0, i as int), day),
            decreases i,
        {
            assert(self.entries@.subrange(0, i as int).drop_last() =~= self.entries@.subrange(
                0,
                i - 1,
            ));
            if self.entries[i - 1].0 == day {
                return Some(&self.entries[i - 1].1);
            }
            i -= 1;
        }
        None
    }

    /// The activities shown on `day`.
    pub fn resolve(&self, day: DayOfWeek) -> (r: Vec<String>)
        ensures
            r@ == resolve_activities(self@, day),
    {
        let mut out: Vec<String> = Vec::new();
        if let Some(v) = self.get(DayOfWeek::Everyday) {
            append_all(&mut out, v);
        }
        assert(out@ =~= bucket(self@, DayOfWeek::Everyday));
        let ghost a = out@;
        if day.is_weekend() {
            if let Some(v) = self.get(DayOfWeek::Weekends) {
                append_all(&mut out, v);
            }
        }
        let ghost b = out@;
        assert(b =~= a + (if is_weekend(day) {
            bucket(self@, DayOfWeek::Weekends)
        } else {
            Seq::empty()
        }));
        if day.is_weekday() {
            if let Some(v) = self.get(DayOfWeek::Weekdays) {
                append_all(&mut out, v);
            }
        }
        let ghost c = out@;
        assert(c =~= b + (if is_weekday(day) {
            bucket(self@, DayOfWeek::Weekdays)
        } else {
            Seq::empty()
        }));
        if let Some(v) = self.get(day) {
            append_all(&mut out, v);
        } else if let Some(v) = self.get(DayOfWeek::Default) {
            append_all(&mut out, v);
        }
        assert(out@ =~= resolve_activities(self@, day));
        out
    }
}

} // verus!
