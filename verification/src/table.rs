//! The table: observations keyed by their date, kept in the order in which
//! they came.

use crate::date::{lemma_key_orders, Date};
use crate::ordered::{
    entries, map_get_index, map_get_index_of, map_insert, map_len, map_new, map_shift_remove,
};
use crate::record::{views, Patch, WeatherData, WeatherView};
use indexmap::IndexMap;
use std::hash::RandomState;
use vstd::prelude::*;

verus! {

/// Why a change to the table was refused.
#[derive(Clone, Copy, Debug, PartialEq, Eq, Structural)]
pub enum StoreError {
    /// The table already holds an observation of that date.
    DuplicateKey,
    /// The table holds no observation of that date.
    NotFound,
}

/// No two observations have the same date.
pub open spec fn distinct_dates(t: Seq<WeatherView>) -> bool {
    forall|i: int, j: int| #![trigger t[i], t[j]] 0 <= i < j < t.len() ==> t[i].date != t[j].date
}

/// Every measurement of every observation is a decimal literal.
pub open spec fn all_sound(t: Seq<WeatherView>) -> bool {
    forall|i: int| 0 <= i < t.len() ==> (#[trigger] t[i]).sound()
}

/// What holds of the content of every table.
pub open spec fn valid_table(t: Seq<WeatherView>) -> bool {
    distinct_dates(t) && all_sound(t)
}

/// Whether some observation has the date `d`.
pub open spec fn holds(t: Seq<WeatherView>, d: Date) -> bool {
    exists|i: int| 0 <= i < t.len() && (#[trigger] t[i]).date == d
}

/// The position of the observation with the date `d`, where there is one.
pub open spec fn place_of(t: Seq<WeatherView>, d: Date) -> int {
    choose|i: int| 0 <= i < t.len() && (#[trigger] t[i]).date == d
}

/// The observations strictly ascend by date.
pub open spec fn is_ascending(t: Seq<WeatherView>) -> bool {
    forall|i: int, j: int|
        #![trigger t[i], t[j]]
        0 <= i < j < t.len() ==> t[i].date.precedes(t[j].date)
}

/// `s` with `r` put behind the last observation that is not later than `r`.
pub open spec fn place(s: Seq<WeatherView>, r: WeatherView) -> Seq<WeatherView>
    decreases s.len(),
{
    if s.len() == 0 || !r.date.precedes(s.last().date) {
        s.push(r)
    } else {
        place(s.drop_last(), r).push(s.last())
    }
}

/// The observations of `s` in ascending order of their dates.
pub open spec fn ascending(s: Seq<WeatherView>) -> Seq<WeatherView>
    decreases s.len(),
{
    if s.len() == 0 {
        s
    } else {
        place(ascending(s.drop_last()), s.last())
    }
}

/// The earlier of two dates.
pub open spec fn earlier(a: Date, b: Date) -> Date {
    if b.precedes(a) {
        b
    } else {
        a
    }
}

/// The later of two dates.
pub open spec fn later(a: Date, b: Date) -> Date {
    if b.precedes(a) {
        a
    } else {
        b
    }
}

/// Whether `d` is neither before `lo` nor after `hi`.
pub open spec fn within(d: Date, lo: Date, hi: Date) -> bool {
    !d.precedes(lo) && !hi.precedes(d)
}

/// The observations of `t` whose date is within `lo` and `hi`, in the order
/// of `t`.
pub open spec fn select(t: Seq<WeatherView>, lo: Date, hi: Date) -> Seq<WeatherView>
    decreases t.len(),
{
    if t.len() == 0 {
        t
    } else if within(t.last().date, lo, hi) {
        select(t.drop_last(), lo, hi).push(t.last())
    } else {
        select(t.drop_last(), lo, hi)
    }
}

/// The observations of `t` between two dates, both included and given in
/// either order, in ascending order of their dates.
pub open spec fn range_of(t: Seq<WeatherView>, a: Date, b: Date) -> Seq<WeatherView> {
    ascending(select(t, earlier(a, b), later(a, b)))
}

// ---------------------------------------------------------------------------
// Facts about ordering and selection
// ---------------------------------------------------------------------------

/// Where `r` belongs at position `pos` of `s`, `place` puts it there.
pub proof fn lemma_place_at(s: Seq<WeatherView>, r: WeatherView, pos: int)
    requires
        0 <= pos <= s.len(),
        forall|j: int| pos <= j < s.len() ==> r.date.precedes((#[trigger] s[j]).date),
        pos == 0 || !r.date.precedes(s[pos - 1].date),
    ensures
        place(s, r) == s.insert(pos, r),
    decreases s.len() - pos,
{
    if pos == s.len() {
        assert(s.insert(pos, r) =~= s.push(r));
    } else {
        assert(r.date.precedes(s.last().date));
        lemma_place_at(s.drop_last(), r, pos);
        assert(s.drop_last().insert(pos, r).push(s.last()) =~= s.insert(pos, r));
    }
}

/// Placing keeps what was there, adds the new observation, and keeps the
/// order where the new date is new.
pub proof fn lemma_place(s: Seq<WeatherView>, r: WeatherView)
    ensures
        place(s, r).len() == s.len() + 1,
        forall|x: WeatherView|
            #![trigger place(s, r).contains(x)]
            #![trigger s.contains(x)]
            place(s, r).contains(x) <==> (s.contains(x) || x == r),
        is_ascending(s) && !holds(s, r.date) ==> is_ascending(place(s, r)),
    decreases s.len(),
{
    let out = place(s, r);
    if s.len() == 0 || !r.date.precedes(s.last().date) {
        assert forall|x: WeatherView| out.contains(x) <==> (s.contains(x) || x == r) by {
            if out.contains(x) {
                let i = choose|i: int| 0 <= i < out.len() && out[i] == x;
                if i < s.len() {
                    assert(s[i] == x);
                }
            }
            if s.contains(x) {
                let i = choose|i: int| 0 <= i < s.len() && s[i] == x;
                assert(out[i] == x);
            }
            if x == r {
                assert(out[s.len() as int] == x);
            }
        }
        if is_ascending(s) && !holds(s, r.date) {
            assert forall|i: int, j: int| 0 <= i < j < out.len() implies out[i].date.precedes(
                out[j].date,
            ) by {
                if j == s.len() {
                    assert(s[i].date != r.date);
                    assert(s[i].date.precedes(s.last().date) || i == s.len() - 1);
                }
            }
        }
    } else {
        let front = s.drop_last();
        lemma_place(front, r);
        let mid = place(front, r);
        assert forall|x: WeatherView| out.contains(x) <==> (s.contains(x) || x == r) by {
            if out.contains(x) {
                let i = choose|i: int| 0 <= i < out.len() && out[i] == x;
                if i < mid.len() {
                    assert(mid[i] == x);
                    assert(mid.contains(x));
                    if front.contains(x) {
                        let k = choose|k: int| 0 <= k < front.len() && front[k] == x;
                        assert(s[k] == x);
                    }
                } else {
                    assert(s[s.len() - 1] == x);
                }
            }
            if s.contains(x) {
                let i = choose|i: int| 0 <= i < s.len() && s[i] == x;
                if i < front.len() {
                    assert(front[i] == x);
                    assert(front.contains(x));
                    assert(mid.contains(x));
                    let k = choose|k: int| 0 <= k < mid.len() && mid[k] == x;
                    assert(out[k] == x);
                } else {
                    assert(out[out.len() - 1] == x);
                }
            }
            if x == r {
                assert(mid.contains(x));
                let k = choose|k: int| 0 <= k < mid.len() && mid[k] == x;
                assert(out[k] == x);
            }
        }
        if is_ascending(s) && !holds(s, r.date) {
            assert(is_ascending(front)) by {
                assert forall|i: int, j: int| 0 <= i < j < front.len() implies front[i].date.precedes(
                    front[j].date,
                ) by {
                    assert(front[i] == s[i] && front[j] == s[j]);
                }
            }
            assert(!holds(front, r.date)) by {
                if holds(front, r.date) {
                    let k = choose|k: int|
                        0 <= k < front.len() && (#[trigger] front[k]).date == r.date;
                    assert(s[k].date == r.date);
                }
            }
            assert forall|i: int, j: int| 0 <= i < j < out.len() implies out[i].date.precedes(
                out[j].date,
            ) by {
                if j < mid.len() {
                    assert(out[i] == mid[i] && out[j] == mid[j]);
                } else {
                    assert(out[j] == s.last());
                    assert(mid[i] == out[i]);
                    assert(mid.contains(out[i]));
                    if out[i] == r {
                    } else {
                        assert(front.contains(out[i]));
                        let k = choose|k: int| 0 <= k < front.len() && front[k] == out[i];
                        assert(s[k] == out[i]);
                        assert(s[k].date.precedes(s[s.len() - 1].date));
                    }
                }
            }
        }
    }
}

/// Strictly ascending dates are distinct.
pub proof fn lemma_ascending_distinct(s: Seq<WeatherView>)
    requires
        is_ascending(s),
    ensures
        distinct_dates(s),
{
    assert forall|i: int, j: int| 0 <= i < j < s.len() implies s[i].date != s[j].date by {
        assert(s[i].date.precedes(s[j].date));
    }
}

/// Sorting keeps exactly the observations that were there and, where their
/// dates are distinct, leaves them strictly ascending.
pub proof fn lemma_ascending(s: Seq<WeatherView>)
    ensures
        ascending(s).len() == s.len(),
        forall|x: WeatherView|
            #![trigger ascending(s).contains(x)]
            #![trigger s.contains(x)]
            ascending(s).contains(x) <==> s.contains(x),
        distinct_dates(s) ==> is_ascending(ascending(s)),
    decreases s.len(),
{
    if s.len() > 0 {
        let front = s.drop_last();
        lemma_ascending(front);
        lemma_place(ascending(front), s.last());
        assert forall|x: WeatherView| ascending(s).contains(x) <==> s.contains(x) by {
            if s.contains(x) {
                let i = choose|i: int| 0 <= i < s.len() && s[i] == x;
                if i < front.len() {
                    assert(front[i] == x);
                    assert(front.contains(x));
                }
            }
            if front.contains(x) {
                let k = choose|k: int| 0 <= k < front.len() && front[k] == x;
                assert(s[k] == x);
            }
            assert(s[s.len() - 1] == s.last());
        }
        if distinct_dates(s) {
            assert(distinct_dates(front)) by {
                assert forall|i: int, j: int| 0 <= i < j < front.len() implies front[i].date
                    != front[j].date by {
                    assert(front[i] == s[i] && front[j] == s[j]);
                }
            }
            let sorted = ascending(front);
            assert(!holds(sorted, s.last().date)) by {
                if holds(sorted, s.last().date) {
                    let k = choose|k: int|
                        0 <= k < sorted.len() && (#[trigger] sorted[k]).date == s.last().date;
                    assert(sorted.contains(sorted[k]));
                    assert(front.contains(sorted[k]));
                    let m = choose|m: int| 0 <= m < front.len() && front[m] == sorted[k];
                    assert(s[m].date == s[s.len() - 1].date);
                }
            }
        }
    }
}

/// Observations that already ascend are left as they are.
pub proof fn lemma_ascending_fixed(s: Seq<WeatherView>)
    requires
        is_ascending(s),
    ensures
        ascending(s) == s,
    decreases s.len(),
{
    if s.len() > 0 {
        let front = s.drop_last();
        assert(is_ascending(front)) by {
            assert forall|i: int, j: int| 0 <= i < j < front.len() implies front[i].date.precedes(
                front[j].date,
            ) by {
                assert(front[i] == s[i] && front[j] == s[j]);
            }
        }
        lemma_ascending_fixed(front);
        if front.len() > 0 {
            assert(front.last() == s[s.len() - 2]);
            assert(s[s.len() - 2].date.precedes(s[s.len() - 1].date));
        }
        assert(front.push(s.last()) =~= s);
    }
}

/// Selecting keeps exactly the observations within the bounds.
pub proof fn lemma_select(t: Seq<WeatherView>, lo: Date, hi: Date)
    ensures
        select(t, lo, hi).len() <= t.len(),
        forall|x: WeatherView|
            #![trigger select(t, lo, hi).contains(x)]
            #![trigger t.contains(x)]
            select(t, lo, hi).contains(x) <==> (t.contains(x) && within(x.date, lo, hi)),
        distinct_dates(t) ==> distinct_dates(select(t, lo, hi)),
        all_sound(t) ==> all_sound(select(t, lo, hi)),
    decreases t.len(),
{
    if t.len() > 0 {
        let front = t.drop_last();
        lemma_select(front, lo, hi);
        let sel = select(t, lo, hi);
        let sel0 = select(front, lo, hi);
        assert forall|x: WeatherView| sel.contains(x) <==> (t.contains(x) && within(
            x.date,
            lo,
            hi,
        )) by {
            if sel.contains(x) {
                let i = choose|i: int| 0 <= i < sel.len() && sel[i] == x;
                if i < sel0.len() {
                    assert(sel0[i] == x);
                    assert(sel0.contains(x));
                    let k = choose|k: int| 0 <= k < front.len() && front[k] == x;
                    assert(t[k] == x);
                } else {
                    assert(t[t.len() - 1] == x);
                }
            }
            if t.contains(x) && within(x.date, lo, hi) {
                let i = choose|i: int| 0 <= i < t.len() && t[i] == x;
                if i < front.len() {
                    assert(front[i] == x);
                    assert(front.contains(x));
                    let k = choose|k: int| 0 <= k < sel0.len() && sel0[k] == x;
                    assert(sel[k] == x);
                } else {
                    assert(sel[sel.len() - 1] == x);
                }
            }
        }
        if distinct_dates(t) {
            assert(distinct_dates(front)) by {
                assert forall|i: int, j: int| 0 <= i < j < front.len() implies front[i].date
                    != front[j].date by {
                    assert(front[i] == t[i] && front[j] == t[j]);
                }
            }
            assert forall|i: int, j: int| 0 <= i < j < sel.len() implies sel[i].date
                != sel[j].date by {
                if j < sel0.len() {
                    assert(sel[i] == sel0[i] && sel[j] == sel0[j]);
                } else {
                    assert(sel0[i] == sel[i]);
                    assert(sel0.contains(sel[i]));
                    let k = choose|k: int| 0 <= k < front.len() && front[k] == sel[i];
                    assert(t[k] == sel[i]);
                    assert(t[k].date != t[t.len() - 1].date);
                }
            }
        }
        if all_sound(t) {
            assert(all_sound(front)) by {
                assert forall|i: int| 0 <= i < front.len() implies
                    (#[trigger] front[i]).sound() by {
                    assert(front[i] == t[i]);
                }
            }
            assert forall|i: int| 0 <= i < sel.len() implies (#[trigger] sel[i]).sound() by {
                if i < sel0.len() {
                    assert(sel[i] == sel0[i]);
                } else {
                    assert(sel[i] == t[t.len() - 1]);
                }
            }
        }
    }
}

/// Sorting keeps every measurement a decimal literal.
pub proof fn lemma_ascending_sound(s: Seq<WeatherView>)
    requires
        all_sound(s),
    ensures
        all_sound(ascending(s)),
{
    lemma_ascending(s);
    let out = ascending(s);
    assert forall|i: int| 0 <= i < out.len() implies (#[trigger] out[i]).sound() by {
        assert(out.contains(out[i]));
        assert(s.contains(out[i]));
        let k = choose|k: int| 0 <= k < s.len() && s[k] == out[i];
        assert(s[k].sound());
    }
}

// ---------------------------------------------------------------------------
// Sorting observations
// ---------------------------------------------------------------------------

/// Sorts observations by date, earliest first.
pub fn sort_records(v: Vec<WeatherData>) -> (out: Vec<WeatherData>)
    ensures
        views(out@) == ascending(views(v@)),
{
    let ghost all = views(v@);
    let mut out: Vec<WeatherData> = Vec::new();
    assert(views(out@) =~= ascending(all.take(0)));
    for r in it: v
        invariant
            it.seq() == v@,
            all == views(v@),
            views(out@) == ascending(all.take(it.index() as int)),
    {
        let ghost done = it.index() as int;
        assert(r@ == all[done]);
        let ghost sorted = views(out@);
        let mut pos: usize = out.len();
        while pos > 0 && r.date.before(&out[pos - 1].date)
            invariant
                0 <= pos <= out.len(),
                sorted == views(out@),
                forall|j: int|
                    pos <= j < sorted.len() ==> r.date.precedes((#[trigger] sorted[j]).date),
            decreases pos,
        {
            assert(sorted[pos - 1] == out@[pos - 1]@);
            pos -= 1;
        }
        proof {
            if pos > 0 {
                assert(sorted[pos - 1] == out@[pos - 1]@);
            }
            lemma_place_at(sorted, r@, pos as int);
            let next = all.take(done + 1);
            assert(next.drop_last() =~= all.take(done));
            assert(next.last() == r@);
        }
        out.insert(pos, r);
        assert(views(out@) =~= sorted.insert(pos as int, r@));
    }
    assert(all.take(v@.len() as int) =~= all);
    out
}

// ---------------------------------------------------------------------------
// The table
// ---------------------------------------------------------------------------

/// An ordered table of observations, at most one for each date. New
/// observations go last; removing one keeps the others in their order.
#[derive(Debug)]
pub struct WeatherDataMap {
    map: IndexMap<u64, WeatherData, RandomState>,
}

impl View for WeatherDataMap {
    type V = Seq<WeatherView>;

    closed spec fn view(&self) -> Seq<WeatherView> {
        Seq::new(entries(self.map).len(), |i: int| entries(self.map)[i].1)
    }
}

impl WeatherDataMap {
    #[verifier::type_invariant]
    spec fn well_formed(self) -> bool {
        let e = entries(self.map);
        &&& forall|i: int| 0 <= i < e.len() ==> (#[trigger] e[i]).0 == e[i].1.date.key()
        &&& valid_table(self@)
    }

    /// Takes the map out of the table and leaves an empty one in its place.
    fn take_map(&mut self) -> (map: IndexMap<u64, WeatherData, RandomState>)
        ensures
            entries(map) == entries(old(self).map),
            entries(final(self).map) == Seq::<(u64, WeatherView)>::empty(),
    {
        let mut map = map_new();
        std::mem::swap(&mut self.map, &mut map);
        map
    }

    /// A table without observations.
    pub fn new() -> (t: WeatherDataMap)
        ensures
            t@ == Seq::<WeatherView>::empty(),
    {
        let map = map_new();
        let t = WeatherDataMap { map };
        assert(t@ =~= Seq::<WeatherView>::empty());
        t
    }

    /// The content of a table is always valid: its dates are distinct and
    /// its measurements are decimal literals.
    pub fn check(&self)
        ensures
            valid_table(self@),
    {
        proof {
            use_type_invariant(self);
        }
    }

    /// The number of observations.
    pub fn len(&self) -> (n: usize)
        ensures
            n == self@.len(),
            valid_table(self@),
    {
        proof {
            use_type_invariant(self);
        }
        map_len(&self.map)
    }

    /// The observation at a position, counted from zero.
    pub fn get_index(&self, index: usize) -> (r: Option<&WeatherData>)
        ensures
            match r {
                Some(x) => index < self@.len() && x@ == self@[index as int],
                None => index >= self@.len(),
            },
            valid_table(self@),
    {
        proof {
            use_type_invariant(self);
        }
        map_get_index(&self.map, index)
    }

    /// The position of the observation of a date.
    pub fn get_index_of(&self, date: &Date) -> (r: Option<usize>)
        ensures
            match r {
                Some(i) => i < self@.len() && self@[i as int].date == *date && i == place_of(
                    self@,
                    *date,
                ),
                None => !holds(self@, *date),
            },
            valid_table(self@),
    {
        proof {
            use_type_invariant(self);
        }
        let r = map_get_index_of(&self.map, date.ordinal());
        proof {
            let e = entries(self.map);
            match r {
                Some(i) => {
                    lemma_key_orders(*date, e[i as int].1.date);
                    assert(self@[i as int].date == *date);
                    let p = place_of(self@, *date);
                    assert(self@[p].date == *date);
                },
                None => {
                    if holds(self@, *date) {
                        let k = choose|k: int|
                            0 <= k < self@.len() && (#[trigger] self@[k]).date == *date;
                        assert(e[k].0 == date.key());
                    }
                },
            }
        }
        r
    }

    /// Whether the table holds an observation of a date.
    pub fn contains_key(&self, date: &Date) -> (r: bool)
        ensures
            r == holds(self@, *date),
    {
        self.get_index_of(date).is_some()
    }

    /// The observation of a date.
    pub fn get(&self, date: &Date) -> (r: Option<&WeatherData>)
        ensures
            match r {
                Some(x) => holds(self@, *date) && x@ == self@[place_of(self@, *date)],
                None => !holds(self@, *date),
            },
    {
        match self.get_index_of(date) {
            Some(i) => self.get_index(i),
            None => None,
        }
    }

    /// Adds an observation behind the others, unless the table already
    /// holds one of the same date.
    pub fn insert(&mut self, record: WeatherData) -> (r: Result<(), StoreError>)
        ensures
            holds(old(self)@, record.date) ==> r == Err::<(), StoreError>(StoreError::DuplicateKey)
                && final(self)@ == old(self)@,
            !holds(old(self)@, record.date) ==> r is Ok && final(self)@ == old(self)@.push(record@),
            valid_table(final(self)@),
    {
        proof {
            use_type_invariant(&*self);
        }
        if self.contains_key(&record.date) {
            return Err(StoreError::DuplicateKey);
        }
        record.check();
        let ghost before = entries(self.map);
        let ghost content = self@;
        let ghost added = record@;
        let key = record.date.ordinal();
        assert forall|j: int| 0 <= j < before.len() implies (#[trigger] before[j]).0 != key by {
            assert(content[j].date != added.date);
            lemma_key_orders(content[j].date, added.date);
        }
        let mut map = self.take_map();
        let replaced = map_insert(&mut map, key, record);
        proof {
            let after = entries(map);
            assert(replaced is None);
            assert(after == before.push((key, added)));
            let next = Seq::new(after.len(), |i: int| after[i].1);
            assert(next =~= content.push(added));
            assert forall|i: int, j: int| 0 <= i < j < next.len() implies next[i].date
                != next[j].date by {
                if j == content.len() {
                    assert(content[i].date != added.date);
                } else {
                    assert(content[i].date != content[j].date);
                }
            }
            assert forall|i: int| 0 <= i < next.len() implies (#[trigger] next[i]).sound() by {
                if i < content.len() {
                    assert(content[i].sound());
                }
            }
            assert forall|i: int| 0 <= i < after.len() implies
                (#[trigger] after[i]).0 == after[i].1.date.key() by {
                if i < before.len() {
                    assert(before[i].0 == before[i].1.date.key());
                }
            }
        }
        self.map = map;
        assert(self@ =~= content.push(added));
        Ok(())
    }

    /// Changes the fields that `patch` names in the observation of `date`.
    pub fn update(&mut self, date: &Date, patch: &Patch) -> (r: Result<(), StoreError>)
        ensures
            !holds(old(self)@, *date) ==> r == Err::<(), StoreError>(StoreError::NotFound)
                && final(self)@ == old(self)@,
            holds(old(self)@, *date) ==> r is Ok && final(self)@ == old(self)@.update(
                place_of(old(self)@, *date),
                old(self)@[place_of(old(self)@, *date)].patched(patch@),
            ),
            valid_table(final(self)@),
    {
        proof {
            use_type_invariant(&*self);
        }
        let index: usize = match self.get_index_of(date) {
            Some(i) => i,
            None => return Err(StoreError::NotFound),
        };
        let changed: WeatherData = match self.get_index(index) {
            Some(current) => current.patched(patch),
            None => return Err(StoreError::NotFound),
        };
        changed.check();
        let ghost before = entries(self.map);
        let ghost content = self@;
        let ghost next = changed@;
        let key = date.ordinal();
        assert(before[index as int].0 == key);
        let mut map = self.take_map();
        let replaced = map_insert(&mut map, key, changed);
        proof {
            let after = entries(map);
            assert(replaced is Some);
            let i = choose|i: int|
                0 <= i < before.len() && (#[trigger] before[i]).0 == key && after == before.update(
                    i,
                    (key, next),
                );
            assert(i == index) by {
                if i != index {
                    assert(content[i].date != content[index as int].date);
                    lemma_key_orders(content[i].date, content[index as int].date);
                }
            }
            let out = Seq::new(after.len(), |i: int| after[i].1);
            assert(out =~= content.update(index as int, next));
            assert(next.date == content[index as int].date);
            assert forall|a: int, b: int| 0 <= a < b < out.len() implies out[a].date
                != out[b].date by {
                assert(content[a].date != content[b].date);
            }
            assert forall|a: int| 0 <= a < out.len() implies (#[trigger] out[a]).sound() by {
                if a != index {
                    assert(content[a].sound());
                }
            }
            assert forall|a: int| 0 <= a < after.len() implies
                (#[trigger] after[a]).0 == after[a].1.date.key() by {
                if a != index {
                    assert(before[a].0 == before[a].1.date.key());
                } else {
                    lemma_key_orders(next.date, *date);
                }
            }
        }
        self.map = map;
        assert(self@ =~= content.update(index as int, next));
        Ok(())
    }

    /// Removes the observation of `date`; the others keep their order.
    pub fn delete(&mut self, date: &Date) -> (r: Result<(), StoreError>)
        ensures
            !holds(old(self)@, *date) ==> r == Err::<(), StoreError>(StoreError::NotFound)
                && final(self)@ == old(self)@,
            holds(old(self)@, *date) ==> r is Ok && final(self)@ == old(self)@.remove(
                place_of(old(self)@, *date),
            ),
            valid_table(final(self)@),
    {
        proof {
            use_type_invariant(&*self);
        }
        let index: usize = match self.get_index_of(date) {
            Some(i) => i,
            None => return Err(StoreError::NotFound),
        };
        let ghost before = entries(self.map);
        let ghost content = self@;
        let key = date.ordinal();
        assert(before[index as int].0 == key);
        let mut map = self.take_map();
        let removed = map_shift_remove(&mut map, key);
        proof {
            let after = entries(map);
            assert(removed is Some);
            let i = choose|i: int|
                0 <= i < before.len() && (#[trigger] before[i]).0 == key
                    && after == before.remove(i);
            assert(i == index) by {
                if i != index {
                    assert(content[i].date != content[index as int].date);
                    lemma_key_orders(content[i].date, content[index as int].date);
                }
            }
            let out = Seq::new(after.len(), |i: int| after[i].1);
            assert(out =~= content.remove(index as int));
            assert forall|a: int, b: int| 0 <= a < b < out.len() implies out[a].date
                != out[b].date by {
                let a0 = if a < index { a } else { a + 1 };
                let b0 = if b < index { b } else { b + 1 };
                assert(content[a0].date != content[b0].date);
            }
            assert forall|a: int| 0 <= a < out.len() implies (#[trigger] out[a]).sound() by {
                let a0 = if a < index { a } else { a + 1 };
                assert(content[a0].sound());
            }
            assert forall|a: int| 0 <= a < after.len() implies
                (#[trigger] after[a]).0 == after[a].1.date.key() by {
                let a0 = if a < index { a } else { a + 1 };
                assert(before[a0].0 == before[a0].1.date.key());
            }
        }
        self.map = map;
        assert(self@ =~= content.remove(index as int));
        Ok(())
    }

    /// A table of the given observations, in their order.
    pub fn from_records(records: Vec<WeatherData>) -> (r: Option<WeatherDataMap>)
        ensures
            r is Some <==> distinct_dates(views(records@)),
            r matches Some(t) ==> t@ == views(records@),
    {
        let ghost all = views(records@);
        let mut table = WeatherDataMap::new();
        assert(table@ =~= all.take(0));
        for record in it: records
            invariant
                it.seq() == records@,
                all == views(records@),
                table@ == all.take(it.index() as int),
        {
            let ghost done = it.index() as int;
            let ghost content = table@;
            assert(record@ == all[done]);
            match table.insert(record) {
                Ok(()) => {
                    assert(table@ =~= all.take(done + 1));
                },
                Err(_) => {
                    proof {
                        let k = choose|k: int|
                            0 <= k < content.len() && (#[trigger] content[k]).date == all[done].date;
                        assert(content[k] == all[k]);
                        assert(all[k].date == all[done].date);
                        assert(!distinct_dates(all));
                    }
                    return None;
                },
            }
        }
        proof {
            assert(all.take(records@.len() as int) =~= all);
        }
        table.check();
        Some(table)
    }
}

} // verus!
