//! Changes of several observations at once: a batch is applied as a whole
//! or not at all.

use crate::date::Date;
use crate::record::{views, Patch, PatchView, WeatherData, WeatherView};
use crate::table::{
    distinct_dates, holds, place_of, valid_table, StoreError, WeatherDataMap,
};
use vstd::prelude::*;

verus! {

/// Some changes, each with the date of the observation it is for, by
/// their mathematical content.
pub open spec fn change_views(v: Seq<(Date, Patch)>) -> Seq<(Date, PatchView)> {
    Seq::new(v.len(), |i: int| (v[i].0, v[i].1@))
}

/// Whether a batch can be added: its dates are distinct and none of them is
/// in the table.
pub open spec fn insertable(t: Seq<WeatherView>, batch: Seq<WeatherView>) -> bool {
    distinct_dates(batch) && forall|i: int|
        0 <= i < batch.len() ==> !holds(t, (#[trigger] batch[i]).date)
}

/// Whether the table holds an observation of each of the dates.
pub open spec fn holds_all(t: Seq<WeatherView>, dates: Seq<Date>) -> bool {
    forall|i: int| 0 <= i < dates.len() ==> holds(t, #[trigger] dates[i])
}

/// The table after one change.
pub open spec fn updated(t: Seq<WeatherView>, d: Date, p: PatchView) -> Seq<WeatherView> {
    t.update(place_of(t, d), t[place_of(t, d)].patched(p))
}

/// Whether the table holds the observation that each change is for.
pub open spec fn changeable(t: Seq<WeatherView>, changes: Seq<(Date, PatchView)>) -> bool {
    forall|i: int| 0 <= i < changes.len() ==> holds(t, (#[trigger] changes[i]).0)
}

/// The table after the changes, made in order.
pub open spec fn updated_all(t: Seq<WeatherView>, changes: Seq<(Date, PatchView)>) -> Seq<
    WeatherView,
>
    decreases changes.len(),
{
    if changes.len() == 0 {
        t
    } else {
        updated(updated_all(t, changes.drop_last()), changes.last().0, changes.last().1)
    }
}

/// The table without the observations of the dates.
pub open spec fn deleted_all(t: Seq<WeatherView>, dates: Seq<Date>) -> Seq<WeatherView>
    decreases dates.len(),
{
    if dates.len() == 0 {
        t
    } else {
        let rest = deleted_all(t, dates.drop_last());
        rest.remove(place_of(rest, dates.last()))
    }
}

/// A change keeps the dates of a table where they are.
pub proof fn lemma_updated_dates(t: Seq<WeatherView>, d: Date, p: PatchView)
    requires
        holds(t, d),
    ensures
        updated(t, d, p).len() == t.len(),
        forall|i: int| 0 <= i < t.len() ==> (#[trigger] updated(t, d, p)[i]).date == t[i].date,
        forall|x: Date| holds(updated(t, d, p), x) <==> holds(t, x),
{
    let out = updated(t, d, p);
    let k = place_of(t, d);
    assert(t[k].date == d);
    assert forall|x: Date| holds(out, x) <==> holds(t, x) by {
        if holds(out, x) {
            let i = choose|i: int| 0 <= i < out.len() && (#[trigger] out[i]).date == x;
            assert(t[i].date == x);
        }
        if holds(t, x) {
            let i = choose|i: int| 0 <= i < t.len() && (#[trigger] t[i]).date == x;
            assert(out[i].date == x);
        }
    }
}

/// Changes keep the dates of a table where they are.
pub proof fn lemma_updated_all_dates(t: Seq<WeatherView>, changes: Seq<(Date, PatchView)>)
    requires
        changeable(t, changes),
    ensures
        updated_all(t, changes).len() == t.len(),
        forall|x: Date| holds(updated_all(t, changes), x) <==> holds(t, x),
    decreases changes.len(),
{
    if changes.len() > 0 {
        let c0 = changes.drop_last();
        assert(changeable(t, c0)) by {
            assert forall|i: int| 0 <= i < c0.len() implies holds(t, (#[trigger] c0[i]).0) by {
                assert(c0[i] == changes[i]);
            }
        }
        lemma_updated_all_dates(t, c0);
        let mid = updated_all(t, c0);
        assert(holds(t, changes[changes.len() - 1].0));
        lemma_updated_dates(mid, changes.last().0, changes.last().1);
    }
}

impl WeatherDataMap {
    /// Adds a batch of observations behind the others, in the order of the
    /// batch. If one of its dates is in the table already, or occurs twice
    /// in the batch, nothing is added.
    pub fn insert_all(&mut self, batch: Vec<WeatherData>) -> (r: Result<(), StoreError>)
        ensures
            insertable(old(self)@, views(batch@)) ==> r is Ok && final(self)@ == old(self)@ + views(
                batch@,
            ),
            !insertable(old(self)@, views(batch@)) ==> r == Err::<(), StoreError>(
                StoreError::DuplicateKey,
            ) && final(self)@ == old(self)@,
            valid_table(final(self)@),
    {
        let ghost t = self@;
        let ghost all = views(batch@);
        self.check();
        let mut i: usize = 0;
        while i < batch.len()
            invariant
                i <= batch.len(),
                t == self@,
                valid_table(t),
                all == views(batch@),
                insertable(t, all.take(i as int)),
            decreases batch.len() - i,
        {
            let ghost head = all.take(i as int);
            let ghost next = all.take(i + 1);
            assert(all[i as int] == batch@[i as int]@);
            let taken: bool = self.contains_key(&batch[i].date)
                || has_date(&batch, i, &batch[i].date);
            if taken {
                proof {
                    if insertable(t, all) {
                        if holds(t, all[i as int].date) {
                        } else {
                            let k = choose|k: int|
                                0 <= k < i && (#[trigger] all[k]).date == all[i as int].date;
                            assert(all[k].date != all[i as int].date);
                        }
                    }
                }
                return Err(StoreError::DuplicateKey);
            }
            proof {
                assert forall|a: int, b: int| 0 <= a < b < next.len() implies next[a].date
                    != next[b].date by {
                    if b < i {
                        assert(head[a].date != head[b].date);
                    }
                }
                assert forall|a: int| 0 <= a < next.len() implies
                    !holds(t, (#[trigger] next[a]).date) by {
                    if a < i {
                        assert(!holds(t, head[a].date));
                    }
                }
            }
            i += 1;
        }
        assert(all.take(batch.len() as int) =~= all);
        assert(self@ =~= t + all.take(0));
        for record in it: batch
            invariant
                it.seq() == batch@,
                all == views(batch@),
                insertable(t, all),
                valid_table(self@),
                self@ == t + all.take(it.index() as int),
        {
            let ghost done = it.index() as int;
            let ghost content = self@;
            assert(record@ == all[done]);
            proof {
                if holds(content, all[done].date) {
                    let k = choose|k: int|
                        0 <= k < content.len() && (#[trigger] content[k]).date == all[done].date;
                    if k < t.len() {
                        assert(t[k].date == all[done].date);
                        assert(holds(t, all[done].date));
                    } else {
                        assert(content[k] == all[k - t.len()]);
                        assert(all[k - t.len()].date != all[done].date);
                    }
                }
            }
            let added = self.insert(record);
            assert(added is Ok);
            assert(self@ =~= t + all.take(done + 1));
        }
        assert(all.take(batch@.len() as int) =~= all);
        Ok(())
    }

    /// Makes the changes, in order, each to the observation of its date.
    /// If the table lacks one of the dates, nothing is changed.
    pub fn update_all(&mut self, changes: &Vec<(Date, Patch)>) -> (r: Result<(), StoreError>)
        ensures
            changeable(old(self)@, change_views(changes@)) ==> r is Ok && final(self)@
                == updated_all(old(self)@, change_views(changes@)),
            !changeable(old(self)@, change_views(changes@)) ==> r == Err::<(), StoreError>(
                StoreError::NotFound,
            ) && final(self)@ == old(self)@,
            valid_table(final(self)@),
    {
        let ghost t = self@;
        let ghost cs = change_views(changes@);
        self.check();
        let mut i: usize = 0;
        while i < changes.len()
            invariant
                i <= changes.len(),
                t == self@,
                valid_table(t),
                cs == change_views(changes@),
                forall|k: int| 0 <= k < i ==> holds(t, (#[trigger] cs[k]).0),
            decreases changes.len() - i,
        {
            assert(cs[i as int].0 == changes@[i as int].0);
            if !self.contains_key(&changes[i].0) {
                assert(!holds(t, cs[i as int].0));
                return Err(StoreError::NotFound);
            }
            i += 1;
        }
        assert(changeable(t, cs));
        let mut j: usize = 0;
        assert(cs.take(0) =~= Seq::<(Date, PatchView)>::empty());
        while j < changes.len()
            invariant
                j <= changes.len(),
                cs == change_views(changes@),
                changeable(t, cs),
                valid_table(self@),
                self@ == updated_all(t, cs.take(j as int)),
            decreases changes.len() - j,
        {
            let ghost c0 = cs.take(j as int);
            let ghost c1 = cs.take(j + 1);
            proof {
                assert(c1.drop_last() =~= c0);
                assert(c1.last() == cs[j as int]);
                assert(cs[j as int] == (changes@[j as int].0, changes@[j as int].1@));
                assert(changeable(t, c0)) by {
                    assert forall|k: int| 0 <= k < c0.len() implies
                        holds(t, (#[trigger] c0[k]).0) by {
                        assert(c0[k] == cs[k]);
                    }
                }
                lemma_updated_all_dates(t, c0);
                assert(holds(t, cs[j as int].0));
            }
            let changed = self.update(&changes[j].0, &changes[j].1);
            assert(changed is Ok);
            j += 1;
        }
        assert(cs.take(changes.len() as int) =~= cs);
        Ok(())
    }

    /// Removes the observation of each of the dates. If the table lacks one
    /// of them, or one is named twice, nothing is removed.
    pub fn delete_all(&mut self, dates: &Vec<Date>) -> (r: Result<(), StoreError>)
        ensures
            holds_all(old(self)@, dates@) && dates@.no_duplicates() ==> r is Ok && final(self)@
                == deleted_all(old(self)@, dates@),
            !(holds_all(old(self)@, dates@) && dates@.no_duplicates()) ==> r == Err::<
                (),
                StoreError,
            >(StoreError::NotFound) && final(self)@ == old(self)@,
            valid_table(final(self)@),
    {
        let ghost t = self@;
        self.check();
        let mut i: usize = 0;
        while i < dates.len()
            invariant
                i <= dates.len(),
                t == self@,
                valid_table(t),
                forall|k: int| 0 <= k < i ==> holds(t, #[trigger] dates@[k]),
                dates@.take(i as int).no_duplicates(),
            decreases dates.len() - i,
        {
            let found: bool = self.contains_key(&dates[i]);
            let repeated: bool = names_date(dates, i, &dates[i]);
            if !found || repeated {
                proof {
                    if !found {
                        assert(!holds(t, dates@[i as int]));
                    } else {
                        let k = choose|k: int| 0 <= k < i && dates@[k] == dates@[i as int];
                        assert(!dates@.no_duplicates());
                    }
                }
                return Err(StoreError::NotFound);
            }
            proof {
                let next = dates@.take(i + 1);
                assert forall|a: int, b: int| 0 <= a < next.len() && 0 <= b < next.len() && a
                    != b implies next[a] != next[b] by {
                    if a < i && b < i {
                        assert(dates@.take(i as int)[a] != dates@.take(i as int)[b]);
                    }
                }
            }
            i += 1;
        }
        assert(dates@.take(dates.len() as int) =~= dates@);
        assert(holds_all(t, dates@));
        let mut j: usize = 0;
        assert(dates@.take(0) =~= Seq::<Date>::empty());
        while j < dates.len()
            invariant
                j <= dates.len(),
                holds_all(t, dates@),
                dates@.no_duplicates(),
                valid_table(t),
                self@ == deleted_all(t, dates@.take(j as int)),
            decreases dates.len() - j,
        {
            let ghost d0 = dates@.take(j as int);
            let ghost d1 = dates@.take(j + 1);
            proof {
                assert(d1.drop_last() =~= d0);
                assert(d1.last() == dates@[j as int]);
                assert(holds(t, dates@[j as int]));
                lemma_deleted_all(t, d0);
                assert(!d0.contains(dates@[j as int])) by {
                    if d0.contains(dates@[j as int]) {
                        let k = choose|k: int| 0 <= k < d0.len() && d0[k] == dates@[j as int];
                        assert(dates@[k] == dates@[j as int]);
                    }
                }
            }
            let removed = self.delete(&dates[j]);
            assert(removed is Ok);
            j += 1;
        }
        assert(dates@.take(dates.len() as int) =~= dates@);
        self.check();
        Ok(())
    }
}

/// What is left after removing the observations of some dates: exactly the
/// observations of the other dates.
pub proof fn lemma_deleted_all(t: Seq<WeatherView>, dates: Seq<Date>)
    requires
        valid_table(t),
        holds_all(t, dates),
        dates.no_duplicates(),
    ensures
        valid_table(deleted_all(t, dates)),
        deleted_all(t, dates).len() == t.len() - dates.len(),
        forall|x: Date| holds(deleted_all(t, dates), x) <==> (holds(t, x) && !dates.contains(x)),
    decreases dates.len(),
{
    if dates.len() > 0 {
        let d0 = dates.drop_last();
        let last = dates.last();
        assert(holds_all(t, d0)) by {
            assert forall|i: int| 0 <= i < d0.len() implies holds(t, #[trigger] d0[i]) by {
                assert(d0[i] == dates[i]);
            }
        }
        assert(d0.no_duplicates()) by {
            assert forall|a: int, b: int| 0 <= a < d0.len() && 0 <= b < d0.len() && a
                != b implies d0[a] != d0[b] by {
                assert(d0[a] == dates[a] && d0[b] == dates[b]);
            }
        }
        lemma_deleted_all(t, d0);
        let rest = deleted_all(t, d0);
        assert(holds(t, dates[dates.len() - 1]));
        assert(!d0.contains(last)) by {
            if d0.contains(last) {
                let k = choose|k: int| 0 <= k < d0.len() && d0[k] == last;
                assert(dates[k] == dates[dates.len() - 1]);
            }
        }
        assert(holds(rest, last));
        let k = place_of(rest, last);
        assert(rest[k].date == last);
        let out = rest.remove(k);
        assert forall|a: int, b: int| 0 <= a < b < out.len() implies out[a].date != out[b].date by {
            let a0 = if a < k { a } else { a + 1 };
            let b0 = if b < k { b } else { b + 1 };
            assert(rest[a0].date != rest[b0].date);
        }
        assert forall|a: int| 0 <= a < out.len() implies (#[trigger] out[a]).sound() by {
            let a0 = if a < k { a } else { a + 1 };
            assert(rest[a0].sound());
        }
        assert forall|x: Date| holds(out, x) <==> (holds(t, x) && !dates.contains(x)) by {
            if holds(out, x) {
                let a = choose|a: int| 0 <= a < out.len() && (#[trigger] out[a]).date == x;
                let a0 = if a < k { a } else { a + 1 };
                assert(rest[a0].date == x);
                assert(holds(rest, x));
                assert(rest[a0].date != rest[k].date) by {
                    if a0 < k {
                        assert(rest[a0].date != rest[k].date);
                    } else {
                        assert(rest[k].date != rest[a0].date);
                    }
                }
                if dates.contains(x) {
                    let m = choose|m: int| 0 <= m < dates.len() && dates[m] == x;
                    if m < d0.len() {
                        assert(d0[m] == x);
                        assert(d0.contains(x));
                    }
                }
            }
            if holds(t, x) && !dates.contains(x) {
                assert(!d0.contains(x)) by {
                    if d0.contains(x) {
                        let m = choose|m: int| 0 <= m < d0.len() && d0[m] == x;
                        assert(dates[m] == x);
                    }
                }
                assert(holds(rest, x));
                let a0 = choose|a0: int| 0 <= a0 < rest.len() && (#[trigger] rest[a0]).date == x;
                assert(x != last) by {
                    if x == last {
                        assert(dates[dates.len() - 1] == x);
                    }
                }
                let a = if a0 < k { a0 } else { a0 - 1 };
                assert(out[a].date == x);
            }
        }
    }
}

/// Whether one of the first `upto` observations of a batch has the date.
fn has_date(batch: &Vec<WeatherData>, upto: usize, date: &Date) -> (r: bool)
    requires
        upto <= batch.len(),
    ensures
        r == exists|k: int| 0 <= k < upto && (#[trigger] views(batch@)[k]).date == *date,
{
    let mut k: usize = 0;
    while k < upto
        invariant
            k <= upto <= batch.len(),
            forall|m: int| 0 <= m < k ==> (#[trigger] views(batch@)[m]).date != *date,
        decreases upto - k,
    {
        if batch[k].date == *date {
            assert(views(batch@)[k as int].date == *date);
            return true;
        }
        assert(views(batch@)[k as int] == batch@[k as int]@);
        k += 1;
    }
    false
}

/// Whether one of the first `upto` dates is the date.
fn names_date(dates: &Vec<Date>, upto: usize, date: &Date) -> (r: bool)
    requires
        upto <= dates.len(),
    ensures
        r == exists|k: int| 0 <= k < upto && dates@[k] == *date,
{
    let mut k: usize = 0;
    while k < upto
        invariant
            k <= upto <= dates.len(),
            forall|m: int| 0 <= m < k ==> dates@[m] != *date,
        decreases upto - k,
    {
        if dates[k] == *date {
            return true;
        }
        k += 1;
    }
    false
}

} // verus!
