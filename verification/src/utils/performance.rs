//! Counters of measured durations, kept in an object that the caller owns
//! and hands to whoever measures.
//!
//! Durations are whole nanoseconds. Sums and counts stop at the largest
//! value their type holds.

use crate::filtering::kept;
use crate::text::str_eq;
use crate::sorting::{
    ascending, lemma_sorted_ascending, lemma_sorted_permutes, ranks_by_levels, sort, sorted, Ranked,
};
use vstd::prelude::*;

verus! {

/// Measurements of one operation: how many, their sum, the shortest and the
/// longest.
#[derive(Debug, Clone, PartialEq)]
pub struct PerformanceCounter {
    name: String,
    total_time: u128,
    count: u64,
    min_time: u128,
    max_time: u128,
}

/// What a counter holds. Before the first measurement `min` is the largest
/// duration there is.
pub struct CounterView {
    pub name: Seq<char>,
    pub total: u128,
    pub count: u64,
    pub min: u128,
    pub max: u128,
}

impl View for PerformanceCounter {
    type V = CounterView;

    closed spec fn view(&self) -> CounterView {
        CounterView {
            name: self.name@,
            total: self.total_time,
            count: self.count,
            min: self.min_time,
            max: self.max_time,
        }
    }
}

/// The sum of two durations, or the largest duration where the sum does not
/// fit.
pub open spec fn capped_sum(a: u128, b: u128) -> u128 {
    if a + b > u128::MAX {
        u128::MAX
    } else {
        (a + b) as u128
    }
}

/// What a counter holds after `duration` is recorded.
pub open spec fn recorded(c: CounterView, duration: u128) -> CounterView {
    CounterView {
        name: c.name,
        total: capped_sum(c.total, duration),
        count: if c.count == u64::MAX {
            u64::MAX
        } else {
            (c.count + 1) as u64
        },
        min: if duration < c.min {
            duration
        } else {
            c.min
        },
        max: if duration > c.max {
            duration
        } else {
            c.max
        },
    }
}

/// What a counter named `name` holds before the first measurement.
pub open spec fn fresh(name: Seq<char>) -> CounterView {
    CounterView { name, total: 0, count: 0, min: u128::MAX, max: 0 }
}

/// Neither the count nor the total of the counter has reached the largest
/// number it can hold.
pub open spec fn unsaturated(c: CounterView) -> bool {
    c.count < u64::MAX && c.total < u128::MAX
}

/// What holds of every counter: without a measurement it is as new; with
/// one, its shortest duration is not longer than its longest, and, as long
/// as neither count nor total is saturated, the total lies between the count
/// times the shortest and the count times the longest duration.
pub open spec fn consistent(c: CounterView) -> bool {
    &&& c.count == 0 ==> c.total == 0 && c.min == u128::MAX && c.max == 0
    &&& c.count > 0 ==> c.min <= c.max
    &&& c.count > 0 && unsaturated(c) ==> c.min * c.count <= c.total <= c.max * c.count
}

/// A new counter is consistent.
pub proof fn lemma_fresh_consistent(name: Seq<char>)
    ensures
        consistent(fresh(name)),
{
}

/// The first measurement of a counter is its shortest and its longest
/// duration and its total.
pub proof fn lemma_first_measurement(name: Seq<char>, duration: u128)
    ensures
        recorded(fresh(name), duration).count == 1,
        recorded(fresh(name), duration).min == duration,
        recorded(fresh(name), duration).max == duration,
        recorded(fresh(name), duration).total == duration,
{
}

/// A consistent counter stays consistent when a measurement is recorded.
pub proof fn lemma_recorded_consistent(c: CounterView, duration: u128)
    requires
        consistent(c),
    ensures
        consistent(recorded(c, duration)),
        recorded(c, duration).count > 0,
{
    let r = recorded(c, duration);
    if unsaturated(r) {
        assert(c.count < u64::MAX);
        assert(r.count == c.count + 1);
        assert(r.total == c.total + duration);
        if c.count > 0 {
            assert(unsaturated(c));
            assert(r.min * (c.count + 1) <= c.total + duration) by (nonlinear_arith)
                requires
                    r.min <= c.min,
                    r.min <= duration,
                    c.min * c.count <= c.total,
                    c.count > 0,
            ;
            assert(c.total + duration <= r.max * (c.count + 1)) by (nonlinear_arith)
                requires
                    c.max <= r.max,
                    duration <= r.max,
                    c.total <= c.max * c.count,
                    c.count > 0,
            ;
        } else {
            assert(r.min * 1 == r.min && r.max * 1 == r.max) by (nonlinear_arith);
        }
    }
}

/// The mean duration of a consistent counter that is not saturated lies
/// between its shortest and its longest duration.
pub proof fn lemma_average_between(c: CounterView)
    requires
        consistent(c),
        unsaturated(c),
        c.count > 0,
    ensures
        c.min <= c.total / (c.count as u128) <= c.max,
{
    let n = c.count as int;
    let t = c.total as int;
    let lo = c.min as int;
    let hi = c.max as int;
    assert(lo <= t / n && t / n <= hi) by (nonlinear_arith)
        requires
            n > 0,
            lo * n <= t,
            t <= hi * n,
    ;
}

impl PerformanceCounter {
    /// A counter without measurements.
    pub fn new(name: &str) -> (r: PerformanceCounter)
        ensures
            r@ == fresh(name@),
            consistent(r@),
    {
        PerformanceCounter {
            name: name.to_owned(),
            total_time: 0,
            count: 0,
            min_time: u128::MAX,
            max_time: 0,
        }
    }

    /// Records a measurement. The first measurement becomes the shortest
    /// and the longest duration.
    pub fn record(&mut self, duration: u128)
        ensures
            final(self)@ == recorded(old(self)@, duration),
            consistent(old(self)@) ==> consistent(final(self)@),
    {
        proof {
            if consistent(old(self)@) {
                lemma_recorded_consistent(old(self)@, duration);
            }
        }
        self.total_time = if duration > u128::MAX - self.total_time {
            u128::MAX
        } else {
            self.total_time + duration
        };
        if self.count < u64::MAX {
            self.count = self.count + 1;
        }
        if duration < self.min_time {
            self.min_time = duration;
        }
        if duration > self.max_time {
            self.max_time = duration;
        }
    }

    /// The mean duration, rounded down; zero before the first measurement.
    /// It lies between the shortest and the longest duration as long as the
    /// counter is not saturated.
    pub fn average(&self) -> (r: u128)
        ensures
            r == if self@.count > 0 {
                self@.total / (self@.count as u128)
            } else {
                0
            },
            consistent(self@) && unsaturated(self@) && self@.count > 0 ==> self@.min <= r
                <= self@.max,
    {
        proof {
            if consistent(self@) && unsaturated(self@) && self@.count > 0 {
                lemma_average_between(self@);
            }
        }
        if self.count > 0 {
            self.total_time / (self.count as u128)
        } else {
            0
        }
    }

    /// The sum of the durations.
    pub fn total(&self) -> (r: u128)
        ensures
            r == self@.total,
    {
        self.total_time
    }

    /// The number of measurements.
    pub fn count(&self) -> (r: u64)
        ensures
            r == self@.count,
    {
        self.count
    }

    /// The shortest duration; zero before the first measurement.
    pub fn min(&self) -> (r: u128)
        ensures
            r == if self@.count > 0 {
                self@.min
            } else {
                0
            },
    {
        if self.count > 0 {
            self.min_time
        } else {
            0
        }
    }

    /// The longest duration.
    pub fn max(&self) -> (r: u128)
        ensures
            r == self@.max,
    {
        self.max_time
    }

    /// The name of the counter.
    pub fn name(&self) -> (r: &str)
        ensures
            r@ == self@.name,
    {
        self.name.as_str()
    }

    /// Forgets every measurement.
    pub fn reset(&mut self)
        ensures
            final(self)@ == fresh(old(self)@.name),
            consistent(final(self)@),
    {
        self.total_time = 0;
        self.count = 0;
        self.min_time = u128::MAX;
        self.max_time = 0;
    }

    /// A copy of the counter.
    pub fn duplicate(&self) -> (r: PerformanceCounter)
        ensures
            r@ == self@,
    {
        PerformanceCounter {
            name: self.name.clone(),
            total_time: self.total_time,
            count: self.count,
            min_time: self.min_time,
            max_time: self.max_time,
        }
    }
}

/// The views of a sequence of counters.
pub open spec fn counter_views(cs: Seq<PerformanceCounter>) -> Seq<CounterView> {
    Seq::new(cs.len(), |k: int| cs[k]@)
}

/// Where the counter named `name` stands in `cs`, or `None`.
pub open spec fn position_of(cs: Seq<CounterView>, name: Seq<char>) -> Option<int>
    decreases cs.len(),
{
    if cs.len() == 0 {
        None
    } else {
        match position_of(cs.drop_last(), name) {
            Some(k) => Some(k),
            None => if cs.last().name == name {
                Some(cs.len() - 1)
            } else {
                None
            },
        }
    }
}

/// What a monitor holds after `duration` is recorded under `name`: the
/// counter of that name has one more measurement, and is added at the end
/// where it was not there.
pub open spec fn recorded_under(cs: Seq<CounterView>, name: Seq<char>, duration: u128) -> Seq<
    CounterView,
> {
    match position_of(cs, name) {
        Some(k) => cs.update(k, recorded(cs[k], duration)),
        None => cs.push(recorded(fresh(name), duration)),
    }
}

/// What a monitor holds after the counter named `name` is reset.
pub open spec fn reset_under(cs: Seq<CounterView>, name: Seq<char>) -> Seq<CounterView> {
    match position_of(cs, name) {
        Some(k) => cs.update(k, fresh(name)),
        None => cs,
    }
}

/// Orders counters by their total, the largest first.
pub struct ByTotal;

impl Ranked<ByTotal> for PerformanceCounter {
    open spec fn precedes(&self, other: &Self) -> bool {
        self@.total > other@.total
    }

    fn is_before(&self, other: &Self) -> (b: bool) {
        self.total_time > other.total_time
    }
}

/// Ordering by total ranks by levels.
pub proof fn lemma_by_total_ranks()
    ensures
        ranks_by_levels::<ByTotal, PerformanceCounter>(),
{
}

/// No two counters have the same name.
pub open spec fn names_distinct(cs: Seq<CounterView>) -> bool {
    forall|i: int, j: int|
        0 <= i < j < cs.len() ==> (#[trigger] cs[i]).name != (#[trigger] cs[j]).name
}

/// What `position_of` finds is a counter of that name; where it finds none,
/// no counter has the name.
pub proof fn lemma_position_names(cs: Seq<CounterView>, name: Seq<char>)
    ensures
        match position_of(cs, name) {
            Some(k) => 0 <= k < cs.len() && cs[k].name == name,
            None => forall|j: int| 0 <= j < cs.len() ==> (#[trigger] cs[j]).name != name,
        },
    decreases cs.len(),
{
    if cs.len() > 0 {
        lemma_position_names(cs.drop_last(), name);
        if position_of(cs.drop_last(), name) is None {
            assert forall|j: int| 0 <= j < cs.len() - 1 implies (#[trigger] cs[j]).name != name by {
                assert(cs.drop_last()[j] == cs[j]);
            }
        }
    }
}

/// Recording under a name, and resetting a name, keep the names of the
/// counters distinct.
pub proof fn lemma_names_stay_distinct(cs: Seq<CounterView>, name: Seq<char>, duration: u128)
    requires
        names_distinct(cs),
    ensures
        names_distinct(recorded_under(cs, name, duration)),
        names_distinct(reset_under(cs, name)),
{
    lemma_position_names(cs, name);
    let after = recorded_under(cs, name, duration);
    assert forall|i: int, j: int| 0 <= i < j < after.len() implies (#[trigger] after[i]).name != (
    #[trigger] after[j]).name by {
        if j < cs.len() {
            assert(after[i].name == cs[i].name && after[j].name == cs[j].name);
        } else {
            assert(after[i].name == cs[i].name);
        }
    }
    let reset = reset_under(cs, name);
    assert forall|i: int, j: int| 0 <= i < j < reset.len() implies (#[trigger] reset[i]).name != (
    #[trigger] reset[j]).name by {
        assert(reset[i].name == cs[i].name && reset[j].name == cs[j].name);
    }
}

/// Every counter of the sequence is consistent.
pub open spec fn all_consistent(cs: Seq<CounterView>) -> bool {
    forall|k: int| 0 <= k < cs.len() ==> consistent(#[trigger] cs[k])
}

/// Consistent counters stay consistent when a measurement is recorded under
/// a name.
pub proof fn lemma_recorded_under_consistent(cs: Seq<CounterView>, name: Seq<char>, duration: u128)
    requires
        all_consistent(cs),
    ensures
        all_consistent(recorded_under(cs, name, duration)),
{
    lemma_position_in_range(cs, name);
    match position_of(cs, name) {
        Some(k) => {
            lemma_recorded_consistent(cs[k], duration);
        },
        None => {
            lemma_recorded_consistent(fresh(name), duration);
        },
    }
}

/// Where `position_of` finds a counter, it is a counter of the sequence.
pub proof fn lemma_position_in_range(cs: Seq<CounterView>, name: Seq<char>)
    ensures
        position_of(cs, name) matches Some(k) ==> 0 <= k < cs.len(),
    decreases cs.len(),
{
    if cs.len() > 0 {
        lemma_position_in_range(cs.drop_last(), name);
    }
}

/// Counters by name, in the order in which the names first came.
pub struct PerformanceMonitor {
    counters: Vec<PerformanceCounter>,
}

impl View for PerformanceMonitor {
    type V = Seq<CounterView>;

    closed spec fn view(&self) -> Seq<CounterView> {
        counter_views(self.counters@)
    }
}

impl PerformanceMonitor {
    /// A monitor without counters.
    pub fn new() -> (r: PerformanceMonitor)
        ensures
            r@.len() == 0,
            all_consistent(r@),
            names_distinct(r@),
    {
        let r = PerformanceMonitor { counters: Vec::new() };
        assert(r@ =~= Seq::<CounterView>::empty());
        r
    }

    fn find(&self, name: &str) -> (r: Option<usize>)
        ensures
            match r {
                Some(k) => k < self@.len() && position_of(self@, name@) == Some(k as int)
                    && self@[k as int].name == name@,
                None => position_of(self@, name@) is None,
            },
    {
        let ghost cs = self@;
        let mut i: usize = 0;
        assert(cs.take(0) =~= Seq::<CounterView>::empty());
        while i < self.counters.len()
            invariant
                i <= self.counters.len(),
                cs == self@,
                cs.len() == self.counters@.len(),
                position_of(cs.take(i as int), name@) is None,
            decreases self.counters.len() - i,
        {
            assert(cs.take(i + 1).drop_last() =~= cs.take(i as int));
            assert(cs.take(i + 1).last() == self.counters@[i as int]@);
            if str_eq(self.counters[i].name.as_str(), name) {
                proof {
                    lemma_position_stays(cs, name@, i as int + 1);
                }
                return Some(i);
            }
            i += 1;
        }
        assert(cs.take(cs.len() as int) =~= cs);
        None
    }

    /// Records a measurement under `name`.
    pub fn record(&mut self, name: &str, duration: u128)
        ensures
            final(self)@ == recorded_under(old(self)@, name@, duration),
            all_consistent(old(self)@) ==> all_consistent(final(self)@),
            names_distinct(old(self)@) ==> names_distinct(final(self)@),
    {
        proof {
            if names_distinct(old(self)@) {
                lemma_names_stay_distinct(old(self)@, name@, duration);
            }
            if all_consistent(old(self)@) {
                lemma_recorded_under_consistent(old(self)@, name@, duration);
            }
        }
        match self.find(name) {
            Some(k) => {
                let mut c = self.counters[k].duplicate();
                c.record(duration);
                self.counters.set(k, c);
                assert(self@ =~= old(self)@.update(k as int, recorded(old(self)@[k as int], duration)));
            },
            None => {
                let mut c = PerformanceCounter::new(name);
                c.record(duration);
                self.counters.push(c);
                assert(self@ =~= old(self)@.push(recorded(fresh(name@), duration)));
            },
        }
    }

    /// A copy of every counter.
    pub fn get_counters(&self) -> (r: Vec<PerformanceCounter>)
        ensures
            counter_views(r@) == self@,
    {
        let mut out: Vec<PerformanceCounter> = Vec::new();
        let mut i: usize = 0;
        assert(counter_views(out@) =~= counter_views(self.counters@.take(0)));
        while i < self.counters.len()
            invariant
                i <= self.counters.len(),
                counter_views(out@) == counter_views(self.counters@.take(i as int)),
            decreases self.counters.len() - i,
        {
            let ghost before = out@;
            let c = self.counters[i].duplicate();
            out.push(c);
            assert(counter_views(out@) =~= counter_views(before).push(c@));
            assert(self.counters@.take(i + 1) =~= self.counters@.take(i as int).push(
                self.counters@[i as int],
            ));
            assert(counter_views(self.counters@.take(i + 1)) =~= counter_views(
                self.counters@.take(i as int),
            ).push(self.counters@[i as int]@));
            i += 1;
        }
        assert(self.counters@.take(self.counters@.len() as int) =~= self.counters@);
        out
    }

    /// A copy of every counter, the counter with the largest total first;
    /// counters of equal total stay in the order in which their names first
    /// came.
    pub fn by_total(&self) -> (r: Vec<PerformanceCounter>)
        ensures
            exists|copies: Seq<PerformanceCounter>|
                counter_views(copies) == self@ && r@ == #[trigger] sorted::<
                    ByTotal,
                    PerformanceCounter,
                >(copies),
            r@.len() == self@.len(),
            ascending::<ByTotal, PerformanceCounter>(r@),
    {
        let copies = self.get_counters();
        proof {
            lemma_by_total_ranks();
            lemma_sorted_ascending::<ByTotal, PerformanceCounter>(copies@);
            lemma_sorted_permutes::<ByTotal, PerformanceCounter>(copies@);
        }
        sort::<ByTotal, PerformanceCounter>(copies)
    }

    /// A copy of the counter named `name`.
    pub fn get_counter(&self, name: &str) -> (r: Option<PerformanceCounter>)
        ensures
            match position_of(self@, name@) {
                Some(k) => r matches Some(c) && c@ == self@[k],
                None => r is None,
            },
    {
        match self.find(name) {
            Some(k) => Some(self.counters[k].duplicate()),
            None => None,
        }
    }

    /// Resets every counter.
    pub fn reset_all(&mut self)
        ensures
            final(self)@ == Seq::new(old(self)@.len(), |k: int| fresh(old(self)@[k].name)),
            all_consistent(final(self)@),
    {
        let mut i: usize = 0;
        while i < self.counters.len()
            invariant
                i <= self.counters.len(),
                self.counters@.len() == old(self).counters@.len(),
                forall|k: int| 0 <= k < i ==> (#[trigger] self.counters@[k])@ == fresh(
                    old(self).counters@[k]@.name,
                ),
                forall|k: int|
                    i <= k < self.counters@.len() ==> #[trigger] self.counters@[k] == old(
                        self,
                    ).counters@[k],
            decreases self.counters.len() - i,
        {
            let mut c = self.counters[i].duplicate();
            c.reset();
            self.counters.set(i, c);
            i += 1;
        }
        assert(self@ =~= Seq::new(old(self)@.len(), |k: int| fresh(old(self)@[k].name)));
    }

    /// Resets the counter named `name`, where there is one.
    pub fn reset(&mut self, name: &str)
        ensures
            final(self)@ == reset_under(old(self)@, name@),
            all_consistent(old(self)@) ==> all_consistent(final(self)@),
            names_distinct(old(self)@) ==> names_distinct(final(self)@),
    {
        proof {
            if names_distinct(old(self)@) {
                lemma_names_stay_distinct(old(self)@, name@, 0);
            }
            lemma_position_in_range(old(self)@, name@);
        }
        match self.find(name) {
            Some(k) => {
                let mut c = self.counters[k].duplicate();
                c.reset();
                self.counters.set(k, c);
                assert(self@ =~= old(self)@.update(k as int, fresh(name@)));
            },
            None => {},
        }
    }
}

/// A name found among the first `n` counters is found there among all.
pub proof fn lemma_position_stays(cs: Seq<CounterView>, name: Seq<char>, n: int)
    requires
        0 < n <= cs.len(),
        position_of(cs.take(n - 1), name) is None,
        cs[n - 1].name == name,
    ensures
        position_of(cs, name) == Some(n - 1),
    decreases cs.len() - n,
{
    assert(cs.take(n).drop_last() =~= cs.take(n - 1));
    assert(position_of(cs.take(n), name) == Some(n - 1));
    lemma_position_extends(cs, name, n);
}

/// A position found in a prefix is the position in the whole.
pub proof fn lemma_position_extends(cs: Seq<CounterView>, name: Seq<char>, n: int)
    requires
        0 <= n <= cs.len(),
        position_of(cs.take(n), name) is Some,
    ensures
        position_of(cs, name) == position_of(cs.take(n), name),
    decreases cs.len() - n,
{
    if n < cs.len() {
        assert(cs.take(n + 1).drop_last() =~= cs.take(n));
        lemma_position_extends(cs, name, n + 1);
    } else {
        assert(cs.take(n) =~= cs);
    }
}

} // verus!
