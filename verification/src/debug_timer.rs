//! A stopwatch that adds up the time spent under named labels.

use std::time::{Duration, Instant};
use vstd::prelude::*;
use vstd::string::*;

verus! {

#[verifier::external_type_specification]
#[verifier::external_body]
pub struct ExInstant(Instant);

/// The running total of each label, in milliseconds, and the moment the
/// current lap began.
#[derive(Debug)]
pub struct DebugTimer {
    pub start: Instant,
    pub times_millis: Vec<(String, u128)>,
}

/// Calls `std::time::Instant::now`.  Nothing is claimed of the moment.
#[verifier::external_body]
fn now() -> Instant {
    Instant::now()
}

/// Calls `std::time::Instant::elapsed`.  Nothing is claimed of the time
/// that passed.
#[verifier::external_body]
fn time_since(start: &Instant) -> Duration {
    start.elapsed()
}

/// Calls `std::time::Duration::as_millis`.  Nothing is claimed of the
/// number of milliseconds.
#[verifier::external_body]
fn whole_millis(span: &Duration) -> u128 {
    span.as_millis()
}

/// Whether `i` is the first entry under `name`.
pub open spec fn first_under(times: Seq<(String, u128)>, name: Seq<char>, i: int) -> bool {
    &&& 0 <= i < times.len()
    &&& times[i].0@ == name
    &&& forall|j: int| 0 <= j < i ==> (#[trigger] times[j]).0@ != name
}

/// Whether `after` is `before` with `millis` recorded under `name`: added
/// to the first entry under that name, or put last as a new entry.
pub open spec fn recorded(
    before: Seq<(String, u128)>,
    after: Seq<(String, u128)>,
    name: Seq<char>,
    millis: u128,
) -> bool {
    if exists|i: int| first_under(before, name, i) {
        let i = choose|i: int| first_under(before, name, i);
        &&& after.len() == before.len()
        &&& after[i].0@ == name
        &&& after[i].1 == before[i].1 + millis
        &&& forall|j: int| 0 <= j < before.len() && j != i ==> after[j] == before[j]
    } else {
        &&& after.len() == before.len() + 1
        &&& after.last().0@ == name
        &&& after.last().1 == millis
        &&& forall|j: int| 0 <= j < before.len() ==> after[j] == before[j]
    }
}

/// Whether adding `millis` to the total under `name` stays in range.
pub open spec fn fits(times: Seq<(String, u128)>, name: Seq<char>, millis: u128) -> bool {
    forall|i: int| first_under(times, name, i) ==> times[i].1 + millis <= u128::MAX
}

/// Whether `after` is what a lap of `millis` under `name` makes of
/// `before`: the lap is recorded where the total stays in range, and
/// nothing changes where it would not.
pub open spec fn lap_added(
    before: Seq<(String, u128)>,
    after: Seq<(String, u128)>,
    name: Seq<char>,
    millis: u128,
) -> bool {
    if fits(before, name, millis) {
        recorded(before, after, name, millis)
    } else {
        after == before
    }
}

/// A timer without totals, started now.
pub fn new_debug_timer() -> (timer: DebugTimer)
    ensures
        timer.times_millis@.len() == 0,
{
    DebugTimer { start: now(), times_millis: Vec::new() }
}

impl DebugTimer {
    fn find(&self, name: &str) -> (found: Option<usize>)
        ensures
            found matches Some(i) ==> first_under(self.times_millis@, name@, i as int),
            found is None ==> forall|i: int| !first_under(self.times_millis@, name@, i),
    {
        let wanted = String::from_str(name);
        let mut i: usize = 0;
        while i < self.times_millis.len()
            invariant
                i <= self.times_millis@.len(),
                wanted@ == name@,
                forall|j: int| 0 <= j < i ==> (#[trigger] self.times_millis@[j]).0@ != name@,
            decreases self.times_millis@.len() - i,
        {
            if self.times_millis[i].0 == wanted {
                return Some(i);
            }
            i += 1;
        }
        None
    }

    /// Records `millis` under `name`.
    pub fn record(&mut self, name: &str, millis: u128)
        requires
            fits(old(self).times_millis@, name@, millis),
        ensures
            final(self).start == old(self).start,
            recorded(old(self).times_millis@, final(self).times_millis@, name@, millis),
    {
        match self.find(name) {
            Some(i) => {
                proof {
                    first_is_unique(self.times_millis@, name@, i as int);
                }
                let total: u128 = self.times_millis[i].1 + millis;
                let label = self.times_millis[i].0.clone();
                self.times_millis[i] = (label, total);
            },
            None => {
                self.times_millis.push((String::from_str(name), millis));
            },
        }
    }

    fn can_record(&self, name: &str, millis: u128) -> (yes: bool)
        ensures
            yes == fits(self.times_millis@, name@, millis),
    {
        match self.find(name) {
            Some(i) => {
                proof {
                    first_is_unique(self.times_millis@, name@, i as int);
                    assert forall|j: int| first_under(self.times_millis@, name@, j) implies j
                        == i by {
                        first_is_unique(self.times_millis@, name@, j);
                    }
                }
                self.times_millis[i].1 <= u128::MAX - millis
            },
            None => true,
        }
    }

    /// Ends the lap: the time since the last lap began goes under `name`,
    /// and a new lap begins.  A total that would leave the range of its
    /// type stays as it is.
    ///
    /// Whatever the clock says, the totals are those of a lap of some
    /// number of milliseconds; a label without an entry gets one.
    pub fn add_timestamp(&mut self, name: &str)
        ensures
            exists|millis: u128| #[trigger]
                lap_added(old(self).times_millis@, final(self).times_millis@, name@, millis),
            (forall|i: int| !first_under(old(self).times_millis@, name@, i)) ==> final(self).times_millis@.len() == old(self).times_millis@.len() + 1 && final(self).times_millis@.last().0@ == name@,
            final(self).times_millis@.len() >= old(self).times_millis@.len(),
    {
        let span = time_since(&self.start);
        let millis: u128 = whole_millis(&span);
        if self.can_record(name, millis) {
            self.record(name, millis);
        }
        self.start = now();
        proof {
            assert(lap_added(old(self).times_millis@, self.times_millis@, name@, millis));
        }
    }

    /// Forgets every total and begins a new lap.
    pub fn clear(&mut self)
        ensures
            final(self).times_millis@.len() == 0,
    {
        self.start = now();
        self.times_millis = Vec::new();
    }
}

proof fn first_is_unique(times: Seq<(String, u128)>, name: Seq<char>, i: int)
    requires
        first_under(times, name, i),
    ensures
        (choose|k: int| first_under(times, name, k)) == i,
{
    let k = choose|k: int| first_under(times, name, k);
    assert(first_under(times, name, k));
    if k < i {
        assert(times[k].0@ != name);
    } else if i < k {
        assert(times[i].0@ != name);
    }
}

} // verus!
