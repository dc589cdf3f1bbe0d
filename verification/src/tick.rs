//! The tick orchestrator: one simulated year, phase by phase, and the
//! sweep that clears up after the dead.

use crate::children::birth_year_of;
use crate::city::City;
use crate::institutions::Venture;
use crate::mind::{Mind, Newcomer};
use crate::relations::{pruning_keeps_edges, without_empty, RelationVerb};
use rand::rngs::StdRng;
use vstd::prelude::*;

verus! {

broadcast use {
    vstd::std_specs::hash::group_hash_axioms,
    vstd::seq_lib::lemma_seq_contains_after_push,
};

/// How many years lie between two sweeps.
pub const CLEANUP_INTERVAL: usize = 5;

/// The share of the employed that is let go each year, in a hundred.
pub const YEARLY_FIRING_PERCENTAGE: u32 = 5;

/// Whether a sweep with this interval falls on this year.
pub open spec fn sweep_due(year: usize, interval: usize) -> bool {
    interval != 0 && year % interval == 0
}

impl City {
    /// Whether the institution has living staff.
    pub open spec fn has_living_staff(&self, i: u128) -> bool {
        exists|a: u128| #[trigger] self.institution(i).employs(a) && self.mind(a).alive
    }

    /// What the sweep makes of a citizen: the empty relation buckets are
    /// gone, and the dead have no employer.
    pub open spec fn swept_mind(now: &Mind, then: &Mind) -> bool {
        &&& now.same_person(then)
        &&& now.alive == then.alive
        &&& now.age == then.age
        &&& now.last_name == then.last_name
        &&& now.relations@ == without_empty(then.relations@)
        &&& now.employer == (if then.alive {
            then.employer
        } else {
            None
        })
    }

    /// How the city after a sweep relates to the city before.  Every
    /// citizen is swept.  The dead are struck off the rosters, and exactly
    /// the institutions that keep living staff remain.
    pub open spec fn swept_from(&self, before: &City) -> bool {
        &&& self.id == before.id
        &&& self.name == before.name
        &&& self.culture == before.culture
        &&& self.areas == before.areas
        &&& self.year == before.year
        &&& self.population@.dom() == before.population@.dom()
        &&& forall|x: u128|
            before.has(x) ==> City::swept_mind(&#[trigger] self.mind(x), &before.mind(x))
        &&& forall|i: u128|
            #[trigger] self.has_institution(i) <==> before.has_institution(i)
                && before.has_living_staff(i)
        &&& forall|i: u128|
            self.has_institution(i) ==> (#[trigger] self.institution(i)).same_but_staff(
                &before.institution(i),
            )
        &&& forall|i: u128, a: u128|
            self.has_institution(i) ==> (#[trigger] self.institution(i).employs(a)
                <==> before.institution(i).employs(a) && before.mind(a).alive)
    }

    /// Sweeps one citizen: drops the empty relation buckets, and strikes
    /// the citizen off the employer's roster if dead.
    fn sweep_citizen(&mut self, id: u128)
        requires
            old(self).wf(),
            old(self).has(id),
        ensures
            final(self).wf(),
            final(self).id == old(self).id,
            final(self).name == old(self).name,
            final(self).culture == old(self).culture,
            final(self).areas == old(self).areas,
            final(self).year == old(self).year,
            final(self).population@.dom() == old(self).population@.dom(),
            final(self).institutions@.dom() == old(self).institutions@.dom(),
            forall|x: u128| x != id && old(self).has(x) ==> final(self).mind(x) == old(self).mind(x),
            City::swept_mind(&final(self).mind(id), &old(self).mind(id)),
            forall|i: u128|
                old(self).has_institution(i) ==> (#[trigger] final(self).institution(
                    i,
                )).same_but_staff(&old(self).institution(i)),
            forall|i: u128, a: u128|
                old(self).has_institution(i) ==> (#[trigger] final(self).institution(i).employs(a)
                    <==> old(self).institution(i).employs(a) && !(a == id && !old(self).mind(
                    id,
                ).alive)),
    {
        let taken = self.population.remove(&id);
        let mut mind = taken.unwrap();
        mind.cleanup();
        let struck: bool = !mind.alive && mind.employer.is_some();
        self.population.insert(id, mind);
        let ghost pruned = *self;
        proof {
            assert(self.population@.dom() =~= old(self).population@.dom());
            assert forall|x: u128, k: RelationVerb, y: u128|
                pruned.related(x, k, y) <==> old(self).related(x, k, y) by {
                if x == id {
                    pruning_keeps_edges(old(self).mind(id).relations@, k, y);
                }
            }
            assert forall|x: u128| pruned.has(x) && x != id implies (#[trigger] pruned.mind(x))
                == old(self).mind(x) by {}
            pruned.consistency_kept(old(self));
            assert(pruned.wf());
        }
        if struck {
            self.release(id);
            proof {
                assert(self.mind(id).same_but_employer(&pruned.mind(id)));
                assert forall|i: u128, a: u128| old(self).has_institution(i) implies (
                #[trigger] self.institution(i).employs(a) <==> old(self).institution(i).employs(a)
                    && !(a == id && !old(self).mind(id).alive)) by {
                    let employer = pruned.mind(id).employer->0;
                    if i != employer {
                        assert(self.institution(i) == pruned.institution(i));
                        if old(self).institution(i).employs(id) {
                            assert(old(self).mind(id).employer == Some(i));
                        }
                    }
                }
            }
        }
    }

    /// Removes an institution.  Only one without staff can go.
    pub fn close(&mut self, id: u128)
        requires
            old(self).wf(),
            old(self).has_institution(id),
            old(self).institution(id).staff@.len() == 0,
        ensures
            final(self).wf(),
            final(self).id == old(self).id,
            final(self).name == old(self).name,
            final(self).culture == old(self).culture,
            final(self).areas == old(self).areas,
            final(self).year == old(self).year,
            final(self).population == old(self).population,
            final(self).institutions@ == old(self).institutions@.remove(id),
    {
        self.institutions.remove(&id);
        proof {
            assert(self.institutions@ =~= old(self).institutions@.remove(id));
            assert forall|i: u128, a: u128|
                old(self).has_institution(i) && #[trigger] old(self).institution(i).employs(
                    a,
                ) implies self.has_institution(i) by {
                old(self).institution(id).roster_is_empty();
            }
            assert forall|x: u128| self.has(x) implies (#[trigger] self.mind(x)) == old(self).mind(
                x,
            ) by {}
            self.consistency_kept(old(self));
        }
    }

    /// How the city after the sweep relates to the city before: swept where
    /// the sweep was due, the same where it was not, and with the same
    /// edges either way.
    pub open spec fn cleaned_from(&self, before: &City, interval: usize) -> bool {
        &&& sweep_due(before.year, interval) ==> self.swept_from(before)
        &&& !sweep_due(before.year, interval) ==> *self == *before
        &&& forall|x: u128, k: RelationVerb, y: u128|
            self.related(x, k, y) <==> before.related(x, k, y)
    }

    /// The sweep, where it is due: in a year that `interval` divides.
    /// Every citizen loses their empty relation buckets, the dead are
    /// struck off the rosters, and the institutions left without staff are
    /// removed.  In any other year, and with an interval of zero, nothing
    /// happens.
    pub fn cleanup(&mut self, interval: usize)
        requires
            old(self).wf(),
        ensures
            final(self).wf(),
            final(self).cleaned_from(old(self), interval),
            old(self).monogamous() ==> final(self).monogamous(),
    {
        if interval == 0 || self.year % interval != 0 {
            return ;
        }
        let all = self.citizens();
        let mut i: usize = 0;
        while i < all.len()
            invariant
                i <= all@.len(),
                all@.no_duplicates(),
                forall|x: u128| all@.contains(x) <==> old(self).has(x),
                old(self).wf(),
                self.wf(),
                self.id == old(self).id,
                self.name == old(self).name,
                self.culture == old(self).culture,
                self.areas == old(self).areas,
                self.year == old(self).year,
                self.population@.dom() == old(self).population@.dom(),
                self.institutions@.dom() == old(self).institutions@.dom(),
                forall|x: u128|
                    old(self).has(x) ==> (if all@.take(i as int).contains(x) {
                        City::swept_mind(&#[trigger] self.mind(x), &old(self).mind(x))
                    } else {
                        self.mind(x) == old(self).mind(x)
                    }),
                forall|j: u128|
                    old(self).has_institution(j) ==> (#[trigger] self.institution(
                        j,
                    )).same_but_staff(&old(self).institution(j)),
                forall|j: u128, a: u128|
                    old(self).has_institution(j) ==> (#[trigger] self.institution(j).employs(a)
                        <==> old(self).institution(j).employs(a) && !(all@.take(i as int).contains(
                        a,
                    ) && !old(self).mind(a).alive)),
            decreases all@.len() - i,
        {
            let id: u128 = all[i];
            let ghost before = *self;
            proof {
                assert(all@.contains(id));
                assert(all@.take(i as int + 1) =~= all@.take(i as int).push(id));
                assert(!all@.take(i as int).contains(id)) by {
                    if all@.take(i as int).contains(id) {
                        let j = choose|j: int| 0 <= j < i && all@.take(i as int)[j] == id;
                        assert(all@[j] == all@[i as int]);
                    }
                }
                assert(self.mind(id) == old(self).mind(id));
            }
            self.sweep_citizen(id);
            proof {
                assert forall|x: u128| old(self).has(x) implies (if all@.take(
                    i as int + 1,
                ).contains(x) {
                    City::swept_mind(&#[trigger] self.mind(x), &old(self).mind(x))
                } else {
                    self.mind(x) == old(self).mind(x)
                }) by {
                    crate::seqs::push_contains(all@.take(i as int), id, x);
                    if x != id {
                        assert(self.mind(x) == before.mind(x));
                    }
                }
                assert forall|j: u128| old(self).has_institution(j) implies (
                #[trigger] self.institution(j)).same_but_staff(&old(self).institution(j)) by {
                    assert(before.institution(j).same_but_staff(&old(self).institution(j)));
                }
                assert forall|j: u128, a: u128| old(self).has_institution(j) implies (
                #[trigger] self.institution(j).employs(a) <==> old(self).institution(j).employs(a)
                    && !(all@.take(i as int + 1).contains(a) && !old(self).mind(a).alive)) by {
                    crate::seqs::push_contains(all@.take(i as int), id, a);
                    assert(before.institution(j).employs(a) <==> old(self).institution(j).employs(
                        a,
                    ) && !(all@.take(i as int).contains(a) && !old(self).mind(a).alive));
                }
            }
            i += 1;
        }
        let ghost tidy = *self;
        proof {
            assert(all@.take(i as int) =~= all@);
            assert forall|j: u128, a: u128| old(self).has_institution(j) implies (
            #[trigger] tidy.institution(j).employs(a) <==> old(self).institution(j).employs(a)
                && old(self).mind(a).alive) by {
                if old(self).institution(j).employs(a) {
                    assert(old(self).has(a));
                }
            }
        }
        let houses = self.institution_ids();
        let mut j: usize = 0;
        while j < houses.len()
            invariant
                j <= houses@.len(),
                houses@.no_duplicates(),
                forall|h: u128| houses@.contains(h) <==> tidy.has_institution(h),
                tidy.wf(),
                self.wf(),
                self.id == tidy.id,
                self.name == tidy.name,
                self.culture == tidy.culture,
                self.areas == tidy.areas,
                self.year == tidy.year,
                self.population == tidy.population,
                forall|h: u128|
                    #[trigger] self.has_institution(h) <==> tidy.has_institution(h) && !(
                    houses@.take(j as int).contains(h) && tidy.institution(h).staff@.len() == 0),
                forall|h: u128|
                    self.has_institution(h) ==> #[trigger] self.institution(h) == tidy.institution(
                        h,
                    ),
            decreases houses@.len() - j,
        {
            let house: u128 = houses[j];
            proof {
                assert(houses@.contains(house));
                assert(houses@.take(j as int + 1) =~= houses@.take(j as int).push(house));
                assert(!houses@.take(j as int).contains(house)) by {
                    if houses@.take(j as int).contains(house) {
                        let k = choose|k: int| 0 <= k < j && houses@.take(j as int)[k] == house;
                        assert(houses@[k] == houses@[j as int]);
                    }
                }
                assert(self.has_institution(house));
            }
            let ghost prior = *self;
            if self.institution_by_id(house).unwrap().staff.len() == 0 {
                self.close(house);
            }
            proof {
                assert(prior.institution(house) == tidy.institution(house));
                assert forall|h: u128|
                    #[trigger] self.has_institution(h) <==> tidy.has_institution(h) && !(
                    houses@.take(j as int + 1).contains(h) && tidy.institution(h).staff@.len()
                        == 0) by {
                    crate::seqs::push_contains(houses@.take(j as int), house, h);
                    assert(prior.has_institution(h) <==> tidy.has_institution(h) && !(
                    houses@.take(j as int).contains(h) && tidy.institution(h).staff@.len() == 0));
                }
                assert forall|h: u128| self.has_institution(h) implies #[trigger] self.institution(
                    h,
                ) == tidy.institution(h) by {
                    assert(prior.has_institution(h));
                    assert(prior.institution(h) == tidy.institution(h));
                }
            }
            j += 1;
        }
        proof {
            assert(houses@.take(j as int) =~= houses@);
            assert forall|h: u128|
                #[trigger] self.has_institution(h) <==> old(self).has_institution(h) && old(
                    self,
                ).has_living_staff(h) by {
                if old(self).has_institution(h) {
                    assert(tidy.has_institution(h));
                    tidy.institution(h).roster_is_empty();
                    if old(self).has_living_staff(h) {
                        let a = choose|a: u128| #[trigger]
                            old(self).institution(h).employs(a) && old(self).mind(a).alive;
                        assert(tidy.institution(h).employs(a));
                    }
                    if tidy.institution(h).staff@.len() > 0 {
                        let a = choose|a: u128| tidy.institution(h).employs(a);
                        assert(old(self).institution(h).employs(a) && old(self).mind(a).alive);
                    }
                }
            }
            assert forall|h: u128| self.has_institution(h) implies (#[trigger] self.institution(
                h,
            )).same_but_staff(&old(self).institution(h)) by {
                assert(self.institution(h) == tidy.institution(h));
                assert(tidy.institution(h).same_but_staff(&old(self).institution(h)));
            }
            assert forall|h: u128, a: u128| self.has_institution(h) implies (
            #[trigger] self.institution(h).employs(a) <==> old(self).institution(h).employs(a)
                && old(self).mind(a).alive) by {
                assert(self.institution(h) == tidy.institution(h));
                assert(tidy.institution(h).employs(a) <==> old(self).institution(h).employs(a)
                    && old(self).mind(a).alive);
            }
            assert forall|x: u128| old(self).has(x) implies City::swept_mind(
                &#[trigger] self.mind(x),
                &old(self).mind(x),
            ) by {
                assert(all@.contains(x));
                assert(City::swept_mind(&tidy.mind(x), &old(self).mind(x)));
            }
            assert forall|x: u128, k: RelationVerb, y: u128|
                self.related(x, k, y) <==> old(self).related(x, k, y) by {
                if old(self).has(x) {
                    assert(City::swept_mind(&self.mind(x), &old(self).mind(x)));
                    pruning_keeps_edges(old(self).mind(x).relations@, k, y);
                }
            }
            if old(self).monogamous() {
                self.romance_only_goes(old(self));
            }
        }
    }

    /// Whether the city is `before` with the calendar turned to the next
    /// year, and nothing else changed.
    pub open spec fn turned_from(&self, before: &City) -> bool {
        &&& self.year == before.year + 1
        &&& self.id == before.id
        &&& self.name == before.name
        &&& self.culture == before.culture
        &&& self.areas == before.areas
        &&& self.population == before.population
        &&& self.institutions == before.institutions
    }

    /// Turns the calendar to the next year.
    fn advance_year(&mut self)
        requires
            old(self).wf(),
            old(self).year < usize::MAX,
        ensures
            final(self).wf(),
            final(self).turned_from(old(self)),
            old(self).monogamous() ==> final(self).monogamous(),
    {
        self.year = self.year + 1;
        proof {
            if old(self).monogamous() {
                assert forall|x: u128, k: RelationVerb, y: u128|
                    k.romantic() && #[trigger] self.related(x, k, y) implies old(self).related(
                    x,
                    k,
                    y,
                ) by {}
                self.romance_only_goes(old(self));
            }
            assert forall|x: u128| self.has(x) implies (#[trigger] self.mind(x)) == old(self).mind(
                x,
            ) by {}
            self.consistency_kept(old(self));
        }
    }

    /// What a year makes of someone who was there before it: the same
    /// person, a year older if alive at its start, and never back from the
    /// dead.
    pub open spec fn a_year_older(now: &Mind, then: &Mind) -> bool {
        &&& now.same_person(then)
        &&& (now.alive ==> then.alive)
        &&& now.age == (if then.alive {
            then.age + 1
        } else {
            then.age as int
        })
    }

    /// How a city relates to the city a year before.  Everyone of before
    /// is still there, a year older if they were alive, and never back from
    /// the dead.  Whoever is new was born this year.  Outside the years of
    /// the sweep no institution goes.
    pub open spec fn a_year_after(&self, before: &City) -> bool {
        &&& self.year == before.year + 1
        &&& self.id == before.id
        &&& self.name == before.name
        &&& self.culture == before.culture
        &&& self.areas == before.areas
        &&& forall|x: u128|
            before.has(x) ==> self.has(x) && City::a_year_older(
                &#[trigger] self.mind(x),
                &before.mind(x),
            )
        &&& forall|c: u128|
            self.has(c) && !before.has(c) ==> (#[trigger] self.mind(c)).alive && self.mind(c).age
                == 0 && self.mind(c).year_of_birth == birth_year_of(self.year)
        &&& !sweep_due(self.year, CLEANUP_INTERVAL) ==> forall|i: u128|
            before.has_institution(i) ==> #[trigger] self.has_institution(i)
    }

    /// Whether a year leads from `first` to `last` through its phases, one
    /// city after each: the calendar `turned`, the citizens `aged`, staff
    /// `fired` and `hired`, company `met`, couples `paired`, children born
    /// and the city `grown`, and at last the sweep.  Each city is what its
    /// phase makes of the one before it.
    pub open spec fn year_in_phases(
        first: &City,
        turned: &City,
        aged: &City,
        fired: &City,
        hired: &City,
        met: &City,
        paired: &City,
        grown: &City,
        last: &City,
        ventures: Seq<Venture>,
        ventures_left: Seq<Venture>,
        newcomers: Seq<Newcomer>,
        newcomers_left: Seq<Newcomer>,
    ) -> bool {
        &&& turned.wf() && turned.turned_from(first)
        &&& aged.wf() && aged.a_year_aged_from(turned)
        &&& fired.wf() && fired.share_fired_from(aged, YEARLY_FIRING_PERCENTAGE)
        &&& hired.wf() && hired.staffed_from(fired, ventures, ventures_left)
        &&& met.wf() && met.a_year_of_company_from(hired)
        &&& paired.wf() && paired.a_year_of_romance_from(met)
        &&& grown.wf() && grown.a_year_of_births_from(paired, newcomers, newcomers_left)
        &&& last.wf() && last.cleaned_from(grown, CLEANUP_INTERVAL)
    }

    /// A year that leads through its phases is a year: everyone of before
    /// is still there, a year older if they were alive, and never back from
    /// the dead; and whoever is new was born this year.
    pub proof fn phases_make_a_year(
        first: &City,
        turned: &City,
        aged: &City,
        fired: &City,
        hired: &City,
        met: &City,
        paired: &City,
        grown: &City,
        last: &City,
        ventures: Seq<Venture>,
        ventures_left: Seq<Venture>,
        newcomers: Seq<Newcomer>,
        newcomers_left: Seq<Newcomer>,
    )
        requires
            City::year_in_phases(
                first,
                turned,
                aged,
                fired,
                hired,
                met,
                paired,
                grown,
                last,
                ventures,
                ventures_left,
                newcomers,
                newcomers_left,
            ),
        ensures
            last.wf(),
            last.a_year_after(first),
    {
        assert forall|x: u128| first.has(x) implies last.has(x) && City::a_year_older(
            &#[trigger] last.mind(x),
            &first.mind(x),
        ) by {
            assert(turned.mind(x) == first.mind(x));
            let m1 = aged.mind(x);
            let m2 = fired.mind(x);
            assert(m2.same_but_employer(&m1));
            let m3 = hired.mind(x);
            assert(m3.same_but_employer(&m2));
            let m4 = met.mind(x);
            assert(m4.same_but_relations(&m3));
            let m5 = paired.mind(x);
            assert(m5.same_but_ties_and_surname(&m4));
            let m6 = grown.mind(x);
            assert(m6.same_but_relations(&m5));
            let m7 = last.mind(x);
            if sweep_due(grown.year, CLEANUP_INTERVAL) {
                assert(City::swept_mind(&m7, &m6));
            }
        }
        assert forall|c: u128| last.has(c) && !first.has(c) implies (#[trigger] last.mind(
            c,
        )).alive && last.mind(c).age == 0 && last.mind(c).year_of_birth == birth_year_of(
            last.year,
        ) by {
            assert(grown.has(c));
            assert(!paired.has(c));
            assert(grown.born_to_a_couple_of(c, &paired));
            if sweep_due(grown.year, CLEANUP_INTERVAL) {
                assert(City::swept_mind(&last.mind(c), &grown.mind(c)));
            }
        }
        if !sweep_due(last.year, CLEANUP_INTERVAL) {
            assert forall|i: u128| first.has_institution(i) implies #[trigger] last.has_institution(
                i,
            ) by {
                assert(turned.has_institution(i));
                assert(aged.has_institution(i));
                assert(fired.has_institution(i));
                assert(hired.institution(i).same_but_staff(&fired.institution(i)));
                assert(hired.has_institution(i));
                assert(met.has_institution(i));
                assert(paired.has_institution(i));
                assert(grown.has_institution(i));
            }
        }
    }

    /// Whether the city is what some year makes of `before`, through its
    /// phases, whatever was drawn and supplied.
    pub open spec fn year_ran_from(&self, before: &City) -> bool {
        exists|
            turned: City,
            aged: City,
            fired: City,
            hired: City,
            met: City,
            paired: City,
            grown: City,
            ventures: Seq<Venture>,
            ventures_left: Seq<Venture>,
            newcomers: Seq<Newcomer>,
            newcomers_left: Seq<Newcomer>,
        | #[trigger]
            City::year_in_phases(
                before,
                &turned,
                &aged,
                &fired,
                &hired,
                &met,
                &paired,
                &grown,
                self,
                ventures,
                ventures_left,
                newcomers,
                newcomers_left,
            )
    }

    /// Whatever year ran, it ends in a consistent city a year after the
    /// one before.
    pub proof fn a_year_ends_in_order(&self, before: &City)
        requires
            self.year_ran_from(before),
        ensures
            self.wf(),
            self.a_year_after(before),
    {
        let (
            turned,
            aged,
            fired,
            hired,
            met,
            paired,
            grown,
            ventures,
            ventures_left,
            newcomers,
            newcomers_left,
        ) = choose|
            turned: City,
            aged: City,
            fired: City,
            hired: City,
            met: City,
            paired: City,
            grown: City,
            ventures: Seq<Venture>,
            ventures_left: Seq<Venture>,
            newcomers: Seq<Newcomer>,
            newcomers_left: Seq<Newcomer>,
        | #[trigger]
            City::year_in_phases(
                before,
                &turned,
                &aged,
                &fired,
                &hired,
                &met,
                &paired,
                &grown,
                self,
                ventures,
                ventures_left,
                newcomers,
                newcomers_left,
            );
        City::phases_make_a_year(
            before,
            &turned,
            &aged,
            &fired,
            &hired,
            &met,
            &paired,
            &grown,
            self,
            ventures,
            ventures_left,
            newcomers,
            newcomers_left,
        );
    }

    /// One simulated year: the calendar turns, everyone ages and some die,
    /// staff are let go and the unemployed hired, acquaintances are made
    /// and social ties rolled, singles pair up and couples move on,
    /// children are born, and every fifth year the sweep clears up.
    ///
    /// Whatever is drawn, the city stays consistent, nobody leaves it or
    /// comes back to life, whoever was alive is a year older, and whoever
    /// is new was born this year.
    pub fn simulate_year(
        &mut self,
        rng: &mut StdRng,
        newcomers: &mut Vec<Newcomer>,
        ventures: &mut Vec<Venture>,
    )
        requires
            old(self).wf(),
            old(self).year < usize::MAX,
        ensures
            final(self).wf(),
            final(self).a_year_after(old(self)),
            old(self).monogamous() ==> final(self).monogamous(),
            final(newcomers)@.is_prefix_of(old(newcomers)@),
            final(ventures)@.is_prefix_of(old(ventures)@),
            final(self).year_ran_from(old(self)),
            exists|turned: City, aged: City, fired: City, hired: City, met: City, paired: City, grown: City|
                #[trigger] City::year_in_phases(
                    old(self),
                    &turned,
                    &aged,
                    &fired,
                    &hired,
                    &met,
                    &paired,
                    &grown,
                    final(self),
                    old(ventures)@,
                    final(ventures)@,
                    old(newcomers)@,
                    final(newcomers)@,
                ),
    {
        self.advance_year();
        let ghost turned = *self;
        self.increment_citizen_ages(rng);
        let ghost aged = *self;
        self.fire_percentage(rng, YEARLY_FIRING_PERCENTAGE);
        let ghost fired = *self;
        self.fill_and_create_jobs(rng, ventures);
        let ghost hired = *self;
        self.temp_add_friends(rng);
        let ghost befriended = *self;
        self.update_mind_partner_relations(rng);
        let ghost paired = *self;
        self.generate_children(rng, newcomers);
        let ghost grown = *self;
        self.cleanup(CLEANUP_INTERVAL);
        proof {
            assert(City::year_in_phases(
                old(self),
                &turned,
                &aged,
                &fired,
                &hired,
                &befriended,
                &paired,
                &grown,
                self,
                old(ventures)@,
                ventures@,
                old(newcomers)@,
                newcomers@,
            ));
            City::phases_make_a_year(
                old(self),
                &turned,
                &aged,
                &fired,
                &hired,
                &befriended,
                &paired,
                &grown,
                self,
                old(ventures)@,
                ventures@,
                old(newcomers)@,
                newcomers@,
            );
        }
    }
}

} // verus!
