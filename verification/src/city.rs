//! The city: its citizens, their relations, and its institutions.

use crate::culture::Culture;
use crate::identity::{fresh_id, random_uuid_shape};
use crate::institutions::Institution;
use crate::mind::{random_mind, Mind, Newcomer, ARRIVAL_AGE_SPAN};
use rand::rngs::StdRng;
use crate::relations::{with_edge, without_edge, RelationVerb};
use crate::seqs::{filter_facts, filter_start, filter_step};
use std::collections::HashMap;
use vstd::prelude::*;
use vstd::std_specs::iter::IteratorSpec;

verus! {

broadcast use {
    vstd::std_specs::hash::group_hash_axioms,
    vstd::seq_lib::lemma_seq_contains_after_push,
};

/// A district of the city.
#[derive(Clone, Debug)]
pub struct Area {
    pub id: u128,
    pub name: String,
    pub size: usize,
}

pub type Population = HashMap<u128, Mind>;

/// A city in a given year.
#[derive(Clone, Debug)]
pub struct City {
    pub id: u128,
    pub name: String,
    pub culture: Culture,
    pub population: Population,
    pub areas: HashMap<u128, Area>,
    pub institutions: HashMap<u128, Institution>,
    pub year: usize,
}

/// Whether `mind` is the citizen that `draw` becomes on arrival in the
/// first year of a city of `culture`: alive, grown, without ties or work,
/// with the names, looks and character of the draw.
pub open spec fn arrived_as(mind: &Mind, culture: &Culture, draw: &Newcomer) -> bool {
    &&& random_uuid_shape(mind.id)
    &&& mind.alive
    &&& mind.employer is None
    &&& culture.adult_age <= mind.age < culture.adult_age + ARRIVAL_AGE_SPAN
    &&& mind.year_of_birth == mind.age - 2 * culture.adult_age
    &&& mind.relations@ == Map::<RelationVerb, Set<u128>>::empty()
    &&& mind.first_name == draw.first_name_for(mind.gender)
    &&& mind.last_name == draw.last_name
    &&& mind.origional_last_name == draw.last_name
    &&& mind.description == draw.description
    &&& mind.personality == draw.personality
}

/// A city in its first year, peopled with the arrivals: grown citizens
/// without ties or work.  An id is drawn for every arrival, and the
/// citizens are filed under the ids drawn; an arrival whose drawn id is
/// taken is left out.  So a city with arrivals is never empty.
pub fn random_city(rng: &mut StdRng, culture: Culture, arrivals: Vec<Newcomer>) -> (city: City)
    requires
        culture.adult_age + ARRIVAL_AGE_SPAN <= i32::MAX,
    ensures
        city.wf(),
        city.monogamous(),
        random_uuid_shape(city.id),
        city.year == 0,
        city.culture == culture,
        city.name@.len() == 0,
        city.institutions@.len() == 0,
        city.areas@.len() == 0,
        city.population@.len() <= arrivals@.len(),
        exists|drawn: Seq<u128>|
            drawn.len() == arrivals@.len() && city.population@.dom() == #[trigger] drawn.to_set(),
        forall|x: u128|
            city.has(x) ==> exists|j: int|
                0 <= j < arrivals@.len() && arrived_as(
                    &city.mind(x),
                    &culture,
                    &#[trigger] arrivals@[j],
                ),
        forall|x: u128|
            city.has(x) ==> {
                let mind = #[trigger] city.mind(x);
                &&& mind.alive
                &&& mind.employer is None
                &&& culture.adult_age <= mind.age < culture.adult_age + ARRIVAL_AGE_SPAN
                &&& mind.relations@ == Map::<RelationVerb, Set<u128>>::empty()
            },
{
    let ghost given = arrivals@;
    let ghost mut drawn: Seq<u128> = Seq::empty();
    let mut arrivals = arrivals;
    let mut city = City {
        id: fresh_id(),
        name: String::new(),
        culture,
        population: HashMap::new(),
        areas: HashMap::new(),
        institutions: HashMap::new(),
        year: 0,
    };
    let ghost total = arrivals@.len();
    assert(city.wf()) by {
        assert forall|a: u128, kind: RelationVerb, b: u128| #[trigger]
            city.related(a, kind, b) implies city.edge_ok(a, kind, b) by {}
    }
    while arrivals.len() > 0
        invariant
            city.wf(),
            random_uuid_shape(city.id),
            city.year == 0,
            city.culture == culture,
            culture.adult_age + ARRIVAL_AGE_SPAN <= i32::MAX,
            city.name@.len() == 0,
            city.institutions@.len() == 0,
            city.areas@.len() == 0,
            arrivals@.len() <= total,
            total == given.len(),
            arrivals@ == given.take(arrivals@.len() as int),
            drawn.len() + arrivals@.len() == total,
            city.population@.dom() == drawn.to_set(),
            forall|x: u128|
                city.has(x) ==> exists|j: int|
                    0 <= j < given.len() && arrived_as(&city.mind(x), &culture, &#[trigger] given[j]),
            city.population@.dom().finite(),
            city.population@.len() + arrivals@.len() <= total,
            forall|x: u128|
                city.has(x) ==> {
                    let mind = #[trigger] city.mind(x);
                    &&& mind.alive
                    &&& mind.employer is None
                    &&& culture.adult_age <= mind.age < culture.adult_age + ARRIVAL_AGE_SPAN
                    &&& mind.relations@ == Map::<RelationVerb, Set<u128>>::empty()
                },
        decreases arrivals@.len(),
    {
        let ghost at = arrivals@.len() - 1;
        let draw = arrivals.pop().unwrap();
        let mind = random_mind(rng, &city.culture, 0, draw);
        let ghost before = city;
        let ghost id = mind.id;
        let ghost made = mind;
        proof {
            assert(draw == given[at]);
            assert(arrivals@ =~= given.take(arrivals@.len() as int));
            assert(arrived_as(&mind, &culture, &given[at]));
            drawn = drawn.push(id);
        }
        if city.citizen(mind.id).is_none() {
            city.add_citizen(mind);
            proof {
                assert forall|x: u128| city.has(x) implies exists|j: int|
                    0 <= j < given.len() && arrived_as(
                        &city.mind(x),
                        &culture,
                        &#[trigger] given[j],
                    ) by {
                    if x != id {
                        assert(before.has(x));
                        assert(city.mind(x) == before.mind(x));
                        let j = choose|j: int|
                            0 <= j < given.len() && arrived_as(
                                &before.mind(x),
                                &culture,
                                &#[trigger] given[j],
                            );
                        assert(arrived_as(&city.mind(x), &culture, &given[j]));
                    } else {
                        assert(city.mind(x) == made);
                        assert(arrived_as(&made, &culture, &given[at]));
                    }
                }
                assert forall|x: u128| city.has(x) implies {
                    let m = #[trigger] city.mind(x);
                    &&& m.alive
                    &&& m.employer is None
                    &&& culture.adult_age <= m.age < culture.adult_age + ARRIVAL_AGE_SPAN
                    &&& m.relations@ == Map::<RelationVerb, Set<u128>>::empty()
                } by {
                    if x != mind.id {
                        assert(city.mind(x) == before.mind(x));
                    }
                }
            }
        }
        proof {
            assert(city.population@.dom() =~= drawn.to_set()) by {
                assert forall|x: u128| drawn.to_set().contains(x) <==> city.population@.dom().contains(
                    x,
                ) by {
                    crate::seqs::push_contains(drawn.drop_last(), id, x);
                    assert(drawn.drop_last().to_set().contains(x) <==> drawn.drop_last().contains(x));
                    assert(drawn.to_set().contains(x) <==> drawn.contains(x));
                    assert(drawn =~= drawn.drop_last().push(id));
                }
            }
        }
    }
    proof {
        assert(drawn.len() == given.len() && city.population@.dom() == drawn.to_set());
        assert forall|x: u128, k1: RelationVerb, y: u128, k2: RelationVerb, z: u128|
            k1.romantic() && k2.romantic() && #[trigger] city.related(x, k1, y)
                && #[trigger] city.related(x, k2, z) implies y == z && k1 == k2 by {
            assert(!city.mind(x).relations@.contains_key(k1));
        }
    }
    city
}

impl City {
    /// No district is ever full.
    pub fn area_is_full(_area_id: u128) -> (full: bool)
        ensures
            !full,
    {
        false
    }

    /// Whether the city has a citizen, alive or dead, with this id.
    pub open spec fn has(&self, id: u128) -> bool {
        self.population@.contains_key(id)
    }

    /// The citizen with this id.
    pub open spec fn mind(&self, id: u128) -> Mind {
        self.population@[id]
    }

    /// Whether citizen `a` holds `b` under `kind`.
    pub open spec fn related(&self, a: u128, kind: RelationVerb, b: u128) -> bool {
        self.has(a) && self.mind(a).related(kind, b)
    }

    /// Whether the citizen with this id exists and lives.
    pub open spec fn living(&self, id: u128) -> bool {
        self.has(id) && self.mind(id).alive
    }

    /// Whether the city has an institution with this id.
    pub open spec fn has_institution(&self, id: u128) -> bool {
        self.institutions@.contains_key(id)
    }

    /// The institution with this id.
    pub open spec fn institution(&self, id: u128) -> Institution {
        self.institutions@[id]
    }

    /// What an edge from `a` to `b` under `kind` asks of the rest of the graph.
    ///
    /// Nobody relates to themselves, and the other end exists.  A late
    /// partner or spouse is dead.  A partner or spouse of a living citizen
    /// holds that citizen the same way; the edges that the dead leave behind
    /// need no answer.  Every other edge is answered by its mirror.
    pub open spec fn edge_ok(&self, a: u128, kind: RelationVerb, b: u128) -> bool {
        &&& a != b
        &&& self.has(b)
        &&& if kind.late() {
            !self.mind(b).alive
        } else if kind.romantic() {
            self.mind(a).alive ==> self.related(b, kind, a)
        } else {
            self.related(b, kind.mirror_of(), a)
        }
    }

    /// Every citizen is filed under their own id with a well-formed
    /// relation table, and every edge is in order.
    pub open spec fn graph_wf(&self) -> bool {
        &&& forall|a: u128| self.has(a) ==> (#[trigger] self.mind(a)).id == a && self.mind(a).wf()
        &&& forall|a: u128, kind: RelationVerb, b: u128| #[trigger]
            self.related(a, kind, b) ==> self.edge_ok(a, kind, b)
    }

    /// Employer and roster agree: a citizen's employer exists and lists
    /// them, and everyone on a roster exists and names that employer.
    pub open spec fn employment_wf(&self) -> bool {
        &&& forall|i: u128|
            self.has_institution(i) ==> (#[trigger] self.institution(i)).id == i
                && self.institution(i).wf()
        &&& forall|a: u128|
            self.has(a) && (#[trigger] self.mind(a)).employer is Some ==> self.has_institution(
                self.mind(a).employer->0,
            ) && self.institution(self.mind(a).employer->0).employs(a)
        &&& forall|i: u128, a: u128|
            self.has_institution(i) && #[trigger] self.institution(i).employs(a) ==> self.has(a)
                && self.mind(a).employer == Some(i)
    }

    /// No living citizen is at the end of the age range.
    pub open spec fn ages_wf(&self) -> bool {
        forall|a: u128| self.has(a) && (#[trigger] self.mind(a)).alive ==> self.mind(a).age < u32::MAX
    }

    /// The consistency that every year of the simulation keeps.
    pub open spec fn wf(&self) -> bool {
        &&& self.graph_wf()
        &&& self.employment_wf()
        &&& self.ages_wf()
    }

    /// Everything of the city but its population is as in `other`.
    pub open spec fn same_setting(&self, other: &City) -> bool {
        &&& self.id == other.id
        &&& self.name == other.name
        &&& self.culture == other.culture
        &&& self.areas == other.areas
        &&& self.institutions == other.institutions
        &&& self.year == other.year
    }

    /// The same citizens in the same state as in `other`, relations aside,
    /// in the same setting.
    pub open spec fn same_people(&self, other: &City) -> bool {
        &&& self.same_setting(other)
        &&& self.population@.dom() == other.population@.dom()
        &&& forall|x: u128|
            other.has(x) ==> (#[trigger] self.mind(x)).same_but_relations(&other.mind(x))
    }

    /// The ids of all citizens, alive or dead, each once.
    pub fn citizens(&self) -> (ids: Vec<u128>)
        ensures
            ids@.no_duplicates(),
            forall|id: u128| ids@.contains(id) <==> self.has(id),
    {
        let mut ids: Vec<u128> = Vec::new();
        for key in it: self.population.keys()
            invariant
                it.seq() == self.population.keys().remaining(),
                ids@ == it.seq().take(it.index()).unref(),
        {
            ids.push(*key);
        }
        proof {
            assert(ids@ == self.population.keys().remaining().unref());
            assert(ids@.to_set() == self.population@.dom());
            assert forall|id: u128| ids@.contains(id) <==> self.has(id) by {
                assert(ids@.to_set().contains(id) <==> ids@.contains(id));
            }
        }
        ids
    }

    /// The test for a living citizen, as a predicate on ids.
    pub open spec fn is_living(&self) -> spec_fn(u128) -> bool {
        |id: u128| self.living(id)
    }

    /// The test for a living single citizen, as a predicate on ids.
    pub open spec fn is_living_single(&self) -> spec_fn(u128) -> bool {
        |id: u128| self.living(id) && self.mind(id).single()
    }

    /// The ids of the living citizens, each once.
    pub fn current_citizens(&self) -> (ids: Vec<u128>)
        ensures
            ids@.no_duplicates(),
            forall|id: u128| ids@.contains(id) <==> self.living(id),
    {
        let all = self.citizens();
        let mut ids: Vec<u128> = Vec::new();
        let mut i: usize = 0;
        proof {
            filter_start(all@, self.is_living());
        }
        while i < all.len()
            invariant
                i <= all@.len(),
                forall|id: u128| all@.contains(id) <==> self.has(id),
                ids@ == all@.take(i as int).filter(self.is_living()),
            decreases all@.len() - i,
        {
            let id: u128 = all[i];
            assert(all@.contains(id));
            proof {
                filter_step(all@, i as int, self.is_living());
            }
            let mind = self.citizen(id);
            if mind.unwrap().alive {
                ids.push(id);
            }
            i += 1;
        }
        proof {
            assert(all@.take(i as int) =~= all@);
            filter_facts(all@, self.is_living());
        }
        ids
    }

    /// The ids of the living citizens who are single, each once.
    pub fn current_single_citizens(&self) -> (ids: Vec<u128>)
        requires
            self.wf(),
        ensures
            ids@.no_duplicates(),
            forall|id: u128| ids@.contains(id) <==> self.living(id) && self.mind(id).single(),
    {
        let all = self.citizens();
        let mut ids: Vec<u128> = Vec::new();
        let mut i: usize = 0;
        proof {
            filter_start(all@, self.is_living_single());
        }
        while i < all.len()
            invariant
                self.wf(),
                i <= all@.len(),
                forall|id: u128| all@.contains(id) <==> self.has(id),
                ids@ == all@.take(i as int).filter(self.is_living_single()),
            decreases all@.len() - i,
        {
            let id: u128 = all[i];
            assert(all@.contains(id));
            proof {
                filter_step(all@, i as int, self.is_living_single());
            }
            let mind = self.citizen(id).unwrap();
            assert(self.mind(id).wf());
            if mind.alive && mind.is_single() {
                ids.push(id);
            }
            i += 1;
        }
        proof {
            assert(all@.take(i as int) =~= all@);
            filter_facts(all@, self.is_living_single());
        }
        ids
    }

    /// The citizen with this id, if there is one.
    pub fn citizen(&self, id: u128) -> (found: Option<&Mind>)
        ensures
            found is Some <==> self.has(id),
            found matches Some(m) ==> *m == self.mind(id),
    {
        self.population.get(&id)
    }

    /// Registers a newcomer without ties or employer.
    pub fn add_citizen(&mut self, mind: Mind)
        requires
            old(self).wf(),
            !old(self).has(mind.id),
            mind.wf(),
            mind.relations@ == Map::<RelationVerb, Set<u128>>::empty(),
            mind.employer is None,
            mind.alive ==> mind.age < u32::MAX,
        ensures
            final(self).wf(),
            final(self).same_setting(old(self)),
            final(self).population@ == old(self).population@.insert(mind.id, mind),
    {
        let ghost id = mind.id;
        self.population.insert(mind.id, mind);
        proof {
            assert forall|a: u128| self.has(a) && a != id implies (#[trigger] self.mind(a))
                == old(self).mind(a) by {}
            assert forall|x: u128, k: RelationVerb, y: u128|
                self.related(x, k, y) <==> old(self).related(x, k, y) by {
                if x == id {
                    assert(!mind.relations@.contains_key(k));
                }
            }
            self.consistency_kept(old(self));
        }
    }

    /// Nobody holds more than one citizen as partner or spouse, nor one
    /// citizen as both.
    pub open spec fn monogamous(&self) -> bool {
        forall|x: u128, k1: RelationVerb, y: u128, k2: RelationVerb, z: u128|
            k1.romantic() && k2.romantic() && #[trigger] self.related(x, k1, y)
                && #[trigger] self.related(x, k2, z) ==> y == z && k1 == k2
    }

    /// Where partner and spouse edges only go, monogamy stays.
    pub proof fn romance_only_goes(&self, before: &City)
        requires
            before.monogamous(),
            forall|x: u128, k: RelationVerb, y: u128|
                k.romantic() && #[trigger] self.related(x, k, y) ==> before.related(x, k, y),
        ensures
            self.monogamous(),
    {
        assert forall|x: u128, k1: RelationVerb, y: u128, k2: RelationVerb, z: u128|
            k1.romantic() && k2.romantic() && #[trigger] self.related(x, k1, y)
                && #[trigger] self.related(x, k2, z) implies y == z && k1 == k2 by {
            assert(before.related(x, k1, y));
            assert(before.related(x, k2, z));
        }
    }

    /// Two changes to relations alone make one.
    pub proof fn same_people_chain(&self, between: &City, before: &City)
        requires
            self.same_people(between),
            between.same_people(before),
        ensures
            self.same_people(before),
    {
        assert forall|x: u128| before.has(x) implies (#[trigger] self.mind(x)).same_but_relations(
            &before.mind(x),
        ) by {
            assert(between.mind(x).same_but_relations(&before.mind(x)));
            assert(self.mind(x).same_but_relations(&between.mind(x)));
        }
    }

    /// Consistency carries over from `before` to a city with the same
    /// edges, in which everyone of `before` lives or is dead as before and
    /// has the employer they had, whoever is new has none, the
    /// institutions are among those of `before` and unchanged, and no
    /// institution with staff is gone.
    pub proof fn consistency_kept(&self, before: &City)
        requires
            before.wf(),
            forall|x: u128|
                before.has(x) ==> self.has(x) && (#[trigger] self.mind(x)).alive == before.mind(
                    x,
                ).alive && self.mind(x).employer == before.mind(x).employer,
            forall|x: u128|
                self.has(x) ==> (#[trigger] self.mind(x)).id == x && self.mind(x).wf() && (
                self.mind(x).alive ==> self.mind(x).age < u32::MAX),
            forall|x: u128|
                self.has(x) && !before.has(x) ==> (#[trigger] self.mind(x)).employer is None,
            forall|x: u128, k: RelationVerb, y: u128|
                self.related(x, k, y) <==> before.related(x, k, y),
            forall|i: u128|
                self.has_institution(i) ==> before.has_institution(i) && (
                #[trigger] self.institution(i)) == before.institution(i),
            forall|i: u128, a: u128|
                before.has_institution(i) && #[trigger] before.institution(i).employs(a)
                    ==> self.has_institution(i),
        ensures
            self.wf(),
    {
        assert forall|a: u128, kind: RelationVerb, b: u128| #[trigger]
            self.related(a, kind, b) implies self.edge_ok(a, kind, b) by {
            assert(before.related(a, kind, b));
            assert(before.edge_ok(a, kind, b));
            assert(self.mind(a).alive == before.mind(a).alive);
            assert(self.mind(b).alive == before.mind(b).alive);
        }
        assert forall|i: u128| self.has_institution(i) implies (#[trigger] self.institution(i)).id
            == i && self.institution(i).wf() by {
            assert(self.institution(i) == before.institution(i));
        }
        assert forall|a: u128|
            self.has(a) && (#[trigger] self.mind(a)).employer is Some implies self.has_institution(
            self.mind(a).employer->0,
        ) && self.institution(self.mind(a).employer->0).employs(a) by {
            let e = self.mind(a).employer->0;
            assert(before.has(a));
            assert(before.mind(a).employer == Some(e));
            assert(before.institution(e).employs(a));
            assert(self.institution(e) == before.institution(e));
        }
        assert forall|i: u128, a: u128|
            self.has_institution(i) && #[trigger] self.institution(i).employs(a) implies self.has(
            a,
        ) && self.mind(a).employer == Some(i) by {
            assert(self.institution(i) == before.institution(i));
            assert(before.institution(i).employs(a));
            assert(self.mind(a).employer == before.mind(a).employer);
        }
    }

    /// A change to relations alone leaves employment and ages in order.
    pub proof fn relations_aside(&self, before: &City)
        requires
            self.same_people(before),
            before.employment_wf(),
            before.ages_wf(),
        ensures
            self.employment_wf(),
            self.ages_wf(),
    {
        assert forall|i: u128| self.has_institution(i) implies (#[trigger] self.institution(i)).id
            == i && self.institution(i).wf() by {
            assert(before.has_institution(i));
            assert(self.institution(i) == before.institution(i));
        }
        assert forall|a: u128| self.has(a) && (#[trigger] self.mind(a)).employer is Some implies self.has_institution(
            self.mind(a).employer->0,
        ) && self.institution(self.mind(a).employer->0).employs(a) by {
            assert(self.mind(a).same_but_relations(&before.mind(a)));
        }
        assert forall|i: u128, a: u128|
            self.has_institution(i) && #[trigger] self.institution(i).employs(a) implies self.has(
            a,
        ) && self.mind(a).employer == Some(i) by {
            assert(before.institution(i).employs(a));
            assert(self.mind(a).same_but_relations(&before.mind(a)));
        }
        assert forall|a: u128| self.has(a) && (#[trigger] self.mind(a)).alive implies self.mind(
            a,
        ).age < u32::MAX by {
            assert(self.mind(a).same_but_relations(&before.mind(a)));
        }
    }

    /// Puts `b` under `kind` in the table of `a`, and nothing else.
    pub(crate) fn add_edge(&mut self, a: u128, kind: RelationVerb, b: u128)
        requires
            old(self).has(a),
            old(self).mind(a).wf(),
        ensures
            final(self).same_people(old(self)),
            final(self).mind(a).wf(),
            final(self).mind(a).relations@ == with_edge(old(self).mind(a).relations@, kind, b),
            forall|x: u128| x != a && old(self).has(x) ==> final(self).mind(x) == old(self).mind(x),
            forall|x: u128, k: RelationVerb, y: u128|
                final(self).related(x, k, y) <==> (old(self).related(x, k, y) || (x == a && k
                    == kind && y == b)),
    {
        let taken = self.population.remove(&a);
        let mut mind = taken.unwrap();
        mind.relations.insert(kind, b);
        self.population.insert(a, mind);
        assert(self.population@.dom() =~= old(self).population@.dom());
    }

    /// Takes `b` from under `kind` in the table of `a`, and nothing else.
    pub(crate) fn remove_edge(&mut self, a: u128, kind: RelationVerb, b: u128)
        requires
            old(self).has(a),
            old(self).mind(a).wf(),
        ensures
            final(self).same_people(old(self)),
            final(self).mind(a).wf(),
            final(self).mind(a).relations@ == without_edge(old(self).mind(a).relations@, kind, b),
            forall|x: u128| x != a && old(self).has(x) ==> final(self).mind(x) == old(self).mind(x),
            forall|x: u128, k: RelationVerb, y: u128|
                final(self).related(x, k, y) <==> (old(self).related(x, k, y) && !(x == a && k
                    == kind && y == b)),
    {
        let taken = self.population.remove(&a);
        let mut mind = taken.unwrap();
        mind.relations.remove(kind, b);
        self.population.insert(a, mind);
        assert(self.population@.dom() =~= old(self).population@.dom());
    }

    /// Gives the citizen a new surname, and changes nothing else.
    pub fn rename(&mut self, id: u128, last_name: String)
        requires
            old(self).wf(),
            old(self).has(id),
        ensures
            final(self).wf(),
            final(self).same_setting(old(self)),
            final(self).population@.dom() == old(self).population@.dom(),
            forall|x: u128| x != id && old(self).has(x) ==> final(self).mind(x) == old(self).mind(x),
            final(self).mind(id) == (Mind { last_name: last_name, ..old(self).mind(id) }),
            forall|x: u128, k: RelationVerb, y: u128|
                final(self).related(x, k, y) <==> old(self).related(x, k, y),
    {
        let taken = self.population.remove(&id);
        let mut mind = taken.unwrap();
        mind.last_name = last_name;
        self.population.insert(id, mind);
        proof {
            assert(self.population@.dom() =~= old(self).population@.dom());
            assert forall|x: u128, k: RelationVerb, y: u128|
                self.related(x, k, y) <==> old(self).related(x, k, y) by {}
            assert forall|x: u128| old(self).has(x) implies (#[trigger] self.mind(x)).alive
                == old(self).mind(x).alive && self.mind(x).id == old(self).mind(x).id
                && self.mind(x).relations == old(self).mind(x).relations && self.mind(x).age
                == old(self).mind(x).age && self.mind(x).employer == old(self).mind(x).employer by {}
            self.consistency_kept(old(self));
        }
    }

    /// Whether `b` can be held under `kind`: only the dead are held as late
    /// partner or late spouse.
    pub open spec fn can_be_held(&self, kind: RelationVerb, b: u128) -> bool {
        kind.late() ==> !self.mind(b).alive
    }

    /// Whether `b` can be held under `kind`.
    pub fn may_be_held(&self, kind: RelationVerb, b: u128) -> (yes: bool)
        requires
            self.has(b),
        ensures
            yes == self.can_be_held(kind, b),
    {
        if kind == RelationVerb::LatePartner || kind == RelationVerb::LateSpouse {
            !self.citizen(b).unwrap().alive
        } else {
            true
        }
    }

    /// Relates `a` and `b`: `b` goes under `kind` in the table of `a`, and
    /// `a` under the mirror of `kind` in the table of `b`.  Of a late
    /// kind only the edge towards the dead is written: the living are not
    /// remembered as late.
    pub fn link(&mut self, a: u128, b: u128, kind: RelationVerb)
        requires
            old(self).wf(),
            old(self).has(a),
            old(self).has(b),
            a != b,
        ensures
            final(self).wf(),
            final(self).same_people(old(self)),
            final(self).mind(a).relations@ == (if old(self).can_be_held(kind, b) {
                with_edge(old(self).mind(a).relations@, kind, b)
            } else {
                old(self).mind(a).relations@
            }),
            final(self).mind(b).relations@ == (if old(self).can_be_held(kind.mirror_of(), a) {
                with_edge(old(self).mind(b).relations@, kind.mirror_of(), a)
            } else {
                old(self).mind(b).relations@
            }),
            forall|x: u128|
                x != a && x != b && old(self).has(x) ==> final(self).mind(x) == old(self).mind(x),
            forall|x: u128, k: RelationVerb, y: u128|
                final(self).related(x, k, y) <==> (old(self).related(x, k, y) || (x == a && k
                    == kind && y == b && old(self).can_be_held(kind, b)) || (x == b && k
                    == kind.mirror_of() && y == a && old(self).can_be_held(kind.mirror_of(), a))),
    {
        let back: RelationVerb = kind.mirror();
        let forth_holds: bool = self.may_be_held(kind, b);
        let back_holds: bool = self.may_be_held(back, a);
        proof {
            assert(self.mind(a).wf() && self.mind(b).wf());
        }
        if forth_holds {
            self.add_edge(a, kind, b);
        }
        let ghost between = *self;
        proof {
            assert(between.mind(b).same_but_relations(&old(self).mind(b)));
        }
        if back_holds {
            self.add_edge(b, back, a);
        }
        proof {
            self.same_people_chain(&between, old(self));
            self.relations_aside(old(self));
            assert forall|x: u128| self.has(x) implies (#[trigger] self.mind(x)).id == x
                && self.mind(x).wf() by {
                assert(self.mind(x).same_but_relations(&old(self).mind(x)));
            }
            assert forall|x: u128, k: RelationVerb, y: u128| #[trigger]
                self.related(x, k, y) implies self.edge_ok(x, k, y) by {
                if old(self).related(x, k, y) {
                    assert(old(self).edge_ok(x, k, y));
                    assert(self.mind(x).same_but_relations(&old(self).mind(x)));
                    assert(self.mind(y).same_but_relations(&old(self).mind(y)));
                } else {
                    assert(self.mind(a).same_but_relations(&old(self).mind(a)));
                    assert(self.mind(b).same_but_relations(&old(self).mind(b)));
                }
            }
        }
    }

    /// Undoes `link`: takes `b` from under `kind` in the table of `a`, and
    /// `a` from under the mirror of `kind` in the table of `b`.
    pub fn unlink(&mut self, a: u128, b: u128, kind: RelationVerb)
        requires
            old(self).wf(),
            old(self).has(a),
            old(self).has(b),
        ensures
            final(self).wf(),
            final(self).same_people(old(self)),
            forall|x: u128|
                x != a && x != b && old(self).has(x) ==> final(self).mind(x) == old(self).mind(x),
            forall|x: u128, k: RelationVerb, y: u128|
                final(self).related(x, k, y) <==> (old(self).related(x, k, y) && !(x == a && k
                    == kind && y == b) && !(x == b && k == kind.mirror_of() && y == a)),
    {
        self.remove_edge(a, kind, b);
        self.remove_edge(b, kind.mirror(), a);
        proof {
            self.relations_aside(old(self));
            assert forall|x: u128| self.has(x) implies (#[trigger] self.mind(x)).id == x
                && self.mind(x).wf() by {
                assert(self.mind(x).same_but_relations(&old(self).mind(x)));
            }
            assert forall|x: u128, k: RelationVerb, y: u128| #[trigger]
                self.related(x, k, y) implies self.edge_ok(x, k, y) by {
                assert(old(self).related(x, k, y));
                assert(old(self).edge_ok(x, k, y));
                assert(self.mind(x).same_but_relations(&old(self).mind(x)));
                assert(self.mind(y).same_but_relations(&old(self).mind(y)));
            }
        }
    }
}

} // verus!
