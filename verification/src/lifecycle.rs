//! The life-cycle stepper: everyone alive grows a year older and may die,
//! and a death reaches those who held the dead as partner or spouse.

use crate::city::City;
use crate::dice::random_below;
use crate::mortality::{threshold_at, DEATH_SCALE};
use crate::relations::RelationVerb;
use rand::rngs::StdRng;
use vstd::prelude::*;

verus! {

broadcast use {
    vstd::std_specs::hash::group_hash_axioms,
    vstd::seq_lib::lemma_seq_contains_after_push,
};

/// The kind under which a survivor remembers someone held under `tier`.
pub open spec fn late_of(tier: RelationVerb) -> RelationVerb {
    if tier == RelationVerb::Spouse {
        RelationVerb::LateSpouse
    } else {
        RelationVerb::LatePartner
    }
}

/// The kind under which a survivor remembers someone held under `tier`.
pub fn late(tier: RelationVerb) -> (kind: RelationVerb)
    ensures
        kind == late_of(tier),
{
    if tier == RelationVerb::Spouse {
        RelationVerb::LateSpouse
    } else {
        RelationVerb::LatePartner
    }
}

impl City {
    /// Whether the two hold each other under `tier`.
    pub open spec fn mutual(&self, a: u128, tier: RelationVerb, b: u128) -> bool {
        self.related(a, tier, b) && self.related(b, tier, a)
    }

    /// Whether `x` survives `d` as the other of a couple of `tier`: the two
    /// hold each other under it, and `x` is alive.
    pub open spec fn survives(&self, x: u128, tier: RelationVerb, d: u128) -> bool {
        self.mutual(d, tier, x) && self.mind(x).alive
    }

    /// Whether `x` holds the dead `d` under `k` once the death has reached
    /// `x`, given the graph before.  Where `x` is alive and the two held
    /// each other as partners, `x` now holds `d` as late partner instead;
    /// likewise for spouses.  Everything else is as before: the edge turns
    /// exactly for a living holder whom the dead held the same way.
    pub open spec fn bereaved_edge(&self, d: u128, x: u128, k: RelationVerb) -> bool {
        match k {
            RelationVerb::Partner => self.related(x, k, d) && !self.survives(x, k, d),
            RelationVerb::Spouse => self.related(x, k, d) && !self.survives(x, k, d),
            RelationVerb::LatePartner => self.related(x, k, d) || self.survives(
                x,
                RelationVerb::Partner,
                d,
            ),
            RelationVerb::LateSpouse => self.related(x, k, d) || self.survives(
                x,
                RelationVerb::Spouse,
                d,
            ),
            _ => self.related(x, k, d),
        }
    }

    /// Turns the survivor's edge of `tier` towards the deceased into the
    /// late edge of that tier.  Without such an edge nothing changes.
    pub fn widow(&mut self, survivor: u128, deceased: u128, tier: RelationVerb)
        requires
            old(self).wf(),
            old(self).has(survivor),
            old(self).has(deceased),
            !old(self).mind(deceased).alive,
            tier.romantic(),
        ensures
            final(self).wf(),
            final(self).same_people(old(self)),
            forall|x: u128| x != survivor && old(self).has(x) ==> final(self).mind(x) == old(self).mind(x),
            forall|x: u128, k: RelationVerb, y: u128|
                final(self).related(x, k, y) <==> (if x == survivor && y == deceased && old(self).related(survivor, tier, deceased) {
                    k == late_of(tier) || (k != tier && old(self).related(x, k, y))
                } else {
                    old(self).related(x, k, y)
                }),
    {
        assert(self.mind(survivor).wf());
        if !self.citizen(survivor).unwrap().relations.contains(tier, deceased) {
            return ;
        }
        proof {
            assert(self.related(survivor, tier, deceased));
            assert(self.edge_ok(survivor, tier, deceased));
        }
        self.remove_edge(survivor, tier, deceased);
        let ghost between = *self;
        self.add_edge(survivor, late(tier), deceased);
        proof {
            self.same_people_chain(&between, old(self));
            self.relations_aside(old(self));
            assert forall|x: u128| self.has(x) implies (#[trigger] self.mind(x)).id == x
                && self.mind(x).wf() by {
                assert(self.mind(x).same_but_relations(&old(self).mind(x)));
            }
            assert forall|x: u128, k: RelationVerb, y: u128| #[trigger]
                self.related(x, k, y) implies self.edge_ok(x, k, y) by {
                assert(self.mind(x).same_but_relations(&old(self).mind(x)));
                assert(self.mind(deceased).same_but_relations(&old(self).mind(deceased)));
                if old(self).related(x, k, y) {
                    assert(old(self).edge_ok(x, k, y));
                    assert(self.mind(y).same_but_relations(&old(self).mind(y)));
                    if k.romantic() && self.mind(x).alive {
                        assert(old(self).related(y, k, x));
                        assert(!(y == survivor && x == deceased));
                    }
                }
            }
        }
    }

    /// Carries the death of `deceased` to everyone the dead held as
    /// partner or spouse: whoever is alive and held the dead the same way
    /// now holds them as late partner or late spouse.  The edges of the
    /// dead stay, those of `deceased` and those of everyone who died before.
    pub fn bereave(&mut self, deceased: u128)
        requires
            old(self).wf(),
            old(self).has(deceased),
            !old(self).mind(deceased).alive,
        ensures
            final(self).wf(),
            final(self).same_people(old(self)),
            forall|x: u128, k: RelationVerb, y: u128|
                final(self).related(x, k, y) <==> (if y == deceased {
                    old(self).bereaved_edge(deceased, x, k)
                } else {
                    old(self).related(x, k, y)
                }),
    {
        assert(self.mind(deceased).wf());
        let mind = self.citizen(deceased).unwrap();
        let partners = mind.get_relations(RelationVerb::Partner);
        let spouses = mind.get_relations(RelationVerb::Spouse);
        proof {
            assert forall|p: u128| partners@.contains(p) <==> self.related(
                deceased,
                RelationVerb::Partner,
                p,
            ) by {
                assert(partners@.to_set().contains(p) <==> partners@.contains(p));
            }
            assert forall|p: u128| spouses@.contains(p) <==> self.related(
                deceased,
                RelationVerb::Spouse,
                p,
            ) by {
                assert(spouses@.to_set().contains(p) <==> spouses@.contains(p));
            }
        }
        self.bereave_tier(deceased, RelationVerb::Partner, &partners);
        let ghost halfway = *self;
        self.bereave_tier(deceased, RelationVerb::Spouse, &spouses);
        proof {
            self.same_people_chain(&halfway, old(self));
            assert forall|x: u128, k: RelationVerb, y: u128|
                self.related(x, k, y) <==> (if y == deceased {
                    old(self).bereaved_edge(deceased, x, k)
                } else {
                    old(self).related(x, k, y)
                }) by {
                if y == deceased {
                    assert(old(self).related(deceased, RelationVerb::Partner, x)
                        ==> old(self).edge_ok(deceased, RelationVerb::Partner, x));
                    assert(old(self).related(deceased, RelationVerb::Spouse, x)
                        ==> old(self).edge_ok(deceased, RelationVerb::Spouse, x));
                }
            }
        }
    }

    /// One tier of `bereave`, over the citizens the dead held under it.
    fn bereave_tier(&mut self, deceased: u128, tier: RelationVerb, held: &Vec<u128>)
        requires
            old(self).wf(),
            old(self).has(deceased),
            !old(self).mind(deceased).alive,
            tier.romantic(),
            forall|p: u128| held@.contains(p) <==> old(self).related(deceased, tier, p),
        ensures
            final(self).wf(),
            final(self).same_people(old(self)),
            forall|x: u128, k: RelationVerb, y: u128|
                final(self).related(x, k, y) <==> (if y == deceased && old(self).survives(
                    x,
                    tier,
                    deceased,
                ) {
                    k == late_of(tier) || (k != tier && old(self).related(x, k, y))
                } else {
                    old(self).related(x, k, y)
                }),
    {
        let mut i: usize = 0;
        while i < held.len()
            invariant
                i <= held@.len(),
                old(self).wf(),
                old(self).has(deceased),
                !old(self).mind(deceased).alive,
                tier.romantic(),
                forall|p: u128| held@.contains(p) <==> old(self).related(deceased, tier, p),
                self.wf(),
                self.same_people(old(self)),
                forall|x: u128, k: RelationVerb, y: u128|
                    self.related(x, k, y) <==> (if y == deceased && old(self).survives(
                        x,
                        tier,
                        deceased,
                    ) && held@.take(i as int).contains(x) {
                        k == late_of(tier) || (k != tier && old(self).related(x, k, y))
                    } else {
                        old(self).related(x, k, y)
                    }),
            decreases held@.len() - i,
        {
            let survivor: u128 = held[i];
            let ghost before = *self;
            proof {
                assert(held@.contains(survivor));
                assert(old(self).edge_ok(deceased, tier, survivor));
                assert(self.mind(deceased).same_but_relations(&old(self).mind(deceased)));
                assert(held@.take(i as int + 1) =~= held@.take(i as int).push(survivor));
            }
            proof {
                assert(self.mind(survivor).same_but_relations(&old(self).mind(survivor)));
            }
            if self.citizen(survivor).unwrap().alive {
                self.widow(survivor, deceased, tier);
            }
            proof {
                self.same_people_chain(&before, old(self));
                assert forall|x: u128, k: RelationVerb, y: u128|
                    self.related(x, k, y) <==> (if y == deceased && old(self).survives(
                        x,
                        tier,
                        deceased,
                    ) && held@.take(i as int + 1).contains(x) {
                        k == late_of(tier) || (k != tier && old(self).related(x, k, y))
                    } else {
                        old(self).related(x, k, y)
                    }) by {
                    crate::seqs::push_contains(held@.take(i as int), survivor, x);
                }
            }
            i += 1;
        }
        proof {
            assert(held@.take(i as int) =~= held@);
        }
    }

    /// One birthday of one citizen, with the year's draw against death.
    /// A living citizen is a year older, and dies where the draw falls
    /// under the death threshold of the new age; the death then reaches
    /// those who held the dead as partner or spouse.  The dead do not age.
    pub fn age_citizen(&mut self, id: u128, roll: u32)
        requires
            old(self).wf(),
            old(self).has(id),
            roll < DEATH_SCALE,
        ensures
            final(self).wf(),
            final(self).same_setting(old(self)),
            final(self).population@.dom() == old(self).population@.dom(),
            forall|x: u128|
                x != id && old(self).has(x) ==> (#[trigger] final(self).mind(
                    x,
                )).same_but_relations(&old(self).mind(x)),
            final(self).mind(id).same_person(&old(self).mind(id)),
            final(self).mind(id).last_name == old(self).mind(id).last_name,
            final(self).mind(id).employer == old(self).mind(id).employer,
            final(self).mind(id).age == (if old(self).mind(id).alive {
                old(self).mind(id).age + 1
            } else {
                old(self).mind(id).age as int
            }),
            final(self).mind(id).alive == (old(self).mind(id).alive && roll >= threshold_at(
                old(self).mind(id).age + 1,
            )),
            forall|x: u128, k: RelationVerb, y: u128|
                final(self).related(x, k, y) <==> (if y == id && old(self).mind(id).alive
                    && !final(self).mind(id).alive {
                    old(self).bereaved_edge(id, x, k)
                } else {
                    old(self).related(x, k, y)
                }),
    {
        let taken = self.population.remove(&id);
        let mut mind = taken.unwrap();
        let was_alive: bool = mind.alive;
        mind.grow_older(roll);
        let died: bool = was_alive && !mind.alive;
        self.population.insert(id, mind);
        let ghost aged = *self;
        proof {
            assert(self.population@.dom() =~= old(self).population@.dom());
            assert forall|x: u128, k: RelationVerb, y: u128|
                aged.related(x, k, y) <==> old(self).related(x, k, y) by {}
            assert forall|x: u128| aged.has(x) implies (#[trigger] aged.mind(x)).id == x
                && aged.mind(x).wf() by {
                if x == id {
                    assert(aged.mind(id).relations == old(self).mind(id).relations);
                    assert(old(self).mind(id).wf());
                } else {
                    assert(aged.mind(x) == old(self).mind(x));
                }
            }
            assert forall|a: u128| aged.has(a) && (#[trigger] aged.mind(a)).alive implies aged.mind(
                a,
            ).age < u32::MAX by {
                if a == id {
                    if old(self).mind(id).age + 1 >= crate::mortality::CERTAIN_DEATH_AGE {
                        crate::mortality::old_age_is_fatal(old(self).mind(id).age + 1);
                    }
                } else {
                    assert(aged.mind(a) == old(self).mind(a));
                }
            }
            assert forall|a: u128|
                aged.has(a) && (#[trigger] aged.mind(a)).employer is Some implies aged.has_institution(
                aged.mind(a).employer->0,
            ) && aged.institution(aged.mind(a).employer->0).employs(a) by {
                if a != id {
                    assert(aged.mind(a) == old(self).mind(a));
                }
            }
            assert forall|x: u128, k: RelationVerb, y: u128| #[trigger]
                aged.related(x, k, y) implies aged.edge_ok(x, k, y) by {
                assert(old(self).related(x, k, y));
                assert(old(self).edge_ok(x, k, y));
            }
            assert forall|i: u128| aged.has_institution(i) implies (#[trigger] aged.institution(
                i,
            )).id == i && aged.institution(i).wf() by {
                assert(aged.institution(i) == old(self).institution(i));
            }
            assert forall|i: u128, a: u128|
                aged.has_institution(i) && #[trigger] aged.institution(i).employs(a) implies aged.has(
                a,
            ) && aged.mind(a).employer == Some(i) by {
                assert(old(self).institution(i).employs(a));
            }
            assert(aged.wf());
        }
        if died {
            self.bereave(id);
            proof {
                assert forall|x: u128| x != id && old(self).has(x) implies (#[trigger] self.mind(
                    x,
                )).same_but_relations(&old(self).mind(x)) by {
                    assert(self.mind(x).same_but_relations(&aged.mind(x)));
                }
                assert(self.mind(id).same_but_relations(&aged.mind(id)));
            }
        }
    }

    /// Whether `y` was alive in `before` and is dead now.
    pub open spec fn died_since(&self, before: &City, y: u128) -> bool {
        before.living(y) && !self.living(y)
    }

    /// How the citizens after a year of ageing relate to those before.
    /// Nobody comes back to life.  The living of before are a year older;
    /// the dead are as they were.  Whoever reaches an age of certain
    /// death dies.  Nothing but age and life changes.
    pub open spec fn aged_from(&self, before: &City) -> bool {
        forall|x: u128|
            before.has(x) ==> {
                let now = #[trigger] self.mind(x);
                let then = before.mind(x);
                &&& now.same_person(&then)
                &&& now.last_name == then.last_name
                &&& now.employer == then.employer
                &&& (now.alive ==> then.alive)
                &&& now.age == (if then.alive {
                    then.age + 1
                } else {
                    then.age as int
                })
                &&& (then.alive && threshold_at(then.age + 1) >= DEATH_SCALE ==> !now.alive)
            }
    }

    /// How the graph after a year of ageing relates to the graph before.
    /// Only partner, spouse and late edges differ.  A partner or spouse
    /// edge can only go, and goes only by turning into the late edge of its
    /// tier, towards someone who died this year.  A late edge can only
    /// come, and comes only so.  No living citizen still holds someone who
    /// died this year as partner or spouse.  The edges of those who were
    /// dead before are as they were: an edge turns only for a holder who was
    /// alive, and only where the two held each other.
    pub open spec fn mourned_from(&self, before: &City) -> bool {
        &&& forall|x: u128, k: RelationVerb, y: u128|
            !k.romantic() && !k.late() ==> (#[trigger] self.related(x, k, y) <==> before.related(
                x,
                k,
                y,
            ))
        &&& forall|x: u128, k: RelationVerb, y: u128|
            k.romantic() && #[trigger] self.related(x, k, y) ==> before.related(x, k, y)
        &&& forall|x: u128, k: RelationVerb, y: u128|
            k.romantic() && #[trigger] before.related(x, k, y) && !self.related(x, k, y)
                ==> self.related(x, late_of(k), y) && self.died_since(before, y)
        &&& forall|x: u128, k: RelationVerb, y: u128|
            k.late() && #[trigger] before.related(x, k, y) ==> self.related(x, k, y)
        &&& forall|x: u128, k: RelationVerb, y: u128|
            k.romantic() && #[trigger] self.related(x, late_of(k), y) && !before.related(
                x,
                late_of(k),
                y,
            ) ==> before.mutual(x, k, y) && before.living(x) && !self.related(x, k, y)
                && self.died_since(before, y)
        &&& forall|x: u128, k: RelationVerb, y: u128|
            k.romantic() && self.living(x) && self.died_since(before, y) ==> !#[trigger] self.related(
                x,
                k,
                y,
            )
        &&& forall|x: u128, k: RelationVerb, y: u128|
            !before.living(x) ==> (#[trigger] self.related(x, k, y) <==> before.related(x, k, y))
    }

    /// How the city after a year of ageing relates to the city before: the
    /// same setting and the same citizens, each aged, and the graph as
    /// mourning leaves it.
    pub open spec fn a_year_aged_from(&self, before: &City) -> bool {
        &&& self.same_setting(before)
        &&& self.population@.dom() == before.population@.dom()
        &&& self.aged_from(before)
        &&& self.mourned_from(before)
    }

    /// One year of ageing.  Every living citizen has a birthday with a draw
    /// of their own against death.
    pub fn increment_citizen_ages(&mut self, rng: &mut StdRng)
        requires
            old(self).wf(),
        ensures
            final(self).wf(),
            final(self).a_year_aged_from(old(self)),
            old(self).monogamous() ==> final(self).monogamous(),
    {
        let ids = self.current_citizens();
        let mut i: usize = 0;
        proof {
            assert(self.mourned_from(old(self)));
        }
        while i < ids.len()
            invariant
                i <= ids@.len(),
                old(self).wf(),
                ids@.no_duplicates(),
                forall|id: u128| ids@.contains(id) <==> old(self).living(id),
                self.wf(),
                self.same_setting(old(self)),
                self.population@.dom() == old(self).population@.dom(),
                self.mourned_from(old(self)),
                forall|x: u128|
                    old(self).has(x) ==> {
                        let now = #[trigger] self.mind(x);
                        let then = old(self).mind(x);
                        &&& now.same_person(&then)
                        &&& now.last_name == then.last_name
                        &&& now.employer == then.employer
                        &&& (now.alive ==> then.alive)
                        &&& (!ids@.take(i as int).contains(x) ==> now.age == then.age && now.alive
                            == then.alive)
                        &&& (ids@.take(i as int).contains(x) ==> now.age == then.age + 1 && (
                        threshold_at(then.age + 1) >= DEATH_SCALE ==> !now.alive))
                    },
            decreases ids@.len() - i,
        {
            let id: u128 = ids[i];
            let ghost before = *self;
            proof {
                assert(ids@.contains(id));
                assert(ids@.take(i as int + 1) =~= ids@.take(i as int).push(id));
                assert(!ids@.take(i as int).contains(id)) by {
                    if ids@.take(i as int).contains(id) {
                        let j = choose|j: int| 0 <= j < i && ids@.take(i as int)[j] == id;
                        assert(ids@[j] == ids@[i as int]);
                    }
                }
                assert(self.mind(id).alive == old(self).mind(id).alive);
            }
            let roll: u32 = random_below(rng, DEATH_SCALE);
            self.age_citizen(id, roll);
            proof {
                assert forall|x: u128| old(self).has(x) implies {
                    let now = #[trigger] self.mind(x);
                    let then = old(self).mind(x);
                    &&& now.same_person(&then)
                    &&& now.last_name == then.last_name
                    &&& now.employer == then.employer
                    &&& (now.alive ==> then.alive)
                    &&& (!ids@.take(i as int + 1).contains(x) ==> now.age == then.age && now.alive
                        == then.alive)
                    &&& (ids@.take(i as int + 1).contains(x) ==> now.age == then.age + 1 && (
                    threshold_at(then.age + 1) >= DEATH_SCALE ==> !now.alive))
                } by {
                    crate::seqs::push_contains(ids@.take(i as int), id, x);
                    let mid = before.mind(x);
                    if x != id {
                        assert(self.mind(x).same_but_relations(&mid));
                    }
                }
                self.mourning_step(&before, old(self), id);
            }
            i += 1;
        }
        proof {
            assert(ids@.take(i as int) =~= ids@);
            assert forall|x: u128| old(self).has(x) implies {
                let now = #[trigger] self.mind(x);
                let then = old(self).mind(x);
                &&& now.same_person(&then)
                &&& now.last_name == then.last_name
                &&& now.employer == then.employer
                &&& (now.alive ==> then.alive)
                &&& now.age == (if then.alive {
                    then.age + 1
                } else {
                    then.age as int
                })
                &&& (then.alive && threshold_at(then.age + 1) >= DEATH_SCALE ==> !now.alive)
            } by {
                assert(ids@.contains(x) <==> old(self).living(x));
            }
            if old(self).monogamous() {
                self.romance_only_goes(old(self));
            }
        }
    }

    /// One citizen's birthday keeps what a year of ageing keeps.
    proof fn mourning_step(&self, before: &City, first: &City, id: u128)
        requires
            first.wf(),
            before.wf(),
            before.mourned_from(first),
            before.population@.dom() == first.population@.dom(),
            self.population@.dom() == first.population@.dom(),
            first.living(id),
            before.living(id),
            forall|x: u128| first.has(x) ==> ((#[trigger] before.mind(x)).alive ==> first.mind(
                x,
            ).alive),
            forall|x: u128|
                x != id && before.has(x) ==> (#[trigger] self.mind(x)).alive == before.mind(x).alive,
            forall|x: u128, k: RelationVerb, y: u128|
                self.related(x, k, y) <==> (if y == id && !self.mind(id).alive {
                    before.bereaved_edge(id, x, k)
                } else {
                    before.related(x, k, y)
                }),
        ensures
            self.mourned_from(first),
    {
        assert forall|x: u128, k: RelationVerb, y: u128| !k.romantic() && !k.late() implies (
        #[trigger] self.related(x, k, y) <==> first.related(x, k, y)) by {
            assert(before.related(x, k, y) <==> first.related(x, k, y));
        }
        assert forall|x: u128, k: RelationVerb, y: u128|
            k.romantic() && #[trigger] self.related(x, k, y) implies first.related(x, k, y) by {
            assert(before.related(x, k, y));
        }
        assert forall|x: u128, k: RelationVerb, y: u128|
            k.romantic() && #[trigger] first.related(x, k, y) && !self.related(
                x,
                k,
                y,
            ) implies self.related(x, late_of(k), y) && self.died_since(first, y) by {
            if before.related(x, k, y) {
                // the edge went on this birthday
                assert(y == id && !self.mind(id).alive);
                assert(before.mutual(id, k, x));
            } else {
                assert(before.related(x, late_of(k), y) && before.died_since(first, y));
                assert(y != id);
            }
        }
        assert forall|x: u128, k: RelationVerb, y: u128|
            k.late() && #[trigger] first.related(x, k, y) implies self.related(x, k, y) by {
            assert(before.related(x, k, y));
        }
        assert forall|x: u128, k: RelationVerb, y: u128|
            k.romantic() && #[trigger] self.related(x, late_of(k), y) && !first.related(
                x,
                late_of(k),
                y,
            ) implies first.mutual(x, k, y) && first.living(x) && !self.related(x, k, y)
            && self.died_since(first, y) by {
            if before.related(x, late_of(k), y) {
                assert(before.related(x, late_of(k), y) && !first.related(x, late_of(k), y));
                assert(first.mutual(x, k, y) && first.living(x) && !before.related(x, k, y)
                    && before.died_since(first, y));
                assert(y != id);
            } else {
                assert(y == id && !self.mind(id).alive);
                assert(before.survives(x, k, id));
                assert(before.related(x, k, y));
                assert(first.related(x, k, y));
                assert(before.related(y, k, x));
                assert(first.related(y, k, x));
                assert(first.has(x)) by {
                    assert(first.edge_ok(y, k, x));
                }
            }
        }
        assert forall|x: u128, k: RelationVerb, y: u128| !first.living(x) implies (
        #[trigger] self.related(x, k, y) <==> first.related(x, k, y)) by {
            assert(before.related(x, k, y) <==> first.related(x, k, y));
            if first.has(x) {
                assert(!before.mind(x).alive);
            }
        }
        assert forall|x: u128, k: RelationVerb, y: u128|
            k.romantic() && self.living(x) && self.died_since(
                first,
                y,
            ) implies !#[trigger] self.related(x, k, y) by {
            if self.related(x, k, y) {
                assert(before.related(x, k, y));
                if y == id {
                    assert(x != id);
                    assert(before.living(x));
                    assert(before.edge_ok(x, k, y));
                    assert(before.related(y, k, x));
                } else {
                    assert(before.died_since(first, y));
                    assert(x == id || before.living(x));
                    assert(before.living(x));
                }
            }
        }
    }
}

} // verus!
