//! The employment allocator: staff are let go, the unemployed are hired,
//! and institutions are founded where nobody is hiring.

use crate::city::City;
use crate::dice::shuffle;
use crate::identity::random_uuid_shape;
use crate::institutions::{
    can_raise_temples, founded_with_titles, random_institution, staffed_by_tags, Institution,
    RoleDemand, StaffDefinition, Venture,
};
use crate::mind::Mind;
use crate::relations::RelationVerb;
use crate::seqs::{filter_facts, filter_start, filter_step};
use rand::rngs::StdRng;
use vstd::prelude::*;
use vstd::std_specs::iter::IteratorSpec;

verus! {

broadcast use {
    vstd::std_specs::hash::group_hash_axioms,
    vstd::seq_lib::lemma_seq_contains_after_push,
};

impl City {
    /// Everything of the city but employers and rosters is as in `other`:
    /// the same citizens with the same relations, the same institutions
    /// but for their staff.
    pub open spec fn same_but_employment(&self, other: &City) -> bool {
        &&& self.id == other.id
        &&& self.name == other.name
        &&& self.culture == other.culture
        &&& self.areas == other.areas
        &&& self.year == other.year
        &&& self.population@.dom() == other.population@.dom()
        &&& forall|x: u128|
            other.has(x) ==> (#[trigger] self.mind(x)).same_but_employer(&other.mind(x))
        &&& forall|i: u128|
            other.has_institution(i) ==> self.has_institution(i) && (#[trigger] self.institution(
                i,
            )).same_but_staff(&other.institution(i))
    }

    /// A change to employment alone leaves the graph and the ages in order.
    pub proof fn employment_aside(&self, before: &City)
        requires
            self.same_but_employment(before),
            before.graph_wf(),
            before.ages_wf(),
        ensures
            self.graph_wf(),
            self.ages_wf(),
            forall|x: u128, k: RelationVerb, y: u128|
                self.related(x, k, y) <==> before.related(x, k, y),
    {
        assert forall|x: u128, k: RelationVerb, y: u128|
            self.related(x, k, y) <==> before.related(x, k, y) by {
            if before.has(x) {
                assert(self.mind(x).same_but_employer(&before.mind(x)));
            }
        }
        assert forall|a: u128| self.has(a) implies (#[trigger] self.mind(a)).id == a && self.mind(
            a,
        ).wf() by {
            assert(self.mind(a).same_but_employer(&before.mind(a)));
        }
        assert forall|a: u128, kind: RelationVerb, b: u128| #[trigger]
            self.related(a, kind, b) implies self.edge_ok(a, kind, b) by {
            assert(before.related(a, kind, b));
            assert(before.edge_ok(a, kind, b));
            assert(self.mind(a).same_but_employer(&before.mind(a)));
            assert(self.mind(b).same_but_employer(&before.mind(b)));
        }
        assert forall|a: u128| self.has(a) && (#[trigger] self.mind(a)).alive implies self.mind(
            a,
        ).age < u32::MAX by {
            assert(self.mind(a).same_but_employer(&before.mind(a)));
        }
    }

    /// Two changes to employment alone make one.
    pub proof fn same_but_employment_chain(&self, between: &City, before: &City)
        requires
            self.same_but_employment(between),
            between.same_but_employment(before),
        ensures
            self.same_but_employment(before),
    {
        assert forall|x: u128| before.has(x) implies (#[trigger] self.mind(x)).same_but_employer(
            &before.mind(x),
        ) by {
            assert(between.mind(x).same_but_employer(&before.mind(x)));
            assert(self.mind(x).same_but_employer(&between.mind(x)));
        }
        assert forall|i: u128| before.has_institution(i) implies self.has_institution(i) && (
        #[trigger] self.institution(i)).same_but_staff(&before.institution(i)) by {
            assert(between.institution(i).same_but_staff(&before.institution(i)));
            assert(self.institution(i).same_but_staff(&between.institution(i)));
        }
    }

    /// Sets the employer of a citizen, and nothing else.
    fn set_employer(&mut self, id: u128, employer: Option<u128>)
        requires
            old(self).has(id),
        ensures
            final(self).id == old(self).id,
            final(self).name == old(self).name,
            final(self).culture == old(self).culture,
            final(self).areas == old(self).areas,
            final(self).year == old(self).year,
            final(self).institutions == old(self).institutions,
            final(self).population@ == old(self).population@.insert(
                id,
                Mind { employer: employer, ..old(self).mind(id) },
            ),
    {
        let taken = self.population.remove(&id);
        let mut mind = taken.unwrap();
        mind.employer = employer;
        self.population.insert(id, mind);
        assert(self.population@ =~= old(self).population@.insert(
            id,
            Mind { employer: employer, ..old(self).mind(id) },
        ));
    }

    /// Puts a citizen without employer on the roster of an institution,
    /// under `title`, from this year on.
    pub fn hire(&mut self, id: u128, employer: u128, title: String)
        requires
            old(self).wf(),
            old(self).has(id),
            old(self).mind(id).employer is None,
            old(self).has_institution(employer),
        ensures
            final(self).wf(),
            final(self).same_but_employment(old(self)),
            final(self).institutions@.dom() == old(self).institutions@.dom(),
            final(self).mind(id).employer == Some(employer),
            forall|x: u128| x != id && old(self).has(x) ==> final(self).mind(x) == old(self).mind(x),
            forall|i: u128|
                i != employer && old(self).has_institution(i) ==> final(self).institution(i) == old(self).institution(i),
            !old(self).institution(employer).employs(id),
            final(self).institution(employer).staff@ == old(self).institution(employer).staff@.insert(
                id,
                StaffDefinition {
                    title: title,
                    employee_id: id,
                    salary: 0,
                    started_year: old(self).year,
                },
            ),
    {
        let taken = self.institutions.remove(&employer);
        let mut institution = taken.unwrap();
        let ghost roster = institution.staff@;
        let entry = StaffDefinition { title, employee_id: id, salary: 0, started_year: self.year };
        institution.staff.insert(id, entry);
        self.institutions.insert(employer, institution);
        self.set_employer(id, Some(employer));
        proof {
            assert(self.institutions@.dom() =~= old(self).institutions@.dom());
            assert(self.population@.dom() =~= old(self).population@.dom());
            assert(!old(self).institution(employer).employs(id));
            assert(self.same_but_employment(old(self)));
            self.employment_aside(old(self));
            assert forall|i: u128| self.has_institution(i) implies (#[trigger] self.institution(
                i,
            )).id == i && self.institution(i).wf() by {
                if i == employer {
                    assert(old(self).institution(i).wf());
                    assert forall|x: u128| self.institution(i).staff@.contains_key(x) implies (
                    #[trigger] self.institution(i).staff@[x]).employee_id == x by {
                        if x != id {
                            assert(roster.contains_key(x));
                        }
                    }
                } else {
                    assert(self.institution(i) == old(self).institution(i));
                }
            }
            assert forall|a: u128|
                self.has(a) && (#[trigger] self.mind(a)).employer is Some implies self.has_institution(
                self.mind(a).employer->0,
            ) && self.institution(self.mind(a).employer->0).employs(a) by {
                if a == id {
                } else {
                    assert(self.mind(a) == old(self).mind(a));
                    let e = self.mind(a).employer->0;
                    if e == employer {
                        assert(roster.contains_key(a));
                    } else {
                        assert(self.institution(e) == old(self).institution(e));
                    }
                }
            }
            assert forall|i: u128, a: u128|
                self.has_institution(i) && #[trigger] self.institution(i).employs(a) implies self.has(
                a,
            ) && self.mind(a).employer == Some(i) by {
                if i == employer {
                    if a != id {
                        assert(old(self).institution(i).employs(a));
                    }
                } else {
                    assert(old(self).institution(i).employs(a));
                }
            }
        }
    }

    /// Whether the citizen can be let go: employed, and not the last
    /// member of staff.
    pub open spec fn can_dismiss(&self, id: u128) -> bool {
        self.has(id) && self.mind(id).employer is Some && self.institution(
            self.mind(id).employer->0,
        ).staff@.len() > 1
    }

    /// Takes an employed citizen off the employer's roster, whatever is
    /// left of it.
    pub fn release(&mut self, id: u128)
        requires
            old(self).wf(),
            old(self).has(id),
            old(self).mind(id).employer is Some,
        ensures
            final(self).wf(),
            final(self).same_but_employment(old(self)),
            final(self).institutions@.dom() == old(self).institutions@.dom(),
            forall|x: u128| x != id && old(self).has(x) ==> final(self).mind(x) == old(self).mind(x),
            final(self).mind(id).employer is None,
            forall|i: u128|
                i != old(self).mind(id).employer->0 && old(self).has_institution(i) ==> final(self).institution(i) == old(self).institution(i),
            final(self).institution(old(self).mind(id).employer->0).staff@ == old(self).institution(old(self).mind(id).employer->0).staff@.remove(id),
            final(self).institution(old(self).mind(id).employer->0).staff@.len() == old(self).institution(old(self).mind(id).employer->0).staff@.len() - 1,
    {
        let employer: u128 = self.citizen(id).unwrap().employer.unwrap();
        proof {
            assert(self.has_institution(employer) && self.institution(employer).employs(id));
        }
        let taken = self.institutions.remove(&employer);
        let mut institution = taken.unwrap();
        let ghost roster = institution.staff@;
        institution.staff.remove(&id);
        self.institutions.insert(employer, institution);
        self.set_employer(id, None);
        proof {
            assert(self.institutions@.dom() =~= old(self).institutions@.dom());
            assert(self.population@.dom() =~= old(self).population@.dom());
            let left = self.institution(employer).staff@;
            assert(left == roster.remove(id));
            assert(left.dom() =~= roster.dom().remove(id));
            assert(left.len() == roster.len() - 1);
            assert(self.same_but_employment(old(self)));
            self.employment_aside(old(self));
            assert forall|i: u128| self.has_institution(i) implies (#[trigger] self.institution(
                i,
            )).id == i && self.institution(i).wf() by {
                if i == employer {
                    assert(old(self).institution(i).wf());
                    assert forall|x: u128| left.contains_key(x) implies (#[trigger] left[x]).employee_id
                        == x by {
                        assert(roster.contains_key(x));
                    }
                } else {
                    assert(self.institution(i) == old(self).institution(i));
                }
            }
            assert forall|a: u128|
                self.has(a) && (#[trigger] self.mind(a)).employer is Some implies self.has_institution(
                self.mind(a).employer->0,
            ) && self.institution(self.mind(a).employer->0).employs(a) by {
                assert(a != id);
                assert(self.mind(a) == old(self).mind(a));
                let e = self.mind(a).employer->0;
                if e != employer {
                    assert(self.institution(e) == old(self).institution(e));
                } else {
                    assert(roster.contains_key(a));
                }
            }
            assert forall|i: u128, a: u128|
                self.has_institution(i) && #[trigger] self.institution(i).employs(a) implies self.has(
                a,
            ) && self.mind(a).employer == Some(i) by {
                assert(old(self).institution(i).employs(a));
                if i == employer {
                    assert(a != id);
                } else if a == id {
                    assert(old(self).mind(id).employer == Some(i));
                }
            }
        }
    }

    /// Lets the citizen go, if that does not empty the employer's roster.
    pub fn dismiss(&mut self, id: u128) -> (gone: bool)
        requires
            old(self).wf(),
            old(self).has(id),
        ensures
            gone == old(self).can_dismiss(id),
            final(self).wf(),
            final(self).same_but_employment(old(self)),
            final(self).institutions@.dom() == old(self).institutions@.dom(),
            forall|x: u128| x != id && old(self).has(x) ==> final(self).mind(x) == old(self).mind(x),
            !gone ==> final(self).mind(id) == old(self).mind(id) && forall|i: u128|
                old(self).has_institution(i) ==> final(self).institution(i) == old(self).institution(i),
            gone ==> {
                let employer = old(self).mind(id).employer->0;
                &&& final(self).mind(id).employer is None
                &&& forall|i: u128|
                    i != employer && old(self).has_institution(i) ==> final(self).institution(i)
                        == old(self).institution(i)
                &&& final(self).institution(employer).staff@ == old(self).institution(
                    employer,
                ).staff@.remove(id)
                &&& final(self).institution(employer).staff@.len() == old(self).institution(
                    employer,
                ).staff@.len() - 1
            },
    {
        let employer: u128 = match self.citizen(id).unwrap().employer {
            Some(e) => e,
            None => {
                return false;
            },
        };
        if self.institution_by_id(employer).unwrap().staff.len() <= 1 {
            return false;
        }
        self.release(id);
        true
    }

    /// Registers a new institution without staff.
    pub fn found(&mut self, institution: Institution)
        requires
            old(self).wf(),
            !old(self).has_institution(institution.id),
            institution.staff@.len() == 0,
        ensures
            final(self).wf(),
            final(self).same_but_employment(old(self)),
            final(self).institutions@ == old(self).institutions@.insert(
                institution.id,
                institution,
            ),
            forall|x: u128| old(self).has(x) ==> final(self).mind(x) == old(self).mind(x),
    {
        let ghost id = institution.id;
        self.institutions.insert(institution.id, institution);
        proof {
            assert forall|i: u128| old(self).has_institution(i) implies self.institution(i)
                == old(self).institution(i) by {}
            assert(self.same_but_employment(old(self)));
            self.employment_aside(old(self));
            assert forall|a: u128|
                self.has(a) && (#[trigger] self.mind(a)).employer is Some implies self.has_institution(
                self.mind(a).employer->0,
            ) && self.institution(self.mind(a).employer->0).employs(a) by {
                let e = self.mind(a).employer->0;
                assert(old(self).has_institution(e));
                assert(self.institution(e) == old(self).institution(e));
            }
            assert forall|i: u128, a: u128|
                self.has_institution(i) && #[trigger] self.institution(i).employs(a) implies self.has(
                a,
            ) && self.mind(a).employer == Some(i) by {
                if i != id {
                    assert(old(self).institution(i).employs(a));
                }
            }
        }
    }

    /// Founds the institution `made` with `id` as its first member of staff
    /// under `title`, from this year on: where there is an institution to
    /// found and a title to hire under, and no institution has its id.
    /// Anywhere else nothing happens.
    pub fn found_and_hire(&mut self, id: u128, made: Option<Institution>, title: Option<
        String,
    >) -> (hired: bool)
        requires
            old(self).wf(),
            old(self).has(id),
            old(self).mind(id).employer is None,
            made matches Some(house) ==> house.staff@.len() == 0,
        ensures
            final(self).wf(),
            hired == (made is Some && title is Some && !old(self).has_institution(made->0.id)),
            !hired ==> *final(self) == *old(self),
            hired ==> final(self).founded_for(old(self), id, &made->0, title->0),
    {
        let house = match made {
            Some(house) => house,
            None => {
                return false;
            },
        };
        let name = match title {
            Some(name) => name,
            None => {
                return false;
            },
        };
        let employer: u128 = house.id;
        if self.institution_by_id(employer).is_some() {
            return false;
        }
        proof {
            house.roster_is_empty();
            assert(house.staff@ =~= Map::<u128, StaffDefinition>::empty());
        }
        self.found(house);
        let ghost founded = *self;
        self.hire(id, employer, name);
        proof {
            self.same_but_employment_chain(&founded, old(self));
            assert(self.institutions@.dom() =~= old(self).institutions@.dom().insert(employer));
            assert forall|i: u128| old(self).has_institution(i) implies self.institution(i) == old(
                self,
            ).institution(i) by {
                assert(founded.institution(i) == old(self).institution(i));
            }
            assert forall|x: u128| x != id && old(self).has(x) implies self.mind(x) == old(
                self,
            ).mind(x) by {
                assert(founded.mind(x) == old(self).mind(x));
            }
            assert(founded.mind(id) == old(self).mind(id));
        }
        true
    }

    /// Whether the city is `before` with the institution `house` founded
    /// and `id` its only member of staff, under `title` and from the year
    /// of `before` on.  Nothing else differs.
    pub open spec fn founded_for(&self, before: &City, id: u128, house: &Institution, title: String) -> bool {
        &&& self.same_but_employment(before)
        &&& self.institutions@.dom() == before.institutions@.dom().insert(house.id)
        &&& forall|i: u128|
            before.has_institution(i) ==> self.institution(i) == before.institution(i)
        &&& forall|x: u128| x != id && before.has(x) ==> self.mind(x) == before.mind(x)
        &&& self.mind(id).employer == Some(house.id)
        &&& self.institution(house.id).same_but_staff(house)
        &&& self.institution(house.id).staff@ == Map::<u128, StaffDefinition>::empty().insert(
            id,
            StaffDefinition { title: title, employee_id: id, salary: 0, started_year: before.year },
        )
    }

    /// A city has no institution exactly where the count of them is nought.
    pub proof fn no_institutions(&self)
        ensures
            self.institutions@.len() == 0 <==> forall|i: u128| !self.has_institution(i),
    {
        let all = self.institutions@.dom();
        if forall|i: u128| !self.has_institution(i) {
            assert forall|i: u128| !all.contains(i) by {
                assert(!self.has_institution(i));
            }
            assert(all =~= Set::<u128>::empty());
        } else {
            let i = choose|i: u128| self.has_institution(i);
            let one = Set::<u128>::empty().insert(i);
            assert(one.subset_of(all));
            vstd::set_lib::lemma_len_subset(one, all);
        }
    }

    /// The test for a citizen with an employer, as a predicate on ids.
    pub open spec fn is_employed(&self) -> spec_fn(u128) -> bool {
        |id: u128| self.has(id) && self.mind(id).employer is Some
    }

    /// The test for a living citizen without employer, as a predicate on ids.
    pub open spec fn is_looking_for_work(&self) -> spec_fn(u128) -> bool {
        |id: u128| self.living(id) && self.mind(id).employer is None
    }

    /// The ids of the citizens with an employer, each once.
    pub fn employed_citizens(&self) -> (ids: Vec<u128>)
        ensures
            ids@.no_duplicates(),
            forall|id: u128| ids@.contains(id) <==> self.has(id) && self.mind(id).employer is Some,
    {
        let all = self.citizens();
        let mut ids: Vec<u128> = Vec::new();
        let mut i: usize = 0;
        proof {
            filter_start(all@, self.is_employed());
        }
        while i < all.len()
            invariant
                i <= all@.len(),
                forall|id: u128| all@.contains(id) <==> self.has(id),
                ids@ == all@.take(i as int).filter(self.is_employed()),
            decreases all@.len() - i,
        {
            let id: u128 = all[i];
            proof {
                assert(all@.contains(id));
                filter_step(all@, i as int, self.is_employed());
            }
            if self.citizen(id).unwrap().employer.is_some() {
                ids.push(id);
            }
            i += 1;
        }
        proof {
            assert(all@.take(i as int) =~= all@);
            filter_facts(all@, self.is_employed());
        }
        ids
    }

    /// The ids of the living citizens without employer, each once.
    pub fn unemployed_citizens(&self) -> (ids: Vec<u128>)
        ensures
            ids@.no_duplicates(),
            forall|id: u128|
                ids@.contains(id) <==> self.living(id) && self.mind(id).employer is None,
    {
        let all = self.citizens();
        let mut ids: Vec<u128> = Vec::new();
        let mut i: usize = 0;
        proof {
            filter_start(all@, self.is_looking_for_work());
        }
        while i < all.len()
            invariant
                i <= all@.len(),
                forall|id: u128| all@.contains(id) <==> self.has(id),
                ids@ == all@.take(i as int).filter(self.is_looking_for_work()),
            decreases all@.len() - i,
        {
            let id: u128 = all[i];
            proof {
                assert(all@.contains(id));
                filter_step(all@, i as int, self.is_looking_for_work());
            }
            let mind = self.citizen(id).unwrap();
            if mind.alive && mind.employer.is_none() {
                ids.push(id);
            }
            i += 1;
        }
        proof {
            assert(all@.take(i as int) =~= all@);
            filter_facts(all@, self.is_looking_for_work());
        }
        ids
    }

    /// The ids of all institutions, each once.
    pub fn institution_ids(&self) -> (ids: Vec<u128>)
        ensures
            ids@.no_duplicates(),
            forall|id: u128| ids@.contains(id) <==> self.has_institution(id),
    {
        let mut ids: Vec<u128> = Vec::new();
        for key in it: self.institutions.keys()
            invariant
                it.seq() == self.institutions.keys().remaining(),
                ids@ == it.seq().take(it.index()).unref(),
        {
            ids.push(*key);
        }
        proof {
            assert(ids@ == self.institutions.keys().remaining().unref());
            assert(ids@.to_set() == self.institutions@.dom());
            assert forall|id: u128| ids@.contains(id) <==> self.has_institution(id) by {
                assert(ids@.to_set().contains(id) <==> ids@.contains(id));
            }
        }
        ids
    }

    /// The institution with this id, if there is one.
    pub fn institution_by_id(&self, id: u128) -> (found: Option<&Institution>)
        ensures
            found is Some <==> self.has_institution(id),
            found matches Some(i) ==> *i == self.institution(id),
    {
        self.institutions.get(&id)
    }

    /// How many of `employed` citizens a percentage comes to, rounded down.
    pub open spec fn share_of(employed: int, percentage: int) -> int {
        let share = employed * percentage / 100;
        if share < employed {
            share
        } else {
            employed
        }
    }

    /// How the city after staff were let go relates to the city before:
    /// nothing but employment differs, nobody has a new employer, and no
    /// roster that had anyone on it is empty.
    pub open spec fn fired_from(&self, before: &City) -> bool {
        &&& self.same_but_employment(before)
        &&& self.institutions@.dom() == before.institutions@.dom()
        &&& forall|x: u128|
            before.has(x) ==> (#[trigger] self.mind(x)).employer == before.mind(x).employer
                || self.mind(x).employer is None
        &&& forall|i: u128|
            before.has_institution(i) && before.institution(i).staff@.len() > 0 ==> (
            #[trigger] self.institution(i)).staff@.len() > 0
        &&& self.rosters_thinned_from(before)
    }

    /// Whether each roster holds the entries that it held in `before` of
    /// those who still have an employer, each as it was, and no other.
    pub open spec fn rosters_thinned_from(&self, before: &City) -> bool {
        &&& forall|i: u128, x: u128|
            before.has_institution(i) ==> (#[trigger] self.institution(i).employs(x)
                <==> before.institution(i).employs(x) && self.mind(x).employer is Some)
        &&& forall|i: u128, x: u128|
            before.has_institution(i) && #[trigger] self.institution(i).employs(x)
                ==> self.institution(i).staff@[x] == before.institution(i).staff@[x]
    }

    /// The citizens with an employer.
    pub open spec fn employed(&self) -> Set<u128> {
        Set::new(|x: u128| self.has(x) && self.mind(x).employer is Some)
    }

    /// Whether the city is what letting go of `selected`, one after the
    /// other, makes of `before`.  Only the selected lose their employer,
    /// and whoever of them keeps it is the last on the roster.
    pub open spec fn fired_as_drawn(&self, before: &City, selected: Seq<u128>) -> bool {
        &&& forall|x: u128|
            before.has(x) && (#[trigger] self.mind(x)).employer != before.mind(x).employer
                ==> selected.contains(x)
        &&& forall|i: int|
            0 <= i < selected.len() ==> (#[trigger] self.mind(selected[i])).employer is None
                || self.institution(before.mind(selected[i]).employer->0).staff@.len() == 1
    }

    /// Lets go of the `selected`, one after the other.  Whoever is the last
    /// on a roster when their turn comes stays.
    pub fn fire_listed(&mut self, selected: &Vec<u128>)
        requires
            old(self).wf(),
            selected@.no_duplicates(),
            forall|i: int|
                0 <= i < selected@.len() ==> old(self).has(#[trigger] selected@[i]) && old(self).mind(selected@[i]).employer is Some,
        ensures
            final(self).wf(),
            final(self).fired_from(old(self)),
            final(self).fired_as_drawn(old(self), selected@),
            old(self).monogamous() ==> final(self).monogamous(),
    {
        let mut i: usize = 0;
        while i < selected.len()
            invariant
                i <= selected@.len(),
                old(self).wf(),
                selected@.no_duplicates(),
                forall|j: int|
                    0 <= j < selected@.len() ==> old(self).has(#[trigger] selected@[j]) && old(self).mind(selected@[j]).employer is Some,
                self.wf(),
                self.fired_from(old(self)),
                self.fired_as_drawn(old(self), selected@.take(i as int)),
            decreases selected@.len() - i,
        {
            let id: u128 = selected[i];
            let ghost before = *self;
            proof {
                assert(old(self).has(selected@[i as int]));
                assert(selected@.take(i as int + 1) =~= selected@.take(i as int).push(id));
                assert(!selected@.take(i as int).contains(id)) by {
                    if selected@.take(i as int).contains(id) {
                        let j = choose|j: int| 0 <= j < i && selected@.take(i as int)[j] == id;
                        assert(selected@[j] == selected@[i as int]);
                    }
                }
                assert(before.mind(id).employer == old(self).mind(id).employer);
            }
            let gone: bool = self.dismiss(id);
            proof {
                let now = selected@.take(i as int + 1);
                self.same_but_employment_chain(&before, old(self));
                assert forall|x: u128| old(self).has(x) implies (#[trigger] self.mind(x)).employer
                    == old(self).mind(x).employer || self.mind(x).employer is None by {
                    assert(before.mind(x).employer == old(self).mind(x).employer || before.mind(
                        x,
                    ).employer is None);
                }
                assert forall|j: u128|
                    old(self).has_institution(j) && old(self).institution(j).staff@.len()
                        > 0 implies (#[trigger] self.institution(j)).staff@.len() > 0 by {
                    assert(before.institution(j).staff@.len() > 0);
                }
                assert forall|j: u128, x: u128| old(self).has_institution(j) implies (
                #[trigger] self.institution(j).employs(x) <==> old(self).institution(j).employs(x)
                    && self.mind(x).employer is Some) by {
                    let employer = before.mind(id).employer->0;
                    assert(before.has_institution(j));
                    assert(before.institution(j).employs(x) <==> old(self).institution(j).employs(
                        x,
                    ) && before.mind(x).employer is Some);
                    if old(self).institution(j).employs(x) {
                        assert(old(self).has(x));
                    }
                    if before.institution(j).employs(id) {
                        assert(before.mind(id).employer == Some(j));
                    }
                    if !(gone && j == employer) {
                        assert(self.institution(j) == before.institution(j));
                    }
                }
                assert forall|j: u128, x: u128|
                    old(self).has_institution(j) && #[trigger] self.institution(j).employs(
                        x,
                    ) implies self.institution(j).staff@[x] == old(self).institution(j).staff@[x] by {
                    let employer = before.mind(id).employer->0;
                    assert(before.has_institution(j));
                    if !(gone && j == employer) {
                        assert(self.institution(j) == before.institution(j));
                    }
                    assert(before.institution(j).employs(x));
                }
                assert forall|x: u128|
                    old(self).has(x) && (#[trigger] self.mind(x)).employer != old(self).mind(
                        x,
                    ).employer implies now.contains(x) by {
                    crate::seqs::push_contains(selected@.take(i as int), id, x);
                    if x != id {
                        assert(self.mind(x) == before.mind(x));
                    }
                }
                assert forall|j: int| 0 <= j < now.len() implies (#[trigger] self.mind(
                    now[j],
                )).employer is None || self.institution(
                    old(self).mind(now[j]).employer->0,
                ).staff@.len() == 1 by {
                    let x = now[j];
                    let house = old(self).mind(x).employer->0;
                    let employer = before.mind(id).employer->0;
                    assert(old(self).has(selected@[j]));
                    if j < i {
                        assert(selected@.take(i as int)[j] == x);
                        assert(x != id);
                        assert(self.mind(x) == before.mind(x));
                        assert(before.mind(x).employer is None || before.institution(
                            house,
                        ).staff@.len() == 1);
                        assert(old(self).has_institution(house));
                        if !gone || house != employer {
                            assert(self.institution(house) == before.institution(house));
                        }
                    } else {
                        assert(x == id);
                    }
                }
            }
            i += 1;
        }
        proof {
            assert(selected@.take(i as int) =~= selected@);
            self.employment_aside(old(self));
            if old(self).monogamous() {
                self.romance_only_goes(old(self));
            }
        }
    }

    /// Whether the city is what letting go of a share of the employed
    /// makes of `before`: of some `percentage` in a hundred of them,
    /// rounded down, each once, taken one after the other.
    pub open spec fn share_fired_from(&self, before: &City, percentage: u32) -> bool {
        &&& self.fired_from(before)
        &&& before.employed().finite()
        &&& exists|selected: Seq<u128>|
            {
                &&& selected.no_duplicates()
                &&& selected.len() == City::share_of(
                    before.employed().len() as int,
                    percentage as int,
                )
                &&& forall|i: int|
                    0 <= i < selected.len() ==> before.employed().contains(#[trigger] selected[i])
                &&& #[trigger] self.fired_as_drawn(before, selected)
            }
    }

    /// Lets go of a drawn share of the employed: `percentage` in a hundred
    /// of them, rounded down, drawn without favour and taken one after the
    /// other.  Whoever is the last on a roster when their turn comes stays.
    pub fn fire_percentage(&mut self, rng: &mut StdRng, percentage: u32)
        requires
            old(self).wf(),
        ensures
            final(self).wf(),
            final(self).share_fired_from(old(self), percentage),
            old(self).monogamous() ==> final(self).monogamous(),
    {
        let mut employed = self.employed_citizens();
        let ghost listed = employed@;
        let total: u128 = employed.len() as u128;
        proof {
            assert(0 <= total * percentage <= 0xffff_ffff_ffff_ffff * 0xffff_ffff)
                by (nonlinear_arith)
                requires
                    0 <= total <= 0xffff_ffff_ffff_ffff,
                    0 <= percentage <= 0xffff_ffff,
            ;
            listed.unique_seq_to_set();
            vstd::seq_lib::seq_to_set_is_finite(listed);
            assert(listed.to_set() =~= self.employed()) by {
                assert forall|x: u128| listed.to_set().contains(x) <==> self.employed().contains(
                    x,
                ) by {
                    assert(listed.to_set().contains(x) <==> listed.contains(x));
                }
            }
        }
        let share: u128 = total * (percentage as u128) / 100;
        let to_fire: usize = if share < total {
            share as usize
        } else {
            employed.len()
        };
        shuffle(rng, &mut employed);
        let ghost shuffled = employed@;
        proof {
            broadcast use vstd::seq_lib::to_multiset_contains, vstd::seq_lib::to_multiset_len;

            assert forall|id: u128| shuffled.contains(id) implies listed.contains(id) by {
                assert(shuffled.to_multiset().count(id) == listed.to_multiset().count(id));
            }
            assert(shuffled.to_multiset().len() == shuffled.len());
            assert(listed.to_multiset().len() == listed.len());
            listed.lemma_multiset_has_no_duplicates();
            shuffled.lemma_multiset_has_no_duplicates_conv();
        }
        employed.truncate(to_fire);
        proof {
            assert(employed@ == shuffled.take(to_fire as int));
            assert forall|i: int| 0 <= i < employed@.len() implies old(self).has(
                #[trigger] employed@[i],
            ) && old(self).mind(employed@[i]).employer is Some by {
                assert(employed@[i] == shuffled[i]);
                assert(shuffled.contains(shuffled[i]));
                assert(listed.contains(shuffled[i]));
                assert(self.has(shuffled[i]) && self.mind(shuffled[i]).employer is Some);
            }
        }
        self.fire_listed(&employed);
        proof {
            assert(self.fired_as_drawn(old(self), employed@));
        }
    }

    /// Drops from the front of `hiring` whatever is not hiring, and names
    /// the first institution that is.
    fn first_hiring(&self, hiring: &mut Vec<u128>) -> (found: Option<u128>)
        ensures
            found matches Some(id) ==> self.has_institution(id) && !self.institution(id).is_demand(
                RoleDemand::Nothing,
            ) && final(hiring)@.len() > 0 && final(hiring)@[0] == id,
            found is None ==> final(hiring)@.len() == 0,
            final(hiring)@.len() <= old(hiring)@.len(),
            forall|id: u128| final(hiring)@.contains(id) ==> old(hiring)@.contains(id),
            forall|id: u128|
                old(hiring)@.contains(id) && !final(hiring)@.contains(id) ==> self.not_hiring(id),
    {
        while hiring.len() > 0
            invariant
                hiring@.len() <= old(hiring)@.len(),
                forall|id: u128| hiring@.contains(id) ==> old(hiring)@.contains(id),
                forall|id: u128|
                    old(hiring)@.contains(id) && !hiring@.contains(id) ==> self.not_hiring(id),
            decreases hiring@.len(),
        {
            let id: u128 = hiring[0];
            let ghost listed = hiring@;
            match self.institution_by_id(id) {
                Some(institution) => {
                    let demand = institution.open_role();
                    if demand != RoleDemand::Nothing {
                        proof {
                            if institution.is_demand(RoleDemand::Nothing) {
                                institution.demand_is_unique(demand, RoleDemand::Nothing);
                            }
                        }
                        return Some(id);
                    }
                },
                None => {},
            }
            hiring.remove(0);
            proof {
                assert(self.not_hiring(id));
                assert forall|x: u128| hiring@.contains(x) implies listed.contains(x) by {
                    let k = choose|k: int| 0 <= k < hiring@.len() && hiring@[k] == x;
                    assert(listed[k + 1] == x);
                }
                assert forall|x: u128| listed.contains(x) && x != id implies hiring@.contains(
                    x,
                ) by {
                    let k = choose|k: int| 0 <= k < listed.len() && listed[k] == x;
                    assert(hiring@[k - 1] == x);
                }
            }
        }
        None
    }

    /// Whether the id names no institution, or one that is short of nobody.
    pub open spec fn not_hiring(&self, id: u128) -> bool {
        !self.has_institution(id) || self.institution(id).is_demand(RoleDemand::Nothing)
    }

    /// Whether none of the institutions of `before` is on the list.
    pub open spec fn lists_none_of(hiring: Seq<u128>, before: &City) -> bool {
        forall|id: u128| before.has_institution(id) ==> !hiring.contains(id)
    }

    /// Whether someone alive is without work.
    pub open spec fn someone_seeks_work(&self) -> bool {
        exists|x: u128| self.living(x) && (#[trigger] self.mind(x)).employer is None
    }

    /// How the city after hiring relates to the city before: nothing but
    /// employment differs, whoever had an employer keeps it, only the
    /// living are hired, and no roster loses anyone.
    pub open spec fn hired_from(&self, before: &City) -> bool {
        &&& self.same_but_employment(before)
        &&& forall|x: u128|
            before.has(x) && before.mind(x).employer is Some ==> (#[trigger] self.mind(x)).employer
                == before.mind(x).employer
        &&& forall|x: u128|
            before.has(x) && before.mind(x).employer is None && (#[trigger] self.mind(
                x,
            )).employer is Some ==> before.mind(x).alive
        &&& forall|i: u128, x: u128|
            before.has_institution(i) && #[trigger] before.institution(i).employs(x)
                ==> self.institution(i).employs(x)
        &&& forall|i: u128|
            self.has_institution(i) && !before.has_institution(i) ==> (#[trigger] self.institution(
                i,
            )).staff@.len() > 0
    }

    /// Whether `x` is on the roster of `i`.
    pub open spec fn on_roster(&self, i: u128, x: u128) -> bool {
        self.has_institution(i) && self.institution(i).employs(x)
    }

    /// Whether `entry`, on the roster of `i`, is a hire made of `before`:
    /// of someone who was alive and without employer, from that year on,
    /// without pay, under a title of the institution.
    pub open spec fn hired_entry(&self, before: &City, i: u128, entry: StaffDefinition) -> bool {
        &&& before.living(entry.employee_id)
        &&& before.mind(entry.employee_id).employer is None
        &&& entry.started_year == before.year
        &&& entry.salary == 0
        &&& self.institution(i).hires_under(entry.title@)
    }

    /// Whether each roster holds what it held in `before`, entry for
    /// entry, and beside it only hires made of `before`.
    pub open spec fn rosters_grown_from(&self, before: &City) -> bool {
        &&& forall|i: u128, x: u128|
            #[trigger] before.on_roster(i, x) ==> self.on_roster(i, x) && self.institution(
                i,
            ).staff@[x] == before.institution(i).staff@[x]
        &&& forall|i: u128, x: u128|
            #[trigger] self.on_roster(i, x) && !before.on_roster(i, x) ==> self.hired_entry(
                before,
                i,
                self.institution(i).staff@[x],
            )
    }

    /// The living citizens without employer.
    pub open spec fn seeking(&self) -> Set<u128> {
        Set::new(|x: u128| self.living(x) && self.mind(x).employer is None)
    }

    /// Whether every institution of `before` is short of nobody.
    pub open spec fn houses_full(&self, before: &City) -> bool {
        forall|i: u128|
            before.has_institution(i) ==> (#[trigger] self.institution(i)).is_demand(
                RoleDemand::Nothing,
            )
    }

    /// How many institutions there are that `before` had not.
    pub open spec fn founded_since(&self, before: &City) -> int {
        self.institutions@.len() - before.institutions@.len()
    }

    /// Whether the first founding of a round of hiring cannot fail.
    /// Someone alive seeks work; a venture is at hand; a temple can always
    /// be raised; the social template of the venture that is used first
    /// has titles to hire under; and no institution has an id of the shape
    /// of a drawn id, as in a city without institutions.  Then no id can
    /// clash, and whatever sort is drawn can be made and hires.
    pub open spec fn first_founding_is_certain(&self, ventures: Seq<Venture>) -> bool {
        &&& self.someone_seeks_work()
        &&& ventures.len() > 0
        &&& can_raise_temples(&self.culture)
        &&& staffed_by_tags(&ventures.last().social)
        &&& forall|i: u128| self.has_institution(i) ==> !#[trigger] random_uuid_shape(i)
    }

    /// Whether someone who was alive and without work in `before` has an
    /// employer now.
    pub open spec fn someone_found_work(&self, before: &City) -> bool {
        exists|x: u128|
            before.living(x) && before.mind(x).employer is None && (#[trigger] self.mind(
                x,
            )).employer is Some
    }

    /// Whether the institution is one that `before` had not.
    pub open spec fn founded_after(&self, before: &City, i: u128) -> bool {
        self.has_institution(i) && !before.has_institution(i)
    }

    /// Whether the city is what a round of hiring makes of `before`, with
    /// `left` of the `ventures` not used.
    ///
    /// Nothing but employment differs and whoever had an employer keeps
    /// it.  Each roster holds what it held, and the new hires.  The
    /// ventures are used from the end.  Where someone alive is still
    /// without work, or an institution was founded, every institution of
    /// before is short of nobody; and of two that were founded, one is short
    /// of nobody: an institution is founded only where none hires.  No more
    /// institutions are founded than ventures are used; and while ventures
    /// are left, each one used has founded an institution or left one
    /// citizen without work, as `found_and_hire` decides.  Where the first
    /// founding cannot fail, someone is hired, and nobody is left without
    /// work unless an institution was founded.
    pub open spec fn staffed_from(
        &self,
        before: &City,
        ventures: Seq<Venture>,
        left: Seq<Venture>,
    ) -> bool {
        &&& self.hired_from(before)
        &&& self.rosters_grown_from(before)
        &&& left.is_prefix_of(ventures)
        &&& self.someone_seeks_work() ==> self.houses_full(before)
        &&& forall|i: u128|
            #[trigger] self.has_institution(i) && !before.has_institution(i) ==> self.houses_full(
                before,
            )
        &&& 0 <= self.founded_since(before) <= ventures.len() - left.len()
        &&& self.seeking().finite()
        &&& left.len() > 0 ==> self.seeking().len() + self.founded_since(before) == ventures.len()
            - left.len()
        &&& forall|i: u128, j: u128|
            i != j && #[trigger] self.founded_after(before, i) && #[trigger] self.founded_after(
                before,
                j,
            ) ==> self.institution(i).is_demand(RoleDemand::Nothing) || self.institution(
                j,
            ).is_demand(RoleDemand::Nothing)
        &&& before.first_founding_is_certain(ventures) ==> {
            &&& self.institutions@.len() > 0
            &&& self.someone_found_work(before)
            &&& self.someone_seeks_work() ==> self.founded_since(before) > 0
        }
    }

    /// Finds work for the living citizens without employer, in random
    /// order.  Each goes to the first institution that is hiring, under
    /// the title it hires under next.  Where none is hiring, the next
    /// venture founds an institution and the citizen is its first hire; the
    /// citizen stays without work where no venture is left or the new
    /// institution cannot be made or would hire nobody.
    pub fn fill_and_create_jobs(&mut self, rng: &mut StdRng, ventures: &mut Vec<Venture>)
        requires
            old(self).wf(),
        ensures
            final(self).wf(),
            final(self).staffed_from(old(self), old(ventures)@, final(ventures)@),
            old(self).monogamous() ==> final(self).monogamous(),
    {
        let mut unemployed = self.unemployed_citizens();
        let ghost listed = unemployed@;
        shuffle(rng, &mut unemployed);
        proof {
            broadcast use vstd::seq_lib::to_multiset_contains;

            assert forall|id: u128| unemployed@.contains(id) <==> listed.contains(id) by {
                assert(unemployed@.to_multiset().count(id) == listed.to_multiset().count(id));
            }
            listed.lemma_multiset_has_no_duplicates();
            unemployed@.lemma_multiset_has_no_duplicates_conv();
            assert forall|j: int| 0 <= j < unemployed@.len() implies (#[trigger] self.mind(
                unemployed@[j],
            )).employer is None by {
                let x = unemployed@[j];
                assert(unemployed@.contains(x));
                assert(listed.contains(x));
                assert(self.living(x) && self.mind(x).employer is None);
            }
        }
        let mut hiring = self.institution_ids();
        let ghost mut stuck: Set<u128> = Set::empty();
        let ghost certain = old(self).first_founding_is_certain(old(ventures)@);
        proof {
            if certain {
                let x = choose|x: u128|
                    old(self).living(x) && (#[trigger] old(self).mind(x)).employer is None;
                assert(unemployed@.contains(x));
            }
        }
        let mut i: usize = 0;
        while i < unemployed.len()
            invariant
                i <= unemployed@.len(),
                old(self).wf(),
                unemployed@.no_duplicates(),
                certain == old(self).first_founding_is_certain(old(ventures)@),
                certain ==> unemployed@.len() > 0,
                certain && ventures@.len() == old(ventures)@.len() ==> self.institutions@.dom()
                    == old(self).institutions@.dom() && forall|j: int|
                    0 <= j < i ==> (#[trigger] self.mind(unemployed@[j])).employer is Some,
                certain && ventures@.len() < old(ventures)@.len() ==> self.founded_since(old(self))
                    > 0,
                certain && i > 0 ==> self.mind(unemployed@[0]).employer is Some,
                i == 0 ==> ventures@.len() == old(ventures)@.len(),
                forall|j: u128|
                    #[trigger] self.founded_after(old(self), j) ==> hiring@.len() <= 1,
                self.rosters_grown_from(old(self)),
                ventures@.is_prefix_of(old(ventures)@),
                stuck.finite(),
                0 <= self.founded_since(old(self)),
                stuck.len() + self.founded_since(old(self)) == old(ventures)@.len()
                    - ventures@.len(),
                forall|j: int|
                    i <= j < unemployed@.len() ==> !stuck.contains(#[trigger] unemployed@[j]),
                forall|x: u128|
                    #[trigger] stuck.contains(x) ==> self.living(x) && self.mind(x).employer is None,
                forall|j: int|
                    0 <= j < i && (#[trigger] self.mind(unemployed@[j])).employer is None
                        ==> stuck.contains(unemployed@[j]) || ventures@.len() == 0,
                forall|j: u128|
                    #[trigger] self.has_institution(j) && !old(self).has_institution(j)
                        ==> City::lists_none_of(hiring@, old(self)),
                forall|id: u128|
                    unemployed@.contains(id) <==> old(self).living(id) && old(self).mind(
                        id,
                    ).employer is None,
                self.wf(),
                self.hired_from(old(self)),
                forall|j: int|
                    i <= j < unemployed@.len() ==> (#[trigger] self.mind(
                        unemployed@[j],
                    )).employer is None,
                forall|j: u128| self.has_institution(j) && !hiring@.contains(j) ==> (
                #[trigger] self.institution(j)).is_demand(RoleDemand::Nothing),
                forall|j: int|
                    0 <= j < i && (#[trigger] self.mind(unemployed@[j])).employer is None
                        ==> City::lists_none_of(hiring@, old(self)),
            decreases unemployed@.len() - i,
        {
            let id: u128 = unemployed[i];
            let ghost before = *self;
            let ghost left_before = ventures@;
            let ghost stuck_before = stuck;
            proof {
                assert(unemployed@.contains(id));
                assert(self.mind(id).same_but_employer(&old(self).mind(id)));
                assert(self.mind(unemployed@[i as int]).employer is None);
            }
            let ghost listed_before = hiring@;
            let found = self.first_hiring(&mut hiring);
            let ghost listed_now = hiring@;
            proof {
                assert forall|j: u128| self.has_institution(j) && !listed_now.contains(j) implies (
                #[trigger] self.institution(j)).is_demand(RoleDemand::Nothing) by {
                    if listed_before.contains(j) {
                        assert(self.not_hiring(j));
                    }
                }
                if City::lists_none_of(listed_before, old(self)) {
                    assert(City::lists_none_of(listed_now, old(self)));
                }
            }
            match found {
                Some(employer) => {
                    let role = self.institution_by_id(employer).unwrap().next_role(rng);
                    match role {
                        Some(title) => {
                            let ghost name = title@;
                            proof {
                                assert(before.institution(employer).hires_under(name));
                            }
                            self.hire(id, employer, title);
                            proof {
                                self.growth_step(&before, old(self), id, employer);
                                assert(listed_now.contains(listed_now[0]));
                                assert forall|j: u128, x: u128|
                                    before.has_institution(j) && #[trigger] before.institution(
                                        j,
                                    ).employs(x) implies self.institution(j).employs(x) by {
                                }
                                self.hiring_step(&before, old(self), id);
                            }
                        },
                        None => {},
                    }
                },
                None => {
                    if ventures.len() > 0 {
                        let venture = ventures.pop().unwrap();
                        let ghost used = venture;
                        let made = random_institution(rng, &self.culture, venture);
                        let (house, title): (Option<u128>, Option<String>) = match &made {
                            Some(drawn) => (Some(drawn.id), drawn.next_role(rng)),
                            None => (None, None),
                        };
                        let ghost drawn = made;
                        let ghost name = title;
                        proof {
                            if certain && left_before.len() == old(ventures)@.len() {
                                assert(left_before =~= old(ventures)@);
                                assert(used == old(ventures)@.last());
                                founded_with_titles(&drawn->0, &self.culture, &used);
                                drawn->0.unstaffed_hires();
                                if name is None {
                                    drawn->0.demand_is_unique(
                                        RoleDemand::Base,
                                        RoleDemand::Nothing,
                                    );
                                }
                                assert(random_uuid_shape(drawn->0.id));
                                assert(!self.has_institution(drawn->0.id));
                            }
                        }
                        if self.found_and_hire(id, made, title) {
                            let employer: u128 = house.unwrap();
                            hiring.push(employer);
                            proof {
                                let built = drawn->0;
                                assert(self.founded_for(&before, id, &built, name->0));
                                assert(built.hires_under(name->0@));
                                assert(self.institution(employer).hires_under(name->0@));
                                assert(self.on_roster(employer, id));
                                self.growth_step(&before, old(self), id, employer);
                                assert(self.founded_since(old(self)) == before.founded_since(
                                    old(self),
                                ) + 1);
                                assert(!old(self).has_institution(employer)) by {
                                    if old(self).has_institution(employer) {
                                        assert(before.institution(employer).same_but_staff(
                                            &old(self).institution(employer),
                                        ));
                                    }
                                }
                                assert(City::lists_none_of(hiring@, old(self)));
                                assert forall|j: u128|
                                    self.has_institution(j) && !hiring@.contains(j) implies (
                                #[trigger] self.institution(j)).is_demand(RoleDemand::Nothing) by {
                                    assert(j != employer);
                                    assert(before.has_institution(j));
                                    assert(self.institution(j) == before.institution(j));
                                    assert(!listed_now.contains(j));
                                }
                                self.institution(employer).roster_is_empty();
                                assert(self.institution(employer).staff@.len() > 0);
                                assert forall|j: u128, x: u128|
                                    before.has_institution(j) && #[trigger] before.institution(
                                        j,
                                    ).employs(x) implies self.institution(j).employs(x) by {
                                    assert(self.institution(j) == before.institution(j));
                                }
                                assert forall|j: u128|
                                    self.has_institution(j) && !before.has_institution(j) implies (
                                #[trigger] self.institution(j)).staff@.len() > 0 by {
                                    assert(j == employer);
                                }
                                self.hiring_step(&before, old(self), id);
                            }
                        }
                    }
                },
            }
            proof {
                if ventures@.len() < left_before.len() && self.mind(id).employer is None {
                    stuck = stuck_before.insert(id);
                    assert(!stuck_before.contains(unemployed@[i as int]));
                }
                if certain {
                    assert(self.founded_since(old(self)) >= before.founded_since(old(self)));
                    if left_before.len() == old(ventures)@.len() {
                        assert(self.mind(id).employer is Some);
                    }
                    if i > 0 {
                        assert(unemployed@[0] != unemployed@[i as int]);
                        assert(unemployed@.contains(unemployed@[0]));
                    }
                    if ventures@.len() == old(ventures)@.len() {
                        assert(self.institutions@.dom() == old(self).institutions@.dom());
                        assert forall|j: int| 0 <= j < i + 1 implies (#[trigger] self.mind(
                            unemployed@[j],
                        )).employer is Some by {
                            if j < i {
                                assert(unemployed@[j] != unemployed@[i as int]);
                                assert(unemployed@.contains(unemployed@[j]));
                            }
                        }
                    }
                }
                assert forall|j: u128| #[trigger] self.founded_after(old(self), j) implies hiring@.len()
                    <= 1 by {
                    if before.founded_after(old(self), j) {
                        assert(listed_before.len() <= 1);
                    } else {
                        assert(listed_now.len() == 0);
                    }
                }
                assert forall|x: u128| x != id && before.has(x) implies self.mind(x)
                    == before.mind(x) by {}
                assert forall|x: u128| #[trigger] stuck.contains(x) implies self.living(x)
                    && self.mind(x).employer is None by {
                    if x != id {
                        assert(stuck_before.contains(x));
                        assert(self.mind(x) == before.mind(x));
                    }
                }
                assert forall|j: int| i + 1 <= j < unemployed@.len() implies !stuck.contains(
                    #[trigger] unemployed@[j],
                ) by {
                    assert(unemployed@[j] != unemployed@[i as int]);
                }
                assert forall|j: int|
                    0 <= j < i + 1 && (#[trigger] self.mind(
                        unemployed@[j],
                    )).employer is None implies stuck.contains(unemployed@[j]) || ventures@.len()
                    == 0 by {
                    if j < i {
                        assert(unemployed@[j] != unemployed@[i as int]);
                        assert(unemployed@.contains(unemployed@[j]));
                        assert(before.mind(unemployed@[j]).employer is None);
                    }
                }
                assert forall|j: u128|
                    #[trigger] self.has_institution(j) && !old(self).has_institution(
                        j,
                    ) implies City::lists_none_of(hiring@, old(self)) by {
                    if before.has_institution(j) {
                        assert(City::lists_none_of(listed_before, old(self)));
                    } else {
                        assert(listed_now.len() == 0);
                    }
                    assert(City::lists_none_of(listed_now, old(self)));
                    assert forall|h: u128| old(self).has_institution(h) implies !hiring@.contains(
                        h,
                    ) by {
                        if hiring@.contains(h) && !listed_now.contains(h) {
                            let k = choose|k: int| 0 <= k < hiring@.len() && hiring@[k] == h;
                            if k < listed_now.len() {
                                assert(listed_now[k] == h);
                            }
                        }
                    }
                }
                assert forall|j: int| i + 1 <= j < unemployed@.len() implies (
                #[trigger] self.mind(unemployed@[j])).employer is None by {
                    assert(unemployed@[j] != unemployed@[i as int]);
                    assert(unemployed@.contains(unemployed@[j]));
                    assert(before.mind(unemployed@[j]).employer is None);
                }
                assert forall|j: u128| self.has_institution(j) && !hiring@.contains(j) implies (
                #[trigger] self.institution(j)).is_demand(RoleDemand::Nothing) by {
                    if before.has_institution(j) && !listed_now.contains(j) {
                        assert(before.institution(j).is_demand(RoleDemand::Nothing));
                        if self.institution(j) != before.institution(j) {
                            assert(found is Some && j == found->0);
                            assert(listed_now.contains(listed_now[0]));
                        }
                    }
                }
                assert forall|j: int|
                    0 <= j < i + 1 && (#[trigger] self.mind(
                        unemployed@[j],
                    )).employer is None implies City::lists_none_of(hiring@, old(self)) by {
                    if j < i {
                        assert(unemployed@[j] != unemployed@[i as int]);
                        assert(unemployed@.contains(unemployed@[j]));
                        assert(before.mind(unemployed@[j]).employer is None);
                        assert(City::lists_none_of(listed_now, old(self)));
                    } else {
                        assert(found is None);
                        assert(listed_now.len() == 0);
                    }
                    assert forall|h: u128| old(self).has_institution(h) implies !hiring@.contains(
                        h,
                    ) by {
                        if hiring@.contains(h) && !listed_now.contains(h) {
                            let k = choose|k: int| 0 <= k < hiring@.len() && hiring@[k] == h;
                            if k < listed_now.len() {
                                assert(listed_now[k] == h);
                            }
                        }
                    }
                }
            }
            i += 1;
        }
        proof {
            self.employment_aside(old(self));
            if old(self).monogamous() {
                self.romance_only_goes(old(self));
            }
            assert forall|j: u128|
                #[trigger] self.has_institution(j) && !old(self).has_institution(
                    j,
                ) implies self.houses_full(old(self)) by {
                assert forall|h: u128| old(self).has_institution(h) implies (
                #[trigger] self.institution(h)).is_demand(RoleDemand::Nothing) by {
                    assert(self.institution(h).same_but_staff(&old(self).institution(h)));
                    assert(!hiring@.contains(h));
                }
            }
            assert forall|a: u128, b: u128|
                a != b && #[trigger] self.founded_after(old(self), a) && #[trigger] self.founded_after(
                    old(self),
                    b,
                ) implies self.institution(a).is_demand(RoleDemand::Nothing) || self.institution(
                b,
            ).is_demand(RoleDemand::Nothing) by {
                if hiring@.contains(a) && hiring@.contains(b) {
                    let ka = choose|k: int| 0 <= k < hiring@.len() && hiring@[k] == a;
                    let kb = choose|k: int| 0 <= k < hiring@.len() && hiring@[k] == b;
                    assert(ka != kb);
                }
            }
            if certain {
                let x = unemployed@[0];
                assert(unemployed@.contains(x));
                assert(old(self).living(x) && old(self).mind(x).employer is None);
                assert(self.someone_found_work(old(self)));
                assert(self.has_institution(self.mind(x).employer->0));
                self.no_institutions();
                if self.someone_seeks_work() {
                    let y = choose|y: u128|
                        self.living(y) && (#[trigger] self.mind(y)).employer is None;
                    assert(self.mind(y).same_but_employer(&old(self).mind(y)));
                    assert(unemployed@.contains(y));
                    let j = choose|j: int| 0 <= j < unemployed@.len() && unemployed@[j] == y;
                    assert(self.mind(unemployed@[j]).employer is None);
                }
            }
            assert(self.seeking().subset_of(unemployed@.to_set())) by {
                assert forall|x: u128| self.seeking().contains(x) implies unemployed@.to_set().contains(
                    x,
                ) by {
                    assert(self.mind(x).same_but_employer(&old(self).mind(x)));
                    assert(unemployed@.contains(x));
                }
            }
            vstd::seq_lib::seq_to_set_is_finite(unemployed@);
            vstd::set_lib::lemma_len_subset(self.seeking(), unemployed@.to_set());
            if ventures@.len() > 0 {
                assert(self.seeking() =~= stuck) by {
                    assert forall|x: u128| self.seeking().contains(x) implies stuck.contains(x) by {
                        assert(self.mind(x).same_but_employer(&old(self).mind(x)));
                        assert(unemployed@.contains(x));
                        let j = choose|j: int| 0 <= j < unemployed@.len() && unemployed@[j] == x;
                        assert(self.mind(unemployed@[j]).employer is None);
                    }
                }
            }
            if self.someone_seeks_work() {
                let x = choose|x: u128| self.living(x) && (#[trigger] self.mind(x)).employer is None;
                assert(self.mind(x).same_but_employer(&old(self).mind(x)));
                assert(old(self).mind(x).employer is None);
                assert(unemployed@.contains(x));
                let j = choose|j: int| 0 <= j < unemployed@.len() && unemployed@[j] == x;
                assert(self.mind(unemployed@[j]).employer is None);
                assert(City::lists_none_of(hiring@, old(self)));
                assert forall|h: u128| old(self).has_institution(h) implies (
                #[trigger] self.institution(h)).is_demand(RoleDemand::Nothing) by {
                    assert(self.institution(h).same_but_staff(&old(self).institution(h)));
                    assert(!hiring@.contains(h));
                }
            }
        }
    }

    /// One citizen's hire, as a new entry of one roster, keeps the rosters
    /// grown from what they were at first.
    proof fn growth_step(&self, before: &City, first: &City, id: u128, employer: u128)
        requires
            before.rosters_grown_from(first),
            before.same_but_employment(first),
            self.same_but_employment(before),
            first.living(id),
            first.mind(id).employer is None,
            self.has_institution(employer),
            forall|j: u128|
                j != employer && before.has_institution(j) ==> self.institution(j)
                    == before.institution(j),
            forall|j: u128| self.has_institution(j) ==> j == employer || before.has_institution(j),
            !before.on_roster(employer, id),
            self.on_roster(employer, id),
            forall|x: u128|
                #[trigger] self.on_roster(employer, x) ==> x == id || (before.on_roster(employer, x)
                    && self.institution(employer).staff@[x] == before.institution(
                    employer,
                ).staff@[x]),
            forall|x: u128| #[trigger] before.on_roster(employer, x) ==> self.on_roster(employer, x),
            ({
                let entry = self.institution(employer).staff@[id];
                &&& entry.employee_id == id
                &&& entry.started_year == first.year
                &&& entry.salary == 0
                &&& self.institution(employer).hires_under(entry.title@)
            }),
        ensures
            self.rosters_grown_from(first),
    {
        assert forall|i: u128, x: u128| #[trigger] first.on_roster(i, x) implies self.on_roster(
            i,
            x,
        ) && self.institution(i).staff@[x] == first.institution(i).staff@[x] by {
            assert(before.on_roster(i, x));
            if i == employer {
                assert(self.on_roster(employer, x));
            }
        }
        assert forall|i: u128, x: u128|
            #[trigger] self.on_roster(i, x) && !first.on_roster(i, x) implies self.hired_entry(
            first,
            i,
            self.institution(i).staff@[x],
        ) by {
            if i == employer && x == id {
            } else {
                assert(before.on_roster(i, x)) by {
                    if i == employer {
                        assert(self.on_roster(employer, x));
                    }
                }
                assert(self.institution(i).same_but_staff(&before.institution(i)));
                assert(before.hired_entry(first, i, before.institution(i).staff@[x]));
            }
        }
    }

    /// One citizen's hire keeps what hiring keeps.
    proof fn hiring_step(&self, before: &City, first: &City, id: u128)
        requires
            first.wf(),
            before.wf(),
            self.wf(),
            before.hired_from(first),
            self.same_but_employment(before),
            first.living(id),
            first.mind(id).employer is None,
            before.mind(id).employer is None,
            forall|x: u128| x != id && before.has(x) ==> self.mind(x) == before.mind(x),
            forall|i: u128, x: u128|
                before.has_institution(i) && #[trigger] before.institution(i).employs(x)
                    ==> self.institution(i).employs(x),
            forall|i: u128|
                self.has_institution(i) && !before.has_institution(i) ==> (
                #[trigger] self.institution(i)).staff@.len() > 0,
        ensures
            self.hired_from(first),
    {
        self.same_but_employment_chain(before, first);
        assert forall|x: u128| first.has(x) && first.mind(x).employer is Some implies (
        #[trigger] self.mind(x)).employer == first.mind(x).employer by {
            assert(before.mind(x).employer == first.mind(x).employer);
        }
        assert forall|x: u128|
            first.has(x) && first.mind(x).employer is None && (#[trigger] self.mind(
                x,
            )).employer is Some implies first.mind(x).alive by {
            if x != id {
                assert(self.mind(x) == before.mind(x));
                assert(before.mind(x).employer is Some);
            }
        }
        assert forall|i: u128, x: u128|
            first.has_institution(i) && #[trigger] first.institution(i).employs(
                x,
            ) implies self.institution(i).employs(x) by {
            assert(before.institution(i).employs(x));
        }
        assert forall|i: u128| self.has_institution(i) && !first.has_institution(i) implies (
        #[trigger] self.institution(i)).staff@.len() > 0 by {
            if before.has_institution(i) {
                assert(before.institution(i).staff@.len() > 0);
                before.institution(i).roster_is_empty();
                self.institution(i).roster_is_empty();
                let someone = choose|x: u128| before.institution(i).employs(x);
                assert(self.institution(i).employs(someone));
            }
        }
    }
}

} // verus!
