//! The reproduction engine: couples have children.

use crate::city::City;
use crate::dice::{chance, random_below, random_index};
use crate::identity::random_uuid_shape;
use crate::mind::{blank_mind, Gender, Mind, Newcomer};
use crate::physical_description::{merge_descriptions, PhysicalDescription};
use crate::relations::RelationVerb;
use crate::surnames::{SurnameFormat, SurnamePattern};
use rand::rngs::StdRng;
use std::collections::HashSet;
use vstd::prelude::*;

verus! {

broadcast use {
    vstd::std_specs::hash::group_hash_axioms,
    vstd::seq_lib::lemma_seq_contains_after_push,
};

/// A couple with this many children between them has no more.
pub const CHILD_MAX: usize = 5;

/// From this age on a citizen has no more children.
pub const PARENT_AGE_LIMIT: u32 = 50;

/// The yearly chance of a child for partners, per mille.
pub const PARTNER_CHILD_ANNUAL_CHANCE: u32 = 100;

/// The yearly chance of a child for spouses, per mille.
pub const SPOUSE_CHILD_ANNUAL_CHANCE: u32 = 200;

/// The yearly chance of a child for a couple of this tier, per mille.
pub open spec fn birth_rate_of(tier: RelationVerb) -> u32 {
    if tier == RelationVerb::Spouse {
        SPOUSE_CHILD_ANNUAL_CHANCE
    } else {
        PARTNER_CHILD_ANNUAL_CHANCE
    }
}

/// The yearly chance of a child for a couple of this tier, per mille.
pub fn birth_rate(tier: RelationVerb) -> (rate: u32)
    ensures
        rate == birth_rate_of(tier),
{
    if tier == RelationVerb::Spouse {
        SPOUSE_CHILD_ANNUAL_CHANCE
    } else {
        PARTNER_CHILD_ANNUAL_CHANCE
    }
}

/// The year as a year of birth: the year itself while it fits.
pub open spec fn birth_year_of(year: usize) -> i32 {
    if year <= i32::MAX {
        year as i32
    } else {
        i32::MAX
    }
}

/// The year as a year of birth.
pub fn birth_year(year: usize) -> (born: i32)
    ensures
        born == birth_year_of(year),
{
    if year <= i32::MAX as usize {
        year as i32
    } else {
        i32::MAX
    }
}

/// Which of a pair of child-naming formats a child of `gender` takes: the
/// first for a son, the second for a daughter, and for a child of
/// ambiguous gender the one the coin names.
pub open spec fn takes_second_format(gender: Gender, coin: bool) -> bool {
    match gender {
        Gender::Male => false,
        Gender::Female => true,
        Gender::Ambiguous => coin,
    }
}

/// The format of a pair that a child of `gender` takes.
pub open spec fn child_format(
    pair: (SurnameFormat, SurnameFormat),
    gender: Gender,
    coin: bool,
) -> SurnamePattern {
    if takes_second_format(gender, coin) {
        pair.1@
    } else {
        pair.0@
    }
}

impl City {
    /// Whether the couple can have a child this year: both alive and under
    /// the age limit, with fewer children between them than the maximum.
    pub open spec fn can_bear(&self, a: u128, b: u128) -> bool {
        &&& self.living(a)
        &&& self.living(b)
        &&& self.mind(a).age < PARENT_AGE_LIMIT
        &&& self.mind(b).age < PARENT_AGE_LIMIT
        &&& self.mind(a).relations.ids_of(RelationVerb::Child).len() + self.mind(
            b,
        ).relations.ids_of(RelationVerb::Child).len() < CHILD_MAX
    }

    /// Whether the couple can have a child this year.
    pub fn may_bear(&self, a: u128, b: u128) -> (yes: bool)
        requires
            self.wf(),
            self.has(a),
            self.has(b),
        ensures
            yes == self.can_bear(a, b),
    {
        let first = self.citizen(a).unwrap();
        let second = self.citizen(b).unwrap();
        assert(self.mind(a).wf() && self.mind(b).wf());
        if !first.alive || !second.alive || first.age >= PARENT_AGE_LIMIT || second.age
            >= PARENT_AGE_LIMIT {
            return false;
        }
        let mine: usize = first.relations.count(RelationVerb::Child);
        let theirs: usize = second.relations.count(RelationVerb::Child);
        mine < CHILD_MAX && theirs < CHILD_MAX && mine + theirs < CHILD_MAX
    }

    /// What a child of `first` and `second` holds under `kind` at birth:
    /// its two parents, and the kin that either parent passes on.
    pub open spec fn newborn_kin(
        &self,
        first: u128,
        second: u128,
        kind: RelationVerb,
        other: u128,
    ) -> bool {
        ||| kind == RelationVerb::Parent && (other == first || other == second)
        ||| self.kin_through(first, kind, other)
        ||| self.kin_through(second, kind, other)
    }

    /// Registers `child` as the child of `first` and `second`: the child
    /// holds both as parent, each holds the child as child, and the family
    /// deriver gives the child its wider kin.
    pub fn birth(&mut self, first: u128, second: u128, child: Mind)
        requires
            old(self).wf(),
            old(self).has(first),
            old(self).has(second),
            first != second,
            !old(self).has(child.id),
            child.wf(),
            child.relations@ == Map::<RelationVerb, Set<u128>>::empty(),
            child.employer is None,
            child.alive ==> child.age < u32::MAX,
        ensures
            final(self).wf(),
            final(self).same_setting(old(self)),
            final(self).population@.dom() == old(self).population@.dom().insert(child.id),
            forall|x: u128|
                old(self).has(x) ==> (#[trigger] final(self).mind(x)).same_but_relations(
                    &old(self).mind(x),
                ),
            final(self).mind(child.id).same_but_relations(&child),
            forall|x: u128, k: RelationVerb, y: u128|
                final(self).related(x, k, y) <==> (old(self).related(x, k, y) || (x == child.id
                    && old(self).newborn_kin(first, second, k, y)) || (y == child.id && old(self).newborn_kin(first, second, k.mirror_of(), x))),
    {
        let id: u128 = child.id;
        self.add_citizen(child);
        let ghost registered = *self;
        proof {
            assert forall|x: u128, k: RelationVerb, y: u128|
                registered.related(x, k, y) <==> old(self).related(x, k, y) by {
                if x == id {
                    assert(!child.relations@.contains_key(k));
                }
            }
        }
        self.link(id, first, RelationVerb::Parent);
        let ghost halfway = *self;
        self.link(id, second, RelationVerb::Parent);
        let ghost attached = *self;
        proof {
            attached.same_people_chain(&halfway, &registered);
            assert forall|x: u128, k: RelationVerb, y: u128|
                attached.related(x, k, y) <==> (old(self).related(x, k, y) || (x == id && k
                    == RelationVerb::Parent && (y == first || y == second)) || (y == id && k
                    == RelationVerb::Child && (x == first || x == second))) by {}
        }
        self.generate_family_relations(&id);
        proof {
            self.same_people_chain(&attached, &registered);
            assert forall|x: u128|
                old(self).has(x) implies (#[trigger] self.mind(x)).same_but_relations(
                &old(self).mind(x),
            ) by {
                assert(self.mind(x).same_but_relations(&registered.mind(x)));
            }
            assert(self.mind(id).same_but_relations(&registered.mind(id)));
            assert forall|p: u128, k: RelationVerb, y: u128|
                (p == first || p == second) implies (attached.kin_through(p, k, y) <==> (old(self).kin_through(p, k, y) || (k == RelationVerb::Sibling && y == id))) by {}
            assert forall|p: u128, k: RelationVerb, y: u128|
                #[trigger] old(self).kin_through(p, k, y) implies y != id by {
                if k == RelationVerb::Sibling {
                    assert(old(self).edge_ok(p, RelationVerb::Child, y));
                } else if k == RelationVerb::Grandparent {
                    assert(old(self).edge_ok(p, RelationVerb::Parent, y));
                } else if k == RelationVerb::Pibling {
                    assert(old(self).edge_ok(p, RelationVerb::Sibling, y));
                } else if k == RelationVerb::Cousin {
                    assert(old(self).edge_ok(p, RelationVerb::Nibling, y));
                }
            }
            assert forall|k: RelationVerb, y: u128|
                attached.derived_kin(id, k, y) <==> (old(self).kin_through(first, k, y) || old(self).kin_through(second, k, y)) by {
                if attached.derived_kin(id, k, y) {
                    let p = choose|p: u128|
                        attached.related(id, RelationVerb::Parent, p)
                            && #[trigger] attached.kin_through(p, k, y);
                    assert(p == first || p == second);
                }
                if old(self).kin_through(first, k, y) {
                    assert(attached.related(id, RelationVerb::Parent, first));
                    assert(attached.kin_through(first, k, y));
                }
                if old(self).kin_through(second, k, y) {
                    assert(attached.related(id, RelationVerb::Parent, second));
                    assert(attached.kin_through(second, k, y));
                }
            }
            assert forall|x: u128, k: RelationVerb, y: u128|
                self.related(x, k, y) <==> (old(self).related(x, k, y) || (x == id && old(self).newborn_kin(first, second, k, y)) || (y == id && old(self).newborn_kin(
                    first,
                    second,
                    k.mirror_of(),
                    x,
                ))) by {
                assert(!old(self).kin_through(first, RelationVerb::Parent, y));
                assert(!old(self).kin_through(second, RelationVerb::Parent, y));
                assert(!old(self).kin_through(first, RelationVerb::Child, x));
                assert(!old(self).kin_through(second, RelationVerb::Child, x));
            }
        }
    }

    /// Whether the city is `before` with `child` born to `first` and
    /// `second`: the child is registered as it is, holds both as parent
    /// and the kin that either passes on, and is held by each in return.
    pub open spec fn born_of(&self, before: &City, first: u128, second: u128, child: &Mind) -> bool {
        &&& self.same_setting(before)
        &&& self.population@.dom() == before.population@.dom().insert(child.id)
        &&& forall|x: u128|
            before.has(x) ==> (#[trigger] self.mind(x)).same_but_relations(&before.mind(x))
        &&& self.mind(child.id).same_but_relations(child)
        &&& forall|x: u128, k: RelationVerb, y: u128|
            #[trigger] self.related(x, k, y) <==> (before.related(x, k, y) || (x == child.id
                && before.newborn_kin(first, second, k, y)) || (y == child.id
                && before.newborn_kin(first, second, k.mirror_of(), x)))
    }

    /// Whether a couple of `tier` has a child this year, for a per-mille
    /// draw: where the couple can have one and the draw falls under the
    /// yearly chance of the tier.
    pub open spec fn bears(&self, first: u128, second: u128, tier: RelationVerb, roll: u32) -> bool {
        self.can_bear(first, second) && roll < birth_rate_of(tier)
    }

    /// One couple's year, for the draw and the child prepared: the child
    /// is born where the couple has a child this year and one is prepared,
    /// and nothing happens otherwise.
    pub fn bear(
        &mut self,
        first: u128,
        second: u128,
        tier: RelationVerb,
        roll: u32,
        prepared: Option<Mind>,
    )
        requires
            old(self).wf(),
            old(self).has(first),
            old(self).has(second),
            first != second,
            prepared matches Some(child) ==> {
                &&& !old(self).has(child.id)
                &&& child.wf()
                &&& child.relations@ == Map::<RelationVerb, Set<u128>>::empty()
                &&& child.employer is None
                &&& (child.alive ==> child.age < u32::MAX)
            },
        ensures
            final(self).wf(),
            if old(self).bears(first, second, tier, roll) && prepared is Some {
                final(self).born_of(old(self), first, second, &prepared->0)
            } else {
                *final(self) == *old(self)
            },
    {
        if self.may_bear(first, second) && roll < birth_rate(tier) {
            match prepared {
                Some(child) => {
                    self.birth(first, second, child);
                },
                None => {},
            }
        }
    }

    /// The child that `blank` becomes as the newborn of `first` and
    /// `second`: aged zero, born this year, with the given looks and the
    /// surname that `format` makes of the parents' names.
    pub fn newborn(
        &self,
        blank: Mind,
        first: u128,
        second: u128,
        format: &SurnameFormat,
        description: PhysicalDescription,
    ) -> (child: Mind)
        requires
            self.has(first),
            self.has(second),
        ensures
            child.same_person(
                &(Mind { description: description, year_of_birth: birth_year_of(self.year), ..blank }),
            ),
            child.alive == blank.alive,
            child.employer == blank.employer,
            child.relations == blank.relations,
            child.age == 0,
            child.last_name@ == format@.rendered(
                self.mind(first).first_name@,
                self.mind(first).last_name@,
                self.mind(second).first_name@,
                self.mind(second).last_name@,
            ),
    {
        let one = self.citizen(first).unwrap();
        let other = self.citizen(second).unwrap();
        let last_name = format.render(
            one.first_name.clone(),
            one.last_name.clone(),
            other.first_name.clone(),
            other.last_name.clone(),
        );
        let mut child = blank;
        child.year_of_birth = birth_year(self.year);
        child.description = description;
        child.age = 0;
        child.last_name = last_name;
        child
    }

    /// Whether some citizen's id has the shape of a random UUID.  Only such
    /// an id can be drawn for a newcomer.
    pub open spec fn holds_a_random_id(&self) -> bool {
        exists|id: u128| random_uuid_shape(id) && #[trigger] self.has(id)
    }

    /// The child that `blank` becomes as the newborn of `first` and
    /// `second`, under the naming custom at `at`, the coin deciding the
    /// format for a child of ambiguous gender.  There is no child exactly
    /// where the id of `blank` is already taken.
    pub fn child_from(
        &self,
        blank: Mind,
        first: u128,
        second: u128,
        at: usize,
        coin: bool,
        description: PhysicalDescription,
    ) -> (prepared: Option<Mind>)
        requires
            self.has(first),
            self.has(second),
            at < self.culture.child_surname_formats@.len(),
        ensures
            prepared is None <==> self.has(blank.id),
            prepared matches Some(child) ==> {
                &&& child.same_person(
                    &(Mind {
                        description: description,
                        year_of_birth: birth_year_of(self.year),
                        ..blank
                    }),
                )
                &&& child.alive == blank.alive
                &&& child.employer == blank.employer
                &&& child.relations == blank.relations
                &&& child.age == 0
                &&& child.last_name@ == child_format(
                    self.culture.child_surname_formats@[at as int],
                    blank.gender,
                    coin,
                ).rendered(
                    self.mind(first).first_name@,
                    self.mind(first).last_name@,
                    self.mind(second).first_name@,
                    self.mind(second).last_name@,
                )
            },
    {
        if self.citizen(blank.id).is_some() {
            return None;
        }
        let second_format: bool = match blank.gender {
            Gender::Male => false,
            Gender::Female => true,
            Gender::Ambiguous => coin,
        };
        let formats = &self.culture.child_surname_formats[at];
        let child = if second_format {
            self.newborn(blank, first, second, &formats.1, description)
        } else {
            self.newborn(blank, first, second, &formats.0, description)
        };
        Some(child)
    }

    /// Prepares the child of `first` and `second` from a newcomer's draw.
    /// Gender, orientation and looks are drawn, and so is the naming custom
    /// among the culture's.  There is no child where the culture has no
    /// naming custom, or where the drawn id is already taken: so there is
    /// one for certain where the culture has a custom and no citizen's id
    /// has the shape of a drawn id.
    pub fn prepare_child(&self, rng: &mut StdRng, first: u128, second: u128, draw: Newcomer) -> (prepared:
        Option<Mind>)
        requires
            self.has(first),
            self.has(second),
        ensures
            self.culture.child_surname_formats@.len() == 0 ==> prepared is None,
            prepared is None ==> self.culture.child_surname_formats@.len() == 0
                || self.holds_a_random_id(),
            prepared matches Some(child) ==> {
                &&& !self.has(child.id)
                &&& random_uuid_shape(child.id)
                &&& child.wf()
                &&& child.relations@ == Map::<RelationVerb, Set<u128>>::empty()
                &&& child.alive
                &&& child.age == 0
                &&& child.employer is None
                &&& child.year_of_birth == birth_year_of(self.year)
                &&& child.first_name == draw.first_name_for(child.gender)
                &&& child.origional_last_name == draw.last_name
                &&& child.personality == draw.personality
                &&& child.description.blends(
                    &self.mind(first).description,
                    &self.mind(second).description,
                    &draw.description,
                )
                &&& exists|i: int, coin: bool|
                    0 <= i < self.culture.child_surname_formats@.len() && child.last_name@ == (
                    #[trigger] child_format(
                        self.culture.child_surname_formats@[i],
                        child.gender,
                        coin,
                    )).rendered(
                        self.mind(first).first_name@,
                        self.mind(first).last_name@,
                        self.mind(second).first_name@,
                        self.mind(second).last_name@,
                    )
            },
    {
        let customs: usize = self.culture.child_surname_formats.len();
        if customs == 0 {
            return None;
        }
        let one = self.citizen(first).unwrap();
        let other = self.citizen(second).unwrap();
        let description = merge_descriptions(
            rng,
            &one.description,
            &other.description,
            &draw.description,
        );
        let blank = blank_mind(rng, &self.culture, draw);
        let ghost id = blank.id;
        let ghost gender = blank.gender;
        let at: usize = random_index(rng, customs);
        let coin: bool = chance(rng, 500);
        let prepared = self.child_from(blank, first, second, at, coin, description);
        proof {
            if prepared is None {
                assert(random_uuid_shape(id) && self.has(id));
            }
            if prepared is Some {
                let child = prepared->0;
                assert(child.gender == gender);
                assert(0 <= at < self.culture.child_surname_formats@.len() && child.last_name@
                    == child_format(
                    self.culture.child_surname_formats@[at as int],
                    child.gender,
                    coin,
                ).rendered(
                    self.mind(first).first_name@,
                    self.mind(first).last_name@,
                    self.mind(second).first_name@,
                    self.mind(second).last_name@,
                ));
            }
        }
        prepared
    }

    /// Whether `c` is a child born this year to a couple of `before`: alive,
    /// aged zero, without employer, its two parents a living couple of
    /// `before` under the age limit who hold it as their child.
    pub open spec fn born_to_a_couple_of(&self, c: u128, before: &City) -> bool {
        &&& random_uuid_shape(c)
        &&& self.mind(c).alive
        &&& self.mind(c).age == 0
        &&& self.mind(c).year_of_birth == birth_year_of(before.year)
        &&& self.mind(c).employer is None
        &&& exists|a: u128, b: u128| #[trigger]
            self.parents_of_newborn(c, before, a, b)
    }

    /// Whether the surname of `c` is what one of the culture's child-naming
    /// customs makes of the names that `a` and `b` had in `before`: the
    /// first format of the custom for a son, the second for a daughter,
    /// either for a child of ambiguous gender.
    pub open spec fn named_by_custom(&self, c: u128, before: &City, a: u128, b: u128) -> bool {
        exists|i: int, coin: bool|
            0 <= i < before.culture.child_surname_formats@.len() && self.mind(c).last_name@ == (
            #[trigger] child_format(
                before.culture.child_surname_formats@[i],
                self.mind(c).gender,
                coin,
            )).rendered(
                before.mind(a).first_name@,
                before.mind(a).last_name@,
                before.mind(b).first_name@,
                before.mind(b).last_name@,
            )
    }

    /// Whether the newborn `c` of `a` and `b` stands in the family as a
    /// birth leaves it.  It holds exactly the two as parent, and exactly
    /// they hold it as child.  Towards everyone of `before` it holds what
    /// the two pass on, and is held in return: so it and every child that
    /// either had hold each other as sibling.
    pub open spec fn family_of_newborn(&self, c: u128, before: &City, a: u128, b: u128) -> bool {
        &&& forall|p: u128| #[trigger] self.related(c, RelationVerb::Parent, p) <==> p == a || p == b
        &&& forall|x: u128| #[trigger] self.related(x, RelationVerb::Child, c) <==> x == a || x == b
        &&& forall|k: RelationVerb, y: u128|
            before.has(y) ==> (#[trigger] self.related(c, k, y) <==> before.newborn_kin(a, b, k, y))
        &&& forall|k: RelationVerb, y: u128|
            before.has(y) ==> (#[trigger] self.related(y, k, c) <==> before.newborn_kin(
                a,
                b,
                k.mirror_of(),
                y,
            ))
        &&& forall|k: u128|
            before.related(a, RelationVerb::Child, k) || before.related(b, RelationVerb::Child, k)
                ==> #[trigger] self.related(c, RelationVerb::Sibling, k) && self.related(
                k,
                RelationVerb::Sibling,
                c,
            )
    }

    /// Whether no two newborns have the same two parents: a couple has one
    /// child a year at most.
    pub open spec fn one_child_a_couple(&self, before: &City) -> bool {
        forall|c1: u128, c2: u128, a: u128, b: u128|
            #![trigger self.related(c1, RelationVerb::Parent, a), self.related(c2, RelationVerb::Parent, b)]
            c1 != c2 && a != b && !before.has(c1) && !before.has(c2) && self.related(
                c1,
                RelationVerb::Parent,
                a,
            ) && self.related(c1, RelationVerb::Parent, b) && self.related(
                c2,
                RelationVerb::Parent,
                a,
            ) ==> !self.related(c2, RelationVerb::Parent, b)
    }

    /// Whether `a` and `b` are the parents of the newborn `c`.
    pub open spec fn parents_of_newborn(&self, c: u128, before: &City, a: u128, b: u128) -> bool {
        &&& a != b
        &&& before.living(a)
        &&& before.living(b)
        &&& before.mind(a).age < PARENT_AGE_LIMIT
        &&& before.mind(b).age < PARENT_AGE_LIMIT
        &&& before.mind(a).relations.ids_of(RelationVerb::Child).len() + before.mind(
            b,
        ).relations.ids_of(RelationVerb::Child).len() < CHILD_MAX
        &&& (before.related(a, RelationVerb::Partner, b) || before.related(
            a,
            RelationVerb::Spouse,
            b,
        ))
        &&& self.related(c, RelationVerb::Parent, a)
        &&& self.related(c, RelationVerb::Parent, b)
        &&& self.related(a, RelationVerb::Child, c)
        &&& self.related(b, RelationVerb::Child, c)
        &&& self.named_by_custom(c, before, a, b)
        &&& self.family_of_newborn(c, before, a, b)
    }

    /// Where the edges among the citizens of `before` are as they were, a
    /// citizen of `before` holds at least the children held then.
    proof fn children_only_grow(&self, before: &City, a: u128)
        requires
            self.wf(),
            before.wf(),
            before.has(a),
            self.has(a),
            forall|x: u128, k: RelationVerb, y: u128|
                before.has(x) && before.has(y) ==> (#[trigger] self.related(x, k, y)
                    <==> before.related(x, k, y)),
        ensures
            before.mind(a).relations.ids_of(RelationVerb::Child).len() <= self.mind(
                a,
            ).relations.ids_of(RelationVerb::Child).len(),
    {
        let then = before.mind(a).relations.ids_of(RelationVerb::Child);
        let now = self.mind(a).relations.ids_of(RelationVerb::Child);
        assert(self.mind(a).wf());
        self.mind(a).relations.sets_are_finite(RelationVerb::Child);
        assert forall|y: u128| then.contains(y) implies now.contains(y) by {
            assert(before.related(a, RelationVerb::Child, y));
            assert(before.edge_ok(a, RelationVerb::Child, y));
            assert(self.related(a, RelationVerb::Child, y));
        }
        vstd::set_lib::lemma_len_subset(then, now);
    }

    /// Lists `citizen` with everyone held under `tier` who is not yet in a
    /// listed couple.
    fn pair_off(
        &self,
        citizen: u128,
        tier: RelationVerb,
        list: &mut Vec<(u128, u128, RelationVerb)>,
        included: &mut HashSet<u128>,
    )
        requires
            self.wf(),
            self.living(citizen),
            tier.romantic(),
            couples_in_order(self, old(list)@),
            forall|x: u128| old(included)@.contains(x) <==> listed(old(list)@, x),
            forall|i: int| 0 <= i < old(list)@.len() ==> (#[trigger] old(list)@[i]).1 != citizen,
        ensures
            couples_in_order(self, final(list)@),
            forall|x: u128| final(included)@.contains(x) <==> listed(final(list)@, x),
            forall|i: int| 0 <= i < final(list)@.len() ==> (#[trigger] final(list)@[i]).1 != citizen,
            forall|x: u128| listed(old(list)@, x) ==> listed(final(list)@, x),
            forall|b: u128|
                self.related(citizen, tier, b) ==> listed(final(list)@, citizen) || listed(
                    old(list)@,
                    b,
                ),
    {
        assert(self.mind(citizen).wf());
        let ids = self.citizen(citizen).unwrap().get_relations(tier);
        proof {
            assert forall|b: u128| ids@.contains(b) <==> self.related(citizen, tier, b) by {
                assert(ids@.to_set().contains(b) <==> ids@.contains(b));
            }
        }
        let mut i: usize = 0;
        while i < ids.len()
            invariant
                self.wf(),
                self.living(citizen),
                tier.romantic(),
                i <= ids@.len(),
                forall|b: u128| ids@.contains(b) <==> self.related(citizen, tier, b),
                couples_in_order(self, list@),
                forall|x: u128| included@.contains(x) <==> listed(list@, x),
                forall|j: int| 0 <= j < list@.len() ==> (#[trigger] list@[j]).1 != citizen,
                forall|x: u128| listed(old(list)@, x) ==> listed(list@, x),
                old(list)@.len() <= list@.len(),
                forall|j: int| 0 <= j < old(list)@.len() ==> list@[j] == old(list)@[j],
                forall|j: int| old(list)@.len() <= j < list@.len() ==> (#[trigger] list@[j]).0
                    == citizen,
                forall|j: int|
                    0 <= j < i ==> listed(list@, citizen) || listed(old(list)@, #[trigger] ids@[j]),
            decreases ids@.len() - i,
        {
            let other: u128 = ids[i];
            proof {
                assert(ids@.contains(other));
                assert(self.edge_ok(citizen, tier, other));
            }
            if !included.contains(&other) {
                let ghost before = list@;
                included.insert(other);
                included.insert(citizen);
                list.push((citizen, other, tier));
                proof {
                    let top = before.len() as int;
                    assert(list@[top] == (citizen, other, tier));
                    assert forall|x: u128|
                        listed(list@, x) <==> (listed(before, x) || x == citizen || x
                            == other) by {
                        if listed(before, x) {
                            let j = choose|j: int|
                                0 <= j < before.len() && (before[j].0 == x || before[j].1 == x);
                            assert(list@[j] == before[j]);
                        }
                        if listed(list@, x) {
                            let j = choose|j: int|
                                0 <= j < list@.len() && (list@[j].0 == x || list@[j].1 == x);
                            if j < top {
                                assert(before[j] == list@[j]);
                            }
                        }
                    }
                    assert(!listed(before, other));
                    assert forall|a: int, b: int|
                        0 <= a < list@.len() && 0 <= b < list@.len() && a != b implies (
                    #[trigger] list@[a]).1 != (#[trigger] list@[b]).1 && list@[a].1
                        != list@[b].0 by {
                        if a < top && b < top {
                            assert(before[a] == list@[a] && before[b] == list@[b]);
                        } else if a == top {
                            assert(before[b] == list@[b]);
                        } else {
                            assert(before[a] == list@[a]);
                        }
                    }
                    assert forall|j: int| 0 <= j < list@.len() implies entry_in_order(
                        self,
                        #[trigger] list@[j],
                    ) by {
                        if j < top {
                            assert(before[j] == list@[j]);
                        }
                    }
                }
            } else {
                proof {
                    if !listed(old(list)@, other) {
                        // listed since this call began: as a second of this citizen,
                        // so the citizen is listed too
                        let j = choose|j: int|
                            0 <= j < list@.len() && (list@[j].0 == other || list@[j].1 == other);
                        assert(listed(list@, citizen) || listed(old(list)@, other)) by {
                            couple_listed_here(self, old(list)@, list@, citizen, other, j);
                        }
                    }
                }
            }
            i += 1;
        }
        proof {
            assert forall|b: u128| self.related(citizen, tier, b) implies listed(list@, citizen)
                || listed(old(list)@, b) by {
                assert(ids@.contains(b));
                let j = choose|j: int| 0 <= j < ids@.len() && ids@[j] == b;
                assert(listed(list@, citizen) || listed(old(list)@, ids@[j]));
            }
        }
    }

    /// The couples of the city, one entry each: a living citizen, a partner
    /// or spouse of theirs, and the tier.  Nobody is the second of one
    /// entry and part of another, and of every living citizen with a
    /// partner or spouse, one of the two is listed.
    pub fn couples(&self) -> (list: Vec<(u128, u128, RelationVerb)>)
        requires
            self.wf(),
        ensures
            couples_in_order(self, list@),
            forall|a: u128, k: RelationVerb, b: u128|
                self.living(a) && k.romantic() && #[trigger] self.related(a, k, b) ==> listed(
                    list@,
                    a,
                ) || listed(list@, b),
    {
        let all = self.current_citizens();
        let mut list: Vec<(u128, u128, RelationVerb)> = Vec::new();
        let mut included: HashSet<u128> = HashSet::new();
        let mut i: usize = 0;
        while i < all.len()
            invariant
                self.wf(),
                i <= all@.len(),
                forall|id: u128| all@.contains(id) <==> self.living(id),
                couples_in_order(self, list@),
                forall|x: u128| included@.contains(x) <==> listed(list@, x),
                forall|j: int, k: RelationVerb, b: u128|
                    0 <= j < i && k.romantic() && #[trigger] self.related(all@[j], k, b)
                        ==> listed(list@, all@[j]) || listed(list@, b),
            decreases all@.len() - i,
        {
            let citizen: u128 = all[i];
            assert(all@.contains(citizen));
            let ghost before = list@;
            if !included.contains(&citizen) {
                assert forall|j: int| 0 <= j < list@.len() implies (#[trigger] list@[j]).1
                    != citizen by {
                    if list@[j].1 == citizen {
                        assert(listed(list@, citizen));
                    }
                }
                self.pair_off(citizen, RelationVerb::Partner, &mut list, &mut included);
                self.pair_off(citizen, RelationVerb::Spouse, &mut list, &mut included);
            }
            proof {
                assert forall|j: int, k: RelationVerb, b: u128|
                    0 <= j < i + 1 && k.romantic() && #[trigger] self.related(
                        all@[j],
                        k,
                        b,
                    ) implies listed(list@, all@[j]) || listed(list@, b) by {
                    if j < i {
                        assert(listed(before, all@[j]) || listed(before, b));
                    }
                }
            }
            i += 1;
        }
        proof {
            assert forall|a: u128, k: RelationVerb, b: u128|
                self.living(a) && k.romantic() && #[trigger] self.related(
                    a,
                    k,
                    b,
                ) implies listed(list@, a) || listed(list@, b) by {
                assert(all@.contains(a));
                let j = choose|j: int| 0 <= j < all@.len() && all@[j] == a;
                assert(self.related(all@[j], k, b));
            }
        }
        list
    }

    /// Whether the newborn `c` of `a` and `b` is made of the newcomer
    /// `draw`: it has the first name that the draw holds for its gender,
    /// the draw's surname as its first surname, the draw's character, and
    /// looks that blend those of the two parents and the draw's.
    pub open spec fn made_of_newcomer(
        &self,
        c: u128,
        before: &City,
        a: u128,
        b: u128,
        draw: &Newcomer,
    ) -> bool {
        &&& self.mind(c).first_name == draw.first_name_for(self.mind(c).gender)
        &&& self.mind(c).origional_last_name == draw.last_name
        &&& self.mind(c).personality == draw.personality
        &&& self.mind(c).description.blends(
            &before.mind(a).description,
            &before.mind(b).description,
            &draw.description,
        )
    }

    /// Whether `c` is the newborn of `a` and `b`, made of the newcomer at
    /// `j` of the `supply`, one of those used.
    pub open spec fn born_of_newcomer(
        &self,
        c: u128,
        before: &City,
        a: u128,
        b: u128,
        supply: Seq<Newcomer>,
        left: Seq<Newcomer>,
        j: int,
    ) -> bool {
        &&& left.len() <= j < supply.len()
        &&& self.parents_of_newborn(c, before, a, b)
        &&& self.made_of_newcomer(c, before, a, b, &supply[j])
    }

    /// How the city after a year of births relates to the city before,
    /// with `left` of the newcomers of `supply` not used.
    ///
    /// Nobody of before goes or changes but in family, and the edges among
    /// them are as they were.  Every new citizen is the newborn of a living
    /// couple within the limits of age and number of children, made of one
    /// of the newcomers used; no couple has two, and no more are born than
    /// newcomers are used up, which are taken from the end.
    pub open spec fn a_year_of_births_from(
        &self,
        before: &City,
        supply: Seq<Newcomer>,
        left: Seq<Newcomer>,
    ) -> bool {
        &&& self.same_setting(before)
        &&& left.is_prefix_of(supply)
        &&& self.population@.len() + left.len() <= before.population@.len() + supply.len()
        &&& forall|c: u128|
            #[trigger] self.has(c) && !before.has(c) ==> exists|a: u128, b: u128, j: int| #[trigger]
                self.born_of_newcomer(c, before, a, b, supply, left, j)
        &&& forall|x: u128|
            before.has(x) ==> self.has(x) && (#[trigger] self.mind(x)).same_but_relations(
                &before.mind(x),
            )
        &&& forall|x: u128, k: RelationVerb, y: u128|
            before.has(x) && before.has(y) ==> (#[trigger] self.related(x, k, y) <==> before.related(
                x,
                k,
                y,
            ))
        &&& forall|c: u128|
            self.has(c) && !before.has(c) ==> #[trigger] self.born_to_a_couple_of(c, before)
        &&& forall|x: u128, k: RelationVerb, y: u128|
            k.romantic() ==> (#[trigger] self.related(x, k, y) <==> before.related(x, k, y))
        &&& self.one_child_a_couple(before)
    }

    /// One year of births.  Every couple that can have a child draws
    /// against the yearly chance of its tier; on success the next newcomer
    /// of `newcomers` becomes their child.  A birth is skipped where no
    /// newcomer is left or none can be prepared.
    pub fn generate_children(&mut self, rng: &mut StdRng, newcomers: &mut Vec<Newcomer>)
        requires
            old(self).wf(),
        ensures
            final(self).wf(),
            final(self).a_year_of_births_from(old(self), old(newcomers)@, final(newcomers)@),
            old(self).monogamous() ==> final(self).monogamous(),
    {
        let pairs = self.couples();
        let ghost mut born_at: Map<u128, int> = Map::empty();
        let ghost mut drawn_at: Map<u128, int> = Map::empty();
        let mut i: usize = 0;
        while i < pairs.len()
            invariant
                i <= pairs@.len(),
                old(self).wf(),
                couples_in_order(old(self), pairs@),
                self.wf(),
                self.same_setting(old(self)),
                newcomers@.len() <= old(newcomers)@.len(),
                newcomers@.is_prefix_of(old(newcomers)@),
                forall|c: u128|
                    #![trigger drawn_at[c]]
                    #![trigger self.has(c)]
                    self.has(c) && !old(self).has(c) ==> newcomers@.len() <= drawn_at[c] < old(
                        newcomers,
                    )@.len() && self.made_of_newcomer(
                        c,
                        old(self),
                        pairs@[born_at[c]].0,
                        pairs@[born_at[c]].1,
                        &old(newcomers)@[drawn_at[c]],
                    ),
                self.population@.len() + newcomers@.len() <= old(self).population@.len() + old(
                    newcomers,
                )@.len(),
                forall|x: u128|
                    old(self).has(x) ==> self.has(x) && (#[trigger] self.mind(
                        x,
                    )).same_but_relations(&old(self).mind(x)),
                forall|x: u128, k: RelationVerb, y: u128|
                    old(self).has(x) && old(self).has(y) ==> (#[trigger] self.related(x, k, y)
                        <==> old(self).related(x, k, y)),
                forall|c: u128|
                    self.has(c) && !old(self).has(c) ==> #[trigger] self.born_to_a_couple_of(
                        c,
                        old(self),
                    ),
                forall|x: u128, k: RelationVerb, y: u128|
                    k.romantic() ==> (#[trigger] self.related(x, k, y) <==> old(self).related(
                        x,
                        k,
                        y,
                    )),
                forall|c: u128|
                    #![trigger born_at[c]]
                    #![trigger self.has(c)]
                    self.has(c) && !old(self).has(c) ==> born_at.dom().contains(c) && 0
                        <= born_at[c] < i && self.parents_of_newborn(
                        c,
                        old(self),
                        pairs@[born_at[c]].0,
                        pairs@[born_at[c]].1,
                    ),
                forall|c1: u128, c2: u128|
                    self.has(c1) && !old(self).has(c1) && self.has(c2) && !old(self).has(c2) && c1
                        != c2 ==> #[trigger] born_at[c1] != #[trigger] born_at[c2],
            decreases pairs@.len() - i,
        {
            let (first, second, tier) = pairs[i];
            proof {
                assert(entry_in_order(old(self), pairs@[i as int]));
                assert(old(self).edge_ok(first, tier, second));
                assert(self.mind(first).same_but_relations(&old(self).mind(first)));
                assert(self.mind(second).same_but_relations(&old(self).mind(second)));
            }
            let roll: u32 = random_below(rng, 1000);
            if self.may_bear(first, second) && roll < birth_rate(tier) && newcomers.len() > 0 {
                let draw = newcomers.pop().unwrap();
                let ghost offered = draw;
                proof {
                    assert(offered == old(newcomers)@[newcomers@.len() as int]);
                    assert(newcomers@.is_prefix_of(old(newcomers)@));
                }
                match self.prepare_child(rng, first, second, draw) {
                    Some(child) => {
                        let ghost before = *self;
                        let ghost c = child.id;
                        let ghost drawn_before = drawn_at;
                        let ghost (custom, coin) = choose|i: int, coin: bool|
                            0 <= i < before.culture.child_surname_formats@.len()
                                && child.last_name@ == (#[trigger] child_format(
                                before.culture.child_surname_formats@[i],
                                child.gender,
                                coin,
                            )).rendered(
                                before.mind(first).first_name@,
                                before.mind(first).last_name@,
                                before.mind(second).first_name@,
                                before.mind(second).last_name@,
                            );
                        let ghost gender = child.gender;
                        let ghost surname = child.last_name@;
                        let ghost born_before = born_at;
                        self.bear(first, second, tier, roll, Some(child));
                        proof {
                            born_at = born_at.insert(c, i as int);
                            drawn_at = drawn_at.insert(c, newcomers@.len() as int);
                            assert(self.born_of(&before, first, second, &child));
                            assert forall|x: u128|
                                #![trigger drawn_at[x]]
                                #![trigger self.has(x)]
                                self.has(x) && !old(self).has(x) implies newcomers@.len()
                                <= drawn_at[x] < old(newcomers)@.len() && self.made_of_newcomer(
                                x,
                                old(self),
                                pairs@[born_at[x]].0,
                                pairs@[born_at[x]].1,
                                &old(newcomers)@[drawn_at[x]],
                            ) by {
                                if x == c {
                                    assert(self.mind(c).same_but_relations(&child));
                                    assert(before.mind(first).same_but_relations(
                                        &old(self).mind(first),
                                    ));
                                    assert(before.mind(second).same_but_relations(
                                        &old(self).mind(second),
                                    ));
                                } else {
                                    assert(before.has(x));
                                    assert(born_at[x] == born_before[x]);
                                    assert(drawn_at[x] == drawn_before[x]);
                                    assert(self.mind(x).same_but_relations(&before.mind(x)));
                                    assert(before.made_of_newcomer(
                                        x,
                                        old(self),
                                        pairs@[born_before[x]].0,
                                        pairs@[born_before[x]].1,
                                        &old(newcomers)@[drawn_before[x]],
                                    ));
                                }
                            }
                            assert forall|x: u128, k: RelationVerb, y: u128|
                                old(self).has(x) && old(self).has(y) implies (
                            #[trigger] before.kin_through(x, k, y) <==> old(self).kin_through(
                                x,
                                k,
                                y,
                            )) by {}
                            assert forall|k: RelationVerb, y: u128|
                                old(self).has(y) implies (#[trigger] before.newborn_kin(
                                first,
                                second,
                                k,
                                y,
                            ) <==> old(self).newborn_kin(first, second, k, y)) by {
                                assert(before.kin_through(first, k, y) <==> old(self).kin_through(
                                    first,
                                    k,
                                    y,
                                ));
                                assert(before.kin_through(second, k, y) <==> old(
                                    self,
                                ).kin_through(second, k, y));
                            }
                            assert(self.family_of_newborn(c, old(self), first, second)) by {
                                assert forall|p: u128|
                                    #[trigger] self.related(c, RelationVerb::Parent, p) <==> p
                                        == first || p == second by {
                                    assert(!before.kin_through(first, RelationVerb::Parent, p));
                                    assert(!before.kin_through(second, RelationVerb::Parent, p));
                                    assert(!before.related(c, RelationVerb::Parent, p));
                                    if p == c {
                                        assert(!self.related(c, RelationVerb::Parent, c)) by {
                                            if self.related(c, RelationVerb::Parent, c) {
                                                assert(self.edge_ok(c, RelationVerb::Parent, c));
                                            }
                                        }
                                    }
                                }
                                assert forall|x: u128|
                                    #[trigger] self.related(x, RelationVerb::Child, c) <==> x
                                        == first || x == second by {
                                    assert(!before.kin_through(first, RelationVerb::Child, c));
                                    assert(!before.kin_through(second, RelationVerb::Child, c));
                                    if before.related(x, RelationVerb::Child, c) {
                                        assert(before.edge_ok(x, RelationVerb::Child, c));
                                    }
                                    if x == c {
                                        if self.related(c, RelationVerb::Child, c) {
                                            assert(self.edge_ok(c, RelationVerb::Child, c));
                                        }
                                    }
                                }
                                assert forall|k: RelationVerb, y: u128| old(self).has(y) implies (
                                #[trigger] self.related(c, k, y) <==> old(self).newborn_kin(
                                    first,
                                    second,
                                    k,
                                    y,
                                )) by {
                                    assert(!before.related(c, k, y));
                                    assert(before.newborn_kin(first, second, k, y) <==> old(
                                        self,
                                    ).newborn_kin(first, second, k, y));
                                }
                                assert forall|k: RelationVerb, y: u128| old(self).has(y) implies (
                                #[trigger] self.related(y, k, c) <==> old(self).newborn_kin(
                                    first,
                                    second,
                                    k.mirror_of(),
                                    y,
                                )) by {
                                    if before.related(y, k, c) {
                                        assert(before.edge_ok(y, k, c));
                                    }
                                    assert(before.newborn_kin(first, second, k.mirror_of(), y)
                                        <==> old(self).newborn_kin(
                                        first,
                                        second,
                                        k.mirror_of(),
                                        y,
                                    ));
                                }
                                assert forall|k: u128|
                                    old(self).related(first, RelationVerb::Child, k) || old(
                                        self,
                                    ).related(
                                        second,
                                        RelationVerb::Child,
                                        k,
                                    ) implies #[trigger] self.related(
                                    c,
                                    RelationVerb::Sibling,
                                    k,
                                ) && self.related(k, RelationVerb::Sibling, c) by {
                                    if old(self).related(first, RelationVerb::Child, k) {
                                        assert(old(self).edge_ok(first, RelationVerb::Child, k));
                                        assert(old(self).kin_through(
                                            first,
                                            RelationVerb::Sibling,
                                            k,
                                        ));
                                    } else {
                                        assert(old(self).edge_ok(second, RelationVerb::Child, k));
                                        assert(old(self).kin_through(
                                            second,
                                            RelationVerb::Sibling,
                                            k,
                                        ));
                                    }
                                    assert(old(self).newborn_kin(
                                        first,
                                        second,
                                        RelationVerb::Sibling,
                                        k,
                                    ));
                                }
                            }
                            assert forall|other: u128|
                                self.has(other) && !old(self).has(other) && other
                                    != c implies self.family_of_newborn(
                                other,
                                old(self),
                                pairs@[born_before[other]].0,
                                pairs@[born_before[other]].1,
                            ) by {
                                let a = pairs@[born_before[other]].0;
                                let b = pairs@[born_before[other]].1;
                                assert(before.has(other));
                                assert(before.family_of_newborn(other, old(self), a, b));
                                assert forall|p: u128|
                                    #[trigger] self.related(other, RelationVerb::Parent, p) <==> p
                                        == a || p == b by {
                                    assert(!before.newborn_kin(
                                        first,
                                        second,
                                        RelationVerb::Child,
                                        other,
                                    ));
                                }
                                assert forall|x: u128|
                                    #[trigger] self.related(x, RelationVerb::Child, other) <==> x
                                        == a || x == b by {
                                    assert(!before.newborn_kin(
                                        first,
                                        second,
                                        RelationVerb::Child,
                                        other,
                                    ));
                                }
                            }
                            assert(self.mind(c).gender == gender && self.mind(c).last_name@
                                == surname);
                            assert(before.mind(first).same_but_relations(&old(self).mind(first)));
                            assert(before.mind(second).same_but_relations(
                                &old(self).mind(second),
                            ));
                            assert(0 <= custom < old(self).culture.child_surname_formats@.len()
                                && self.mind(c).last_name@ == child_format(
                                old(self).culture.child_surname_formats@[custom],
                                self.mind(c).gender,
                                coin,
                            ).rendered(
                                old(self).mind(first).first_name@,
                                old(self).mind(first).last_name@,
                                old(self).mind(second).first_name@,
                                old(self).mind(second).last_name@,
                            ));
                            assert(self.named_by_custom(c, old(self), first, second));
                            assert forall|x: u128, k: RelationVerb, y: u128|
                                k.romantic() implies (#[trigger] self.related(x, k, y) <==> old(
                                self,
                            ).related(x, k, y)) by {
                                assert(before.related(x, k, y) <==> old(self).related(x, k, y));
                                assert(!before.newborn_kin(first, second, k, y));
                                assert(!before.newborn_kin(first, second, k.mirror_of(), x));
                            }
                            before.children_only_grow(old(self), first);
                            before.children_only_grow(old(self), second);
                            assert(before.can_bear(first, second));
                            assert(self.parents_of_newborn(c, old(self), first, second)) by {
                                assert(before.mind(first).same_but_relations(
                                    &old(self).mind(first),
                                ));
                                assert(before.mind(second).same_but_relations(
                                    &old(self).mind(second),
                                ));
                                assert(before.newborn_kin(
                                    first,
                                    second,
                                    RelationVerb::Parent,
                                    first,
                                ));
                                assert(before.newborn_kin(
                                    first,
                                    second,
                                    RelationVerb::Parent,
                                    second,
                                ));
                            }
                            assert forall|x: u128| old(self).has(x) implies self.has(x) && (
                            #[trigger] self.mind(x)).same_but_relations(&old(self).mind(x)) by {
                                assert(before.mind(x).same_but_relations(&old(self).mind(x)));
                                assert(self.mind(x).same_but_relations(&before.mind(x)));
                            }
                            assert forall|other: u128|
                                self.has(other) && !old(self).has(
                                    other,
                                ) implies #[trigger] self.born_to_a_couple_of(
                                other,
                                old(self),
                            ) by {
                                if other != c {
                                    assert(before.has(other));
                                    assert(before.born_to_a_couple_of(other, old(self)));
                                    assert(self.mind(other).same_but_relations(
                                        &before.mind(other),
                                    ));
                                    let a = pairs@[born_before[other]].0;
                                    let b = pairs@[born_before[other]].1;
                                    assert(before.parents_of_newborn(other, old(self), a, b));
                                    let (i0, coin0) = choose|i: int, coin: bool|
                                        0 <= i < old(self).culture.child_surname_formats@.len()
                                            && before.mind(other).last_name@ == (
                                        #[trigger] child_format(
                                            old(self).culture.child_surname_formats@[i],
                                            before.mind(other).gender,
                                            coin,
                                        )).rendered(
                                            old(self).mind(a).first_name@,
                                            old(self).mind(a).last_name@,
                                            old(self).mind(b).first_name@,
                                            old(self).mind(b).last_name@,
                                        );
                                    assert(0 <= i0 < old(self).culture.child_surname_formats@.len()
                                        && self.mind(other).last_name@ == child_format(
                                        old(self).culture.child_surname_formats@[i0],
                                        self.mind(other).gender,
                                        coin0,
                                    ).rendered(
                                        old(self).mind(a).first_name@,
                                        old(self).mind(a).last_name@,
                                        old(self).mind(b).first_name@,
                                        old(self).mind(b).last_name@,
                                    ));
                                    assert(self.named_by_custom(other, old(self), a, b));
                                    assert(self.parents_of_newborn(other, old(self), a, b));
                                }
                            }
                            assert forall|x: u128|
                                self.has(x) && !old(self).has(x) implies born_at.dom().contains(x)
                                && 0 <= #[trigger] born_at[x] < i + 1 && self.parents_of_newborn(
                                x,
                                old(self),
                                pairs@[born_at[x]].0,
                                pairs@[born_at[x]].1,
                            ) by {
                                if x != c {
                                    assert(before.has(x));
                                    assert(born_at[x] == born_before[x]);
                                    assert(self.born_to_a_couple_of(x, old(self)));
                                    let a = pairs@[born_before[x]].0;
                                    let b = pairs@[born_before[x]].1;
                                    assert(before.parents_of_newborn(x, old(self), a, b));
                                    assert(self.mind(x).same_but_relations(&before.mind(x)));
                                    let (i0, coin0) = choose|i: int, coin: bool|
                                        0 <= i < old(self).culture.child_surname_formats@.len()
                                            && before.mind(x).last_name@ == (
                                        #[trigger] child_format(
                                            old(self).culture.child_surname_formats@[i],
                                            before.mind(x).gender,
                                            coin,
                                        )).rendered(
                                            old(self).mind(a).first_name@,
                                            old(self).mind(a).last_name@,
                                            old(self).mind(b).first_name@,
                                            old(self).mind(b).last_name@,
                                        );
                                    assert(0 <= i0 < old(self).culture.child_surname_formats@.len()
                                        && self.mind(x).last_name@ == child_format(
                                        old(self).culture.child_surname_formats@[i0],
                                        self.mind(x).gender,
                                        coin0,
                                    ).rendered(
                                        old(self).mind(a).first_name@,
                                        old(self).mind(a).last_name@,
                                        old(self).mind(b).first_name@,
                                        old(self).mind(b).last_name@,
                                    ));
                                    assert(self.named_by_custom(x, old(self), a, b));
                                    assert(self.family_of_newborn(x, old(self), a, b));
                                }
                            }
                        }
                    },
                    None => {},
                }
            }
            i += 1;
        }
        proof {
            if old(self).monogamous() {
                self.romance_only_goes(old(self));
            }
            assert forall|c: u128| #[trigger] self.has(c) && !old(self).has(c) implies exists|
                a: u128,
                b: u128,
                j: int,
            | #[trigger]
                self.born_of_newcomer(c, old(self), a, b, old(newcomers)@, newcomers@, j) by {
                assert(self.born_of_newcomer(
                    c,
                    old(self),
                    pairs@[born_at[c]].0,
                    pairs@[born_at[c]].1,
                    old(newcomers)@,
                    newcomers@,
                    drawn_at[c],
                ));
            }
            assert forall|c1: u128, c2: u128, a: u128, b: u128|
                #![trigger self.related(c1, RelationVerb::Parent, a), self.related(c2, RelationVerb::Parent, b)]
                c1 != c2 && a != b && !old(self).has(c1) && !old(self).has(c2) && self.related(
                    c1,
                    RelationVerb::Parent,
                    a,
                ) && self.related(c1, RelationVerb::Parent, b) && self.related(
                    c2,
                    RelationVerb::Parent,
                    a,
                ) implies !self.related(c2, RelationVerb::Parent, b) by {
                if self.related(c2, RelationVerb::Parent, b) {
                    let one = born_at[c1];
                    let two = born_at[c2];
                    assert(self.family_of_newborn(c1, old(self), pairs@[one].0, pairs@[one].1));
                    assert(self.family_of_newborn(c2, old(self), pairs@[two].0, pairs@[two].1));
                    assert(one != two);
                    assert(pairs@[one].1 == a || pairs@[one].1 == b);
                    assert(pairs@[two].0 == pairs@[one].1 || pairs@[two].1 == pairs@[one].1);
                }
            }
        }
    }
}

/// Whether `x` is part of a listed couple.
pub open spec fn listed(list: Seq<(u128, u128, RelationVerb)>, x: u128) -> bool {
    exists|i: int| 0 <= i < list.len() && ((#[trigger] list[i]).0 == x || list[i].1 == x)
}

/// Whether an entry names a living citizen of `city` and someone they hold
/// as partner or spouse, under that tier.
pub open spec fn entry_in_order(city: &City, entry: (u128, u128, RelationVerb)) -> bool {
    city.living(entry.0) && entry.2.romantic() && city.related(entry.0, entry.2, entry.1)
}

/// Whether every entry is in order and nobody is the second of one entry
/// and part of another.
pub open spec fn couples_in_order(city: &City, list: Seq<(u128, u128, RelationVerb)>) -> bool {
    &&& forall|i: int| 0 <= i < list.len() ==> entry_in_order(city, #[trigger] list[i])
    &&& forall|i: int, j: int|
        0 <= i < list.len() && 0 <= j < list.len() && i != j ==> (#[trigger] list[i]).1 != (
        #[trigger] list[j]).1 && list[i].1 != list[j].0
}

proof fn couple_listed_here(
    city: &City,
    before: Seq<(u128, u128, RelationVerb)>,
    now: Seq<(u128, u128, RelationVerb)>,
    citizen: u128,
    other: u128,
    j: int,
)
    requires
        0 <= j < now.len(),
        now[j].0 == other || now[j].1 == other,
        !listed(before, other),
        before.len() <= now.len(),
        forall|i: int| 0 <= i < before.len() ==> now[i] == before[i],
        forall|i: int| before.len() <= i < now.len() ==> (#[trigger] now[i]).0 == citizen,
    ensures
        listed(now, citizen),
{
    if j < before.len() {
        assert(before[j].0 == other || before[j].1 == other);
    } else {
        assert(now[j].0 == citizen);
    }
}

} // verus!
