//! The partnership matcher and evolver: singles pair up with someone from
//! their social circle, couples split, marry, or carry on.

use crate::city::City;
use crate::dice::{random_below, random_index, shuffle};
use crate::mind::{attracted_to, Gender, Mind, Sexuality};
use crate::relations::RelationVerb;
use crate::seqs::{append_ids, concat_contains};
use rand::rngs::StdRng;
use std::collections::HashSet;
use vstd::prelude::*;

verus! {

broadcast use {
    vstd::std_specs::hash::group_hash_axioms,
    vstd::seq_lib::lemma_seq_contains_after_push,
};

/// The yearly chance that partners marry, per mille.
pub const PARTNER_MARRIAGE_RATE: u32 = 75;

/// The yearly chance that partners split, per mille.
pub const PARTNER_SPLIT_RATE: u32 = 60;

/// The yearly chance that spouses split, per mille.
pub const MARRIAGE_SPLIT_RATE: u32 = 30;

/// What a year brings a couple.
#[derive(Clone, Copy, Debug, PartialEq, Eq, Structural)]
pub enum RomanceStep {
    /// The couple splits: partners become ex-partners, spouses ex-spouses.
    Split,
    /// The partners marry.
    Marry,
    /// The tier stays as it is.
    Stay,
}

/// The yearly chance that a couple of this tier splits, per mille.
pub open spec fn split_rate_of(tier: RelationVerb) -> u32 {
    if tier == RelationVerb::Spouse {
        MARRIAGE_SPLIT_RATE
    } else {
        PARTNER_SPLIT_RATE
    }
}

/// What this year brings a couple of `tier`, for two per-mille draws: a
/// split where the first falls under the split rate of the tier; else, for
/// partners, marriage where the second falls under the marriage rate; else
/// nothing.
pub open spec fn romance_step_of(tier: RelationVerb, split_roll: u32, marriage_roll: u32) -> RomanceStep {
    if split_roll < split_rate_of(tier) {
        RomanceStep::Split
    } else if tier == RelationVerb::Partner && marriage_roll < PARTNER_MARRIAGE_RATE {
        RomanceStep::Marry
    } else {
        RomanceStep::Stay
    }
}

/// The tier that a split leaves behind.
pub open spec fn former_of(tier: RelationVerb) -> RelationVerb {
    if tier == RelationVerb::Spouse {
        RelationVerb::ExSpouse
    } else {
        RelationVerb::ExPartner
    }
}

/// What this year brings a couple of `tier`, for two per-mille draws.
pub fn romance_step(tier: RelationVerb, split_roll: u32, marriage_roll: u32) -> (step: RomanceStep)
    ensures
        step == romance_step_of(tier, split_roll, marriage_roll),
{
    let split_rate: u32 = if tier == RelationVerb::Spouse {
        MARRIAGE_SPLIT_RATE
    } else {
        PARTNER_SPLIT_RATE
    };
    if split_roll < split_rate {
        RomanceStep::Split
    } else if tier == RelationVerb::Partner && marriage_roll < PARTNER_MARRIAGE_RATE {
        RomanceStep::Marry
    } else {
        RomanceStep::Stay
    }
}

/// The tier that a split leaves behind.
pub fn former(tier: RelationVerb) -> (ex: RelationVerb)
    ensures
        ex == former_of(tier),
{
    if tier == RelationVerb::Spouse {
        RelationVerb::ExSpouse
    } else {
        RelationVerb::ExPartner
    }
}

/// Whether each of the two is of a gender the other takes as partner.
pub open spec fn compatible(a: &Mind, b: &Mind) -> bool {
    attracted_to(a.sexuality, a.gender, b.gender) && attracted_to(
        b.sexuality,
        b.gender,
        a.gender,
    )
}

fn is_attracted_to(sexuality: Sexuality, own: Gender, other: Gender) -> (yes: bool)
    ensures
        yes == attracted_to(sexuality, own, other),
{
    match sexuality {
        Sexuality::Asexual => false,
        Sexuality::Bisexual => true,
        Sexuality::Hetrosexual => other == Gender::Ambiguous || own == Gender::Ambiguous || (own
            == Gender::Male && other == Gender::Female) || (own == Gender::Female && other
            == Gender::Male),
        Sexuality::Homosexual => other == Gender::Ambiguous || own == Gender::Ambiguous || own
            == other,
    }
}

/// The genders that `m` takes as partner.
pub fn target_sexuality_genders(m: &Mind) -> (output: Vec<Gender>)
    ensures
        output@.no_duplicates(),
        forall|g: Gender| output@.contains(g) <==> attracted_to(m.sexuality, m.gender, g),
{
    let mut output: Vec<Gender> = Vec::new();
    if is_attracted_to(m.sexuality, m.gender, Gender::Ambiguous) {
        output.push(Gender::Ambiguous);
    }
    if is_attracted_to(m.sexuality, m.gender, Gender::Male) {
        output.push(Gender::Male);
    }
    if is_attracted_to(m.sexuality, m.gender, Gender::Female) {
        output.push(Gender::Female);
    }
    proof {
        assert forall|g: Gender| output@.contains(g) <==> attracted_to(
            m.sexuality,
            m.gender,
            g,
        ) by {
            if attracted_to(m.sexuality, m.gender, g) {
                if g == Gender::Ambiguous {
                    assert(output@[0] == g);
                } else if g == Gender::Male {
                    if attracted_to(m.sexuality, m.gender, Gender::Ambiguous) {
                        assert(output@[1] == g);
                    } else {
                        assert(output@[0] == g);
                    }
                } else {
                    assert(output@[output@.len() - 1] == g);
                }
            }
        }
    }
    output
}

/// Whether the two can be partners as far as gender and orientation go.
pub fn is_sexuality_compatible(a: &Mind, b: &Mind) -> (yes: bool)
    ensures
        yes == compatible(a, b),
{
    is_attracted_to(a.sexuality, a.gender, b.gender) && is_attracted_to(
        b.sexuality,
        b.gender,
        a.gender,
    )
}

impl City {
    /// Whether `a` holds `b` under one of the social tiers.
    pub open spec fn social_tie(&self, a: u128, b: u128) -> bool {
        self.related(a, RelationVerb::Acquaintance, b) || self.related(a, RelationVerb::Friend, b)
            || self.related(a, RelationVerb::CloseFriend, b)
    }

    /// Whether a citizen is single and above the adult age.
    pub open spec fn free_adult(&self, id: u128) -> bool {
        self.has(id) && self.mind(id).single() && self.mind(id).age > self.culture.adult_age
    }

    /// Whether the two can become partners: different citizens, both single
    /// adults, each of a gender the other takes, and socially tied.
    pub open spec fn can_pair(&self, a: u128, b: u128) -> bool {
        &&& a != b
        &&& self.free_adult(a)
        &&& self.free_adult(b)
        &&& compatible(&self.mind(a), &self.mind(b))
        &&& self.social_tie(a, b)
    }

    /// Makes partners of `a` and `b`: every social tie between the two goes,
    /// and each holds the other as partner.
    pub fn pair_up(&mut self, a: u128, b: u128)
        requires
            old(self).wf(),
            old(self).has(a),
            old(self).has(b),
            a != b,
        ensures
            final(self).wf(),
            final(self).same_people(old(self)),
            forall|x: u128|
                x != a && x != b && old(self).has(x) ==> final(self).mind(x) == old(self).mind(x),
            forall|x: u128, k: RelationVerb, y: u128|
                final(self).related(x, k, y) <==> (if (x == a && y == b) || (x == b && y == a) {
                    k == RelationVerb::Partner || (!k.social() && old(self).related(x, k, y))
                } else {
                    old(self).related(x, k, y)
                }),
    {
        self.unlink(a, b, RelationVerb::Friend);
        let ghost s1 = *self;
        self.unlink(a, b, RelationVerb::CloseFriend);
        let ghost s2 = *self;
        self.unlink(a, b, RelationVerb::Acquaintance);
        let ghost s3 = *self;
        self.link(a, b, RelationVerb::Partner);
        proof {
            s2.same_people_chain(&s1, old(self));
            s3.same_people_chain(&s2, old(self));
            self.same_people_chain(&s3, old(self));
        }
    }

    /// Ends the romance of `a` and `b` under `tier`: each holds the other
    /// as an ex of that tier instead, and both go back to the surname they
    /// had at first.
    pub fn separate(&mut self, a: u128, b: u128, tier: RelationVerb)
        requires
            old(self).wf(),
            old(self).has(a),
            old(self).has(b),
            a != b,
            tier.romantic(),
        ensures
            final(self).wf(),
            final(self).same_setting(old(self)),
            final(self).population@.dom() == old(self).population@.dom(),
            forall|x: u128|
                x != a && x != b && old(self).has(x) ==> final(self).mind(x) == old(self).mind(x),
            forall|x: u128|
                old(self).has(x) ==> (#[trigger] final(self).mind(x)).same_but_ties_and_surname(
                    &old(self).mind(x),
                ),
            final(self).mind(a).last_name == old(self).mind(a).origional_last_name,
            final(self).mind(b).last_name == old(self).mind(b).origional_last_name,
            forall|x: u128, k: RelationVerb, y: u128|
                final(self).related(x, k, y) <==> (if (x == a && y == b) || (x == b && y == a) {
                    k == former_of(tier) || (k != tier && old(self).related(x, k, y))
                } else {
                    old(self).related(x, k, y)
                }),
    {
        self.unlink(a, b, tier);
        let ghost s1 = *self;
        self.link(a, b, former(tier));
        let ghost s2 = *self;
        proof {
            s2.same_people_chain(&s1, old(self));
        }
        let first_name = self.citizen(a).unwrap().origional_last_name.clone();
        self.rename(a, first_name);
        let second_name = self.citizen(b).unwrap().origional_last_name.clone();
        self.rename(b, second_name);
        proof {
            assert forall|x: u128| old(self).has(x) implies (#[trigger] self.mind(
                x,
            )).same_but_ties_and_surname(&old(self).mind(x)) by {
                assert(s2.mind(x).same_but_relations(&old(self).mind(x)));
            }
        }
    }

    /// Marries the partners `a` and `b`: each holds the other as spouse
    /// instead of partner, and takes the surname given.
    pub fn wed(&mut self, a: u128, b: u128, surname_a: String, surname_b: String)
        requires
            old(self).wf(),
            old(self).has(a),
            old(self).has(b),
            a != b,
        ensures
            final(self).wf(),
            final(self).same_setting(old(self)),
            final(self).population@.dom() == old(self).population@.dom(),
            forall|x: u128|
                x != a && x != b && old(self).has(x) ==> final(self).mind(x) == old(self).mind(x),
            forall|x: u128|
                old(self).has(x) ==> (#[trigger] final(self).mind(x)).same_but_ties_and_surname(
                    &old(self).mind(x),
                ),
            final(self).mind(a).last_name == surname_a,
            final(self).mind(b).last_name == surname_b,
            forall|x: u128, k: RelationVerb, y: u128|
                final(self).related(x, k, y) <==> (if (x == a && y == b) || (x == b && y == a) {
                    k == RelationVerb::Spouse || (k != RelationVerb::Partner && old(self).related(
                        x,
                        k,
                        y,
                    ))
                } else {
                    old(self).related(x, k, y)
                }),
    {
        self.unlink(a, b, RelationVerb::Partner);
        let ghost s1 = *self;
        self.link(a, b, RelationVerb::Spouse);
        let ghost s2 = *self;
        proof {
            s2.same_people_chain(&s1, old(self));
        }
        self.rename(a, surname_a);
        self.rename(b, surname_b);
        proof {
            assert forall|x: u128| old(self).has(x) implies (#[trigger] self.mind(
                x,
            )).same_but_ties_and_surname(&old(self).mind(x)) by {
                assert(s2.mind(x).same_but_relations(&old(self).mind(x)));
            }
        }
    }

    /// Whether the two can become partners.
    pub fn may_pair(&self, a: u128, b: u128) -> (yes: bool)
        requires
            self.wf(),
        ensures
            yes == self.can_pair(a, b),
    {
        if a == b {
            return false;
        }
        match (self.citizen(a), self.citizen(b)) {
            (Some(one), Some(other)) => {
                assert(self.mind(a).wf() && self.mind(b).wf());
                one.is_single() && one.age > self.culture.adult_age && other.is_single()
                    && other.age > self.culture.adult_age && is_sexuality_compatible(one, other)
                    && (one.relations.contains(RelationVerb::Acquaintance, b)
                    || one.relations.contains(RelationVerb::Friend, b) || one.relations.contains(
                    RelationVerb::CloseFriend,
                    b,
                ))
            },
            _ => false,
        }
    }

    /// Everyone whom `id` holds under a social tier: friends, close friends,
    /// acquaintances.  Someone held under two tiers is named twice.
    pub fn social_ties(&self, id: u128) -> (ties: Vec<u128>)
        requires
            self.wf(),
            self.has(id),
        ensures
            forall|b: u128| ties@.contains(b) <==> self.social_tie(id, b),
    {
        assert(self.mind(id).wf());
        let mind = self.citizen(id).unwrap();
        let mut ties = mind.get_relations(RelationVerb::Friend);
        let close = mind.get_relations(RelationVerb::CloseFriend);
        let loose = mind.get_relations(RelationVerb::Acquaintance);
        let ghost friends = ties@;
        proof {
            assert forall|b: u128| friends.contains(b) <==> self.related(
                id,
                RelationVerb::Friend,
                b,
            ) by {
                assert(friends.to_set().contains(b) <==> friends.contains(b));
            }
            assert forall|b: u128| close@.contains(b) <==> self.related(
                id,
                RelationVerb::CloseFriend,
                b,
            ) by {
                assert(close@.to_set().contains(b) <==> close@.contains(b));
            }
            assert forall|b: u128| loose@.contains(b) <==> self.related(
                id,
                RelationVerb::Acquaintance,
                b,
            ) by {
                assert(loose@.to_set().contains(b) <==> loose@.contains(b));
            }
        }
        append_ids(&mut ties, &close);
        append_ids(&mut ties, &loose);
        proof {
            assert forall|b: u128| ties@.contains(b) <==> self.social_tie(id, b) by {
                concat_contains(friends, close@, b);
                concat_contains(friends + close@, loose@, b);
            }
        }
        ties
    }

    /// The first of `candidates` with whom `id` can pair.
    fn first_match(&self, id: u128, candidates: &Vec<u128>) -> (found: Option<u128>)
        requires
            self.wf(),
        ensures
            found matches Some(b) ==> self.can_pair(id, b) && candidates@.contains(b),
            found is None ==> forall|b: u128| candidates@.contains(b) ==> !self.can_pair(id, b),
    {
        let mut i: usize = 0;
        while i < candidates.len()
            invariant
                self.wf(),
                i <= candidates@.len(),
                forall|j: int| 0 <= j < i ==> !self.can_pair(id, candidates@[j]),
            decreases candidates@.len() - i,
        {
            if self.may_pair(id, candidates[i]) {
                return Some(candidates[i]);
            }
            i += 1;
        }
        None
    }

    /// One pass of the matcher.  Each living citizen who is single and
    /// above the adult age looks through their social circle in random
    /// order and pairs up with the first single adult of a fitting gender
    /// and orientation.
    ///
    /// Whatever the order: only social ties and partner edges change, no
    /// partner edge goes, every new couple could pair before the pass and
    /// lost its social ties to it, and afterwards no living citizen is
    /// left who could still pair with anyone.
    pub fn temp_find_partners(&mut self, rng: &mut StdRng)
        requires
            old(self).wf(),
        ensures
            final(self).wf(),
            final(self).same_people(old(self)),
            final(self).matched_from(old(self)),
            forall|a: u128, b: u128| final(self).living(a) ==> !final(self).can_pair(a, b),
            old(self).monogamous() ==> final(self).monogamous(),
    {
        let seekers = self.current_citizens();
        let mut i: usize = 0;
        proof {
            assert(self.matched_from(old(self)));
        }
        while i < seekers.len()
            invariant
                i <= seekers@.len(),
                old(self).wf(),
                self.wf(),
                self.same_people(old(self)),
                self.matched_from(old(self)),
                old(self).monogamous() ==> self.monogamous(),
                forall|id: u128| seekers@.contains(id) <==> old(self).living(id),
                forall|j: int, b: u128| 0 <= j < i ==> !#[trigger] self.can_pair(seekers@[j], b),
            decreases seekers@.len() - i,
        {
            let id: u128 = seekers[i];
            let ghost before = *self;
            proof {
                assert(seekers@.contains(id));
                assert(self.mind(id).same_but_relations(&old(self).mind(id)));
            }
            let mut candidates = self.social_ties(id);
            let ghost circle = candidates@;
            shuffle(rng, &mut candidates);
            proof {
                broadcast use vstd::seq_lib::to_multiset_contains;

                assert forall|b: u128| candidates@.contains(b) <==> circle.contains(b) by {
                    assert(candidates@.to_multiset().count(b) == circle.to_multiset().count(b));
                }
            }
            match self.first_match(id, &candidates) {
                Some(other) => {
                    self.pair_up(id, other);
                    proof {
                        self.same_people_chain(&before, old(self));
                        before.matched_pair_was_free(old(self), id, other);
                        before.matched_pair_was_free(old(self), other, id);
                        assert(before.social_tie(other, id)) by {
                            if before.related(id, RelationVerb::Acquaintance, other) {
                                assert(before.edge_ok(id, RelationVerb::Acquaintance, other));
                            } else if before.related(id, RelationVerb::Friend, other) {
                                assert(before.edge_ok(id, RelationVerb::Friend, other));
                            } else {
                                assert(before.edge_ok(id, RelationVerb::CloseFriend, other));
                            }
                        }
                        assert(before.can_pair(other, id));
                        before.could_pair_at_first(old(self), id, other);
                        before.could_pair_at_first(old(self), other, id);
                        self.matched_from_extends(&before, old(self), id, other);
                        if old(self).monogamous() {
                            before.mind(id).single_in_edges();
                            before.mind(other).single_in_edges();
                            assert forall|
                                x: u128,
                                k1: RelationVerb,
                                y: u128,
                                k2: RelationVerb,
                                z: u128,
                            |
                                k1.romantic() && k2.romantic() && #[trigger] self.related(x, k1, y)
                                    && #[trigger] self.related(x, k2, z) implies y == z && k1
                                == k2 by {
                                if x == id || x == other {
                                    assert(!before.mind(x).related(RelationVerb::Partner, y));
                                    assert(!before.mind(x).related(RelationVerb::Spouse, y));
                                    assert(!before.mind(x).related(RelationVerb::Partner, z));
                                    assert(!before.mind(x).related(RelationVerb::Spouse, z));
                                } else {
                                    assert(before.related(x, k1, y));
                                    assert(before.related(x, k2, z));
                                }
                            }
                        }
                        assert forall|j: int, b: u128| 0 <= j < i + 1 implies !#[trigger] self.can_pair(
                            seekers@[j],
                            b,
                        ) by {
                            if self.can_pair(seekers@[j], b) {
                                self.still_pairable_was_pairable(&before, id, other, seekers@[j], b);
                                if j == i {
                                    self.mind(id).single_in_edges();
                                    assert(self.related(id, RelationVerb::Partner, other));
                                    assert(self.mind(id).related(RelationVerb::Partner, other));
                                }
                            }
                        }
                    }
                },
                None => {
                    proof {
                        assert forall|b: u128| !self.can_pair(id, b) by {
                            if self.can_pair(id, b) {
                                assert(circle.contains(b));
                            }
                        }
                    }
                },
            }
            i += 1;
        }
        proof {
            assert forall|a: u128, b: u128| self.living(a) implies !self.can_pair(a, b) by {
                assert(self.mind(a).same_but_relations(&old(self).mind(a)));
                assert(seekers@.contains(a));
                let j = choose|j: int| 0 <= j < seekers@.len() && seekers@[j] == a;
                assert(!self.can_pair(seekers@[j], b));
            }
        }
    }

    /// How the graph after a pass of the matcher relates to the graph
    /// before it.  Nothing but social ties and partner edges differs.  No
    /// partner edge is gone.  Every new partner edge joins two who could
    /// pair before, and the social ties that are gone are those between
    /// new partners.
    pub open spec fn matched_from(&self, before: &City) -> bool {
        &&& forall|x: u128, k: RelationVerb, y: u128|
            !k.social() && k != RelationVerb::Partner ==> (#[trigger] self.related(x, k, y)
                <==> before.related(x, k, y))
        &&& forall|x: u128, y: u128| #[trigger]
            before.related(x, RelationVerb::Partner, y) ==> self.related(
                x,
                RelationVerb::Partner,
                y,
            )
        &&& forall|x: u128, y: u128| #[trigger]
            self.newly_paired(before, x, y) ==> before.can_pair(x, y)
        &&& forall|x: u128, k: RelationVerb, y: u128|
            k.social() ==> (#[trigger] self.related(x, k, y) <==> before.related(x, k, y)
                && !self.newly_paired(before, x, y))
    }

    /// Whether `x` holds `y` as partner now and did not before.
    pub open spec fn newly_paired(&self, before: &City, x: u128, y: u128) -> bool {
        self.related(x, RelationVerb::Partner, y) && !before.related(x, RelationVerb::Partner, y)
    }

    proof fn matched_from_extends(&self, before: &City, first: &City, a: u128, b: u128)
        requires
            before.matched_from(first),
            a != b,
            forall|p: u128, k: RelationVerb, q: u128|
                self.related(p, k, q) <==> (if (p == a && q == b) || (p == b && q == a) {
                    k == RelationVerb::Partner || (!k.social() && before.related(p, k, q))
                } else {
                    before.related(p, k, q)
                }),
            first.can_pair(a, b),
            first.can_pair(b, a),
            !before.related(a, RelationVerb::Partner, b),
            !before.related(b, RelationVerb::Partner, a),
            !first.related(a, RelationVerb::Partner, b),
            !first.related(b, RelationVerb::Partner, a),
        ensures
            self.matched_from(first),
    {
        assert forall|x: u128, k: RelationVerb, y: u128|
            !k.social() && k != RelationVerb::Partner implies (#[trigger] self.related(x, k, y)
            <==> first.related(x, k, y)) by {
            assert(before.related(x, k, y) <==> first.related(x, k, y));
        }
        assert forall|x: u128, y: u128| #[trigger]
            first.related(x, RelationVerb::Partner, y) implies self.related(
            x,
            RelationVerb::Partner,
            y,
        ) by {
            assert(before.related(x, RelationVerb::Partner, y));
        }
        assert forall|x: u128, y: u128| #[trigger]
            self.newly_paired(first, x, y) implies first.can_pair(x, y) by {
            if !((x == a && y == b) || (x == b && y == a)) {
                assert(before.newly_paired(first, x, y));
            }
        }
        assert forall|x: u128, k: RelationVerb, y: u128| k.social() implies (
        #[trigger] self.related(x, k, y) <==> first.related(x, k, y) && !self.newly_paired(
            first,
            x,
            y,
        )) by {
            assert(before.related(x, k, y) <==> first.related(x, k, y) && !before.newly_paired(
                first,
                x,
                y,
            ));
            if (x == a && y == b) || (x == b && y == a) {
                assert(self.newly_paired(first, x, y));
            } else {
                assert(self.newly_paired(first, x, y) == before.newly_paired(first, x, y));
            }
        }
    }

    proof fn matched_pair_was_free(&self, first: &City, a: u128, b: u128)
        requires
            self.matched_from(first),
            self.has(a),
            self.mind(a).single(),
            self.mind(a).sexuality != Sexuality::Asexual,
        ensures
            !self.related(a, RelationVerb::Partner, b),
            !first.related(a, RelationVerb::Partner, b),
    {
        self.mind(a).single_in_edges();
        assert(!self.mind(a).related(RelationVerb::Partner, b));
        if first.related(a, RelationVerb::Partner, b) {
            assert(self.related(a, RelationVerb::Partner, b));
        }
    }

    proof fn could_pair_at_first(&self, first: &City, a: u128, b: u128)
        requires
            self.same_people(first),
            self.matched_from(first),
            self.can_pair(a, b),
        ensures
            first.can_pair(a, b),
    {
        assert(self.mind(a).same_but_relations(&first.mind(a)));
        assert(self.mind(b).same_but_relations(&first.mind(b)));
        self.mind(a).single_in_edges();
        self.mind(b).single_in_edges();
        first.mind(a).single_in_edges();
        first.mind(b).single_in_edges();
        if self.mind(a).sexuality != Sexuality::Asexual {
            assert forall|z: u128|
                !first.mind(a).related(RelationVerb::Partner, z) && !first.mind(a).related(
                    RelationVerb::Spouse,
                    z,
                ) by {
                if first.related(a, RelationVerb::Partner, z) {
                    assert(self.related(a, RelationVerb::Partner, z));
                }
                if first.related(a, RelationVerb::Spouse, z) {
                    assert(self.related(a, RelationVerb::Spouse, z));
                }
            }
        }
        if self.mind(b).sexuality != Sexuality::Asexual {
            assert forall|z: u128|
                !first.mind(b).related(RelationVerb::Partner, z) && !first.mind(b).related(
                    RelationVerb::Spouse,
                    z,
                ) by {
                if first.related(b, RelationVerb::Partner, z) {
                    assert(self.related(b, RelationVerb::Partner, z));
                }
                if first.related(b, RelationVerb::Spouse, z) {
                    assert(self.related(b, RelationVerb::Spouse, z));
                }
            }
        }
        if self.related(a, RelationVerb::Acquaintance, b) {
            assert(first.related(a, RelationVerb::Acquaintance, b));
        } else if self.related(a, RelationVerb::Friend, b) {
            assert(first.related(a, RelationVerb::Friend, b));
        } else {
            assert(self.related(a, RelationVerb::CloseFriend, b));
            assert(first.related(a, RelationVerb::CloseFriend, b));
        }
    }

    /// After `a` and `b` paired up, whoever can still pair could pair
    /// before, and neither of the two is among them.
    proof fn still_pairable_was_pairable(&self, before: &City, a: u128, b: u128, x: u128, y: u128)
        requires
            self.same_people(before),
            before.has(a),
            before.has(b),
            a != b,
            forall|p: u128, k: RelationVerb, q: u128|
                self.related(p, k, q) <==> (if (p == a && q == b) || (p == b && q == a) {
                    k == RelationVerb::Partner || (!k.social() && before.related(p, k, q))
                } else {
                    before.related(p, k, q)
                }),
            self.can_pair(x, y),
        ensures
            before.can_pair(x, y),
    {
        assert(self.mind(x).same_but_relations(&before.mind(x)));
        assert(self.mind(y).same_but_relations(&before.mind(y)));
        self.mind(x).single_in_edges();
        self.mind(y).single_in_edges();
        before.mind(x).single_in_edges();
        before.mind(y).single_in_edges();
        if self.mind(x).sexuality != Sexuality::Asexual {
            assert forall|z: u128|
                !before.mind(x).related(RelationVerb::Partner, z) && !before.mind(x).related(
                    RelationVerb::Spouse,
                    z,
                ) by {
                if before.related(x, RelationVerb::Partner, z) {
                    assert(self.related(x, RelationVerb::Partner, z));
                }
                if before.related(x, RelationVerb::Spouse, z) {
                    assert(self.related(x, RelationVerb::Spouse, z));
                }
            }
        }
        if self.mind(y).sexuality != Sexuality::Asexual {
            assert forall|z: u128|
                !before.mind(y).related(RelationVerb::Partner, z) && !before.mind(y).related(
                    RelationVerb::Spouse,
                    z,
                ) by {
                if before.related(y, RelationVerb::Partner, z) {
                    assert(self.related(y, RelationVerb::Partner, z));
                }
                if before.related(y, RelationVerb::Spouse, z) {
                    assert(self.related(y, RelationVerb::Spouse, z));
                }
            }
        }
        if self.related(x, RelationVerb::Acquaintance, y) {
            assert(before.related(x, RelationVerb::Acquaintance, y));
        } else if self.related(x, RelationVerb::Friend, y) {
            assert(before.related(x, RelationVerb::Friend, y));
        } else {
            assert(self.related(x, RelationVerb::CloseFriend, y));
            assert(before.related(x, RelationVerb::CloseFriend, y));
        }
    }

    /// The surnames that the `at`-th marriage custom of the culture gives
    /// `a` and `b`: the first format of the entry for `a`, the second for
    /// `b`, both rendered from the names of `a`, then of `b`.
    pub fn married_names(&self, a: u128, b: u128, at: usize) -> (names: (String, String))
        requires
            self.has(a),
            self.has(b),
            at < self.culture.marriage_surname_formats@.len(),
        ensures
            names.0@ == self.culture.marriage_surname_formats@[at as int].0@.rendered(
                self.mind(a).first_name@,
                self.mind(a).last_name@,
                self.mind(b).first_name@,
                self.mind(b).last_name@,
            ),
            names.1@ == self.culture.marriage_surname_formats@[at as int].1@.rendered(
                self.mind(a).first_name@,
                self.mind(a).last_name@,
                self.mind(b).first_name@,
                self.mind(b).last_name@,
            ),
    {
        let one = self.citizen(a).unwrap();
        let other = self.citizen(b).unwrap();
        let formats = &self.culture.marriage_surname_formats[at];
        let first = formats.0.render(
            one.first_name.clone(),
            one.last_name.clone(),
            other.first_name.clone(),
            other.last_name.clone(),
        );
        let second = formats.1.render(
            one.first_name.clone(),
            one.last_name.clone(),
            other.first_name.clone(),
            other.last_name.clone(),
        );
        (first, second)
    }

    /// Whether the city is `before` with the romance of `a` and `b` under
    /// `tier` ended: each holds the other as an ex of that tier instead, and
    /// both carry the surname they had at first.
    pub open spec fn separated_from(&self, before: &City, a: u128, b: u128, tier: RelationVerb) -> bool {
        &&& self.same_setting(before)
        &&& self.population@.dom() == before.population@.dom()
        &&& forall|x: u128|
            x != a && x != b && before.has(x) ==> #[trigger] self.mind(x) == before.mind(x)
        &&& self.mind(a).same_but_ties_and_surname(&before.mind(a))
        &&& self.mind(b).same_but_ties_and_surname(&before.mind(b))
        &&& self.mind(a).last_name == before.mind(a).origional_last_name
        &&& self.mind(b).last_name == before.mind(b).origional_last_name
        &&& forall|x: u128, k: RelationVerb, y: u128|
            #[trigger] self.related(x, k, y) <==> (if (x == a && y == b) || (x == b && y == a) {
                k == former_of(tier) || (k != tier && before.related(x, k, y))
            } else {
                before.related(x, k, y)
            })
    }

    /// Whether the city is `before` with the partners `a` and `b` married
    /// under the marriage custom at `custom`: each holds the other as
    /// spouse instead of partner, `a` carries the surname that the first
    /// format of the custom makes of their names, and `b` the surname that
    /// the second makes.
    pub open spec fn wedded_from(&self, before: &City, a: u128, b: u128, custom: int) -> bool {
        &&& self.same_setting(before)
        &&& self.population@.dom() == before.population@.dom()
        &&& forall|x: u128|
            x != a && x != b && before.has(x) ==> #[trigger] self.mind(x) == before.mind(x)
        &&& self.mind(a).same_but_ties_and_surname(&before.mind(a))
        &&& self.mind(b).same_but_ties_and_surname(&before.mind(b))
        &&& self.mind(a).last_name@ == before.culture.marriage_surname_formats@[custom].0@.rendered(
            before.mind(a).first_name@,
            before.mind(a).last_name@,
            before.mind(b).first_name@,
            before.mind(b).last_name@,
        )
        &&& self.mind(b).last_name@ == before.culture.marriage_surname_formats@[custom].1@.rendered(
            before.mind(a).first_name@,
            before.mind(a).last_name@,
            before.mind(b).first_name@,
            before.mind(b).last_name@,
        )
        &&& forall|x: u128, k: RelationVerb, y: u128|
            #[trigger] self.related(x, k, y) <==> (if (x == a && y == b) || (x == b && y == a) {
                k == RelationVerb::Spouse || (k != RelationVerb::Partner && before.related(
                    x,
                    k,
                    y,
                ))
            } else {
                before.related(x, k, y)
            })
    }

    /// One couple's year, for the two draws and the marriage custom drawn:
    /// the couple splits, or marries under that custom, or stays as it is,
    /// as the draws say.  Where the culture has no marriage custom, nobody
    /// marries.
    pub fn evolve_couple(
        &mut self,
        a: u128,
        b: u128,
        tier: RelationVerb,
        split_roll: u32,
        marriage_roll: u32,
        custom: usize,
    )
        requires
            old(self).wf(),
            old(self).has(a),
            old(self).has(b),
            a != b,
            tier.romantic(),
            old(self).culture.marriage_surname_formats@.len() > 0 ==> custom < old(
                self,
            ).culture.marriage_surname_formats@.len(),
        ensures
            final(self).wf(),
            match romance_step_of(tier, split_roll, marriage_roll) {
                RomanceStep::Split => final(self).separated_from(old(self), a, b, tier),
                RomanceStep::Marry => if old(self).culture.marriage_surname_formats@.len() > 0 {
                    final(self).wedded_from(old(self), a, b, custom as int)
                } else {
                    *final(self) == *old(self)
                },
                RomanceStep::Stay => *final(self) == *old(self),
            },
    {
        match romance_step(tier, split_roll, marriage_roll) {
            RomanceStep::Split => {
                self.separate(a, b, tier);
            },
            RomanceStep::Marry => {
                if self.culture.marriage_surname_formats.len() > 0 {
                    let names = self.married_names(a, b, custom);
                    self.wed(a, b, names.0, names.1);
                }
            },
            RomanceStep::Stay => {},
        }
    }

    /// Whether every kind has `x` hold `y` now exactly if it did before.
    pub open spec fn pair_untouched(&self, before: &City, x: u128, y: u128) -> bool {
        forall|k: RelationVerb| #[trigger] self.related(x, k, y) <==> before.related(x, k, y)
    }

    /// Whether the romance of `x` towards `y` moved only along its course:
    /// partner to spouse or ex-partner, spouse to ex-spouse, and nothing
    /// came from nowhere or went nowhere.
    pub open spec fn ties_moved(&self, before: &City, x: u128, y: u128) -> bool {
        &&& self.related(x, RelationVerb::Partner, y) ==> before.related(
            x,
            RelationVerb::Partner,
            y,
        )
        &&& self.related(x, RelationVerb::Spouse, y) ==> before.related(x, RelationVerb::Spouse, y)
            || before.related(x, RelationVerb::Partner, y)
        &&& self.related(x, RelationVerb::ExPartner, y) ==> before.related(
            x,
            RelationVerb::ExPartner,
            y,
        ) || before.related(x, RelationVerb::Partner, y)
        &&& self.related(x, RelationVerb::ExSpouse, y) ==> before.related(
            x,
            RelationVerb::ExSpouse,
            y,
        ) || before.related(x, RelationVerb::Spouse, y)
        &&& before.related(x, RelationVerb::Partner, y) ==> self.related(
            x,
            RelationVerb::Partner,
            y,
        ) || self.related(x, RelationVerb::Spouse, y) || self.related(
            x,
            RelationVerb::ExPartner,
            y,
        )
        &&& before.related(x, RelationVerb::Spouse, y) ==> self.related(x, RelationVerb::Spouse, y)
            || self.related(x, RelationVerb::ExSpouse, y)
        &&& before.related(x, RelationVerb::ExPartner, y) ==> self.related(
            x,
            RelationVerb::ExPartner,
            y,
        )
        &&& before.related(x, RelationVerb::ExSpouse, y) ==> self.related(
            x,
            RelationVerb::ExSpouse,
            y,
        )
    }

    /// Whether `x` held `y` as partner or spouse before and no longer
    /// holds them so.
    pub open spec fn tie_changed(&self, before: &City, x: u128, y: u128) -> bool {
        ||| before.related(x, RelationVerb::Partner, y) && !self.related(
            x,
            RelationVerb::Partner,
            y,
        )
        ||| before.related(x, RelationVerb::Spouse, y) && !self.related(x, RelationVerb::Spouse, y)
    }

    /// How the city after a pass of the evolver relates to the city
    /// before it.  Only partner, spouse and ex edges differ, and they move
    /// along the course of a romance.  A pair with a dead member is left
    /// alone.  A surname changes only with a partner or spouse edge.
    pub open spec fn evolved_from(&self, before: &City) -> bool {
        &&& forall|x: u128, k: RelationVerb, y: u128|
            !in_romance_course(k) ==> (#[trigger] self.related(x, k, y) <==> before.related(
                x,
                k,
                y,
            ))
        &&& forall|x: u128, y: u128| #[trigger] self.ties_moved(before, x, y)
        &&& forall|x: u128, y: u128|
            !before.living(x) || !before.living(y) ==> #[trigger] self.pair_untouched(
                before,
                x,
                y,
            )
        &&& forall|x: u128|
            before.has(x) && (#[trigger] self.mind(x)).last_name != before.mind(x).last_name
                ==> exists|y: u128| #[trigger] self.tie_changed(before, x, y)
    }

    /// Whether the couple is as it was: the same edges between the two, and
    /// the same surnames.
    pub open spec fn couple_stayed(&self, before: &City, a: u128, b: u128) -> bool {
        &&& self.pair_untouched(before, a, b)
        &&& self.pair_untouched(before, b, a)
        &&& self.mind(a).last_name == before.mind(a).last_name
        &&& self.mind(b).last_name == before.mind(b).last_name
    }

    /// Whether the couple has split: each holds the other as an ex of the
    /// tier instead, and both carry the surname they had at first.
    pub open spec fn couple_split(&self, before: &City, a: u128, b: u128, tier: RelationVerb) -> bool {
        &&& forall|k: RelationVerb|
            #[trigger] self.related(a, k, b) <==> (k == former_of(tier) || (k != tier
                && before.related(a, k, b)))
        &&& forall|k: RelationVerb|
            #[trigger] self.related(b, k, a) <==> (k == former_of(tier) || (k != tier
                && before.related(b, k, a)))
        &&& self.mind(a).last_name == before.mind(a).origional_last_name
        &&& self.mind(b).last_name == before.mind(b).origional_last_name
    }

    /// Whether the partners have married under the marriage custom at
    /// `custom`, with `a` taken first: each holds the other as spouse
    /// instead of partner, `a` carries the surname that the first format of
    /// the custom makes of their names, and `b` the surname that the second
    /// makes.
    pub open spec fn couple_wed(&self, before: &City, a: u128, b: u128, custom: int) -> bool {
        &&& 0 <= custom < before.culture.marriage_surname_formats@.len()
        &&& forall|k: RelationVerb|
            #[trigger] self.related(a, k, b) <==> (k == RelationVerb::Spouse || (k
                != RelationVerb::Partner && before.related(a, k, b)))
        &&& forall|k: RelationVerb|
            #[trigger] self.related(b, k, a) <==> (k == RelationVerb::Spouse || (k
                != RelationVerb::Partner && before.related(b, k, a)))
        &&& self.mind(a).last_name@ == before.culture.marriage_surname_formats@[custom].0@.rendered(
            before.mind(a).first_name@,
            before.mind(a).last_name@,
            before.mind(b).first_name@,
            before.mind(b).last_name@,
        )
        &&& self.mind(b).last_name@ == before.culture.marriage_surname_formats@[custom].1@.rendered(
            before.mind(a).first_name@,
            before.mind(a).last_name@,
            before.mind(b).first_name@,
            before.mind(b).last_name@,
        )
    }

    /// Whether the partners have married under the custom at `custom`, the
    /// one or the other taken first.
    pub open spec fn couple_wed_either_way(&self, before: &City, a: u128, b: u128, custom: int) -> bool {
        self.couple_wed(before, a, b, custom) || self.couple_wed(before, b, a, custom)
    }

    /// What a year can make of a couple of `tier`: it stays as it is, or
    /// splits, or, if partners, marries under one of the culture's customs.
    pub open spec fn couple_moved(&self, before: &City, a: u128, b: u128, tier: RelationVerb) -> bool {
        ||| self.couple_stayed(before, a, b)
        ||| self.couple_split(before, a, b, tier)
        ||| tier == RelationVerb::Partner && exists|custom: int| #[trigger]
            self.couple_wed_either_way(before, a, b, custom)
    }

    /// Whether every living couple of `before` is what a year can make of it.
    pub open spec fn couples_moved_from(&self, before: &City) -> bool {
        forall|a: u128, b: u128, tier: RelationVerb|
            tier.romantic() && before.living(a) && before.living(b) && #[trigger] before.mutual(
                a,
                tier,
                b,
            ) ==> self.couple_moved(before, a, b, tier)
    }

    /// What a year has made of a couple stays so while nothing touches
    /// the two.
    proof fn couple_outcome_kept(&self, start: &City, first: &City, a: u128, b: u128, tier: RelationVerb)
        requires
            start.couple_moved(first, a, b, tier),
            forall|k: RelationVerb| self.related(a, k, b) <==> start.related(a, k, b),
            forall|k: RelationVerb| self.related(b, k, a) <==> start.related(b, k, a),
            self.mind(a).last_name == start.mind(a).last_name,
            self.mind(b).last_name == start.mind(b).last_name,
        ensures
            self.couple_moved(first, a, b, tier),
    {
        if start.couple_stayed(first, a, b) {
            assert(self.couple_stayed(first, a, b));
        } else if start.couple_split(first, a, b, tier) {
            assert(self.couple_split(first, a, b, tier));
        } else {
            let custom = choose|custom: int| #[trigger]
                start.couple_wed_either_way(first, a, b, custom);
            if start.couple_wed(first, a, b, custom) {
                assert(self.couple_wed(first, a, b, custom));
            } else {
                assert(self.couple_wed(first, b, a, custom));
            }
            assert(self.couple_wed_either_way(first, a, b, custom));
        }
    }

    /// One pass of the evolver.  Each couple of living citizens draws once:
    /// it splits, or, if partners, may marry under a marriage custom drawn
    /// from the culture's, or stays as it is.  Where the culture has no
    /// marriage custom, nobody marries.
    pub fn temp_partner_evolution(&mut self, rng: &mut StdRng)
        requires
            old(self).wf(),
        ensures
            final(self).wf(),
            final(self).same_setting(old(self)),
            final(self).population@.dom() == old(self).population@.dom(),
            forall|x: u128|
                old(self).has(x) ==> (#[trigger] final(self).mind(x)).same_but_ties_and_surname(
                    &old(self).mind(x),
                ),
            final(self).evolved_from(old(self)),
            old(self).monogamous() ==> final(self).monogamous(),
            old(self).monogamous() ==> forall|a: u128, b: u128, tier: RelationVerb|
                tier.romantic() && old(self).living(a) && old(self).living(b) && #[trigger] old(
                    self,
                ).mutual(a, tier, b) ==> final(self).couple_moved(old(self), a, b, tier),
    {
        let ids = self.current_citizens();
        let mut processed: HashSet<u128> = HashSet::new();
        proof {
            assert forall|a: u128, b: u128, tier: RelationVerb| #[trigger]
                old(self).mutual(a, tier, b) implies self.couple_moved(old(self), a, b, tier) by {
                assert(self.couple_stayed(old(self), a, b));
            }
        }
        let mut i: usize = 0;
        while i < ids.len()
            invariant
                i <= ids@.len(),
                old(self).wf(),
                forall|id: u128| ids@.contains(id) ==> old(self).living(id),
                self.wf(),
                old(self).monogamous() ==> self.monogamous(),
                old(self).monogamous() ==> forall|a: u128, b: u128, tier: RelationVerb|
                    tier.romantic() && old(self).living(a) && old(self).living(b) && #[trigger] old(
                        self,
                    ).mutual(a, tier, b) ==> self.couple_moved(old(self), a, b, tier),
                old(self).monogamous() ==> forall|x: u128, k: RelationVerb, y: u128|
                    processed@.contains(x) && k.romantic() && #[trigger] old(self).related(x, k, y)
                        ==> processed@.contains(y) || !old(self).living(y),
                self.same_setting(old(self)),
                self.population@.dom() == old(self).population@.dom(),
                forall|x: u128|
                    old(self).has(x) ==> (#[trigger] self.mind(x)).same_but_ties_and_surname(
                        &old(self).mind(x),
                    ),
                forall|x: u128, k: RelationVerb, y: u128|
                    !in_romance_course(k) ==> (#[trigger] self.related(x, k, y) <==> old(self).related(x, k, y)),
                forall|x: u128, y: u128| #[trigger] self.ties_moved(old(self), x, y),
                forall|x: u128, y: u128|
                    !old(self).living(x) || !old(self).living(y) ==> #[trigger] self.pair_untouched(
                        old(self),
                        x,
                        y,
                    ),
                forall|x: u128, y: u128|
                    !processed@.contains(x) || !processed@.contains(y)
                        ==> #[trigger] self.pair_untouched(old(self), x, y),
                forall|x: u128|
                    old(self).has(x) && !processed@.contains(x) ==> (#[trigger] self.mind(
                        x,
                    )).last_name == old(self).mind(x).last_name,
                forall|x: u128|
                    old(self).has(x) && (#[trigger] self.mind(x)).last_name != old(self).mind(
                        x,
                    ).last_name ==> exists|y: u128|
                        processed@.contains(y) && #[trigger] self.tie_changed(old(self), x, y),
            decreases ids@.len() - i,
        {
            let id: u128 = ids[i];
            proof {
                assert(ids@.contains(id));
                assert(self.mind(id).same_but_ties_and_surname(&old(self).mind(id)));
                assert(self.mind(id).wf());
            }
            let mind = self.citizen(id).unwrap();
            let single: bool = mind.is_single();
            let current = mind.get_current_romantic_partner();
            if !processed.contains(&id) && !single {
                let ghost untouched = processed@;
                let ghost start = *self;
                let ghost mut mate: Option<u128> = None;
                processed.insert(id);
                match current {
                    Some((partner, tier)) => {
                        proof {
                            assert(self.related(id, tier, partner));
                            assert(self.edge_ok(id, tier, partner));
                            assert(self.mind(partner).same_but_ties_and_surname(
                                &old(self).mind(partner),
                            ));
                        }
                        if self.citizen(partner).unwrap().alive {
                            processed.insert(partner);
                            let ghost before = *self;
                            proof {
                                mate = Some(partner);
                            }
                            let split_roll: u32 = random_below(rng, 1000);
                            let marriage_roll: u32 = random_below(rng, 1000);
                            let customs: usize = self.culture.marriage_surname_formats.len();
                            let custom: usize = if customs > 0 {
                                random_index(rng, customs)
                            } else {
                                0
                            };
                            let ghost step = romance_step_of(tier, split_roll, marriage_roll);
                            let ghost moved = step == RomanceStep::Split || (step
                                == RomanceStep::Marry && customs > 0);
                            self.evolve_couple(id, partner, tier, split_roll, marriage_roll, custom);
                            proof {
                                assert(before.pair_untouched(old(self), id, partner));
                                assert(before.pair_untouched(old(self), partner, id));
                                if moved {
                                    self.evolution_step(
                                        &before,
                                        old(self),
                                        id,
                                        partner,
                                        tier,
                                        step,
                                        untouched,
                                        processed@,
                                    );
                                    if old(self).monogamous() {
                                        assert(before.related(partner, tier, id));
                                        assert forall|
                                            x: u128,
                                            k1: RelationVerb,
                                            y: u128,
                                            k2: RelationVerb,
                                            z: u128,
                                        |
                                            k1.romantic() && k2.romantic()
                                                && #[trigger] self.related(x, k1, y)
                                                && #[trigger] self.related(
                                                x,
                                                k2,
                                                z,
                                            ) implies y == z && k1 == k2 by {
                                            let other = if x == id {
                                                partner
                                            } else {
                                                id
                                            };
                                            if x == id || x == partner {
                                                assert(before.related(x, tier, other));
                                                if y != other {
                                                    assert(before.related(x, k1, y));
                                                }
                                                if z != other {
                                                    assert(before.related(x, k2, z));
                                                }
                                                if k1 != RelationVerb::Spouse || step
                                                    == RomanceStep::Split {
                                                    if y == other {
                                                        assert(before.related(x, k1, y));
                                                    }
                                                }
                                                if k2 != RelationVerb::Spouse || step
                                                    == RomanceStep::Split {
                                                    if z == other {
                                                        assert(before.related(x, k2, z));
                                                    }
                                                }
                                            } else {
                                                assert(before.related(x, k1, y));
                                                assert(before.related(x, k2, z));
                                            }
                                        }
                                    }
                                } else {
                                    assert forall|x: u128, y: u128|
                                        !processed@.contains(x) || !processed@.contains(
                                            y,
                                        ) implies #[trigger] self.pair_untouched(
                                        old(self),
                                        x,
                                        y,
                                    ) by {
                                        assert(before.pair_untouched(old(self), x, y));
                                    }
                                    assert forall|x: u128|
                                        old(self).has(x) && (#[trigger] self.mind(x)).last_name
                                            != old(self).mind(x).last_name implies exists|
                                        y: u128,
                                    |
                                        processed@.contains(y) && #[trigger] self.tie_changed(
                                            old(self),
                                            x,
                                            y,
                                        ) by {
                                        let y = choose|y: u128|
                                            untouched.contains(y) && #[trigger] before.tie_changed(
                                                old(self),
                                                x,
                                                y,
                                            );
                                        assert(processed@.contains(y) && self.tie_changed(
                                            old(self),
                                            x,
                                            y,
                                        ));
                                    }
                                }
                                if old(self).monogamous() {
                                    // both are on their first turn: the one by the test
                                    // above, the other because whoever had a turn took
                                    // their living partner along
                                    assert(old(self).related(id, tier, partner));
                                    assert(old(self).related(partner, tier, id));
                                    assert(!untouched.contains(partner));
                                    assert(before.mind(id).last_name == old(self).mind(id).last_name);
                                    assert(before.mind(partner).last_name == old(self).mind(
                                        partner,
                                    ).last_name);
                                    assert(before.mind(id).same_but_ties_and_surname(
                                        &old(self).mind(id),
                                    ));
                                    assert(before.mind(partner).same_but_ties_and_surname(
                                        &old(self).mind(partner),
                                    ));
                                    assert forall|a: u128, b: u128, t: RelationVerb|
                                        t.romantic() && old(self).living(a) && old(self).living(b)
                                            && #[trigger] old(self).mutual(
                                            a,
                                            t,
                                            b,
                                        ) implies self.couple_moved(old(self), a, b, t) by {
                                        assert(before.couple_moved(old(self), a, b, t));
                                        if a == id || a == partner || b == id || b == partner {
                                            // the couple of this turn
                                            assert(t == tier && ((a == id && b == partner) || (a
                                                == partner && b == id)));
                                            if step == RomanceStep::Split {
                                                assert(self.couple_split(old(self), a, b, t));
                                            } else if step == RomanceStep::Marry && customs > 0 {
                                                assert(self.couple_wed(
                                                    old(self),
                                                    id,
                                                    partner,
                                                    custom as int,
                                                ));
                                                assert(self.couple_wed_either_way(
                                                    old(self),
                                                    a,
                                                    b,
                                                    custom as int,
                                                ));
                                            } else {
                                                self.couple_outcome_kept(
                                                    &before,
                                                    old(self),
                                                    a,
                                                    b,
                                                    t,
                                                );
                                            }
                                        } else {
                                            if moved {
                                                assert(self.mind(a) == before.mind(a));
                                                assert(self.mind(b) == before.mind(b));
                                            }
                                            self.couple_outcome_kept(&before, old(self), a, b, t);
                                        }
                                    }
                                }
                            }
                        }
                    },
                    None => {},
                }
                proof {
                    if old(self).monogamous() {
                        start.mind(id).single_in_edges();
                        assert forall|x: u128, k: RelationVerb, y: u128|
                            processed@.contains(x) && k.romantic() && #[trigger] old(self).related(
                                x,
                                k,
                                y,
                            ) implies processed@.contains(y) || !old(self).living(y) by {
                            if untouched.contains(x) {
                                assert(untouched.contains(y) || !old(self).living(y));
                            } else if x == id {
                                assert(start.pair_untouched(old(self), id, y));
                                assert(start.related(id, k, y));
                                assert(current is Some);
                                let found = current->0;
                                let partner = found.0;
                                let tier = found.1;
                                assert(start.related(id, tier, partner));
                                assert(y == partner);
                                assert(start.mind(partner).same_but_ties_and_surname(
                                    &old(self).mind(partner),
                                ));
                            } else {
                                assert(mate == Some(x));
                                let found = current->0;
                                let tier = found.1;
                                assert(start.related(id, tier, x));
                                assert(start.edge_ok(id, tier, x));
                                assert(start.pair_untouched(old(self), x, id));
                                assert(old(self).related(x, tier, id));
                            }
                        }
                    }
                }
                proof {
                    assert forall|x: u128|
                        old(self).has(x) && (#[trigger] self.mind(x)).last_name != old(self).mind(x).last_name implies exists|y: u128|
                        processed@.contains(y) && #[trigger] self.tie_changed(old(self), x, y) by {
                        if !(exists|y: u128|
                            processed@.contains(y) && #[trigger] self.tie_changed(
                                old(self),
                                x,
                                y,
                            )) {
                            let y = choose|y: u128|
                                untouched.contains(y) && #[trigger] self.tie_changed(
                                    old(self),
                                    x,
                                    y,
                                );
                            assert(processed@.contains(y));
                        }
                    }
                }
            }
            i += 1;
        }
        proof {
            assert forall|x: u128|
                old(self).has(x) && (#[trigger] self.mind(x)).last_name != old(self).mind(
                    x,
                ).last_name implies exists|y: u128| #[trigger]
                self.tie_changed(old(self), x, y) by {
                let y = choose|y: u128|
                    processed@.contains(y) && #[trigger] self.tie_changed(old(self), x, y);
                assert(self.tie_changed(old(self), x, y));
            }
        }
    }

    /// Whether no living citizen can pair with anyone.
    pub open spec fn nobody_left_to_pair(&self) -> bool {
        forall|a: u128, b: u128| self.living(a) ==> !#[trigger] self.can_pair(a, b)
    }

    /// How the city after a year of romance relates to the city before.
    /// The citizens are the same but for ties and surnames, and no edge
    /// outside the social tiers and the course of romance differs.  The
    /// year runs through a city in which everyone who could pair has
    /// paired, and ends in a city in which the couples of that city have
    /// moved along the course of their romance.
    pub open spec fn a_year_of_romance_from(&self, before: &City) -> bool {
        &&& self.same_setting(before)
        &&& self.population@.dom() == before.population@.dom()
        &&& forall|x: u128|
            before.has(x) ==> (#[trigger] self.mind(x)).same_but_ties_and_surname(&before.mind(x))
        &&& forall|x: u128, k: RelationVerb, y: u128|
            !k.social() && !in_romance_course(k) ==> (#[trigger] self.related(x, k, y)
                <==> before.related(x, k, y))
        &&& exists|matched: City|
            {
                &&& matched.wf()
                &&& matched.same_people(before)
                &&& #[trigger] matched.matched_from(before)
                &&& matched.nobody_left_to_pair()
                &&& self.evolved_from(&matched)
                &&& matched.monogamous() ==> self.couples_moved_from(&matched)
            }
    }

    /// One year of romance: the matcher, then the evolver.
    pub fn update_mind_partner_relations(&mut self, rng: &mut StdRng)
        requires
            old(self).wf(),
        ensures
            final(self).wf(),
            final(self).a_year_of_romance_from(old(self)),
            old(self).monogamous() ==> final(self).monogamous(),
    {
        self.temp_find_partners(rng);
        let ghost matched = *self;
        self.temp_partner_evolution(rng);
        proof {
            assert(matched.wf() && matched.same_people(old(self)) && matched.matched_from(
                old(self),
            ) && matched.nobody_left_to_pair() && self.evolved_from(&matched) && (
            matched.monogamous() ==> self.couples_moved_from(&matched)));
            assert forall|x: u128| old(self).has(x) implies (#[trigger] self.mind(
                x,
            )).same_but_ties_and_surname(&old(self).mind(x)) by {
                assert(matched.mind(x).same_but_relations(&old(self).mind(x)));
                assert(self.mind(x).same_but_ties_and_surname(&matched.mind(x)));
            }
            assert forall|x: u128, k: RelationVerb, y: u128|
                !k.social() && !in_romance_course(k) implies (#[trigger] self.related(x, k, y)
                <==> old(self).related(x, k, y)) by {
                assert(matched.related(x, k, y) <==> old(self).related(x, k, y));
                assert(self.related(x, k, y) <==> matched.related(x, k, y));
            }
        }
    }

    /// One couple's step keeps what the evolver keeps.
    proof fn evolution_step(
        &self,
        before: &City,
        first: &City,
        a: u128,
        b: u128,
        tier: RelationVerb,
        step: RomanceStep,
        untouched: Set<u128>,
        processed: Set<u128>,
    )
        requires
            a != b,
            first.wf(),
            before.wf(),
            first.living(a),
            first.living(b),
            before.living(a),
            tier.romantic(),
            before.related(a, tier, b),
            step == RomanceStep::Split || (step == RomanceStep::Marry && tier
                == RelationVerb::Partner),
            !untouched.contains(a),
            processed == untouched.insert(a).insert(b),
            before.population@.dom() == first.population@.dom(),
            self.population@.dom() == first.population@.dom(),
            forall|x: u128|
                x != a && x != b && before.has(x) ==> self.mind(x) == before.mind(x),
            forall|x: u128, k: RelationVerb, y: u128|
                self.related(x, k, y) <==> (if (x == a && y == b) || (x == b && y == a) {
                    (if step == RomanceStep::Split {
                        k == former_of(tier) || (k != tier && before.related(x, k, y))
                    } else {
                        k == RelationVerb::Spouse || (k != RelationVerb::Partner && before.related(
                            x,
                            k,
                            y,
                        ))
                    })
                } else {
                    before.related(x, k, y)
                }),
            forall|x: u128, k: RelationVerb, y: u128|
                !in_romance_course(k) ==> (#[trigger] before.related(x, k, y) <==> first.related(
                    x,
                    k,
                    y,
                )),
            forall|x: u128, y: u128| #[trigger] before.ties_moved(first, x, y),
            forall|x: u128, y: u128|
                !first.living(x) || !first.living(y) ==> #[trigger] before.pair_untouched(
                    first,
                    x,
                    y,
                ),
            forall|x: u128, y: u128|
                !untouched.contains(x) || !untouched.contains(y)
                    ==> #[trigger] before.pair_untouched(first, x, y),
            forall|x: u128|
                first.has(x) && !untouched.contains(x) ==> (#[trigger] before.mind(x)).last_name
                    == first.mind(x).last_name,
            forall|x: u128|
                first.has(x) && (#[trigger] before.mind(x)).last_name != first.mind(x).last_name
                    ==> exists|y: u128|
                    untouched.contains(y) && #[trigger] before.tie_changed(first, x, y),
        ensures
            forall|x: u128, k: RelationVerb, y: u128|
                !in_romance_course(k) ==> (#[trigger] self.related(x, k, y) <==> first.related(
                    x,
                    k,
                    y,
                )),
            forall|x: u128, y: u128| #[trigger] self.ties_moved(first, x, y),
            forall|x: u128, y: u128|
                !first.living(x) || !first.living(y) ==> #[trigger] self.pair_untouched(
                    first,
                    x,
                    y,
                ),
            forall|x: u128, y: u128|
                !processed.contains(x) || !processed.contains(y)
                    ==> #[trigger] self.pair_untouched(first, x, y),
            forall|x: u128|
                first.has(x) && !processed.contains(x) ==> (#[trigger] self.mind(x)).last_name
                    == first.mind(x).last_name,
            forall|x: u128|
                first.has(x) && (#[trigger] self.mind(x)).last_name != first.mind(x).last_name
                    ==> exists|y: u128|
                    processed.contains(y) && #[trigger] self.tie_changed(first, x, y),
    {
        assert(before.pair_untouched(first, a, b));
        assert(before.pair_untouched(first, b, a));
        assert(before.edge_ok(a, tier, b));
        assert(before.related(b, tier, a));
        assert(first.related(a, tier, b));
        assert(first.related(b, tier, a));
        assert forall|x: u128, k: RelationVerb, y: u128| !in_romance_course(k) implies (
        #[trigger] self.related(x, k, y) <==> first.related(x, k, y)) by {
            assert(before.related(x, k, y) <==> first.related(x, k, y));
        }
        assert forall|x: u128, y: u128| #[trigger] self.ties_moved(first, x, y) by {
            assert(before.ties_moved(first, x, y));
            if (x == a && y == b) || (x == b && y == a) {
                assert(before.pair_untouched(first, x, y));
            }
        }
        assert forall|x: u128, y: u128|
            !first.living(x) || !first.living(y) implies #[trigger] self.pair_untouched(
            first,
            x,
            y,
        ) by {
            assert(before.pair_untouched(first, x, y));
        }
        assert forall|x: u128, y: u128|
            !processed.contains(x) || !processed.contains(y) implies #[trigger] self.pair_untouched(
            first,
            x,
            y,
        ) by {
            assert(before.pair_untouched(first, x, y));
        }
        assert forall|x: u128|
            first.has(x) && !processed.contains(x) implies (#[trigger] self.mind(x)).last_name
            == first.mind(x).last_name by {
            assert(before.mind(x).last_name == first.mind(x).last_name);
        }
        assert forall|x: u128|
            first.has(x) && (#[trigger] self.mind(x)).last_name != first.mind(
                x,
            ).last_name implies exists|y: u128|
            processed.contains(y) && #[trigger] self.tie_changed(first, x, y) by {
            if x == a {
                assert(processed.contains(b) && self.tie_changed(first, a, b));
            } else if x == b {
                assert(processed.contains(a) && self.tie_changed(first, b, a));
            } else {
                assert(self.mind(x) == before.mind(x));
                let y = choose|y: u128|
                    untouched.contains(y) && #[trigger] before.tie_changed(first, x, y);
                assert(y != a);
                assert(processed.contains(y) && self.tie_changed(first, x, y));
            }
        }
    }
}

/// The kinds that the course of a romance runs through.
pub open spec fn in_romance_course(kind: RelationVerb) -> bool {
    kind == RelationVerb::Partner || kind == RelationVerb::Spouse || kind
        == RelationVerb::ExPartner || kind == RelationVerb::ExSpouse
}

} // verus!
