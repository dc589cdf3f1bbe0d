//! The social former: acquaintances are made, and social ties firm up,
//! loosen, or lapse.

use crate::city::City;
use crate::dice::{random_below, random_index};
use crate::relations::RelationVerb;
use crate::seqs::{filter_facts, filter_start, filter_step};
use rand::rngs::StdRng;
use vstd::prelude::*;

verus! {

broadcast use {
    vstd::std_specs::hash::group_hash_axioms,
    vstd::seq_lib::lemma_seq_contains_after_push,
};

/// What a year brings a social tie.
#[derive(Clone, Copy, Debug, PartialEq, Eq, Structural)]
pub enum TieChange {
    /// The tie stays as it is.
    Keep,
    /// The tie lapses.
    Drop,
    /// The tie moves to another tier.
    Become(RelationVerb),
}

/// How far apart in age new acquaintances can be.  A grown citizen with
/// hardly anyone looks further: fifteen years with fewer than two ties
/// and more than six years past the adult age, ten years with fewer than
/// five ties and more than three years past it, five years otherwise.
pub open spec fn age_gap_of(ties: int, age: int, adult_age: int) -> int {
    if ties < 2 && age > adult_age + 6 {
        15
    } else if ties < 5 && age > adult_age + 3 {
        10
    } else {
        5
    }
}

/// Whether someone of age `other` is within reach of a citizen of `age`
/// with `ties` social ties: not younger than the citizen's age less the
/// gap, nor than the adult age, and less than the gap older.
pub open spec fn in_age_window(ties: int, age: int, adult_age: int, other: int) -> bool {
    let gap = age_gap_of(ties, age, adult_age);
    age - gap <= other && adult_age <= other && other < age + gap
}

/// How many acquaintances a citizen with `ties` social ties tries to make,
/// for a draw of half-steps below forty: the draw rounded to a whole
/// number between zero and twenty, less the ties, and never below zero.
pub open spec fn new_ties_of(roll: int, ties: int) -> int {
    let wanted = (roll + 1) / 2;
    if wanted > ties {
        wanted - ties
    } else {
        0
    }
}

/// What this year brings a social tie of `tier`, for two per-mille draws.
/// An acquaintance lapses at 60%, else becomes a friend at 25%.  A friend
/// falls back to acquaintance at 25%, else becomes a close friend at
/// 12.5%.  A close friend falls back to friend at 12.5%.
pub open spec fn tie_change_of(tier: RelationVerb, first: u32, second: u32) -> TieChange {
    match tier {
        RelationVerb::Acquaintance => if first < 600 {
            TieChange::Drop
        } else if second < 250 {
            TieChange::Become(RelationVerb::Friend)
        } else {
            TieChange::Keep
        },
        RelationVerb::Friend => if first < 250 {
            TieChange::Become(RelationVerb::Acquaintance)
        } else if second < 125 {
            TieChange::Become(RelationVerb::CloseFriend)
        } else {
            TieChange::Keep
        },
        RelationVerb::CloseFriend => if first < 125 {
            TieChange::Become(RelationVerb::Friend)
        } else {
            TieChange::Keep
        },
        _ => TieChange::Keep,
    }
}

/// How far apart in age new acquaintances of a citizen can be.
pub fn age_gap(ties: usize, age: u32, adult_age: u32) -> (gap: u32)
    ensures
        gap == age_gap_of(ties as int, age as int, adult_age as int),
{
    let age: u64 = age as u64;
    let adult_age: u64 = adult_age as u64;
    if ties < 2 && age > adult_age + 6 {
        15
    } else if ties < 5 && age > adult_age + 3 {
        10
    } else {
        5
    }
}

/// Whether someone of age `other` is within reach of the citizen.
pub fn within_age_window(ties: usize, age: u32, adult_age: u32, other: u32) -> (yes: bool)
    ensures
        yes == in_age_window(ties as int, age as int, adult_age as int, other as int),
{
    let gap: u64 = age_gap(ties, age, adult_age) as u64;
    let age: u64 = age as u64;
    let other: u64 = other as u64;
    age <= other + gap && adult_age as u64 <= other && other < age + gap
}

/// How many acquaintances a citizen tries to make, for a draw of
/// half-steps below forty.
pub fn new_ties(roll: u32, ties: usize) -> (target: usize)
    requires
        roll < 40,
    ensures
        target == new_ties_of(roll as int, ties as int),
{
    let wanted: usize = ((roll + 1) / 2) as usize;
    if wanted > ties {
        wanted - ties
    } else {
        0
    }
}

/// What this year brings a social tie, for two per-mille draws.
pub fn tie_change(tier: RelationVerb, first: u32, second: u32) -> (change: TieChange)
    ensures
        change == tie_change_of(tier, first, second),
{
    match tier {
        RelationVerb::Acquaintance => if first < 600 {
            TieChange::Drop
        } else if second < 250 {
            TieChange::Become(RelationVerb::Friend)
        } else {
            TieChange::Keep
        },
        RelationVerb::Friend => if first < 250 {
            TieChange::Become(RelationVerb::Acquaintance)
        } else if second < 125 {
            TieChange::Become(RelationVerb::CloseFriend)
        } else {
            TieChange::Keep
        },
        RelationVerb::CloseFriend => if first < 125 {
            TieChange::Become(RelationVerb::Friend)
        } else {
            TieChange::Keep
        },
        _ => TieChange::Keep,
    }
}

/// With more ties a citizen looks no further.
pub proof fn window_narrows(ties: int, more: int, age: int, adult_age: int, other: int)
    requires
        ties <= more,
        in_age_window(more, age, adult_age, other),
    ensures
        in_age_window(ties, age, adult_age, other),
{
}

impl City {
    /// Whether `b` is of an age that `a` looks for in a new acquaintance,
    /// by the ties that `a` holds: within five, ten or fifteen years.
    pub open spec fn within_reach(&self, a: u128, b: u128) -> bool {
        in_age_window(
            self.mind(a).social_circle().len() as int,
            self.mind(a).age as int,
            self.culture.adult_age as int,
            self.mind(b).age as int,
        )
    }

    /// Whether `a` holds `b` under a kind that bars a social tie: a kin
    /// line, or present or former romance.
    pub open spec fn barred(&self, a: u128, b: u128) -> bool {
        exists|k: RelationVerb| k.bars_friendship() && #[trigger] self.related(a, k, b)
    }

    /// Whether `b` is in the pool of possible new acquaintances of `a`:
    /// someone else, alive, within the age window, not yet socially tied
    /// to `a`, and not barred.
    pub open spec fn eligible_friend(&self, a: u128, b: u128) -> bool {
        &&& b != a
        &&& self.living(b)
        &&& in_age_window(
            self.mind(a).social_circle().len() as int,
            self.mind(a).age as int,
            self.culture.adult_age as int,
            self.mind(b).age as int,
        )
        &&& !self.social_tie(a, b)
        &&& !self.barred(a, b)
    }

    /// The test for the pool of `a`, as a predicate on ids.
    pub open spec fn is_eligible_friend(&self, a: u128) -> spec_fn(u128) -> bool {
        |b: u128| self.eligible_friend(a, b)
    }

    /// Whether two different living citizens who are not barred from it
    /// can come to hold a social tie.
    pub open spec fn may_meet(&self, a: u128, b: u128) -> bool {
        a != b && self.living(a) && self.living(b) && !self.barred(a, b)
    }

    /// Whether `a` holds `b` under a kind that bars a social tie.
    pub fn is_barred(&self, a: u128, b: u128) -> (yes: bool)
        requires
            self.wf(),
            self.has(a),
        ensures
            yes == self.barred(a, b),
    {
        assert(self.mind(a).wf());
        let table = &self.citizen(a).unwrap().relations;
        let yes = table.contains(RelationVerb::ExPartner, b) || table.contains(
            RelationVerb::ExSpouse,
            b,
        ) || table.contains(RelationVerb::Partner, b) || table.contains(RelationVerb::Spouse, b)
            || table.contains(RelationVerb::Parent, b) || table.contains(RelationVerb::Child, b)
            || table.contains(RelationVerb::Cousin, b) || table.contains(
            RelationVerb::Grandchild,
            b,
        ) || table.contains(RelationVerb::Grandparent, b) || table.contains(
            RelationVerb::Pibling,
            b,
        ) || table.contains(RelationVerb::Nibling, b);
        proof {
            if yes {
                assert(self.related(a, RelationVerb::ExPartner, b) || self.related(
                    a,
                    RelationVerb::ExSpouse,
                    b,
                ) || self.related(a, RelationVerb::Partner, b) || self.related(
                    a,
                    RelationVerb::Spouse,
                    b,
                ) || self.related(a, RelationVerb::Parent, b) || self.related(
                    a,
                    RelationVerb::Child,
                    b,
                ) || self.related(a, RelationVerb::Cousin, b) || self.related(
                    a,
                    RelationVerb::Grandchild,
                    b,
                ) || self.related(a, RelationVerb::Grandparent, b) || self.related(
                    a,
                    RelationVerb::Pibling,
                    b,
                ) || self.related(a, RelationVerb::Nibling, b));
            }
        }
        yes
    }

    /// Everyone with whom `id` holds a social tie, each once.
    pub fn social_circle_of(&self, id: u128) -> (circle: Vec<u128>)
        requires
            self.wf(),
            self.has(id),
        ensures
            circle@.no_duplicates(),
            forall|b: u128| circle@.contains(b) <==> self.social_tie(id, b),
            circle@.len() == self.mind(id).social_circle().len(),
    {
        let ties = self.social_ties(id);
        let mut circle: Vec<u128> = Vec::new();
        let mut i: usize = 0;
        while i < ties.len()
            invariant
                i <= ties@.len(),
                circle@.no_duplicates(),
                forall|b: u128| circle@.contains(b) <==> ties@.take(i as int).contains(b),
            decreases ties@.len() - i,
        {
            let b: u128 = ties[i];
            proof {
                assert(ties@.take(i as int + 1) =~= ties@.take(i as int).push(b));
            }
            if !contains_id(&circle, b) {
                proof {
                    crate::seqs::push_keeps_distinct(circle@, b);
                }
                circle.push(b);
            }
            i += 1;
        }
        proof {
            assert(ties@.take(i as int) =~= ties@);
            circle@.unique_seq_to_set();
            assert(circle@.to_set() =~= self.mind(id).social_circle()) by {
                assert forall|b: u128|
                    circle@.to_set().contains(b) <==> self.mind(id).social_circle().contains(
                        b,
                    ) by {
                    assert(circle@.to_set().contains(b) <==> circle@.contains(b));
                }
            }
        }
        circle
    }

    /// The pool of possible new acquaintances of `id`, each once.
    pub fn friend_pool(&self, id: u128) -> (pool: Vec<u128>)
        requires
            self.wf(),
            self.has(id),
        ensures
            pool@.no_duplicates(),
            forall|b: u128| pool@.contains(b) <==> self.eligible_friend(id, b),
    {
        let circle = self.social_circle_of(id);
        let ties: usize = circle.len();
        let age: u32 = self.citizen(id).unwrap().age;
        let all = self.citizens();
        let mut pool: Vec<u128> = Vec::new();
        let mut i: usize = 0;
        proof {
            filter_start(all@, self.is_eligible_friend(id));
        }
        while i < all.len()
            invariant
                self.wf(),
                self.has(id),
                i <= all@.len(),
                forall|x: u128| all@.contains(x) <==> self.has(x),
                forall|b: u128| circle@.contains(b) <==> self.social_tie(id, b),
                ties == self.mind(id).social_circle().len(),
                age == self.mind(id).age,
                pool@ == all@.take(i as int).filter(self.is_eligible_friend(id)),
            decreases all@.len() - i,
        {
            let other: u128 = all[i];
            proof {
                assert(all@.contains(other));
                filter_step(all@, i as int, self.is_eligible_friend(id));
            }
            let mind = self.citizen(other).unwrap();
            if other != id && mind.alive && within_age_window(
                ties,
                age,
                self.culture.adult_age,
                mind.age,
            ) && !contains_id(&circle, other) && !self.is_barred(id, other) {
                pool.push(other);
            }
            i += 1;
        }
        proof {
            assert(all@.take(i as int) =~= all@);
            filter_facts(all@, self.is_eligible_friend(id));
        }
        pool
    }

    /// Among the living, a bar holds both ways.
    pub proof fn bars_are_mutual(&self, a: u128, b: u128)
        requires
            self.wf(),
            self.living(a),
            self.living(b),
            self.barred(b, a),
        ensures
            self.barred(a, b),
    {
        let k = choose|k: RelationVerb| k.bars_friendship() && #[trigger] self.related(b, k, a);
        assert(self.edge_ok(b, k, a));
        assert(k.mirror_of().bars_friendship());
        assert(self.related(a, k.mirror_of(), b));
    }

    /// Whether `id` and `other` become acquaintances when `id` picks
    /// `picks`: `other` is picked, and is not family of `id`.
    pub open spec fn picked_stranger(&self, id: u128, picks: Seq<u128>, other: u128) -> bool {
        picks.contains(other) && !self.mind(id).kin_of(other)
    }

    /// Makes acquaintances of `id` and everyone of `picks` who is not
    /// family of `id`.  Picking someone twice is picking them once.
    pub fn make_acquaintances(&mut self, id: u128, picks: &Vec<u128>)
        requires
            old(self).wf(),
            old(self).has(id),
            forall|i: int|
                0 <= i < picks@.len() ==> old(self).has(#[trigger] picks@[i]) && picks@[i] != id,
        ensures
            final(self).wf(),
            final(self).same_people(old(self)),
            forall|x: u128, k: RelationVerb, y: u128|
                final(self).related(x, k, y) <==> (old(self).related(x, k, y) || (k
                    == RelationVerb::Acquaintance && ((x == id && old(self).picked_stranger(
                    id,
                    picks@,
                    y,
                )) || (y == id && old(self).picked_stranger(id, picks@, x))))),
    {
        let mut i: usize = 0;
        while i < picks.len()
            invariant
                i <= picks@.len(),
                old(self).wf(),
                old(self).has(id),
                forall|j: int|
                    0 <= j < picks@.len() ==> old(self).has(#[trigger] picks@[j]) && picks@[j]
                        != id,
                self.wf(),
                self.same_people(old(self)),
                forall|x: u128, k: RelationVerb, y: u128|
                    self.related(x, k, y) <==> (old(self).related(x, k, y) || (k
                        == RelationVerb::Acquaintance && ((x == id && old(self).picked_stranger(
                        id,
                        picks@.take(i as int),
                        y,
                    )) || (y == id && old(self).picked_stranger(id, picks@.take(i as int), x))))),
            decreases picks@.len() - i,
        {
            let target: u128 = picks[i];
            let ghost before = *self;
            proof {
                assert(old(self).has(picks@[i as int]));
                assert(self.mind(id).same_but_relations(&old(self).mind(id)));
                assert(self.mind(id).wf());
                assert(picks@.take(i as int + 1) =~= picks@.take(i as int).push(target));
                // nothing but acquaintance has changed, so family is who it was
                if self.mind(id).kin_of(target) {
                    let kind = choose|kind: RelationVerb|
                        kind.kin_line() && #[trigger] self.mind(id).related(kind, target);
                    assert(self.related(id, kind, target));
                    assert(old(self).related(id, kind, target));
                    assert(old(self).mind(id).related(kind, target));
                }
                if old(self).mind(id).kin_of(target) {
                    let kind = choose|kind: RelationVerb|
                        kind.kin_line() && #[trigger] old(self).mind(id).related(kind, target);
                    assert(old(self).related(id, kind, target));
                    assert(self.related(id, kind, target));
                    assert(self.mind(id).related(kind, target));
                }
            }
            if !self.citizen(id).unwrap().is_relation_of(&target) {
                self.link(id, target, RelationVerb::Acquaintance);
                proof {
                    self.same_people_chain(&before, old(self));
                }
            }
            proof {
                assert forall|x: u128, k: RelationVerb, y: u128|
                    self.related(x, k, y) <==> (old(self).related(x, k, y) || (k
                        == RelationVerb::Acquaintance && ((x == id && old(self).picked_stranger(
                        id,
                        picks@.take(i as int + 1),
                        y,
                    )) || (y == id && old(self).picked_stranger(
                        id,
                        picks@.take(i as int + 1),
                        x,
                    ))))) by {
                    crate::seqs::push_contains(picks@.take(i as int), target, x);
                    crate::seqs::push_contains(picks@.take(i as int), target, y);
                }
            }
            i += 1;
        }
        proof {
            assert(picks@.take(i as int) =~= picks@);
        }
    }

    /// Draws whom `id` meets this year: from the pool, as many times as the
    /// citizen's ties and the draw of half-steps say.  The same person can
    /// be drawn twice.  Nobody is drawn from an empty pool.
    pub fn draw_acquaintances(&self, rng: &mut StdRng, id: u128) -> (picks: Vec<u128>)
        requires
            self.wf(),
            self.has(id),
        ensures
            forall|i: int| 0 <= i < picks@.len() ==> self.eligible_friend(id, #[trigger] picks@[i]),
            (forall|b: u128| !self.eligible_friend(id, b)) ==> picks@.len() == 0,
            (exists|b: u128| self.eligible_friend(id, b)) ==> exists|roll: int|
                0 <= roll < 40 && picks@.len() == #[trigger] new_ties_of(
                    roll,
                    self.mind(id).social_circle().len() as int,
                ),
    {
        let pool = self.friend_pool(id);
        let ties: usize = self.social_circle_of(id).len();
        let roll: u32 = random_below(rng, 40);
        let to_add: usize = new_ties(roll, ties);
        let mut picks: Vec<u128> = Vec::new();
        if pool.len() == 0 {
            proof {
                assert forall|b: u128| !self.eligible_friend(id, b) by {
                    assert(!pool@.contains(b));
                }
            }
            return picks;
        }
        while picks.len() < to_add
            invariant
                picks@.len() <= to_add,
                pool@.len() > 0,
                forall|b: u128| pool@.contains(b) <==> self.eligible_friend(id, b),
                forall|i: int|
                    0 <= i < picks@.len() ==> self.eligible_friend(id, #[trigger] picks@[i]),
            decreases to_add - picks@.len(),
        {
            let at: usize = random_index(rng, pool.len());
            proof {
                assert(pool@.contains(pool@[at as int]));
            }
            picks.push(pool[at]);
        }
        proof {
            assert(pool@.contains(pool@[0]));
            assert(picks@.len() == new_ties_of(
                roll as int,
                self.mind(id).social_circle().len() as int,
            ));
        }
        picks
    }

    /// Whether the city is what `id` picking `picks` as acquaintances makes
    /// of `before`.  The picks come from the pool of `id`: none from an
    /// empty pool, else as many as the ties of `id` and some draw of
    /// half-steps say.  Whoever is picked and not family of `id` is an
    /// acquaintance of `id`, and nothing else has changed.
    pub open spec fn widened_by(&self, before: &City, id: u128, picks: Seq<u128>) -> bool {
        &&& forall|i: int| 0 <= i < picks.len() ==> before.eligible_friend(id, #[trigger] picks[i])
        &&& (forall|b: u128| !before.eligible_friend(id, b)) ==> picks.len() == 0
        &&& (exists|b: u128| before.eligible_friend(id, b)) ==> exists|roll: int|
            0 <= roll < 40 && picks.len() == #[trigger] new_ties_of(
                roll,
                before.mind(id).social_circle().len() as int,
            )
        &&& forall|x: u128, k: RelationVerb, y: u128|
            #[trigger] self.related(x, k, y) <==> (before.related(x, k, y) || (k
                == RelationVerb::Acquaintance && ((x == id && before.picked_stranger(id, picks, y))
                || (y == id && before.picked_stranger(id, picks, x)))))
    }

    /// One citizen's round of making acquaintances: whoever is drawn from
    /// the pool becomes an acquaintance, family passed over.
    pub fn widen_circle(&mut self, rng: &mut StdRng, id: u128)
        requires
            old(self).wf(),
            old(self).has(id),
        ensures
            final(self).wf(),
            final(self).same_people(old(self)),
            exists|picks: Seq<u128>| #[trigger] final(self).widened_by(old(self), id, picks),
            forall|x: u128, k: RelationVerb, y: u128|
                old(self).related(x, k, y) ==> final(self).related(x, k, y),
            forall|x: u128, k: RelationVerb, y: u128|
                final(self).related(x, k, y) && !old(self).related(x, k, y) ==> k
                    == RelationVerb::Acquaintance && ((x == id && old(self).eligible_friend(id, y))
                    || (y == id && old(self).eligible_friend(id, x))),
    {
        let picks = self.draw_acquaintances(rng, id);
        proof {
            assert forall|i: int| 0 <= i < picks@.len() implies self.has(#[trigger] picks@[i])
                && picks@[i] != id by {
                assert(self.eligible_friend(id, picks@[i]));
            }
        }
        self.make_acquaintances(id, &picks);
        proof {
            assert forall|x: u128, k: RelationVerb, y: u128|
                self.related(x, k, y) && !old(self).related(x, k, y) implies k
                == RelationVerb::Acquaintance && ((x == id && old(self).eligible_friend(id, y))
                || (y == id && old(self).eligible_friend(id, x))) by {
                if x == id && old(self).picked_stranger(id, picks@, y) {
                    let j = choose|j: int| 0 <= j < picks@.len() && picks@[j] == y;
                    assert(old(self).eligible_friend(id, picks@[j]));
                } else {
                    let j = choose|j: int| 0 <= j < picks@.len() && picks@[j] == x;
                    assert(old(self).eligible_friend(id, picks@[j]));
                }
            }
            assert(self.widened_by(old(self), id, picks@));
        }
    }

    /// Applies one year's change to the tie of `tier` between `a` and `b`.
    pub fn change_tie(&mut self, a: u128, b: u128, tier: RelationVerb, change: TieChange)
        requires
            old(self).wf(),
            old(self).has(a),
            old(self).has(b),
            a != b,
            tier.social(),
            change matches TieChange::Become(next) ==> next.social(),
        ensures
            final(self).wf(),
            final(self).same_people(old(self)),
            forall|x: u128|
                x != a && x != b && old(self).has(x) ==> final(self).mind(x) == old(self).mind(x),
            forall|x: u128, k: RelationVerb, y: u128|
                final(self).related(x, k, y) <==> (if (x == a && y == b) || (x == b && y == a) {
                    match change {
                        TieChange::Keep => old(self).related(x, k, y),
                        TieChange::Drop => k != tier && old(self).related(x, k, y),
                        TieChange::Become(next) => k == next || (k != tier && old(self).related(
                            x,
                            k,
                            y,
                        )),
                    }
                } else {
                    old(self).related(x, k, y)
                }),
    {
        match change {
            TieChange::Keep => {},
            TieChange::Drop => {
                self.unlink(a, b, tier);
            },
            TieChange::Become(next) => {
                self.unlink(a, b, tier);
                let ghost between = *self;
                self.link(a, b, next);
                proof {
                    self.same_people_chain(&between, old(self));
                }
            },
        }
    }

    /// Whether `a` holds `b` under `k` after `change` came to their tie of
    /// `tier`, given whether it did before.
    pub open spec fn tie_after(change: TieChange, tier: RelationVerb, k: RelationVerb, held: bool) -> bool {
        match change {
            TieChange::Keep => held,
            TieChange::Drop => k != tier && held,
            TieChange::Become(next) => k == next || (k != tier && held),
        }
    }

    /// Whether the edges between `a` and `b` are what `change` makes of
    /// those of `before`, as the change of a tie of `tier`.
    pub open spec fn tie_changed_by(
        &self,
        before: &City,
        a: u128,
        b: u128,
        tier: RelationVerb,
        change: TieChange,
    ) -> bool {
        &&& forall|k: RelationVerb|
            #[trigger] self.related(a, k, b) <==> City::tie_after(
                change,
                tier,
                k,
                before.related(a, k, b),
            )
        &&& forall|k: RelationVerb|
            #[trigger] self.related(b, k, a) <==> City::tie_after(
                change,
                tier,
                k,
                before.related(b, k, a),
            )
    }

    /// Whether the edges between `a` and `b` are what one roll on their tie
    /// of `tier` can make of those of `before`: what the change for some
    /// pair of draws makes of them.
    pub open spec fn tie_rolled(&self, before: &City, a: u128, b: u128, tier: RelationVerb) -> bool {
        exists|first: u32, second: u32| #[trigger]
            self.tie_changed_by(before, a, b, tier, tie_change_of(tier, first, second))
    }

    /// Whether the edges between `a` and `b` are those of `before`, both ways.
    pub open spec fn both_untouched(&self, before: &City, a: u128, b: u128) -> bool {
        self.pair_untouched(before, a, b) && self.pair_untouched(before, b, a)
    }

    /// Whether the tie of `tier` between `id` and `other` is rolled on the
    /// turn of `id`, for the ties in `held`: where `id` holds `other` under
    /// the tier and in `held`, but not where `other` lives and has the
    /// smaller id, for that tie is rolled on the turn of `other`.
    pub open spec fn rolls_tie(&self, id: u128, other: u128, tier: RelationVerb, held: Set<u128>) -> bool {
        held.contains(other) && self.related(id, tier, other) && !(self.living(other) && other
            < id)
    }

    /// Whether the city is what one pass over the ties of `tier` of `id`,
    /// those in `held`, makes of `before`.  Every tie that is rolled moves
    /// as one roll can move it.  Every other pair is as it was.
    pub open spec fn ties_rolled_from(
        &self,
        before: &City,
        id: u128,
        tier: RelationVerb,
        held: Set<u128>,
    ) -> bool {
        &&& forall|x: u128, y: u128|
            x != id && y != id ==> #[trigger] self.pair_untouched(before, x, y)
        &&& forall|other: u128| #[trigger] self.tie_rolled(before, id, other, tier)
        &&& forall|other: u128|
            !before.rolls_tie(id, other, tier, held) ==> #[trigger] self.both_untouched(
                before,
                id,
                other,
            )
    }

    /// Whether the tie between `id` and `other` has been rolled into
    /// another state: it was rolled, and `id` no longer holds `other` under
    /// the tier.
    pub open spec fn tie_rolled_away(
        &self,
        before: &City,
        id: u128,
        other: u128,
        tier: RelationVerb,
        held: Set<u128>,
    ) -> bool {
        &&& before.rolls_tie(id, other, tier, held)
        &&& !self.related(id, tier, other)
        &&& self.tie_rolled(before, id, other, tier)
    }

    /// One citizen's social ties of `tier`, each rolled once.
    fn evolve_tier(&mut self, rng: &mut StdRng, id: u128, tier: RelationVerb, held: &Vec<u128>)
        requires
            old(self).wf(),
            old(self).has(id),
            tier.social(),
        ensures
            final(self).wf(),
            final(self).same_people(old(self)),
            final(self).socially_evolved_from(old(self)),
            final(self).ties_rolled_from(old(self), id, tier, held@.to_set()),
    {
        let mut i: usize = 0;
        proof {
            assert forall|x: u128, y: u128| #[trigger] self.social_tie(x, y) implies old(self).social_tie(x, y) by {}
            assert forall|other: u128| #[trigger] self.both_untouched(old(self), id, other) by {}
        }
        while i < held.len()
            invariant
                i <= held@.len(),
                old(self).wf(),
                old(self).has(id),
                tier.social(),
                self.wf(),
                self.same_people(old(self)),
                self.socially_evolved_from(old(self)),
                forall|x: u128, y: u128|
                    x != id && y != id ==> #[trigger] self.pair_untouched(old(self), x, y),
                forall|other: u128|
                    #[trigger] self.both_untouched(old(self), id, other) || self.tie_rolled_away(
                        old(self),
                        id,
                        other,
                        tier,
                        held@.to_set(),
                    ),
            decreases held@.len() - i,
        {
            let other: u128 = held[i];
            let first: u32 = random_below(rng, 1000);
            let second: u32 = random_below(rng, 1000);
            let ghost before = *self;
            proof {
                assert(self.mind(id).same_but_relations(&old(self).mind(id)));
                assert(self.mind(id).wf());
                assert(held@.contains(other));
                assert(held@.to_set().contains(other));
            }
            if other != id && self.citizen(id).unwrap().relations.contains(tier, other) {
                match self.citizen(other) {
                    Some(mind) => {
                        if !(mind.alive && other < id) {
                            let change = tie_change(tier, first, second);
                            proof {
                                assert(before.related(id, tier, other));
                                assert(before.both_untouched(old(self), id, other));
                                assert(before.mind(other).same_but_relations(
                                    &old(self).mind(other),
                                ));
                            }
                            self.change_tie(id, other, tier, change);
                            proof {
                                self.same_people_chain(&before, old(self));
                                assert forall|x: u128, k: RelationVerb, y: u128|
                                    !k.social() implies (#[trigger] self.related(x, k, y) <==> old(self).related(x, k, y)) by {
                                    assert(before.related(x, k, y) <==> old(self).related(x, k, y));
                                }
                                assert forall|x: u128, y: u128| #[trigger]
                                    self.social_tie(x, y) implies old(self).social_tie(x, y) by {
                                    if (x == id && y == other) || (x == other && y == id) {
                                        tie_was_there(self, &before, id, other, tier, change, x, y);
                                    }
                                    assert(before.social_tie(x, y));
                                }
                                assert forall|x: u128, y: u128|
                                    x != id && y != id implies #[trigger] self.pair_untouched(
                                    old(self),
                                    x,
                                    y,
                                ) by {
                                    assert(before.pair_untouched(old(self), x, y));
                                }
                                assert(self.tie_changed_by(
                                    old(self),
                                    id,
                                    other,
                                    tier,
                                    tie_change_of(tier, first, second),
                                ));
                                assert(self.tie_rolled(old(self), id, other, tier));
                                assert forall|o: u128|
                                    #[trigger] self.both_untouched(old(self), id, o)
                                        || self.tie_rolled_away(
                                        old(self),
                                        id,
                                        o,
                                        tier,
                                        held@.to_set(),
                                    ) by {
                                    if o == other {
                                        if change == TieChange::Keep {
                                            assert(self.both_untouched(old(self), id, o));
                                        } else {
                                            assert(!self.related(id, tier, other));
                                            assert(old(self).rolls_tie(
                                                id,
                                                other,
                                                tier,
                                                held@.to_set(),
                                            ));
                                        }
                                    } else {
                                        if before.both_untouched(old(self), id, o) {
                                            assert(self.both_untouched(old(self), id, o));
                                        } else {
                                            assert(before.tie_rolled_away(
                                                old(self),
                                                id,
                                                o,
                                                tier,
                                                held@.to_set(),
                                            ));
                                            let (r1, r2) = choose|r1: u32, r2: u32| #[trigger]
                                                before.tie_changed_by(
                                                    old(self),
                                                    id,
                                                    o,
                                                    tier,
                                                    tie_change_of(tier, r1, r2),
                                                );
                                            assert(self.tie_changed_by(
                                                old(self),
                                                id,
                                                o,
                                                tier,
                                                tie_change_of(tier, r1, r2),
                                            ));
                                        }
                                    }
                                }
                            }
                        }
                    },
                    None => {},
                }
            }
            i += 1;
        }
        proof {
            assert forall|other: u128| #[trigger] self.tie_rolled(old(self), id, other, tier) by {
                if self.both_untouched(old(self), id, other) {
                    assert(tie_change_of(tier, 999, 999) == TieChange::Keep);
                    assert(self.tie_changed_by(
                        old(self),
                        id,
                        other,
                        tier,
                        tie_change_of(tier, 999, 999),
                    ));
                } else {
                    assert(self.tie_rolled_away(old(self), id, other, tier, held@.to_set()));
                }
            }
            assert forall|other: u128|
                !old(self).rolls_tie(
                    id,
                    other,
                    tier,
                    held@.to_set(),
                ) implies #[trigger] self.both_untouched(old(self), id, other) by {
                if !self.both_untouched(old(self), id, other) {
                    assert(self.tie_rolled_away(old(self), id, other, tier, held@.to_set()));
                }
            }
        }
    }

    /// How the graph after ties were rolled relates to the graph before:
    /// only social ties differ, and nobody is tied who was not.
    pub open spec fn socially_evolved_from(&self, before: &City) -> bool {
        &&& forall|x: u128, k: RelationVerb, y: u128|
            !k.social() ==> (#[trigger] self.related(x, k, y) <==> before.related(x, k, y))
        &&& forall|x: u128, y: u128| #[trigger]
            self.social_tie(x, y) ==> before.social_tie(x, y)
    }

    /// One citizen's turn of the yearly roll on social ties.  Every tie of
    /// the citizen is rolled, but for those to a living citizen with a
    /// smaller id, which are rolled on that citizen's turn: so every tie is
    /// rolled once a year.
    pub fn temp_friend_evolution(&mut self, rng: &mut StdRng, mind_id: &u128)
        requires
            old(self).wf(),
            old(self).has(*mind_id),
        ensures
            final(self).wf(),
            final(self).same_people(old(self)),
            final(self).socially_evolved_from(old(self)),
            exists|loosened: City, befriended: City| #[trigger]
                final(self).rolled_through(old(self), *mind_id, &loosened, &befriended),
    {
        let id: u128 = *mind_id;
        assert(self.mind(id).wf());
        let mind = self.citizen(id).unwrap();
        let loose = mind.get_relations(RelationVerb::Acquaintance);
        let friends = mind.get_relations(RelationVerb::Friend);
        let close = mind.get_relations(RelationVerb::CloseFriend);
        self.evolve_tier(rng, id, RelationVerb::Acquaintance, &loose);
        let ghost s1 = *self;
        self.evolve_tier(rng, id, RelationVerb::Friend, &friends);
        let ghost s2 = *self;
        self.evolve_tier(rng, id, RelationVerb::CloseFriend, &close);
        proof {
            s2.same_people_chain(&s1, old(self));
            self.same_people_chain(&s2, old(self));
            s2.social_evolution_chain(&s1, old(self));
            self.social_evolution_chain(&s2, old(self));
            assert(loose@.to_set() == old(self).mind(id).relations.ids_of(
                RelationVerb::Acquaintance,
            ));
            assert(self.rolled_through(old(self), id, &s1, &s2));
        }
    }

    /// Whether the city is what one citizen's turn of the yearly roll makes
    /// of `before`, by way of two cities between: first the acquaintances
    /// that `id` held in `before` are rolled, then the friends held in
    /// `before`, then the close friends held in `before`.
    pub open spec fn rolled_through(
        &self,
        before: &City,
        id: u128,
        loosened: &City,
        befriended: &City,
    ) -> bool {
        &&& loosened.ties_rolled_from(
            before,
            id,
            RelationVerb::Acquaintance,
            before.mind(id).relations.ids_of(RelationVerb::Acquaintance),
        )
        &&& befriended.ties_rolled_from(
            loosened,
            id,
            RelationVerb::Friend,
            before.mind(id).relations.ids_of(RelationVerb::Friend),
        )
        &&& self.ties_rolled_from(
            befriended,
            id,
            RelationVerb::CloseFriend,
            before.mind(id).relations.ids_of(RelationVerb::CloseFriend),
        )
    }

    /// Two rounds of rolls make one.
    pub proof fn social_evolution_chain(&self, between: &City, before: &City)
        requires
            self.socially_evolved_from(between),
            between.socially_evolved_from(before),
        ensures
            self.socially_evolved_from(before),
    {
        assert forall|x: u128, k: RelationVerb, y: u128| !k.social() implies (
        #[trigger] self.related(x, k, y) <==> before.related(x, k, y)) by {
            assert(between.related(x, k, y) <==> before.related(x, k, y));
        }
        assert forall|x: u128, y: u128| #[trigger] self.social_tie(x, y) implies before.social_tie(
            x,
            y,
        ) by {
            assert(between.social_tie(x, y));
        }
    }

    /// How the graph after a year of the social former relates to the
    /// graph before: only social ties differ, and whoever is tied now was
    /// tied before, or the two could meet.
    pub open spec fn befriended_from(&self, before: &City) -> bool {
        &&& forall|x: u128, k: RelationVerb, y: u128|
            !k.social() ==> (#[trigger] self.related(x, k, y) <==> before.related(x, k, y))
        &&& forall|x: u128, y: u128| #[trigger]
            self.social_tie(x, y) ==> before.social_tie(x, y) || before.may_meet(x, y)
    }

    /// How the graph after the living made their acquaintances relates to
    /// the graph before: no edge is gone, and every new edge makes
    /// acquaintances of two who could meet and held no social tie, one of
    /// them of an age that the other looked for.
    pub open spec fn acquainted_from(&self, before: &City) -> bool {
        &&& forall|x: u128, k: RelationVerb, y: u128|
            before.related(x, k, y) ==> #[trigger] self.related(x, k, y)
        &&& forall|x: u128, k: RelationVerb, y: u128|
            #[trigger] self.related(x, k, y) && !before.related(x, k, y) ==> k
                == RelationVerb::Acquaintance && before.may_meet(x, y) && !before.social_tie(x, y)
                && (before.within_reach(x, y) || before.within_reach(y, x))
    }

    /// Whether the city is what the turn of `id` at making acquaintances
    /// makes of `before`: for some picks from the pool of `id`, as many
    /// as the ties of `id` and some draw say, everyone picked who is not
    /// family is an acquaintance of `id`, and nothing else has changed.
    pub open spec fn widened_in_turn(&self, before: &City, id: u128) -> bool {
        &&& self.wf()
        &&& self.same_people(before)
        &&& exists|picks: Seq<u128>| #[trigger] self.widened_by(before, id, picks)
    }

    /// Whether the city is what the turn of `id` at the yearly roll makes
    /// of `before`: the ties of `id` are rolled tier by tier, and nothing
    /// else has changed.
    pub open spec fn rolled_in_turn(&self, before: &City, id: u128) -> bool {
        &&& self.wf()
        &&& self.same_people(before)
        &&& exists|loosened: City, befriended: City| #[trigger]
            self.rolled_through(before, id, &loosened, &befriended)
    }

    /// Whether `steps` are the cities of a round of making acquaintances,
    /// one after the turn of each of `ids`, in that order.
    pub open spec fn circles_widened(steps: Seq<City>, ids: Seq<u128>) -> bool {
        &&& steps.len() == ids.len() + 1
        &&& forall|i: int|
            0 <= i < ids.len() ==> (#[trigger] steps[i + 1]).widened_in_turn(&steps[i], ids[i])
    }

    /// Whether `steps` are the cities of a round of the yearly roll, one
    /// after the turn of each of `ids`, in that order.
    pub open spec fn ties_rolled(steps: Seq<City>, ids: Seq<u128>) -> bool {
        &&& steps.len() == ids.len() + 1
        &&& forall|i: int|
            0 <= i < ids.len() ==> (#[trigger] steps[i + 1]).rolled_in_turn(&steps[i], ids[i])
    }

    /// Whether the city comes from `before` by a year of the social former
    /// in which the living took their turns in the order `ids`: first each
    /// made acquaintances, through the cities `met`, then each had their
    /// ties rolled, through the cities `rolled`.
    pub open spec fn company_kept(
        &self,
        before: &City,
        ids: Seq<u128>,
        met: Seq<City>,
        rolled: Seq<City>,
    ) -> bool {
        &&& ids.no_duplicates()
        &&& forall|x: u128| ids.contains(x) <==> before.living(x)
        &&& City::circles_widened(met, ids)
        &&& met[0] == *before
        &&& City::ties_rolled(rolled, ids)
        &&& rolled[0] == met.last()
        &&& rolled.last() == *self
        &&& met.last().acquainted_from(before)
        &&& self.socially_evolved_from(&met.last())
    }

    /// How the city after a year of the social former relates to the city
    /// before.  The people are the same and only social ties differ.  The
    /// living take their turns in some order, each once: first at making
    /// acquaintances, which ends in a city in which acquaintances were
    /// made and nothing else; then at the yearly roll, which ends in a city
    /// in which the ties of that city were rolled and nothing else.
    pub open spec fn a_year_of_company_from(&self, before: &City) -> bool {
        &&& self.same_people(before)
        &&& self.befriended_from(before)
        &&& exists|ids: Seq<u128>, met: Seq<City>, rolled: Seq<City>| #[trigger]
            self.company_kept(before, ids, met, rolled)
    }

    /// One year of the social former: every living citizen makes
    /// acquaintances, then every social tie is rolled.
    pub fn temp_add_friends(&mut self, rng: &mut StdRng)
        requires
            old(self).wf(),
        ensures
            final(self).wf(),
            final(self).a_year_of_company_from(old(self)),
            old(self).monogamous() ==> final(self).monogamous(),
    {
        let ids = self.current_citizens();
        let ghost mut met: Seq<City> = seq![*self];
        let mut i: usize = 0;
        while i < ids.len()
            invariant
                i <= ids@.len(),
                old(self).wf(),
                forall|id: u128| ids@.contains(id) ==> old(self).living(id),
                self.wf(),
                self.same_people(old(self)),
                self.befriended_from(old(self)),
                self.acquainted_from(old(self)),
                met.len() == i + 1,
                met[0] == *old(self),
                met[i as int] == *self,
                forall|k: int|
                    0 <= k < i ==> (#[trigger] met[k + 1]).widened_in_turn(&met[k], ids@[k]),
            decreases ids@.len() - i,
        {
            let id: u128 = ids[i];
            let ghost before = *self;
            proof {
                assert(ids@.contains(id));
            }
            self.widen_circle(rng, id);
            proof {
                let ghost sofar = met;
                met = met.push(*self);
                assert(self.widened_in_turn(&before, id));
                assert forall|k: int| 0 <= k < i + 1 implies (#[trigger] met[k + 1]).widened_in_turn(
                    &met[k],
                    ids@[k],
                ) by {
                    if k < i {
                        assert(met[k + 1] == sofar[k + 1]);
                        assert(met[k] == sofar[k]);
                        assert(sofar[k + 1].widened_in_turn(&sofar[k], ids@[k]));
                    }
                }
                self.same_people_chain(&before, old(self));
                assert forall|x: u128, k: RelationVerb, y: u128|
                    old(self).related(x, k, y) implies #[trigger] self.related(x, k, y) by {
                    assert(before.related(x, k, y));
                }
                assert forall|x: u128, k: RelationVerb, y: u128|
                    #[trigger] self.related(x, k, y) && !old(self).related(x, k, y) implies k
                    == RelationVerb::Acquaintance && old(self).may_meet(x, y) && !old(
                    self,
                ).social_tie(x, y) && (old(self).within_reach(x, y) || old(self).within_reach(
                    y,
                    x,
                )) by {
                    if before.related(x, k, y) {
                    } else {
                        before.looked_no_further(old(self), id);
                        assert(before.mind(x).same_but_relations(&old(self).mind(x)));
                        assert(before.mind(y).same_but_relations(&old(self).mind(y)));
                        before.stranger_could_meet(old(self), id, x, y);
                        let other = if x == id {
                            y
                        } else {
                            x
                        };
                        assert(before.eligible_friend(id, other));
                        assert(before.within_reach(id, other));
                        assert(before.mind(other).same_but_relations(&old(self).mind(other)));
                        assert(old(self).within_reach(id, other));
                        assert(!before.social_tie(id, other));
                        if old(self).social_tie(x, y) {
                            if old(self).related(x, RelationVerb::Acquaintance, y) {
                                assert(old(self).edge_ok(x, RelationVerb::Acquaintance, y));
                            } else if old(self).related(x, RelationVerb::Friend, y) {
                                assert(old(self).edge_ok(x, RelationVerb::Friend, y));
                            } else {
                                assert(old(self).edge_ok(x, RelationVerb::CloseFriend, y));
                            }
                            assert(old(self).social_tie(id, other));
                            assert(before.social_tie(id, other));
                        }
                    }
                }
                assert forall|x: u128, k: RelationVerb, y: u128| !k.social() implies (
                #[trigger] self.related(x, k, y) <==> old(self).related(x, k, y)) by {
                    assert(before.related(x, k, y) <==> old(self).related(x, k, y));
                }
                assert forall|x: u128, y: u128| #[trigger]
                    self.social_tie(x, y) implies old(self).social_tie(x, y) || old(self).may_meet(x, y) by {
                    if before.social_tie(x, y) {
                    } else {
                        assert(before.mind(x).same_but_relations(&old(self).mind(x)));
                        assert(before.mind(y).same_but_relations(&old(self).mind(y)));
                        before.stranger_could_meet(old(self), id, x, y);
                    }
                }
            }
            i += 1;
        }
        let ghost formed = *self;
        let ghost mut rolled: Seq<City> = seq![*self];
        let mut j: usize = 0;
        while j < ids.len()
            invariant
                j <= ids@.len(),
                old(self).wf(),
                forall|id: u128| ids@.contains(id) ==> old(self).living(id),
                self.wf(),
                self.same_people(old(self)),
                self.befriended_from(old(self)),
                self.socially_evolved_from(&formed),
                rolled.len() == j + 1,
                rolled[0] == formed,
                rolled[j as int] == *self,
                forall|k: int|
                    0 <= k < j ==> (#[trigger] rolled[k + 1]).rolled_in_turn(&rolled[k], ids@[k]),
            decreases ids@.len() - j,
        {
            let id: u128 = ids[j];
            let ghost before = *self;
            proof {
                assert(ids@.contains(id));
            }
            self.temp_friend_evolution(rng, &id);
            proof {
                let ghost sofar = rolled;
                rolled = rolled.push(*self);
                assert(self.rolled_in_turn(&before, id));
                assert forall|k: int| 0 <= k < j + 1 implies (#[trigger] rolled[k + 1]).rolled_in_turn(
                    &rolled[k],
                    ids@[k],
                ) by {
                    if k < j {
                        assert(rolled[k + 1] == sofar[k + 1]);
                        assert(rolled[k] == sofar[k]);
                        assert(sofar[k + 1].rolled_in_turn(&sofar[k], ids@[k]));
                    }
                }
                self.same_people_chain(&before, old(self));
                assert forall|x: u128, k: RelationVerb, y: u128| !k.social() implies (
                #[trigger] self.related(x, k, y) <==> old(self).related(x, k, y)) by {
                    assert(before.related(x, k, y) <==> old(self).related(x, k, y));
                }
                assert forall|x: u128, y: u128| #[trigger]
                    self.social_tie(x, y) implies old(self).social_tie(x, y) || old(self).may_meet(x, y) by {
                    assert(before.social_tie(x, y));
                }
                self.social_evolution_chain(&before, &formed);
            }
            j += 1;
        }
        proof {
            assert(met.last() == formed);
            assert(rolled.last() == *self);
            assert(self.company_kept(old(self), ids@, met, rolled));
            if old(self).monogamous() {
                self.romance_only_goes(old(self));
            }
        }
    }

    /// Whoever has lost no edge since looks no further than at first.
    proof fn looked_no_further(&self, first: &City, id: u128)
        requires
            self.wf(),
            first.wf(),
            self.same_people(first),
            first.has(id),
            forall|x: u128, k: RelationVerb, y: u128|
                first.related(x, k, y) ==> #[trigger] self.related(x, k, y),
        ensures
            forall|other: u128|
                first.has(other) && #[trigger] self.within_reach(id, other) ==> first.within_reach(
                    id,
                    other,
                ),
    {
        let was = first.mind(id).social_circle();
        let now = self.mind(id).social_circle();
        assert(self.mind(id).same_but_relations(&first.mind(id)));
        assert(self.mind(id).wf());
        self.mind(id).relations.sets_are_finite(RelationVerb::Acquaintance);
        self.mind(id).relations.sets_are_finite(RelationVerb::Friend);
        self.mind(id).relations.sets_are_finite(RelationVerb::CloseFriend);
        assert(was.subset_of(now)) by {
            assert forall|y: u128| was.contains(y) implies now.contains(y) by {
                if first.related(id, RelationVerb::Acquaintance, y) {
                    assert(self.related(id, RelationVerb::Acquaintance, y));
                } else if first.related(id, RelationVerb::Friend, y) {
                    assert(self.related(id, RelationVerb::Friend, y));
                } else {
                    assert(first.related(id, RelationVerb::CloseFriend, y));
                    assert(self.related(id, RelationVerb::CloseFriend, y));
                }
            }
        }
        vstd::set_lib::lemma_len_subset(was, now);
        assert forall|other: u128|
            first.has(other) && #[trigger] self.within_reach(id, other) implies first.within_reach(
            id,
            other,
        ) by {
            assert(self.mind(other).same_but_relations(&first.mind(other)));
            window_narrows(
                was.len() as int,
                now.len() as int,
                self.mind(id).age as int,
                self.culture.adult_age as int,
                self.mind(other).age as int,
            );
        }
    }

    /// A tie made on the turn of `id` joins two who could meet at first.
    proof fn stranger_could_meet(&self, first: &City, id: u128, x: u128, y: u128)
        requires
            self.wf(),
            first.wf(),
            self.same_people(first),
            first.living(id),
            forall|p: u128, k: RelationVerb, q: u128|
                !k.social() ==> (#[trigger] self.related(p, k, q) <==> first.related(p, k, q)),
            (x == id && self.eligible_friend(id, y)) || (y == id && self.eligible_friend(id, x)),
        ensures
            first.may_meet(x, y),
    {
        assert(self.mind(x).same_but_relations(&first.mind(x)));
        assert(self.mind(y).same_but_relations(&first.mind(y)));
        if first.barred(x, y) {
            let k = choose|k: RelationVerb| k.bars_friendship() && #[trigger] first.related(x, k, y);
            assert(self.related(x, k, y));
            assert(self.barred(x, y));
            if y == id && x != id {
                self.bars_are_mutual(y, x);
            }
        }
    }
}

/// Whether `id` is among `ids`.
pub fn contains_id(ids: &Vec<u128>, id: u128) -> (yes: bool)
    ensures
        yes == ids@.contains(id),
{
    let mut i: usize = 0;
    while i < ids.len()
        invariant
            i <= ids@.len(),
            forall|j: int| 0 <= j < i ==> ids@[j] != id,
        decreases ids@.len() - i,
    {
        if ids[i] == id {
            return true;
        }
        i += 1;
    }
    false
}

proof fn tie_was_there(
    now: &City,
    before: &City,
    a: u128,
    b: u128,
    tier: RelationVerb,
    change: TieChange,
    x: u128,
    y: u128,
)
    requires
        before.wf(),
        a != b,
        tier.social(),
        before.related(a, tier, b),
        (x == a && y == b) || (x == b && y == a),
        now.social_tie(x, y),
        forall|p: u128, k: RelationVerb, q: u128|
            now.related(p, k, q) <==> (if (p == a && q == b) || (p == b && q == a) {
                match change {
                    TieChange::Keep => before.related(p, k, q),
                    TieChange::Drop => k != tier && before.related(p, k, q),
                    TieChange::Become(next) => k == next || (k != tier && before.related(p, k, q)),
                }
            } else {
                before.related(p, k, q)
            }),
    ensures
        before.social_tie(x, y),
{
    assert(before.edge_ok(a, tier, b));
    assert(before.related(b, tier, a));
}

} // verus!
