//! The family deriver: the wider kin of a newly attached child.
//!
//! From the child's parents it derives siblings, grandparents, aunts and
//! uncles, and cousins, and writes each with its mirror.  It looks at the
//! child's parents and at their relations only.

use crate::city::City;
use crate::relations::RelationVerb;
use crate::seqs::push_contains;
use vstd::prelude::*;

verus! {

impl City {
    /// What `parent` passes on to a child under `kind`: the parent's other
    /// children as siblings, the parent's parents as grandparents, the
    /// parent's siblings as aunts and uncles, and the parent's nieces and
    /// nephews as cousins.
    pub open spec fn kin_through(&self, parent: u128, kind: RelationVerb, other: u128) -> bool {
        match kind {
            RelationVerb::Sibling => self.related(parent, RelationVerb::Child, other),
            RelationVerb::Grandparent => self.related(parent, RelationVerb::Parent, other),
            RelationVerb::Pibling => self.related(parent, RelationVerb::Sibling, other),
            RelationVerb::Cousin => self.related(parent, RelationVerb::Nibling, other),
            _ => false,
        }
    }

    /// Whether `target` gets `other` under `kind` from one of its parents.
    pub open spec fn derived_kin(&self, target: u128, kind: RelationVerb, other: u128) -> bool {
        other != target && exists|parent: u128|
            self.related(target, RelationVerb::Parent, parent) && #[trigger] self.kin_through(
                parent,
                kind,
                other,
            )
    }

    /// Adds to `plan`, under `derived`, everyone but `target` whom `parent`
    /// holds under `source`.
    fn plan_through(
        &self,
        parent: u128,
        source: RelationVerb,
        derived: RelationVerb,
        target: u128,
        plan: &mut Vec<(RelationVerb, u128)>,
    )
        requires
            self.wf(),
            self.has(parent),
        ensures
            forall|k: RelationVerb, o: u128|
                final(plan)@.contains((k, o)) <==> (old(plan)@.contains((k, o)) || (k == derived
                    && o != target && self.related(parent, source, o))),
    {
        let mind = self.citizen(parent).unwrap();
        assert(self.mind(parent).wf());
        let ids = mind.get_relations(source);
        let mut i: usize = 0;
        while i < ids.len()
            invariant
                i <= ids@.len(),
                forall|k: RelationVerb, o: u128|
                    plan@.contains((k, o)) <==> (old(plan)@.contains((k, o)) || (k == derived && o
                        != target && ids@.take(i as int).contains(o))),
            decreases ids@.len() - i,
        {
            let other: u128 = ids[i];
            let ghost before = plan@;
            if other != target {
                plan.push((derived, other));
            }
            proof {
                assert(ids@.take(i as int + 1) =~= ids@.take(i as int).push(other));
                assert forall|k: RelationVerb, o: u128|
                    plan@.contains((k, o)) <==> (old(plan)@.contains((k, o)) || (k == derived && o
                        != target && ids@.take(i as int + 1).contains(o))) by {
                    push_contains(ids@.take(i as int), other, o);
                    if other != target {
                        push_contains(before, (derived, other), (k, o));
                    }
                }
            }
            i += 1;
        }
        proof {
            assert(ids@.take(i as int) =~= ids@);
            assert forall|o: u128| ids@.contains(o) <==> self.related(parent, source, o) by {
                assert(ids@.to_set().contains(o) <==> ids@.contains(o));
            }
        }
    }

    /// Derives the wider family of `target_id` from its parents: siblings,
    /// grandparents, aunts and uncles, cousins, each written with its mirror.
    pub fn generate_family_relations(&mut self, target_id: &u128)
        requires
            old(self).wf(),
            old(self).has(*target_id),
        ensures
            final(self).wf(),
            final(self).same_people(old(self)),
            forall|x: u128, k: RelationVerb, y: u128|
                final(self).related(x, k, y) <==> (old(self).related(x, k, y) || (x == *target_id
                    && old(self).derived_kin(*target_id, k, y)) || (y == *target_id && old(self).derived_kin(*target_id, k.mirror_of(), x))),
    {
        let target: u128 = *target_id;
        assert(self.mind(target).wf());
        let parents = self.citizen(target).unwrap().get_relations(RelationVerb::Parent);
        proof {
            assert forall|p: u128|
                parents@.contains(p) <==> self.related(target, RelationVerb::Parent, p) by {
                assert(parents@.to_set().contains(p) <==> parents@.contains(p));
            }
        }
        let mut plan: Vec<(RelationVerb, u128)> = Vec::new();
        let mut i: usize = 0;
        while i < parents.len()
            invariant
                self.wf(),
                *self == *old(self),
                i <= parents@.len(),
                forall|p: u128|
                    parents@.contains(p) <==> self.related(target, RelationVerb::Parent, p),
                forall|k: RelationVerb, o: u128|
                    plan@.contains((k, o)) <==> (o != target && exists|j: int|
                        0 <= j < i && #[trigger] self.kin_through(parents@[j], k, o)),
            decreases parents@.len() - i,
        {
            let parent: u128 = parents[i];
            let ghost before = plan@;
            proof {
                assert(parents@.contains(parent));
                assert(self.edge_ok(target, RelationVerb::Parent, parent));
            }
            self.plan_through(parent, RelationVerb::Child, RelationVerb::Sibling, target, &mut plan);
            self.plan_through(
                parent,
                RelationVerb::Parent,
                RelationVerb::Grandparent,
                target,
                &mut plan,
            );
            self.plan_through(
                parent,
                RelationVerb::Sibling,
                RelationVerb::Pibling,
                target,
                &mut plan,
            );
            self.plan_through(
                parent,
                RelationVerb::Nibling,
                RelationVerb::Cousin,
                target,
                &mut plan,
            );
            proof {
                assert forall|k: RelationVerb, o: u128|
                    plan@.contains((k, o)) <==> (o != target && exists|j: int|
                        0 <= j < i + 1 && #[trigger] self.kin_through(parents@[j], k, o)) by {
                    assert(plan@.contains((k, o)) <==> (before.contains((k, o)) || (o != target
                        && self.kin_through(parent, k, o))));
                    if before.contains((k, o)) {
                        let j = choose|j: int|
                            0 <= j < i && #[trigger] self.kin_through(parents@[j], k, o);
                        assert(0 <= j < i + 1 && self.kin_through(parents@[j], k, o));
                    }
                    if o != target && self.kin_through(parent, k, o) {
                        assert(self.kin_through(parents@[i as int], k, o));
                    }
                    if o != target && exists|j: int|
                        0 <= j < i + 1 && #[trigger] self.kin_through(parents@[j], k, o) {
                        let j = choose|j: int|
                            0 <= j < i + 1 && #[trigger] self.kin_through(parents@[j], k, o);
                        if j < i {
                            assert(before.contains((k, o)));
                        }
                    }
                }
            }
            i += 1;
        }
        proof {
            assert forall|k: RelationVerb, o: u128|
                plan@.contains((k, o)) <==> self.derived_kin(target, k, o) by {
                if plan@.contains((k, o)) {
                    let j = choose|j: int|
                        0 <= j < i && #[trigger] self.kin_through(parents@[j], k, o);
                    assert(parents@.contains(parents@[j]));
                }
                if self.derived_kin(target, k, o) {
                    let p = choose|p: u128|
                        self.related(target, RelationVerb::Parent, p) && #[trigger] self.kin_through(
                            p,
                            k,
                            o,
                        );
                    assert(parents@.contains(p));
                    let j = choose|j: int| 0 <= j < parents@.len() && parents@[j] == p;
                    assert(self.kin_through(parents@[j], k, o));
                }
            }
        }
        let mut j: usize = 0;
        while j < plan.len()
            invariant
                j <= plan@.len(),
                self.wf(),
                old(self).wf(),
                old(self).has(target),
                self.same_people(old(self)),
                forall|k: RelationVerb, o: u128|
                    plan@.contains((k, o)) <==> old(self).derived_kin(target, k, o),
                forall|x: u128, k: RelationVerb, y: u128|
                    self.related(x, k, y) <==> (old(self).related(x, k, y) || (x == target
                        && plan@.take(j as int).contains((k, y))) || (y == target && plan@.take(
                        j as int,
                    ).contains((k.mirror_of(), x)))),
            decreases plan@.len() - j,
        {
            let (kind, other) = plan[j];
            let ghost before = *self;
            proof {
                assert(plan@.contains((kind, other)));
                assert(old(self).derived_kin(target, kind, other));
                let p = choose|p: u128|
                    old(self).related(target, RelationVerb::Parent, p) && #[trigger] old(self).kin_through(p, kind, other);
                assert(old(self).has(other)) by {
                    if kind == RelationVerb::Sibling {
                        assert(old(self).edge_ok(p, RelationVerb::Child, other));
                    } else if kind == RelationVerb::Grandparent {
                        assert(old(self).edge_ok(p, RelationVerb::Parent, other));
                    } else if kind == RelationVerb::Pibling {
                        assert(old(self).edge_ok(p, RelationVerb::Sibling, other));
                    } else {
                        assert(old(self).edge_ok(p, RelationVerb::Nibling, other));
                    }
                }
            }
            self.link(target, other, kind);
            proof {
                self.same_people_chain(&before, old(self));
                assert(plan@.take(j as int + 1) =~= plan@.take(j as int).push((kind, other)));
                assert forall|x: u128, k: RelationVerb, y: u128|
                    self.related(x, k, y) <==> (old(self).related(x, k, y) || (x == target
                        && plan@.take(j as int + 1).contains((k, y))) || (y == target && plan@.take(
                        j as int + 1,
                    ).contains((k.mirror_of(), x)))) by {
                    push_contains(plan@.take(j as int), (kind, other), (k, y));
                    push_contains(plan@.take(j as int), (kind, other), (k.mirror_of(), x));
                    crate::relations::mirror_is_an_involution(k);
                    crate::relations::mirror_is_an_involution(kind);
                }
            }
            j += 1;
        }
        proof {
            assert(plan@.take(j as int) =~= plan@);
        }
    }
}

} // verus!
