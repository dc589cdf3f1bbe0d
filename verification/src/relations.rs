//! Relationship kinds and the per-citizen relation table.
//!
//! A citizen's relations are a map from a kind of relationship to the set of
//! citizens it holds towards under that kind.  The table keeps one bucket per
//! kind it has ever held; a bucket may be empty until it is pruned.

use vstd::prelude::*;

verus! {

/// The kinds of relationship one citizen can hold towards another.
#[derive(Clone, Copy, Debug, PartialEq, Eq, Hash, Structural)]
pub enum RelationVerb {
    Parent,
    Child,
    AdoptedParent,
    AdoptedChild,
    Partner,
    ExPartner,
    LatePartner,
    Spouse,
    ExSpouse,
    LateSpouse,
    Sibling,
    Grandparent,
    Grandchild,
    Cousin,
    /// Aunt or uncle.
    Pibling,
    /// Niece or nephew.
    Nibling,
    Employer,
    Employee,
    Colleague,
    Acquaintance,
    Friend,
    CloseFriend,
    Grudge,
}

impl RelationVerb {
    /// The kind that the other end of an edge of this kind carries.
    pub open spec fn mirror_of(self) -> RelationVerb {
        match self {
            RelationVerb::Parent => RelationVerb::Child,
            RelationVerb::Child => RelationVerb::Parent,
            RelationVerb::AdoptedParent => RelationVerb::AdoptedChild,
            RelationVerb::AdoptedChild => RelationVerb::AdoptedParent,
            RelationVerb::Grandparent => RelationVerb::Grandchild,
            RelationVerb::Grandchild => RelationVerb::Grandparent,
            RelationVerb::Pibling => RelationVerb::Nibling,
            RelationVerb::Nibling => RelationVerb::Pibling,
            RelationVerb::Employer => RelationVerb::Employee,
            RelationVerb::Employee => RelationVerb::Employer,
            other => other,
        }
    }

    /// A symmetric kind is its own mirror.
    pub open spec fn symmetric(self) -> bool {
        self.mirror_of() == self
    }

    /// The social tiers: acquaintance, friend, close friend.
    pub open spec fn social(self) -> bool {
        self == RelationVerb::Acquaintance || self == RelationVerb::Friend || self
            == RelationVerb::CloseFriend
    }

    /// The active romantic tiers: partner and spouse.
    pub open spec fn romantic(self) -> bool {
        self == RelationVerb::Partner || self == RelationVerb::Spouse
    }

    /// The kinds that remember a dead partner or spouse.
    pub open spec fn late(self) -> bool {
        self == RelationVerb::LatePartner || self == RelationVerb::LateSpouse
    }

    /// The family lines that bar a social tie.
    pub open spec fn kin_line(self) -> bool {
        self == RelationVerb::Parent || self == RelationVerb::Grandparent || self
            == RelationVerb::Child || self == RelationVerb::Grandchild || self
            == RelationVerb::Pibling || self == RelationVerb::Nibling || self
            == RelationVerb::Cousin
    }

    /// Everything that keeps a citizen out of another's pool of possible new
    /// acquaintances: kin lines, and present or former romance.
    pub open spec fn bars_friendship(self) -> bool {
        self.kin_line() || self.romantic() || self == RelationVerb::ExPartner || self
            == RelationVerb::ExSpouse
    }

    /// The kind that the other end of an edge of this kind carries.
    pub fn mirror(self) -> (m: RelationVerb)
        ensures
            m == self.mirror_of(),
    {
        match self {
            RelationVerb::Parent => RelationVerb::Child,
            RelationVerb::Child => RelationVerb::Parent,
            RelationVerb::AdoptedParent => RelationVerb::AdoptedChild,
            RelationVerb::AdoptedChild => RelationVerb::AdoptedParent,
            RelationVerb::Grandparent => RelationVerb::Grandchild,
            RelationVerb::Grandchild => RelationVerb::Grandparent,
            RelationVerb::Pibling => RelationVerb::Nibling,
            RelationVerb::Nibling => RelationVerb::Pibling,
            RelationVerb::Employer => RelationVerb::Employee,
            RelationVerb::Employee => RelationVerb::Employer,
            other => other,
        }
    }

    /// Whether the kind is its own mirror.
    pub fn is_symmetric(self) -> (b: bool)
        ensures
            b == self.symmetric(),
    {
        self.mirror() == self
    }

    /// Whether the kind is a social tier.
    pub fn is_social(self) -> (b: bool)
        ensures
            b == self.social(),
    {
        self == RelationVerb::Acquaintance || self == RelationVerb::Friend || self
            == RelationVerb::CloseFriend
    }

    /// Whether the kind is partner or spouse.
    pub fn is_romantic(self) -> (b: bool)
        ensures
            b == self.romantic(),
    {
        self == RelationVerb::Partner || self == RelationVerb::Spouse
    }

    /// Whether the kind remembers a dead partner or spouse.
    pub fn is_late(self) -> (b: bool)
        ensures
            b == self.late(),
    {
        self == RelationVerb::LatePartner || self == RelationVerb::LateSpouse
    }

    /// Whether the kind is a family line that bars a social tie.
    pub fn is_kin_line(self) -> (b: bool)
        ensures
            b == self.kin_line(),
    {
        self == RelationVerb::Parent || self == RelationVerb::Grandparent || self
            == RelationVerb::Child || self == RelationVerb::Grandchild || self
            == RelationVerb::Pibling || self == RelationVerb::Nibling || self
            == RelationVerb::Cousin
    }

    /// Whether the kind keeps a citizen out of the pool of new acquaintances.
    pub fn is_friend_exclusion(self) -> (b: bool)
        ensures
            b == self.bars_friendship(),
    {
        self.is_kin_line() || self.is_romantic() || self == RelationVerb::ExPartner || self
            == RelationVerb::ExSpouse
    }

    /// The kind as shown in reports.
    pub fn label(self) -> (s: &'static str)
        ensures
            s@ == self.label_of(),
    {
        match self {
            RelationVerb::Parent => "Parent",
            RelationVerb::Grandparent => "Grandparent",
            RelationVerb::Child => "Child",
            RelationVerb::Grandchild => "Grandchild",
            RelationVerb::Sibling => "Sibling",
            RelationVerb::Cousin => "Cousin",
            RelationVerb::Nibling => "Nibling",
            RelationVerb::Pibling => "Pibling",
            RelationVerb::Acquaintance => "Acquaintance",
            RelationVerb::Friend => "Friend",
            RelationVerb::CloseFriend => "Close Friend",
            RelationVerb::Partner => "Partner",
            RelationVerb::LatePartner => "Late-Partner",
            RelationVerb::Spouse => "Spouse",
            RelationVerb::LateSpouse => "Late-Spouse",
            RelationVerb::ExPartner => "Ex-Partner",
            RelationVerb::ExSpouse => "Ex-Spouse",
            RelationVerb::AdoptedParent => "Adopted-Parent",
            RelationVerb::AdoptedChild => "Adopted-Child",
            RelationVerb::Employer => "Employer",
            RelationVerb::Employee => "Employee",
            RelationVerb::Colleague => "Colleague",
            RelationVerb::Grudge => "Grudge",
        }
    }

    /// The kind as shown in reports.
    pub open spec fn label_of(self) -> Seq<char> {
        match self {
            RelationVerb::Parent => "Parent"@,
            RelationVerb::Grandparent => "Grandparent"@,
            RelationVerb::Child => "Child"@,
            RelationVerb::Grandchild => "Grandchild"@,
            RelationVerb::Sibling => "Sibling"@,
            RelationVerb::Cousin => "Cousin"@,
            RelationVerb::Nibling => "Nibling"@,
            RelationVerb::Pibling => "Pibling"@,
            RelationVerb::Acquaintance => "Acquaintance"@,
            RelationVerb::Friend => "Friend"@,
            RelationVerb::CloseFriend => "Close Friend"@,
            RelationVerb::Partner => "Partner"@,
            RelationVerb::LatePartner => "Late-Partner"@,
            RelationVerb::Spouse => "Spouse"@,
            RelationVerb::LateSpouse => "Late-Spouse"@,
            RelationVerb::ExPartner => "Ex-Partner"@,
            RelationVerb::ExSpouse => "Ex-Spouse"@,
            RelationVerb::AdoptedParent => "Adopted-Parent"@,
            RelationVerb::AdoptedChild => "Adopted-Child"@,
            RelationVerb::Employer => "Employer"@,
            RelationVerb::Employee => "Employee"@,
            RelationVerb::Colleague => "Colleague"@,
            RelationVerb::Grudge => "Grudge"@,
        }
    }
}

/// Mirroring twice gives the kind back.
pub proof fn mirror_is_an_involution(kind: RelationVerb)
    ensures
        kind.mirror_of().mirror_of() == kind,
{
}

/// One kind together with the citizens held under it.
#[derive(Clone, Debug)]
pub struct RelationBucket {
    verb: RelationVerb,
    ids: Vec<u128>,
}

/// A citizen's relation table: a map from kinds to sets of citizens.  No
/// kind has two buckets, and no bucket names a citizen twice.
#[derive(Clone, Debug)]
pub struct Relations {
    buckets: Vec<RelationBucket>,
}

/// The set held under `kind` in a table's view: empty where the kind has no bucket.
pub open spec fn held(table: Map<RelationVerb, Set<u128>>, kind: RelationVerb) -> Set<u128> {
    if table.contains_key(kind) {
        table[kind]
    } else {
        Set::empty()
    }
}

/// The table's view after `id` is put under `kind`.
pub open spec fn with_edge(table: Map<RelationVerb, Set<u128>>, kind: RelationVerb, id: u128) -> Map<
    RelationVerb,
    Set<u128>,
> {
    table.insert(kind, held(table, kind).insert(id))
}

/// The table's view after `id` is taken from under `kind`.  A kind without a
/// bucket gets none.
pub open spec fn without_edge(
    table: Map<RelationVerb, Set<u128>>,
    kind: RelationVerb,
    id: u128,
) -> Map<RelationVerb, Set<u128>> {
    if table.contains_key(kind) {
        table.insert(kind, table[kind].remove(id))
    } else {
        table
    }
}

/// The table's view without its empty buckets.
pub open spec fn without_empty(table: Map<RelationVerb, Set<u128>>) -> Map<
    RelationVerb,
    Set<u128>,
> {
    Map::new(
        |kind: RelationVerb| table.contains_key(kind) && !table[kind].is_empty(),
        |kind: RelationVerb| table[kind],
    )
}

/// Dropping the empty buckets loses no edge.
pub proof fn pruning_keeps_edges(table: Map<RelationVerb, Set<u128>>, kind: RelationVerb, id: u128)
    ensures
        (without_empty(table).contains_key(kind) && without_empty(table)[kind].contains(id)) <==> (
        table.contains_key(kind) && table[kind].contains(id)),
{
    if table.contains_key(kind) && table[kind].contains(id) {
        assert(!table[kind].is_empty());
    }
}

impl View for Relations {
    type V = Map<RelationVerb, Set<u128>>;

    closed spec fn view(&self) -> Map<RelationVerb, Set<u128>> {
        Map::new(
            |kind: RelationVerb| self.bucket_for(kind),
            |kind: RelationVerb| self.buckets[self.slot(kind)].ids@.to_set(),
        )
    }
}

impl Relations {
    spec fn holds_at(&self, kind: RelationVerb, i: int) -> bool {
        0 <= i < self.buckets.len() && self.buckets[i].verb == kind
    }

    spec fn bucket_for(&self, kind: RelationVerb) -> bool {
        exists|i: int| self.holds_at(kind, i)
    }

    spec fn slot(&self, kind: RelationVerb) -> int {
        choose|i: int| self.holds_at(kind, i)
    }

    /// No kind has two buckets, and no bucket names a citizen twice.
    pub closed spec fn wf(&self) -> bool {
        &&& forall|i: int, j: int|
            0 <= i < j < self.buckets.len() ==> self.buckets[i].verb != self.buckets[j].verb
        &&& forall|i: int|
            0 <= i < self.buckets.len() ==> (#[trigger] self.buckets[i]).ids@.no_duplicates()
    }

    /// Whether `id` is held under `kind`.
    pub open spec fn has(&self, kind: RelationVerb, id: u128) -> bool {
        self@.contains_key(kind) && self@[kind].contains(id)
    }

    /// The set held under `kind`, empty where the kind has no bucket.
    pub open spec fn ids_of(&self, kind: RelationVerb) -> Set<u128> {
        held(self@, kind)
    }

    proof fn slot_is_unique(&self, kind: RelationVerb, i: int)
        requires
            self.wf(),
            self.holds_at(kind, i),
        ensures
            self.bucket_for(kind),
            self.slot(kind) == i,
    {
        let j = self.slot(kind);
        assert(self.holds_at(kind, j));
        if i < j {
            assert(self.buckets[i].verb != self.buckets[j].verb);
        } else if j < i {
            assert(self.buckets[j].verb != self.buckets[i].verb);
        }
    }

    /// Every set of a well-formed table is finite.
    pub proof fn sets_are_finite(&self, kind: RelationVerb)
        requires
            self.wf(),
        ensures
            self.ids_of(kind).finite(),
    {
        if self@.contains_key(kind) {
            vstd::seq_lib::seq_to_set_is_finite(self.buckets[self.slot(kind)].ids@);
        }
    }

    /// A table without buckets.
    pub fn new() -> (table: Relations)
        ensures
            table.wf(),
            table@ == Map::<RelationVerb, Set<u128>>::empty(),
    {
        let table = Relations { buckets: Vec::new() };
        assert(table@ =~= Map::<RelationVerb, Set<u128>>::empty());
        table
    }

    fn find(&self, kind: RelationVerb) -> (found: Option<usize>)
        requires
            self.wf(),
        ensures
            match found {
                Some(i) => self.holds_at(kind, i as int) && self.bucket_for(kind) && self.slot(kind)
                    == i,
                None => !self.bucket_for(kind),
            },
    {
        let mut i: usize = 0;
        while i < self.buckets.len()
            invariant
                self.wf(),
                i <= self.buckets.len(),
                forall|j: int| 0 <= j < i ==> !self.holds_at(kind, j),
            decreases self.buckets.len() - i,
        {
            if self.buckets[i].verb == kind {
                proof {
                    self.slot_is_unique(kind, i as int);
                }
                return Some(i);
            }
            i += 1;
        }
        None
    }

    /// The number of buckets, empty ones included.
    pub fn len(&self) -> (n: usize)
        requires
            self.wf(),
        ensures
            n == self@.dom().len(),
    {
        proof {
            self.dom_has_bucket_count(self.buckets.len() as int);
            assert(self.kinds_before(self.buckets.len() as int) =~= self@.dom());
        }
        self.buckets.len()
    }

    spec fn kinds_before(&self, n: int) -> Set<RelationVerb> {
        Set::new(|kind: RelationVerb| exists|i: int| 0 <= i < n && self.holds_at(kind, i))
    }

    proof fn dom_has_bucket_count(&self, n: int)
        requires
            self.wf(),
            0 <= n <= self.buckets.len(),
        ensures
            self.kinds_before(n).finite(),
            self.kinds_before(n).len() == n,
        decreases n,
    {
        if n == 0 {
            assert(self.kinds_before(0) =~= Set::empty());
        } else {
            self.dom_has_bucket_count(n - 1);
            let last = self.buckets[n - 1].verb;
            assert(self.holds_at(last, n - 1));
            assert(!self.kinds_before(n - 1).contains(last)) by {
                if self.kinds_before(n - 1).contains(last) {
                    let i = choose|i: int| 0 <= i < n - 1 && self.holds_at(last, i);
                    assert(self.buckets[i].verb != self.buckets[n - 1].verb);
                }
            }
            assert(self.kinds_before(n) =~= self.kinds_before(n - 1).insert(last));
        }
    }

    /// Whether any bucket, empty or not, exists for `kind`.
    pub fn contains_key(&self, kind: RelationVerb) -> (b: bool)
        requires
            self.wf(),
        ensures
            b == self@.contains_key(kind),
    {
        self.find(kind).is_some()
    }

    /// Whether `id` is held under `kind`.
    pub fn contains(&self, kind: RelationVerb, id: u128) -> (b: bool)
        requires
            self.wf(),
        ensures
            b == self.has(kind, id),
    {
        match self.find(kind) {
            Some(i) => position_of(&self.buckets[i].ids, id).is_some(),
            None => false,
        }
    }

    /// How many citizens are held under `kind`.
    pub fn count(&self, kind: RelationVerb) -> (n: usize)
        requires
            self.wf(),
        ensures
            n == self.ids_of(kind).len(),
            self.ids_of(kind).finite(),
    {
        match self.find(kind) {
            Some(i) => {
                proof {
                    self.buckets[i as int].ids@.unique_seq_to_set();
                    vstd::seq_lib::seq_to_set_is_finite(self.buckets[i as int].ids@);
                }
                self.buckets[i].ids.len()
            },
            None => 0,
        }
    }

    /// The citizens held under `kind`, each once, oldest edge first.
    pub fn ids(&self, kind: RelationVerb) -> (out: Vec<u128>)
        requires
            self.wf(),
        ensures
            out@.no_duplicates(),
            out@.to_set() == self.ids_of(kind),
    {
        match self.find(kind) {
            Some(i) => copy_of(&self.buckets[i].ids),
            None => {
                let out: Vec<u128> = Vec::new();
                assert(out@.to_set() =~= Set::<u128>::empty());
                out
            },
        }
    }

    /// Puts `id` under `kind`, opening the bucket if there is none.
    pub fn insert(&mut self, kind: RelationVerb, id: u128)
        requires
            old(self).wf(),
        ensures
            final(self).wf(),
            final(self)@ == with_edge(old(self)@, kind, id),
    {
        match self.find(kind) {
            Some(i) => {
                if position_of(&self.buckets[i].ids, id).is_none() {
                    self.buckets[i].ids.push(id);
                    proof {
                        let before = old(self).buckets[i as int].ids@;
                        assert(self.buckets[i as int].ids@ == before.push(id));
                        before.lemma_push_to_set_commute(id);
                    }
                } else {
                    proof {
                        let before = old(self).buckets[i as int].ids@;
                        assert(before.to_set() =~= before.to_set().insert(id));
                    }
                }
                proof {
                    assert forall|k: RelationVerb, j: int| self.holds_at(k, j) == old(self).holds_at(k, j) by {}
                    assert forall|k: RelationVerb| self.bucket_for(k) == old(self).bucket_for(
                        k,
                    ) by {
                        if old(self).bucket_for(k) {
                            assert(self.holds_at(k, old(self).slot(k)));
                        }
                        if self.bucket_for(k) {
                            assert(old(self).holds_at(k, self.slot(k)));
                        }
                    }
                    assert forall|k: RelationVerb| self.bucket_for(k) implies self.slot(k) == old(self).slot(k) by {
                        let j = self.slot(k);
                        assert(old(self).holds_at(k, j));
                        old(self).slot_is_unique(k, j);
                    }
                    assert(self@ =~= with_edge(old(self)@, kind, id));
                }
            },
            None => {
                let mut ids: Vec<u128> = Vec::new();
                ids.push(id);
                self.buckets.push(RelationBucket { verb: kind, ids });
                proof {
                    let n = old(self).buckets.len() as int;
                    assert(self.holds_at(kind, n));
                    assert forall|i: int, j: int| 0 <= i < j < self.buckets.len() implies self.buckets[i].verb
                        != self.buckets[j].verb by {
                        if j == n {
                            assert(!old(self).holds_at(kind, i));
                        }
                    }
                    assert(self.wf());
                    self.slot_is_unique(kind, n);
                    assert forall|k: RelationVerb| k != kind implies self.bucket_for(k) == old(self).bucket_for(k) by {
                        if old(self).bucket_for(k) {
                            assert(self.holds_at(k, old(self).slot(k)));
                        }
                        if self.bucket_for(k) {
                            assert(old(self).holds_at(k, self.slot(k)));
                        }
                    }
                    assert forall|k: RelationVerb| k != kind && self.bucket_for(k) implies self.slot(
                        k,
                    ) == old(self).slot(k) by {
                        let j = self.slot(k);
                        assert(old(self).holds_at(k, j));
                        old(self).slot_is_unique(k, j);
                    }
                    assert(self.buckets[n].ids@ =~= Seq::<u128>::empty().push(id));
                    Seq::<u128>::empty().lemma_push_to_set_commute(id);
                    assert(Seq::<u128>::empty().to_set() =~= Set::<u128>::empty());
                    assert(self@ =~= with_edge(old(self)@, kind, id));
                }
            },
        }
    }

    /// Takes `id` from under `kind`.  The bucket stays, empty or not.
    pub fn remove(&mut self, kind: RelationVerb, id: u128)
        requires
            old(self).wf(),
        ensures
            final(self).wf(),
            final(self)@ == without_edge(old(self)@, kind, id),
    {
        match self.find(kind) {
            Some(i) => {
                match position_of(&self.buckets[i].ids, id) {
                    Some(at) => {
                        self.buckets[i].ids.remove(at);
                        proof {
                            let before = old(self).buckets[i as int].ids@;
                            assert(self.buckets[i as int].ids@ == before.remove(at as int));
                            before.remove_ensures(at as int);
                            assert(before.remove(at as int).no_duplicates());
                            assert(before.remove(at as int).to_set() =~= before.to_set().remove(
                                id,
                            )) by {
                                assert forall|x: u128|
                                    before.remove(at as int).contains(x) <==> (before.contains(x)
                                        && x != id) by {
                                    if before.contains(x) && x != id {
                                        let p = choose|p: int|
                                            0 <= p < before.len() && before[p] == x;
                                        if p < at {
                                            assert(before.remove(at as int)[p] == x);
                                        } else {
                                            assert(before.remove(at as int)[p - 1] == x);
                                        }
                                    }
                                    if before.remove(at as int).contains(x) {
                                        let p = choose|p: int|
                                            0 <= p < before.remove(at as int).len()
                                                && before.remove(at as int)[p] == x;
                                        if p < at {
                                            assert(before[p] == x);
                                        } else {
                                            assert(before[p + 1] == x);
                                        }
                                    }
                                }
                            }
                        }
                    },
                    None => {
                        proof {
                            let before = old(self).buckets[i as int].ids@;
                            assert(before.to_set() =~= before.to_set().remove(id));
                        }
                    },
                }
                proof {
                    assert forall|k: RelationVerb, j: int| self.holds_at(k, j) == old(self).holds_at(k, j) by {}
                    assert forall|k: RelationVerb| self.bucket_for(k) == old(self).bucket_for(
                        k,
                    ) by {
                        if old(self).bucket_for(k) {
                            assert(self.holds_at(k, old(self).slot(k)));
                        }
                        if self.bucket_for(k) {
                            assert(old(self).holds_at(k, self.slot(k)));
                        }
                    }
                    assert forall|k: RelationVerb| self.bucket_for(k) implies self.slot(k) == old(self).slot(k) by {
                        let j = self.slot(k);
                        assert(old(self).holds_at(k, j));
                        old(self).slot_is_unique(k, j);
                    }
                    assert(self@ =~= without_edge(old(self)@, kind, id));
                }
            },
            None => {},
        }
    }

    /// Drops the empty buckets.
    pub fn prune(&mut self)
        requires
            old(self).wf(),
        ensures
            final(self).wf(),
            final(self)@ == without_empty(old(self)@),
    {
        let mut kept: Vec<RelationBucket> = Vec::new();
        let ghost mut origin: Seq<int> = Seq::empty();
        let mut i: usize = 0;
        while i < self.buckets.len()
            invariant
                i <= self.buckets.len(),
                self.wf(),
                *self == *old(self),
                origin.len() == kept.len(),
                forall|j: int| 0 <= j < origin.len() ==> 0 <= #[trigger] origin[j] < i,
                forall|j: int, l: int| 0 <= j < l < origin.len() ==> origin[j] < origin[l],
                forall|j: int|
                    0 <= j < origin.len() ==> (#[trigger] kept[j]).verb
                        == self.buckets[origin[j]].verb && kept[j].ids@
                        == self.buckets[origin[j]].ids@ && kept[j].ids@.len() > 0,
                forall|s: int|
                    0 <= s < i && (#[trigger] self.buckets[s]).ids@.len() > 0
                        ==> origin.contains(s),
            decreases self.buckets.len() - i,
        {
            if self.buckets[i].ids.len() > 0 {
                let verb = self.buckets[i].verb;
                let ids = copy_of(&self.buckets[i].ids);
                kept.push(RelationBucket { verb, ids });
                proof {
                    let grown = origin.push(i as int);
                    assert forall|s: int|
                        0 <= s < i + 1 && (#[trigger] self.buckets[s]).ids@.len()
                            > 0 implies grown.contains(s) by {
                        if s == i {
                            assert(grown[origin.len() as int] == s);
                        } else {
                            let j = choose|j: int| 0 <= j < origin.len() && origin[j] == s;
                            assert(grown[j] == s);
                        }
                    }
                    origin = grown;
                }
            }
            i += 1;
        }
        let ghost before = *self;
        self.buckets = kept;
        proof {
            assert forall|j: int, l: int| 0 <= j < l < self.buckets.len() implies self.buckets[j].verb
                != self.buckets[l].verb by {
                assert(before.buckets[origin[j]].verb != before.buckets[origin[l]].verb);
            }
            assert forall|j: int| 0 <= j < self.buckets.len() implies (#[trigger] self.buckets[j]).ids@.no_duplicates() by {
                assert(before.buckets[origin[j]].ids@.no_duplicates());
            }
            assert(self.wf());
            assert forall|k: RelationVerb| #[trigger]
                self.bucket_for(k) == (before.bucket_for(k) && !before@[k].is_empty()) by {
                if self.bucket_for(k) {
                    let j = self.slot(k);
                    assert(self.holds_at(k, j));
                    let s = origin[j];
                    assert(before.holds_at(k, s));
                    before.slot_is_unique(k, s);
                    assert(before.buckets[s].ids@.to_set().contains(before.buckets[s].ids@[0]));
                }
                if before.bucket_for(k) && !before@[k].is_empty() {
                    let s = before.slot(k);
                    assert(before.holds_at(k, s));
                    if before.buckets[s].ids@.len() == 0 {
                        assert(before.buckets[s].ids@.to_set() =~= Set::empty());
                    }
                    assert(origin.contains(s));
                    let j = choose|j: int| 0 <= j < origin.len() && origin[j] == s;
                    assert(self.holds_at(k, j));
                }
            }
            assert forall|k: RelationVerb| self.bucket_for(k) implies #[trigger] self@[k]
                == before@[k] by {
                let j = self.slot(k);
                assert(self.holds_at(k, j));
                let s = origin[j];
                assert(before.holds_at(k, s));
                before.slot_is_unique(k, s);
            }
            assert(self@ =~= without_empty(before@));
        }
    }
}

/// The first position of `id` in `ids`.
fn position_of(ids: &Vec<u128>, id: u128) -> (at: Option<usize>)
    ensures
        match at {
            Some(i) => i < ids.len() && ids[i as int] == id,
            None => !ids@.contains(id),
        },
{
    let mut i: usize = 0;
    while i < ids.len()
        invariant
            i <= ids.len(),
            forall|j: int| 0 <= j < i ==> ids[j] != id,
        decreases ids.len() - i,
    {
        if ids[i] == id {
            return Some(i);
        }
        i += 1;
    }
    None
}

/// A copy of a list of ids.
pub fn copy_of(ids: &Vec<u128>) -> (out: Vec<u128>)
    ensures
        out@ == ids@,
{
    let mut out: Vec<u128> = Vec::new();
    let mut i: usize = 0;
    while i < ids.len()
        invariant
            i <= ids.len(),
            out@ == ids@.take(i as int),
        decreases ids.len() - i,
    {
        out.push(ids[i]);
        i += 1;
    }
    out
}

} // verus!
