//! A citizen.

use crate::culture::Culture;
use crate::dice::{random_below, random_index};
use crate::identity::{fresh_id, random_uuid_shape};
use crate::mortality::{death_threshold, threshold_at, DEATH_SCALE};
use crate::personality::Personality;
use crate::physical_description::PhysicalDescription;
use crate::relations::{without_empty, RelationVerb, Relations};
use rand::rngs::StdRng;
use vstd::prelude::*;

verus! {

/// A citizen's gender.
#[derive(Clone, Copy, Debug, PartialEq, Eq, Hash, Structural)]
pub enum Gender {
    Male,
    Female,
    Ambiguous,
}

/// A citizen's orientation.
#[derive(Clone, Copy, Debug, PartialEq, Eq, Hash, Structural)]
pub enum Sexuality {
    Hetrosexual,
    Homosexual,
    Asexual,
    Bisexual,
}

pub type MindId = u128;

impl Gender {
    /// The gender as shown in reports, and as a tag for name lookups.
    pub open spec fn label_of(self) -> Seq<char> {
        match self {
            Gender::Male => "Male"@,
            Gender::Female => "Female"@,
            Gender::Ambiguous => "Ambiguous"@,
        }
    }

    /// The gender as shown in reports, and as a tag for name lookups.
    pub fn label(self) -> (s: &'static str)
        ensures
            s@ == self.label_of(),
    {
        match self {
            Gender::Male => "Male",
            Gender::Female => "Female",
            Gender::Ambiguous => "Ambiguous",
        }
    }
}

impl Sexuality {
    /// The orientation as shown in reports.
    pub open spec fn label_of(self) -> Seq<char> {
        match self {
            Sexuality::Hetrosexual => "straight"@,
            Sexuality::Homosexual => "gay"@,
            Sexuality::Bisexual => "bi"@,
            Sexuality::Asexual => "asexual"@,
        }
    }

    /// The orientation as shown in reports.
    pub fn label(self) -> (s: &'static str)
        ensures
            s@ == self.label_of(),
    {
        match self {
            Sexuality::Hetrosexual => "straight",
            Sexuality::Homosexual => "gay",
            Sexuality::Bisexual => "bi",
            Sexuality::Asexual => "asexual",
        }
    }
}

/// The gender for a per-mille draw: 10% ambiguous, 45% female, 45% male.
pub open spec fn gender_for(roll: int) -> Gender {
    if roll < 100 {
        Gender::Ambiguous
    } else if roll < 550 {
        Gender::Female
    } else {
        Gender::Male
    }
}

/// The orientation for a per-mille draw: 7.5% homosexual, 5% asexual,
/// 7.5% bisexual, 80% heterosexual.
pub open spec fn sexuality_for(roll: int) -> Sexuality {
    if roll < 75 {
        Sexuality::Homosexual
    } else if roll < 125 {
        Sexuality::Asexual
    } else if roll < 200 {
        Sexuality::Bisexual
    } else {
        Sexuality::Hetrosexual
    }
}

/// The gender for a per-mille draw.
pub fn gender_of_roll(roll: u32) -> (g: Gender)
    ensures
        g == gender_for(roll as int),
{
    if roll < 100 {
        Gender::Ambiguous
    } else if roll < 550 {
        Gender::Female
    } else {
        Gender::Male
    }
}

/// The orientation for a per-mille draw.
pub fn sexuality_of_roll(roll: u32) -> (s: Sexuality)
    ensures
        s == sexuality_for(roll as int),
{
    if roll < 75 {
        Sexuality::Homosexual
    } else if roll < 125 {
        Sexuality::Asexual
    } else if roll < 200 {
        Sexuality::Bisexual
    } else {
        Sexuality::Hetrosexual
    }
}

/// A random gender.
pub fn random_gender(rng: &mut StdRng) -> (g: Gender)
    ensures
        exists|roll: int| 0 <= roll < 1000 && g == gender_for(roll),
{
    let roll: u32 = random_below(rng, 1000);
    gender_of_roll(roll)
}

/// A random orientation.
pub fn random_sexuality(rng: &mut StdRng) -> (s: Sexuality)
    ensures
        exists|roll: int| 0 <= roll < 1000 && s == sexuality_for(roll),
{
    let roll: u32 = random_below(rng, 1000);
    sexuality_of_roll(roll)
}

/// The genders a citizen of this orientation and gender can take as partner.
/// An asexual citizen takes none; everyone else takes the ambiguous gender,
/// and the genders their orientation names.
pub open spec fn attracted_to(sexuality: Sexuality, own: Gender, other: Gender) -> bool {
    match sexuality {
        Sexuality::Asexual => false,
        Sexuality::Bisexual => true,
        Sexuality::Hetrosexual => other == Gender::Ambiguous || own == Gender::Ambiguous || (own
            == Gender::Male && other == Gender::Female) || (own == Gender::Female && other
            == Gender::Male),
        Sexuality::Homosexual => other == Gender::Ambiguous || own == Gender::Ambiguous || own
            == other,
    }
}

/// What the lexicon supplies for one new citizen: a first name for each
/// gender, a surname, looks and a character.
#[derive(Clone, Debug)]
pub struct Newcomer {
    pub male_first_name: String,
    pub female_first_name: String,
    pub ambiguous_first_name: String,
    pub last_name: String,
    pub description: PhysicalDescription,
    pub personality: Personality,
}

impl Newcomer {
    /// The first name on offer for `gender`.
    pub open spec fn first_name_for(&self, gender: Gender) -> String {
        match gender {
            Gender::Male => self.male_first_name,
            Gender::Female => self.female_first_name,
            Gender::Ambiguous => self.ambiguous_first_name,
        }
    }
}

/// The oldest a citizen can be on arrival, counted from the adult age.
pub const ARRIVAL_AGE_SPAN: u32 = 30;

/// A citizen of the city.  The relation table is a map from kinds to sets
/// of citizens, and the deities followed are a set: none is listed twice.
#[derive(Clone, Debug)]
pub struct Mind {
    pub id: MindId,
    pub alive: bool,
    pub first_name: String,
    pub last_name: String,
    pub origional_last_name: String,
    pub age: u32,
    pub gender: Gender,
    pub sexuality: Sexuality,
    pub relations: Relations,
    pub description: PhysicalDescription,
    pub personality: Personality,
    pub dieties: Vec<u128>,
    pub employer: Option<u128>,
    pub year_of_birth: i32,
}

impl Mind {
    /// The relation table is well formed, and no deity is followed twice.
    pub open spec fn wf(&self) -> bool {
        self.relations.wf() && self.dieties@.no_duplicates()
    }

    /// Whether `other` is held under `kind`.
    pub open spec fn related(&self, kind: RelationVerb, other: u128) -> bool {
        self.relations.has(kind, other)
    }

    /// Everything but the relations, the surname, the age, the employer and
    /// life itself: what no year changes.
    pub open spec fn same_person(&self, other: &Mind) -> bool {
        &&& self.id == other.id
        &&& self.first_name == other.first_name
        &&& self.origional_last_name == other.origional_last_name
        &&& self.gender == other.gender
        &&& self.sexuality == other.sexuality
        &&& self.description == other.description
        &&& self.personality == other.personality
        &&& self.dieties == other.dieties
        &&& self.year_of_birth == other.year_of_birth
    }

    /// The same citizen in the same state, relations aside.
    pub open spec fn same_but_relations(&self, other: &Mind) -> bool {
        &&& self.same_person(other)
        &&& self.alive == other.alive
        &&& self.age == other.age
        &&& self.last_name == other.last_name
        &&& self.employer == other.employer
    }

    /// The same citizen in the same state, relations and surname aside.
    pub open spec fn same_but_ties_and_surname(&self, other: &Mind) -> bool {
        &&& self.same_person(other)
        &&& self.alive == other.alive
        &&& self.age == other.age
        &&& self.employer == other.employer
    }

    /// The same citizen in the same state, employer aside.
    pub open spec fn same_but_employer(&self, other: &Mind) -> bool {
        &&& self.same_person(other)
        &&& self.alive == other.alive
        &&& self.age == other.age
        &&& self.last_name == other.last_name
        &&& self.relations == other.relations
    }

    /// The citizens held as partner or spouse.
    pub open spec fn romantic_ties(&self) -> Set<u128> {
        self.relations.ids_of(RelationVerb::Partner).union(
            self.relations.ids_of(RelationVerb::Spouse),
        )
    }

    /// Single: asexual, or without partner and spouse.
    pub open spec fn single(&self) -> bool {
        self.sexuality == Sexuality::Asexual || self.romantic_ties().is_empty()
    }

    /// Whether `other` is held under one of the kin lines.
    pub open spec fn kin_of(&self, other: u128) -> bool {
        exists|kind: RelationVerb| kind.kin_line() && #[trigger] self.related(kind, other)
    }

    /// How many social ties the citizen holds, a citizen held under two
    /// tiers counted once.
    pub open spec fn social_circle(&self) -> Set<u128> {
        self.relations.ids_of(RelationVerb::Acquaintance).union(
            self.relations.ids_of(RelationVerb::Friend),
        ).union(self.relations.ids_of(RelationVerb::CloseFriend))
    }

    /// Single, said of edges: asexual, or nobody held as partner or spouse.
    pub proof fn single_in_edges(&self)
        ensures
            self.single() <==> (self.sexuality == Sexuality::Asexual || forall|z: u128|
                !self.related(RelationVerb::Partner, z) && !self.related(RelationVerb::Spouse, z)),
    {
        let ties = self.romantic_ties();
        if self.sexuality != Sexuality::Asexual {
            if self.single() {
                assert forall|z: u128|
                    !self.related(RelationVerb::Partner, z) && !self.related(
                        RelationVerb::Spouse,
                        z,
                    ) by {
                    assert(!ties.contains(z));
                }
            }
            if forall|z: u128|
                !self.related(RelationVerb::Partner, z) && !self.related(RelationVerb::Spouse, z) {
                assert forall|z: u128| !ties.contains(z) by {
                    assert(!self.related(RelationVerb::Partner, z) && !self.related(
                        RelationVerb::Spouse,
                        z,
                    ));
                }
                assert(ties =~= Set::empty());
            }
        }
    }

    /// Whether the citizen is single.
    pub fn is_single(&self) -> (b: bool)
        requires
            self.wf(),
        ensures
            b == self.single(),
    {
        let partners: usize = self.relations.count(RelationVerb::Partner);
        let spouses: usize = self.relations.count(RelationVerb::Spouse);
        proof {
            let p = self.relations.ids_of(RelationVerb::Partner);
            let s = self.relations.ids_of(RelationVerb::Spouse);
            if partners == 0 && spouses == 0 {
                assert(p.union(s) =~= Set::empty());
            } else if partners > 0 {
                assert(p.len() > 0);
                assert(p.contains(p.choose()));
                assert(p.union(s).contains(p.choose()));
            } else {
                assert(s.len() > 0);
                assert(s.contains(s.choose()));
                assert(p.union(s).contains(s.choose()));
            }
        }
        self.sexuality == Sexuality::Asexual || (partners == 0 && spouses == 0)
    }

    /// The current spouse, else the current partner, with the tier.
    pub fn get_current_romantic_partner(&self) -> (partner: Option<(u128, RelationVerb)>)
        requires
            self.wf(),
        ensures
            partner is None <==> self.romantic_ties().is_empty(),
            partner matches Some((id, verb)) ==> {
                &&& self.related(verb, id)
                &&& verb == (if self.relations.ids_of(RelationVerb::Spouse).is_empty() {
                    RelationVerb::Partner
                } else {
                    RelationVerb::Spouse
                })
            },
    {
        let spouses = self.relations.ids(RelationVerb::Spouse);
        let ghost p = self.relations.ids_of(RelationVerb::Partner);
        let ghost s = self.relations.ids_of(RelationVerb::Spouse);
        if spouses.len() > 0 {
            proof {
                assert(spouses@.contains(spouses@[0]));
                assert(s.contains(spouses@[0]));
                assert(p.union(s).contains(spouses@[0]));
            }
            return Some((spouses[0], RelationVerb::Spouse));
        }
        assert(s =~= Set::empty()) by {
            assert forall|x: u128| !s.contains(x) by {
                if s.contains(x) {
                    assert(spouses@.contains(x));
                }
            }
        }
        let partners = self.relations.ids(RelationVerb::Partner);
        if partners.len() > 0 {
            proof {
                assert(partners@.contains(partners@[0]));
                assert(p.contains(partners@[0]));
                assert(p.union(s).contains(partners@[0]));
            }
            return Some((partners[0], RelationVerb::Partner));
        }
        assert(p =~= Set::empty()) by {
            assert forall|x: u128| !p.contains(x) by {
                if p.contains(x) {
                    assert(partners@.contains(x));
                }
            }
        }
        assert(p.union(s) =~= Set::empty());
        None
    }

    /// Whether any of `kinds` holds at least one citizen.
    pub fn has_active(&self, kinds: &Vec<RelationVerb>) -> (b: bool)
        requires
            self.wf(),
        ensures
            b == exists|i: int|
                0 <= i < kinds@.len() && !(#[trigger] self.relations.ids_of(kinds@[i])).is_empty(),
    {
        let mut i: usize = 0;
        while i < kinds.len()
            invariant
                self.wf(),
                i <= kinds@.len(),
                forall|j: int|
                    0 <= j < i ==> (#[trigger] self.relations.ids_of(kinds@[j])).is_empty(),
            decreases kinds@.len() - i,
        {
            let n: usize = self.relations.count(kinds[i]);
            if n > 0 {
                proof {
                    let held = self.relations.ids_of(kinds@[i as int]);
                    assert(held.len() > 0);
                    assert(!held.is_empty());
                }
                return true;
            }
            proof {
                let held = self.relations.ids_of(kinds@[i as int]);
                assert(held.len() == 0);
                assert(held.is_empty());
            }
            i += 1;
        }
        false
    }

    /// Whether `other` is family: held under one of the kin lines.
    pub fn is_relation_of(&self, other: &u128) -> (b: bool)
        requires
            self.wf(),
        ensures
            b == self.kin_of(*other),
    {
        let id: u128 = *other;
        let b = self.relations.contains(RelationVerb::Parent, id) || self.relations.contains(
            RelationVerb::Grandparent,
            id,
        ) || self.relations.contains(RelationVerb::Child, id) || self.relations.contains(
            RelationVerb::Grandchild,
            id,
        ) || self.relations.contains(RelationVerb::Pibling, id) || self.relations.contains(
            RelationVerb::Nibling,
            id,
        ) || self.relations.contains(RelationVerb::Cousin, id);
        proof {
            if b {
                assert(self.related(RelationVerb::Parent, id) || self.related(
                    RelationVerb::Grandparent,
                    id,
                ) || self.related(RelationVerb::Child, id) || self.related(
                    RelationVerb::Grandchild,
                    id,
                ) || self.related(RelationVerb::Pibling, id) || self.related(
                    RelationVerb::Nibling,
                    id,
                ) || self.related(RelationVerb::Cousin, id));
            }
        }
        b
    }

    /// The citizens held under `verb`, each once.
    pub fn get_relations(&self, verb: RelationVerb) -> (ids: Vec<u128>)
        requires
            self.wf(),
        ensures
            ids@.no_duplicates(),
            ids@.to_set() == self.relations.ids_of(verb),
    {
        self.relations.ids(verb)
    }

    /// Drops the empty relation buckets.
    pub fn cleanup(&mut self)
        requires
            old(self).wf(),
        ensures
            final(self).wf(),
            final(self).relations@ == without_empty(old(self).relations@),
            final(self).same_but_relations(old(self)),
    {
        self.relations.prune();
    }

    /// One birthday of a living citizen, with the year's draw against
    /// death: the citizen is a year older, and dies if the draw falls under
    /// the death threshold of the new age.  The dead do not age.
    pub fn grow_older(&mut self, roll: u32)
        requires
            old(self).alive ==> old(self).age < u32::MAX,
        ensures
            final(self).same_person(old(self)),
            final(self).relations == old(self).relations,
            final(self).last_name == old(self).last_name,
            final(self).employer == old(self).employer,
            !old(self).alive ==> *final(self) == *old(self),
            old(self).alive ==> final(self).age == old(self).age + 1,
            old(self).alive ==> final(self).alive == (roll >= threshold_at(old(self).age + 1)),
    {
        if self.alive {
            self.age = self.age + 1;
            let threshold: u32 = death_threshold(self.age);
            if roll < threshold {
                self.alive = false;
            }
        }
    }

    /// One birthday of a living citizen, who may die of it.
    pub fn age(&mut self, rng: &mut StdRng)
        requires
            old(self).alive ==> old(self).age < u32::MAX,
        ensures
            final(self).same_person(old(self)),
            final(self).relations == old(self).relations,
            final(self).last_name == old(self).last_name,
            final(self).employer == old(self).employer,
            !old(self).alive ==> *final(self) == *old(self),
            old(self).alive ==> final(self).age == old(self).age + 1,
            final(self).alive ==> old(self).alive,
            old(self).alive && threshold_at(old(self).age + 1) >= DEATH_SCALE
                ==> !final(self).alive,
    {
        let roll: u32 = random_below(rng, DEATH_SCALE);
        self.grow_older(roll);
    }
}

/// The worshipped deity of a newcomer: one of the culture's, where the
/// newcomer believes and the culture has any.
fn random_faith(rng: &mut StdRng, culture: &Culture, thiest: bool) -> (dieties: Vec<u128>)
    ensures
        !thiest || culture.dieties@.len() == 0 ==> dieties@.len() == 0,
        thiest && culture.dieties@.len() > 0 ==> dieties@.len() == 1 && exists|key: u128|
            culture.has_diety(key) && dieties@[0] == (#[trigger] culture.dieties@[key]).id,
{
    let mut dieties: Vec<u128> = Vec::new();
    if thiest && culture.dieties.len() > 0 {
        let keys = culture.diety_keys();
        let at: usize = random_index(rng, keys.len());
        let key: u128 = keys[at];
        proof {
            assert(keys@.contains(key));
        }
        dieties.push(culture.diety(key).unwrap().id);
    }
    dieties
}

/// A citizen made of a newcomer's draw, with gender and orientation drawn
/// here: alive, newborn, without ties or employer.
pub fn blank_mind(rng: &mut StdRng, culture: &Culture, draw: Newcomer) -> (mind: Mind)
    ensures
        mind.wf(),
        mind.relations@ == Map::<RelationVerb, Set<u128>>::empty(),
        random_uuid_shape(mind.id),
        mind.alive,
        mind.age == 0,
        mind.year_of_birth == 0,
        mind.employer is None,
        mind.first_name == draw.first_name_for(mind.gender),
        mind.last_name == draw.last_name,
        mind.origional_last_name == draw.last_name,
        mind.description == draw.description,
        mind.personality == draw.personality,
        !draw.personality.thiest || culture.dieties@.len() == 0 ==> mind.dieties@.len() == 0,
        draw.personality.thiest && culture.dieties@.len() > 0 ==> mind.dieties@.len() == 1
            && exists|key: u128|
            culture.has_diety(key) && mind.dieties@[0] == (#[trigger] culture.dieties@[key]).id,
{
    let gender = random_gender(rng);
    let dieties = random_faith(rng, culture, draw.personality.thiest);
    let first_name = match gender {
        Gender::Male => draw.male_first_name,
        Gender::Female => draw.female_first_name,
        Gender::Ambiguous => draw.ambiguous_first_name,
    };
    let origional_last_name = draw.last_name.clone();
    Mind {
        id: fresh_id(),
        alive: true,
        first_name,
        last_name: draw.last_name,
        origional_last_name,
        age: 0,
        gender,
        sexuality: random_sexuality(rng),
        relations: Relations::new(),
        description: draw.description,
        personality: draw.personality,
        dieties,
        employer: None,
        year_of_birth: 0,
    }
}

/// A grown newcomer for the city's first year: a blank citizen whose age
/// is the adult age plus up to twenty-nine years, with the year of birth
/// counted from `year` by the same offset.
pub fn random_mind(rng: &mut StdRng, culture: &Culture, year: i32, draw: Newcomer) -> (mind: Mind)
    requires
        culture.adult_age + ARRIVAL_AGE_SPAN <= i32::MAX,
        i32::MIN <= year - culture.adult_age,
        year + ARRIVAL_AGE_SPAN <= i32::MAX,
    ensures
        mind.wf(),
        mind.relations@ == Map::<RelationVerb, Set<u128>>::empty(),
        random_uuid_shape(mind.id),
        mind.alive,
        mind.employer is None,
        culture.adult_age <= mind.age < culture.adult_age + ARRIVAL_AGE_SPAN,
        mind.year_of_birth == year - culture.adult_age + (mind.age - culture.adult_age),
        mind.first_name == draw.first_name_for(mind.gender),
        mind.last_name == draw.last_name,
        mind.origional_last_name == draw.last_name,
        mind.description == draw.description,
        mind.personality == draw.personality,
{
    let mut mind = blank_mind(rng, culture, draw);
    let offset: u32 = random_below(rng, ARRIVAL_AGE_SPAN);
    mind.age = culture.adult_age + offset;
    mind.year_of_birth = year - (culture.adult_age as i32) + (offset as i32);
    mind
}

} // verus!
