//! The customs a city lives by.

use crate::dice::random_below;
use crate::dieties::Diety;
use crate::identity::{fresh_id, random_uuid_shape};
use crate::surnames::{
    child_customs, drawn_from, marriage_customs, patterns, random_child_surname_formats,
    random_marriage_surname_formats, SurnameFormat,
};
use rand::rngs::StdRng;
use std::collections::HashMap;
use vstd::prelude::*;
use vstd::std_specs::iter::IteratorSpec;

verus! {

broadcast use vstd::std_specs::hash::group_hash_axioms;

/// The age a city is set in.
#[derive(Clone, Copy, Debug, PartialEq, Eq, Structural)]
pub enum Era {
    Modern,
    Medieval,
    Fantasy,
}

impl Era {
    /// The era as a tag for name lookups.
    pub open spec fn label_of(self) -> Seq<char> {
        match self {
            Era::Modern => "EraModern"@,
            Era::Medieval => "EraMedieval"@,
            Era::Fantasy => "EraFantasy"@,
        }
    }

    /// The era as a tag for name lookups.
    pub fn label(self) -> (s: &'static str)
        ensures
            s@ == self.label_of(),
    {
        match self {
            Era::Modern => "EraModern",
            Era::Medieval => "EraMedieval",
            Era::Fantasy => "EraFantasy",
        }
    }
}

/// A culture: when its people come of age, how long they live, how they
/// name spouses and children, and whom they worship.
///
/// Each entry of a surname-format list holds the format for the first and
/// for the second spouse, or for a son and for a daughter.
#[derive(Clone, Debug)]
pub struct Culture {
    pub id: u128,
    pub adult_age: u32,
    pub landlocked: bool,
    pub staple_meats: Vec<String>,
    pub staple_plants: Vec<String>,
    pub avg_lifespan: u32,
    pub avg_lifespan_variance: u32,
    pub child_surname_formats: Vec<(SurnameFormat, SurnameFormat)>,
    pub marriage_surname_formats: Vec<(SurnameFormat, SurnameFormat)>,
    pub historical_names: Vec<(String, String, String)>,
    pub dieties: HashMap<u128, Diety>,
    pub era: Era,
}

impl Culture {
    /// Whether the culture has a deity filed under `key`.
    pub open spec fn has_diety(&self, key: u128) -> bool {
        self.dieties@.contains_key(key)
    }

    /// The deity filed under `key`.
    pub fn diety(&self, key: u128) -> (found: Option<&Diety>)
        ensures
            found is Some <==> self.has_diety(key),
            found matches Some(diety) ==> *diety == self.dieties@[key],
    {
        self.dieties.get(&key)
    }

    /// The keys under which the culture's deities are filed, each once.
    pub fn diety_keys(&self) -> (keys: Vec<u128>)
        ensures
            keys@.no_duplicates(),
            forall|key: u128| keys@.contains(key) <==> self.has_diety(key),
            keys@.len() == self.dieties@.len(),
    {
        let mut keys: Vec<u128> = Vec::new();
        for key in it: self.dieties.keys()
            invariant
                it.seq() == self.dieties.keys().remaining(),
                keys@ == it.seq().take(it.index()).unref(),
        {
            keys.push(*key);
        }
        proof {
            assert(keys@ == self.dieties.keys().remaining().unref());
            assert(keys@.to_set() == self.dieties@.dom());
            assert forall|key: u128| keys@.contains(key) <==> self.has_diety(key) by {
                assert(keys@.to_set().contains(key) <==> keys@.contains(key));
            }
            keys@.unique_seq_to_set();
        }
        keys
    }
}

/// The age at which the people of every culture come of age.
pub const ADULT_AGE: u32 = 18;

/// The shortest average lifespan of a culture.
pub const SHORTEST_LIFESPAN: u32 = 75;

/// How far a culture's lifespan varies around its average.
pub const LIFESPAN_VARIANCE: u32 = 10;

/// The average lifespan for a draw below thirty: the shortest for the
/// lower half of the draws, and up to fourteen years more for the upper.
pub open spec fn lifespan_for(roll: u32) -> int {
    if roll >= 15 {
        SHORTEST_LIFESPAN + (roll - 15)
    } else {
        SHORTEST_LIFESPAN as int
    }
}

/// The average lifespan for a draw below thirty.
pub fn lifespan_of_roll(roll: u32) -> (years: u32)
    requires
        roll < 30,
    ensures
        years == lifespan_for(roll),
{
    if roll >= 15 {
        SHORTEST_LIFESPAN + (roll - 15)
    } else {
        SHORTEST_LIFESPAN
    }
}

/// A culture of the given era around what the lexicon supplied: its
/// staples, the names of its past, and its deities.  Its lifespan and its
/// customs for naming spouses and children are drawn here.
pub fn random_culture(
    rng: &mut StdRng,
    era: Era,
    landlocked: bool,
    staple_meats: Vec<String>,
    staple_plants: Vec<String>,
    historical_names: Vec<(String, String, String)>,
    dieties: HashMap<u128, Diety>,
) -> (culture: Culture)
    ensures
        random_uuid_shape(culture.id),
        culture.adult_age == ADULT_AGE,
        culture.landlocked == landlocked,
        culture.staple_meats == staple_meats,
        culture.staple_plants == staple_plants,
        exists|roll: u32| roll < 30 && culture.avg_lifespan == #[trigger] lifespan_for(roll),
        culture.avg_lifespan_variance == LIFESPAN_VARIANCE,
        drawn_from(patterns(culture.child_surname_formats@), child_customs()),
        drawn_from(patterns(culture.marriage_surname_formats@), marriage_customs()),
        culture.historical_names == historical_names,
        culture.dieties == dieties,
        culture.era == era,
{
    let roll: u32 = random_below(rng, 30);
    Culture {
        id: fresh_id(),
        adult_age: ADULT_AGE,
        landlocked,
        staple_meats,
        staple_plants,
        avg_lifespan: lifespan_of_roll(roll),
        avg_lifespan_variance: LIFESPAN_VARIANCE,
        child_surname_formats: random_child_surname_formats(rng),
        marriage_surname_formats: random_marriage_surname_formats(rng),
        historical_names,
        dieties,
        era,
    }
}

} // verus!
