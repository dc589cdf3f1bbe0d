//! What a citizen looks like.

use crate::dice::random_below;
use rand::rngs::StdRng;
use vstd::prelude::*;
use vstd::string::*;

verus! {

/// A citizen's looks, one descriptive word per attribute.
#[derive(Clone, Debug)]
pub struct PhysicalDescription {
    pub hair_colour: String,
    pub hair_style: String,
    pub hair_adjective: String,
    pub eye_colour: String,
    pub height_adjective: String,
    pub build_adjective: String,
}

/// The pronoun a description is rendered with: the one given, else `They`.
pub open spec fn pronoun_text(pronoun: Option<String>) -> Seq<char> {
    match pronoun {
        Some(p) => p@,
        None => "They"@,
    }
}

/// Which source an inherited attribute comes from, for a per-mille draw:
/// 45% the first parent, 45% the second, 10% a fresh word.
pub open spec fn inherited(roll: int, first: Seq<char>, second: Seq<char>, fresh: Seq<char>) -> Seq<
    char,
> {
    if roll < 450 {
        first
    } else if roll < 900 {
        second
    } else {
        fresh
    }
}

impl PhysicalDescription {
    /// The two sentences that describe these looks.
    pub open spec fn rendered(&self, pronoun: Seq<char>) -> Seq<char> {
        pronoun + " have "@ + self.hair_adjective@ + " "@ + self.hair_style@ + " "@
            + self.hair_colour@ + " hair and "@ + self.eye_colour@ + " eyes. "@ + pronoun
            + " are "@ + self.height_adjective@ + " with a "@ + self.build_adjective@
            + " build."@
    }

    /// Every attribute of `self` is the same attribute of one of the three sources,
    /// and the hair style is the fresh one.
    pub open spec fn blends(
        &self,
        first: &PhysicalDescription,
        second: &PhysicalDescription,
        fresh: &PhysicalDescription,
    ) -> bool {
        &&& self.hair_style@ == fresh.hair_style@
        &&& (self.hair_colour@ == first.hair_colour@ || self.hair_colour@ == second.hair_colour@
            || self.hair_colour@ == fresh.hair_colour@)
        &&& (self.hair_adjective@ == first.hair_adjective@ || self.hair_adjective@
            == second.hair_adjective@ || self.hair_adjective@ == fresh.hair_adjective@)
        &&& (self.eye_colour@ == first.eye_colour@ || self.eye_colour@ == second.eye_colour@
            || self.eye_colour@ == fresh.eye_colour@)
        &&& (self.height_adjective@ == first.height_adjective@ || self.height_adjective@
            == second.height_adjective@ || self.height_adjective@ == fresh.height_adjective@)
        &&& (self.build_adjective@ == first.build_adjective@ || self.build_adjective@
            == second.build_adjective@ || self.build_adjective@ == fresh.build_adjective@)
    }

    /// The two sentences that describe these looks, with the pronoun given
    /// or `They`.
    pub fn render(&self, pronoun: Option<String>) -> (text: String)
        ensures
            text@ == self.rendered(pronoun_text(pronoun)),
    {
        let active_pronoun: String = match pronoun {
            Some(p) => p,
            None => String::from_str("They"),
        };
        let mut text = String::new();
        text.append(active_pronoun.as_str());
        text.append(" have ");
        text.append(self.hair_adjective.as_str());
        text.append(" ");
        text.append(self.hair_style.as_str());
        text.append(" ");
        text.append(self.hair_colour.as_str());
        text.append(" hair and ");
        text.append(self.eye_colour.as_str());
        text.append(" eyes. ");
        text.append(active_pronoun.as_str());
        text.append(" are ");
        text.append(self.height_adjective.as_str());
        text.append(" with a ");
        text.append(self.build_adjective.as_str());
        text.append(" build.");
        assert(text@ =~= self.rendered(pronoun_text(pronoun)));
        text
    }

    /// A copy of these looks.
    pub fn duplicate(&self) -> (copy: PhysicalDescription)
        ensures
            copy == *self,
    {
        PhysicalDescription {
            hair_colour: self.hair_colour.clone(),
            hair_style: self.hair_style.clone(),
            hair_adjective: self.hair_adjective.clone(),
            eye_colour: self.eye_colour.clone(),
            height_adjective: self.height_adjective.clone(),
            build_adjective: self.build_adjective.clone(),
        }
    }
}

/// The attribute a child gets for a given per-mille draw.
pub fn choose_or_mutate_attribute(roll: u32, a1: &String, a2: &String, fresh: &String) -> (chosen:
    String)
    ensures
        chosen@ == inherited(roll as int, a1@, a2@, fresh@),
{
    if roll < 450 {
        a1.clone()
    } else if roll < 900 {
        a2.clone()
    } else {
        fresh.clone()
    }
}

/// The looks of a child of two parents.  Each attribute but the hair style
/// is drawn on its own: the first parent's, the second parent's, or the
/// fresh one.  The hair style is always the fresh one.
pub fn merge_descriptions(
    rng: &mut StdRng,
    first: &PhysicalDescription,
    second: &PhysicalDescription,
    fresh: &PhysicalDescription,
) -> (child: PhysicalDescription)
    ensures
        child.blends(first, second, fresh),
{
    let hair_colour = choose_or_mutate_attribute(
        random_below(rng, 1000),
        &first.hair_colour,
        &second.hair_colour,
        &fresh.hair_colour,
    );
    let hair_adjective = choose_or_mutate_attribute(
        random_below(rng, 1000),
        &first.hair_adjective,
        &second.hair_adjective,
        &fresh.hair_adjective,
    );
    let eye_colour = choose_or_mutate_attribute(
        random_below(rng, 1000),
        &first.eye_colour,
        &second.eye_colour,
        &fresh.eye_colour,
    );
    let height_adjective = choose_or_mutate_attribute(
        random_below(rng, 1000),
        &first.height_adjective,
        &second.height_adjective,
        &fresh.height_adjective,
    );
    let build_adjective = choose_or_mutate_attribute(
        random_below(rng, 1000),
        &first.build_adjective,
        &second.build_adjective,
        &fresh.build_adjective,
    );
    PhysicalDescription {
        hair_colour,
        hair_style: fresh.hair_style.clone(),
        hair_adjective,
        eye_colour,
        height_adjective,
        build_adjective,
    }
}

} // verus!
