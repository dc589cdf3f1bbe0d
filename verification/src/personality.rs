//! Character traits.

use vstd::prelude::*;

verus! {

/// A named character trait.
#[derive(Clone, Copy, Debug, PartialEq, Eq, Hash, Structural)]
pub enum PersonalityTrait {
    Devout,
    Greedy,
    Deceitful,
    Honest,
    Faithful,
    SelfAssured,
    Cold,
    Sentimental,
    Emotional,
    Introverted,
    Shy,
    Extraverted,
    Lively,
    Stubborn,
    BadTempered,
    Patient,
    Tolerant,
    Reckless,
    Sloppy,
    Disciplined,
    Careful,
    Unimaginative,
    Shallow,
    Creative,
    Intellectual,
}

impl PersonalityTrait {
    /// The trait as shown in reports.
    pub open spec fn label_of(self) -> Seq<char> {
        match self {
            PersonalityTrait::Devout => "Devout"@,
            PersonalityTrait::Greedy => "Greedy"@,
            PersonalityTrait::Deceitful => "Deceitful"@,
            PersonalityTrait::Honest => "Honest"@,
            PersonalityTrait::Faithful => "Faithful"@,
            PersonalityTrait::SelfAssured => "Self Assured"@,
            PersonalityTrait::Cold => "Cold"@,
            PersonalityTrait::Sentimental => "Sentimental"@,
            PersonalityTrait::Emotional => "Emotional"@,
            PersonalityTrait::Introverted => "Introverted"@,
            PersonalityTrait::Shy => "Shy"@,
            PersonalityTrait::Extraverted => "Extraverted"@,
            PersonalityTrait::Lively => "Lively"@,
            PersonalityTrait::Stubborn => "Stubborn"@,
            PersonalityTrait::BadTempered => "Bad Tempered"@,
            PersonalityTrait::Patient => "Patient"@,
            PersonalityTrait::Tolerant => "Tolerant"@,
            PersonalityTrait::Reckless => "Reckless"@,
            PersonalityTrait::Sloppy => "Sloppy"@,
            PersonalityTrait::Disciplined => "Disciplined"@,
            PersonalityTrait::Careful => "Careful"@,
            PersonalityTrait::Unimaginative => "Unimaginative"@,
            PersonalityTrait::Shallow => "Shallow"@,
            PersonalityTrait::Creative => "Creative"@,
            PersonalityTrait::Intellectual => "Intellectual"@,
        }
    }

    /// The trait as shown in reports.
    pub fn label(self) -> (s: &'static str)
        ensures
            s@ == self.label_of(),
    {
        match self {
            PersonalityTrait::Devout => "Devout",
            PersonalityTrait::Greedy => "Greedy",
            PersonalityTrait::Deceitful => "Deceitful",
            PersonalityTrait::Honest => "Honest",
            PersonalityTrait::Faithful => "Faithful",
            PersonalityTrait::SelfAssured => "Self Assured",
            PersonalityTrait::Cold => "Cold",
            PersonalityTrait::Sentimental => "Sentimental",
            PersonalityTrait::Emotional => "Emotional",
            PersonalityTrait::Introverted => "Introverted",
            PersonalityTrait::Shy => "Shy",
            PersonalityTrait::Extraverted => "Extraverted",
            PersonalityTrait::Lively => "Lively",
            PersonalityTrait::Stubborn => "Stubborn",
            PersonalityTrait::BadTempered => "Bad Tempered",
            PersonalityTrait::Patient => "Patient",
            PersonalityTrait::Tolerant => "Tolerant",
            PersonalityTrait::Reckless => "Reckless",
            PersonalityTrait::Sloppy => "Sloppy",
            PersonalityTrait::Disciplined => "Disciplined",
            PersonalityTrait::Careful => "Careful",
            PersonalityTrait::Unimaginative => "Unimaginative",
            PersonalityTrait::Shallow => "Shallow",
            PersonalityTrait::Creative => "Creative",
            PersonalityTrait::Intellectual => "Intellectual",
        }
    }
}

/// A citizen's character: its traits, and whether it believes in a deity.
#[derive(Clone, Debug)]
pub struct Personality {
    pub traits: Vec<PersonalityTrait>,
    pub thiest: bool,
}

} // verus!
