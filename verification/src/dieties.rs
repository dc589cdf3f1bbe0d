//! The deities of a culture.

use crate::grammar::{a_or_an, list_text, render_list, vowel};
use vstd::prelude::*;
use vstd::string::*;

verus! {

pub type DietyId = u128;

/// A deity: its name, the realms it rules, and the shape it takes.
#[derive(Clone, Debug)]
pub struct Diety {
    pub id: DietyId,
    pub realms: Vec<String>,
    pub name: String,
    pub form: String,
    pub form2: String,
}

/// The views of a list of strings.
pub open spec fn views(items: Seq<String>) -> Seq<Seq<char>> {
    Seq::new(items.len(), |i: int| items[i]@)
}

impl Diety {
    /// The one-line summary of the deity.
    pub open spec fn summary(&self) -> Seq<char> {
        self.name@ + "; god of "@ + list_text(views(self.realms@)) + " takes the form of "@ + (if vowel(
            self.form2@[0],
        ) {
            "an"@
        } else {
            "a"@
        }) + " "@ + self.form2@
    }

    /// The one-line summary of the deity.  The form must not be empty: an
    /// article goes before it.
    pub fn render_summary(&self) -> (text: String)
        requires
            self.form2@.len() > 0,
        ensures
            text@ == self.summary(),
    {
        let mut realms: Vec<&str> = Vec::new();
        let mut i: usize = 0;
        while i < self.realms.len()
            invariant
                i <= self.realms.len(),
                realms@.len() == i,
                forall|j: int| 0 <= j < i ==> (#[trigger] realms@[j])@ == self.realms@[j]@,
            decreases self.realms.len() - i,
        {
            realms.push(self.realms[i].as_str());
            i += 1;
        }
        assert(crate::grammar::texts(realms@) =~= views(self.realms@));
        let listed = render_list(realms);
        let article = a_or_an(self.form2.as_str());
        let mut text = String::new();
        text.append(self.name.as_str());
        text.append("; god of ");
        text.append(listed.as_str());
        text.append(" takes the form of ");
        text.append(article.as_str());
        text.append(" ");
        text.append(self.form2.as_str());
        assert(text@ =~= self.summary());
        text
    }
}

} // verus!
