//! Surname formats: how a surname is put together from two citizens' names.

use crate::dice::{chance, shuffle};
use rand::rngs::StdRng;
use vstd::prelude::*;
use vstd::string::*;

verus! {

/// A pattern for a surname: fixed text before, between and after the chosen
/// names of two citizens.
#[derive(Clone, Debug)]
pub struct SurnameFormat {
    pub pre: String,
    pub mind_1_first_present: bool,
    pub mind_1_last_present: bool,
    pub between: String,
    pub mind_2_first_present: bool,
    pub mind_2_last_present: bool,
    pub post: String,
}

/// A surname format as plain values.
pub struct SurnamePattern {
    pub pre: Seq<char>,
    pub first_1: bool,
    pub last_1: bool,
    pub between: Seq<char>,
    pub first_2: bool,
    pub last_2: bool,
    pub post: Seq<char>,
}

/// `text` where `present`, nothing otherwise.
pub open spec fn shown(present: bool, text: Seq<char>) -> Seq<char> {
    if present {
        text
    } else {
        Seq::empty()
    }
}

impl SurnamePattern {
    /// The surname this pattern gives for the two citizens' names.
    pub open spec fn rendered(
        self,
        first_1: Seq<char>,
        last_1: Seq<char>,
        first_2: Seq<char>,
        last_2: Seq<char>,
    ) -> Seq<char> {
        self.pre + shown(self.first_1, first_1) + shown(self.last_1, last_1) + self.between
            + shown(self.first_2, first_2) + shown(self.last_2, last_2) + self.post
    }
}

/// A pattern that shows only the chosen names, with `post` behind them.
pub open spec fn pattern(first_1: bool, last_1: bool, first_2: bool, last_2: bool, post: Seq<char>) -> SurnamePattern {
    SurnamePattern {
        pre: Seq::empty(),
        first_1,
        last_1,
        between: Seq::empty(),
        first_2,
        last_2,
        post,
    }
}

impl View for SurnameFormat {
    type V = SurnamePattern;

    open spec fn view(&self) -> SurnamePattern {
        SurnamePattern {
            pre: self.pre@,
            first_1: self.mind_1_first_present,
            last_1: self.mind_1_last_present,
            between: self.between@,
            first_2: self.mind_2_first_present,
            last_2: self.mind_2_last_present,
            post: self.post@,
        }
    }
}

impl SurnameFormat {
    /// The surname for the two citizens' first and last names.
    pub fn render(
        &self,
        mind_1_first: String,
        mind_1_last: String,
        mind_2_first: String,
        mind_2_last: String,
    ) -> (output: String)
        ensures
            output@ == self@.rendered(mind_1_first@, mind_1_last@, mind_2_first@, mind_2_last@),
    {
        let mut output = String::new();
        output.append(self.pre.as_str());
        if self.mind_1_first_present {
            output.append(mind_1_first.as_str());
        }
        if self.mind_1_last_present {
            output.append(mind_1_last.as_str());
        }
        output.append(self.between.as_str());
        if self.mind_2_first_present {
            output.append(mind_2_first.as_str());
        }
        if self.mind_2_last_present {
            output.append(mind_2_last.as_str());
        }
        output.append(self.post.as_str());
        assert(output@ =~= self@.rendered(mind_1_first@, mind_1_last@, mind_2_first@, mind_2_last@));
        output
    }

    /// A copy of this format.
    pub fn duplicate(&self) -> (copy: SurnameFormat)
        ensures
            copy@ == self@,
    {
        SurnameFormat {
            pre: self.pre.clone(),
            mind_1_first_present: self.mind_1_first_present,
            mind_1_last_present: self.mind_1_last_present,
            between: self.between.clone(),
            mind_2_first_present: self.mind_2_first_present,
            mind_2_last_present: self.mind_2_last_present,
            post: self.post.clone(),
        }
    }
}

fn plain(first_1: bool, last_1: bool, first_2: bool, last_2: bool, post: &str, between: &str) -> (f:
    SurnameFormat)
    ensures
        f@ == (SurnamePattern {
            pre: Seq::empty(),
            first_1,
            last_1,
            between: between@,
            first_2,
            last_2,
            post: post@,
        }),
{
    SurnameFormat {
        pre: String::new(),
        mind_1_first_present: first_1,
        mind_1_last_present: last_1,
        between: String::from_str(between),
        mind_2_first_present: first_2,
        mind_2_last_present: last_2,
        post: String::from_str(post),
    }
}

/// The marriage customs a culture can draw from.  Each entry gives the
/// surname of the first and of the second spouse: both names hyphenated,
/// the first spouse's name for both, the second spouse's name for both, or
/// each keeps their own.
pub open spec fn marriage_customs() -> Seq<(SurnamePattern, SurnamePattern)> {
    seq![
        (
            SurnamePattern { between: "-"@, ..pattern(false, true, false, true, ""@) },
            SurnamePattern { between: "-"@, ..pattern(false, true, false, true, ""@) },
        ),
        (pattern(false, true, false, false, ""@), pattern(false, true, false, false, ""@)),
        (pattern(false, false, false, true, ""@), pattern(false, false, false, true, ""@)),
        (pattern(false, true, false, false, ""@), pattern(false, false, false, true, ""@)),
    ]
}

/// The child-naming customs a culture can draw from.  Each entry gives the
/// surname of a son and of a daughter: a parent's surname, or a parent's
/// first name with `son`, `sen` or `dotter` behind it.
pub open spec fn child_customs() -> Seq<(SurnamePattern, SurnamePattern)> {
    seq![
        (pattern(false, true, false, false, ""@), pattern(false, true, false, false, ""@)),
        (pattern(false, false, false, true, ""@), pattern(false, false, false, true, ""@)),
        (pattern(true, false, false, false, "son"@), pattern(true, false, false, false, "sen"@)),
        (pattern(true, false, false, false, "son"@), pattern(false, false, true, false, "sen"@)),
        (pattern(false, false, true, false, "son"@), pattern(false, false, true, false, "sen"@)),
        (pattern(true, false, false, false, "son"@), pattern(true, false, false, false, "dotter"@)),
        (pattern(true, false, false, false, "son"@), pattern(false, false, true, false, "dotter"@)),
        (pattern(false, false, true, false, "son"@), pattern(false, false, true, false, "dotter"@)),
    ]
}

/// The views of a list of format pairs.
pub open spec fn patterns(formats: Seq<(SurnameFormat, SurnameFormat)>) -> Seq<
    (SurnamePattern, SurnamePattern),
> {
    Seq::new(formats.len(), |i: int| (formats[i].0@, formats[i].1@))
}

/// `chosen` is a draw of two or three different entries of `customs`.
pub open spec fn drawn_from(
    chosen: Seq<(SurnamePattern, SurnamePattern)>,
    customs: Seq<(SurnamePattern, SurnamePattern)>,
) -> bool {
    &&& (chosen.len() == 2 || chosen.len() == 3)
    &&& exists|picks: Seq<int>|
        #![auto]
        {
            &&& picks.len() == chosen.len()
            &&& picks.no_duplicates()
            &&& forall|k: int|
                0 <= k < picks.len() ==> 0 <= picks[k] < customs.len() && chosen[k]
                    == customs[picks[k]]
        }
}

fn marriage_customs_list() -> (list: Vec<(SurnameFormat, SurnameFormat)>)
    ensures
        list@.len() == 4,
        patterns(list@) == marriage_customs(),
{
    let mut list: Vec<(SurnameFormat, SurnameFormat)> = Vec::new();
    list.push(
        (plain(false, true, false, true, "", "-"), plain(false, true, false, true, "", "-")),
    );
    list.push(
        (plain(false, true, false, false, "", ""), plain(false, true, false, false, "", "")),
    );
    list.push(
        (plain(false, false, false, true, "", ""), plain(false, false, false, true, "", "")),
    );
    list.push(
        (plain(false, true, false, false, "", ""), plain(false, false, false, true, "", "")),
    );
    proof {
        reveal_strlit("");
        assert(""@ =~= Seq::<char>::empty());
        assert(patterns(list@) =~= marriage_customs());
    }
    list
}

fn child_customs_list() -> (list: Vec<(SurnameFormat, SurnameFormat)>)
    ensures
        list@.len() == 8,
        patterns(list@) == child_customs(),
{
    let mut list: Vec<(SurnameFormat, SurnameFormat)> = Vec::new();
    list.push(
        (plain(false, true, false, false, "", ""), plain(false, true, false, false, "", "")),
    );
    list.push(
        (plain(false, false, false, true, "", ""), plain(false, false, false, true, "", "")),
    );
    list.push(
        (plain(true, false, false, false, "son", ""), plain(true, false, false, false, "sen", "")),
    );
    list.push(
        (plain(true, false, false, false, "son", ""), plain(false, false, true, false, "sen", "")),
    );
    list.push(
        (plain(false, false, true, false, "son", ""), plain(false, false, true, false, "sen", "")),
    );
    list.push(
        (
            plain(true, false, false, false, "son", ""),
            plain(true, false, false, false, "dotter", ""),
        ),
    );
    list.push(
        (
            plain(true, false, false, false, "son", ""),
            plain(false, false, true, false, "dotter", ""),
        ),
    );
    list.push(
        (
            plain(false, false, true, false, "son", ""),
            plain(false, false, true, false, "dotter", ""),
        ),
    );
    proof {
        reveal_strlit("");
        assert(""@ =~= Seq::<char>::empty());
        assert(patterns(list@) =~= child_customs());
    }
    list
}

/// The positions `0..n` in a random order.
pub fn shuffled_positions(rng: &mut StdRng, n: usize) -> (order: Vec<usize>)
    ensures
        order@.len() == n,
        order@.no_duplicates(),
        forall|k: int| 0 <= k < n ==> 0 <= #[trigger] order@[k] < n,
{
    let mut order: Vec<usize> = Vec::new();
    let mut i: usize = 0;
    while i < n
        invariant
            i <= n,
            order@.len() == i,
            forall|k: int| 0 <= k < i ==> order@[k] == k,
        decreases n - i,
    {
        order.push(i);
        i += 1;
    }
    let ghost sorted = order@;
    assert(sorted.no_duplicates());
    shuffle(rng, &mut order);
    proof {
        broadcast use vstd::seq_lib::to_multiset_len, vstd::seq_lib::to_multiset_contains;

        sorted.lemma_multiset_has_no_duplicates();
        order@.lemma_multiset_has_no_duplicates_conv();
        assert(order@.len() == order@.to_multiset().len());
        assert(sorted.len() == sorted.to_multiset().len());
        assert forall|k: int| 0 <= k < n implies 0 <= #[trigger] order@[k] < n by {
            let x = order@[k];
            assert(order@.contains(x));
            assert(order@.to_multiset().count(x) > 0);
            assert(sorted.contains(x));
            let j = choose|j: int| 0 <= j < sorted.len() && sorted[j] == x;
            assert(sorted[j] == j);
        }
    }
    order
}

fn draw_customs(rng: &mut StdRng, list: Vec<(SurnameFormat, SurnameFormat)>) -> (output: Vec<
    (SurnameFormat, SurnameFormat),
>)
    requires
        list@.len() >= 3,
    ensures
        drawn_from(patterns(output@), patterns(list@)),
{
    let order = shuffled_positions(rng, list.len());
    let amount: usize = if chance(rng, 500) {
        2
    } else {
        3
    };
    let mut output: Vec<(SurnameFormat, SurnameFormat)> = Vec::new();
    let mut i: usize = 0;
    while i < amount
        invariant
            i <= amount <= 3,
            order@.len() == list@.len(),
            list@.len() >= 3,
            forall|k: int| 0 <= k < order@.len() ==> 0 <= #[trigger] order@[k] < list@.len(),
            output@.len() == i,
            forall|k: int|
                0 <= k < i ==> (#[trigger] output@[k]).0@ == list@[order@[k] as int].0@
                    && output@[k].1@ == list@[order@[k] as int].1@,
        decreases amount - i,
    {
        let at: usize = order[i];
        output.push((list[at].0.duplicate(), list[at].1.duplicate()));
        i += 1;
    }
    proof {
        let picks = Seq::new(amount as nat, |k: int| order@[k] as int);
        assert(picks.no_duplicates()) by {
            assert forall|a: int, b: int|
                0 <= a < picks.len() && 0 <= b < picks.len() && a != b implies picks[a]
                != picks[b] by {
                assert(order@[a] != order@[b]);
            }
        }
        assert forall|k: int| 0 <= k < picks.len() implies 0 <= picks[k] < patterns(list@).len()
            && patterns(output@)[k] == patterns(list@)[picks[k]] by {
            assert(0 <= order@[k] < list@.len());
        }
    }
    output
}

/// Draws a culture's marriage customs: two or three different entries of
/// `marriage_customs`, in random order.
pub fn random_marriage_surname_formats(rng: &mut StdRng) -> (output: Vec<
    (SurnameFormat, SurnameFormat),
>)
    ensures
        drawn_from(patterns(output@), marriage_customs()),
{
    let list = marriage_customs_list();
    draw_customs(rng, list)
}

/// Draws a culture's child-naming customs: two or three different entries of
/// `child_customs`, in random order.
pub fn random_child_surname_formats(rng: &mut StdRng) -> (output: Vec<
    (SurnameFormat, SurnameFormat),
>)
    ensures
        drawn_from(patterns(output@), child_customs()),
{
    let list = child_customs_list();
    draw_customs(rng, list)
}

} // verus!
